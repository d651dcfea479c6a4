//! Lowering of dispatch kernels into SPIR-V modules.
pub mod admission_laws;
pub mod dataflow;
pub mod error;
pub mod flow_writer;
pub mod ids;
pub mod laws;
pub mod lower;
pub mod machine;
pub mod meaning;
pub mod message;
pub mod numbers;
pub mod sink;
pub mod types;
pub mod validate;
pub mod words;
pub mod writer;
