//! The ROCm tensor backend: which kernels it builds, which graphs it takes, how it lays values
//! out, and in which order it runs, keeps and releases them.
//!
//! Device work itself is done by the caller. Here the caller learns what to do next and reports
//! back what came of it.
pub mod assess;
pub mod cache;
pub mod cache_laws;
pub mod complete;
pub mod error;
pub mod execute;
pub mod feedback;
pub mod graph_values;
pub mod kernel_values;
pub mod kernels;
pub mod layout;
pub mod matmul;
pub mod node_work;
pub mod prepare;
pub mod programs;
pub mod progress;
pub mod questions;
pub mod requests;
pub mod refusal_laws;
pub mod reuse;
pub mod run;
pub mod run_laws;
pub mod select;
pub mod sizes;
pub mod small;
pub mod sources;
pub mod transfer;
pub mod validate;
pub mod work_values;
