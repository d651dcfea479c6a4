//! Verified core of the PCU dialects: the tensor graph dialect with its planner and reference
//! evaluator, the decisions of the ROCm tensor backend, the SPIR-V lowering, and the reference
//! virtual machine.
pub mod pcu;
pub mod rocm;
pub mod spirv;
pub mod tensor;
pub mod vm;
