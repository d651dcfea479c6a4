//! The tensor dialect: a small append-only graph language over dense row-major `f32` tensors.
//!
//! Elements are carried as IEEE-754 binary32 bit patterns. Tests on a value (finite, positive,
//! equal) are decided on the bits; additions and products come from an [`arithmetic::F32Arithmetic`]
//! that the caller selects.
pub mod arithmetic;
pub mod backward;
pub mod bits;
pub mod builder_laws;
pub mod closed;
pub mod closed_operations;
pub mod closure;
pub mod derivative_laws;
pub mod derivative_values;
pub mod descriptor;
pub mod deterministic;
pub mod directional;
pub mod error;
pub mod evaluate;
pub mod evaluation_laws;
pub mod feedback;
pub mod gradients;
pub mod graph;
pub mod group_laws;
pub mod groups;
pub mod lowered_values;
pub mod lowering;
pub mod lowering_laws;
pub mod peak;
pub mod plan;
pub mod residues;
pub mod rewrite;
pub mod schedule;
pub mod storage;
pub mod value;
