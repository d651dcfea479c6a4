//! A small executable consumer of dialect programs and fragments.
//!
//! The machine implements a typed, versioned `u32` stream dialect: `input.u32` reads the next
//! caller input, `add.u32` performs wrapping addition, and `emit.u32` appends to caller output. The
//! program path binds named `u32` ports and supports `literal.u32` with a typed `value` immediate
//! plus wrapping addition. Both paths use caller-provided storage and check before they execute.
pub mod dialect;
pub mod execute;
pub mod meaning;
pub mod names;
pub mod program;
pub mod support;
