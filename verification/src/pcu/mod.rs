//! The dispatch vocabulary that the backends share.
pub mod ir;
