//! The target-relative path every write is bounded by.
//!
//! A destination is a path inside the target, and this type is where that
//! is proven once. Empty, absolute, climbing out, or carrying a NUL are
//! refusals rather than values a later writer has to re-check.

pub use crate::plan::operation::{TargetPath, TargetPathError};
