//! Tools over journals.

pub mod batches;
pub mod diff;
