//! Engine-internal machinery.

pub mod scheduler;
