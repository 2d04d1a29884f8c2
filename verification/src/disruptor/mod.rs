//! Ring buffers between pipeline stages.

pub mod spsc;
