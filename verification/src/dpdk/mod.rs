//! Kernel-bypass transport: what its poll loop decides.

pub mod device;
pub mod transport;
