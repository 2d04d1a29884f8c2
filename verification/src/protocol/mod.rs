//! Wire messages and the two ends that exchange them.

pub mod client;
pub mod message;
pub mod response_encoder;
