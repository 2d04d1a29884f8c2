//! Trading engine core.

pub mod bench;
pub mod bytes;
pub mod disruptor;
pub mod dpdk;
pub mod engine;
pub mod exchange;
pub mod gateway;
pub mod journal;
pub mod orderbook;
pub mod protocol;
pub mod server;
pub mod text;
pub mod text_laws;
pub mod transport;
pub mod types;
