//! The exchange: order admission, settlement and the request dispatcher.

pub mod admission;
pub mod fees;
pub mod server_app;
pub mod settlement;
pub mod settlement_laws;
pub mod submission;
pub mod trading_event;
