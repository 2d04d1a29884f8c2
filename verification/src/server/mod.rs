//! The trading node around the exchange.

pub mod app_factory;
pub mod core_list_laws;
pub mod named_cores;
pub mod promotion;
pub mod startup;
