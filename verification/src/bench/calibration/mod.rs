//! Calibration of synthetic load against recorded market data.

pub mod book;
pub mod itch;
pub mod itch_layout;
pub mod tracker_laws;
pub mod walk;
