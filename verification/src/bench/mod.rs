//! Benchmark harness logic.

pub mod blast;
pub mod calibration;
pub mod clock;
pub mod connection;
pub mod core_layout;
pub mod core_layout_laws;
pub mod engine_run;
pub mod health;
pub mod outcome_laws;
pub mod outcomes;
pub mod pacing;
pub mod phases;
pub mod pipeline_run;
pub mod replication_run;
pub mod report;
pub mod results_laws;
pub mod roundtrip;
pub mod series;
pub mod span_laws;
pub mod spans;
pub mod transport;
pub mod workload;
