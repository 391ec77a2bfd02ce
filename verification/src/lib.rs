//! A micro-benchmarking harness.
//!
//! The harness times user-supplied benchmark bodies against a monotonic
//! per-process CPU timer. A benchmark body may pause and resume the timer to
//! keep setup work out of the measured interval, and receives one input value
//! derived from a numeric range through a chain of generators. Each
//! configuration is repeated until both a minimum number of repetitions and a
//! minimum accumulated measured duration have been reached, and the average
//! time is reported as one CSV row.

pub mod benchmark;
pub mod clock;
pub mod config;
pub mod generator;
pub mod report;
pub mod state;
pub mod text;

pub use benchmark::Bench;
pub use benchmark::BenchError;
pub use benchmark::Benchmark;
pub use clock::Clock;
pub use config::Config;
pub use config::Filter;
pub use generator::Generator;
pub use report::Report;
pub use state::State;
