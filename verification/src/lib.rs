//! The core of an HTTP load generator: how the requests of a run are shared
//! out among its workers, what a worker and the collector of the results do
//! at each step, and how the collected samples are reduced to a report.
//!
//! The library neither sends a request nor reads a clock: it decides, and its
//! caller acts. All its statistics are exact integer arithmetic, on
//! nanoseconds for times and on millionths for ratios.

pub mod arg;
pub mod client;
pub mod errors;
pub mod histogram;
pub mod percentile;
pub mod report;
pub mod sorting;
pub mod text;
pub mod work;
