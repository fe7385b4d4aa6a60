//! Energy metering and CPU-time based energy attribution for a process tree.
//!
//! Energies are fixed-point integers counted in quanta of 2^-31 joule, which
//! represents every scaled hardware counter value exactly. Times are counted in
//! nanoseconds.

pub mod analysis;
pub mod counter;
pub mod platform;
pub mod sampler;
pub mod fields;
pub mod tracker;
pub mod units;
