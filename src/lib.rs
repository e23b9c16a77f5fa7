//! A range searcher over a 256-bit keyspace: exhaustive batch scanning,
//! an adaptive random walk, a throughput-driven parameter planner and a
//! capacity-proportional work allocator.
pub mod allocator;
pub mod batch;
pub mod benchmark;
pub mod error;
pub mod hex;
pub mod key;
pub mod oracle;
pub mod planner;
pub mod random;
pub mod walk;
