//! Sampling-and-history engine of a live host dashboard.
//!
//! The engine takes raw host readings (memory, CPU load, packet counters,
//! per-process CPU share), keeps a bounded history per stream, derives
//! chart-ready coordinate series, ranks processes and totals the packet
//! counters. Every quantity is an integer: memory in bytes, CPU load in
//! hundredths of a percent, and the measured share of a process in millionths
//! of a percent, so that dividing it by the number of CPUs loses nothing
//! that the table shows.
//!
//! - [`history`]: the bounded buffer of one stream.
//! - [`series`]: chart coordinates derived from a buffer.
//! - [`registry`]: the CPU streams by name.
//! - [`process`]: the ranked process table.
//! - [`network`]: the packet totals.
//! - [`snapshot`]: the published state and what a reading does to it.
//! - [`updater`]: the timer-driven update cycle.
//! - [`store`]: the snapshot shared between one writer and many readers.

pub mod history;
pub mod series;
pub mod process;
pub mod network;
pub mod registry;
pub mod snapshot;
pub mod updater;
pub mod store;
