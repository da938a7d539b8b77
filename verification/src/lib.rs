//! Keeps a machine awake while the network is busy: per-interface byte
//! counters are sampled once per second, smoothed over a bounded history, and
//! a two-state controller decides when a sleep-prevention handle is held.

pub mod data;
pub mod monitor;
pub mod sys;
