//! Statistics on InfluxDB lines: what was seen, what changed, and what has fallen silent.

pub mod activity;
pub mod api;
pub mod arith;
pub mod cache;
pub mod config;
pub mod consumer;
pub mod fold;
pub mod invariants;
pub mod laws;
pub mod model;
pub mod order;
pub mod ranking;
pub mod reports;
pub mod stats_utils;
pub mod text;
pub mod value;
