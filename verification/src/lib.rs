//! Red Robin: a configurable network connectivity and diagnostics tester.
//!
//! This crate holds the verified core of the tool: configuration and its
//! validation, latency ratings, per-test results, connection statistics,
//! report rendering, and the parsers for the system's routing and resolver
//! tables.

pub mod config;
pub mod ratings;
pub mod text;
pub mod result;
pub mod runner;
pub mod statistics;
pub mod json;
pub mod output;
pub mod network;
pub mod system;
