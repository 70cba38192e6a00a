//! An in-memory key-value service core with request-latency metrics.
//!
//! The library holds the verified logic of the service: the latency
//! recorder and its percentile aggregation, the key-value store with the
//! responses its handlers produce, and the plain-text rendering of the
//! metrics report. The HTTP server around it lives outside the library.

pub mod metrics;
pub mod report;
pub mod store;
