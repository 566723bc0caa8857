//! Watches log streams, picks out lines that report trouble, and hands them
//! on in batches, deduplicated in time and rate-limited.
pub mod text;
pub mod pattern;
pub mod record;
pub mod detectors;
pub mod rate_limit;
pub mod monitor;
pub mod sanitizer;
pub mod config;
pub mod sources;
pub mod status;
