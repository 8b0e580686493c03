//! The package index.

pub mod client;
