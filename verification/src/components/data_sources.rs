//! What data sources and their runtime hosts emit.

pub mod host;
pub mod provider;
