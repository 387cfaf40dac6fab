//! The parts a node is assembled from: data sources and the store they fill.

pub mod data_sources;
pub mod store;
