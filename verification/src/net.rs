//! Retrieval over the network.

pub mod download;
