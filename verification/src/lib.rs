//! Package-repository index engine: the versioned text index of the artifacts
//! a mirror offers, the derivation of index entries from artifact files, and
//! the planning of package archives and batched downloads.

pub mod error;
pub mod text;
pub mod codec;
pub mod database;
pub mod crumb;
pub mod mirror;
pub mod net;
pub mod order;
pub mod laws;
