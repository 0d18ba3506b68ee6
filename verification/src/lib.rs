//! A verified core for caching forked chain state.

pub mod access_list;
pub mod access_set;
pub mod block;
pub mod bulk_storage;
pub mod bundle;
pub mod bytes;
pub mod cache;
pub mod collections;
pub mod errors;
pub mod execution;
pub mod foreign;
pub mod pricing_laws;
pub mod primitives;
pub mod simulation_laws;
pub mod text;
