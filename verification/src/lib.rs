//! Core logic of a distributed actor host and its key-value capability provider:
//! artifact reference classification and fetch planning, per-authority registry
//! credential resolution, link-configuration lookup, the per-actor link table
//! with its lifecycle, and the key-value command semantics.

pub mod config;
pub mod fetch;
pub mod links;
pub mod provider;
pub mod reference;
pub mod store;
