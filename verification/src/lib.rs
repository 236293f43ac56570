//! A zero-configuration mock REST data backend: JSON documents become
//! resource collections with CRUD operations, auto-assigned identifiers
//! and a deterministic multi-source merge.
pub mod json;
pub mod ids;
pub mod merge;
pub mod store;
pub mod routes;
pub mod proto;
pub mod laws;
