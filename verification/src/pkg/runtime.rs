//! Descriptions of resource kinds.

pub mod schema;
