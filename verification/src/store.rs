//! Records of the persisted configuration store.
//!
//! The control plane keeps map geometry, cached collision maps and named
//! configuration values in a relational store; these are the row types it
//! reads and writes. The store itself lives behind the control plane —
//! here are only the plain values that cross that boundary.

use vstd::prelude::*;

verus! {

/// A stored map configuration row.
pub struct MapConfig {
    pub id: i32,
    pub map_key: String,
    pub description: String,
    pub config: String,
}

/// The listing form of a map configuration: key and description only.
pub struct MapConfigMetadata {
    pub map_key: String,
    pub description: String,
}

/// A map configuration to insert or update, before it has an id.
pub struct NewMapConfig {
    pub map_key: String,
    pub description: String,
    pub config: String,
}

/// A cached collision map: the PNG bytes for one map.
pub struct CollisionData {
    pub id: i32,
    pub map_id: i32,
    pub data: Vec<u8>,
}

/// A collision map to insert for a map, before it has an id.
pub struct NewCollisionData {
    pub map_id: i32,
    pub data: Vec<u8>,
}

/// A stored configuration value, keyed by name and type.
pub struct Config {
    pub id: i32,
    pub key: String,
    pub type_: String,
    pub description: String,
    pub value: String,
}

/// The listing form of a configuration value.
pub struct ConfigMetadata {
    pub key: String,
    pub type_: String,
    pub description: String,
}

/// A configuration value to insert or update, before it has an id.
pub struct NewConfig {
    pub key: String,
    pub type_: String,
    pub description: String,
    pub value: String,
}

} // verus!
