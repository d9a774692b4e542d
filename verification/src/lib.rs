//! Storage and indexing core of a turn-based simulation.
//!
//! Entities are rows of heterogeneous, enum-tagged components. A `Table`
//! holds one entity's components, keyed by discriminant. A store of tables
//! (trait `EntityTable`) maps entity ids to tables, with two interchangeable
//! backends: a nested map and a flattened store with reverse indices. A
//! `SpatialHashMap` keeps per-cell aggregates (occupancy, per-type counts,
//! summed opacity) in sync with the store by replaying the same
//! `UpdateSummary` that mutates the store.

pub mod assoc;
pub mod entity;
pub mod table;
pub mod table_table;
pub mod hash_map_table_table;
pub mod flat_table_table;
pub mod metadata;
pub mod update;
pub mod spatial_hash;
pub mod rule;
pub mod behaviour;
pub mod consistency;
pub mod terrain;
