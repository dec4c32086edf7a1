//! Desync detection by world-state fingerprinting.
//!
//! Each replica of a deterministic simulation periodically reduces the
//! tracked part of its state to a 16-bit checksum; replicas whose checksums
//! differ have diverged. The library models the tracked state as plain
//! values, orders it deterministically, serializes it canonically and
//! reduces the byte stream with a CRC.

use vstd::prelude::*;

pub mod codec;
pub mod concat;
pub mod laws;
pub mod pipeline;
pub mod registry;
pub mod sorting;
pub mod strategy;
pub mod world;

pub use pipeline::{calculate_crc, get_tracked_components, update_crc};
pub use registry::{DesyncPluginData, SortStrategy};
pub use strategy::{sort_entities_ids, sort_from_entity_map};
pub use world::{EntityMap, EntityRecord, FieldValue, WorldSnapshot};

verus! {

/// Holds the checksum of the world at the start of the current cycle.
///
/// The initial value, before any computation has run, is zero; it must not
/// be read as "replicas agree".
#[derive(Debug, Clone, Copy, PartialEq, Eq, Structural)]
pub struct Crc(pub u16);

impl Default for Crc {
    fn default() -> (r: Self)
        ensures
            r.0 == 0,
    {
        Crc(0)
    }
}

/// Marker a host attaches to an entity to opt it into fingerprinting.
pub struct TrackDesync;

} // verus!
