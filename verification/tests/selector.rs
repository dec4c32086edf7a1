//! Selector, registry and correspondence-table behavior on concrete
//! values.

use desync_fingerprint::{
    calculate_crc, get_tracked_components, sort_entities_ids, sort_from_entity_map,
    DesyncPluginData, EntityMap, EntityRecord, FieldValue, WorldSnapshot,
};

fn entity(id: u64, archetype: u64, marked: bool, fields: Vec<(u64, u64)>) -> EntityRecord {
    EntityRecord {
        id,
        archetype,
        marked,
        fields: fields
            .into_iter()
            .map(|(type_id, value)| FieldValue { type_id, value })
            .collect(),
    }
}

#[test]
fn selector_filters_and_sorts_registered_types() {
    let mut data = DesyncPluginData::default();
    data.track_desync(9);
    data.track_desync(3);
    let world = WorldSnapshot {
        entities: vec![entity(0, 0, true, vec![(9, 1), (5, 2), (3, 4)])],
        entity_map: None,
    };
    // Only the registered types remain, in numeric identifier order.
    assert_eq!(get_tracked_components(0, &world, &data), vec![3, 9]);
}

#[test]
fn default_order_sorts_groups_then_identifiers() {
    let world = WorldSnapshot {
        entities: vec![
            entity(5, 1, true, vec![]),
            entity(7, 0, true, vec![]),
            entity(6, 1, true, vec![]),
            entity(8, 0, false, vec![]),
        ],
        entity_map: None,
    };
    // Unmarked entities are excluded; the rest sort by storage group,
    // then by entity identifier.
    assert_eq!(sort_entities_ids(&world), vec![7, 5, 6]);
}

#[test]
fn correspondence_order_resolves_sources() {
    let world = WorldSnapshot {
        entities: vec![
            entity(0, 0, true, vec![]),
            entity(1, 0, true, vec![]),
        ],
        entity_map: Some(EntityMap { pairs: vec![(1, 0), (0, 1)] }),
    };
    // From the reference side: own marked identifiers in numeric order.
    assert_eq!(sort_from_entity_map(&world, true), vec![0, 1]);
    // From the other side: table entries by the reference's identifier,
    // resolved to local identifiers.
    assert_eq!(sort_from_entity_map(&world, false), vec![1, 0]);
}

#[test]
fn missing_correspondence_is_reported() {
    let table = EntityMap { pairs: vec![(0, 4)] };
    assert_eq!(table.map_entity(0), Some(4));
    assert_eq!(table.map_entity(3), None);
}

#[test]
fn registration_is_idempotent() {
    let mut once = DesyncPluginData::default();
    once.track_desync(1);
    let mut twice = DesyncPluginData::default();
    twice.track_desync(1);
    twice.track_desync(1);
    let world = WorldSnapshot {
        entities: vec![entity(0, 0, true, vec![(1, 6)])],
        entity_map: None,
    };
    assert_eq!(calculate_crc(&world, &once), calculate_crc(&world, &twice));
}

#[test]
fn destroyed_entity_contributes_nothing() {
    let data = {
        let mut d = DesyncPluginData::default();
        d.track_desync(1);
        d
    };
    // The table still names entity 9, which no longer exists locally:
    // the stale identifier is skipped rather than failing the cycle.
    let world_stale = WorldSnapshot {
        entities: vec![entity(0, 0, true, vec![(1, 5)])],
        entity_map: Some(EntityMap { pairs: vec![(0, 0), (1, 9)] }),
    };
    let world_clean = WorldSnapshot {
        entities: vec![entity(0, 0, true, vec![(1, 5)])],
        entity_map: Some(EntityMap { pairs: vec![(0, 0)] }),
    };
    let mut data_map = data;
    data_map.entity_sort = desync_fingerprint::SortStrategy::FromEntityMap { from_self: false };
    assert_eq!(
        calculate_crc(&world_stale, &data_map),
        calculate_crc(&world_clean, &data_map)
    );
}
