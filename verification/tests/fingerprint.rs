//! Replica scenarios: equal tracked state gives equal checksums, divergent
//! state gives different ones, and the correspondence table neutralizes
//! spawn-order differences.

use desync_fingerprint::{
    calculate_crc, Crc, DesyncPluginData, EntityMap, EntityRecord, FieldValue, SortStrategy,
    WorldSnapshot,
};

const FOO: u64 = 1;

fn entity(id: u64, archetype: u64, marked: bool, fields: Vec<(u64, u64)>) -> EntityRecord {
    EntityRecord {
        id,
        archetype,
        marked,
        fields: fields
            .into_iter()
            .map(|(type_id, value)| FieldValue { type_id, value })
            .collect(),
    }
}

fn build_data() -> DesyncPluginData {
    let mut data = DesyncPluginData::default();
    data.track_desync(FOO);
    data
}

fn crc_of(stream: &[u8]) -> u16 {
    crc::Crc::<u16>::new(&crc::CRC_16_IBM_SDLC).checksum(stream)
}

#[test]
fn detect_sync() {
    let data = build_data();
    let world_1 = WorldSnapshot {
        entities: vec![entity(0, 0, true, vec![(FOO, 0)])],
        entity_map: None,
    };
    let world_2 = WorldSnapshot {
        entities: vec![entity(0, 0, true, vec![(FOO, 0)])],
        entity_map: None,
    };
    assert_eq!(calculate_crc(&world_1, &data), calculate_crc(&world_2, &data));
}

#[test]
fn detect_desync() {
    let data = build_data();
    let world_1 = WorldSnapshot {
        entities: vec![entity(0, 0, true, vec![(FOO, 0)])],
        entity_map: None,
    };
    let world_2 = WorldSnapshot {
        entities: vec![entity(0, 0, true, vec![(FOO, 1)])],
        entity_map: None,
    };
    assert_ne!(calculate_crc(&world_1, &data), calculate_crc(&world_2, &data));
}

#[test]
fn entity_mapping_sync_and_desync() {
    // Replica 1 spawns values 0 then 1; replica 2 spawns 1 then 0. Each
    // replica assigns entity identifiers in its own spawn order, so the
    // identifiers no longer correspond.
    let data_1 = build_data();
    let data_2 = build_data();
    let table = EntityMap { pairs: vec![(0, 1), (1, 0)] };
    let mut world_1 = WorldSnapshot {
        entities: vec![
            entity(0, 0, true, vec![(FOO, 0)]),
            entity(1, 0, true, vec![(FOO, 1)]),
        ],
        entity_map: Some(EntityMap { pairs: table.pairs.clone() }),
    };
    let world_2 = WorldSnapshot {
        entities: vec![
            entity(0, 0, true, vec![(FOO, 1)]),
            entity(1, 0, true, vec![(FOO, 0)]),
        ],
        entity_map: Some(EntityMap { pairs: table.pairs.clone() }),
    };

    // Under identifier order the checksums differ although the logical
    // state is the same.
    assert_ne!(calculate_crc(&world_1, &data_1), calculate_crc(&world_2, &data_2));

    // Switching to the correspondence table aligns the replicas.
    let mut data_1 = data_1;
    let mut data_2 = data_2;
    data_1.entity_sort = SortStrategy::FromEntityMap { from_self: true };
    data_2.entity_sort = SortStrategy::FromEntityMap { from_self: false };
    assert_eq!(calculate_crc(&world_1, &data_1), calculate_crc(&world_2, &data_2));

    // A real divergence is still detected.
    world_1.entities[0].fields[0].value = 2;
    assert_ne!(calculate_crc(&world_1, &data_1), calculate_crc(&world_2, &data_2));
}

#[test]
fn fingerprint_is_deterministic() {
    let data = build_data();
    let world = WorldSnapshot {
        entities: vec![
            entity(3, 1, true, vec![(FOO, 7)]),
            entity(4, 1, true, vec![(FOO, 11)]),
        ],
        entity_map: None,
    };
    assert_eq!(calculate_crc(&world, &data), calculate_crc(&world, &data));
}

#[test]
fn fingerprint_matches_crc_check_value() {
    // One marked entity holding 123456789 serializes to the bytes
    // "123456789", whose CRC-16/IBM-SDLC reduction is the algorithm's
    // published check value.
    let data = build_data();
    let world = WorldSnapshot {
        entities: vec![entity(0, 0, true, vec![(FOO, 123456789)])],
        entity_map: None,
    };
    assert_eq!(calculate_crc(&world, &data), 0x906e);
    assert_eq!(calculate_crc(&world, &data), crc_of(b"123456789"));
}

#[test]
fn fingerprint_concatenates_in_identifier_order() {
    // Entities sort by storage group first, then by identifier, and the
    // canonical stream is the concatenation of the decimal values.
    let data = build_data();
    let world = WorldSnapshot {
        entities: vec![
            entity(5, 1, true, vec![(FOO, 31)]),
            entity(7, 0, true, vec![(FOO, 42)]),
        ],
        entity_map: None,
    };
    assert_eq!(calculate_crc(&world, &data), crc_of(b"4231"));
}

#[test]
fn fields_serialize_in_type_identifier_order() {
    // Within one entity, registered fields serialize sorted by data-type
    // identifier, not in attachment order.
    let mut data = DesyncPluginData::default();
    data.track_desync(9);
    data.track_desync(3);
    let world = WorldSnapshot {
        entities: vec![entity(0, 0, true, vec![(9, 7), (3, 1)])],
        entity_map: None,
    };
    assert_eq!(calculate_crc(&world, &data), crc_of(b"17"));
}

#[test]
fn untracked_data_is_ignored() {
    let other: u64 = 9;
    let data = build_data();
    let plain = WorldSnapshot {
        entities: vec![entity(0, 0, true, vec![(FOO, 5)])],
        entity_map: None,
    };
    // The same tracked state, plus an unregistered field on the marked
    // entity and a whole unmarked entity.
    let noisy = WorldSnapshot {
        entities: vec![
            entity(0, 0, true, vec![(FOO, 5), (other, 77)]),
            entity(1, 2, false, vec![(FOO, 99)]),
        ],
        entity_map: None,
    };
    assert_eq!(calculate_crc(&plain, &data), calculate_crc(&noisy, &data));
}

#[test]
fn storage_order_is_irrelevant() {
    // The same entities, recorded in reversed order, fingerprint equally:
    // sorting by the identifiers inherent to the entities cancels the
    // order of the spawn calls.
    let data = build_data();
    let world_1 = WorldSnapshot {
        entities: vec![
            entity(0, 0, true, vec![(FOO, 0)]),
            entity(1, 0, true, vec![(FOO, 1)]),
        ],
        entity_map: None,
    };
    let world_2 = WorldSnapshot {
        entities: vec![
            entity(1, 0, true, vec![(FOO, 1)]),
            entity(0, 0, true, vec![(FOO, 0)]),
        ],
        entity_map: None,
    };
    assert_eq!(calculate_crc(&world_1, &data), calculate_crc(&world_2, &data));
}

#[test]
fn diverged_identifiers_expose_false_positive() {
    // Logically identical replicas whose identifier assignment diverged:
    // the identifier-order strategy reports a difference by design.
    let data = build_data();
    let world_1 = WorldSnapshot {
        entities: vec![
            entity(0, 0, true, vec![(FOO, 0)]),
            entity(1, 0, true, vec![(FOO, 1)]),
        ],
        entity_map: None,
    };
    let world_2 = WorldSnapshot {
        entities: vec![
            entity(0, 0, true, vec![(FOO, 1)]),
            entity(1, 0, true, vec![(FOO, 0)]),
        ],
        entity_map: None,
    };
    assert_ne!(calculate_crc(&world_1, &data), calculate_crc(&world_2, &data));
}

#[test]
fn end_to_end_replica_comparison() {
    let data = build_data();
    // Each replica spawns one marked entity with value 0: equal.
    let replica_a = WorldSnapshot {
        entities: vec![entity(0, 0, true, vec![(FOO, 0)])],
        entity_map: None,
    };
    let mut replica_b = WorldSnapshot {
        entities: vec![entity(0, 0, true, vec![(FOO, 0)])],
        entity_map: None,
    };
    assert_eq!(calculate_crc(&replica_a, &data), calculate_crc(&replica_b, &data));

    // Replica B's entity changes to 1: different.
    replica_b.entities[0].fields[0].value = 1;
    assert_ne!(calculate_crc(&replica_a, &data), calculate_crc(&replica_b, &data));

    // Both spawn values 0 and 1, in reversed call order but keyed by the
    // creation-sequence identifiers inherent to the entities: equal.
    let replica_a = WorldSnapshot {
        entities: vec![
            entity(0, 0, true, vec![(FOO, 0)]),
            entity(1, 0, true, vec![(FOO, 1)]),
        ],
        entity_map: None,
    };
    let replica_b = WorldSnapshot {
        entities: vec![
            entity(1, 0, true, vec![(FOO, 1)]),
            entity(0, 0, true, vec![(FOO, 0)]),
        ],
        entity_map: None,
    };
    assert_eq!(calculate_crc(&replica_a, &data), calculate_crc(&replica_b, &data));
}

#[test]
fn update_crc_overwrites_held_value() {
    let data = build_data();
    let world = WorldSnapshot {
        entities: vec![entity(0, 0, true, vec![(FOO, 123456789)])],
        entity_map: None,
    };
    let mut held = Crc::default();
    assert_eq!(held, Crc(0));
    desync_fingerprint::update_crc(&world, &data, &mut held);
    assert_eq!(held, Crc(0x906e));
}
