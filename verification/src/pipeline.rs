//! The fingerprint computation pipeline: walk entities in the strategy's
//! order, walk each marked entity's registered fields in a stable order,
//! serialize each value canonically, concatenate, and reduce the stream to
//! the 16-bit checksum.

use vstd::prelude::*;
use crate::codec::{crc16_checksum, crc16_ibm_sdlc, dec_bytes};
use crate::concat::{concat_map, lemma_concat_map_push};
use crate::registry::{DesyncPluginData, SortStrategy};
use crate::sorting::{id_leq, lemma_id_leq_total, sort_ids};
use crate::strategy::{default_order, map_strategy_order, sort_entities_ids, sort_from_entity_map};
use crate::world::{
    EntityRecord, FieldValue, WorldSnapshot, find_entity, find_field, lemma_find_field_present,
};

verus! {

/// Emits a field's data-type identifier when it is registered, and nothing
/// otherwise.
pub open spec fn registered_id_emitter(reg: Seq<u64>) -> spec_fn(FieldValue) -> Seq<u64> {
    |f: FieldValue|
        if reg.contains(f.type_id) {
            seq![f.type_id]
        } else {
            Seq::<u64>::empty()
        }
}

/// The registered data-type identifiers among `fields`, in field order.
pub open spec fn registered_field_ids(fields: Seq<FieldValue>, reg: Seq<u64>) -> Seq<u64> {
    concat_map(fields, registered_id_emitter(reg))
}

/// The selector's result: the registered data-type identifiers of an
/// entity's fields, in numeric identifier order.
pub open spec fn selected_ids(fields: Seq<FieldValue>, reg: Seq<u64>) -> Seq<u64> {
    registered_field_ids(fields, reg).sort_by(id_leq())
}

/// The value an entity holds under data-type identifier `t`; zero when the
/// entity has no such field (contracts only apply it to present fields).
pub open spec fn field_val(fields: Seq<FieldValue>, t: u64) -> u64 {
    match find_field(fields, t) {
        Some(v) => v,
        None => 0,
    }
}

/// Emits the canonical serialization of the field a data-type identifier
/// selects.
pub open spec fn field_bytes_emitter(fields: Seq<FieldValue>) -> spec_fn(u64) -> Seq<u8> {
    |t: u64| dec_bytes(field_val(fields, t) as nat)
}

/// The canonical bytes of the given fields, serialized in the order of
/// `types`, concatenated without delimiters.
pub open spec fn fields_stream(types: Seq<u64>, fields: Seq<FieldValue>) -> Seq<u8> {
    concat_map(types, field_bytes_emitter(fields))
}

/// One entity's contribution to the canonical stream: the serializations
/// of its registered fields, in selector order.
pub open spec fn entity_payload(e: EntityRecord, reg: Seq<u64>) -> Seq<u8> {
    fields_stream(selected_ids(e.fields@, reg), e.fields@)
}

/// The contribution of the entity an identifier denotes: its payload when
/// it exists and carries the marker, and nothing when it has been
/// destroyed or is unmarked (both are silently skipped).
pub open spec fn entity_stream(entities: Seq<EntityRecord>, reg: Seq<u64>, eid: u64) -> Seq<u8> {
    match find_entity(entities, eid) {
        Some(e) => if e.marked {
            entity_payload(e, reg)
        } else {
            Seq::<u8>::empty()
        },
        None => Seq::<u8>::empty(),
    }
}

/// Emits the contribution of each entity identifier in an order.
pub open spec fn stream_emitter(entities: Seq<EntityRecord>, reg: Seq<u64>) -> spec_fn(u64) -> Seq<
    u8,
> {
    |eid: u64| entity_stream(entities, reg, eid)
}

/// The entity order the configured strategy chooses.
pub open spec fn chosen_order(w: WorldSnapshot, data: DesyncPluginData) -> Seq<u64> {
    match data.entity_sort {
        SortStrategy::ByIds => default_order(w.entities@),
        SortStrategy::FromEntityMap { from_self } => map_strategy_order(w, from_self),
    }
}

/// The whole canonical byte stream of a world under a configuration.
pub open spec fn fingerprint_stream(w: WorldSnapshot, data: DesyncPluginData) -> Seq<u8> {
    concat_map(chosen_order(w, data), stream_emitter(w.entities@, data.registered_types@))
}

/// The fingerprint: the CRC-16/IBM-SDLC reduction of the canonical stream.
pub open spec fn fingerprint(w: WorldSnapshot, data: DesyncPluginData) -> u16 {
    crc16_ibm_sdlc(fingerprint_stream(w, data))
}

/// An identifier selected for an entity denotes a present field of a
/// registered type.
proof fn lemma_registered_field_ids_member(fields: Seq<FieldValue>, reg: Seq<u64>, t: u64)
    requires
        registered_field_ids(fields, reg).contains(t),
    ensures
        exists|i: int| 0 <= i < fields.len() && fields[i].type_id == t,
        reg.contains(t),
    decreases fields.len(),
{
    let emitted = registered_id_emitter(reg)(fields[0]);
    assert(registered_field_ids(fields, reg) == emitted + registered_field_ids(
        fields.drop_first(),
        reg,
    ));
    let k = choose|k: int|
        0 <= k < registered_field_ids(fields, reg).len() && registered_field_ids(fields, reg)[k]
            == t;
    if k < emitted.len() {
        assert(fields[0].type_id == t && reg.contains(t));
    } else {
        assert(registered_field_ids(fields.drop_first(), reg)[k - emitted.len()] == t);
        lemma_registered_field_ids_member(fields.drop_first(), reg, t);
        let i = choose|i: int|
            0 <= i < fields.drop_first().len() && fields.drop_first()[i].type_id == t;
        assert(fields[i + 1].type_id == t);
    }
}

/// A selected identifier denotes a present field of a registered type.
pub proof fn lemma_selected_ids_member(fields: Seq<FieldValue>, reg: Seq<u64>, t: u64)
    requires
        selected_ids(fields, reg).contains(t),
    ensures
        find_field(fields, t) is Some,
        reg.contains(t),
{
    broadcast use vstd::seq_lib::group_to_multiset_ensures;

    lemma_id_leq_total();
    registered_field_ids(fields, reg).lemma_sort_by_ensures(id_leq());
    assert(selected_ids(fields, reg).to_multiset().count(t) > 0);
    assert(registered_field_ids(fields, reg).contains(t));
    lemma_registered_field_ids_member(fields, reg, t);
    lemma_find_field_present(fields, t);
}

/// The selector: the data-type identifiers attached to an entity that are
/// also registered, in numeric identifier order. The entity must exist;
/// the pipeline only queries entities the strategy reported and the world
/// still holds.
pub fn get_tracked_components(entity: u64, world: &WorldSnapshot, data: &DesyncPluginData) -> (r:
    Vec<u64>)
    requires
        find_entity(world.entities@, entity) is Some,
    ensures
        r@ == selected_ids(
            (find_entity(world.entities@, entity)->Some_0).fields@,
            data.registered_types@,
        ),
{
    let idx = match world.get_entity(entity) {
        Some(i) => i,
        None => {
            proof {
                assert(false);
            }
            0
        },
    };
    let fields = &world.entities[idx].fields;
    let n = fields.len();
    let mut ids: Vec<u64> = Vec::new();
    let mut i: usize = 0;
    proof {
        assert(fields@.take(0) =~= Seq::<FieldValue>::empty());
        assert(ids@ =~= registered_field_ids(fields@.take(0), data.registered_types@));
    }
    while i < n
        invariant
            n == fields@.len(),
            i <= n,
            ids@ == registered_field_ids(fields@.take(i as int), data.registered_types@),
        decreases n - i,
    {
        proof {
            assert(fields@.take(i + 1) =~= fields@.take(i as int).push(fields@[i as int]));
            lemma_concat_map_push(
                fields@.take(i as int),
                registered_id_emitter(data.registered_types@),
                fields@[i as int],
            );
        }
        if data.is_registered(fields[i].type_id) {
            ids.push(fields[i].type_id);
            proof {
                assert(ids@ =~= registered_field_ids(fields@.take(i as int), data.registered_types@)
                    + seq![fields@[i as int].type_id]);
            }
        } else {
            proof {
                assert(ids@ + Seq::<u64>::empty() =~= ids@);
            }
        }
        i += 1;
    }
    proof {
        assert(fields@.take(n as int) =~= fields@);
    }
    sort_ids(&ids)
}

/// Computes the fingerprint of the world under the given configuration:
/// walks the strategy's entity order, skips entities that no longer exist
/// or lack the marker, serializes each remaining entity's registered
/// fields in selector order, and reduces the concatenated bytes with
/// CRC-16/IBM-SDLC. Read-only; the world is not changed.
pub fn calculate_crc(world: &WorldSnapshot, data: &DesyncPluginData) -> (r: u16)
    requires
        world.wf(),
        data.entity_sort matches SortStrategy::FromEntityMap { .. } ==> world.entity_map is Some,
    ensures
        r == fingerprint(*world, *data),
{
    let order: Vec<u64> = match &data.entity_sort {
        SortStrategy::ByIds => sort_entities_ids(world),
        SortStrategy::FromEntityMap { from_self } => sort_from_entity_map(world, *from_self),
    };
    let ghost emit = stream_emitter(world.entities@, data.registered_types@);
    let mut crc_input: Vec<u8> = Vec::new();
    let n = order.len();
    let mut i: usize = 0;
    proof {
        assert(order@.take(0) =~= Seq::<u64>::empty());
        assert(crc_input@ =~= concat_map(order@.take(0), emit));
    }
    while i < n
        invariant
            n == order@.len(),
            i <= n,
            crc_input@ == concat_map(order@.take(i as int), emit),
            emit == stream_emitter(world.entities@, data.registered_types@),
        decreases n - i,
    {
        let eid = order[i];
        proof {
            assert(order@.take(i + 1) =~= order@.take(i as int).push(eid));
            lemma_concat_map_push(order@.take(i as int), emit, eid);
        }
        match world.get_entity(eid) {
            Some(idx) => {
                if world.entities[idx].marked {
                    let ghost e = world.entities@[idx as int];
                    let comps = get_tracked_components(eid, world, data);
                    let ghost base = crc_input@;
                    let m = comps.len();
                    let mut j: usize = 0;
                    proof {
                        assert(comps@.take(0) =~= Seq::<u64>::empty());
                        assert(concat_map(comps@.take(0), field_bytes_emitter(e.fields@))
                            =~= Seq::<u8>::empty());
                        assert(base + Seq::<u8>::empty() =~= base);
                    }
                    while j < m
                        invariant
                            m == comps@.len(),
                            j <= m,
                            idx < world.entities@.len(),
                            e == world.entities@[idx as int],
                            comps@ == selected_ids(e.fields@, data.registered_types@),
                            crc_input@ == base + concat_map(
                                comps@.take(j as int),
                                field_bytes_emitter(e.fields@),
                            ),
                        decreases m - j,
                    {
                        let t = comps[j];
                        proof {
                            assert(comps@.contains(t));
                            lemma_selected_ids_member(e.fields@, data.registered_types@, t);
                        }
                        let v = match world.entities[idx].read_field(t) {
                            Some(v) => v,
                            None => {
                                proof {
                                    assert(false);
                                }
                                0
                            },
                        };
                        let mut bytes = data.serialize(t, v);
                        proof {
                            assert(v == field_val(e.fields@, t));
                            assert(comps@.take(j + 1) =~= comps@.take(j as int).push(t));
                            lemma_concat_map_push(
                                comps@.take(j as int),
                                field_bytes_emitter(e.fields@),
                                t,
                            );
                        }
                        crc_input.append(&mut bytes);
                        j += 1;
                    }
                    proof {
                        assert(comps@.take(m as int) =~= comps@);
                        assert(find_entity(world.entities@, eid) == Some(e));
                        assert(entity_stream(world.entities@, data.registered_types@, eid)
                            == entity_payload(e, data.registered_types@));
                        assert(crc_input@ == concat_map(order@.take(i + 1), emit));
                    }
                } else {
                    proof {
                        assert(entity_stream(world.entities@, data.registered_types@, eid)
                            =~= Seq::<u8>::empty());
                        assert(crc_input@ + Seq::<u8>::empty() =~= crc_input@);
                    }
                }
            },
            None => {
                proof {
                    assert(entity_stream(world.entities@, data.registered_types@, eid)
                        =~= Seq::<u8>::empty());
                    assert(crc_input@ + Seq::<u8>::empty() =~= crc_input@);
                }
            },
        }
        i += 1;
    }
    proof {
        assert(order@.take(n as int) =~= order@);
        assert(order@ == chosen_order(*world, *data));
    }
    crc16_checksum(&crc_input)
}

/// Runs one fingerprint cycle: computes the checksum and overwrites the
/// held value; no history is kept.
pub fn update_crc(world: &WorldSnapshot, data: &DesyncPluginData, held: &mut crate::Crc)
    requires
        world.wf(),
        data.entity_sort matches SortStrategy::FromEntityMap { .. } ==> world.entity_map is Some,
    ensures
        final(held).0 == fingerprint(*world, *data),
{
    let c = calculate_crc(world, data);
    *held = crate::Crc(c);
}

} // verus!
