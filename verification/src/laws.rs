//! The library's general guarantees, stated and proved over the
//! specification-level model that the executable functions' contracts use.

use vstd::prelude::*;
use crate::concat::{
    concat_map, lemma_concat_map_multiset, lemma_concat_map_pointwise, lemma_concat_map_push,
    lemma_map_values_multiset,
};
use crate::pipeline::{
    chosen_order, entity_payload, entity_stream, field_bytes_emitter, field_val, fingerprint,
    fingerprint_stream, lemma_selected_ids_member, registered_field_ids, registered_id_emitter,
    selected_ids, stream_emitter,
};
use crate::registry::{DesyncPluginData, SortStrategy};
use crate::sorting::{id_leq, lemma_id_leq_total, lemma_pair_leq_total, pair_leq};
use crate::strategy::{
    first_coords, marked_pair_emitter, second_coords, tracked_ids, tracked_pairs,
};
use crate::world::{
    EntityRecord, FieldValue, WorldSnapshot, find_field, lemma_find_entity_unique,
};
use vstd::relations::sorted_by;
use vstd::seq_lib::lemma_sorted_unique;

verus! {

/// Emits, for a marked entity, everything of it that the fingerprint can
/// observe: its (storage group, identifier) sort key and its canonical
/// payload; for an unmarked entity, nothing.
pub open spec fn profile_emitter(reg: Seq<u64>) -> spec_fn(EntityRecord) -> Seq<
    ((u64, u64), Seq<u8>),
> {
    |e: EntityRecord|
        if e.marked {
            seq![((e.archetype, e.id), entity_payload(e, reg))]
        } else {
            Seq::<((u64, u64), Seq<u8>)>::empty()
        }
}

/// The tracked state of a world under a registry: for each marked entity,
/// in world order, its sort key and canonical payload. Everything the
/// identifier-order fingerprint observes is in this sequence.
pub open spec fn tracked_profile(s: Seq<EntityRecord>, reg: Seq<u64>) -> Seq<
    ((u64, u64), Seq<u8>),
> {
    concat_map(s, profile_emitter(reg))
}

/// Projects a profile entry to its sort key.
pub open spec fn profile_key() -> spec_fn(((u64, u64), Seq<u8>)) -> (u64, u64) {
    |x: ((u64, u64), Seq<u8>)| x.0
}

/// The sort keys of the profile are exactly the tracked pairs.
proof fn lemma_profile_keys(s: Seq<EntityRecord>, reg: Seq<u64>)
    ensures
        tracked_profile(s, reg).map_values(profile_key()) == tracked_pairs(s),
    decreases s.len(),
{
    if s.len() == 0 {
        assert(tracked_profile(s, reg).map_values(profile_key()) =~= Seq::<(u64, u64)>::empty());
    } else {
        lemma_profile_keys(s.drop_first(), reg);
        let head = profile_emitter(reg)(s[0]);
        let tail = tracked_profile(s.drop_first(), reg);
        assert(tracked_profile(s, reg) == head + tail);
        assert(marked_pair_emitter()(s[0]) =~= head.map_values(profile_key()));
        assert((head + tail).map_values(profile_key()) =~= head.map_values(profile_key())
            + tail.map_values(profile_key()));
        assert(tracked_pairs(s) == marked_pair_emitter()(s[0]) + tracked_pairs(s.drop_first()));
    }
}

/// A profile entry is witnessed by a marked entity of the world with that
/// key and payload.
proof fn lemma_profile_member(s: Seq<EntityRecord>, reg: Seq<u64>, x: ((u64, u64), Seq<u8>))
    requires
        tracked_profile(s, reg).contains(x),
    ensures
        exists|e: EntityRecord|
            s.contains(e) && e.marked && e.archetype == x.0.0 && e.id == x.0.1 && entity_payload(
                e,
                reg,
            ) == x.1,
    decreases s.len(),
{
    let head = profile_emitter(reg)(s[0]);
    assert(tracked_profile(s, reg) == head + tracked_profile(s.drop_first(), reg));
    let k = choose|k: int|
        0 <= k < tracked_profile(s, reg).len() && tracked_profile(s, reg)[k] == x;
    if k < head.len() {
        assert(s[0].marked && head[0] == x);
        assert(s.contains(s[0]));
    } else {
        assert(tracked_profile(s.drop_first(), reg)[k - head.len()] == x);
        lemma_profile_member(s.drop_first(), reg, x);
        let e = choose|e: EntityRecord|
            s.drop_first().contains(e) && e.marked && e.archetype == x.0.0 && e.id == x.0.1
                && entity_payload(e, reg) == x.1;
        let m = choose|m: int| 0 <= m < s.drop_first().len() && s.drop_first()[m] == e;
        assert(s[m + 1] == e);
        assert(s.contains(e));
    }
}

/// Both worlds give the identifier of a common profile key the same
/// contribution to the stream.
proof fn lemma_profile_entry_streams(
    w1: WorldSnapshot,
    w2: WorldSnapshot,
    reg: Seq<u64>,
    x: ((u64, u64), Seq<u8>),
)
    requires
        w1.wf(),
        w2.wf(),
        tracked_profile(w1.entities@, reg).contains(x),
        tracked_profile(w2.entities@, reg).contains(x),
    ensures
        entity_stream(w1.entities@, reg, x.0.1) == x.1,
        entity_stream(w2.entities@, reg, x.0.1) == x.1,
{
    lemma_profile_member(w1.entities@, reg, x);
    lemma_profile_member(w2.entities@, reg, x);
    let e1 = choose|e: EntityRecord|
        w1.entities@.contains(e) && e.marked && e.archetype == x.0.0 && e.id == x.0.1
            && entity_payload(e, reg) == x.1;
    let e2 = choose|e: EntityRecord|
        w2.entities@.contains(e) && e.marked && e.archetype == x.0.0 && e.id == x.0.1
            && entity_payload(e, reg) == x.1;
    lemma_find_entity_unique(w1.entities@, e1);
    lemma_find_entity_unique(w2.entities@, e2);
}

/// Determinism: the fingerprint is a function of the world snapshot and
/// the engine configuration alone, so computing it twice over the same
/// state yields the same checksum.
pub proof fn lemma_fingerprint_deterministic(
    w1: WorldSnapshot,
    w2: WorldSnapshot,
    d1: DesyncPluginData,
    d2: DesyncPluginData,
)
    requires
        w1 == w2,
        d1 == d2,
    ensures
        fingerprint(w1, d1) == fingerprint(w2, d2),
{
}

/// Insensitivity to untracked data: under the identifier-order strategy,
/// two worlds whose tracked state agrees — the same collection of marked
/// entities, each with the same sort key and the same registered-field
/// payload, in any world order — produce the same checksum, however they
/// differ in unmarked entities or unregistered fields.
pub proof fn lemma_insensitive_to_untracked(
    w1: WorldSnapshot,
    w2: WorldSnapshot,
    data: DesyncPluginData,
)
    requires
        w1.wf(),
        w2.wf(),
        data.entity_sort == SortStrategy::ByIds,
        tracked_profile(w1.entities@, data.registered_types@).to_multiset() == tracked_profile(
            w2.entities@,
            data.registered_types@,
        ).to_multiset(),
    ensures
        fingerprint(w1, data) == fingerprint(w2, data),
{
    broadcast use vstd::seq_lib::group_to_multiset_ensures;

    let reg = data.registered_types@;
    let p1 = tracked_profile(w1.entities@, reg);
    let p2 = tracked_profile(w2.entities@, reg);
    lemma_profile_keys(w1.entities@, reg);
    lemma_profile_keys(w2.entities@, reg);
    lemma_map_values_multiset(p1, p2, profile_key());
    lemma_pair_leq_total();
    tracked_pairs(w1.entities@).lemma_sort_by_ensures(pair_leq());
    tracked_pairs(w2.entities@).lemma_sort_by_ensures(pair_leq());
    let sorted1 = tracked_pairs(w1.entities@).sort_by(pair_leq());
    let sorted2 = tracked_pairs(w2.entities@).sort_by(pair_leq());
    lemma_sorted_unique(sorted1, sorted2, pair_leq());
    assert(sorted1 == sorted2);
    let order1 = chosen_order(w1, data);
    let order2 = chosen_order(w2, data);
    assert(order1 == second_coords(sorted1));
    assert(order2 == second_coords(sorted2));
    assert(order1.len() == order2.len());
    assert forall|k: int| 0 <= k < order1.len() implies #[trigger] stream_emitter(
        w1.entities@,
        reg,
    )(order1[k]) == stream_emitter(w2.entities@, reg)(order2[k]) by {
        let pr = sorted1[k];
        assert(order1[k] == pr.1 && order2[k] == pr.1);
        assert(sorted1.contains(pr));
        assert(tracked_pairs(w1.entities@).contains(pr));
        assert(p1.map_values(profile_key()).contains(pr));
        let m = choose|m: int|
            0 <= m < p1.map_values(profile_key()).len() && p1.map_values(profile_key())[m] == pr;
        let x = p1[m];
        assert(x.0 == pr);
        assert(p1.contains(x));
        assert(p1.to_multiset().count(x) > 0);
        assert(p2.contains(x));
        lemma_profile_entry_streams(w1, w2, reg, x);
    }
    lemma_concat_map_pointwise(
        order1,
        order2,
        stream_emitter(w1.entities@, reg),
        stream_emitter(w2.entities@, reg),
    );
    assert(fingerprint_stream(w1, data) == fingerprint_stream(w2, data));
}

/// Spawn-order irrelevance of the identifier-order strategy: two worlds
/// holding the same entities — identifiers, storage groups, markers and
/// fields all equal — in different storage orders produce the same
/// checksum, because sorting by identifiers cancels the order in which
/// the entities were recorded.
pub proof fn lemma_spawn_order_irrelevant(
    w1: WorldSnapshot,
    w2: WorldSnapshot,
    data: DesyncPluginData,
)
    requires
        w1.wf(),
        w2.wf(),
        data.entity_sort == SortStrategy::ByIds,
        w1.entities@.to_multiset() == w2.entities@.to_multiset(),
    ensures
        fingerprint(w1, data) == fingerprint(w2, data),
{
    lemma_concat_map_multiset(
        w1.entities@,
        w2.entities@,
        profile_emitter(data.registered_types@),
    );
    lemma_insensitive_to_untracked(w1, w2, data);
}

/// Sensitivity, at the level the engine can guarantee for every input:
/// two single-entity, single-field worlds that differ only in the tracked
/// field's value produce different canonical byte streams. The 16-bit
/// reduction of two distinct streams can in principle collide, so
/// distinctness of the checksum itself is checked on concrete values in
/// the tests rather than claimed for every pair.
pub proof fn lemma_stream_sensitive_to_tracked_value(
    w1: WorldSnapshot,
    w2: WorldSnapshot,
    data: DesyncPluginData,
)
    requires
        data.entity_sort == SortStrategy::ByIds,
        w1.entities@.len() == 1,
        w2.entities@.len() == 1,
        w1.entities@[0].marked,
        w2.entities@[0].marked,
        w1.entities@[0].fields@.len() == 1,
        w2.entities@[0].fields@.len() == 1,
        w1.entities@[0].fields@[0].type_id == w2.entities@[0].fields@[0].type_id,
        data.spec_is_registered(w1.entities@[0].fields@[0].type_id),
        w1.entities@[0].fields@[0].value != w2.entities@[0].fields@[0].value,
    ensures
        fingerprint_stream(w1, data) != fingerprint_stream(w2, data),
{
    let reg = data.registered_types@;
    lemma_single_entity_stream(w1, data);
    lemma_single_entity_stream(w2, data);
    lemma_single_field_payload(w1.entities@[0], reg);
    lemma_single_field_payload(w2.entities@[0], reg);
    if fingerprint_stream(w1, data) == fingerprint_stream(w2, data) {
        crate::codec::lemma_dec_bytes_injective(
            w1.entities@[0].fields@[0].value as nat,
            w2.entities@[0].fields@[0].value as nat,
        );
    }
}

/// A world holding one marked entity streams exactly that entity's
/// payload.
proof fn lemma_single_entity_stream(w: WorldSnapshot, data: DesyncPluginData)
    requires
        data.entity_sort == SortStrategy::ByIds,
        w.entities@.len() == 1,
        w.entities@[0].marked,
    ensures
        fingerprint_stream(w, data) == entity_payload(w.entities@[0], data.registered_types@),
{
    let reg = data.registered_types@;
    let e = w.entities@[0];
    let pair = (e.archetype, e.id);
    assert(w.entities@.drop_first() =~= Seq::<EntityRecord>::empty());
    assert(tracked_pairs(w.entities@) == marked_pair_emitter()(e) + tracked_pairs(
        Seq::<EntityRecord>::empty(),
    ));
    assert(tracked_pairs(w.entities@) =~= seq![pair]);
    lemma_pair_leq_total();
    tracked_pairs(w.entities@).lemma_sort_by_ensures(pair_leq());
    lemma_sorted_unique(tracked_pairs(w.entities@).sort_by(pair_leq()), seq![pair], pair_leq());
    assert(chosen_order(w, data) =~= seq![e.id]);
    assert(seq![e.id].drop_first() =~= Seq::<u64>::empty());
    assert(fingerprint_stream(w, data) == stream_emitter(w.entities@, reg)(e.id) + concat_map(
        Seq::<u64>::empty(),
        stream_emitter(w.entities@, reg),
    ));
    assert(crate::world::find_entity(w.entities@, e.id) == Some(e));
    assert(fingerprint_stream(w, data) =~= entity_payload(e, reg));
}

/// An entity with one registered field streams exactly that field's
/// serialization.
proof fn lemma_single_field_payload(e: EntityRecord, reg: Seq<u64>)
    requires
        e.fields@.len() == 1,
        reg.contains(e.fields@[0].type_id),
    ensures
        entity_payload(e, reg) == crate::codec::dec_bytes(e.fields@[0].value as nat),
{
    let f = e.fields@[0];
    assert(e.fields@.drop_first() =~= Seq::<FieldValue>::empty());
    assert(registered_field_ids(e.fields@, reg) == registered_id_emitter(reg)(f)
        + registered_field_ids(Seq::<FieldValue>::empty(), reg));
    assert(registered_field_ids(e.fields@, reg) =~= seq![f.type_id]);
    crate::sorting::lemma_id_leq_total();
    registered_field_ids(e.fields@, reg).lemma_sort_by_ensures(crate::sorting::id_leq());
    lemma_sorted_unique(
        registered_field_ids(e.fields@, reg).sort_by(crate::sorting::id_leq()),
        seq![f.type_id],
        crate::sorting::id_leq(),
    );
    assert(selected_ids(e.fields@, reg) == seq![f.type_id]);
    assert(seq![f.type_id].drop_first() =~= Seq::<u64>::empty());
    assert(entity_payload(e, reg) == field_bytes_emitter(e.fields@)(f.type_id) + concat_map(
        Seq::<u64>::empty(),
        field_bytes_emitter(e.fields@),
    ));
    assert(find_field(e.fields@, f.type_id) == Some(f.value));
    assert(entity_payload(e, reg) =~= crate::codec::dec_bytes(f.value as nat));
}

proof fn lemma_find_field_push(s: Seq<FieldValue>, x: FieldValue, t: u64)
    ensures
        find_field(s.push(x), t) == (if find_field(s, t) is Some {
            find_field(s, t)
        } else if x.type_id == t {
            Some(x.value)
        } else {
            None::<u64>
        }),
    decreases s.len(),
{
    if s.len() == 0 {
        assert(s.push(x)[0] == x);
        assert(s.push(x).drop_first() =~= Seq::<FieldValue>::empty());
        assert(find_field(Seq::<FieldValue>::empty(), t) is None);
    } else {
        assert(s.push(x)[0] == s[0]);
        assert(s.push(x).drop_first() =~= s.drop_first().push(x));
        lemma_find_field_push(s.drop_first(), x, t);
    }
}

/// A field of an unregistered type contributes nothing: giving an entity
/// one more field whose type is not in the registry leaves its canonical
/// payload unchanged.
pub proof fn lemma_unregistered_field_ignored(
    e1: EntityRecord,
    e2: EntityRecord,
    reg: Seq<u64>,
    f: FieldValue,
)
    requires
        e2.fields@ == e1.fields@.push(f),
        !reg.contains(f.type_id),
    ensures
        entity_payload(e2, reg) == entity_payload(e1, reg),
{
    lemma_concat_map_push(e1.fields@, registered_id_emitter(reg), f);
    assert(registered_id_emitter(reg)(f) == Seq::<u64>::empty());
    assert(registered_field_ids(e2.fields@, reg) + Seq::<u64>::empty() =~= registered_field_ids(
        e2.fields@,
        reg,
    ));
    assert(registered_field_ids(e1.fields@, reg) + Seq::<u64>::empty() =~= registered_field_ids(
        e1.fields@,
        reg,
    ));
    assert(registered_field_ids(e2.fields@, reg) == registered_field_ids(e1.fields@, reg));
    let ids = selected_ids(e1.fields@, reg);
    assert(selected_ids(e2.fields@, reg) == ids);
    assert forall|k: int| 0 <= k < ids.len() implies #[trigger] field_bytes_emitter(e2.fields@)(
        ids[k],
    ) == field_bytes_emitter(e1.fields@)(ids[k]) by {
        let t = ids[k];
        assert(ids.contains(t));
        lemma_selected_ids_member(e1.fields@, reg, t);
        lemma_find_field_push(e1.fields@, f, t);
        assert(field_val(e2.fields@, t) == field_val(e1.fields@, t));
    }
    lemma_concat_map_pointwise(
        ids,
        ids,
        field_bytes_emitter(e2.fields@),
        field_bytes_emitter(e1.fields@),
    );
}

/// An unmarked entity contributes nothing: a world extended with one more
/// entity that lacks the tracking marker fingerprints as before, however
/// many fields of registered types the newcomer holds.
pub proof fn lemma_unmarked_entity_ignored(
    w1: WorldSnapshot,
    w2: WorldSnapshot,
    e: EntityRecord,
    data: DesyncPluginData,
)
    requires
        w1.wf(),
        w2.wf(),
        data.entity_sort == SortStrategy::ByIds,
        w2.entities@ == w1.entities@.push(e),
        !e.marked,
    ensures
        fingerprint(w2, data) == fingerprint(w1, data),
{
    let reg = data.registered_types@;
    lemma_concat_map_push(w1.entities@, profile_emitter(reg), e);
    assert(profile_emitter(reg)(e) == Seq::<((u64, u64), Seq<u8>)>::empty());
    assert(tracked_profile(w1.entities@, reg) + Seq::<((u64, u64), Seq<u8>)>::empty()
        =~= tracked_profile(w1.entities@, reg));
    assert(tracked_profile(w2.entities@, reg) == tracked_profile(w1.entities@, reg));
    lemma_insensitive_to_untracked(w2, w1, data);
}

/// Correspondence-table resolution: when the reference replica orders its
/// marked entities by its own identifiers, the other replica orders the
/// table by the reference's identifiers and maps each entry to its local
/// identifier, the table's sources are exactly the reference's marked
/// entities, and every table entry links identifiers whose entities
/// contribute the same bytes on both replicas, the two checksums are
/// equal — differing spawn orders no longer produce false positives.
pub proof fn lemma_correspondence_alignment(
    w1: WorldSnapshot,
    w2: WorldSnapshot,
    d1: DesyncPluginData,
    d2: DesyncPluginData,
)
    requires
        w1.wf(),
        w2.wf(),
        d1.registered_types@ == d2.registered_types@,
        d1.entity_sort == (SortStrategy::FromEntityMap { from_self: true }),
        d2.entity_sort == (SortStrategy::FromEntityMap { from_self: false }),
        w1.entity_map is Some,
        w2.entity_map is Some,
        first_coords((w2.entity_map->Some_0).pairs@).to_multiset() == tracked_ids(
            w1.entities@,
        ).to_multiset(),
        forall|k: int|
            0 <= k < (w2.entity_map->Some_0).pairs@.len() ==> entity_stream(
                w1.entities@,
                d1.registered_types@,
                #[trigger] (w2.entity_map->Some_0).pairs@[k].0,
            ) == entity_stream(w2.entities@, d1.registered_types@, (
            w2.entity_map->Some_0).pairs@[k].1),
    ensures
        fingerprint(w1, d1) == fingerprint(w2, d2),
{
    broadcast use vstd::seq_lib::group_to_multiset_ensures;

    let reg = d1.registered_types@;
    let table = (w2.entity_map->Some_0).pairs@;
    let order1 = chosen_order(w1, d1);
    let order2 = chosen_order(w2, d2);
    lemma_id_leq_total();
    lemma_pair_leq_total();
    tracked_ids(w1.entities@).lemma_sort_by_ensures(id_leq());
    table.lemma_sort_by_ensures(pair_leq());
    let sorted_table = table.sort_by(pair_leq());
    assert(order1 == tracked_ids(w1.entities@).sort_by(id_leq()));
    assert(order2 == second_coords(sorted_table));
    lemma_map_values_multiset(sorted_table, table, |p: (u64, u64)| p.0);
    assert(first_coords(sorted_table).to_multiset() == order1.to_multiset());
    assert(sorted_by(first_coords(sorted_table), id_leq())) by {
        assert forall|i: int, j: int|
            0 <= i < j < first_coords(sorted_table).len() implies #[trigger] id_leq()(
            first_coords(sorted_table)[i],
            first_coords(sorted_table)[j],
        ) by {
            assert(pair_leq()(sorted_table[i], sorted_table[j]));
        }
    }
    lemma_sorted_unique(first_coords(sorted_table), order1, id_leq());
    assert(first_coords(sorted_table) == order1);
    assert(order1.len() == order2.len());
    assert forall|k: int| 0 <= k < order1.len() implies #[trigger] stream_emitter(
        w1.entities@,
        reg,
    )(order1[k]) == stream_emitter(w2.entities@, reg)(order2[k]) by {
        let p = sorted_table[k];
        assert(order1[k] == p.0 && order2[k] == p.1);
        assert(sorted_table.contains(p));
        assert(sorted_table.to_multiset().count(p) > 0);
        assert(table.contains(p));
        let m = choose|m: int| 0 <= m < table.len() && table[m] == p;
        assert(entity_stream(w1.entities@, reg, table[m].0) == entity_stream(
            w2.entities@,
            reg,
            table[m].1,
        ));
    }
    lemma_concat_map_pointwise(
        order1,
        order2,
        stream_emitter(w1.entities@, reg),
        stream_emitter(w2.entities@, reg),
    );
    assert(fingerprint_stream(w1, d1) == fingerprint_stream(w2, d2));
}

} // verus!
