//! The two entity ordering strategies: identifier order, and order through
//! a caller-supplied correspondence table.

use vstd::prelude::*;
use crate::concat::{concat_map, lemma_concat_map_push};
use crate::sorting::{id_leq, lemma_pair_leq_total, pair_leq, sort_ids, sort_pairs};
use crate::world::{EntityRecord, WorldSnapshot, lemma_find_target_unique};

verus! {

/// Emits, for a marked entity, its (storage-group identifier, entity
/// identifier) pair; for an unmarked one, nothing.
pub open spec fn marked_pair_emitter() -> spec_fn(EntityRecord) -> Seq<(u64, u64)> {
    |e: EntityRecord|
        if e.marked {
            seq![(e.archetype, e.id)]
        } else {
            Seq::<(u64, u64)>::empty()
        }
}

/// Emits, for a marked entity, its identifier; for an unmarked one,
/// nothing.
pub open spec fn marked_id_emitter() -> spec_fn(EntityRecord) -> Seq<u64> {
    |e: EntityRecord|
        if e.marked {
            seq![e.id]
        } else {
            Seq::<u64>::empty()
        }
}

/// The (storage group, identifier) pairs of the marked entities, in world
/// order.
pub open spec fn tracked_pairs(s: Seq<EntityRecord>) -> Seq<(u64, u64)> {
    concat_map(s, marked_pair_emitter())
}

/// The identifiers of the marked entities, in world order.
pub open spec fn tracked_ids(s: Seq<EntityRecord>) -> Seq<u64> {
    concat_map(s, marked_id_emitter())
}

/// The first coordinates of a sequence of pairs, in order.
pub open spec fn first_coords(ps: Seq<(u64, u64)>) -> Seq<u64> {
    ps.map_values(|p: (u64, u64)| p.0)
}

/// The second coordinates of a sequence of pairs, in order.
pub open spec fn second_coords(ps: Seq<(u64, u64)>) -> Seq<u64> {
    ps.map_values(|p: (u64, u64)| p.1)
}

/// The identifier-order strategy's sequence: marked entities sorted by
/// storage-group identifier, then by entity identifier.
pub open spec fn default_order(s: Seq<EntityRecord>) -> Seq<u64> {
    second_coords(tracked_pairs(s).sort_by(pair_leq()))
}

/// The correspondence-table strategy's sequence. On the reference replica
/// (`from_self`) it is this replica's marked entity identifiers in numeric
/// order; on the other replica it is the table's entries sorted by the
/// reference's identifier, each resolved to the local identifier.
pub open spec fn map_strategy_order(w: WorldSnapshot, from_self: bool) -> Seq<u64> {
    if from_self {
        tracked_ids(w.entities@).sort_by(id_leq())
    } else {
        second_coords((w.entity_map->Some_0).pairs@.sort_by(pair_leq()))
    }
}

/// Orders tracked entities by storage-group identifier, then by entity
/// identifier. Both identifiers are assignment-order artifacts of the
/// local replica, so replicas that reached the same logical state through
/// different construction orders can disagree under this strategy: it
/// detects structural byte-stream difference, not logical difference.
pub fn sort_entities_ids(world: &WorldSnapshot) -> (r: Vec<u64>)
    ensures
        r@ == default_order(world.entities@),
{
    let s = &world.entities;
    let n = s.len();
    let mut pairs: Vec<(u64, u64)> = Vec::new();
    let mut i: usize = 0;
    proof {
        assert(s@.take(0) =~= Seq::<EntityRecord>::empty());
        assert(pairs@ =~= tracked_pairs(s@.take(0)));
    }
    while i < n
        invariant
            n == s@.len(),
            i <= n,
            pairs@ == tracked_pairs(s@.take(i as int)),
        decreases n - i,
    {
        proof {
            assert(s@.take(i + 1) =~= s@.take(i as int).push(s@[i as int]));
            lemma_concat_map_push(s@.take(i as int), marked_pair_emitter(), s@[i as int]);
        }
        if s[i].marked {
            pairs.push((s[i].archetype, s[i].id));
            proof {
                assert(pairs@ =~= tracked_pairs(s@.take(i as int)) + seq![
                    (s@[i as int].archetype, s@[i as int].id),
                ]);
            }
        } else {
            proof {
                assert(pairs@ + Seq::<(u64, u64)>::empty() =~= pairs@);
            }
        }
        i += 1;
    }
    proof {
        assert(s@.take(n as int) =~= s@);
    }
    let sorted = sort_pairs(&pairs);
    let m = sorted.len();
    let mut r: Vec<u64> = Vec::new();
    let mut j: usize = 0;
    while j < m
        invariant
            m == sorted@.len(),
            j <= m,
            r@.len() == j,
            forall|k: int| 0 <= k < j ==> r@[k] == sorted@[k].1,
        decreases m - j,
    {
        let p = sorted[j];
        r.push(p.1);
        j += 1;
    }
    proof {
        assert(r@ =~= second_coords(sorted@));
    }
    r
}

/// Orders entities through the correspondence table held by the world.
/// On the reference side (`from_self`), marked entities are ordered by
/// their own identifiers; on the other side, the table's entries are
/// ordered by the reference's identifier and resolved to local
/// identifiers. Every entry's source resolves, because the table's sources
/// are unique, so no missing-correspondence condition can arise here; a
/// host probing an arbitrary identifier sees the missing entry as `None`
/// from the table's own lookup.
pub fn sort_from_entity_map(world: &WorldSnapshot, from_self: bool) -> (r: Vec<u64>)
    requires
        world.wf(),
        world.entity_map is Some,
    ensures
        r@ == map_strategy_order(*world, from_self),
{
    if from_self {
        let s = &world.entities;
        let n = s.len();
        let mut ids: Vec<u64> = Vec::new();
        let mut i: usize = 0;
        proof {
            assert(s@.take(0) =~= Seq::<EntityRecord>::empty());
            assert(ids@ =~= tracked_ids(s@.take(0)));
        }
        while i < n
            invariant
                n == s@.len(),
                i <= n,
                ids@ == tracked_ids(s@.take(i as int)),
            decreases n - i,
        {
            proof {
                assert(s@.take(i + 1) =~= s@.take(i as int).push(s@[i as int]));
                lemma_concat_map_push(s@.take(i as int), marked_id_emitter(), s@[i as int]);
            }
            if s[i].marked {
                ids.push(s[i].id);
                proof {
                    assert(ids@ =~= tracked_ids(s@.take(i as int)) + seq![s@[i as int].id]);
                }
            } else {
                proof {
                    assert(ids@ + Seq::<u64>::empty() =~= ids@);
                }
            }
            i += 1;
        }
        proof {
            assert(s@.take(n as int) =~= s@);
        }
        sort_ids(&ids)
    } else {
        match &world.entity_map {
            Some(table) => {
                let sorted = sort_pairs(&table.pairs);
                let m = sorted.len();
                let mut r: Vec<u64> = Vec::new();
                let mut j: usize = 0;
                while j < m
                    invariant
                        m == sorted@.len(),
                        j <= m,
                        sorted@ == table.pairs@.sort_by(pair_leq()),
                        table.wf(),
                        r@.len() == j,
                        forall|k: int| 0 <= k < j ==> r@[k] == sorted@[k].1,
                    decreases m - j,
                {
                    let p = sorted[j];
                    proof {
                        broadcast use vstd::seq_lib::group_to_multiset_ensures;

                        lemma_pair_leq_total();
                        table.pairs@.lemma_sort_by_ensures(pair_leq());
                        assert(sorted@.contains(p));
                        assert(sorted@.to_multiset().count(p) > 0);
                        assert(table.pairs@.contains(p));
                        lemma_find_target_unique(table.pairs@, p);
                    }
                    match table.map_entity(p.0) {
                        Some(t) => {
                            r.push(t);
                        },
                        None => {
                            proof {
                                assert(false);
                            }
                        },
                    }
                    j += 1;
                }
                proof {
                    assert(r@ =~= second_coords(sorted@));
                }
                r
            },
            None => {
                proof {
                    assert(false);
                }
                Vec::new()
            },
        }
    }
}

} // verus!
