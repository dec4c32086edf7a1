//! The data model of a replica's world, reduced to what fingerprinting
//! reads: entities, their storage-group identifiers, the tracking marker,
//! and the plain values of their attached fields.

use vstd::prelude::*;

verus! {

/// One typed piece of data attached to an entity: the data-type identifier
/// under which its serializer may be registered, and the plain value that
/// the canonical serializer reads.
pub struct FieldValue {
    pub type_id: u64,
    pub value: u64,
}

/// A replica-local record of one entity: its own identifier, the identifier
/// of the storage group (archetype) holding it, whether it carries the
/// tracking marker, and its attached fields.
pub struct EntityRecord {
    pub id: u64,
    pub archetype: u64,
    pub marked: bool,
    pub fields: Vec<FieldValue>,
}

/// Correspondence table between two replicas: each pair maps the reference
/// replica's entity identifier to this replica's own identifier for the
/// same logical entity.
pub struct EntityMap {
    pub pairs: Vec<(u64, u64)>,
}

/// A read-only snapshot of the host world: the entities, and, when the
/// correspondence-table ordering strategy is in use, the table.
pub struct WorldSnapshot {
    pub entities: Vec<EntityRecord>,
    pub entity_map: Option<EntityMap>,
}

/// No two fields of one entity share a data-type identifier.
pub open spec fn unique_type_ids(fields: Seq<FieldValue>) -> bool {
    forall|i: int, j: int|
        0 <= i < j < fields.len() ==> fields[i].type_id != fields[j].type_id
}

/// No two entities of one world share an identifier.
pub open spec fn unique_entity_ids(s: Seq<EntityRecord>) -> bool {
    forall|i: int, j: int| 0 <= i < j < s.len() ==> s[i].id != s[j].id
}

impl EntityRecord {
    pub open spec fn wf(self) -> bool {
        unique_type_ids(self.fields@)
    }
}

impl EntityMap {
    /// No source identifier appears twice, so a lookup is unambiguous.
    pub open spec fn wf(self) -> bool {
        forall|i: int, j: int|
            0 <= i < j < self.pairs@.len() ==> self.pairs@[i].0 != self.pairs@[j].0
    }
}

impl WorldSnapshot {
    pub open spec fn wf(self) -> bool {
        &&& unique_entity_ids(self.entities@)
        &&& forall|i: int|
            0 <= i < self.entities@.len() ==> (#[trigger] self.entities@[i]).wf()
        &&& self.entity_map matches Some(m) ==> m.wf()
    }
}

/// The first entity of `s` whose identifier is `eid`, if any.
pub open spec fn find_entity(s: Seq<EntityRecord>, eid: u64) -> Option<EntityRecord>
    decreases s.len(),
{
    if s.len() == 0 {
        None
    } else if s[0].id == eid {
        Some(s[0])
    } else {
        find_entity(s.drop_first(), eid)
    }
}

/// The value of the first field of `fields` whose type is `t`, if any.
pub open spec fn find_field(fields: Seq<FieldValue>, t: u64) -> Option<u64>
    decreases fields.len(),
{
    if fields.len() == 0 {
        None
    } else if fields[0].type_id == t {
        Some(fields[0].value)
    } else {
        find_field(fields.drop_first(), t)
    }
}

/// The local identifier the table pairs with the source identifier `src`,
/// if the table has an entry for it.
pub open spec fn find_target(pairs: Seq<(u64, u64)>, src: u64) -> Option<u64>
    decreases pairs.len(),
{
    if pairs.len() == 0 {
        None
    } else if pairs[0].0 == src {
        Some(pairs[0].1)
    } else {
        find_target(pairs.drop_first(), src)
    }
}

proof fn lemma_find_entity_at(s: Seq<EntityRecord>, eid: u64, j: int)
    requires
        0 <= j < s.len(),
        s[j].id == eid,
        forall|k: int| 0 <= k < j ==> s[k].id != eid,
    ensures
        find_entity(s, eid) == Some(s[j]),
    decreases j,
{
    if j > 0 {
        assert forall|k: int| 0 <= k < j - 1 implies s.drop_first()[k].id != eid by {
            assert(s.drop_first()[k] == s[k + 1]);
        }
        lemma_find_entity_at(s.drop_first(), eid, j - 1);
        assert(s.drop_first()[j - 1] == s[j]);
    }
}

proof fn lemma_find_entity_absent(s: Seq<EntityRecord>, eid: u64)
    requires
        forall|k: int| 0 <= k < s.len() ==> s[k].id != eid,
    ensures
        find_entity(s, eid) is None,
    decreases s.len(),
{
    if s.len() > 0 {
        assert forall|k: int| 0 <= k < s.drop_first().len() implies s.drop_first()[k].id != eid by {
            assert(s.drop_first()[k] == s[k + 1]);
        }
        lemma_find_entity_absent(s.drop_first(), eid);
    }
}

/// When identifiers are unique, lookup of a member's identifier yields
/// exactly that member.
pub proof fn lemma_find_entity_unique(s: Seq<EntityRecord>, e: EntityRecord)
    requires
        unique_entity_ids(s),
        s.contains(e),
    ensures
        find_entity(s, e.id) == Some(e),
    decreases s.len(),
{
    let j = choose|j: int| 0 <= j < s.len() && s[j] == e;
    if s[0].id == e.id {
        if j != 0 {
            assert(s[0].id != s[j].id);
        }
        assert(s[0] == e);
    } else {
        assert(s[j] == e && j > 0);
        assert(s.drop_first()[j - 1] == e);
        assert(unique_entity_ids(s.drop_first())) by {
            assert forall|i: int, k: int|
                0 <= i < k < s.drop_first().len() implies s.drop_first()[i].id
                != s.drop_first()[k].id by {
                assert(s.drop_first()[i] == s[i + 1]);
                assert(s.drop_first()[k] == s[k + 1]);
            }
        }
        lemma_find_entity_unique(s.drop_first(), e);
    }
}

/// If some field of `fields` has type `t`, lookup succeeds.
pub proof fn lemma_find_field_present(fields: Seq<FieldValue>, t: u64)
    requires
        exists|i: int| 0 <= i < fields.len() && fields[i].type_id == t,
    ensures
        find_field(fields, t) is Some,
    decreases fields.len(),
{
    if fields.len() > 0 && fields[0].type_id != t {
        let i = choose|i: int| 0 <= i < fields.len() && fields[i].type_id == t;
        assert(fields.drop_first()[i - 1] == fields[i]);
        lemma_find_field_present(fields.drop_first(), t);
    }
}

/// When sources are unique, looking up the source of a table entry yields
/// that entry's target.
pub proof fn lemma_find_target_unique(pairs: Seq<(u64, u64)>, p: (u64, u64))
    requires
        forall|i: int, j: int| 0 <= i < j < pairs.len() ==> pairs[i].0 != pairs[j].0,
        pairs.contains(p),
    ensures
        find_target(pairs, p.0) == Some(p.1),
    decreases pairs.len(),
{
    let j = choose|j: int| 0 <= j < pairs.len() && pairs[j] == p;
    if pairs[0].0 == p.0 {
        if j != 0 {
            assert(pairs[0].0 != pairs[j].0);
        }
        assert(pairs[0] == p);
    } else {
        assert(j > 0);
        assert(pairs.drop_first()[j - 1] == p);
        assert forall|i: int, k: int|
            0 <= i < k < pairs.drop_first().len() implies pairs.drop_first()[i].0
            != pairs.drop_first()[k].0 by {
            assert(pairs.drop_first()[i] == pairs[i + 1]);
            assert(pairs.drop_first()[k] == pairs[k + 1]);
        }
        lemma_find_target_unique(pairs.drop_first(), p);
    }
}

impl WorldSnapshot {
    /// Position of the entity with identifier `eid`, if it exists.
    pub fn get_entity(&self, eid: u64) -> (r: Option<usize>)
        ensures
            match r {
                Some(i) => i < self.entities@.len() && self.entities@[i as int].id == eid
                    && find_entity(self.entities@, eid) == Some(self.entities@[i as int]),
                None => find_entity(self.entities@, eid) is None,
            },
    {
        let n = self.entities.len();
        let mut i: usize = 0;
        while i < n
            invariant
                n == self.entities@.len(),
                i <= n,
                forall|k: int| 0 <= k < i ==> self.entities@[k].id != eid,
            decreases n - i,
        {
            if self.entities[i].id == eid {
                proof {
                    lemma_find_entity_at(self.entities@, eid, i as int);
                }
                return Some(i);
            }
            i += 1;
        }
        proof {
            lemma_find_entity_absent(self.entities@, eid);
        }
        None
    }
}

impl EntityRecord {
    /// The value this entity holds under data-type identifier `t`, as the
    /// host's type-erased read access exposes it.
    pub fn read_field(&self, t: u64) -> (r: Option<u64>)
        ensures
            r == find_field(self.fields@, t),
    {
        let n = self.fields.len();
        let mut i: usize = 0;
        assert(self.fields@.skip(0) =~= self.fields@);
        while i < n
            invariant
                n == self.fields@.len(),
                i <= n,
                find_field(self.fields@, t) == find_field(self.fields@.skip(i as int), t),
            decreases n - i,
        {
            if self.fields[i].type_id == t {
                assert(self.fields@.skip(i as int)[0] == self.fields@[i as int]);
                return Some(self.fields[i].value);
            }
            proof {
                assert(self.fields@.skip(i as int)[0] == self.fields@[i as int]);
                assert(self.fields@.skip(i as int).drop_first()
                    =~= self.fields@.skip(i + 1));
            }
            i += 1;
        }
        assert(self.fields@.skip(n as int) =~= Seq::<FieldValue>::empty());
        None
    }
}

impl EntityMap {
    /// The local identifier this table assigns to the reference replica's
    /// identifier `src`; `None` reports a missing correspondence.
    pub fn map_entity(&self, src: u64) -> (r: Option<u64>)
        ensures
            r == find_target(self.pairs@, src),
    {
        let n = self.pairs.len();
        let mut i: usize = 0;
        assert(self.pairs@.skip(0) =~= self.pairs@);
        while i < n
            invariant
                n == self.pairs@.len(),
                i <= n,
                find_target(self.pairs@, src) == find_target(self.pairs@.skip(i as int), src),
            decreases n - i,
        {
            if self.pairs[i].0 == src {
                assert(self.pairs@.skip(i as int)[0] == self.pairs@[i as int]);
                return Some(self.pairs[i].1);
            }
            proof {
                assert(self.pairs@.skip(i as int)[0] == self.pairs@[i as int]);
                assert(self.pairs@.skip(i as int).drop_first() =~= self.pairs@.skip(i + 1));
            }
            i += 1;
        }
        assert(self.pairs@.skip(n as int) =~= Seq::<(u64, u64)>::empty());
        None
    }
}

} // verus!
