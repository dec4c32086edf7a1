//! The engine's configuration: which data types are opted into
//! fingerprinting, and which ordering strategy the pipeline uses.

use vstd::prelude::*;
use crate::codec::{dec_bytes, serialize_value};

verus! {

/// The pluggable entity ordering strategy, chosen at setup time.
#[derive(Clone, Copy, Debug, PartialEq, Eq, Structural)]
pub enum SortStrategy {
    /// Order tracked entities by storage-group identifier, then by entity
    /// identifier. Identifiers are assignment-order artifacts of the local
    /// replica, so this strategy can report false positives when replicas
    /// reached the same logical state through different construction
    /// orders.
    ByIds,
    /// Order entities through the caller-supplied correspondence table:
    /// on the reference replica (`from_self` true) by this replica's own
    /// identifiers; on the other replica (`from_self` false) by the
    /// reference's identifiers, mapped through the table to local ones.
    FromEntityMap { from_self: bool },
}

/// The fingerprint engine's state: the serializer registry (the data-type
/// identifiers opted into fingerprinting; every registered type serializes
/// through the canonical integer serializer) and the ordering strategy.
///
/// Tracking is opt-in: a field contributes to the fingerprint only when
/// its data-type identifier has been registered.
pub struct DesyncPluginData {
    pub registered_types: Vec<u64>,
    pub entity_sort: SortStrategy,
}

impl DesyncPluginData {
    /// Whether a serializer is registered for `t`.
    pub open spec fn spec_is_registered(self, t: u64) -> bool {
        self.registered_types@.contains(t)
    }

    pub fn is_registered(&self, t: u64) -> (r: bool)
        ensures
            r == self.spec_is_registered(t),
    {
        let n = self.registered_types.len();
        let mut i: usize = 0;
        while i < n
            invariant
                n == self.registered_types@.len(),
                i <= n,
                forall|k: int| 0 <= k < i ==> self.registered_types@[k] != t,
            decreases n - i,
        {
            if self.registered_types[i] == t {
                return true;
            }
            i += 1;
        }
        false
    }

    /// Opts the data type `t` into fingerprinting. Idempotent: registering
    /// a type twice leaves the registry as if it were registered once.
    pub fn track_desync(&mut self, t: u64)
        ensures
            forall|x: u64| final(self).spec_is_registered(x)
                <==> (old(self).spec_is_registered(x) || x == t),
            final(self).entity_sort == old(self).entity_sort,
    {
        if !self.is_registered(t) {
            self.registered_types.push(t);
            proof {
                let old_s = old(self).registered_types@;
                assert forall|x: u64| #[trigger] self.registered_types@.contains(x)
                    <==> (old_s.contains(x) || x == t) by {
                    if self.registered_types@.contains(x) {
                        let k = choose|k: int|
                            0 <= k < self.registered_types@.len()
                                && self.registered_types@[k] == x;
                        if k < old_s.len() {
                            assert(old_s[k] == x);
                        }
                    }
                    if old_s.contains(x) {
                        let k = choose|k: int| 0 <= k < old_s.len() && old_s[k] == x;
                        assert(self.registered_types@[k] == x);
                    }
                    assert(self.registered_types@[old_s.len() as int] == t);
                }
            }
        }
    }

    /// Canonical serialization of a field value whose type is registered.
    /// Requesting an unregistered type is a setup error; callers filter to
    /// registered types first.
    pub fn serialize(&self, type_id: u64, value: u64) -> (r: Vec<u8>)
        requires
            self.spec_is_registered(type_id),
        ensures
            r@ == dec_bytes(value as nat),
    {
        serialize_value(value)
    }
}

impl Default for DesyncPluginData {
    /// An empty registry with the identifier-order strategy.
    fn default() -> (r: Self)
        ensures
            r.registered_types@ == Seq::<u64>::empty(),
            r.entity_sort == SortStrategy::ByIds,
    {
        DesyncPluginData { registered_types: Vec::new(), entity_sort: SortStrategy::ByIds }
    }
}

} // verus!
