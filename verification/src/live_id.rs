//! Identifiers of live objects: requests, widgets and the nodes of a live document.
use vstd::prelude::*;
use std::collections::hash_map::RandomState;
use std::hash::BuildHasher;

verus! {

/// A 64-bit identifier.
#[derive(Clone, Copy, Debug, PartialEq, Eq, Structural, Hash)]
pub struct LiveId(pub u64);

/// `std::collections::hash_map::RandomState::new`: a hasher builder with fresh
/// random keys.  Nothing is promised of the keys.
#[verifier::external_body]
fn fresh_hasher_keys() -> RandomState {
    RandomState::new()
}

/// `std::hash::BuildHasher::hash_one`: the hash of `x` under the builder's
/// keys.  Nothing is promised of the value: it depends on the random keys.
#[verifier::external_body]
fn hash_under(keys: &RandomState, x: u64) -> u64 {
    keys.hash_one(x)
}

impl LiveId {
    /// A fresh identifier, drawn from randomly keyed hashing.  Nothing is
    /// promised of its value.
    pub fn unique() -> LiveId {
        let keys = fresh_hasher_keys();
        LiveId(hash_under(&keys, 0))
    }
}

/// A source of ids that hands out each id once: every id it has given is
/// below the next one, and the next one only grows.
pub struct LiveIdCounter {
    next: u64,
}

impl LiveIdCounter {
    /// The id the counter gives next.
    pub closed spec fn next_id(self) -> u64 {
        self.next
    }

    /// A counter that starts at 1 (0 is the empty id).
    pub fn new() -> (r: LiveIdCounter)
        ensures
            r.next_id() == 1,
    {
        LiveIdCounter { next: 1 }
    }

    /// The next id, which no earlier call gave.
    pub fn fresh(&mut self) -> (r: LiveId)
        requires
            old(self).next_id() < u64::MAX,
        ensures
            r.0 == old(self).next_id(),
            final(self).next_id() == old(self).next_id() + 1,
    {
        let id = LiveId(self.next);
        self.next = self.next + 1;
        id
    }
}

/// An id a counter gave before differs from every id it gives later: the
/// earlier id is below the counter's next id, which only grows.
pub proof fn law_counter_ids_differ(before: LiveIdCounter, after: LiveIdCounter, earlier: LiveId)
    requires
        earlier.0 < before.next_id(),
        before.next_id() <= after.next_id(),
    ensures
        earlier.0 != after.next_id(),
        earlier.0 < after.next_id(),
{
}

} // verus!
