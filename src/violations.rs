//! Protocol violations: a message that decodes to no known shape is
//! dropped and counted against the connection it came from; a connection
//! that reaches the bound is cut off.

use vstd::prelude::*;
use std::collections::HashMap;

verus! {

broadcast use vstd::std_specs::hash::group_hash_axioms;

/// Undecodable messages a connection may send before it is disconnected.
pub const MAX_PROTOCOL_VIOLATIONS: u32 = 3;

/// The count after one more violation; it stops at the bound.
pub open spec fn bumped(count: u32) -> u32 {
    if count < MAX_PROTOCOL_VIOLATIONS {
        (count + 1) as u32
    } else {
        MAX_PROTOCOL_VIOLATIONS
    }
}

/// Violations on record for `id`.
pub open spec fn violations_of(counts: Map<u64, u32>, id: u64) -> u32 {
    if counts.contains_key(id) {
        counts[id]
    } else {
        0
    }
}

/// Violation counts per connection.
pub struct ViolationLedger {
    counts: HashMap<u64, u32>,
}

impl View for ViolationLedger {
    type V = Map<u64, u32>;

    closed spec fn view(&self) -> Map<u64, u32> {
        self.counts@
    }
}

impl ViolationLedger {
    /// A ledger with no violation on record.
    pub fn new() -> (r: ViolationLedger)
        ensures
            r@ == Map::<u64, u32>::empty(),
    {
        ViolationLedger { counts: HashMap::new() }
    }

    /// Violations on record for `id`.
    pub fn count(&self, id: u64) -> (r: u32)
        ensures
            r == violations_of(self@, id),
    {
        match self.counts.get(&id) {
            Some(c) => *c,
            None => 0,
        }
    }

    /// Records one undecodable message from `id`. Returns whether `id` has
    /// now reached the bound and must be disconnected.
    pub fn record(&mut self, id: u64) -> (cut: bool)
        ensures
            final(self)@ == old(self)@.insert(id, bumped(violations_of(old(self)@, id))),
            cut == (bumped(violations_of(old(self)@, id)) >= MAX_PROTOCOL_VIOLATIONS),
    {
        let c = self.count(id);
        let next = if c < MAX_PROTOCOL_VIOLATIONS { c + 1 } else { MAX_PROTOCOL_VIOLATIONS };
        self.counts.insert(id, next);
        next >= MAX_PROTOCOL_VIOLATIONS
    }

    /// Drops what is on record for `id`, once it has disconnected.
    pub fn forget(&mut self, id: u64)
        ensures
            final(self)@ == old(self)@.remove(id),
    {
        self.counts.remove(&id);
    }
}

} // verus!
