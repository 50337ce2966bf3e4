//! Identifiers of actors, tasks and subtasks, and the counter that issues them.

use vstd::prelude::*;

verus! {

/// An opaque identifier; two identifiers are the same entity exactly when
/// their values are equal.
#[derive(Clone, Copy, Debug, PartialEq, Eq, PartialOrd, Ord, Hash, Structural)]
pub struct Id {
    pub value: usize,
}

/// The counter from which fresh identifiers are drawn. It starts at zero and
/// wraps round once every value has been issued.
#[derive(Debug)]
pub struct IdSource {
    next: usize,
}

impl IdSource {
    /// The value that the next identifier will carry.
    pub closed spec fn upcoming(&self) -> usize {
        self.next
    }

    pub fn new() -> (r: IdSource)
        ensures
            r.upcoming() == 0,
    {
        IdSource { next: 0 }
    }

    /// A counter whose next identifier carries `next`.
    pub fn starting_at(next: usize) -> (r: IdSource)
        ensures
            r.upcoming() == next,
    {
        IdSource { next }
    }

    pub fn peek(&self) -> (r: usize)
        ensures
            r == self.upcoming(),
    {
        self.next
    }
}

/// The value that follows `v` in the counter.
pub open spec fn following(v: usize) -> usize {
    if v == usize::MAX {
        0usize
    } else {
        (v + 1) as usize
    }
}

impl Id {
    /// Draws a fresh identifier from `source`.
    pub fn new(source: &mut IdSource) -> (r: Id)
        ensures
            r.value == old(source).upcoming(),
            final(source).upcoming() == following(old(source).upcoming()),
    {
        let value: usize = source.next;
        source.next = if value == usize::MAX {
            0
        } else {
            value + 1
        };
        Id { value }
    }

    /// The identifier that carries `value`.
    pub fn from_value(value: usize) -> (r: Id)
        ensures
            r.value == value,
    {
        Id { value }
    }

    pub fn value(self) -> (r: usize)
        ensures
            r == self.value,
    {
        self.value
    }
}

/// The value that the counter reaches from `v` in `k` steps.
pub open spec fn advance(v: usize, k: nat) -> usize
    decreases k,
{
    if k == 0 {
        v
    } else {
        following(advance(v, (k - 1) as nat))
    }
}

/// Until the counter wraps round, each identifier drawn is larger than the
/// one drawn before it, so none is issued twice.
pub proof fn lemma_ids_increase(earlier: usize, latest: usize)
    requires
        earlier <= latest < usize::MAX,
    ensures
        latest < following(latest),
        earlier != following(latest),
{
}

} // verus!
