//! Bookkeeping of verification results for subtasks that were sent to more
//! than one provider.

use vstd::prelude::*;
use crate::fixed::Fixed;
use crate::id::Id;
use crate::id_map::{index_of, lemma_entry_at, lemma_index_of, lemma_removed, IdMap};

verus! {

/// What one provider delivered for a subtask: its identifier and its
/// effective work, or nothing where it ran out of budget.
pub type VerificationResult = Option<(Id, Fixed)>;

/// How many results settle a subtask.
pub const DEFAULT_FACTOR: usize = 2;

/// The results that hold something, in the order of `results`.
pub open spec fn delivered(results: Seq<VerificationResult>) -> Seq<(Id, Fixed)>
    decreases results.len(),
{
    if results.len() == 0 {
        Seq::empty()
    } else {
        match results.last() {
            Some(pair) => delivered(results.drop_last()).push(pair),
            None => delivered(results.drop_last()),
        }
    }
}

/// No more is delivered than was received.
pub proof fn lemma_delivered_len(results: Seq<VerificationResult>)
    ensures
        delivered(results).len() <= results.len(),
    decreases results.len(),
{
    if results.len() > 0 {
        lemma_delivered_len(results.drop_last());
    }
}

/// Whatever is delivered was received.
pub proof fn lemma_delivered_from(results: Seq<VerificationResult>, j: int)
    requires
        0 <= j < delivered(results).len(),
    ensures
        exists|i: int| 0 <= i < results.len() && #[trigger] results[i] == Some(delivered(results)[j]),
    decreases results.len(),
{
    if results.len() > 0 {
        let rest = delivered(results.drop_last());
        if j < rest.len() {
            lemma_delivered_from(results.drop_last(), j);
            let i = choose|i: int|
                0 <= i < results.drop_last().len() && #[trigger] results.drop_last()[i] == Some(
                    rest[j],
                );
            assert(results[i] == Some(delivered(results)[j]));
        } else {
            assert(results[results.len() - 1] == Some(delivered(results)[j]));
        }
    }
}

/// The results awaited and received, by subtask.
#[derive(Debug)]
pub struct VerificationMap {
    verification_factor: usize,
    map: IdMap<Vec<VerificationResult>>,
}

impl VerificationMap {
    /// How many results settle a subtask.
    pub closed spec fn factor(&self) -> nat {
        self.verification_factor as nat
    }

    /// Whether results for `key` are awaited.
    pub closed spec fn awaits(&self, key: Id) -> bool {
        self.map.contains(key)
    }

    /// The results received so far for `key`.
    pub closed spec fn received(&self, key: Id) -> Seq<VerificationResult> {
        self.map.value(key)@
    }

    /// Every subtask awaited still lacks a result.
    pub closed spec fn wf(&self) -> bool {
        &&& self.verification_factor == DEFAULT_FACTOR
        &&& self.map.wf()
        &&& forall|i: int|
            0 <= i < self.map.entries@.len() ==> (#[trigger] self.map.entries@[i]).1@.len()
                < self.verification_factor
    }

    /// A subtask awaited still lacks a result.
    pub proof fn lemma_awaited_lacks_result(&self, key: Id)
        requires
            self.wf(),
            self.awaits(key),
        ensures
            self.received(key).len() < self.factor(),
    {
        lemma_index_of(self.map.entries@, key);
    }

    /// A map that awaits nothing. Only a factor of two is provided for.
    pub fn new(factor: usize) -> (r: VerificationMap)
        requires
            factor == DEFAULT_FACTOR,
        ensures
            r.wf(),
            r.factor() == factor,
            forall|key: Id| !r.awaits(key),
    {
        VerificationMap { verification_factor: factor, map: IdMap::new() }
    }

    pub fn has_key(&self, key: Id) -> (r: bool)
        ensures
            r == self.awaits(key),
    {
        self.map.contains_key(key)
    }

    /// Starts awaiting results for `key`; results received for it before are
    /// forgotten.
    pub fn insert_key(&mut self, key: Id)
        requires
            old(self).wf(),
        ensures
            final(self).wf(),
            final(self).factor() == old(self).factor(),
            final(self).awaits(key),
            final(self).received(key).len() == 0,
            forall|k: Id| k != key ==> (#[trigger] final(self).awaits(k) <==> old(self).awaits(k)),
            forall|k: Id|
                k != key && old(self).awaits(k) ==> #[trigger] final(self).received(k) == old(
                    self,
                ).received(k),
    {
        let ghost before = self.map.entries@;
        let fresh: Vec<VerificationResult> = Vec::new();
        let _ = self.map.insert(key, fresh);
        proof {
            assert forall|i: int| 0 <= i < self.map.entries@.len() implies (
            #[trigger] self.map.entries@[i]).1@.len() < self.verification_factor by {
                if i < before.len() && self.map.entries@[i] == before[i] {
                } else {
                    assert(self.map.entries@[i].1 == fresh);
                }
            }
        }
    }

    /// Records a result for `key`. Once as many results as the factor asks
    /// for have arrived, returns those that hold something, in the order of
    /// their arrival, and awaits the subtask no longer.
    pub fn insert_verification(&mut self, key: Id, res: VerificationResult) -> (r: Option<
        Vec<(Id, Fixed)>,
    >)
        requires
            old(self).wf(),
            old(self).awaits(key),
        ensures
            final(self).wf(),
            final(self).factor() == old(self).factor(),
            forall|k: Id| k != key ==> (#[trigger] final(self).awaits(k) <==> old(self).awaits(k)),
            forall|k: Id|
                k != key && old(self).awaits(k) ==> #[trigger] final(self).received(k) == old(
                    self,
                ).received(k),
            match r {
                Some(results) => {
                    &&& old(self).received(key).len() + 1 == old(self).factor()
                    &&& results@ == delivered(old(self).received(key).push(res))
                    &&& !final(self).awaits(key)
                },
                None => {
                    &&& old(self).received(key).len() + 1 < old(self).factor()
                    &&& final(self).awaits(key)
                    &&& final(self).received(key) == old(self).received(key).push(res)
                },
            },
    {
        let ghost before = self.map.entries@;
        let i = match self.map.position(key) {
            Some(i) => i,
            None => {
                proof {
                    assert(false);
                }
                return None;
            },
        };
        proof {
            lemma_entry_at(before, i as int);
        }
        if self.map.entries[i].1.len() + 1 == self.verification_factor {
            proof {
                lemma_removed(before, i as int);
            }
            let entry = self.map.entries.remove(i);
            let mut all = entry.1;
            all.push(res);
            let out = Self::collect(&all);
            proof {
                assert forall|j: int| 0 <= j < self.map.entries@.len() implies (
                #[trigger] self.map.entries@[j]).1@.len() < self.verification_factor by {
                    let j2 = if j < i { j } else { j + 1 };
                    assert(self.map.entries@[j] == before[j2]);
                }
            }
            Some(out)
        } else {
            self.map.entries[i].1.push(res);
            proof {
                let after = self.map.entries@;
                assert(after[i as int].0 == key);
                assert forall|a: int, b: int| 0 <= a < b < after.len() implies (
                #[trigger] after[a]).0 != (#[trigger] after[b]).0 by {
                    assert(after[a].0 == before[a].0 && after[b].0 == before[b].0);
                }
                lemma_entry_at(after, i as int);
                assert forall|k: Id| k != key implies (#[trigger] self.awaits(k) <==> old(
                    self,
                ).awaits(k)) by {
                    if old(self).awaits(k) {
                        let j = index_of(before, k);
                        assert(after[j].0 == k);
                    }
                    if self.awaits(k) {
                        let j = index_of(after, k);
                        assert(before[j].0 == k);
                    }
                }
                assert forall|k: Id| k != key && old(self).awaits(k) implies #[trigger] self.received(
                    k,
                ) == old(self).received(k) by {
                    let j = index_of(before, k);
                    lemma_entry_at(before, j);
                    assert(after[j] == before[j]);
                    lemma_entry_at(after, j);
                }
            }
            None
        }
    }

    /// The results in `all` that hold something.
    fn collect(all: &Vec<VerificationResult>) -> (out: Vec<(Id, Fixed)>)
        ensures
            out@ == delivered(all@),
    {
        let mut out: Vec<(Id, Fixed)> = Vec::new();
        let n: usize = all.len();
        let mut i: usize = 0;
        while i < n
            invariant
                n == all@.len(),
                0 <= i <= n,
                out@ == delivered(all@.subrange(0, i as int)),
            decreases n - i,
        {
            proof {
                assert(all@.subrange(0, i + 1).drop_last() =~= all@.subrange(0, i as int));
            }
            match all[i] {
                Some(pair) => {
                    out.push(pair);
                },
                None => {},
            }
            i = i + 1;
        }
        assert(all@.subrange(0, n as int) =~= all@);
        out
    }
}

} // verus!
