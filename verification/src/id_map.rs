//! A small map from identifiers to values that remembers the order in which
//! its keys arrived, so that going through it gives the same order in every run.

use vstd::prelude::*;
use crate::id::Id;

verus! {

/// No identifier is the key of two entries.
pub open spec fn distinct<V>(s: Seq<(Id, V)>) -> bool {
    forall|i: int, j: int| 0 <= i < j < s.len() ==> (#[trigger] s[i]).0 != (#[trigger] s[j]).0
}

/// `id` is the key of an entry.
pub open spec fn keyed<V>(s: Seq<(Id, V)>, id: Id) -> bool {
    exists|i: int| 0 <= i < s.len() && (#[trigger] s[i]).0 == id
}

/// Where the entry of `id` stands, if it has one.
pub open spec fn index_of<V>(s: Seq<(Id, V)>, id: Id) -> int {
    choose|i: int| 0 <= i < s.len() && (#[trigger] s[i]).0 == id
}

/// The value under `id`, if it has one.
pub open spec fn value_of<V>(s: Seq<(Id, V)>, id: Id) -> V {
    s[index_of(s, id)].1
}

/// The entries once `v` has been put under `id`: in place of the value
/// that was there, or else in a new entry at the back.
pub open spec fn put<V>(s: Seq<(Id, V)>, id: Id, v: V) -> Seq<(Id, V)> {
    if keyed(s, id) {
        s.update(index_of(s, id), (id, v))
    } else {
        s.push((id, v))
    }
}

/// The entries once each of `items` has been put in turn.
pub open spec fn put_all<V>(s: Seq<(Id, V)>, items: Seq<(Id, V)>) -> Seq<(Id, V)>
    decreases items.len(),
{
    if items.len() == 0 {
        s
    } else {
        put(put_all(s, items.drop_last()), items.last().0, items.last().1)
    }
}

/// The entry at a place is the entry of its key.
pub proof fn lemma_entry_at<V>(s: Seq<(Id, V)>, i: int)
    requires
        distinct(s),
        0 <= i < s.len(),
    ensures
        keyed(s, s[i].0),
        index_of(s, s[i].0) == i,
        value_of(s, s[i].0) == s[i].1,
{
    let k = index_of(s, s[i].0);
    assert(0 <= k < s.len() && s[k].0 == s[i].0);
    if k < i {
        assert(s[k].0 != s[i].0);
    } else if i < k {
        assert(s[i].0 != s[k].0);
    }
}

/// A key that has an entry stands at its index.
pub proof fn lemma_index_of<V>(s: Seq<(Id, V)>, id: Id)
    requires
        keyed(s, id),
    ensures
        0 <= index_of(s, id) < s.len(),
        s[index_of(s, id)].0 == id,
{
}

/// What a new entry at the back changes.
pub proof fn lemma_pushed<V>(s: Seq<(Id, V)>, id: Id, v: V)
    requires
        distinct(s),
        !keyed(s, id),
    ensures
        distinct(s.push((id, v))),
        forall|k: Id| #[trigger] keyed(s.push((id, v)), k) <==> (k == id || keyed(s, k)),
        forall|k: Id|
            k == id || keyed(s, k) ==> #[trigger] value_of(s.push((id, v)), k) == if k == id {
                v
            } else {
                value_of(s, k)
            },
{
    let t = s.push((id, v));
    assert forall|i: int, j: int| 0 <= i < j < t.len() implies (#[trigger] t[i]).0 != (
    #[trigger] t[j]).0 by {
        if j == s.len() {
            assert(t[i] == s[i]);
        } else {
            assert(t[i] == s[i] && t[j] == s[j]);
        }
    }
    assert(t[s.len() as int].0 == id);
    assert forall|k: Id| #[trigger] keyed(t, k) <==> (k == id || keyed(s, k)) by {
        if keyed(s, k) {
            let i = index_of(s, k);
            assert(t[i] == s[i]);
        }
        if keyed(t, k) && k != id {
            let i = index_of(t, k);
            assert(t[i] == s[i]);
        }
    }
    assert forall|k: Id| k == id || keyed(s, k) implies #[trigger] value_of(t, k) == if k == id {
        v
    } else {
        value_of(s, k)
    } by {
        if k == id {
            lemma_entry_at(t, s.len() as int);
        } else {
            let i = index_of(s, k);
            assert(t[i] == s[i]);
            lemma_entry_at(t, i);
        }
    }
}

/// What replacing the value of the entry at a place changes.
pub proof fn lemma_updated<V>(s: Seq<(Id, V)>, i: int, v: V)
    requires
        distinct(s),
        0 <= i < s.len(),
    ensures
        distinct(s.update(i, (s[i].0, v))),
        forall|k: Id| #[trigger] keyed(s.update(i, (s[i].0, v)), k) <==> keyed(s, k),
        forall|k: Id|
            keyed(s, k) ==> #[trigger] value_of(s.update(i, (s[i].0, v)), k) == if k == s[i].0 {
                v
            } else {
                value_of(s, k)
            },
{
    let t = s.update(i, (s[i].0, v));
    assert forall|a: int, b: int| 0 <= a < b < t.len() implies (#[trigger] t[a]).0 != (
    #[trigger] t[b]).0 by {
        assert(t[a].0 == s[a].0 && t[b].0 == s[b].0);
    }
    assert forall|k: Id| #[trigger] keyed(t, k) <==> keyed(s, k) by {
        if keyed(s, k) {
            let j = index_of(s, k);
            assert(t[j].0 == s[j].0);
        }
        if keyed(t, k) {
            let j = index_of(t, k);
            assert(t[j].0 == s[j].0);
        }
    }
    assert forall|k: Id| keyed(s, k) implies #[trigger] value_of(t, k) == if k == s[i].0 {
        v
    } else {
        value_of(s, k)
    } by {
        let j = index_of(s, k);
        assert(t[j].0 == k);
        lemma_entry_at(t, j);
        lemma_entry_at(s, j);
        if k == s[i].0 {
            lemma_entry_at(s, i);
        }
    }
}

/// What taking the entry at a place out changes.
pub proof fn lemma_removed<V>(s: Seq<(Id, V)>, i: int)
    requires
        distinct(s),
        0 <= i < s.len(),
    ensures
        distinct(s.remove(i)),
        forall|k: Id| #[trigger] keyed(s.remove(i), k) <==> (keyed(s, k) && k != s[i].0),
        forall|k: Id|
            keyed(s, k) && k != s[i].0 ==> #[trigger] value_of(s.remove(i), k) == value_of(s, k),
{
    let t = s.remove(i);
    assert forall|a: int, b: int| 0 <= a < b < t.len() implies (#[trigger] t[a]).0 != (
    #[trigger] t[b]).0 by {
        let a2 = if a < i { a } else { a + 1 };
        let b2 = if b < i { b } else { b + 1 };
        assert(t[a] == s[a2] && t[b] == s[b2]);
    }
    assert forall|k: Id| #[trigger] keyed(t, k) <==> (keyed(s, k) && k != s[i].0) by {
        if keyed(s, k) && k != s[i].0 {
            let j = index_of(s, k);
            if j < i {
                assert(t[j] == s[j]);
            } else {
                assert(t[j - 1] == s[j]);
            }
        }
        if keyed(t, k) {
            let j = index_of(t, k);
            let j2 = if j < i { j } else { j + 1 };
            assert(t[j] == s[j2]);
            if k == s[i].0 {
                if j2 < i {
                    assert(s[j2].0 != s[i].0);
                } else {
                    assert(s[i].0 != s[j2].0);
                }
            }
        }
    }
    assert forall|k: Id| keyed(s, k) && k != s[i].0 implies #[trigger] value_of(t, k) == value_of(
        s,
        k,
    ) by {
        let j = index_of(s, k);
        lemma_entry_at(s, j);
        if j < i {
            assert(t[j] == s[j]);
            lemma_entry_at(t, j);
        } else {
            assert(t[j - 1] == s[j]);
            lemma_entry_at(t, j - 1);
        }
    }
}

/// A map from identifiers to values, in the order in which the keys arrived.
#[derive(Debug)]
pub struct IdMap<V> {
    pub entries: Vec<(Id, V)>,
}

impl<V> IdMap<V> {
    /// No key occurs twice.
    pub open spec fn wf(&self) -> bool {
        distinct(self.entries@)
    }

    pub open spec fn contains(&self, id: Id) -> bool {
        keyed(self.entries@, id)
    }

    pub open spec fn value(&self, id: Id) -> V {
        value_of(self.entries@, id)
    }

    pub fn new() -> (r: IdMap<V>)
        ensures
            r.wf(),
            r.entries@.len() == 0,
            forall|id: Id| !r.contains(id),
    {
        IdMap { entries: Vec::new() }
    }

    pub fn len(&self) -> (r: usize)
        ensures
            r == self.entries@.len(),
    {
        self.entries.len()
    }

    pub fn is_empty(&self) -> (r: bool)
        ensures
            r == (self.entries@.len() == 0),
    {
        self.entries.len() == 0
    }

    /// Where the entry of `id` stands.
    pub fn position(&self, id: Id) -> (r: Option<usize>)
        ensures
            match r {
                Some(i) => i < self.entries@.len() && self.entries@[i as int].0 == id
                    && self.contains(id) && (self.wf() ==> index_of(self.entries@, id) == i),
                None => !self.contains(id),
            },
    {
        let n: usize = self.entries.len();
        let mut i: usize = 0;
        while i < n
            invariant
                n == self.entries@.len(),
                0 <= i <= n,
                forall|j: int| 0 <= j < i ==> (#[trigger] self.entries@[j]).0 != id,
            decreases n - i,
        {
            if self.entries[i].0 == id {
                proof {
                    if self.wf() {
                        lemma_entry_at(self.entries@, i as int);
                    }
                }
                return Some(i);
            }
            i = i + 1;
        }
        None
    }

    pub fn contains_key(&self, id: Id) -> (r: bool)
        ensures
            r == self.contains(id),
    {
        self.position(id).is_some()
    }

    /// The value under `id`.
    pub fn get(&self, id: Id) -> (r: Option<&V>)
        requires
            self.wf(),
        ensures
            match r {
                Some(v) => self.contains(id) && *v == self.value(id),
                None => !self.contains(id),
            },
    {
        match self.position(id) {
            Some(i) => Some(&self.entries[i].1),
            None => None,
        }
    }

    /// Puts `v` under `id`: in place of the value that was there, or else in a
    /// new entry at the back. Returns the value that was there.
    pub fn insert(&mut self, id: Id, v: V) -> (r: Option<V>)
        requires
            old(self).wf(),
        ensures
            final(self).wf(),
            forall|k: Id| #[trigger] final(self).contains(k) <==> (k == id || old(self).contains(k)),
            forall|k: Id|
                k != id && old(self).contains(k) ==> #[trigger] final(self).value(k) == old(
                    self,
                ).value(k),
            final(self).value(id) == v,
            final(self).entries@ == put(old(self).entries@, id, v),
            match r {
                Some(before) => {
                    &&& old(self).contains(id)
                    &&& before == old(self).value(id)
                    &&& final(self).entries@ == old(self).entries@.update(
                        index_of(old(self).entries@, id),
                        (id, v),
                    )
                },
                None => {
                    &&& !old(self).contains(id)
                    &&& final(self).entries@ == old(self).entries@.push((id, v))
                },
            },
    {
        match self.position(id) {
            Some(i) => {
                proof {
                    lemma_updated(self.entries@, i as int, v);
                    lemma_entry_at(self.entries@, i as int);
                }
                let mut slot = (id, v);
                std::mem::swap(&mut self.entries[i], &mut slot);
                Some(slot.1)
            },
            None => {
                proof {
                    lemma_pushed(self.entries@, id, v);
                }
                self.entries.push((id, v));
                None
            },
        }
    }

    /// Takes the entry of `id` out and returns its value.
    pub fn remove(&mut self, id: Id) -> (r: Option<V>)
        requires
            old(self).wf(),
        ensures
            final(self).wf(),
            forall|k: Id| #[trigger] final(self).contains(k) <==> (k != id && old(self).contains(k)),
            forall|k: Id|
                k != id && old(self).contains(k) ==> #[trigger] final(self).value(k) == old(
                    self,
                ).value(k),
            match r {
                Some(before) => {
                    &&& old(self).contains(id)
                    &&& before == old(self).value(id)
                    &&& final(self).entries@ == old(self).entries@.remove(
                        index_of(old(self).entries@, id),
                    )
                },
                None => !old(self).contains(id) && final(self).entries@ == old(self).entries@,
            },
    {
        match self.position(id) {
            Some(i) => {
                proof {
                    lemma_removed(self.entries@, i as int);
                    lemma_entry_at(self.entries@, i as int);
                }
                let entry = self.entries.remove(i);
                Some(entry.1)
            },
            None => None,
        }
    }

    /// Takes every entry out.
    pub fn clear(&mut self)
        ensures
            final(self).wf(),
            final(self).entries@.len() == 0,
            forall|id: Id| !final(self).contains(id),
    {
        self.entries.clear();
    }
}

} // verus!
