//! Bucketing of values by a numeric key.
//!
//! A list of boundaries cuts the keys into partitions: below the first
//! boundary, from each boundary up to the next, and from the last one on.
//! Every value goes into the first partition that admits its key, and the
//! values of a partition stand in ascending order of their keys.

use vstd::prelude::*;
use core::cmp::Ordering;
use vstd::std_specs::cmp::PartialOrdSpec;
use core::fmt::Debug;
use core::ops::Add;

verus! {

/// A value that has a key of its own.
pub trait Partitionable {
    type Item: Add<Output = Self::Item> + Copy;

    /// The key.
    fn item(&self) -> Self::Item;
}

/// `a` comes before `b`.
pub open spec fn before<T: PartialOrd>(a: T, b: T) -> bool {
    a.partial_cmp_spec(&b) == Some(Ordering::Less)
}

/// `a` comes before `b` or is its equal.
pub open spec fn not_after<T: PartialOrd>(a: T, b: T) -> bool {
    a.partial_cmp_spec(&b) == Some(Ordering::Less) || a.partial_cmp_spec(&b) == Some(
        Ordering::Equal,
    )
}

/// Comparisons of `T` are what its order says.
pub open spec fn ordered<T: PartialOrd>() -> bool {
    T::obeys_partial_cmp_spec()
}

/// Of two keys one comes before the other or they are equal.
pub open spec fn total<T: PartialOrd>() -> bool {
    forall|a: T, b: T| #[trigger] before(a, b) || not_after(b, a)
}

/// What does not come after a key that does not come after a third does not
/// come after the third.
pub open spec fn transitive<T: PartialOrd>() -> bool {
    forall|a: T, b: T, c: T|
        #![trigger not_after(a, b), not_after(b, c)]
        not_after(a, b) && not_after(b, c) ==> not_after(a, c)
}

/// The entries stand in ascending order of their keys.
pub open spec fn ascending_keys<T: PartialOrd, P>(s: Seq<(T, P)>) -> bool {
    forall|i: int, j: int| 0 <= i < j < s.len() ==> not_after((#[trigger] s[i]).0, (#[trigger] s[j]).0)
}

/// Whether a partition from `lower` up to `upper` admits the key `a`.
pub open spec fn admits<T: PartialOrd>(lower: Option<T>, upper: Option<T>, a: T) -> bool {
    match (lower, upper) {
        (None, None) => true,
        (None, Some(upper)) => before(a, upper),
        (Some(lower), None) => not_after(lower, a),
        (Some(lower), Some(upper)) => not_after(lower, a) && before(a, upper),
    }
}

/// Where the partition `i` of those that `boundaries` cut begins.
pub open spec fn lower_of<T>(boundaries: Seq<T>, i: int) -> Option<T> {
    if i == 0 {
        None
    } else {
        Some(boundaries[i - 1])
    }
}

/// Where the partition `i` of those that `boundaries` cut ends.
pub open spec fn upper_of<T>(boundaries: Seq<T>, i: int) -> Option<T> {
    if i == boundaries.len() {
        None
    } else {
        Some(boundaries[i])
    }
}

/// The first partition from `from` on that admits the key `a`; the last
/// partition where none does.
pub open spec fn first_fit<T: PartialOrd>(boundaries: Seq<T>, a: T, from: int) -> int
    decreases boundaries.len() - from,
{
    if from >= boundaries.len() {
        boundaries.len() as int
    } else if admits(lower_of(boundaries, from), upper_of(boundaries, from), a) {
        from
    } else {
        first_fit(boundaries, a, from + 1)
    }
}

/// The partition into which a value with the key `a` goes.
pub open spec fn home<T: PartialOrd>(boundaries: Seq<T>, a: T) -> int {
    first_fit(boundaries, a, 0)
}

/// How many of the leading entries of `s` have a key that does not come
/// after `a`: the place at which a value with the key `a` joins `s`.
pub open spec fn rank<T: PartialOrd, P>(s: Seq<(T, P)>, a: T) -> int
    decreases s.len(),
{
    if s.len() == 0 {
        0
    } else if not_after(s[0].0, a) {
        1 + rank(s.drop_first(), a)
    } else {
        0
    }
}

/// What the partition `i` holds once the values, each with its key, have
/// been placed in turn.
pub open spec fn bucket<T: PartialOrd, P>(
    keys: Seq<T>,
    values: Seq<P>,
    boundaries: Seq<T>,
    i: int,
) -> Seq<(T, P)>
    decreases values.len(),
{
    if values.len() == 0 || keys.len() != values.len() {
        Seq::empty()
    } else {
        let rest = bucket(keys.drop_last(), values.drop_last(), boundaries, i);
        if home(boundaries, keys.last()) == i {
            rest.insert(rank(rest, keys.last()), (keys.last(), values.last()))
        } else {
            rest
        }
    }
}

/// The values of `entries`, without their keys.
pub open spec fn values_of<T, P>(entries: Seq<(T, P)>) -> Seq<P> {
    entries.map_values(|e: (T, P)| e.1)
}

/// The rank of `a` in `s` is `j` where the first `j` entries do not come
/// after `a` and the next one does.
pub proof fn lemma_rank<T: PartialOrd, P>(s: Seq<(T, P)>, a: T, j: int)
    requires
        0 <= j <= s.len(),
        forall|k: int| 0 <= k < j ==> not_after((#[trigger] s[k]).0, a),
        j < s.len() ==> !not_after(s[j].0, a),
    ensures
        rank(s, a) == j,
    decreases s.len(),
{
    if s.len() > 0 && j > 0 {
        assert(not_after(s[0].0, a));
        let t = s.drop_first();
        assert forall|k: int| 0 <= k < j - 1 implies not_after((#[trigger] t[k]).0, a) by {
            assert(t[k] == s[k + 1]);
        }
        if j - 1 < t.len() {
            assert(t[j - 1] == s[j]);
        }
        lemma_rank(t, a, j - 1);
    }
}

/// Where the order of the keys is total, every key has a home among the
/// partitions, and its home admits it.
pub proof fn lemma_home_admits<T: PartialOrd>(boundaries: Seq<T>, a: T, from: int)
    requires
        total::<T>(),
        0 <= from <= boundaries.len(),
        from > 0 ==> not_after(boundaries[from - 1], a),
    ensures
        from <= first_fit(boundaries, a, from) <= boundaries.len(),
        admits(
            lower_of(boundaries, first_fit(boundaries, a, from)),
            upper_of(boundaries, first_fit(boundaries, a, from)),
            a,
        ),
    decreases boundaries.len() - from,
{
    if from < boundaries.len() {
        if !admits(lower_of(boundaries, from), upper_of(boundaries, from), a) {
            assert(before(a, boundaries[from]) || not_after(boundaries[from], a));
            lemma_home_admits(boundaries, a, from + 1);
        }
    }
}

/// No value is lost or made up: the partitions together hold as many values
/// as were placed.
pub proof fn lemma_bucket_sizes<T: PartialOrd, P>(
    keys: Seq<T>,
    values: Seq<P>,
    boundaries: Seq<T>,
    i: int,
)
    requires
        keys.len() == values.len(),
    ensures
        bucket(keys, values, boundaries, i).len() <= values.len(),
        forall|k: int|
            0 <= k < bucket(keys, values, boundaries, i).len() ==> home(
                boundaries,
                (#[trigger] bucket(keys, values, boundaries, i)[k]).0,
            ) == i,
    decreases values.len(),
{
    if values.len() > 0 {
        lemma_bucket_sizes(keys.drop_last(), values.drop_last(), boundaries, i);
        let rest = bucket(keys.drop_last(), values.drop_last(), boundaries, i);
        if home(boundaries, keys.last()) == i {
            lemma_rank_bounds(rest, keys.last());
            let j = rank(rest, keys.last());
            let now = bucket(keys, values, boundaries, i);
            assert forall|k: int| 0 <= k < now.len() implies home(boundaries, (#[trigger] now[k]).0)
                == i by {
                if k < j {
                    assert(now[k] == rest[k]);
                } else if k > j {
                    assert(now[k] == rest[k - 1]);
                }
            }
        }
    }
}

/// What stands before the rank of a key does not come after the key, and
/// what stands at the rank does.
pub proof fn lemma_rank_splits<T: PartialOrd, P>(s: Seq<(T, P)>, a: T)
    ensures
        0 <= rank(s, a) <= s.len(),
        forall|k: int| 0 <= k < rank(s, a) ==> not_after((#[trigger] s[k]).0, a),
        rank(s, a) < s.len() ==> !not_after(s[rank(s, a)].0, a),
    decreases s.len(),
{
    if s.len() > 0 && not_after(s[0].0, a) {
        let t = s.drop_first();
        lemma_rank_splits(t, a);
        assert forall|k: int| 0 <= k < rank(s, a) implies not_after((#[trigger] s[k]).0, a) by {
            if k > 0 {
                assert(s[k] == t[k - 1]);
            }
        }
        if rank(s, a) < s.len() {
            assert(s[rank(s, a)] == t[rank(t, a)]);
        }
    }
}

/// Where the order of the keys is total and transitive, the values of a
/// partition stand in ascending order of their keys.
pub proof fn lemma_bucket_ascending<T: PartialOrd, P>(
    keys: Seq<T>,
    values: Seq<P>,
    boundaries: Seq<T>,
    i: int,
)
    requires
        keys.len() == values.len(),
        total::<T>(),
        transitive::<T>(),
    ensures
        ascending_keys(bucket(keys, values, boundaries, i)),
    decreases values.len(),
{
    if values.len() > 0 {
        lemma_bucket_ascending(keys.drop_last(), values.drop_last(), boundaries, i);
        let rest = bucket(keys.drop_last(), values.drop_last(), boundaries, i);
        if home(boundaries, keys.last()) == i {
            let a = keys.last();
            let j = rank(rest, a);
            lemma_rank_splits(rest, a);
            let now = bucket(keys, values, boundaries, i);
            assert forall|x: int, y: int| 0 <= x < y < now.len() implies not_after(
                (#[trigger] now[x]).0,
                (#[trigger] now[y]).0,
            ) by {
                if y < j {
                    assert(now[x] == rest[x] && now[y] == rest[y]);
                } else if y == j {
                    assert(now[x] == rest[x]);
                } else if x < j {
                    assert(now[x] == rest[x] && now[y] == rest[y - 1]);
                } else if x == j {
                    assert(now[y] == rest[y - 1]);
                    assert(before(a, rest[j].0) || not_after(rest[j].0, a));
                    assert(not_after(a, rest[j].0));
                    if y - 1 > j {
                        assert(not_after(rest[j].0, rest[y - 1].0));
                    }
                } else {
                    assert(now[x] == rest[x - 1] && now[y] == rest[y - 1]);
                }
            }
        }
    }
}

/// A rank is a place in the sequence or just behind it.
pub proof fn lemma_rank_bounds<T: PartialOrd, P>(s: Seq<(T, P)>, a: T)
    ensures
        0 <= rank(s, a) <= s.len(),
    decreases s.len(),
{
    if s.len() > 0 {
        lemma_rank_bounds(s.drop_first(), a);
    }
}

/// The iterator that `iter_mut` of a slice hands out.
#[verifier::external_type_specification]
#[verifier::external_body]
#[verifier::reject_recursive_types(T)]
pub struct ExIterMut<'a, T: 'a>(core::slice::IterMut<'a, T>);

/// The values whose keys lie between two boundaries.
#[derive(Debug)]
#[verifier::reject_recursive_types(T)]
pub struct Partition<T, P> where T: PartialOrd + Add<Output = T> + Copy + Debug, P: Debug {
    /// The boundary at which the partition begins, if it has one.
    pub lower: Option<T>,
    /// The boundary before which the partition ends, if it has one.
    pub upper: Option<T>,
    pub values: Vec<P>,
}

/// Whether `a` comes before `b`.
fn is_before<T: PartialOrd>(a: &T, b: &T) -> (r: bool)
    ensures
        ordered::<T>() ==> r == before(*a, *b),
{
    *a < *b
}

/// Whether `a` comes before `b` or is its equal.
fn is_not_after<T: PartialOrd>(a: &T, b: &T) -> (r: bool)
    ensures
        ordered::<T>() ==> r == not_after(*a, *b),
{
    *a <= *b
}

/// Whether a partition from `lower` up to `upper` admits the key `a`.
fn key_fits<T: PartialOrd + Copy>(lower: Option<T>, upper: Option<T>, a: T) -> (r: bool)
    ensures
        ordered::<T>() ==> r == admits(lower, upper, a),
{
    match (lower, upper) {
        (None, None) => true,
        (None, Some(upper)) => is_before(&a, &upper),
        (Some(lower), None) => is_not_after(&lower, &a),
        (Some(lower), Some(upper)) => is_not_after(&lower, &a) && is_before(&a, &upper),
    }
}

impl<T, P> Partition<T, P> where T: PartialOrd + Add<Output = T> + Copy + Debug, P: Debug {
    /// An empty partition that begins at `lower` and does not end.
    pub fn new(lower: Option<T>) -> (r: Self)
        ensures
            r.lower == lower,
            r.upper is None,
            r.values@.len() == 0,
    {
        Self { lower, upper: None, values: Vec::new() }
    }

    /// Whether the partition admits `value`, whose key `into` gives.
    pub fn matches<F>(&self, value: &P, into: F) -> (r: bool) where F: Fn(&P) -> T
        requires
            call_requires(into, (value,)),
        ensures
            exists|a: T| #[trigger]
                call_ensures(into, (value,), a) && (ordered::<T>() ==> r == admits(
                    self.lower,
                    self.upper,
                    a,
                )),
    {
        let a = into(value);
        key_fits(self.lower, self.upper, a)
    }

    /// Puts `value` behind the values that the partition holds.
    pub fn insert(&mut self, value: P)
        ensures
            final(self).values@ == old(self).values@.push(value),
            final(self).lower == old(self).lower,
            final(self).upper == old(self).upper,
    {
        self.values.push(value)
    }

    /// Where the partition begins and where it ends.
    pub fn boundaries(&self) -> (r: (Option<T>, Option<T>))
        ensures
            r == (self.lower, self.upper),
    {
        (self.lower, self.upper)
    }

    /// Goes through the values that the partition holds, in their order.
    pub fn iter(&self) -> (r: core::slice::Iter<'_, P>)
        ensures
            vstd::std_specs::slice::into_iter_elts(r) == self.values@,
    {
        let slice = self.values.as_slice();
        let r = slice.iter();
        proof {
            vstd::std_specs::slice::axiom_spec_slice_iter(slice);
            assert(vstd::std_specs::slice::into_iter_elts(r) =~= self.values@);
        }
        r
    }

    /// Goes through the values that the partition holds, in their order,
    /// and lets each be changed. Calls `iter_mut` of the slice of values;
    /// nothing is claimed of what the caller does through it.
    #[verifier::external_body]
    pub fn iter_mut(&mut self) -> core::slice::IterMut<'_, P> {
        self.values.iter_mut()
    }

    /// How many values the partition holds.
    pub fn len(&self) -> (r: usize)
        ensures
            r == self.values@.len(),
    {
        self.values.len()
    }

    pub fn is_empty(&self) -> (r: bool)
        ensures
            r == (self.values@.len() == 0),
    {
        self.values.len() == 0
    }

    /// Gives up the values that the partition holds, in their order.
    pub fn into_values(self) -> (r: Vec<P>)
        ensures
            r@ == self.values@,
    {
        self.values
    }

    /// The values that the partition holds, in their order.
    pub fn values(&self) -> (r: &Vec<P>)
        ensures
            r@ == self.values@,
    {
        &self.values
    }
}

/// What `partition_by` returns for `values` with the keys `keys`.
pub open spec fn partitioned<T, P>(
    keys: Seq<T>,
    values: Seq<P>,
    boundaries: Seq<T>,
    parts: Seq<Partition<T, P>>,
) -> bool where T: PartialOrd + Add<Output = T> + Copy + Debug, P: Debug {
    if values.len() == 0 {
        parts.len() == 0
    } else {
        &&& parts.len() == boundaries.len() + 1
        &&& forall|i: int|
            0 <= i < parts.len() ==> {
                &&& (#[trigger] parts[i]).lower == lower_of(boundaries, i)
                &&& parts[i].upper == upper_of(boundaries, i)
                &&& parts[i].values@ == values_of(bucket(keys, values, boundaries, i))
            }
    }
}

/// `keys` are keys that `into` gives for `values`, one for each.
pub open spec fn keys_of<T, P, F: Fn(&P) -> T>(into: F, values: Seq<P>, keys: Seq<T>) -> bool {
    &&& keys.len() == values.len()
    &&& forall|i: int| 0 <= i < values.len() ==> call_ensures(into, (&#[trigger] values[i],), keys[i])
}

/// Cuts the keys at `boundaries` and puts every value into the first
/// partition that admits the key that `into` gives for it. The values of a
/// partition stand in ascending order of their keys; values of equal keys
/// keep their order. Without values there are no partitions.
pub fn partition_by<T, P, F>(values: Vec<P>, boundaries: &[T], into: F) -> (r: Vec<Partition<T, P>>)
    where
        T: PartialOrd + Add<Output = T> + Copy + Debug,
        P: Debug,
        F: Fn(&P) -> T,
    requires
        ordered::<T>(),
        boundaries@.len() < usize::MAX,
        forall|i: int| 0 <= i < values@.len() ==> call_requires(into, (&#[trigger] values@[i],)),
    ensures
        exists|keys: Seq<T>| #[trigger]
            keys_of(into, values@, keys) && partitioned(keys, values@, boundaries@, r@),
{
    if values.len() == 0 {
        assert(keys_of(into, values@, Seq::<T>::empty()));
        return Vec::new();
    }
    let count: usize = boundaries.len();
    let mut parts: Vec<Partition<T, P>> = Vec::new();
    let mut part_keys: Vec<Vec<T>> = Vec::new();
    let mut lower: Option<T> = None;
    let mut b: usize = 0;
    while b < count
        invariant
            count == boundaries@.len(),
            0 <= b <= count,
            parts@.len() == b,
            part_keys@.len() == b,
            lower == lower_of(boundaries@, b as int),
            forall|i: int|
                0 <= i < b ==> {
                    &&& (#[trigger] parts@[i]).lower == lower_of(boundaries@, i)
                    &&& parts@[i].upper == upper_of(boundaries@, i)
                    &&& parts@[i].values@.len() == 0
                },
            forall|i: int| 0 <= i < b ==> (#[trigger] part_keys@[i])@.len() == 0,
        decreases count - b,
    {
        let boundary = boundaries[b];
        let mut part: Partition<T, P> = Partition::new(lower);
        part.upper = Some(boundary);
        parts.push(part);
        part_keys.push(Vec::new());
        lower = Some(boundary);
        b = b + 1;
    }
    parts.push(Partition::new(lower));
    part_keys.push(Vec::new());

    let ghost all = values@;
    let ghost mut keys: Seq<T> = Seq::empty();
    let mut rest = values;
    proof {
        assert(all.subrange(0, 0) =~= Seq::<P>::empty());
        assert forall|i: int| 0 <= i < parts@.len() implies (#[trigger] parts@[i]).values@
            == values_of(bucket(keys, all.subrange(0, 0), boundaries@, i)) && part_keys@[i]@
            =~= bucket(keys, all.subrange(0, 0), boundaries@, i).map_values(|e: (T, P)| e.0) by {
            assert(parts@[i].values@ =~= values_of(bucket(keys, all.subrange(0, 0), boundaries@, i)));
        }
    }
    while rest.len() > 0
        invariant
            ordered::<T>(),
            count == boundaries@.len(),
            count < usize::MAX,
            all.len() > 0,
            rest@.len() <= all.len(),
            rest@ =~= all.subrange(all.len() - rest@.len(), all.len() as int),
            forall|i: int| 0 <= i < all.len() ==> call_requires(into, (&#[trigger] all[i],)),
            keys_of(into, all.subrange(0, all.len() - rest@.len()), keys),
            parts@.len() == count + 1,
            part_keys@.len() == count + 1,
            forall|i: int|
                0 <= i < parts@.len() ==> {
                    &&& (#[trigger] parts@[i]).lower == lower_of(boundaries@, i)
                    &&& parts@[i].upper == upper_of(boundaries@, i)
                    &&& parts@[i].values@ == values_of(
                        bucket(keys, all.subrange(0, all.len() - rest@.len()), boundaries@, i),
                    )
                },
            forall|i: int|
                0 <= i < parts@.len() ==> (#[trigger] part_keys@[i])@ == bucket(
                    keys,
                    all.subrange(0, all.len() - rest@.len()),
                    boundaries@,
                    i,
                ).map_values(|e: (T, P)| e.0),
        decreases rest@.len(),
    {
        let ghost done = all.len() - rest@.len();
        let ghost placed = all.subrange(0, done);
        let ghost keys_before = keys;
        let value = rest.remove(0);
        assert(value == all[done]);
        let key = into(&value);
        // Find the home of the key.
        let mut h: usize = 0;
        while h < count && !key_fits(parts[h].lower, parts[h].upper, key)
            invariant
                ordered::<T>(),
                count == boundaries@.len(),
                parts@.len() == count + 1,
                0 <= h <= count,
                forall|i: int|
                    0 <= i < parts@.len() ==> (#[trigger] parts@[i]).lower == lower_of(
                        boundaries@,
                        i,
                    ) && parts@[i].upper == upper_of(boundaries@, i),
                first_fit(boundaries@, key, 0) == first_fit(boundaries@, key, h as int),
            decreases count - h,
        {
            h = h + 1;
        }
        assert(home(boundaries@, key) == h);
        // Find the place of the key among those of its partition.
        let m: usize = part_keys[h].len();
        let mut j: usize = 0;
        while j < m && is_not_after(&part_keys[h][j], &key)
            invariant
                ordered::<T>(),
                h < part_keys@.len(),
                m == part_keys@[h as int]@.len(),
                0 <= j <= m,
                forall|k: int| 0 <= k < j ==> not_after(#[trigger] part_keys@[h as int]@[k], key),
            decreases m - j,
        {
            j = j + 1;
        }
        proof {
            keys = keys.push(key);
            let now = all.subrange(0, done + 1);
            assert(now.drop_last() =~= placed);
            assert(keys.drop_last() =~= keys_before);
            assert(now.last() == value);
            let before_h = bucket(keys_before, placed, boundaries@, h as int);
            assert forall|k: int| 0 <= k < j implies not_after((#[trigger] before_h[k]).0, key) by {
                assert(part_keys@[h as int]@[k] == before_h[k].0);
            }
            if j < m {
                assert(part_keys@[h as int]@[j as int] == before_h[j as int].0);
            }
            assert(before_h.len() == m);
            lemma_rank(before_h, key, j as int);
            assert(keys_of(into, now, keys)) by {
                assert forall|i: int| 0 <= i < now.len() implies call_ensures(
                    into,
                    (&#[trigger] now[i],),
                    keys[i],
                ) by {
                    if i < done {
                        assert(now[i] == placed[i]);
                        assert(keys[i] == keys_before[i]);
                    }
                }
            }
        }
        let ghost parts_before = parts@;
        let ghost part_keys_before = part_keys@;
        parts[h].values.insert(j, value);
        part_keys[h].insert(j, key);
        proof {
            let now = all.subrange(0, done + 1);
            assert forall|i: int| 0 <= i < parts@.len() implies {
                &&& (#[trigger] parts@[i]).lower == lower_of(boundaries@, i)
                &&& parts@[i].upper == upper_of(boundaries@, i)
                &&& parts@[i].values@ == values_of(bucket(keys, now, boundaries@, i))
            } by {
                let was = bucket(keys_before, placed, boundaries@, i);
                assert(parts_before[i].values@ == values_of(was));
                if i == h {
                    assert(parts@[i].values@ =~= values_of(bucket(keys, now, boundaries@, i)));
                } else {
                    assert(parts@[i] == parts_before[i]);
                }
            }
            assert forall|i: int| 0 <= i < parts@.len() implies (#[trigger] part_keys@[i])@ == bucket(
                keys,
                now,
                boundaries@,
                i,
            ).map_values(|e: (T, P)| e.0) by {
                let was = bucket(keys_before, placed, boundaries@, i);
                assert(part_keys_before[i]@ == was.map_values(|e: (T, P)| e.0));
                if i == h {
                    assert(part_keys@[i]@ =~= bucket(keys, now, boundaries@, i).map_values(
                        |e: (T, P)| e.0,
                    ));
                } else {
                    assert(part_keys@[i] == part_keys_before[i]);
                }
            }
        }
    }
    proof {
        assert(all.subrange(0, all.len() as int) =~= all);
        assert(keys_of(into, all, keys) && partitioned(keys, all, boundaries@, parts@));
    }
    parts
}

/// Cuts the keys at `boundaries` and puts every value into the first
/// partition that admits its own key.
pub fn partition<T, P>(values: Vec<P>, boundaries: &[T]) -> (r: Vec<Partition<T, P>>)
    where
        T: PartialOrd + Add<Output = T> + Copy + Debug,
        P: Partitionable<Item = T> + Debug,
    requires
        ordered::<T>(),
        boundaries@.len() < usize::MAX,
        forall|i: int| 0 <= i < values@.len() ==> call_requires(P::item, (&#[trigger] values@[i],)),
    ensures
        exists|keys: Seq<T>| #[trigger]
            keys_of(P::item, values@, keys) && partitioned(keys, values@, boundaries@, r@),
{
    partition_by(values, boundaries, P::item)
}

} // verus!
