//! The ranking structure: an ordered map that keeps any number of values
//! under one key.
//!
//! A map is modelled by its buckets, a `Map` from each key that is held to
//! the `Seq` of its values in the order of their insertion. No bucket is
//! empty: a key goes when its last value goes.
use std::collections::BTreeMap;
use vstd::laws_cmp::obeys_cmp;
use vstd::prelude::*;
use vstd::std_specs::cmp::OrdSpec;
use vstd::std_specs::cmp::PartialEqSpec;
use vstd::std_specs::cmp::PartialOrdSpec;
use vstd::std_specs::iter::IteratorSpec;

verus! {

/// The keys of `K` are totally ordered by `Ord`, and the order agrees with `==`.
pub open spec fn total_key_order<K: Ord>() -> bool {
    obeys_cmp::<K>()
}

/// `a` sorts before `b`, or is the same key.
pub open spec fn key_le<K: Ord>(a: K, b: K) -> bool {
    a == b || a.cmp_spec(&b) is Less
}

/// The values stored under `key`, oldest first; empty where the key has no bucket.
pub open spec fn bucket_at<K, V>(buckets: Map<K, Seq<V>>, key: K) -> Seq<V> {
    if buckets.contains_key(key) {
        buckets[key]
    } else {
        Seq::empty()
    }
}

/// No key is kept with an empty bucket.
pub open spec fn no_empty_bucket<K, V>(buckets: Map<K, Seq<V>>) -> bool {
    forall|k: K| buckets.contains_key(k) ==> (#[trigger] buckets[k]).len() > 0
}

/// The index of the first element of `bucket` that equals `value`, or the
/// bucket's length where none does.
pub open spec fn position_of<V: PartialEq>(bucket: Seq<V>, value: V) -> int
    decreases bucket.len(),
{
    if bucket.len() == 0 {
        0
    } else if bucket[0].eq_spec(&value) {
        0
    } else {
        1 + position_of(bucket.drop_first(), value)
    }
}

/// The buckets after `value` has been appended under `key`.
pub open spec fn with_value<K, V>(buckets: Map<K, Seq<V>>, key: K, value: V) -> Map<K, Seq<V>> {
    buckets.insert(key, bucket_at(buckets, key).push(value))
}

/// Some value under `key` equals `value`.
pub open spec fn holds_pair<K, V: PartialEq>(buckets: Map<K, Seq<V>>, key: K, value: V) -> bool {
    position_of(bucket_at(buckets, key), value) < bucket_at(buckets, key).len()
}

/// The buckets after the first value under `key` that equals `value` has been
/// taken out; a bucket that this empties goes with it. Unchanged where no such
/// value is held.
pub open spec fn without_value<K, V: PartialEq>(
    buckets: Map<K, Seq<V>>,
    key: K,
    value: V,
) -> Map<K, Seq<V>> {
    let bucket = bucket_at(buckets, key);
    let at = position_of(bucket, value);
    if at >= bucket.len() {
        buckets
    } else if bucket.len() == 1 {
        buckets.remove(key)
    } else {
        buckets.insert(key, bucket.remove(at))
    }
}

/// The values that `entries` lists under `key`, in the order in which it lists them.
pub open spec fn values_under<K, V>(entries: Seq<(K, V)>, key: K) -> Seq<V>
    decreases entries.len(),
{
    if entries.len() == 0 {
        Seq::empty()
    } else if entries.last().0 == key {
        values_under(entries.drop_last(), key).push(entries.last().1)
    } else {
        values_under(entries.drop_last(), key)
    }
}

/// `entries` never steps from a key to one that sorts before it.
pub open spec fn ascending<K: Ord, V>(entries: Seq<(K, V)>) -> bool {
    forall|i: int, j: int| 0 <= i < j < entries.len() ==> key_le(entries[i].0, entries[j].0)
}

/// `entries` is the full traversal of `buckets`: keys ascending, and under each
/// key exactly the bucket's values in the order in which they were inserted.
pub open spec fn traverses<K: Ord, V>(entries: Seq<(K, V)>, buckets: Map<K, Seq<V>>) -> bool {
    &&& ascending(entries)
    &&& forall|k: K| #[trigger] values_under(entries, k) == bucket_at(buckets, k)
}

/// `position_of` returns an index of the bucket or its length; what it points
/// at equals `value`, and nothing before it does.
pub proof fn lemma_position_of<V: PartialEq>(bucket: Seq<V>, value: V)
    ensures
        0 <= position_of(bucket, value) <= bucket.len(),
        position_of(bucket, value) < bucket.len() ==> bucket[position_of(bucket, value)].eq_spec(
            &value,
        ),
        forall|j: int|
            0 <= j < position_of(bucket, value) ==> !(#[trigger] bucket[j]).eq_spec(&value),
    decreases bucket.len(),
{
    if bucket.len() > 0 && !bucket[0].eq_spec(&value) {
        let rest = bucket.drop_first();
        lemma_position_of(rest, value);
        assert forall|j: int| 0 <= j < position_of(bucket, value) implies !(#[trigger] bucket[j]).eq_spec(
            &value,
        ) by {
            if j > 0 {
                assert(bucket[j] == rest[j - 1]);
            }
        }
    }
}

/// An index that equals `value`, with nothing equal before it, is the one
/// that `position_of` returns; so is the length where nothing equals `value`.
pub proof fn lemma_first_match<V: PartialEq>(bucket: Seq<V>, value: V, at: int)
    requires
        0 <= at <= bucket.len(),
        forall|j: int| 0 <= j < at ==> !(#[trigger] bucket[j]).eq_spec(&value),
        at < bucket.len() ==> bucket[at].eq_spec(&value),
    ensures
        position_of(bucket, value) == at,
    decreases bucket.len(),
{
    if bucket.len() > 0 && at > 0 {
        let rest = bucket.drop_first();
        assert(!bucket[0].eq_spec(&value));
        assert forall|j: int| 0 <= j < at - 1 implies !(#[trigger] rest[j]).eq_spec(&value) by {
            assert(rest[j] == bucket[j + 1]);
        }
        lemma_first_match(rest, value, at - 1);
    }
}

/// The pairs behind a vector of borrowed pairs.
pub open spec fn pairs_of<K, V>(entries: Seq<(&K, &V)>) -> Seq<(K, V)> {
    entries.map_values(|e: (&K, &V)| (*e.0, *e.1))
}

/// An ordered multimap: each key holds a bucket of values in insertion order,
/// and a traversal visits the keys in ascending order.
pub struct SortedMultiMap<K: Ord + Copy, V: PartialEq> {
    inner: BTreeMap<K, Vec<V>>,
}

impl<K: Ord + Copy, V: PartialEq> View for SortedMultiMap<K, V> {
    type V = Map<K, Seq<V>>;

    closed spec fn view(&self) -> Map<K, Seq<V>> {
        self.inner@.map_values(|bucket: Vec<V>| bucket@)
    }
}

impl<K: Ord + Copy, V: PartialEq> SortedMultiMap<K, V> {
    /// The invariant of the map: its keys are totally ordered, and no bucket
    /// is empty.
    pub closed spec fn wf(&self) -> bool {
        &&& total_key_order::<K>()
        &&& forall|k: K| self.inner@.contains_key(k) ==> (#[trigger] self.inner@[k])@.len() > 0
    }

    /// A well-formed map keeps no empty bucket.
    pub proof fn lemma_no_empty_bucket(&self)
        requires
            self.wf(),
        ensures
            total_key_order::<K>(),
            no_empty_bucket(self@),
    {
    }

    /// An empty map.
    pub fn new() -> (map: Self)
        requires
            total_key_order::<K>(),
        ensures
            map.wf(),
            map@ == Map::<K, Seq<V>>::empty(),
    {
        let map = SortedMultiMap { inner: BTreeMap::new() };
        assert(map@ =~= Map::<K, Seq<V>>::empty());
        map
    }

    /// Appends `value` to the bucket of `key`, creating the bucket where the
    /// key has none.
    pub fn insert(&mut self, key: K, value: V)
        requires
            old(self).wf(),
        ensures
            final(self).wf(),
            final(self)@ == with_value(old(self)@, key, value),
    {
        let mut bucket = match self.inner.remove(&key) {
            Some(bucket) => bucket,
            None => Vec::new(),
        };
        bucket.push(value);
        self.inner.insert(key, bucket);
        assert(self@ =~= with_value(old(self)@, key, value));
    }

    /// Removes the first value under `key` that equals `value`, and the bucket
    /// with it where that was its last value. Returns whether a value was
    /// removed; where none was, the map is unchanged.
    pub fn delete(&mut self, key: &K, value: &V) -> (removed: bool)
        requires
            old(self).wf(),
            V::obeys_eq_spec(),
        ensures
            final(self).wf(),
            removed == holds_pair(old(self)@, *key, *value),
            final(self)@ == without_value(old(self)@, *key, *value),
    {
        let found = match self.inner.get(key) {
            Some(bucket) => {
                let at = find_first(bucket, value);
                if at < bucket.len() {
                    Some(at)
                } else {
                    None
                }
            },
            None => None,
        };
        match found {
            None => false,
            Some(at) => {
                match self.inner.remove(key) {
                    Some(mut bucket) => {
                        bucket.remove(at);
                        if bucket.len() > 0 {
                            self.inner.insert(*key, bucket);
                        }
                        assert(self@ =~= without_value(old(self)@, *key, *value));
                        true
                    },
                    None => false,
                }
            },
        }
    }

    /// Every pair of the map: keys in ascending order, and under one key the
    /// values in the order in which they were inserted.
    pub fn iter(&self) -> (entries: Vec<(&K, &V)>)
        requires
            self.wf(),
        ensures
            traverses(pairs_of(entries@), self@),
    {
        let mut entries: Vec<(&K, &V)> = Vec::new();
        let ghost mut origin: Seq<int> = Seq::empty();
        for slot in it: self.inner.iter()
            invariant
                self.wf(),
                it.seq() == self.inner.iter().remaining(),
                it.seq().no_duplicates(),
                vstd::std_specs::btree::increasing_seq(
                    it.seq().map_values(|kv: (&K, &Vec<V>)| *kv.0),
                ),
                origin.len() == entries.len(),
                forall|i: int|
                    0 <= i < entries.len() ==> 0 <= (#[trigger] origin[i]) < it.index()
                        && pairs_of(entries@)[i].0 == *it.seq()[origin[i]].0,
                forall|i: int, j: int|
                    0 <= i < j < entries.len() ==> origin[i] <= origin[j],
                forall|q: int|
                    0 <= q < it.index() ==> values_under(
                        pairs_of(entries@),
                        *(#[trigger] it.seq()[q]).0,
                    ) == it.seq()[q].1@,
                forall|k: K|
                    (forall|q: int| 0 <= q < it.index() ==> *(#[trigger] it.seq()[q]).0 != k)
                        ==> (#[trigger] values_under(pairs_of(entries@), k)).len() == 0,
        {
            let (key, bucket) = slot;
            let ghost p = it.index();
            let mut j: usize = 0;
            proof {
                assert forall|q: int| 0 <= q < p implies *(#[trigger] it.seq()[q]).0 != *key by {
                    if *it.seq()[q].0 == *key {
                        assert(self.inner@[*it.seq()[q].0] == *it.seq()[q].1);
                        assert(self.inner@[*it.seq()[p].0] == *it.seq()[p].1);
                        assert(it.seq()[q] == it.seq()[p]);
                    }
                }
                assert(values_under(pairs_of(entries@), *key).len() == 0);
                assert(values_under(pairs_of(entries@), *key) =~= bucket@.take(0));
            }
            while j < bucket.len()
                invariant
                    self.wf(),
                    0 <= j <= bucket.len(),
                    0 <= p < it.seq().len(),
                    it.seq()[p] == (key, bucket),
                    origin.len() == entries.len(),
                    forall|i: int|
                        0 <= i < entries.len() ==> 0 <= (#[trigger] origin[i]) <= p && pairs_of(
                            entries@,
                        )[i].0 == *it.seq()[origin[i]].0,
                    forall|i: int, j: int|
                        0 <= i < j < entries.len() ==> origin[i] <= origin[j],
                    forall|q: int|
                        0 <= q < p ==> *(#[trigger] it.seq()[q]).0 != *key,
                    forall|q: int|
                        0 <= q < p ==> values_under(
                            pairs_of(entries@),
                            *(#[trigger] it.seq()[q]).0,
                        ) == it.seq()[q].1@,
                    values_under(pairs_of(entries@), *key) == bucket@.take(j as int),
                    forall|k: K|
                        (forall|q: int| 0 <= q <= p ==> *(#[trigger] it.seq()[q]).0 != k) ==> (
                        #[trigger] values_under(pairs_of(entries@), k)).len() == 0,
                decreases bucket.len() - j,
            {
                let ghost before = pairs_of(entries@);
                entries.push((key, &bucket[j]));
                proof {
                    let pair = (*key, bucket@[j as int]);
                    origin = origin.push(p);
                    assert(pairs_of(entries@) =~= before.push(pair));
                    assert forall|k: K| #[trigger]
                        values_under(pairs_of(entries@), k) == if *key == k {
                            values_under(before, k).push(pair.1)
                        } else {
                            values_under(before, k)
                        } by {
                        lemma_values_under_push(before, pair, k);
                    }
                    assert(bucket@.take(j as int + 1) =~= bucket@.take(j as int).push(
                        bucket@[j as int],
                    ));
                }
                j += 1;
            }
            assert(bucket@.take(j as int) =~= bucket@);
        }
        proof {
            let all = self.inner.iter().remaining();
            let pairs = pairs_of(entries@);
            lemma_ascending_by_origin(all.map_values(|kv: (&K, &Vec<V>)| *kv.0), pairs, origin);
            assert forall|k: K| #[trigger] values_under(pairs, k) == bucket_at(self@, k) by {
                if self.inner@.contains_key(k) {
                    assert(all.contains((&k, &self.inner@[k])));
                    let q = choose|q: int| 0 <= q < all.len() && all[q] == (&k, &self.inner@[k]);
                    assert(values_under(pairs, *all[q].0) == all[q].1@);
                } else {
                    assert forall|q: int| 0 <= q < all.len() implies *(#[trigger] all[q]).0
                        != k by {
                        assert(self.inner@.contains_key(*all[q].0));
                    }
                    assert(values_under(pairs, k).len() == 0);
                    assert(values_under(pairs, k) =~= Seq::<V>::empty());
                }
            }
        }
        entries
    }
}

/// Appending one pair to `entries` appends its value to what is listed under
/// its key, and changes nothing under any other key.
pub proof fn lemma_values_under_push<K, V>(entries: Seq<(K, V)>, pair: (K, V), key: K)
    ensures
        values_under(entries.push(pair), key) == if pair.0 == key {
            values_under(entries, key).push(pair.1)
        } else {
            values_under(entries, key)
        },
{
    assert(entries.push(pair).drop_last() =~= entries);
}

/// Inserting appends the value to the bucket of its key, leaves every other
/// bucket as it was, and leaves no bucket empty.
pub proof fn lemma_insert<K, V>(buckets: Map<K, Seq<V>>, key: K, value: V)
    requires
        no_empty_bucket(buckets),
    ensures
        bucket_at(with_value(buckets, key, value), key) == bucket_at(buckets, key).push(value),
        forall|k: K|
            k != key ==> #[trigger] bucket_at(with_value(buckets, key, value), k) == bucket_at(
                buckets,
                k,
            ),
        no_empty_bucket(with_value(buckets, key, value)),
{
}

/// Deleting a pair that is held takes exactly one value out: the first under
/// the key that equals `value`. The values around it keep their order, every
/// other bucket stays as it was, and the bucket goes with its last value.
pub proof fn lemma_delete_present<K, V: PartialEq>(buckets: Map<K, Seq<V>>, key: K, value: V)
    requires
        no_empty_bucket(buckets),
        holds_pair(buckets, key, value),
    ensures
        ({
            let bucket = bucket_at(buckets, key);
            let at = position_of(bucket, value);
            let after = without_value(buckets, key, value);
            &&& 0 <= at < bucket.len()
            &&& bucket[at].eq_spec(&value)
            &&& forall|j: int| 0 <= j < at ==> !(#[trigger] bucket[j]).eq_spec(&value)
            &&& bucket_at(after, key) == bucket.remove(at)
            &&& bucket_at(after, key).len() == bucket.len() - 1
            &&& after.contains_key(key) <==> bucket.len() > 1
            &&& forall|k: K| k != key ==> #[trigger] bucket_at(after, k) == bucket_at(buckets, k)
            &&& no_empty_bucket(after)
        }),
{
    let bucket = bucket_at(buckets, key);
    let at = position_of(bucket, value);
    lemma_position_of(bucket, value);
    if bucket.len() == 1 {
        assert(bucket.remove(at) =~= Seq::<V>::empty());
    }
}

/// Deleting a pair that is not held changes nothing.
pub proof fn lemma_delete_absent<K, V: PartialEq>(buckets: Map<K, Seq<V>>, key: K, value: V)
    requires
        !holds_pair(buckets, key, value),
    ensures
        without_value(buckets, key, value) == buckets,
        forall|j: int|
            0 <= j < bucket_at(buckets, key).len() ==> !(#[trigger] bucket_at(
                buckets,
                key,
            )[j]).eq_spec(&value),
{
    lemma_position_of(bucket_at(buckets, key), value);
}

/// A key has values in a list of pairs exactly where the list names the key.
pub proof fn lemma_values_under_listed<K, V>(entries: Seq<(K, V)>, key: K)
    ensures
        values_under(entries, key).len() > 0 <==> exists|i: int|
            0 <= i < entries.len() && (#[trigger] entries[i]).0 == key,
    decreases entries.len(),
{
    if entries.len() > 0 {
        let front = entries.drop_last();
        lemma_values_under_listed(front, key);
        if values_under(entries, key).len() > 0 {
            if entries.last().0 == key {
                assert(entries[entries.len() - 1].0 == key);
            } else {
                let i = choose|i: int| 0 <= i < front.len() && (#[trigger] front[i]).0 == key;
                assert(entries[i].0 == key);
            }
        }
        if exists|i: int| 0 <= i < entries.len() && (#[trigger] entries[i]).0 == key {
            let i = choose|i: int| 0 <= i < entries.len() && (#[trigger] entries[i]).0 == key;
            if i < front.len() {
                assert(front[i].0 == key);
            }
        }
    }
}

/// A traversal names exactly the keys that have a bucket.
pub proof fn lemma_traversal_names_the_keys<K: Ord, V>(
    entries: Seq<(K, V)>,
    buckets: Map<K, Seq<V>>,
    key: K,
)
    requires
        no_empty_bucket(buckets),
        traverses(entries, buckets),
    ensures
        buckets.contains_key(key) <==> exists|i: int|
            0 <= i < entries.len() && (#[trigger] entries[i]).0 == key,
{
    lemma_values_under_listed(entries, key);
    assert(values_under(entries, key) == bucket_at(buckets, key));
}

/// Of two different keys, at most one sorts before the other.
pub proof fn lemma_key_le_antisymmetric<K: Ord>(a: K, b: K)
    requires
        total_key_order::<K>(),
        key_le(a, b),
        key_le(b, a),
    ensures
        a == b,
{
    reveal(vstd::laws_cmp::obeys_cmp_ord);
    reveal(vstd::laws_cmp::obeys_partial_cmp_spec_properties);
    if a != b {
        assert(a.cmp_spec(&b) is Less);
        assert(b.cmp_spec(&a) is Less);
        assert(a.partial_cmp_spec(&b) == Some(a.cmp_spec(&b)));
        assert(b.partial_cmp_spec(&a) == Some(b.cmp_spec(&a)));
    }
}

/// Two ascending lists that hold the same values under every key, in the
/// same order, are one list.
pub proof fn lemma_ascending_lists_agree<K: Ord, V>(first: Seq<(K, V)>, second: Seq<(K, V)>)
    requires
        total_key_order::<K>(),
        ascending(first),
        ascending(second),
        forall|k: K| #[trigger] values_under(first, k) == values_under(second, k),
    ensures
        first == second,
    decreases first.len(),
{
    if first.len() == 0 {
        if second.len() > 0 {
            let k = second.last().0;
            assert(values_under(first, k) == values_under(second, k));
        }
        assert(first =~= second);
    } else {
        let k1 = first.last().0;
        assert(values_under(first, k1) == values_under(second, k1));
        lemma_values_under_listed(second, k1);
        let j = choose|j: int| 0 <= j < second.len() && (#[trigger] second[j]).0 == k1;
        let k2 = second.last().0;
        assert(values_under(first, k2) == values_under(second, k2));
        lemma_values_under_listed(first, k2);
        let i = choose|i: int| 0 <= i < first.len() && (#[trigger] first[i]).0 == k2;
        assert(key_le(k2, k1)) by {
            if i < first.len() - 1 {
                assert(key_le(first[i].0, first[first.len() - 1].0));
            }
        }
        assert(key_le(k1, k2)) by {
            if j < second.len() - 1 {
                assert(key_le(second[j].0, second[second.len() - 1].0));
            }
        }
        lemma_key_le_antisymmetric(k1, k2);
        let front1 = first.drop_last();
        let front2 = second.drop_last();
        let under1 = values_under(front1, k1);
        let under2 = values_under(front2, k1);
        assert(under1.push(first.last().1) == under2.push(second.last().1));
        assert(under1.push(first.last().1).last() == first.last().1);
        assert(under2.push(second.last().1).last() == second.last().1);
        assert(under1 =~= under1.push(first.last().1).drop_last());
        assert(under2 =~= under2.push(second.last().1).drop_last());
        assert forall|k: K| #[trigger] values_under(front1, k) == values_under(front2, k) by {
            assert(values_under(first, k) == values_under(second, k));
        }
        lemma_ascending_lists_agree(front1, front2);
        assert(first =~= front1.push(first.last()));
        assert(second =~= front2.push(second.last()));
    }
}

/// A map has one traversal.
pub proof fn lemma_traversal_is_unique<K: Ord, V>(
    first: Seq<(K, V)>,
    second: Seq<(K, V)>,
    buckets: Map<K, Seq<V>>,
)
    requires
        total_key_order::<K>(),
        traverses(first, buckets),
        traverses(second, buckets),
    ensures
        first == second,
{
    assert forall|k: K| #[trigger] values_under(first, k) == values_under(second, k) by {
        assert(values_under(first, k) == bucket_at(buckets, k));
        assert(values_under(second, k) == bucket_at(buckets, k));
    }
    lemma_ascending_lists_agree(first, second);
}

/// Pairs whose keys are taken from an increasing sequence of keys, at indices
/// that never step back, are in ascending order.
pub proof fn lemma_ascending_by_origin<K: Ord, V>(
    keys: Seq<K>,
    entries: Seq<(K, V)>,
    origin: Seq<int>,
)
    requires
        total_key_order::<K>(),
        vstd::std_specs::btree::increasing_seq(keys),
        origin.len() == entries.len(),
        forall|i: int|
            0 <= i < entries.len() ==> 0 <= (#[trigger] origin[i]) < keys.len() && entries[i].0
                == keys[origin[i]],
        forall|i: int, j: int| 0 <= i < j < entries.len() ==> origin[i] <= origin[j],
    ensures
        ascending(entries),
{
    assert forall|i: int, j: int| 0 <= i < j < entries.len() implies key_le(
        entries[i].0,
        entries[j].0,
    ) by {
        if origin[i] < origin[j] {
            assert(keys[origin[i]].cmp_spec(&keys[origin[j]]) is Less);
        }
    }
}

/// The index of the first element of `bucket` that equals `value`, or the
/// bucket's length.
fn find_first<V: PartialEq>(bucket: &Vec<V>, value: &V) -> (at: usize)
    requires
        V::obeys_eq_spec(),
    ensures
        at == position_of(bucket@, *value),
{
    let mut i: usize = 0;
    while i < bucket.len()
        invariant
            0 <= i <= bucket.len(),
            V::obeys_eq_spec(),
            forall|j: int| 0 <= j < i ==> !(#[trigger] bucket@[j]).eq_spec(value),
        decreases bucket.len() - i,
    {
        if bucket[i] == *value {
            proof {
                lemma_first_match(bucket@, *value, i as int);
            }
            return i;
        }
        i += 1;
    }
    proof {
        lemma_first_match(bucket@, *value, i as int);
    }
    i
}

} // verus!
