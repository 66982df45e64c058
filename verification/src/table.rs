//! A hash table whose keys are small copyable values.
//!
//! Entries live in buckets selected by a 64-bit digest that the key type
//! supplies. The table is a finite map from keys to values whatever the digest
//! is: a poor digest costs time, never correctness.

use std::collections::HashMap;
use vstd::prelude::*;

verus! {

broadcast use vstd::std_specs::hash::group_hash_axioms;

/// A copyable value that can be compared for equality.
pub trait Same: Copy {
    fn same(self, other: Self) -> (b: bool)
        ensures
            b == (self == other),
    ;
}

impl Same for u64 {
    fn same(self, other: Self) -> (b: bool) {
        self == other
    }
}

/// A key of a [`Table`]: it names its bucket.
pub trait TableKey: Same {
    /// The bucket that holds this key.
    spec fn bucket_of(self) -> u64;

    fn bucket(self) -> (b: u64)
        ensures
            b == self.bucket_of(),
    ;
}

spec fn holds<K, V>(bucket: Seq<(K, V)>, key: K, i: int) -> bool {
    0 <= i < bucket.len() && bucket[i].0 == key
}

spec fn in_bucket<K, V>(bucket: Seq<(K, V)>, key: K) -> bool {
    exists|i: int| holds(bucket, key, i)
}

spec fn bucket_value<K, V>(bucket: Seq<(K, V)>, key: K) -> V {
    bucket[choose|i: int| holds(bucket, key, i)].1
}

spec fn distinct_keys<K, V>(bucket: Seq<(K, V)>) -> bool {
    forall|i: int, j: int|
        #![trigger bucket[i], bucket[j]]
        0 <= i < j < bucket.len() ==> bucket[i].0 != bucket[j].0
}

pub struct Table<K: TableKey, V> {
    buckets: HashMap<u64, Vec<(K, V)>>,
}

impl<K: TableKey, V> View for Table<K, V> {
    type V = Map<K, V>;

    closed spec fn view(&self) -> Map<K, V> {
        Map::new(
            |k: K|
                self.buckets@.contains_key(k.bucket_of()) && in_bucket(
                    self.buckets@[k.bucket_of()]@,
                    k,
                ),
            |k: K| bucket_value(self.buckets@[k.bucket_of()]@, k),
        )
    }
}

impl<K: TableKey, V> Table<K, V> {
    /// Every bucket holds each key at most once, and only keys that name it.
    pub closed spec fn wf(&self) -> bool {
        forall|b: u64| #[trigger]
            self.buckets@.contains_key(b) ==> {
                &&& distinct_keys(self.buckets@[b]@)
                &&& forall|i: int|
                    0 <= i < self.buckets@[b]@.len() ==> (
                    #[trigger] self.buckets@[b]@[i]).0.bucket_of() == b
            }
    }

    pub fn new() -> (table: Self)
        ensures
            table.wf(),
            table@ == Map::<K, V>::empty(),
    {
        let table = Table { buckets: HashMap::new() };
        assert(table@ =~= Map::<K, V>::empty());
        table
    }

    /// Where `key` stands in `bucket`; the bucket's length if it is absent.
    fn find(bucket: &Vec<(K, V)>, key: K) -> (at: usize)
        ensures
            at <= bucket@.len(),
            at < bucket@.len() ==> bucket@[at as int].0 == key,
            at == bucket@.len() ==> !in_bucket(bucket@, key),
    {
        let mut i: usize = 0;
        while i < bucket.len()
            invariant
                i <= bucket@.len(),
                forall|j: int| 0 <= j < i ==> (#[trigger] bucket@[j]).0 != key,
            decreases bucket@.len() - i,
        {
            if bucket[i].0.same(key) {
                return i;
            }
            i = i + 1;
        }
        i
    }

    pub fn get<'a>(&'a self, key: K) -> (value: Option<&'a V>)
        requires
            self.wf(),
        ensures
            match value {
                Some(v) => self@.contains_key(key) && self@[key] == *v,
                None => !self@.contains_key(key),
            },
    {
        let b: u64 = key.bucket();
        match self.buckets.get(&b) {
            None => None,
            Some(bucket) => {
                let at = Self::find(bucket, key);
                if at < bucket.len() {
                    proof {
                        assert(holds(bucket@, key, at as int));
                        lemma_value_at(bucket@, key, at as int);
                    }
                    Some(&bucket[at].1)
                } else {
                    None
                }
            },
        }
    }

    pub fn contains_key(&self, key: K) -> (found: bool)
        requires
            self.wf(),
        ensures
            found == self@.contains_key(key),
    {
        self.get(key).is_some()
    }

    /// Sets the value of `key`, replacing any earlier one.
    pub fn insert(&mut self, key: K, value: V)
        requires
            old(self).wf(),
        ensures
            final(self).wf(),
            final(self)@ == old(self)@.insert(key, value),
    {
        let b: u64 = key.bucket();
        let mut bucket: Vec<(K, V)> = match self.buckets.remove(&b) {
            Some(bucket) => bucket,
            None => Vec::new(),
        };
        let ghost before = bucket@;
        let at = Self::find(&bucket, key);
        if at < bucket.len() {
            bucket.set(at, (key, value));
        } else {
            bucket.push((key, value));
        }
        let ghost after = bucket@;
        self.buckets.insert(b, bucket);
        proof {
            assert(distinct_keys(before));
            assert forall|i: int, j: int|
                #![trigger after[i], after[j]]
                0 <= i < j < after.len() implies after[i].0 != after[j].0 by {
                if i < before.len() {
                    assert(holds(before, before[i].0, i));
                }
                if j < before.len() {
                    assert(holds(before, before[j].0, j));
                }
            }
            assert(holds(after, key, at as int));
            lemma_value_at(after, key, at as int);
            assert forall|k: K| k != key implies #[trigger] in_bucket(after, k) == in_bucket(
                before,
                k,
            ) && (in_bucket(before, k) ==> bucket_value(after, k) == bucket_value(before, k)) by {
                lemma_same_elsewhere(before, after, key, k, at as int);
            }
            assert forall|c: u64| #[trigger] self.buckets@.contains_key(c) implies distinct_keys(
                self.buckets@[c]@,
            ) && (forall|i: int|
                0 <= i < self.buckets@[c]@.len() ==> (
                #[trigger] self.buckets@[c]@[i]).0.bucket_of() == c) by {
                if c != b {
                    assert(old(self).buckets@.contains_key(c));
                } else {
                    assert forall|i: int| 0 <= i < after.len() implies (
                    #[trigger] after[i]).0.bucket_of() == b by {
                        if i != at {
                            assert(before[i].0.bucket_of() == b);
                        }
                    }
                }
            }
            assert(self@ =~= old(self)@.insert(key, value));
        }
    }

    /// Forgets `key`; a table without it stays as it is.
    pub fn remove(&mut self, key: K)
        requires
            old(self).wf(),
        ensures
            final(self).wf(),
            final(self)@ == old(self)@.remove(key),
    {
        let b: u64 = key.bucket();
        match self.buckets.remove(&b) {
            None => {
                assert(self@ =~= old(self)@.remove(key));
            },
            Some(taken) => {
                let mut bucket = taken;
                let ghost before = bucket@;
                let at = Self::find(&bucket, key);
                if at < bucket.len() {
                    bucket.swap_remove(at);
                }
                let ghost after = bucket@;
                proof {
                    lemma_swap_removed(before, after, key, at as int);
                }
                if bucket.len() > 0 {
                    self.buckets.insert(b, bucket);
                }
                proof {
                    assert forall|k: K| k.bucket_of() == b && k != key implies #[trigger] in_bucket(
                        after,
                        k,
                    ) == in_bucket(before, k) && (in_bucket(before, k) ==> bucket_value(after, k)
                        == bucket_value(before, k)) by {
                        lemma_swap_same_elsewhere(before, after, key, k, at as int);
                    }
                    assert(self@ =~= old(self)@.remove(key));
                }
            },
        }
    }

    /// Lists every entry once, in no particular order.
    pub fn entries(&self) -> (list: Vec<(K, &V)>)
        requires
            self.wf(),
        ensures
            lists_entries(list@, self@),
    {
        let mut list: Vec<(K, &V)> = Vec::new();
        for b in it: self.buckets.keys()
            invariant
                self.wf(),
                it.seq().no_duplicates(),
                it.seq().unref().to_set() == self.buckets@.dom(),
                forall|n: int| #![trigger list@[n]]
                    0 <= n < list@.len() ==> self@.contains_key(list@[n].0) && self@[list@[n].0]
                        == *list@[n].1,
                forall|n: int, m: int| #![trigger list@[n], list@[m]]
                    0 <= n < m < list@.len() ==> list@[n].0 != list@[m].0,
                forall|n: int| #![trigger list@[n]]
                    0 <= n < list@.len() ==> visited(it.seq(), it.index(), list@[n].0.bucket_of()),
                forall|k: K| #[trigger]
                    self@.contains_key(k) && visited(it.seq(), it.index(), k.bucket_of())
                        ==> listed(list@, k),
        {
            let ghost at = it.index();
            assert(it.seq().unref()[at] == *b);
            assert(it.seq().unref().to_set().contains(*b));
            let ghost base = list@;
            if let Some(bucket) = self.buckets.get(b) {
                let mut i: usize = 0;
                while i < bucket.len()
                    invariant
                        i <= bucket@.len(),
                        list@.len() == base.len() + i,
                        forall|n: int| 0 <= n < base.len() ==> list@[n] == base[n],
                        forall|n: int|
                            0 <= n < i ==> list@[base.len() + n].0 == (#[trigger] bucket@[n]).0
                                && *list@[base.len() + n].1 == bucket@[n].1,
                    decreases bucket@.len() - i,
                {
                    list.push((bucket[i].0, &bucket[i].1));
                    i = i + 1;
                }
                proof {
                    let own = bucket@;
                    assert(self.buckets@.contains_key(*b));
                    assert forall|n: int| #![trigger list@[n]]
                        0 <= n < list@.len() implies self@.contains_key(list@[n].0)
                        && self@[list@[n].0] == *list@[n].1 && visited(
                        it.seq(),
                        at + 1,
                        list@[n].0.bucket_of(),
                    ) && (base.len() <= n ==> list@[n].0.bucket_of() == *b && list@[n].0 == own[n
                        - base.len()].0) by {
                        if n < base.len() {
                            assert(list@[n] == base[n]);
                        } else {
                            let j = n - base.len();
                            assert(own[j].0.bucket_of() == *b);
                            assert(holds(own, own[j].0, j));
                            lemma_value_at(own, own[j].0, j);
                            assert(*it.seq()[at] == *b);
                        }
                    }
                    assert forall|n: int, m: int| #![trigger list@[n], list@[m]]
                        0 <= n < m < list@.len() implies list@[n].0 != list@[m].0 by {
                        if m < base.len() {
                            assert(base[n].0 != base[m].0);
                        } else if base.len() <= n {
                            assert(own[n - base.len()].0 != own[m - base.len()].0);
                        } else {
                            assert(list@[n] == base[n]);
                            assert(visited(it.seq(), at, base[n].0.bucket_of()));
                            let c = choose|c: int|
                                0 <= c < at && c < it.seq().len() && *#[trigger] it.seq()[c]
                                    == base[n].0.bucket_of();
                            assert(it.seq()[c] != it.seq()[at]);
                        }
                    }
                    assert forall|k: K| #[trigger] self@.contains_key(k) && visited(
                        it.seq(),
                        at + 1,
                        k.bucket_of(),
                    ) implies listed(list@, k) by {
                        if visited(it.seq(), at, k.bucket_of()) {
                            assert(listed(base, k));
                            let c = choose|c: int| 0 <= c < base.len() && (#[trigger] base[c]).0
                                == k;
                            assert(list@[c].0 == k);
                        } else {
                            assert(k.bucket_of() == *b);
                            let c = choose|c: int| holds(own, k, c);
                            assert(holds(own, k, c));
                            assert(list@[base.len() + c].0 == k);
                        }
                    }
                }
            }
        }
        proof {
            assert forall|k: K| #[trigger] self@.contains_key(k) implies exists|i: int|
                0 <= i < list@.len() && (#[trigger] list@[i]).0 == k by {
                assert(self.buckets@.dom().contains(k.bucket_of()));
                assert(listed(list@, k));
            }
        }
        list
    }

    /// Keeps the entries whose key satisfies `keep`, which computes `kept`.
    pub(crate) fn retain<F: Fn(K) -> bool>(
        &mut self,
        keep: F,
        Ghost(kept): Ghost<spec_fn(K) -> bool>,
    )
        requires
            old(self).wf(),
            decides(keep, kept),
        ensures
            final(self).wf(),
            final(self)@ == old(self)@.restrict(Set::new(kept)),
    {
        let mut dropped: Vec<K> = Vec::new();
        {
            let list = self.entries();
            let mut i: usize = 0;
            while i < list.len()
                invariant
                    i <= list@.len(),
                    decides(keep, kept),
                    lists_entries(list@, self@),
                    forall|k: K| #[trigger]
                        dropped@.contains(k) <==> !kept(k) && exists|j: int|
                            0 <= j < i && (#[trigger] list@[j]).0 == k,
                decreases list@.len() - i,
            {
                let key = list[i].0;
                let keeps = keep(key);
                let ghost before = dropped@;
                if !keeps {
                    dropped.push(key);
                    assert(dropped@[before.len() as int] == key);
                }
                proof {
                    assert forall|k: K| #[trigger]
                        dropped@.contains(k) <==> !kept(k) && exists|j: int|
                            0 <= j < i + 1 && (#[trigger] list@[j]).0 == k by {
                        if before.contains(k) {
                            let n = choose|n: int| 0 <= n < before.len() && before[n] == k;
                            assert(dropped@[n] == k);
                        }
                        if !kept(k) && exists|j: int|
                            0 <= j < i + 1 && (#[trigger] list@[j]).0 == k {
                            let j = choose|j: int| 0 <= j < i + 1 && (#[trigger] list@[j]).0 == k;
                            if j < i {
                                assert(before.contains(k));
                            }
                        }
                    }
                }
                i = i + 1;
            }
        }
        let mut n: usize = 0;
        while n < dropped.len()
            invariant
                n <= dropped@.len(),
                self.wf(),
                forall|k: K| #[trigger]
                    dropped@.contains(k) <==> !kept(k) && old(self)@.contains_key(k),
                forall|k: K| #[trigger]
                    self@.contains_key(k) <==> old(self)@.contains_key(k) && !(exists|j: int|
                        0 <= j < n && #[trigger] dropped@[j] == k),
                forall|k: K| #[trigger] self@.contains_key(k) ==> self@[k] == old(self)@[k],
            decreases dropped@.len() - n,
        {
            self.remove(dropped[n]);
            n = n + 1;
        }
        proof {
            assert forall|k: K| self@.contains_key(k) implies kept(k) by {
                if !kept(k) {
                    assert(dropped@.contains(k));
                    let j = choose|j: int| 0 <= j < dropped@.len() && dropped@[j] == k;
                    assert(dropped@[j] == k);
                }
            }
            assert forall|k: K| old(self)@.contains_key(k) && kept(k) implies self@.contains_key(
                k,
            ) by {
                if exists|j: int| 0 <= j < n && #[trigger] dropped@[j] == k {
                    assert(dropped@.contains(k));
                }
            }
            assert(self@ =~= old(self)@.restrict(Set::new(kept)));
        }
    }

    /// How many keys satisfy `test`, which computes `wanted`.
    pub(crate) fn count<F: Fn(K) -> bool>(
        &self,
        test: F,
        Ghost(wanted): Ghost<spec_fn(K) -> bool>,
    ) -> (n: usize)
        requires
            self.wf(),
            decides(test, wanted),
        ensures
            self@.dom().finite(),
            n == self@.dom().filter(wanted).len(),
    {
        let list = self.entries();
        let mut n: usize = 0;
        let mut i: usize = 0;
        proof {
            assert(first_keys(list@, 0, wanted) =~= Set::<K>::empty());
        }
        while i < list.len()
            invariant
                i <= list@.len(),
                n <= i,
                decides(test, wanted),
                lists_entries(list@, self@),
                first_keys(list@, i as int, wanted).finite(),
                n == first_keys(list@, i as int, wanted).len(),
            decreases list@.len() - i,
        {
            let key = list[i].0;
            proof {
                lemma_first_keys_step(list@, i as int, wanted);
            }
            if test(key) {
                n = n + 1;
            }
            i = i + 1;
        }
        proof {
            lemma_entries_finite(list@, self@);
            assert(first_keys(list@, i as int, wanted) =~= self@.dom().filter(wanted));
        }
        n
    }

    /// Some key satisfies `test`, which computes `wanted`.
    pub(crate) fn any<F: Fn(K) -> bool>(
        &self,
        test: F,
        Ghost(wanted): Ghost<spec_fn(K) -> bool>,
    ) -> (found: bool)
        requires
            self.wf(),
            decides(test, wanted),
        ensures
            found == exists|k: K| #[trigger] self@.contains_key(k) && wanted(k),
    {
        let list = self.entries();
        let mut i: usize = 0;
        while i < list.len()
            invariant
                i <= list@.len(),
                decides(test, wanted),
                lists_entries(list@, self@),
                forall|j: int| 0 <= j < i ==> !wanted((#[trigger] list@[j]).0),
            decreases list@.len() - i,
        {
            if test(list[i].0) {
                assert(self@.contains_key(list@[i as int].0));
                return true;
            }
            i = i + 1;
        }
        false
    }

    pub fn len(&self) -> (n: usize)
        requires
            self.wf(),
        ensures
            self@.dom().finite(),
            n == self@.dom().len(),
    {
        let list = self.entries();
        proof {
            lemma_entries_finite(list@, self@);
        }
        list.len()
    }
}

/// The closure can be called on every key and computes `p`.
pub open spec fn decides<K, F: Fn(K) -> bool>(f: F, p: spec_fn(K) -> bool) -> bool {
    &&& forall|k: K| #[trigger] call_requires(f, (k,))
    &&& forall|k: K, r: bool| #[trigger] call_ensures(f, (k,), r) ==> r == p(k)
}

/// The keys among the first `count` entries that satisfy `p`.
spec fn first_keys<K, V>(list: Seq<(K, &V)>, count: int, p: spec_fn(K) -> bool) -> Set<K> {
    Set::new(|k: K| p(k) && exists|i: int| 0 <= i < count && (#[trigger] list[i]).0 == k)
}

proof fn lemma_first_keys_step<K, V>(list: Seq<(K, &V)>, at: int, p: spec_fn(K) -> bool)
    requires
        0 <= at < list.len(),
        forall|i: int, j: int|
            #![trigger list[i], list[j]]
            0 <= i < j < list.len() ==> list[i].0 != list[j].0,
        first_keys(list, at, p).finite(),
    ensures
        first_keys(list, at + 1, p).finite(),
        first_keys(list, at + 1, p).len() == first_keys(list, at, p).len() + if p(list[at].0) {
            1nat
        } else {
            0nat
        },
{
    let before = first_keys(list, at, p);
    let after = first_keys(list, at + 1, p);
    if p(list[at].0) {
        assert(after =~= before.insert(list[at].0));
        assert(!before.contains(list[at].0));
    } else {
        assert(after =~= before);
    }
}

/// A list of a map's entries is as long as the map has keys.
pub proof fn lemma_entries_finite<K, V>(list: Seq<(K, &V)>, map: Map<K, V>)
    requires
        lists_entries(list, map),
    ensures
        map.dom().finite(),
        map.dom().len() == list.len(),
{
    let keys = Seq::new(list.len(), |i: int| list[i].0);
    assert(keys.no_duplicates());
    keys.unique_seq_to_set();
    assert forall|k: K| map.dom().contains(k) implies keys.contains(k) by {
        assert(map.contains_key(k));
        let i = choose|i: int| 0 <= i < list.len() && (#[trigger] list[i]).0 == k;
        assert(keys[i] == k);
    }
    assert forall|k: K| keys.contains(k) implies map.dom().contains(k) by {
        let i = choose|i: int| 0 <= i < keys.len() && keys[i] == k;
        assert(map.contains_key(list[i].0));
    }
    assert(keys.to_set() =~= map.dom());
}

/// The digest `b` is among the first `count` of those in `digests`.
spec fn visited(digests: Seq<&u64>, count: int, b: u64) -> bool {
    exists|i: int| 0 <= i < count && i < digests.len() && *#[trigger] digests[i] == b
}

spec fn listed<K, V>(list: Seq<(K, &V)>, key: K) -> bool {
    exists|i: int| 0 <= i < list.len() && (#[trigger] list[i]).0 == key
}

/// `list` holds every entry of `map` exactly once.
pub open spec fn lists_entries<K, V>(list: Seq<(K, &V)>, map: Map<K, V>) -> bool {
    &&& forall|i: int|
        #![trigger list[i]]
        0 <= i < list.len() ==> map.contains_key(list[i].0) && map[list[i].0] == *list[i].1
    &&& forall|i: int, j: int|
        #![trigger list[i], list[j]]
        0 <= i < j < list.len() ==> list[i].0 != list[j].0
    &&& forall|k: K| #[trigger] map.contains_key(k) ==> exists|i: int|
        0 <= i < list.len() && (#[trigger] list[i]).0 == k
}

/// Two buckets that hold `k` with the same value agree on it.
proof fn lemma_agree<K, V>(before: Seq<(K, V)>, after: Seq<(K, V)>, k: K)
    requires
        distinct_keys(before),
        distinct_keys(after),
        forall|i: int| #[trigger]
            holds(before, k, i) ==> exists|j: int| #[trigger]
                holds(after, k, j) && after[j] == before[i],
        forall|j: int| #[trigger]
            holds(after, k, j) ==> exists|i: int| #[trigger]
                holds(before, k, i) && after[j] == before[i],
    ensures
        in_bucket(after, k) == in_bucket(before, k),
        in_bucket(before, k) ==> bucket_value(after, k) == bucket_value(before, k),
{
    if in_bucket(before, k) {
        let i = choose|i: int| holds(before, k, i);
        let j = choose|j: int| #[trigger] holds(after, k, j) && after[j] == before[i];
        lemma_value_at(before, k, i);
        lemma_value_at(after, k, j);
    }
}

/// Writing `key` at `at` (inside the bucket or one past it) touches no other key.
proof fn lemma_same_elsewhere<K, V>(
    before: Seq<(K, V)>,
    after: Seq<(K, V)>,
    key: K,
    k: K,
    at: int,
)
    requires
        distinct_keys(before),
        distinct_keys(after),
        k != key,
        0 <= at < after.len(),
        after[at].0 == key,
        at < before.len() ==> before[at].0 == key,
        after.len() == before.len() || (after.len() == before.len() + 1 && at == before.len()),
        forall|i: int| 0 <= i < before.len() && i != at ==> after[i] == before[i],
    ensures
        in_bucket(after, k) == in_bucket(before, k),
        in_bucket(before, k) ==> bucket_value(after, k) == bucket_value(before, k),
{
    assert forall|i: int| #[trigger] holds(before, k, i) implies exists|j: int| #[trigger]
        holds(after, k, j) && after[j] == before[i] by {
        assert(holds(after, k, i));
    }
    assert forall|j: int| #[trigger] holds(after, k, j) implies exists|i: int| #[trigger]
        holds(before, k, i) && after[j] == before[i] by {
        assert(holds(before, k, j));
    }
    lemma_agree(before, after, k);
}

spec fn swapped_out<K, V>(before: Seq<(K, V)>, after: Seq<(K, V)>, key: K, at: int) -> bool {
    &&& 0 <= at <= before.len()
    &&& at == before.len() ==> after == before && !in_bucket(before, key)
    &&& at < before.len() ==> before[at].0 == key && after =~= before.update(
        at,
        before.last(),
    ).drop_last()
}

proof fn lemma_swap_removed<K, V>(before: Seq<(K, V)>, after: Seq<(K, V)>, key: K, at: int)
    requires
        distinct_keys(before),
        swapped_out(before, after, key, at),
    ensures
        distinct_keys(after),
        !in_bucket(after, key),
{
    let last = before.len() - 1;
    if at < before.len() {
        assert forall|j: int| #![trigger after[j]] 0 <= j < after.len() implies after[j].0
            != key by {
            if j == at {
                assert(after[j] == before[last]);
                assert(before[at].0 != before[last].0);
            } else {
                assert(after[j] == before[j]);
                if j < at {
                    assert(before[j].0 != before[at].0);
                } else {
                    assert(before[at].0 != before[j].0);
                }
            }
        }
    }
}

proof fn lemma_swap_same_elsewhere<K, V>(
    before: Seq<(K, V)>,
    after: Seq<(K, V)>,
    key: K,
    k: K,
    at: int,
)
    requires
        distinct_keys(before),
        distinct_keys(after),
        k != key,
        swapped_out(before, after, key, at),
    ensures
        in_bucket(after, k) == in_bucket(before, k),
        in_bucket(before, k) ==> bucket_value(after, k) == bucket_value(before, k),
{
    if at < before.len() {
        let last = before.len() - 1;
        assert forall|i: int| #[trigger] holds(before, k, i) implies exists|j: int| #[trigger]
            holds(after, k, j) && after[j] == before[i] by {
            if i == last {
                assert(holds(after, k, at));
            } else {
                assert(holds(after, k, i));
            }
        }
        assert forall|j: int| #[trigger] holds(after, k, j) implies exists|i: int| #[trigger]
            holds(before, k, i) && after[j] == before[i] by {
            if j == at {
                assert(holds(before, k, last));
            } else {
                assert(holds(before, k, j));
            }
        }
        lemma_agree(before, after, k);
    }
}

proof fn lemma_value_at<K, V>(bucket: Seq<(K, V)>, key: K, at: int)
    requires
        distinct_keys(bucket),
        holds(bucket, key, at),
    ensures
        in_bucket(bucket, key),
        bucket_value(bucket, key) == bucket[at].1,
{
    let i = choose|i: int| holds(bucket, key, i);
    assert(holds(bucket, key, i));
    if i < at {
        assert(bucket[i].0 != bucket[at].0);
    } else if at < i {
        assert(bucket[at].0 != bucket[i].0);
    }
}

} // verus!
