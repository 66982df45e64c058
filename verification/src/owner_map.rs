//! Small maps keyed by cache owner, and key lists of integer-keyed maps.

use std::collections::HashMap;
use vstd::prelude::*;
use vstd::std_specs::iter::IteratorSpec;

use crate::evidence::CacheOwner;
use crate::table::{lists_entries, Same, Table, TableKey};

verus! {

broadcast use vstd::std_specs::hash::group_hash_axioms;

/// The map that listed pairs describe; a later pair replaces an earlier one.
pub open spec fn pairs_map<K, V>(pairs: Seq<(K, V)>) -> Map<K, V>
    decreases pairs.len(),
{
    if pairs.len() == 0 {
        Map::empty()
    } else {
        pairs_map(pairs.drop_last()).insert(pairs.last().0, pairs.last().1)
    }
}

/// The table that listed pairs describe.
pub fn table_of<V: Copy>(pairs: &[(CacheOwner, V)]) -> (table: Table<CacheOwner, V>)
    ensures
        table.wf(),
        table@ == pairs_map(pairs@),
{
    let mut table: Table<CacheOwner, V> = Table::new();
    let mut i: usize = 0;
    while i < pairs.len()
        invariant
            i <= pairs@.len(),
            table.wf(),
            table@ == pairs_map(pairs@.take(i as int)),
        decreases pairs@.len() - i,
    {
        table.insert(pairs[i].0, pairs[i].1);
        i = i + 1;
        assert(pairs@.take(i as int).drop_last() =~= pairs@.take(i - 1));
    }
    assert(pairs@.take(i as int) =~= pairs@);
    table
}

/// A copy of a table with copyable values.
pub fn copy_table<K: TableKey, V: Copy>(table: &Table<K, V>) -> (copy: Table<K, V>)
    requires
        table.wf(),
    ensures
        copy.wf(),
        copy@ == table@,
{
    let list = table.entries();
    let mut copy: Table<K, V> = Table::new();
    let mut i: usize = 0;
    while i < list.len()
        invariant
            i <= list@.len(),
            copy.wf(),
            lists_entries(list@, table@),
            forall|k: K| #[trigger]
                copy@.contains_key(k) <==> exists|j: int| 0 <= j < i && (#[trigger] list@[j]).0
                    == k,
            forall|k: K| #[trigger] copy@.contains_key(k) ==> copy@[k] == table@[k],
        decreases list@.len() - i,
    {
        assert(table@.contains_key(list@[i as int].0));
        copy.insert(list[i].0, *list[i].1);
        i = i + 1;
    }
    proof {
        assert forall|k: K| copy@.contains_key(k) implies table@.contains_key(k) by {
            let j = choose|j: int| 0 <= j < i && (#[trigger] list@[j]).0 == k;
            assert(table@.contains_key(list@[j].0));
        }
        assert(copy@ =~= table@);
    }
    copy
}

/// The keys of a table.
pub fn key_set<K: TableKey, V>(table: &Table<K, V>) -> (keys: Table<K, ()>)
    requires
        table.wf(),
    ensures
        keys.wf(),
        keys@.dom() == table@.dom(),
{
    let list = table.entries();
    let mut keys: Table<K, ()> = Table::new();
    let mut i: usize = 0;
    while i < list.len()
        invariant
            i <= list@.len(),
            keys.wf(),
            forall|k: K| #[trigger]
                keys@.contains_key(k) <==> exists|j: int| 0 <= j < i && (#[trigger] list@[j]).0
                    == k,
        decreases list@.len() - i,
    {
        keys.insert(list[i].0, ());
        i = i + 1;
    }
    proof {
        assert forall|k: K| keys@.dom().contains(k) == table@.dom().contains(k) by {
            if keys@.contains_key(k) {
                let j = choose|j: int| 0 <= j < i && (#[trigger] list@[j]).0 == k;
                assert(table@.contains_key(list@[j].0));
            }
            if table@.contains_key(k) {
                let j = choose|j: int| 0 <= j < list@.len() && (#[trigger] list@[j]).0 == k;
                assert(keys@.contains_key(k));
            }
        }
        assert(keys@.dom() =~= table@.dom());
    }
    keys
}

/// The keys of a table, listed once each.
pub fn key_list<K: TableKey, V>(table: &Table<K, V>) -> (keys: Vec<K>)
    requires
        table.wf(),
    ensures
        keys@.no_duplicates(),
        keys@.to_set() == table@.dom(),
{
    let list = table.entries();
    let mut keys: Vec<K> = Vec::new();
    let mut i: usize = 0;
    while i < list.len()
        invariant
            i <= list@.len(),
            keys@.len() == i,
            forall|j: int| 0 <= j < i ==> #[trigger] keys@[j] == list@[j].0,
        decreases list@.len() - i,
    {
        keys.push(list[i].0);
        i = i + 1;
    }
    proof {
        assert forall|k: K| keys@.to_set().contains(k) == table@.dom().contains(k) by {
            if keys@.contains(k) {
                let j = choose|j: int| 0 <= j < keys@.len() && keys@[j] == k;
                assert(keys@[j] == list@[j].0);
                assert(table@.contains_key(list@[j].0));
            }
            if table@.contains_key(k) {
                let j = choose|j: int| 0 <= j < list@.len() && (#[trigger] list@[j]).0 == k;
                assert(keys@[j] == k);
            }
        }
        assert forall|a: int, b: int| 0 <= a < b < keys@.len() implies keys@[a] != keys@[b] by {
            assert(list@[a].0 != list@[b].0);
        }
        assert(keys@.to_set() =~= table@.dom());
    }
    keys
}

/// `list` holds every entry of `map` exactly once.
pub open spec fn lists_pairs<K, V>(list: Seq<(K, V)>, map: Map<K, V>) -> bool {
    &&& forall|i: int|
        #![trigger list[i]]
        0 <= i < list.len() ==> map.contains_key(list[i].0) && map[list[i].0] == list[i].1
    &&& forall|i: int, j: int|
        #![trigger list[i], list[j]]
        0 <= i < j < list.len() ==> list[i].0 != list[j].0
    &&& forall|k: K| #[trigger] map.contains_key(k) ==> exists|i: int|
        0 <= i < list.len() && (#[trigger] list[i]).0 == k
}

/// The entries of a table with copyable values, once each.
pub fn pair_list<K: TableKey, V: Copy>(table: &Table<K, V>) -> (pairs: Vec<(K, V)>)
    requires
        table.wf(),
    ensures
        lists_pairs(pairs@, table@),
{
    let list = table.entries();
    let mut pairs: Vec<(K, V)> = Vec::new();
    let mut i: usize = 0;
    while i < list.len()
        invariant
            i <= list@.len(),
            pairs@.len() == i,
            forall|j: int| 0 <= j < i ==> (#[trigger] pairs@[j]).0 == list@[j].0 && pairs@[j].1
                == *list@[j].1,
        decreases list@.len() - i,
    {
        pairs.push((list[i].0, *list[i].1));
        i = i + 1;
    }
    proof {
        assert forall|a: int, b: int| #![trigger pairs@[a], pairs@[b]]
            0 <= a < b < pairs@.len() implies pairs@[a].0 != pairs@[b].0 by {
            assert(list@[a].0 != list@[b].0);
        }
        assert forall|a: int| #![trigger pairs@[a]] 0 <= a < pairs@.len() implies table@.contains_key(
            pairs@[a].0,
        ) && table@[pairs@[a].0] == pairs@[a].1 by {
            assert(table@.contains_key(list@[a].0));
        }
        assert forall|k: K| #[trigger] table@.contains_key(k) implies exists|a: int|
            0 <= a < pairs@.len() && (#[trigger] pairs@[a]).0 == k by {
            let j = choose|j: int| 0 <= j < list@.len() && (#[trigger] list@[j]).0 == k;
            assert(pairs@[j].0 == k);
        }
    }
    pairs
}

/// The two tables hold the same entries.
pub fn same_tables<K: TableKey, V: Same>(a: &Table<K, V>, b: &Table<K, V>) -> (same: bool)
    requires
        a.wf(),
        b.wf(),
    ensures
        same == (a@ == b@),
{
    let differs = |k: K| -> (r: bool)
        requires
            a.wf(),
            b.wf(),
        ensures
            r == !(a@.contains_key(k) && b@.contains_key(k) && a@[k] == b@[k]),
        {
            match (a.get(k), b.get(k)) {
                (Some(x), Some(y)) => !(*x).same(*y),
                _ => true,
            }
        };
    let ghost unlike = |k: K| !(a@.contains_key(k) && b@.contains_key(k) && a@[k] == b@[k]);
    let in_a = a.any(differs, Ghost(unlike));
    let in_b = b.any(differs, Ghost(unlike));
    proof {
        if !in_a && !in_b {
            assert forall|k: K| a@.contains_key(k) == b@.contains_key(k) && (a@.contains_key(k)
                ==> a@[k] == b@[k]) by {
                assert(a@.contains_key(k) ==> !unlike(k));
                assert(b@.contains_key(k) ==> !unlike(k));
            }
            assert(a@ =~= b@);
        } else if in_a {
            let k = choose|k: K| #[trigger] a@.contains_key(k) && unlike(k);
            assert(a@ != b@);
        } else {
            let k = choose|k: K| #[trigger] b@.contains_key(k) && unlike(k);
            assert(a@ != b@);
        }
    }
    !in_a && !in_b
}

/// The keys of an integer-keyed map, listed once each.
pub(crate) fn keys_of<V>(map: &HashMap<u64, V>) -> (keys: Vec<u64>)
    ensures
        keys@.no_duplicates(),
        keys@.to_set() == map@.dom(),
{
    let mut keys: Vec<u64> = Vec::new();
    for key in it: map.keys()
        invariant
            it.seq().no_duplicates(),
            it.seq().unref().to_set() == map@.dom(),
            keys@.len() == it.index(),
            forall|j: int| 0 <= j < keys@.len() ==> #[trigger] keys@[j] == *it.seq()[j],
    {
        keys.push(*key);
    }
    proof {
        let all = vstd::std_specs::hash::spec_keys_iter(map).remaining();
        assert(keys@ =~= all.unref());
        assert forall|a: int, b: int| 0 <= a < b < keys@.len() implies keys@[a] != keys@[b] by {
            assert(all[a] != all[b]);
        }
    }
    keys
}

} // verus!
