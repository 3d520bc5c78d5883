//! Maps with integer keys.

use std::collections::{BTreeMap, HashMap};

use vstd::prelude::*;

verus! {

/// The keys of a map, each once, in no particular order.
pub fn keys_of<V>(map: &HashMap<u64, V>) -> (keys: Vec<u64>)
    ensures
        keys@.no_duplicates(),
        forall|key: u64| #[trigger] map@.contains_key(key) <==> keys@.contains(key),
        keys@.len() == map@.len(),
{
    broadcast use vstd::std_specs::hash::group_hash_axioms;

    let mut keys: Vec<u64> = Vec::new();
    for key in it: map.keys()
        invariant
            it.seq().no_duplicates(),
            it.seq().len() == map@.dom().len(),
            it.seq().unref().to_set() == map@.dom(),
            keys@ == it.seq().unref().take(it.index()),
            it.index() == it.seq().len() ==> keys@.to_set() == map@.dom(),
            keys@.no_duplicates(),
    {
        let ghost all = it.seq().unref();
        let ghost k = it.index();
        keys.push(*key);
        proof {
            assert(all.take(k + 1) =~= all.take(k).push(*key));
            assert(k + 1 == all.len() ==> all.take(k + 1) =~= all);
            assert forall|i: int| 0 <= i < k implies all[i] != *key by {
                assert(it.seq()[i] != it.seq()[k]);
            }
        }
    }
    proof {
        assert(keys@.to_set() =~= map@.dom());
        assert forall|key: u64| #[trigger] map@.contains_key(key) <==> keys@.contains(key) by {
            assert(keys@.to_set().contains(key) <==> keys@.contains(key));
        }
    }
    keys
}

/// A map with composite keys.
pub struct CompositeMap<V> {
    entries: BTreeMap<(u64, u64, u8), V>,
}

impl<V> View for CompositeMap<V> {
    type V = Map<(u64, u64, u8), V>;

    closed spec fn view(&self) -> Map<(u64, u64, u8), V> {
        self.entries@
    }
}

impl<V> CompositeMap<V> {
    /// Creates an empty map.
    pub fn new() -> (map: CompositeMap<V>)
        ensures
            map@ == Map::<(u64, u64, u8), V>::empty(),
    {
        CompositeMap { entries: BTreeMap::new() }
    }

    /// There are finitely many entries.
    pub proof fn is_finite(&self)
        ensures
            self@.dom().finite(),
    {
        broadcast use vstd::std_specs::btree::group_btree_axioms;

    }

    /// How many entries there are.
    pub fn len(&self) -> (len: usize)
        ensures
            len == self@.len(),
            self@.dom().finite(),
    {
        broadcast use {
            vstd::std_specs::btree::group_btree_axioms,
            vstd::laws_cmp::group_laws_cmp,
        };

        self.entries.len()
    }

    /// The value of a key.
    pub fn get(&self, key: (u64, u64, u8)) -> (value: Option<&V>)
        ensures
            match value {
                Some(found) => self@.contains_key(key) && *found == self@[key],
                None => !self@.contains_key(key),
            },
    {
        broadcast use {
            vstd::std_specs::btree::group_btree_axioms,
            vstd::laws_cmp::group_laws_cmp,
        };

        self.entries.get(&key)
    }

    /// Sets the value of a key.
    pub fn insert(&mut self, key: (u64, u64, u8), value: V)
        ensures
            final(self)@ == old(self)@.insert(key, value),
    {
        broadcast use {
            vstd::std_specs::btree::group_btree_axioms,
            vstd::laws_cmp::group_laws_cmp,
        };

        let _ = self.entries.insert(key, value);
    }

    /// Takes the value of a key out.
    pub fn remove(&mut self, key: (u64, u64, u8)) -> (value: Option<V>)
        ensures
            final(self)@ == old(self)@.remove(key),
            match value {
                Some(found) => old(self)@.contains_key(key) && found == old(self)@[key],
                None => !old(self)@.contains_key(key),
            },
    {
        broadcast use {
            vstd::std_specs::btree::group_btree_axioms,
            vstd::laws_cmp::group_laws_cmp,
        };

        self.entries.remove(&key)
    }

    /// The keys, each once, in rising order.
    pub fn keys(&self) -> (keys: Vec<(u64, u64, u8)>)
        ensures
            keys@.no_duplicates(),
            forall|key: (u64, u64, u8)| #[trigger] self@.contains_key(key) <==> keys@.contains(key),
            keys@.len() == self@.len(),
    {
        broadcast use {
            vstd::std_specs::btree::group_btree_axioms,
            vstd::laws_cmp::group_laws_cmp,
        };

        let map = &self.entries;
        let mut keys: Vec<(u64, u64, u8)> = Vec::new();
        for key in it: map.keys()
            invariant
                it.seq().no_duplicates(),
                it.seq().len() == map@.dom().len(),
                it.seq().unref().to_set() == map@.dom(),
                keys@ == it.seq().unref().take(it.index()),
                it.index() == it.seq().len() ==> keys@.to_set() == map@.dom(),
                keys@.no_duplicates(),
        {
            let ghost all = it.seq().unref();
            let ghost k = it.index();
            keys.push(*key);
            proof {
                assert(all.take(k + 1) =~= all.take(k).push(*key));
                assert(k + 1 == all.len() ==> all.take(k + 1) =~= all);
                assert forall|i: int| 0 <= i < k implies all[i] != *key by {
                    assert(it.seq()[i] != it.seq()[k]);
                }
            }
        }
        proof {
            assert(keys@.to_set() =~= map@.dom());
            assert forall|key: (u64, u64, u8)| #[trigger]
                map@.contains_key(key) <==> keys@.contains(key) by {
                assert(keys@.to_set().contains(key) <==> keys@.contains(key));
            }
        }
        keys
    }
}

/// The map that a list of entries makes up. Where a key occurs twice, its last
/// entry counts.
pub open spec fn map_of<K, V>(entries: Seq<(K, V)>) -> Map<K, V>
    decreases entries.len(),
{
    if entries.len() == 0 {
        Map::empty()
    } else {
        map_of(entries.drop_last()).insert(entries.last().0, entries.last().1)
    }
}

/// Whether `after` is what is left of a map once it has been cut down to a size:
/// entries are dropped while there are too many, and none that is dropped ranks
/// higher than one that is kept.
pub open spec fn keeps_highest<K, V>(
    before: Map<K, V>,
    after: Map<K, V>,
    limit: nat,
    rank: spec_fn(V) -> int,
) -> bool {
    &&& after.submap_of(before)
    &&& after.len() == if before.len() <= limit {
        before.len()
    } else {
        limit
    }
    &&& forall|dropped: K, kept: K|
        #![trigger before.contains_key(dropped), after.contains_key(kept)]
        before.contains_key(dropped) && !after.contains_key(dropped) && after.contains_key(kept)
            ==> rank(before[dropped]) <= rank(before[kept])
}

/// Dropping an entry of the lowest rank is a step of cutting a map down.
pub proof fn dropping_the_lowest<K, V>(
    before: Map<K, V>,
    current: Map<K, V>,
    lowest: K,
    rank: spec_fn(V) -> int,
)
    requires
        before.dom().finite(),
        current.len() > 0,
        keeps_highest(before, current, current.len(), rank),
        current.contains_key(lowest),
        forall|other: K| #[trigger]
            current.contains_key(other) ==> rank(current[lowest]) <= rank(current[other]),
    ensures
        keeps_highest(
            before,
            current.remove(lowest),
            (current.len() - 1) as nat,
            rank,
        ),
        current.remove(lowest).len() == current.len() - 1,
{
    assert(current.dom().subset_of(before.dom()));
    vstd::set_lib::lemma_len_subset(current.dom(), before.dom());
    assert(current.remove(lowest).dom() =~= current.dom().remove(lowest));
    let after = current.remove(lowest);
    assert forall|dropped: K, kept: K|
        #![trigger before.contains_key(dropped), after.contains_key(kept)]
        before.contains_key(dropped) && !after.contains_key(dropped) && after.contains_key(
            kept,
        ) implies rank(before[dropped]) <= rank(before[kept]) by {
        assert(current.contains_key(kept));
        if current.contains_key(dropped) {
            assert(dropped == lowest);
            assert(before[lowest] == current[lowest]);
            assert(before[kept] == current[kept]);
        }
    }
}

/// Whether no key occurs twice in a list of entries.
pub open spec fn keys_differ<K, V>(entries: Seq<(K, V)>) -> bool {
    forall|i: int, j: int|
        0 <= i < j < entries.len() ==> (#[trigger] entries[i]).0 != (#[trigger] entries[j]).0
}

/// Where no key occurs twice, every entry is found under its key.
pub proof fn entry_is_found<K, V>(entries: Seq<(K, V)>, i: int)
    requires
        keys_differ(entries),
        0 <= i < entries.len(),
    ensures
        map_of(entries).contains_key(entries[i].0),
        map_of(entries)[entries[i].0] == entries[i].1,
    decreases entries.len(),
{
    if i < entries.len() - 1 {
        let shorter = entries.drop_last();
        assert(keys_differ(shorter)) by {
            assert forall|a: int, b: int| 0 <= a < b < shorter.len() implies (
            #[trigger] shorter[a]).0 != (#[trigger] shorter[b]).0 by {
                assert(entries[a].0 != entries[b].0);
            }
        }
        entry_is_found(shorter, i);
        assert(entries[i].0 != entries[entries.len() - 1].0);
    }
}

/// What is found under a key is an entry of the list.
pub proof fn found_entry<K, V>(entries: Seq<(K, V)>, key: K) -> (i: int)
    requires
        map_of(entries).contains_key(key),
    ensures
        0 <= i < entries.len(),
        entries[i].0 == key,
        entries[i].1 == map_of(entries)[key],
    decreases entries.len(),
{
    if entries.last().0 == key {
        entries.len() - 1
    } else {
        found_entry(entries.drop_last(), key)
    }
}

/// Where no key occurs twice, the map has as many entries as the list.
pub proof fn entries_are_counted<K, V>(entries: Seq<(K, V)>)
    requires
        keys_differ(entries),
    ensures
        map_of(entries).dom().finite(),
        map_of(entries).len() == entries.len(),
    decreases entries.len(),
{
    if entries.len() > 0 {
        let shorter = entries.drop_last();
        assert(keys_differ(shorter)) by {
            assert forall|a: int, b: int| 0 <= a < b < shorter.len() implies (
            #[trigger] shorter[a]).0 != (#[trigger] shorter[b]).0 by {
                assert(entries[a].0 != entries[b].0);
            }
        }
        entries_are_counted(shorter);
        if map_of(shorter).contains_key(entries.last().0) {
            let i = found_entry(shorter, entries.last().0);
            assert(entries[i].0 != entries[entries.len() - 1].0);
        }
    }
}

/// The key of every entry is one of the map, which has no more entries than the list.
proof fn keys_are_held<K, V>(entries: Seq<(K, V)>)
    ensures
        map_of(entries).dom().finite(),
        map_of(entries).len() <= entries.len(),
        forall|i: int|
            0 <= i < entries.len() ==> map_of(entries).contains_key((#[trigger] entries[i]).0),
    decreases entries.len(),
{
    if entries.len() > 0 {
        let shorter = entries.drop_last();
        keys_are_held(shorter);
        assert forall|i: int| 0 <= i < entries.len() implies map_of(entries).contains_key(
            (#[trigger] entries[i]).0,
        ) by {
            if i < shorter.len() {
                assert(shorter[i] == entries[i]);
            }
        }
    }
}

/// Where the map has as many entries as the list, no key occurs twice.
pub proof fn as_many_keys_as_entries<K, V>(entries: Seq<(K, V)>)
    requires
        map_of(entries).len() == entries.len(),
    ensures
        keys_differ(entries),
    decreases entries.len(),
{
    if entries.len() > 0 {
        let shorter = entries.drop_last();
        keys_are_held(shorter);
        assert(!map_of(shorter).contains_key(entries.last().0));
        as_many_keys_as_entries(shorter);
        assert forall|i: int, j: int| 0 <= i < j < entries.len() implies (#[trigger] entries[i]).0 != (
        #[trigger] entries[j]).0 by {
            assert(shorter[i] == entries[i]);
            if j < shorter.len() {
                assert(shorter[j] == entries[j]);
            }
        }
    }
}

/// Whether one list holds the entries of another, each once, where `places` says
/// where each of them stood.
pub open spec fn moves_entries<K, V>(
    before: Seq<(K, V)>,
    after: Seq<(K, V)>,
    places: Seq<int>,
) -> bool {
    &&& after.len() == before.len()
    &&& places.len() == before.len()
    &&& places.no_duplicates()
    &&& forall|i: int|
        0 <= i < places.len() ==> 0 <= #[trigger] places[i] < before.len() && after[i]
            == before[places[i]]
}

/// Whether one list holds exactly the entries of another, in some order.
pub open spec fn same_entries<K, V>(before: Seq<(K, V)>, after: Seq<(K, V)>) -> bool {
    exists|places: Seq<int>| #[trigger] moves_entries(before, after, places)
}

/// Two lists in which no key occurs twice, and which make up the same map, hold the
/// same entries.
pub proof fn same_map_same_entries<K, V>(before: Seq<(K, V)>, after: Seq<(K, V)>)
    requires
        keys_differ(before),
        keys_differ(after),
        map_of(before) == map_of(after),
    ensures
        same_entries(before, after),
{
    entries_are_counted(before);
    entries_are_counted(after);
    let places = Seq::new(
        after.len(),
        |i: int| choose|k: int| 0 <= k < before.len() && #[trigger] before[k] == after[i],
    );
    assert forall|i: int| 0 <= i < after.len() implies 0 <= #[trigger] places[i] < before.len()
        && after[i] == before[places[i]] by {
        entry_is_found(after, i);
        let k = found_entry(before, after[i].0);
        assert(before[k] == after[i]);
    }
    assert forall|i: int, j: int| 0 <= i < j < places.len() implies places[i] != places[j] by {
        assert(after[i].0 != after[j].0);
        assert(after[i] == before[places[i]]);
        assert(after[j] == before[places[j]]);
    }
    assert(moves_entries(before, after, places));
}

/// A list that makes up an empty map has no entries.
pub proof fn empty_map_has_no_entries<K, V>(entries: Seq<(K, V)>)
    requires
        map_of(entries) == Map::<K, V>::empty(),
    ensures
        entries.len() == 0,
{
    if entries.len() > 0 {
        assert(map_of(entries).contains_key(entries.last().0));
    }
}

/// What is put in under a key is found under it and under no other, and what is taken out
/// is gone.
pub proof fn what_is_filed_is_found<V>(
    map: &mut CompositeMap<V>,
    key: (u64, u64, u8),
    value: V,
    later: &CompositeMap<V>,
    other: (u64, u64, u8),
    found: Option<&V>,
    elsewhere: Option<&V>,
    shorter: &mut CompositeMap<V>,
    taken: Option<V>,
)
    requires
        other != key,
        call_ensures(CompositeMap::<V>::insert, (map, key, value), ()),
        later@ == final(map)@,
        call_ensures(CompositeMap::<V>::get, (later, key), found),
        call_ensures(CompositeMap::<V>::get, (later, other), elsewhere),
        old(shorter)@ == final(map)@,
        call_ensures(CompositeMap::<V>::remove, (shorter, key), taken),
    ensures
        found matches Some(held) && *held == value,
        elsewhere is Some <==> old(map)@.contains_key(other),
        elsewhere matches Some(held) ==> *held == old(map)@[other],
        taken == Some(value),
        !final(shorter)@.contains_key(key),
        final(shorter)@.contains_key(other) <==> old(map)@.contains_key(other),
{
}

} // verus!
