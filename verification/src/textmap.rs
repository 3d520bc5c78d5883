//! A small map whose keys are texts.

use vstd::prelude::*;

use crate::tables;
use crate::text;

verus! {

/// A map from texts to values. Each key occurs once.
pub struct TextMap<V> {
    entries: Vec<(String, V)>,
}

/// The entries, by the texts of their keys.
pub open spec fn keyed<V>(entries: Seq<(String, V)>) -> Seq<(Seq<char>, V)> {
    Seq::new(entries.len(), |i: int| (entries[i].0@, entries[i].1))
}

impl<V> View for TextMap<V> {
    type V = Map<Seq<char>, V>;

    closed spec fn view(&self) -> Map<Seq<char>, V> {
        tables::map_of(keyed(self.entries@))
    }
}

/// A key that no entry has is not in the map.
proof fn absent_key<V>(entries: Seq<(Seq<char>, V)>, key: Seq<char>)
    requires
        forall|i: int| 0 <= i < entries.len() ==> (#[trigger] entries[i]).0 != key,
    ensures
        !tables::map_of(entries).contains_key(key),
    decreases entries.len(),
{
    if entries.len() > 0 {
        let shorter = entries.drop_last();
        assert forall|i: int| 0 <= i < shorter.len() implies (#[trigger] shorter[i]).0 != key by {
            assert(entries[i].0 != key);
        }
        absent_key(shorter, key);
        assert(entries[entries.len() - 1].0 != key);
    }
}

/// Replacing the value of an entry replaces the value of its key.
proof fn replaced_value<V>(entries: Seq<(Seq<char>, V)>, at: int, value: V)
    requires
        tables::keys_differ(entries),
        0 <= at < entries.len(),
    ensures
        tables::keys_differ(entries.update(at, (entries[at].0, value))),
        tables::map_of(entries.update(at, (entries[at].0, value))) == tables::map_of(entries).insert(
            entries[at].0,
            value,
        ),
    decreases entries.len(),
{
    let changed = entries.update(at, (entries[at].0, value));
    let key = entries[at].0;
    assert(tables::keys_differ(changed)) by {
        assert forall|i: int, j: int| 0 <= i < j < changed.len() implies (#[trigger] changed[i]).0 != (
        #[trigger] changed[j]).0 by {
            assert(entries[i].0 != entries[j].0);
        }
    }
    if at == entries.len() - 1 {
        assert(changed.drop_last() =~= entries.drop_last());
        assert(tables::map_of(changed) =~= tables::map_of(entries).insert(key, value));
    } else {
        let shorter = entries.drop_last();
        assert(tables::keys_differ(shorter)) by {
            assert forall|i: int, j: int| 0 <= i < j < shorter.len() implies (#[trigger] shorter[i]).0
                != (#[trigger] shorter[j]).0 by {
                assert(entries[i].0 != entries[j].0);
            }
        }
        replaced_value(shorter, at, value);
        assert(changed.drop_last() =~= shorter.update(at, (shorter[at].0, value)));
        assert(entries[at].0 != entries[entries.len() - 1].0);
        assert(tables::map_of(changed) =~= tables::map_of(entries).insert(key, value));
    }
}

impl<V> TextMap<V> {
    /// Whether each key occurs once.
    pub closed spec fn wf(&self) -> bool {
        tables::keys_differ(keyed(self.entries@))
    }

    /// An empty map.
    pub fn new() -> (map: TextMap<V>)
        ensures
            map.wf(),
            map@ == Map::<Seq<char>, V>::empty(),
    {
        TextMap { entries: Vec::new() }
    }

    /// Where a key stands.
    fn place(&self, key: &str) -> (place: Option<usize>)
        ensures
            match place {
                Some(i) => i < self.entries@.len() && self.entries@[i as int].0@ == key@,
                None => forall|i: int|
                    0 <= i < self.entries@.len() ==> (#[trigger] self.entries@[i]).0@ != key@,
            },
    {
        let mut i: usize = 0;
        while i < self.entries.len()
            invariant
                i <= self.entries@.len(),
                forall|j: int| 0 <= j < i ==> (#[trigger] self.entries@[j]).0@ != key@,
            decreases self.entries@.len() - i,
        {
            if text::same_text(self.entries[i].0.as_str(), key) {
                return Some(i);
            }
            i += 1;
        }
        None
    }

    /// What is found under a key.
    pub fn get(&self, key: &str) -> (value: Option<&V>)
        requires
            self.wf(),
        ensures
            match value {
                Some(value) => self@.contains_key(key@) && *value == self@[key@],
                None => !self@.contains_key(key@),
            },
    {
        match self.place(key) {
            Some(i) => {
                proof {
                    tables::entry_is_found(keyed(self.entries@), i as int);
                }
                Some(&self.entries[i].1)
            },
            None => {
                proof {
                    let entries = keyed(self.entries@);
                    assert forall|i: int| 0 <= i < entries.len() implies (#[trigger] entries[i]).0 != key@ by {
                        assert(self.entries@[i].0@ != key@);
                    }
                    absent_key(entries, key@);
                }
                None
            },
        }
    }

    /// Files a value under a key, in the place of what was there.
    pub fn insert(&mut self, key: String, value: V)
        requires
            old(self).wf(),
        ensures
            final(self).wf(),
            final(self)@ == old(self)@.insert(key@, value),
    {
        let ghost before = keyed(self.entries@);
        match self.place(key.as_str()) {
            Some(i) => {
                proof {
                    replaced_value(before, i as int, value);
                }
                self.entries[i] = (key, value);
                proof {
                    assert(keyed(self.entries@) =~= before.update(
                        i as int,
                        (before[i as int].0, value),
                    ));
                }
            },
            None => {
                let ghost held = self.entries@;
                self.entries.push((key, value));
                proof {
                    let after = keyed(self.entries@);
                    assert(after.drop_last() =~= before);
                    assert forall|i: int, j: int| 0 <= i < j < after.len() implies (
                    #[trigger] after[i]).0 != (#[trigger] after[j]).0 by {
                        if j < before.len() {
                            assert(before[i].0 != before[j].0);
                        } else {
                            assert(held[i].0@ != key@);
                        }
                    }
                }
            },
        }
    }
}

/// What is put in is found again under its own text and under no other; a new map holds
/// nothing.
pub proof fn what_is_put_in_is_found<V>(
    map: &mut TextMap<V>,
    key: String,
    value: V,
    later: &TextMap<V>,
    same: &str,
    other: &str,
    found: Option<&V>,
    elsewhere: Option<&V>,
    fresh: TextMap<V>,
)
    requires
        call_ensures(TextMap::<V>::insert, (map, key, value), ()),
        later@ == final(map)@,
        same@ == key@,
        other@ != key@,
        call_ensures(TextMap::<V>::get, (later, same), found),
        call_ensures(TextMap::<V>::get, (later, other), elsewhere),
        call_ensures(TextMap::<V>::new, (), fresh),
    ensures
        found matches Some(held) && *held == value,
        elsewhere is Some <==> old(map)@.contains_key(other@),
        elsewhere matches Some(held) ==> *held == old(map)@[other@],
        fresh@.dom() =~= Set::<Seq<char>>::empty(),
{
}

} // verus!
