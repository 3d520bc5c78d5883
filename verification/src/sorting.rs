//! The stable order of a list by integer keys.

use vstd::prelude::*;

verus! {

/// Every key with its place in the list.
pub open spec fn keyed_places(keys: Seq<u64>) -> Seq<(int, int)> {
    Seq::new(keys.len(), |i: int| (keys[i] as int, i))
}

/// By key, and by place where the keys are equal.
pub open spec fn by_key_and_place() -> spec_fn((int, int), (int, int)) -> bool {
    |a: (int, int), b: (int, int)| a.0 < b.0 || (a.0 == b.0 && a.1 <= b.1)
}

/// The keys in rising order, each with the place where it stood; equal keys stay
/// in the order in which they came.
pub open spec fn stably_sorted(keys: Seq<u64>) -> Seq<(int, int)> {
    keyed_places(keys).sort_by(by_key_and_place())
}

/// Puts items into the stable order of their keys.
pub open spec fn arranged<T>(items: Seq<T>, keys: Seq<u64>) -> Seq<T> {
    Seq::new(items.len(), |i: int| items[stably_sorted(keys)[i].1])
}

spec fn pairs(keys: Seq<u64>, places: Seq<usize>) -> Seq<(int, int)> {
    Seq::new(places.len(), |i: int| (keys[places[i] as int] as int, places[i] as int))
}

/// Computes the places of the keys in their stable order.
pub fn stable_order(keys: &Vec<u64>) -> (places: Vec<usize>)
    ensures
        places@.len() == keys@.len(),
        stably_sorted(keys@).len() == keys@.len(),
        forall|i: int|
            0 <= i < places@.len() ==> #[trigger] places@[i] < keys@.len() && places@[i]
                == stably_sorted(keys@)[i].1,
{
    let mut places: Vec<usize> = Vec::new();
    let mut i: usize = 0;
    proof {
        assert(pairs(keys@, places@) =~= keyed_places(keys@).take(0));
    }
    while i < keys.len()
        invariant
            i <= keys@.len(),
            places@.len() == i,
            forall|a: int| 0 <= a < i ==> #[trigger] places@[a] < i,
            forall|a: int, b: int|
                0 <= a < b < i ==> {
                    ||| keys@[#[trigger] places@[a] as int] < keys@[#[trigger] places@[b] as int]
                    ||| keys@[places@[a] as int] == keys@[places@[b] as int] && places@[a] <= places@[b]
                },
            pairs(keys@, places@).to_multiset() == keyed_places(keys@).take(i as int).to_multiset(),
        decreases keys@.len() - i,
    {
        let key: u64 = keys[i];
        let mut at: usize = places.len();
        while at > 0 && keys[places[at - 1]] > key
            invariant
                i < keys@.len(),
                at <= places@.len(),
                places@.len() == i,
                forall|a: int| 0 <= a < i ==> #[trigger] places@[a] < i,
                forall|a: int| at <= a < i ==> keys@[#[trigger] places@[a] as int] > key,
            decreases at,
        {
            at -= 1;
        }
        let ghost before = places@;
        places.insert(at, i);
        proof {
            let earlier = keyed_places(keys@).take(i as int);
            assert(pairs(keys@, places@) =~= pairs(keys@, before).insert(
                at as int,
                (key as int, i as int),
            ));
            assert(keyed_places(keys@).take(i as int + 1) =~= earlier.push((key as int, i as int)));
            vstd::seq_lib::to_multiset_insert(pairs(keys@, before), at as int, (key as int, i as int));
            vstd::seq_lib::to_multiset_build(earlier, (key as int, i as int));
            assert forall|a: int| 0 <= a < i + 1 implies #[trigger] places@[a] < i + 1 by {
                let x = if a < at { a } else { a - 1 };
                if a != at {
                    assert(places@[a] == before[x]);
                }
            }
            assert forall|a: int, b: int| 0 <= a < b < i + 1 implies {
                ||| keys@[#[trigger] places@[a] as int] < keys@[#[trigger] places@[b] as int]
                ||| keys@[places@[a] as int] == keys@[places@[b] as int] && places@[a] <= places@[b]
            } by {
                let x = if a < at { a } else { a - 1 };
                let y = if b < at { b } else { b - 1 };
                if a != at {
                    assert(places@[a] == before[x]);
                }
                if b != at {
                    assert(places@[b] == before[y]);
                }
                if b == at && a < at - 1 {
                    assert(before[a] < i && before[at - 1] < i);
                }
            }
        }
        i += 1;
    }
    proof {
        let source = keyed_places(keys@);
        let order = by_key_and_place();
        let found = pairs(keys@, places@);
        assert(source.take(keys@.len() as int) =~= source);
        assert(vstd::relations::total_ordering(order));
        source.lemma_sort_by_ensures(order);
        assert forall|a: int, b: int| 0 <= a < b < found.len() implies #[trigger] order(
            found[a],
            found[b],
        ) by {
            assert(places@[a] >= 0 && places@[b] >= 0);
        }
        assert(vstd::relations::sorted_by(found, order));
        vstd::seq_lib::lemma_sorted_unique(found, stably_sorted(keys@), order);
        assert forall|k: int| 0 <= k < places@.len() implies #[trigger] places@[k] < keys@.len()
            && places@[k] == stably_sorted(keys@)[k].1 by {
            assert(found[k] == stably_sorted(keys@)[k]);
        }
    }
    places
}

/// The stable order lists every place once; the keys rise along it, and equal keys keep
/// the order in which they came.
pub proof fn the_order_is_stable(keys: Seq<u64>)
    ensures
        stably_sorted(keys).len() == keys.len(),
        forall|i: int|
            0 <= i < keys.len() ==> 0 <= (#[trigger] stably_sorted(keys)[i]).1 < keys.len(),
        forall|i: int, j: int|
            0 <= i < j < keys.len() ==> {
                let first = (#[trigger] stably_sorted(keys)[i]).1;
                let second = (#[trigger] stably_sorted(keys)[j]).1;
                keys[first] < keys[second] || keys[first] == keys[second] && first < second
            },
{
    let source = keyed_places(keys);
    let sorted = stably_sorted(keys);
    let order = by_key_and_place();
    assert(vstd::relations::total_ordering(order));
    source.lemma_sort_by_ensures(order);
    source.to_multiset_ensures();
    sorted.to_multiset_ensures();
    assert(source.no_duplicates());
    assert(sorted.len() == source.len());
    source.lemma_multiset_has_no_duplicates();
    sorted.lemma_multiset_has_no_duplicates_conv();
    assert forall|i: int| 0 <= i < keys.len() implies 0 <= (#[trigger] sorted[i]).1 < keys.len()
        && sorted[i].0 == keys[sorted[i].1] by {
        assert(sorted.to_multiset().contains(sorted[i]));
        assert(source.contains(sorted[i]));
    }
    assert forall|i: int, j: int| 0 <= i < j < keys.len() implies {
        let first = (#[trigger] sorted[i]).1;
        let second = (#[trigger] sorted[j]).1;
        keys[first] < keys[second] || keys[first] == keys[second] && first < second
    } by {
        assert(order(sorted[i], sorted[j]));
        assert(sorted[i] != sorted[j]);
        assert(sorted[i].0 == keys[sorted[i].1] && sorted[j].0 == keys[sorted[j].1]);
    }
}

} // verus!
