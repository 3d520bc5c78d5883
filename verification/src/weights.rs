//! Lists of keys with decaying weights.

use vstd::prelude::*;

use crate::decay::DecayParams;
use crate::float;
use crate::float::{FloatOp, FloatUnit};

verus! {

/// The entries after some buckets of decay. Without any, nothing is computed.
pub open spec fn decayed<K>(
    entries: Seq<(K, u32)>,
    elapsed: u64,
    decay: DecayParams,
    model: spec_fn(FloatOp) -> u64,
) -> Seq<(K, u32)> {
    if elapsed == 0 {
        entries
    } else {
        Seq::new(
            entries.len(),
            |i: int|
                (entries[i].0, model(FloatOp::Decay { weight: entries[i].1, elapsed, decay }) as u32),
        )
    }
}

/// The entries whose weight is not negligible.
pub open spec fn pruned<K>(entries: Seq<(K, u32)>) -> Seq<(K, u32)>
    decreases entries.len(),
{
    if entries.len() == 0 {
        entries
    } else if float::at_least32(entries.last().1, float::NEGLIGIBLE_WEIGHT) {
        pruned(entries.drop_last()).push(entries.last())
    } else {
        pruned(entries.drop_last())
    }
}

/// The sum of the weights, added one after the other.
pub open spec fn total_of<K>(entries: Seq<(K, u32)>, model: spec_fn(FloatOp) -> u64) -> u64
    decreases entries.len(),
{
    if entries.len() == 0 {
        float::ZERO_TOTAL
    } else {
        model(
            FloatOp::Accumulate {
                total: total_of(entries.drop_last(), model),
                weight: entries.last().1,
            },
        )
    }
}

/// The first place from `from` on at which a key stands; the length of the list
/// if there is none.
pub open spec fn place_of<K>(entries: Seq<(K, u32)>, key: K, from: int) -> int
    decreases entries.len() - from,
{
    if from >= entries.len() {
        entries.len() as int
    } else if entries[from].0 == key {
        from
    } else {
        place_of(entries, key, from + 1)
    }
}

/// The entries with one more for the entry at a place.
pub open spec fn raised<K>(
    entries: Seq<(K, u32)>,
    place: int,
    model: spec_fn(FloatOp) -> u64,
) -> Seq<(K, u32)> {
    entries.update(
        place,
        (entries[place].0, model(FloatOp::Increment { weight: entries[place].1 }) as u32),
    )
}

/// The number of buckets from one to another; none if it is not later.
pub open spec fn elapsed_since(last: u64, bucket: u64) -> u64 {
    if bucket >= last {
        (bucket - last) as u64
    } else {
        0
    }
}

/// Lets all weights decay.
pub fn decay_all<K: Copy, F: Fn(FloatOp) -> u64>(
    entries: &mut Vec<(K, u32)>,
    elapsed: u64,
    decay: DecayParams,
    floats: &FloatUnit<F>,
)
    requires
        floats.is_total(),
    ensures
        final(entries)@.len() == old(entries)@.len(),
        forall|i: int|
            0 <= i < old(entries)@.len() ==> (#[trigger] final(entries)@[i]).0 == old(entries)@[i].0,
        forall|model: spec_fn(FloatOp) -> u64| #[trigger]
            floats.computes(model) ==> final(entries)@ == decayed(old(entries)@, elapsed, decay, model),
{
    if elapsed == 0 {
        return;
    }
    let ghost before = entries@;
    let n: usize = entries.len();
    let mut i: usize = 0;
    while i < n
        invariant
            floats.is_total(),
            n == entries@.len() == before.len(),
            i <= n,
            forall|j: int| i <= j < n ==> #[trigger] entries@[j] == before[j],
            forall|j: int| 0 <= j < i ==> (#[trigger] entries@[j]).0 == before[j].0,
            forall|j: int, model: spec_fn(FloatOp) -> u64|
                #![trigger entries@[j], floats.computes(model)]
                0 <= j < i && floats.computes(model) ==> entries@[j].1 == model(
                    FloatOp::Decay { weight: before[j].1, elapsed, decay },
                ) as u32,
        decreases n - i,
    {
        let (key, weight) = entries[i];
        let smaller: u64 = floats.run(FloatOp::Decay { weight, elapsed, decay });
        entries[i] = (key, #[verifier::truncate] (smaller as u32));
        i += 1;
    }
    proof {
        assert forall|model: spec_fn(FloatOp) -> u64| #[trigger] floats.computes(model) implies entries@
            == decayed(before, elapsed, decay, model) by {
            assert forall|j: int| 0 <= j < n implies entries@[j] == decayed(before, elapsed, decay, model)[j] by {
                assert(entries@[j].0 == before[j].0);
            }
            assert(entries@ =~= decayed(before, elapsed, decay, model));
        }
    }
}

/// Adds one to the weight of the entry at a place.
pub fn raise<K: Copy, F: Fn(FloatOp) -> u64>(
    entries: &mut Vec<(K, u32)>,
    place: usize,
    floats: &FloatUnit<F>,
)
    requires
        floats.is_total(),
        place < old(entries)@.len(),
    ensures
        final(entries)@ == old(entries)@.update(
            place as int,
            (old(entries)@[place as int].0, final(entries)@[place as int].1),
        ),
        forall|model: spec_fn(FloatOp) -> u64| #[trigger]
            floats.computes(model) ==> final(entries)@ == raised(
                old(entries)@,
                place as int,
                model,
            ),
{
    let (key, weight) = entries[place];
    let larger: u64 = floats.run(FloatOp::Increment { weight });
    entries[place] = (key, #[verifier::truncate] (larger as u32));
}

/// Drops the entries whose weight is negligible.
pub fn prune<K: Copy>(entries: &mut Vec<(K, u32)>)
    ensures
        final(entries)@ == pruned(old(entries)@),
{
    let ghost before = entries@;
    let mut kept: Vec<(K, u32)> = Vec::new();
    let mut i: usize = 0;
    while i < entries.len()
        invariant
            entries@ == before,
            i <= before.len(),
            kept@ == pruned(before.take(i as int)),
        decreases before.len() - i,
    {
        proof {
            assert(before.take(i as int + 1).drop_last() =~= before.take(i as int));
        }
        let entry = entries[i];
        if float::is_at_least32(entry.1, float::NEGLIGIBLE_WEIGHT) {
            kept.push(entry);
        }
        i += 1;
    }
    proof {
        assert(before.take(before.len() as int) =~= before);
    }
    *entries = kept;
}

/// Adds up the weights.
pub fn total<K, F: Fn(FloatOp) -> u64>(entries: &Vec<(K, u32)>, floats: &FloatUnit<F>) -> (sum: u64)
    requires
        floats.is_total(),
    ensures
        forall|model: spec_fn(FloatOp) -> u64| #[trigger]
            floats.computes(model) ==> sum == total_of(entries@, model),
{
    let mut sum: u64 = float::ZERO_TOTAL;
    let mut i: usize = 0;
    while i < entries.len()
        invariant
            floats.is_total(),
            i <= entries@.len(),
            forall|model: spec_fn(FloatOp) -> u64| #[trigger]
                floats.computes(model) ==> sum == total_of(entries@.take(i as int), model),
        decreases entries@.len() - i,
    {
        proof {
            assert(entries@.take(i as int + 1).drop_last() =~= entries@.take(i as int));
        }
        sum = floats.run(FloatOp::Accumulate { total: sum, weight: entries[i].1 });
        i += 1;
    }
    proof {
        assert(entries@.take(entries@.len() as int) =~= entries@);
    }
    sum
}

/// The place of a key is one at which it stands, or the length of the list.
pub proof fn place_is_in_range<K>(entries: Seq<(K, u32)>, key: K, from: int)
    requires
        0 <= from <= entries.len(),
    ensures
        from <= place_of(entries, key, from) <= entries.len(),
        place_of(entries, key, from) < entries.len() ==> entries[place_of(entries, key, from)].0 == key,
        forall|i: int|
            from <= i < place_of(entries, key, from) ==> (#[trigger] entries[i]).0 != key,
    decreases entries.len() - from,
{
    if from < entries.len() && entries[from].0 != key {
        place_is_in_range(entries, key, from + 1);
    }
}

/// Pruning keeps what is not negligible, and nothing else.
pub proof fn pruning_keeps_what_counts<K>(entries: Seq<(K, u32)>)
    ensures
        pruned(entries).len() <= entries.len(),
        forall|i: int|
            0 <= i < pruned(entries).len() ==> float::at_least32(
                (#[trigger] pruned(entries)[i]).1,
                float::NEGLIGIBLE_WEIGHT,
            ) && entries.contains(pruned(entries)[i]),
        forall|entry: (K, u32)| #[trigger]
            entries.contains(entry) && float::at_least32(entry.1, float::NEGLIGIBLE_WEIGHT)
                ==> pruned(entries).contains(entry),
    decreases entries.len(),
{
    if entries.len() > 0 {
        let fewer = entries.drop_last();
        pruning_keeps_what_counts(fewer);
        let kept = pruned(entries);
        assert forall|i: int| 0 <= i < kept.len() implies float::at_least32(
            (#[trigger] kept[i]).1,
            float::NEGLIGIBLE_WEIGHT,
        ) && entries.contains(kept[i]) by {
            if i < pruned(fewer).len() {
                assert(kept[i] == pruned(fewer)[i]);
                let j = choose|j: int| 0 <= j < fewer.len() && fewer[j] == kept[i];
                assert(entries[j] == kept[i]);
            } else {
                assert(entries[entries.len() - 1] == kept[i]);
            }
        }
        assert forall|entry: (K, u32)| #[trigger]
            entries.contains(entry) && float::at_least32(
                entry.1,
                float::NEGLIGIBLE_WEIGHT,
            ) implies kept.contains(entry) by {
            let j = choose|j: int| 0 <= j < entries.len() && entries[j] == entry;
            if j < fewer.len() {
                assert(fewer[j] == entry);
                assert(fewer.contains(entry));
                let i = choose|i: int| 0 <= i < pruned(fewer).len() && pruned(fewer)[i] == entry;
                assert(kept[i] == entry);
            } else {
                assert(kept[kept.len() - 1] == entry);
            }
        }
    }
}

/// The bits of the weight of one observation, and of the smallest weight that is kept.
/// Each further observation is added to the weight as it is, and weights add up from
/// nothing, one after the other.
pub proof fn weights_add_up<K>(entries: Seq<(K, u32)>, entry: (K, u32), model: spec_fn(FloatOp) -> u64)
    ensures
        float::ONE_WEIGHT == 0x3f80_0000,
        float::NEGLIGIBLE_WEIGHT == 0x3a83_126f,
        total_of(Seq::<(K, u32)>::empty(), model) == 0,
        total_of(entries.push(entry), model) == model(
            FloatOp::Accumulate { total: total_of(entries, model), weight: entry.1 },
        ),
{
    assert(entries.push(entry).drop_last() =~= entries);
}

/// Between two observations every weight decays once, by as many buckets as have gone by;
/// within a bucket, and for one that is past, nothing decays.
pub proof fn weights_decay_with_the_buckets<K>(
    entries: Seq<(K, u32)>,
    last: u64,
    bucket: u64,
    decay: DecayParams,
    model: spec_fn(FloatOp) -> u64,
)
    ensures
        ({
            let after = decayed(entries, elapsed_since(last, bucket), decay, model);
            &&& after.len() == entries.len()
            &&& bucket <= last ==> after == entries
            &&& bucket > last ==> forall|i: int|
                0 <= i < entries.len() ==> (#[trigger] after[i]).0 == entries[i].0 && after[i].1
                    == model(
                    FloatOp::Decay {
                        weight: entries[i].1,
                        elapsed: (bucket - last) as u64,
                        decay,
                    },
                ) as u32
        }),
{
}

/// What is pruned is lighter than a thousandth: of entries whose weights are not negative,
/// those stay whose bits are not below the bits of that.
pub proof fn pruning_drops_what_is_too_light<K>(entries: Seq<(K, u32)>, entry: (K, u32))
    requires
        entry.1 <= 0x7f80_0000,
    ensures
        entry.1 >= 0x3a83_126f ==> pruned(entries.push(entry)) == pruned(entries).push(entry),
        entry.1 < 0x3a83_126f ==> pruned(entries.push(entry)) == pruned(entries),
        pruned(Seq::<(K, u32)>::empty()).len() == 0,
{
    assert(entries.push(entry).drop_last() =~= entries);
    float::short_bits_compare_as_numbers(entry.1, 0x3a83_126f);
}

} // verus!
