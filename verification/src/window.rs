//! A sliding window over the latest events.
//!
//! The window is bounded twice: by time, and by a number of events that holds
//! even in a flood. Time is taken from the events alone, never from a clock.

use std::collections::{HashMap, VecDeque};

use vstd::multiset::Multiset;
use vstd::prelude::*;

use crate::template::TemplateId;

verus! {

/// An event in the window: its time and its template.
#[derive(Debug, Clone, Copy)]
struct WindowEntry {
    timestamp_us: u64,
    template_id: u64,
}

/// What a window holds.
pub ghost struct WindowView {
    /// The times and templates of the events, in the order of their arrival.
    pub entries: Seq<(u64, u64)>,
    /// The length of the window.
    pub window_us: u64,
    /// How many events there can be.
    pub max_entries: nat,
    /// The latest time seen so far.
    pub newest_us: u64,
    /// How many events left because there were too many.
    pub dropped_by_capacity: u64,
    /// How many events came too late.
    pub dropped_late: u64,
}

/// The larger of two numbers.
pub open spec fn larger(a: u64, b: u64) -> u64 {
    if a >= b {
        a
    } else {
        b
    }
}

/// The templates of the events.
pub open spec fn templates_of(entries: Seq<(u64, u64)>) -> Seq<u64> {
    Seq::new(entries.len(), |i: int| entries[i].1)
}

/// The events that are not older than `cutoff`, in their order.
pub open spec fn kept(entries: Seq<(u64, u64)>, cutoff: int) -> Seq<(u64, u64)> {
    entries.filter(|entry: (u64, u64)| entry.0 >= cutoff)
}

/// Whether every event that is older than `bound` is in order: no event before it
/// is later than it.
spec fn stragglers_reach(entries: Seq<(u64, u64)>, bound: u64) -> bool {
    forall|i: int, j: int|
        0 <= i < j < entries.len() && (#[trigger] entries[j]).0 < bound ==> (
        #[trigger] entries[i]).0 <= entries[j].0
}

/// Of one more event it counts whether it is older than `cutoff`.
proof fn keeping_one_more(entries: Seq<(u64, u64)>, entry: (u64, u64), cutoff: int)
    ensures
        kept(entries.push(entry), cutoff) == if entry.0 >= cutoff {
            kept(entries, cutoff).push(entry)
        } else {
            kept(entries, cutoff)
        },
{
    reveal(Seq::filter);
    assert(entries.push(entry).drop_last() =~= entries);
}

/// An event at the front that is older than `cutoff` is not kept.
proof fn keeping_without_the_first(entries: Seq<(u64, u64)>, cutoff: int)
    requires
        entries.len() > 0,
        entries[0].0 < cutoff,
    ensures
        kept(entries.skip(1), cutoff) == kept(entries, cutoff),
{
    let first = entries.take(1);
    assert(entries =~= first + entries.skip(1));
    Seq::filter_distributes_over_add(
        first,
        entries.skip(1),
        |entry: (u64, u64)| entry.0 >= cutoff,
    );
    assert(Seq::<(u64, u64)>::empty().push(entries[0]) =~= first);
    keeping_one_more(Seq::empty(), entries[0], cutoff);
    keeping_all(Seq::empty(), cutoff);
    assert(kept(first, cutoff) =~= Seq::empty());
    assert(kept(first, cutoff) + kept(entries.skip(1), cutoff) =~= kept(entries.skip(1), cutoff));
}

/// Events that are all not older than `cutoff` are all kept.
proof fn keeping_all(entries: Seq<(u64, u64)>, cutoff: int)
    requires
        forall|i: int| 0 <= i < entries.len() ==> (#[trigger] entries[i]).0 >= cutoff,
    ensures
        kept(entries, cutoff) == entries,
    decreases entries.len(),
{
    reveal(Seq::filter);
    if entries.len() > 0 {
        keeping_all(entries.drop_last(), cutoff);
        assert(entries.drop_last().push(entries.last()) =~= entries);
    }
}

/// What is kept is not older than `cutoff`, and comes from the events.
proof fn kept_is_current(entries: Seq<(u64, u64)>, cutoff: int)
    ensures
        kept(entries, cutoff).len() <= entries.len(),
        forall|i: int|
            0 <= i < kept(entries, cutoff).len() ==> (#[trigger] kept(entries, cutoff)[i]).0
                >= cutoff && entries.contains(kept(entries, cutoff)[i]),
    decreases entries.len(),
{
    if entries.len() > 0 {
        let shorter = entries.drop_last();
        kept_is_current(shorter, cutoff);
        keeping_one_more(shorter, entries.last(), cutoff);
        assert(shorter.push(entries.last()) =~= entries);
        assert forall|i: int| 0 <= i < kept(entries, cutoff).len() implies (#[trigger] kept(
            entries,
            cutoff,
        )[i]).0 >= cutoff && entries.contains(kept(entries, cutoff)[i]) by {
            if i < kept(shorter, cutoff).len() {
                let j = choose|j: int|
                    0 <= j < shorter.len() && shorter[j] == kept(shorter, cutoff)[i];
                assert(entries[j] == kept(entries, cutoff)[i]);
            } else {
                assert(entries[entries.len() - 1] == kept(entries, cutoff)[i]);
            }
        }
    } else {
        keeping_all(entries, cutoff);
    }
}

impl WindowView {
    /// The time before which events have left a window whose latest event is at
    /// `newest`.
    pub open spec fn cutoff(self, newest: u64) -> int {
        if newest >= self.window_us {
            newest - self.window_us
        } else {
            0
        }
    }

    /// How often a template occurs in the window.
    pub open spec fn count(self, template_id: u64) -> nat {
        templates_of(self.entries).to_multiset().count(template_id)
    }

    /// The templates that occur in the window.
    pub open spec fn distinct(self) -> Set<u64> {
        templates_of(self.entries).to_set()
    }

    /// What holds of every window.
    pub open spec fn valid(self) -> bool {
        &&& self.max_entries >= 1
        &&& self.entries.len() <= self.max_entries
    }

    /// Whether the counters have room for another event.
    pub open spec fn can_count(self) -> bool {
        self.dropped_by_capacity < u64::MAX && self.dropped_late < u64::MAX
    }

    /// The window after an event. One that is older than the window is only
    /// counted. Otherwise it is added at the end, all that is older than the window
    /// leaves, and what is then too much leaves at the front.
    pub open spec fn pushed(self, timestamp_us: u64, template_id: u64) -> WindowView {
        let newest_us = larger(self.newest_us, timestamp_us);
        let cutoff = self.cutoff(newest_us);
        if timestamp_us < cutoff {
            WindowView { newest_us, dropped_late: (self.dropped_late + 1) as u64, ..self }
        } else {
            let added = self.entries.push((timestamp_us, template_id));
            let current = kept(added, cutoff);
            let excess = if current.len() > self.max_entries {
                current.len() - self.max_entries
            } else {
                0
            };
            WindowView {
                entries: current.skip(excess),
                newest_us,
                dropped_by_capacity: (self.dropped_by_capacity + excess) as u64,
                ..self
            }
        }
    }
}

/// A window that has seen no event.
pub open spec fn opened(window_seconds: u64, max_entries: nat) -> WindowView {
    WindowView {
        entries: Seq::empty(),
        window_us: if window_seconds * 1_000_000 <= u64::MAX {
            (window_seconds * 1_000_000) as u64
        } else {
            u64::MAX
        },
        max_entries: if max_entries >= 1 {
            max_entries
        } else {
            1
        },
        newest_us: 0,
        dropped_by_capacity: 0,
        dropped_late: 0,
    }
}

/// The window.
pub struct SlidingWindow {
    entries: VecDeque<WindowEntry>,
    counts: HashMap<u64, u64>,
    window_us: u64,
    max_entries: usize,
    newest_us: u64,
    /// No event that came after a later one is older than this.
    straggler_us: u64,
    dropped_by_capacity: u64,
    dropped_late: u64,
}

/// What a window holds; its counts of templates and its bound for events out of order
/// follow from the events.
impl View for SlidingWindow {
    type V = WindowView;

    closed spec fn view(&self) -> WindowView {
        WindowView {
            entries: pairs(self.entries@),
            window_us: self.window_us,
            max_entries: self.max_entries as nat,
            newest_us: self.newest_us,
            dropped_by_capacity: self.dropped_by_capacity,
            dropped_late: self.dropped_late,
        }
    }
}

spec fn pairs(entries: Seq<WindowEntry>) -> Seq<(u64, u64)> {
    Seq::new(entries.len(), |i: int| (entries[i].timestamp_us, entries[i].template_id))
}

/// Whether a map counts the templates of the events, and holds no others.
spec fn tallies(counts: Map<u64, u64>, entries: Seq<(u64, u64)>) -> bool {
    forall|id: u64|
        {
            let times = templates_of(entries).to_multiset().count(id);
            &&& #[trigger] counts.contains_key(id) <==> times > 0
            &&& counts.contains_key(id) ==> counts[id] == times
        }
}

/// An event at the end raises the count of its template.
proof fn counting_a_push(entries: Seq<(u64, u64)>, entry: (u64, u64))
    ensures
        templates_of(entries.push(entry)).to_multiset() == templates_of(entries).to_multiset().insert(
            entry.1,
        ),
        templates_of(entries.push(entry)).to_multiset().count(entry.1) <= entries.len() + 1,
{
    assert(templates_of(entries.push(entry)) =~= templates_of(entries).push(entry.1));
    vstd::seq_lib::to_multiset_build(templates_of(entries), entry.1);
    vstd::seq_lib::to_multiset_len(templates_of(entries.push(entry)));
    let all = templates_of(entries.push(entry)).to_multiset();
    count_is_bounded(all, entry.1);
}

proof fn count_is_bounded(all: Multiset<u64>, id: u64)
    ensures
        all.count(id) <= all.len(),
    decreases all.count(id),
{
    broadcast use vstd::multiset::group_multiset_axioms;

    if all.count(id) > 0 {
        count_is_bounded(all.remove(id), id);
    }
}

/// An event that leaves at the front lowers the count of its template.
proof fn counting_a_pop(entries: Seq<(u64, u64)>)
    requires
        entries.len() > 0,
    ensures
        templates_of(entries.skip(1)).to_multiset() == templates_of(entries).to_multiset().remove(
            entries[0].1,
        ),
        templates_of(entries).to_multiset().count(entries[0].1) > 0,
{
    assert(templates_of(entries.skip(1)) =~= templates_of(entries).remove(0));
    vstd::seq_lib::to_multiset_remove(templates_of(entries), 0);
    vstd::seq_lib::to_multiset_contains(templates_of(entries), entries[0].1);
    assert(templates_of(entries)[0] == entries[0].1);
}

impl SlidingWindow {
    /// Whether the window is in a proper state.
    pub closed spec fn wf(&self) -> bool {
        &&& self@.valid()
        &&& tallies(self.counts@, self@.entries)
        &&& self.bounds_times()
    }

    /// Whether no event is later than the latest time, and every event that came
    /// after a later one is at or after the bound for such events.
    spec fn bounds_times(&self) -> bool {
        &&& stragglers_reach(self@.entries, self.straggler_us)
        &&& forall|i: int|
            0 <= i < self@.entries.len() ==> (#[trigger] self@.entries[i]).0 <= self.newest_us
    }

    /// Creates an empty window of the given length. It holds at least one event.
    pub fn new(window_seconds: u64, max_entries: usize) -> (window: SlidingWindow)
        ensures
            window.wf(),
            window@ == opened(window_seconds, max_entries as nat),
    {
        broadcast use vstd::multiset::group_multiset_axioms;

        let window = SlidingWindow {
            entries: VecDeque::new(),
            counts: HashMap::new(),
            window_us: saturating_micros(window_seconds),
            max_entries: if max_entries >= 1 {
                max_entries
            } else {
                1
            },
            newest_us: 0,
            straggler_us: u64::MAX,
            dropped_by_capacity: 0,
            dropped_late: 0,
        };
        proof {
            assert(pairs(window.entries@) =~= Seq::empty());
            assert(templates_of(window@.entries) =~= Seq::empty());
            vstd::seq_lib::to_multiset_len(templates_of(window@.entries));
        }
        window
    }

    /// Takes an event, and drops what has left the window or is too much.
    pub fn push(&mut self, timestamp_us: u64, template_id: TemplateId)
        requires
            old(self).wf(),
            old(self)@.can_count(),
        ensures
            final(self).wf(),
            final(self)@ == old(self)@.pushed(timestamp_us, template_id.0),
    {
        let ghost before = self@;
        let ghost added = before.entries.push((timestamp_us, template_id.0));
        let in_order: bool = timestamp_us >= self.newest_us;
        if in_order {
            self.newest_us = timestamp_us;
        }
        let cutoff: u64 = self.newest_us.saturating_sub(self.window_us);
        if timestamp_us < cutoff {
            self.dropped_late = self.dropped_late + 1;
            return;
        }
        if !in_order && timestamp_us < self.straggler_us {
            self.straggler_us = timestamp_us;
        }
        self.entries.push_back(WindowEntry { timestamp_us, template_id: template_id.0 });
        proof {
            assert(pairs(self.entries@) =~= added);
            counting_a_push(before.entries, (timestamp_us, template_id.0));
            assert(self.entries.len() == added.len());
            assert(self.bounds_times());
        }
        self.increment_count(Ghost(before.entries), template_id.0);
        self.evict_expired(cutoff);
        proof {
            kept_is_current(added, cutoff as int);
        }
        self.evict_over_capacity();
    }

    /// Raises the count of a template whose event has just been added.
    fn increment_count(&mut self, Ghost(earlier): Ghost<Seq<(u64, u64)>>, template_id: u64)
        requires
            tallies(old(self).counts@, earlier),
            templates_of(old(self)@.entries).to_multiset() == templates_of(
                earlier,
            ).to_multiset().insert(template_id),
            templates_of(old(self)@.entries).to_multiset().count(template_id) <= u64::MAX,
        ensures
            tallies(final(self).counts@, final(self)@.entries),
            final(self)@ == old(self)@,
            final(self).straggler_us == old(self).straggler_us,
    {
        broadcast use {
            vstd::multiset::group_multiset_axioms,
            vstd::std_specs::hash::group_hash_axioms,
        };

        let count: u64 = match self.counts.get(&template_id) {
            Some(count) => *count,
            None => 0,
        };
        self.counts.insert(template_id, count + 1);
    }

    /// Lowers the count of a template whose event has just left at the front.
    fn decrement_count(&mut self, Ghost(earlier): Ghost<Seq<(u64, u64)>>, template_id: u64)
        requires
            tallies(old(self).counts@, earlier),
            templates_of(old(self)@.entries).to_multiset() == templates_of(
                earlier,
            ).to_multiset().remove(template_id),
            templates_of(earlier).to_multiset().count(template_id) > 0,
        ensures
            tallies(final(self).counts@, final(self)@.entries),
            final(self)@ == old(self)@,
            final(self).straggler_us == old(self).straggler_us,
    {
        broadcast use {
            vstd::multiset::group_multiset_axioms,
            vstd::std_specs::hash::group_hash_axioms,
        };

        let count: u64 = match self.counts.get(&template_id) {
            Some(count) => *count,
            None => 0,
        };
        proof {
            assert(self.counts@.contains_key(template_id));
        }
        if count > 1 {
            self.counts.insert(template_id, count - 1);
        } else {
            self.counts.remove(&template_id);
        }
    }

    /// Drops the events that are older than the window. They stand at the front, or
    /// came after a later one.
    fn evict_expired(&mut self, cutoff: u64)
        requires
            tallies(old(self).counts@, old(self)@.entries),
            old(self).bounds_times(),
        ensures
            tallies(final(self).counts@, final(self)@.entries),
            final(self).bounds_times(),
            final(self)@ == (WindowView {
                entries: kept(old(self)@.entries, cutoff as int),
                ..old(self)@
            }),
    {
        let ghost all = self@.entries;
        while self.entries.len() > 0 && self.entries[0].timestamp_us < cutoff
            invariant
                tallies(self.counts@, self@.entries),
                self.bounds_times(),
                all == old(self)@.entries,
                self@ == (WindowView { entries: self@.entries, ..old(self)@ }),
                kept(self@.entries, cutoff as int) == kept(all, cutoff as int),
            decreases self.entries.len(),
        {
            let ghost earlier = self@.entries;
            proof {
                counting_a_pop(earlier);
                keeping_without_the_first(earlier, cutoff as int);
            }
            let removed: u64 = self.entries[0].template_id;
            let _ = self.entries.pop_front();
            proof {
                assert(pairs(self.entries@) =~= earlier.skip(1));
            }
            self.decrement_count(Ghost(earlier), removed);
        }
        if self.straggler_us < cutoff {
            self.sweep(cutoff);
        } else {
            proof {
                let entries = self@.entries;
                assert forall|i: int| 0 <= i < entries.len() implies (#[trigger] entries[i]).0
                    >= cutoff by {
                    assert(entries[0].0 >= cutoff);
                    if entries[i].0 < cutoff {
                        assert(entries[0].0 <= entries[i].0);
                    }
                }
                keeping_all(entries, cutoff as int);
            }
        }
    }

    /// Drops the events that are older than the window, wherever they stand.
    fn sweep(&mut self, cutoff: u64)
        requires
            tallies(old(self).counts@, old(self)@.entries),
            old(self).bounds_times(),
        ensures
            tallies(final(self).counts@, final(self)@.entries),
            final(self).bounds_times(),
            final(self)@ == (WindowView {
                entries: kept(old(self)@.entries, cutoff as int),
                ..old(self)@
            }),
    {
        let ghost all = self@.entries;
        let count: usize = self.entries.len();
        let mut latest: u64 = 0;
        let mut straggler: u64 = u64::MAX;
        let mut i: usize = 0;
        proof {
            keeping_all(all.take(0), cutoff as int);
            assert(kept(all.take(0), cutoff as int).len() == 0);
            assert(all.skip(0) + kept(all.take(0), cutoff as int) =~= all);
        }
        while i < count
            invariant
                i <= count,
                count == all.len(),
                tallies(self.counts@, self@.entries),
                all == old(self)@.entries,
                self@ == (WindowView {
                    entries: all.skip(i as int) + kept(all.take(i as int), cutoff as int),
                    ..old(self)@
                }),
                stragglers_reach(kept(all.take(i as int), cutoff as int), straggler),
                forall|j: int|
                    0 <= j < kept(all.take(i as int), cutoff as int).len() ==> (#[trigger] kept(
                        all.take(i as int),
                        cutoff as int,
                    )[j]).0 <= latest,
            decreases count - i,
        {
            let ghost earlier = self@.entries;
            let ghost done = kept(all.take(i as int), cutoff as int);
            let ghost reached = latest;
            proof {
                assert(earlier[0] == all[i as int]);
                counting_a_pop(earlier);
                keeping_one_more(all.take(i as int), all[i as int], cutoff as int);
                assert(all.take(i as int).push(all[i as int]) =~= all.take(i + 1));
                assert(earlier.skip(1) =~= all.skip(i + 1) + done);
            }
            let first: WindowEntry = self.entries[0];
            let _ = self.entries.pop_front();
            if first.timestamp_us < cutoff {
                proof {
                    assert(pairs(self.entries@) =~= earlier.skip(1));
                }
                self.decrement_count(Ghost(earlier), first.template_id);
            } else {
                if first.timestamp_us >= latest {
                    latest = first.timestamp_us;
                } else if first.timestamp_us < straggler {
                    straggler = first.timestamp_us;
                }
                self.entries.push_back(first);
                proof {
                    broadcast use vstd::multiset::group_multiset_axioms;

                    counting_a_push(earlier.skip(1), earlier[0]);
                    assert(pairs(self.entries@) =~= earlier.skip(1).push(earlier[0]));
                    assert(templates_of(earlier.skip(1).push(earlier[0])).to_multiset()
                        =~= templates_of(earlier).to_multiset());
                    assert(earlier.skip(1).push(earlier[0]) =~= all.skip(i + 1) + done.push(
                        all[i as int],
                    ));
                    let longer = kept(all.take(i + 1), cutoff as int);
                    assert forall|a: int, b: int|
                        0 <= a < b < longer.len() && (#[trigger] longer[b]).0
                            < straggler implies (#[trigger] longer[a]).0 <= longer[b].0 by {
                        assert(longer[a] == done[a]);
                        assert(done[a].0 <= reached);
                        if b < done.len() {
                            assert(longer[b] == done[b]);
                        }
                    }
                }
            }
            i = i + 1;
        }
        self.straggler_us = straggler;
        proof {
            assert(all.take(all.len() as int) =~= all);
            assert(all.skip(all.len() as int) + kept(all, cutoff as int) =~= kept(
                all,
                cutoff as int,
            ));
            kept_is_current(all, cutoff as int);
        }
    }

    /// Drops events at the front until there are not too many.
    fn evict_over_capacity(&mut self)
        requires
            tallies(old(self).counts@, old(self)@.entries),
            old(self).bounds_times(),
            old(self)@.max_entries >= 1,
            old(self)@.entries.len() > old(self)@.max_entries ==> old(self)@.dropped_by_capacity
                + old(self)@.entries.len() - old(self)@.max_entries <= u64::MAX,
        ensures
            tallies(final(self).counts@, final(self)@.entries),
            final(self).bounds_times(),
            ({
                let excess = if old(self)@.entries.len() > old(self)@.max_entries {
                    old(self)@.entries.len() - old(self)@.max_entries
                } else {
                    0
                };
                final(self)@ == (WindowView {
                    entries: old(self)@.entries.skip(excess),
                    dropped_by_capacity: (old(self)@.dropped_by_capacity + excess) as u64,
                    ..old(self)@
                })
            }),
    {
        let ghost all = self@.entries;
        let ghost mut gone: nat = 0;
        proof {
            assert(all.skip(0) =~= all);
        }
        while self.entries.len() > self.max_entries
            invariant
                tallies(self.counts@, self@.entries),
                self.bounds_times(),
                all == old(self)@.entries,
                self@ == (WindowView {
                    entries: all.skip(gone as int),
                    dropped_by_capacity: (old(self)@.dropped_by_capacity + gone) as u64,
                    ..old(self)@
                }),
                gone <= all.len(),
                gone > 0 ==> gone <= all.len() - old(self)@.max_entries,
                all.len() > old(self)@.max_entries ==> old(self)@.dropped_by_capacity + all.len()
                    - old(self)@.max_entries <= u64::MAX,
            decreases self.entries.len(),
        {
            let ghost earlier = self@.entries;
            proof {
                counting_a_pop(earlier);
                assert(earlier.skip(1) =~= all.skip(gone as int + 1));
            }
            let removed: u64 = self.entries[0].template_id;
            let _ = self.entries.pop_front();
            proof {
                assert(pairs(self.entries@) =~= earlier.skip(1));
            }
            self.decrement_count(Ghost(earlier), removed);
            self.dropped_by_capacity = self.dropped_by_capacity + 1;
            proof {
                gone = gone + 1;
            }
        }
        proof {
            assert(self@.entries.len() == all.len() - gone);
            assert(self@.entries.len() <= self.max_entries);
        }
    }

    /// How many events the window holds.
    pub fn len(&self) -> (len: usize)
        ensures
            len == self@.entries.len(),
    {
        self.entries.len()
    }

    /// Whether the window holds no event.
    pub fn is_empty(&self) -> (empty: bool)
        ensures
            empty == (self@.entries.len() == 0),
    {
        self.entries.len() == 0
    }

    /// How many templates occur in the window.
    pub fn distinct_templates(&self) -> (count: usize)
        requires
            self.wf(),
        ensures
            count == self@.distinct().len(),
    {
        broadcast use vstd::std_specs::hash::group_hash_axioms;

        proof {
            let ids = templates_of(self@.entries);
            assert forall|id: u64| #[trigger]
                self.counts@.dom().contains(id) <==> ids.to_set().contains(id) by {
                vstd::seq_lib::to_multiset_contains(ids, id);
            }
            assert(self.counts@.dom() =~= self@.distinct());
        }
        self.counts.len()
    }

    /// How often a template occurs in the window.
    pub fn count_of(&self, template_id: TemplateId) -> (count: u64)
        requires
            self.wf(),
        ensures
            count == self@.count(template_id.0),
    {
        broadcast use vstd::std_specs::hash::group_hash_axioms;

        match self.counts.get(&template_id.0) {
            Some(count) => *count,
            None => 0,
        }
    }

    /// How often each template occurs in the window, in no particular order.
    pub fn template_counts(&self) -> (counts: Vec<u64>)
        requires
            self.wf(),
        ensures
            exists|ids: Seq<u64>| #[trigger] lists_counts(self@, ids, counts@),
    {
        broadcast use vstd::std_specs::hash::group_hash_axioms;

        let mut counts: Vec<u64> = Vec::new();
        let ghost mut ids: Seq<u64> = Seq::empty();
        for (id, count) in it: self.counts.iter()
            invariant
                self.wf(),
                it.seq().no_duplicates(),
                forall|k: u64| #[trigger]
                    self.counts@.contains_key(k) ==> it.seq().contains((&k, &self.counts@[k])),
                forall|i: int|
                    0 <= i < it.seq().len() ==> self.counts@.contains_key(
                        *(#[trigger] it.seq()[i]).0,
                    ) && self.counts@[*it.seq()[i].0] == *it.seq()[i].1,
                ids.len() == it.index(),
                ids.no_duplicates(),
                counts@.len() == it.index(),
                forall|i: int|
                    0 <= i < it.index() ==> ids[i] == *(#[trigger] it.seq()[i]).0 && counts@[i]
                        == *it.seq()[i].1,
                forall|i: int|
                    0 <= i < ids.len() ==> self.counts@.contains_key(#[trigger] ids[i])
                        && self.counts@[ids[i]] == counts@[i],
        {
            counts.push(*count);
            proof {
                let k = it.index();
                assert(it.seq()[k] == (id, count));
                assert forall|i: int| 0 <= i < ids.len() implies ids[i] != *id by {
                    assert(it.seq()[i] != it.seq()[k]);
                }
                ids = ids.push(*id);
            }
        }
        proof {
            let seen = templates_of(self@.entries);
            assert forall|id: u64| #[trigger] ids.to_set().contains(id) <==> self@.distinct().contains(
                id,
            ) by {
                vstd::seq_lib::to_multiset_contains(seen, id);
                if self.counts@.contains_key(id) {
                    assert(ids.contains(id));
                }
            }
            assert(ids.to_set() =~= self@.distinct());
            assert(lists_counts(self@, ids, counts@));
        }
        counts
    }

    /// How many events left because there were too many.
    pub fn dropped_by_capacity(&self) -> (count: u64)
        ensures
            count == self@.dropped_by_capacity,
    {
        self.dropped_by_capacity
    }

    /// How many events came too late.
    pub fn dropped_late(&self) -> (count: u64)
        ensures
            count == self@.dropped_late,
    {
        self.dropped_late
    }
}

/// Whether `counts` says how often each template of the window occurs, where
/// `ids` lists the templates.
pub open spec fn lists_counts(window: WindowView, ids: Seq<u64>, counts: Seq<u64>) -> bool {
    &&& ids.no_duplicates()
    &&& ids.to_set() == window.distinct()
    &&& counts.len() == ids.len()
    &&& forall|i: int| 0 <= i < ids.len() ==> #[trigger] counts[i] == window.count(ids[i])
}

/// A push keeps the window within its bounds: it does not hold more events than
/// it may, an event that was not dropped as late is the last of those held, and
/// then none of them is older than the window, whatever the order they came in.
pub proof fn push_keeps_the_bounds(window: WindowView, timestamp_us: u64, template_id: u64)
    requires
        window.valid(),
    ensures
        ({
            let after = window.pushed(timestamp_us, template_id);
            let cutoff = window.cutoff(after.newest_us);
            &&& after.valid()
            &&& after.newest_us >= window.newest_us
            &&& after.newest_us >= timestamp_us
            &&& timestamp_us >= cutoff ==> {
                &&& after.entries.len() > 0
                &&& after.entries.last() == (timestamp_us, template_id)
                &&& forall|i: int|
                    0 <= i < after.entries.len() ==> (#[trigger] after.entries[i]).0 >= cutoff
            }
            &&& timestamp_us < cutoff ==> after.entries == window.entries
        }),
{
    let after = window.pushed(timestamp_us, template_id);
    let cutoff = window.cutoff(after.newest_us);
    let added = window.entries.push((timestamp_us, template_id));
    kept_is_current(added, cutoff);
    keeping_one_more(window.entries, (timestamp_us, template_id), cutoff);
}

impl WindowView {
    /// The window after a number of events, one after the other.
    pub open spec fn pushed_all(self, events: Seq<(u64, u64)>) -> WindowView
        decreases events.len(),
    {
        if events.len() == 0 {
            self
        } else {
            self.pushed_all(events.drop_last()).pushed(events.last().0, events.last().1)
        }
    }
}

/// Whether the events are in the order of their times.
pub open spec fn in_time_order(events: Seq<(u64, u64)>) -> bool {
    forall|i: int, j: int|
        0 <= i <= j < events.len() ==> (#[trigger] events[i]).0 <= (#[trigger] events[j]).0
}

/// The smaller of two numbers.
pub open spec fn smaller(a: nat, b: nat) -> nat {
    if a <= b {
        a
    } else {
        b
    }
}

/// A window that has taken events in the order of their times holds the last of
/// them: those that are not older than the window, as many as it may hold. None
/// of them came too late. An event exactly as old as the window is long is still
/// in it.
pub proof fn the_latest_events_are_held(
    window_seconds: u64,
    max_entries: nat,
    events: Seq<(u64, u64)>,
)
    requires
        events.len() > 0,
        in_time_order(events),
    ensures
        ({
            let fresh = opened(window_seconds, max_entries);
            let after = fresh.pushed_all(events);
            let current = kept(events, fresh.cutoff(events.last().0));
            let held = smaller(current.len(), fresh.max_entries);
            &&& held <= events.len()
            &&& after.entries == events.skip(events.len() - held)
            &&& forall|id: u64| #[trigger]
                after.count(id) == templates_of(
                    events.skip(events.len() - held),
                ).to_multiset().count(id)
            &&& after.newest_us == events.last().0
            &&& after.dropped_late == 0
        }),
    decreases events.len(),
{
    let fresh = opened(window_seconds, max_entries);
    let earlier = events.drop_last();
    let before = fresh.pushed_all(earlier);
    let cutoff = fresh.cutoff(events.last().0);
    history_keeps_the_bounds(window_seconds, max_entries, earlier);
    kept_is_current(events, cutoff);
    if earlier.len() == 0 {
        keeping_one_more(earlier, events.last(), cutoff);
        assert(earlier.push(events.last()) =~= events);
        kept_is_current(earlier, cutoff);
        assert(before.entries.push(events.last()) =~= events);
        assert(fresh.pushed_all(events).entries =~= events);
        assert(events.skip(0) =~= events);
    } else {
        assert(in_time_order(earlier)) by {
            assert forall|i: int, j: int| 0 <= i <= j < earlier.len() implies (
            #[trigger] earlier[i]).0 <= (#[trigger] earlier[j]).0 by {
                assert(events[i].0 <= events[j].0);
            }
        }
        the_latest_events_are_held(window_seconds, max_entries, earlier);
        one_more_is_held(before, events);
    }
}

/// If a window holds the latest events, it holds them also after one more.
proof fn one_more_is_held(before: WindowView, events: Seq<(u64, u64)>)
    requires
        in_time_order(events),
        events.len() >= 2,
        before.max_entries >= 1,
        before.newest_us == events.drop_last().last().0,
        ({
            let earlier = events.drop_last();
            let held = smaller(
                kept(earlier, before.cutoff(earlier.last().0)).len(),
                before.max_entries,
            );
            held <= earlier.len() && before.entries == earlier.skip(earlier.len() - held)
        }),
    ensures
        ({
            let after = before.pushed(events.last().0, events.last().1);
            let held = smaller(
                kept(events, before.cutoff(events.last().0)).len(),
                before.max_entries,
            );
            &&& held <= events.len()
            &&& after.entries == events.skip(events.len() - held)
            &&& after.newest_us == events.last().0
            &&& after.dropped_late == before.dropped_late
        }),
{
    let earlier = events.drop_last();
    let last = events.last();
    let cutoff = before.cutoff(last.0);
    let old_cutoff = before.cutoff(earlier.last().0);
    let old_held = smaller(kept(earlier, old_cutoff).len(), before.max_entries);
    let held = smaller(kept(events, cutoff).len(), before.max_entries);
    let added = before.entries.push(last);
    let start = events.len() - old_held - 1;
    assert(earlier.push(last) =~= events);
    assert(earlier.last() == events[events.len() - 2]);
    assert(cutoff >= old_cutoff);
    keeping_one_more(earlier, last, cutoff);
    fewer_are_kept_later(earlier, old_cutoff, cutoff);
    kept_is_current(events, cutoff);
    assert(added =~= events.skip(start));
    keeping_a_tail(events, cutoff, start);
    let current = kept(added, cutoff);
    assert(current.len() == smaller(kept(events, cutoff).len(), old_held + 1));
    let after = before.pushed(last.0, last.1);
    assert(after.entries =~= events.skip(events.len() - held));
}

/// The later the time, the fewer events are kept.
proof fn fewer_are_kept_later(entries: Seq<(u64, u64)>, cutoff: int, later: int)
    requires
        cutoff <= later,
    ensures
        kept(entries, later).len() <= kept(entries, cutoff).len(),
    decreases entries.len(),
{
    if entries.len() > 0 {
        let shorter = entries.drop_last();
        assert(shorter.push(entries.last()) =~= entries);
        fewer_are_kept_later(shorter, cutoff, later);
        keeping_one_more(shorter, entries.last(), cutoff);
        keeping_one_more(shorter, entries.last(), later);
    } else {
        kept_is_current(entries, later);
    }
}

/// Of events in the order of their times those that are kept are the last, and
/// the others are older than `cutoff`.
proof fn current_events_are_last(events: Seq<(u64, u64)>, cutoff: int)
    requires
        in_time_order(events),
    ensures
        kept(events, cutoff).len() <= events.len(),
        kept(events, cutoff) == events.skip(events.len() - kept(events, cutoff).len()),
        forall|i: int|
            0 <= i < events.len() - kept(events, cutoff).len() ==> (#[trigger] events[i]).0
                < cutoff,
    decreases events.len(),
{
    kept_is_current(events, cutoff);
    if events.len() > 0 {
        let earlier = events.drop_last();
        let last = events.last();
        assert(earlier.push(last) =~= events);
        assert(in_time_order(earlier)) by {
            assert forall|i: int, j: int| 0 <= i <= j < earlier.len() implies (
            #[trigger] earlier[i]).0 <= (#[trigger] earlier[j]).0 by {
                assert(events[i].0 <= events[j].0);
            }
        }
        current_events_are_last(earlier, cutoff);
        keeping_one_more(earlier, last, cutoff);
        let n = kept(earlier, cutoff).len();
        if last.0 < cutoff {
            if n > 0 {
                assert(kept(earlier, cutoff)[0].0 >= cutoff) by {
                    kept_is_current(earlier, cutoff);
                }
                assert(earlier[earlier.len() - n] == kept(earlier, cutoff)[0]);
                assert(events[events.len() - 1 - n].0 <= events[events.len() - 1].0);
            }
            assert(kept(events, cutoff) =~= events.skip(events.len() as int));
        } else {
            assert(kept(events, cutoff) =~= events.skip(events.len() - n - 1));
        }
    }
}

/// Of the last of some events in the order of their times as many are kept as
/// there are, or as are kept of all of them.
proof fn keeping_a_tail(events: Seq<(u64, u64)>, cutoff: int, start: int)
    requires
        in_time_order(events),
        0 <= start <= events.len(),
    ensures
        kept(events.skip(start), cutoff) == events.skip(
            events.len() - smaller(
                kept(events, cutoff).len(),
                (events.len() - start) as nat,
            ),
        ),
{
    let tail = events.skip(start);
    let n = kept(events, cutoff).len();
    current_events_are_last(events, cutoff);
    assert(in_time_order(tail)) by {
        assert forall|i: int, j: int| 0 <= i <= j < tail.len() implies (#[trigger] tail[i]).0
            <= (#[trigger] tail[j]).0 by {
            assert(events[start + i].0 <= events[start + j].0);
        }
    }
    current_events_are_last(tail, cutoff);
    kept_is_current(events, cutoff);
    let m = kept(tail, cutoff).len();
    if m < tail.len() && m < n {
        let i = tail.len() - m - 1;
        assert(tail[i].0 < cutoff);
        assert(events[start + i].0 < cutoff);
        let first = events.len() - n;
        assert(kept(events, cutoff)[start + i - first] == events[start + i]);
    }
    if m > n {
        kept_is_current(tail, cutoff);
        let i = events.len() - m;
        assert(kept(tail, cutoff)[0] == events[i]);
        assert(events[i].0 < cutoff);
    }
    assert(kept(tail, cutoff) =~= events.skip(events.len() - m));
}

/// Whatever events a window has taken, in whatever order, it holds no more than it
/// may, and it holds one as soon as there was one: the first is never late, and a
/// push does not drop the event that it takes.
pub proof fn history_keeps_the_bounds(
    window_seconds: u64,
    max_entries: nat,
    events: Seq<(u64, u64)>,
)
    ensures
        ({
            let fresh = opened(window_seconds, max_entries);
            let after = fresh.pushed_all(events);
            &&& after.valid()
            &&& after.window_us == fresh.window_us
            &&& after.max_entries == fresh.max_entries
            &&& after.entries.len() == 0 <==> events.len() == 0
        }),
    decreases events.len(),
{
    if events.len() > 0 {
        let fresh = opened(window_seconds, max_entries);
        let earlier = events.drop_last();
        history_keeps_the_bounds(window_seconds, max_entries, earlier);
        push_keeps_the_bounds(fresh.pushed_all(earlier), events.last().0, events.last().1);
    }
}

/// The sum of how often each of some templates occurs among the events.
pub open spec fn sum_of_counts(ids: Seq<u64>, entries: Seq<(u64, u64)>) -> nat
    decreases ids.len(),
{
    if ids.len() == 0 {
        0
    } else {
        sum_of_counts(ids.drop_last(), entries) + templates_of(entries).to_multiset().count(
            ids.last(),
        )
    }
}

/// The counts of a window add up to the number of its events, in whatever order
/// its templates are listed, and a template is among them exactly if it occurs.
pub proof fn counts_add_up(window: WindowView, ids: Seq<u64>)
    requires
        ids.no_duplicates(),
        ids.to_set() == window.distinct(),
    ensures
        sum_of_counts(ids, window.entries) == window.entries.len(),
        ids.len() == window.distinct().len(),
        forall|id: u64| #[trigger] window.distinct().contains(id) <==> window.count(id) > 0,
{
    let templates = templates_of(window.entries);
    assert forall|id: u64| #[trigger] window.distinct().contains(id) <==> window.count(id) > 0 by {
        vstd::seq_lib::to_multiset_contains(templates, id);
    }
    assert forall|i: int| 0 <= i < window.entries.len() implies ids.contains(
        (#[trigger] window.entries[i]).1,
    ) by {
        assert(templates[i] == window.entries[i].1);
        assert(window.distinct().contains(window.entries[i].1));
        assert(ids.to_set().contains(window.entries[i].1));
    }
    ids.unique_seq_to_set();
    listed_counts_add_up(ids, window.entries);
}

proof fn listed_counts_add_up(ids: Seq<u64>, entries: Seq<(u64, u64)>)
    requires
        ids.no_duplicates(),
        forall|i: int| 0 <= i < entries.len() ==> ids.contains((#[trigger] entries[i]).1),
    ensures
        sum_of_counts(ids, entries) == entries.len(),
    decreases entries.len(),
{
    if entries.len() == 0 {
        sum_of_no_events(ids, entries);
    } else {
        let shorter = entries.drop_last();
        assert(shorter.push(entries.last()) =~= entries);
        assert forall|i: int| 0 <= i < shorter.len() implies ids.contains(
            (#[trigger] shorter[i]).1,
        ) by {
            assert(entries[i] == shorter[i]);
        }
        listed_counts_add_up(ids, shorter);
        sum_after_a_push(ids, shorter, entries.last());
        assert(ids.contains(entries[entries.len() - 1].1));
    }
}

proof fn sum_of_no_events(ids: Seq<u64>, entries: Seq<(u64, u64)>)
    requires
        entries.len() == 0,
    ensures
        sum_of_counts(ids, entries) == 0,
    decreases ids.len(),
{
    broadcast use vstd::multiset::group_multiset_axioms;

    if ids.len() > 0 {
        sum_of_no_events(ids.drop_last(), entries);
        vstd::seq_lib::to_multiset_len(templates_of(entries));
        count_is_bounded(templates_of(entries).to_multiset(), ids.last());
    }
}

proof fn sum_after_a_push(ids: Seq<u64>, entries: Seq<(u64, u64)>, entry: (u64, u64))
    requires
        ids.no_duplicates(),
    ensures
        sum_of_counts(ids, entries.push(entry)) == sum_of_counts(ids, entries) + if ids.contains(
            entry.1,
        ) {
            1nat
        } else {
            0nat
        },
    decreases ids.len(),
{
    broadcast use vstd::multiset::group_multiset_axioms;

    if ids.len() > 0 {
        let shorter = ids.drop_last();
        sum_after_a_push(shorter, entries, entry);
        counting_a_push(entries, entry);
        if ids.last() == entry.1 {
            assert(ids[ids.len() - 1] == entry.1);
            assert(!shorter.contains(entry.1));
        } else if ids.contains(entry.1) {
            let i = choose|i: int| 0 <= i < ids.len() && ids[i] == entry.1;
            assert(shorter[i] == entry.1);
        } else {
            assert forall|i: int| 0 <= i < shorter.len() implies shorter[i] != entry.1 by {
                assert(ids[i] == shorter[i]);
            }
        }
    }
}

/// A number of seconds in microseconds; what does not fit counts as the largest
/// number.
pub fn saturating_micros(seconds: u64) -> (micros: u64)
    ensures
        micros == if seconds * 1_000_000 <= u64::MAX {
            (seconds * 1_000_000) as u64
        } else {
            u64::MAX
        },
{
    match seconds.checked_mul(1_000_000) {
        Some(micros) => micros,
        None => u64::MAX,
    }
}

/// A window of so many seconds lasts them, and one for no events holds one.
pub proof fn a_window_lasts_its_seconds(window_seconds: u64, max_entries: nat)
    requires
        window_seconds * 1_000_000 <= u64::MAX,
    ensures
        opened(window_seconds, max_entries).window_us == window_seconds * 1_000_000,
        max_entries >= 1 ==> opened(window_seconds, max_entries).max_entries == max_entries,
        opened(window_seconds, 0).max_entries == 1,
        opened(window_seconds, max_entries).entries.len() == 0,
        opened(window_seconds, max_entries).dropped_late == 0,
        opened(window_seconds, max_entries).dropped_by_capacity == 0,
{
}

/// An event leaves a window exactly when one comes that is later by more than the window
/// lasts. While there is room, the event that comes is added, and of those held before
/// just those stay that are not older than that, wherever they stand. One that is itself
/// so much older than the latest is only counted.
pub proof fn events_leave_when_the_window_has_passed(
    window: WindowView,
    timestamp_us: u64,
    template_id: u64,
    held: (u64, u64),
)
    requires
        window.valid(),
        window.entries.len() < window.max_entries,
        window.can_count(),
    ensures
        ({
            let after = window.pushed(timestamp_us, template_id);
            &&& timestamp_us + window.window_us < window.newest_us ==> {
                &&& after.entries == window.entries
                &&& after.dropped_late == window.dropped_late + 1
                &&& after.newest_us == window.newest_us
            }
            &&& timestamp_us + window.window_us >= window.newest_us ==> {
                &&& after.entries.len() > 0
                &&& after.entries.last() == (timestamp_us, template_id)
                &&& after.dropped_late == window.dropped_late
                &&& after.dropped_by_capacity == window.dropped_by_capacity
                &&& after.entries.contains(held) <==> held == (timestamp_us, template_id)
                    || window.entries.contains(held) && held.0 + window.window_us >= timestamp_us
                    && held.0 + window.window_us >= window.newest_us
            }
            &&& after.newest_us >= timestamp_us && after.newest_us >= window.newest_us
            &&& after.newest_us == timestamp_us || after.newest_us == window.newest_us
            &&& after.window_us == window.window_us && after.max_entries == window.max_entries
        }),
{
    let after = window.pushed(timestamp_us, template_id);
    let cutoff = window.cutoff(larger(window.newest_us, timestamp_us));
    let added = window.entries.push((timestamp_us, template_id));
    kept_is_current(added, cutoff);
    keeping_one_more(window.entries, (timestamp_us, template_id), cutoff);
    if timestamp_us >= cutoff {
        assert(after.entries =~= kept(added, cutoff));
        if after.entries.contains(held) {
            let i = choose|i: int| 0 <= i < after.entries.len() && after.entries[i] == held;
            assert(kept(added, cutoff)[i] == held);
            assert(added.contains(held));
            let k = choose|k: int| 0 <= k < added.len() && added[k] == held;
            if k < window.entries.len() {
                assert(window.entries[k] == held);
            }
        }
        if held == (timestamp_us, template_id) {
            assert(after.entries[after.entries.len() - 1] == held);
        }
        if window.entries.contains(held) && held.0 >= cutoff {
            let k = choose|k: int| 0 <= k < window.entries.len() && window.entries[k] == held;
            assert(added[k] == held);
            current_is_kept(added, cutoff, k);
        }
    }
}

/// What is not older than `cutoff` is kept.
proof fn current_is_kept(entries: Seq<(u64, u64)>, cutoff: int, k: int)
    requires
        0 <= k < entries.len(),
        entries[k].0 >= cutoff,
    ensures
        kept(entries, cutoff).contains(entries[k]),
    decreases entries.len(),
{
    let shorter = entries.drop_last();
    assert(shorter.push(entries.last()) =~= entries);
    keeping_one_more(shorter, entries.last(), cutoff);
    let all = kept(entries, cutoff);
    if k < shorter.len() {
        current_is_kept(shorter, cutoff, k);
        assert(shorter[k] == entries[k]);
        let i = choose|i: int| 0 <= i < kept(shorter, cutoff).len() && kept(shorter, cutoff)[i]
            == entries[k];
        assert(all[i] == entries[k]);
    } else {
        assert(all[all.len() - 1] == entries[k]);
    }
}

/// A full window whose events are all current gives up its first one for the one that
/// comes, and counts that.
pub proof fn a_full_window_gives_up_its_first(
    window: WindowView,
    timestamp_us: u64,
    template_id: u64,
)
    requires
        window.max_entries >= 1,
        window.entries.len() == window.max_entries,
        window.can_count(),
        timestamp_us >= window.newest_us,
        forall|i: int|
            0 <= i < window.entries.len() ==> (#[trigger] window.entries[i]).0 + window.window_us
                >= timestamp_us,
    ensures
        ({
            let after = window.pushed(timestamp_us, template_id);
            &&& after.entries == window.entries.skip(1).push((timestamp_us, template_id))
            &&& after.dropped_by_capacity == window.dropped_by_capacity + 1
            &&& after.newest_us == timestamp_us
        }),
{
    let cutoff = window.cutoff(timestamp_us);
    let added = window.entries.push((timestamp_us, template_id));
    keeping_all(added, cutoff);
    assert(added.skip(1) =~= window.entries.skip(1).push((timestamp_us, template_id)));
}

/// A template occurs as often as it was pushed: one more event counts for its own template
/// and for no other, and a template occurs in a window exactly if it is counted there.
pub proof fn an_event_counts_for_its_template(
    window: WindowView,
    timestamp_us: u64,
    template_id: u64,
    other: u64,
)
    requires
        window.valid(),
        window.entries.len() < window.max_entries,
        timestamp_us >= window.newest_us,
        forall|i: int|
            0 <= i < window.entries.len() ==> (#[trigger] window.entries[i]).0 + window.window_us
                >= timestamp_us,
    ensures
        ({
            let after = window.pushed(timestamp_us, template_id);
            &&& after.entries.len() == window.entries.len() + 1
            &&& after.count(template_id) == window.count(template_id) + 1
            &&& other != template_id ==> after.count(other) == window.count(other)
            &&& after.distinct().contains(template_id)
            &&& window.distinct().contains(other) <==> window.count(other) > 0
            &&& window.entries.len() == 0 ==> window.count(other) == 0
        }),
{
    let cutoff = window.cutoff(timestamp_us);
    let entry = (timestamp_us, template_id);
    let added = window.entries.push(entry);
    keeping_all(added, cutoff);
    let after = window.pushed(timestamp_us, template_id);
    assert(after.entries =~= added);
    assert(templates_of(added) =~= templates_of(window.entries).push(template_id));
    vstd::seq_lib::to_multiset_build(templates_of(window.entries), template_id);
    broadcast use vstd::multiset::group_multiset_axioms;

    assert(templates_of(added)[window.entries.len() as int] == template_id);
    assert(templates_of(added).contains(template_id));
    vstd::seq_lib::to_multiset_contains(templates_of(window.entries), other);
    vstd::seq_lib::to_multiset_len(templates_of(window.entries));
}

/// What a window says of itself after an event: the event is counted, and the figures are
/// those of the events that are held.
pub proof fn a_window_tells_what_it_holds(
    window: &mut SlidingWindow,
    timestamp_us: u64,
    template_id: TemplateId,
    later: &SlidingWindow,
    len: usize,
    empty: bool,
    distinct: usize,
    count: u64,
    late: u64,
    dropped: u64,
)
    requires
        call_ensures(SlidingWindow::push, (window, timestamp_us, template_id), ()),
        later@ == final(window)@,
        call_ensures(SlidingWindow::len, (later,), len),
        call_ensures(SlidingWindow::is_empty, (later,), empty),
        call_ensures(SlidingWindow::distinct_templates, (later,), distinct),
        call_ensures(SlidingWindow::count_of, (later, template_id), count),
        call_ensures(SlidingWindow::dropped_late, (later,), late),
        call_ensures(SlidingWindow::dropped_by_capacity, (later,), dropped),
    ensures
        final(window)@ == old(window)@.pushed(timestamp_us, template_id.0),
        len == later@.entries.len(),
        empty <==> len == 0,
        distinct == later@.distinct().len(),
        count == later@.count(template_id.0),
        late == later@.dropped_late,
        dropped == later@.dropped_by_capacity,
{
}

/// A window that has just been made is empty and goes by its settings.
pub proof fn a_new_window_goes_by_its_settings(
    window_seconds: u64,
    max_entries: usize,
    window: SlidingWindow,
    len: usize,
)
    requires
        call_ensures(SlidingWindow::new, (window_seconds, max_entries), window),
        call_ensures(SlidingWindow::len, (&window,), len),
        window_seconds * 1_000_000 <= u64::MAX,
    ensures
        len == 0,
        window@.window_us == window_seconds * 1_000_000,
        max_entries >= 1 ==> window@.max_entries == max_entries,
        window@.dropped_late == 0 && window@.dropped_by_capacity == 0,
{
}

/// The counts of a window say of every template that occurs how often it does, each once,
/// and so they add up to the number of its events.
pub proof fn the_counts_of_a_window_add_up(window: &SlidingWindow, counts: Vec<u64>)
    requires
        call_ensures(SlidingWindow::template_counts, (window,), counts),
    ensures
        exists|ids: Seq<u64>| #[trigger]
            lists_counts(window@, ids, counts@) && sum_of_counts(ids, window@.entries)
                == window@.entries.len() && forall|i: int|
                0 <= i < ids.len() ==> #[trigger] counts@[i] >= 1,
{
    let ids = choose|ids: Seq<u64>| #[trigger] lists_counts(window@, ids, counts@);
    counts_add_up(window@, ids);
    assert forall|i: int| 0 <= i < ids.len() implies #[trigger] counts@[i] >= 1 by {
        assert(ids.contains(ids[i]));
        assert(ids.to_set().contains(ids[i]));
        assert(window@.distinct().contains(ids[i]));
        vstd::seq_lib::to_multiset_contains(templates_of(window@.entries), ids[i]);
    }
}

} // verus!
