//! The rate history of every template.
//!
//! Time is cut into buckets of equal length. When a bucket ends, the number of
//! events that each template had in it moves into its bounded history. Buckets
//! in which a template had none count as zeros, and so do the buckets before it
//! was first seen.

use std::collections::{HashMap, VecDeque};

use vstd::prelude::*;

use crate::stats;
use crate::stats::Spread;
use crate::store;
use crate::tables;
use crate::template::TemplateId;
use crate::window::saturating_micros;

verus! {

/// What is known of one template.
pub ghost struct RateView {
    /// Its events in the running bucket.
    pub current_count: u64,
    /// Its events in the buckets before, oldest first.
    pub history: Seq<u64>,
    /// The bucket of its last event.
    pub last_active_bucket: u64,
}

/// What is known of all templates.
pub ghost struct TrackerView {
    /// The templates that are tracked.
    pub templates: Map<u64, RateView>,
    /// The length of a bucket.
    pub bucket_us: u64,
    /// How long a history can be.
    pub history_len: nat,
    /// How many templates can be tracked.
    pub max_templates: nat,
    /// After how many buckets without an event a template is forgotten.
    pub idle_eviction_buckets: u64,
    /// The running bucket.
    pub current_bucket: u64,
    /// The bucket of the first event.
    pub start_bucket: u64,
    /// Whether there has been an event.
    pub started: bool,
}

/// A tracker that has seen nothing. A bucket lasts at least one second, and every bound
/// is at least one.
pub open spec fn opened(
    bucket_seconds: u64,
    history_len: nat,
    max_templates: nat,
    idle_eviction_buckets: u64,
) -> TrackerView {
    TrackerView {
        templates: Map::empty(),
        bucket_us: store::bucket_micros(bucket_seconds),
        history_len: if history_len >= 1 {
            history_len
        } else {
            1
        },
        max_templates: if max_templates >= 1 {
            max_templates
        } else {
            1
        },
        idle_eviction_buckets: if idle_eviction_buckets >= 1 {
            idle_eviction_buckets
        } else {
            1
        },
        current_bucket: 0,
        start_bucket: 0,
        started: false,
    }
}

/// The end of a history, no longer than it can be.
pub open spec fn bounded(history: Seq<u64>, max_len: nat) -> Seq<u64> {
    if history.len() <= max_len {
        history
    } else {
        history.skip(history.len() - max_len)
    }
}

/// A number of zeros.
pub open spec fn zeros(n: nat) -> Seq<u64> {
    Seq::new(n, |i: int| 0u64)
}

/// The smaller of two numbers.
pub open spec fn smaller(a: int, b: int) -> int {
    if a <= b {
        a
    } else {
        b
    }
}

/// The difference of two numbers, or zero if it would be negative.
pub open spec fn excess(a: int, b: int) -> int {
    if a >= b {
        a - b
    } else {
        0
    }
}

impl RateView {
    /// The template once `buckets` buckets have ended: its events of the first of
    /// them, and zeros for the others, are at the end of its history.
    pub open spec fn rolled(self, buckets: int, history_len: nat) -> RateView {
        RateView {
            current_count: 0,
            history: bounded(
                self.history.push(self.current_count) + zeros(excess(buckets, 1) as nat),
                history_len,
            ),
            ..self
        }
    }
}

impl TrackerView {
    /// What holds of every tracker.
    pub open spec fn valid(self) -> bool {
        &&& self.bucket_us >= 1
        &&& self.history_len >= 1
        &&& self.max_templates >= 1
        &&& self.idle_eviction_buckets >= 1
        &&& self.templates.dom().finite()
        &&& self.templates.len() <= self.max_templates
        &&& forall|id: u64| #[trigger]
            self.templates.contains_key(id) ==> self.templates[id].history.len() <= self.history_len
    }

    /// The tracker once the running bucket is `target`. Templates that had no
    /// event for too long are forgotten.
    pub open spec fn rolled_over_to(self, target: u64) -> TrackerView {
        let cutoff = excess(target as int, self.idle_eviction_buckets as int);
        TrackerView {
            templates: Map::new(
                |id: u64|
                    self.templates.contains_key(id) && self.templates[id].last_active_bucket >= cutoff,
                |id: u64| self.templates[id].rolled(target - self.current_bucket, self.history_len),
            ),
            current_bucket: target,
            ..self
        }
    }

    /// The tracker once the bucket of an event has begun. Events of earlier
    /// buckets count for the running one.
    pub open spec fn advanced_to(self, bucket: u64) -> TrackerView {
        if !self.started {
            TrackerView { current_bucket: bucket, start_bucket: bucket, started: true, ..self }
        } else if bucket > self.current_bucket {
            self.rolled_over_to(bucket)
        } else {
            self
        }
    }

    /// Whether the counter of a template has room for an event.
    pub open spec fn can_record(self, timestamp_us: u64, template_id: u64) -> bool {
        let advanced = self.advanced_to(timestamp_us / self.bucket_us);
        advanced.templates.contains_key(template_id)
            ==> advanced.templates[template_id].current_count < u64::MAX
    }

    /// Whether `after` has room for another template: if there was none, one of
    /// the templates whose last event is longest ago has been forgotten.
    pub open spec fn makes_room(self, after: TrackerView) -> bool {
        if self.templates.len() < self.max_templates {
            after == self
        } else {
            exists|oldest: u64| #[trigger] self.is_oldest(oldest) && after == (TrackerView {
                templates: self.templates.remove(oldest),
                ..self
            })
        }
    }

    /// Whether no tracked template has been without an event for longer.
    pub open spec fn is_oldest(self, id: u64) -> bool {
        &&& self.templates.contains_key(id)
        &&& forall|other: u64| #[trigger]
            self.templates.contains_key(other) ==> self.templates[id].last_active_bucket
                <= self.templates[other].last_active_bucket
    }

    /// What is known of a template before its next event is counted.
    pub open spec fn known(self, template_id: u64) -> RateView {
        if self.templates.contains_key(template_id) {
            self.templates[template_id]
        } else {
            RateView {
                current_count: 0,
                history: zeros(
                    smaller(
                        excess(self.current_bucket as int, self.start_bucket as int),
                        self.history_len as int,
                    ) as nat,
                ),
                last_active_bucket: self.current_bucket,
            }
        }
    }

    /// The tracker after an event of a template in the running bucket.
    pub open spec fn counted(self, template_id: u64) -> TrackerView {
        TrackerView {
            templates: self.templates.insert(
                template_id,
                RateView {
                    current_count: (self.known(template_id).current_count + 1) as u64,
                    last_active_bucket: self.current_bucket,
                    ..self.known(template_id)
                },
            ),
            ..self
        }
    }

    /// Whether `after` is what an event makes of this tracker.
    pub open spec fn records(self, timestamp_us: u64, template_id: u64, after: TrackerView) -> bool {
        exists|roomy: TrackerView| #[trigger]
            self.advanced_to(timestamp_us / self.bucket_us).makes_room(roomy) && after
                == roomy.counted(template_id)
    }
}

/// The rate of a template in the running bucket, held against its history.
#[derive(Debug, Clone, Copy)]
pub struct RateEvidence {
    /// Its events in the running bucket.
    pub current: u64,
    /// Where its history lies; none if it is empty.
    pub history: Option<Spread>,
}

/// Whether the evidence is about the given template.
pub open spec fn is_evidence(evidence: RateEvidence, rate: RateView) -> bool {
    &&& evidence.current == rate.current_count
    &&& match evidence.history {
        Some(spread) => {
            &&& rate.history.len() > 0
            &&& spread.median_halves == stats::median_doubled(stats::integers(rate.history))
            &&& spread.deviation_quarters == stats::deviation_quadrupled(
                stats::integers(rate.history),
            )
        },
        None => rate.history.len() == 0,
    }
}

struct TemplateRate {
    current_count: u64,
    history: VecDeque<u64>,
    last_active_bucket: u64,
}

impl View for TemplateRate {
    type V = RateView;

    closed spec fn view(&self) -> RateView {
        RateView {
            current_count: self.current_count,
            history: self.history@,
            last_active_bucket: self.last_active_bucket,
        }
    }
}

/// Tracks the rates of all templates.
pub struct RateTracker {
    templates: HashMap<u64, TemplateRate>,
    bucket_us: u64,
    history_len: usize,
    max_templates: usize,
    idle_eviction_buckets: u64,
    current_bucket: u64,
    start_bucket: u64,
    started: bool,
}

spec fn rate_views(templates: Map<u64, TemplateRate>) -> Map<u64, RateView> {
    templates.map_values(|rate: TemplateRate| rate@)
}

impl View for RateTracker {
    type V = TrackerView;

    closed spec fn view(&self) -> TrackerView {
        TrackerView {
            templates: rate_views(self.templates@),
            bucket_us: self.bucket_us,
            history_len: self.history_len as nat,
            max_templates: self.max_templates as nat,
            idle_eviction_buckets: self.idle_eviction_buckets,
            current_bucket: self.current_bucket,
            start_bucket: self.start_bucket,
            started: self.started,
        }
    }
}

/// Adds a value at the end of a history, and drops the first if there is no room.
fn push_bounded(history: &mut VecDeque<u64>, value: u64, max_len: usize)
    requires
        old(history)@.len() <= max_len,
        max_len >= 1,
    ensures
        final(history)@ == bounded(old(history)@.push(value), max_len as nat),
{
    if history.len() >= max_len {
        let _ = history.pop_front();
    }
    history.push_back(value);
    proof {
        assert(history@ =~= bounded(old(history)@.push(value), max_len as nat));
    }
}

/// Ends buckets for one template.
fn roll(rate: &mut TemplateRate, buckets: u64, history_len: usize)
    requires
        old(rate)@.history.len() <= history_len,
        history_len >= 1,
        buckets >= 1,
    ensures
        final(rate)@ == old(rate)@.rolled(buckets as int, history_len as nat),
        final(rate)@.history.len() <= history_len,
{
    let ghost start = rate@;
    // More zeros than the history can hold make no difference.
    let filled: u64 = if buckets - 1 <= history_len as u64 {
        buckets - 1
    } else {
        history_len as u64
    };
    push_bounded(&mut rate.history, rate.current_count, history_len);
    let mut done: u64 = 0;
    let ghost pushed = start.history.push(start.current_count);
    proof {
        assert(pushed + zeros(0) =~= pushed);
    }
    while done < filled
        invariant
            done <= filled,
            history_len >= 1,
            rate.current_count == start.current_count,
            rate.last_active_bucket == start.last_active_bucket,
            rate.history@.len() <= history_len,
            rate.history@ == bounded(pushed + zeros(done as nat), history_len as nat),
        decreases filled - done,
    {
        let ghost shorter = pushed + zeros(done as nat);
        push_bounded(&mut rate.history, 0, history_len);
        proof {
            assert(pushed + zeros((done + 1) as nat) =~= shorter.push(0));
            assert(rate.history@ =~= bounded(pushed + zeros((done + 1) as nat), history_len as nat));
        }
        done += 1;
    }
    proof {
        assert(bounded(pushed + zeros(filled as nat), history_len as nat) =~= bounded(
            pushed + zeros((buckets - 1) as nat),
            history_len as nat,
        ));
    }
    rate.current_count = 0;
}

impl RateTracker {
    /// Whether the tracker is in a proper state.
    pub closed spec fn wf(&self) -> bool {
        self@.valid()
    }

    /// A proper state is a valid one.
    pub proof fn wf_is_valid(&self)
        ensures
            self.wf() == self@.valid(),
    {
    }

    /// Creates a tracker that has seen nothing. Every bound is at least one.
    pub fn new(
        bucket_seconds: u64,
        history_len: usize,
        max_templates: usize,
        idle_eviction_buckets: u64,
    ) -> (tracker: RateTracker)
        ensures
            tracker.wf(),
            tracker@.valid(),
            tracker@ == opened(
                bucket_seconds,
                history_len as nat,
                max_templates as nat,
                idle_eviction_buckets,
            ),
    {
        broadcast use vstd::std_specs::hash::group_hash_axioms;

        let tracker = RateTracker {
            templates: HashMap::new(),
            bucket_us: saturating_micros(
                if bucket_seconds >= 1 {
                    bucket_seconds
                } else {
                    1
                },
            ),
            history_len: if history_len >= 1 {
                history_len
            } else {
                1
            },
            max_templates: if max_templates >= 1 {
                max_templates
            } else {
                1
            },
            idle_eviction_buckets: if idle_eviction_buckets >= 1 {
                idle_eviction_buckets
            } else {
                1
            },
            current_bucket: 0,
            start_bucket: 0,
            started: false,
        };
        proof {
            assert(rate_views(tracker.templates@) =~= Map::empty());
        }
        tracker
    }

    /// Counts an event, and holds the rate of its template against its history.
    pub fn record(&mut self, timestamp_us: u64, template_id: TemplateId) -> (evidence: RateEvidence)
        requires
            old(self).wf(),
            old(self)@.can_record(timestamp_us, template_id.0),
        ensures
            final(self).wf(),
            old(self)@.records(timestamp_us, template_id.0, final(self)@),
            final(self)@.templates.contains_key(template_id.0),
            is_evidence(evidence, final(self)@.templates[template_id.0]),
    {
        broadcast use vstd::std_specs::hash::group_hash_axioms;

        let ghost before = self@;
        let bucket: u64 = timestamp_us / self.bucket_us;
        if !self.started {
            self.current_bucket = bucket;
            self.start_bucket = bucket;
            self.started = true;
        } else if bucket > self.current_bucket {
            self.roll_over_to(bucket);
        }
        let ghost advanced = self@;
        proof {
            assert(advanced == before.advanced_to(bucket));
        }
        self.ensure_capacity();
        let ghost roomy = self@;
        let since_start: u64 = self.current_bucket.saturating_sub(self.start_bucket);
        let prefill: usize = if since_start <= self.history_len as u64 {
            since_start as usize
        } else {
            self.history_len
        };
        let mut rate = match self.templates.remove(&template_id.0) {
            Some(rate) => rate,
            None => TemplateRate {
                current_count: 0,
                history: zero_history(prefill),
                last_active_bucket: self.current_bucket,
            },
        };
        proof {
            assert(rate@ == roomy.known(template_id.0));
            assert(rate.current_count < u64::MAX);
        }
        rate.current_count = rate.current_count + 1;
        rate.last_active_bucket = self.current_bucket;
        let current: u64 = rate.current_count;
        let history = copied(&rate.history);
        let ghost counted = rate@;
        self.templates.insert(template_id.0, rate);
        proof {
            assert(self@.templates =~= roomy.counted(template_id.0).templates);
            assert(self@ == roomy.counted(template_id.0));
            assert(roomy.templates.len() < roomy.max_templates);
        }
        RateEvidence { current, history: stats::spread(&history) }
    }

    /// Ends all buckets before `target`, and forgets templates that had no event
    /// for too long.
    fn roll_over_to(&mut self, target: u64)
        requires
            old(self).wf(),
            target > old(self)@.current_bucket,
        ensures
            final(self).wf(),
            final(self)@ == old(self)@.rolled_over_to(target),
    {
        broadcast use vstd::std_specs::hash::group_hash_axioms;

        let ghost before = self@;
        let ghost all = self.templates@;
        let gap: u64 = target - self.current_bucket;
        let cutoff: u64 = target.saturating_sub(self.idle_eviction_buckets);
        let keys = tables::keys_of(&self.templates);
        let mut i: usize = 0;
        while i < keys.len()
            invariant
                before.valid(),
                before.templates == rate_views(all),
                keys@.no_duplicates(),
                forall|id: u64| #[trigger] all.contains_key(id) <==> keys@.contains(id),
                i <= keys.len(),
                gap == target - before.current_bucket,
                gap >= 1,
                cutoff == excess(target as int, before.idle_eviction_buckets as int),
                self.history_len == before.history_len,
                self.bucket_us == before.bucket_us,
                self.max_templates == before.max_templates,
                self.idle_eviction_buckets == before.idle_eviction_buckets,
                self.current_bucket == before.current_bucket,
                self.start_bucket == before.start_bucket,
                self.started == before.started,
                forall|j: int|
                    i <= j < keys.len() ==> self.templates@.contains_key(#[trigger] keys@[j])
                        && self.templates@[keys@[j]] == all[keys@[j]],
                forall|j: int|
                    0 <= j < i ==> {
                        let id = #[trigger] keys@[j];
                        &&& self.templates@.contains_key(id) <==> all[id]@.last_active_bucket >= cutoff
                        &&& self.templates@.contains_key(id) ==> self.templates@[id]@ == all[id]@.rolled(
                            gap as int,
                            before.history_len,
                        )
                    },
                forall|id: u64| #[trigger] self.templates@.contains_key(id) ==> all.contains_key(id),
            decreases keys.len() - i,
        {
            let key: u64 = keys[i];
            proof {
                assert(all.contains_key(key));
                assert(before.templates.contains_key(key));
            }
            match self.templates.remove(&key) {
                Some(mut rate) => {
                    let keep: bool = rate.last_active_bucket >= cutoff;
                    roll(&mut rate, gap, self.history_len);
                    if keep {
                        self.templates.insert(key, rate);
                    }
                },
                None => {},
            }
            i += 1;
        }
        self.current_bucket = target;
        proof {
            let wanted = before.rolled_over_to(target);
            assert forall|id: u64| #[trigger] self@.templates.contains_key(id) <==> wanted.templates.contains_key(
                id,
            ) by {
                if all.contains_key(id) {
                    let j = choose|j: int| 0 <= j < keys@.len() && keys@[j] == id;
                    assert(keys@[j] == id);
                    assert(before.templates.contains_key(id));
                }
            }
            assert forall|id: u64| #[trigger] self@.templates.contains_key(id) implies self@.templates[id]
                == wanted.templates[id] by {
                let j = choose|j: int| 0 <= j < keys@.len() && keys@[j] == id;
                assert(keys@[j] == id);
            }
            assert(self@.templates =~= wanted.templates);
            assert(self@.templates.dom().subset_of(before.templates.dom()));
            vstd::set_lib::lemma_len_subset(self@.templates.dom(), before.templates.dom());
            assert forall|id: u64| #[trigger] self@.templates.contains_key(id) implies self@.templates[id].history.len()
                <= self@.history_len by {}
        }
    }

    /// Forgets the template whose last event is longest ago, if there is no room
    /// for another one.
    fn ensure_capacity(&mut self)
        requires
            old(self).wf(),
        ensures
            final(self).wf(),
            old(self)@.makes_room(final(self)@),
            final(self)@.templates.len() < final(self)@.max_templates,
    {
        broadcast use vstd::std_specs::hash::group_hash_axioms;

        proof {
            assert(self@.templates.dom() =~= self.templates@.dom());
        }
        if self.templates.len() < self.max_templates {
            return;
        }
        let ghost before = self@;
        let mut oldest: Option<(u64, u64)> = None;
        for (id, rate) in it: self.templates.iter()
            invariant
                forall|i: int|
                    0 <= i < it.seq().len() ==> self.templates@.contains_key(
                        *(#[trigger] it.seq()[i]).0,
                    ) && self.templates@[*it.seq()[i].0] == *it.seq()[i].1,
                oldest is None <==> it.index() == 0,
                match oldest {
                    Some((id, bucket)) => {
                        &&& self.templates@.contains_key(id)
                        &&& self.templates@[id].last_active_bucket == bucket
                        &&& forall|j: int|
                            0 <= j < it.index() ==> bucket <= (#[trigger] it.seq()[j]).1.last_active_bucket
                    },
                    None => true,
                },
        {
            let older: bool = match oldest {
                Some((_, bucket)) => rate.last_active_bucket < bucket,
                None => true,
            };
            if older {
                oldest = Some((*id, rate.last_active_bucket));
            }
        }
        match oldest {
            Some((id, _)) => {
                proof {
                    assert forall|other: u64| #[trigger]
                        before.templates.contains_key(other) implies before.templates[id].last_active_bucket
                        <= before.templates[other].last_active_bucket by {
                        assert(self.templates@.contains_key(other));
                    }
                    assert(before.is_oldest(id));
                }
                let _ = self.templates.remove(&id);
                proof {
                    assert(self@.templates =~= before.templates.remove(id));
                    assert(self@.templates.dom() =~= before.templates.dom().remove(id));
                }
            },
            None => {
                proof {
                    assert(self.templates@.dom().len() == 0);
                }
            },
        }
    }

    /// How many templates are tracked.
    pub fn tracked_templates(&self) -> (count: usize)
        ensures
            count == self@.templates.len(),
    {
        broadcast use vstd::std_specs::hash::group_hash_axioms;

        proof {
            assert(self@.templates.dom() =~= self.templates@.dom());
        }
        self.templates.len()
    }

    /// How long the history of a template is; zero if it is not tracked.
    pub fn history_len_of(&self, template_id: TemplateId) -> (len: usize)
        ensures
            len == if self@.templates.contains_key(template_id.0) {
                self@.templates[template_id.0].history.len()
            } else {
                0
            },
    {
        broadcast use vstd::std_specs::hash::group_hash_axioms;

        match self.templates.get(&template_id.0) {
            Some(rate) => rate.history.len(),
            None => 0,
        }
    }
}

/// A history of zeros.
fn zero_history(n: usize) -> (history: VecDeque<u64>)
    ensures
        history@ == zeros(n as nat),
{
    let mut history: VecDeque<u64> = VecDeque::new();
    let mut i: usize = 0;
    while i < n
        invariant
            i <= n,
            history@ == zeros(i as nat),
        decreases n - i,
    {
        history.push_back(0);
        proof {
            assert(history@ =~= zeros((i + 1) as nat));
        }
        i += 1;
    }
    proof {
        assert(history@ =~= zeros(n as nat));
    }
    history
}

/// The values of a history, oldest first.
fn copied(history: &VecDeque<u64>) -> (values: Vec<u64>)
    ensures
        values@ == history@,
{
    let mut values: Vec<u64> = Vec::new();
    let mut i: usize = 0;
    while i < history.len()
        invariant
            i <= history.len(),
            values@ == history@.take(i as int),
        decreases history.len() - i,
    {
        values.push(history[i]);
        proof {
            assert(history@.take(i as int + 1) =~= history@.take(i as int).push(history@[i as int]));
        }
        i += 1;
    }
    proof {
        assert(history@.take(history.len() as int) =~= history@);
    }
    values
}

/// An event leaves a tracker valid.
proof fn an_event_keeps_the_bounds(
    before: TrackerView,
    timestamp_us: u64,
    template_id: u64,
    after: TrackerView,
)
    requires
        before.valid(),
        before.records(timestamp_us, template_id, after),
    ensures
        after.valid(),
        after.max_templates == before.max_templates,
        after.history_len == before.history_len,
{
    let advanced = before.advanced_to(timestamp_us / before.bucket_us);
    let roomy = choose|roomy: TrackerView| #[trigger]
        advanced.makes_room(roomy) && after == roomy.counted(template_id);
    assert(advanced.templates.dom().subset_of(before.templates.dom()));
    vstd::set_lib::lemma_len_subset(advanced.templates.dom(), before.templates.dom());
    if advanced.templates.len() >= advanced.max_templates {
        let oldest = choose|oldest: u64| #[trigger]
            advanced.is_oldest(oldest) && roomy == (TrackerView {
                templates: advanced.templates.remove(oldest),
                ..advanced
            });
        assert(roomy.templates.dom() =~= advanced.templates.dom().remove(oldest));
    }
    assert(after.templates.dom() =~= roomy.templates.dom().insert(template_id));
}

/// A template that was never seen has been silent: its history holds a zero for every
/// bucket since the first event, as far as it reaches back, so that a storm does not make
/// itself the usual thing.
pub proof fn a_newcomer_was_silent(
    before: TrackerView,
    timestamp_us: u64,
    template_id: u64,
    after: TrackerView,
)
    requires
        before.valid(),
        before.started,
        before.records(timestamp_us, template_id, after),
        !before.templates.contains_key(template_id),
        timestamp_us / before.bucket_us >= before.current_bucket,
    ensures
        after.templates.contains_key(template_id),
        after.templates[template_id].current_count == 1,
        after.templates[template_id].history == zeros(
            smaller(
                excess((timestamp_us / before.bucket_us) as int, before.start_bucket as int),
                before.history_len as int,
            ) as nat,
        ),
{
}

/// Buckets without an event of a template are zeros in its history: after a pause its
/// history ends with one for each of them, and after one that is longer than the history
/// holds nothing else.
pub proof fn pauses_are_zeros(rate: RateView, buckets: int, history_len: nat)
    requires
        buckets >= 1,
    ensures
        ({
            let history = rate.rolled(buckets, history_len).history;
            &&& history.len() == smaller(rate.history.len() + buckets, history_len as int)
            &&& forall|i: int|
                0 <= i < history.len() && i >= history.len() - (buckets - 1)
                    ==> #[trigger] history[i] == 0
            &&& buckets > history_len ==> history == zeros(history_len)
        }),
{
    let history = rate.rolled(buckets, history_len).history;
    if buckets > history_len {
        assert(history =~= zeros(history_len));
    }
}

/// An event that is counted.
pub ghost struct RateEvent {
    /// The time of the event.
    pub timestamp_us: u64,
    /// The template of the event.
    pub template_id: u64,
}

/// Whether a tracker has counted events one after the other: `states` says what it held
/// before each of them and after the last.
pub open spec fn counts_all(states: Seq<TrackerView>, events: Seq<RateEvent>) -> bool {
    &&& states.len() == events.len() + 1
    &&& forall|k: int|
        0 <= k < events.len() ==> #[trigger] states[k].records(
            events[k].timestamp_us,
            events[k].template_id,
            states[k + 1],
        )
}

/// However many templates there are and however long they have been tracked, no more are
/// tracked than fit, and no history is longer than it can be.
pub proof fn rates_stay_bounded(states: Seq<TrackerView>, events: Seq<RateEvent>, k: int)
    requires
        counts_all(states, events),
        states[0].valid(),
        0 <= k < states.len(),
    ensures
        states[k].valid(),
        states[k].max_templates == states[0].max_templates,
        states[k].history_len == states[0].history_len,
    decreases k,
{
    if k > 0 {
        let j: int = k - 1;
        rates_stay_bounded(states, events, j);
        assert(states[j].records(events[j].timestamp_us, events[j].template_id, states[j + 1]));
        an_event_keeps_the_bounds(
            states[j],
            events[j].timestamp_us,
            events[j].template_id,
            states[j + 1],
        );
    }
}

/// How many events of a template fall into a bucket.
pub open spec fn events_in(
    events: Seq<RateEvent>,
    bucket_us: u64,
    bucket: int,
    template_id: u64,
) -> nat
    decreases events.len(),
{
    if events.len() == 0 {
        0
    } else {
        let last = events.last();
        events_in(events.drop_last(), bucket_us, bucket, template_id) + if last.template_id
            == template_id && last.timestamp_us / bucket_us == bucket {
            1nat
        } else {
            0nat
        }
    }
}

/// The templates of the events.
pub open spec fn templates_in(events: Seq<RateEvent>) -> Set<u64>
    decreases events.len(),
{
    if events.len() == 0 {
        Set::empty()
    } else {
        templates_in(events.drop_last()).insert(events.last().template_id)
    }
}

/// Whether the events are in the order of their times.
pub open spec fn in_time_order(events: Seq<RateEvent>) -> bool {
    forall|i: int, j: int|
        0 <= i <= j < events.len() ==> (#[trigger] events[i]).timestamp_us <= (
        #[trigger] events[j]).timestamp_us
}

/// Whether what is known of a template is what the events say: how many of it fall into
/// the running bucket, and into each of the buckets before since the first one, as far
/// back as its history reaches.
pub open spec fn tells_counts(
    rate: RateView,
    events: Seq<RateEvent>,
    bucket_us: u64,
    template_id: u64,
    current: int,
    start: int,
    history_len: nat,
) -> bool {
    &&& rate.current_count == events_in(events, bucket_us, current, template_id)
    &&& rate.history.len() == smaller(current - start, history_len as int)
    &&& forall|i: int|
        0 <= i < rate.history.len() ==> #[trigger] rate.history[i] == events_in(
            events,
            bucket_us,
            current - rate.history.len() + i,
            template_id,
        )
}

/// Rates are what was counted. While there is room for all templates, and none is silent
/// for too long, a tracker that counts events in the order of their times knows of every
/// template how many of its events fell into each bucket, zeros included.
pub proof fn histories_hold_the_counts(states: Seq<TrackerView>, events: Seq<RateEvent>)
    requires
        events.len() > 0,
        events.len() <= u64::MAX,
        counts_all(states, events),
        in_time_order(events),
        states[0].valid(),
        states[0].templates == Map::<u64, RateView>::empty(),
        !states[0].started,
        templates_in(events).len() < states[0].max_templates,
        events.last().timestamp_us / states[0].bucket_us - events[0].timestamp_us
            / states[0].bucket_us <= states[0].idle_eviction_buckets,
    ensures
        ({
            let first = states[0];
            let after = states.last();
            let current = (events.last().timestamp_us / first.bucket_us) as int;
            let start = (events[0].timestamp_us / first.bucket_us) as int;
            &&& after == (TrackerView {
                templates: after.templates,
                current_bucket: current as u64,
                start_bucket: start as u64,
                started: true,
                ..first
            })
            &&& after.templates.dom() == templates_in(events)
            &&& forall|id: u64| #[trigger]
                after.templates.contains_key(id) ==> {
                    &&& tells_counts(
                        after.templates[id],
                        events,
                        first.bucket_us,
                        id,
                        current,
                        start,
                        first.history_len,
                    )
                    &&& start <= after.templates[id].last_active_bucket
                }
        }),
    decreases events.len(),
{
    let first = states[0];
    let n = events.len() - 1;
    let earlier = events.drop_last();
    let event = events.last();
    let before = states[n];
    let after = states[n + 1];
    let bucket = event.timestamp_us / first.bucket_us;
    let current = bucket as int;
    let start = (events[0].timestamp_us / first.bucket_us) as int;
    assert(before.records(events[n].timestamp_us, events[n].template_id, states[n + 1]));
    templates_are_finite(events);
    templates_are_finite(earlier);
    vstd::set_lib::lemma_len_subset(templates_in(earlier), templates_in(events));
    if n == 0 {
        let advanced = before.advanced_to(bucket);
        assert(advanced.templates.len() == 0);
        assert(after == advanced.counted(event.template_id));
        assert(after.templates.dom() =~= templates_in(events));
        assert(events.drop_last() =~= Seq::empty());
        assert(events_in(earlier, first.bucket_us, current, event.template_id) == 0);
    } else {
        let fewer = states.drop_last();
        assert(counts_all(fewer, earlier)) by {
            assert forall|k: int| 0 <= k < earlier.len() implies #[trigger] fewer[k].records(
                earlier[k].timestamp_us,
                earlier[k].template_id,
                fewer[k + 1],
            ) by {
                assert(states[k].records(
                    events[k].timestamp_us,
                    events[k].template_id,
                    states[k + 1],
                ));
            }
        }
        assert(in_time_order(earlier)) by {
            assert forall|i: int, j: int| 0 <= i <= j < earlier.len() implies (
            #[trigger] earlier[i]).timestamp_us <= (#[trigger] earlier[j]).timestamp_us by {
                assert(events[i].timestamp_us <= events[j].timestamp_us);
            }
        }
        let previous = events[n - 1];
        assert(earlier.last() == previous);
        assert(previous.timestamp_us <= event.timestamp_us);
        assert(events[0].timestamp_us <= previous.timestamp_us);
        vstd::arithmetic::div_mod::lemma_div_is_ordered(
            previous.timestamp_us as int,
            event.timestamp_us as int,
            first.bucket_us as int,
        );
        vstd::arithmetic::div_mod::lemma_div_is_ordered(
            events[0].timestamp_us as int,
            previous.timestamp_us as int,
            first.bucket_us as int,
        );
        histories_hold_the_counts(fewer, earlier);
        assert(fewer.last() == before);
        let reached = (previous.timestamp_us / first.bucket_us) as int;
        let advanced = before.advanced_to(bucket);
        assert(advanced.templates.dom() =~= templates_in(earlier));
        assert(after == advanced.counted(event.template_id));
        assert(after.templates.dom() =~= templates_in(events));
        assert forall|id: u64| #[trigger] after.templates.contains_key(id) implies tells_counts(
            after.templates[id],
            events,
            first.bucket_us,
            id,
            current,
            start,
            first.history_len,
        ) && start <= after.templates[id].last_active_bucket by {
            if before.templates.contains_key(id) {
                assert(tells_counts(
                    before.templates[id],
                    earlier,
                    first.bucket_us,
                    id,
                    reached,
                    start,
                    first.history_len,
                ));
                advancing_tells_counts(
                    before.templates[id],
                    earlier,
                    first.bucket_us,
                    id,
                    reached,
                    current,
                    start,
                    first.history_len,
                );
            } else {
                assert(!templates_in(earlier).contains(id));
                assert forall|k: int| #[trigger] events_in(earlier, first.bucket_us, k, id) == 0 by {
                    strangers_have_no_events(earlier, first.bucket_us, k, id);
                }
            }
            let known = advanced.known(id);
            assert(tells_counts(
                known,
                earlier,
                first.bucket_us,
                id,
                current,
                start,
                first.history_len,
            ));
            events_are_at_most(earlier, first.bucket_us, current, id);
            assert forall|k: int| k != current implies #[trigger] events_in(
                events,
                first.bucket_us,
                k,
                id,
            ) == events_in(earlier, first.bucket_us, k, id) by {}
        }
    }
}

/// What is known of a template is still what the events say once later buckets have
/// begun.
proof fn advancing_tells_counts(
    rate: RateView,
    events: Seq<RateEvent>,
    bucket_us: u64,
    template_id: u64,
    reached: int,
    current: int,
    start: int,
    history_len: nat,
)
    requires
        start <= reached <= current,
        events.len() > 0,
        bucket_us >= 1,
        in_time_order(events),
        events.last().timestamp_us / bucket_us == reached,
        tells_counts(rate, events, bucket_us, template_id, reached, start, history_len),
    ensures
        current > reached ==> tells_counts(
            rate.rolled(current - reached, history_len),
            events,
            bucket_us,
            template_id,
            current,
            start,
            history_len,
        ),
{
    if current > reached {
        assert forall|k: int| k > reached implies #[trigger] events_in(
            events,
            bucket_us,
            k,
            template_id,
        ) == 0 by {
            nothing_comes_later(events, bucket_us, reached, k, template_id);
        }
        let rolled = rate.rolled(current - reached, history_len);
        let all = rate.history.push(rate.current_count) + zeros((current - reached - 1) as nat);
        let dropped = all.len() - rolled.history.len();
        assert forall|i: int| 0 <= i < rolled.history.len() implies #[trigger] rolled.history[i]
            == events_in(
            events,
            bucket_us,
            current - rolled.history.len() + i,
            template_id,
        ) by {
            let j = i + dropped;
            assert(rolled.history[i] == all[j]);
            assert(current - rolled.history.len() + i == reached - rate.history.len() + j);
            if j < rate.history.len() {
                assert(all[j] == rate.history[j]);
            } else if j == rate.history.len() {
                assert(all[j] == rate.current_count);
            } else {
                assert(all[j] == 0);
            }
        }
    }
}

/// Events in the order of their times have none in buckets after that of the last.
proof fn nothing_comes_later(
    events: Seq<RateEvent>,
    bucket_us: u64,
    reached: int,
    bucket: int,
    template_id: u64,
)
    requires
        bucket_us >= 1,
        in_time_order(events),
        bucket > reached,
        events.len() > 0 ==> events.last().timestamp_us / bucket_us <= reached,
    ensures
        events_in(events, bucket_us, bucket, template_id) == 0,
    decreases events.len(),
{
    if events.len() > 0 {
        let earlier = events.drop_last();
        assert(in_time_order(earlier)) by {
            assert forall|i: int, j: int| 0 <= i <= j < earlier.len() implies (
            #[trigger] earlier[i]).timestamp_us <= (#[trigger] earlier[j]).timestamp_us by {
                assert(events[i].timestamp_us <= events[j].timestamp_us);
            }
        }
        if earlier.len() > 0 {
            let n = events.len() - 1;
            assert(earlier.last() == events[n - 1]);
            assert(events[n - 1].timestamp_us <= events[n].timestamp_us);
            vstd::arithmetic::div_mod::lemma_div_is_ordered(
                events[n - 1].timestamp_us as int,
                events[n].timestamp_us as int,
                bucket_us as int,
            );
        }
        nothing_comes_later(earlier, bucket_us, reached, bucket, template_id);
    }
}

proof fn strangers_have_no_events(
    events: Seq<RateEvent>,
    bucket_us: u64,
    bucket: int,
    template_id: u64,
)
    requires
        !templates_in(events).contains(template_id),
    ensures
        events_in(events, bucket_us, bucket, template_id) == 0,
    decreases events.len(),
{
    if events.len() > 0 {
        strangers_have_no_events(events.drop_last(), bucket_us, bucket, template_id);
    }
}

proof fn events_are_at_most(events: Seq<RateEvent>, bucket_us: u64, bucket: int, template_id: u64)
    ensures
        events_in(events, bucket_us, bucket, template_id) <= events.len(),
    decreases events.len(),
{
    if events.len() > 0 {
        events_are_at_most(events.drop_last(), bucket_us, bucket, template_id);
    }
}

proof fn templates_are_finite(events: Seq<RateEvent>)
    ensures
        templates_in(events).finite(),
    decreases events.len(),
{
    if events.len() > 0 {
        templates_are_finite(events.drop_last());
    }
}

/// A tracker that has just been made has the length of bucket and the bounds that are set.
pub proof fn a_tracker_goes_by_its_settings(
    bucket_seconds: u64,
    history_len: nat,
    max_templates: nat,
    idle_eviction_buckets: u64,
)
    requires
        1 <= bucket_seconds <= 18_446_744_073_709,
        history_len >= 1,
        max_templates >= 1,
        idle_eviction_buckets >= 1,
    ensures
        ({
            let tracker = opened(bucket_seconds, history_len, max_templates, idle_eviction_buckets);
            &&& tracker.bucket_us == bucket_seconds * 1_000_000
            &&& tracker.history_len == history_len
            &&& tracker.max_templates == max_templates
            &&& tracker.idle_eviction_buckets == idle_eviction_buckets
            &&& tracker.templates.dom() =~= Set::<u64>::empty()
            &&& !tracker.started
        }),
{
}

/// Within a bucket, an event adds one to the count of its template, and changes neither
/// its history nor any other template.
pub proof fn an_event_counts_once_in_its_bucket(
    before: TrackerView,
    timestamp_us: u64,
    template_id: u64,
    after: TrackerView,
    other: u64,
)
    requires
        before.valid(),
        before.started,
        before.templates.len() < before.max_templates,
        before.records(timestamp_us, template_id, after),
        timestamp_us / before.bucket_us <= before.current_bucket,
        before.templates.contains_key(template_id),
        before.templates[template_id].current_count < u64::MAX,
        other != template_id,
    ensures
        after.templates.contains_key(template_id),
        after.templates[template_id].current_count == before.templates[template_id].current_count
            + 1,
        after.templates[template_id].history == before.templates[template_id].history,
        after.templates[template_id].last_active_bucket == before.current_bucket,
        after.templates.contains_key(other) == before.templates.contains_key(other),
        before.templates.contains_key(other) ==> after.templates[other] == before.templates[other],
        after.current_bucket == before.current_bucket,
{
}

/// When the next bucket begins, the count of every template that is still tracked moves to
/// the end of its history, whose oldest entry leaves if it is full, and a new count
/// begins: with one for the template of the event, with zero for the others. A template
/// is forgotten just if its last event is more buckets ago than are set.
pub proof fn a_new_bucket_moves_counts_into_the_history(
    before: TrackerView,
    timestamp_us: u64,
    template_id: u64,
    after: TrackerView,
    other: u64,
)
    requires
        before.valid(),
        before.started,
        before.templates.len() < before.max_templates,
        before.records(timestamp_us, template_id, after),
        timestamp_us / before.bucket_us == before.current_bucket + 1,
        before.templates.contains_key(template_id),
        before.templates[template_id].last_active_bucket + before.idle_eviction_buckets
            > before.current_bucket,
        before.templates.contains_key(other),
        other != template_id,
    ensures
        ({
            let own = before.templates[template_id];
            let its = before.templates[other];
            &&& after.current_bucket == before.current_bucket + 1
            &&& after.templates.contains_key(template_id)
            &&& after.templates[template_id].current_count == 1
            &&& after.templates[template_id].last_active_bucket == before.current_bucket + 1
            &&& own.history.len() < before.history_len ==> after.templates[template_id].history
                == own.history.push(own.current_count)
            &&& own.history.len() == before.history_len ==> after.templates[template_id].history
                == own.history.skip(1).push(own.current_count)
            &&& after.templates.contains_key(other) <==> its.last_active_bucket
                + before.idle_eviction_buckets > before.current_bucket
            &&& after.templates.contains_key(other) ==> {
                &&& after.templates[other].current_count == 0
                &&& after.templates[other].last_active_bucket == its.last_active_bucket
                &&& its.history.len() < before.history_len ==> after.templates[other].history
                    == its.history.push(its.current_count)
                &&& its.history.len() == before.history_len ==> after.templates[other].history
                    == its.history.skip(1).push(its.current_count)
            }
        }),
{
    let target = (before.current_bucket + 1) as u64;
    let rolled = before.rolled_over_to(target);
    assert(rolled.templates.dom().subset_of(before.templates.dom()));
    vstd::set_lib::lemma_len_subset(rolled.templates.dom(), before.templates.dom());
    let own = before.templates[template_id];
    let its = before.templates[other];
    assert(zeros(0) =~= Seq::<u64>::empty());
    assert(own.history.push(own.current_count) + zeros(0) =~= own.history.push(own.current_count));
    assert(its.history.push(its.current_count) + zeros(0) =~= its.history.push(its.current_count));
    if own.history.len() == before.history_len {
        assert(own.history.push(own.current_count).skip(1) =~= own.history.skip(1).push(
            own.current_count,
        ));
    }
    if its.history.len() == before.history_len {
        assert(its.history.push(its.current_count).skip(1) =~= its.history.skip(1).push(
            its.current_count,
        ));
    }
}

/// The first event of all starts the first bucket and the history of its template.
pub proof fn the_first_event_starts_counting(
    before: TrackerView,
    timestamp_us: u64,
    template_id: u64,
    after: TrackerView,
)
    requires
        before.valid(),
        !before.started,
        before.templates == Map::<u64, RateView>::empty(),
        before.records(timestamp_us, template_id, after),
    ensures
        after.started,
        after.current_bucket == timestamp_us / before.bucket_us,
        after.templates.dom() =~= set![template_id],
        after.templates[template_id].current_count == 1,
        after.templates[template_id].history.len() == 0,
{
}

/// Where there is no room for another template, one is forgotten whose last event is at
/// least as long ago as that of every other.
pub proof fn the_longest_silent_makes_room(
    before: TrackerView,
    timestamp_us: u64,
    template_id: u64,
    after: TrackerView,
    gone: u64,
    stays: u64,
)
    requires
        before.valid(),
        before.started,
        before.records(timestamp_us, template_id, after),
        timestamp_us / before.bucket_us <= before.current_bucket,
        before.templates.contains_key(gone),
        !after.templates.contains_key(gone),
        before.templates.contains_key(stays),
    ensures
        before.templates.len() == before.max_templates,
        before.templates[gone].last_active_bucket <= before.templates[stays].last_active_bucket,
        stays != gone ==> after.templates.contains_key(stays),
        after.templates.contains_key(template_id),
{
}

/// To record an event is to count it, and what is told of its template is its count and
/// where its history lies; a new tracker goes by its settings.
pub proof fn a_tracker_tells_what_it_counts(
    tracker: &mut RateTracker,
    timestamp_us: u64,
    template_id: TemplateId,
    evidence: RateEvidence,
    later: &RateTracker,
    known_templates: usize,
    seconds: u64,
    history_len: usize,
    max_templates: usize,
    idle: u64,
    fresh: RateTracker,
)
    requires
        call_ensures(RateTracker::record, (tracker, timestamp_us, template_id), evidence),
        later@ == final(tracker)@,
        call_ensures(RateTracker::tracked_templates, (later,), known_templates),
        call_ensures(RateTracker::new, (seconds, history_len, max_templates, idle), fresh),
    ensures
        old(tracker)@.records(timestamp_us, template_id.0, final(tracker)@),
        final(tracker)@.templates.contains_key(template_id.0),
        evidence.current == final(tracker)@.templates[template_id.0].current_count,
        evidence.history is None <==> final(tracker)@.templates[template_id.0].history.len() == 0,
        evidence.history matches Some(spread) ==> spread.median_halves == stats::median_doubled(
            stats::integers(final(tracker)@.templates[template_id.0].history),
        ) && spread.deviation_quarters == stats::deviation_quadrupled(
            stats::integers(final(tracker)@.templates[template_id.0].history),
        ),
        known_templates == later@.templates.len(),
        fresh@ == opened(seconds, history_len as nat, max_templates as nat, idle),
{
}

/// A template that was not known has a zero in its history for every bucket since the first
/// event of all, as many as its history holds, and counts one.
pub proof fn newcomers_have_a_history_of_zeros(
    before: TrackerView,
    timestamp_us: u64,
    template_id: u64,
    after: TrackerView,
    i: int,
)
    requires
        before.valid(),
        before.started,
        before.records(timestamp_us, template_id, after),
        !before.templates.contains_key(template_id),
        before.start_bucket <= before.current_bucket,
        timestamp_us / before.bucket_us >= before.current_bucket,
    ensures
        ({
            let buckets = timestamp_us / before.bucket_us - before.start_bucket;
            let rate = after.templates[template_id];
            &&& after.templates.contains_key(template_id)
            &&& rate.current_count == 1
            &&& rate.last_active_bucket == timestamp_us / before.bucket_us
            &&& buckets <= before.history_len ==> rate.history.len() == buckets
            &&& buckets > before.history_len ==> rate.history.len() == before.history_len
            &&& 0 <= i < rate.history.len() ==> rate.history[i] == 0
        }),
{
    a_newcomer_was_silent(before, timestamp_us, template_id, after);
}

/// After a pause of several buckets, the count of the last bucket with events stands in the
/// history, with a zero behind it for every bucket of the pause, as far back as the
/// history reaches.
pub proof fn a_pause_leaves_the_last_count_and_zeros(
    before: TrackerView,
    timestamp_us: u64,
    template_id: u64,
    after: TrackerView,
    skipped: int,
    i: int,
)
    requires
        before.valid(),
        before.started,
        before.templates.len() < before.max_templates,
        before.records(timestamp_us, template_id, after),
        skipped >= 0,
        timestamp_us / before.bucket_us == before.current_bucket + 1 + skipped,
        before.templates.contains_key(template_id),
        before.templates[template_id].last_active_bucket + before.idle_eviction_buckets
            >= before.current_bucket + 1 + skipped,
        before.templates[template_id].history.len() + 1 + skipped <= before.history_len,
        0 <= i < before.templates[template_id].history.len() + 1 + skipped,
    ensures
        ({
            let was = before.templates[template_id];
            let is = after.templates[template_id];
            &&& after.templates.contains_key(template_id)
            &&& is.current_count == 1
            &&& is.history.len() == was.history.len() + 1 + skipped
            &&& i < was.history.len() ==> is.history[i] == was.history[i]
            &&& i == was.history.len() ==> is.history[i] == was.current_count
            &&& i > was.history.len() ==> is.history[i] == 0
        }),
{
    let target = (before.current_bucket + 1 + skipped) as u64;
    let rolled = before.rolled_over_to(target);
    assert(rolled.templates.dom().subset_of(before.templates.dom()));
    vstd::set_lib::lemma_len_subset(rolled.templates.dom(), before.templates.dom());
}

/// How long the history of a template is told to be is how long it is.
pub proof fn histories_are_as_long_as_told(tracker: &RateTracker, template_id: TemplateId, len: usize)
    requires
        call_ensures(RateTracker::history_len_of, (tracker, template_id), len),
    ensures
        tracker@.templates.contains_key(template_id.0) ==> len
            == tracker@.templates[template_id.0].history.len(),
        !tracker@.templates.contains_key(template_id.0) ==> len == 0,
{
}

} // verus!
