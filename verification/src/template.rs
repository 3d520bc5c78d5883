//! Template extraction: maps masked log lines to stable template ids.
//!
//! The masked tokens of a line are compared with the clusters of the same
//! length. If the share of agreeing tokens of the most similar cluster reaches
//! the threshold, the line joins that cluster, and tokens that differ become
//! wildcards in its template. Otherwise a new cluster is opened. Its id is the
//! hash of its first line, and stays as it is while the template is generalised.

use vstd::prelude::*;

use crate::hash;
use crate::mask;
use crate::mask::MaskPatterns;
use crate::text;

verus! {

/// Stands in a template where the lines of its cluster differ.
pub const WILDCARD: &'static str = "<*>";

/// The id of a template: the hash of the tokens that it was made from.
#[derive(Debug, Clone, Copy, PartialEq, Eq, Hash, PartialOrd, Ord, Structural)]
pub struct TemplateId(pub u64);

impl TemplateId {
    /// The number that is reserved for messages without a token.
    pub const EMPTY: u64 = 0;

    /// The number that is reserved for lines that found no place in a full
    /// registry.
    pub const OVERFLOW: u64 = u64::MAX;

    /// The id of messages without a token.
    pub fn empty() -> (id: TemplateId)
        ensures
            id == TemplateId(TemplateId::EMPTY),
    {
        TemplateId(TemplateId::EMPTY)
    }

    /// The id of lines that found no place in a full registry.
    pub fn overflow() -> (id: TemplateId)
        ensures
            id == TemplateId(TemplateId::OVERFLOW),
    {
        TemplateId(TemplateId::OVERFLOW)
    }

    /// The id as sixteen hexadecimal digits.
    pub fn to_text(&self) -> (out: String)
        ensures
            out@ == text::hexadecimal(self.0 as nat, 16),
    {
        let mut out = String::new();
        text::push_hexadecimal(&mut out, self.0, 16);
        proof {
            assert(Seq::<char>::empty() + text::hexadecimal(self.0 as nat, 16) =~= text::hexadecimal(
                self.0 as nat,
                16,
            ));
        }
        out
    }
}

/// A share of a whole, as a fraction.
#[derive(Debug, Clone, Copy, PartialEq, Eq, Structural)]
pub struct Share {
    /// The part.
    pub part: u64,
    /// The whole; not zero.
    pub whole: u64,
}

/// Whether the first share is at least as large as the second.
pub open spec fn share_at_least(a: Share, b: Share) -> bool {
    a.part * b.whole >= b.part * a.whole
}

/// Compares two shares.
pub fn is_at_least(a: &Share, b: &Share) -> (at_least: bool)
    ensures
        at_least == share_at_least(*a, *b),
{
    proof {
        assert(a.part * b.whole <= u64::MAX * u64::MAX) by (nonlinear_arith)
            requires
                0 <= a.part <= u64::MAX,
                0 <= b.whole <= u64::MAX,
        ;
        assert(b.part * a.whole <= u64::MAX * u64::MAX) by (nonlinear_arith)
            requires
                0 <= b.part <= u64::MAX,
                0 <= a.whole <= u64::MAX,
        ;
    }
    a.part as u128 * b.whole as u128 >= b.part as u128 * a.whole as u128
}

/// What a cluster holds.
pub ghost struct ClusterView {
    /// The id of the cluster.
    pub id: u64,
    /// The template, token by token.
    pub tokens: Seq<Seq<char>>,
    /// When its first line was seen.
    pub first_seen_us: u64,
    /// When its last line was seen.
    pub last_seen_us: u64,
    /// How many lines it has taken.
    pub count: u64,
}

/// A group of lines with the same structure and the same number of tokens.
struct Cluster {
    id: TemplateId,
    token_template: Vec<String>,
    first_seen_us: u64,
    last_seen_us: u64,
    count: u64,
}

impl View for Cluster {
    type V = ClusterView;

    closed spec fn view(&self) -> ClusterView {
        ClusterView {
            id: self.id.0,
            tokens: text::texts(self.token_template@),
            first_seen_us: self.first_seen_us,
            last_seen_us: self.last_seen_us,
            count: self.count,
        }
    }
}

/// A cluster as it is stored.
#[derive(Debug, Clone, PartialEq)]
pub struct TemplateRecord {
    /// The id of the template.
    pub id: TemplateId,
    /// The position in the registry; a store may hand records out in another
    /// order.
    pub order: u64,
    /// The template, wildcards included, token by token.
    pub tokens: Vec<String>,
    /// When the first line was seen, in microseconds since the epoch.
    pub first_seen_us: u64,
    /// When the last line was seen, in microseconds since the epoch.
    pub last_seen_us: u64,
    /// How many lines have been taken.
    pub count: u64,
}

/// What a stored cluster says.
pub ghost struct RecordView {
    /// The position in the registry.
    pub order: u64,
    /// The cluster.
    pub cluster: ClusterView,
}

impl View for TemplateRecord {
    type V = RecordView;

    open spec fn view(&self) -> RecordView {
        RecordView {
            order: self.order,
            cluster: ClusterView {
                id: self.id.0,
                tokens: text::texts(self.tokens@),
                first_seen_us: self.first_seen_us,
                last_seen_us: self.last_seen_us,
                count: self.count,
            },
        }
    }
}

impl Default for TemplateRecord {
    fn default() -> (record: TemplateRecord)
        ensures
            record.id.0 == TemplateId::EMPTY,
            record.order == 0,
            record.tokens@.len() == 0,
            record.first_seen_us == 0,
            record.last_seen_us == 0,
            record.count == 0,
    {
        TemplateRecord {
            id: TemplateId::empty(),
            order: 0,
            tokens: Vec::new(),
            first_seen_us: 0,
            last_seen_us: 0,
            count: 0,
        }
    }
}

/// The whole registry as it is stored.
#[derive(Debug, Clone, PartialEq)]
pub struct TemplateSnapshot {
    /// All clusters.
    pub clusters: Vec<TemplateRecord>,
}

impl Default for TemplateSnapshot {
    fn default() -> (snapshot: TemplateSnapshot)
        ensures
            snapshot.clusters@.len() == 0,
    {
        TemplateSnapshot { clusters: Vec::new() }
    }
}

/// What the records of a snapshot say.
pub open spec fn record_views(records: Seq<TemplateRecord>) -> Seq<RecordView> {
    Seq::new(records.len(), |i: int| records[i]@)
}

/// Where a message was put.
#[derive(Debug, Clone, PartialEq)]
pub struct TemplateMatch {
    /// The id of its template.
    pub id: TemplateId,
    /// The template as it now is, with spaces between its tokens.
    pub template: String,
    /// When the first line of the template was seen.
    pub first_seen_us: u64,
    /// How many lines the template has taken, this one included.
    pub count: u64,
    /// Whether a new cluster was opened for this message.
    pub is_new: bool,
}

/// Whether a template token is a wildcard.
pub open spec fn is_wildcard(token: Seq<char>) -> bool {
    token == WILDCARD@
}

/// How many tokens of a template are not wildcards.
pub open spec fn concrete_count(template: Seq<Seq<char>>) -> nat
    decreases template.len(),
{
    if template.len() == 0 {
        0
    } else {
        concrete_count(template.drop_last()) + if is_wildcard(template.last()) {
            0nat
        } else {
            1nat
        }
    }
}

/// At how many positions of a template that are not wildcards the line agrees.
pub open spec fn agreement_count(template: Seq<Seq<char>>, tokens: Seq<Seq<char>>) -> nat
    decreases template.len(),
{
    if template.len() == 0 || tokens.len() == 0 {
        0
    } else {
        agreement_count(template.drop_last(), tokens.drop_last()) + if !is_wildcard(template.last())
            && template.last() == tokens.last() {
            1nat
        } else {
            0nat
        }
    }
}

/// The share of the positions that are not wildcards at which a line agrees with
/// a template. A template of wildcards alone is similar to nothing.
pub open spec fn similarity(template: Seq<Seq<char>>, tokens: Seq<Seq<char>>) -> (nat, nat) {
    if template.len() == 0 {
        (1, 1)
    } else if concrete_count(template) == 0 {
        (0, 1)
    } else {
        (agreement_count(template, tokens), concrete_count(template))
    }
}

/// Whether the first fraction is at least as large as the second.
pub open spec fn fraction_at_least(a: (nat, nat), b: (nat, nat)) -> bool {
    a.0 * b.1 >= b.0 * a.1
}

/// A template generalised to fit a line: every token at which they differ
/// becomes a wildcard.
pub open spec fn merged(template: Seq<Seq<char>>, tokens: Seq<Seq<char>>) -> Seq<Seq<char>> {
    Seq::new(
        template.len(),
        |i: int|
            if is_wildcard(template[i]) || template[i] == tokens[i] {
                template[i]
            } else {
                WILDCARD@
            },
    )
}

/// What a registry holds.
pub ghost struct RegistryView {
    /// The clusters, oldest first.
    pub clusters: Seq<ClusterView>,
    /// The share of agreeing tokens from which on a line joins a cluster.
    pub threshold: Share,
    /// How many clusters there can be.
    pub max_templates: nat,
    /// How many lines found no place.
    pub overflow_count: u64,
}

impl RegistryView {
    /// The threshold as a fraction.
    pub open spec fn threshold_fraction(self) -> (nat, nat) {
        (self.threshold.part as nat, self.threshold.whole as nat)
    }

    /// Whether a line can join the cluster at a position.
    pub open spec fn admits(self, i: int, tokens: Seq<Seq<char>>) -> bool {
        &&& 0 <= i < self.clusters.len()
        &&& self.clusters[i].tokens.len() == tokens.len()
        &&& fraction_at_least(similarity(self.clusters[i].tokens, tokens), self.threshold_fraction())
    }

    /// Whether the cluster at a position is the one that a line joins: no other
    /// that admits it is more similar, and no earlier one is as similar.
    pub open spec fn is_best(self, i: int, tokens: Seq<Seq<char>>) -> bool {
        &&& self.admits(i, tokens)
        &&& forall|j: int|
            #[trigger]
            self.admits(j, tokens) ==> fraction_at_least(
                similarity(self.clusters[i].tokens, tokens),
                similarity(self.clusters[j].tokens, tokens),
            )
        &&& forall|j: int|
            #[trigger]
            self.admits(j, tokens) && j < i ==> !fraction_at_least(
                similarity(self.clusters[j].tokens, tokens),
                similarity(self.clusters[i].tokens, tokens),
            )
    }

    /// Whether the counters have room for another line.
    pub open spec fn can_count(self) -> bool {
        &&& self.overflow_count < u64::MAX
        &&& forall|i: int| 0 <= i < self.clusters.len() ==> (#[trigger] self.clusters[i]).count < u64::MAX
    }

    /// What holds of every registry.
    pub open spec fn valid(self) -> bool {
        &&& self.threshold.whole > 0
        &&& self.threshold.part <= self.threshold.whole
        &&& self.clusters.len() <= self.max_templates
        &&& forall|i: int| 0 <= i < self.clusters.len() ==> (#[trigger] self.clusters[i]).tokens.len() > 0
    }

    /// The registry after a line has joined the cluster at a position.
    pub open spec fn joined_by(self, i: int, tokens: Seq<Seq<char>>, timestamp_us: u64) -> RegistryView {
        let cluster = self.clusters[i];
        RegistryView {
            clusters: self.clusters.update(
                i,
                ClusterView {
                    tokens: merged(cluster.tokens, tokens),
                    count: (cluster.count + 1) as u64,
                    last_seen_us: timestamp_us,
                    ..cluster
                },
            ),
            ..self
        }
    }

    /// The registry after a cluster has been opened for a line.
    pub open spec fn opened_for(self, tokens: Seq<Seq<char>>, timestamp_us: u64) -> RegistryView {
        RegistryView {
            clusters: self.clusters.push(
                ClusterView {
                    id: template_hash(tokens),
                    tokens,
                    first_seen_us: timestamp_us,
                    last_seen_us: timestamp_us,
                    count: 1,
                },
            ),
            ..self
        }
    }

    /// Whether `after` and `found` are what a line makes of this registry.
    pub open spec fn processes(
        self,
        tokens: Seq<Seq<char>>,
        timestamp_us: u64,
        after: RegistryView,
        found: TemplateMatch,
    ) -> bool {
        if tokens.len() == 0 {
            &&& after == self
            &&& found.id.0 == TemplateId::EMPTY
            &&& found.template@ == Seq::<char>::empty()
            &&& found.first_seen_us == timestamp_us
            &&& found.count == 0
            &&& !found.is_new
        } else if exists|i: int| self.is_best(i, tokens) {
            exists|i: int|
                {
                    &&& #[trigger] self.is_best(i, tokens)
                    &&& after == self.joined_by(i, tokens, timestamp_us)
                    &&& found.id.0 == self.clusters[i].id
                    &&& found.template@ == text::joined(merged(self.clusters[i].tokens, tokens), " "@)
                    &&& found.first_seen_us == self.clusters[i].first_seen_us
                    &&& found.count == self.clusters[i].count + 1
                    &&& !found.is_new
                }
        } else if self.clusters.len() >= self.max_templates {
            &&& after == (RegistryView { overflow_count: (self.overflow_count + 1) as u64, ..self })
            &&& found.id.0 == TemplateId::OVERFLOW
            &&& found.template@ == text::joined(tokens, " "@)
            &&& found.first_seen_us == timestamp_us
            &&& found.count == 0
            &&& !found.is_new
        } else {
            &&& after == self.opened_for(tokens, timestamp_us)
            &&& found.id.0 == template_hash(tokens)
            &&& found.template@ == text::joined(tokens, " "@)
            &&& found.first_seen_us == timestamp_us
            &&& found.count == 1
            &&& found.is_new
        }
    }

    /// The registry as it is stored: every cluster with its position.
    pub open spec fn stored(self) -> Seq<RecordView> {
        Seq::new(
            self.clusters.len(),
            |i: int| RecordView { order: i as u64, cluster: self.clusters[i] },
        )
    }
}

/// The id of a template that starts with the given tokens.
pub open spec fn template_hash(tokens: Seq<Seq<char>>) -> u64 {
    hash::fnv1a(vstd::utf8::encode_utf8(text::joined(tokens, " "@)))
}

/// Whether each of the sorted records is the one that stood at the given place.
pub open spec fn taken_from(
    records: Seq<RecordView>,
    sorted: Seq<RecordView>,
    places: Seq<int>,
) -> bool {
    forall|i: int|
        0 <= i < places.len() ==> 0 <= #[trigger] places[i] < records.len() && sorted[i]
            == records[places[i]]
}

/// Whether one of two records comes before the other: by its position or, where
/// that is the same, by the place where it stood.
pub open spec fn comes_before(sorted: Seq<RecordView>, places: Seq<int>, i: int, j: int) -> bool {
    ||| sorted[i].order < sorted[j].order
    ||| sorted[i].order == sorted[j].order && places[i] < places[j]
}

/// Whether records are ordered by their position, and those with the same
/// position by the place where they stood.
pub open spec fn in_order(sorted: Seq<RecordView>, places: Seq<int>) -> bool {
    forall|i: int, j: int|
        0 <= i < j < places.len() ==> #[trigger] comes_before(sorted, places, i, j)
}

/// Whether `sorted` holds the given records by their position, and those with
/// the same position in the order in which they came. `places` says where each
/// of them stood.
pub open spec fn sorts_by_order(
    records: Seq<RecordView>,
    sorted: Seq<RecordView>,
    places: Seq<int>,
) -> bool {
    &&& sorted.len() == records.len()
    &&& places.len() == records.len()
    &&& places.no_duplicates()
    &&& taken_from(records, sorted, places)
    &&& in_order(sorted, places)
}

/// Whether `sorted` holds the given records by their position, and those with
/// the same position in the order in which they came.
pub open spec fn sorted_by_order(records: Seq<RecordView>, sorted: Seq<RecordView>) -> bool {
    exists|places: Seq<int>| #[trigger] sorts_by_order(records, sorted, places)
}

/// The clusters of the records that have a token.
pub open spec fn usable(records: Seq<RecordView>) -> Seq<ClusterView>
    decreases records.len(),
{
    if records.len() == 0 {
        Seq::empty()
    } else if records.last().cluster.tokens.len() == 0 {
        usable(records.drop_last())
    } else {
        usable(records.drop_last()).push(records.last().cluster)
    }
}

/// Counts the positions of a template that are not wildcards, and those of them
/// at which a line agrees.
fn token_similarity(template: &Vec<String>, tokens: &Vec<String>) -> (share: Share)
    requires
        template@.len() == tokens@.len(),
    ensures
        share.part == similarity(text::texts(template@), text::texts(tokens@)).0,
        share.whole == similarity(text::texts(template@), text::texts(tokens@)).1,
        share.whole > 0,
{
    let n: usize = template.len();
    if n == 0 {
        return Share { part: 1, whole: 1 };
    }
    let mut concrete: u64 = 0;
    let mut agreeing: u64 = 0;
    let mut i: usize = 0;
    let ghost left = text::texts(template@);
    let ghost right = text::texts(tokens@);
    while i < n
        invariant
            n == template@.len() == tokens@.len(),
            left == text::texts(template@),
            right == text::texts(tokens@),
            i <= n,
            concrete <= i,
            agreeing <= concrete,
            concrete == concrete_count(left.take(i as int)),
            agreeing == agreement_count(left.take(i as int), right.take(i as int)),
        decreases n - i,
    {
        proof {
            assert(left.take(i as int + 1).drop_last() =~= left.take(i as int));
            assert(right.take(i as int + 1).drop_last() =~= right.take(i as int));
        }
        if !text::same_text(template[i].as_str(), WILDCARD) {
            concrete += 1;
            if text::same_text(template[i].as_str(), tokens[i].as_str()) {
                agreeing += 1;
            }
        }
        i += 1;
    }
    proof {
        assert(left.take(n as int) =~= left);
        assert(right.take(n as int) =~= right);
    }
    if concrete == 0 {
        return Share { part: 0, whole: 1 };
    }
    Share { part: agreeing, whole: concrete }
}

/// Generalises a template to fit a line.
fn merge_into_template(template: &mut Vec<String>, tokens: &Vec<String>)
    requires
        old(template)@.len() == tokens@.len(),
    ensures
        text::texts(final(template)@) == merged(text::texts(old(template)@), text::texts(tokens@)),
{
    let n: usize = template.len();
    let mut i: usize = 0;
    let ghost before = template@;
    while i < n
        invariant
            n == template@.len() == tokens@.len() == before.len(),
            i <= n,
            forall|j: int|
                0 <= j < i ==> (#[trigger] template@[j])@ == merged(
                    text::texts(before),
                    text::texts(tokens@),
                )[j],
            forall|j: int| i <= j < n ==> #[trigger] template@[j] == before[j],
        decreases n - i,
    {
        if !text::same_text(template[i].as_str(), WILDCARD) && !text::same_text(
            template[i].as_str(),
            tokens[i].as_str(),
        ) {
            template[i] = WILDCARD.to_string();
        }
        i += 1;
    }
    proof {
        assert(text::texts(template@) =~= merged(text::texts(before), text::texts(tokens@)));
    }
}

/// Records that are sorted stay so when another one is put behind the last that
/// does not come after it.
proof fn sorting_extends(
    records: Seq<RecordView>,
    sorted: Seq<RecordView>,
    places: Seq<int>,
    record: RecordView,
    at: int,
)
    requires
        sorts_by_order(records, sorted, places),
        0 <= at <= sorted.len(),
        forall|i: int| 0 <= i < at ==> (#[trigger] sorted[i]).order <= record.order,
        forall|i: int| at <= i < sorted.len() ==> (#[trigger] sorted[i]).order > record.order,
    ensures
        sorts_by_order(
            records.push(record),
            sorted.insert(at, record),
            places.insert(at, records.len() as int),
        ),
{
    let all = records.push(record);
    let new_sorted = sorted.insert(at, record);
    let new_places = places.insert(at, records.len() as int);
    assert forall|i: int| 0 <= i < new_places.len() implies 0 <= #[trigger] new_places[i] < all.len()
        && new_sorted[i] == all[new_places[i]] by {
        if i < at {
            assert(new_places[i] == places[i]);
        } else if i > at {
            assert(new_places[i] == places[i - 1]);
        }
    }
    assert forall|i: int, j: int| 0 <= i < j < new_places.len() implies #[trigger] comes_before(
        new_sorted,
        new_places,
        i,
        j,
    ) by {
        let a = if i < at { i } else { i - 1 };
        let b = if j < at { j } else { j - 1 };
        if i != at {
            assert(new_places[i] == places[a] && new_sorted[i] == sorted[a]);
        }
        if j != at {
            assert(new_places[j] == places[b] && new_sorted[j] == sorted[b]);
        }
        if i != at && j != at {
            assert(comes_before(sorted, places, a, b));
        }
    }
    assert forall|i: int, j: int|
        0 <= i < new_places.len() && 0 <= j < new_places.len() && i != j implies new_places[i]
        != new_places[j] by {
        let a = if i < at { i } else { i - 1 };
        let b = if j < at { j } else { j - 1 };
        if i != at {
            assert(new_places[i] == places[a]);
        }
        if j != at {
            assert(new_places[j] == places[b]);
        }
    }
    assert(new_places.no_duplicates());
    assert(taken_from(all, new_sorted, new_places));
    assert(in_order(new_sorted, new_places));
}

/// Puts records into the order of their positions; those with the same position
/// stay in the order in which they came.
fn sort_by_order(records: Vec<TemplateRecord>) -> (sorted: Vec<TemplateRecord>)
    ensures
        sorted_by_order(record_views(records@), record_views(sorted@)),
{
    let ghost source = record_views(records@);
    let mut sorted: Vec<TemplateRecord> = Vec::new();
    let ghost mut places: Seq<int> = Seq::empty();
    for record in it: records.into_iter()
        invariant
            it.seq() == records@,
            source == record_views(records@),
            sorts_by_order(source.take(it.index()), record_views(sorted@), places),
    {
        let ghost k = it.index();
        let mut at: usize = sorted.len();
        while at > 0 && sorted[at - 1].order > record.order
            invariant
                at <= sorted.len(),
                forall|i: int|
                    at <= i < sorted.len() ==> (#[trigger] record_views(sorted@)[i]).order
                        > record.order,
            decreases at,
        {
            at -= 1;
        }
        let ghost before = record_views(sorted@);
        proof {
            assert forall|i: int| 0 <= i < at implies (#[trigger] before[i]).order <= record.order by {
                assert(before[at - 1] == sorted@[at - 1]@);
                assert(i < at - 1 ==> comes_before(before, places, i, at - 1));
            }
            sorting_extends(source.take(k), before, places, record@, at as int);
            assert(source.take(k + 1) =~= source.take(k).push(record@));
            places = places.insert(at as int, k);
        }
        sorted.insert(at, record);
        proof {
            assert(record_views(sorted@) =~= before.insert(at as int, record@));
        }
    }
    proof {
        assert(source.take(records@.len() as int) =~= source);
    }
    sorted
}

/// The registry of templates.
pub struct TemplateEngine {
    patterns: MaskPatterns,
    clusters: Vec<Cluster>,
    similarity_threshold: Share,
    max_templates: usize,
    overflow_count: u64,
}

/// The registry's patterns are left out: every `MaskPatterns` masks alike.
impl View for TemplateEngine {
    type V = RegistryView;

    closed spec fn view(&self) -> RegistryView {
        RegistryView {
            clusters: Seq::new(self.clusters@.len(), |i: int| self.clusters@[i]@),
            threshold: self.similarity_threshold,
            max_templates: self.max_templates as nat,
            overflow_count: self.overflow_count,
        }
    }
}

impl TemplateEngine {
    /// Creates an empty registry. A threshold above one counts as one.
    pub fn new(patterns: MaskPatterns, similarity_threshold: Share, max_templates: usize) -> (engine:
        TemplateEngine)
        requires
            similarity_threshold.whole > 0,
        ensures
            engine@.valid(),
            engine@.clusters == Seq::<ClusterView>::empty(),
            engine@.threshold.whole == similarity_threshold.whole,
            engine@.threshold.part == if similarity_threshold.part <= similarity_threshold.whole {
                similarity_threshold.part
            } else {
                similarity_threshold.whole
            },
            engine@.max_templates == max_templates,
            engine@.overflow_count == 0,
    {
        let part: u64 = if similarity_threshold.part <= similarity_threshold.whole {
            similarity_threshold.part
        } else {
            similarity_threshold.whole
        };
        let engine = TemplateEngine {
            patterns,
            clusters: Vec::new(),
            similarity_threshold: Share { part, whole: similarity_threshold.whole },
            max_templates,
            overflow_count: 0,
        };
        proof {
            assert(engine@.clusters =~= Seq::<ClusterView>::empty());
        }
        engine
    }

    /// How many lines found no place because the registry was full.
    pub fn overflow_count(&self) -> (count: u64)
        ensures
            count == self@.overflow_count,
    {
        self.overflow_count
    }

    /// How many templates there are.
    pub fn template_count(&self) -> (count: usize)
        ensures
            count == self@.clusters.len(),
    {
        self.clusters.len()
    }

    /// Copies the registry for storage. The number of lines without a place is
    /// not part of it: it belongs to the running session.
    pub fn snapshot(&self) -> (snapshot: TemplateSnapshot)
        ensures
            record_views(snapshot.clusters@) == self@.stored(),
    {
        let mut clusters: Vec<TemplateRecord> = Vec::new();
        let mut i: usize = 0;
        while i < self.clusters.len()
            invariant
                i <= self.clusters@.len(),
                clusters@.len() == i,
                forall|j: int| 0 <= j < i ==> (#[trigger] clusters@[j])@ == self@.stored()[j],
            decreases self.clusters@.len() - i,
        {
            let cluster = &self.clusters[i];
            clusters.push(
                TemplateRecord {
                    id: cluster.id,
                    order: i as u64,
                    tokens: cluster.token_template.clone(),
                    first_seen_us: cluster.first_seen_us,
                    last_seen_us: cluster.last_seen_us,
                    count: cluster.count,
                },
            );
            i += 1;
        }
        proof {
            assert(record_views(clusters@) =~= self@.stored());
        }
        TemplateSnapshot { clusters }
    }

    /// Builds a registry from what was stored. Records beyond the limit are
    /// dropped from the end, and records without a token are skipped.
    pub fn restore(
        patterns: MaskPatterns,
        snapshot: TemplateSnapshot,
        similarity_threshold: Share,
        max_templates: usize,
    ) -> (engine: TemplateEngine)
        requires
            similarity_threshold.whole > 0,
        ensures
            engine@.valid(),
            engine@.threshold.whole == similarity_threshold.whole,
            engine@.threshold.part == if similarity_threshold.part <= similarity_threshold.whole {
                similarity_threshold.part
            } else {
                similarity_threshold.whole
            },
            engine@.max_templates == max_templates,
            engine@.overflow_count == 0,
            restores(record_views(snapshot.clusters@), max_templates as nat, engine@.clusters),
    {
        let mut engine = TemplateEngine::new(patterns, similarity_threshold, max_templates);
        let records = sort_by_order(snapshot.clusters);
        let ghost sorted = record_views(records@);
        let ghost fresh = engine@;
        let mut taken: usize = 0;
        for record in it: records.into_iter()
            invariant
                it.seq() == records@,
                sorted == record_views(records@),
                taken <= it.index(),
                taken == (if it.index() <= max_templates { it.index() } else { max_templates as int }),
                engine@.valid(),
                engine@ == (RegistryView { clusters: engine@.clusters, ..fresh }),
                fresh.max_templates == max_templates,
                engine@.clusters == usable(sorted.take(taken as int)),
                engine@.clusters.len() <= taken,
        {
            if taken < max_templates {
                let ghost before = engine@.clusters;
                proof {
                    assert(sorted.take(taken as int + 1).drop_last() =~= sorted.take(taken as int));
                    assert(sorted[taken as int] == record@);
                }
                if record.tokens.len() > 0 {
                    engine.clusters.push(
                        Cluster {
                            id: record.id,
                            token_template: record.tokens,
                            first_seen_us: record.first_seen_us,
                            last_seen_us: record.last_seen_us,
                            count: record.count,
                        },
                    );
                    proof {
                        assert(engine@.clusters =~= before.push(record@.cluster));
                    }
                }
                taken += 1;
            }
        }
        proof {
            let limit = if sorted.len() <= max_templates { sorted.len() as int } else { max_templates as int };
            assert(taken == limit);
            assert(restores_from(sorted, max_templates as nat, engine@.clusters));
        }
        engine
    }

    /// Finds the most similar cluster of the same length, if its similarity
    /// reaches the threshold.
    fn find_best_cluster(&self, tokens: &Vec<String>) -> (best: Option<usize>)
        requires
            self@.valid(),
        ensures
            match best {
                Some(i) => self@.is_best(i as int, text::texts(tokens@)),
                None => forall|j: int| !self@.admits(j, text::texts(tokens@)),
            },
    {
        let ghost wanted = text::texts(tokens@);
        let mut best: Option<(usize, Share)> = None;
        let mut i: usize = 0;
        while i < self.clusters.len()
            invariant
                self@.valid(),
                wanted == text::texts(tokens@),
                i <= self.clusters@.len(),
                match best {
                    Some((b, share)) => {
                        let found = (share.part as nat, share.whole as nat);
                        &&& b < i
                        &&& share.whole > 0
                        &&& self@.admits(b as int, wanted)
                        &&& found == similarity(self@.clusters[b as int].tokens, wanted)
                        &&& forall|j: int|
                            #[trigger]
                            self@.admits(j, wanted) && j < i ==> fraction_at_least(
                                found,
                                similarity(self@.clusters[j].tokens, wanted),
                            )
                        &&& forall|j: int|
                            #[trigger]
                            self@.admits(j, wanted) && j < b ==> !fraction_at_least(
                                similarity(self@.clusters[j].tokens, wanted),
                                found,
                            )
                    },
                    None => forall|j: int| #[trigger] self@.admits(j, wanted) ==> j >= i,
                },
            decreases self.clusters@.len() - i,
        {
            let cluster = &self.clusters[i];
            proof {
                assert(self@.clusters[i as int] == cluster@);
            }
            if cluster.token_template.len() == tokens.len() {
                let share = token_similarity(&cluster.token_template, tokens);
                if is_at_least(&share, &self.similarity_threshold) {
                    proof {
                        assert(self@.admits(i as int, wanted));
                    }
                    let better = match &best {
                        Some((_, leader)) => !is_at_least(leader, &share),
                        None => true,
                    };
                    if better {
                        proof {
                            if let Some((b, leader)) = best {
                                let old_found = (leader.part as nat, leader.whole as nat);
                                let found = (share.part as nat, share.whole as nat);
                                assert forall|j: int| #[trigger]
                                    self@.admits(j, wanted) && j < i implies !fraction_at_least(
                                    similarity(self@.clusters[j].tokens, wanted),
                                    found,
                                ) by {
                                    let other = similarity(self@.clusters[j].tokens, wanted);
                                    if fraction_at_least(other, found) {
                                        at_least_is_transitive(old_found, other, found);
                                    }
                                }
                                assert forall|j: int| #[trigger]
                                    self@.admits(j, wanted) && j < i + 1 implies fraction_at_least(
                                    found,
                                    similarity(self@.clusters[j].tokens, wanted),
                                ) by {
                                    if j < i {
                                        let other = similarity(self@.clusters[j].tokens, wanted);
                                        at_least_is_total(found, old_found);
                                        at_least_is_transitive(found, old_found, other);
                                    }
                                }
                            }
                        }
                        best = Some((i, share));
                    }
                }
            }
            i += 1;
        }
        match best {
            Some((b, _)) => Some(b),
            None => None,
        }
    }

    /// Masks a message and puts it into its cluster, or opens one for it while
    /// there is room.
    pub fn process(&mut self, message: &str, timestamp_us: u64) -> (found: TemplateMatch)
        requires
            old(self)@.valid(),
            old(self)@.can_count(),
        ensures
            final(self)@.valid(),
            old(self)@.processes(mask::masked_message(message@), timestamp_us, final(self)@, found),
    {
        let tokens = mask::mask_message(&self.patterns, message);
        self.process_tokens(tokens, timestamp_us)
    }

    /// Puts a line of masked tokens into its cluster, or opens one for it while
    /// there is room.
    pub fn process_tokens(&mut self, tokens: Vec<String>, timestamp_us: u64) -> (found: TemplateMatch)
        requires
            old(self)@.valid(),
            old(self)@.can_count(),
        ensures
            final(self)@.valid(),
            old(self)@.processes(text::texts(tokens@), timestamp_us, final(self)@, found),
    {
        let ghost before = self@;
        let ghost wanted = text::texts(tokens@);
        if tokens.len() == 0 {
            return TemplateMatch {
                id: TemplateId::empty(),
                template: String::new(),
                first_seen_us: timestamp_us,
                count: 0,
                is_new: false,
            };
        }
        if let Some(i) = self.find_best_cluster(&tokens) {
            proof {
                assert(before.clusters[i as int] == self.clusters@[i as int]@);
            }
            let cluster = &mut self.clusters[i];
            merge_into_template(&mut cluster.token_template, &tokens);
            cluster.count = cluster.count + 1;
            cluster.last_seen_us = timestamp_us;
            let found = TemplateMatch {
                id: cluster.id,
                template: text::join(&cluster.token_template, " "),
                first_seen_us: cluster.first_seen_us,
                count: cluster.count,
                is_new: false,
            };
            proof {
                assert(self@.clusters =~= before.joined_by(i as int, wanted, timestamp_us).clusters);
                assert(before.is_best(i as int, wanted));
            }
            return found;
        }
        proof {
            assert(forall|i: int| !before.is_best(i, wanted));
        }
        let template = text::join(&tokens, " ");
        if self.clusters.len() >= self.max_templates {
            self.overflow_count = self.overflow_count + 1;
            proof {
                assert(self@.clusters =~= before.clusters);
            }
            return TemplateMatch {
                id: TemplateId::overflow(),
                template,
                first_seen_us: timestamp_us,
                count: 0,
                is_new: false,
            };
        }
        let id = TemplateId(hash::fnv1a_hash64(template.as_str().as_bytes()));
        self.clusters.push(
            Cluster {
                id,
                token_template: tokens,
                first_seen_us: timestamp_us,
                last_seen_us: timestamp_us,
                count: 1,
            },
        );
        proof {
            assert(self@.clusters =~= before.opened_for(wanted, timestamp_us).clusters);
        }
        TemplateMatch { id, template, first_seen_us: timestamp_us, count: 1, is_new: true }
    }
}

/// Whether the clusters are those that are kept of records in this order.
pub open spec fn restores_from(
    sorted: Seq<RecordView>,
    max_templates: nat,
    clusters: Seq<ClusterView>,
) -> bool {
    clusters == usable(
        sorted.take(
            if sorted.len() <= max_templates {
                sorted.len() as int
            } else {
                max_templates as int
            },
        ),
    )
}

/// Whether the clusters are those that are kept of stored records: the first
/// `max_templates` by position, without those that have no token.
pub open spec fn restores(
    records: Seq<RecordView>,
    max_templates: nat,
    clusters: Seq<ClusterView>,
) -> bool {
    exists|sorted: Seq<RecordView>| #[trigger]
        restores_from(sorted, max_templates, clusters) && sorted_by_order(records, sorted)
}

/// Of two fractions, one is at least as large as the other.
proof fn at_least_is_total(a: (nat, nat), b: (nat, nat))
    ensures
        fraction_at_least(a, b) || fraction_at_least(b, a),
{
}

/// The order of fractions is transitive.
proof fn at_least_is_transitive(a: (nat, nat), b: (nat, nat), c: (nat, nat))
    requires
        a.1 > 0,
        b.1 > 0,
        c.1 > 0,
        fraction_at_least(a, b),
        fraction_at_least(b, c),
    ensures
        fraction_at_least(a, c),
{
    assert(a.0 * c.1 >= c.0 * a.1) by (nonlinear_arith)
        requires
            a.0 * b.1 >= b.0 * a.1,
            b.0 * c.1 >= c.0 * b.1,
            a.1 > 0,
            b.1 > 0,
            c.1 > 0,
            a.0 >= 0,
            b.0 >= 0,
            c.0 >= 0,
    ;
}

/// The positions at which a line agrees are among those that are not wildcards.
proof fn agreement_is_bounded(template: Seq<Seq<char>>, tokens: Seq<Seq<char>>)
    ensures
        agreement_count(template, tokens) <= concrete_count(template),
    decreases template.len(),
{
    if template.len() > 0 && tokens.len() > 0 {
        agreement_is_bounded(template.drop_last(), tokens.drop_last());
    }
}

/// After a line has been merged into a template, what is left without wildcards
/// is what they had in common.
proof fn merging_keeps_the_agreement(template: Seq<Seq<char>>, tokens: Seq<Seq<char>>)
    requires
        template.len() == tokens.len(),
    ensures
        concrete_count(merged(template, tokens)) == agreement_count(template, tokens),
        agreement_count(merged(template, tokens), tokens) == agreement_count(template, tokens),
    decreases template.len(),
{
    if template.len() > 0 {
        merging_keeps_the_agreement(template.drop_last(), tokens.drop_last());
        assert(merged(template, tokens).drop_last() =~= merged(
            template.drop_last(),
            tokens.drop_last(),
        ));
    }
}

/// A line agrees with itself wherever it has no wildcard.
proof fn line_agrees_with_itself(tokens: Seq<Seq<char>>)
    ensures
        agreement_count(tokens, tokens) == concrete_count(tokens),
    decreases tokens.len(),
{
    if tokens.len() > 0 {
        line_agrees_with_itself(tokens.drop_last());
    }
}

/// Merging generalises: a template keeps its length and its wildcards, and every
/// token of it stays or becomes a wildcard.
pub proof fn merging_generalises(template: Seq<Seq<char>>, tokens: Seq<Seq<char>>)
    ensures
        merged(template, tokens).len() == template.len(),
        forall|i: int|
            0 <= i < template.len() ==> (#[trigger] merged(template, tokens)[i] == template[i]
                || is_wildcard(merged(template, tokens)[i])),
        forall|i: int|
            0 <= i < template.len() && is_wildcard(template[i]) ==> is_wildcard(
                #[trigger] merged(template, tokens)[i],
            ),
        merged(merged(template, tokens), tokens) == merged(template, tokens),
{
    assert(merged(merged(template, tokens), tokens) =~= merged(template, tokens));
}

/// Where some cluster below a position admits a line, one of those is the most
/// similar, and the first of its kind.
proof fn best_below(registry: RegistryView, tokens: Seq<Seq<char>>, n: int) -> (best: int)
    requires
        exists|j: int| #[trigger] registry.admits(j, tokens) && j < n,
    ensures
        registry.admits(best, tokens),
        best < n,
        forall|j: int|
            #[trigger]
            registry.admits(j, tokens) && j < n ==> fraction_at_least(
                similarity(registry.clusters[best].tokens, tokens),
                similarity(registry.clusters[j].tokens, tokens),
            ),
        forall|j: int|
            #[trigger]
            registry.admits(j, tokens) && j < best ==> !fraction_at_least(
                similarity(registry.clusters[j].tokens, tokens),
                similarity(registry.clusters[best].tokens, tokens),
            ),
    decreases n,
{
    if exists|j: int| #[trigger] registry.admits(j, tokens) && j < n - 1 {
        let leader = best_below(registry, tokens, n - 1);
        let top = similarity(registry.clusters[leader].tokens, tokens);
        let last = similarity(registry.clusters[n - 1].tokens, tokens);
        if registry.admits(n - 1, tokens) && !fraction_at_least(top, last) {
            assert forall|j: int| #[trigger]
                registry.admits(j, tokens) && j < n implies fraction_at_least(
                last,
                similarity(registry.clusters[j].tokens, tokens),
            ) by {
                let other = similarity(registry.clusters[j].tokens, tokens);
                if j < n - 1 {
                    at_least_is_transitive(last, top, other);
                }
            }
            assert forall|j: int| #[trigger]
                registry.admits(j, tokens) && j < n - 1 implies !fraction_at_least(
                similarity(registry.clusters[j].tokens, tokens),
                last,
            ) by {
                let other = similarity(registry.clusters[j].tokens, tokens);
                if fraction_at_least(other, last) {
                    at_least_is_transitive(top, other, last);
                }
            }
            n - 1
        } else {
            leader
        }
    } else {
        n - 1
    }
}

/// Where some cluster admits a line, there is one that the line joins.
pub proof fn best_exists(registry: RegistryView, tokens: Seq<Seq<char>>, j: int)
    requires
        registry.admits(j, tokens),
    ensures
        exists|i: int| registry.is_best(i, tokens),
{
    let best = best_below(registry, tokens, registry.clusters.len() as int);
    assert(registry.is_best(best, tokens));
}

/// The same line twice in a row finds the same template: the second time it is
/// not new, and counts one more. Unless the threshold is zero, the line needs a
/// token that is not written like a wildcard, and the first time there must have
/// been room for it.
pub proof fn same_line_finds_its_template(
    registry: RegistryView,
    tokens: Seq<Seq<char>>,
    first_us: u64,
    after: RegistryView,
    first: TemplateMatch,
    second_us: u64,
    later: RegistryView,
    second: TemplateMatch,
)
    requires
        registry.valid(),
        registry.can_count(),
        registry.threshold.part > 0 ==> concrete_count(tokens) > 0,
        registry.processes(tokens, first_us, after, first),
        after.processes(tokens, second_us, later, second),
        first.count > 0,
    ensures
        second.id == first.id,
        second.first_seen_us == first.first_seen_us,
        second.count == first.count + 1,
        !second.is_new,
{
    let threshold = registry.threshold_fraction();
    let at = if exists|i: int| registry.is_best(i, tokens) {
        choose|i: int|
            {
                &&& #[trigger] registry.is_best(i, tokens)
                &&& after == registry.joined_by(i, tokens, first_us)
                &&& first.id.0 == registry.clusters[i].id
                &&& first.template@ == text::joined(merged(registry.clusters[i].tokens, tokens), " "@)
                &&& first.first_seen_us == registry.clusters[i].first_seen_us
                &&& first.count == registry.clusters[i].count + 1
                &&& !first.is_new
            }
    } else {
        registry.clusters.len() as int
    };
    let known = exists|i: int| registry.is_best(i, tokens);
    let template = if known {
        registry.clusters[at].tokens
    } else {
        tokens
    };
    let now = after.clusters[at].tokens;
    let whole = similarity(now, tokens);
    if known {
        merging_keeps_the_agreement(template, tokens);
        agreement_is_bounded(template, tokens);
    } else {
        line_agrees_with_itself(tokens);
    }
    let share = similarity(template, tokens);
    assert(known && threshold.0 > 0 ==> share.0 > 0) by {
        if known && threshold.0 > 0 {
            assert(share.0 * threshold.1 >= threshold.0 * share.1);
            assert(share.0 > 0) by (nonlinear_arith)
                requires
                    share.0 * threshold.1 >= threshold.0 * share.1,
                    threshold.0 > 0,
                    share.1 > 0,
                    share.0 >= 0,
            ;
        }
    }
    assert(whole.1 > 0);
    assert(whole.0 == whole.1 || whole.0 == 0 && threshold.0 == 0 && (known ==> share.0 == 0));
    assert(after.admits(at, tokens)) by {
        assert(whole.0 * threshold.1 >= threshold.0 * whole.1) by (nonlinear_arith)
            requires
                whole.0 == whole.1 || threshold.0 == 0,
                threshold.0 <= threshold.1,
        ;
    }
    assert forall|j: int| #[trigger] after.admits(j, tokens) && j != at implies registry.admits(
        j,
        tokens,
    ) && after.clusters[j] == registry.clusters[j] && known by {
        assert(registry.admits(j, tokens));
        best_exists(registry, tokens, j);
    }
    assert forall|j: int| #[trigger] after.admits(j, tokens) implies fraction_at_least(
        whole,
        similarity(after.clusters[j].tokens, tokens),
    ) by {
        let other = similarity(after.clusters[j].tokens, tokens);
        agreement_is_bounded(after.clusters[j].tokens, tokens);
        if j != at && whole.0 == 0 {
            assert(fraction_at_least(share, other));
            assert(other.0 == 0) by (nonlinear_arith)
                requires
                    share.0 * other.1 >= other.0 * share.1,
                    share.0 == 0,
                    share.1 > 0,
                    other.0 >= 0,
            ;
        }
        assert(whole.0 * other.1 >= other.0 * whole.1) by (nonlinear_arith)
            requires
                whole.0 == whole.1 && other.0 <= other.1 || other.0 == 0 || other == whole,
        ;
    }
    assert forall|j: int| #[trigger] after.admits(j, tokens) && j < at implies !fraction_at_least(
        similarity(after.clusters[j].tokens, tokens),
        whole,
    ) by {
        let other = similarity(after.clusters[j].tokens, tokens);
        assert(registry.admits(j, tokens));
        if fraction_at_least(other, whole) {
            agreement_is_bounded(template, tokens);
            assert(other.0 * share.1 >= share.0 * other.1) by (nonlinear_arith)
                requires
                    other.0 * whole.1 >= whole.0 * other.1,
                    whole.0 == whole.1 || share.0 == 0,
                    whole.1 > 0,
                    share.0 <= share.1,
                    other.1 >= 0,
                    other.0 >= 0,
            ;
            assert(fraction_at_least(other, share));
        }
    }
    assert(after.is_best(at, tokens));
    let again = choose|i: int|
        {
            &&& #[trigger] after.is_best(i, tokens)
            &&& later == after.joined_by(i, tokens, second_us)
            &&& second.id.0 == after.clusters[i].id
            &&& second.template@ == text::joined(merged(after.clusters[i].tokens, tokens), " "@)
            &&& second.first_seen_us == after.clusters[i].first_seen_us
            &&& second.count == after.clusters[i].count + 1
            &&& !second.is_new
        };
    assert(again == at) by {
        assert(after.admits(again, tokens));
        assert(after.admits(at, tokens));
    }
}

/// A line: its masked tokens and its time.
pub ghost struct Line {
    /// The masked tokens.
    pub tokens: Seq<Seq<char>>,
    /// The time.
    pub timestamp_us: u64,
}

/// Whether a registry has taken lines one after the other: `states` says what it
/// held before each of them and after the last, `found` where they were put.
pub open spec fn takes_lines(
    states: Seq<RegistryView>,
    lines: Seq<Line>,
    found: Seq<TemplateMatch>,
) -> bool {
    &&& states.len() == lines.len() + 1
    &&& found.len() == lines.len()
    &&& forall|k: int|
        0 <= k < lines.len() ==> #[trigger] states[k].processes(
            lines[k].tokens,
            lines[k].timestamp_us,
            states[k + 1],
            found[k],
        )
}

/// A template that is known stays known: whatever lines come, and however many, it
/// keeps its position, its id, the time of its first line and its number of tokens,
/// and its count does not fall.
pub proof fn known_templates_stay(
    states: Seq<RegistryView>,
    lines: Seq<Line>,
    found: Seq<TemplateMatch>,
    at: int,
    k: int,
)
    requires
        takes_lines(states, lines, found),
        forall|j: int| 0 <= j < lines.len() ==> (#[trigger] states[j]).can_count(),
        0 <= at < states[0].clusters.len(),
        0 <= k < states.len(),
    ensures
        at < states[k].clusters.len(),
        states[k].clusters[at].id == states[0].clusters[at].id,
        states[k].clusters[at].first_seen_us == states[0].clusters[at].first_seen_us,
        states[k].clusters[at].tokens.len() == states[0].clusters[at].tokens.len(),
        states[k].clusters[at].count >= states[0].clusters[at].count,
    decreases k,
{
    if k > 0 {
        known_templates_stay(states, lines, found, at, k - 1);
        let j: int = k - 1;
        assert(states[j].processes(
            lines[j].tokens,
            lines[j].timestamp_us,
            states[j + 1],
            found[j],
        ));
        assert(states[j].can_count());
    }
}

/// A line that a template was opened for is known for good: whatever lines come in
/// between, however far they generalise the templates, and even when the registry
/// is full, the line opens no further template and finds a place. Unless the
/// threshold is zero, it needs a token that is not written like a wildcard.
pub proof fn founding_lines_stay_known(
    states: Seq<RegistryView>,
    lines: Seq<Line>,
    found: Seq<TemplateMatch>,
)
    requires
        lines.len() >= 2,
        takes_lines(states, lines, found),
        states[0].valid(),
        found[0].is_new,
        lines.last().tokens == lines[0].tokens,
        states[0].threshold.part > 0 ==> concrete_count(lines[0].tokens) > 0,
    ensures
        ({
            let last = lines.len() - 1;
            &&& !found[last].is_new
            &&& found[last].count > 0
            &&& states[last + 1].clusters.len() == states[last].clusters.len()
            &&& states[last + 1].overflow_count == states[last].overflow_count
        }),
{
    let last = lines.len() - 1;
    let tokens = lines[0].tokens;
    let at = states[0].clusters.len() as int;
    let first: int = 0;
    assert(states[first].processes(
        lines[first].tokens,
        lines[first].timestamp_us,
        states[first + 1],
        found[first],
    ));
    assert(specialises(states[1], at, tokens));
    founder_is_kept(states, lines, found, at, tokens, last);
    founder_admits(states[last], at, tokens);
    best_exists(states[last], tokens, at);
    assert(states[last].processes(
        tokens,
        lines[last].timestamp_us,
        states[last + 1],
        found[last],
    ));
}

/// Whether the cluster at a position is one that a line was the first of, or a
/// generalisation of it that still tells it from other lines.
spec fn specialises(registry: RegistryView, at: int, tokens: Seq<Seq<char>>) -> bool {
    let template = registry.clusters[at].tokens;
    &&& 0 <= at < registry.clusters.len()
    &&& template.len() == tokens.len()
    &&& tokens.len() > 0
    &&& forall|i: int|
        0 <= i < template.len() ==> #[trigger] template[i] == tokens[i] || is_wildcard(template[i])
    &&& registry.threshold.part > 0 ==> concrete_count(template) > 0
    &&& registry.threshold.whole > 0
    &&& registry.threshold.part <= registry.threshold.whole
}

proof fn founder_is_kept(
    states: Seq<RegistryView>,
    lines: Seq<Line>,
    found: Seq<TemplateMatch>,
    at: int,
    tokens: Seq<Seq<char>>,
    k: int,
)
    requires
        takes_lines(states, lines, found),
        1 <= k < states.len(),
        specialises(states[1], at, tokens),
    ensures
        specialises(states[k], at, tokens),
    decreases k,
{
    if k > 1 {
        founder_is_kept(states, lines, found, at, tokens, k - 1);
        let before = states[k - 1];
        let after = states[k];
        let line = lines[k - 1].tokens;
        assert(before.processes(line, lines[k - 1].timestamp_us, states[k - 1 + 1], found[k - 1]));
        if after.clusters[at].tokens != before.clusters[at].tokens {
            assert(before.is_best(at, line));
            let template = before.clusters[at].tokens;
            assert(after.clusters[at].tokens == merged(template, line));
            merging_keeps_the_agreement(template, line);
            if before.threshold.part > 0 {
                let share = similarity(template, line);
                let threshold = before.threshold_fraction();
                assert(share.0 > 0) by (nonlinear_arith)
                    requires
                        share.0 * threshold.1 >= threshold.0 * share.1,
                        threshold.0 > 0,
                        share.1 > 0,
                        share.0 >= 0,
                ;
            }
        }
    }
}

/// Such a cluster admits the line.
proof fn founder_admits(registry: RegistryView, at: int, tokens: Seq<Seq<char>>)
    requires
        specialises(registry, at, tokens),
    ensures
        registry.admits(at, tokens),
{
    let template = registry.clusters[at].tokens;
    generalisation_agrees(template, tokens);
    let share = similarity(template, tokens);
    let threshold = registry.threshold_fraction();
    assert(share.0 * threshold.1 >= threshold.0 * share.1) by (nonlinear_arith)
        requires
            share.0 == share.1 || threshold.0 == 0,
            threshold.0 <= threshold.1,
    ;
}

/// A line agrees with a generalisation of it wherever that has no wildcard.
proof fn generalisation_agrees(template: Seq<Seq<char>>, tokens: Seq<Seq<char>>)
    requires
        template.len() == tokens.len(),
        forall|i: int|
            0 <= i < template.len() ==> #[trigger] template[i] == tokens[i] || is_wildcard(
                template[i],
            ),
    ensures
        agreement_count(template, tokens) == concrete_count(template),
    decreases template.len(),
{
    if template.len() > 0 {
        let shorter = template.drop_last();
        let fewer = tokens.drop_last();
        assert forall|i: int| 0 <= i < shorter.len() implies #[trigger] shorter[i] == fewer[i]
            || is_wildcard(shorter[i]) by {
            assert(template[i] == tokens[i] || is_wildcard(template[i]));
        }
        generalisation_agrees(shorter, fewer);
        let n = template.len() - 1;
        assert(template[n] == tokens[n] || is_wildcard(template[n]));
    }
}

/// Numbers below `n` that rise strictly, `n` of them, are 0, 1, 2 and so on.
proof fn rising_places_are_all_places(places: Seq<int>, n: int)
    requires
        places.len() == n,
        forall|i: int| 0 <= i < n ==> 0 <= #[trigger] places[i] < n,
        forall|i: int, j: int| 0 <= i < j < n ==> #[trigger] places[i] < #[trigger] places[j],
    ensures
        forall|i: int| 0 <= i < n ==> #[trigger] places[i] == i,
{
    assert forall|i: int| 0 <= i < n implies #[trigger] places[i] >= i by {
        rising_places_lag_behind(places, n, i);
    }
    assert forall|i: int| 0 <= i < n implies #[trigger] places[i] <= i by {
        rising_places_stay_below(places, n, n - 1 - i);
    }
}

proof fn rising_places_lag_behind(places: Seq<int>, n: int, i: int)
    requires
        places.len() == n,
        0 <= i < n,
        forall|i: int| 0 <= i < n ==> 0 <= #[trigger] places[i] < n,
        forall|i: int, j: int| 0 <= i < j < n ==> #[trigger] places[i] < #[trigger] places[j],
    ensures
        places[i] >= i,
    decreases i,
{
    if i > 0 {
        rising_places_lag_behind(places, n, i - 1);
    }
}

proof fn rising_places_stay_below(places: Seq<int>, n: int, k: int)
    requires
        places.len() == n,
        0 <= k < n,
        forall|i: int| 0 <= i < n ==> 0 <= #[trigger] places[i] < n,
        forall|i: int, j: int| 0 <= i < j < n ==> #[trigger] places[i] < #[trigger] places[j],
    ensures
        places[n - 1 - k] <= n - 1 - k,
    decreases k,
{
    if k > 0 {
        rising_places_stay_below(places, n, k - 1);
        assert(places[n - 1 - k] < places[n - k]);
    }
}

/// The clusters of records that all have a token are all of them.
proof fn all_usable(records: Seq<RecordView>)
    requires
        forall|i: int| 0 <= i < records.len() ==> (#[trigger] records[i]).cluster.tokens.len() > 0,
    ensures
        usable(records) == Seq::new(records.len(), |i: int| records[i].cluster),
    decreases records.len(),
{
    let all = Seq::new(records.len(), |i: int| records[i].cluster);
    if records.len() == 0 {
        assert(usable(records) =~= all);
    } else {
        let fewer = records.drop_last();
        assert forall|i: int| 0 <= i < fewer.len() implies (#[trigger] fewer[i]).cluster.tokens.len()
            > 0 by {
            assert(fewer[i] == records[i]);
        }
        all_usable(fewer);
        assert(records.last() == records[records.len() - 1]);
        assert(usable(records) =~= all);
    }
}

/// Whether one list holds the records of another, each as often, in some order.
/// `places` says where each of them stood.
pub open spec fn rearranges(records: Seq<RecordView>, listed: Seq<RecordView>, places: Seq<int>) -> bool {
    &&& listed.len() == records.len()
    &&& places.len() == records.len()
    &&& places.no_duplicates()
    &&& taken_from(records, listed, places)
}

/// What is stored of a registry and restored has the same clusters in the same
/// order, in whatever order the records come back. Under a lower limit, the ones
/// opened last are left out; under the same limit, none.
pub proof fn restoring_undoes_storing(
    registry: RegistryView,
    listed: Seq<RecordView>,
    limit: nat,
    clusters: Seq<ClusterView>,
)
    requires
        registry.valid(),
        registry.clusters.len() <= u64::MAX,
        exists|stood: Seq<int>| #[trigger] rearranges(registry.stored(), listed, stood),
        restores(listed, limit, clusters),
    ensures
        clusters == registry.clusters.take(
            if registry.clusters.len() <= limit {
                registry.clusters.len() as int
            } else {
                limit as int
            },
        ),
        limit >= registry.max_templates ==> clusters == registry.clusters,
{
    let stored = registry.stored();
    let n = stored.len() as int;
    let stood = choose|stood: Seq<int>| #[trigger] rearranges(stored, listed, stood);
    let sorted = choose|sorted: Seq<RecordView>| #[trigger]
        restores_from(sorted, limit, clusters) && sorted_by_order(listed, sorted);
    let places = choose|places: Seq<int>| #[trigger] sorts_by_order(listed, sorted, places);
    let origins = Seq::new(n as nat, |i: int| stood[places[i]]);
    assert forall|i: int| 0 <= i < n implies 0 <= #[trigger] origins[i] < n && sorted[i]
        == stored[origins[i]] && sorted[i].order == origins[i] by {
        assert(0 <= places[i] < n);
        assert(sorted[i] == listed[places[i]]);
        assert(listed[places[i]] == stored[stood[places[i]]]);
    }
    assert forall|i: int, j: int| 0 <= i < j < n implies #[trigger] origins[i] < #[trigger] origins[j] by {
        assert(comes_before(sorted, places, i, j));
        assert(0 <= places[i] < n);
        assert(0 <= places[j] < n);
        if origins[i] == origins[j] {
            assert(places[i] == places[j]);
        }
    }
    rising_places_are_all_places(origins, n);
    assert forall|i: int| 0 <= i < n implies sorted[i] == stored[i] by {
        assert(origins[i] == i);
    }
    assert(sorted =~= stored);
    let kept = stored.take(
        if n <= limit {
            n
        } else {
            limit as int
        },
    );
    assert forall|i: int| 0 <= i < kept.len() implies (#[trigger] kept[i]).cluster.tokens.len()
        > 0 by {
        assert(kept[i] == stored[i]);
        assert(registry.clusters[i].tokens.len() > 0);
    }
    all_usable(kept);
    assert(clusters =~= registry.clusters.take(kept.len() as int));
    assert(registry.clusters.take(n) =~= registry.clusters);
}

/// A new template is named after its whole first line: its text is the tokens of the line
/// with single spaces between them, and its id is the published hash of the bytes of that
/// text. Where the tokens are words, they can be read off the text again, so none of them
/// is left out.
pub proof fn a_new_template_is_named_after_its_line(
    registry: RegistryView,
    tokens: Seq<Seq<char>>,
    timestamp_us: u64,
    after: RegistryView,
    found: TemplateMatch,
)
    requires
        registry.processes(tokens, timestamp_us, after, found),
        found.is_new,
    ensures
        found.template@ == text::joined(tokens, " "@),
        found.id.0 == hash::fnv1a(vstd::utf8::encode_utf8(found.template@)),
        (forall|i: int| 0 <= i < tokens.len() ==> text::is_word(#[trigger] tokens[i]))
            ==> text::words(found.template@) == tokens,
        found.first_seen_us == timestamp_us,
        found.count == 1,
        after.clusters.len() == registry.clusters.len() + 1,
        after.clusters.last().id == found.id.0,
        after.clusters.last().tokens == tokens,
        after.clusters.last().first_seen_us == timestamp_us,
        after.clusters.last().last_seen_us == timestamp_us,
        after.clusters.last().count == 1,
        forall|i: int|
            0 <= i < registry.clusters.len() ==> #[trigger] after.clusters[i]
                == registry.clusters[i],
        after.overflow_count == registry.overflow_count,
{
    if forall|i: int| 0 <= i < tokens.len() ==> text::is_word(#[trigger] tokens[i]) {
        text::splitting_undoes_joining(tokens);
    }
}

/// Lines are told apart by every one of their tokens: two lines that open templates, in
/// whatever registries and at whatever times, get different ids if the bytes of their
/// joined tokens are as many and differ in just one place, wherever that is. The same
/// tokens get the same id.
pub proof fn every_token_has_a_say_in_the_id(
    one: RegistryView,
    first: Seq<Seq<char>>,
    first_us: u64,
    after_one: RegistryView,
    found_one: TemplateMatch,
    two: RegistryView,
    second: Seq<Seq<char>>,
    second_us: u64,
    after_two: RegistryView,
    found_two: TemplateMatch,
    place: int,
)
    requires
        one.processes(first, first_us, after_one, found_one),
        two.processes(second, second_us, after_two, found_two),
        found_one.is_new,
        found_two.is_new,
    ensures
        first == second ==> found_one.id == found_two.id,
        ({
            let a = vstd::utf8::encode_utf8(text::joined(first, " "@));
            let b = vstd::utf8::encode_utf8(text::joined(second, " "@));
            a.len() == b.len() && 0 <= place < a.len() && a[place] != b[place] && (forall|i: int|
                0 <= i < a.len() && i != place ==> #[trigger] a[i] == b[i]) ==> found_one.id
                != found_two.id
        }),
{
    let a = vstd::utf8::encode_utf8(text::joined(first, " "@));
    let b = vstd::utf8::encode_utf8(text::joined(second, " "@));
    if a.len() == b.len() && 0 <= place < a.len() && a[place] != b[place] && (forall|i: int|
        0 <= i < a.len() && i != place ==> #[trigger] a[i] == b[i]) {
        hash::fnv1a_tells_one_byte_apart(a, b, place);
    }
}

/// The sign for a token that varies, and the numbers that are no hashes.
pub proof fn reserved_marks()
    ensures
        WILDCARD@ == seq!['<', '*', '>'],
        TemplateId::EMPTY == 0,
        TemplateId::OVERFLOW == 0xffff_ffff_ffff_ffff,
{
    reveal_strlit("<*>");
    assert(WILDCARD@ =~= seq!['<', '*', '>']);
}

/// One more position counts as concrete unless the template has the wildcard `<*>` there,
/// and as agreeing if it is concrete and the line has the same token.
pub proof fn positions_are_counted_one_by_one(
    template: Seq<Seq<char>>,
    tokens: Seq<Seq<char>>,
    last: Seq<char>,
    token: Seq<char>,
)
    requires
        template.len() == tokens.len(),
    ensures
        concrete_count(Seq::<Seq<char>>::empty()) == 0,
        concrete_count(template.push(last)) == concrete_count(template) + if last == seq![
            '<',
            '*',
            '>',
        ] {
            0int
        } else {
            1int
        },
        agreement_count(Seq::<Seq<char>>::empty(), tokens) == 0,
        agreement_count(template.push(last), tokens.push(token)) == agreement_count(
            template,
            tokens,
        ) + if last != seq!['<', '*', '>'] && last == token {
            1int
        } else {
            0int
        },
{
    reserved_marks();
    assert(template.push(last).drop_last() =~= template);
    assert(tokens.push(token).drop_last() =~= tokens);
}

/// A line can join a cluster of as many tokens if it agrees with at least the set share of
/// the positions that are no wildcards; it never joins one of another length. To one
/// that is nothing but wildcards it is similar to no share above zero.
pub proof fn joining_takes_the_set_share(registry: RegistryView, i: int, tokens: Seq<Seq<char>>)
    requires
        0 <= i < registry.clusters.len(),
        registry.clusters[i].tokens.len() > 0,
    ensures
        ({
            let template = registry.clusters[i].tokens;
            let agreeing = agreement_count(template, tokens);
            let concrete = concrete_count(template);
            &&& template.len() != tokens.len() ==> !registry.admits(i, tokens)
            &&& template.len() == tokens.len() && concrete > 0 ==> (registry.admits(i, tokens)
                <==> agreeing * registry.threshold.whole >= registry.threshold.part * concrete)
            &&& template.len() == tokens.len() && concrete == 0 ==> (registry.admits(i, tokens)
                <==> registry.threshold.part == 0)
            &&& agreeing <= concrete <= template.len()
        }),
{
    let template = registry.clusters[i].tokens;
    agreement_is_bounded(template, tokens);
    concrete_is_bounded(template);
}

proof fn concrete_is_bounded(template: Seq<Seq<char>>)
    ensures
        concrete_count(template) <= template.len(),
    decreases template.len(),
{
    if template.len() > 0 {
        concrete_is_bounded(template.drop_last());
    }
}

/// A line that some cluster admits joins the one that it agrees with best, and the oldest
/// of those; it is counted there, and every token at which they differ becomes the
/// wildcard `<*>`. The id and the first time of the cluster stay, and so does every
/// other cluster.
pub proof fn a_line_joins_the_most_similar(
    registry: RegistryView,
    tokens: Seq<Seq<char>>,
    timestamp_us: u64,
    after: RegistryView,
    found: TemplateMatch,
    admitting: int,
) -> (joined: int)
    requires
        registry.valid(),
        registry.can_count(),
        tokens.len() > 0,
        registry.processes(tokens, timestamp_us, after, found),
        registry.admits(admitting, tokens),
    ensures
        registry.admits(joined, tokens),
        !found.is_new,
        after.clusters.len() == registry.clusters.len(),
        after.overflow_count == registry.overflow_count,
        found.id.0 == registry.clusters[joined].id,
        found.first_seen_us == registry.clusters[joined].first_seen_us,
        found.count == registry.clusters[joined].count + 1,
        found.template@ == text::joined(after.clusters[joined].tokens, " "@),
        after.clusters[joined].id == registry.clusters[joined].id,
        after.clusters[joined].first_seen_us == registry.clusters[joined].first_seen_us,
        after.clusters[joined].last_seen_us == timestamp_us,
        after.clusters[joined].count == registry.clusters[joined].count + 1,
        after.clusters[joined].tokens.len() == tokens.len(),
        forall|p: int|
            0 <= p < tokens.len() ==> #[trigger] after.clusters[joined].tokens[p] == if (
            registry.clusters[joined].tokens[p] == tokens[p]) {
                tokens[p]
            } else {
                seq!['<', '*', '>']
            },
        forall|j: int|
            0 <= j < registry.clusters.len() && j != joined ==> #[trigger] after.clusters[j]
                == registry.clusters[j],
        ({
            let agreeing = agreement_count(registry.clusters[joined].tokens, tokens);
            let concrete = concrete_count(registry.clusters[joined].tokens);
            let others = agreement_count(registry.clusters[admitting].tokens, tokens);
            let all = concrete_count(registry.clusters[admitting].tokens);
            concrete > 0 && all > 0 ==> {
                &&& agreeing * all >= others * concrete
                &&& admitting < joined ==> agreeing * all > others * concrete
            }
        }),
{
    reserved_marks();
    best_exists(registry, tokens, admitting);
    let i = choose|i: int|
        {
            &&& #[trigger] registry.is_best(i, tokens)
            &&& after == registry.joined_by(i, tokens, timestamp_us)
            &&& found.id.0 == registry.clusters[i].id
            &&& found.template@ == text::joined(merged(registry.clusters[i].tokens, tokens), " "@)
            &&& found.first_seen_us == registry.clusters[i].first_seen_us
            &&& found.count == registry.clusters[i].count + 1
            &&& !found.is_new
        };
    assert(registry.is_best(i, tokens));
    i
}

/// A line that no cluster admits opens one while there is room, and is counted as one that
/// found no place when there is none. A line without tokens changes nothing.
pub proof fn a_line_without_a_place(
    registry: RegistryView,
    tokens: Seq<Seq<char>>,
    timestamp_us: u64,
    after: RegistryView,
    found: TemplateMatch,
)
    requires
        registry.overflow_count < u64::MAX,
        registry.processes(tokens, timestamp_us, after, found),
        forall|i: int| !#[trigger] registry.admits(i, tokens),
    ensures
        tokens.len() == 0 ==> {
            &&& after == registry
            &&& found.id.0 == 0
            &&& found.template@.len() == 0
            &&& found.count == 0
            &&& !found.is_new
        },
        tokens.len() > 0 && registry.clusters.len() < registry.max_templates ==> found.is_new,
        tokens.len() > 0 && registry.clusters.len() >= registry.max_templates ==> {
            &&& !found.is_new
            &&& found.id.0 == 0xffff_ffff_ffff_ffff
            &&& found.count == 0
            &&& found.template@ == text::joined(tokens, " "@)
            &&& after.clusters == registry.clusters
            &&& after.overflow_count == registry.overflow_count + 1
        },
{
    assert(forall|i: int| !registry.is_best(i, tokens));
}

/// One share is at least another if it is so of the same whole.
pub proof fn shares_compare_as_fractions(a: Share, b: Share)
    requires
        a.whole > 0,
        b.whole > 0,
    ensures
        a.whole == b.whole ==> (share_at_least(a, b) <==> a.part >= b.part),
        share_at_least(a, b) || share_at_least(b, a),
        b.part == 0 ==> share_at_least(a, b),
        a.part == a.whole && b.part <= b.whole ==> share_at_least(a, b),
{
    assert(a.whole == b.whole ==> (a.part * b.whole >= b.part * a.whole <==> a.part >= b.part))
        by (nonlinear_arith)
        requires
            a.whole > 0,
            b.whole > 0,
    ;
    assert(a.part == a.whole && b.part <= b.whole ==> a.part * b.whole >= b.part * a.whole)
        by (nonlinear_arith)
        requires
            a.whole > 0,
    ;
    assert(b.part == 0 ==> b.part * a.whole == 0);
    assert(a.part * b.whole >= 0) by (nonlinear_arith)
        requires
            a.part >= 0,
            b.whole >= 0,
    ;
}

/// What is restored are the clusters of the records with the smallest positions, without
/// those that have no token: every cluster restored was stored, and no more are restored
/// than there may be.
pub proof fn restoring_makes_nothing_up(
    records: Seq<RecordView>,
    limit: nat,
    clusters: Seq<ClusterView>,
    i: int,
)
    requires
        restores(records, limit, clusters),
        0 <= i < clusters.len(),
    ensures
        clusters.len() <= limit,
        clusters.len() <= records.len(),
        clusters[i].tokens.len() > 0,
        exists|k: int| 0 <= k < records.len() && (#[trigger] records[k]).cluster == clusters[i],
{
    let sorted = choose|sorted: Seq<RecordView>| #[trigger]
        restores_from(sorted, limit, clusters) && sorted_by_order(records, sorted);
    let places = choose|places: Seq<int>| #[trigger] sorts_by_order(records, sorted, places);
    let n = if sorted.len() <= limit {
        sorted.len() as int
    } else {
        limit as int
    };
    let kept = sorted.take(n);
    let k = usable_is_stored(kept, i);
    assert(sorted[k] == kept[k]);
    assert(0 <= places[k] < records.len());
    assert(records[places[k]].cluster == clusters[i]);
}

proof fn usable_is_stored(records: Seq<RecordView>, i: int) -> (k: int)
    requires
        0 <= i < usable(records).len(),
    ensures
        0 <= k < records.len(),
        records[k].cluster == usable(records)[i],
        usable(records)[i].tokens.len() > 0,
        usable(records).len() <= records.len(),
    decreases records.len(),
{
    let fewer = records.drop_last();
    if i < usable(fewer).len() {
        let k = usable_is_stored(fewer, i);
        assert(records[k] == fewer[k]);
        k
    } else {
        if usable(fewer).len() > 0 {
            let _ = usable_is_stored(fewer, 0);
        }
        records.len() - 1
    }
}

/// A registry that has just been made is empty and goes by its settings; a share of more
/// than the whole counts as the whole.
pub proof fn a_new_registry_goes_by_its_settings(
    patterns: MaskPatterns,
    share: Share,
    max_templates: usize,
    engine: TemplateEngine,
    count: usize,
    overflow: u64,
    snapshot: TemplateSnapshot,
)
    requires
        share.whole > 0,
        call_ensures(TemplateEngine::new, (patterns, share, max_templates), engine),
        call_ensures(TemplateEngine::template_count, (&engine,), count),
        call_ensures(TemplateEngine::overflow_count, (&engine,), overflow),
        call_ensures(TemplateEngine::snapshot, (&engine,), snapshot),
    ensures
        count == 0,
        overflow == 0,
        snapshot.clusters@.len() == 0,
        engine@.max_templates == max_templates,
        share.part <= share.whole ==> engine@.threshold == share,
        share.part > share.whole ==> engine@.threshold.part == engine@.threshold.whole,
{
    assert(record_views(snapshot.clusters@).len() == 0);
}

/// A message finds its template through its masked tokens: what `process` does with a
/// message is what `process_tokens` does with those, and either changes the registry just
/// as the registry says.
pub proof fn messages_are_processed_by_their_tokens(
    engine: &mut TemplateEngine,
    message: &str,
    timestamp_us: u64,
    found: TemplateMatch,
    other: &mut TemplateEngine,
    tokens: Vec<String>,
    other_found: TemplateMatch,
)
    requires
        call_ensures(TemplateEngine::process, (engine, message, timestamp_us), found),
        call_ensures(TemplateEngine::process_tokens, (other, tokens, timestamp_us), other_found),
    ensures
        old(engine)@.processes(
            mask::masked_message(message@),
            timestamp_us,
            final(engine)@,
            found,
        ),
        old(other)@.processes(text::texts(tokens@), timestamp_us, final(other)@, other_found),
        other_found.is_new ==> other_found.id.0 == hash::fnv1a(
            vstd::utf8::encode_utf8(text::joined(text::texts(tokens@), " "@)),
        ),
        found.is_new ==> found.id.0 == hash::fnv1a(
            vstd::utf8::encode_utf8(text::joined(mask::masked_message(message@), " "@)),
        ),
{
    if other_found.is_new {
        a_new_template_is_named_after_its_line(
            old(other)@,
            text::texts(tokens@),
            timestamp_us,
            final(other)@,
            other_found,
        );
    }
    if found.is_new {
        a_new_template_is_named_after_its_line(
            old(engine)@,
            mask::masked_message(message@),
            timestamp_us,
            final(engine)@,
            found,
        );
    }
}

/// Storing a registry and restoring it gives the same clusters in the same order, as many
/// as fit, under the settings of the new one; what found no place is not remembered.
pub proof fn a_restored_registry_is_the_stored_one(
    engine: &TemplateEngine,
    snapshot: TemplateSnapshot,
    patterns: MaskPatterns,
    share: Share,
    max_templates: usize,
    restored: TemplateEngine,
)
    requires
        engine@.valid(),
        engine@.clusters.len() <= u64::MAX,
        share.whole > 0,
        call_ensures(TemplateEngine::snapshot, (engine,), snapshot),
        call_ensures(TemplateEngine::restore, (patterns, snapshot, share, max_templates), restored),
    ensures
        restored@.clusters == engine@.clusters.take(
            if engine@.clusters.len() <= max_templates {
                engine@.clusters.len() as int
            } else {
                max_templates as int
            },
        ),
        restored@.overflow_count == 0,
        restored@.max_templates == max_templates,
        share.part <= share.whole ==> restored@.threshold == share,
        snapshot.clusters@.len() == engine@.clusters.len(),
        forall|i: int|
            0 <= i < snapshot.clusters@.len() ==> (#[trigger] snapshot.clusters@[i]).id.0
                == engine@.clusters[i].id && text::texts(snapshot.clusters@[i].tokens@)
                == engine@.clusters[i].tokens && snapshot.clusters@[i].count
                == engine@.clusters[i].count && snapshot.clusters@[i].order == i,
{
    let records = record_views(snapshot.clusters@);
    assert(records.len() == snapshot.clusters@.len());
    let places = Seq::new(records.len(), |i: int| i);
    assert(rearranges(engine@.stored(), records, places));
    restoring_undoes_storing(engine@, records, max_templates as nat, restored@.clusters);
    assert forall|i: int| 0 <= i < snapshot.clusters@.len() implies (
    #[trigger] snapshot.clusters@[i]).id.0 == engine@.clusters[i].id && text::texts(
        snapshot.clusters@[i].tokens@,
    ) == engine@.clusters[i].tokens && snapshot.clusters@[i].count == engine@.clusters[i].count
        && snapshot.clusters@[i].order == i by {
        assert(records[i] == snapshot.clusters@[i]@);
        assert(records[i] == engine@.stored()[i]);
    }
}

/// An id is shown as sixteen digits, by which ids can be told apart.
pub proof fn ids_are_shown_with_all_their_digits(id: TemplateId, out: String, empty: TemplateId)
    requires
        call_ensures(TemplateId::to_text, (&id,), out),
        call_ensures(TemplateId::empty, (), empty),
    ensures
        out@.len() == 16,
        out@.last() as u32 == if id.0 % 16 < 10 {
            '0' as u32 + id.0 % 16
        } else {
            'a' as u32 + (id.0 % 16 - 10)
        },
        empty.0 == 0,
{
    text::hexadecimals_are_written_digit_by_digit(
        (id.0 / 16) as nat,
        (id.0 % 16) as nat,
        15,
    );
    assert(16 * (id.0 / 16) + id.0 % 16 == id.0);
}

/// Shares are compared as fractions, and lines without a place have the largest number as
/// their id.
pub proof fn shares_are_compared(a: Share, b: Share, at_least: bool, overflow: TemplateId)
    requires
        a.whole > 0,
        a.whole == b.whole,
        call_ensures(is_at_least, (&a, &b), at_least),
        call_ensures(TemplateId::overflow, (), overflow),
    ensures
        at_least <==> a.part >= b.part,
        overflow.0 == 0xffff_ffff_ffff_ffff,
{
    shares_compare_as_fractions(a, b);
}

} // verus!
