//! Log deduplication pipeline: unpack, bucket, exact match, canonical match,
//! template mining, emission.
//!
//! Two behaviours are offered. `distinct` collapses duplicates across the
//! whole selection, whatever their order and whatever service or severity
//! they belong to. `collapse` merges a record only into the group just before
//! it, within the same bucket, so that a message that comes back later opens
//! a new group. Both use the same matching stack: equal bodies, equal
//! canonical bodies, and a template miner for what is left.
use vstd::prelude::*;

use crate::dedup::bucket::{bucket_total, bucketed, law_bucketing_is_a_partition};
use crate::dedup::canon::{canon_dedup, canon_groups, law_canon_counts_every_record};
use crate::dedup::collapse::{collapsed, law_collapse_counts_every_record};
use crate::dedup::detect::text_option;
use crate::dedup::drain3::{drain_ok, DrainModel, Ratio};
use crate::dedup::emit::emitted;
use crate::dedup::exact::{exact_groups, law_exact_counts_every_record};
use crate::dedup::flat_record::{BucketKey, BucketKeyKind, FlatModel, FlatRecord, KeyModel};
use crate::dedup::residuals::{
    dedup_residuals, fresh_miner, group_buckets, law_residuals_count_every_record, residual_groups,
};
use crate::record::{stream_view, StreamRecord};
use crate::dedup::hex::encode;
use crate::text::numbers::hex_text;
use crate::text::seqs::{first_index, lemma_first_index};
use crate::text::strings::{copy_text, copy_texts, texts};

pub mod bucket;
pub mod canon;
pub mod canon_freetext;
pub mod canon_json;
pub mod canon_kv;
pub mod collapse;
pub mod description;
pub mod detect;
pub mod distinct;
pub mod drain3;
pub mod emit;
pub mod exact;
pub mod flat_record;
pub mod flattening;
pub mod guarantees;
pub mod hex;
pub mod kept_addresses;
pub mod kept_tokens;
pub mod kept_values;
pub mod member_order;
pub mod opened_groups;
pub mod residuals;
pub mod second_pass;
pub mod spans;
pub mod tree_rules;
pub mod unpack;

verus! {

/// User-facing dedup behaviour.
#[derive(Debug, Clone, Copy, PartialEq, Eq, Structural)]
pub enum DedupMode {
    /// Collapse duplicates across the whole selected dataset.
    Distinct,
    /// Collapse duplicates only within a local burst.
    Collapse,
}

/// Bucket policy implied by the behaviour.
#[derive(Debug, Clone, Copy, PartialEq, Eq, Structural)]
pub enum DedupBucketPolicy {
    /// Ignore service and severity boundaries.
    Global,
    /// Respect the configured bucket key.
    Requested,
}

impl DedupMode {
    /// The bucket policy of a behaviour.
    pub fn bucket_policy(self) -> (r: DedupBucketPolicy)
        ensures
            r == match self {
                DedupMode::Distinct => DedupBucketPolicy::Global,
                DedupMode::Collapse => DedupBucketPolicy::Requested,
            },
    {
        match self {
            DedupMode::Distinct => DedupBucketPolicy::Global,
            DedupMode::Collapse => DedupBucketPolicy::Requested,
        }
    }
}

/// Matching aggressiveness.
#[derive(Debug, Clone, Copy, PartialEq, Eq, Structural)]
pub enum DedupMatchMode {
    /// Equal bodies.
    Exact,
    /// Equal canonical bodies.
    Hash2,
    /// Equal canonical bodies, then the template miner on what is left.
    Full,
}

/// Options of the template miner, used under [`DedupMatchMode::Full`].
#[derive(Debug)]
pub struct DrainOpts {
    pub sim_th: Ratio,
    pub depth: i64,
    pub extra_delimiters: Vec<String>,
}

impl Default for DrainOpts {
    fn default() -> (r: Self)
        ensures
            r.sim_th == (Ratio { num: 7, den: 10 }),
            r.depth == 3,
            r.extra_delimiters@.len() == 0,
    {
        DrainOpts { sim_th: Ratio { num: 7, den: 10 }, depth: 3, extra_delimiters: Vec::new() }
    }
}

/// Options of the dedup pipeline.
#[derive(Debug)]
pub struct DedupOpts {
    pub mode: DedupMode,
    pub match_mode: DedupMatchMode,
    pub bucket_key: BucketKeyKind,
    pub drain: DrainOpts,
}

impl Default for DedupOpts {
    fn default() -> (r: Self)
        ensures
            r.mode == DedupMode::Distinct,
            r.match_mode == DedupMatchMode::Hash2,
            r.bucket_key == BucketKeyKind::Default,
            r.drain.sim_th == (Ratio { num: 7, den: 10 }),
            r.drain.depth == 3,
            r.drain.extra_delimiters@.len() == 0,
    {
        DedupOpts {
            mode: DedupMode::Distinct,
            match_mode: DedupMatchMode::Hash2,
            bucket_key: BucketKeyKind::Default,
            drain: DrainOpts::default(),
        }
    }
}

/// One collapsed group of records that share a signature.
#[derive(Debug)]
pub struct DedupGroup {
    pub bucket_key: BucketKey,
    pub signature: u64,
    pub count: u64,
    pub representative: FlatRecord,
    pub first_seen_ns: u64,
    pub last_seen_ns: u64,
    /// Up to three hexadecimal trace ids: the first, one between, the last.
    pub exemplar_trace_ids: Vec<String>,
    /// Up to three hexadecimal span ids: the first, one between, the last.
    pub exemplar_span_ids: Vec<String>,
    /// Canonical body; absent where bodies are compared as they are.
    pub canonical_body: Option<String>,
    /// Label of the shape of the body.
    pub body_shape: Option<String>,
    /// Template with `<*>` wildcards, where the template miner merged records.
    pub drain3_template: Option<String>,
    pub drain3_cluster_id: Option<i64>,
}

/// What a [`DedupGroup`] holds.
pub struct GroupModel {
    pub bucket_key: KeyModel,
    pub signature: u64,
    pub count: u64,
    pub representative: FlatModel,
    pub first_seen_ns: u64,
    pub last_seen_ns: u64,
    pub exemplar_trace_ids: Seq<Seq<char>>,
    pub exemplar_span_ids: Seq<Seq<char>>,
    pub canonical_body: Option<Seq<char>>,
    pub body_shape: Option<Seq<char>>,
    pub drain3_template: Option<Seq<char>>,
    pub drain3_cluster_id: Option<i64>,
}

impl View for DedupGroup {
    type V = GroupModel;

    open spec fn view(&self) -> GroupModel {
        GroupModel {
            bucket_key: self.bucket_key@,
            signature: self.signature,
            count: self.count,
            representative: self.representative@,
            first_seen_ns: self.first_seen_ns,
            last_seen_ns: self.last_seen_ns,
            exemplar_trace_ids: texts(self.exemplar_trace_ids@),
            exemplar_span_ids: texts(self.exemplar_span_ids@),
            canonical_body: text_option(self.canonical_body),
            body_shape: text_option(self.body_shape),
            drain3_template: text_option(self.drain3_template),
            drain3_cluster_id: self.drain3_cluster_id,
        }
    }
}

impl DedupGroup {
    /// An equal value.
    pub fn copy(&self) -> (r: Self)
        ensures
            r@ == self@,
    {
        DedupGroup {
            bucket_key: self.bucket_key.copy(),
            signature: self.signature,
            count: self.count,
            representative: self.representative.copy(),
            first_seen_ns: self.first_seen_ns,
            last_seen_ns: self.last_seen_ns,
            exemplar_trace_ids: copy_texts(&self.exemplar_trace_ids),
            exemplar_span_ids: copy_texts(&self.exemplar_span_ids),
            canonical_body: copy_text(&self.canonical_body),
            body_shape: copy_text(&self.body_shape),
            drain3_template: copy_text(&self.drain3_template),
            drain3_cluster_id: self.drain3_cluster_id,
        }
    }
}

/// The time of a record: when it happened, else when it was observed.
pub open spec fn effective_time(rec: FlatModel) -> u64 {
    if rec.time_unix_nano != 0 {
        rec.time_unix_nano
    } else {
        rec.observed_time_unix_nano
    }
}

/// The time of a record: when it happened, else when it was observed.
pub fn effective_timestamp(rec: &FlatRecord) -> (r: u64)
    ensures
        r == effective_time(rec@),
{
    if rec.time_unix_nano != 0 {
        rec.time_unix_nano
    } else {
        rec.observed_time_unix_nano
    }
}

/// An id that is absent: no bytes, or only zeros.
pub open spec fn blank_id(id: Seq<u8>) -> bool {
    forall|i: int| 0 <= i < id.len() ==> #[trigger] id[i] == 0
}

/// Exemplars after an id was seen: the first stays first, the second stays
/// between, and the third slot holds the last.
pub open spec fn with_exemplar(list: Seq<Seq<char>>, id: Seq<u8>) -> Seq<Seq<char>> {
    if blank_id(id) {
        list
    } else if list.len() < 3 {
        list.push(hex_text(id))
    } else {
        list.update(2, hex_text(id))
    }
}

/// The group of one record.
pub open spec fn group_new(key: KeyModel, signature: u64, rec: FlatModel) -> GroupModel {
    GroupModel {
        bucket_key: key,
        signature,
        count: 1,
        representative: rec,
        first_seen_ns: effective_time(rec),
        last_seen_ns: effective_time(rec),
        exemplar_trace_ids: seq![hex_text(rec.trace_id)],
        exemplar_span_ids: seq![hex_text(rec.span_id)],
        canonical_body: None,
        body_shape: None,
        drain3_template: None,
        drain3_cluster_id: None,
    }
}

pub open spec fn min_time(a: u64, b: u64) -> u64 {
    if b < a {
        b
    } else {
        a
    }
}

pub open spec fn max_time(a: u64, b: u64) -> u64 {
    if b > a {
        b
    } else {
        a
    }
}

/// A group with one more record.
pub open spec fn group_absorb(g: GroupModel, rec: FlatModel) -> GroupModel {
    GroupModel {
        count: (g.count + 1) as u64,
        first_seen_ns: min_time(g.first_seen_ns, effective_time(rec)),
        last_seen_ns: max_time(g.last_seen_ns, effective_time(rec)),
        exemplar_trace_ids: with_exemplar(g.exemplar_trace_ids, rec.trace_id),
        exemplar_span_ids: with_exemplar(g.exemplar_span_ids, rec.span_id),
        ..g
    }
}

/// Two groups as one; the first lends its representative.
pub open spec fn group_merge(g: GroupModel, other: GroupModel) -> GroupModel {
    GroupModel {
        count: (g.count + other.count) as u64,
        first_seen_ns: min_time(g.first_seen_ns, other.first_seen_ns),
        last_seen_ns: max_time(g.last_seen_ns, other.last_seen_ns),
        ..g
    }
}

/// The hexadecimal text of an id is blank exactly where the id is.
fn is_blank_id(id: &Vec<u8>) -> (r: bool)
    ensures
        r == blank_id(id@),
{
    for i in 0..id.len()
        invariant
            forall|j: int| 0 <= j < i ==> #[trigger] id@[j] == 0,
    {
        if id[i] != 0 {
            return false;
        }
    }
    true
}

/// Notes an id among the exemplars.
fn collect_exemplar(exemplars: &mut Vec<String>, id: &Vec<u8>)
    ensures
        texts(final(exemplars)@) == with_exemplar(texts(old(exemplars)@), id@),
{
    if is_blank_id(id) {
        return;
    }
    let ghost before = texts(exemplars@);
    let hex = encode(id);
    if exemplars.len() < 3 {
        exemplars.push(hex);
        assert(texts(exemplars@) =~= before.push(hex_text(id@)));
    } else {
        exemplars[2] = hex;
        assert(texts(exemplars@) =~= before.update(2, hex_text(id@)));
    }
}

impl DedupGroup {
    /// A group of one record, its representative.
    pub fn new(bucket_key: BucketKey, signature: u64, rec: FlatRecord) -> (r: Self)
        ensures
            r@ == group_new(bucket_key@, signature, rec@),
    {
        let seen = effective_timestamp(&rec);
        let mut trace_ids: Vec<String> = Vec::new();
        trace_ids.push(encode(&rec.trace_id));
        let mut span_ids: Vec<String> = Vec::new();
        span_ids.push(encode(&rec.span_id));
        assert(texts(trace_ids@) =~= seq![hex_text(rec@.trace_id)]);
        assert(texts(span_ids@) =~= seq![hex_text(rec@.span_id)]);
        DedupGroup {
            bucket_key,
            signature,
            count: 1,
            representative: rec,
            first_seen_ns: seen,
            last_seen_ns: seen,
            exemplar_trace_ids: trace_ids,
            exemplar_span_ids: span_ids,
            canonical_body: None,
            body_shape: None,
            drain3_template: None,
            drain3_cluster_id: None,
        }
    }

    /// Absorbs another record.
    pub fn absorb(&mut self, rec: &FlatRecord)
        requires
            old(self).count < u64::MAX,
        ensures
            final(self)@ == group_absorb(old(self)@, rec@),
    {
        self.count = self.count + 1;
        let ts = effective_timestamp(rec);
        if ts < self.first_seen_ns {
            self.first_seen_ns = ts;
        }
        if ts > self.last_seen_ns {
            self.last_seen_ns = ts;
        }
        collect_exemplar(&mut self.exemplar_trace_ids, &rec.trace_id);
        collect_exemplar(&mut self.exemplar_span_ids, &rec.span_id);
    }

    /// Merges another group into this one.
    pub fn merge_group(&mut self, other: &DedupGroup)
        requires
            old(self).count + other.count <= u64::MAX,
        ensures
            final(self)@ == group_merge(old(self)@, other@),
    {
        self.count = self.count + other.count;
        if other.first_seen_ns < self.first_seen_ns {
            self.first_seen_ns = other.first_seen_ns;
        }
        if other.last_seen_ns > self.last_seen_ns {
            self.last_seen_ns = other.last_seen_ns;
        }
    }
}

/// The models of a list of groups.
pub open spec fn groups_view(g: Seq<DedupGroup>) -> Seq<GroupModel> {
    g.map_values(|x: DedupGroup| x@)
}

/// The models of a list of records.
pub open spec fn records_view(r: Seq<FlatRecord>) -> Seq<FlatModel> {
    r.map_values(|x: FlatRecord| x@)
}

/// How many records the groups stand for.
pub open spec fn total_count(g: Seq<GroupModel>) -> nat
    decreases g.len(),
{
    if g.len() == 0 {
        0
    } else {
        total_count(g.drop_last()) + g.last().count as nat
    }
}

pub proof fn lemma_total_push(g: Seq<GroupModel>, x: GroupModel)
    ensures
        total_count(g.push(x)) == total_count(g) + x.count,
{
    assert(g.push(x).drop_last() =~= g);
}

pub proof fn lemma_total_update(g: Seq<GroupModel>, i: int, x: GroupModel)
    requires
        0 <= i < g.len(),
    ensures
        total_count(g.update(i, x)) == total_count(g) - g[i].count + x.count,
        g[i].count <= total_count(g),
    decreases g.len(),
{
    if i == g.len() - 1 {
        assert(g.update(i, x).drop_last() =~= g.drop_last());
    } else {
        lemma_total_update(g.drop_last(), i, x);
        assert(g.update(i, x).drop_last() =~= g.drop_last().update(i, x));
    }
}

pub proof fn lemma_total_concat(a: Seq<GroupModel>, b: Seq<GroupModel>)
    ensures
        total_count(a + b) == total_count(a) + total_count(b),
    decreases b.len(),
{
    if b.len() == 0 {
        assert(a + b =~= a);
    } else {
        lemma_total_concat(a, b.drop_last());
        assert((a + b).drop_last() =~= a + b.drop_last());
    }
}

/// The bucket key and signature of each group.
pub open spec fn identities(g: Seq<GroupModel>) -> Seq<(KeyModel, u64)> {
    g.map_values(|x: GroupModel| (x.bucket_key, x.signature))
}

/// The index of the first group with this key and signature, or the number
/// of groups.
pub open spec fn find_index(g: Seq<GroupModel>, key: KeyModel, signature: u64) -> int {
    first_index(identities(g), (key, signature))
}

/// The index of the first group with this key and signature, or the number
/// of groups.
pub fn find_group(groups: &Vec<DedupGroup>, key: &BucketKey, signature: u64) -> (i: usize)
    ensures
        i == find_index(groups_view(groups@), key@, signature),
        i <= groups@.len(),
{
    let ghost ids = identities(groups_view(groups@));
    let n = groups.len();
    let mut i: usize = 0;
    while i < n && !(groups[i].signature == signature && groups[i].bucket_key.same(key))
        invariant
            i <= n,
            n == groups@.len(),
            ids == identities(groups_view(groups@)),
            ids.len() == n,
            forall|j: int| 0 <= j < i ==> ids[j] != (key@, signature),
        decreases n - i,
    {
        assert(ids[i as int] == (groups@[i as int].bucket_key@, groups@[i as int].signature));
        i = i + 1;
    }
    proof {
        if i < n {
            assert(ids[i as int] == (groups@[i as int].bucket_key@, groups@[i as int].signature));
        }
        lemma_first_index(ids, (key@, signature), i as int);
    }
    i
}

/// What a first index says of the sequence.
pub proof fn lemma_first_index_hit<A>(s: Seq<A>, x: A)
    ensures
        0 <= first_index(s, x) <= s.len(),
        first_index(s, x) < s.len() ==> s[first_index(s, x)] == x,
        first_index(s, x) == s.len() ==> !s.contains(x),
    decreases s.len(),
{
    if s.len() > 0 && s.first() != x {
        lemma_first_index_hit(s.drop_first(), x);
        if s.contains(x) {
            let i = choose|i: int| 0 <= i < s.len() && s[i] == x;
            assert(s.drop_first()[i - 1] == x);
        }
    }
}

/// Summary statistics of a dedup run.
#[derive(Debug, Clone, Copy)]
pub struct DedupStats {
    pub total_records: u64,
    pub group_count: u64,
}

/// Options of a run over mathematical values.
pub struct OptsModel {
    pub mode: DedupMode,
    pub match_mode: DedupMatchMode,
    pub bucket_key: BucketKeyKind,
    pub miner: DrainModel,
}

impl View for DedupOpts {
    type V = OptsModel;

    open spec fn view(&self) -> OptsModel {
        OptsModel {
            mode: self.mode,
            match_mode: self.match_mode,
            bucket_key: self.bucket_key,
            miner: fresh_miner(
                self.drain.depth,
                self.drain.sim_th,
                texts(self.drain.extra_delimiters@),
            ),
        }
    }
}

/// The groups of a run.
pub open spec fn dedup_groups(records: Seq<FlatModel>, opts: OptsModel) -> Seq<GroupModel> {
    if opts.mode == DedupMode::Collapse {
        collapsed(records, opts.bucket_key, opts.match_mode, opts.miner)
    } else {
        let exact = exact_groups(bucketed(records, BucketKeyKind::Global));
        if opts.match_mode == DedupMatchMode::Exact {
            exact
        } else if opts.match_mode == DedupMatchMode::Hash2 {
            canon_groups(exact)
        } else {
            residual_groups(group_buckets(canon_groups(exact)), opts.miner)
        }
    }
}

/// The label of a behaviour and a match mode.
pub open spec fn mode_label_of(mode: DedupMode, match_mode: DedupMatchMode) -> Seq<char> {
    match (mode, match_mode) {
        (DedupMode::Distinct, DedupMatchMode::Exact) => "distinct/exact"@,
        (DedupMode::Distinct, DedupMatchMode::Hash2) => "distinct/canon"@,
        (DedupMode::Distinct, DedupMatchMode::Full) => "distinct/full"@,
        (DedupMode::Collapse, DedupMatchMode::Exact) => "collapse/exact"@,
        (DedupMode::Collapse, DedupMatchMode::Hash2) => "collapse/canon"@,
        (DedupMode::Collapse, DedupMatchMode::Full) => "collapse/full"@,
    }
}

/// The label of a behaviour and a match mode.
pub fn mode_label(mode: DedupMode, match_mode: DedupMatchMode) -> (r: &'static str)
    ensures
        r@ == mode_label_of(mode, match_mode),
{
    match (mode, match_mode) {
        (DedupMode::Distinct, DedupMatchMode::Exact) => "distinct/exact",
        (DedupMode::Distinct, DedupMatchMode::Hash2) => "distinct/canon",
        (DedupMode::Distinct, DedupMatchMode::Full) => "distinct/full",
        (DedupMode::Collapse, DedupMatchMode::Exact) => "collapse/exact",
        (DedupMode::Collapse, DedupMatchMode::Hash2) => "collapse/canon",
        (DedupMode::Collapse, DedupMatchMode::Full) => "collapse/full",
    }
}

/// There are no more groups than records, and they stand for all of them.
pub proof fn lemma_groups_bounded(records: Seq<FlatModel>)
    requires
        records.len() <= u64::MAX,
    ensures
        total_count(exact_groups(bucketed(records, BucketKeyKind::Global))) == records.len(),
        total_count(canon_groups(exact_groups(bucketed(records, BucketKeyKind::Global))))
            == records.len(),
        bucket_total(bucketed(records, BucketKeyKind::Global)) == records.len(),
        exact_groups(bucketed(records, BucketKeyKind::Global)).len() <= records.len(),
        canon_groups(exact_groups(bucketed(records, BucketKeyKind::Global))).len()
            <= records.len(),
{
    let b = bucketed(records, BucketKeyKind::Global);
    law_bucketing_is_a_partition(records, BucketKeyKind::Global);
    law_exact_counts_every_record(b);
    law_canon_counts_every_record(exact_groups(b));
    crate::dedup::exact::lemma_exact_len(b);
    crate::dedup::canon::lemma_canon_len(exact_groups(b));
}

/// A run loses and invents no record: whatever the options, the counts of the
/// groups add up to the number of records.
pub proof fn law_dedup_counts_every_record(records: Seq<FlatModel>, opts: OptsModel)
    requires
        records.len() + 1 < i64::MAX,
        drain_ok(opts.miner),
        opts.miner.clusters.len() == 0,
    ensures
        total_count(dedup_groups(records, opts)) == records.len(),
{
    if opts.mode == DedupMode::Collapse {
        law_collapse_counts_every_record(records, opts.bucket_key, opts.match_mode, opts.miner);
    } else {
        let exact = exact_groups(bucketed(records, BucketKeyKind::Global));
        lemma_groups_bounded(records);
        law_residuals_count_every_record(canon_groups(exact), opts.miner);
    }
}

/// Groups records as the options ask for.
pub fn group_records(records: Vec<FlatRecord>, opts: &DedupOpts) -> (r: Vec<DedupGroup>)
    requires
        opts.drain.sim_th.den >= 1,
        records@.len() + 1 < i64::MAX,
    ensures
        groups_view(r@) == dedup_groups(records_view(records@), opts@),
{
    let ghost recs = records_view(records@);
    match opts.mode {
        DedupMode::Collapse => collapse::dedup(records, opts),
        DedupMode::Distinct => {
            let bucket_key = match opts.mode.bucket_policy() {
                DedupBucketPolicy::Global => BucketKeyKind::Global,
                DedupBucketPolicy::Requested => opts.bucket_key,
            };
            proof {
                assert(recs.len() == records@.len());
                lemma_groups_bounded(recs);
            }
            let buckets = bucket::group(records, bucket_key);
            let groups = exact::dedup(buckets);
            match opts.match_mode {
                DedupMatchMode::Exact => groups,
                DedupMatchMode::Hash2 => canon_dedup(groups),
                DedupMatchMode::Full => {
                    let merged = canon_dedup(groups);
                    assert(groups_view(merged@).len() == merged@.len());
                    dedup_residuals(merged, &opts.drain)
                },
            }
        },
    }
}

/// Runs the dedup pipeline: the output records and the statistics of the run.
pub fn dedup(
    records: Vec<FlatRecord>,
    passthrough: Vec<StreamRecord>,
    opts: &DedupOpts,
) -> (r: (Vec<StreamRecord>, DedupStats))
    requires
        opts.drain.sim_th.den >= 1,
        records@.len() + 1 < i64::MAX,
    ensures
        stream_view(r.0@) == emitted(
            dedup_groups(records_view(records@), opts@),
            stream_view(passthrough@),
            mode_label_of(opts.mode, opts.match_mode),
        ),
        r.1.total_records == records@.len(),
        r.1.group_count == dedup_groups(records_view(records@), opts@).len(),
{
    proof {
        assert(records_view(records@).len() == records@.len());
        residuals::lemma_fresh_miner_ok(opts@.miner);
        law_dedup_counts_every_record(records_view(records@), opts@);
    }
    let groups = group_records(records, opts);
    assert(groups_view(groups@).len() == groups@.len());
    emit::write(&groups, passthrough, mode_label(opts.mode, opts.match_mode))
}

} // verus!
