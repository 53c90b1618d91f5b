//! Indexes of files: what their blocks hold, so that blocks that cannot
//! match a predicate are not read.
use vstd::prelude::*;

use crate::bridge::hashing::{xxh3, xxh3_64};
use crate::bridge::protobuf::{decode_logs, logs_of};
use crate::dedup::unpack::{attr_keys, resource_attrs_of, string_value};
use crate::error::{Error, ErrorModel};
use crate::otlp::{
    attrs_view, AttrValue, Attribute, KvModel, LogsRequest, ResourceLogsModel, ScopeLogSet,
    ScopeLogsModel,
};
use crate::predicate::{
    named_service, predicate_matches, resource_allowed, severities_allowed, PredicateModel,
    RecordPredicate,
};
use crate::record::{stream_view, RecordModel, RecordType, StreamRecord};
use crate::text::numbers::{hex_padded, push_hex};
use crate::text::str_set::{law_sorted_members, sorted_members, with_member, StrSet};
use crate::text::strings::{copy_texts, str_eq, texts};

verus! {

/// The version of the index file format.
pub const INDEX_VERSION: u32 = 1;

/// How many services or severities a summary lists at most.
pub const SUMMARY_LIMIT: usize = 16;

/// The index of a file.
#[derive(Debug, Clone)]
pub struct DatasetIndex {
    pub summary: IndexSummary,
    pub blocks: Vec<IndexBlock>,
}

/// What a file or a block holds.
#[derive(Debug, Clone)]
pub struct IndexSummary {
    pub size: u64,
    pub modified_ns: Option<u64>,
    pub first_seq: Option<u64>,
    pub last_seq: Option<u64>,
    pub first_ts_unix_ns: Option<u64>,
    pub last_ts_unix_ns: Option<u64>,
    pub record_types: u8,
    pub services: Vec<String>,
    pub services_complete: bool,
    pub severities: Vec<String>,
    pub severities_complete: bool,
}

/// A block of a file and what it holds.
#[derive(Debug, Clone)]
pub struct IndexBlock {
    pub offset: u64,
    pub len: u64,
    pub first_seq: Option<u64>,
    pub last_seq: Option<u64>,
    pub first_ts_unix_ns: Option<u64>,
    pub last_ts_unix_ns: Option<u64>,
    pub record_types: u8,
    pub services: Vec<String>,
    pub services_complete: bool,
    pub severities: Vec<String>,
    pub severities_complete: bool,
}

/// What the records of a file or a block have in common.
pub struct IndexModel {
    pub first_seq: Option<u64>,
    pub last_seq: Option<u64>,
    pub first_ts: Option<u64>,
    pub last_ts: Option<u64>,
    pub types: u8,
    pub services: Seq<Seq<char>>,
    pub services_complete: bool,
    pub severities: Seq<Seq<char>>,
    pub severities_complete: bool,
}

impl View for IndexSummary {
    type V = IndexModel;

    open spec fn view(&self) -> IndexModel {
        IndexModel {
            first_seq: self.first_seq,
            last_seq: self.last_seq,
            first_ts: self.first_ts_unix_ns,
            last_ts: self.last_ts_unix_ns,
            types: self.record_types,
            services: texts(self.services@),
            services_complete: self.services_complete,
            severities: texts(self.severities@),
            severities_complete: self.severities_complete,
        }
    }
}

impl View for IndexBlock {
    type V = IndexModel;

    open spec fn view(&self) -> IndexModel {
        IndexModel {
            first_seq: self.first_seq,
            last_seq: self.last_seq,
            first_ts: self.first_ts_unix_ns,
            last_ts: self.last_ts_unix_ns,
            types: self.record_types,
            services: texts(self.services@),
            services_complete: self.services_complete,
            severities: texts(self.severities@),
            severities_complete: self.severities_complete,
        }
    }
}

/// The bit of a record type.
pub open spec fn type_bit(t: RecordType) -> u8 {
    match t {
        RecordType::Logs => 1,
        RecordType::Metrics => 2,
        RecordType::Traces => 4,
        RecordType::Events => 8,
    }
}

/// The bit of a record type.
pub fn record_type_bit(t: RecordType) -> (r: u8)
    ensures
        r == type_bit(t),
{
    match t {
        RecordType::Logs => 1,
        RecordType::Metrics => 2,
        RecordType::Traces => 4,
        RecordType::Events => 8,
    }
}

/// The lists have a member in common.
pub open spec fn share_member(a: Seq<Seq<char>>, b: Seq<Seq<char>>) -> bool {
    exists|i: int| 0 <= i < a.len() && b.contains(#[trigger] a[i])
}

/// An index does not rule out that a record matches.
pub open spec fn index_may_match(s: IndexModel, p: PredicateModel) -> bool {
    &&& p.record_type matches Some(t) ==> s.types & type_bit(t) != 0
    &&& match (p.seq_min, s.last_seq) {
        (Some(min), Some(last)) => last >= min,
        _ => true,
    }
    &&& match (p.seq_max, s.first_seq) {
        (Some(max), Some(first)) => first <= max,
        _ => true,
    }
    &&& match (p.ts_min, s.last_ts) {
        (Some(min), Some(last)) => last >= min,
        _ => true,
    }
    &&& match (p.ts_max, s.first_ts) {
        (Some(max), Some(first)) => first <= max,
        _ => true,
    }
    &&& p.fields.services matches Some(f) ==> s.services_complete ==> share_member(f, s.services)
    &&& p.fields.severities matches Some(f) ==> s.severities_complete ==> share_member(
        f,
        s.severities,
    )
}

/// Whether a set and a list have a member in common.
fn shares(a: &StrSet, b: &Vec<String>) -> (r: bool)
    ensures
        r == share_member(a@, texts(b@)),
{
    let items = a.items();
    for i in 0..items.len()
        invariant
            texts(items@) == a@,
            forall|j: int| 0 <= j < i ==> !texts(b@).contains(#[trigger] a@[j]),
    {
        assert(a@[i as int] == items@[i as int]@);
        for k in 0..b.len()
            invariant
                i < items@.len(),
                texts(items@) == a@,
                a@[i as int] == items@[i as int]@,
                forall|j: int| 0 <= j < k ==> (#[trigger] b@[j])@ != a@[i as int],
        {
            if str_eq(items[i].as_str(), b[k].as_str()) {
                assert(texts(b@)[k as int] == a@[i as int]);
                assert(texts(b@).contains(a@[i as int]));
                return true;
            }
        }
        assert(!texts(b@).contains(a@[i as int])) by {
            if texts(b@).contains(a@[i as int]) {
                let j = choose|j: int|
                    0 <= j < texts(b@).len() && texts(b@)[j] == a@[i as int];
                assert(b@[j]@ == a@[i as int]);
            }
        }
    }
    false
}

/// Whether what a file or a block holds does not rule out a match.
fn may_match_parts(
    first_seq: Option<u64>,
    last_seq: Option<u64>,
    first_ts: Option<u64>,
    last_ts: Option<u64>,
    types: u8,
    services: &Vec<String>,
    services_complete: bool,
    severities: &Vec<String>,
    severities_complete: bool,
    predicate: &RecordPredicate,
) -> (r: bool)
    ensures
        r == index_may_match(
            IndexModel {
                first_seq,
                last_seq,
                first_ts,
                last_ts,
                types,
                services: texts(services@),
                services_complete,
                severities: texts(severities@),
                severities_complete,
            },
            predicate@,
        ),
{
    if let Some(kind) = predicate.record_type_filter() {
        if types & record_type_bit(kind) == 0 {
            return false;
        }
    }
    if let Some(min) = predicate.seq_min_filter() {
        if let Some(last) = last_seq {
            if last < min {
                return false;
            }
        }
    }
    if let Some(max) = predicate.seq_max_filter() {
        if let Some(first) = first_seq {
            if first > max {
                return false;
            }
        }
    }
    if let Some(min) = predicate.ts_min_filter() {
        if let Some(last) = last_ts {
            if last < min {
                return false;
            }
        }
    }
    if let Some(max) = predicate.ts_max_filter() {
        if let Some(first) = first_ts {
            if first > max {
                return false;
            }
        }
    }
    if let Some(f) = predicate.service_filter() {
        if services_complete && !shares(f, services) {
            return false;
        }
    }
    if let Some(f) = predicate.severity_filter() {
        if severities_complete && !shares(f, severities) {
            return false;
        }
    }
    true
}

impl IndexSummary {
    /// Whether the file may hold a record that matches.
    pub fn may_match(&self, predicate: &RecordPredicate) -> (r: bool)
        ensures
            r == index_may_match(self@, predicate@),
    {
        may_match_parts(
            self.first_seq,
            self.last_seq,
            self.first_ts_unix_ns,
            self.last_ts_unix_ns,
            self.record_types,
            &self.services,
            self.services_complete,
            &self.severities,
            self.severities_complete,
            predicate,
        )
    }
}

impl IndexBlock {
    /// Whether the block may hold a record that matches.
    pub fn may_match(&self, predicate: &RecordPredicate) -> (r: bool)
        ensures
            r == index_may_match(self@, predicate@),
    {
        may_match_parts(
            self.first_seq,
            self.last_seq,
            self.first_ts_unix_ns,
            self.last_ts_unix_ns,
            self.record_types,
            &self.services,
            self.services_complete,
            &self.severities,
            self.severities_complete,
            predicate,
        )
    }
}

/// A list of values that gives up when it would grow too long.
pub struct CappedModel {
    pub values: Seq<Seq<char>>,
    pub complete: bool,
}

/// The list after one more value.
pub open spec fn capped(c: CappedModel, value: Seq<char>) -> CappedModel {
    if !c.complete {
        c
    } else if c.values.len() >= SUMMARY_LIMIT && !c.values.contains(value) {
        CappedModel { values: c.values, complete: false }
    } else {
        CappedModel { values: with_member(c.values, value), complete: true }
    }
}

/// The list after more values.
pub open spec fn capped_all(c: CappedModel, values: Seq<Seq<char>>) -> CappedModel
    decreases values.len(),
{
    if values.len() == 0 {
        c
    } else {
        capped(capped_all(c, values.drop_last()), values.last())
    }
}

/// The service names among attributes.
pub open spec fn service_values(a: Seq<KvModel>) -> Seq<Seq<char>>
    decreases a.len(),
{
    if a.len() == 0 {
        Seq::empty()
    } else if a.last().key == "service.name"@ && string_value(a.last().value) is Some {
        service_values(a.drop_last()).push(string_value(a.last().value)->0)
    } else {
        service_values(a.drop_last())
    }
}

/// The service names of a list of resources.
pub open spec fn batch_services(r: Seq<ResourceLogsModel>) -> Seq<Seq<char>>
    decreases r.len(),
{
    if r.len() == 0 {
        Seq::empty()
    } else {
        batch_services(r.drop_last()) + service_values(resource_attrs_of(r.last().resource))
    }
}

/// The severities of a scope that are not empty.
pub open spec fn scope_severities(s: ScopeLogsModel) -> Seq<Seq<char>> {
    s.log_records.map_values(|r: crate::otlp::LogRecordModel| r.severity_text).filter(
        |t: Seq<char>| t.len() > 0,
    )
}

/// The severities of a list of scopes.
pub open spec fn resource_severities(s: Seq<ScopeLogsModel>) -> Seq<Seq<char>>
    decreases s.len(),
{
    if s.len() == 0 {
        Seq::empty()
    } else {
        resource_severities(s.drop_last()) + scope_severities(s.last())
    }
}

/// The severities of a list of resources.
pub open spec fn batch_severities(r: Seq<ResourceLogsModel>) -> Seq<Seq<char>>
    decreases r.len(),
{
    if r.len() == 0 {
        Seq::empty()
    } else {
        batch_severities(r.drop_last()) + resource_severities(r.last().scope_logs)
    }
}

/// The service names that a record contributes.
pub open spec fn record_services(r: RecordModel) -> Seq<Seq<char>> {
    if r.record_type == RecordType::Logs && logs_of(r.payload) is Some {
        batch_services(logs_of(r.payload)->0.resource_logs)
    } else {
        Seq::empty()
    }
}

/// The severities that a record contributes.
pub open spec fn record_severities(r: RecordModel) -> Seq<Seq<char>> {
    if r.record_type == RecordType::Logs && logs_of(r.payload) is Some {
        batch_severities(logs_of(r.payload)->0.resource_logs)
    } else {
        Seq::empty()
    }
}

/// The first of two optional values that is there.
pub open spec fn first_some(a: Option<u64>, b: Option<u64>) -> Option<u64> {
    match a {
        Some(x) => Some(x),
        None => b,
    }
}

/// A summary before its first record.
pub open spec fn empty_summary() -> IndexModel {
    IndexModel {
        first_seq: None,
        last_seq: None,
        first_ts: None,
        last_ts: None,
        types: 0,
        services: Seq::empty(),
        services_complete: true,
        severities: Seq::empty(),
        severities_complete: true,
    }
}

/// A summary with these lists.
pub open spec fn with_lists(s: IndexModel, services: CappedModel, severities: CappedModel) -> IndexModel {
    IndexModel {
        services: services.values,
        services_complete: services.complete,
        severities: severities.values,
        severities_complete: severities.complete,
        ..s
    }
}

/// The list of services of a summary.
pub open spec fn services_part(s: IndexModel) -> CappedModel {
    CappedModel { values: s.services, complete: s.services_complete }
}

/// The list of severities of a summary.
pub open spec fn severities_part(s: IndexModel) -> CappedModel {
    CappedModel { values: s.severities, complete: s.severities_complete }
}

/// A summary after one more record.
pub open spec fn summary_push(s: IndexModel, r: RecordModel) -> IndexModel {
    with_lists(
        IndexModel {
            first_seq: first_some(s.first_seq, Some(r.seq)),
            last_seq: Some(r.seq),
            first_ts: first_some(s.first_ts, Some(r.ts_unix_ns)),
            last_ts: Some(r.ts_unix_ns),
            types: s.types | type_bit(r.record_type),
            ..s
        },
        capped_all(services_part(s), record_services(r)),
        capped_all(severities_part(s), record_severities(r)),
    )
}

/// The summary of a list of records.
pub open spec fn summary_of(r: Seq<RecordModel>) -> IndexModel
    decreases r.len(),
{
    if r.len() == 0 {
        empty_summary()
    } else {
        summary_push(summary_of(r.drop_last()), r.last())
    }
}

/// A list after the list of a block.
pub open spec fn capped_merge(c: CappedModel, block: CappedModel) -> CappedModel {
    if !c.complete {
        c
    } else if !block.complete {
        CappedModel { values: c.values, complete: false }
    } else {
        capped_all(c, block.values)
    }
}

/// A summary after one more block.
pub open spec fn summary_merge(s: IndexModel, b: IndexModel) -> IndexModel {
    with_lists(
        IndexModel {
            first_seq: first_some(s.first_seq, b.first_seq),
            last_seq: first_some(b.last_seq, s.last_seq),
            first_ts: first_some(s.first_ts, b.first_ts),
            last_ts: first_some(b.last_ts, s.last_ts),
            types: s.types | b.types,
            ..s
        },
        capped_merge(services_part(s), services_part(b)),
        capped_merge(severities_part(s), severities_part(b)),
    )
}

/// A finished summary: the lists are sorted.
pub open spec fn summary_finish(s: IndexModel) -> IndexModel {
    IndexModel {
        services: sorted_members(s.services),
        severities: sorted_members(s.severities),
        ..s
    }
}

/// A list of values that gives up when it would grow too long.
#[derive(Debug)]
struct CappedSet {
    set: StrSet,
    complete: bool,
}

impl CappedSet {
    spec fn model(self) -> CappedModel {
        CappedModel { values: self.set@, complete: self.complete }
    }

    spec fn wf(self) -> bool {
        self.set.wf()
    }

    fn new() -> (r: Self)
        ensures
            r.wf(),
            r.model() == (CappedModel { values: Seq::empty(), complete: true }),
    {
        CappedSet { set: StrSet::new(), complete: true }
    }
}

/// Adds a value, unless the list would grow too long.
fn insert_capped(c: &mut CappedSet, value: &str)
    requires
        old(c).wf(),
    ensures
        final(c).wf(),
        final(c).model() == capped(old(c).model(), value@),
{
    if !c.complete {
        return;
    }
    if c.set.len() >= SUMMARY_LIMIT && !c.set.contains(value) {
        c.complete = false;
        return;
    }
    c.set.insert(value);
}

/// Adds the values of a block.
fn merge_set(c: &mut CappedSet, values: &Vec<String>, values_complete: bool)
    requires
        old(c).wf(),
    ensures
        final(c).wf(),
        final(c).model() == capped_merge(
            old(c).model(),
            CappedModel { values: texts(values@), complete: values_complete },
        ),
{
    if !c.complete {
        return;
    }
    if !values_complete {
        c.complete = false;
        return;
    }
    let ghost start = c.model();
    let ghost all = texts(values@);
    assert(all.take(0) =~= Seq::empty());
    for i in 0..values.len()
        invariant
            c.wf(),
            all == texts(values@),
            c.model() == capped_all(start, all.take(i as int)),
    {
        assert(all.take(i + 1).drop_last() =~= all.take(i as int));
        assert(all[i as int] == values@[i as int]@);
        insert_capped(c, values[i].as_str());
    }
    assert(all.take(values@.len() as int) =~= all);
}

proof fn lemma_capped_all_concat(c: CappedModel, a: Seq<Seq<char>>, b: Seq<Seq<char>>)
    ensures
        capped_all(c, a + b) == capped_all(capped_all(c, a), b),
    decreases b.len(),
{
    if b.len() == 0 {
        assert(a + b =~= a);
    } else {
        lemma_capped_all_concat(c, a, b.drop_last());
        assert((a + b).drop_last() =~= a + b.drop_last());
    }
}

/// Adds the service names among attributes.
fn collect_services(attrs: &Vec<Attribute>, c: &mut CappedSet)
    requires
        old(c).wf(),
    ensures
        final(c).wf(),
        final(c).model() == capped_all(old(c).model(), service_values(attrs_view(attrs@))),
{
    let ghost start = c.model();
    let ghost a = attrs_view(attrs@);
    assert(a.take(0) =~= Seq::empty());
    for i in 0..attrs.len()
        invariant
            c.wf(),
            a == attrs_view(attrs@),
            c.model() == capped_all(start, service_values(a.take(i as int))),
    {
        assert(a.take(i + 1).drop_last() =~= a.take(i as int));
        assert(a[i as int] == attrs@[i as int]@);
        let ghost before = service_values(a.take(i as int));
        if str_eq(attrs[i].key.as_str(), "service.name") {
            if let Some(AttrValue::Str(s)) = &attrs[i].value {
                insert_capped(c, s.as_str());
                assert(before.push(s@).drop_last() =~= before);
            }
        }
    }
    assert(a.take(attrs@.len() as int) =~= a);
}

/// Adds the severities of a scope.
fn collect_severities(s: &ScopeLogSet, c: &mut CappedSet)
    requires
        old(c).wf(),
    ensures
        final(c).wf(),
        final(c).model() == capped_all(old(c).model(), scope_severities(s@)),
{
    let ghost start = c.model();
    let ghost all = s@.log_records.map_values(
        |r: crate::otlp::LogRecordModel| r.severity_text,
    );
    let ghost keep = |t: Seq<char>| t.len() > 0;
    proof {
        reveal(Seq::filter);
        assert(all.take(0) =~= Seq::empty());
        assert(all.take(0).filter(keep) =~= Seq::empty());
    }
    for i in 0..s.log_records.len()
        invariant
            c.wf(),
            keep == (|t: Seq<char>| t.len() > 0),
            all == s@.log_records.map_values(|r: crate::otlp::LogRecordModel| r.severity_text),
            c.model() == capped_all(start, all.take(i as int).filter(keep)),
    {
        let ghost before = all.take(i as int).filter(keep);
        proof {
            reveal(Seq::filter);
            assert(all.take(i + 1).drop_last() =~= all.take(i as int));
            assert(all[i as int] == s.log_records@[i as int]@.severity_text);
            assert(before.push(all[i as int]).drop_last() =~= before);
        }
        if !s.log_records[i].severity_text.as_str().is_empty() {
            insert_capped(c, s.log_records[i].severity_text.as_str());
        }
    }
    assert(all.take(s.log_records@.len() as int) =~= all);
}

/// Adds the services and severities of a batch.
fn collect_log_summaries(batch: &LogsRequest, services: &mut CappedSet, severities: &mut CappedSet)
    requires
        old(services).wf(),
        old(severities).wf(),
    ensures
        final(services).wf(),
        final(severities).wf(),
        final(services).model() == capped_all(
            old(services).model(),
            batch_services(batch@.resource_logs),
        ),
        final(severities).model() == capped_all(
            old(severities).model(),
            batch_severities(batch@.resource_logs),
        ),
{
    let ghost sv = services.model();
    let ghost sev = severities.model();
    let ghost rls = batch@.resource_logs;
    assert(rls.take(0) =~= Seq::empty());
    for i in 0..batch.resource_logs.len()
        invariant
            services.wf(),
            severities.wf(),
            rls == batch@.resource_logs,
            services.model() == capped_all(sv, batch_services(rls.take(i as int))),
            severities.model() == capped_all(sev, batch_severities(rls.take(i as int))),
    {
        let rl = &batch.resource_logs[i];
        assert(rls.take(i + 1).drop_last() =~= rls.take(i as int));
        assert(rls[i as int] == rl@);
        let ghost bs = batch_services(rls.take(i as int));
        let ghost be = batch_severities(rls.take(i as int));
        proof {
            lemma_capped_all_concat(
                sv,
                bs,
                service_values(resource_attrs_of(rl@.resource)),
            );
        }
        if let Some(resource) = &rl.resource {
            collect_services(&resource.attributes, services);
        } else {
            assert(service_values(Seq::empty()) =~= Seq::empty());
            assert(bs + Seq::<Seq<char>>::empty() =~= bs);
        }
        let ghost sls = rl@.scope_logs;
        let ghost inner = severities.model();
        assert(sls.take(0) =~= Seq::empty());
        for j in 0..rl.scope_logs.len()
            invariant
                severities.wf(),
                sls == rl@.scope_logs,
                severities.model() == capped_all(inner, resource_severities(sls.take(j as int))),
        {
            assert(sls.take(j + 1).drop_last() =~= sls.take(j as int));
            assert(sls[j as int] == rl.scope_logs@[j as int]@);
            proof {
                lemma_capped_all_concat(
                    inner,
                    resource_severities(sls.take(j as int)),
                    scope_severities(sls[j as int]),
                );
            }
            collect_severities(&rl.scope_logs[j], severities);
        }
        assert(sls.take(rl.scope_logs@.len() as int) =~= sls);
        proof {
            lemma_capped_all_concat(sev, be, resource_severities(sls));
        }
    }
    assert(rls.take(batch.resource_logs@.len() as int) =~= rls);
}

/// A summary that is being built.
#[derive(Debug)]
pub struct SummaryBuilder {
    first_seq: Option<u64>,
    last_seq: Option<u64>,
    first_ts_unix_ns: Option<u64>,
    last_ts_unix_ns: Option<u64>,
    record_types: u8,
    services: CappedSet,
    severities: CappedSet,
}

impl View for SummaryBuilder {
    type V = IndexModel;

    closed spec fn view(&self) -> IndexModel {
        IndexModel {
            first_seq: self.first_seq,
            last_seq: self.last_seq,
            first_ts: self.first_ts_unix_ns,
            last_ts: self.last_ts_unix_ns,
            types: self.record_types,
            services: self.services.model().values,
            services_complete: self.services.complete,
            severities: self.severities.model().values,
            severities_complete: self.severities.complete,
        }
    }
}

/// The first of two optional values that is there.
fn first_of(a: Option<u64>, b: Option<u64>) -> (r: Option<u64>)
    ensures
        r == first_some(a, b),
{
    match a {
        Some(x) => Some(x),
        None => b,
    }
}

impl SummaryBuilder {
    /// The lists hold no value twice.
    pub closed spec fn wf(&self) -> bool {
        self.services.wf() && self.severities.wf()
    }

    /// A summary before its first record.
    pub fn new() -> (r: Self)
        ensures
            r.wf(),
            r@ == empty_summary(),
    {
        SummaryBuilder {
            first_seq: None,
            last_seq: None,
            first_ts_unix_ns: None,
            last_ts_unix_ns: None,
            record_types: 0,
            services: CappedSet::new(),
            severities: CappedSet::new(),
        }
    }

    /// Adds a record.
    pub fn push(&mut self, record: &StreamRecord)
        requires
            old(self).wf(),
        ensures
            final(self).wf(),
            final(self)@ == summary_push(old(self)@, record@),
    {
        self.first_seq = first_of(self.first_seq, Some(record.seq));
        self.last_seq = Some(record.seq);
        self.first_ts_unix_ns = first_of(self.first_ts_unix_ns, Some(record.ts_unix_ns));
        self.last_ts_unix_ns = Some(record.ts_unix_ns);
        self.record_types = self.record_types | record_type_bit(record.record_type);
        if record.record_type == RecordType::Logs {
            if let Some(batch) = decode_logs(&record.payload) {
                collect_log_summaries(&batch, &mut self.services, &mut self.severities);
            }
        }
    }

    /// Adds a block.
    pub fn merge(&mut self, block: &IndexBlock)
        requires
            old(self).wf(),
        ensures
            final(self).wf(),
            final(self)@ == summary_merge(old(self)@, block@),
    {
        self.first_seq = first_of(self.first_seq, block.first_seq);
        self.last_seq = first_of(block.last_seq, self.last_seq);
        self.first_ts_unix_ns = first_of(self.first_ts_unix_ns, block.first_ts_unix_ns);
        self.last_ts_unix_ns = first_of(block.last_ts_unix_ns, self.last_ts_unix_ns);
        self.record_types = self.record_types | block.record_types;
        merge_set(&mut self.services, &block.services, block.services_complete);
        merge_set(&mut self.severities, &block.severities, block.severities_complete);
    }

    /// The finished summary.
    pub fn finish(self, size: u64, modified_ns: Option<u64>) -> (r: IndexSummary)
        ensures
            r@ == summary_finish(self@),
            r.size == size,
            r.modified_ns == modified_ns,
    {
        IndexSummary {
            size,
            modified_ns,
            first_seq: self.first_seq,
            last_seq: self.last_seq,
            first_ts_unix_ns: self.first_ts_unix_ns,
            last_ts_unix_ns: self.last_ts_unix_ns,
            record_types: self.record_types,
            services: self.services.set.sorted(),
            services_complete: self.services.complete,
            severities: self.severities.set.sorted(),
            severities_complete: self.severities.complete,
        }
    }
}

/// The block at `offset` with these records.
pub fn summarise_block(offset: u64, len: u64, records: &Vec<StreamRecord>) -> (r: IndexBlock)
    ensures
        r.offset == offset,
        r.len == len,
        r@ == summary_finish(summary_of(stream_view(records@))),
{
    let ghost all = stream_view(records@);
    let mut b = SummaryBuilder::new();
    assert(all.take(0) =~= Seq::empty());
    for i in 0..records.len()
        invariant
            b.wf(),
            all == stream_view(records@),
            b@ == summary_of(all.take(i as int)),
    {
        assert(all.take(i + 1).drop_last() =~= all.take(i as int));
        assert(all[i as int] == records@[i as int]@);
        b.push(&records[i]);
    }
    assert(all.take(records@.len() as int) =~= all);
    let s = b.finish(len, None);
    IndexBlock {
        offset,
        len,
        first_seq: s.first_seq,
        last_seq: s.last_seq,
        first_ts_unix_ns: s.first_ts_unix_ns,
        last_ts_unix_ns: s.last_ts_unix_ns,
        record_types: s.record_types,
        services: s.services,
        services_complete: s.services_complete,
        severities: s.severities,
        severities_complete: s.severities_complete,
    }
}

/// The summary of a list of blocks.
pub open spec fn blocks_summary(b: Seq<IndexModel>) -> IndexModel
    decreases b.len(),
{
    if b.len() == 0 {
        empty_summary()
    } else {
        summary_merge(blocks_summary(b.drop_last()), b.last())
    }
}

/// The index of a file with these blocks; an error where there are none.
pub fn build_index(blocks: Vec<IndexBlock>, size: u64, modified_ns: Option<u64>) -> (r: Result<
    DatasetIndex,
    Error,
>)
    ensures
        match r {
            Ok(index) => blocks@.len() > 0 && index.blocks == blocks && index.summary.size == size
                && index.summary.modified_ns == modified_ns && index.summary@ == summary_finish(
                blocks_summary(blocks@.map_values(|b: IndexBlock| b@)),
            ),
            Err(e) => blocks@.len() == 0 && e@ == ErrorModel::Logjet("missing block sync"@),
        },
{
    if blocks.len() == 0 {
        return Err(Error::Logjet("missing block sync".to_owned()));
    }
    let ghost all = blocks@.map_values(|b: IndexBlock| b@);
    let mut b = SummaryBuilder::new();
    assert(all.take(0) =~= Seq::empty());
    for i in 0..blocks.len()
        invariant
            b.wf(),
            all == blocks@.map_values(|b: IndexBlock| b@),
            b@ == blocks_summary(all.take(i as int)),
    {
        assert(all.take(i + 1).drop_last() =~= all.take(i as int));
        assert(all[i as int] == blocks@[i as int]@);
        b.merge(&blocks[i]);
    }
    assert(all.take(blocks@.len() as int) =~= all);
    Ok(DatasetIndex { summary: b.finish(size, modified_ns), blocks })
}

/// A summary says of a record what is true of it.
pub open spec fn covers_record(s: IndexModel, r: RecordModel) -> bool {
    &&& s.types & type_bit(r.record_type) != 0
    &&& s.first_seq is Some && s.first_seq->0 <= r.seq
    &&& s.last_seq is Some && r.seq <= s.last_seq->0
    &&& s.first_ts is Some && s.first_ts->0 <= r.ts_unix_ns
    &&& s.last_ts is Some && r.ts_unix_ns <= s.last_ts->0
    &&& s.services_complete ==> forall|x: Seq<char>|
        record_services(r).contains(x) ==> #[trigger] s.services.contains(x)
    &&& s.severities_complete ==> forall|x: Seq<char>|
        record_severities(r).contains(x) ==> #[trigger] s.severities.contains(x)
}

/// Sequence numbers and timestamps ascend.
pub open spec fn in_order(r: Seq<RecordModel>) -> bool {
    forall|i: int, j: int|
        0 <= i <= j < r.len() ==> (#[trigger] r[i]).seq <= (#[trigger] r[j]).seq && r[i].ts_unix_ns
            <= r[j].ts_unix_ns
}

proof fn lemma_type_bits(a: u8, b: u8, t: RecordType)
    ensures
        a & type_bit(t) != 0 ==> (a | b) & type_bit(t) != 0,
        b & type_bit(t) != 0 ==> (a | b) & type_bit(t) != 0,
        type_bit(t) & type_bit(t) != 0,
{
    let c = type_bit(t);
    assert(a & c != 0 ==> (a | b) & c != 0) by (bit_vector);
    assert(b & c != 0 ==> (a | b) & c != 0) by (bit_vector);
    assert(c == 1 || c == 2 || c == 4 || c == 8 ==> c & c != 0) by (bit_vector);
}

/// A list that is still complete holds every value it was given.
proof fn lemma_capped_all_holds(c: CappedModel, values: Seq<Seq<char>>, x: Seq<char>)
    requires
        capped_all(c, values).complete,
    ensures
        c.complete,
        c.values.contains(x) || values.contains(x) ==> capped_all(c, values).values.contains(x),
    decreases values.len(),
{
    if values.len() > 0 {
        let init = values.drop_last();
        lemma_capped_all_holds(c, init, x);
        let before = capped_all(c, init).values;
        if values.contains(x) && !init.contains(x) {
            let i = choose|i: int| 0 <= i < values.len() && values[i] == x;
            if i < init.len() {
                assert(init[i] == x);
            }
            assert(x == values.last());
        }
        let after = with_member(before, values.last());
        if before.contains(x) && !before.contains(values.last()) {
            let i = choose|i: int| 0 <= i < before.len() && before[i] == x;
            assert(after[i] == x);
        }
        if x == values.last() && !before.contains(x) {
            assert(after[before.len() as int] == x);
        }
    }
}

/// The summary of records in order covers each of them.
pub proof fn law_summary_covers_records(records: Seq<RecordModel>, i: int)
    requires
        in_order(records),
        0 <= i < records.len(),
    ensures
        covers_record(summary_of(records), records[i]),
    decreases records.len(),
{
    let init = records.drop_last();
    let before = summary_of(init);
    let s = summary_of(records);
    let last = records.last();
    assert(in_order(init)) by {
        assert forall|a: int, b: int| 0 <= a <= b < init.len() implies (#[trigger] init[a]).seq <= (
        #[trigger] init[b]).seq && init[a].ts_unix_ns <= init[b].ts_unix_ns by {
            assert(records[a].seq <= records[b].seq);
        }
    }
    assert(records[i].seq <= records[records.len() - 1].seq);
    lemma_type_bits(before.types, type_bit(last.record_type), records[i].record_type);
    if i < init.len() {
        law_summary_covers_records(init, i);
        assert(init[i] == records[i]);
    } else if init.len() > 0 {
        law_summary_covers_records(init, 0);
        assert(init[0] == records[0]);
        lemma_first_values(init);
        assert(records[0].seq <= records[i].seq);
    }
    if s.services_complete {
        assert forall|x: Seq<char>| record_services(records[i]).contains(
            x,
        ) implies #[trigger] s.services.contains(x) by {
            lemma_capped_all_holds(services_part(before), record_services(last), x);
        }
    }
    if s.severities_complete {
        assert forall|x: Seq<char>| record_severities(records[i]).contains(
            x,
        ) implies #[trigger] s.severities.contains(x) by {
            lemma_capped_all_holds(severities_part(before), record_severities(last), x);
        }
    }
}

/// A summary starts with its first record.
proof fn lemma_first_values(records: Seq<RecordModel>)
    requires
        records.len() > 0,
    ensures
        summary_of(records).first_seq == Some(records[0].seq),
        summary_of(records).first_ts == Some(records[0].ts_unix_ns),
    decreases records.len(),
{
    if records.len() > 1 {
        lemma_first_values(records.drop_last());
    } else {
        assert(records.drop_last() =~= Seq::empty());
        assert(summary_of(records.drop_last()) == empty_summary());
    }
}

/// Sorting the lists of a summary changes nothing it says.
pub proof fn law_finished_summary_covers(s: IndexModel, r: RecordModel)
    requires
        covers_record(s, r),
    ensures
        covers_record(summary_finish(s), r),
{
    law_sorted_members(s.services);
    law_sorted_members(s.severities);
}

/// A file summary covers what its blocks cover, as long as the file starts
/// before the record.
pub proof fn law_merged_summary_covers(s: IndexModel, b: IndexModel, r: RecordModel)
    requires
        covers_record(b, r),
        s.first_seq matches Some(x) ==> x <= r.seq,
        s.first_ts matches Some(x) ==> x <= r.ts_unix_ns,
    ensures
        covers_record(summary_merge(s, b), r),
{
    let m = summary_merge(s, b);
    lemma_type_bits(s.types, b.types, r.record_type);
    if m.services_complete {
        assert forall|x: Seq<char>| record_services(r).contains(
            x,
        ) implies #[trigger] m.services.contains(x) by {
            assert(b.services.contains(x));
            lemma_capped_all_holds(services_part(s), b.services, x);
        }
    }
    if m.severities_complete {
        assert forall|x: Seq<char>| record_severities(r).contains(
            x,
        ) implies #[trigger] m.severities.contains(x) by {
            assert(b.severities.contains(x));
            lemma_capped_all_holds(severities_part(s), b.severities, x);
        }
    }
}

/// The record is a log batch in which resource `i` names its service.
pub open spec fn names_service(r: RecordModel, i: int) -> bool {
    &&& r.record_type == RecordType::Logs
    &&& logs_of(r.payload) is Some
    &&& 0 <= i < logs_of(r.payload)->0.resource_logs.len()
    &&& named_service(
        resource_attrs_of(logs_of(r.payload)->0.resource_logs[i].resource),
    ) is Some
}

/// The record is a log batch in which log record `k` of scope `j` of resource
/// `i` has a severity text.
pub open spec fn names_severity(r: RecordModel, i: int, j: int, k: int) -> bool {
    &&& r.record_type == RecordType::Logs
    &&& logs_of(r.payload) is Some
    &&& ({
        let rl = logs_of(r.payload)->0.resource_logs;
        &&& 0 <= i < rl.len()
        &&& 0 <= j < rl[i].scope_logs.len()
        &&& 0 <= k < rl[i].scope_logs[j].log_records.len()
        &&& rl[i].scope_logs[j].log_records[k].severity_text.len() > 0
    })
}

proof fn lemma_service_value_listed(a: Seq<KvModel>, i: int)
    requires
        0 <= i < a.len(),
        a[i].key == "service.name"@,
        string_value(a[i].value) is Some,
    ensures
        service_values(a).contains(string_value(a[i].value)->0),
    decreases a.len(),
{
    let x = string_value(a[i].value)->0;
    if i < a.len() - 1 {
        lemma_service_value_listed(a.drop_last(), i);
        let before = service_values(a.drop_last());
        let p = choose|p: int| 0 <= p < before.len() && before[p] == x;
        assert(service_values(a)[p] == x);
    } else {
        assert(service_values(a).last() == x);
    }
}

proof fn lemma_batch_service_listed(r: Seq<ResourceLogsModel>, i: int, x: Seq<char>)
    requires
        0 <= i < r.len(),
        service_values(resource_attrs_of(r[i].resource)).contains(x),
    ensures
        batch_services(r).contains(x),
    decreases r.len(),
{
    let before = batch_services(r.drop_last());
    let own = service_values(resource_attrs_of(r.last().resource));
    if i < r.len() - 1 {
        lemma_batch_service_listed(r.drop_last(), i, x);
        let p = choose|p: int| 0 <= p < before.len() && before[p] == x;
        assert((before + own)[p] == x);
    } else {
        let p = choose|p: int| 0 <= p < own.len() && own[p] == x;
        assert((before + own)[before.len() + p] == x);
    }
}

proof fn lemma_filter_holds(s: Seq<Seq<char>>, k: int)
    requires
        0 <= k < s.len(),
        s[k].len() > 0,
    ensures
        s.filter(|t: Seq<char>| t.len() > 0).contains(s[k]),
    decreases s.len(),
{
    let keep = |t: Seq<char>| t.len() > 0;
    reveal(Seq::filter);
    let before = s.drop_last().filter(keep);
    if k < s.len() - 1 {
        lemma_filter_holds(s.drop_last(), k);
        let p = choose|p: int| 0 <= p < before.len() && before[p] == s[k];
        assert(s.filter(keep)[p] == s[k]);
    } else {
        assert(s.filter(keep).last() == s[k]);
    }
}

proof fn lemma_resource_severity_listed(s: Seq<ScopeLogsModel>, j: int, x: Seq<char>)
    requires
        0 <= j < s.len(),
        scope_severities(s[j]).contains(x),
    ensures
        resource_severities(s).contains(x),
    decreases s.len(),
{
    let before = resource_severities(s.drop_last());
    let own = scope_severities(s.last());
    if j < s.len() - 1 {
        lemma_resource_severity_listed(s.drop_last(), j, x);
        let p = choose|p: int| 0 <= p < before.len() && before[p] == x;
        assert((before + own)[p] == x);
    } else {
        let p = choose|p: int| 0 <= p < own.len() && own[p] == x;
        assert((before + own)[before.len() + p] == x);
    }
}

proof fn lemma_batch_severity_listed(r: Seq<ResourceLogsModel>, i: int, x: Seq<char>)
    requires
        0 <= i < r.len(),
        resource_severities(r[i].scope_logs).contains(x),
    ensures
        batch_severities(r).contains(x),
    decreases r.len(),
{
    let before = batch_severities(r.drop_last());
    let own = resource_severities(r.last().scope_logs);
    if i < r.len() - 1 {
        lemma_batch_severity_listed(r.drop_last(), i, x);
        let p = choose|p: int| 0 <= p < before.len() && before[p] == x;
        assert((before + own)[p] == x);
    } else {
        let p = choose|p: int| 0 <= p < own.len() && own[p] == x;
        assert((before + own)[before.len() + p] == x);
    }
}

/// An index hides no match: a summary that covers a record that matches a
/// predicate does not rule the predicate out. Where the predicate asks for
/// services or severities, the record has to name one.
pub proof fn law_index_hides_no_match(
    s: IndexModel,
    p: PredicateModel,
    r: RecordModel,
    service_at: int,
    severity_at: (int, int, int),
)
    requires
        covers_record(s, r),
        predicate_matches(p, r),
        p.fields.services is Some ==> names_service(r, service_at),
        p.fields.severities is Some ==> names_severity(
            r,
            severity_at.0,
            severity_at.1,
            severity_at.2,
        ),
    ensures
        index_may_match(s, p),
{
    if p.fields.services is Some && s.services_complete {
        let f = p.fields.services->0;
        let rl = logs_of(r.payload)->0.resource_logs;
        let attrs = resource_attrs_of(rl[service_at].resource);
        let x = named_service(attrs)->0;
        assert(resource_allowed(p.fields, rl[service_at]));
        crate::dedup::lemma_first_index_hit(attr_keys(attrs), "service.name"@);
        lemma_service_value_listed(
            attrs,
            crate::text::seqs::first_index(attr_keys(attrs), "service.name"@),
        );
        lemma_batch_service_listed(rl, service_at, x);
        assert(s.services.contains(x));
        let q = choose|q: int| 0 <= q < f.len() && f[q] == x;
        assert(s.services.contains(f[q]));
    }
    if p.fields.severities is Some && s.severities_complete {
        let f = p.fields.severities->0;
        let rl = logs_of(r.payload)->0.resource_logs;
        let sl = rl[severity_at.0].scope_logs[severity_at.1];
        let x = sl.log_records[severity_at.2].severity_text;
        assert(resource_allowed(p.fields, rl[severity_at.0]));
        assert(severities_allowed(p.fields, sl));
        let all = sl.log_records.map_values(|r: crate::otlp::LogRecordModel| r.severity_text);
        assert(all[severity_at.2] == x);
        lemma_filter_holds(all, severity_at.2);
        lemma_resource_severity_listed(rl[severity_at.0].scope_logs, severity_at.1, x);
        lemma_batch_severity_listed(rl, severity_at.0, x);
        assert(s.severities.contains(x));
        let q = choose|q: int| 0 <= q < f.len() && f[q] == x;
        assert(s.severities.contains(f[q]));
    }
}

/// The contents of an index file.
#[derive(Debug)]
pub struct DiskIndex {
    pub version: u32,
    pub source_path: String,
    pub source_size: u64,
    pub source_modified_ns: Option<u64>,
    pub summary: DiskSummary,
    pub blocks: Vec<DiskBlock>,
}

/// A summary in an index file.
#[derive(Debug)]
pub struct DiskSummary {
    pub first_seq: Option<u64>,
    pub last_seq: Option<u64>,
    pub first_ts_unix_ns: Option<u64>,
    pub last_ts_unix_ns: Option<u64>,
    pub record_types: u8,
    pub services: Vec<String>,
    pub services_complete: bool,
    pub severities: Vec<String>,
    pub severities_complete: bool,
}

/// A block in an index file.
#[derive(Debug)]
pub struct DiskBlock {
    pub offset: u64,
    pub len: u64,
    pub first_seq: Option<u64>,
    pub last_seq: Option<u64>,
    pub first_ts_unix_ns: Option<u64>,
    pub last_ts_unix_ns: Option<u64>,
    pub record_types: u8,
    pub services: Vec<String>,
    pub services_complete: bool,
    pub severities: Vec<String>,
    pub severities_complete: bool,
}

/// A block with its place in the file.
pub struct BlockModel {
    pub offset: u64,
    pub len: u64,
    pub holds: IndexModel,
}

/// An index.
pub struct FileIndexModel {
    pub size: u64,
    pub modified_ns: Option<u64>,
    pub summary: IndexModel,
    pub blocks: Seq<BlockModel>,
}

impl IndexBlock {
    pub open spec fn model(self) -> BlockModel {
        BlockModel { offset: self.offset, len: self.len, holds: self@ }
    }
}

impl View for DatasetIndex {
    type V = FileIndexModel;

    open spec fn view(&self) -> FileIndexModel {
        FileIndexModel {
            size: self.summary.size,
            modified_ns: self.summary.modified_ns,
            summary: self.summary@,
            blocks: self.blocks@.map_values(|b: IndexBlock| b.model()),
        }
    }
}

impl DiskBlock {
    pub open spec fn model(self) -> BlockModel {
        BlockModel {
            offset: self.offset,
            len: self.len,
            holds: IndexModel {
                first_seq: self.first_seq,
                last_seq: self.last_seq,
                first_ts: self.first_ts_unix_ns,
                last_ts: self.last_ts_unix_ns,
                types: self.record_types,
                services: texts(self.services@),
                services_complete: self.services_complete,
                severities: texts(self.severities@),
                severities_complete: self.severities_complete,
            },
        }
    }
}

impl DiskSummary {
    pub open spec fn model(self) -> IndexModel {
        IndexModel {
            first_seq: self.first_seq,
            last_seq: self.last_seq,
            first_ts: self.first_ts_unix_ns,
            last_ts: self.last_ts_unix_ns,
            types: self.record_types,
            services: texts(self.services@),
            services_complete: self.services_complete,
            severities: texts(self.severities@),
            severities_complete: self.severities_complete,
        }
    }
}

/// An index file.
pub struct DiskModel {
    pub version: u32,
    pub source_path: Seq<char>,
    pub index: FileIndexModel,
}

impl View for DiskIndex {
    type V = DiskModel;

    open spec fn view(&self) -> DiskModel {
        DiskModel {
            version: self.version,
            source_path: self.source_path@,
            index: FileIndexModel {
                size: self.source_size,
                modified_ns: self.source_modified_ns,
                summary: self.summary.model(),
                blocks: self.blocks@.map_values(|b: DiskBlock| b.model()),
            },
        }
    }
}

/// The index file describes the file at `path` as it is now.
pub open spec fn fresh(d: DiskModel, path: Seq<char>, size: u64, modified_ns: Option<u64>) -> bool {
    &&& d.version == INDEX_VERSION
    &&& d.source_path == path
    &&& d.index.size == size
    &&& d.index.modified_ns == modified_ns
}

/// The index in an index file, where it describes the file at `path` as it is
/// now.
pub fn load_fresh(disk: DiskIndex, path: &str, size: u64, modified_ns: Option<u64>) -> (r: Option<
    DatasetIndex,
>)
    ensures
        match r {
            Some(index) => fresh(disk@, path@, size, modified_ns) && index@ == disk@.index,
            None => !fresh(disk@, path@, size, modified_ns),
        },
{
    if disk.version != INDEX_VERSION || !str_eq(disk.source_path.as_str(), path)
        || disk.source_size != size || disk.source_modified_ns != modified_ns {
        return None;
    }
    Some(from_disk(disk))
}

/// The index in an index file.
pub fn from_disk(disk: DiskIndex) -> (r: DatasetIndex)
    ensures
        r@ == disk@.index,
{
    let ghost source = disk.blocks@;
    let mut blocks: Vec<IndexBlock> = Vec::new();
    for block in it: disk.blocks
        invariant
            it.seq() == source,
            blocks@.len() == it.index(),
            forall|i: int|
                0 <= i < it.index() ==> (#[trigger] blocks@[i]).model() == source[i].model(),
    {
        blocks.push(
            IndexBlock {
                offset: block.offset,
                len: block.len,
                first_seq: block.first_seq,
                last_seq: block.last_seq,
                first_ts_unix_ns: block.first_ts_unix_ns,
                last_ts_unix_ns: block.last_ts_unix_ns,
                record_types: block.record_types,
                services: block.services,
                services_complete: block.services_complete,
                severities: block.severities,
                severities_complete: block.severities_complete,
            },
        );
    }
    let summary = IndexSummary {
        size: disk.source_size,
        modified_ns: disk.source_modified_ns,
        first_seq: disk.summary.first_seq,
        last_seq: disk.summary.last_seq,
        first_ts_unix_ns: disk.summary.first_ts_unix_ns,
        last_ts_unix_ns: disk.summary.last_ts_unix_ns,
        record_types: disk.summary.record_types,
        services: disk.summary.services,
        services_complete: disk.summary.services_complete,
        severities: disk.summary.severities,
        severities_complete: disk.summary.severities_complete,
    };
    let r = DatasetIndex { summary, blocks };
    assert(r@.blocks =~= disk@.index.blocks);
    r
}

/// The index file for the index of the file at `path`.
pub fn to_disk(path: &str, index: &DatasetIndex) -> (r: DiskIndex)
    ensures
        r@ == (DiskModel { version: INDEX_VERSION, source_path: path@, index: index@ }),
{
    let mut blocks: Vec<DiskBlock> = Vec::new();
    for i in 0..index.blocks.len()
        invariant
            blocks@.len() == i,
            forall|j: int|
                0 <= j < i ==> (#[trigger] blocks@[j]).model() == index.blocks@[j].model(),
    {
        let block = &index.blocks[i];
        blocks.push(
            DiskBlock {
                offset: block.offset,
                len: block.len,
                first_seq: block.first_seq,
                last_seq: block.last_seq,
                first_ts_unix_ns: block.first_ts_unix_ns,
                last_ts_unix_ns: block.last_ts_unix_ns,
                record_types: block.record_types,
                services: copy_texts(&block.services),
                services_complete: block.services_complete,
                severities: copy_texts(&block.severities),
                severities_complete: block.severities_complete,
            },
        );
    }
    let summary = DiskSummary {
        first_seq: index.summary.first_seq,
        last_seq: index.summary.last_seq,
        first_ts_unix_ns: index.summary.first_ts_unix_ns,
        last_ts_unix_ns: index.summary.last_ts_unix_ns,
        record_types: index.summary.record_types,
        services: copy_texts(&index.summary.services),
        services_complete: index.summary.services_complete,
        severities: copy_texts(&index.summary.severities),
        severities_complete: index.summary.severities_complete,
    };
    let r = DiskIndex {
        version: INDEX_VERSION,
        source_path: path.to_owned(),
        source_size: index.summary.size,
        source_modified_ns: index.summary.modified_ns,
        summary,
        blocks,
    };
    assert(r@.index.blocks =~= index@.blocks);
    r
}

/// An index that was just written is fresh and is read back as it was.
pub proof fn law_index_file_round_trip(path: Seq<char>, index: FileIndexModel, d: DiskModel)
    requires
        d == (DiskModel { version: INDEX_VERSION, source_path: path, index }),
    ensures
        fresh(d, path, index.size, index.modified_ns),
        d.index == index,
{
}

/// The name of the index file for the file at a path.
pub open spec fn sidecar_name(path: Seq<char>) -> Seq<char> {
    hex_padded(xxh3(vstd::utf8::encode_utf8(path)) as nat, 16) + ".ljxidx"@
}

/// The name of the index file for the file at `path`.
pub fn sidecar_file_name(path: &str) -> (r: String)
    ensures
        r@ == sidecar_name(path@),
{
    let hash = xxh3_64(path.as_bytes());
    let mut name = String::new();
    push_hex(&mut name, hash, 16);
    name.append(".ljxidx");
    name
}

} // verus!
