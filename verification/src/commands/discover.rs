//! The `discover` command: what a selection of files holds.
use vstd::multiset::Multiset;
use vstd::prelude::*;

use crate::bridge::protobuf::{decode_logs, logs_of};
use crate::cli::DiscoverArgs;
use crate::dataset::{Dataset, DatasetEntry};
use crate::dataset_index::index_may_match;
use crate::dedup::unpack::{resource_attrs_of, string_value};
use crate::error::{error_text, Error, ErrorModel};
use crate::otlp::{
    attrs_view, AttrValue, KvModel, LogRecordModel, LogsRequest, ResourceLogSet, ResourceLogsModel,
    ScopeLogSet, ScopeLogsModel,
};
use crate::predicate::{
    asked_predicate, build_error, parse_string_filter, selected, some_empty, FieldFilter,
    FilterModel, PredicateModel, RecordPredicate,
};
use crate::record::{stream_view, RecordModel, RecordType, StreamRecord};
use crate::text::numbers::{decimal, usize_text};
use crate::text::str_set::{distinct, StrSet};
use crate::text::strings::{str_eq, texts};
use crate::text::tally::{ranked, rows_bag, rows_ok, rows_view, CountRow, Tally};

verus! {

/// The version of the output format.
pub const FORMAT_VERSION: u32 = 1;

/// A span of timestamps.
#[derive(Debug, Clone, Copy, PartialEq, Eq)]
pub struct TimeSpan {
    pub first: Option<u64>,
    pub last: Option<u64>,
}

/// What is found in one file.
#[derive(Debug)]
pub struct FileSummary {
    pub path: String,
    pub size: u64,
    pub modified_unix_ns: Option<u64>,
    pub source_sequence_span: TimeSpan,
    pub source_time_span_unix_ns: TimeSpan,
    pub records_scanned: u64,
    pub records_matched: u64,
    pub log_events: u64,
    pub time_span_unix_ns: TimeSpan,
    pub skipped_by_index: bool,
}

/// What a [`FileSummary`] holds.
pub struct FileSummaryModel {
    pub path: Seq<char>,
    pub size: u64,
    pub modified: Option<u64>,
    pub source_sequence: TimeSpan,
    pub source_time: TimeSpan,
    pub scanned: nat,
    pub matched: nat,
    pub events: nat,
    pub time: TimeSpan,
    pub skipped: bool,
}

impl View for FileSummary {
    type V = FileSummaryModel;

    open spec fn view(&self) -> FileSummaryModel {
        FileSummaryModel {
            path: self.path@,
            size: self.size,
            modified: self.modified_unix_ns,
            source_sequence: self.source_sequence_span,
            source_time: self.source_time_span_unix_ns,
            scanned: self.records_scanned as nat,
            matched: self.records_matched as nat,
            events: self.log_events as nat,
            time: self.time_span_unix_ns,
            skipped: self.skipped_by_index,
        }
    }
}

/// What is found in one file, with the services and severities of its events.
#[derive(Debug)]
pub struct FileScan {
    pub row: FileSummary,
    pub services: Tally,
    pub severities: Tally,
}

/// What a [`FileScan`] holds.
pub struct ScanModel {
    pub row: FileSummaryModel,
    pub services: Multiset<Seq<char>>,
    pub severities: Multiset<Seq<char>>,
}

impl FileScan {
    pub open spec fn model(self) -> ScanModel {
        ScanModel { row: self.row@, services: self.services@, severities: self.severities@ }
    }

    /// No service and no severity is counted more often than there are events.
    pub open spec fn wf(self) -> bool {
        &&& self.services.wf() && self.severities.wf()
        &&& at_most(self.services@, self.row.log_events as nat)
        &&& at_most(self.severities@, self.row.log_events as nat)
    }
}

/// No text occurs more often than `n` times.
pub open spec fn at_most(m: Multiset<Seq<char>>, n: nat) -> bool {
    forall|t: Seq<char>| #[trigger] m.count(t) <= n
}

/// The first service name among attributes that is a string.
pub open spec fn string_service(a: Seq<KvModel>) -> Option<Seq<char>>
    decreases a.len(),
{
    if a.len() == 0 {
        None
    } else if a.first().key == "service.name"@ && string_value(a.first().value) is Some {
        string_value(a.first().value)
    } else {
        string_service(a.drop_first())
    }
}

/// The service of a resource.
pub fn service_name(rl: &ResourceLogSet) -> (r: Option<&String>)
    ensures
        match r {
            Some(s) => string_service(resource_attrs_of(rl@.resource)) == Some(s@),
            None => string_service(resource_attrs_of(rl@.resource)) is None,
        },
{
    let resource = match &rl.resource {
        Some(x) => x,
        None => return None,
    };
    let ghost a = attrs_view(resource.attributes@);
    assert(a.skip(0) =~= a);
    for i in 0..resource.attributes.len()
        invariant
            a == attrs_view(resource.attributes@),
            string_service(a) == string_service(a.skip(i as int)),
            resource_attrs_of(rl@.resource) == a,
    {
        assert(a.skip(i as int).drop_first() =~= a.skip(i + 1));
        assert(a.skip(i as int).first() == resource.attributes@[i as int]@);
        if str_eq(resource.attributes[i].key.as_str(), "service.name") {
            if let Some(AttrValue::Str(s)) = &resource.attributes[i].value {
                return Some(s);
            }
        }
    }
    None
}

/// A log event: the service it comes from and its severity.
pub struct EventModel {
    pub service: Option<Seq<char>>,
    pub severity: Seq<char>,
}

/// The name of a severity; a severity that is not set has one too.
pub open spec fn severity_name(t: Seq<char>) -> Seq<char> {
    if t.len() == 0 {
        "<unset>"@
    } else {
        t
    }
}

/// The service is asked for.
pub open spec fn service_passes(f: FilterModel, service: Option<Seq<char>>) -> bool {
    f.services matches Some(allowed) ==> (service is Some && allowed.contains(service->0))
}

/// The severity is asked for.
pub open spec fn severity_passes(f: FilterModel, t: Seq<char>) -> bool {
    f.severities matches Some(allowed) ==> allowed.contains(t)
}

/// The events of log records that are asked for.
pub open spec fn item_events(
    f: FilterModel,
    service: Option<Seq<char>>,
    l: Seq<LogRecordModel>,
) -> Seq<EventModel>
    decreases l.len(),
{
    if l.len() == 0 {
        Seq::empty()
    } else {
        let before = item_events(f, service, l.drop_last());
        if severity_passes(f, l.last().severity_text) {
            before.push(EventModel { service, severity: severity_name(l.last().severity_text) })
        } else {
            before
        }
    }
}

/// The events of scopes that are asked for.
pub open spec fn scope_events(
    f: FilterModel,
    service: Option<Seq<char>>,
    s: Seq<ScopeLogsModel>,
) -> Seq<EventModel>
    decreases s.len(),
{
    if s.len() == 0 {
        Seq::empty()
    } else {
        scope_events(f, service, s.drop_last()) + item_events(f, service, s.last().log_records)
    }
}

/// The events of a resource that are asked for.
pub open spec fn resource_events(f: FilterModel, r: ResourceLogsModel) -> Seq<EventModel> {
    let service = string_service(resource_attrs_of(r.resource));
    if service_passes(f, service) {
        scope_events(f, service, r.scope_logs)
    } else {
        Seq::empty()
    }
}

/// The events of resources that are asked for.
pub open spec fn batch_events(f: FilterModel, r: Seq<ResourceLogsModel>) -> Seq<EventModel>
    decreases r.len(),
{
    if r.len() == 0 {
        Seq::empty()
    } else {
        batch_events(f, r.drop_last()) + resource_events(f, r.last())
    }
}

/// The events of a record that are asked for.
pub open spec fn record_events(f: FilterModel, r: RecordModel) -> Seq<EventModel> {
    if r.record_type != RecordType::Logs {
        Seq::empty()
    } else {
        match logs_of(r.payload) {
            Some(b) => batch_events(f, b.resource_logs),
            None => Seq::empty(),
        }
    }
}

/// The events of records that are asked for.
pub open spec fn all_events(f: FilterModel, r: Seq<RecordModel>) -> Seq<EventModel>
    decreases r.len(),
{
    if r.len() == 0 {
        Seq::empty()
    } else {
        all_events(f, r.drop_last()) + record_events(f, r.last())
    }
}

/// The services of events.
pub open spec fn services_of(e: Seq<EventModel>) -> Multiset<Seq<char>>
    decreases e.len(),
{
    if e.len() == 0 {
        Multiset::empty()
    } else {
        match e.last().service {
            Some(s) => services_of(e.drop_last()).insert(s),
            None => services_of(e.drop_last()),
        }
    }
}

/// The severities of events.
pub open spec fn severities_of(e: Seq<EventModel>) -> Multiset<Seq<char>>
    decreases e.len(),
{
    if e.len() == 0 {
        Multiset::empty()
    } else {
        severities_of(e.drop_last()).insert(e.last().severity)
    }
}

/// The services and severities of two lists of events are those of each.
pub proof fn law_events_add_up(a: Seq<EventModel>, b: Seq<EventModel>)
    ensures
        services_of(a + b) == services_of(a).add(services_of(b)),
        severities_of(a + b) == severities_of(a).add(severities_of(b)),
    decreases b.len(),
{
    if b.len() == 0 {
        assert(a + b =~= a);
        assert(services_of(a).add(services_of(b)) =~= services_of(a));
        assert(severities_of(a).add(severities_of(b)) =~= severities_of(a));
    } else {
        law_events_add_up(a, b.drop_last());
        assert((a + b).drop_last() =~= a + b.drop_last());
        assert((a + b).last() == b.last());
        assert(services_of(a + b) =~= services_of(a).add(services_of(b)));
        assert(severities_of(a + b) =~= severities_of(a).add(severities_of(b)));
    }
}

/// Every event has one severity and at most one service.
pub proof fn law_events_are_counted(e: Seq<EventModel>)
    ensures
        severities_of(e).len() == e.len(),
        services_of(e).len() <= e.len(),
        at_most(services_of(e), e.len()),
        at_most(severities_of(e), e.len()),
    decreases e.len(),
{
    broadcast use vstd::multiset::group_multiset_properties;

    if e.len() > 0 {
        law_events_are_counted(e.drop_last());
        assert forall|t: Seq<char>| #[trigger] severities_of(e).count(t) <= e.len() by {
            assert(severities_of(e.drop_last()).count(t) <= e.len() - 1);
        }
        assert forall|t: Seq<char>| #[trigger] services_of(e).count(t) <= e.len() by {
            assert(services_of(e.drop_last()).count(t) <= e.len() - 1);
        }
    }
}

/// The log events of a record, counted.
#[derive(Debug)]
pub struct LogEventSummary {
    pub count: u64,
    pub services: Tally,
    pub severities: Tally,
}

impl LogEventSummary {
    /// The summary counts these events.
    pub open spec fn counts(self, e: Seq<EventModel>) -> bool {
        &&& self.services.wf() && self.severities.wf()
        &&& self.count == e.len()
        &&& self.services@ == services_of(e)
        &&& self.severities@ == severities_of(e)
    }

    fn new() -> (r: Self)
        ensures
            r.counts(Seq::empty()),
    {
        LogEventSummary { count: 0, services: Tally::new(), severities: Tally::new() }
    }

    /// Counts one more event. The answer is whether the number of events still
    /// fits in 64 bits.
    fn push(&mut self, service: Option<&String>, severity: &str, Ghost(e): Ghost<Seq<EventModel>>) -> (r:
        bool)
        requires
            old(self).counts(e),
        ensures
            r == (e.len() < u64::MAX),
            r ==> final(self).counts(
                e.push(
                    EventModel {
                        service: match service {
                            Some(s) => Some(s@),
                            None => None,
                        },
                        severity: severity_name(severity@),
                    },
                ),
            ),
    {
        if self.count == u64::MAX {
            return false;
        }
        proof {
            law_events_are_counted(e);
            let x = EventModel {
                service: match service {
                    Some(s) => Some(s@),
                    None => None,
                },
                severity: severity_name(severity@),
            };
            assert(e.push(x).drop_last() =~= e);
        }
        self.count = self.count + 1;
        if let Some(s) = service {
            self.services.increment(s.as_str());
        }
        if severity.is_empty() {
            self.severities.increment("<unset>");
        } else {
            self.severities.increment(severity);
        }
        true
    }
}

/// Whether the service is asked for.
fn service_asked(filter: &FieldFilter, service: Option<&String>) -> (r: bool)
    ensures
        r == service_passes(
            filter@,
            match service {
                Some(s) => Some(s@),
                None => None,
            },
        ),
{
    match &filter.services {
        None => true,
        Some(allowed) => match service {
            Some(s) => allowed.contains(s.as_str()),
            None => false,
        },
    }
}

/// Whether the severity is asked for.
fn severity_asked(filter: &FieldFilter, severity: &str) -> (r: bool)
    ensures
        r == severity_passes(filter@, severity@),
{
    match &filter.severities {
        None => true,
        Some(allowed) => allowed.contains(severity),
    }
}

/// Counts the events of a scope. The answer is whether the number of events
/// still fits in 64 bits.
fn count_scope(
    sl: &ScopeLogSet,
    service: Option<&String>,
    filter: &FieldFilter,
    summary: &mut LogEventSummary,
    Ghost(e): Ghost<Seq<EventModel>>,
    Ghost(name): Ghost<Option<Seq<char>>>,
) -> (r: bool)
    requires
        old(summary).counts(e),
        name == match service {
            Some(s) => Some(s@),
            None => None,
        },
    ensures
        r == (e.len() + item_events(filter@, name, sl@.log_records).len() <= u64::MAX),
        r ==> final(summary).counts(e + item_events(filter@, name, sl@.log_records)),
{
    let ghost l = sl@.log_records;
    assert(l.take(0) =~= Seq::empty());
    assert(e + item_events(filter@, name, l.take(0)) =~= e);
    for i in 0..sl.log_records.len()
        invariant
            l == sl@.log_records,
            name == match service {
                Some(s) => Some(s@),
                None => None,
            },
            summary.counts(e + item_events(filter@, name, l.take(i as int))),
    {
        let severity = sl.log_records[i].severity_text.as_str();
        let ghost before = item_events(filter@, name, l.take(i as int));
        proof {
            assert(l.take(i + 1).drop_last() =~= l.take(i as int));
            assert(l[i as int] == sl.log_records@[i as int]@);
            lemma_item_events_grow(filter@, name, l, i + 1);
        }
        if severity_asked(filter, severity) {
            if !summary.push(service, severity, Ghost(e + before)) {
                return false;
            }
            proof {
                let x = EventModel { service: name, severity: severity_name(severity@) };
                assert((e + before).push(x) =~= e + before.push(x));
            }
        }
    }
    assert(l.take(sl.log_records@.len() as int) =~= l);
    true
}

proof fn lemma_item_events_grow(
    f: FilterModel,
    service: Option<Seq<char>>,
    l: Seq<LogRecordModel>,
    n: int,
)
    requires
        0 <= n <= l.len(),
    ensures
        item_events(f, service, l.take(n)).len() <= item_events(f, service, l).len(),
    decreases l.len(),
{
    if n < l.len() {
        assert(l.drop_last().take(n) =~= l.take(n));
        lemma_item_events_grow(f, service, l.drop_last(), n);
    } else {
        assert(l.take(n) =~= l);
    }
}

proof fn lemma_scope_events_grow(
    f: FilterModel,
    service: Option<Seq<char>>,
    s: Seq<ScopeLogsModel>,
    n: int,
)
    requires
        0 <= n <= s.len(),
    ensures
        scope_events(f, service, s.take(n)).len() <= scope_events(f, service, s).len(),
    decreases s.len(),
{
    if n < s.len() {
        assert(s.drop_last().take(n) =~= s.take(n));
        lemma_scope_events_grow(f, service, s.drop_last(), n);
    } else {
        assert(s.take(n) =~= s);
    }
}

proof fn lemma_batch_events_grow(f: FilterModel, r: Seq<ResourceLogsModel>, n: int)
    requires
        0 <= n <= r.len(),
    ensures
        batch_events(f, r.take(n)).len() <= batch_events(f, r).len(),
    decreases r.len(),
{
    if n < r.len() {
        assert(r.drop_last().take(n) =~= r.take(n));
        lemma_batch_events_grow(f, r.drop_last(), n);
    } else {
        assert(r.take(n) =~= r);
    }
}

proof fn lemma_all_events_grow(f: FilterModel, r: Seq<RecordModel>, n: int)
    requires
        0 <= n <= r.len(),
    ensures
        all_events(f, r.take(n)).len() <= all_events(f, r).len(),
    decreases r.len(),
{
    if n < r.len() {
        assert(r.drop_last().take(n) =~= r.take(n));
        lemma_all_events_grow(f, r.drop_last(), n);
    } else {
        assert(r.take(n) =~= r);
    }
}

/// Counts the events of a resource. The answer is whether the number of events
/// still fits in 64 bits.
fn count_resource(
    rl: &ResourceLogSet,
    filter: &FieldFilter,
    summary: &mut LogEventSummary,
    Ghost(e): Ghost<Seq<EventModel>>,
) -> (r: bool)
    requires
        old(summary).counts(e),
    ensures
        r == (e.len() + resource_events(filter@, rl@).len() <= u64::MAX),
        r ==> final(summary).counts(e + resource_events(filter@, rl@)),
{
    let service = service_name(rl);
    let ghost name = string_service(resource_attrs_of(rl@.resource));
    if !service_asked(filter, service) {
        assert(e + resource_events(filter@, rl@) =~= e);
        return true;
    }
    let ghost s = rl@.scope_logs;
    assert(s.take(0) =~= Seq::empty());
    assert(e + scope_events(filter@, name, s.take(0)) =~= e);
    for i in 0..rl.scope_logs.len()
        invariant
            s == rl@.scope_logs,
            name == match service {
                Some(s) => Some(s@),
                None => None,
            },
            resource_events(filter@, rl@) == scope_events(filter@, name, s),
            summary.counts(e + scope_events(filter@, name, s.take(i as int))),
    {
        let ghost before = scope_events(filter@, name, s.take(i as int));
        let ghost own = item_events(filter@, name, s[i as int].log_records);
        proof {
            assert(s.take(i + 1).drop_last() =~= s.take(i as int));
            assert(s[i as int] == rl.scope_logs@[i as int]@);
            lemma_scope_events_grow(filter@, name, s, i + 1);
        }
        if !count_scope(
            &rl.scope_logs[i],
            service,
            filter,
            summary,
            Ghost(e + before),
            Ghost(name),
        ) {
            return false;
        }
        assert((e + before) + own =~= e + (before + own));
    }
    assert(s.take(rl.scope_logs@.len() as int) =~= s);
    true
}

/// Counts the events of a batch that are asked for; `None` where their number
/// does not fit in 64 bits.
pub fn summarise_batch(batch: &LogsRequest, filter: &FieldFilter) -> (r: Option<LogEventSummary>)
    ensures
        match r {
            Some(s) => s.counts(batch_events(filter@, batch@.resource_logs)),
            None => batch_events(filter@, batch@.resource_logs).len() > u64::MAX,
        },
{
    let mut summary = LogEventSummary::new();
    let ghost all = batch@.resource_logs;
    assert(all.take(0) =~= Seq::empty());
    for i in 0..batch.resource_logs.len()
        invariant
            all == batch@.resource_logs,
            summary.counts(batch_events(filter@, all.take(i as int))),
    {
        let ghost before = batch_events(filter@, all.take(i as int));
        proof {
            assert(all.take(i + 1).drop_last() =~= all.take(i as int));
            assert(all[i as int] == batch.resource_logs@[i as int]@);
            lemma_batch_events_grow(filter@, all, i + 1);
        }
        if !count_resource(&batch.resource_logs[i], filter, &mut summary, Ghost(before)) {
            return None;
        }
    }
    assert(all.take(batch.resource_logs@.len() as int) =~= all);
    Some(summary)
}

/// Counts the events of a record that are asked for; `None` where their number
/// does not fit in 64 bits.
pub fn summarise_matching_log_events(record: &StreamRecord, filter: &FieldFilter) -> (r: Option<
    LogEventSummary,
>)
    ensures
        match r {
            Some(s) => s.counts(record_events(filter@, record@)),
            None => record_events(filter@, record@).len() > u64::MAX,
        },
{
    if record.record_type != RecordType::Logs {
        return Some(LogEventSummary::new());
    }
    match decode_logs(&record.payload) {
        Some(batch) => summarise_batch(&batch, filter),
        None => Some(LogEventSummary::new()),
    }
}

/// The smaller of two timestamps, where both are there.
pub open spec fn earlier(a: Option<u64>, b: Option<u64>) -> Option<u64> {
    match (a, b) {
        (Some(x), Some(y)) => Some(
            if y < x {
                y
            } else {
                x
            },
        ),
        (Some(x), None) => Some(x),
        (None, y) => y,
    }
}

/// The larger of two timestamps, where both are there.
pub open spec fn later(a: Option<u64>, b: Option<u64>) -> Option<u64> {
    match (a, b) {
        (Some(x), Some(y)) => Some(
            if y > x {
                y
            } else {
                x
            },
        ),
        (Some(x), None) => Some(x),
        (None, y) => y,
    }
}

/// The span with a timestamp.
pub open spec fn span_with(s: TimeSpan, ts: u64) -> TimeSpan {
    TimeSpan { first: earlier(s.first, Some(ts)), last: later(s.last, Some(ts)) }
}

/// The span of the timestamps of records.
pub open spec fn span_of(r: Seq<RecordModel>) -> TimeSpan
    decreases r.len(),
{
    if r.len() == 0 {
        TimeSpan { first: None, last: None }
    } else {
        span_with(span_of(r.drop_last()), r.last().ts_unix_ns)
    }
}

/// Widens a span to hold a timestamp.
pub fn update_span(span: &mut TimeSpan, ts_unix_ns: u64)
    ensures
        *final(span) == span_with(*old(span), ts_unix_ns),
{
    merge_span(span, &TimeSpan { first: Some(ts_unix_ns), last: Some(ts_unix_ns) });
}

/// Widens a span to hold another.
pub fn merge_span(span: &mut TimeSpan, other: &TimeSpan)
    ensures
        final(span).first == earlier(old(span).first, other.first),
        final(span).last == later(old(span).last, other.last),
{
    if let Some(value) = other.first {
        span.first = match span.first {
            Some(current) => Some(
                if value < current {
                    value
                } else {
                    current
                },
            ),
            None => Some(value),
        };
    }
    if let Some(value) = other.last {
        span.last = match span.last {
            Some(current) => Some(
                if value > current {
                    value
                } else {
                    current
                },
            ),
            None => Some(value),
        };
    }
}

/// The span of records holds the timestamp of each.
pub proof fn law_span_holds_every_record(r: Seq<RecordModel>, i: int)
    requires
        0 <= i < r.len(),
    ensures
        span_of(r).first is Some && span_of(r).first->0 <= r[i].ts_unix_ns,
        span_of(r).last is Some && r[i].ts_unix_ns <= span_of(r).last->0,
    decreases r.len(),
{
    if i < r.len() - 1 {
        law_span_holds_every_record(r.drop_last(), i);
    }
}

/// Whether the records of a file have to be read: not where its index rules
/// out that any of them matches.
pub open spec fn has_to_be_read(entry: DatasetEntry, p: PredicateModel) -> bool {
    entry.index matches Some(index) ==> index_may_match(index.summary@, p)
}

/// Whether the records of a file have to be read.
pub fn needs_scan(entry: &DatasetEntry, predicate: &RecordPredicate) -> (r: bool)
    ensures
        r == has_to_be_read(*entry, predicate@),
{
    match &entry.index {
        Some(index) => index.summary.may_match(predicate),
        None => true,
    }
}

/// What is found in a file with these records.
pub open spec fn file_scan(entry: DatasetEntry, records: Seq<RecordModel>, p: PredicateModel) -> ScanModel {
    let read = has_to_be_read(entry, p);
    let matched = if read {
        selected(records, p)
    } else {
        Seq::empty()
    };
    let events = all_events(p.fields, matched);
    ScanModel {
        row: FileSummaryModel {
            path: entry.path@,
            size: entry.size,
            modified: entry.modified_ns,
            source_sequence: TimeSpan { first: entry.first_seq, last: entry.last_seq },
            source_time: TimeSpan { first: entry.first_ts_unix_ns, last: entry.last_ts_unix_ns },
            scanned: if read {
                records.len()
            } else {
                0
            },
            matched: matched.len(),
            events: events.len(),
            time: span_of(matched),
            skipped: !read,
        },
        services: services_of(events),
        severities: severities_of(events),
    }
}

/// What is said where a number of events does not fit in 64 bits.
pub open spec fn event_overflow() -> ErrorModel {
    ErrorModel::Logjet("numeric overflow: discover log_events"@)
}

fn event_overflow_error() -> (r: Error)
    ensures
        r@ == event_overflow(),
{
    Error::Logjet("numeric overflow: discover log_events".to_owned())
}

/// What is found in a file with these records. They are not looked at where the
/// index of the file rules out that any of them matches.
pub fn scan_entry(entry: &DatasetEntry, records: &Vec<StreamRecord>, predicate: &RecordPredicate) -> (r:
    Result<FileScan, Error>)
    ensures
        match r {
            Ok(scan) => scan.wf() && scan.model() == file_scan(
                *entry,
                stream_view(records@),
                predicate@,
            ),
            Err(e) => e@ == event_overflow() && file_scan(
                *entry,
                stream_view(records@),
                predicate@,
            ).row.events > u64::MAX,
        },
{
    let mut row = FileSummary {
        path: entry.path.clone(),
        size: entry.size,
        modified_unix_ns: entry.modified_ns,
        source_sequence_span: TimeSpan { first: entry.first_seq, last: entry.last_seq },
        source_time_span_unix_ns: TimeSpan {
            first: entry.first_ts_unix_ns,
            last: entry.last_ts_unix_ns,
        },
        records_scanned: 0,
        records_matched: 0,
        log_events: 0,
        time_span_unix_ns: TimeSpan { first: None, last: None },
        skipped_by_index: false,
    };
    let mut services = Tally::new();
    let mut severities = Tally::new();
    if !needs_scan(entry, predicate) {
        row.skipped_by_index = true;
        return Ok(FileScan { row, services, severities });
    }
    let ghost all = stream_view(records@);
    let ghost p = predicate@;
    let ghost start = row@;
    proof {
        reveal(Seq::filter);
        assert(all.take(0) =~= Seq::empty());
        assert(selected(all.take(0), p) =~= Seq::empty());
    }
    for i in 0..records.len()
        invariant
            all == stream_view(records@),
            p == predicate@,
            has_to_be_read(*entry, p),
            services.wf() && severities.wf(),
            row@ == (FileSummaryModel {
                scanned: i as nat,
                matched: selected(all.take(i as int), p).len(),
                events: all_events(p.fields, selected(all.take(i as int), p)).len(),
                time: span_of(selected(all.take(i as int), p)),
                ..start
            }),
            row.records_matched <= i,
            services@ == services_of(all_events(p.fields, selected(all.take(i as int), p))),
            severities@ == severities_of(all_events(p.fields, selected(all.take(i as int), p))),
    {
        let ghost before = selected(all.take(i as int), p);
        let ghost events = all_events(p.fields, before);
        proof {
            reveal(Seq::filter);
            assert(all.take(i + 1).drop_last() =~= all.take(i as int));
            assert(all[i as int] == records@[i as int]@);
        }
        row.records_scanned = row.records_scanned + 1;
        if predicate.matches(&records[i]) {
            let ghost record = records@[i as int]@;
            let ghost own = record_events(p.fields, record);
            proof {
                assert(selected(all.take(i + 1), p) == before.push(record));
                assert(before.push(record).drop_last() =~= before);
                assert(all_events(p.fields, before.push(record)) == events + own);
                lemma_selected_grows(all, p, i + 1);
                lemma_events_of_selected_grow(p.fields, all, p, i + 1);
                law_events_add_up(events, own);
                law_events_are_counted(events);
                law_events_are_counted(own);
                law_events_are_counted(events + own);
            }
            row.records_matched = row.records_matched + 1;
            update_span(&mut row.time_span_unix_ns, records[i].ts_unix_ns);
            let summary = match summarise_matching_log_events(
                &records[i],
                predicate.fields(),
            ) {
                Some(s) => s,
                None => {
                    return Err(event_overflow_error());
                },
            };
            row.log_events = match row.log_events.checked_add(summary.count) {
                Some(n) => n,
                None => {
                    return Err(event_overflow_error());
                },
            };
            proof {
                assert forall|t: Seq<char>|
                    #[trigger] services@.count(t) + summary.services@.count(t) <= u64::MAX by {
                    assert(services_of(events + own).count(t) <= (events + own).len());
                }
                assert forall|t: Seq<char>|
                    #[trigger] severities@.count(t) + summary.severities@.count(t) <= u64::MAX by {
                    assert(severities_of(events + own).count(t) <= (events + own).len());
                }
            }
            services.merge(&summary.services);
            severities.merge(&summary.severities);
        }
    }
    assert(all.take(records@.len() as int) =~= all);
    proof {
        law_events_are_counted(all_events(p.fields, selected(all, p)));
    }
    Ok(FileScan { row, services, severities })
}

proof fn lemma_selected_grows(all: Seq<RecordModel>, p: PredicateModel, n: int)
    requires
        0 <= n <= all.len(),
    ensures
        exists|m: int|
            0 <= m <= selected(all, p).len() && selected(all.take(n), p) == #[trigger] selected(
                all,
                p,
            ).take(m),
    decreases all.len(),
{
    reveal(Seq::filter);
    if n < all.len() {
        assert(all.drop_last().take(n) =~= all.take(n));
        lemma_selected_grows(all.drop_last(), p, n);
        let before = selected(all.drop_last(), p);
        let m = choose|m: int|
            0 <= m <= before.len() && selected(all.take(n), p) == #[trigger] before.take(m);
        assert(selected(all, p).take(m) =~= before.take(m));
    } else {
        assert(all.take(n) =~= all);
        let whole = selected(all, p);
        assert(whole.take(whole.len() as int) =~= whole);
    }
}

proof fn lemma_events_of_selected_grow(
    f: FilterModel,
    all: Seq<RecordModel>,
    p: PredicateModel,
    n: int,
)
    requires
        0 <= n <= all.len(),
    ensures
        all_events(f, selected(all.take(n), p)).len() <= all_events(f, selected(all, p)).len(),
{
    lemma_selected_grows(all, p, n);
    let whole = selected(all, p);
    let m = choose|m: int|
        0 <= m <= whole.len() && selected(all.take(n), p) == #[trigger] whole.take(m);
    lemma_all_events_grow(f, whole, m);
}

/// What is found in all files together.
#[derive(Debug)]
pub struct DiscoverySummary {
    pub records_scanned: u64,
    pub records_matched: u64,
    pub log_events: u64,
    pub time_span_unix_ns: TimeSpan,
    pub services: Tally,
    pub severities: Tally,
}

/// What a [`DiscoverySummary`] holds.
pub struct DiscoveryModel {
    pub scanned: nat,
    pub matched: nat,
    pub events: nat,
    pub time: TimeSpan,
    pub services: Multiset<Seq<char>>,
    pub severities: Multiset<Seq<char>>,
}

impl View for DiscoverySummary {
    type V = DiscoveryModel;

    open spec fn view(&self) -> DiscoveryModel {
        DiscoveryModel {
            scanned: self.records_scanned as nat,
            matched: self.records_matched as nat,
            events: self.log_events as nat,
            time: self.time_span_unix_ns,
            services: self.services@,
            severities: self.severities@,
        }
    }
}

/// The summary of no files.
pub open spec fn nothing_found() -> DiscoveryModel {
    DiscoveryModel {
        scanned: 0,
        matched: 0,
        events: 0,
        time: TimeSpan { first: None, last: None },
        services: Multiset::empty(),
        severities: Multiset::empty(),
    }
}

/// The summary with one more file.
pub open spec fn summary_with(d: DiscoveryModel, s: ScanModel) -> DiscoveryModel {
    DiscoveryModel {
        scanned: d.scanned + s.row.scanned,
        matched: d.matched + s.row.matched,
        events: d.events + s.row.events,
        time: TimeSpan {
            first: earlier(d.time.first, s.row.time.first),
            last: later(d.time.last, s.row.time.last),
        },
        services: d.services.add(s.services),
        severities: d.severities.add(s.severities),
    }
}

/// The summary of files.
pub open spec fn summary_of_files(s: Seq<ScanModel>) -> DiscoveryModel
    decreases s.len(),
{
    if s.len() == 0 {
        nothing_found()
    } else {
        summary_with(summary_of_files(s.drop_last()), s.last())
    }
}

impl DiscoverySummary {
    /// No service and no severity is counted more often than there are events.
    pub open spec fn wf(self) -> bool {
        &&& self.services.wf() && self.severities.wf()
        &&& at_most(self.services@, self.log_events as nat)
        &&& at_most(self.severities@, self.log_events as nat)
    }

    /// Nothing is found yet.
    pub fn new() -> (r: Self)
        ensures
            r.wf(),
            r@ == nothing_found(),
    {
        DiscoverySummary {
            records_scanned: 0,
            records_matched: 0,
            log_events: 0,
            time_span_unix_ns: TimeSpan { first: None, last: None },
            services: Tally::new(),
            severities: Tally::new(),
        }
    }

    /// Adds what is found in a file.
    pub fn merge(&mut self, file: &FileScan)
        requires
            old(self).wf(),
            file.wf(),
            old(self).records_scanned + file.row.records_scanned <= u64::MAX,
            old(self).records_matched + file.row.records_matched <= u64::MAX,
            old(self).log_events + file.row.log_events <= u64::MAX,
        ensures
            final(self).wf(),
            final(self)@ == summary_with(old(self)@, file.model()),
    {
        let ghost before = self@;
        self.records_scanned = self.records_scanned + file.row.records_scanned;
        self.records_matched = self.records_matched + file.row.records_matched;
        self.log_events = self.log_events + file.row.log_events;
        merge_span(&mut self.time_span_unix_ns, &file.row.time_span_unix_ns);
        proof {
            assert forall|t: Seq<char>|
                #[trigger] self.services@.count(t) + file.services@.count(t) <= u64::MAX by {
                assert(before.services.count(t) <= before.events);
            }
            assert forall|t: Seq<char>|
                #[trigger] self.severities@.count(t) + file.severities@.count(t) <= u64::MAX by {
                assert(before.severities.count(t) <= before.events);
            }
        }
        self.services.merge(&file.services);
        self.severities.merge(&file.severities);
        proof {
            assert forall|t: Seq<char>| #[trigger] self.services@.count(t)
                <= self.log_events as nat by {
                assert(before.services.count(t) <= before.events);
                assert(file.services@.count(t) <= file.row.log_events);
            }
            assert forall|t: Seq<char>| #[trigger] self.severities@.count(t)
                <= self.log_events as nat by {
                assert(before.severities.count(t) <= before.events);
                assert(file.severities@.count(t) <= file.row.log_events);
            }
        }
    }
}

/// The models of scans.
pub open spec fn scans_view(s: Seq<FileScan>) -> Seq<ScanModel> {
    s.map_values(|x: FileScan| x.model())
}

/// The numbers of a summary fit in 64 bits.
pub open spec fn summary_fits(d: DiscoveryModel) -> bool {
    d.scanned <= u64::MAX && d.matched <= u64::MAX && d.events <= u64::MAX
}

proof fn lemma_summary_grows(s: Seq<ScanModel>, n: int)
    requires
        0 <= n <= s.len(),
    ensures
        summary_of_files(s.take(n)).scanned <= summary_of_files(s).scanned,
        summary_of_files(s.take(n)).matched <= summary_of_files(s).matched,
        summary_of_files(s.take(n)).events <= summary_of_files(s).events,
    decreases s.len(),
{
    if n < s.len() {
        assert(s.drop_last().take(n) =~= s.take(n));
        lemma_summary_grows(s.drop_last(), n);
    } else {
        assert(s.take(n) =~= s);
    }
}

/// What is found in all files together; `None` where a number does not fit in
/// 64 bits.
pub fn summarise_files(scans: &Vec<FileScan>) -> (r: Option<DiscoverySummary>)
    requires
        forall|i: int| 0 <= i < scans@.len() ==> (#[trigger] scans@[i]).wf(),
    ensures
        match r {
            Some(d) => d.wf() && d@ == summary_of_files(scans_view(scans@)),
            None => !summary_fits(summary_of_files(scans_view(scans@))),
        },
{
    let mut summary = DiscoverySummary::new();
    let ghost all = scans_view(scans@);
    assert(all.take(0) =~= Seq::empty());
    for i in 0..scans.len()
        invariant
            all == scans_view(scans@),
            forall|i: int| 0 <= i < scans@.len() ==> (#[trigger] scans@[i]).wf(),
            summary.wf(),
            summary@ == summary_of_files(all.take(i as int)),
    {
        let file = &scans[i];
        proof {
            assert(all.take(i + 1).drop_last() =~= all.take(i as int));
            assert(all[i as int] == file.model());
            lemma_summary_grows(all, i + 1);
        }
        if summary.records_scanned > u64::MAX - file.row.records_scanned || summary.records_matched
            > u64::MAX - file.row.records_matched || summary.log_events > u64::MAX
            - file.row.log_events {
            return None;
        }
        summary.merge(file);
    }
    assert(all.take(scans@.len() as int) =~= all);
    Some(summary)
}

/// Reads a list of services or severities to ask for.
pub fn string_filter(values: &Vec<String>) -> (r: Result<Option<StrSet>, Error>)
    ensures
        match r {
            Ok(None) => values@.len() == 0,
            Ok(Some(s)) => values@.len() > 0 && !some_empty(texts(values@)) && s.wf() && s@
                == distinct(texts(values@)),
            Err(e) => some_empty(texts(values@)) && e@ == empty_filter_error(),
        },
{
    proof {
        reveal_strlit("empty ");
        reveal_strlit("service/severity");
        reveal_strlit(" filter values are not allowed");
        reveal_strlit("empty service/severity filter values are not allowed");
        assert("empty "@ + "service/severity"@ + " filter values are not allowed"@
            =~= "empty service/severity filter values are not allowed"@);
    }
    parse_string_filter(values, "service/severity")
}

/// What is said of an empty service or severity.
pub open spec fn empty_filter_error() -> ErrorModel {
    ErrorModel::Usage("empty service/severity filter values are not allowed"@)
}

/// The filter for a list of texts; no texts are no filter.
pub open spec fn filter_of(values: Seq<String>) -> Option<Seq<Seq<char>>> {
    if values.len() == 0 {
        None
    } else {
        Some(distinct(texts(values)))
    }
}

/// The predicate that is asked for.
pub open spec fn discover_predicate_of(args: DiscoverArgs) -> Result<PredicateModel, ErrorModel> {
    if args.limit == Some(0usize) {
        Err(ErrorModel::Usage("--limit must be greater than zero"@))
    } else if build_error(args.predicate) is Some {
        Err(build_error(args.predicate)->0)
    } else if some_empty(texts(args.services@)) || some_empty(texts(args.severities@)) {
        Err(empty_filter_error())
    } else {
        Ok(
            PredicateModel {
                fields: FilterModel {
                    services: filter_of(args.services@),
                    severities: filter_of(args.severities@),
                },
                ..asked_predicate(args.predicate)
            },
        )
    }
}

/// The predicate that is asked for.
pub fn discover_predicate(args: &DiscoverArgs) -> (r: Result<RecordPredicate, Error>)
    ensures
        match r {
            Ok(p) => discover_predicate_of(*args) == Ok::<PredicateModel, ErrorModel>(p@),
            Err(e) => discover_predicate_of(*args) == Err::<PredicateModel, ErrorModel>(e@),
        },
{
    if let Some(limit) = args.limit {
        if limit == 0 {
            return Err(Error::Usage("--limit must be greater than zero".to_owned()));
        }
    }
    let predicate = match args.predicate.build() {
        Ok(p) => p,
        Err(e) => return Err(e),
    };
    let services = match string_filter(&args.services) {
        Ok(s) => s,
        Err(e) => return Err(e),
    };
    let severities = match string_filter(&args.severities) {
        Ok(s) => s,
        Err(e) => return Err(e),
    };
    Ok(predicate.with_fields(FieldFilter { severities, services }))
}

/// The files from `offset` on, at most `limit` of them.
pub open spec fn page_of(entries: Seq<DatasetEntry>, offset: usize, limit: Option<usize>) -> Result<
    Seq<DatasetEntry>,
    ErrorModel,
> {
    if offset > entries.len() {
        Err(
            ErrorModel::Usage(
                "--offset "@ + decimal(offset as nat) + " is past the end of the "@ + decimal(
                    entries.len(),
                ) + " file manifest"@,
            ),
        )
    } else {
        let rest = entries.skip(offset as int);
        Ok(
            match limit {
                Some(n) => if n < rest.len() {
                    rest.take(n as int)
                } else {
                    rest
                },
                None => rest,
            },
        )
    }
}

/// The files from `offset` on, at most `limit` of them: where they begin and
/// how many they are.
pub fn paged_entries(dataset: &Dataset, offset: usize, limit: Option<usize>) -> (r: Result<
    (usize, usize),
    Error,
>)
    ensures
        match r {
            Ok((at, n)) => at + n <= dataset.spec_entries().len() && page_of(
                dataset.spec_entries(),
                offset,
                limit,
            ) == Ok::<Seq<DatasetEntry>, ErrorModel>(
                dataset.spec_entries().subrange(at as int, at + n),
            ),
            Err(e) => page_of(dataset.spec_entries(), offset, limit) == Err::<
                Seq<DatasetEntry>,
                ErrorModel,
            >(e@),
        },
{
    let total = dataset.len();
    if offset > total {
        let mut m = "--offset ".to_owned();
        m.append(usize_text(offset).as_str());
        m.append(" is past the end of the ");
        m.append(usize_text(total).as_str());
        m.append(" file manifest");
        return Err(Error::Usage(m));
    }
    let left = total - offset;
    let n: usize = match limit {
        Some(k) => if k < left {
            k
        } else {
            left
        },
        None => left,
    };
    let ghost all = dataset.spec_entries();
    assert(limit is Some && limit->0 < left ==> all.skip(offset as int).take(n as int)
        =~= all.subrange(offset as int, offset + n));
    assert(!(limit is Some && limit->0 < left) ==> all.skip(offset as int) =~= all.subrange(
        offset as int,
        offset + n,
    ));
    Ok((offset, n))
}

/// Where the next page begins, if there is one.
pub fn next_offset(offset: usize, scanned: usize, total: usize) -> (r: Option<usize>)
    ensures
        r == next_page(offset as nat, scanned as nat, total as nat),
{
    if scanned < total && offset < total - scanned {
        Some(offset + scanned)
    } else {
        None
    }
}

/// Where the next page begins, if there is one.
pub open spec fn next_page(offset: nat, scanned: nat, total: nat) -> Option<usize> {
    if offset + scanned < total {
        Some((offset + scanned) as usize)
    } else {
        None
    }
}

/// Which files were read.
#[derive(Debug)]
pub struct InputSummary {
    pub files_total: usize,
    pub offset: usize,
    pub limit: Option<usize>,
    pub files_scanned: usize,
    pub next_offset: Option<usize>,
}

/// The answer to a request.
#[derive(Debug)]
pub struct DiscoverResponse {
    pub format_version: u32,
    pub input: InputSummary,
    pub records_scanned: u64,
    pub records_matched: u64,
    pub log_events: u64,
    pub time_span_unix_ns: TimeSpan,
    pub top_services: Vec<CountRow>,
    pub severity_breakdown: Vec<CountRow>,
    pub files: Vec<FileSummary>,
}

/// The `limit` rows with the highest counts for texts that are counted.
pub open spec fn is_top(
    rows: Seq<(Seq<char>, nat)>,
    counted: Multiset<Seq<char>>,
    limit: usize,
) -> bool {
    exists|all: Seq<(Seq<char>, nat)>| #[trigger]
        rows_ok(all) && rows_bag(all) == counted && rows == ranked(all).take(
            if limit < all.len() {
                limit as int
            } else {
                all.len() as int
            },
        )
}

/// The response tells what is found in these files.
pub open spec fn tells(
    r: DiscoverResponse,
    args: DiscoverArgs,
    files_total: nat,
    scans: Seq<ScanModel>,
) -> bool {
    let d = summary_of_files(scans);
    &&& r.format_version == FORMAT_VERSION
    &&& r.input.files_total == files_total
    &&& r.input.offset == args.offset
    &&& r.input.limit == args.limit
    &&& r.input.files_scanned == scans.len()
    &&& r.input.next_offset == next_page(args.offset as nat, scans.len(), files_total)
    &&& r.records_scanned == d.scanned
    &&& r.records_matched == d.matched
    &&& r.log_events == d.events
    &&& r.time_span_unix_ns == d.time
    &&& is_top(rows_view(r.top_services@), d.services, args.top_services)
    &&& rows_ok(rows_view(r.severity_breakdown@))
    &&& rows_bag(rows_view(r.severity_breakdown@)) == d.severities
    &&& r.files@.map_values(|f: FileSummary| f@) == scans.map_values(|s: ScanModel| s.row)
}

/// The answer that tells what is found in these files; `None` where a number
/// does not fit in 64 bits.
pub fn respond(args: &DiscoverArgs, files_total: usize, scans: Vec<FileScan>) -> (r: Option<
    DiscoverResponse,
>)
    requires
        forall|i: int| 0 <= i < scans@.len() ==> (#[trigger] scans@[i]).wf(),
    ensures
        match r {
            Some(response) => tells(response, *args, files_total as nat, scans_view(scans@)),
            None => !summary_fits(summary_of_files(scans_view(scans@))),
        },
{
    let ghost source = scans@;
    let ghost all = scans_view(source);
    let summary = match summarise_files(&scans) {
        Some(s) => s,
        None => return None,
    };
    let files_scanned = scans.len();
    let mut files: Vec<FileSummary> = Vec::new();
    for scan in it: scans
        invariant
            it.seq() == source,
            files@.len() == it.index(),
            forall|i: int| 0 <= i < files@.len() ==> (#[trigger] files@[i])@ == source[i].row@,
    {
        files.push(scan.row);
    }
    let top_services = summary.services.top_counts(args.top_services);
    let severity_breakdown = summary.severities.all_counts();
    proof {
        summary.services.law_rows();
        summary.severities.law_rows();
        assert(rows_ok(summary.services.rows()));
        assert(files@.map_values(|f: FileSummary| f@) =~= all.map_values(|s: ScanModel| s.row));
    }
    Some(
        DiscoverResponse {
            format_version: FORMAT_VERSION,
            input: InputSummary {
                files_total,
                offset: args.offset,
                limit: args.limit,
                files_scanned,
                next_offset: next_offset(args.offset, files_scanned, files_total),
            },
            records_scanned: summary.records_scanned,
            records_matched: summary.records_matched,
            log_events: summary.log_events,
            time_span_unix_ns: summary.time_span_unix_ns,
            top_services,
            severity_breakdown,
            files,
        },
    )
}

/// An error for a caller that reads JSON.
pub open spec fn machine_error_of(e: ErrorModel) -> ErrorModel {
    match e {
        ErrorModel::JsonUsage { code, message } => e,
        _ => ErrorModel::JsonUsage { code: "discover_failed"@, message: error_text(e) },
    }
}

/// An error for a caller that reads JSON.
pub fn machine_error(err: Error) -> (r: Error)
    ensures
        r@ == machine_error_of(err@),
{
    let message = err.message();
    match err {
        Error::JsonUsage { code, message } => Error::JsonUsage { code, message },
        _ => Error::JsonUsage { code: "discover_failed".to_owned(), message },
    }
}

/// What is found in files, given their records.
pub open spec fn scans_of(
    entries: Seq<DatasetEntry>,
    records: Seq<Seq<RecordModel>>,
    p: PredicateModel,
) -> Seq<ScanModel> {
    Seq::new(entries.len(), |i: int| file_scan(entries[i], records[i], p))
}

/// The records of files.
pub open spec fn files_view(f: Seq<Vec<StreamRecord>>) -> Seq<Seq<RecordModel>> {
    f.map_values(|r: Vec<StreamRecord>| stream_view(r@))
}

/// The number of events of a file does not fit in 64 bits.
pub open spec fn some_overflow(scans: Seq<ScanModel>) -> bool {
    exists|i: int| 0 <= i < scans.len() && (#[trigger] scans[i]).row.events > u64::MAX
}

/// Answers a request, given the records of the files on the page that is asked
/// for. The records of a file whose index rules out a match are not looked at.
pub fn run(args: &DiscoverArgs, dataset: &Dataset, files: &Vec<Vec<StreamRecord>>) -> (r: Result<
    DiscoverResponse,
    Error,
>)
    requires
        page_of(dataset.spec_entries(), args.offset, args.limit) matches Ok(page)
            ==> page.len() == files@.len(),
    ensures
        match (
            discover_predicate_of(*args),
            page_of(dataset.spec_entries(), args.offset, args.limit),
        ) {
            (Err(e), _) => r is Err && r->Err_0@ == machine_error_of(e),
            (Ok(_), Err(e)) => r is Err && r->Err_0@ == machine_error_of(e),
            (Ok(p), Ok(page)) => {
                let scans = scans_of(page, files_view(files@), p);
                match r {
                    Ok(response) => tells(response, *args, dataset.spec_entries().len(), scans),
                    Err(e) => e@ == machine_error_of(event_overflow()) && (some_overflow(scans)
                        || !summary_fits(summary_of_files(scans))),
                }
            },
        },
{
    let predicate = match discover_predicate(args) {
        Ok(p) => p,
        Err(e) => return Err(machine_error(e)),
    };
    let (at, n) = match paged_entries(dataset, args.offset, args.limit) {
        Ok(x) => x,
        Err(e) => return Err(machine_error(e)),
    };
    let ghost page = dataset.spec_entries().subrange(at as int, at + n);
    let ghost all = scans_of(page, files_view(files@), predicate@);
    let entries = dataset.entries();
    let total = entries.len();
    let mut scans: Vec<FileScan> = Vec::new();
    for i in 0..n
        invariant
            n == files@.len(),
            total == entries@.len(),
            at + n <= total,
            entries@ == dataset.spec_entries(),
            page == dataset.spec_entries().subrange(at as int, at + n),
            all == scans_of(page, files_view(files@), predicate@),
            page_of(dataset.spec_entries(), args.offset, args.limit) == Ok::<
                Seq<DatasetEntry>,
                ErrorModel,
            >(page),
            discover_predicate_of(*args) == Ok::<PredicateModel, ErrorModel>(predicate@),
            scans@.len() == i,
            forall|j: int| 0 <= j < i ==> (#[trigger] scans@[j]).wf() && scans@[j].model() == all[j],
    {
        assert(page[i as int] == entries@[at + i]);
        assert(files_view(files@)[i as int] == stream_view(files@[i as int]@));
        assert(all[i as int] == file_scan(
            entries@[at + i],
            stream_view(files@[i as int]@),
            predicate@,
        ));
        match scan_entry(&entries[at + i], &files[i], &predicate) {
            Ok(scan) => {
                scans.push(scan);
            },
            Err(e) => {
                return Err(machine_error(e));
            },
        }
    }
    assert(scans_view(scans@) =~= all);
    match respond(args, total, scans) {
        Some(response) => Ok(response),
        None => Err(machine_error(event_overflow_error())),
    }
}

} // verus!
