//! What discovery counts.
use vstd::multiset::Multiset;
use vstd::prelude::*;

use crate::bridge::protobuf::logs_of;
use crate::commands::discover::{
    all_events, batch_events, file_scan, has_to_be_read, is_top, item_events, next_page, page_of,
    record_events, resource_events, scope_events, services_of, severities_of, span_of,
    string_service, summary_of_files, EventModel, ScanModel,
};
use crate::commands::view::flatten::{all_log_items, all_log_scopes};
use crate::dataset::DatasetEntry;
use crate::dedup::unpack::resource_attrs_of;
use crate::otlp::{AnyModel, KvModel, LogRecordModel, ResourceLogsModel, ScopeLogsModel};
use crate::predicate::{selected, FilterModel, PredicateModel};
use crate::record::{RecordModel, RecordType};
use crate::text::order::{lemma_text_order_is_total, text_lt};
use crate::text::seqs::count_where;
use crate::text::tally::{
    in_rank_order, law_ranking, law_rows_count, ranked, ranks_before, rows_bag, rows_differ,
    rows_ok,
};

verus! {

/// No service and no severity is asked for.
pub open spec fn asks_for_all(f: FilterModel) -> bool {
    f.services is None && f.severities is None
}

/// The log records that a record of a stream carries.
pub open spec fn log_records_of(r: RecordModel) -> Seq<LogRecordModel> {
    if r.record_type == RecordType::Logs && logs_of(r.payload) is Some {
        all_log_items(all_log_scopes(logs_of(r.payload)->0.resource_logs))
    } else {
        Seq::empty()
    }
}

/// The log records that a stream carries, in order.
pub open spec fn all_log_records(r: Seq<RecordModel>) -> Seq<LogRecordModel>
    decreases r.len(),
{
    if r.len() == 0 {
        Seq::empty()
    } else {
        all_log_records(r.drop_last()) + log_records_of(r.last())
    }
}

/// The events are those of the log records, one each, in order: a severity that
/// is not set is called `<unset>`.
pub open spec fn one_event_each(e: Seq<EventModel>, l: Seq<LogRecordModel>) -> bool {
    &&& e.len() == l.len()
    &&& forall|i: int|
        0 <= i < l.len() ==> if l[i].severity_text.len() == 0 {
            (#[trigger] e[i]).severity == "<unset>"@
        } else {
            e[i].severity == l[i].severity_text
        }
}

proof fn lemma_concat_each(
    e: Seq<EventModel>,
    l: Seq<LogRecordModel>,
    f: Seq<EventModel>,
    m: Seq<LogRecordModel>,
)
    requires
        one_event_each(e, l),
        one_event_each(f, m),
    ensures
        one_event_each(e + f, l + m),
{
    assert forall|i: int| 0 <= i < (l + m).len() implies if (l + m)[i].severity_text.len() == 0 {
        (#[trigger] (e + f)[i]).severity == "<unset>"@
    } else {
        (e + f)[i].severity == (l + m)[i].severity_text
    } by {
        if i < l.len() {
            assert((e + f)[i] == e[i]);
        } else {
            assert((e + f)[i] == f[i - l.len()]);
        }
    }
}

proof fn lemma_item_events(f: FilterModel, service: Option<Seq<char>>, l: Seq<LogRecordModel>)
    requires
        f.severities is None,
    ensures
        one_event_each(item_events(f, service, l), l),
        forall|i: int|
            0 <= i < l.len() ==> (#[trigger] item_events(f, service, l)[i]).service == service,
    decreases l.len(),
{
    if l.len() > 0 {
        let init = l.drop_last();
        let e = item_events(f, service, l);
        lemma_item_events(f, service, init);
        assert forall|i: int| 0 <= i < l.len() implies if l[i].severity_text.len() == 0 {
            (#[trigger] e[i]).severity == "<unset>"@
        } else {
            e[i].severity == l[i].severity_text
        } by {
            if i < init.len() {
                assert(e[i] == item_events(f, service, init)[i]);
                assert(init[i] == l[i]);
            }
        }
    }
}

proof fn lemma_scopes_concat(a: Seq<ScopeLogsModel>, b: Seq<ScopeLogsModel>)
    ensures
        all_log_items(a + b) == all_log_items(a) + all_log_items(b),
    decreases b.len(),
{
    if b.len() == 0 {
        assert(a + b =~= a);
        assert(all_log_items(a) + all_log_items(b) =~= all_log_items(a));
    } else {
        lemma_scopes_concat(a, b.drop_last());
        assert((a + b).drop_last() =~= a + b.drop_last());
        assert(all_log_items(a + b) =~= all_log_items(a) + all_log_items(b));
    }
}

proof fn lemma_scope_events(f: FilterModel, service: Option<Seq<char>>, s: Seq<ScopeLogsModel>)
    requires
        f.severities is None,
    ensures
        one_event_each(scope_events(f, service, s), all_log_items(s)),
    decreases s.len(),
{
    if s.len() > 0 {
        lemma_scope_events(f, service, s.drop_last());
        lemma_item_events(f, service, s.last().log_records);
        lemma_concat_each(
            scope_events(f, service, s.drop_last()),
            all_log_items(s.drop_last()),
            item_events(f, service, s.last().log_records),
            s.last().log_records,
        );
    }
}

proof fn lemma_batch_events(f: FilterModel, r: Seq<ResourceLogsModel>)
    requires
        asks_for_all(f),
    ensures
        one_event_each(batch_events(f, r), all_log_items(all_log_scopes(r))),
    decreases r.len(),
{
    if r.len() > 0 {
        let service = string_service(resource_attrs_of(r.last().resource));
        lemma_batch_events(f, r.drop_last());
        lemma_scope_events(f, service, r.last().scope_logs);
        lemma_scopes_concat(all_log_scopes(r.drop_last()), r.last().scope_logs);
        lemma_concat_each(
            batch_events(f, r.drop_last()),
            all_log_items(all_log_scopes(r.drop_last())),
            resource_events(f, r.last()),
            all_log_items(r.last().scope_logs),
        );
    }
}

/// Without a filter every log record of a stream is an event, with the severity
/// that it has; one without a severity text counts as `<unset>`.
pub proof fn law_every_log_record_is_an_event(f: FilterModel, r: Seq<RecordModel>)
    requires
        asks_for_all(f),
    ensures
        all_events(f, r).len() == all_log_records(r).len(),
        one_event_each(all_events(f, r), all_log_records(r)),
    decreases r.len(),
{
    if r.len() > 0 {
        law_every_log_record_is_an_event(f, r.drop_last());
        let x = r.last();
        if x.record_type == RecordType::Logs && logs_of(x.payload) is Some {
            lemma_batch_events(f, logs_of(x.payload)->0.resource_logs);
        }
        lemma_concat_each(
            all_events(f, r.drop_last()),
            all_log_records(r.drop_last()),
            record_events(f, x),
            log_records_of(x),
        );
    }
}

/// The test for log records that are counted under a severity.
pub open spec fn under(severity: Seq<char>) -> spec_fn(LogRecordModel) -> bool {
    |l: LogRecordModel|
        l.severity_text == severity || (l.severity_text.len() == 0 && severity == "<unset>"@)
}

proof fn lemma_count_severities(e: Seq<EventModel>, l: Seq<LogRecordModel>, severity: Seq<char>)
    requires
        one_event_each(e, l),
        severity.len() > 0,
    ensures
        severities_of(e).count(severity) == count_where(l, under(severity)),
    decreases l.len(),
{
    broadcast use vstd::multiset::group_multiset_properties;
    broadcast use vstd::multiset::group_multiset_axioms;

    if l.len() > 0 {
        let ie = e.drop_last();
        let il = l.drop_last();
        assert forall|i: int| 0 <= i < il.len() implies if il[i].severity_text.len() == 0 {
            (#[trigger] ie[i]).severity == "<unset>"@
        } else {
            ie[i].severity == il[i].severity_text
        } by {
            assert(e[i] == ie[i]);
        }
        lemma_count_severities(ie, il, severity);
        assert(e[e.len() - 1] == e.last());
    }
}

/// Without a filter the severity breakdown says how many log records have each
/// severity text, those without one under `<unset>`, and the counts add up to
/// the number of log records.
pub proof fn law_severities_are_counted(f: FilterModel, r: Seq<RecordModel>, severity: Seq<char>)
    requires
        asks_for_all(f),
        severity.len() > 0,
    ensures
        severities_of(all_events(f, r)).count(severity) == count_where(
            all_log_records(r),
            under(severity),
        ),
        severities_of(all_events(f, r)).len() == all_log_records(r).len(),
{
    law_every_log_record_is_an_event(f, r);
    lemma_count_severities(all_events(f, r), all_log_records(r), severity);
    crate::commands::discover::law_events_are_counted(all_events(f, r));
}

/// The service of a resource is its first `service.name` that is a text.
pub proof fn law_first_text_names_the_service(a: Seq<KvModel>, i: int, name: Seq<char>)
    requires
        0 <= i < a.len(),
        a[i].key == "service.name"@ && a[i].value == Some(AnyModel::Str(name)),
        forall|j: int|
            0 <= j < i ==> (#[trigger] a[j]).key != "service.name"@ || !(a[j].value matches Some(
                AnyModel::Str(_),
            )),
    ensures
        string_service(a) == Some(name),
    decreases i,
{
    if i > 0 {
        let rest = a.drop_first();
        assert(a[0].key != "service.name"@ || !(a[0].value matches Some(AnyModel::Str(_))));
        assert forall|j: int| 0 <= j < i - 1 implies (#[trigger] rest[j]).key != "service.name"@
            || !(rest[j].value matches Some(AnyModel::Str(_))) by {
            assert(a[j + 1].key != "service.name"@ || !(a[j + 1].value matches Some(
                AnyModel::Str(_),
            )));
        }
        law_first_text_names_the_service(rest, i - 1, name);
    }
}

proof fn lemma_scope_service(f: FilterModel, service: Option<Seq<char>>, s: Seq<ScopeLogsModel>)
    ensures
        forall|i: int|
            0 <= i < scope_events(f, service, s).len() ==> (#[trigger] scope_events(
                f,
                service,
                s,
            )[i]).service == service,
    decreases s.len(),
{
    if s.len() > 0 {
        let before = scope_events(f, service, s.drop_last());
        let e = scope_events(f, service, s);
        lemma_scope_service(f, service, s.drop_last());
        lemma_item_service(f, service, s.last().log_records);
        assert forall|i: int| 0 <= i < e.len() implies (#[trigger] e[i]).service == service by {
            if i < before.len() {
                assert(e[i] == before[i]);
            } else {
                assert(e[i] == item_events(f, service, s.last().log_records)[i - before.len()]);
            }
        }
    }
}

proof fn lemma_item_service(f: FilterModel, service: Option<Seq<char>>, l: Seq<LogRecordModel>)
    ensures
        forall|i: int|
            0 <= i < item_events(f, service, l).len() ==> (#[trigger] item_events(
                f,
                service,
                l,
            )[i]).service == service,
    decreases l.len(),
{
    if l.len() > 0 {
        lemma_item_service(f, service, l.drop_last());
    }
}

proof fn lemma_services_alike(e: Seq<EventModel>, service: Option<Seq<char>>, name: Seq<char>)
    requires
        forall|i: int| 0 <= i < e.len() ==> (#[trigger] e[i]).service == service,
    ensures
        services_of(e).count(name) == if service == Some(name) {
            e.len()
        } else {
            0
        },
    decreases e.len(),
{
    broadcast use vstd::multiset::group_multiset_properties;
    broadcast use vstd::multiset::group_multiset_axioms;

    if e.len() > 0 {
        let init = e.drop_last();
        assert forall|i: int| 0 <= i < init.len() implies (#[trigger] init[i]).service
            == service by {
            assert(e[i].service == service);
        }
        assert(e[e.len() - 1].service == service);
        lemma_services_alike(init, service, name);
    }
}

/// Without a filter a service is counted once for each log record of its
/// resource; a resource that names no service is counted under none.
pub proof fn law_services_are_counted(f: FilterModel, r: ResourceLogsModel, name: Seq<char>)
    requires
        asks_for_all(f),
    ensures
        services_of(resource_events(f, r)).count(name) == if string_service(
            resource_attrs_of(r.resource),
        ) == Some(name) {
            all_log_items(r.scope_logs).len()
        } else {
            0
        },
{
    let service = string_service(resource_attrs_of(r.resource));
    lemma_scope_events(f, service, r.scope_logs);
    lemma_scope_service(f, service, r.scope_logs);
    lemma_services_alike(resource_events(f, r), service, name);
}

/// A filter of severities counts exactly the log records with one of them.
pub proof fn law_severity_filters_count_what_they_name(
    f: FilterModel,
    service: Option<Seq<char>>,
    l: Seq<LogRecordModel>,
    allowed: Seq<Seq<char>>,
)
    requires
        f.severities == Some(allowed),
    ensures
        item_events(f, service, l).len() == count_where(
            l,
            |x: LogRecordModel| allowed.contains(x.severity_text),
        ),
    decreases l.len(),
{
    if l.len() > 0 {
        law_severity_filters_count_what_they_name(f, service, l.drop_last(), allowed);
    }
}

/// A filter of services counts nothing of a resource that names none of them,
/// and all of one that does.
pub proof fn law_service_filters_count_what_they_name(
    f: FilterModel,
    r: ResourceLogsModel,
    allowed: Seq<Seq<char>>,
)
    requires
        f.services == Some(allowed),
        f.severities is None,
    ensures
        ({
            let service = string_service(resource_attrs_of(r.resource));
            resource_events(f, r).len() == if service is Some && allowed.contains(service->0) {
                all_log_items(r.scope_logs).len()
            } else {
                0
            }
        }),
{
    lemma_scope_events(f, string_service(resource_attrs_of(r.resource)), r.scope_logs);
}

/// Without a filter on fields a file that is read counts its records, those
/// that match, and the log records of those.
pub proof fn law_file_counts(entry: DatasetEntry, records: Seq<RecordModel>, p: PredicateModel)
    requires
        asks_for_all(p.fields),
    ensures
        ({
            let row = file_scan(entry, records, p).row;
            &&& has_to_be_read(entry, p) ==> row.scanned == records.len() && row.matched
                == selected(records, p).len() && row.events == all_log_records(
                selected(records, p),
            ).len() && !row.skipped
            &&& !has_to_be_read(entry, p) ==> row.scanned == 0 && row.matched == 0 && row.events
                == 0 && row.skipped
            &&& row.matched <= row.scanned || row.matched <= records.len()
            &&& entry.index is None ==> has_to_be_read(entry, p)
        }),
{
    law_every_log_record_is_an_event(p.fields, selected(records, p));
    crate::commands::filter::law_filtering_is_idempotent(records, p);
}

/// The ends of a span are times of records.
pub proof fn law_span_ends_at_records(r: Seq<RecordModel>)
    requires
        r.len() > 0,
    ensures
        exists|i: int|
            0 <= i < r.len() && span_of(r).first == Some((#[trigger] r[i]).ts_unix_ns),
        exists|i: int|
            0 <= i < r.len() && span_of(r).last == Some((#[trigger] r[i]).ts_unix_ns),
        span_of(r).first->0 <= span_of(r).last->0,
    decreases r.len(),
{
    let n = r.len() - 1;
    let init = r.drop_last();
    crate::commands::discover::law_span_holds_every_record(r, n);
    assert(r[n].ts_unix_ns == r.last().ts_unix_ns);
    if init.len() > 0 {
        law_span_ends_at_records(init);
        let a = choose|i: int|
            0 <= i < init.len() && span_of(init).first == Some((#[trigger] init[i]).ts_unix_ns);
        let b = choose|i: int|
            0 <= i < init.len() && span_of(init).last == Some((#[trigger] init[i]).ts_unix_ns);
        assert(r[a] == init[a] && r[b] == init[b]);
        if span_of(r).first == Some(r[n].ts_unix_ns) {
        } else {
            assert(span_of(r).first == Some(r[a].ts_unix_ns));
        }
        if span_of(r).last == Some(r[n].ts_unix_ns) {
        } else {
            assert(span_of(r).last == Some(r[b].ts_unix_ns));
        }
    }
}

/// The sum of a number over files.
pub open spec fn sum_of(s: Seq<ScanModel>, part: spec_fn(ScanModel) -> nat) -> nat
    decreases s.len(),
{
    if s.len() == 0 {
        0
    } else {
        part(s[0]) + sum_of(s.drop_first(), part)
    }
}

proof fn lemma_sum_push(s: Seq<ScanModel>, part: spec_fn(ScanModel) -> nat)
    requires
        s.len() > 0,
    ensures
        sum_of(s, part) == sum_of(s.drop_last(), part) + part(s.last()),
    decreases s.len(),
{
    if s.len() > 1 {
        lemma_sum_push(s.drop_first(), part);
        assert(s.drop_first().drop_last() =~= s.drop_last().drop_first());
        assert(s.drop_last()[0] == s[0]);
    } else {
        assert(sum_of(s.drop_first(), part) == 0);
        assert(sum_of(s.drop_last(), part) == 0);
    }
}

/// The totals are the sums over the files: records, matches, events, and how
/// often each service and each severity occurs.
pub proof fn law_totals_are_sums(s: Seq<ScanModel>, text: Seq<char>)
    ensures
        ({
            let d = summary_of_files(s);
            &&& d.scanned == sum_of(s, |x: ScanModel| x.row.scanned)
            &&& d.matched == sum_of(s, |x: ScanModel| x.row.matched)
            &&& d.events == sum_of(s, |x: ScanModel| x.row.events)
            &&& d.services.count(text) == sum_of(s, |x: ScanModel| x.services.count(text))
            &&& d.severities.count(text) == sum_of(s, |x: ScanModel| x.severities.count(text))
        }),
    decreases s.len(),
{
    broadcast use vstd::multiset::group_multiset_axioms;

    if s.len() > 0 {
        law_totals_are_sums(s.drop_last(), text);
        lemma_sum_push(s, |x: ScanModel| x.row.scanned);
        lemma_sum_push(s, |x: ScanModel| x.row.matched);
        lemma_sum_push(s, |x: ScanModel| x.row.events);
        lemma_sum_push(s, |x: ScanModel| x.services.count(text));
        lemma_sum_push(s, |x: ScanModel| x.severities.count(text));
    }
}

/// The span of all files holds the span of each.
pub proof fn law_span_holds_every_file(s: Seq<ScanModel>, i: int)
    requires
        0 <= i < s.len(),
    ensures
        ({
            let d = summary_of_files(s).time;
            &&& s[i].row.time.first is Some ==> d.first is Some && d.first->0
                <= s[i].row.time.first->0
            &&& s[i].row.time.last is Some ==> d.last is Some && d.last->0 >= s[i].row.time.last->0
        }),
    decreases s.len(),
{
    if i < s.len() - 1 {
        law_span_holds_every_file(s.drop_last(), i);
        assert(s.drop_last()[i] == s[i]);
    }
}

/// A page holds the files from the offset on, as many as asked for or as there
/// are; the next page begins where it ends, as long as files are left.
pub proof fn law_pages_follow_one_another(
    entries: Seq<DatasetEntry>,
    offset: usize,
    limit: Option<usize>,
)
    ensures
        page_of(entries, offset, limit) is Err <==> offset > entries.len(),
        page_of(entries, offset, limit) matches Ok(page) ==> {
            &&& limit is None ==> offset + page.len() == entries.len()
            &&& limit is Some ==> page.len() <= limit->0
            &&& limit is Some && page.len() < limit->0 ==> offset + page.len() == entries.len()
            &&& offset + page.len() <= entries.len()
            &&& forall|i: int| 0 <= i < page.len() ==> #[trigger] page[i] == entries[offset + i]
            &&& entries.len() <= usize::MAX ==> match next_page(
                offset as nat,
                page.len(),
                entries.len(),
            ) {
                Some(next) => next == offset + page.len() && next < entries.len(),
                None => offset + page.len() == entries.len(),
            }
        },
{
}

/// The top rows say how often each of their texts occurs, the most frequent
/// first; texts that are as frequent stand in order; and no text that is left
/// out occurs more often than one that is listed.
pub proof fn law_top_rows_are_the_most_frequent(
    rows: Seq<(Seq<char>, nat)>,
    counted: Multiset<Seq<char>>,
    limit: usize,
)
    requires
        is_top(rows, counted, limit),
    ensures
        rows.len() <= limit,
        forall|i: int|
            0 <= i < rows.len() ==> counted.count((#[trigger] rows[i]).0) == rows[i].1 && rows[i].1
                > 0,
        forall|i: int, j: int|
            0 <= i < j < rows.len() ==> (#[trigger] rows[i]).1 >= (#[trigger] rows[j]).1
                && rows[i].0 != rows[j].0,
        forall|i: int, j: int|
            0 <= i < j < rows.len() && (#[trigger] rows[i]).1 == (#[trigger] rows[j]).1
                ==> text_lt(rows[i].0, rows[j].0),
        forall|x: Seq<char>|
            #[trigger] counted.count(x) > 0 && !(exists|i: int|
                0 <= i < rows.len() && (#[trigger] rows[i]).0 == x) ==> rows.len() == limit
                && forall|i: int|
                0 <= i < rows.len() ==> counted.count(x) <= (#[trigger] rows[i]).1,
{
    let all = choose|all: Seq<(Seq<char>, nat)>| #[trigger]
        rows_ok(all) && rows_bag(all) == counted && rows == ranked(all).take(
            if limit < all.len() {
                limit as int
            } else {
                all.len() as int
            },
        );
    assert(rows_differ(all)) by {
        assert forall|i: int, j: int| 0 <= i < j < all.len() implies (#[trigger] all[i]).0 != (
        #[trigger] all[j]).0 by {
            assert(text_lt(all[i].0, all[j].0));
            lemma_text_order_is_total(all[i].0, all[j].0);
        }
    }
    law_ranking(all);
    let r = ranked(all);
    assert(in_rank_order(r));
    assert forall|i: int| 0 <= i < r.len() implies all.contains(#[trigger] r[i]) by {
        assert(r.contains(r[i]));
        crate::dedup::canon_json::lemma_same_members(r, all, r[i]);
    }
    assert forall|i: int| 0 <= i < rows.len() implies counted.count((#[trigger] rows[i]).0)
        == rows[i].1 && rows[i].1 > 0 by {
        assert(all.contains(r[i]));
        let k = choose|k: int| 0 <= k < all.len() && all[k] == r[i];
        law_rows_count(all, rows[i].0);
        assert(all[k].1 > 0);
    }
    assert forall|i: int, j: int| 0 <= i < j < rows.len() implies (#[trigger] rows[i]).1 >= (
    #[trigger] rows[j]).1 && rows[i].0 != rows[j].0 by {
        assert(ranks_before(r[i], r[j]));
        lemma_text_order_is_total(rows[i].0, rows[j].0);
        if rows[i].0 == rows[j].0 {
            assert(all.contains(r[i]) && all.contains(r[j]));
            let k = choose|k: int| 0 <= k < all.len() && all[k] == r[i];
            let m = choose|m: int| 0 <= m < all.len() && all[m] == r[j];
            if k != m {
                assert(all[k].0 != all[m].0);
            }
        }
    }
    assert forall|i: int, j: int|
        0 <= i < j < rows.len() && (#[trigger] rows[i]).1 == (#[trigger] rows[j]).1 implies text_lt(
        rows[i].0,
        rows[j].0,
    ) by {
        assert(ranks_before(r[i], r[j]));
    }
    assert forall|x: Seq<char>|
        #[trigger] counted.count(x) > 0 && !(exists|i: int|
            0 <= i < rows.len() && (#[trigger] rows[i]).0 == x) implies rows.len() == limit
        && forall|i: int| 0 <= i < rows.len() ==> counted.count(x) <= (#[trigger] rows[i]).1 by {
        law_rows_count(all, x);
        let k = choose|k: int| 0 <= k < all.len() && (#[trigger] all[k]).0 == x;
        assert(all.contains(all[k]));
        crate::dedup::canon_json::lemma_same_members(all, r, all[k]);
        let p = choose|p: int| 0 <= p < r.len() && r[p] == all[k];
        if p < rows.len() {
            assert(rows[p].0 == x);
        }
        assert forall|i: int| 0 <= i < rows.len() implies counted.count(x) <= (
        #[trigger] rows[i]).1 by {
            assert(ranks_before(r[i], r[p]));
        }
    }
}

} // verus!
