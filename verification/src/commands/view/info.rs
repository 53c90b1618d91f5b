//! What is known of a record, as names and values.
use vstd::prelude::*;

use crate::bridge::protobuf::{
    decode_logs, decode_metrics, decode_traces, logs_of, metrics_of, traces_of,
};
use crate::commands::export::{
    format_any_value, format_timestamp, format_value, timestamp_text, value_text,
};
use crate::commands::view::detail::{
    format_point, format_span_kind, span_kind_name, value_or_nothing,
};
use crate::commands::view::flatten::{
    all_log_items, all_log_scope_names, all_log_scopes, all_log_services, all_metric_items,
    all_metric_scope_names, all_metric_scopes, all_metric_services, all_span_items,
    all_span_scope_names, all_span_scopes, all_span_services, log_items, log_items_view,
    log_scope_names, log_scopes, log_scopes_view, log_services, metric_items, metric_items_view,
    metric_scope_names, metric_scopes, metric_services, span_items, span_items_view,
    span_scope_names, span_scopes, span_services,
};
use crate::commands::view::types::{DetailModel, DetailRecord, MODAL_ATTR_ENTRY_LIMIT_PER_KIND};
use crate::dedup::unpack::{resource_attrs_of, scope_attrs_of};
use crate::exporter::{kind_label, record_kind_label};
use crate::json::bool_text;
use crate::otlp::{
    attrs_view, AnyModel, AttrValue, Attribute, ExpHistogramPoint, ExpHistogramPointModel,
    HistogramPoint, HistogramPointModel, KvModel, LogItem, LogRecordModel, LogsModel, LogsRequest,
    MetricData, MetricDataModel, MetricItem, MetricModel, MetricsModel, MetricsRequest,
    NumberPoint, NumberPointModel, ResourceLogsModel, ScopeLogSet, ScopeLogsModel, SpanModel,
    SummaryPoint, SummaryPointModel, TraceSpan, TracesModel, TracesRequest,
};
use crate::record::RecordType;
use crate::text::numbers::{decimal, decimal_int, i64_text, u128_text, u64_text, usize_text};
use crate::text::seqs::{count_of, count_where, equals, join_strings, joined};
use crate::text::str_set::{distinct, distinct_texts, listed, listed_texts, StrSet};
use crate::text::strings::{str_eq, texts};

verus! {

/// The models of names with values.
pub open spec fn pairs_view(p: Seq<(String, String)>) -> Seq<(Seq<char>, Seq<char>)> {
    p.map_values(|x: (String, String)| (x.0@, x.1@))
}

/// One name with its value, where there is something to say.
pub open spec fn pair_when(c: bool, key: Seq<char>, value: Seq<char>) -> Seq<
    (Seq<char>, Seq<char>),
> {
    if c {
        seq![(key, value)]
    } else {
        Seq::empty()
    }
}

fn push_pair(pairs: &mut Vec<(String, String)>, key: String, value: String)
    ensures
        pairs_view(final(pairs)@) == pairs_view(old(pairs)@) + seq![(key@, value@)],
{
    let ghost before = pairs_view(pairs@);
    pairs.push((key, value));
    assert(pairs_view(pairs@) =~= before + seq![(key@, value@)]);
}

fn push_pair_when(pairs: &mut Vec<(String, String)>, c: bool, key: String, value: String)
    ensures
        pairs_view(final(pairs)@) == pairs_view(old(pairs)@) + pair_when(c, key@, value@),
{
    let ghost before = pairs_view(pairs@);
    if c {
        pairs.push((key, value));
        assert(pairs_view(pairs@) =~= before + seq![(key@, value@)]);
    } else {
        assert(pairs_view(pairs@) =~= before + Seq::<(Seq<char>, Seq<char>)>::empty());
    }
}

/// Names in a list, where there are any.
pub open spec fn list_when(key: Seq<char>, names: Seq<Seq<char>>) -> Seq<(Seq<char>, Seq<char>)> {
    pair_when(names.len() > 0, key, joined(names, ", "@))
}

fn push_list_when(pairs: &mut Vec<(String, String)>, key: &str, names: &StrSet)
    ensures
        pairs_view(final(pairs)@) == pairs_view(old(pairs)@) + list_when(key@, names@),
{
    let list = join_strings(names.items(), ", ");
    push_pair_when(pairs, names.len() > 0, key.to_owned(), list);
}

/// A row for an attribute: its kind, its key and its value. The rows behind the
/// first of a list have no kind and no key.
pub open spec fn attr_rows(kind: Seq<char>, key: Seq<char>, value: Option<AnyModel>) -> Seq<
    (Seq<char>, Seq<char>, Seq<char>),
> {
    match value {
        Some(AnyModel::Array(a)) => {
            let shown = element_texts(a);
            if shown.len() == 0 {
                seq![(kind, key, "\0N/A"@)]
            } else {
                Seq::new(
                    shown.len(),
                    |i: int|
                        if i == 0 {
                            (kind, key, shown[0])
                        } else {
                            (Seq::empty(), Seq::empty(), shown[i])
                        },
                )
            }
        },
        v => seq![(kind, key, value_text(v))],
    }
}

/// The texts of the elements of an array that are not empty.
pub open spec fn element_texts(a: Seq<AnyModel>) -> Seq<Seq<char>>
    decreases a.len(),
{
    if a.len() == 0 {
        Seq::empty()
    } else if value_text(Some(a.last())).len() == 0 {
        element_texts(a.drop_last())
    } else {
        element_texts(a.drop_last()).push(value_text(Some(a.last())))
    }
}

/// The rows for attributes.
pub open spec fn all_attr_rows(kind: Seq<char>, attrs: Seq<KvModel>) -> Seq<
    (Seq<char>, Seq<char>, Seq<char>),
>
    decreases attrs.len(),
{
    if attrs.len() == 0 {
        Seq::empty()
    } else {
        all_attr_rows(kind, attrs.drop_last()) + attr_rows(
            kind,
            attrs.last().key,
            attrs.last().value,
        )
    }
}

/// The models of rows.
pub open spec fn triples_view(t: Seq<(String, String, String)>) -> Seq<
    (Seq<char>, Seq<char>, Seq<char>),
> {
    t.map_values(|x: (String, String, String)| (x.0@, x.1@, x.2@))
}

fn push_row(rows: &mut Vec<(String, String, String)>, kind: &str, key: &str, value: String)
    ensures
        triples_view(final(rows)@) == triples_view(old(rows)@).push((kind@, key@, value@)),
{
    let ghost before = triples_view(rows@);
    rows.push((kind.to_owned(), key.to_owned(), value));
    assert(triples_view(rows@) =~= before.push((kind@, key@, value@)));
}

/// The texts of the elements of an array that are not empty.
fn array_texts(a: &Vec<AttrValue>, Ghost(m): Ghost<Seq<AnyModel>>) -> (r: Vec<String>)
    requires
        m.len() == a@.len(),
        forall|i: int| 0 <= i < m.len() ==> #[trigger] m[i] == a@[i]@,
    ensures
        texts(r@) == element_texts(m),
{
    let mut out: Vec<String> = Vec::new();
    assert(m.take(0) =~= Seq::empty());
    assert(texts(out@) =~= Seq::empty());
    for i in 0..a.len()
        invariant
            m.len() == a@.len(),
            forall|i: int| 0 <= i < m.len() ==> #[trigger] m[i] == a@[i]@,
            texts(out@) == element_texts(m.take(i as int)),
    {
        let ghost before = texts(out@);
        assert(m.take(i + 1).drop_last() =~= m.take(i as int));
        assert(m[i as int] == a@[i as int]@);
        let text = format_value(&a[i]);
        if !text.as_str().is_empty() {
            out.push(text);
            assert(texts(out@) =~= before.push(text@));
        }
    }
    assert(m.take(a@.len() as int) =~= m);
    out
}

/// Adds the rows for an attribute.
fn push_modal_attribute_entry(
    rows: &mut Vec<(String, String, String)>,
    kind: &str,
    key: &str,
    value: &Option<AttrValue>,
    Ghost(model): Ghost<Option<AnyModel>>,
)
    requires
        model == match *value {
            Some(v) => Some(v@),
            None => None,
        },
    ensures
        triples_view(final(rows)@) == triples_view(old(rows)@) + attr_rows(kind@, key@, model),
{
    let ghost start = triples_view(rows@);
    if let Some(AttrValue::Array(a)) = value {
        let ghost m = model->0->Array_0;
        let shown = array_texts(a, Ghost(m));
        let ghost own = attr_rows(kind@, key@, model);
        if shown.len() == 0 {
            push_row(rows, kind, key, "\0N/A".to_owned());
            assert(triples_view(rows@) =~= start + own);
            return;
        }
        assert(own.len() == shown@.len());
        assert(start + own.take(0) =~= start);
        for i in 0..shown.len()
            invariant
                texts(shown@) == element_texts(m),
                model == Some(AnyModel::Array(m)),
                shown@.len() > 0,
                own == attr_rows(kind@, key@, model),
                own.len() == shown@.len(),
                triples_view(rows@) == start + own.take(i as int),
        {
            assert(texts(shown@)[i as int] == shown@[i as int]@);
            if i == 0 {
                push_row(rows, kind, key, shown[0].clone());
            } else {
                push_row(rows, "", "", shown[i].clone());
                proof {
                    reveal_strlit("");
                    assert(""@ =~= Seq::empty());
                }
            }
            assert(triples_view(rows@) =~= start + own.take(i + 1));
        }
        assert(own.take(shown@.len() as int) =~= own);
        return;
    }
    push_row(rows, kind, key, format_any_value(value));
    assert(triples_view(rows@) =~= start + seq![(kind@, key@, value_text(model))]);
}

/// The models of attributes.
pub open spec fn attr_refs_view(a: Seq<&Attribute>) -> Seq<KvModel> {
    a.map_values(|x: &Attribute| x@)
}

/// The rows for attributes.
fn attribute_rows(kind: &str, attrs: &Vec<&Attribute>) -> (r: Vec<(String, String, String)>)
    ensures
        triples_view(r@) == all_attr_rows(kind@, attr_refs_view(attrs@)),
{
    let ghost all = attr_refs_view(attrs@);
    let mut rows: Vec<(String, String, String)> = Vec::new();
    assert(all.take(0) =~= Seq::empty());
    assert(triples_view(rows@) =~= Seq::empty());
    for i in 0..attrs.len()
        invariant
            all == attr_refs_view(attrs@),
            triples_view(rows@) == all_attr_rows(kind@, all.take(i as int)),
    {
        assert(all.take(i + 1).drop_last() =~= all.take(i as int));
        assert(all[i as int] == attrs@[i as int]@);
        push_modal_attribute_entry(
            &mut rows,
            kind,
            attrs[i].key.as_str(),
            &attrs[i].value,
            Ghost(all[i as int].value),
        );
    }
    assert(all.take(attrs@.len() as int) =~= all);
    rows
}

/// A row as name and value.
pub open spec fn row_pair(r: (Seq<char>, Seq<char>, Seq<char>)) -> (Seq<char>, Seq<char>) {
    if r.0.len() == 0 && r.1.len() == 0 {
        (Seq::empty(), r.2)
    } else {
        (r.0 + "."@ + r.1, r.2)
    }
}

/// Rows as names and values.
pub fn flatten_modal_entries(entries: &Vec<(String, String, String)>, limit: usize) -> (r: Vec<
    (String, String),
>)
    requires
        limit <= entries@.len(),
    ensures
        pairs_view(r@) == triples_view(entries@).take(limit as int).map_values(
            |x: (Seq<char>, Seq<char>, Seq<char>)| row_pair(x),
        ),
{
    let ghost all = triples_view(entries@).take(limit as int).map_values(
        |x: (Seq<char>, Seq<char>, Seq<char>)| row_pair(x),
    );
    let mut out: Vec<(String, String)> = Vec::new();
    for i in 0..limit
        invariant
            limit <= entries@.len(),
            all == triples_view(entries@).take(limit as int).map_values(
                |x: (Seq<char>, Seq<char>, Seq<char>)| row_pair(x),
            ),
            pairs_view(out@) == all.take(i as int),
    {
        let e = &entries[i];
        assert(triples_view(entries@)[i as int] == (e.0@, e.1@, e.2@));
        let key = if e.0.as_str().is_empty() && e.1.as_str().is_empty() {
            String::new()
        } else {
            let mut k = e.0.clone();
            k.append(".");
            k.append(e.1.as_str());
            k
        };
        assert(all[i as int] == (key@, e.2@));
        push_pair(&mut out, key, e.2.clone());
        assert(pairs_view(out@) =~= all.take(i + 1));
    }
    assert(all.take(limit as int) =~= all);
    out
}

/// The first rows of a kind, and how many are not shown.
pub open spec fn shown_rows(kind: Seq<char>, rows: Seq<(Seq<char>, Seq<char>, Seq<char>)>) -> Seq<
    (Seq<char>, Seq<char>),
> {
    let n = if rows.len() <= MODAL_ATTR_ENTRY_LIMIT_PER_KIND {
        rows.len() as int
    } else {
        MODAL_ATTR_ENTRY_LIMIT_PER_KIND as int
    };
    rows.take(n).map_values(|x: (Seq<char>, Seq<char>, Seq<char>)| row_pair(x)) + pair_when(
        rows.len() > n,
        kind + ".attrs.more"@,
        decimal((rows.len() - n) as nat) + " not shown"@,
    )
}

fn push_shown_rows(
    pairs: &mut Vec<(String, String)>,
    kind: &str,
    rows: &Vec<(String, String, String)>,
)
    ensures
        pairs_view(final(pairs)@) == pairs_view(old(pairs)@) + shown_rows(
            kind@,
            triples_view(rows@),
        ),
{
    let ghost start = pairs_view(pairs@);
    let n = if rows.len() <= MODAL_ATTR_ENTRY_LIMIT_PER_KIND {
        rows.len()
    } else {
        MODAL_ATTR_ENTRY_LIMIT_PER_KIND
    };
    let mut own = flatten_modal_entries(rows, n);
    let mut key = kind.to_owned();
    key.append(".attrs.more");
    let mut value = usize_text(rows.len() - n);
    value.append(" not shown");
    push_pair_when(&mut own, rows.len() > n, key, value);
    let ghost added = pairs_view(own@);
    pairs.append(&mut own);
    assert(pairs_view(pairs@) =~= start + added);
}

/// The attributes of all resources.
pub open spec fn all_resource_attrs(r: Seq<ResourceLogsModel>) -> Seq<KvModel>
    decreases r.len(),
{
    if r.len() == 0 {
        Seq::empty()
    } else {
        all_resource_attrs(r.drop_last()) + resource_attrs_of(r.last().resource)
    }
}

/// The attributes of all scopes.
pub open spec fn all_scope_attrs(s: Seq<ScopeLogsModel>) -> Seq<KvModel>
    decreases s.len(),
{
    if s.len() == 0 {
        Seq::empty()
    } else {
        all_scope_attrs(s.drop_last()) + scope_attrs_of(s.last().scope)
    }
}

/// The attributes of all log records.
pub open spec fn all_item_attrs(l: Seq<LogRecordModel>) -> Seq<KvModel>
    decreases l.len(),
{
    if l.len() == 0 {
        Seq::empty()
    } else {
        all_item_attrs(l.drop_last()) + l.last().attributes
    }
}

fn push_refs<'a>(out: &mut Vec<&'a Attribute>, attrs: &'a Vec<Attribute>)
    ensures
        attr_refs_view(final(out)@) == attr_refs_view(old(out)@) + attrs_view(attrs@),
{
    let ghost start = attr_refs_view(out@);
    let ghost all = attrs_view(attrs@);
    assert(start + all.take(0) =~= start);
    for i in 0..attrs.len()
        invariant
            all == attrs_view(attrs@),
            attr_refs_view(out@) == start + all.take(i as int),
    {
        let ghost now = attr_refs_view(out@);
        let one = &attrs[i];
        out.push(one);
        assert(all[i as int] == one@);
        assert(attr_refs_view(out@) =~= now.push(one@));
        assert(now.push(one@) =~= start + all.take(i + 1));
    }
    assert(all.take(attrs@.len() as int) =~= all);
}

fn resource_attr_refs<'a>(batch: &'a LogsRequest) -> (r: Vec<&'a Attribute>)
    ensures
        attr_refs_view(r@) == all_resource_attrs(batch@.resource_logs),
{
    let ghost all = batch@.resource_logs;
    let mut out: Vec<&'a Attribute> = Vec::new();
    assert(all.take(0) =~= Seq::empty());
    assert(attr_refs_view(out@) =~= Seq::empty());
    for i in 0..batch.resource_logs.len()
        invariant
            all == batch@.resource_logs,
            attr_refs_view(out@) == all_resource_attrs(all.take(i as int)),
    {
        let ghost before = attr_refs_view(out@);
        assert(all.take(i + 1).drop_last() =~= all.take(i as int));
        assert(all[i as int] == batch.resource_logs@[i as int]@);
        if let Some(resource) = &batch.resource_logs[i].resource {
            push_refs(&mut out, &resource.attributes);
        } else {
            assert(before + Seq::<KvModel>::empty() =~= before);
        }
    }
    assert(all.take(batch.resource_logs@.len() as int) =~= all);
    out
}

fn scope_attr_refs<'a>(scopes: &Vec<&'a ScopeLogSet>) -> (r: Vec<&'a Attribute>)
    ensures
        attr_refs_view(r@) == all_scope_attrs(log_scopes_view(scopes@)),
{
    let ghost all = log_scopes_view(scopes@);
    let mut out: Vec<&'a Attribute> = Vec::new();
    assert(all.take(0) =~= Seq::empty());
    assert(attr_refs_view(out@) =~= Seq::empty());
    for i in 0..scopes.len()
        invariant
            all == log_scopes_view(scopes@),
            attr_refs_view(out@) == all_scope_attrs(all.take(i as int)),
    {
        let ghost before = attr_refs_view(out@);
        let set: &'a ScopeLogSet = scopes[i];
        assert(all.take(i + 1).drop_last() =~= all.take(i as int));
        assert(all[i as int] == set@);
        if let Some(scope) = &set.scope {
            push_refs(&mut out, &scope.attributes);
        } else {
            assert(before + Seq::<KvModel>::empty() =~= before);
        }
    }
    assert(all.take(scopes@.len() as int) =~= all);
    out
}

fn item_attr_refs<'a>(items: &Vec<&'a LogItem>) -> (r: Vec<&'a Attribute>)
    ensures
        attr_refs_view(r@) == all_item_attrs(log_items_view(items@)),
{
    let ghost all = log_items_view(items@);
    let mut out: Vec<&'a Attribute> = Vec::new();
    assert(all.take(0) =~= Seq::empty());
    assert(attr_refs_view(out@) =~= Seq::empty());
    for i in 0..items.len()
        invariant
            all == log_items_view(items@),
            attr_refs_view(out@) == all_item_attrs(all.take(i as int)),
    {
        let one: &'a LogItem = items[i];
        assert(all.take(i + 1).drop_last() =~= all.take(i as int));
        assert(all[i as int] == one@);
        push_refs(&mut out, &one.attributes);
    }
    assert(all.take(items@.len() as int) =~= all);
    out
}

/// The severity texts of log records.
pub open spec fn severity_texts_of(s: Seq<LogRecordModel>) -> Seq<Seq<char>> {
    s.map_values(|x: LogRecordModel| x.severity_text)
}

pub fn severity_texts(items: &Vec<&LogItem>) -> (r: Vec<String>)
    ensures
        texts(r@) == severity_texts_of(log_items_view(items@)),
{
    let ghost all = severity_texts_of(log_items_view(items@));
    let mut out: Vec<String> = Vec::new();
    for i in 0..items.len()
        invariant
            all == severity_texts_of(log_items_view(items@)),
            texts(out@) == all.take(i as int),
    {
        let ghost before = texts(out@);
        let text = items[i].severity_text.clone();
        assert(log_items_view(items@)[i as int] == items@[i as int]@);
        assert(all[i as int] == text@);
        out.push(text);
        assert(texts(out@) =~= before.push(text@));
        assert(texts(out@) =~= all.take(i + 1));
    }
    assert(all.take(items@.len() as int) =~= all);
    out
}

/// The event names of log records.
pub open spec fn event_names_of(s: Seq<LogRecordModel>) -> Seq<Seq<char>> {
    s.map_values(|x: LogRecordModel| x.event_name)
}

pub fn event_names(items: &Vec<&LogItem>) -> (r: Vec<String>)
    ensures
        texts(r@) == event_names_of(log_items_view(items@)),
{
    let ghost all = event_names_of(log_items_view(items@));
    let mut out: Vec<String> = Vec::new();
    for i in 0..items.len()
        invariant
            all == event_names_of(log_items_view(items@)),
            texts(out@) == all.take(i as int),
    {
        let ghost before = texts(out@);
        let text = items[i].event_name.clone();
        assert(log_items_view(items@)[i as int] == items@[i as int]@);
        assert(all[i as int] == text@);
        out.push(text);
        assert(texts(out@) =~= before.push(text@));
        assert(texts(out@) =~= all.take(i + 1));
    }
    assert(all.take(items@.len() as int) =~= all);
    out
}

/// The names of spans.
pub open spec fn span_names_of(s: Seq<SpanModel>) -> Seq<Seq<char>> {
    s.map_values(|x: SpanModel| x.name)
}

pub fn span_names(items: &Vec<&TraceSpan>) -> (r: Vec<String>)
    ensures
        texts(r@) == span_names_of(span_items_view(items@)),
{
    let ghost all = span_names_of(span_items_view(items@));
    let mut out: Vec<String> = Vec::new();
    for i in 0..items.len()
        invariant
            all == span_names_of(span_items_view(items@)),
            texts(out@) == all.take(i as int),
    {
        let ghost before = texts(out@);
        let text = items[i].name.clone();
        assert(span_items_view(items@)[i as int] == items@[i as int]@);
        assert(all[i as int] == text@);
        out.push(text);
        assert(texts(out@) =~= before.push(text@));
        assert(texts(out@) =~= all.take(i + 1));
    }
    assert(all.take(items@.len() as int) =~= all);
    out
}

/// The kinds of spans.
pub open spec fn span_kinds_of(s: Seq<SpanModel>) -> Seq<Seq<char>> {
    s.map_values(|x: SpanModel| span_kind_name(x.kind))
}

pub fn span_kinds(items: &Vec<&TraceSpan>) -> (r: Vec<String>)
    ensures
        texts(r@) == span_kinds_of(span_items_view(items@)),
{
    let ghost all = span_kinds_of(span_items_view(items@));
    let mut out: Vec<String> = Vec::new();
    for i in 0..items.len()
        invariant
            all == span_kinds_of(span_items_view(items@)),
            texts(out@) == all.take(i as int),
    {
        let ghost before = texts(out@);
        let text = format_span_kind(items[i].kind);
        assert(span_items_view(items@)[i as int] == items@[i as int]@);
        assert(all[i as int] == text@);
        out.push(text);
        assert(texts(out@) =~= before.push(text@));
        assert(texts(out@) =~= all.take(i + 1));
    }
    assert(all.take(items@.len() as int) =~= all);
    out
}

/// The names of metrics.
pub open spec fn metric_names_of(s: Seq<MetricModel>) -> Seq<Seq<char>> {
    s.map_values(|x: MetricModel| x.name)
}

pub fn metric_names(items: &Vec<&MetricItem>) -> (r: Vec<String>)
    ensures
        texts(r@) == metric_names_of(metric_items_view(items@)),
{
    let ghost all = metric_names_of(metric_items_view(items@));
    let mut out: Vec<String> = Vec::new();
    for i in 0..items.len()
        invariant
            all == metric_names_of(metric_items_view(items@)),
            texts(out@) == all.take(i as int),
    {
        let ghost before = texts(out@);
        let text = items[i].name.clone();
        assert(metric_items_view(items@)[i as int] == items@[i as int]@);
        assert(all[i as int] == text@);
        out.push(text);
        assert(texts(out@) =~= before.push(text@));
        assert(texts(out@) =~= all.take(i + 1));
    }
    assert(all.take(items@.len() as int) =~= all);
    out
}


/// A log record with a trace.
pub open spec fn has_trace() -> spec_fn(LogRecordModel) -> bool {
    |l: LogRecordModel| l.trace_id.len() > 0
}

/// A log record with a span.
pub open spec fn has_span() -> spec_fn(LogRecordModel) -> bool {
    |l: LogRecordModel| l.span_id.len() > 0
}

/// How many log records have a trace, and how many have a span.
fn count_ids(items: &Vec<&LogItem>) -> (r: (usize, usize))
    ensures
        r.0 == count_where(log_items_view(items@), has_trace()),
        r.1 == count_where(log_items_view(items@), has_span()),
{
    let ghost all = log_items_view(items@);
    let mut traces: usize = 0;
    let mut spans: usize = 0;
    assert(all.take(0) =~= Seq::empty());
    for i in 0..items.len()
        invariant
            all == log_items_view(items@),
            traces <= i,
            spans <= i,
            traces == count_where(all.take(i as int), has_trace()),
            spans == count_where(all.take(i as int), has_span()),
    {
        assert(all.take(i + 1).drop_last() =~= all.take(i as int));
        assert(all[i as int] == items@[i as int]@);
        if items[i].trace_id.len() > 0 {
            traces = traces + 1;
        }
        if items[i].span_id.len() > 0 {
            spans = spans + 1;
        }
    }
    assert(all.take(items@.len() as int) =~= all);
    (traces, spans)
}

/// What is known of a log batch.
pub open spec fn log_info(b: LogsModel) -> Seq<(Seq<char>, Seq<char>)> {
    let scopes = all_log_scopes(b.resource_logs);
    let items = all_log_items(scopes);
    let resource_attrs = all_resource_attrs(b.resource_logs);
    let scope_attrs = all_scope_attrs(scopes);
    let record_attrs = all_item_attrs(items);
    let traces = count_where(items, has_trace());
    let spans = count_where(items, has_span());
    seq![("otlp.kind"@, "logs"@)] + seq![("resources"@, decimal(b.resource_logs.len()))] + list_when(
        "service.name"@,
        distinct(all_log_services(b.resource_logs)),
    ) + list_when("scope"@, listed(all_log_scope_names(scopes))) + list_when(
        "severity"@,
        listed(severity_texts_of(items)),
    ) + list_when("event"@, listed(event_names_of(items))) + seq![
        ("resource.attrs"@, decimal(resource_attrs.len())),
    ] + seq![("scope.attrs"@, decimal(scope_attrs.len()))] + seq![
        ("record.attrs"@, decimal(record_attrs.len())),
    ] + shown_rows("resource"@, all_attr_rows("resource"@, resource_attrs)) + shown_rows(
        "scope"@,
        all_attr_rows("scope"@, scope_attrs),
    ) + shown_rows("record"@, all_attr_rows("record"@, record_attrs)) + pair_when(
        traces > 0,
        "trace_id"@,
        decimal(traces) + " present"@,
    ) + pair_when(spans > 0, "span_id"@, decimal(spans) + " present"@)
}

/// What is known of a log batch.
pub fn log_batch_info(batch: &LogsRequest) -> (r: Vec<(String, String)>)
    ensures
        pairs_view(r@) == log_info(batch@),
{
    let scopes = log_scopes(batch);
    let items = log_items(&scopes);
    let services = distinct_texts(&log_services(batch));
    let scope_names = listed_texts(&log_scope_names(&scopes));
    let severities = listed_texts(&severity_texts(&items));
    let events = listed_texts(&event_names(&items));
    let resource_attrs = resource_attr_refs(batch);
    let scope_attrs = scope_attr_refs(&scopes);
    let record_attrs = item_attr_refs(&items);
    let (traces, spans) = count_ids(&items);
    let mut lines: Vec<(String, String)> = Vec::new();
    assert(pairs_view(lines@) =~= Seq::empty());
    push_pair(&mut lines, "otlp.kind".to_owned(), "logs".to_owned());
    assert(pairs_view(lines@) =~= seq![("otlp.kind"@, "logs"@)]);
    push_pair(&mut lines, "resources".to_owned(), usize_text(batch.resource_logs.len()));
    push_list_when(&mut lines, "service.name", &services);
    push_list_when(&mut lines, "scope", &scope_names);
    push_list_when(&mut lines, "severity", &severities);
    push_list_when(&mut lines, "event", &events);
    push_pair(&mut lines, "resource.attrs".to_owned(), usize_text(resource_attrs.len()));
    push_pair(&mut lines, "scope.attrs".to_owned(), usize_text(scope_attrs.len()));
    push_pair(&mut lines, "record.attrs".to_owned(), usize_text(record_attrs.len()));
    push_shown_rows(&mut lines, "resource", &attribute_rows("resource", &resource_attrs));
    push_shown_rows(&mut lines, "scope", &attribute_rows("scope", &scope_attrs));
    push_shown_rows(&mut lines, "record", &attribute_rows("record", &record_attrs));
    let mut trace_text = usize_text(traces);
    trace_text.append(" present");
    push_pair_when(&mut lines, traces > 0, "trace_id".to_owned(), trace_text);
    let mut span_text = usize_text(spans);
    span_text.append(" present");
    push_pair_when(&mut lines, spans > 0, "span_id".to_owned(), span_text);
    lines
}

/// How often each text occurs, in the order of the first occurrences.
pub open spec fn counts_of(prefix: Seq<char>, names: Seq<Seq<char>>) -> Seq<
    (Seq<char>, Seq<char>),
> {
    distinct(names).map_values(|n: Seq<char>| (prefix + n, decimal(count_of(names, n))))
}

fn count_text(names: &Vec<String>, name: &str) -> (r: usize)
    ensures
        r == count_of(texts(names@), name@),
{
    let ghost all = texts(names@);
    let ghost p = equals(name@);
    let mut n: usize = 0;
    assert(all.take(0) =~= Seq::empty());
    for i in 0..names.len()
        invariant
            all == texts(names@),
            p == equals(name@),
            n <= i,
            n == count_where(all.take(i as int), p),
    {
        assert(all.take(i + 1).drop_last() =~= all.take(i as int));
        assert(all[i as int] == names@[i as int]@);
        if str_eq(names[i].as_str(), name) {
            n = n + 1;
        }
    }
    assert(all.take(names@.len() as int) =~= all);
    n
}

fn push_counts(pairs: &mut Vec<(String, String)>, prefix: &str, names: &Vec<String>)
    ensures
        pairs_view(final(pairs)@) == pairs_view(old(pairs)@) + counts_of(prefix@, texts(names@)),
{
    let ghost start = pairs_view(pairs@);
    let ghost all = counts_of(prefix@, texts(names@));
    let set = distinct_texts(names);
    let keys = set.items();
    assert(start + all.take(0) =~= start);
    for i in 0..keys.len()
        invariant
            all == counts_of(prefix@, texts(names@)),
            texts(keys@) == distinct(texts(names@)),
            pairs_view(pairs@) == start + all.take(i as int),
    {
        let mut key = prefix.to_owned();
        key.append(keys[i].as_str());
        let value = usize_text(count_text(names, keys[i].as_str()));
        assert(texts(keys@)[i as int] == keys@[i as int]@);
        assert(all[i as int] == (key@, value@));
        push_pair(pairs, key, value);
        assert(pairs_view(pairs@) =~= start + all.take(i + 1));
    }
    assert(all.take(keys@.len() as int) =~= all);
}

/// What is known of a trace batch.
pub open spec fn trace_info(b: TracesModel) -> Seq<(Seq<char>, Seq<char>)> {
    let scopes = all_span_scopes(b.resource_spans);
    let items = all_span_items(scopes);
    seq![("otlp.kind"@, "traces"@)] + seq![
        ("resources"@, decimal(b.resource_spans.len())),
    ] + list_when("service.name"@, distinct(all_span_services(b.resource_spans))) + list_when(
        "scope"@,
        listed(all_span_scope_names(scopes)),
    ) + seq![("spans"@, decimal(items.len()))] + list_when(
        "span.names"@,
        listed(span_names_of(items)),
    ) + counts_of("span.kind."@, span_kinds_of(items)) + counts_of(
        "span.status."@,
        status_codes_of(items),
    )
}

/// The status codes of spans that have one.
pub open spec fn status_codes_of(s: Seq<SpanModel>) -> Seq<Seq<char>>
    decreases s.len(),
{
    if s.len() == 0 {
        Seq::empty()
    } else {
        match s.last().status {
            Some(status) => status_codes_of(s.drop_last()).push(decimal_int(status.code as int)),
            None => status_codes_of(s.drop_last()),
        }
    }
}

fn status_codes(items: &Vec<&TraceSpan>) -> (r: Vec<String>)
    ensures
        texts(r@) == status_codes_of(span_items_view(items@)),
{
    let ghost all = span_items_view(items@);
    let mut out: Vec<String> = Vec::new();
    assert(all.take(0) =~= Seq::empty());
    assert(texts(out@) =~= Seq::empty());
    for i in 0..items.len()
        invariant
            all == span_items_view(items@),
            texts(out@) == status_codes_of(all.take(i as int)),
    {
        let ghost before = texts(out@);
        assert(all.take(i + 1).drop_last() =~= all.take(i as int));
        assert(all[i as int] == items@[i as int]@);
        if let Some(status) = &items[i].status {
            let text = i64_text(status.code as i64);
            out.push(text);
            assert(texts(out@) =~= before.push(text@));
        }
    }
    assert(all.take(items@.len() as int) =~= all);
    out
}

/// What is known of a trace batch.
pub fn trace_batch_info(batch: &TracesRequest) -> (r: Vec<(String, String)>)
    ensures
        pairs_view(r@) == trace_info(batch@),
{
    let scopes = span_scopes(batch);
    let items = span_items(&scopes);
    let services = distinct_texts(&span_services(batch));
    let scope_names = listed_texts(&span_scope_names(&scopes));
    let names = listed_texts(&span_names(&items));
    let mut entries: Vec<(String, String)> = Vec::new();
    push_pair(&mut entries, "otlp.kind".to_owned(), "traces".to_owned());
    assert(pairs_view(entries@) =~= seq![("otlp.kind"@, "traces"@)]);
    push_pair(&mut entries, "resources".to_owned(), usize_text(batch.resource_spans.len()));
    push_list_when(&mut entries, "service.name", &services);
    push_list_when(&mut entries, "scope", &scope_names);
    push_pair(&mut entries, "spans".to_owned(), usize_text(items.len()));
    push_list_when(&mut entries, "span.names", &names);
    push_counts(&mut entries, "span.kind.", &span_kinds(&items));
    push_counts(&mut entries, "span.status.", &status_codes(&items));
    entries
}

/// How many data points a metric has.
pub open spec fn data_len(d: MetricDataModel) -> nat {
    match d {
        MetricDataModel::Absent => 0,
        MetricDataModel::Gauge(p) => p.len(),
        MetricDataModel::Sum { is_monotonic, temporality, points } => points.len(),
        MetricDataModel::Histogram(p) => p.len(),
        MetricDataModel::ExpHistogram(p) => p.len(),
        MetricDataModel::Summary(p) => p.len(),
    }
}

fn count_points(d: &MetricData) -> (r: usize)
    ensures
        r == data_len(d@),
{
    match d {
        MetricData::Absent => 0,
        MetricData::Gauge(p) => p.len(),
        MetricData::Sum { is_monotonic: _, temporality: _, points } => points.len(),
        MetricData::Histogram(p) => p.len(),
        MetricData::ExpHistogram(p) => p.len(),
        MetricData::Summary(p) => p.len(),
    }
}

/// How many data points metrics have.
pub open spec fn total_points(m: Seq<MetricModel>) -> nat
    decreases m.len(),
{
    if m.len() == 0 {
        0
    } else {
        total_points(m.drop_last()) + data_len(m.last().data)
    }
}

/// How many data points metrics have.
pub fn count_all_points(items: &Vec<&MetricItem>) -> (r: u128)
    ensures
        r == total_points(metric_items_view(items@)),
{
    let ghost all = metric_items_view(items@);
    let mut n: u128 = 0;
    assert(all.take(0) =~= Seq::empty());
    for i in 0..items.len()
        invariant
            all == metric_items_view(items@),
            n <= i * 0xffff_ffff_ffff_ffff,
            n == total_points(all.take(i as int)),
    {
        assert(all.take(i + 1).drop_last() =~= all.take(i as int));
        assert(all[i as int] == items@[i as int]@);
        let own = count_points(&items[i].data);
        assert(i * 0xffff_ffff_ffff_ffff + 0xffff_ffff_ffff_ffff == (i + 1)
            * 0xffff_ffff_ffff_ffff) by (nonlinear_arith);
        assert((i + 1) * 0xffff_ffff_ffff_ffff <= 0xffff_ffff_ffff_ffff * 0xffff_ffff_ffff_ffff)
            by (nonlinear_arith)
            requires
                i + 1 <= 0xffff_ffff_ffff_ffff,
        ;
        n = n + own as u128;
    }
    assert(all.take(items@.len() as int) =~= all);
    n
}

/// The name of a value of a data point.
pub open spec fn point_key(prefix: Seq<char>, i: nat, what: Seq<char>) -> Seq<char> {
    prefix + ".dp"@ + decimal(i) + what
}

fn point_name(prefix: &str, i: usize, what: &str) -> (r: String)
    ensures
        r@ == point_key(prefix@, i as nat, what@),
{
    let mut t = prefix.to_owned();
    t.append(".dp");
    t.append(usize_text(i).as_str());
    t.append(what);
    t
}

/// What is known of the data point at `i`.
pub open spec fn gauge_point(prefix: Seq<char>, i: nat, p: NumberPointModel) -> Seq<
    (Seq<char>, Seq<char>),
> {
    seq![(point_key(prefix, i, ".value"@), value_or_nothing(p.value))] + seq![(point_key(prefix, i, ".time"@), timestamp_text(p.time_unix_nano))]
}

/// What is known of data points.
pub open spec fn gauge_info(prefix: Seq<char>, points: Seq<NumberPointModel>) -> Seq<
    (Seq<char>, Seq<char>),
>
    decreases points.len(),
{
    if points.len() == 0 {
        Seq::empty()
    } else {
        gauge_info(prefix, points.drop_last()) + gauge_point(
            prefix,
            (points.len() - 1) as nat,
            points.last(),
        )
    }
}

fn push_gauge_info(pairs: &mut Vec<(String, String)>, prefix: &str, points: &Vec<NumberPoint>)
    ensures
        pairs_view(final(pairs)@) == pairs_view(old(pairs)@) + gauge_info(
            prefix@,
            points@.map_values(|x: NumberPoint| x@),
        ),
{
    let ghost start = pairs_view(pairs@);
    let ghost all = points@.map_values(|x: NumberPoint| x@);
    assert(all.take(0) =~= Seq::empty());
    assert(start + Seq::<(Seq<char>, Seq<char>)>::empty() =~= start);
    for i in 0..points.len()
        invariant
            all == points@.map_values(|x: NumberPoint| x@),
            pairs_view(pairs@) == start + gauge_info(prefix@, all.take(i as int)),
    {
        let ghost before = gauge_info(prefix@, all.take(i as int));
        assert(all.take(i + 1).drop_last() =~= all.take(i as int));
        assert(all[i as int] == points@[i as int]@);
        push_pair(pairs, point_name(prefix, i, ".value"), format_point(&points[i]));
        push_pair(pairs, point_name(prefix, i, ".time"), format_timestamp(points[i].time_unix_nano));
        assert(pairs_view(pairs@) =~= start + (before + gauge_point(
            prefix@,
            i as nat,
            all[i as int],
        )));
    }
    assert(all.take(points@.len() as int) =~= all);
}

/// What is known of the data point at `i`.
pub open spec fn sum_point(prefix: Seq<char>, i: nat, p: NumberPointModel) -> Seq<
    (Seq<char>, Seq<char>),
> {
    seq![(point_key(prefix, i, ".value"@), value_or_nothing(p.value))] + seq![(point_key(prefix, i, ".time"@), timestamp_text(p.time_unix_nano))] + seq![(point_key(prefix, i, ".start_time"@), timestamp_text(p.start_time_unix_nano))]
}

/// What is known of data points.
pub open spec fn sum_info(prefix: Seq<char>, points: Seq<NumberPointModel>) -> Seq<
    (Seq<char>, Seq<char>),
>
    decreases points.len(),
{
    if points.len() == 0 {
        Seq::empty()
    } else {
        sum_info(prefix, points.drop_last()) + sum_point(
            prefix,
            (points.len() - 1) as nat,
            points.last(),
        )
    }
}

fn push_sum_info(pairs: &mut Vec<(String, String)>, prefix: &str, points: &Vec<NumberPoint>)
    ensures
        pairs_view(final(pairs)@) == pairs_view(old(pairs)@) + sum_info(
            prefix@,
            points@.map_values(|x: NumberPoint| x@),
        ),
{
    let ghost start = pairs_view(pairs@);
    let ghost all = points@.map_values(|x: NumberPoint| x@);
    assert(all.take(0) =~= Seq::empty());
    assert(start + Seq::<(Seq<char>, Seq<char>)>::empty() =~= start);
    for i in 0..points.len()
        invariant
            all == points@.map_values(|x: NumberPoint| x@),
            pairs_view(pairs@) == start + sum_info(prefix@, all.take(i as int)),
    {
        let ghost before = sum_info(prefix@, all.take(i as int));
        assert(all.take(i + 1).drop_last() =~= all.take(i as int));
        assert(all[i as int] == points@[i as int]@);
        push_pair(pairs, point_name(prefix, i, ".value"), format_point(&points[i]));
        push_pair(pairs, point_name(prefix, i, ".time"), format_timestamp(points[i].time_unix_nano));
        push_pair(pairs, point_name(prefix, i, ".start_time"), format_timestamp(points[i].start_time_unix_nano));
        assert(pairs_view(pairs@) =~= start + (before + sum_point(
            prefix@,
            i as nat,
            all[i as int],
        )));
    }
    assert(all.take(points@.len() as int) =~= all);
}

/// What is known of the data point at `i`.
pub open spec fn histogram_point(prefix: Seq<char>, i: nat, p: HistogramPointModel) -> Seq<
    (Seq<char>, Seq<char>),
> {
    seq![(point_key(prefix, i, ".count"@), decimal(p.count as nat))] + seq![(point_key(prefix, i, ".time"@), timestamp_text(p.time_unix_nano))]
}

/// What is known of data points.
pub open spec fn histogram_info(prefix: Seq<char>, points: Seq<HistogramPointModel>) -> Seq<
    (Seq<char>, Seq<char>),
>
    decreases points.len(),
{
    if points.len() == 0 {
        Seq::empty()
    } else {
        histogram_info(prefix, points.drop_last()) + histogram_point(
            prefix,
            (points.len() - 1) as nat,
            points.last(),
        )
    }
}

fn push_histogram_info(pairs: &mut Vec<(String, String)>, prefix: &str, points: &Vec<HistogramPoint>)
    ensures
        pairs_view(final(pairs)@) == pairs_view(old(pairs)@) + histogram_info(
            prefix@,
            points@.map_values(|x: HistogramPoint| x@),
        ),
{
    let ghost start = pairs_view(pairs@);
    let ghost all = points@.map_values(|x: HistogramPoint| x@);
    assert(all.take(0) =~= Seq::empty());
    assert(start + Seq::<(Seq<char>, Seq<char>)>::empty() =~= start);
    for i in 0..points.len()
        invariant
            all == points@.map_values(|x: HistogramPoint| x@),
            pairs_view(pairs@) == start + histogram_info(prefix@, all.take(i as int)),
    {
        let ghost before = histogram_info(prefix@, all.take(i as int));
        assert(all.take(i + 1).drop_last() =~= all.take(i as int));
        assert(all[i as int] == points@[i as int]@);
        push_pair(pairs, point_name(prefix, i, ".count"), u64_text(points[i].count));
        push_pair(pairs, point_name(prefix, i, ".time"), format_timestamp(points[i].time_unix_nano));
        assert(pairs_view(pairs@) =~= start + (before + histogram_point(
            prefix@,
            i as nat,
            all[i as int],
        )));
    }
    assert(all.take(points@.len() as int) =~= all);
}

/// What is known of the data point at `i`.
pub open spec fn exp_point(prefix: Seq<char>, i: nat, p: ExpHistogramPointModel) -> Seq<
    (Seq<char>, Seq<char>),
> {
    seq![(point_key(prefix, i, ".count"@), decimal(p.count as nat))] + seq![(point_key(prefix, i, ".time"@), timestamp_text(p.time_unix_nano))]
}

/// What is known of data points.
pub open spec fn exp_info(prefix: Seq<char>, points: Seq<ExpHistogramPointModel>) -> Seq<
    (Seq<char>, Seq<char>),
>
    decreases points.len(),
{
    if points.len() == 0 {
        Seq::empty()
    } else {
        exp_info(prefix, points.drop_last()) + exp_point(
            prefix,
            (points.len() - 1) as nat,
            points.last(),
        )
    }
}

fn push_exp_info(pairs: &mut Vec<(String, String)>, prefix: &str, points: &Vec<ExpHistogramPoint>)
    ensures
        pairs_view(final(pairs)@) == pairs_view(old(pairs)@) + exp_info(
            prefix@,
            points@.map_values(|x: ExpHistogramPoint| x@),
        ),
{
    let ghost start = pairs_view(pairs@);
    let ghost all = points@.map_values(|x: ExpHistogramPoint| x@);
    assert(all.take(0) =~= Seq::empty());
    assert(start + Seq::<(Seq<char>, Seq<char>)>::empty() =~= start);
    for i in 0..points.len()
        invariant
            all == points@.map_values(|x: ExpHistogramPoint| x@),
            pairs_view(pairs@) == start + exp_info(prefix@, all.take(i as int)),
    {
        let ghost before = exp_info(prefix@, all.take(i as int));
        assert(all.take(i + 1).drop_last() =~= all.take(i as int));
        assert(all[i as int] == points@[i as int]@);
        push_pair(pairs, point_name(prefix, i, ".count"), u64_text(points[i].count));
        push_pair(pairs, point_name(prefix, i, ".time"), format_timestamp(points[i].time_unix_nano));
        assert(pairs_view(pairs@) =~= start + (before + exp_point(
            prefix@,
            i as nat,
            all[i as int],
        )));
    }
    assert(all.take(points@.len() as int) =~= all);
}

/// What is known of the data point at `i`.
pub open spec fn summary_point(prefix: Seq<char>, i: nat, p: SummaryPointModel) -> Seq<
    (Seq<char>, Seq<char>),
> {
    seq![(point_key(prefix, i, ".count"@), decimal(p.count as nat))] + seq![(point_key(prefix, i, ".sum"@), p.sum)] + seq![(point_key(prefix, i, ".time"@), timestamp_text(p.time_unix_nano))]
}

/// What is known of data points.
pub open spec fn summary_info(prefix: Seq<char>, points: Seq<SummaryPointModel>) -> Seq<
    (Seq<char>, Seq<char>),
>
    decreases points.len(),
{
    if points.len() == 0 {
        Seq::empty()
    } else {
        summary_info(prefix, points.drop_last()) + summary_point(
            prefix,
            (points.len() - 1) as nat,
            points.last(),
        )
    }
}

fn push_summary_info(pairs: &mut Vec<(String, String)>, prefix: &str, points: &Vec<SummaryPoint>)
    ensures
        pairs_view(final(pairs)@) == pairs_view(old(pairs)@) + summary_info(
            prefix@,
            points@.map_values(|x: SummaryPoint| x@),
        ),
{
    let ghost start = pairs_view(pairs@);
    let ghost all = points@.map_values(|x: SummaryPoint| x@);
    assert(all.take(0) =~= Seq::empty());
    assert(start + Seq::<(Seq<char>, Seq<char>)>::empty() =~= start);
    for i in 0..points.len()
        invariant
            all == points@.map_values(|x: SummaryPoint| x@),
            pairs_view(pairs@) == start + summary_info(prefix@, all.take(i as int)),
    {
        let ghost before = summary_info(prefix@, all.take(i as int));
        assert(all.take(i + 1).drop_last() =~= all.take(i as int));
        assert(all[i as int] == points@[i as int]@);
        push_pair(pairs, point_name(prefix, i, ".count"), u64_text(points[i].count));
        push_pair(pairs, point_name(prefix, i, ".sum"), points[i].sum.clone());
        push_pair(pairs, point_name(prefix, i, ".time"), format_timestamp(points[i].time_unix_nano));
        assert(pairs_view(pairs@) =~= start + (before + summary_point(
            prefix@,
            i as nat,
            all[i as int],
        )));
    }
    assert(all.take(points@.len() as int) =~= all);
}


/// What is known of the data points of a metric.
pub open spec fn data_info(prefix: Seq<char>, d: MetricDataModel) -> Seq<(Seq<char>, Seq<char>)> {
    match d {
        MetricDataModel::Absent => Seq::empty(),
        MetricDataModel::Gauge(p) => seq![(prefix + ".kind"@, "Gauge"@)] + gauge_info(prefix, p),
        MetricDataModel::Sum { is_monotonic, temporality, points } => seq![
            (prefix + ".kind"@, "Sum"@),
        ] + seq![(prefix + ".monotonic"@, bool_text(is_monotonic))] + seq![
            (prefix + ".temporality"@, decimal_int(temporality as int)),
        ] + sum_info(prefix, points),
        MetricDataModel::Histogram(p) => seq![(prefix + ".kind"@, "Histogram"@)] + histogram_info(
            prefix,
            p,
        ),
        MetricDataModel::ExpHistogram(p) => seq![(prefix + ".kind"@, "ExpHistogram"@)] + exp_info(
            prefix,
            p,
        ),
        MetricDataModel::Summary(p) => seq![(prefix + ".kind"@, "Summary"@)] + summary_info(
            prefix,
            p,
        ),
    }
}

fn name_with(prefix: &str, suffix: &str) -> (r: String)
    ensures
        r@ == prefix@ + suffix@,
{
    let mut t = prefix.to_owned();
    t.append(suffix);
    t
}

fn push_data_info(pairs: &mut Vec<(String, String)>, prefix: &str, data: &MetricData)
    ensures
        pairs_view(final(pairs)@) == pairs_view(old(pairs)@) + data_info(prefix@, data@),
{
    let ghost start = pairs_view(pairs@);
    match data {
        MetricData::Absent => {
            assert(start + Seq::<(Seq<char>, Seq<char>)>::empty() =~= start);
        },
        MetricData::Gauge(p) => {
            push_pair(pairs, name_with(prefix, ".kind"), "Gauge".to_owned());
            push_gauge_info(pairs, prefix, p);
            assert(pairs_view(pairs@) =~= start + data_info(prefix@, data@));
        },
        MetricData::Sum { is_monotonic, temporality, points } => {
            push_pair(pairs, name_with(prefix, ".kind"), "Sum".to_owned());
            let flag = if *is_monotonic {
                "true".to_owned()
            } else {
                "false".to_owned()
            };
            push_pair(pairs, name_with(prefix, ".monotonic"), flag);
            push_pair(pairs, name_with(prefix, ".temporality"), i64_text(*temporality as i64));
            push_sum_info(pairs, prefix, points);
            assert(pairs_view(pairs@) =~= start + data_info(prefix@, data@));
        },
        MetricData::Histogram(p) => {
            push_pair(pairs, name_with(prefix, ".kind"), "Histogram".to_owned());
            push_histogram_info(pairs, prefix, p);
            assert(pairs_view(pairs@) =~= start + data_info(prefix@, data@));
        },
        MetricData::ExpHistogram(p) => {
            push_pair(pairs, name_with(prefix, ".kind"), "ExpHistogram".to_owned());
            push_exp_info(pairs, prefix, p);
            assert(pairs_view(pairs@) =~= start + data_info(prefix@, data@));
        },
        MetricData::Summary(p) => {
            push_pair(pairs, name_with(prefix, ".kind"), "Summary".to_owned());
            push_summary_info(pairs, prefix, p);
            assert(pairs_view(pairs@) =~= start + data_info(prefix@, data@));
        },
    }
}

/// What is known of a metric.
pub open spec fn metric_info(m: MetricModel) -> Seq<(Seq<char>, Seq<char>)> {
    let prefix = "metric."@ + m.name;
    seq![(prefix + ".unit"@, m.unit)] + pair_when(
        m.description.len() > 0,
        prefix + ".description"@,
        m.description,
    ) + data_info(prefix, m.data)
}

/// What is known of metrics.
pub open spec fn all_metric_info(m: Seq<MetricModel>) -> Seq<(Seq<char>, Seq<char>)>
    decreases m.len(),
{
    if m.len() == 0 {
        Seq::empty()
    } else {
        all_metric_info(m.drop_last()) + metric_info(m.last())
    }
}

fn push_metric_info(pairs: &mut Vec<(String, String)>, m: &MetricItem)
    ensures
        pairs_view(final(pairs)@) == pairs_view(old(pairs)@) + metric_info(m@),
{
    let ghost start = pairs_view(pairs@);
    let prefix = name_with("metric.", m.name.as_str());
    push_pair(pairs, name_with(prefix.as_str(), ".unit"), m.unit.clone());
    push_pair_when(
        pairs,
        !m.description.as_str().is_empty(),
        name_with(prefix.as_str(), ".description"),
        m.description.clone(),
    );
    push_data_info(pairs, prefix.as_str(), &m.data);
    assert(pairs_view(pairs@) =~= start + metric_info(m@));
}

/// What is known of a metric batch.
pub open spec fn metrics_info(b: MetricsModel) -> Seq<(Seq<char>, Seq<char>)> {
    let scopes = all_metric_scopes(b.resource_metrics);
    let items = all_metric_items(scopes);
    seq![("otlp.kind"@, "metrics"@)] + seq![
        ("resources"@, decimal(b.resource_metrics.len())),
    ] + list_when("service.name"@, distinct(all_metric_services(b.resource_metrics))) + list_when(
        "scope"@,
        listed(all_metric_scope_names(scopes)),
    ) + seq![("metrics"@, decimal(items.len()))] + seq![
        ("datapoints"@, decimal(total_points(items))),
    ] + list_when("metric.names"@, listed(metric_names_of(items))) + all_metric_info(items)
}

/// What is known of a metric batch.
pub fn metrics_batch_info(batch: &MetricsRequest) -> (r: Vec<(String, String)>)
    ensures
        pairs_view(r@) == metrics_info(batch@),
{
    let scopes = metric_scopes(batch);
    let items = metric_items(&scopes);
    let ghost all = metric_items_view(items@);
    let services = distinct_texts(&metric_services(batch));
    let scope_names = listed_texts(&metric_scope_names(&scopes));
    let names = listed_texts(&metric_names(&items));
    let mut entries: Vec<(String, String)> = Vec::new();
    push_pair(&mut entries, "otlp.kind".to_owned(), "metrics".to_owned());
    assert(pairs_view(entries@) =~= seq![("otlp.kind"@, "metrics"@)]);
    push_pair(&mut entries, "resources".to_owned(), usize_text(batch.resource_metrics.len()));
    push_list_when(&mut entries, "service.name", &services);
    push_list_when(&mut entries, "scope", &scope_names);
    push_pair(&mut entries, "metrics".to_owned(), usize_text(items.len()));
    push_pair(&mut entries, "datapoints".to_owned(), u128_text(count_all_points(&items)));
    push_list_when(&mut entries, "metric.names", &names);
    let ghost head = pairs_view(entries@);
    assert(all.take(0) =~= Seq::empty());
    assert(head + Seq::<(Seq<char>, Seq<char>)>::empty() =~= head);
    for i in 0..items.len()
        invariant
            all == metric_items_view(items@),
            pairs_view(entries@) == head + all_metric_info(all.take(i as int)),
    {
        let ghost before = all_metric_info(all.take(i as int));
        assert(all.take(i + 1).drop_last() =~= all.take(i as int));
        assert(all[i as int] == items@[i as int]@);
        push_metric_info(&mut entries, items[i]);
        assert((head + before) + metric_info(all[i as int]) =~= head + (before + metric_info(
            all[i as int],
        )));
    }
    assert(all.take(items@.len() as int) =~= all);
    entries
}

/// What is said of a payload that cannot be read.
pub open spec fn unreadable() -> Seq<(Seq<char>, Seq<char>)> {
    seq![("otlp"@, "decode failed"@)]
}

fn unreadable_info() -> (r: Vec<(String, String)>)
    ensures
        pairs_view(r@) == unreadable(),
{
    let mut r: Vec<(String, String)> = Vec::new();
    push_pair(&mut r, "otlp".to_owned(), "decode failed".to_owned());
    assert(pairs_view(r@) =~= unreadable());
    r
}

/// What is known of a payload.
pub open spec fn payload_info(t: RecordType, payload: Seq<u8>) -> Seq<(Seq<char>, Seq<char>)> {
    match t {
        RecordType::Logs => match logs_of(payload) {
            Some(b) => log_info(b),
            None => unreadable(),
        },
        RecordType::Metrics => match metrics_of(payload) {
            Some(b) => metrics_info(b),
            None => unreadable(),
        },
        RecordType::Traces => match traces_of(payload) {
            Some(b) => trace_info(b),
            None => unreadable(),
        },
        RecordType::Events => Seq::empty(),
    }
}

/// What is known of a payload.
pub fn render_payload_info(t: RecordType, payload: &[u8]) -> (r: Vec<(String, String)>)
    ensures
        pairs_view(r@) == payload_info(t, payload@),
{
    match t {
        RecordType::Logs => match decode_logs(payload) {
            Some(b) => log_batch_info(&b),
            None => unreadable_info(),
        },
        RecordType::Metrics => match decode_metrics(payload) {
            Some(b) => metrics_batch_info(&b),
            None => unreadable_info(),
        },
        RecordType::Traces => match decode_traces(payload) {
            Some(b) => trace_batch_info(&b),
            None => unreadable_info(),
        },
        RecordType::Events => {
            let r: Vec<(String, String)> = Vec::new();
            assert(pairs_view(r@) =~= Seq::empty());
            r
        },
    }
}

/// What is known of a record.
pub open spec fn record_info(d: DetailModel) -> Seq<(Seq<char>, Seq<char>)> {
    seq![("type"@, kind_label(d.meta.record_type))] + seq![
        ("seq"@, decimal(d.meta.seq as nat)),
    ] + seq![("ts_unix_ns"@, decimal(d.meta.ts_unix_ns as nat))] + seq![
        ("time"@, timestamp_text(d.meta.ts_unix_ns)),
    ] + seq![("payload_bytes"@, decimal(d.meta.payload_len as nat))] + payload_info(
        d.meta.record_type,
        d.payload,
    )
}

/// What is known of a record, as names and values.
pub fn render_modal_info_entries(detail: &DetailRecord) -> (r: Vec<(String, String)>)
    ensures
        pairs_view(r@) == record_info(detail@),
{
    let mut lines: Vec<(String, String)> = Vec::new();
    push_pair(
        &mut lines,
        "type".to_owned(),
        record_kind_label(detail.meta.record_type).to_owned(),
    );
    push_pair(&mut lines, "seq".to_owned(), u64_text(detail.meta.seq));
    push_pair(&mut lines, "ts_unix_ns".to_owned(), u64_text(detail.meta.ts_unix_ns));
    push_pair(&mut lines, "time".to_owned(), format_timestamp(detail.meta.ts_unix_ns));
    push_pair(&mut lines, "payload_bytes".to_owned(), u64_text(detail.meta.payload_len));
    let mut more = render_payload_info(detail.meta.record_type, &detail.payload);
    let ghost head = pairs_view(lines@);
    let ghost added = pairs_view(more@);
    lines.append(&mut more);
    assert(pairs_view(lines@) =~= head + added);
    assert(pairs_view(lines@) =~= record_info(detail@));
    lines
}

/// Of each kind of attribute no more rows are shown than the limit allows, and
/// every row is either shown or counted.
pub proof fn law_rows_are_shown_or_counted(
    kind: Seq<char>,
    rows: Seq<(Seq<char>, Seq<char>, Seq<char>)>,
)
    ensures
        shown_rows(kind, rows).len() <= MODAL_ATTR_ENTRY_LIMIT_PER_KIND + 1,
        rows.len() <= MODAL_ATTR_ENTRY_LIMIT_PER_KIND ==> shown_rows(kind, rows).len()
            == rows.len(),
        rows.len() > MODAL_ATTR_ENTRY_LIMIT_PER_KIND ==> shown_rows(kind, rows).last() == (
            kind + ".attrs.more"@,
            decimal((rows.len() - MODAL_ATTR_ENTRY_LIMIT_PER_KIND) as nat) + " not shown"@,
        ),
{
}

} // verus!
