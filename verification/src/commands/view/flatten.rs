//! The contents of batches as flat lists.
use vstd::prelude::*;

use crate::dataset_index::service_values;
use crate::dedup::unpack::{resource_attrs_of, scope_name_of};
use crate::otlp::{
    attrs_view, AttrValue, LogItem, LogRecordModel, LogsRequest, MetricItem, MetricModel,
    MetricsRequest, ResourceInfo, ResourceLogsModel, ResourceMetricsModel, ResourceSpansModel,
    ScopeLogSet, ScopeLogsModel, ScopeMetricSet, ScopeMetricsModel, ScopeSpanSet, ScopeSpansModel,
    SpanModel, TraceSpan, TracesRequest,
};
use crate::text::strings::{str_eq, texts};

verus! {

/// Adds the services of a resource.
fn push_services(out: &mut Vec<String>, resource: &Option<ResourceInfo>)
    ensures
        texts(final(out)@) == texts(old(out)@) + service_values(
            resource_attrs_of(
                match *resource {
                    Some(r) => Some(r@),
                    None => None,
                },
            ),
        ),
{
    let ghost start = texts(out@);
    if let Some(r) = resource {
        let ghost a = attrs_view(r.attributes@);
        assert(a.take(0) =~= Seq::empty());
        assert(start + Seq::<Seq<char>>::empty() =~= start);
        for i in 0..r.attributes.len()
            invariant
                a == attrs_view(r.attributes@),
                texts(out@) == start + service_values(a.take(i as int)),
        {
            let ghost before = service_values(a.take(i as int));
            let ghost now = texts(out@);
            assert(a.take(i + 1).drop_last() =~= a.take(i as int));
            assert(a[i as int] == r.attributes@[i as int]@);
            if str_eq(r.attributes[i].key.as_str(), "service.name") {
                if let Some(AttrValue::Str(s)) = &r.attributes[i].value {
                    out.push(s.clone());
                    assert(texts(out@) =~= now.push(s@));
                    assert(now.push(s@) =~= start + before.push(s@));
                }
            }
        }
        assert(a.take(r.attributes@.len() as int) =~= a);
    } else {
        assert(service_values(Seq::empty()) =~= Seq::empty());
        assert(start + Seq::<Seq<char>>::empty() =~= start);
    }
}

/// The scopes of all resources.
pub open spec fn all_log_scopes(r: Seq<ResourceLogsModel>) -> Seq<ScopeLogsModel>
    decreases r.len(),
{
    if r.len() == 0 {
        Seq::empty()
    } else {
        all_log_scopes(r.drop_last()) + r.last().scope_logs
    }
}

/// The items of all scopes.
pub open spec fn all_log_items(s: Seq<ScopeLogsModel>) -> Seq<LogRecordModel>
    decreases s.len(),
{
    if s.len() == 0 {
        Seq::empty()
    } else {
        all_log_items(s.drop_last()) + s.last().log_records
    }
}

/// The models of scopes.
pub open spec fn log_scopes_view(s: Seq<&ScopeLogSet>) -> Seq<ScopeLogsModel> {
    s.map_values(|x: &ScopeLogSet| x@)
}

/// The models of items.
pub open spec fn log_items_view(s: Seq<&LogItem>) -> Seq<LogRecordModel> {
    s.map_values(|x: &LogItem| x@)
}

/// The scopes of all resources.
pub fn log_scopes<'a>(batch: &'a LogsRequest) -> (r: Vec<&'a ScopeLogSet>)
    ensures
        log_scopes_view(r@) == all_log_scopes(batch@.resource_logs),
{
    let ghost all = batch@.resource_logs;
    let mut out: Vec<&'a ScopeLogSet> = Vec::new();
    assert(all.take(0) =~= Seq::empty());
    assert(log_scopes_view(out@) =~= Seq::empty());
    for i in 0..batch.resource_logs.len()
        invariant
            all == batch@.resource_logs,
            log_scopes_view(out@) == all_log_scopes(all.take(i as int)),
    {
        let set = &batch.resource_logs[i];
        let ghost before = log_scopes_view(out@);
        let ghost own = set@.scope_logs;
        assert(all.take(i + 1).drop_last() =~= all.take(i as int));
        assert(all[i as int] == set@);
        assert(before + own.take(0) =~= before);
        for j in 0..set.scope_logs.len()
            invariant
                own == set@.scope_logs,
                log_scopes_view(out@) == before + own.take(j as int),
        {
            let ghost now = log_scopes_view(out@);
            let one = &set.scope_logs[j];
            out.push(one);
            assert(own[j as int] == one@);
            assert(log_scopes_view(out@) =~= now.push(one@));
            assert(now.push(one@) =~= before + own.take(j + 1));
        }
        assert(own.take(set.scope_logs@.len() as int) =~= own);
    }
    assert(all.take(batch.resource_logs@.len() as int) =~= all);
    out
}

/// The items of all scopes.
pub fn log_items<'a>(scopes: &Vec<&'a ScopeLogSet>) -> (r: Vec<&'a LogItem>)
    ensures
        log_items_view(r@) == all_log_items(log_scopes_view(scopes@)),
{
    let ghost all = log_scopes_view(scopes@);
    let mut out: Vec<&'a LogItem> = Vec::new();
    assert(all.take(0) =~= Seq::empty());
    assert(log_items_view(out@) =~= Seq::empty());
    for i in 0..scopes.len()
        invariant
            all == log_scopes_view(scopes@),
            log_items_view(out@) == all_log_items(all.take(i as int)),
    {
        let set: &'a ScopeLogSet = scopes[i];
        let ghost before = log_items_view(out@);
        let ghost own = set@.log_records;
        assert(all.take(i + 1).drop_last() =~= all.take(i as int));
        assert(all[i as int] == set@);
        assert(before + own.take(0) =~= before);
        for j in 0..set.log_records.len()
            invariant
                own == set@.log_records,
                log_items_view(out@) == before + own.take(j as int),
        {
            let ghost now = log_items_view(out@);
            let one = &set.log_records[j];
            out.push(one);
            assert(own[j as int] == one@);
            assert(log_items_view(out@) =~= now.push(one@));
            assert(now.push(one@) =~= before + own.take(j + 1));
        }
        assert(own.take(set.log_records@.len() as int) =~= own);
    }
    assert(all.take(scopes@.len() as int) =~= all);
    out
}

/// The services of all resources.
pub open spec fn all_log_services(r: Seq<ResourceLogsModel>) -> Seq<Seq<char>>
    decreases r.len(),
{
    if r.len() == 0 {
        Seq::empty()
    } else {
        all_log_services(r.drop_last()) + service_values(resource_attrs_of(r.last().resource))
    }
}

/// The services of all resources.
pub fn log_services(batch: &LogsRequest) -> (r: Vec<String>)
    ensures
        texts(r@) == all_log_services(batch@.resource_logs),
{
    let ghost all = batch@.resource_logs;
    let mut out: Vec<String> = Vec::new();
    assert(all.take(0) =~= Seq::empty());
    assert(texts(out@) =~= Seq::empty());
    for i in 0..batch.resource_logs.len()
        invariant
            all == batch@.resource_logs,
            texts(out@) == all_log_services(all.take(i as int)),
    {
        assert(all.take(i + 1).drop_last() =~= all.take(i as int));
        assert(all[i as int] == batch.resource_logs@[i as int]@);
        push_services(&mut out, &batch.resource_logs[i].resource);
    }
    assert(all.take(batch.resource_logs@.len() as int) =~= all);
    out
}

/// The names of scopes.
pub open spec fn all_log_scope_names(s: Seq<ScopeLogsModel>) -> Seq<Seq<char>> {
    s.map_values(|x: ScopeLogsModel| scope_name_of(x.scope))
}

/// The names of scopes.
pub fn log_scope_names(scopes: &Vec<&ScopeLogSet>) -> (r: Vec<String>)
    ensures
        texts(r@) == all_log_scope_names(log_scopes_view(scopes@)),
{
    let ghost all = all_log_scope_names(log_scopes_view(scopes@));
    let mut out: Vec<String> = Vec::new();
    for i in 0..scopes.len()
        invariant
            all == all_log_scope_names(log_scopes_view(scopes@)),
            texts(out@) == all.take(i as int),
    {
        let ghost before = texts(out@);
        let name = match &scopes[i].scope {
            Some(s) => s.name.clone(),
            None => String::new(),
        };
        assert(log_scopes_view(scopes@)[i as int] == scopes@[i as int]@);
        assert(all[i as int] =~= name@);
        out.push(name);
        assert(texts(out@) =~= before.push(name@));
        assert(texts(out@) =~= all.take(i + 1));
    }
    assert(all.take(scopes@.len() as int) =~= all);
    out
}

/// The scopes of all resources.
pub open spec fn all_span_scopes(r: Seq<ResourceSpansModel>) -> Seq<ScopeSpansModel>
    decreases r.len(),
{
    if r.len() == 0 {
        Seq::empty()
    } else {
        all_span_scopes(r.drop_last()) + r.last().scope_spans
    }
}

/// The items of all scopes.
pub open spec fn all_span_items(s: Seq<ScopeSpansModel>) -> Seq<SpanModel>
    decreases s.len(),
{
    if s.len() == 0 {
        Seq::empty()
    } else {
        all_span_items(s.drop_last()) + s.last().spans
    }
}

/// The models of scopes.
pub open spec fn span_scopes_view(s: Seq<&ScopeSpanSet>) -> Seq<ScopeSpansModel> {
    s.map_values(|x: &ScopeSpanSet| x@)
}

/// The models of items.
pub open spec fn span_items_view(s: Seq<&TraceSpan>) -> Seq<SpanModel> {
    s.map_values(|x: &TraceSpan| x@)
}

/// The scopes of all resources.
pub fn span_scopes<'a>(batch: &'a TracesRequest) -> (r: Vec<&'a ScopeSpanSet>)
    ensures
        span_scopes_view(r@) == all_span_scopes(batch@.resource_spans),
{
    let ghost all = batch@.resource_spans;
    let mut out: Vec<&'a ScopeSpanSet> = Vec::new();
    assert(all.take(0) =~= Seq::empty());
    assert(span_scopes_view(out@) =~= Seq::empty());
    for i in 0..batch.resource_spans.len()
        invariant
            all == batch@.resource_spans,
            span_scopes_view(out@) == all_span_scopes(all.take(i as int)),
    {
        let set = &batch.resource_spans[i];
        let ghost before = span_scopes_view(out@);
        let ghost own = set@.scope_spans;
        assert(all.take(i + 1).drop_last() =~= all.take(i as int));
        assert(all[i as int] == set@);
        assert(before + own.take(0) =~= before);
        for j in 0..set.scope_spans.len()
            invariant
                own == set@.scope_spans,
                span_scopes_view(out@) == before + own.take(j as int),
        {
            let ghost now = span_scopes_view(out@);
            let one = &set.scope_spans[j];
            out.push(one);
            assert(own[j as int] == one@);
            assert(span_scopes_view(out@) =~= now.push(one@));
            assert(now.push(one@) =~= before + own.take(j + 1));
        }
        assert(own.take(set.scope_spans@.len() as int) =~= own);
    }
    assert(all.take(batch.resource_spans@.len() as int) =~= all);
    out
}

/// The items of all scopes.
pub fn span_items<'a>(scopes: &Vec<&'a ScopeSpanSet>) -> (r: Vec<&'a TraceSpan>)
    ensures
        span_items_view(r@) == all_span_items(span_scopes_view(scopes@)),
{
    let ghost all = span_scopes_view(scopes@);
    let mut out: Vec<&'a TraceSpan> = Vec::new();
    assert(all.take(0) =~= Seq::empty());
    assert(span_items_view(out@) =~= Seq::empty());
    for i in 0..scopes.len()
        invariant
            all == span_scopes_view(scopes@),
            span_items_view(out@) == all_span_items(all.take(i as int)),
    {
        let set: &'a ScopeSpanSet = scopes[i];
        let ghost before = span_items_view(out@);
        let ghost own = set@.spans;
        assert(all.take(i + 1).drop_last() =~= all.take(i as int));
        assert(all[i as int] == set@);
        assert(before + own.take(0) =~= before);
        for j in 0..set.spans.len()
            invariant
                own == set@.spans,
                span_items_view(out@) == before + own.take(j as int),
        {
            let ghost now = span_items_view(out@);
            let one = &set.spans[j];
            out.push(one);
            assert(own[j as int] == one@);
            assert(span_items_view(out@) =~= now.push(one@));
            assert(now.push(one@) =~= before + own.take(j + 1));
        }
        assert(own.take(set.spans@.len() as int) =~= own);
    }
    assert(all.take(scopes@.len() as int) =~= all);
    out
}

/// The services of all resources.
pub open spec fn all_span_services(r: Seq<ResourceSpansModel>) -> Seq<Seq<char>>
    decreases r.len(),
{
    if r.len() == 0 {
        Seq::empty()
    } else {
        all_span_services(r.drop_last()) + service_values(resource_attrs_of(r.last().resource))
    }
}

/// The services of all resources.
pub fn span_services(batch: &TracesRequest) -> (r: Vec<String>)
    ensures
        texts(r@) == all_span_services(batch@.resource_spans),
{
    let ghost all = batch@.resource_spans;
    let mut out: Vec<String> = Vec::new();
    assert(all.take(0) =~= Seq::empty());
    assert(texts(out@) =~= Seq::empty());
    for i in 0..batch.resource_spans.len()
        invariant
            all == batch@.resource_spans,
            texts(out@) == all_span_services(all.take(i as int)),
    {
        assert(all.take(i + 1).drop_last() =~= all.take(i as int));
        assert(all[i as int] == batch.resource_spans@[i as int]@);
        push_services(&mut out, &batch.resource_spans[i].resource);
    }
    assert(all.take(batch.resource_spans@.len() as int) =~= all);
    out
}

/// The names of scopes.
pub open spec fn all_span_scope_names(s: Seq<ScopeSpansModel>) -> Seq<Seq<char>> {
    s.map_values(|x: ScopeSpansModel| scope_name_of(x.scope))
}

/// The names of scopes.
pub fn span_scope_names(scopes: &Vec<&ScopeSpanSet>) -> (r: Vec<String>)
    ensures
        texts(r@) == all_span_scope_names(span_scopes_view(scopes@)),
{
    let ghost all = all_span_scope_names(span_scopes_view(scopes@));
    let mut out: Vec<String> = Vec::new();
    for i in 0..scopes.len()
        invariant
            all == all_span_scope_names(span_scopes_view(scopes@)),
            texts(out@) == all.take(i as int),
    {
        let ghost before = texts(out@);
        let name = match &scopes[i].scope {
            Some(s) => s.name.clone(),
            None => String::new(),
        };
        assert(span_scopes_view(scopes@)[i as int] == scopes@[i as int]@);
        assert(all[i as int] =~= name@);
        out.push(name);
        assert(texts(out@) =~= before.push(name@));
        assert(texts(out@) =~= all.take(i + 1));
    }
    assert(all.take(scopes@.len() as int) =~= all);
    out
}

/// The scopes of all resources.
pub open spec fn all_metric_scopes(r: Seq<ResourceMetricsModel>) -> Seq<ScopeMetricsModel>
    decreases r.len(),
{
    if r.len() == 0 {
        Seq::empty()
    } else {
        all_metric_scopes(r.drop_last()) + r.last().scope_metrics
    }
}

/// The items of all scopes.
pub open spec fn all_metric_items(s: Seq<ScopeMetricsModel>) -> Seq<MetricModel>
    decreases s.len(),
{
    if s.len() == 0 {
        Seq::empty()
    } else {
        all_metric_items(s.drop_last()) + s.last().metrics
    }
}

/// The models of scopes.
pub open spec fn metric_scopes_view(s: Seq<&ScopeMetricSet>) -> Seq<ScopeMetricsModel> {
    s.map_values(|x: &ScopeMetricSet| x@)
}

/// The models of items.
pub open spec fn metric_items_view(s: Seq<&MetricItem>) -> Seq<MetricModel> {
    s.map_values(|x: &MetricItem| x@)
}

/// The scopes of all resources.
pub fn metric_scopes<'a>(batch: &'a MetricsRequest) -> (r: Vec<&'a ScopeMetricSet>)
    ensures
        metric_scopes_view(r@) == all_metric_scopes(batch@.resource_metrics),
{
    let ghost all = batch@.resource_metrics;
    let mut out: Vec<&'a ScopeMetricSet> = Vec::new();
    assert(all.take(0) =~= Seq::empty());
    assert(metric_scopes_view(out@) =~= Seq::empty());
    for i in 0..batch.resource_metrics.len()
        invariant
            all == batch@.resource_metrics,
            metric_scopes_view(out@) == all_metric_scopes(all.take(i as int)),
    {
        let set = &batch.resource_metrics[i];
        let ghost before = metric_scopes_view(out@);
        let ghost own = set@.scope_metrics;
        assert(all.take(i + 1).drop_last() =~= all.take(i as int));
        assert(all[i as int] == set@);
        assert(before + own.take(0) =~= before);
        for j in 0..set.scope_metrics.len()
            invariant
                own == set@.scope_metrics,
                metric_scopes_view(out@) == before + own.take(j as int),
        {
            let ghost now = metric_scopes_view(out@);
            let one = &set.scope_metrics[j];
            out.push(one);
            assert(own[j as int] == one@);
            assert(metric_scopes_view(out@) =~= now.push(one@));
            assert(now.push(one@) =~= before + own.take(j + 1));
        }
        assert(own.take(set.scope_metrics@.len() as int) =~= own);
    }
    assert(all.take(batch.resource_metrics@.len() as int) =~= all);
    out
}

/// The items of all scopes.
pub fn metric_items<'a>(scopes: &Vec<&'a ScopeMetricSet>) -> (r: Vec<&'a MetricItem>)
    ensures
        metric_items_view(r@) == all_metric_items(metric_scopes_view(scopes@)),
{
    let ghost all = metric_scopes_view(scopes@);
    let mut out: Vec<&'a MetricItem> = Vec::new();
    assert(all.take(0) =~= Seq::empty());
    assert(metric_items_view(out@) =~= Seq::empty());
    for i in 0..scopes.len()
        invariant
            all == metric_scopes_view(scopes@),
            metric_items_view(out@) == all_metric_items(all.take(i as int)),
    {
        let set: &'a ScopeMetricSet = scopes[i];
        let ghost before = metric_items_view(out@);
        let ghost own = set@.metrics;
        assert(all.take(i + 1).drop_last() =~= all.take(i as int));
        assert(all[i as int] == set@);
        assert(before + own.take(0) =~= before);
        for j in 0..set.metrics.len()
            invariant
                own == set@.metrics,
                metric_items_view(out@) == before + own.take(j as int),
        {
            let ghost now = metric_items_view(out@);
            let one = &set.metrics[j];
            out.push(one);
            assert(own[j as int] == one@);
            assert(metric_items_view(out@) =~= now.push(one@));
            assert(now.push(one@) =~= before + own.take(j + 1));
        }
        assert(own.take(set.metrics@.len() as int) =~= own);
    }
    assert(all.take(scopes@.len() as int) =~= all);
    out
}

/// The services of all resources.
pub open spec fn all_metric_services(r: Seq<ResourceMetricsModel>) -> Seq<Seq<char>>
    decreases r.len(),
{
    if r.len() == 0 {
        Seq::empty()
    } else {
        all_metric_services(r.drop_last()) + service_values(resource_attrs_of(r.last().resource))
    }
}

/// The services of all resources.
pub fn metric_services(batch: &MetricsRequest) -> (r: Vec<String>)
    ensures
        texts(r@) == all_metric_services(batch@.resource_metrics),
{
    let ghost all = batch@.resource_metrics;
    let mut out: Vec<String> = Vec::new();
    assert(all.take(0) =~= Seq::empty());
    assert(texts(out@) =~= Seq::empty());
    for i in 0..batch.resource_metrics.len()
        invariant
            all == batch@.resource_metrics,
            texts(out@) == all_metric_services(all.take(i as int)),
    {
        assert(all.take(i + 1).drop_last() =~= all.take(i as int));
        assert(all[i as int] == batch.resource_metrics@[i as int]@);
        push_services(&mut out, &batch.resource_metrics[i].resource);
    }
    assert(all.take(batch.resource_metrics@.len() as int) =~= all);
    out
}

/// The names of scopes.
pub open spec fn all_metric_scope_names(s: Seq<ScopeMetricsModel>) -> Seq<Seq<char>> {
    s.map_values(|x: ScopeMetricsModel| scope_name_of(x.scope))
}

/// The names of scopes.
pub fn metric_scope_names(scopes: &Vec<&ScopeMetricSet>) -> (r: Vec<String>)
    ensures
        texts(r@) == all_metric_scope_names(metric_scopes_view(scopes@)),
{
    let ghost all = all_metric_scope_names(metric_scopes_view(scopes@));
    let mut out: Vec<String> = Vec::new();
    for i in 0..scopes.len()
        invariant
            all == all_metric_scope_names(metric_scopes_view(scopes@)),
            texts(out@) == all.take(i as int),
    {
        let ghost before = texts(out@);
        let name = match &scopes[i].scope {
            Some(s) => s.name.clone(),
            None => String::new(),
        };
        assert(metric_scopes_view(scopes@)[i as int] == scopes@[i as int]@);
        assert(all[i as int] =~= name@);
        out.push(name);
        assert(texts(out@) =~= before.push(name@));
        assert(texts(out@) =~= all.take(i + 1));
    }
    assert(all.take(scopes@.len() as int) =~= all);
    out
}

} // verus!
