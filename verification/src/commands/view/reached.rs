//! Which records, services and names of a batch are reached.
use vstd::prelude::*;

use crate::commands::view::catalog::{catalog_of, found_in, found_in_both, gathered};
use crate::commands::view::field_filter::CatalogModel;
use crate::commands::view::flatten::{
    all_log_items, all_log_scopes, all_log_services, all_metric_items, all_metric_scopes,
    all_metric_services, all_span_items, all_span_scopes, all_span_services,
};
use crate::dataset_index::{
    batch_services, batch_severities, record_services, record_severities, resource_severities,
    scope_severities, service_values,
};
use crate::otlp::{
    AnyModel, KvModel, LogRecordModel, ResourceLogsModel, ResourceMetricsModel, ResourceSpansModel,
    ScopeLogsModel, ScopeMetricsModel, ScopeSpansModel,
};
use crate::record::{RecordModel, RecordType};
use crate::bridge::protobuf::logs_of;
use crate::text::str_set::{distinct, law_sorted_members, listed, with_member};

verus! {

/// The log records of a list of scopes are those of each scope, one after the
/// other.
pub proof fn law_log_records_of_scopes(
    a: Seq<ScopeLogsModel>,
    b: Seq<ScopeLogsModel>,
    one: ScopeLogsModel,
)
    ensures
        all_log_items(a + b) == all_log_items(a) + all_log_items(b),
        all_log_items(seq![one]) == one.log_records,
        all_log_items(Seq::empty()).len() == 0,
    decreases b.len(),
{
    let s = seq![one];
    assert(s.drop_last() =~= Seq::empty());
    assert(all_log_items(s.drop_last()) =~= Seq::empty());
    assert(all_log_items(s) =~= one.log_records);
    if b.len() > 0 {
        assert((a + b).drop_last() =~= a + b.drop_last());
        law_log_records_of_scopes(a, b.drop_last(), one);
        assert(all_log_items(a + b) =~= all_log_items(a) + all_log_items(b));
    } else {
        assert(a + b =~= a);
        assert(all_log_items(a + b) =~= all_log_items(a) + all_log_items(b));
    }
}

/// The scopes of a list of resources are those of each resource, one after the
/// other.
pub proof fn law_scopes_of_resources(
    a: Seq<ResourceLogsModel>,
    b: Seq<ResourceLogsModel>,
    one: ResourceLogsModel,
)
    ensures
        all_log_scopes(a + b) == all_log_scopes(a) + all_log_scopes(b),
        all_log_scopes(seq![one]) == one.scope_logs,
        all_log_scopes(Seq::empty()).len() == 0,
    decreases b.len(),
{
    let s = seq![one];
    assert(s.drop_last() =~= Seq::empty());
    assert(all_log_scopes(s.drop_last()) =~= Seq::empty());
    assert(all_log_scopes(s) =~= one.scope_logs);
    if b.len() > 0 {
        assert((a + b).drop_last() =~= a + b.drop_last());
        law_scopes_of_resources(a, b.drop_last(), one);
        assert(all_log_scopes(a + b) =~= all_log_scopes(a) + all_log_scopes(b));
    } else {
        assert(a + b =~= a);
        assert(all_log_scopes(a + b) =~= all_log_scopes(a) + all_log_scopes(b));
    }
}

/// The spans of a list of scopes are those of each scope, one after the other,
/// and the scopes of a list of resources those of each resource.
pub proof fn law_spans_are_reached(
    a: Seq<ScopeSpansModel>,
    b: Seq<ScopeSpansModel>,
    one: ScopeSpansModel,
    c: Seq<ResourceSpansModel>,
    d: Seq<ResourceSpansModel>,
    r: ResourceSpansModel,
)
    ensures
        all_span_items(a + b) == all_span_items(a) + all_span_items(b),
        all_span_items(seq![one]) == one.spans,
        all_span_scopes(c + d) == all_span_scopes(c) + all_span_scopes(d),
        all_span_scopes(seq![r]) == r.scope_spans,
    decreases b.len() + d.len(),
{
    let s = seq![one];
    assert(s.drop_last() =~= Seq::empty());
    assert(all_span_items(s.drop_last()) =~= Seq::empty());
    assert(all_span_items(s) =~= one.spans);
    let t = seq![r];
    assert(t.drop_last() =~= Seq::empty());
    assert(all_span_scopes(t.drop_last()) =~= Seq::empty());
    assert(all_span_scopes(t) =~= r.scope_spans);
    if b.len() > 0 {
        assert((a + b).drop_last() =~= a + b.drop_last());
        law_spans_are_reached(a, b.drop_last(), one, c, d, r);
    } else {
        assert(a + b =~= a);
    }
    assert(all_span_items(a + b) =~= all_span_items(a) + all_span_items(b));
    if d.len() > 0 {
        assert((c + d).drop_last() =~= c + d.drop_last());
        law_spans_are_reached(a, b, one, c, d.drop_last(), r);
    } else {
        assert(c + d =~= c);
    }
    assert(all_span_scopes(c + d) =~= all_span_scopes(c) + all_span_scopes(d));
}

/// The metrics of a list of scopes are those of each scope, one after the
/// other, and the scopes of a list of resources those of each resource.
pub proof fn law_metrics_are_reached(
    a: Seq<ScopeMetricsModel>,
    b: Seq<ScopeMetricsModel>,
    one: ScopeMetricsModel,
    c: Seq<ResourceMetricsModel>,
    d: Seq<ResourceMetricsModel>,
    r: ResourceMetricsModel,
)
    ensures
        all_metric_items(a + b) == all_metric_items(a) + all_metric_items(b),
        all_metric_items(seq![one]) == one.metrics,
        all_metric_scopes(c + d) == all_metric_scopes(c) + all_metric_scopes(d),
        all_metric_scopes(seq![r]) == r.scope_metrics,
    decreases b.len() + d.len(),
{
    let s = seq![one];
    assert(s.drop_last() =~= Seq::empty());
    assert(all_metric_items(s.drop_last()) =~= Seq::empty());
    assert(all_metric_items(s) =~= one.metrics);
    let t = seq![r];
    assert(t.drop_last() =~= Seq::empty());
    assert(all_metric_scopes(t.drop_last()) =~= Seq::empty());
    assert(all_metric_scopes(t) =~= r.scope_metrics);
    if b.len() > 0 {
        assert((a + b).drop_last() =~= a + b.drop_last());
        law_metrics_are_reached(a, b.drop_last(), one, c, d, r);
    } else {
        assert(a + b =~= a);
    }
    assert(all_metric_items(a + b) =~= all_metric_items(a) + all_metric_items(b));
    if d.len() > 0 {
        assert((c + d).drop_last() =~= c + d.drop_last());
        law_metrics_are_reached(a, b, one, c, d.drop_last(), r);
    } else {
        assert(c + d =~= c);
    }
    assert(all_metric_scopes(c + d) =~= all_metric_scopes(c) + all_metric_scopes(d));
}

/// The service names among attributes are the texts under `service.name`, all
/// of them and no other.
pub proof fn law_service_names_are_reached(a: Seq<KvModel>, x: Seq<char>)
    ensures
        service_values(a).contains(x) <==> exists|i: int|
            0 <= i < a.len() && (#[trigger] a[i]).key == "service.name"@ && a[i].value == Some(
                AnyModel::Str(x),
            ),
    decreases a.len(),
{
    let v = service_values(a);
    if a.len() > 0 {
        let init = a.drop_last();
        let before = service_values(init);
        law_service_names_are_reached(init, x);
        if before.contains(x) {
            let i = choose|i: int| 0 <= i < before.len() && before[i] == x;
            assert(v[i] == x);
            let j = choose|j: int|
                0 <= j < init.len() && (#[trigger] init[j]).key == "service.name"@
                    && init[j].value == Some(AnyModel::Str(x));
            assert(a[j].key == "service.name"@);
        }
        if v.contains(x) && !before.contains(x) {
            let i = choose|i: int| 0 <= i < v.len() && v[i] == x;
            assert(a[a.len() - 1].key == "service.name"@);
        }
        if exists|i: int|
            0 <= i < a.len() && (#[trigger] a[i]).key == "service.name"@ && a[i].value == Some(
                AnyModel::Str(x),
            ) {
            let i = choose|i: int|
                0 <= i < a.len() && (#[trigger] a[i]).key == "service.name"@ && a[i].value
                    == Some(AnyModel::Str(x));
            if i < init.len() {
                assert(init[i].key == "service.name"@);
            } else {
                assert(v[v.len() - 1] == x);
            }
        }
    }
}

/// The services of a batch are those of each resource, one after the other, for
/// logs, traces and metrics alike, and in the index as on the screen.
pub proof fn law_services_of_batches(
    logs: Seq<ResourceLogsModel>,
    l: ResourceLogsModel,
    spans: Seq<ResourceSpansModel>,
    s: ResourceSpansModel,
    metrics: Seq<ResourceMetricsModel>,
    m: ResourceMetricsModel,
)
    requires
        l.resource is Some,
        s.resource is Some,
        m.resource is Some,
    ensures
        all_log_services(logs.push(l)) == all_log_services(logs) + service_values(
            l.resource->0.attributes,
        ),
        batch_services(logs.push(l)) == batch_services(logs) + service_values(
            l.resource->0.attributes,
        ),
        all_span_services(spans.push(s)) == all_span_services(spans) + service_values(
            s.resource->0.attributes,
        ),
        all_metric_services(metrics.push(m)) == all_metric_services(metrics) + service_values(
            m.resource->0.attributes,
        ),
        all_log_services(Seq::empty()).len() == 0,
        batch_services(Seq::empty()).len() == 0,
        all_span_services(Seq::empty()).len() == 0,
        all_metric_services(Seq::empty()).len() == 0,
{
    assert(logs.push(l).drop_last() =~= logs);
    assert(spans.push(s).drop_last() =~= spans);
    assert(metrics.push(m).drop_last() =~= metrics);
}

proof fn lemma_member(s: Seq<Seq<char>>, x: Seq<char>, y: Seq<char>)
    ensures
        with_member(s, x).contains(y) <==> s.contains(y) || x == y,
        s.no_duplicates() ==> with_member(s, x).no_duplicates(),
{
    if !s.contains(x) {
        let t = s.push(x);
        if s.contains(y) {
            let i = choose|i: int| 0 <= i < s.len() && s[i] == y;
            assert(t[i] == y);
        }
        assert(t[s.len() as int] == x);
        if t.contains(y) && x != y {
            let i = choose|i: int| 0 <= i < t.len() && t[i] == y;
            assert(s[i] == y);
        }
    }
}

proof fn lemma_contains_push(v: Seq<Seq<char>>, x: Seq<char>)
    requires
        v.len() > 0,
    ensures
        v.contains(x) <==> v.drop_last().contains(x) || v.last() == x,
{
    let init = v.drop_last();
    if init.contains(x) {
        let i = choose|i: int| 0 <= i < init.len() && init[i] == x;
        assert(v[i] == x);
    }
    assert(v[v.len() - 1] == v.last());
    if v.contains(x) && v.last() != x {
        let i = choose|i: int| 0 <= i < v.len() && v[i] == x;
        assert(init[i] == x);
    }
}

/// Distinct texts are the texts of a list, each once; those that are listed are
/// the ones of them that are not empty.
pub proof fn law_distinct_texts(v: Seq<Seq<char>>, x: Seq<char>)
    ensures
        distinct(v).contains(x) <==> v.contains(x),
        distinct(v).no_duplicates(),
        listed(v).contains(x) <==> v.contains(x) && x.len() > 0,
        listed(v).no_duplicates(),
    decreases v.len(),
{
    if v.len() > 0 {
        let init = v.drop_last();
        law_distinct_texts(init, x);
        lemma_member(distinct(init), v.last(), x);
        lemma_member(listed(init), v.last(), x);
        lemma_contains_push(v, x);
    }
}

/// Names that are gathered are those that were there and those that are added,
/// each once.
pub proof fn law_names_are_gathered(names: Seq<Seq<char>>, more: Seq<Seq<char>>, x: Seq<char>)
    requires
        names.no_duplicates(),
    ensures
        gathered(names, more).contains(x) <==> names.contains(x) || more.contains(x),
        gathered(names, more).no_duplicates(),
    decreases more.len(),
{
    if more.len() > 0 {
        law_names_are_gathered(names, more.drop_last(), x);
        lemma_member(gathered(names, more.drop_last()), more.last(), x);
        lemma_contains_push(more, x);
    }
}

/// The choices of the field filter are the services and the severities that
/// records name, and no other; scanning a record, or taking over the names of
/// another file, loses none. They are shown in ascending order.
pub proof fn law_choices_are_what_records_name(
    m: CatalogModel,
    r: RecordModel,
    other: CatalogModel,
    x: Seq<char>,
)
    requires
        m.services.no_duplicates(),
        m.severities.no_duplicates(),
    ensures
        found_in(m, r).services.contains(x) <==> m.services.contains(x) || record_services(
            r,
        ).contains(x),
        found_in(m, r).severities.contains(x) <==> m.severities.contains(x) || record_severities(
            r,
        ).contains(x),
        found_in_both(m, other).services.contains(x) <==> m.services.contains(x)
            || other.services.contains(x),
        found_in_both(m, other).severities.contains(x) <==> m.severities.contains(x)
            || other.severities.contains(x),
        catalog_of(m).services.contains(x) <==> m.services.contains(x),
        catalog_of(m).severities.contains(x) <==> m.severities.contains(x),
{
    law_names_are_gathered(m.services, record_services(r), x);
    law_names_are_gathered(m.severities, record_severities(r), x);
    law_names_are_gathered(m.services, other.services, x);
    law_names_are_gathered(m.severities, other.severities, x);
    law_sorted_members(m.services);
    law_sorted_members(m.severities);
}

/// The severities of a batch are the severity texts of its log records that are
/// not empty.
pub proof fn law_severities_are_reached(s: ScopeLogsModel, x: Seq<char>)
    ensures
        scope_severities(s).contains(x) <==> x.len() > 0 && exists|i: int|
            0 <= i < s.log_records.len() && (#[trigger] s.log_records[i]).severity_text == x,
{
    let all = s.log_records.map_values(|r: LogRecordModel| r.severity_text);
    let p = |t: Seq<char>| t.len() > 0;
    let v = all.filter(p);
    assert(v == scope_severities(s));
    if v.contains(x) {
        let k = choose|k: int| 0 <= k < v.len() && v[k] == x;
        all.lemma_filter_pred(p, k);
        all.lemma_filter_contains_rev(p, x);
        let i = choose|i: int| 0 <= i < all.len() && all[i] == x;
        assert(s.log_records[i].severity_text == x);
    }
    if x.len() > 0 && exists|i: int|
        0 <= i < s.log_records.len() && (#[trigger] s.log_records[i]).severity_text == x {
        let i = choose|i: int|
            0 <= i < s.log_records.len() && (#[trigger] s.log_records[i]).severity_text == x;
        assert(all[i] == x);
        all.lemma_filter_contains(p, i);
    }
}

/// The severities of a record are those of its scopes, one after the other; a
/// record that is no log batch names none, and no service either.
pub proof fn law_severities_of_batches(
    scopes: Seq<ScopeLogsModel>,
    s: ScopeLogsModel,
    logs: Seq<ResourceLogsModel>,
    l: ResourceLogsModel,
    r: RecordModel,
)
    ensures
        resource_severities(scopes.push(s)) == resource_severities(scopes) + scope_severities(s),
        resource_severities(Seq::empty()).len() == 0,
        batch_severities(logs.push(l)) == batch_severities(logs) + resource_severities(
            l.scope_logs,
        ),
        batch_severities(Seq::empty()).len() == 0,
        r.record_type != RecordType::Logs || logs_of(r.payload) is None ==> record_severities(
            r,
        ).len() == 0 && record_services(r).len() == 0,
        r.record_type == RecordType::Logs && logs_of(r.payload) is Some ==> record_severities(r)
            == batch_severities(logs_of(r.payload)->0.resource_logs) && record_services(r)
            == batch_services(logs_of(r.payload)->0.resource_logs),
{
    assert(scopes.push(s).drop_last() =~= scopes);
    assert(logs.push(l).drop_last() =~= logs);
}

} // verus!
