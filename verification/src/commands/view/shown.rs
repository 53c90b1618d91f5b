//! What the viewer says of a record.
use vstd::prelude::*;

use crate::bridge::protobuf::{logs_of, metrics_of, traces_of};
use crate::bridge::utf8::utf8_lossy;
use crate::commands::export::{timestamp_text, value_text};
use crate::commands::view::detail::{
    data_lines, full_text, log_message, metric_lines, metric_part, metrics_message,
    metrics_summary, payload_message, point_text, span_kind_name, span_lines, span_part,
    summary_text, traces_message, traces_summary,
};
use crate::commands::view::flatten::{
    all_log_items, all_log_scope_names, all_log_scopes, all_log_services,
};
use crate::commands::view::info::{
    all_attr_rows, all_item_attrs, all_resource_attrs, all_scope_attrs, attr_rows, counts_of,
    data_len, element_texts, event_names_of, has_span, has_trace, list_when, log_info,
    metrics_info, payload_info, record_info, severity_texts_of, shown_rows, total_points,
    trace_info,
};
use crate::commands::view::reached::law_distinct_texts;
use crate::otlp::{
    AnyModel, ExpHistogramPointModel, HistogramPointModel, KvModel, LogRecordModel, LogsModel, MetricDataModel, MetricModel, NumberPointModel,
    PointModel, SpanModel, SummaryPointModel,
};
use crate::commands::view::types::DetailModel;
use crate::commands::view::text::{cut, dump_from, flattened, hex_cut};
use crate::record::RecordType;
use crate::text::numbers::{decimal, decimal_int, hex_text};
use crate::text::readback::{law_decimal_reads_back, law_signed_decimal_reads_back, number_read};
use crate::text::seqs::{count_of, count_where};
use crate::text::str_set::{distinct, listed};

verus! {

/// An entry with a number: it stands there under its key, in decimal digits.
pub open spec fn tells_number(e: Seq<(Seq<char>, Seq<char>)>, key: Seq<char>, n: int) -> bool {
    exists|t: Seq<char>| #[trigger] e.contains((key, t)) && number_read(t) == n
}

proof fn lemma_tells(e: Seq<(Seq<char>, Seq<char>)>, i: int, key: Seq<char>, n: nat)
    requires
        0 <= i < e.len(),
        e[i] == (key, decimal(n)),
    ensures
        tells_number(e, key, n as int),
{
    law_decimal_reads_back(n);
    assert(e.contains((key, decimal(n))));
}

/// The details of a record tell its type, sequence number, time and size.
pub proof fn law_details_tell_the_record(d: DetailModel)
    ensures
        ({
            let e = record_info(d);
            &&& d.meta.record_type == RecordType::Logs ==> e.contains(("type"@, "logs"@))
            &&& d.meta.record_type == RecordType::Metrics ==> e.contains(("type"@, "metrics"@))
            &&& d.meta.record_type == RecordType::Traces ==> e.contains(("type"@, "traces"@))
            &&& d.meta.record_type == RecordType::Events ==> e.contains(("type"@, "events"@))
            &&& tells_number(e, "seq"@, d.meta.seq as int)
            &&& tells_number(e, "ts_unix_ns"@, d.meta.ts_unix_ns as int)
            &&& e.contains(("time"@, timestamp_text(d.meta.ts_unix_ns)))
            &&& tells_number(e, "payload_bytes"@, d.meta.payload_len as int)
        }),
{
    let e = record_info(d);
    assert(e[0].0 == "type"@);
    assert(e.contains(e[0]));
    lemma_tells(e, 1, "seq"@, d.meta.seq as nat);
    lemma_tells(e, 2, "ts_unix_ns"@, d.meta.ts_unix_ns as nat);
    assert(e[3] == ("time"@, timestamp_text(d.meta.ts_unix_ns)));
    lemma_tells(e, 4, "payload_bytes"@, d.meta.payload_len as nat);
}

/// Behind that stands what the payload holds, if it decodes as what the type of
/// the record says, and otherwise that it does not.
pub proof fn law_details_follow_the_type(d: DetailModel)
    ensures
        ({
            let more = record_info(d).skip(5);
            &&& d.meta.record_type == RecordType::Logs && logs_of(d.payload) is Some ==> more
                == log_info(logs_of(d.payload)->0)
            &&& d.meta.record_type == RecordType::Metrics && metrics_of(d.payload) is Some ==> more
                == metrics_info(metrics_of(d.payload)->0)
            &&& d.meta.record_type == RecordType::Traces && traces_of(d.payload) is Some ==> more
                == trace_info(traces_of(d.payload)->0)
            &&& d.meta.record_type == RecordType::Logs && logs_of(d.payload) is None ==> more
                == seq![("otlp"@, "decode failed"@)]
            &&& d.meta.record_type == RecordType::Metrics && metrics_of(d.payload) is None ==> more
                == seq![("otlp"@, "decode failed"@)]
            &&& d.meta.record_type == RecordType::Traces && traces_of(d.payload) is None ==> more
                == seq![("otlp"@, "decode failed"@)]
            &&& d.meta.record_type == RecordType::Events ==> more.len() == 0
        }),
{
    assert(record_info(d).skip(5) =~= payload_info(d.meta.record_type, d.payload));
}

/// A log record has a trace where its trace id is not empty, and a span where
/// its span id is not.
pub proof fn law_ids_are_told_apart(l: LogRecordModel)
    ensures
        has_trace()(l) <==> l.trace_id.len() > 0,
        has_span()(l) <==> l.span_id.len() > 0,
{
}

/// A log batch tells how many resources it has and how many attributes they,
/// the scopes and the records have, and how many records carry a trace id and a
/// span id.
pub proof fn law_log_batches_are_counted(b: LogsModel)
    ensures
        ({
            let e = log_info(b);
            let items = all_log_items(all_log_scopes(b.resource_logs));
            let traces = count_where(items, has_trace());
            let spans = count_where(items, has_span());
            &&& e[0] == ("otlp.kind"@, "logs"@)
            &&& tells_number(e, "resources"@, b.resource_logs.len() as int)
            &&& tells_number(
                e,
                "resource.attrs"@,
                all_resource_attrs(b.resource_logs).len() as int,
            )
            &&& tells_number(
                e,
                "scope.attrs"@,
                all_scope_attrs(
                    all_log_scopes(b.resource_logs),
                ).len() as int,
            )
            &&& tells_number(
                e,
                "record.attrs"@,
                all_item_attrs(items).len() as int,
            )
            &&& traces > 0 ==> e.contains(("trace_id"@, decimal(traces) + " present"@))
            &&& spans > 0 ==> e.contains(("span_id"@, decimal(spans) + " present"@))
        }),
{
    let e = log_info(b);
    let scopes = all_log_scopes(b.resource_logs);
    let items = all_log_items(scopes);
    lemma_tells(e, 1, "resources"@, b.resource_logs.len());
    let ra = all_resource_attrs(b.resource_logs);
    let sa = all_scope_attrs(scopes);
    let ia = all_item_attrs(items);
    let n = list_when(
        "service.name"@,
        distinct(all_log_services(b.resource_logs)),
    ).len() + list_when(
        "scope"@,
        listed(
            all_log_scope_names(scopes),
        ),
    ).len() + list_when(
        "severity"@,
        listed(severity_texts_of(items)),
    ).len() + list_when(
        "event"@,
        listed(event_names_of(items)),
    ).len() + 2;
    lemma_tells(e, n as int, "resource.attrs"@, ra.len());
    lemma_tells(e, n + 1int, "scope.attrs"@, sa.len());
    lemma_tells(e, n + 2int, "record.attrs"@, ia.len());
    let traces = count_where(items, has_trace());
    let spans = count_where(items, has_span());
    let m = n + 3 + shown_rows("resource"@, all_attr_rows("resource"@, ra)).len() + shown_rows(
        "scope"@,
        all_attr_rows("scope"@, sa),
    ).len() + shown_rows("record"@, all_attr_rows("record"@, ia)).len();
    if traces > 0 {
        assert(e[m as int] == ("trace_id"@, decimal(traces) + " present"@));
    }
    if spans > 0 {
        assert(e[e.len() - 1] == ("span_id"@, decimal(spans) + " present"@));
    }
}

proof fn lemma_row_in(kind: Seq<char>, attrs: Seq<KvModel>, i: int)
    requires
        0 <= i < attrs.len(),
        forall|j: int|
            0 <= j < attrs.len() ==> !((#[trigger] attrs[j]).value is Some
                && attrs[j].value->0 is Array),
    ensures
        all_attr_rows(kind, attrs).len() == attrs.len(),
        all_attr_rows(kind, attrs)[i] == (kind, attrs[i].key, value_text(attrs[i].value)),
    decreases attrs.len(),
{
    let init = attrs.drop_last();
    assert(!(attrs[attrs.len() - 1].value is Some && attrs[attrs.len() - 1].value->0 is Array));
    assert forall|j: int| 0 <= j < init.len() implies !((#[trigger] init[j]).value is Some
        && init[j].value->0 is Array) by {
        assert(!(attrs[j].value is Some && attrs[j].value->0 is Array));
    }
    if init.len() > 0 {
        lemma_row_in(
            kind,
            init,
            if i < init.len() {
                i
            } else {
                0
            },
        );
    } else {
        assert(all_attr_rows(kind, init).len() == 0);
    }
}

/// An attribute is shown under the name of what it belongs to, a dot and its
/// key, with its value as text, among the first rows that there is room for.
pub proof fn law_attributes_are_shown(kind: Seq<char>, attrs: Seq<KvModel>, i: int)
    requires
        0 <= i < attrs.len(),
        attrs.len() <= 32,
        kind.len() > 0,
        forall|j: int|
            0 <= j < attrs.len() ==> !((#[trigger] attrs[j]).value is Some
                && attrs[j].value->0 is Array),
    ensures
        shown_rows(kind, all_attr_rows(kind, attrs)).len() == attrs.len(),
        shown_rows(kind, all_attr_rows(kind, attrs))[i] == (
            kind + "."@ + attrs[i].key,
            value_text(attrs[i].value),
        ),
{
    lemma_row_in(kind, attrs, i);
    let rows = all_attr_rows(kind, attrs);
    assert(rows.take(rows.len() as int) =~= rows);
}

/// An array that has something to show is one row for each element that does:
/// the first under the key, the others without one.
pub proof fn law_arrays_are_several_rows(kind: Seq<char>, key: Seq<char>, a: Seq<AnyModel>)
    requires
        a.len() > 0,
        forall|i: int| 0 <= i < a.len() ==> value_text(Some(#[trigger] a[i])).len() > 0,
    ensures
        ({
            let rows = attr_rows(kind, key, Some(AnyModel::Array(a)));
            &&& rows.len() == a.len()
            &&& rows[0] == (kind, key, value_text(Some(a[0])))
            &&& forall|i: int|
                0 < i < a.len() ==> (#[trigger] rows[i]).0.len() == 0 && rows[i].1.len() == 0
                    && rows[i].2 == value_text(Some(a[i]))
        }),
{
    lemma_elements(a);
}

proof fn lemma_elements(a: Seq<AnyModel>)
    requires
        forall|i: int| 0 <= i < a.len() ==> value_text(Some(#[trigger] a[i])).len() > 0,
    ensures
        element_texts(a).len() == a.len(),
        forall|i: int|
            0 <= i < a.len() ==> #[trigger] element_texts(a)[i]
                == value_text(Some(a[i])),
    decreases a.len(),
{
    if a.len() > 0 {
        let init = a.drop_last();
        assert forall|i: int| 0 <= i < init.len() implies value_text(
            Some(#[trigger] init[i]),
        ).len() > 0 by {
            assert(value_text(Some(a[i])).len() > 0);
        }
        lemma_elements(init);
        assert(value_text(Some(a[a.len() - 1])).len() > 0);
        assert forall|i: int| 0 <= i < a.len() implies #[trigger] element_texts(
            a,
        )[i] == value_text(Some(a[i])) by {
            if i < init.len() {
                assert(init[i] == a[i]);
            }
        }
    }
}

/// Each distinct name is counted once, by how often it occurs.
pub proof fn law_names_are_counted(prefix: Seq<char>, names: Seq<Seq<char>>, x: Seq<char>)
    requires
        names.contains(x),
    ensures
        tells_number(counts_of(prefix, names), prefix + x, count_of(names, x) as int),
{
    law_distinct_texts(names, x);
    let d = distinct(names);
    let i = choose|i: int| 0 <= i < d.len() && d[i] == x;
    lemma_tells(counts_of(prefix, names), i, prefix + x, count_of(names, x));
}

/// The kinds of spans.
pub proof fn law_span_kinds_are_named(kind: i32)
    ensures
        kind == 1 ==> span_kind_name(kind) == "Internal"@,
        kind == 2 ==> span_kind_name(kind) == "Server"@,
        kind == 3 ==> span_kind_name(kind) == "Client"@,
        kind == 4 ==> span_kind_name(kind) == "Producer"@,
        kind == 5 ==> span_kind_name(kind) == "Consumer"@,
        !(1 <= kind <= 5) ==> span_kind_name(kind) == "Unknown("@ + decimal_int(kind as int) + ")"@,
{
}

/// The lines of a span name it and show each id that it has in hexadecimal
/// digits, its kind, when it started and ended, its status and its attributes.
pub proof fn law_spans_are_shown(s: SpanModel, i: int)
    ensures
        ({
            let l = span_lines(s);
            &&& l[0] == "Span: "@ + s.name
            &&& s.trace_id.len() > 0 ==> l.contains("  Trace ID: "@ + hex_text(s.trace_id))
            &&& s.span_id.len() > 0 ==> l.contains("  Span ID: "@ + hex_text(s.span_id))
            &&& s.parent_span_id.len() > 0 ==> l.contains(
                "  Parent Span ID: "@ + hex_text(s.parent_span_id),
            )
            &&& l.contains("  Kind: "@ + span_kind_name(s.kind))
            &&& l.contains("  Start: "@ + timestamp_text(s.start_time_unix_nano))
            &&& l.contains("  End:   "@ + timestamp_text(s.end_time_unix_nano))
            &&& s.status matches Some(t) ==> l.contains(
                "  Status: code="@ + decimal_int(t.code as int) + " message="@ + t.message,
            )
            &&& 0 <= i < s.attributes.len() && s.attributes[i].value is Some ==> l.contains(
                "  Attr: "@ + s.attributes[i].key + "="@ + value_text(s.attributes[i].value),
            )
        }),
{
    let l = span_lines(s);
    let a: int = if s.trace_id.len() > 0 {
        1
    } else {
        0
    };
    let b: int = if s.span_id.len() > 0 {
        1
    } else {
        0
    };
    let c: int = if s.parent_span_id.len() > 0 {
        1
    } else {
        0
    };
    let d: int = if s.status is Some {
        1
    } else {
        0
    };
    if a == 1 {
        assert(l[1] == "  Trace ID: "@ + hex_text(s.trace_id));
    }
    if b == 1 {
        assert(l[1 + a] == "  Span ID: "@ + hex_text(s.span_id));
    }
    if c == 1 {
        assert(l[1 + a + b] == "  Parent Span ID: "@ + hex_text(s.parent_span_id));
    }
    let n = 1 + a + b + c;
    assert(l[n] == "  Kind: "@ + span_kind_name(s.kind));
    assert(l[n + 1] == "  Start: "@ + timestamp_text(s.start_time_unix_nano));
    assert(l[n + 2] == "  End:   "@ + timestamp_text(s.end_time_unix_nano));
    if let Some(t) = s.status {
        assert(l[n + 3] == "  Status: code="@ + decimal_int(t.code as int) + " message="@
            + t.message);
    }
    if 0 <= i < s.attributes.len() && s.attributes[i].value is Some {
        assert(l[n + 3 + d + i] == "  Attr: "@ + s.attributes[i].key + "="@ + value_text(
            s.attributes[i].value,
        ));
    }
}

/// A span is summed up by its name and its kind, and its status where it has
/// one; a metric by its name, its first value and its unit.
pub proof fn law_summaries_of_spans_and_metrics(s: SpanModel, m: MetricModel)
    ensures
        s.status is None ==> span_part(s) == s.name + " ("@ + span_kind_name(s.kind) + ")"@,
        s.status matches Some(t) ==> span_part(s) == s.name + " ("@ + span_kind_name(s.kind)
            + ", status="@ + decimal_int(t.code as int) + ")"@,
        m.data matches MetricDataModel::Gauge(p) ==> p.len() > 0 && p[0].value is Some
            ==> metric_part(m) == m.name + "="@ + point_text(p[0].value->0) + m.unit,
        m.data matches MetricDataModel::Sum { is_monotonic, temporality, points } ==> points.len()
            > 0 && points[0].value is Some ==> metric_part(m) == m.name + "="@ + point_text(
            points[0].value->0,
        ) + m.unit,
        m.data matches MetricDataModel::Histogram(p) ==> p.len() > 0 ==> metric_part(m) == m.name
            + "="@ + ("count="@ + decimal(p[0].count as nat)) + m.unit,
        m.data matches MetricDataModel::ExpHistogram(p) ==> p.len() > 0 ==> metric_part(m)
            == m.name + "="@ + ("count="@ + decimal(p[0].count as nat)) + m.unit,
        m.data matches MetricDataModel::Summary(p) ==> p.len() > 0 ==> metric_part(m) == m.name
            + "="@ + ("count="@ + decimal(p[0].count as nat)) + m.unit,
        m.data is Absent ==> metric_part(m) == m.name,
{
}

/// A data point is shown by its number.
pub proof fn law_points_are_shown(n: i64, t: Seq<char>)
    ensures
        point_text(PointModel::Double(t)) == t,
        n >= 0 ==> number_read(point_text(PointModel::Int(n))) == n,
        n < 0 ==> point_text(PointModel::Int(n))[0] == '-' && number_read(
            point_text(PointModel::Int(n)).skip(1),
        ) == -n,
{
    law_signed_decimal_reads_back(n as int);
}

/// The lines of a metric name it, and say what it is, its unit, which kind of
/// metric it is, and one line for each data point.
pub proof fn law_metrics_are_shown(m: MetricModel)
    ensures
        ({
            let l = metric_lines(m);
            &&& l[0] == "Metric: "@ + m.name
            &&& m.description.len() > 0 ==> l.contains("  Description: "@ + m.description)
            &&& m.unit.len() > 0 ==> l.contains("  Unit: "@ + m.unit)
            &&& m.data is Gauge ==> l.contains("  Type: Gauge"@)
            &&& m.data is Histogram ==> l.contains("  Type: Histogram"@)
            &&& m.data is ExpHistogram ==> l.contains("  Type: ExponentialHistogram"@)
            &&& m.data is Summary ==> l.contains("  Type: Summary"@)
            &&& m.data !is Absent ==> data_lines(m.data).len() == 1 + data_len(m.data)
            &&& forall|i: int|
                0 <= i < data_lines(m.data).len() ==> l.contains(#[trigger] data_lines(m.data)[i])
        }),
{
    let l = metric_lines(m);
    let a: int = if m.description.len() > 0 {
        1
    } else {
        0
    };
    let b: int = if m.unit.len() > 0 {
        1
    } else {
        0
    };
    if a == 1 {
        assert(l[1] == "  Description: "@ + m.description);
    }
    if b == 1 {
        assert(l[1 + a] == "  Unit: "@ + m.unit);
    }
    let d = data_lines(m.data);
    assert forall|i: int| 0 <= i < d.len() implies l.contains(#[trigger] d[i]) by {
        assert(l[1 + a + b + i] == d[i]);
    }
    if m.data !is Absent {
        assert(l.contains(d[0]));
    }
}

/// Each data point of a gauge or a sum is on a line with its time and value.
pub proof fn law_number_points_are_shown(
    points: Seq<NumberPointModel>,
    is_monotonic: bool,
    temporality: i32,
    i: int,
)
    requires
        0 <= i < points.len(),
        points[i].value is Some,
    ensures
        data_lines(MetricDataModel::Gauge(points))[i + 1] == "  - time="@ + timestamp_text(
            points[i].time_unix_nano,
        ) + ", value="@ + point_text(points[i].value->0),
        data_lines(MetricDataModel::Sum { is_monotonic, temporality, points })[i + 1]
            == "  - time="@ + timestamp_text(points[i].time_unix_nano) + ", start_time="@
            + timestamp_text(points[i].start_time_unix_nano) + ", value="@ + point_text(
            points[i].value->0,
        ),
        is_monotonic ==> data_lines(MetricDataModel::Sum { is_monotonic, temporality, points })[0]
            == "  Type: Sum (monotonic="@ + "true"@ + ", temporality="@ + decimal_int(
            temporality as int,
        ) + ")"@,
        !is_monotonic ==> data_lines(MetricDataModel::Sum { is_monotonic, temporality, points })[0]
            == "  Type: Sum (monotonic="@ + "false"@ + ", temporality="@ + decimal_int(
            temporality as int,
        ) + ")"@,
{
}

/// Data points are counted, whatever kind of metric they belong to.
pub proof fn law_data_points_are_counted(m: Seq<MetricModel>, next: MetricModel)
    ensures
        total_points(Seq::empty()) == 0,
        total_points(m.push(next)) == total_points(m) + data_len(next.data),
        next.data matches MetricDataModel::Gauge(p) ==> data_len(next.data) == p.len(),
        next.data matches MetricDataModel::Sum { is_monotonic, temporality, points } ==> data_len(
            next.data,
        ) == points.len(),
        next.data matches MetricDataModel::Histogram(p) ==> data_len(next.data) == p.len(),
        next.data matches MetricDataModel::ExpHistogram(p) ==> data_len(next.data) == p.len(),
        next.data matches MetricDataModel::Summary(p) ==> data_len(next.data) == p.len(),
        next.data is Absent ==> data_len(next.data) == 0,
{
    assert(m.push(next).drop_last() =~= m);
}

/// The line of a record: its bytes where those are asked for; otherwise the
/// summary of its metrics or spans, or its first message, where it has one; and
/// otherwise its payload as text. Messages and payloads are cut to 160
/// characters.
pub proof fn law_records_are_summed_up(d: DetailModel, b: LogsModel, t: Seq<char>)
    ensures
        summary_text(d, true) == hex_cut(d.payload, 32),
        d.meta.record_type == RecordType::Logs && logs_of(d.payload) == Some(b) && log_message(b)
            == Some(t) ==> summary_text(d, false) == cut(flattened(t), 160),
        d.meta.record_type == RecordType::Logs && logs_of(d.payload) is None ==> summary_text(
            d,
            false,
        ) == cut(flattened(utf8_lossy(d.payload)), 160),
        d.meta.record_type == RecordType::Metrics && metrics_of(d.payload) is Some
            && metrics_summary(metrics_of(d.payload)->0) == Some(t) ==> summary_text(d, false) == t,
        d.meta.record_type == RecordType::Traces && traces_of(d.payload) is Some && traces_summary(
            traces_of(d.payload)->0,
        ) == Some(t) ==> summary_text(d, false) == t,
        d.meta.record_type == RecordType::Metrics && metrics_of(d.payload) is None ==> summary_text(
            d,
            false,
        ) == cut(flattened(utf8_lossy(d.payload)), 160),
        d.meta.record_type == RecordType::Traces && traces_of(d.payload) is None ==> summary_text(
            d,
            false,
        ) == cut(flattened(utf8_lossy(d.payload)), 160),
{
}

/// The full text of a record: its first message, else what its metrics or spans
/// say, else its bytes or its payload as text.
pub proof fn law_records_are_shown_in_full(d: DetailModel, t: Seq<char>)
    ensures
        logs_of(d.payload) is Some && log_message(logs_of(d.payload)->0) == Some(t) ==> full_text(
            d,
            false,
        ) == t && full_text(d, true) == t,
        payload_message(d.payload) is None && d.meta.record_type == RecordType::Metrics
            && metrics_of(d.payload) is Some && metrics_message(metrics_of(d.payload)->0)
            == Some(t) ==> full_text(d, false) == t && full_text(d, true) == t,
        payload_message(d.payload) is None && d.meta.record_type == RecordType::Traces
            && traces_of(d.payload) is Some && traces_message(traces_of(d.payload)->0) == Some(t)
            ==> full_text(d, false) == t && full_text(d, true) == t,
        payload_message(d.payload) is None && d.meta.record_type == RecordType::Logs ==> full_text(
            d,
            false,
        ) == utf8_lossy(d.payload) && full_text(d, true) == dump_from(d.payload, 0),
{
}

/// Each data point of a histogram or a summary is on a line with its time and
/// what it counts.
pub proof fn law_counted_points_are_shown(
    h: Seq<HistogramPointModel>,
    e: Seq<ExpHistogramPointModel>,
    s: Seq<SummaryPointModel>,
    i: int,
)
    ensures
        0 <= i < h.len() ==> data_lines(MetricDataModel::Histogram(h))[i + 1] == "  - time="@
            + timestamp_text(h[i].time_unix_nano) + ", count="@ + decimal(h[i].count as nat)
            + ", sum="@ + h[i].sum,
        0 <= i < e.len() ==> data_lines(MetricDataModel::ExpHistogram(e))[i + 1] == "  - time="@
            + timestamp_text(e[i].time_unix_nano) + ", count="@ + decimal(e[i].count as nat)
            + ", scale="@ + decimal_int(e[i].scale as int),
        0 <= i < s.len() ==> data_lines(MetricDataModel::Summary(s))[i + 1] == "  - time="@
            + timestamp_text(s[i].time_unix_nano) + ", count="@ + decimal(s[i].count as nat)
            + ", sum="@ + s[i].sum,
{
}

} // verus!
