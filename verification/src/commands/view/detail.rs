//! What a record says, in plain text.
use vstd::prelude::*;

use crate::bridge::protobuf::{
    decode_logs, decode_metrics, decode_traces, logs_of, metrics_of, traces_of,
};
use crate::bridge::timestamps::{format_utc, short_format, utc_text};
use crate::bridge::utf8::{from_utf8_lossy, utf8_lossy};
use crate::commands::export::{
    format_any_value, format_timestamp, record_rows, timestamp_text, value_option, value_text,
};
use crate::commands::view::flatten::{
    all_log_items, all_log_scopes, all_metric_items, all_metric_scopes, all_span_items,
    all_span_scopes, log_items, log_items_view, log_scopes, metric_items, metric_items_view,
    metric_scopes, span_items, span_items_view, span_scopes,
};
use crate::commands::view::text::{
    cut, dump_from, flattened, hex_cut, hex_dump, hex_preview, push_spaces, spaces, text_preview,
    trim_single_line,
};
use crate::commands::view::types::{DetailModel, DetailRecord};
use crate::dedup::detect::text_option;
use crate::json::{bool_text, JsonValue};
use crate::otlp::{
    copy_bytes, AnyModel, AttrValue, ExpHistogramPoint, ExpHistogramPointModel, HistogramPoint,
    HistogramPointModel, KvModel, LogRecordModel, LogsModel, LogsRequest, MetricData,
    MetricDataModel, MetricItem, MetricModel, MetricsModel, MetricsRequest, NumberPoint,
    NumberPointModel, PointModel, PointValue, SpanModel, SummaryPoint, SummaryPointModel,
    TraceSpan, TracesModel, TracesRequest,
};
use crate::record::{RecordModel, RecordType, StreamRecord};
use crate::text::numbers::{decimal, decimal_int, hex_encode, hex_text, i64_text, u64_text};
use crate::text::seqs::{join_strings, joined};
use crate::text::strings::{chars_of, string_between, texts};

verus! {

/// Adds a line.
fn push_line(lines: &mut Vec<String>, line: String)
    ensures
        texts(final(lines)@) == texts(old(lines)@) + seq![line@],
{
    let ghost before = texts(lines@);
    lines.push(line);
    assert(texts(lines@) =~= before + seq![line@]);
}

/// One line, where there is something to say.
pub open spec fn line_when(c: bool, line: Seq<char>) -> Seq<Seq<char>> {
    if c {
        seq![line]
    } else {
        Seq::empty()
    }
}

/// Adds a line where there is something to say.
fn push_line_when(lines: &mut Vec<String>, c: bool, prefix: &str, rest: &str)
    ensures
        texts(final(lines)@) == texts(old(lines)@) + line_when(c, prefix@ + rest@),
{
    let ghost before = texts(lines@);
    if c {
        let mut line = prefix.to_owned();
        line.append(rest);
        lines.push(line);
        assert(texts(lines@) =~= before + seq![prefix@ + rest@]);
    } else {
        assert(texts(lines@) =~= before + Seq::<Seq<char>>::empty());
    }
}

/// The message of the first log record whose body is a text.
pub open spec fn first_message(l: Seq<LogRecordModel>) -> Option<Seq<char>>
    decreases l.len(),
{
    if l.len() == 0 {
        None
    } else {
        match l.first().body {
            Some(AnyModel::Str(s)) => Some(s),
            _ => first_message(l.drop_first()),
        }
    }
}

/// The message of a batch.
pub open spec fn log_message(b: LogsModel) -> Option<Seq<char>> {
    first_message(all_log_items(all_log_scopes(b.resource_logs)))
}

/// The message of a batch: the first body that is a text.
pub fn log_batch_message(batch: &LogsRequest) -> (r: Option<String>)
    ensures
        text_option(r) == log_message(batch@),
{
    let scopes = log_scopes(batch);
    let items = log_items(&scopes);
    let ghost all = log_items_view(items@);
    assert(all.skip(0) =~= all);
    for i in 0..items.len()
        invariant
            all == log_items_view(items@),
            all == all_log_items(all_log_scopes(batch@.resource_logs)),
            first_message(all) == first_message(all.skip(i as int)),
    {
        assert(all.skip(i as int).drop_first() =~= all.skip(i + 1));
        assert(all.skip(i as int).first() == items@[i as int]@);
        if let Some(AttrValue::Str(s)) = &items[i].body {
            return Some(s.clone());
        }
    }
    None
}

/// The message of a payload that encodes a log batch.
pub open spec fn payload_message(payload: Seq<u8>) -> Option<Seq<char>> {
    match logs_of(payload) {
        Some(b) => log_message(b),
        None => None,
    }
}

/// The message of a payload that encodes a log batch.
pub fn extract_otlp_log_message(payload: &[u8]) -> (r: Option<String>)
    ensures
        text_option(r) == payload_message(payload@),
{
    match decode_logs(payload) {
        Some(batch) => log_batch_message(&batch),
        None => None,
    }
}

/// The name of a severity number.
pub open spec fn severity_number_name(value: i32) -> Option<Seq<char>> {
    if 1 <= value <= 4 {
        Some("TRACE"@)
    } else if 5 <= value <= 8 {
        Some("DEBUG"@)
    } else if 9 <= value <= 12 {
        Some("INFO"@)
    } else if 13 <= value <= 16 {
        Some("WARN"@)
    } else if 17 <= value <= 20 {
        Some("ERROR"@)
    } else if 21 <= value <= 24 {
        Some("FATAL"@)
    } else {
        None
    }
}

/// The name of a severity number.
pub fn severity_number_label(value: i32) -> (r: Option<&'static str>)
    ensures
        match r {
            Some(s) => severity_number_name(value) == Some(s@),
            None => severity_number_name(value) is None,
        },
        r is Some <==> 1 <= value <= 24,
        1 <= value <= 4 ==> r->0@ == "TRACE"@,
        5 <= value <= 8 ==> r->0@ == "DEBUG"@,
        9 <= value <= 12 ==> r->0@ == "INFO"@,
        13 <= value <= 16 ==> r->0@ == "WARN"@,
        17 <= value <= 20 ==> r->0@ == "ERROR"@,
        21 <= value <= 24 ==> r->0@ == "FATAL"@,
{
    if 1 <= value && value <= 4 {
        Some("TRACE")
    } else if 5 <= value && value <= 8 {
        Some("DEBUG")
    } else if 9 <= value && value <= 12 {
        Some("INFO")
    } else if 13 <= value && value <= 16 {
        Some("WARN")
    } else if 17 <= value && value <= 20 {
        Some("ERROR")
    } else if 21 <= value && value <= 24 {
        Some("FATAL")
    } else {
        None
    }
}

/// The severity of the first log record that has one, as text or as number.
pub open spec fn first_severity(l: Seq<LogRecordModel>) -> Option<Seq<char>>
    decreases l.len(),
{
    if l.len() == 0 {
        None
    } else if l.first().severity_text.len() > 0 {
        Some(l.first().severity_text)
    } else if severity_number_name(l.first().severity_number) is Some {
        severity_number_name(l.first().severity_number)
    } else {
        first_severity(l.drop_first())
    }
}

/// The severity of a batch.
pub open spec fn log_severity(b: LogsModel) -> Option<Seq<char>> {
    first_severity(all_log_items(all_log_scopes(b.resource_logs)))
}

/// The severity of a batch.
pub fn log_batch_severity(batch: &LogsRequest) -> (r: Option<String>)
    ensures
        text_option(r) == log_severity(batch@),
{
    let scopes = log_scopes(batch);
    let items = log_items(&scopes);
    let ghost all = log_items_view(items@);
    assert(all.skip(0) =~= all);
    for i in 0..items.len()
        invariant
            all == log_items_view(items@),
            all == all_log_items(all_log_scopes(batch@.resource_logs)),
            first_severity(all) == first_severity(all.skip(i as int)),
    {
        assert(all.skip(i as int).drop_first() =~= all.skip(i + 1));
        assert(all.skip(i as int).first() == items@[i as int]@);
        if !items[i].severity_text.as_str().is_empty() {
            return Some(items[i].severity_text.clone());
        }
        if let Some(name) = severity_number_label(items[i].severity_number) {
            return Some(name.to_owned());
        }
    }
    None
}

/// The severity of a payload that encodes a log batch.
pub fn extract_otlp_log_severity(payload: &[u8]) -> (r: Option<String>)
    ensures
        text_option(r) == match logs_of(payload@) {
            Some(b) => log_severity(b),
            None => None,
        },
{
    match decode_logs(payload) {
        Some(batch) => log_batch_severity(&batch),
        None => None,
    }
}

/// The value of a data point as text.
pub open spec fn point_text(v: PointModel) -> Seq<char> {
    match v {
        PointModel::Double(t) => t,
        PointModel::Int(n) => decimal_int(n as int),
    }
}

/// The value of a data point as text.
pub fn format_data_point_value(value: &PointValue) -> (r: String)
    ensures
        r@ == point_text(value@),
{
    match value {
        PointValue::Double(t) => t.clone(),
        PointValue::Int(n) => i64_text(*n),
    }
}

/// The value of a data point as text; nothing where it has none.
pub open spec fn value_or_nothing(v: Option<PointModel>) -> Seq<char> {
    match v {
        Some(x) => point_text(x),
        None => Seq::empty(),
    }
}

/// The value of a data point as text; nothing where it has none.
pub fn format_point(p: &NumberPoint) -> (r: String)
    ensures
        r@ == value_or_nothing(p@.value),
{
    match &p.value {
        Some(v) => format_data_point_value(v),
        None => String::new(),
    }
}

/// A count as text.
pub open spec fn count_text(n: u64) -> Seq<char> {
    "count="@ + decimal(n as nat)
}

fn format_count(n: u64) -> (r: String)
    ensures
        r@ == count_text(n),
{
    let mut t = "count=".to_owned();
    t.append(u64_text(n).as_str());
    t
}

/// The first value of a metric as text.
pub open spec fn first_value(d: MetricDataModel) -> Option<Seq<char>> {
    match d {
        MetricDataModel::Absent => None,
        MetricDataModel::Gauge(p) => if p.len() > 0 && p[0].value is Some {
            Some(point_text(p[0].value->0))
        } else {
            None
        },
        MetricDataModel::Sum { is_monotonic, temporality, points } => if points.len() > 0
            && points[0].value is Some {
            Some(point_text(points[0].value->0))
        } else {
            None
        },
        MetricDataModel::Histogram(p) => if p.len() > 0 {
            Some(count_text(p[0].count))
        } else {
            None
        },
        MetricDataModel::ExpHistogram(p) => if p.len() > 0 {
            Some(count_text(p[0].count))
        } else {
            None
        },
        MetricDataModel::Summary(p) => if p.len() > 0 {
            Some(count_text(p[0].count))
        } else {
            None
        },
    }
}

fn first_point(points: &Vec<NumberPoint>) -> (r: Option<String>)
    ensures
        text_option(r) == (if points@.len() > 0 && points@[0]@.value is Some {
            Some(point_text(points@[0]@.value->0))
        } else {
            None
        }),
{
    if points.len() == 0 {
        return None;
    }
    match &points[0].value {
        Some(v) => Some(format_data_point_value(v)),
        None => None,
    }
}

/// The first value of a metric as text.
pub fn first_value_text(data: &MetricData) -> (r: Option<String>)
    ensures
        text_option(r) == first_value(data@),
{
    match data {
        MetricData::Absent => None,
        MetricData::Gauge(p) => first_point(p),
        MetricData::Sum { is_monotonic: _, temporality: _, points } => first_point(points),
        MetricData::Histogram(p) => if p.len() > 0 {
            Some(format_count(p[0].count))
        } else {
            None
        },
        MetricData::ExpHistogram(p) => if p.len() > 0 {
            Some(format_count(p[0].count))
        } else {
            None
        },
        MetricData::Summary(p) => if p.len() > 0 {
            Some(format_count(p[0].count))
        } else {
            None
        },
    }
}

/// A metric in a few words.
pub open spec fn metric_part(m: MetricModel) -> Seq<char> {
    match first_value(m.data) {
        Some(v) => m.name + "="@ + v + m.unit,
        None => m.name,
    }
}

fn metric_words(m: &MetricItem) -> (r: String)
    ensures
        r@ == metric_part(m@),
{
    let mut t = m.name.clone();
    if let Some(v) = first_value_text(&m.data) {
        t.append("=");
        t.append(v.as_str());
        t.append(m.unit.as_str());
    }
    t
}

/// Texts in one, or nothing where there are none.
pub open spec fn joined_or_nothing(parts: Seq<Seq<char>>, sep: Seq<char>) -> Option<Seq<char>> {
    if parts.len() == 0 {
        None
    } else {
        Some(joined(parts, sep))
    }
}

/// The metrics of a batch in a few words.
pub open spec fn metrics_summary(b: MetricsModel) -> Option<Seq<char>> {
    joined_or_nothing(
        all_metric_items(all_metric_scopes(b.resource_metrics)).map_values(
            |m: MetricModel| metric_part(m),
        ),
        ", "@,
    )
}

/// The metrics of a batch in a few words.
pub fn metrics_batch_summary(batch: &MetricsRequest) -> (r: Option<String>)
    ensures
        text_option(r) == metrics_summary(batch@),
{
    let scopes = metric_scopes(batch);
    let items = metric_items(&scopes);
    let ghost all = metric_items_view(items@).map_values(|m: MetricModel| metric_part(m));
    let mut parts: Vec<String> = Vec::new();
    for i in 0..items.len()
        invariant
            all == metric_items_view(items@).map_values(|m: MetricModel| metric_part(m)),
            texts(parts@) == all.take(i as int),
    {
        push_line(&mut parts, metric_words(items[i]));
        assert(all[i as int] == metric_part(items@[i as int]@));
        assert(texts(parts@) =~= all.take(i + 1));
    }
    assert(all.take(items@.len() as int) =~= all);
    if parts.len() == 0 {
        None
    } else {
        Some(join_strings(&parts, ", "))
    }
}

/// The metrics of a payload in a few words.
pub open spec fn payload_metrics_summary(payload: Seq<u8>) -> Option<Seq<char>> {
    match metrics_of(payload) {
        Some(b) => metrics_summary(b),
        None => None,
    }
}

/// The metrics of a payload in a few words.
pub fn extract_otlp_metrics_summary(payload: &[u8]) -> (r: Option<String>)
    ensures
        text_option(r) == payload_metrics_summary(payload@),
{
    match decode_metrics(payload) {
        Some(batch) => metrics_batch_summary(&batch),
        None => None,
    }
}

/// The name of a span kind.
pub open spec fn span_kind_name(kind: i32) -> Seq<char> {
    if kind == 1 {
        "Internal"@
    } else if kind == 2 {
        "Server"@
    } else if kind == 3 {
        "Client"@
    } else if kind == 4 {
        "Producer"@
    } else if kind == 5 {
        "Consumer"@
    } else {
        "Unknown("@ + decimal_int(kind as int) + ")"@
    }
}

/// The name of a span kind.
pub fn format_span_kind(kind: i32) -> (r: String)
    ensures
        r@ == span_kind_name(kind),
{
    if kind == 1 {
        "Internal".to_owned()
    } else if kind == 2 {
        "Server".to_owned()
    } else if kind == 3 {
        "Client".to_owned()
    } else if kind == 4 {
        "Producer".to_owned()
    } else if kind == 5 {
        "Consumer".to_owned()
    } else {
        let mut t = "Unknown(".to_owned();
        t.append(i64_text(kind as i64).as_str());
        t.append(")");
        t
    }
}

/// A span in a few words.
pub open spec fn span_part(s: SpanModel) -> Seq<char> {
    let start = s.name + " ("@ + span_kind_name(s.kind);
    match s.status {
        Some(status) => start + ", status="@ + decimal_int(status.code as int) + ")"@,
        None => start + ")"@,
    }
}

fn span_words(s: &TraceSpan) -> (r: String)
    ensures
        r@ == span_part(s@),
{
    let mut t = s.name.clone();
    t.append(" (");
    t.append(format_span_kind(s.kind).as_str());
    if let Some(status) = &s.status {
        t.append(", status=");
        t.append(i64_text(status.code as i64).as_str());
        t.append(")");
    } else {
        t.append(")");
    }
    t
}

/// The spans of a batch in a few words.
pub open spec fn traces_summary(b: TracesModel) -> Option<Seq<char>> {
    joined_or_nothing(
        all_span_items(all_span_scopes(b.resource_spans)).map_values(
            |s: SpanModel| span_part(s),
        ),
        ", "@,
    )
}

/// The spans of a batch in a few words.
pub fn traces_batch_summary(batch: &TracesRequest) -> (r: Option<String>)
    ensures
        text_option(r) == traces_summary(batch@),
{
    let scopes = span_scopes(batch);
    let items = span_items(&scopes);
    let ghost all = span_items_view(items@).map_values(|s: SpanModel| span_part(s));
    let mut parts: Vec<String> = Vec::new();
    for i in 0..items.len()
        invariant
            all == span_items_view(items@).map_values(|s: SpanModel| span_part(s)),
            texts(parts@) == all.take(i as int),
    {
        push_line(&mut parts, span_words(items[i]));
        assert(all[i as int] == span_part(items@[i as int]@));
        assert(texts(parts@) =~= all.take(i + 1));
    }
    assert(all.take(items@.len() as int) =~= all);
    if parts.len() == 0 {
        None
    } else {
        Some(join_strings(&parts, ", "))
    }
}

/// The spans of a payload in a few words.
pub open spec fn payload_traces_summary(payload: Seq<u8>) -> Option<Seq<char>> {
    match traces_of(payload) {
        Some(b) => traces_summary(b),
        None => None,
    }
}

/// The spans of a payload in a few words.
pub fn extract_otlp_traces_summary(payload: &[u8]) -> (r: Option<String>)
    ensures
        text_option(r) == payload_traces_summary(payload@),
{
    match decode_traces(payload) {
        Some(batch) => traces_batch_summary(&batch),
        None => None,
    }
}

/// The text of an attribute value; nothing where there is none.
pub open spec fn attr_text(v: Option<AnyModel>) -> Seq<char> {
    match v {
        Some(x) => value_text(Some(x)),
        None => Seq::empty(),
    }
}

/// The text of an attribute value; nothing where there is none.
pub fn format_attr(value: &Option<AttrValue>) -> (r: String)
    ensures
        r@ == attr_text(value_option(*value)),
{
    if value.is_some() {
        format_any_value(value)
    } else {
        String::new()
    }
}

/// The line for an attribute of a span.
pub open spec fn span_attr_line(a: KvModel) -> Seq<char> {
    "  Attr: "@ + a.key + "="@ + attr_text(a.value)
}

/// A span, line by line.
pub open spec fn span_lines(s: SpanModel) -> Seq<Seq<char>> {
    seq!["Span: "@ + s.name] + line_when(
        s.trace_id.len() > 0,
        "  Trace ID: "@ + hex_text(s.trace_id),
    ) + line_when(s.span_id.len() > 0, "  Span ID: "@ + hex_text(s.span_id)) + line_when(
        s.parent_span_id.len() > 0,
        "  Parent Span ID: "@ + hex_text(s.parent_span_id),
    ) + seq!["  Kind: "@ + span_kind_name(s.kind)] + seq![
        "  Start: "@ + timestamp_text(s.start_time_unix_nano),
    ] + seq!["  End:   "@ + timestamp_text(s.end_time_unix_nano)] + (match s.status {
        Some(status) => seq![
            "  Status: code="@ + decimal_int(status.code as int) + " message="@ + status.message,
        ],
        None => Seq::empty(),
    }) + s.attributes.map_values(|a: KvModel| span_attr_line(a)) + seq![Seq::<char>::empty()]
}

fn push_span_lines(lines: &mut Vec<String>, s: &TraceSpan)
    ensures
        texts(final(lines)@) == texts(old(lines)@) + span_lines(s@),
{
    let ghost start = texts(lines@);
    let mut own: Vec<String> = Vec::new();
    push_line_when(&mut own, true, "Span: ", s.name.as_str());
    push_line_when(&mut own, s.trace_id.len() > 0, "  Trace ID: ", hex_encode(&s.trace_id).as_str());
    push_line_when(&mut own, s.span_id.len() > 0, "  Span ID: ", hex_encode(&s.span_id).as_str());
    push_line_when(
        &mut own,
        s.parent_span_id.len() > 0,
        "  Parent Span ID: ",
        hex_encode(&s.parent_span_id).as_str(),
    );
    push_line_when(&mut own, true, "  Kind: ", format_span_kind(s.kind).as_str());
    push_line_when(&mut own, true, "  Start: ", format_timestamp(s.start_time_unix_nano).as_str());
    push_line_when(&mut own, true, "  End:   ", format_timestamp(s.end_time_unix_nano).as_str());
    if let Some(status) = &s.status {
        let mut m = "  Status: code=".to_owned();
        m.append(i64_text(status.code as i64).as_str());
        m.append(" message=");
        m.append(status.message.as_str());
        push_line(&mut own, m);
    }
    let ghost head = texts(own@);
    let ghost attrs = s@.attributes.map_values(|a: KvModel| span_attr_line(a));
    assert(head + attrs.take(0) =~= head);
    for i in 0..s.attributes.len()
        invariant
            attrs == s@.attributes.map_values(|a: KvModel| span_attr_line(a)),
            texts(own@) == head + attrs.take(i as int),
    {
        let mut m = "  Attr: ".to_owned();
        m.append(s.attributes[i].key.as_str());
        m.append("=");
        m.append(format_attr(&s.attributes[i].value).as_str());
        assert(s@.attributes[i as int] == s.attributes@[i as int]@);
        assert(attrs[i as int] == m@);
        push_line(&mut own, m);
        assert(texts(own@) =~= head + attrs.take(i + 1));
    }
    assert(attrs.take(s.attributes@.len() as int) =~= attrs);
    push_line(&mut own, String::new());
    assert(texts(own@) =~= span_lines(s@));
    let ghost added = texts(own@);
    lines.append(&mut own);
    assert(texts(lines@) =~= start + added);
}

/// The lines of spans.
pub open spec fn all_span_lines(s: Seq<SpanModel>) -> Seq<Seq<char>>
    decreases s.len(),
{
    if s.len() == 0 {
        Seq::empty()
    } else {
        all_span_lines(s.drop_last()) + span_lines(s.last())
    }
}

/// The spans of a batch, line by line.
pub open spec fn traces_message(b: TracesModel) -> Option<Seq<char>> {
    joined_or_nothing(all_span_lines(all_span_items(all_span_scopes(b.resource_spans))), "\n"@)
}

/// The spans of a batch, line by line.
pub fn traces_batch_message(batch: &TracesRequest) -> (r: Option<String>)
    ensures
        text_option(r) == traces_message(batch@),
{
    let scopes = span_scopes(batch);
    let items = span_items(&scopes);
    let ghost all = span_items_view(items@);
    let mut lines: Vec<String> = Vec::new();
    assert(all.take(0) =~= Seq::empty());
    assert(texts(lines@) =~= Seq::empty());
    for i in 0..items.len()
        invariant
            all == span_items_view(items@),
            texts(lines@) == all_span_lines(all.take(i as int)),
    {
        assert(all.take(i + 1).drop_last() =~= all.take(i as int));
        assert(all[i as int] == items@[i as int]@);
        push_span_lines(&mut lines, items[i]);
    }
    assert(all.take(items@.len() as int) =~= all);
    if lines.len() == 0 {
        None
    } else {
        Some(join_strings(&lines, "\n"))
    }
}

/// The spans of a payload, line by line.
pub open spec fn payload_traces_message(payload: Seq<u8>) -> Option<Seq<char>> {
    match traces_of(payload) {
        Some(b) => traces_message(b),
        None => None,
    }
}

/// The spans of a payload, line by line.
pub fn extract_otlp_traces_message(payload: &[u8]) -> (r: Option<String>)
    ensures
        text_option(r) == payload_traces_message(payload@),
{
    match decode_traces(payload) {
        Some(batch) => traces_batch_message(&batch),
        None => None,
    }
}

/// The line for a data point of a gauge.
pub open spec fn gauge_line(p: NumberPointModel) -> Seq<char> {
    "  - time="@ + timestamp_text(p.time_unix_nano) + ", value="@ + value_or_nothing(p.value)
}

/// The line for a data point of a sum.
pub open spec fn sum_line(p: NumberPointModel) -> Seq<char> {
    "  - time="@ + timestamp_text(p.time_unix_nano) + ", start_time="@ + timestamp_text(p.start_time_unix_nano) + ", value="@ + value_or_nothing(p.value)
}

/// The line for a data point of a histogram.
pub open spec fn histogram_line(p: HistogramPointModel) -> Seq<char> {
    "  - time="@ + timestamp_text(p.time_unix_nano) + ", count="@ + decimal(p.count as nat) + ", sum="@ + p.sum
}

/// The line for a data point of an exponential histogram.
pub open spec fn exp_line(p: ExpHistogramPointModel) -> Seq<char> {
    "  - time="@ + timestamp_text(p.time_unix_nano) + ", count="@ + decimal(p.count as nat) + ", scale="@ + decimal_int(p.scale as int)
}

/// The line for a data point of a summary.
pub open spec fn summary_line(p: SummaryPointModel) -> Seq<char> {
    "  - time="@ + timestamp_text(p.time_unix_nano) + ", count="@ + decimal(p.count as nat) + ", sum="@ + p.sum
}

/// The data points of a metric, line by line.
pub open spec fn data_lines(d: MetricDataModel) -> Seq<Seq<char>> {
    match d {
        MetricDataModel::Absent => Seq::empty(),
        MetricDataModel::Gauge(p) => seq!["  Type: Gauge"@] + p.map_values(
            |x: NumberPointModel| gauge_line(x),
        ),
        MetricDataModel::Sum { is_monotonic, temporality, points } => seq![
            "  Type: Sum (monotonic="@ + bool_text(is_monotonic) + ", temporality="@ + decimal_int(temporality as int) + ")"@,
        ] + points.map_values(|x: NumberPointModel| sum_line(x)),
        MetricDataModel::Histogram(p) => seq!["  Type: Histogram"@] + p.map_values(
            |x: HistogramPointModel| histogram_line(x),
        ),
        MetricDataModel::ExpHistogram(p) => seq!["  Type: ExponentialHistogram"@] + p.map_values(
            |x: ExpHistogramPointModel| exp_line(x),
        ),
        MetricDataModel::Summary(p) => seq!["  Type: Summary"@] + p.map_values(
            |x: SummaryPointModel| summary_line(x),
        ),
    }
}

fn push_gauge_lines(lines: &mut Vec<String>, points: &Vec<NumberPoint>)
    ensures
        texts(final(lines)@) == texts(old(lines)@) + points@.map_values(|x: NumberPoint| x@).map_values(
            |x: NumberPointModel| gauge_line(x),
        ),
{
    let ghost start = texts(lines@);
    let ghost all = points@.map_values(|x: NumberPoint| x@).map_values(|x: NumberPointModel| gauge_line(x));
    assert(start + all.take(0) =~= start);
    for i in 0..points.len()
        invariant
            all == points@.map_values(|x: NumberPoint| x@).map_values(|x: NumberPointModel| gauge_line(x)),
            texts(lines@) == start + all.take(i as int),
    {
        let mut m = "  - time=".to_owned();
        m.append(format_timestamp(points[i].time_unix_nano).as_str());
        m.append(", value=");
        m.append(format_point(&points[i]).as_str());
        assert(all[i as int] == m@);
        push_line(lines, m);
        assert(texts(lines@) =~= start + all.take(i + 1));
    }
    assert(all.take(points@.len() as int) =~= all);
}

fn push_sum_lines(lines: &mut Vec<String>, points: &Vec<NumberPoint>)
    ensures
        texts(final(lines)@) == texts(old(lines)@) + points@.map_values(|x: NumberPoint| x@).map_values(
            |x: NumberPointModel| sum_line(x),
        ),
{
    let ghost start = texts(lines@);
    let ghost all = points@.map_values(|x: NumberPoint| x@).map_values(|x: NumberPointModel| sum_line(x));
    assert(start + all.take(0) =~= start);
    for i in 0..points.len()
        invariant
            all == points@.map_values(|x: NumberPoint| x@).map_values(|x: NumberPointModel| sum_line(x)),
            texts(lines@) == start + all.take(i as int),
    {
        let mut m = "  - time=".to_owned();
        m.append(format_timestamp(points[i].time_unix_nano).as_str());
        m.append(", start_time=");
        m.append(format_timestamp(points[i].start_time_unix_nano).as_str());
        m.append(", value=");
        m.append(format_point(&points[i]).as_str());
        assert(all[i as int] == m@);
        push_line(lines, m);
        assert(texts(lines@) =~= start + all.take(i + 1));
    }
    assert(all.take(points@.len() as int) =~= all);
}

fn push_histogram_lines(lines: &mut Vec<String>, points: &Vec<HistogramPoint>)
    ensures
        texts(final(lines)@) == texts(old(lines)@) + points@.map_values(|x: HistogramPoint| x@).map_values(
            |x: HistogramPointModel| histogram_line(x),
        ),
{
    let ghost start = texts(lines@);
    let ghost all = points@.map_values(|x: HistogramPoint| x@).map_values(|x: HistogramPointModel| histogram_line(x));
    assert(start + all.take(0) =~= start);
    for i in 0..points.len()
        invariant
            all == points@.map_values(|x: HistogramPoint| x@).map_values(|x: HistogramPointModel| histogram_line(x)),
            texts(lines@) == start + all.take(i as int),
    {
        let mut m = "  - time=".to_owned();
        m.append(format_timestamp(points[i].time_unix_nano).as_str());
        m.append(", count=");
        m.append(u64_text(points[i].count).as_str());
        m.append(", sum=");
        m.append(points[i].sum.as_str());
        assert(all[i as int] == m@);
        push_line(lines, m);
        assert(texts(lines@) =~= start + all.take(i + 1));
    }
    assert(all.take(points@.len() as int) =~= all);
}

fn push_exp_lines(lines: &mut Vec<String>, points: &Vec<ExpHistogramPoint>)
    ensures
        texts(final(lines)@) == texts(old(lines)@) + points@.map_values(|x: ExpHistogramPoint| x@).map_values(
            |x: ExpHistogramPointModel| exp_line(x),
        ),
{
    let ghost start = texts(lines@);
    let ghost all = points@.map_values(|x: ExpHistogramPoint| x@).map_values(|x: ExpHistogramPointModel| exp_line(x));
    assert(start + all.take(0) =~= start);
    for i in 0..points.len()
        invariant
            all == points@.map_values(|x: ExpHistogramPoint| x@).map_values(|x: ExpHistogramPointModel| exp_line(x)),
            texts(lines@) == start + all.take(i as int),
    {
        let mut m = "  - time=".to_owned();
        m.append(format_timestamp(points[i].time_unix_nano).as_str());
        m.append(", count=");
        m.append(u64_text(points[i].count).as_str());
        m.append(", scale=");
        m.append(i64_text(points[i].scale as i64).as_str());
        assert(all[i as int] == m@);
        push_line(lines, m);
        assert(texts(lines@) =~= start + all.take(i + 1));
    }
    assert(all.take(points@.len() as int) =~= all);
}

fn push_summary_lines(lines: &mut Vec<String>, points: &Vec<SummaryPoint>)
    ensures
        texts(final(lines)@) == texts(old(lines)@) + points@.map_values(|x: SummaryPoint| x@).map_values(
            |x: SummaryPointModel| summary_line(x),
        ),
{
    let ghost start = texts(lines@);
    let ghost all = points@.map_values(|x: SummaryPoint| x@).map_values(|x: SummaryPointModel| summary_line(x));
    assert(start + all.take(0) =~= start);
    for i in 0..points.len()
        invariant
            all == points@.map_values(|x: SummaryPoint| x@).map_values(|x: SummaryPointModel| summary_line(x)),
            texts(lines@) == start + all.take(i as int),
    {
        let mut m = "  - time=".to_owned();
        m.append(format_timestamp(points[i].time_unix_nano).as_str());
        m.append(", count=");
        m.append(u64_text(points[i].count).as_str());
        m.append(", sum=");
        m.append(points[i].sum.as_str());
        assert(all[i as int] == m@);
        push_line(lines, m);
        assert(texts(lines@) =~= start + all.take(i + 1));
    }
    assert(all.take(points@.len() as int) =~= all);
}


fn bool_word(b: bool) -> (r: &'static str)
    ensures
        r@ == bool_text(b),
{
    if b {
        "true"
    } else {
        "false"
    }
}

fn push_data_lines(lines: &mut Vec<String>, data: &MetricData)
    ensures
        texts(final(lines)@) == texts(old(lines)@) + data_lines(data@),
{
    let ghost start = texts(lines@);
    match data {
        MetricData::Absent => {
            assert(start + Seq::<Seq<char>>::empty() =~= start);
        },
        MetricData::Gauge(p) => {
            push_line(lines, "  Type: Gauge".to_owned());
            push_gauge_lines(lines, p);
            assert(texts(lines@) =~= start + data_lines(data@));
        },
        MetricData::Sum { is_monotonic, temporality, points } => {
            let mut m = "  Type: Sum (monotonic=".to_owned();
            m.append(bool_word(*is_monotonic));
            m.append(", temporality=");
            m.append(i64_text(*temporality as i64).as_str());
            m.append(")");
            push_line(lines, m);
            push_sum_lines(lines, points);
            assert(texts(lines@) =~= start + data_lines(data@));
        },
        MetricData::Histogram(p) => {
            push_line(lines, "  Type: Histogram".to_owned());
            push_histogram_lines(lines, p);
            assert(texts(lines@) =~= start + data_lines(data@));
        },
        MetricData::ExpHistogram(p) => {
            push_line(lines, "  Type: ExponentialHistogram".to_owned());
            push_exp_lines(lines, p);
            assert(texts(lines@) =~= start + data_lines(data@));
        },
        MetricData::Summary(p) => {
            push_line(lines, "  Type: Summary".to_owned());
            push_summary_lines(lines, p);
            assert(texts(lines@) =~= start + data_lines(data@));
        },
    }
}

/// A metric, line by line.
pub open spec fn metric_lines(m: MetricModel) -> Seq<Seq<char>> {
    seq!["Metric: "@ + m.name] + line_when(
        m.description.len() > 0,
        "  Description: "@ + m.description,
    ) + line_when(m.unit.len() > 0, "  Unit: "@ + m.unit) + data_lines(m.data) + seq![
        Seq::<char>::empty(),
    ]
}

fn push_metric_lines(lines: &mut Vec<String>, m: &MetricItem)
    ensures
        texts(final(lines)@) == texts(old(lines)@) + metric_lines(m@),
{
    let ghost start = texts(lines@);
    let mut own: Vec<String> = Vec::new();
    push_line_when(&mut own, true, "Metric: ", m.name.as_str());
    push_line_when(
        &mut own,
        !m.description.as_str().is_empty(),
        "  Description: ",
        m.description.as_str(),
    );
    push_line_when(&mut own, !m.unit.as_str().is_empty(), "  Unit: ", m.unit.as_str());
    push_data_lines(&mut own, &m.data);
    push_line(&mut own, String::new());
    assert(texts(own@) =~= metric_lines(m@));
    let ghost added = texts(own@);
    lines.append(&mut own);
    assert(texts(lines@) =~= start + added);
}

/// The lines of metrics.
pub open spec fn all_metric_lines(s: Seq<MetricModel>) -> Seq<Seq<char>>
    decreases s.len(),
{
    if s.len() == 0 {
        Seq::empty()
    } else {
        all_metric_lines(s.drop_last()) + metric_lines(s.last())
    }
}

/// The metrics of a batch, line by line.
pub open spec fn metrics_message(b: MetricsModel) -> Option<Seq<char>> {
    joined_or_nothing(
        all_metric_lines(all_metric_items(all_metric_scopes(b.resource_metrics))),
        "\n"@,
    )
}

/// The metrics of a batch, line by line.
pub fn metrics_batch_message(batch: &MetricsRequest) -> (r: Option<String>)
    ensures
        text_option(r) == metrics_message(batch@),
{
    let scopes = metric_scopes(batch);
    let items = metric_items(&scopes);
    let ghost all = metric_items_view(items@);
    let mut lines: Vec<String> = Vec::new();
    assert(all.take(0) =~= Seq::empty());
    assert(texts(lines@) =~= Seq::empty());
    for i in 0..items.len()
        invariant
            all == metric_items_view(items@),
            texts(lines@) == all_metric_lines(all.take(i as int)),
    {
        assert(all.take(i + 1).drop_last() =~= all.take(i as int));
        assert(all[i as int] == items@[i as int]@);
        push_metric_lines(&mut lines, items[i]);
    }
    assert(all.take(items@.len() as int) =~= all);
    if lines.len() == 0 {
        None
    } else {
        Some(join_strings(&lines, "\n"))
    }
}

/// The metrics of a payload, line by line.
pub open spec fn payload_metrics_message(payload: Seq<u8>) -> Option<Seq<char>> {
    match metrics_of(payload) {
        Some(b) => metrics_message(b),
        None => None,
    }
}

/// The metrics of a payload, line by line.
pub fn extract_otlp_metrics_message(payload: &[u8]) -> (r: Option<String>)
    ensures
        text_option(r) == payload_metrics_message(payload@),
{
    match decode_metrics(payload) {
        Some(batch) => metrics_batch_message(&batch),
        None => None,
    }
}

/// A payload as text on one line.
pub open spec fn short_preview(payload: Seq<u8>) -> Seq<char> {
    cut(flattened(utf8_lossy(payload)), 160)
}

/// A record on one line.
pub open spec fn summary_text(d: DetailModel, hex: bool) -> Seq<char> {
    if hex {
        hex_cut(d.payload, 32)
    } else if d.meta.record_type == RecordType::Metrics {
        match payload_metrics_summary(d.payload) {
            Some(t) => t,
            None => short_preview(d.payload),
        }
    } else if d.meta.record_type == RecordType::Traces {
        match payload_traces_summary(d.payload) {
            Some(t) => t,
            None => short_preview(d.payload),
        }
    } else {
        match payload_message(d.payload) {
            Some(m) => cut(flattened(m), 160),
            None => short_preview(d.payload),
        }
    }
}

/// A record on one line.
pub fn format_summary(detail: &DetailRecord, hex_payload: bool) -> (r: String)
    ensures
        r@ == summary_text(detail@, hex_payload),
{
    if hex_payload {
        return hex_preview(&detail.payload, 32);
    }
    if detail.meta.record_type == RecordType::Metrics {
        return match extract_otlp_metrics_summary(&detail.payload) {
            Some(t) => t,
            None => text_preview(&detail.payload, 160),
        };
    }
    if detail.meta.record_type == RecordType::Traces {
        return match extract_otlp_traces_summary(&detail.payload) {
            Some(t) => t,
            None => text_preview(&detail.payload, 160),
        };
    }
    match extract_otlp_log_message(&detail.payload) {
        Some(m) => trim_single_line(m.as_str(), 160),
        None => text_preview(&detail.payload, 160),
    }
}

/// A record in full.
pub open spec fn full_text(d: DetailModel, hex: bool) -> Seq<char> {
    if payload_message(d.payload) is Some {
        payload_message(d.payload)->0
    } else if d.meta.record_type == RecordType::Metrics && payload_metrics_message(
        d.payload,
    ) is Some {
        payload_metrics_message(d.payload)->0
    } else if d.meta.record_type == RecordType::Traces && payload_traces_message(
        d.payload,
    ) is Some {
        payload_traces_message(d.payload)->0
    } else if hex {
        dump_from(d.payload, 0)
    } else {
        utf8_lossy(d.payload)
    }
}

/// A record in full.
pub fn render_modal_message(detail: &DetailRecord, hex_payload: bool) -> (r: String)
    ensures
        r@ == full_text(detail@, hex_payload),
{
    if let Some(message) = extract_otlp_log_message(&detail.payload) {
        return message;
    }
    if detail.meta.record_type == RecordType::Metrics {
        if let Some(message) = extract_otlp_metrics_message(&detail.payload) {
            return message;
        }
    }
    if detail.meta.record_type == RecordType::Traces {
        if let Some(message) = extract_otlp_traces_message(&detail.payload) {
            return message;
        }
    }
    if hex_payload {
        hex_dump(&detail.payload)
    } else {
        from_utf8_lossy(&detail.payload)
    }
}

/// The record as it is exported.
pub open spec fn detail_record(d: DetailModel) -> RecordModel {
    RecordModel {
        record_type: d.meta.record_type,
        seq: d.meta.seq,
        ts_unix_ns: d.meta.ts_unix_ns,
        payload: d.payload,
    }
}

/// The JSON rows of a record.
pub fn export_ndjson_objects(detail: &DetailRecord) -> (r: Vec<JsonValue>)
    ensures
        crate::commands::export::jsons_view(r@) == record_rows(
            detail_record(detail@),
            Seq::empty(),
            None,
        ),
{
    let record = StreamRecord {
        record_type: detail.meta.record_type,
        seq: detail.meta.seq,
        ts_unix_ns: detail.meta.ts_unix_ns,
        payload: copy_bytes(&detail.payload),
    };
    let fields: Vec<String> = Vec::new();
    assert(texts(fields@) =~= Seq::empty());
    crate::commands::export::export_ndjson_objects(&record, &fields)
}

/// A timestamp as month, day and time, in fifteen characters.
pub open spec fn syslog_text(ts: u64) -> Seq<char> {
    match utc_text((ts / 1_000_000_000) as i64, (ts % 1_000_000_000) as u32, short_format()) {
        Some(t) => t,
        None => digits_in_fifteen(ts),
    }
}

/// The digits of a number in fifteen characters.
pub open spec fn digits_in_fifteen(n: u64) -> Seq<char> {
    let digits = decimal(n as nat);
    if digits.len() <= 15 {
        digits + spaces((15 - digits.len()) as nat)
    } else {
        digits.take(15)
    }
}

/// The text of a timestamp, or its digits in fifteen characters where the
/// calendar does not reach that far.
pub fn syslog_or_digits(text: Option<String>, ts_unix_ns: u64) -> (r: String)
    ensures
        r@ == match text {
            Some(t) => t@,
            None => digits_in_fifteen(ts_unix_ns),
        },
{
    if let Some(t) = text {
        return t;
    }
    let mut digits = u64_text(ts_unix_ns);
    let chars = chars_of(digits.as_str());
    if chars.len() <= 15 {
        push_spaces(&mut digits, 15 - chars.len());
        digits
    } else {
        let r = string_between(&chars, 0, 15);
        assert(chars@.subrange(0, 15) =~= chars@.take(15));
        r
    }
}

/// A timestamp as month, day and time.
pub fn format_syslog_timestamp(ts_unix_ns: u64) -> (r: String)
    ensures
        r@ == syslog_text(ts_unix_ns),
{
    let secs = (ts_unix_ns / 1_000_000_000) as i64;
    let nanos = (ts_unix_ns % 1_000_000_000) as u32;
    syslog_or_digits(format_utc(secs, nanos, "%b %e %H:%M:%S"), ts_unix_ns)
}

/// The names of severities, from the least severe to the most severe.
pub open spec fn severity_ladder() -> Seq<Seq<char>> {
    seq!["TRACE"@, "DEBUG"@, "INFO"@, "WARN"@, "ERROR"@, "FATAL"@]
}

/// The numbers from one on climb the ladder of severities, four to a rung;
/// other numbers have no name.
pub proof fn law_severities_come_in_fours(value: i32)
    ensures
        severity_number_name(value) is Some <==> 1 <= value <= 24,
        1 <= value <= 24 ==> severity_number_name(value) == Some(
            severity_ladder()[(value - 1) / 4],
        ),
{
}

/// A log record names its severity: by a text, or else by a number.
pub open spec fn names_a_severity(l: LogRecordModel) -> bool {
    l.severity_text.len() > 0 || 1 <= l.severity_number <= 24
}

/// The severity of a batch is that of its first log record that names one; a
/// text goes before a number.
pub proof fn law_first_named_severity_is_shown(l: Seq<LogRecordModel>, i: int)
    requires
        0 <= i < l.len(),
        forall|j: int| 0 <= j < i ==> !names_a_severity(#[trigger] l[j]),
        names_a_severity(l[i]),
    ensures
        first_severity(l) == if l[i].severity_text.len() > 0 {
            Some(l[i].severity_text)
        } else {
            Some(severity_ladder()[(l[i].severity_number - 1) / 4])
        },
    decreases i,
{
    law_severities_come_in_fours(l[0].severity_number);
    if i > 0 {
        let rest = l.drop_first();
        assert(!names_a_severity(l[0]));
        assert forall|j: int| 0 <= j < i - 1 implies !names_a_severity(#[trigger] rest[j]) by {
            assert(!names_a_severity(l[j + 1]));
        }
        law_first_named_severity_is_shown(rest, i - 1);
    }
}

/// A batch in which no log record names a severity has none.
pub proof fn law_no_severity_is_made_up(l: Seq<LogRecordModel>)
    requires
        forall|j: int| 0 <= j < l.len() ==> !names_a_severity(#[trigger] l[j]),
    ensures
        first_severity(l) is None,
    decreases l.len(),
{
    if l.len() > 0 {
        let rest = l.drop_first();
        assert(!names_a_severity(l[0]));
        law_severities_come_in_fours(l[0].severity_number);
        assert forall|j: int| 0 <= j < rest.len() implies !names_a_severity(#[trigger] rest[j]) by {
            assert(!names_a_severity(l[j + 1]));
        }
        law_no_severity_is_made_up(rest);
    }
}

/// The message of a batch is the first body that is a text.
pub proof fn law_first_text_is_the_message(l: Seq<LogRecordModel>, i: int, text: Seq<char>)
    requires
        0 <= i < l.len(),
        forall|j: int| 0 <= j < i ==> !((#[trigger] l[j]).body matches Some(AnyModel::Str(_))),
        l[i].body == Some(AnyModel::Str(text)),
    ensures
        first_message(l) == Some(text),
    decreases i,
{
    if i > 0 {
        let rest = l.drop_first();
        assert(!(l[0].body matches Some(AnyModel::Str(_))));
        assert forall|j: int| 0 <= j < i - 1 implies !((#[trigger] rest[j]).body matches Some(
            AnyModel::Str(_),
        )) by {
            assert(!(l[j + 1].body matches Some(AnyModel::Str(_))));
        }
        law_first_text_is_the_message(rest, i - 1, text);
    }
}

} // verus!
