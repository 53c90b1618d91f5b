//! OTLP messages in protobuf encoding.
use opentelemetry_proto::tonic::collector::logs::v1::ExportLogsServiceRequest;
use opentelemetry_proto::tonic::collector::metrics::v1::ExportMetricsServiceRequest;
use opentelemetry_proto::tonic::collector::trace::v1::ExportTraceServiceRequest;
use opentelemetry_proto::tonic::common::v1 as common;
use opentelemetry_proto::tonic::common::v1::any_value::Value as AnyVariant;
use opentelemetry_proto::tonic::logs::v1 as logs;
use opentelemetry_proto::tonic::metrics::v1 as metrics;
use opentelemetry_proto::tonic::metrics::v1::metric::Data as MetricVariant;
use opentelemetry_proto::tonic::resource::v1 as resource;
use opentelemetry_proto::tonic::trace::v1 as trace;
use prost::bytes::Buf;
use prost::Message;
use vstd::prelude::*;

use crate::otlp::{
    AnyModel, AttrValue, ExpHistogramPoint, HistogramPoint, Attribute, KvModel, LogItem, LogsModel,
    LogsRequest, MetricItem, MetricData, MetricsModel, MetricsRequest, NumberPoint, PointValue,
    ResourceInfo, ResourceLogSet, ResourceMetricSet, ResourceSpanSet, ScopeInfo, ScopeLogSet, ScopeMetricSet,
    ScopeSpanSet, SpanStatus, SummaryPoint, TraceSpan, TracesModel, TracesRequest,
};

verus! {

/// The log batch that `payload` encodes; `None` where it encodes none.
pub uninterp spec fn logs_of(payload: Seq<u8>) -> Option<LogsModel>;

/// The trace batch that `payload` encodes; `None` where it encodes none.
pub uninterp spec fn traces_of(payload: Seq<u8>) -> Option<TracesModel>;

/// The metric batch that `payload` encodes; `None` where it encodes none.
pub uninterp spec fn metrics_of(payload: Seq<u8>) -> Option<MetricsModel>;

/// The protobuf encoding of a log batch.
pub uninterp spec fn logs_encoded(batch: LogsModel) -> Seq<u8>;

#[verifier::external_type_specification]
#[verifier::external_body]
pub struct ExAnyValue(common::AnyValue);

#[verifier::external_type_specification]
#[verifier::external_body]
pub struct ExKeyValue(common::KeyValue);

#[verifier::external_type_specification]
#[verifier::external_body]
pub struct ExScope(common::InstrumentationScope);

#[verifier::external_type_specification]
#[verifier::external_body]
pub struct ExResource(resource::Resource);

#[verifier::external_type_specification]
#[verifier::external_body]
pub struct ExLogRecord(logs::LogRecord);

#[verifier::external_type_specification]
#[verifier::external_body]
pub struct ExScopeLogs(logs::ScopeLogs);

#[verifier::external_type_specification]
#[verifier::external_body]
pub struct ExResourceLogs(logs::ResourceLogs);

#[verifier::external_type_specification]
#[verifier::external_body]
pub struct ExSpan(trace::Span);

#[verifier::external_type_specification]
#[verifier::external_body]
pub struct ExResourceSpans(trace::ResourceSpans);

#[verifier::external_type_specification]
#[verifier::external_body]
pub struct ExNumberDataPoint(metrics::NumberDataPoint);

#[verifier::external_type_specification]
#[verifier::external_body]
pub struct ExMetricData(MetricVariant);

#[verifier::external_type_specification]
#[verifier::external_body]
pub struct ExMetric(metrics::Metric);

#[verifier::external_type_specification]
#[verifier::external_body]
pub struct ExResourceMetrics(metrics::ResourceMetrics);

#[verifier::external_type_specification]
#[verifier::external_body]
pub struct ExHistogramDataPoint(metrics::HistogramDataPoint);

#[verifier::external_type_specification]
#[verifier::external_body]
pub struct ExExponentialHistogramDataPoint(metrics::ExponentialHistogramDataPoint);

#[verifier::external_type_specification]
#[verifier::external_body]
pub struct ExSummaryDataPoint(metrics::SummaryDataPoint);

/// Converts an OTLP `AnyValue`, variant by variant; a double becomes its bits.
#[verifier::external_body]
fn any_from(v: common::AnyValue) -> AttrValue {
    match v.value {
        None => AttrValue::Empty,
        Some(AnyVariant::StringValue(s)) => AttrValue::Str(s),
        Some(AnyVariant::BoolValue(b)) => AttrValue::Bool(b),
        Some(AnyVariant::IntValue(n)) => AttrValue::Int(n),
        Some(AnyVariant::DoubleValue(d)) => AttrValue::Double(d.to_bits()),
        Some(AnyVariant::BytesValue(b)) => AttrValue::Bytes(b),
        Some(AnyVariant::ArrayValue(a)) => AttrValue::Array(
            a.values.into_iter().map(any_from).collect(),
        ),
        Some(AnyVariant::KvlistValue(m)) => AttrValue::Kvlist(kvs_from(m.values)),
    }
}

/// Converts OTLP attributes, one by one.
#[verifier::external_body]
fn kvs_from(v: Vec<common::KeyValue>) -> Vec<Attribute> {
    v.into_iter().map(|a| Attribute { key: a.key, value: a.value.map(any_from) }).collect()
}

/// Converts an OTLP `Resource`.
#[verifier::external_body]
fn resource_from(r: resource::Resource) -> ResourceInfo {
    ResourceInfo { attributes: kvs_from(r.attributes) }
}

/// Converts an OTLP `InstrumentationScope`.
#[verifier::external_body]
fn scope_from(s: common::InstrumentationScope) -> ScopeInfo {
    ScopeInfo { name: s.name, version: s.version, attributes: kvs_from(s.attributes) }
}

/// Converts an OTLP `LogRecord`.
#[verifier::external_body]
fn log_record_from(r: logs::LogRecord) -> LogItem {
    LogItem {
        time_unix_nano: r.time_unix_nano,
        observed_time_unix_nano: r.observed_time_unix_nano,
        severity_number: r.severity_number,
        severity_text: r.severity_text,
        body: r.body.map(any_from),
        attributes: kvs_from(r.attributes),
        flags: r.flags,
        trace_id: r.trace_id,
        span_id: r.span_id,
        event_name: r.event_name,
    }
}

/// Converts an OTLP `ResourceLogs` with its scopes.
#[verifier::external_body]
fn resource_logs_from(r: logs::ResourceLogs) -> ResourceLogSet {
    let scope_logs = r.scope_logs.into_iter().map(
        |s| ScopeLogSet {
            scope: s.scope.map(scope_from),
            log_records: s.log_records.into_iter().map(log_record_from).collect(),
        },
    );
    ResourceLogSet { resource: r.resource.map(resource_from), scope_logs: scope_logs.collect() }
}

/// `ExportLogsServiceRequest::decode`. The claim is that success and the
/// batch depend on the bytes alone.
#[verifier::external_body]
pub(crate) fn decode_logs(payload: &[u8]) -> (r: Option<LogsRequest>)
    ensures
        (match r {
            Some(b) => Some(b@),
            None => None,
        }) == logs_of(payload@),
{
    match ExportLogsServiceRequest::decode(payload) {
        Ok(b) => Some(
            LogsRequest {
                resource_logs: b.resource_logs.into_iter().map(resource_logs_from).collect(),
            },
        ),
        Err(_) => None,
    }
}

/// Converts an OTLP `Span`.
#[verifier::external_body]
fn span_from(s: trace::Span) -> TraceSpan {
    TraceSpan {
        trace_id: s.trace_id,
        span_id: s.span_id,
        parent_span_id: s.parent_span_id,
        name: s.name,
        kind: s.kind,
        start_time_unix_nano: s.start_time_unix_nano,
        end_time_unix_nano: s.end_time_unix_nano,
        attributes: kvs_from(s.attributes),
        status: s.status.map(|t| SpanStatus { code: t.code, message: t.message }),
    }
}

/// Converts an OTLP `ResourceSpans` with its scopes.
#[verifier::external_body]
fn resource_spans_from(r: trace::ResourceSpans) -> ResourceSpanSet {
    let scope_spans = r.scope_spans.into_iter().map(
        |s| ScopeSpanSet {
            scope: s.scope.map(scope_from),
            spans: s.spans.into_iter().map(span_from).collect(),
        },
    );
    ResourceSpanSet { resource: r.resource.map(resource_from), scope_spans: scope_spans.collect() }
}

/// `ExportTraceServiceRequest::decode`. The claim is that success and the
/// batch depend on the bytes alone.
#[verifier::external_body]
pub(crate) fn decode_traces(payload: &[u8]) -> (r: Option<TracesRequest>)
    ensures
        (match r {
            Some(b) => Some(b@),
            None => None,
        }) == traces_of(payload@),
{
    match ExportTraceServiceRequest::decode(payload) {
        Ok(b) => Some(
            TracesRequest {
                resource_spans: b.resource_spans.into_iter().map(resource_spans_from).collect(),
            },
        ),
        Err(_) => None,
    }
}

/// Converts an OTLP `NumberDataPoint`; a double becomes the text that
/// `Display` prints.
#[verifier::external_body]
fn number_point_from(p: metrics::NumberDataPoint) -> NumberPoint {
    NumberPoint {
        time_unix_nano: p.time_unix_nano,
        start_time_unix_nano: p.start_time_unix_nano,
        value: p.value.map(
            |v|
                match v {
                    metrics::number_data_point::Value::AsDouble(d) => PointValue::Double(
                        d.to_string(),
                    ),
                    metrics::number_data_point::Value::AsInt(n) => PointValue::Int(n),
                },
        ),
    }
}

/// Converts the data points of an OTLP metric, variant by variant.
#[verifier::external_body]
fn metric_data_from(d: MetricVariant) -> MetricData {
    match d {
        MetricVariant::Gauge(g) => MetricData::Gauge(
            g.data_points.into_iter().map(number_point_from).collect(),
        ),
        MetricVariant::Sum(s) => MetricData::Sum {
            is_monotonic: s.is_monotonic,
            temporality: s.aggregation_temporality,
            points: s.data_points.into_iter().map(number_point_from).collect(),
        },
        other => distribution_from(other),
    }
}

/// Converts histograms and summaries; sums become their texts.
#[verifier::external_body]
fn distribution_from(d: MetricVariant) -> MetricData {
    match d {
        MetricVariant::Histogram(h) => MetricData::Histogram(
            h.data_points.into_iter().map(histogram_point_from).collect(),
        ),
        MetricVariant::ExponentialHistogram(h) => MetricData::ExpHistogram(
            h.data_points.into_iter().map(exp_histogram_point_from).collect(),
        ),
        MetricVariant::Summary(s) => MetricData::Summary(
            s.data_points.into_iter().map(summary_point_from).collect(),
        ),
        _ => MetricData::Absent,
    }
}

/// Converts an OTLP `HistogramDataPoint`; the sum becomes the text that `Debug`
/// prints.
#[verifier::external_body]
fn histogram_point_from(p: metrics::HistogramDataPoint) -> HistogramPoint {
    HistogramPoint {
        time_unix_nano: p.time_unix_nano,
        count: p.count,
        sum: format!("{:?}", p.sum),
    }
}

/// Converts an OTLP `ExponentialHistogramDataPoint`.
#[verifier::external_body]
fn exp_histogram_point_from(p: metrics::ExponentialHistogramDataPoint) -> ExpHistogramPoint {
    ExpHistogramPoint { time_unix_nano: p.time_unix_nano, count: p.count, scale: p.scale }
}

/// Converts an OTLP `SummaryDataPoint`; the sum becomes the text that `Display`
/// prints.
#[verifier::external_body]
fn summary_point_from(p: metrics::SummaryDataPoint) -> SummaryPoint {
    SummaryPoint { time_unix_nano: p.time_unix_nano, count: p.count, sum: p.sum.to_string() }
}

/// Converts an OTLP `Metric`.
#[verifier::external_body]
fn metric_from(m: metrics::Metric) -> MetricItem {
    MetricItem {
        name: m.name,
        description: m.description,
        unit: m.unit,
        data: match m.data {
            Some(d) => metric_data_from(d),
            None => MetricData::Absent,
        },
    }
}

/// Converts an OTLP `ResourceMetrics` with its scopes.
#[verifier::external_body]
fn resource_metrics_from(r: metrics::ResourceMetrics) -> ResourceMetricSet {
    let scope_metrics = r.scope_metrics.into_iter().map(
        |s| ScopeMetricSet {
            scope: s.scope.map(scope_from),
            metrics: s.metrics.into_iter().map(metric_from).collect(),
        },
    );
    ResourceMetricSet {
        resource: r.resource.map(resource_from),
        scope_metrics: scope_metrics.collect(),
    }
}

/// `ExportMetricsServiceRequest::decode`. The claim is that success and the
/// batch depend on the bytes alone.
#[verifier::external_body]
pub(crate) fn decode_metrics(payload: &[u8]) -> (r: Option<MetricsRequest>)
    ensures
        (match r {
            Some(b) => Some(b@),
            None => None,
        }) == metrics_of(payload@),
{
    match ExportMetricsServiceRequest::decode(payload) {
        Ok(b) => Some(
            MetricsRequest {
                resource_metrics: b.resource_metrics.into_iter().map(
                    resource_metrics_from,
                ).collect(),
            },
        ),
        Err(_) => None,
    }
}

/// The bits of a double that stand for no number.
pub open spec fn is_nan(bits: u64) -> bool {
    bits % 0x8000_0000_0000_0000 > 0x7ff0_0000_0000_0000
}

/// A value that decoding gives back, where the decoder may enter `room` more
/// messages: it enters one for a list and one for each element, and for a map
/// one more for each member. No double in it is a NaN.
pub open spec fn survives(v: AnyModel, room: int) -> bool
    decreases v,
{
    match v {
        AnyModel::Double(bits) => !is_nan(bits),
        AnyModel::Array(a) => room >= 1 && forall|i: int|
            0 <= i < a.len() ==> room >= 2 && survives(#[trigger] a[i], room - 2),
        AnyModel::Kvlist(m) => room >= 1 && forall|i: int|
            0 <= i < m.len() ==> room >= 2 && match (#[trigger] m[i]).value {
                Some(x) => room >= 3 && survives(x, room - 3),
                None => true,
            },
        _ => true,
    }
}

/// A value that decoding gives back, or none.
pub open spec fn opt_survives(v: Option<AnyModel>, room: int) -> bool {
    match v {
        Some(x) => survives(x, room),
        None => true,
    }
}

/// Attributes that decoding gives back.
pub open spec fn attrs_survive(a: Seq<KvModel>, room: int) -> bool {
    forall|i: int| 0 <= i < a.len() ==> opt_survives((#[trigger] a[i]).value, room)
}

/// Converts back to an OTLP `AnyValue`, variant by variant; `Buf::get_f64_le`
/// of `bytes` reads a double from its bits.
#[verifier::external_body]
fn any_to(v: AttrValue) -> common::AnyValue {
    let value = match v {
        AttrValue::Empty => None,
        AttrValue::Str(s) => Some(AnyVariant::StringValue(s)),
        AttrValue::Bool(b) => Some(AnyVariant::BoolValue(b)),
        AttrValue::Int(n) => Some(AnyVariant::IntValue(n)),
        AttrValue::Double(n) => Some(AnyVariant::DoubleValue((&n.to_le_bytes()[..]).get_f64_le())),
        AttrValue::Bytes(b) => Some(AnyVariant::BytesValue(b)),
        AttrValue::Array(a) => Some(
            AnyVariant::ArrayValue(common::ArrayValue { values: a.into_iter().map(any_to).collect() }),
        ),
        AttrValue::Kvlist(m) => Some(
            AnyVariant::KvlistValue(common::KeyValueList { values: kvs_to(m) }),
        ),
    };
    common::AnyValue { value }
}

/// Converts back to OTLP attributes, one by one.
#[verifier::external_body]
fn kvs_to(v: Vec<Attribute>) -> Vec<common::KeyValue> {
    v.into_iter().map(|a| common::KeyValue { key: a.key, value: a.value.map(any_to) }).collect()
}

/// Converts back to an OTLP `LogRecord`.
#[verifier::external_body]
fn log_record_to(r: LogItem) -> logs::LogRecord {
    logs::LogRecord {
        time_unix_nano: r.time_unix_nano,
        observed_time_unix_nano: r.observed_time_unix_nano,
        severity_number: r.severity_number,
        severity_text: r.severity_text,
        body: r.body.map(any_to),
        attributes: kvs_to(r.attributes),
        dropped_attributes_count: 0,
        flags: r.flags,
        trace_id: r.trace_id,
        span_id: r.span_id,
        event_name: r.event_name,
    }
}

/// Converts back to an OTLP `ScopeLogs`.
#[verifier::external_body]
fn scope_logs_to(s: ScopeLogSet) -> logs::ScopeLogs {
    logs::ScopeLogs {
        scope: s.scope.map(
            |c| common::InstrumentationScope {
                name: c.name,
                version: c.version,
                attributes: kvs_to(c.attributes),
                dropped_attributes_count: 0,
            },
        ),
        log_records: s.log_records.into_iter().map(log_record_to).collect(),
        schema_url: String::new(),
    }
}

/// Converts back to an OTLP `ResourceLogs`.
#[verifier::external_body]
fn resource_logs_to(r: ResourceLogSet) -> logs::ResourceLogs {
    logs::ResourceLogs {
        resource: r.resource.map(
            |a| resource::Resource {
                attributes: kvs_to(a.attributes),
                dropped_attributes_count: 0,
                entity_refs: Vec::new(),
            },
        ),
        scope_logs: r.scope_logs.into_iter().map(scope_logs_to).collect(),
        schema_url: String::new(),
    }
}

/// How many messages the decoder may enter inside an attribute of a resource: a
/// hundred in all, less the four that hold the value.
pub const ROOM_IN_RESOURCE: i64 = 96;

/// How many it may enter inside an attribute of a scope, which five hold.
pub const ROOM_IN_SCOPE: i64 = 95;

/// How many it may enter inside an attribute of a record, which five hold.
pub const ROOM_IN_RECORD: i64 = 95;

/// How many it may enter inside the body of a record, which four hold.
pub const ROOM_IN_BODY: i64 = 96;

/// A batch that decoding gives back.
pub open spec fn batch_survives(b: LogsModel) -> bool {
    forall|i: int|
        0 <= i < b.resource_logs.len() ==> resource_logs_survive(#[trigger] b.resource_logs[i])
}

/// The logs of a resource that decoding gives back.
pub open spec fn resource_logs_survive(r: crate::otlp::ResourceLogsModel) -> bool {
    &&& match r.resource {
        Some(x) => attrs_survive(x.attributes, ROOM_IN_RESOURCE as int),
        None => true,
    }
    &&& forall|i: int| 0 <= i < r.scope_logs.len() ==> scope_logs_survive(#[trigger] r.scope_logs[i])
}

/// The logs of a scope that decoding gives back.
pub open spec fn scope_logs_survive(s: crate::otlp::ScopeLogsModel) -> bool {
    &&& match s.scope {
        Some(x) => attrs_survive(x.attributes, ROOM_IN_SCOPE as int),
        None => true,
    }
    &&& forall|i: int|
        0 <= i < s.log_records.len() ==> attrs_survive(
            (#[trigger] s.log_records[i]).attributes,
            ROOM_IN_RECORD as int,
        ) && opt_survives(s.log_records[i].body, ROOM_IN_BODY as int)
}

/// `ExportLogsServiceRequest::encode_to_vec`. The claims are that the bytes
/// depend on the batch alone, and that decoding them gives the batch back
/// where its values are nested no deeper than the decoder goes and no double
/// is a NaN. Of other batches nothing is claimed: the decoder refuses deeper
/// values, and the bits of a NaN may change where a machine moves it.
#[verifier::external_body]
pub(crate) fn encode_logs(batch: LogsRequest) -> (r: Vec<u8>)
    ensures
        r@ == logs_encoded(batch@),
        batch_survives(batch@) ==> logs_of(r@) == Some(batch@),
{
    let message = ExportLogsServiceRequest {
        resource_logs: batch.resource_logs.into_iter().map(resource_logs_to).collect(),
    };
    message.encode_to_vec()
}

} // verus!
