//! Telemetry batches as plain values.
//!
//! Each type holds what the rest of the library reads of the corresponding
//! OTLP message. Doubles of attributes are kept as their bits, doubles of data
//! points as the texts that are shown of them.
use vstd::prelude::*;

verus! {

/// An attribute value or a log body.
#[derive(Debug)]
pub enum AttrValue {
    Empty,
    Str(String),
    Bool(bool),
    Int(i64),
    /// The bits of a double.
    Double(u64),
    Bytes(Vec<u8>),
    Array(Vec<AttrValue>),
    Kvlist(Vec<Attribute>),
}

/// A named attribute.
#[derive(Debug)]
pub struct Attribute {
    pub key: String,
    pub value: Option<AttrValue>,
}

/// What an [`AttrValue`] holds.
pub enum AnyModel {
    Empty,
    Str(Seq<char>),
    Bool(bool),
    Int(i64),
    Double(u64),
    Bytes(Seq<u8>),
    Array(Seq<AnyModel>),
    Kvlist(Seq<KvModel>),
}

/// What a [`Attribute`] holds.
pub struct KvModel {
    pub key: Seq<char>,
    pub value: Option<AnyModel>,
}

impl AttrValue {
    pub open spec fn model(self) -> AnyModel
        decreases self,
    {
        match self {
            AttrValue::Empty => AnyModel::Empty,
            AttrValue::Str(s) => AnyModel::Str(s@),
            AttrValue::Bool(b) => AnyModel::Bool(b),
            AttrValue::Int(n) => AnyModel::Int(n),
            AttrValue::Double(bits) => AnyModel::Double(bits),
            AttrValue::Bytes(b) => AnyModel::Bytes(b@),
            AttrValue::Array(a) => AnyModel::Array(
                Seq::new(
                    a@.len(),
                    |i: int|
                        if 0 <= i < a@.len() {
                            a@[i].model()
                        } else {
                            AnyModel::Empty
                        },
                ),
            ),
            AttrValue::Kvlist(m) => AnyModel::Kvlist(
                Seq::new(
                    m@.len(),
                    |i: int|
                        if 0 <= i < m@.len() {
                            m@[i].model()
                        } else {
                            KvModel { key: Seq::empty(), value: None }
                        },
                ),
            ),
        }
    }
}

impl Attribute {
    pub open spec fn model(self) -> KvModel
        decreases self,
    {
        KvModel {
            key: self.key@,
            value: match self.value {
                Some(v) => Some(v.model()),
                None => None,
            },
        }
    }
}

impl View for AttrValue {
    type V = AnyModel;

    open spec fn view(&self) -> AnyModel {
        self.model()
    }
}

impl View for Attribute {
    type V = KvModel;

    open spec fn view(&self) -> KvModel {
        self.model()
    }
}

/// The value of a number data point.
#[derive(Debug)]
pub enum PointValue {
    Double(String),
    Int(i64),
}

/// What a [`PointValue`] holds.
pub enum PointModel {
    Double(Seq<char>),
    Int(i64),
}

impl View for PointValue {
    type V = PointModel;

    open spec fn view(&self) -> PointModel {
        match *self {
            PointValue::Double(t) => PointModel::Double(t@),
            PointValue::Int(n) => PointModel::Int(n),
        }
    }
}

/// The data points of a metric, by kind.
#[derive(Debug)]
pub enum MetricData {
    Absent,
    Gauge(Vec<NumberPoint>),
    Sum { is_monotonic: bool, temporality: i32, points: Vec<NumberPoint> },
    Histogram(Vec<HistogramPoint>),
    ExpHistogram(Vec<ExpHistogramPoint>),
    Summary(Vec<SummaryPoint>),
}

/// What a [`MetricData`] holds.
pub enum MetricDataModel {
    Absent,
    Gauge(Seq<NumberPointModel>),
    Sum { is_monotonic: bool, temporality: i32, points: Seq<NumberPointModel> },
    Histogram(Seq<HistogramPointModel>),
    ExpHistogram(Seq<ExpHistogramPointModel>),
    Summary(Seq<SummaryPointModel>),
}

impl View for MetricData {
    type V = MetricDataModel;

    open spec fn view(&self) -> MetricDataModel {
        match *self {
            MetricData::Absent => MetricDataModel::Absent,
            MetricData::Gauge(p) => MetricDataModel::Gauge(p@.map_values(|x: NumberPoint| x@)),
            MetricData::Sum { is_monotonic, temporality, points } => MetricDataModel::Sum {
                is_monotonic,
                temporality,
                points: points@.map_values(|x: NumberPoint| x@),
            },
            MetricData::Histogram(p) => MetricDataModel::Histogram(
                p@.map_values(|x: HistogramPoint| x@),
            ),
            MetricData::ExpHistogram(p) => MetricDataModel::ExpHistogram(
                p@.map_values(|x: ExpHistogramPoint| x@),
            ),
            MetricData::Summary(p) => MetricDataModel::Summary(p@.map_values(|x: SummaryPoint| x@)),
        }
    }
}

/// The entity that produced telemetry.
#[derive(Debug)]
pub struct ResourceInfo {
    pub attributes: Vec<Attribute>,
}

/// What a [`ResourceInfo`] holds.
pub struct ResourceModel {
    pub attributes: Seq<KvModel>,
}

impl View for ResourceInfo {
    type V = ResourceModel;

    open spec fn view(&self) -> ResourceModel {
        ResourceModel {
            attributes: self.attributes@.map_values(|x: Attribute| x@),
        }
    }
}

/// The instrumentation scope that produced telemetry.
#[derive(Debug)]
pub struct ScopeInfo {
    pub name: String,
    pub version: String,
    pub attributes: Vec<Attribute>,
}

/// What a [`ScopeInfo`] holds.
pub struct ScopeModel {
    pub name: Seq<char>,
    pub version: Seq<char>,
    pub attributes: Seq<KvModel>,
}

impl View for ScopeInfo {
    type V = ScopeModel;

    open spec fn view(&self) -> ScopeModel {
        ScopeModel {
            name: self.name@,
            version: self.version@,
            attributes: self.attributes@.map_values(|x: Attribute| x@),
        }
    }
}

/// One log record.
#[derive(Debug)]
pub struct LogItem {
    pub time_unix_nano: u64,
    pub observed_time_unix_nano: u64,
    pub severity_number: i32,
    pub severity_text: String,
    pub body: Option<AttrValue>,
    pub attributes: Vec<Attribute>,
    pub flags: u32,
    pub trace_id: Vec<u8>,
    pub span_id: Vec<u8>,
    pub event_name: String,
}

/// What a [`LogItem`] holds.
pub struct LogRecordModel {
    pub time_unix_nano: u64,
    pub observed_time_unix_nano: u64,
    pub severity_number: i32,
    pub severity_text: Seq<char>,
    pub body: Option<AnyModel>,
    pub attributes: Seq<KvModel>,
    pub flags: u32,
    pub trace_id: Seq<u8>,
    pub span_id: Seq<u8>,
    pub event_name: Seq<char>,
}

impl View for LogItem {
    type V = LogRecordModel;

    open spec fn view(&self) -> LogRecordModel {
        LogRecordModel {
            time_unix_nano: self.time_unix_nano,
            observed_time_unix_nano: self.observed_time_unix_nano,
            severity_number: self.severity_number,
            severity_text: self.severity_text@,
            body: match self.body {
                Some(v) => Some(v@),
                None => None,
            },
            attributes: self.attributes@.map_values(|x: Attribute| x@),
            flags: self.flags,
            trace_id: self.trace_id@,
            span_id: self.span_id@,
            event_name: self.event_name@,
        }
    }
}

/// The log records of one scope.
#[derive(Debug)]
pub struct ScopeLogSet {
    pub scope: Option<ScopeInfo>,
    pub log_records: Vec<LogItem>,
}

/// What a [`ScopeLogSet`] holds.
pub struct ScopeLogsModel {
    pub scope: Option<ScopeModel>,
    pub log_records: Seq<LogRecordModel>,
}

impl View for ScopeLogSet {
    type V = ScopeLogsModel;

    open spec fn view(&self) -> ScopeLogsModel {
        ScopeLogsModel {
            scope: match self.scope {
                Some(v) => Some(v@),
                None => None,
            },
            log_records: self.log_records@.map_values(|x: LogItem| x@),
        }
    }
}

/// The log records of one resource.
#[derive(Debug)]
pub struct ResourceLogSet {
    pub resource: Option<ResourceInfo>,
    pub scope_logs: Vec<ScopeLogSet>,
}

/// What a [`ResourceLogSet`] holds.
pub struct ResourceLogsModel {
    pub resource: Option<ResourceModel>,
    pub scope_logs: Seq<ScopeLogsModel>,
}

impl View for ResourceLogSet {
    type V = ResourceLogsModel;

    open spec fn view(&self) -> ResourceLogsModel {
        ResourceLogsModel {
            resource: match self.resource {
                Some(v) => Some(v@),
                None => None,
            },
            scope_logs: self.scope_logs@.map_values(|x: ScopeLogSet| x@),
        }
    }
}

/// A batch of log records.
#[derive(Debug)]
pub struct LogsRequest {
    pub resource_logs: Vec<ResourceLogSet>,
}

/// What a [`LogsRequest`] holds.
pub struct LogsModel {
    pub resource_logs: Seq<ResourceLogsModel>,
}

impl View for LogsRequest {
    type V = LogsModel;

    open spec fn view(&self) -> LogsModel {
        LogsModel {
            resource_logs: self.resource_logs@.map_values(|x: ResourceLogSet| x@),
        }
    }
}

/// The final status of a span.
#[derive(Debug)]
pub struct SpanStatus {
    pub code: i32,
    pub message: String,
}

/// What a [`SpanStatus`] holds.
pub struct StatusModel {
    pub code: i32,
    pub message: Seq<char>,
}

impl View for SpanStatus {
    type V = StatusModel;

    open spec fn view(&self) -> StatusModel {
        StatusModel {
            code: self.code,
            message: self.message@,
        }
    }
}

/// One span of a trace.
#[derive(Debug)]
pub struct TraceSpan {
    pub trace_id: Vec<u8>,
    pub span_id: Vec<u8>,
    pub parent_span_id: Vec<u8>,
    pub name: String,
    pub kind: i32,
    pub start_time_unix_nano: u64,
    pub end_time_unix_nano: u64,
    pub attributes: Vec<Attribute>,
    pub status: Option<SpanStatus>,
}

/// What a [`TraceSpan`] holds.
pub struct SpanModel {
    pub trace_id: Seq<u8>,
    pub span_id: Seq<u8>,
    pub parent_span_id: Seq<u8>,
    pub name: Seq<char>,
    pub kind: i32,
    pub start_time_unix_nano: u64,
    pub end_time_unix_nano: u64,
    pub attributes: Seq<KvModel>,
    pub status: Option<StatusModel>,
}

impl View for TraceSpan {
    type V = SpanModel;

    open spec fn view(&self) -> SpanModel {
        SpanModel {
            trace_id: self.trace_id@,
            span_id: self.span_id@,
            parent_span_id: self.parent_span_id@,
            name: self.name@,
            kind: self.kind,
            start_time_unix_nano: self.start_time_unix_nano,
            end_time_unix_nano: self.end_time_unix_nano,
            attributes: self.attributes@.map_values(|x: Attribute| x@),
            status: match self.status {
                Some(v) => Some(v@),
                None => None,
            },
        }
    }
}

/// The spans of one scope.
#[derive(Debug)]
pub struct ScopeSpanSet {
    pub scope: Option<ScopeInfo>,
    pub spans: Vec<TraceSpan>,
}

/// What a [`ScopeSpanSet`] holds.
pub struct ScopeSpansModel {
    pub scope: Option<ScopeModel>,
    pub spans: Seq<SpanModel>,
}

impl View for ScopeSpanSet {
    type V = ScopeSpansModel;

    open spec fn view(&self) -> ScopeSpansModel {
        ScopeSpansModel {
            scope: match self.scope {
                Some(v) => Some(v@),
                None => None,
            },
            spans: self.spans@.map_values(|x: TraceSpan| x@),
        }
    }
}

/// The spans of one resource.
#[derive(Debug)]
pub struct ResourceSpanSet {
    pub resource: Option<ResourceInfo>,
    pub scope_spans: Vec<ScopeSpanSet>,
}

/// What a [`ResourceSpanSet`] holds.
pub struct ResourceSpansModel {
    pub resource: Option<ResourceModel>,
    pub scope_spans: Seq<ScopeSpansModel>,
}

impl View for ResourceSpanSet {
    type V = ResourceSpansModel;

    open spec fn view(&self) -> ResourceSpansModel {
        ResourceSpansModel {
            resource: match self.resource {
                Some(v) => Some(v@),
                None => None,
            },
            scope_spans: self.scope_spans@.map_values(|x: ScopeSpanSet| x@),
        }
    }
}

/// A batch of spans.
#[derive(Debug)]
pub struct TracesRequest {
    pub resource_spans: Vec<ResourceSpanSet>,
}

/// What a [`TracesRequest`] holds.
pub struct TracesModel {
    pub resource_spans: Seq<ResourceSpansModel>,
}

impl View for TracesRequest {
    type V = TracesModel;

    open spec fn view(&self) -> TracesModel {
        TracesModel {
            resource_spans: self.resource_spans@.map_values(|x: ResourceSpanSet| x@),
        }
    }
}

/// A data point of a gauge or a sum.
#[derive(Debug)]
pub struct NumberPoint {
    pub time_unix_nano: u64,
    pub start_time_unix_nano: u64,
    pub value: Option<PointValue>,
}

/// What a [`NumberPoint`] holds.
pub struct NumberPointModel {
    pub time_unix_nano: u64,
    pub start_time_unix_nano: u64,
    pub value: Option<PointModel>,
}

impl View for NumberPoint {
    type V = NumberPointModel;

    open spec fn view(&self) -> NumberPointModel {
        NumberPointModel {
            time_unix_nano: self.time_unix_nano,
            start_time_unix_nano: self.start_time_unix_nano,
            value: match self.value {
                Some(v) => Some(v@),
                None => None,
            },
        }
    }
}

/// A data point of a histogram; `sum` is the text of the optional sum as a debug formatter prints it.
#[derive(Debug)]
pub struct HistogramPoint {
    pub time_unix_nano: u64,
    pub count: u64,
    pub sum: String,
}

/// What a [`HistogramPoint`] holds.
pub struct HistogramPointModel {
    pub time_unix_nano: u64,
    pub count: u64,
    pub sum: Seq<char>,
}

impl View for HistogramPoint {
    type V = HistogramPointModel;

    open spec fn view(&self) -> HistogramPointModel {
        HistogramPointModel {
            time_unix_nano: self.time_unix_nano,
            count: self.count,
            sum: self.sum@,
        }
    }
}

/// A data point of an exponential histogram.
#[derive(Debug)]
pub struct ExpHistogramPoint {
    pub time_unix_nano: u64,
    pub count: u64,
    pub scale: i32,
}

/// What a [`ExpHistogramPoint`] holds.
pub struct ExpHistogramPointModel {
    pub time_unix_nano: u64,
    pub count: u64,
    pub scale: i32,
}

impl View for ExpHistogramPoint {
    type V = ExpHistogramPointModel;

    open spec fn view(&self) -> ExpHistogramPointModel {
        ExpHistogramPointModel {
            time_unix_nano: self.time_unix_nano,
            count: self.count,
            scale: self.scale,
        }
    }
}

/// A data point of a summary; `sum` is its decimal text.
#[derive(Debug)]
pub struct SummaryPoint {
    pub time_unix_nano: u64,
    pub count: u64,
    pub sum: String,
}

/// What a [`SummaryPoint`] holds.
pub struct SummaryPointModel {
    pub time_unix_nano: u64,
    pub count: u64,
    pub sum: Seq<char>,
}

impl View for SummaryPoint {
    type V = SummaryPointModel;

    open spec fn view(&self) -> SummaryPointModel {
        SummaryPointModel {
            time_unix_nano: self.time_unix_nano,
            count: self.count,
            sum: self.sum@,
        }
    }
}

/// One metric.
#[derive(Debug)]
pub struct MetricItem {
    pub name: String,
    pub description: String,
    pub unit: String,
    pub data: MetricData,
}

/// What a [`MetricItem`] holds.
pub struct MetricModel {
    pub name: Seq<char>,
    pub description: Seq<char>,
    pub unit: Seq<char>,
    pub data: MetricDataModel,
}

impl View for MetricItem {
    type V = MetricModel;

    open spec fn view(&self) -> MetricModel {
        MetricModel {
            name: self.name@,
            description: self.description@,
            unit: self.unit@,
            data: self.data@,
        }
    }
}

/// The metrics of one scope.
#[derive(Debug)]
pub struct ScopeMetricSet {
    pub scope: Option<ScopeInfo>,
    pub metrics: Vec<MetricItem>,
}

/// What a [`ScopeMetricSet`] holds.
pub struct ScopeMetricsModel {
    pub scope: Option<ScopeModel>,
    pub metrics: Seq<MetricModel>,
}

impl View for ScopeMetricSet {
    type V = ScopeMetricsModel;

    open spec fn view(&self) -> ScopeMetricsModel {
        ScopeMetricsModel {
            scope: match self.scope {
                Some(v) => Some(v@),
                None => None,
            },
            metrics: self.metrics@.map_values(|x: MetricItem| x@),
        }
    }
}

/// The metrics of one resource.
#[derive(Debug)]
pub struct ResourceMetricSet {
    pub resource: Option<ResourceInfo>,
    pub scope_metrics: Vec<ScopeMetricSet>,
}

/// What a [`ResourceMetricSet`] holds.
pub struct ResourceMetricsModel {
    pub resource: Option<ResourceModel>,
    pub scope_metrics: Seq<ScopeMetricsModel>,
}

impl View for ResourceMetricSet {
    type V = ResourceMetricsModel;

    open spec fn view(&self) -> ResourceMetricsModel {
        ResourceMetricsModel {
            resource: match self.resource {
                Some(v) => Some(v@),
                None => None,
            },
            scope_metrics: self.scope_metrics@.map_values(|x: ScopeMetricSet| x@),
        }
    }
}

/// A batch of metrics.
#[derive(Debug)]
pub struct MetricsRequest {
    pub resource_metrics: Vec<ResourceMetricSet>,
}

/// What a [`MetricsRequest`] holds.
pub struct MetricsModel {
    pub resource_metrics: Seq<ResourceMetricsModel>,
}

impl View for MetricsRequest {
    type V = MetricsModel;

    open spec fn view(&self) -> MetricsModel {
        MetricsModel {
            resource_metrics: self.resource_metrics@.map_values(|x: ResourceMetricSet| x@),
        }
    }
}

/// The models of a list of attributes.
pub open spec fn attrs_view(a: Seq<Attribute>) -> Seq<KvModel> {
    a.map_values(|x: Attribute| x@)
}

impl AttrValue {
    /// An equal value.
    pub fn copy(&self) -> (r: AttrValue)
        ensures
            r@ == self@,
        decreases self,
    {
        match self {
            AttrValue::Empty => AttrValue::Empty,
            AttrValue::Str(s) => AttrValue::Str(s.clone()),
            AttrValue::Bool(b) => AttrValue::Bool(*b),
            AttrValue::Int(n) => AttrValue::Int(*n),
            AttrValue::Double(bits) => AttrValue::Double(*bits),
            AttrValue::Bytes(b) => {
                let r = AttrValue::Bytes(copy_bytes(b));
                r
            },
            AttrValue::Array(a) => {
                let mut out: Vec<AttrValue> = Vec::new();
                for i in 0..a.len()
                    invariant
                        self == AttrValue::Array(*a),
                        out@.len() == i,
                        forall|k: int| 0 <= k < i ==> (#[trigger] out@[k])@ == a@[k]@,
                {
                    assert(decreases_to!(*self => self->Array_0));
                    assert(decreases_to!(self->Array_0 => self->Array_0@));
                    assert(decreases_to!(self->Array_0@ => self->Array_0@[i as int]));
                    out.push(a[i].copy());
                }
                let r = AttrValue::Array(out);
                assert(r@->Array_0 =~= self@->Array_0);
                r
            },
            AttrValue::Kvlist(m) => {
                let mut out: Vec<Attribute> = Vec::new();
                for i in 0..m.len()
                    invariant
                        self == AttrValue::Kvlist(*m),
                        out@.len() == i,
                        forall|k: int| 0 <= k < i ==> (#[trigger] out@[k])@ == m@[k]@,
                {
                    assert(decreases_to!(*self => self->Kvlist_0));
                    assert(decreases_to!(self->Kvlist_0 => self->Kvlist_0@));
                    assert(decreases_to!(self->Kvlist_0@ => self->Kvlist_0@[i as int]));
                    out.push(m[i].copy());
                }
                let r = AttrValue::Kvlist(out);
                assert(r@->Kvlist_0 =~= self@->Kvlist_0);
                r
            },
        }
    }
}

impl Attribute {
    /// An equal attribute.
    pub fn copy(&self) -> (r: Attribute)
        ensures
            r@ == self@,
        decreases self,
    {
        let value = match &self.value {
            Some(v) => Some(v.copy()),
            None => None,
        };
        Attribute { key: self.key.clone(), value }
    }
}

/// Equal bytes.
pub fn copy_bytes(b: &Vec<u8>) -> (r: Vec<u8>)
    ensures
        r@ == b@,
{
    let mut r: Vec<u8> = Vec::new();
    for i in 0..b.len()
        invariant
            r@ == b@.take(i as int),
    {
        r.push(b[i]);
        assert(r@ =~= b@.take(i + 1));
    }
    assert(b@.take(b@.len() as int) =~= b@);
    r
}

/// Equal attributes.
pub fn copy_attrs(a: &Vec<Attribute>) -> (r: Vec<Attribute>)
    ensures
        attrs_view(r@) == attrs_view(a@),
{
    let mut r: Vec<Attribute> = Vec::new();
    for i in 0..a.len()
        invariant
            r@.len() == i,
            forall|k: int| 0 <= k < i ==> (#[trigger] r@[k])@ == a@[k]@,
    {
        r.push(a[i].copy());
    }
    assert(attrs_view(r@) =~= attrs_view(a@));
    r
}

} // verus!
