//! What the popup tells of metrics and their data points.
use vstd::prelude::*;

use crate::commands::export::timestamp_text;
use crate::commands::view::detail::value_or_nothing;
use crate::commands::view::info::{
    all_metric_info, data_info, exp_info, gauge_info, histogram_info, list_when, metric_info,
    metrics_info, payload_info, shown_rows, sum_info, summary_info,
};
use crate::otlp::{
    ExpHistogramPointModel, HistogramPointModel, MetricDataModel, MetricModel, MetricsModel,
    NumberPointModel, SummaryPointModel,
};
use crate::record::RecordType;
use crate::text::numbers::{decimal, decimal_int};
use crate::text::seqs::joined;

verus! {

/// The data points of a gauge are numbered from zero, each with its own value and
/// time.
pub proof fn law_gauge_points_are_numbered(prefix: Seq<char>, p: Seq<NumberPointModel>, i: int)
    requires
        0 <= i < p.len(),
    ensures
        gauge_info(prefix, p).len() == 2 * p.len(),
        gauge_info(prefix, p)[2 * i] == (
            prefix + ".dp"@ + decimal(i as nat) + ".value"@,
            value_or_nothing(p[i].value),
        ),
        gauge_info(prefix, p)[2 * i + 1] == (
            prefix + ".dp"@ + decimal(i as nat) + ".time"@,
            timestamp_text(p[i].time_unix_nano),
        ),
    decreases p.len(),
{
    let init = p.drop_last();
    if init.len() > 0 {
        law_gauge_points_are_numbered(
            prefix,
            init,
            if i < init.len() {
                i
            } else {
                0
            },
        );
    } else {
        assert(gauge_info(prefix, init).len() == 0);
    }
}

/// The data points of a sum are numbered from zero, each with its own value, time
/// and start.
pub proof fn law_sum_points_are_numbered(prefix: Seq<char>, p: Seq<NumberPointModel>, i: int)
    requires
        0 <= i < p.len(),
    ensures
        sum_info(prefix, p).len() == 3 * p.len(),
        sum_info(prefix, p)[3 * i] == (
            prefix + ".dp"@ + decimal(i as nat) + ".value"@,
            value_or_nothing(p[i].value),
        ),
        sum_info(prefix, p)[3 * i + 1] == (
            prefix + ".dp"@ + decimal(i as nat) + ".time"@,
            timestamp_text(p[i].time_unix_nano),
        ),
        sum_info(prefix, p)[3 * i + 2] == (
            prefix + ".dp"@ + decimal(i as nat) + ".start_time"@,
            timestamp_text(p[i].start_time_unix_nano),
        ),
    decreases p.len(),
{
    let init = p.drop_last();
    if init.len() > 0 {
        law_sum_points_are_numbered(
            prefix,
            init,
            if i < init.len() {
                i
            } else {
                0
            },
        );
    } else {
        assert(sum_info(prefix, init).len() == 0);
    }
}

/// The data points of a histogram are numbered from zero, each with its own count
/// and time.
pub proof fn law_histogram_points_are_numbered(
    prefix: Seq<char>,
    p: Seq<HistogramPointModel>,
    i: int,
)
    requires
        0 <= i < p.len(),
    ensures
        histogram_info(prefix, p).len() == 2 * p.len(),
        histogram_info(prefix, p)[2 * i] == (
            prefix + ".dp"@ + decimal(i as nat) + ".count"@,
            decimal(p[i].count as nat),
        ),
        histogram_info(prefix, p)[2 * i + 1] == (
            prefix + ".dp"@ + decimal(i as nat) + ".time"@,
            timestamp_text(p[i].time_unix_nano),
        ),
    decreases p.len(),
{
    let init = p.drop_last();
    if init.len() > 0 {
        law_histogram_points_are_numbered(
            prefix,
            init,
            if i < init.len() {
                i
            } else {
                0
            },
        );
    } else {
        assert(histogram_info(prefix, init).len() == 0);
    }
}

/// The data points of an exponential histogram are numbered from zero, each with
/// its own count and time.
pub proof fn law_exponential_points_are_numbered(
    prefix: Seq<char>,
    p: Seq<ExpHistogramPointModel>,
    i: int,
)
    requires
        0 <= i < p.len(),
    ensures
        exp_info(prefix, p).len() == 2 * p.len(),
        exp_info(prefix, p)[2 * i] == (
            prefix + ".dp"@ + decimal(i as nat) + ".count"@,
            decimal(p[i].count as nat),
        ),
        exp_info(prefix, p)[2 * i + 1] == (
            prefix + ".dp"@ + decimal(i as nat) + ".time"@,
            timestamp_text(p[i].time_unix_nano),
        ),
    decreases p.len(),
{
    let init = p.drop_last();
    if init.len() > 0 {
        law_exponential_points_are_numbered(
            prefix,
            init,
            if i < init.len() {
                i
            } else {
                0
            },
        );
    } else {
        assert(exp_info(prefix, init).len() == 0);
    }
}

/// The data points of a summary are numbered from zero, each with its own count,
/// sum and time.
pub proof fn law_summary_points_are_numbered(
    prefix: Seq<char>,
    p: Seq<SummaryPointModel>,
    i: int,
)
    requires
        0 <= i < p.len(),
    ensures
        summary_info(prefix, p).len() == 3 * p.len(),
        summary_info(prefix, p)[3 * i] == (
            prefix + ".dp"@ + decimal(i as nat) + ".count"@,
            decimal(p[i].count as nat),
        ),
        summary_info(prefix, p)[3 * i + 1] == (
            prefix + ".dp"@ + decimal(i as nat) + ".sum"@,
            p[i].sum,
        ),
        summary_info(prefix, p)[3 * i + 2] == (
            prefix + ".dp"@ + decimal(i as nat) + ".time"@,
            timestamp_text(p[i].time_unix_nano),
        ),
    decreases p.len(),
{
    let init = p.drop_last();
    if init.len() > 0 {
        law_summary_points_are_numbered(
            prefix,
            init,
            if i < init.len() {
                i
            } else {
                0
            },
        );
    } else {
        assert(summary_info(prefix, init).len() == 0);
    }
}

/// Each metric tells its unit, its description where it has one, and its kind.
pub proof fn law_metrics_tell_their_kind(m: MetricModel)
    ensures
        ({
            let e = metric_info(m);
            let prefix = "metric."@ + m.name;
            let at: int = if m.description.len() > 0 {
                2
            } else {
                1
            };
            &&& e[0] == (prefix + ".unit"@, m.unit)
            &&& m.description.len() > 0 ==> e[1] == (prefix + ".description"@, m.description)
            &&& m.data is Absent ==> e.len() == at
            &&& m.data is Gauge ==> e[at] == (prefix + ".kind"@, "Gauge"@)
            &&& m.data is Sum ==> e[at] == (prefix + ".kind"@, "Sum"@)
            &&& m.data is Histogram ==> e[at] == (prefix + ".kind"@, "Histogram"@)
            &&& m.data is ExpHistogram ==> e[at] == (prefix + ".kind"@, "ExpHistogram"@)
            &&& m.data is Summary ==> e[at] == (prefix + ".kind"@, "Summary"@)
        }),
{
}

/// A sum tells whether it only grows, and over which time it sums.
pub proof fn law_sums_tell_how_they_sum(
    prefix: Seq<char>,
    is_monotonic: bool,
    temporality: i32,
    points: Seq<NumberPointModel>,
)
    ensures
        ({
            let e = data_info(prefix, MetricDataModel::Sum { is_monotonic, temporality, points });
            &&& e.len() == 3 + sum_info(prefix, points).len()
            &&& is_monotonic ==> e[1] == (prefix + ".monotonic"@, "true"@)
            &&& !is_monotonic ==> e[1] == (prefix + ".monotonic"@, "false"@)
            &&& e[2] == (prefix + ".temporality"@, decimal_int(temporality as int))
            &&& e.skip(3) == sum_info(prefix, points)
        }),
{
    let e = data_info(prefix, MetricDataModel::Sum { is_monotonic, temporality, points });
    assert(e.skip(3) =~= sum_info(prefix, points));
}

/// Every entry of a metric is among those of its batch.
pub proof fn law_every_metric_is_told(m: Seq<MetricModel>, i: int, x: (Seq<char>, Seq<char>))
    requires
        0 <= i < m.len(),
        metric_info(m[i]).contains(x),
    ensures
        all_metric_info(m).contains(x),
    decreases m.len(),
{
    let init = m.drop_last();
    let before = all_metric_info(init);
    let own = metric_info(m.last());
    if i < init.len() {
        law_every_metric_is_told(init, i, x);
        let j = choose|j: int| 0 <= j < before.len() && before[j] == x;
        assert(all_metric_info(m)[j] == x);
    } else {
        let j = choose|j: int| 0 <= j < own.len() && own[j] == x;
        assert(all_metric_info(m)[before.len() + j] == x);
    }
}

/// A list of names is told where it is not empty, the names in their order.
pub proof fn law_name_lists(key: Seq<char>, names: Seq<Seq<char>>)
    ensures
        names.len() == 0 ==> list_when(key, names).len() == 0,
        names.len() > 0 ==> list_when(key, names) == seq![(key, joined(names, ", "@))],
{
}

/// A payload that cannot be read says so, and an event says nothing.
pub proof fn law_unreadable_payloads_say_so(payload: Seq<u8>)
    ensures
        crate::bridge::protobuf::logs_of(payload) is None ==> payload_info(
            RecordType::Logs,
            payload,
        ) == seq![("otlp"@, "decode failed"@)],
        crate::bridge::protobuf::metrics_of(payload) is None ==> payload_info(
            RecordType::Metrics,
            payload,
        ) == seq![("otlp"@, "decode failed"@)],
        crate::bridge::protobuf::traces_of(payload) is None ==> payload_info(
            RecordType::Traces,
            payload,
        ) == seq![("otlp"@, "decode failed"@)],
        payload_info(RecordType::Events, payload).len() == 0,
{
}

/// A metric batch says so first, and then how many resources it has.
pub proof fn law_metric_batches_say_so(b: MetricsModel)
    ensures
        metrics_info(b)[0] == ("otlp.kind"@, "metrics"@),
        metrics_info(b)[1] == ("resources"@, decimal(b.resource_metrics.len())),
{
}

/// Up to 32 rows are shown, each under what it belongs to and its key; those
/// beyond are counted.
pub proof fn law_more_rows_are_counted(
    kind: Seq<char>,
    rows: Seq<(Seq<char>, Seq<char>, Seq<char>)>,
    i: int,
)
    requires
        0 <= i < rows.len(),
        i < 32,
        rows[i].0.len() > 0,
    ensures
        shown_rows(kind, rows)[i] == (rows[i].0 + "."@ + rows[i].1, rows[i].2),
        rows.len() <= 32 ==> shown_rows(kind, rows).len() == rows.len(),
        rows.len() > 32 ==> shown_rows(kind, rows).len() == 33 && shown_rows(kind, rows)[32] == (
            kind + ".attrs.more"@,
            decimal((rows.len() - 32) as nat) + " not shown"@,
        ),
{
}

} // verus!
