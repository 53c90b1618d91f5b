//! Styled lines for records.
use vstd::prelude::*;

use crate::bridge::protobuf::{
    decode_logs, decode_metrics, decode_traces, logs_of, metrics_of, traces_of,
};
use crate::bridge::utf8::utf8_lossy;
use crate::commands::export::{format_timestamp, timestamp_text};
use crate::commands::view::flatten::{
    all_log_items, all_log_scopes, all_log_services, all_metric_items, all_metric_scopes,
    all_metric_services, all_span_items, all_span_scopes, all_span_services, log_items, log_scopes,
    log_services, metric_items, metric_scopes, metric_services, span_items, span_scopes,
    span_services,
};
use crate::commands::view::info::{count_all_points, severity_texts, severity_texts_of, total_points};
use crate::commands::view::style::{
    bold, ink, ink_on, line_of, line_of_two, lines_view, paper, span, styled, unstyled, Color,
    Style, StyledLine, StyledModel, StyledSpan,
};
use crate::commands::view::text::{
    cut, fit_to_width, fitted, flattened, hex_cut, hex_preview, push_spaces, smart_wrap, spaces,
    text_preview, trim_single_line, wrapped,
};
use crate::commands::view::types::{
    ascii_raised, raised, DetailModel, DetailRecord, DETAIL_PREVIEW_BYTES,
};
use crate::exporter::{ascii_lowered, kind_label, lowered, record_kind_label};
use crate::otlp::{LogsModel, LogsRequest, MetricsModel, MetricsRequest, TracesModel, TracesRequest};
use crate::record::RecordType;
use crate::text::chars::{ascii_upper, char_ascii_upper, char_is_ascii_letter, is_ascii_digit, is_ascii_letter};
use crate::text::numbers::{decimal, u128_text, u64_text, usize_text};
use crate::text::seqs::{
    contains_seq, first_index, has_seq, index_of_char, join_strings, joined, occurs_at,
    occurs_here, split_chars, split_on, trim, trimmed,
};
use crate::text::str_set::{distinct, distinct_texts, listed, listed_texts, StrSet};
use crate::text::strings::{chars_of, push_char, str_eq, string_between, texts};

verus! {

/// A text padded with spaces to at least so many characters.
pub open spec fn padded(s: Seq<char>, width: nat) -> Seq<char> {
    if s.len() < width {
        s + spaces((width - s.len()) as nat)
    } else {
        s
    }
}

/// A text padded with spaces to at least `width` characters.
pub fn pad(text: &str, width: usize) -> (r: String)
    ensures
        r@ == padded(text@, width as nat),
{
    let mut r = text.to_owned();
    let n = chars_of(text).len();
    if n < width {
        push_spaces(&mut r, width - n);
    }
    r
}

/// A label with its value.
pub open spec fn label_line(label: Seq<char>, value: Seq<char>, style: Style) -> Seq<StyledModel> {
    seq![styled(padded(label, 12) + " "@, ink(Color::Indexed(136))), styled(value, style)]
}

/// A label with its value.
pub fn key_value_line(label: &str, value: &str, style: Style) -> (r: StyledLine)
    ensures
        r@ == label_line(label@, value@, style),
{
    let mut key = pad(label, 12);
    key.append(" ");
    line_of_two(key.as_str(), ink(Color::Indexed(136)), value, style)
}

fn push_styled(lines: &mut Vec<StyledLine>, line: StyledLine)
    ensures
        lines_view(final(lines)@) == lines_view(old(lines)@) + seq![line@],
{
    let ghost before = lines_view(lines@);
    lines.push(line);
    assert(lines_view(lines@) =~= before + seq![line@]);
}

/// A label with names, where there are any.
pub open spec fn names_line(label: Seq<char>, names: Seq<Seq<char>>, style: Style) -> Seq<
    Seq<StyledModel>,
> {
    if names.len() == 0 {
        Seq::empty()
    } else {
        seq![label_line(label, joined(names, ", "@), style)]
    }
}

fn push_names(lines: &mut Vec<StyledLine>, label: &str, names: &StrSet, style: Style)
    ensures
        lines_view(final(lines)@) == lines_view(old(lines)@) + names_line(label@, names@, style),
{
    let ghost before = lines_view(lines@);
    if names.len() > 0 {
        let list = join_strings(names.items(), ", ");
        push_styled(lines, key_value_line(label, list.as_str(), style));
    } else {
        assert(before + Seq::<Seq<StyledModel>>::empty() =~= before);
    }
}

/// The colour of a severity.
pub open spec fn severity_color(value: Seq<char>) -> Color {
    let upper = raised(value);
    if contains_seq(upper, "ERROR"@) || contains_seq(upper, "ERR"@) || contains_seq(
        upper,
        "FATAL"@,
    ) {
        Color::LightRed
    } else if contains_seq(upper, "WARN"@) {
        Color::Indexed(214)
    } else if contains_seq(upper, "INFO"@) {
        Color::LightGreen
    } else if contains_seq(upper, "DEBUG"@) {
        Color::LightCyan
    } else if contains_seq(upper, "TRACE"@) {
        Color::LightBlue
    } else {
        Color::White
    }
}

/// The style of a severity.
pub fn severity_style(value: &str) -> (r: Style)
    ensures
        r == bold(ink(severity_color(value@))),
{
    let upper = chars_of(ascii_raised(value).as_str());
    let color = if has_seq(&upper, &chars_of("ERROR")) || has_seq(&upper, &chars_of("ERR"))
        || has_seq(&upper, &chars_of("FATAL")) {
        Color::LightRed
    } else if has_seq(&upper, &chars_of("WARN")) {
        Color::Indexed(214)
    } else if has_seq(&upper, &chars_of("INFO")) {
        Color::LightGreen
    } else if has_seq(&upper, &chars_of("DEBUG")) {
        Color::LightCyan
    } else if has_seq(&upper, &chars_of("TRACE")) {
        Color::LightBlue
    } else {
        Color::White
    };
    bold(ink(color))
}

/// The first ASCII letter of a severity, made capital; a space where there is
/// none.
pub open spec fn initial_of(value: Seq<char>) -> Seq<char>
    decreases value.len(),
{
    if value.len() == 0 {
        " "@
    } else if is_ascii_letter(value.first()) {
        seq![ascii_upper(value.first())]
    } else {
        initial_of(value.drop_first())
    }
}

/// The first ASCII letter of a severity, made capital; a space where there is
/// none.
pub fn severity_initial(value: &str) -> (r: String)
    ensures
        r@ == initial_of(value@),
{
    let chars = chars_of(value);
    assert(chars@.skip(0) =~= chars@);
    for i in 0..chars.len()
        invariant
            chars@ == value@,
            initial_of(value@) == initial_of(chars@.skip(i as int)),
    {
        assert(chars@.skip(i as int).drop_first() =~= chars@.skip(i + 1));
        if char_is_ascii_letter(chars[i]) {
            let mut r = String::new();
            push_char(&mut r, char_ascii_upper(chars[i]));
            assert(r@ =~= seq![ascii_upper(chars@[i as int])]);
            return r;
        }
    }
    " ".to_owned()
}

/// A line for a payload that cannot be read.
pub open spec fn failed_line(what: Seq<char>) -> Seq<Seq<StyledModel>> {
    seq![
        seq![
            styled(what, bold(unstyled())),
            styled("payload decode failed; showing raw preview"@, unstyled()),
        ],
    ]
}

fn failed(what: &str) -> (r: Vec<StyledLine>)
    ensures
        lines_view(r@) == failed_line(what@),
{
    let mut r: Vec<StyledLine> = Vec::new();
    push_styled(
        &mut r,
        line_of_two(
            what,
            bold(unstyled()),
            "payload decode failed; showing raw preview",
            unstyled(),
        ),
    );
    assert(lines_view(r@) =~= failed_line(what@));
    r
}

/// White text.
#[verifier::allow_in_spec]
pub fn white() -> Style
    returns
        ink(Color::White),
{
    ink(Color::White)
}

/// The style of the first severity of a list.
pub open spec fn first_severity_style(names: Seq<Seq<char>>) -> Style {
    if names.len() == 0 {
        bold(ink(severity_color(Seq::empty())))
    } else {
        bold(ink(severity_color(names[0])))
    }
}

/// What a log batch holds, line by line.
pub open spec fn log_lines(b: LogsModel) -> Seq<Seq<StyledModel>> {
    let scopes = all_log_scopes(b.resource_logs);
    let items = all_log_items(scopes);
    let severities = listed(severity_texts_of(items));
    seq![label_line("OTLP kind:"@, "logs"@, white())] + seq![
        label_line("Resources:"@, decimal(b.resource_logs.len()), white()),
    ] + seq![label_line("Scopes:"@, decimal(scopes.len()), white())] + seq![
        label_line("Log records:"@, decimal(items.len()), white()),
    ] + names_line("Services:"@, distinct(all_log_services(b.resource_logs)), white())
        + names_line("Severity:"@, severities, first_severity_style(severities))
}

/// What a log batch holds, line by line.
pub fn log_batch_lines(batch: &LogsRequest) -> (r: Vec<StyledLine>)
    ensures
        lines_view(r@) == log_lines(batch@),
{
    let scopes = log_scopes(batch);
    let items = log_items(&scopes);
    let services = distinct_texts(&log_services(batch));
    let severities = listed_texts(&severity_texts(&items));
    let mut lines: Vec<StyledLine> = Vec::new();
    push_styled(&mut lines, key_value_line("OTLP kind:", "logs", white()));
    assert(lines_view(lines@) =~= seq![label_line("OTLP kind:"@, "logs"@, white())]);
    push_styled(
        &mut lines,
        key_value_line("Resources:", usize_text(batch.resource_logs.len()).as_str(), white()),
    );
    push_styled(
        &mut lines,
        key_value_line("Scopes:", usize_text(scopes.len()).as_str(), white()),
    );
    push_styled(
        &mut lines,
        key_value_line("Log records:", usize_text(items.len()).as_str(), white()),
    );
    push_names(&mut lines, "Services:", &services, white());
    let style = if severities.len() > 0 {
        let first = severities.items();
        assert(texts(first@)[0] == first@[0]@);
        severity_style(first[0].as_str())
    } else {
        proof {
            reveal_strlit("");
            assert(""@ =~= Seq::empty());
        }
        severity_style("")
    };
    push_names(&mut lines, "Severity:", &severities, style);
    lines
}

/// What a metric batch holds, line by line.
pub open spec fn metric_batch_lines_of(b: MetricsModel) -> Seq<Seq<StyledModel>> {
    let items = all_metric_items(all_metric_scopes(b.resource_metrics));
    seq![label_line("OTLP kind:"@, "metrics"@, white())] + seq![
        label_line("Resources:"@, decimal(b.resource_metrics.len()), white()),
    ] + seq![label_line("Metrics:"@, decimal(items.len()), white())] + seq![
        label_line("Datapoints:"@, decimal(total_points(items)), white()),
    ] + names_line("Services:"@, distinct(all_metric_services(b.resource_metrics)), white())
}

/// What a metric batch holds, line by line.
pub fn metric_batch_lines(batch: &MetricsRequest) -> (r: Vec<StyledLine>)
    ensures
        lines_view(r@) == metric_batch_lines_of(batch@),
{
    let scopes = metric_scopes(batch);
    let items = metric_items(&scopes);
    let services = distinct_texts(&metric_services(batch));
    let mut lines: Vec<StyledLine> = Vec::new();
    push_styled(&mut lines, key_value_line("OTLP kind:", "metrics", white()));
    assert(lines_view(lines@) =~= seq![label_line("OTLP kind:"@, "metrics"@, white())]);
    push_styled(
        &mut lines,
        key_value_line("Resources:", usize_text(batch.resource_metrics.len()).as_str(), white()),
    );
    push_styled(
        &mut lines,
        key_value_line("Metrics:", usize_text(items.len()).as_str(), white()),
    );
    push_styled(
        &mut lines,
        key_value_line("Datapoints:", u128_text(count_all_points(&items)).as_str(), white()),
    );
    push_names(&mut lines, "Services:", &services, white());
    lines
}

/// What a trace batch holds, line by line.
pub open spec fn trace_batch_lines_of(b: TracesModel) -> Seq<Seq<StyledModel>> {
    let items = all_span_items(all_span_scopes(b.resource_spans));
    seq![label_line("OTLP kind:"@, "traces"@, white())] + seq![
        label_line("Resources:"@, decimal(b.resource_spans.len()), white()),
    ] + seq![label_line("Spans:"@, decimal(items.len()), white())] + names_line(
        "Services:"@,
        distinct(all_span_services(b.resource_spans)),
        white(),
    )
}

/// What a trace batch holds, line by line.
pub fn trace_batch_lines(batch: &TracesRequest) -> (r: Vec<StyledLine>)
    ensures
        lines_view(r@) == trace_batch_lines_of(batch@),
{
    let scopes = span_scopes(batch);
    let items = span_items(&scopes);
    let services = distinct_texts(&span_services(batch));
    let mut lines: Vec<StyledLine> = Vec::new();
    push_styled(&mut lines, key_value_line("OTLP kind:", "traces", white()));
    assert(lines_view(lines@) =~= seq![label_line("OTLP kind:"@, "traces"@, white())]);
    push_styled(
        &mut lines,
        key_value_line("Resources:", usize_text(batch.resource_spans.len()).as_str(), white()),
    );
    push_styled(&mut lines, key_value_line("Spans:", usize_text(items.len()).as_str(), white()));
    push_names(&mut lines, "Services:", &services, white());
    lines
}

/// What a payload holds, line by line.
pub open spec fn payload_lines(t: RecordType, payload: Seq<u8>) -> Seq<Seq<StyledModel>> {
    match t {
        RecordType::Logs => match logs_of(payload) {
            Some(b) => log_lines(b),
            None => failed_line("OTLP logs: "@),
        },
        RecordType::Metrics => match metrics_of(payload) {
            Some(b) => metric_batch_lines_of(b),
            None => failed_line("OTLP metrics: "@),
        },
        RecordType::Traces => match traces_of(payload) {
            Some(b) => trace_batch_lines_of(b),
            None => failed_line("OTLP traces: "@),
        },
        RecordType::Events => Seq::empty(),
    }
}

/// What a payload holds, line by line.
pub fn render_otlp_lines(t: RecordType, payload: &[u8]) -> (r: Vec<StyledLine>)
    ensures
        lines_view(r@) == payload_lines(t, payload@),
{
    match t {
        RecordType::Logs => match decode_logs(payload) {
            Some(b) => log_batch_lines(&b),
            None => failed("OTLP logs: "),
        },
        RecordType::Metrics => match decode_metrics(payload) {
            Some(b) => metric_batch_lines(&b),
            None => failed("OTLP metrics: "),
        },
        RecordType::Traces => match decode_traces(payload) {
            Some(b) => trace_batch_lines(&b),
            None => failed("OTLP traces: "),
        },
        RecordType::Events => {
            let r: Vec<StyledLine> = Vec::new();
            assert(lines_view(r@) =~= Seq::empty());
            r
        },
    }
}

/// The info pane for a record.
pub open spec fn detail_lines(d: DetailModel, hex: bool) -> Seq<Seq<StyledModel>> {
    let head = seq![
        label_line(
            "Record type:"@,
            kind_label(d.meta.record_type),
            bold(ink(Color::LightGreen)),
        ),
    ] + seq![label_line("Sequence:"@, decimal(d.meta.seq as nat), white())] + seq![
        label_line("Timestamp:"@, timestamp_text(d.meta.ts_unix_ns), white()),
    ] + seq![
        label_line("Payload:"@, decimal(d.meta.payload_len as nat) + " bytes"@, white()),
    ] + seq![seq![styled(""@, unstyled())]];
    let more = payload_lines(d.meta.record_type, d.payload);
    if more.len() == 0 {
        head + seq![
            label_line(
                "Preview:"@,
                if hex {
                    hex_cut(d.payload, 64)
                } else {
                    cut(flattened(utf8_lossy(d.payload)), DETAIL_PREVIEW_BYTES as nat)
                },
                white(),
            ),
        ]
    } else {
        head + more
    }
}

/// The info pane for a record.
pub fn render_detail_lines(detail: &DetailRecord, hex_payload: bool) -> (r: Vec<StyledLine>)
    ensures
        lines_view(r@) == detail_lines(detail@, hex_payload),
{
    let mut lines: Vec<StyledLine> = Vec::new();
    push_styled(
        &mut lines,
        key_value_line(
            "Record type:",
            record_kind_label(detail.meta.record_type),
            bold(ink(Color::LightGreen)),
        ),
    );
    assert(lines_view(lines@) =~= seq![
        label_line(
            "Record type:"@,
            kind_label(detail@.meta.record_type),
            bold(ink(Color::LightGreen)),
        ),
    ]);
    push_styled(
        &mut lines,
        key_value_line("Sequence:", u64_text(detail.meta.seq).as_str(), white()),
    );
    push_styled(
        &mut lines,
        key_value_line("Timestamp:", format_timestamp(detail.meta.ts_unix_ns).as_str(), white()),
    );
    let mut size = u64_text(detail.meta.payload_len);
    size.append(" bytes");
    push_styled(&mut lines, key_value_line("Payload:", size.as_str(), white()));
    push_styled(&mut lines, line_of("", unstyled()));
    let mut more = render_otlp_lines(detail.meta.record_type, &detail.payload);
    if more.len() == 0 {
        let preview = if hex_payload {
            hex_preview(&detail.payload, 64)
        } else {
            text_preview(&detail.payload, DETAIL_PREVIEW_BYTES)
        };
        push_styled(&mut lines, key_value_line("Preview:", preview.as_str(), white()));
    } else {
        let ghost head = lines_view(lines@);
        let ghost added = lines_view(more@);
        lines.append(&mut more);
        assert(lines_view(lines@) =~= head + added);
    }
    lines
}

/// The quotient rounded to the nearest whole number, halves to the even one.
pub open spec fn half_even(a: nat, b: nat) -> nat {
    let q = a / b;
    let r = a % b;
    if 2 * r < b || (2 * r == b && q % 2 == 0) {
        q
    } else {
        q + 1
    }
}

/// The distance of neighbouring numbers with 53 significant bits.
pub open spec fn double_step(n: nat) -> nat
    decreases n,
{
    if n < 0x20_0000_0000_0000 {
        1
    } else {
        2 * double_step(n / 2)
    }
}

/// A number rounded to 53 significant bits.
pub open spec fn as_double(n: nat) -> nat {
    half_even(n, double_step(n)) * double_step(n)
}

/// A number of tenths as text.
pub open spec fn tenths_text(t: nat) -> Seq<char> {
    decimal(t / 10) + "."@ + decimal(t % 10)
}

/// A size in a unit that suits it: the number and the unit.
pub open spec fn size_parts(bytes: u64) -> (Seq<char>, Seq<char>) {
    if bytes >= 0x10_0000 {
        (tenths_text(half_even(as_double(bytes as nat) * 10, 0x10_0000)), " Mb"@)
    } else if bytes >= 1024 {
        (tenths_text(half_even(bytes as nat * 10, 1024)), " Kb"@)
    } else {
        (decimal(bytes as nat), " Bt"@)
    }
}

/// The quotient rounded to the nearest whole number, halves to the even one.
fn round_half_even(a: u128, b: u128) -> (r: u128)
    requires
        0 < b <= 0x1_0000_0000_0000,
        a <= 0x1_0000_0000_0000_0000_0000,
    ensures
        r == half_even(a as nat, b as nat),
{
    let q = a / b;
    let m = a % b;
    assert(q <= a) by (nonlinear_arith)
        requires
            b > 0,
            q == a / b,
    ;
    if 2 * m < b || (2 * m == b && q % 2 == 0) {
        q
    } else {
        q + 1
    }
}

/// The distance of neighbouring numbers with 53 significant bits.
fn find_double_step(n: u64) -> (r: u64)
    ensures
        r == double_step(n as nat),
        1 <= r,
        n >= 0x10_0000_0000_0000 ==> r * 0x10_0000_0000_0000 <= n,
        n < 0x10_0000_0000_0000 ==> r == 1,
    decreases n,
{
    if n < 0x20_0000_0000_0000 {
        1
    } else {
        2 * find_double_step(n / 2)
    }
}

/// A number rounded to 53 significant bits.
fn round_to_double(n: u64) -> (r: u128)
    ensures
        r == as_double(n as nat),
        r <= 0x2_0000_0000_0000_0000,
{
    let step = find_double_step(n) as u128;
    let q = round_half_even(n as u128, step);
    let ghost whole = n as nat / step as nat;
    assert(whole * step <= n) by (nonlinear_arith)
        requires
            step > 0,
            whole == n as nat / step as nat,
    ;
    assert(q * step <= (whole + 1) * step) by (nonlinear_arith)
        requires
            q <= whole + 1,
            step > 0,
    ;
    assert((whole + 1) * step == whole * step + step) by (nonlinear_arith);
    q * step
}

fn tenths(t: u128) -> (r: String)
    ensures
        r@ == tenths_text(t as nat),
{
    let mut r = u128_text(t / 10);
    r.append(".");
    r.append(u128_text(t % 10).as_str());
    r
}

/// A size in a unit that suits it: the number and the unit.
pub fn format_size_parts(bytes: u64) -> (r: (String, String))
    ensures
        (r.0@, r.1@) == size_parts(bytes),
{
    if bytes >= 0x10_0000 {
        let value = round_to_double(bytes);
        (tenths(round_half_even(value * 10, 0x10_0000)), " Mb".to_owned())
    } else if bytes >= 1024 {
        (tenths(round_half_even(bytes as u128 * 10, 1024)), " Kb".to_owned())
    } else {
        (u64_text(bytes), " Bt".to_owned())
    }
}

/// The separator of the footer.
pub open spec fn bar() -> StyledModel {
    styled(" | "@, white())
}

/// The footer for a record.
pub open spec fn footer_line(d: DetailModel) -> Seq<StyledModel> {
    let (number, unit) = size_parts(d.meta.payload_len);
    seq![
        styled("#"@ + decimal(d.meta.seq as nat), ink(Color::LightGreen)),
        bar(),
        styled(timestamp_text(d.meta.ts_unix_ns), white()),
        bar(),
        styled(kind_label(d.meta.record_type), bold(white())),
        bar(),
        styled(number, bold(ink(Color::LightYellow))),
        styled(unit, white()),
    ]
}

/// The footer for a record.
pub fn render_modal_footer(detail: &DetailRecord) -> (r: StyledLine)
    ensures
        r@ == footer_line(detail@),
{
    let (number, unit) = format_size_parts(detail.meta.payload_len);
    let mut seq_text = "#".to_owned();
    seq_text.append(u64_text(detail.meta.seq).as_str());
    let mut spans: Vec<StyledSpan> = Vec::new();
    spans.push(span(seq_text.as_str(), ink(Color::LightGreen)));
    spans.push(span(" | ", white()));
    spans.push(span(format_timestamp(detail.meta.ts_unix_ns).as_str(), white()));
    spans.push(span(" | ", white()));
    spans.push(span(record_kind_label(detail.meta.record_type), bold(white())));
    spans.push(span(" | ", white()));
    spans.push(span(number.as_str(), bold(ink(Color::LightYellow))));
    spans.push(span(unit.as_str(), white()));
    let r = StyledLine { spans };
    assert(r@ =~= footer_line(detail@));
    r
}

/// The footer where there is no record.
pub open spec fn empty_footer() -> Seq<StyledModel> {
    seq![
        styled("#"@, ink(Color::LightGreen)),
        bar(),
        styled(""@, white()),
        bar(),
        styled(""@, bold(white())),
        bar(),
        styled(""@, bold(ink(Color::LightYellow))),
        styled(""@, white()),
    ]
}

/// The footer where there is no record.
pub fn render_modal_footer_placeholder() -> (r: StyledLine)
    ensures
        r@ == empty_footer(),
{
    let mut spans: Vec<StyledSpan> = Vec::new();
    spans.push(span("#", ink(Color::LightGreen)));
    spans.push(span(" | ", white()));
    spans.push(span("", white()));
    spans.push(span(" | ", white()));
    spans.push(span("", bold(white())));
    spans.push(span(" | ", white()));
    spans.push(span("", bold(ink(Color::LightYellow))));
    spans.push(span("", white()));
    let r = StyledLine { spans };
    assert(r@ =~= empty_footer());
    r
}

/// A text begins with another.
pub open spec fn begins(s: Seq<char>, prefix: Seq<char>) -> bool {
    occurs_at(s, prefix, 0)
}

fn begins_with(s: &Vec<char>, prefix: &str) -> (r: bool)
    ensures
        r == begins(s@, prefix@),
{
    occurs_here(s, &chars_of(prefix), 0)
}

/// The name of an attribute of a resource, a scope, a record or a span.
pub open spec fn attribute_entry(key: Seq<char>) -> bool {
    (begins(key, "resource."@) && key != "resource.attrs"@) || (begins(key, "scope."@) && key
        != "scope.attrs"@) || (begins(key, "record."@) && key != "record.attrs"@) || (begins(
        key,
        "span."@,
    ) && key != "span.attrs"@)
}

/// Whether a name is that of an attribute of a resource, a scope, a record or a
/// span.
pub fn is_otlp_attribute_entry(key: &str) -> (r: bool)
    ensures
        r == attribute_entry(key@),
{
    let chars = chars_of(key);
    (begins_with(&chars, "resource.") && !str_eq(key, "resource.attrs")) || (begins_with(
        &chars,
        "scope.",
    ) && !str_eq(key, "scope.attrs")) || (begins_with(&chars, "record.") && !str_eq(
        key,
        "record.attrs",
    )) || (begins_with(&chars, "span.") && !str_eq(key, "span.attrs"))
}

/// The name of an attribute that the OpenTelemetry conventions define.
pub open spec fn standard_name(s: Seq<char>) -> bool {
    begins(s, "service."@) || begins(s, "telemetry."@) || begins(s, "host."@) || begins(s, "os."@) || begins(s, "process."@) || begins(s, "container."@) || begins(s, "k8s."@) || begins(s, "cloud."@) || begins(s, "deployment."@) || begins(s, "device."@) || begins(s, "faas."@) || begins(s, "enduser."@) || begins(s, "server."@) || begins(s, "client."@) || begins(s, "http."@) || begins(s, "url."@) || begins(s, "network."@) || begins(s, "net."@) || begins(s, "rpc."@) || begins(s, "db."@) || begins(s, "messaging."@) || begins(s, "exception."@) || begins(s, "code."@) || begins(s, "thread."@) || begins(s, "gen_ai."@) || begins(s, "browser."@) || begins(s, "user_agent."@) || begins(s, "aws."@) || begins(s, "gcp."@) || begins(s, "azure."@) || begins(s, "vcs."@)
}

/// The part of an entry behind its first dot names an attribute that the
/// OpenTelemetry conventions define.
pub open spec fn standard_entry(key: Seq<char>) -> bool {
    let at = first_index(key, '.');
    at < key.len() && standard_name(key.skip(at + 1))
}

/// Whether the part of an entry behind its first dot names an attribute that
/// the OpenTelemetry conventions define.
pub fn is_standard_otlp_attribute_entry(key: &str) -> (r: bool)
    ensures
        r == standard_entry(key@),
{
    let chars = chars_of(key);
    let at = index_of_char(&chars, '.');
    if at >= chars.len() {
        return false;
    }
    let name = chars_of(string_between(&chars, at + 1, chars.len()).as_str());
    assert(name@ =~= key@.skip(at + 1));
    begins_with(&name, "service.") || begins_with(&name, "telemetry.") || begins_with(&name, "host.") || begins_with(&name, "os.") || begins_with(&name, "process.") || begins_with(&name, "container.") || begins_with(&name, "k8s.") || begins_with(&name, "cloud.") || begins_with(&name, "deployment.") || begins_with(&name, "device.") || begins_with(&name, "faas.") || begins_with(&name, "enduser.") || begins_with(&name, "server.") || begins_with(&name, "client.") || begins_with(&name, "http.") || begins_with(&name, "url.") || begins_with(&name, "network.") || begins_with(&name, "net.") || begins_with(&name, "rpc.") || begins_with(&name, "db.") || begins_with(&name, "messaging.") || begins_with(&name, "exception.") || begins_with(&name, "code.") || begins_with(&name, "thread.") || begins_with(&name, "gen_ai.") || begins_with(&name, "browser.") || begins_with(&name, "user_agent.") || begins_with(&name, "aws.") || begins_with(&name, "gcp.") || begins_with(&name, "azure.") || begins_with(&name, "vcs.")
}

/// The value that stands for an empty list.
pub open spec fn nothing_mark() -> Seq<char> {
    "\0N/A"@
}

/// A line of the info panel.
pub open spec fn info_line(key: Seq<char>, value: Seq<char>, key_width: nat, value_width: nat) -> Seq<
    StyledModel,
> {
    let bg = Color::Indexed(30);
    let special = attribute_entry(key) && !standard_entry(key);
    let key_style = if special {
        bold(ink_on(Color::LightCyan, bg))
    } else {
        bold(ink_on(Color::LightYellow, bg))
    };
    let shown = cut(flattened(value), value_width);
    if value == nothing_mark() {
        seq![
            styled(padded(key, key_width) + ": "@, key_style),
            styled("N/A"@, bold(ink_on(Color::Red, bg))),
        ]
    } else if key.len() == 0 {
        seq![
            styled(spaces(key_width) + "  "@, paper(bg)),
            styled(shown, bold(ink_on(Color::White, bg))),
        ]
    } else {
        seq![
            styled(padded(key, key_width) + ": "@, key_style),
            styled(
                shown,
                if special {
                    bold(ink_on(Color::White, bg))
                } else {
                    ink_on(Color::White, bg)
                },
            ),
        ]
    }
}

/// A line of the info panel.
pub fn modal_info_line(key: &str, value: &str, key_width: usize, value_width: usize) -> (r:
    StyledLine)
    ensures
        r@ == info_line(key@, value@, key_width as nat, value_width as nat),
{
    let bg = Color::Indexed(30);
    let special = is_otlp_attribute_entry(key) && !is_standard_otlp_attribute_entry(key);
    let key_style = if special {
        bold(ink_on(Color::LightCyan, bg))
    } else {
        bold(ink_on(Color::LightYellow, bg))
    };
    let mut name = pad(key, key_width);
    name.append(": ");
    if str_eq(value, "\0N/A") {
        return line_of_two(name.as_str(), key_style, "N/A", bold(ink_on(Color::Red, bg)));
    }
    let shown = trim_single_line(value, value_width);
    if key.is_empty() {
        let mut blank = String::new();
        push_spaces(&mut blank, key_width);
        assert(blank@ =~= spaces(key_width as nat));
        blank.append("  ");
        return line_of_two(
            blank.as_str(),
            paper(bg),
            shown.as_str(),
            bold(ink_on(Color::White, bg)),
        );
    }
    let value_style = if special {
        bold(ink_on(Color::White, bg))
    } else {
        ink_on(Color::White, bg)
    };
    line_of_two(name.as_str(), key_style, shown.as_str(), value_style)
}

/// How many lines a text has; a line break at its end opens no line.
pub open spec fn line_count(s: Seq<char>) -> nat {
    let pieces = split_on(s, '\n');
    if pieces.len() > 0 && pieces.last().len() == 0 {
        (pieces.len() - 1) as nat
    } else {
        pieces.len()
    }
}

/// How many lines `text` has; a line break at its end opens no line.
pub fn count_lines(text: &str) -> (r: usize)
    ensures
        r == line_count(text@),
{
    let pieces = split_chars(&chars_of(text), '\n');
    let n = pieces.len();
    if n > 0 {
        assert(texts(pieces@)[n - 1] == pieces@[n - 1]@);
        if pieces[n - 1].as_str().is_empty() {
            return n - 1;
        }
    }
    n
}

/// A number reduced to sixteen bits.
pub open spec fn low16(n: int) -> int {
    n % 0x1_0000
}

/// A number reduced to sixteen bits.
pub fn reduce16(n: usize) -> (r: u16)
    ensures
        r == low16(n as int),
{
    (n % 0x1_0000) as u16
}

/// A message wrapped at `width`, and how many lines it has.
pub fn fit_modal_body(message: &str, width: usize) -> (r: (String, u16))
    ensures
        r.0@ == wrapped(message@, width as nat),
        r.1 == low16(line_count(wrapped(message@, width as nat)) as int),
{
    let text = smart_wrap(message, width);
    let count = reduce16(count_lines(text.as_str()));
    (text, count)
}

/// A text in exactly `width` characters.
pub fn fit_line(input: &str, width: usize) -> (r: String)
    ensures
        r@ == fitted(input@, width as nat),
{
    fit_to_width(input, width)
}

/// The value of a decimal digit.
pub open spec fn digit_value(c: char) -> nat {
    if is_ascii_digit(c) {
        (c as u32 - '0' as u32) as nat
    } else {
        0
    }
}

/// The number that digits make up.
pub open spec fn digits_value(s: Seq<char>) -> nat
    decreases s.len(),
{
    if s.len() == 0 {
        0
    } else {
        digits_value(s.drop_last()) * 10 + digit_value(s.last())
    }
}

/// The number that digits denote, where it fits in a machine word.
pub open spec fn digits_number(digits: Seq<char>) -> Option<nat> {
    if digits.len() > 0 && (forall|i: int|
        0 <= i < digits.len() ==> is_ascii_digit(#[trigger] digits[i])) && digits_value(digits)
        <= usize::MAX {
        Some(digits_value(digits))
    } else {
        None
    }
}

/// The number that a text denotes: digits, with a plus sign in front or not,
/// whose value fits in a machine word.
pub open spec fn number_of(s: Seq<char>) -> Option<nat> {
    if s.len() > 0 && s[0] == '+' {
        digits_number(s.skip(1))
    } else {
        digits_number(s)
    }
}

proof fn lemma_digits_grow(s: Seq<char>, n: int)
    requires
        0 <= n <= s.len(),
    ensures
        digits_value(s.take(n)) <= digits_value(s),
    decreases s.len(),
{
    if n < s.len() {
        assert(s.drop_last().take(n) =~= s.take(n));
        lemma_digits_grow(s.drop_last(), n);
    } else {
        assert(s.take(n) =~= s);
    }
}

/// The number that a text denotes.
pub fn parse_number(text: &str) -> (r: Option<usize>)
    ensures
        match r {
            Some(n) => number_of(text@) == Some(n as nat),
            None => number_of(text@) is None,
        },
{
    let chars = chars_of(text);
    let n = chars.len();
    let from: usize = if n > 0 && chars[0] == '+' {
        1
    } else {
        0
    };
    let ghost digits = text@.skip(from as int);
    assert(from == 0 ==> digits =~= text@);
    if from >= n {
        return None;
    }
    let mut value: usize = 0;
    assert(digits.take(0) =~= Seq::empty());
    for i in from..n
        invariant
            n == chars@.len(),
            chars@ == text@,
            from <= n,
            digits == text@.skip(from as int),
            value == digits_value(digits.take(i - from)),
            forall|j: int| 0 <= j < i - from ==> is_ascii_digit(#[trigger] digits[j]),
            number_of(text@) == digits_number(digits),
    {
        let c = chars[i];
        assert(digits[i - from] == c);
        assert(digits.take(i - from + 1).drop_last() =~= digits.take(i - from));
        if !('0' <= c && c <= '9') {
            return None;
        }
        let d: usize = (c as u32 - '0' as u32) as usize;
        proof {
            lemma_digits_grow(digits, i - from + 1);
        }
        if value > usize::MAX / 10 || value * 10 > usize::MAX - d {
            return None;
        }
        value = value * 10 + d;
    }
    assert(digits.take(n - from) =~= digits);
    Some(value)
}

/// Which records are exported: from the first up to, but not with, the second.
pub open spec fn export_range(input: Seq<char>, total: nat, selected: nat) -> Result<
    (nat, nat),
    Seq<char>,
> {
    let t = trim(input);
    let low = lowered(t);
    let at = first_index(t, '-');
    if t.len() == 0 {
        Err("Range must not be empty."@)
    } else if low == "all"@ || low == "a"@ {
        Ok((0, total))
    } else if low == "current"@ || low == "c"@ || t == "0"@ {
        if total == 0 {
            Ok((0, 0))
        } else {
            let current = if selected < total {
                selected
            } else {
                (total - 1) as nat
            };
            Ok((current, current + 1))
        }
    } else if at < t.len() {
        match number_of(trim(t.take(at))) {
            None => Err("Invalid range start."@),
            Some(start) => match number_of(trim(t.skip(at + 1))) {
                None => Err("Invalid range end."@),
                Some(end) => if start == 0 || end == 0 {
                    Err("Range is 1-based; values must be >= 1."@)
                } else if start > end {
                    Err("Range start must be <= end."@)
                } else if start > total {
                    Ok((total, total))
                } else {
                    Ok(
                        (
                            (start - 1) as nat,
                            if end < total {
                                end
                            } else {
                                total
                            },
                        ),
                    )
                },
            },
        }
    } else {
        match number_of(t) {
            None => Err("Range must be all/a, current/c/0, N, or N-N."@),
            Some(amount) => if amount == 0 {
                Err("Amount must be >= 1."@)
            } else {
                Ok(
                    (
                        0,
                        if amount < total {
                            amount
                        } else {
                            total
                        },
                    ),
                )
            },
        }
    }
}

/// Which records are exported: from the first up to, but not with, the second.
pub fn parse_export_selection(input: &str, total: usize, selected: usize) -> (r: Result<
    (usize, usize),
    String,
>)
    ensures
        match r {
            Ok((from, to)) => export_range(input@, total as nat, selected as nat) == Ok::<
                (nat, nat),
                Seq<char>,
            >((from as nat, to as nat)) && from <= to <= total,
            Err(e) => export_range(input@, total as nat, selected as nat) == Err::<
                (nat, nat),
                Seq<char>,
            >(e@),
        },
{
    let text = trimmed(&chars_of(input));
    let t = text.as_str();
    let chars = chars_of(t);
    if chars.len() == 0 {
        return Err("Range must not be empty.".to_owned());
    }
    let low = ascii_lowered(t);
    if str_eq(low.as_str(), "all") || str_eq(low.as_str(), "a") {
        return Ok((0, total));
    }
    if str_eq(low.as_str(), "current") || str_eq(low.as_str(), "c") || str_eq(t, "0") {
        if total == 0 {
            return Ok((0, 0));
        }
        let current = if selected < total {
            selected
        } else {
            total - 1
        };
        return Ok((current, current + 1));
    }
    let at = index_of_char(&chars, '-');
    if at < chars.len() {
        let left = string_between(&chars, 0, at);
        let right = string_between(&chars, at + 1, chars.len());
        assert(left@ =~= chars@.take(at as int));
        assert(right@ =~= chars@.skip(at + 1));
        let start = match parse_number(trimmed(&chars_of(left.as_str())).as_str()) {
            Some(n) => n,
            None => return Err("Invalid range start.".to_owned()),
        };
        let end = match parse_number(trimmed(&chars_of(right.as_str())).as_str()) {
            Some(n) => n,
            None => return Err("Invalid range end.".to_owned()),
        };
        if start == 0 || end == 0 {
            return Err("Range is 1-based; values must be >= 1.".to_owned());
        }
        if start > end {
            return Err("Range start must be <= end.".to_owned());
        }
        if start > total {
            return Ok((total, total));
        }
        return Ok(
            (
                start - 1,
                if end < total {
                    end
                } else {
                    total
                },
            ),
        );
    }
    let amount = match parse_number(t) {
        Some(n) => n,
        None => return Err("Range must be all/a, current/c/0, N, or N-N.".to_owned()),
    };
    if amount == 0 {
        return Err("Amount must be >= 1.".to_owned());
    }
    Ok(
        (
            0,
            if amount < total {
                amount
            } else {
                total
            },
        ),
    )
}

/// A range that is accepted lies within the records there are.
pub proof fn law_export_range_fits(input: Seq<char>, total: nat, selected: nat)
    ensures
        export_range(input, total, selected) matches Ok((from, to)) ==> from <= to <= total,
{
}

} // verus!
