//! What the rows, panes and popups show.
use vstd::prelude::*;

use crate::bridge::protobuf::{logs_of, metrics_of, traces_of};
use crate::commands::export::timestamp_text;
use crate::commands::view::detail::syslog_text;
use crate::commands::view::field_filter::{shown_names, PickModel};
use crate::commands::view::flatten::{
    all_log_items, all_log_scopes, all_metric_items, all_metric_scopes, all_span_items,
    all_span_scopes,
};
use crate::commands::view::info::{record_info, total_points};
use crate::commands::view::line_rules::law_fitted_texts_have_the_width;
use crate::commands::view::lines::{
    detail_lines, footer_line, info_line, initial_of, label_line, log_lines, metric_batch_lines_of,
    padded, payload_lines, severity_color, size_parts, trace_batch_lines_of,
};
use crate::commands::view::popups::{info_lines, modal_plan, pane_names, pick_line, pick_lines};
use crate::commands::view::render::{list_row, list_rows, row_severity, row_style, search_title};
use crate::commands::view::state::ViewModel;
use crate::commands::view::style::{error_line, existing_file, inside, Area, Color, Style, StyledModel};
use crate::commands::view::text::{fitted, wrapped};
use crate::commands::view::types::{DetailModel, Focus, ListRowSummary};
use crate::exporter::kind_label;
use crate::otlp::{LogsModel, MetricsModel, TracesModel};
use crate::predicate::FilterMode;
use crate::record::RecordType;
use crate::text::numbers::decimal;

verus! {

/// The text of a line, without its styles.
pub open spec fn plain(line: Seq<StyledModel>) -> Seq<char>
    decreases line.len(),
{
    if line.len() == 0 {
        Seq::empty()
    } else {
        plain(line.drop_last()) + line.last().text
    }
}

/// The list shows one row for each record from the first that is in view, each
/// that of its own record.
pub proof fn law_rows_are_those_of_the_list(
    m: ViewModel,
    rows: Seq<Option<ListRowSummary>>,
    width: nat,
    i: int,
)
    requires
        0 <= i < rows.len(),
    ensures
        list_rows(m, rows, width).len() == rows.len(),
        list_rows(m, rows, width)[i] == list_row(m, m.list.offset + i, rows[i], width),
    decreases rows.len(),
{
    let init = rows.drop_last();
    if init.len() > 0 {
        law_rows_are_those_of_the_list(
            m,
            init,
            width,
            if i < init.len() {
                i
            } else {
                0
            },
        );
    } else {
        assert(list_rows(m, init, width).len() == 0);
    }
}

/// A row shows the time of its record, the initial of its severity, and its
/// message, and is as wide as the list.
pub proof fn law_rows_show_time_severity_and_message(
    m: ViewModel,
    index: int,
    row: ListRowSummary,
    width: nat,
)
    requires
        !m.details_visible,
        width >= 19,
        row.severity is Some,
    ensures
        ({
            let line = list_row(m, index, Some(row), width);
            &&& line[0].text == fitted(syslog_text(m.list.entries[index].ts_unix_ns), 15)
            &&& line[2].text == fitted(initial_of(row.severity->0@), 1)
            &&& line[2].style.fg == Some(severity_color(row.severity->0@))
            &&& line[4].text == fitted(row.message@, (width - 19) as nat)
            &&& line[0].text.len() + line[1].text.len() + line[2].text.len() + line[3].text.len()
                + line[4].text.len() == width
        }),
{
    reveal_strlit(" ");
    reveal_strlit("  ");
    let line = list_row(m, index, Some(row), width);
    law_fitted_texts_have_the_width(syslog_text(m.list.entries[index].ts_unix_ns), 15, 0);
    law_fitted_texts_have_the_width(initial_of(row.severity->0@), 1, 0);
    law_fitted_texts_have_the_width(row.message@, (width - 19) as nat, 0);
    assert(row_severity(Some(row)) == row.severity->0@);
    assert(line[1].text == " "@ && line[3].text == "  "@);
}

/// With the info pane open, a row shows the message alone.
pub proof fn law_rows_beside_the_info_pane(
    m: ViewModel,
    index: int,
    row: ListRowSummary,
    width: nat,
)
    requires
        m.details_visible,
    ensures
        list_row(m, index, Some(row), width).len() == 1,
        list_row(m, index, Some(row), width)[0].text == fitted(row.message@, width),
{
}

/// The selected row, and while a file is followed the one where that began,
/// stand out from the others; no other row does.
pub proof fn law_only_the_selected_row_stands_out(m: ViewModel, i: int)
    ensures
        row_style(m, i).bg is Some <==> i == m.list.selected || (m.tail_mode && m.tail_marker
            is Some && m.tail_marker->0 == i),
        !m.tail_mode && i == m.list.selected && m.focus != Focus::Search ==> row_style(m, i).bg
            == Some(Color::Indexed(28)),
        m.tail_mode && m.tail_marker is Some && m.tail_marker->0 == i ==> row_style(m, i).bg
            == Some(Color::Red),
{
}

/// The bar of the query says how it is read.
pub proof fn law_query_bar_names_the_mode(mode: FilterMode)
    ensures
        mode == FilterMode::Strings ==> search_title(mode) == "Filter (strings): "@,
        mode == FilterMode::Regex ==> search_title(mode) == "Filter (regex): "@,
{
}

/// A list of choices has a title and one line for each name, in order; a name
/// is marked exactly where it is chosen.
pub proof fn law_choices_are_marked(
    title: Seq<char>,
    names: Seq<Seq<char>>,
    pick: PickModel,
    active: bool,
    i: int,
)
    requires
        0 <= i < names.len(),
    ensures
        ({
            let l = pick_lines(title, names, pick, active);
            &&& l.len() == names.len() + 1
            &&& l[0][0].text == title
            &&& pick.chosen.contains(names[i]) ==> l[i + 1][0].text == " "@ + "\u{25a3}"@ + " "@
                + names[i]
            &&& !pick.chosen.contains(names[i]) ==> l[i + 1][0].text == " "@ + "\u{2610}"@ + " "@
                + names[i]
            &&& l[i + 1][0].style.bg is Some <==> active && i == pick.cursor
        }),
    decreases names.len(),
{
    let init = names.drop_last();
    if init.len() > 0 {
        law_choices_are_marked(
            title,
            init,
            pick,
            active,
            if i < init.len() {
                i
            } else {
                0
            },
        );
    } else {
        let first = pick_lines(title, init, pick, active);
        assert(first.len() == 1);
        assert(first[0][0].text == title);
    }
    let l = pick_lines(title, names, pick, active);
    if i < init.len() {
        assert(l[i + 1] == pick_lines(title, init, pick, active)[i + 1]);
    } else {
        assert(l[i + 1] == pick_line(
            names[i],
            pick.chosen.contains(names[i]),
            active && i == pick.cursor,
        ));
    }
}

/// The active list is narrowed by the typed text, the other one is shown whole.
pub proof fn law_only_the_active_list_is_narrowed(names: Seq<Seq<char>>, text: Seq<char>)
    ensures
        pane_names(false, names, text) == names,
        pane_names(true, names, text) == shown_names(names, text),
{
}

/// The note on a file that exists shows the name of the file by itself; any
/// other error is shown as it is.
pub proof fn law_existing_files_are_named(name: Seq<char>, other: Seq<char>)
    requires
        other.len() < 5 || other.take(5) != "File "@,
    ensures
        existing_file("File "@ + name + " already exist"@) == Some(name),
        plain(error_line(other)) == other,
{
    reveal_strlit("File ");
    reveal_strlit(" already exist");
    let m = "File "@ + name + " already exist"@;
    assert(m.take(5) =~= "File "@);
    assert(m.skip(m.len() - 14) =~= " already exist"@);
    assert(m.subrange(5, m.len() - 14) =~= name);
    let line = error_line(other);
    assert(existing_file(other) is None);
    assert(line.drop_last() =~= Seq::empty());
    assert(plain(line.drop_last()) =~= Seq::empty());
    assert(plain(line) =~= other);
}

/// The info pane over a record has one line for each entry, in order.
pub proof fn law_info_lines_are_those_of_the_entries(
    entries: Seq<(Seq<char>, Seq<char>)>,
    key_width: nat,
    value_width: nat,
    i: int,
)
    requires
        0 <= i < entries.len(),
    ensures
        info_lines(entries, key_width, value_width).len() == entries.len(),
        info_lines(entries, key_width, value_width)[i] == info_line(
            entries[i].0,
            entries[i].1,
            key_width,
            value_width,
        ),
    decreases entries.len(),
{
    let init = entries.drop_last();
    if init.len() > 0 {
        law_info_lines_are_those_of_the_entries(
            init,
            key_width,
            value_width,
            if i < init.len() {
                i
            } else {
                0
            },
        );
    } else {
        assert(info_lines(init, key_width, value_width).len() == 0);
    }
}

/// The popup shows the text of the record, wrapped to its width, and beside it,
/// where that is asked for, all that is known of the record.
pub proof fn law_popup_shows_the_record(m: ViewModel, screen: Area)
    requires
        m.modal.text is Some,
        m.list.detail is Some,
    ensures
        ({
            let p = modal_plan(m, screen);
            &&& !m.modal.info_visible ==> p.entries.len() == 0 && p.info_width == 0 && p.text
                == wrapped(m.modal.text->0, (p.message_width - 1) as nat)
            &&& m.modal.info_visible ==> p.entries == record_info(m.list.detail->0)
                && p.info_width >= 16
            &&& m.modal.info_visible && p.message_width > 0 ==> p.text == wrapped(
                m.modal.text->0,
                (p.message_width - 1) as nat,
            )
        }),
{
}

/// The footer of the popup tells the sequence number, the time, the type and the
/// size of the record.
pub proof fn law_footer_tells_the_record(d: DetailModel)
    ensures
        ({
            let l = footer_line(d);
            &&& l[0].text == "#"@ + decimal(d.meta.seq as nat)
            &&& l[2].text == timestamp_text(d.meta.ts_unix_ns)
            &&& l[4].text == kind_label(d.meta.record_type)
            &&& l[6].text == size_parts(d.meta.payload_len).0
            &&& l[7].text == size_parts(d.meta.payload_len).1
        }),
{
}

/// A line has the label, filled up to twelve characters, and the value.
pub proof fn law_label_lines(label: Seq<char>, value: Seq<char>, style: Style)
    ensures
        label_line(label, value, style).len() == 2,
        label_line(label, value, style)[0].text == padded(label, 12) + " "@,
        label_line(label, value, style)[1].text == value,
{
}

/// The info pane tells of the selected record its type, sequence number, time
/// and size.
pub proof fn law_info_pane_tells_the_record(d: DetailModel, hex: bool)
    ensures
        ({
            let l = detail_lines(d, hex);
            &&& l[0][0].text == padded("Record type:"@, 12) + " "@ && l[0][1].text == kind_label(
                d.meta.record_type,
            )
            &&& l[1][0].text == padded("Sequence:"@, 12) + " "@ && l[1][1].text == decimal(
                d.meta.seq as nat,
            )
            &&& l[2][0].text == padded("Timestamp:"@, 12) + " "@ && l[2][1].text == timestamp_text(
                d.meta.ts_unix_ns,
            )
            &&& l[3][0].text == padded("Payload:"@, 12) + " "@ && l[3][1].text == decimal(
                d.meta.payload_len as nat,
            ) + " bytes"@
        }),
{
}

/// Below that it counts what the payload holds: resources, scopes and log
/// records; resources, metrics and data points; resources and spans.
pub proof fn law_info_pane_counts(l: LogsModel, m: MetricsModel, t: TracesModel)
    ensures
        log_lines(l)[0][1].text == "logs"@,
        log_lines(l)[1][1].text == decimal(l.resource_logs.len()),
        log_lines(l)[2][1].text == decimal(all_log_scopes(l.resource_logs).len()),
        log_lines(l)[3][1].text == decimal(all_log_items(all_log_scopes(l.resource_logs)).len()),
        metric_batch_lines_of(m)[0][1].text == "metrics"@,
        metric_batch_lines_of(m)[1][1].text == decimal(m.resource_metrics.len()),
        metric_batch_lines_of(m)[2][1].text == decimal(
            all_metric_items(all_metric_scopes(m.resource_metrics)).len(),
        ),
        metric_batch_lines_of(m)[3][1].text == decimal(
            total_points(all_metric_items(all_metric_scopes(m.resource_metrics))),
        ),
        trace_batch_lines_of(t)[0][1].text == "traces"@,
        trace_batch_lines_of(t)[1][1].text == decimal(t.resource_spans.len()),
        trace_batch_lines_of(t)[2][1].text == decimal(
            all_span_items(all_span_scopes(t.resource_spans)).len(),
        ),
{
}

/// What a payload holds is told by the type of the record, and where it does
/// not decode, that is said.
pub proof fn law_info_pane_follows_the_type(payload: Seq<u8>)
    ensures
        logs_of(payload) matches Some(b) ==> payload_lines(RecordType::Logs, payload)
            == log_lines(b),
        metrics_of(payload) matches Some(b) ==> payload_lines(RecordType::Metrics, payload)
            == metric_batch_lines_of(b),
        traces_of(payload) matches Some(b) ==> payload_lines(RecordType::Traces, payload)
            == trace_batch_lines_of(b),
        logs_of(payload) is None ==> payload_lines(RecordType::Logs, payload)[0][1].text
            == "payload decode failed; showing raw preview"@,
        metrics_of(payload) is None ==> payload_lines(RecordType::Metrics, payload)[0][1].text
            == "payload decode failed; showing raw preview"@,
        traces_of(payload) is None ==> payload_lines(RecordType::Traces, payload)[0][1].text
            == "payload decode failed; showing raw preview"@,
        payload_lines(RecordType::Events, payload).len() == 0,
{
}

/// Inside a frame there is one row and one column less at each side.
pub proof fn law_frames_take_one_cell(a: Area)
    requires
        a.width >= 2,
        a.height >= 2,
        a.x + a.width <= u16::MAX,
        a.y + a.height <= u16::MAX,
    ensures
        inside(a).x == a.x + 1,
        inside(a).y == a.y + 1,
        inside(a).width == a.width - 2,
        inside(a).height == a.height - 2,
{
}

} // verus!
