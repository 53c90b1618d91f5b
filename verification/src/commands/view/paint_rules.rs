//! What the screen is painted with.
use vstd::prelude::*;

use crate::commands::view::keys::LineModel;
use crate::commands::view::lines::{detail_lines, footer_line};
use crate::commands::view::paint::{help_line, status_help, PaintModel};
use crate::commands::view::popups::{
    dedup_paints, dedup_progress_paints, divider_lines, gray_frame, modal_edges, modal_footer,
    modal_frame, modal_paints, pane_names, pane_paints, pane_title, pick_lines, ModalParts,
    ModalPlanModel,
};
use crate::commands::view::prompts::{current_choice, DedupModel, ExportModel};
use crate::commands::view::field_filter::{CatalogModel, FilterPanel, FilterStateModel};
use crate::commands::view::render::{
    details_paints, error_paints, export_paints, focus_help, list_paints, list_rows, list_scrolled,
    save_paints, search_paints, search_title, status_paints,
};
use crate::commands::view::row_rules::plain;
use crate::commands::view::state::ViewModel;
use crate::commands::view::style::{centered, error_line, inside, Area, StyledModel};
use crate::commands::view::text::{cut, fitted, flattened};
use crate::commands::view::types::{ExportField, Focus, ListRowSummary};
use crate::dedup::{DedupMatchMode, DedupMode};

verus! {

/// The text of two styled texts is that of both.
proof fn lemma_plain_of_two(a: StyledModel, b: StyledModel)
    ensures
        plain(seq![a, b]) == a.text + b.text,
{
    let all = seq![a, b];
    assert(all.drop_last() =~= seq![a]);
    assert(seq![a].drop_last() =~= Seq::<StyledModel>::empty());
    assert(plain(seq![a].drop_last()) == Seq::<char>::empty());
    assert(plain(seq![a]) =~= a.text);
}

/// The text of three styled texts is that of all.
proof fn lemma_plain_of_three(a: StyledModel, b: StyledModel, c: StyledModel)
    ensures
        plain(seq![a, b, c]) == a.text + b.text + c.text,
{
    lemma_plain_of_two(a, b);
    assert(seq![a, b, c].drop_last() =~= seq![a, b]);
}

/// The search bar shows its title and the query. The cursor stands behind the
/// query where that has the keys, and never beside the bar.
pub proof fn law_search_bar(m: ViewModel, area: Area)
    requires
        area.width > 0,
        area.height > 0,
        area.x + area.width <= u16::MAX,
        m.query_input.len() < 0x8000,
    ensures
        ({
            let p = search_paints(m, area);
            let behind = area.x + search_title(m.filter_mode).len() + m.query_input.len();
            &&& p[1] matches PaintModel::Lines { area: a, lines, .. } && a == area && lines.len()
                == 1 && plain(lines[0]) == search_title(m.filter_mode) + m.query_input
            &&& m.focus != Focus::Search ==> p.len() == 2
            &&& m.focus == Focus::Search ==> p.len() == 3 && p[2] is Cursor
            &&& m.focus == Focus::Search ==> p[2]->Cursor_y == area.y
            &&& m.focus == Focus::Search ==> area.x <= p[2]->Cursor_x < area.x + area.width
            &&& m.focus == Focus::Search && behind < area.x + area.width ==> p[2]->Cursor_x == behind
        }),
{
    reveal_strlit("Filter (strings): ");
    reveal_strlit("Filter (regex): ");
    let p = search_paints(m, area);
    if let PaintModel::Lines { lines, .. } = p[1] {
        lemma_plain_of_two(lines[0][0], lines[0][1]);
        assert(lines[0] =~= seq![lines[0][0], lines[0][1]]);
    }
}

/// The list shows its rows, and the bar beside it how many records there are
/// and which one is selected.
pub proof fn law_list_is_painted(
    m: ViewModel,
    rows: Seq<Option<ListRowSummary>>,
    area: Area,
)
    requires
        area.height > 0,
        area.width > 0,
        0 <= m.list.selected < m.list.entries.len(),
    ensures
        ({
            let p = list_paints(m, rows, area);
            &&& p.len() == 2
            &&& p[0] matches PaintModel::Lines { area: a, lines, scroll, .. } && a == area && lines
                == list_rows(m, rows, (area.width - 1) as nat) && scroll == 0
            &&& p[1] matches PaintModel::Scrollbar { area: a, length, position, .. } && a == area
                && length == m.list.entries.len() && position == m.list.selected
        }),
{
}

/// An empty list says so, and has no bar.
pub proof fn law_empty_list_says_so(
    m: ViewModel,
    rows: Seq<Option<ListRowSummary>>,
    area: Area,
)
    requires
        area.height > 0,
        m.list.entries.len() == 0,
    ensures
        ({
            let p = list_paints(m, rows, area);
            &&& p.len() == 1
            &&& p[0] matches PaintModel::Lines { area: a, lines, .. } && a == area && lines.len()
                == 1 && lines[0].len() == 1 && lines[0][0].text
                == "No matches yet. Type a filter, press Enter, then browse the result set."@
        }),
{
}

/// The info pane shows the record that is loaded, from where it is scrolled to,
/// inside its frame.
pub proof fn law_info_pane_is_painted(m: ViewModel, area: Area)
    ensures
        ({
            let p = details_paints(m, area);
            &&& p.len() == 2
            &&& p[0] matches PaintModel::Border { area: a, title, .. } && a == area && title.len()
                == 1 && title[0].text == " Info "@
            &&& p[1] matches PaintModel::Lines { area: a, lines, scroll, .. } && a == inside(area)
                && scroll == m.list.detail_scroll && (m.list.detail is Some ==> lines
                == detail_lines(m.list.detail->0, m.hex_payload))
        }),
{
}

/// Scrolling the list to the selected record changes where it starts alone, and
/// that record is then in view.
pub proof fn law_list_is_scrolled_to_the_selected(m: ViewModel, rows: int)
    requires
        0 <= m.list.offset,
        0 <= m.list.selected,
        0 < rows,
    ensures
        ({
            let next = list_scrolled(m, rows);
            &&& next.list.offset <= m.list.selected < next.list.offset + rows
            &&& m.list.offset <= m.list.selected < m.list.offset + rows ==> next.list.offset
                == m.list.offset
            &&& next.list.selected == m.list.selected && next.list.entries == m.list.entries
            &&& next.focus == m.focus && next.status == m.status
        }),
{
}

/// While the list or the query has the keys, the status stands at the right end
/// of the bottom bar, as much of it as fits, and the help at the left never
/// reaches into it.
pub proof fn law_status_stands_at_the_right(m: ViewModel, area: Area)
    requires
        area.width > 0,
        area.height > 0,
        area.x + area.width <= u16::MAX,
        !m.tail_mode,
        m.focus == Focus::List || m.focus == Focus::Search,
        0 < flattened(m.status).len() <= area.width,
        cut(flattened(m.status), area.width as nat) == flattened(m.status),
    ensures
        ({
            let p = status_paints(m, area);
            &&& p.len() == 3
            &&& p[1] is Spans && p[1]->Spans_x == area.x
            &&& p[1]->spans == help_line(status_help(m.focus))
            &&& p[2] is Spans && p[2]->spans.len() == 1
            &&& p[2]->spans[0].text == flattened(m.status)
            &&& p[2]->Spans_x + p[2]->Spans_width == area.x + area.width
            &&& p[2]->Spans_width == flattened(m.status).len()
            &&& p[1]->Spans_x + p[1]->Spans_width <= p[2]->Spans_x
        }),
{
}

/// While a file is followed the bottom bar says how to stop, whatever has the
/// keys.
pub proof fn law_following_is_told(m: ViewModel, area: Area)
    requires
        area.width > 0,
        area.height > 0,
        m.tail_mode,
    ensures
        ({
            let p = status_paints(m, area);
            &&& p.len() == 2
            &&& p[1] is Spans && p[1]->Spans_x == area.x && p[1]->Spans_y == area.y && p[1]->Spans_width
                == area.width
            &&& p[1]->spans.len() == 1 && p[1]->spans[0].text
                == "Tailing... Press any key to stop"@
        }),
{
}

/// Each key of the help is followed by what it does.
pub proof fn law_help_pairs_keys_with_actions(items: Seq<(Seq<char>, Seq<char>)>, i: int)
    requires
        0 <= i < items.len(),
    ensures
        help_line(items).len() == 2 * items.len(),
        help_line(items)[2 * i].text == items[i].0,
        help_line(items)[2 * i + 1].text == items[i].1,
    decreases items.len(),
{
    let init = items.drop_last();
    if i < init.len() {
        law_help_pairs_keys_with_actions(init, i);
    } else if init.len() > 0 {
        law_help_pairs_keys_with_actions(init, 0);
    } else {
        assert(help_line(init) == Seq::<StyledModel>::empty());
    }
}

/// The popups and prompts have a help of their own; the list, the query, the
/// filter and a running export have none.
pub proof fn law_help_of_popups(m: ViewModel)
    ensures
        focus_help(m.focus) is None <==> m.focus == Focus::List || m.focus == Focus::Search
            || m.focus == Focus::FieldFilter || m.focus == Focus::ExportProgress,
        m.focus == Focus::SaveError || m.focus == Focus::ExportError ==> focus_help(m.focus)->0[0].text
            == "Press any key to return"@,
        m.focus == Focus::DedupProgress ==> focus_help(m.focus)->0[0].text
            == "Deduplicating\u{2026}"@,
        focus_help(Focus::SavePrompt) == Some(
            help_line(seq![("ENTER"@, " save   "@), ("ESC"@, " cancel"@)]),
        ),
{
}

/// A prompt for a name or a notice blanks its area before anything else is
/// painted there.
pub proof fn law_notices_are_blanked_first(
    line: LineModel,
    title: Seq<char>,
    message: Option<Seq<char>>,
    area: Area,
)
    ensures
        save_paints(line, area)[0] == PaintModel::Clear(area),
        error_paints(title, message, area)[0] == PaintModel::Clear(area),
{
}

/// The prompt for exports blanks its area first.
pub proof fn law_export_prompt_is_blanked_first(m: ExportModel, screen: Area)
    ensures
        export_paints(m, screen)[0] == PaintModel::Clear(centered(62, 57, 10, screen)),
{
}

/// The prompt for dedup runs, and their progress, blank their areas first.
pub proof fn law_dedup_prompt_is_blanked_first(m: DedupModel, screen: Area)
    ensures
        dedup_paints(m, screen)[0] == PaintModel::Clear(centered(52, 58, 8, screen)),
        dedup_progress_paints(m, screen)[0] == PaintModel::Clear(centered(52, 52, 6, screen)),
{
    assert(gray_frame(centered(52, 58, 8, screen), " Deduplicate "@)[0] == PaintModel::Clear(
        centered(52, 58, 8, screen),
    ));
    assert(gray_frame(centered(52, 52, 6, screen), " Deduplicating\u{2026} "@)[0]
        == PaintModel::Clear(centered(52, 52, 6, screen)));
}

/// A centred area lies within the whole one, as far from the left as from the
/// right and from the top as from the bottom, but for one cell.
pub proof fn law_centred_areas(percent: u16, least: u16, height: u16, area: Area)
    requires
        area.x + area.width <= u16::MAX,
        area.y + area.height <= u16::MAX,
    ensures
        ({
            let c = centered(percent, least, height, area);
            let left = c.x - area.x;
            let right = (area.x + area.width) - (c.x + c.width);
            let top = c.y - area.y;
            let bottom = (area.y + area.height) - (c.y + c.height);
            &&& 0 <= left <= right <= left + 1
            &&& 0 <= top <= bottom <= top + 1
            &&& height <= area.height ==> c.height == height
            &&& height > area.height ==> c.height == area.height
            &&& least <= area.width ==> c.width >= least
            &&& least > area.width ==> c.width == area.width
        }),
{
    assert(0 <= area.width * (if percent < 100 {
        percent as int
    } else {
        100
    })) by (nonlinear_arith)
        requires
            0 <= area.width,
    ;
}

/// The prompt for a name shows it behind its label, with the cursor in it.
pub proof fn law_save_prompt_is_painted(line: LineModel, area: Area)
    requires
        area.width >= 24,
        area.height >= 3,
        area.x + area.width <= u16::MAX,
        area.y + area.height <= u16::MAX,
        0 <= line.cursor < area.width - 14,
    ensures
        ({
            let p = save_paints(line, area);
            let inner = inside(area);
            &&& p.len() == 4
            &&& p[1] matches PaintModel::Border { area: a, title, .. } && a == area
                && title[0].text == " Save current content "@
            &&& p[2] matches PaintModel::Lines { lines, area: a, .. } && a.y == inner.y && a.x
                == inner.x && a.height == 1 && lines.len() == 1 && plain(lines[0])
                == "Filename: "@ + fitted(line.text, (inner.width - 12) as nat)
            &&& p[3] is Cursor && p[3]->Cursor_x == inner.x + 10 + line.cursor && p[3]->Cursor_y == inner.y
        }),
{
    reveal_strlit("Filename: ");
    let p = save_paints(line, area);
    if let PaintModel::Lines { lines, .. } = p[2] {
        assert(lines[0] =~= seq![lines[0][0], lines[0][1]]);
        lemma_plain_of_two(lines[0][0], lines[0][1]);
    }
}

/// An error is shown in full inside a frame with its title.
pub proof fn law_errors_are_painted(title: Seq<char>, message: Seq<char>, area: Area)
    ensures
        ({
            let p = error_paints(title, Some(message), area);
            &&& p.len() == 3
            &&& p[1] matches PaintModel::Border { area: a, title: t, .. } && a == area && t.len()
                == 1 && t[0].text == title
            &&& p[2] matches PaintModel::Lines { area: a, lines, scroll, .. } && a == inside(area)
                && scroll == 0 && lines == seq![error_line(message)]
        }),
        error_paints(title, None, area).len() == 2,
{
}

/// The export prompt shows the format, the name and the range, each on a row of
/// its own, in this order.
pub proof fn law_export_prompt_is_painted(m: ExportModel, screen: Area)
    requires
        screen.width >= 57,
        screen.height >= 10,
        screen.x + screen.width <= u16::MAX,
        screen.y + screen.height <= u16::MAX,
        0 <= m.filename.cursor < 40,
        0 <= m.range.cursor < 40,
    ensures
        ({
            let p = export_paints(m, screen);
            let inner = inside(centered(62, 57, 10, screen));
            let width = (inner.width - 12) as nat;
            &&& p.len() == 7
            &&& p[1] matches PaintModel::Border { title, .. } && title[0].text == " Export "@
                + current_choice(m).title + " "@
            &&& p[2] matches PaintModel::Lines { area: a, lines, .. } && a.y == inner.y
                && plain(lines[0]) == "Format:   "@ + fitted(
                "< "@ + current_choice(m).name + " >"@,
                width,
            )
            &&& p[3] matches PaintModel::Lines { area: a, lines, .. } && a.y == inner.y + 2
                && plain(lines[0]) == "Filename: "@ + fitted(m.filename.text, width)
            &&& p[4] matches PaintModel::Lines { area: a, lines, .. } && a.y == inner.y + 4
                && plain(lines[0]) == "Range:    "@ + fitted(m.range.text, width)
            &&& p[6] is Cursor
            &&& m.field == ExportField::Format ==> p[6]->Cursor_y == inner.y
            &&& m.field == ExportField::Filename ==> p[6]->Cursor_y == inner.y + 2 && p[6]->Cursor_x == inner.x
                + 10 + m.filename.cursor
            &&& m.field == ExportField::Range ==> p[6]->Cursor_y == inner.y + 4 && p[6]->Cursor_x == inner.x + 10
                + m.range.cursor
        }),
{
    reveal_strlit("Format:   ");
    reveal_strlit("Filename: ");
    reveal_strlit("Range:    ");
    law_centred_areas(62, 57, 10, screen);
    let p = export_paints(m, screen);
    if let PaintModel::Lines { lines, .. } = p[2] {
        assert(lines[0] =~= seq![lines[0][0], lines[0][1]]);
        lemma_plain_of_two(lines[0][0], lines[0][1]);
    }
    if let PaintModel::Lines { lines, .. } = p[3] {
        assert(lines[0] =~= seq![lines[0][0], lines[0][1]]);
        lemma_plain_of_two(lines[0][0], lines[0][1]);
    }
    if let PaintModel::Lines { lines, .. } = p[4] {
        assert(lines[0] =~= seq![lines[0][0], lines[0][1]]);
        lemma_plain_of_two(lines[0][0], lines[0][1]);
    }
}

/// The prompt for dedup runs shows the output, the mode and the way to match,
/// each with a few words on it.
pub proof fn law_dedup_prompt_is_painted(m: DedupModel, screen: Area)
    requires
        screen.width >= 58,
        screen.height >= 8,
        screen.x + screen.width <= u16::MAX,
        screen.y + screen.height <= u16::MAX,
    ensures
        ({
            let p = dedup_paints(m, screen);
            let inner = inside(centered(52, 58, 8, screen));
            &&& p.len() == 7
            &&& p[1] matches PaintModel::Border { title, .. } && title[0].text
                == " Deduplicate "@
            &&& p[2] matches PaintModel::Lines { area: a, lines, .. } && a.y == inner.y
                && plain(lines[0]) == "Output: "@ + fitted(m.filename, (inner.width - 10) as nat)
            &&& p[3] is Cursor && p[3]->Cursor_y == inner.y
            &&& m.filename.len() < 30 ==> p[3]->Cursor_x == inner.x + 9 + m.filename.len()
            &&& p[4] matches PaintModel::Lines { area: a, lines, .. } && a.y == inner.y + 2
                && plain(lines[0]) == (match m.behavior {
                DedupMode::Distinct => "Mode:   "@ + "distinct"@ + ("  "@
                    + "whole filtered set, SQL-like distinct"@),
                DedupMode::Collapse => "Mode:   "@ + "collapse"@ + ("  "@
                    + "nearby burst suppression within bucket"@),
            })
            &&& p[5] matches PaintModel::Lines { area: a, lines, .. } && a.y == inner.y + 3
                && plain(lines[0]) == (match m.match_mode {
                DedupMatchMode::Exact => "Match:  "@ + "exact"@ + ("  "@
                    + "byte-identical bodies only"@),
                DedupMatchMode::Hash2 => "Match:  "@ + "canon"@ + ("  "@
                    + "canonicalized body grouping"@),
                DedupMatchMode::Full => "Match:  "@ + "full"@ + ("  "@
                    + "canon plus Drain3 residuals"@),
            })
        }),
{
    law_centred_areas(52, 58, 8, screen);
    let p = dedup_paints(m, screen);
    if let PaintModel::Lines { lines, .. } = p[2] {
        assert(lines[0] =~= seq![lines[0][0], lines[0][1]]);
        lemma_plain_of_two(lines[0][0], lines[0][1]);
    }
    if let PaintModel::Lines { lines, .. } = p[4] {
        assert(lines[0] =~= seq![lines[0][0], lines[0][1], lines[0][2]]);
        lemma_plain_of_three(lines[0][0], lines[0][1], lines[0][2]);
    }
    if let PaintModel::Lines { lines, .. } = p[5] {
        assert(lines[0] =~= seq![lines[0][0], lines[0][1], lines[0][2]]);
        lemma_plain_of_three(lines[0][0], lines[0][1], lines[0][2]);
    }
}

/// A running dedup run shows its phase; one that has ended shows its outcome in
/// the bar, and how to go on.
pub proof fn law_dedup_progress_is_painted(m: DedupModel, screen: Area)
    ensures
        ({
            let p = dedup_progress_paints(m, screen);
            &&& p.len() == 4
            &&& p[2] is Gauge && p[2]->label == m.completion
            &&& p[3] matches PaintModel::Lines { lines, .. } && plain(lines[0]) == "Phase: "@
                + (if m.completion is Some {
                "Press ENTER to open the deduped file"@
            } else {
                m.phase
            })
        }),
{
    let p = dedup_progress_paints(m, screen);
    if let PaintModel::Lines { lines, .. } = p[3] {
        assert(lines[0] =~= seq![lines[0][0], lines[0][1]]);
        lemma_plain_of_two(lines[0][0], lines[0][1]);
    }
}

/// The popup shows its text from where it is scrolled to, with a bar that tells
/// how far that is, and the footer of the record.
pub proof fn law_popup_is_painted(m: ViewModel, p: ModalPlanModel, parts: ModalParts)
    requires
        m.list.detail is Some,
    ensures
        modal_footer(m) == footer_line(m.list.detail->0),
        ({
            let q = modal_paints(m, p, parts);
            let at: int = if m.modal.info_visible {
                1
            } else {
                0
            };
            &&& q[at] matches PaintModel::Body { area, text, scroll, .. } && area == parts.body
                && text == p.text && scroll == m.modal.scroll
            &&& q[at + 1] matches PaintModel::Scrollbar { area, length, position, .. } && area
                == parts.body && length == p.text_lines && position == m.modal.scroll
            &&& !m.modal.info_visible ==> q.len() == 3 && (q[2] matches PaintModel::Lines {
                area,
                lines,
                ..
            } && area == parts.footer && lines == seq![footer_line(m.list.detail->0)])
            &&& m.modal.info_visible ==> (q[3] matches PaintModel::Lines { area, .. } && area
                == parts.info) && (q[4] matches PaintModel::Lines { area, lines, .. } && area
                == parts.footer && lines == seq![footer_line(m.list.detail->0)])
        }),
        modal_frame(p, m.modal.info_visible)[0] == PaintModel::Clear(p.area),
        modal_frame(p, m.modal.info_visible)[1] matches PaintModel::Border { area, title, .. }
            && area == p.area && title[0].text == " Log record "@,
{
}

/// The two halves of the frame of the popup meet where the divider is.
pub proof fn law_popup_edges_meet(area: Area, split: int)
    requires
        area.width > 0,
        area.height > 0,
        area.x + area.width <= u16::MAX,
        area.y + area.height <= u16::MAX,
        area.x <= split <= area.x + area.width,
    ensures
        ({
            let e = modal_edges(area, split);
            &&& e.len() == 6
            &&& e[0] matches PaintModel::Fill { area: a, .. } && a.x == area.x && a.y == area.y
                && a.x + a.width == split && a.height == 1
            &&& e[1] matches PaintModel::Fill { area: a, .. } && a.x == split && a.y == area.y
                && a.x + a.width == area.x + area.width && a.height == 1
            &&& e[2] matches PaintModel::Fill { area: a, .. } && a.x == area.x && a.y == area.y
                + area.height - 1 && a.x + a.width == split
            &&& e[3] matches PaintModel::Fill { area: a, .. } && a.x == split && a.y == area.y
                + area.height - 1 && a.x + a.width == area.x + area.width
            &&& e[4] matches PaintModel::Fill { area: a, .. } && a.x == area.x && a.width == 1
                && a.height == area.height
            &&& e[5] matches PaintModel::Fill { area: a, .. } && a.x == area.x + area.width - 1
                && a.width == 1 && a.height == area.height
        }),
{
}

/// The divider is as high as its area.
pub proof fn law_divider(height: nat, i: int)
    requires
        0 <= i < height,
    ensures
        divider_lines(height).len() == height,
        divider_lines(height)[i].len() == 1,
        divider_lines(height)[i][0].text == "\u{2502}"@,
{
}

/// The filter shows the severities at the left and the services at the right,
/// each with what is chosen there, and the text that narrows the active list in
/// its title.
pub proof fn law_filter_is_painted(
    m: FilterStateModel,
    catalog: CatalogModel,
    area: Area,
    left: Area,
    right: Area,
)
    ensures
        ({
            let p = pane_paints(m, catalog, area, left, right);
            let on_left = m.panel == FilterPanel::Severities;
            let on_right = m.panel == FilterPanel::Services;
            &&& p.len() == 5
            &&& p[0] == PaintModel::Clear(area)
            &&& p[1] matches PaintModel::Border { area: a, title, .. } && a == area && title
                == pane_title(m.filter_text)
            &&& p[2] matches PaintModel::Lines { area: a, lines, scroll, .. } && a == left
                && scroll == m.severity.scroll && lines == pick_lines(
                " Severity"@,
                pane_names(on_left, catalog.severities, m.filter_text),
                m.severity,
                on_left,
            )
            &&& p[3] matches PaintModel::Lines { area: a, lines, scroll, .. } && a == right
                && scroll == m.service.scroll && lines == pick_lines(
                " Services"@,
                pane_names(on_right, catalog.services, m.filter_text),
                m.service,
                on_right,
            )
        }),
        m.filter_text.len() == 0 ==> plain(pane_title(m.filter_text)) == " Field Filter "@,
        m.filter_text.len() > 0 ==> plain(pane_title(m.filter_text)) == " Field Filter "@ + (" ["@
            + m.filter_text + "\u{258f}]"@),
{
    let t = pane_title(m.filter_text);
    if m.filter_text.len() == 0 {
        assert(t.drop_last() =~= Seq::<StyledModel>::empty());
        assert(plain(t.drop_last()) == Seq::<char>::empty());
    } else {
        assert(t =~= seq![t[0], t[1]]);
        lemma_plain_of_two(t[0], t[1]);
    }
}

} // verus!
