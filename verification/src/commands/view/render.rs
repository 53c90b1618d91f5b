//! The bars, the list, the panes and the prompts.
use vstd::prelude::*;

use crate::commands::view::detail::{format_syslog_timestamp, syslog_text};
use crate::commands::view::keys::LineModel;
use crate::commands::view::lines::{
    detail_lines, fit_line, low16, reduce16, render_detail_lines, severity_color,
    severity_initial, severity_style, initial_of,
};
use crate::commands::view::paint::{
    blank, border_at, help_line, help_spans, line_at, no_spans, one_line, paint_border,
    paint_line, paints_view, pair_texts, pane_at, pane_block, put, put_line, put_span,
    status_help, status_help_spans, Paint, PaintModel,
};
use crate::commands::view::prompts::{current_choice, ExportModel};
use crate::commands::view::state::{ViewModel, ViewState};
use crate::commands::view::style::{
    area_of, bold, centered, centered_rect_fixed_height, diff16, error_line, ink, ink_on,
    inner_area, inside, line_of, line_of_two, lines_view, min16, paper, render_save_error_message,
    spans_view, styled, sum16, help_style, unstyled, Area, Color, Style, StyledLine,
    StyledModel, StyledSpan,
};
use crate::commands::view::text::{
    char_count, cut, fit_to_width, fitted, flattened, smaller, trim_single_line,
};
use crate::commands::view::types::{ExportField, Focus, ListRowSummary};
use crate::predicate::FilterMode;

verus! {

/// The background of the bars.
#[verifier::allow_in_spec]
pub fn teal() -> Color
    returns
        Color::Indexed(30),
{
    Color::Indexed(30)
}

/// The title of the search bar.
pub open spec fn search_title(mode: FilterMode) -> Seq<char> {
    match mode {
        FilterMode::Strings => "Filter (strings): "@,
        FilterMode::Regex => "Filter (regex): "@,
    }
}

/// The search bar.
pub open spec fn search_paints(m: ViewModel, area: Area) -> Seq<PaintModel> {
    if area.width == 0 || area.height == 0 {
        Seq::empty()
    } else {
        let title = search_title(m.filter_mode);
        let bar = seq![
            PaintModel::Fill { area, style: paper(teal()) },
            line_at(
                area,
                seq![
                    styled(title, bold(ink_on(Color::LightCyan, teal()))),
                    styled(m.query_input, ink_on(Color::White, teal())),
                ],
                paper(teal()),
            ),
        ];
        if m.focus == Focus::Search {
            let behind = sum16(
                sum16(area.x as int, low16(title.len() as int)),
                low16(m.query_input.len() as int),
            );
            let last = diff16(sum16(area.x as int, area.width as int), 1);
            bar.push(PaintModel::Cursor { x: smaller(behind, last), y: area.y as int })
        } else {
            bar
        }
    }
}

/// The style of a row of the list.
pub open spec fn row_style(m: ViewModel, index: int) -> Style {
    if m.tail_mode && (m.tail_marker matches Some(i) && i == index) {
        bold(ink_on(Color::White, Color::Red))
    } else if index == m.list.selected {
        if m.focus == Focus::Search {
            bold(ink_on(Color::Gray, Color::DarkGray))
        } else {
            bold(ink_on(Color::White, Color::Indexed(28)))
        }
    } else {
        ink(Color::White)
    }
}

/// The message of a row that may have failed to be read.
pub open spec fn row_message(row: Option<ListRowSummary>) -> Seq<char> {
    match row {
        Some(s) => s.message@,
        None => "<failed to render summary>"@,
    }
}

/// The severity of a row that may have failed to be read.
pub open spec fn row_severity(row: Option<ListRowSummary>) -> Seq<char> {
    match row {
        Some(s) => match s.severity {
            Some(t) => t@,
            None => ""@,
        },
        None => ""@,
    }
}

/// A row with its time, its severity and its message.
pub open spec fn table_row(
    ts_unix_ns: u64,
    message: Seq<char>,
    severity: Seq<char>,
    width: nat,
    style: Style,
) -> Seq<StyledModel> {
    let bg = match style.bg {
        Some(c) => c,
        None => Color::Reset,
    };
    seq![
        styled(
            fitted(syslog_text(ts_unix_ns), 15),
            (Style { fg: Some(Color::LightBlue), ..style }),
        ),
        styled(" "@, style),
        styled(
            fitted(initial_of(severity), 1),
            (Style { bg: Some(bg), ..bold(ink(severity_color(severity))) }),
        ),
        styled("  "@, style),
        styled(fitted(message, diff16(width as int, 19) as nat), style),
    ]
}

/// A row of the list.
pub open spec fn list_row(m: ViewModel, index: int, row: Option<ListRowSummary>, width: nat) -> Seq<
    StyledModel,
> {
    if m.details_visible {
        seq![styled(fitted(row_message(row), width), row_style(m, index))]
    } else {
        table_row(
            m.list.entries[index].ts_unix_ns,
            row_message(row),
            row_severity(row),
            width,
            row_style(m, index),
        )
    }
}

/// The rows of the list from the one at `m.list.offset` on.
pub open spec fn list_rows(m: ViewModel, rows: Seq<Option<ListRowSummary>>, width: nat) -> Seq<
    Seq<StyledModel>,
>
    decreases rows.len(),
{
    if rows.len() == 0 {
        Seq::empty()
    } else {
        list_rows(m, rows.drop_last(), width).push(
            list_row(m, m.list.offset + rows.len() - 1, rows.last(), width),
        )
    }
}

/// The list.
pub open spec fn list_paints(m: ViewModel, rows: Seq<Option<ListRowSummary>>, area: Area) -> Seq<
    PaintModel,
> {
    if area.height == 0 {
        Seq::empty()
    } else if m.list.entries.len() == 0 {
        seq![
            PaintModel::Lines {
                area,
                lines: seq![
                    seq![
                        styled(
                            "No matches yet. Type a filter, press Enter, then browse the result set."@,
                            ink(Color::Gray),
                        ),
                    ],
                ],
                style: ink(Color::White),
                scroll: 0,
                wrap: true,
            },
        ]
    } else {
        seq![
            PaintModel::Lines {
                area,
                lines: list_rows(m, rows, diff16(area.width as int, 1) as nat),
                style: ink(Color::White),
                scroll: 0,
                wrap: true,
            },
            PaintModel::Scrollbar {
                area,
                length: m.list.entries.len() as int,
                position: smaller(m.list.selected, m.list.entries.len() - 1),
                style: unstyled(),
            },
        ]
    }
}

/// The first row of a list of `rows` rows in which the selected one is seen.
pub open spec fn list_offset(offset: int, selected: int, rows: int) -> int {
    if selected < offset {
        selected
    } else if selected >= offset + rows && rows > 0 {
        selected + 1 - rows
    } else {
        offset
    }
}

/// The selected row is among those that are shown.
pub proof fn law_selected_row_is_seen(offset: int, selected: int, rows: int)
    requires
        0 <= offset,
        0 <= selected,
        0 < rows,
    ensures
        0 <= list_offset(offset, selected, rows) <= selected,
        selected < list_offset(offset, selected, rows) + rows,
{
}

/// The pane with the selected record.
pub open spec fn details_paints(m: ViewModel, area: Area) -> Seq<PaintModel> {
    seq![
        pane_at(area, " Info "@, false),
        PaintModel::Lines {
            area: inside(area),
            lines: match m.list.detail {
                Some(d) => detail_lines(d, m.hex_payload),
                None => seq![seq![styled("No record selected yet."@, unstyled())]],
            },
            style: ink(Color::White),
            scroll: m.list.detail_scroll,
            wrap: true,
        },
    ]
}

/// The keys of a pane or prompt, or a text that stands for them.
pub open spec fn focus_help(focus: Focus) -> Option<Seq<StyledModel>> {
    match focus {
        Focus::Modal => Some(
            help_line(
                seq![
                    ("ESC"@, " close   "@),
                    ("UP/DOWN"@, " scroll   "@),
                    ("LEFT/RIGHT"@, " prev/next   "@),
                    ("I"@, " info panel   "@),
                    ("T"@, " tail"@),
                ],
            ),
        ),
        Focus::SavePrompt => Some(help_line(seq![("ENTER"@, " save   "@), ("ESC"@, " cancel"@)])),
        Focus::SaveError | Focus::ExportError => Some(
            seq![styled("Press any key to return"@, help_style())],
        ),
        Focus::ExportPrompt => Some(
            help_line(
                seq![
                    ("TAB"@, " next field   "@),
                    ("\u{2190}/\u{2192}"@, " format   "@),
                    ("ENTER"@, " export   "@),
                    ("ESC"@, " cancel"@),
                ],
            ),
        ),
        Focus::DedupPrompt => Some(
            help_line(
                seq![
                    ("LEFT/RIGHT"@, " mode   "@),
                    ("ENTER"@, " start   "@),
                    ("ESC"@, " cancel"@),
                ],
            ),
        ),
        Focus::DedupProgress => Some(seq![styled("Deduplicating\u{2026}"@, help_style())]),
        Focus::ExportProgress | Focus::FieldFilter | Focus::Search | Focus::List => None,
    }
}

/// The status bar.
pub open spec fn status_paints(m: ViewModel, area: Area) -> Seq<PaintModel> {
    let bar = PaintModel::Fill { area, style: paper(teal()) };
    let (x, y, width) = (area.x as int, area.y as int, area.width as int);
    if area.width == 0 || area.height == 0 {
        Seq::empty()
    } else if m.tail_mode {
        seq![
            bar,
            PaintModel::Spans {
                x,
                y,
                width,
                spans: seq![styled("Tailing... Press any key to stop"@, help_style())],
            },
        ]
    } else {
        match focus_help(m.focus) {
            Some(spans) => seq![bar, PaintModel::Spans { x, y, width, spans }],
            None => {
                let status = cut(flattened(m.status), area.width as nat);
                let used = smaller(status.len() as int, width);
                let gap: int = if width > used {
                    1
                } else {
                    0
                };
                let left = seq![
                    bar,
                    PaintModel::Spans {
                        x,
                        y,
                        width: diff16(width - used, gap),
                        spans: help_line(status_help(m.focus)),
                    },
                ];
                if used > 0 {
                    left.push(
                        PaintModel::Spans {
                            x: diff16(sum16(x, width), used),
                            y,
                            width: used,
                            spans: seq![styled(status, ink_on(Color::LightGreen, teal()))],
                        },
                    )
                } else {
                    left
                }
            },
        }
    }
}

/// Black on gray.
#[verifier::allow_in_spec]
pub fn on_gray() -> Style
    returns
        ink_on(Color::Black, Color::Gray),
{
    ink_on(Color::Black, Color::Gray)
}

/// Black on white.
#[verifier::allow_in_spec]
pub fn on_white() -> Style
    returns
        ink_on(Color::Black, Color::White),
{
    ink_on(Color::Black, Color::White)
}

/// A row inside an area, so many rows down.
pub open spec fn row_of(inner: Area, down: int) -> Area {
    area_of(inner.x as int, sum16(inner.y as int, down), inner.width as int, 1)
}

/// The columns for a text behind a label.
pub open spec fn field_width(inner: Area, label: Seq<char>) -> int {
    diff16(inner.width as int, label.len() as int + 2)
}

/// A label and the text behind it.
pub open spec fn field_at(inner: Area, down: int, label: Seq<char>, text: Seq<char>, style: Style) -> PaintModel {
    line_at(
        row_of(inner, down),
        seq![
            styled(label, on_gray()),
            styled(fitted(text, field_width(inner, label) as nat), style),
        ],
        unstyled(),
    )
}

/// The column of a cursor behind a label.
pub open spec fn field_cursor(inner: Area, label: Seq<char>, cursor: int) -> int {
    smaller(
        sum16(sum16(inner.x as int, label.len() as int), cursor),
        sum16(inner.x as int, label.len() + field_width(inner, label)),
    )
}

/// The save prompt.
pub open spec fn save_paints(filename: LineModel, area: Area) -> Seq<PaintModel> {
    let inner = inside(area);
    seq![
        PaintModel::Clear(area),
        border_at(
            area,
            " Save current content "@,
            bold(on_gray()),
            false,
            ink_on(Color::White, Color::Gray),
            on_gray(),
        ),
        field_at(inner, 0, "Filename: "@, filename.text, on_white()),
        PaintModel::Cursor {
            x: field_cursor(inner, "Filename: "@, low16(filename.cursor as int)),
            y: inner.y as int,
        },
    ]
}

/// An error that a prompt shows.
pub open spec fn error_paints(title: Seq<char>, message: Option<Seq<char>>, area: Area) -> Seq<
    PaintModel,
> {
    let red = ink_on(Color::White, Color::Red);
    let frame = seq![
        PaintModel::Clear(area),
        border_at(area, title, bold(ink_on(Color::Red, Color::White)), true, red, red),
    ];
    match message {
        Some(t) => frame.push(
            PaintModel::Lines {
                area: inside(area),
                lines: seq![error_line(t)],
                style: paper(Color::Red),
                scroll: 0,
                wrap: true,
            },
        ),
        None => frame,
    }
}

/// The style of a field of the export prompt.
pub open spec fn export_field_style(active: bool) -> Style {
    if active {
        on_white()
    } else {
        ink_on(Color::Black, Color::Indexed(250))
    }
}

/// The help of the export prompt.
pub open spec fn export_help() -> Seq<Seq<StyledModel>> {
    seq![
        seq![
            styled(
                "Format: use \u{2190}/\u{2192} or SPACE to choose (built-in + plugins)"@,
                unstyled(),
            ),
        ],
        seq![styled("Range:  a / all  |  c / current / 0  |  N  |  N-N"@, unstyled())],
        seq![styled("Uses the current filtered view order."@, unstyled())],
    ]
}

/// The place of the cursor in the export prompt.
pub open spec fn export_cursor(m: ExportModel, inner: Area) -> PaintModel {
    match m.field {
        ExportField::Format => PaintModel::Cursor {
            x: field_cursor(inner, "Format:   "@, 2),
            y: inner.y as int,
        },
        ExportField::Filename => PaintModel::Cursor {
            x: field_cursor(inner, "Filename: "@, low16(m.filename.cursor as int)),
            y: sum16(inner.y as int, 2),
        },
        ExportField::Range => PaintModel::Cursor {
            x: field_cursor(inner, "Range:    "@, low16(m.range.cursor as int)),
            y: sum16(inner.y as int, 4),
        },
    }
}

/// The export prompt.
pub open spec fn export_paints(m: ExportModel, screen: Area) -> Seq<PaintModel> {
    let area = centered(62, 57, 10, screen);
    let inner = inside(area);
    let format_style = if m.field == ExportField::Format {
        bold(on_white())
    } else {
        export_field_style(false)
    };
    seq![
        PaintModel::Clear(area),
        border_at(
            area,
            " Export "@ + current_choice(m).title + " "@,
            bold(on_white()),
            true,
            ink_on(Color::White, Color::Gray),
            on_gray(),
        ),
        field_at(
            inner,
            0,
            "Format:   "@,
            "< "@ + current_choice(m).name + " >"@,
            format_style,
        ),
        field_at(
            inner,
            2,
            "Filename: "@,
            m.filename.text,
            export_field_style(m.field == ExportField::Filename),
        ),
        field_at(
            inner,
            4,
            "Range:    "@,
            m.range.text,
            export_field_style(m.field == ExportField::Range),
        ),
        PaintModel::Lines {
            area: area_of(inner.x as int, sum16(inner.y as int, 5), inner.width as int, 3),
            lines: export_help(),
            style: ink_on(Color::DarkGray, Color::Gray),
            scroll: 0,
            wrap: false,
        },
        export_cursor(m, inner),
    ]
}

/// Draws a label and the text behind it.
fn paint_field(inner: Area, down: u16, label: &str, text: &str, style: Style) -> (r: Paint)
    requires
        label@.len() <= 10,
    ensures
        r@ == field_at(inner, down as int, label@, text@, style),
{
    let width = inner.width.saturating_sub(char_count(label) as u16 + 2);
    let fit = fit_to_width(text, width as usize);
    let row = Area {
        x: inner.x,
        y: inner.y.saturating_add(down),
        width: inner.width,
        height: 1,
    };
    paint_line(row, line_of_two(label, on_gray(), fit.as_str(), style), unstyled())
}

/// The column of a cursor behind a label.
fn cursor_column(inner: Area, label: &str, cursor: u16) -> (r: u16)
    requires
        label@.len() <= 10,
    ensures
        r == field_cursor(inner, label@, cursor as int),
{
    let n = char_count(label) as u16;
    let width = inner.width.saturating_sub(n + 2);
    min16(
        inner.x.saturating_add(n).saturating_add(cursor),
        inner.x.saturating_add(n + width),
    )
}

fn export_help_lines() -> (r: Vec<StyledLine>)
    ensures
        lines_view(r@) == export_help(),
{
    let mut r = one_line(
        line_of(
            "Format: use \u{2190}/\u{2192} or SPACE to choose (built-in + plugins)",
            unstyled(),
        ),
    );
    put_line(
        &mut r,
        line_of("Range:  a / all  |  c / current / 0  |  N  |  N-N", unstyled()),
    );
    put_line(&mut r, line_of("Uses the current filtered view order.", unstyled()));
    assert(lines_view(r@) =~= export_help());
    r
}

fn focus_help_spans(focus: Focus) -> (r: Option<Vec<StyledSpan>>)
    ensures
        match r {
            Some(s) => focus_help(focus) == Some(spans_view(s@)),
            None => focus_help(focus) is None,
        },
{
    let items: Vec<(&'static str, &'static str)> = match focus {
        Focus::Modal => vec![
            ("ESC", " close   "),
            ("UP/DOWN", " scroll   "),
            ("LEFT/RIGHT", " prev/next   "),
            ("I", " info panel   "),
            ("T", " tail"),
        ],
        Focus::SavePrompt => vec![("ENTER", " save   "), ("ESC", " cancel")],
        Focus::SaveError | Focus::ExportError => {
            return Some(line_of("Press any key to return", help_style()).spans);
        },
        Focus::ExportPrompt => vec![
            ("TAB", " next field   "),
            ("\u{2190}/\u{2192}", " format   "),
            ("ENTER", " export   "),
            ("ESC", " cancel"),
        ],
        Focus::DedupPrompt => vec![
            ("LEFT/RIGHT", " mode   "),
            ("ENTER", " start   "),
            ("ESC", " cancel"),
        ],
        Focus::DedupProgress => {
            return Some(line_of("Deduplicating\u{2026}", help_style()).spans);
        },
        Focus::ExportProgress | Focus::FieldFilter | Focus::Search | Focus::List => {
            return None;
        },
    };
    let r = help_spans(&items);
    proof {
        match focus {
            Focus::Modal => {
                assert(pair_texts(items@) =~= seq![
                    ("ESC"@, " close   "@),
                    ("UP/DOWN"@, " scroll   "@),
                    ("LEFT/RIGHT"@, " prev/next   "@),
                    ("I"@, " info panel   "@),
                    ("T"@, " tail"@),
                ]);
            },
            Focus::SavePrompt => {
                assert(pair_texts(items@) =~= seq![("ENTER"@, " save   "@), ("ESC"@, " cancel"@)]);
            },
            Focus::ExportPrompt => {
                assert(pair_texts(items@) =~= seq![
                    ("TAB"@, " next field   "@),
                    ("\u{2190}/\u{2192}"@, " format   "@),
                    ("ENTER"@, " export   "@),
                    ("ESC"@, " cancel"@),
                ]);
            },
            _ => {
                assert(pair_texts(items@) =~= seq![
                    ("LEFT/RIGHT"@, " mode   "@),
                    ("ENTER"@, " start   "@),
                    ("ESC"@, " cancel"@),
                ]);
            },
        }
    }
    Some(r)
}

/// Draws an error that a prompt shows.
fn render_error(title: &str, message: &Option<String>, area: Area) -> (r: Vec<Paint>)
    ensures
        paints_view(r@) == error_paints(
            title@,
            crate::dedup::detect::text_option(*message),
            area,
        ),
{
    let red = ink_on(Color::White, Color::Red);
    let mut r = blank();
    put(&mut r, Paint::Clear(area));
    put(
        &mut r,
        paint_border(area, title, bold(ink_on(Color::Red, Color::White)), true, red, red),
    );
    if let Some(text) = message {
        let lines = one_line(render_save_error_message(text.as_str()));
        put(
            &mut r,
            Paint::Lines {
                area: inner_area(area),
                lines,
                style: paper(Color::Red),
                scroll: 0,
                wrap: true,
            },
        );
    }
    assert(paints_view(r@) =~= error_paints(
        title@,
        crate::dedup::detect::text_option(*message),
        area,
    ));
    r
}

fn paint_table_row(
    ts_unix_ns: u64,
    message: &str,
    severity: &str,
    width: usize,
    style: Style,
) -> (r: StyledLine)
    ensures
        r@ == table_row(ts_unix_ns, message@, severity@, width as nat, style),
{
    let timestamp = fit_to_width(format_syslog_timestamp(ts_unix_ns).as_str(), 15);
    let looks = severity_style(severity);
    let bg = match style.bg {
        Some(c) => c,
        None => Color::Reset,
    };
    let initial = fit_to_width(severity_initial(severity).as_str(), 1);
    let message_width = if width < 19 {
        0
    } else {
        width - 19
    };
    let mut line = no_spans();
    put_span(
        &mut line,
        timestamp.as_str(),
        Style { fg: Some(Color::LightBlue), bg: style.bg, bold: style.bold },
    );
    put_span(&mut line, " ", style);
    put_span(
        &mut line,
        initial.as_str(),
        Style { fg: looks.fg, bg: Some(bg), bold: looks.bold },
    );
    put_span(&mut line, "  ", style);
    put_span(&mut line, fit_line(message, message_width).as_str(), style);
    assert(line@ =~= table_row(ts_unix_ns, message@, severity@, width as nat, style));
    line
}

impl ViewState {
    /// Draws the search bar.
    pub fn render_search(&self, area: Area) -> (r: Vec<Paint>)
        ensures
            paints_view(r@) == search_paints(self@, area),
    {
        let mut r = blank();
        if area.width == 0 || area.height == 0 {
            return r;
        }
        let title = match self.filter_mode {
            FilterMode::Strings => "Filter (strings): ",
            FilterMode::Regex => "Filter (regex): ",
        };
        put(&mut r, Paint::Fill { area, style: paper(teal()) });
        let line = line_of_two(
            title,
            bold(ink_on(Color::LightCyan, teal())),
            self.query_input.as_str(),
            ink_on(Color::White, teal()),
        );
        put(&mut r, paint_line(area, line, paper(teal())));
        if self.focus == Focus::Search {
            let x = area.x.saturating_add(reduce16(char_count(title))).saturating_add(
                reduce16(char_count(self.query_input.as_str())),
            );
            let last = area.x.saturating_add(area.width).saturating_sub(1);
            put(&mut r, Paint::Cursor { x: min16(x, last), y: area.y });
        }
        assert(paints_view(r@) =~= search_paints(self@, area));
        r
    }

    /// Scrolls the list of `rows` rows to where the selected one is seen.
    pub fn scroll_list(&mut self, rows: usize)
        requires
            old(self).wf(),
        ensures
            final(self).wf(),
            final(self)@ == list_scrolled(old(self)@, rows as int),
    {
        if self.list.selected < self.list.offset {
            self.list.offset = self.list.selected;
        } else if rows > 0 && self.list.selected - self.list.offset >= rows {
            self.list.offset = self.list.selected - (rows - 1);
        }
    }

    /// The style of a row of the list.
    fn style_of_row(&self, index: usize) -> (r: Style)
        ensures
            r == row_style(self@, index as int),
    {
        let marked = match self.tail_marker {
            Some(i) => i == index,
            None => false,
        };
        if self.tail_mode && marked {
            bold(ink_on(Color::White, Color::Red))
        } else if index == self.list.selected {
            if self.focus == Focus::Search {
                bold(ink_on(Color::Gray, Color::DarkGray))
            } else {
                bold(ink_on(Color::White, Color::Indexed(28)))
            }
        } else {
            ink(Color::White)
        }
    }

    fn render_row(&self, index: usize, row: &Option<ListRowSummary>, width: usize) -> (r:
        StyledLine)
        requires
            index < self@.list.entries.len(),
        ensures
            r@ == list_row(self@, index as int, *row, width as nat),
    {
        let style = self.style_of_row(index);
        let message = match row {
            Some(s) => s.message.as_str(),
            None => "<failed to render summary>",
        };
        if self.details_visible {
            line_of(fit_line(message, width).as_str(), style)
        } else {
            let severity = match row {
                Some(s) => match &s.severity {
                    Some(t) => t.as_str(),
                    None => "",
                },
                None => "",
            };
            assert(self@.list.entries[index as int] == self.list.entries@[index as int]@);
            paint_table_row(
                self.list.entries[index].ts_unix_ns,
                message,
                severity,
                width,
                style,
            )
        }
    }

    /// Draws the list; `rows` are the rows from the first that is shown on, those
    /// that failed to be read left out.
    pub fn render_list(&self, area: Area, rows: &Vec<Option<ListRowSummary>>) -> (r: Vec<Paint>)
        requires
            self@.list.offset + rows@.len() <= self@.list.entries.len(),
        ensures
            paints_view(r@) == list_paints(self@, rows@, area),
    {
        let mut r = blank();
        if area.height == 0 {
            return r;
        }
        if self.list.entries.len() == 0 {
            let line = line_of(
                "No matches yet. Type a filter, press Enter, then browse the result set.",
                ink(Color::Gray),
            );
            let lines = one_line(line);
            put(
                &mut r,
                Paint::Lines { area, lines, style: ink(Color::White), scroll: 0, wrap: true },
            );
            assert(paints_view(r@) =~= list_paints(self@, rows@, area));
            return r;
        }
        let width = area.width.saturating_sub(1) as usize;
        let n = self.list.entries.len();
        let ghost m = self@;
        let mut lines: Vec<StyledLine> = Vec::new();
        assert(rows@.take(0) =~= Seq::empty());
        assert(lines_view(lines@) =~= list_rows(m, rows@.take(0), width as nat));
        for i in 0..rows.len()
            invariant
                m == self@,
                m.list.offset + rows@.len() <= m.list.entries.len() == n,
                lines_view(lines@) == list_rows(m, rows@.take(i as int), width as nat),
        {
            assert(rows@.take(i + 1).drop_last() =~= rows@.take(i as int));
            put_line(&mut lines, self.render_row(self.list.offset + i, &rows[i], width));
        }
        assert(rows@.take(rows@.len() as int) =~= rows@);
        put(
            &mut r,
            Paint::Lines { area, lines, style: ink(Color::White), scroll: 0, wrap: true },
        );
        let position = if self.list.selected < n - 1 {
            self.list.selected
        } else {
            n - 1
        };
        put(&mut r, Paint::Scrollbar { area, length: n, position, style: unstyled() });
        assert(paints_view(r@) =~= list_paints(self@, rows@, area));
        r
    }

    /// Draws the pane with the selected record.
    pub fn render_details(&self, area: Area) -> (r: Vec<Paint>)
        ensures
            paints_view(r@) == details_paints(self@, area),
    {
        let mut r = blank();
        put(&mut r, pane_block(area, " Info ", false));
        let lines = match &self.list.detail {
            Some(d) => render_detail_lines(d, self.hex_payload),
            None => one_line(line_of("No record selected yet.", unstyled())),
        };
        put(
            &mut r,
            Paint::Lines {
                area: inner_area(area),
                lines,
                style: ink(Color::White),
                scroll: self.list.detail_scroll as u32,
                wrap: true,
            },
        );
        assert(paints_view(r@) =~= details_paints(self@, area));
        r
    }

    /// Draws the status bar.
    pub fn render_status(&self, area: Area) -> (r: Vec<Paint>)
        ensures
            paints_view(r@) == status_paints(self@, area),
    {
        let mut r = blank();
        if area.width == 0 || area.height == 0 {
            return r;
        }
        put(&mut r, Paint::Fill { area, style: paper(teal()) });
        if self.tail_mode {
            let spans = line_of("Tailing... Press any key to stop", help_style()).spans;
            put(&mut r, Paint::Spans { x: area.x, y: area.y, width: area.width, spans });
            assert(paints_view(r@) =~= status_paints(self@, area));
            return r;
        }
        if let Some(spans) = focus_help_spans(self.focus) {
            put(&mut r, Paint::Spans { x: area.x, y: area.y, width: area.width, spans });
            assert(paints_view(r@) =~= status_paints(self@, area));
            return r;
        }
        let status = trim_single_line(self.status.as_str(), area.width as usize);
        let shown = char_count(status.as_str());
        let used = if shown < area.width as usize {
            shown as u16
        } else {
            area.width
        };
        let gap: u16 = if area.width > used {
            1
        } else {
            0
        };
        let left = (area.width - used).saturating_sub(gap);
        put(
            &mut r,
            Paint::Spans {
                x: area.x,
                y: area.y,
                width: left,
                spans: status_help_spans(self.focus),
            },
        );
        if used > 0 {
            let x = area.x.saturating_add(area.width).saturating_sub(used);
            let spans = line_of(status.as_str(), ink_on(Color::LightGreen, teal())).spans;
            put(&mut r, Paint::Spans { x, y: area.y, width: used, spans });
        }
        assert(paints_view(r@) =~= status_paints(self@, area));
        r
    }

    /// Draws the save prompt in an area.
    pub fn render_save_prompt(&self, area: Area) -> (r: Vec<Paint>)
        ensures
            paints_view(r@) == save_paints(self@.save.filename, area),
    {
        proof {
            reveal_strlit("Filename: ");
        }
        let inner = inner_area(area);
        let mut r = blank();
        put(&mut r, Paint::Clear(area));
        put(
            &mut r,
            paint_border(
                area,
                " Save current content ",
                bold(on_gray()),
                false,
                ink_on(Color::White, Color::Gray),
                on_gray(),
            ),
        );
        put(
            &mut r,
            paint_field(inner, 0, "Filename: ", self.save.filename.text.as_str(), on_white()),
        );
        let x = cursor_column(inner, "Filename: ", reduce16(self.save.filename.cursor));
        put(&mut r, Paint::Cursor { x, y: inner.y });
        assert(paints_view(r@) =~= save_paints(self@.save.filename, area));
        r
    }

    /// Draws the error of the save prompt in an area.
    pub fn render_save_error(&self, area: Area) -> (r: Vec<Paint>)
        ensures
            paints_view(r@) == error_paints(" Error "@, self@.save.message, area),
    {
        render_error(" Error ", &self.save.message, area)
    }

    /// Draws the error of the export prompt in an area.
    pub fn render_export_error(&self, area: Area) -> (r: Vec<Paint>)
        ensures
            paints_view(r@) == error_paints(" Export Error "@, self@.export.message, area),
    {
        render_error(" Export Error ", &self.export.message, area)
    }

    /// Draws the export prompt.
    pub fn render_export_prompt(&self, screen: Area) -> (r: Vec<Paint>)
        requires
            self.wf(),
        ensures
            paints_view(r@) == export_paints(self@.export, screen),
    {
        proof {
            reveal_strlit("Format:   ");
            reveal_strlit("Filename: ");
            reveal_strlit("Range:    ");
        }
        let area = centered_rect_fixed_height(62, 57, 10, screen);
        let inner = inner_area(area);
        let field = self.export.field;
        let choice = self.export.current_export_format();
        let mut title = " Export ".to_owned();
        title.append(choice.title());
        title.append(" ");
        let mut format = "< ".to_owned();
        format.append(choice.label());
        format.append(" >");
        let plain = ink_on(Color::Black, Color::Indexed(250));
        let mut r = blank();
        put(&mut r, Paint::Clear(area));
        put(
            &mut r,
            paint_border(
                area,
                title.as_str(),
                bold(on_white()),
                true,
                ink_on(Color::White, Color::Gray),
                on_gray(),
            ),
        );
        let format_style = if field == ExportField::Format {
            bold(on_white())
        } else {
            plain
        };
        put(&mut r, paint_field(inner, 0, "Format:   ", format.as_str(), format_style));
        let filename_style = if field == ExportField::Filename {
            on_white()
        } else {
            plain
        };
        put(
            &mut r,
            paint_field(
                inner,
                2,
                "Filename: ",
                self.export.filename.text.as_str(),
                filename_style,
            ),
        );
        let range_style = if field == ExportField::Range {
            on_white()
        } else {
            plain
        };
        put(
            &mut r,
            paint_field(inner, 4, "Range:    ", self.export.range.text.as_str(), range_style),
        );
        put(
            &mut r,
            Paint::Lines {
                area: Area {
                    x: inner.x,
                    y: inner.y.saturating_add(5),
                    width: inner.width,
                    height: 3,
                },
                lines: export_help_lines(),
                style: ink_on(Color::DarkGray, Color::Gray),
                scroll: 0,
                wrap: false,
            },
        );
        let cursor = match field {
            ExportField::Format => Paint::Cursor {
                x: cursor_column(inner, "Format:   ", 2),
                y: inner.y,
            },
            ExportField::Filename => Paint::Cursor {
                x: cursor_column(inner, "Filename: ", reduce16(self.export.filename.cursor)),
                y: inner.y.saturating_add(2),
            },
            ExportField::Range => Paint::Cursor {
                x: cursor_column(inner, "Range:    ", reduce16(self.export.range.cursor)),
                y: inner.y.saturating_add(4),
            },
        };
        put(&mut r, cursor);
        assert(paints_view(r@) =~= export_paints(self@.export, screen));
        r
    }
}

/// The state with the list scrolled to where the selected row is seen.
pub open spec fn list_scrolled(m: ViewModel, rows: int) -> ViewModel {
    ViewModel {
        list: crate::commands::view::state::ResultModel {
            offset: list_offset(m.list.offset, m.list.selected, rows),
            ..m.list
        },
        ..m
    }
}

} // verus!
