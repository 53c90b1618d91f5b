//! The record in full, the pane of severities and services, and deduplication.
use vstd::prelude::*;

use crate::commands::view::field_filter::{
    shown_names, visible_names, CatalogModel, FieldCatalog, FieldFilterState, FilterPanel,
    FilterStateModel, PickModel,
};
use crate::commands::view::info::{pairs_view, record_info, render_modal_info_entries};
use crate::commands::view::lines::{
    empty_footer, fit_modal_body, footer_line, info_line, line_count, low16, modal_info_line,
    reduce16, render_modal_footer, render_modal_footer_placeholder,
};
use crate::commands::view::paint::{
    blank, border_at, line_at, no_spans, paint_border, paint_line, paints_view, put, put_line,
    put_span, Paint, PaintModel,
};
use crate::commands::view::prompts::DedupModel;
use crate::commands::view::render::{on_gray, on_white, row_of, teal};
use crate::commands::view::state::{ViewModel, ViewState};
use crate::commands::view::style::{
    area_of, bold, centered, centered_rect_fixed_height, diff16, ink, ink_on, inner_area, inside,
    larger, line_of, lines_view, max16, min16, paper, spans_view, styled, sum16, unstyled,
    Area, Color, StyledLine, StyledModel, StyledSpan,
};
use crate::commands::view::text::{char_count, fit_to_width, fitted, smaller, wrapped};
use crate::text::strings::{is_blank, texts};

verus! {

/// The popup with a record in full: its place and what it shows.
#[derive(Debug)]
pub struct ModalPlan {
    pub area: Area,
    /// The columns for the message.
    pub message_width: u16,
    /// The columns for what is known of the record.
    pub info_width: u16,
    pub text: String,
    pub text_lines: u16,
    pub entries: Vec<(String, String)>,
    pub key_width: usize,
}

/// What a [`ModalPlan`] holds.
pub struct ModalPlanModel {
    pub area: Area,
    pub message_width: int,
    pub info_width: int,
    pub text: Seq<char>,
    pub text_lines: int,
    pub entries: Seq<(Seq<char>, Seq<char>)>,
    pub key_width: nat,
}

impl View for ModalPlan {
    type V = ModalPlanModel;

    open spec fn view(&self) -> ModalPlanModel {
        ModalPlanModel {
            area: self.area,
            message_width: self.message_width as int,
            info_width: self.info_width as int,
            text: self.text@,
            text_lines: self.text_lines as int,
            entries: pairs_view(self.entries@),
            key_width: self.key_width as nat,
        }
    }
}

/// The columns of the longest name, but at least four.
pub open spec fn widest_key(entries: Seq<(Seq<char>, Seq<char>)>) -> nat
    decreases entries.len(),
{
    if entries.len() == 0 {
        4
    } else {
        let rest = widest_key(entries.drop_last());
        if rest < entries.last().0.len() {
            entries.last().0.len()
        } else {
            rest
        }
    }
}

/// The columns that an entry takes, counted in sixteen bits.
pub open spec fn entry_width(value: Seq<char>, key_width: nat) -> int {
    low16(key_width as int + 2 + value.len() + 1)
}

/// The columns of the longest entry.
pub open spec fn widest_entry(entries: Seq<(Seq<char>, Seq<char>)>, key_width: nat) -> int
    decreases entries.len(),
{
    if entries.len() == 0 {
        0
    } else {
        larger(
            widest_entry(entries.drop_last(), key_width),
            entry_width(entries.last().1, key_width),
        )
    }
}

/// What is known of the selected record, or that there is none.
pub open spec fn modal_entries(m: ViewModel) -> Seq<(Seq<char>, Seq<char>)> {
    match m.list.detail {
        Some(d) => record_info(d),
        None => seq![("info"@, "No record loaded."@)],
    }
}

/// The width of the popup.
pub open spec fn popup_width(screen: Area) -> int {
    larger(screen.width * 80 / 100, 20)
}

/// The popup of this width and wanted height.
pub open spec fn popup_area(screen: Area, width: int, wanted: int) -> Area {
    let height = larger(smaller(wanted, screen.height * 80 / 100), 5);
    area_of(
        diff16(screen.width as int, width) / 2,
        diff16(screen.height as int, height) / 2,
        width,
        height,
    )
}

/// The popup with a record in full.
pub open spec fn modal_plan(m: ViewModel, screen: Area) -> ModalPlanModel {
    let message = match m.modal.text {
        Some(t) => t,
        None => "No record loaded."@,
    };
    let width = popup_width(screen);
    let inner = width - 2;
    if !m.modal.info_visible {
        let text = wrapped(message, (inner - 1) as nat);
        let lines = low16(line_count(text) as int);
        let known = match m.list.detail {
            Some(d) => low16(record_info(d).len() as int),
            None => 0,
        };
        ModalPlanModel {
            area: popup_area(screen, width, larger(lines + 3, known + 3)),
            message_width: inner,
            info_width: 0,
            text,
            text_lines: lines,
            entries: Seq::empty(),
            key_width: 0,
        }
    } else {
        let entries = modal_entries(m);
        let key_width = widest_key(entries);
        let info_width = larger(
            smaller(widest_entry(entries, key_width), larger(inner / 2, 16)),
            16,
        );
        let message_width = diff16(diff16(inner, info_width), 1);
        let text = wrapped(message, diff16(message_width, 1) as nat);
        let lines = low16(line_count(text) as int);
        ModalPlanModel {
            area: popup_area(screen, width, larger(lines, low16(entries.len() as int)) + 3),
            message_width,
            info_width,
            text,
            text_lines: lines,
            entries,
            key_width,
        }
    }
}

/// The frame of the popup.
pub open spec fn modal_frame(p: ModalPlanModel, info_visible: bool) -> Seq<PaintModel> {
    seq![
        PaintModel::Clear(p.area),
        border_at(
            p.area,
            " Log record "@,
            bold(ink_on(Color::Black, teal())),
            true,
            if info_visible {
                ink(Color::Gray)
            } else {
                on_gray()
            },
            on_gray(),
        ),
    ]
}

/// The bottom line of the popup.
pub open spec fn modal_footer(m: ViewModel) -> Seq<StyledModel> {
    match m.list.detail {
        Some(d) => footer_line(d),
        None => empty_footer(),
    }
}

/// The message of the popup, with its scroll bar.
pub open spec fn modal_body(m: ViewModel, p: ModalPlanModel, body: Area) -> Seq<PaintModel> {
    seq![
        PaintModel::Body { area: body, text: p.text, style: on_gray(), scroll: m.modal.scroll },
        PaintModel::Scrollbar {
            area: body,
            length: p.text_lines,
            position: m.modal.scroll,
            style: on_gray(),
        },
    ]
}

/// The lines with what is known of the record.
pub open spec fn info_lines(
    entries: Seq<(Seq<char>, Seq<char>)>,
    key_width: nat,
    value_width: nat,
) -> Seq<Seq<StyledModel>>
    decreases entries.len(),
{
    if entries.len() == 0 {
        Seq::empty()
    } else {
        info_lines(entries.drop_last(), key_width, value_width).push(
            info_line(entries.last().0, entries.last().1, key_width, value_width),
        )
    }
}

/// So many pieces of the line between the two halves.
pub open spec fn divider_lines(height: nat) -> Seq<Seq<StyledModel>> {
    Seq::new(height, |i: int| seq![styled("\u{2502}"@, ink_on(Color::White, teal()))])
}

/// The border of the popup in the colours of its two halves, which meet at `split`.
pub open spec fn modal_edges(area: Area, split: int) -> Seq<PaintModel> {
    let (x, y) = (area.x as int, area.y as int);
    let (width, height) = (area.width as int, area.height as int);
    let left = smaller(diff16(split, x), width);
    let bottom = sum16(y, height - 1);
    let cyan = ink_on(Color::White, teal());
    seq![
        PaintModel::Fill { area: area_of(x, y, left, 1), style: on_gray() },
        PaintModel::Fill { area: area_of(sum16(x, left), y, width - left, 1), style: cyan },
        PaintModel::Fill { area: area_of(x, bottom, left, 1), style: on_gray() },
        PaintModel::Fill { area: area_of(sum16(x, left), bottom, width - left, 1), style: cyan },
        PaintModel::Fill { area: area_of(x, y, 1, height), style: on_gray() },
        PaintModel::Fill { area: area_of(sum16(x, width - 1), y, 1, height), style: cyan },
    ]
}

/// The parts of the popup.
#[derive(Debug, Clone, Copy, PartialEq, Eq, Structural)]
pub struct ModalParts {
    pub body: Area,
    pub divider: Area,
    pub info: Area,
    pub footer: Area,
}

/// What the popup shows, in its parts.
pub open spec fn modal_paints(m: ViewModel, p: ModalPlanModel, parts: ModalParts) -> Seq<PaintModel> {
    let footer = line_at(parts.footer, modal_footer(m), paper(Color::Blue));
    if !m.modal.info_visible {
        modal_body(m, p, parts.body).push(footer)
    } else {
        let value_width = diff16(p.info_width, low16(p.key_width as int + 3)) as nat;
        seq![
            PaintModel::Lines {
                area: parts.divider,
                lines: divider_lines(parts.divider.height as nat),
                style: paper(teal()),
                scroll: 0,
                wrap: false,
            },
        ] + modal_body(m, p, parts.body) + seq![
            PaintModel::Lines {
                area: parts.info,
                lines: info_lines(p.entries, p.key_width, value_width),
                style: ink_on(Color::White, teal()),
                scroll: 0,
                wrap: false,
            },
            footer,
        ] + modal_edges(p.area, parts.divider.x as int)
    }
}

fn sum_low16(a: usize, b: usize) -> (r: u16)
    ensures
        r == low16(a + b),
{
    ((a as u128 + b as u128) % 0x1_0000) as u16
}

fn find_key_width(entries: &Vec<(String, String)>) -> (r: usize)
    ensures
        r == widest_key(pairs_view(entries@)),
{
    let ghost all = pairs_view(entries@);
    let mut r: usize = 4;
    assert(all.take(0) =~= Seq::empty());
    for i in 0..entries.len()
        invariant
            all == pairs_view(entries@),
            r == widest_key(all.take(i as int)),
    {
        assert(all.take(i + 1).drop_last() =~= all.take(i as int));
        assert(all[i as int] == (entries@[i as int].0@, entries@[i as int].1@));
        let n = char_count(entries[i].0.as_str());
        if r < n {
            r = n;
        }
    }
    assert(all.take(entries@.len() as int) =~= all);
    r
}

fn find_entry_width(entries: &Vec<(String, String)>, key_width: usize) -> (r: u16)
    ensures
        r == widest_entry(pairs_view(entries@), key_width as nat),
{
    let ghost all = pairs_view(entries@);
    let mut r: u16 = 0;
    assert(all.take(0) =~= Seq::empty());
    for i in 0..entries.len()
        invariant
            all == pairs_view(entries@),
            r == widest_entry(all.take(i as int), key_width as nat),
    {
        assert(all.take(i + 1).drop_last() =~= all.take(i as int));
        assert(all[i as int] == (entries@[i as int].0@, entries@[i as int].1@));
        let n = char_count(entries[i].1.as_str());
        let width = ((key_width as u128 + 3 + n as u128) % 0x1_0000) as u16;
        assert(width == entry_width(all[i as int].1, key_width as nat));
        r = max16(r, width);
    }
    assert(all.take(entries@.len() as int) =~= all);
    r
}

fn place_popup(screen: Area, width: u16, wanted: u32) -> (r: Area)
    ensures
        r == popup_area(screen, width as int, wanted as int),
{
    let limit: u32 = screen.height as u32 * 80 / 100;
    let rows = if wanted < limit {
        wanted
    } else {
        limit
    };
    let height: u16 = if rows < 5 {
        5
    } else {
        rows as u16
    };
    Area {
        x: screen.width.saturating_sub(width) / 2,
        y: screen.height.saturating_sub(height) / 2,
        width,
        height,
    }
}

fn paint_info_lines(entries: &Vec<(String, String)>, key_width: usize, value_width: usize) -> (r:
    Vec<StyledLine>)
    ensures
        lines_view(r@) == info_lines(
            pairs_view(entries@),
            key_width as nat,
            value_width as nat,
        ),
{
    let ghost all = pairs_view(entries@);
    let mut r: Vec<StyledLine> = Vec::new();
    assert(all.take(0) =~= Seq::empty());
    assert(lines_view(r@) =~= info_lines(all.take(0), key_width as nat, value_width as nat));
    for i in 0..entries.len()
        invariant
            all == pairs_view(entries@),
            lines_view(r@) == info_lines(
                all.take(i as int),
                key_width as nat,
                value_width as nat,
            ),
    {
        assert(all.take(i + 1).drop_last() =~= all.take(i as int));
        assert(all[i as int] == (entries@[i as int].0@, entries@[i as int].1@));
        put_line(
            &mut r,
            modal_info_line(
                entries[i].0.as_str(),
                entries[i].1.as_str(),
                key_width,
                value_width,
            ),
        );
    }
    assert(all.take(entries@.len() as int) =~= all);
    r
}

fn paint_divider(height: u16) -> (r: Vec<StyledLine>)
    ensures
        lines_view(r@) == divider_lines(height as nat),
{
    let mut r: Vec<StyledLine> = Vec::new();
    assert(lines_view(r@) =~= divider_lines(0));
    for i in 0..height
        invariant
            lines_view(r@) == divider_lines(i as nat),
    {
        put_line(&mut r, line_of("\u{2502}", ink_on(Color::White, teal())));
        assert(lines_view(r@) =~= divider_lines((i + 1) as nat));
    }
    r
}

fn paint_edges(r: &mut Vec<Paint>, area: Area, split: u16)
    requires
        area.width > 0,
        area.height > 0,
    ensures
        paints_view(final(r)@) == paints_view(old(r)@) + modal_edges(area, split as int),
{
    let ghost before = paints_view(r@);
    let left = min16(split.saturating_sub(area.x), area.width);
    let right = area.x.saturating_add(left);
    let rest = area.width - left;
    let bottom = area.y.saturating_add(area.height - 1);
    let last = area.x.saturating_add(area.width - 1);
    let cyan = ink_on(Color::White, teal());
    let (x, y, height) = (area.x, area.y, area.height);
    put(r, Paint::Fill { area: Area { x, y, width: left, height: 1 }, style: on_gray() });
    put(r, Paint::Fill { area: Area { x: right, y, width: rest, height: 1 }, style: cyan });
    put(r, Paint::Fill { area: Area { x, y: bottom, width: left, height: 1 }, style: on_gray() });
    put(r, Paint::Fill { area: Area { x: right, y: bottom, width: rest, height: 1 }, style: cyan });
    put(r, Paint::Fill { area: Area { x, y, width: 1, height }, style: on_gray() });
    put(r, Paint::Fill { area: Area { x: last, y, width: 1, height }, style: cyan });
    assert(paints_view(r@) =~= before + modal_edges(area, split as int));
}

impl ViewState {
    fn modal_message(&self) -> (r: &str)
        ensures
            r@ == match self@.modal.text {
                Some(t) => t,
                None => "No record loaded."@,
            },
    {
        match &self.modal.text {
            Some(t) => t.as_str(),
            None => "No record loaded.",
        }
    }

    /// Plans the popup with a record in full.
    pub fn plan_modal(&self, screen: Area) -> (r: ModalPlan)
        ensures
            r@ == modal_plan(self@, screen),
    {
        let width = max16((screen.width as u32 * 80 / 100) as u16, 20);
        let inner = width - 2;
        if !self.modal.info_visible {
            let (text, text_lines) = fit_modal_body(self.modal_message(), (inner - 1) as usize);
            let known: u16 = match &self.list.detail {
                Some(d) => {
                    let entries = render_modal_info_entries(d);
                    assert(pairs_view(entries@).len() == entries@.len());
                    reduce16(entries.len())
                },
                None => 0,
            };
            let wanted: u32 = max16(text_lines, known) as u32 + 3;
            let r = ModalPlan {
                area: place_popup(screen, width, wanted),
                message_width: inner,
                info_width: 0,
                text,
                text_lines,
                entries: Vec::new(),
                key_width: 0,
            };
            assert(r@.entries =~= Seq::empty());
            return r;
        }
        let entries = match &self.list.detail {
            Some(d) => render_modal_info_entries(d),
            None => {
                let mut v: Vec<(String, String)> = Vec::new();
                v.push(("info".to_owned(), "No record loaded.".to_owned()));
                assert(pairs_view(v@) =~= seq![("info"@, "No record loaded."@)]);
                v
            },
        };
        assert(pairs_view(entries@).len() == entries@.len());
        let key_width = find_key_width(&entries);
        let widest = find_entry_width(&entries, key_width);
        let info_width = max16(min16(widest, max16(inner / 2, 16)), 16);
        let message_width = inner.saturating_sub(info_width).saturating_sub(1);
        let (text, text_lines) = fit_modal_body(
            self.modal_message(),
            message_width.saturating_sub(1) as usize,
        );
        let wanted: u32 = max16(text_lines, reduce16(entries.len())) as u32 + 3;
        ModalPlan {
            area: place_popup(screen, width, wanted),
            message_width,
            info_width,
            text,
            text_lines,
            entries,
            key_width,
        }
    }

    /// Draws the frame of the popup.
    pub fn render_modal_frame(&self, plan: &ModalPlan) -> (r: Vec<Paint>)
        ensures
            paints_view(r@) == modal_frame(plan@, self@.modal.info_visible),
    {
        let border = if self.modal.info_visible {
            ink(Color::Gray)
        } else {
            on_gray()
        };
        let mut r = blank();
        put(&mut r, Paint::Clear(plan.area));
        put(
            &mut r,
            paint_border(
                plan.area,
                " Log record ",
                bold(ink_on(Color::Black, teal())),
                true,
                border,
                on_gray(),
            ),
        );
        assert(paints_view(r@) =~= modal_frame(plan@, self@.modal.info_visible));
        r
    }

    fn paint_modal_body(&self, r: &mut Vec<Paint>, plan: &ModalPlan, body: Area)
        ensures
            paints_view(final(r)@) == paints_view(old(r)@) + modal_body(self@, plan@, body),
    {
        let ghost before = paints_view(r@);
        put(
            r,
            Paint::Body {
                area: body,
                text: plan.text.clone(),
                style: on_gray(),
                scroll: self.modal.scroll,
            },
        );
        put(
            r,
            Paint::Scrollbar {
                area: body,
                length: plan.text_lines as usize,
                position: self.modal.scroll as usize,
                style: on_gray(),
            },
        );
        assert(paints_view(r@) =~= before + modal_body(self@, plan@, body));
    }

    /// Draws what the popup shows, in its parts.
    pub fn render_modal(&self, plan: &ModalPlan, parts: ModalParts) -> (r: Vec<Paint>)
        requires
            plan.area.width > 0,
            plan.area.height > 0,
        ensures
            paints_view(r@) == modal_paints(self@, plan@, parts),
    {
        let footer = match &self.list.detail {
            Some(d) => render_modal_footer(d),
            None => render_modal_footer_placeholder(),
        };
        let mut r = blank();
        if !self.modal.info_visible {
            self.paint_modal_body(&mut r, plan, parts.body);
            put(&mut r, paint_line(parts.footer, footer, paper(Color::Blue)));
            assert(paints_view(r@) =~= modal_paints(self@, plan@, parts));
            return r;
        }
        put(
            &mut r,
            Paint::Lines {
                area: parts.divider,
                lines: paint_divider(parts.divider.height),
                style: paper(teal()),
                scroll: 0,
                wrap: false,
            },
        );
        self.paint_modal_body(&mut r, plan, parts.body);
        let value_width = plan.info_width.saturating_sub(sum_low16(plan.key_width, 3)) as usize;
        put(
            &mut r,
            Paint::Lines {
                area: parts.info,
                lines: paint_info_lines(&plan.entries, plan.key_width, value_width),
                style: ink_on(Color::White, teal()),
                scroll: 0,
                wrap: false,
            },
        );
        put(&mut r, paint_line(parts.footer, footer, paper(Color::Blue)));
        paint_edges(&mut r, plan.area, parts.divider.x);
        assert(paints_view(r@) =~= modal_paints(self@, plan@, parts));
        r
    }
}

/// The names that a list shows: the one that is active only those that pass the
/// text that is typed.
pub open spec fn pane_names(active: bool, names: Seq<Seq<char>>, filter: Seq<char>) -> Seq<
    Seq<char>,
> {
    if active {
        shown_names(names, filter)
    } else {
        names
    }
}

/// The place of the pane on the screen.
pub open spec fn pane_area(m: FilterStateModel, catalog: CatalogModel, screen: Area) -> Area {
    let severities = pane_names(
        m.panel == FilterPanel::Severities,
        catalog.severities,
        m.filter_text,
    );
    let services = pane_names(
        m.panel == FilterPanel::Services,
        catalog.services,
        m.filter_text,
    );
    let rows = low16(larger(larger(severities.len() as int, services.len() as int), 1)) + 4;
    let height = smaller(larger(rows, 20), screen.height * 60 / 100);
    let width = larger(screen.width * 60 / 100, 40);
    area_of(diff16(screen.width as int, width) / 2, screen.height * 20 / 100, width, height)
}

/// The title of the pane, with the text that is typed.
pub open spec fn pane_title(filter: Seq<char>) -> Seq<StyledModel> {
    let head = styled(" Field Filter "@, bold(on_white()));
    if filter.len() == 0 {
        seq![head]
    } else {
        seq![
            head,
            styled(
                " ["@ + filter + "\u{258f}]"@,
                bold(ink_on(Color::LightYellow, teal())),
            ),
        ]
    }
}

/// A name in a list, with a mark where it is chosen.
pub open spec fn pick_line(name: Seq<char>, chosen: bool, on_cursor: bool) -> Seq<StyledModel> {
    let mark = if chosen {
        "\u{25a3}"@
    } else {
        "\u{2610}"@
    };
    let style = if on_cursor {
        bold(ink_on(Color::White, Color::Blue))
    } else {
        ink(Color::Black)
    };
    seq![styled(" "@ + mark + " "@ + name, style)]
}

/// The names of a list under its title.
pub open spec fn pick_lines(
    title: Seq<char>,
    names: Seq<Seq<char>>,
    pick: PickModel,
    active: bool,
) -> Seq<Seq<StyledModel>>
    decreases names.len(),
{
    if names.len() == 0 {
        seq![
            seq![
                styled(
                    title,
                    if active {
                        bold(ink(Color::LightBlue))
                    } else {
                        ink(Color::Blue)
                    },
                ),
            ],
        ]
    } else {
        pick_lines(title, names.drop_last(), pick, active).push(
            pick_line(
                names.last(),
                pick.chosen.contains(names.last()),
                active && names.len() - 1 == pick.cursor,
            ),
        )
    }
}

/// The keys of the pane.
pub open spec fn pane_keys() -> Seq<StyledModel> {
    let key = bold(ink_on(Color::LightYellow, Color::Blue));
    let text = ink_on(Color::White, Color::Blue);
    seq![
        styled("SPACE"@, key),
        styled(" toggle  "@, text),
        styled("TAB"@, key),
        styled(" switch  "@, text),
        styled("ENTER"@, key),
        styled(" apply  "@, text),
        styled("ESC"@, key),
        styled(" cancel  "@, text),
        styled("type"@, key),
        styled(" to search"@, text),
    ]
}

/// The pane of severities and services, in an area with two halves.
pub open spec fn pane_paints(
    m: FilterStateModel,
    catalog: CatalogModel,
    area: Area,
    left: Area,
    right: Area,
) -> Seq<PaintModel> {
    let inner = inside(area);
    let on_severities = m.panel == FilterPanel::Severities;
    let on_services = m.panel == FilterPanel::Services;
    seq![
        PaintModel::Clear(area),
        PaintModel::Border {
            area,
            title: pane_title(m.filter_text),
            double: true,
            border: bold(ink(Color::White)),
            style: ink_on(Color::Black, teal()),
        },
        PaintModel::Lines {
            area: left,
            lines: pick_lines(
                " Severity"@,
                pane_names(on_severities, catalog.severities, m.filter_text),
                m.severity,
                on_severities,
            ),
            style: paper(teal()),
            scroll: m.severity.scroll,
            wrap: false,
        },
        PaintModel::Lines {
            area: right,
            lines: pick_lines(
                " Services"@,
                pane_names(on_services, catalog.services, m.filter_text),
                m.service,
                on_services,
            ),
            style: paper(teal()),
            scroll: m.service.scroll,
            wrap: false,
        },
        line_at(row_of(inner, diff16(inner.height as int, 1)), pane_keys(), paper(Color::Blue)),
    ]
}

fn names_of_pane(active: bool, names: &Vec<String>, filter: &str) -> (r: Vec<String>)
    ensures
        texts(r@) == pane_names(active, texts(names@), filter@),
{
    if active {
        visible_names(names, filter)
    } else {
        crate::text::strings::copy_texts(names)
    }
}

fn paint_pick(name: &str, chosen: bool, on_cursor: bool) -> (r: StyledLine)
    ensures
        r@ == pick_line(name@, chosen, on_cursor),
{
    let mut text = " ".to_owned();
    if chosen {
        text.append("\u{25a3}");
    } else {
        text.append("\u{2610}");
    }
    text.append(" ");
    text.append(name);
    let style = if on_cursor {
        bold(ink_on(Color::White, Color::Blue))
    } else {
        ink(Color::Black)
    };
    line_of(text.as_str(), style)
}

fn paint_picks(
    title: &str,
    names: &Vec<String>,
    pick: &crate::commands::view::field_filter::NamePick,
    active: bool,
) -> (r: Vec<StyledLine>)
    ensures
        lines_view(r@) == pick_lines(title@, texts(names@), pick@, active),
{
    let ghost all = texts(names@);
    let style = if active {
        bold(ink(Color::LightBlue))
    } else {
        ink(Color::Blue)
    };
    let mut r: Vec<StyledLine> = Vec::new();
    put_line(&mut r, line_of(title, style));
    assert(all.take(0) =~= Seq::empty());
    assert(lines_view(r@) =~= pick_lines(title@, all.take(0), pick@, active));
    for i in 0..names.len()
        invariant
            all == texts(names@),
            lines_view(r@) == pick_lines(title@, all.take(i as int), pick@, active),
    {
        assert(all.take(i + 1).drop_last() =~= all.take(i as int));
        assert(all[i as int] == names@[i as int]@);
        let name = names[i].as_str();
        put_line(
            &mut r,
            paint_pick(name, pick.chosen.contains(name), active && i == pick.cursor),
        );
    }
    assert(all.take(names@.len() as int) =~= all);
    r
}

fn paint_pane_keys() -> (r: StyledLine)
    ensures
        r@ == pane_keys(),
{
    let key = bold(ink_on(Color::LightYellow, Color::Blue));
    let text = ink_on(Color::White, Color::Blue);
    let mut line = no_spans();
    put_span(&mut line, "SPACE", key);
    put_span(&mut line, " toggle  ", text);
    put_span(&mut line, "TAB", key);
    put_span(&mut line, " switch  ", text);
    put_span(&mut line, "ENTER", key);
    put_span(&mut line, " apply  ", text);
    put_span(&mut line, "ESC", key);
    put_span(&mut line, " cancel  ", text);
    put_span(&mut line, "type", key);
    put_span(&mut line, " to search", text);
    assert(line@ =~= pane_keys());
    line
}

fn paint_pane_title(filter: &str) -> (r: Vec<StyledSpan>)
    ensures
        spans_view(r@) == pane_title(filter@),
{
    let mut line = no_spans();
    put_span(&mut line, " Field Filter ", bold(on_white()));
    if !is_blank(filter) {
        let mut typed = " [".to_owned();
        typed.append(filter);
        typed.append("\u{258f}]");
        put_span(&mut line, typed.as_str(), bold(ink_on(Color::LightYellow, teal())));
    }
    assert(line@ =~= pane_title(filter@));
    line.spans
}

impl FieldFilterState {
    /// The place of the pane on the screen, which has room for twenty rows.
    pub fn place(&self, catalog: &FieldCatalog, screen: Area) -> (r: Area)
        requires
            screen.height * 60 / 100 >= 20,
        ensures
            r == pane_area(self@, catalog@, screen),
    {
        let filter = self.filter_text.as_str();
        let severities = names_of_pane(
            self.panel == FilterPanel::Severities,
            &catalog.severities,
            filter,
        );
        let services = names_of_pane(
            self.panel == FilterPanel::Services,
            &catalog.services,
            filter,
        );
        assert(texts(severities@).len() == severities@.len());
        assert(texts(services@).len() == services@.len());
        let mut n = if severities.len() < services.len() {
            services.len()
        } else {
            severities.len()
        };
        if n < 1 {
            n = 1;
        }
        let rows: u32 = reduce16(n) as u32 + 4;
        let limit: u32 = screen.height as u32 * 60 / 100;
        let height = if rows < 20 {
            20
        } else if rows < limit {
            rows
        } else {
            limit
        };
        let width = max16((screen.width as u32 * 60 / 100) as u16, 40);
        Area {
            x: screen.width.saturating_sub(width) / 2,
            y: (screen.height as u32 * 20 / 100) as u16,
            width,
            height: height as u16,
        }
    }

    /// Draws the pane in an area with two halves.
    pub fn render_field_filter(&self, catalog: &FieldCatalog, area: Area, left: Area, right: Area) -> (r:
        Vec<Paint>)
        ensures
            paints_view(r@) == pane_paints(self@, catalog@, area, left, right),
    {
        let inner = inner_area(area);
        let filter = self.filter_text.as_str();
        let on_severities = self.panel == FilterPanel::Severities;
        let on_services = self.panel == FilterPanel::Services;
        let severities = names_of_pane(on_severities, &catalog.severities, filter);
        let services = names_of_pane(on_services, &catalog.services, filter);
        let mut r = blank();
        put(&mut r, Paint::Clear(area));
        put(
            &mut r,
            Paint::Border {
                area,
                title: paint_pane_title(filter),
                double: true,
                border: bold(ink(Color::White)),
                style: ink_on(Color::Black, teal()),
            },
        );
        put(
            &mut r,
            Paint::Lines {
                area: left,
                lines: paint_picks(" Severity", &severities, &self.severity, on_severities),
                style: paper(teal()),
                scroll: self.severity.scroll,
                wrap: false,
            },
        );
        put(
            &mut r,
            Paint::Lines {
                area: right,
                lines: paint_picks(" Services", &services, &self.service, on_services),
                style: paper(teal()),
                scroll: self.service.scroll,
                wrap: false,
            },
        );
        let row = Area {
            x: inner.x,
            y: inner.y.saturating_add(inner.height.saturating_sub(1)),
            width: inner.width,
            height: 1,
        };
        put(&mut r, paint_line(row, paint_pane_keys(), paper(Color::Blue)));
        assert(paints_view(r@) =~= pane_paints(self@, catalog@, area, left, right));
        r
    }
}

/// A choice of the prompt for deduplicating.
pub open spec fn choice_line(label: Seq<char>, name: Seq<char>, description: Seq<char>) -> Seq<
    StyledModel,
> {
    seq![
        styled(label, on_gray()),
        styled(name, bold(on_white())),
        styled("  "@ + description, ink_on(Color::DarkGray, Color::Gray)),
    ]
}

/// The keys of the prompt for deduplicating.
pub open spec fn dedup_keys() -> Seq<StyledModel> {
    let key = bold(on_gray());
    let text = ink_on(Color::DarkGray, Color::Gray);
    seq![
        styled("\u{2190}/\u{2192}"@, key),
        styled(" mode   "@, text),
        styled("\u{2191}/\u{2193}"@, key),
        styled(" match   "@, text),
        styled("ENTER"@, key),
        styled(" start   "@, text),
        styled("ESC"@, key),
        styled(" cancel"@, text),
    ]
}

/// The frame of a popup on gray.
pub open spec fn gray_frame(area: Area, title: Seq<char>) -> Seq<PaintModel> {
    seq![
        PaintModel::Clear(area),
        border_at(
            area,
            title,
            bold(on_white()),
            true,
            ink_on(Color::White, Color::Gray),
            on_gray(),
        ),
    ]
}

/// The prompt for deduplicating.
pub open spec fn dedup_paints(m: DedupModel, screen: Area) -> Seq<PaintModel> {
    let area = centered(52, 58, 8, screen);
    let inner = inside(area);
    let width = diff16(inner.width as int, 10);
    let cursor = smaller(
        sum16(sum16(sum16(inner.x as int, 8), 1), low16(m.filename.len() as int)),
        sum16(inner.x as int, 8 + width),
    );
    let keys_row = smaller(
        sum16(inner.y as int, 5),
        sum16(inner.y as int, diff16(inner.height as int, 1)),
    );
    gray_frame(area, " Deduplicate "@) + seq![
        line_at(
            row_of(inner, 0),
            seq![
                styled("Output: "@, on_gray()),
                styled(fitted(m.filename, width as nat), on_white()),
            ],
            unstyled(),
        ),
        PaintModel::Cursor { x: cursor, y: inner.y as int },
        line_at(
            row_of(inner, 2),
            choice_line("Mode:   "@, m.behavior.spec_label(), m.behavior.spec_description()),
            unstyled(),
        ),
        line_at(
            row_of(inner, 3),
            choice_line("Match:  "@, m.match_mode.spec_label(), m.match_mode.spec_description()),
            unstyled(),
        ),
        line_at(
            area_of(inner.x as int, keys_row, inner.width as int, 1),
            dedup_keys(),
            unstyled(),
        ),
    ]
}

/// A row inside an area, one column in.
pub open spec fn inset_row(inner: Area, down: int) -> Area {
    area_of(
        sum16(inner.x as int, 1),
        sum16(inner.y as int, down),
        diff16(inner.width as int, 2),
        1,
    )
}

/// A run of deduplication.
pub open spec fn dedup_progress_paints(m: DedupModel, screen: Area) -> Seq<PaintModel> {
    let area = centered(52, 52, 6, screen);
    let inner = inside(area);
    let phase = if m.completion is Some {
        "Press ENTER to open the deduped file"@
    } else {
        m.phase
    };
    gray_frame(area, " Deduplicating\u{2026} "@) + seq![
        PaintModel::Gauge {
            area: inset_row(inner, 1),
            label: m.completion,
            label_style: if m.completion is Some {
                bold(ink_on(Color::LightYellow, Color::Indexed(28)))
            } else {
                bold(on_white())
            },
        },
        line_at(
            inset_row(inner, 3),
            seq![
                styled("Phase: "@, bold(on_gray())),
                styled(phase, ink_on(Color::DarkGray, Color::Gray)),
            ],
            unstyled(),
        ),
    ]
}

fn paint_gray_frame(area: Area, title: &str) -> (r: Vec<Paint>)
    ensures
        paints_view(r@) == gray_frame(area, title@),
{
    let mut r = blank();
    put(&mut r, Paint::Clear(area));
    put(
        &mut r,
        paint_border(
            area,
            title,
            bold(on_white()),
            true,
            ink_on(Color::White, Color::Gray),
            on_gray(),
        ),
    );
    assert(paints_view(r@) =~= gray_frame(area, title@));
    r
}

fn paint_choice(label: &str, name: &str, description: &str) -> (r: StyledLine)
    ensures
        r@ == choice_line(label@, name@, description@),
{
    let mut text = "  ".to_owned();
    text.append(description);
    let mut line = no_spans();
    put_span(&mut line, label, on_gray());
    put_span(&mut line, name, bold(on_white()));
    put_span(&mut line, text.as_str(), ink_on(Color::DarkGray, Color::Gray));
    assert(line@ =~= choice_line(label@, name@, description@));
    line
}

fn paint_dedup_keys() -> (r: StyledLine)
    ensures
        r@ == dedup_keys(),
{
    let key = bold(on_gray());
    let text = ink_on(Color::DarkGray, Color::Gray);
    let mut line = no_spans();
    put_span(&mut line, "\u{2190}/\u{2192}", key);
    put_span(&mut line, " mode   ", text);
    put_span(&mut line, "\u{2191}/\u{2193}", key);
    put_span(&mut line, " match   ", text);
    put_span(&mut line, "ENTER", key);
    put_span(&mut line, " start   ", text);
    put_span(&mut line, "ESC", key);
    put_span(&mut line, " cancel", text);
    assert(line@ =~= dedup_keys());
    line
}

fn inner_row(inner: Area, down: u16) -> (r: Area)
    ensures
        r == row_of(inner, down as int),
{
    Area { x: inner.x, y: inner.y.saturating_add(down), width: inner.width, height: 1 }
}

impl ViewState {
    /// Draws the prompt for deduplicating.
    pub fn render_dedup_prompt(&self, screen: Area) -> (r: Vec<Paint>)
        ensures
            paints_view(r@) == dedup_paints(self@.dedup, screen),
    {
        let area = centered_rect_fixed_height(52, 58, 8, screen);
        let inner = inner_area(area);
        let width = inner.width.saturating_sub(10);
        let filename = self.dedup.filename.as_str();
        let mut r = paint_gray_frame(area, " Deduplicate ");
        let mut output = no_spans();
        put_span(&mut output, "Output: ", on_gray());
        put_span(&mut output, fit_to_width(filename, width as usize).as_str(), on_white());
        assert(output@ =~= seq![
            styled("Output: "@, on_gray()),
            styled(fitted(self@.dedup.filename, width as nat), on_white()),
        ]);
        put(&mut r, paint_line(inner_row(inner, 0), output, unstyled()));
        let behind = inner.x.saturating_add(8).saturating_add(1).saturating_add(
            reduce16(char_count(filename)),
        );
        let x = min16(behind, inner.x.saturating_add(8 + width));
        put(&mut r, Paint::Cursor { x, y: inner.y });
        let mode = paint_choice(
            "Mode:   ",
            self.dedup.behavior.label(),
            self.dedup.behavior.description(),
        );
        put(&mut r, paint_line(inner_row(inner, 2), mode, unstyled()));
        let matching = paint_choice(
            "Match:  ",
            self.dedup.match_mode.label(),
            self.dedup.match_mode.description(),
        );
        put(&mut r, paint_line(inner_row(inner, 3), matching, unstyled()));
        let row = Area {
            x: inner.x,
            y: min16(
                inner.y.saturating_add(5),
                inner.y.saturating_add(inner.height.saturating_sub(1)),
            ),
            width: inner.width,
            height: 1,
        };
        put(&mut r, paint_line(row, paint_dedup_keys(), unstyled()));
        assert(paints_view(r@) =~= dedup_paints(self@.dedup, screen));
        r
    }

    /// Draws a run of deduplication.
    pub fn render_dedup_progress(&self, screen: Area) -> (r: Vec<Paint>)
        ensures
            paints_view(r@) == dedup_progress_paints(self@.dedup, screen),
    {
        let area = centered_rect_fixed_height(52, 52, 6, screen);
        let inner = inner_area(area);
        let done = self.dedup.completion.is_some();
        let mut r = paint_gray_frame(area, " Deduplicating\u{2026} ");
        let label_style = if done {
            bold(ink_on(Color::LightYellow, Color::Indexed(28)))
        } else {
            bold(on_white())
        };
        let gauge_row = Area {
            x: inner.x.saturating_add(1),
            y: inner.y.saturating_add(1),
            width: inner.width.saturating_sub(2),
            height: 1,
        };
        put(
            &mut r,
            Paint::Gauge {
                area: gauge_row,
                label: crate::text::strings::copy_text(&self.dedup.completion),
                label_style,
            },
        );
        let phase = if done {
            "Press ENTER to open the deduped file"
        } else {
            self.dedup.phase.as_str()
        };
        let mut line = no_spans();
        put_span(&mut line, "Phase: ", bold(on_gray()));
        put_span(&mut line, phase, ink_on(Color::DarkGray, Color::Gray));
        assert(line@ =~= seq![
            styled("Phase: "@, bold(on_gray())),
            styled(phase@, ink_on(Color::DarkGray, Color::Gray)),
        ]);
        let phase_row = Area {
            x: inner.x.saturating_add(1),
            y: inner.y.saturating_add(3),
            width: inner.width.saturating_sub(2),
            height: 1,
        };
        put(&mut r, paint_line(phase_row, line, unstyled()));
        assert(paints_view(r@) =~= dedup_progress_paints(self@.dedup, screen));
        r
    }
}

/// The popup with a record fits on every screen of at least twenty columns and
/// seven rows.
pub proof fn law_popup_fits(m: ViewModel, screen: Area)
    requires
        screen.width >= 20,
        screen.height >= 7,
    ensures
        ({
            let a = modal_plan(m, screen).area;
            a.x + a.width <= screen.width && a.y + a.height <= screen.height && a.height >= 5
        }),
{
}

} // verus!
