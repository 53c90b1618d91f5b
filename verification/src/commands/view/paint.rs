//! What is drawn, as plain values.
use vstd::prelude::*;

use crate::commands::view::style::{
    help_style, ink, ink_on, key_style, line_of, lines_view, span, spans_view, status_key,
    status_text, styled, Area, Color, Style, StyledLine, StyledModel, StyledSpan,
};
use crate::commands::view::types::Focus;
use crate::dedup::detect::text_option;

verus! {

/// A step of drawing.
#[derive(Debug)]
pub enum Paint {
    /// Blanks an area.
    Clear(Area),
    /// A border with a title.
    Border { area: Area, title: Vec<StyledSpan>, double: bool, border: Style, style: Style },
    /// Lines from the top, without the first `scroll`.
    Lines { area: Area, lines: Vec<StyledLine>, style: Style, scroll: u32, wrap: bool },
    /// A text from the top, without its first `scroll` lines.
    Body { area: Area, text: String, style: Style, scroll: u16 },
    /// Gives an area a style.
    Fill { area: Area, style: Style },
    /// A bar at the right that shows a position.
    Scrollbar { area: Area, length: usize, position: usize, style: Style },
    /// Places the cursor.
    Cursor { x: u16, y: u16 },
    /// Texts in a row, in at most `width` columns.
    Spans { x: u16, y: u16, width: u16, spans: Vec<StyledSpan> },
    /// A bar that shows how far a run is, with a label in place of the percentage.
    Gauge { area: Area, label: Option<String>, label_style: Style },
}

/// What a [`Paint`] holds.
pub enum PaintModel {
    Clear(Area),
    Border { area: Area, title: Seq<StyledModel>, double: bool, border: Style, style: Style },
    Lines { area: Area, lines: Seq<Seq<StyledModel>>, style: Style, scroll: int, wrap: bool },
    Body { area: Area, text: Seq<char>, style: Style, scroll: int },
    Fill { area: Area, style: Style },
    Scrollbar { area: Area, length: int, position: int, style: Style },
    Cursor { x: int, y: int },
    Spans { x: int, y: int, width: int, spans: Seq<StyledModel> },
    Gauge { area: Area, label: Option<Seq<char>>, label_style: Style },
}

impl View for Paint {
    type V = PaintModel;

    open spec fn view(&self) -> PaintModel {
        match *self {
            Paint::Clear(a) => PaintModel::Clear(a),
            Paint::Border { area, title, double, border, style } => PaintModel::Border {
                area,
                title: spans_view(title@),
                double,
                border,
                style,
            },
            Paint::Lines { area, lines, style, scroll, wrap } => PaintModel::Lines {
                area,
                lines: lines_view(lines@),
                style,
                scroll: scroll as int,
                wrap,
            },
            Paint::Body { area, text, style, scroll } => PaintModel::Body {
                area,
                text: text@,
                style,
                scroll: scroll as int,
            },
            Paint::Fill { area, style } => PaintModel::Fill { area, style },
            Paint::Scrollbar { area, length, position, style } => PaintModel::Scrollbar {
                area,
                length: length as int,
                position: position as int,
                style,
            },
            Paint::Cursor { x, y } => PaintModel::Cursor { x: x as int, y: y as int },
            Paint::Spans { x, y, width, spans } => PaintModel::Spans {
                x: x as int,
                y: y as int,
                width: width as int,
                spans: spans_view(spans@),
            },
            Paint::Gauge { area, label, label_style } => PaintModel::Gauge {
                area,
                label: text_option(label),
                label_style,
            },
        }
    }
}

/// The models of steps.
pub open spec fn paints_view(p: Seq<Paint>) -> Seq<PaintModel> {
    p.map_values(|x: Paint| x@)
}

/// Adds a step.
pub fn put(paints: &mut Vec<Paint>, p: Paint)
    ensures
        paints_view(final(paints)@) == paints_view(old(paints)@).push(p@),
{
    let ghost before = paints_view(paints@);
    paints.push(p);
    assert(paints_view(paints@) =~= before.push(p@));
}

/// No steps.
pub fn blank() -> (r: Vec<Paint>)
    ensures
        paints_view(r@) == Seq::<PaintModel>::empty(),
{
    let r: Vec<Paint> = Vec::new();
    assert(paints_view(r@) =~= Seq::<PaintModel>::empty());
    r
}

/// Adds a text to a line.
pub fn put_span(line: &mut StyledLine, text: &str, style: Style)
    ensures
        final(line)@ == old(line)@.push(styled(text@, style)),
{
    let ghost before = line@;
    line.spans.push(span(text, style));
    assert(line@ =~= before.push(styled(text@, style)));
}

/// A line without text.
pub fn no_spans() -> (r: StyledLine)
    ensures
        r@ == Seq::<StyledModel>::empty(),
{
    let r = StyledLine { spans: Vec::new() };
    assert(r@ =~= Seq::<StyledModel>::empty());
    r
}

/// One line.
pub fn one_line(line: StyledLine) -> (r: Vec<StyledLine>)
    ensures
        lines_view(r@) == seq![line@],
{
    let mut r: Vec<StyledLine> = Vec::new();
    r.push(line);
    assert(lines_view(r@) =~= seq![line@]);
    r
}

/// Adds a line.
pub fn put_line(lines: &mut Vec<StyledLine>, line: StyledLine)
    ensures
        lines_view(final(lines)@) == lines_view(old(lines)@).push(line@),
{
    let ghost before = lines_view(lines@);
    lines.push(line);
    assert(lines_view(lines@) =~= before.push(line@));
}

/// A line of texts in an area.
pub open spec fn line_at(area: Area, line: Seq<StyledModel>, style: Style) -> PaintModel {
    PaintModel::Lines { area, lines: seq![line], style, scroll: 0, wrap: false }
}

/// Draws a line of texts in an area.
pub fn paint_line(area: Area, line: StyledLine, style: Style) -> (r: Paint)
    ensures
        r@ == line_at(area, line@, style),
{
    Paint::Lines { area, lines: one_line(line), style, scroll: 0, wrap: false }
}

/// A border with a title of one text.
pub open spec fn border_at(
    area: Area,
    title: Seq<char>,
    title_style: Style,
    double: bool,
    border: Style,
    style: Style,
) -> PaintModel {
    PaintModel::Border { area, title: seq![styled(title, title_style)], double, border, style }
}

/// Draws a border with a title of one text.
pub fn paint_border(
    area: Area,
    title: &str,
    title_style: Style,
    double: bool,
    border: Style,
    style: Style,
) -> (r: Paint)
    ensures
        r@ == border_at(area, title@, title_style, double, border, style),
{
    Paint::Border { area, title: line_of(title, title_style).spans, double, border, style }
}

/// Keys and what they do.
pub open spec fn help_line(items: Seq<(Seq<char>, Seq<char>)>) -> Seq<StyledModel>
    decreases items.len(),
{
    if items.len() == 0 {
        Seq::empty()
    } else {
        help_line(items.drop_last()).push(styled(items.last().0, key_style())).push(
            styled(items.last().1, help_style()),
        )
    }
}

/// The texts of pairs.
pub open spec fn pair_texts(items: Seq<(&'static str, &'static str)>) -> Seq<(Seq<char>, Seq<char>)> {
    items.map_values(|p: (&'static str, &'static str)| (p.0@, p.1@))
}

/// Keys and what they do.
pub fn help_spans(items: &Vec<(&'static str, &'static str)>) -> (r: Vec<StyledSpan>)
    ensures
        spans_view(r@) == help_line(pair_texts(items@)),
{
    let ghost all = pair_texts(items@);
    let mut r: Vec<StyledSpan> = Vec::new();
    assert(all.take(0) =~= Seq::empty());
    assert(spans_view(r@) =~= help_line(all.take(0)));
    for i in 0..items.len()
        invariant
            all == pair_texts(items@),
            spans_view(r@) == help_line(all.take(i as int)),
    {
        assert(all.take(i + 1).drop_last() =~= all.take(i as int));
        assert(all[i as int] == (items@[i as int].0@, items@[i as int].1@));
        let ghost before = spans_view(r@);
        r.push(status_key(items[i].0));
        r.push(status_text(items[i].1));
        assert(spans_view(r@) =~= before.push(styled(items@[i as int].0@, key_style())).push(
            styled(items@[i as int].1@, help_style()),
        ));
    }
    assert(all.take(items@.len() as int) =~= all);
    r
}

/// The help at the left of the status bar.
pub open spec fn status_help(focus: Focus) -> Seq<(Seq<char>, Seq<char>)> {
    match focus {
        Focus::Search => seq![
            ("TAB"@, " switch  "@),
            ("ENTER"@, " apply  "@),
            ("ESC"@, " clear filter  "@),
            ("UP/DOWN"@, " change mode"@),
        ],
        Focus::List => seq![
            ("Q"@, " quit  "@),
            ("TAB"@, " switch  "@),
            ("ENTER"@, " open  "@),
            ("S"@, " save  "@),
            ("E"@, " export  "@),
            ("D"@, " dedup  "@),
            ("T"@, " tail  "@),
            ("F"@, " field filter  "@),
            ("I"@, " info  "@),
            ("UP/DOWN"@, " navigate"@),
        ],
        _ => Seq::empty(),
    }
}

/// The help at the left of the status bar.
pub fn status_help_spans(focus: Focus) -> (r: Vec<StyledSpan>)
    ensures
        spans_view(r@) == help_line(status_help(focus)),
{
    let items: Vec<(&'static str, &'static str)> = match focus {
        Focus::Search => vec![
            ("TAB", " switch  "),
            ("ENTER", " apply  "),
            ("ESC", " clear filter  "),
            ("UP/DOWN", " change mode"),
        ],
        Focus::List => vec![
            ("Q", " quit  "),
            ("TAB", " switch  "),
            ("ENTER", " open  "),
            ("S", " save  "),
            ("E", " export  "),
            ("D", " dedup  "),
            ("T", " tail  "),
            ("F", " field filter  "),
            ("I", " info  "),
            ("UP/DOWN", " navigate"),
        ],
        _ => Vec::new(),
    };
    assert(pair_texts(items@) =~= status_help(focus));
    help_spans(&items)
}

/// A pane with a title; an active one stands out.
pub open spec fn pane_at(area: Area, title: Seq<char>, active: bool) -> PaintModel {
    if active {
        border_at(
            area,
            title,
            ink_on(Color::Black, Color::LightGreen),
            false,
            ink(Color::LightGreen),
            ink(Color::White),
        )
    } else {
        border_at(area, title, ink(Color::Gray), false, ink(Color::Gray), ink(Color::White))
    }
}

/// Draws a pane with a title; an active one stands out.
pub fn pane_block(area: Area, title: &str, active: bool) -> (r: Paint)
    ensures
        r@ == pane_at(area, title@, active),
{
    let title_style = if active {
        ink_on(Color::Black, Color::LightGreen)
    } else {
        ink(Color::Gray)
    };
    let border = if active {
        ink(Color::LightGreen)
    } else {
        ink(Color::Gray)
    };
    paint_border(area, title, title_style, false, border, ink(Color::White))
}

} // verus!
