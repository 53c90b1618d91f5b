//! Colours, styled texts and areas of the screen.
use vstd::prelude::*;

use crate::commands::view::text::smaller;
use crate::text::seqs::occurs_here;
use crate::text::strings::{chars_of, string_between};

verus! {

/// A colour of the terminal.
#[derive(Debug, Clone, Copy, PartialEq, Eq, Structural)]
pub enum Color {
    Reset,
    Black,
    White,
    Gray,
    DarkGray,
    Red,
    Yellow,
    Blue,
    LightRed,
    LightGreen,
    LightYellow,
    LightBlue,
    LightCyan,
    Indexed(u8),
}

/// How a text looks.
#[derive(Debug, Clone, Copy, PartialEq, Eq, Structural)]
pub struct Style {
    pub fg: Option<Color>,
    pub bg: Option<Color>,
    pub bold: bool,
}

/// The look of the terminal.
#[verifier::allow_in_spec]
pub fn unstyled() -> Style
    returns
        (Style { fg: None, bg: None, bold: false }),
{
    Style { fg: None, bg: None, bold: false }
}

/// Text in a colour.
#[verifier::allow_in_spec]
pub fn ink(fg: Color) -> Style
    returns
        (Style { fg: Some(fg), bg: None, bold: false }),
{
    Style { fg: Some(fg), bg: None, bold: false }
}

/// A background in a colour.
#[verifier::allow_in_spec]
pub fn paper(bg: Color) -> Style
    returns
        (Style { fg: None, bg: Some(bg), bold: false }),
{
    Style { fg: None, bg: Some(bg), bold: false }
}

/// Text in a colour on a background.
#[verifier::allow_in_spec]
pub fn ink_on(fg: Color, bg: Color) -> Style
    returns
        (Style { fg: Some(fg), bg: Some(bg), bold: false }),
{
    Style { fg: Some(fg), bg: Some(bg), bold: false }
}

/// The style in bold.
#[verifier::allow_in_spec]
pub fn bold(s: Style) -> Style
    returns
        (Style { fg: s.fg, bg: s.bg, bold: true }),
{
    Style { fg: s.fg, bg: s.bg, bold: true }
}

/// A text with its style.
#[derive(Debug)]
pub struct StyledSpan {
    pub text: String,
    pub style: Style,
}

/// What a [`StyledSpan`] holds.
pub struct StyledModel {
    pub text: Seq<char>,
    pub style: Style,
}

impl View for StyledSpan {
    type V = StyledModel;

    open spec fn view(&self) -> StyledModel {
        StyledModel { text: self.text@, style: self.style }
    }
}

/// A text with its style.
pub open spec fn styled(text: Seq<char>, style: Style) -> StyledModel {
    StyledModel { text, style }
}

/// A text with its style.
pub fn span(text: &str, style: Style) -> (r: StyledSpan)
    ensures
        r@ == styled(text@, style),
{
    StyledSpan { text: text.to_owned(), style }
}

/// A line of styled texts.
#[derive(Debug)]
pub struct StyledLine {
    pub spans: Vec<StyledSpan>,
}

impl View for StyledLine {
    type V = Seq<StyledModel>;

    open spec fn view(&self) -> Seq<StyledModel> {
        spans_view(self.spans@)
    }
}

/// The models of styled texts.
pub open spec fn spans_view(s: Seq<StyledSpan>) -> Seq<StyledModel> {
    s.map_values(|x: StyledSpan| x@)
}

/// The models of lines.
pub open spec fn lines_view(l: Seq<StyledLine>) -> Seq<Seq<StyledModel>> {
    l.map_values(|x: StyledLine| x@)
}

/// A line of one text.
pub fn line_of(text: &str, style: Style) -> (r: StyledLine)
    ensures
        r@ == seq![styled(text@, style)],
{
    let mut spans: Vec<StyledSpan> = Vec::new();
    spans.push(span(text, style));
    let r = StyledLine { spans };
    assert(r@ =~= seq![styled(text@, style)]);
    r
}

/// A line of two texts.
pub fn line_of_two(first: &str, first_style: Style, second: &str, second_style: Style) -> (r:
    StyledLine)
    ensures
        r@ == seq![styled(first@, first_style), styled(second@, second_style)],
{
    let mut spans: Vec<StyledSpan> = Vec::new();
    spans.push(span(first, first_style));
    spans.push(span(second, second_style));
    let r = StyledLine { spans };
    assert(r@ =~= seq![styled(first@, first_style), styled(second@, second_style)]);
    r
}

/// A part of the screen.
#[derive(Debug, Clone, Copy, PartialEq, Eq, Structural)]
pub struct Area {
    pub x: u16,
    pub y: u16,
    pub width: u16,
    pub height: u16,
}

/// The larger of two numbers.
pub open spec fn larger(a: int, b: int) -> int {
    if a < b {
        b
    } else {
        a
    }
}

/// The sum, but at most the largest number of sixteen bits.
pub open spec fn sum16(a: int, b: int) -> int {
    smaller(a + b, u16::MAX as int)
}

/// The difference, but at least zero.
pub open spec fn diff16(a: int, b: int) -> int {
    larger(a - b, 0)
}

/// The area with these bounds.
pub open spec fn area_of(x: int, y: int, width: int, height: int) -> Area {
    Area { x: x as u16, y: y as u16, width: width as u16, height: height as u16 }
}

/// The inside of an area that has a border on each side.
pub open spec fn inside(a: Area) -> Area {
    area_of(
        smaller(sum16(a.x as int, 1), sum16(a.x as int, a.width as int)),
        smaller(sum16(a.y as int, 1), sum16(a.y as int, a.height as int)),
        diff16(a.width as int, 2),
        diff16(a.height as int, 2),
    )
}

/// The smaller of two numbers.
#[verifier::allow_in_spec]
pub fn min16(a: u16, b: u16) -> u16
    returns
        smaller(a as int, b as int) as u16,
{
    if a < b {
        a
    } else {
        b
    }
}

/// The larger of two numbers.
#[verifier::allow_in_spec]
pub fn max16(a: u16, b: u16) -> u16
    returns
        larger(a as int, b as int) as u16,
{
    if a < b {
        b
    } else {
        a
    }
}

/// The inside of an area that has a border on each side.
pub fn inner_area(a: Area) -> (r: Area)
    ensures
        r == inside(a),
{
    Area {
        x: min16(a.x.saturating_add(1), a.x.saturating_add(a.width)),
        y: min16(a.y.saturating_add(1), a.y.saturating_add(a.height)),
        width: a.width.saturating_sub(2),
        height: a.height.saturating_sub(2),
    }
}

/// A centred area: so many hundredths of the width, but at least `min_width`,
/// and `height` rows, all within `area`.
pub open spec fn centered(width_percent: u16, min_width: u16, height: u16, area: Area) -> Area {
    let percent = smaller(width_percent as int, 100);
    let wanted = smaller(area.width * percent, u16::MAX as int) / 100;
    let width = smaller(larger(wanted, min_width as int), area.width as int);
    let rows = smaller(height as int, area.height as int);
    area_of(
        sum16(area.x as int, (area.width - width) / 2),
        sum16(area.y as int, (area.height - rows) / 2),
        width,
        rows,
    )
}

/// A centred area: so many hundredths of the width, but at least `min_width`,
/// and `height` rows, all within `area`.
pub fn centered_rect_fixed_height(width_percent: u16, min_width: u16, height: u16, area: Area) -> (r:
    Area)
    ensures
        r == centered(width_percent, min_width, height, area),
{
    let percent = min16(width_percent, 100);
    assert(0 <= area.width * percent <= 65535 * 100) by (nonlinear_arith)
        requires
            area.width <= 65535,
            percent <= 100,
    ;
    let product: u32 = (area.width as u32) * (percent as u32);
    let bounded: u16 = if product > 65535 {
        65535
    } else {
        product as u16
    };
    let width = min16(max16(bounded / 100, min_width), area.width);
    let rows = min16(height, area.height);
    Area {
        x: area.x.saturating_add((area.width - width) / 2),
        y: area.y.saturating_add((area.height - rows) / 2),
        width,
        height: rows,
    }
}

/// A centred area lies within the area it is centred in.
pub proof fn law_centered_area_fits(width_percent: u16, min_width: u16, height: u16, area: Area)
    requires
        area.x + area.width <= u16::MAX,
        area.y + area.height <= u16::MAX,
    ensures
        ({
            let r = centered(width_percent, min_width, height, area);
            &&& area.x <= r.x && r.x + r.width <= area.x + area.width
            &&& area.y <= r.y && r.y + r.height <= area.y + area.height
        }),
{
    let percent = smaller(width_percent as int, 100);
    assert(area.width * percent >= 0) by (nonlinear_arith)
        requires
            area.width >= 0,
            percent >= 0,
    ;
}

/// The style of a key in the status bar.
#[verifier::allow_in_spec]
pub fn key_style() -> Style
    returns
        (Style { fg: Some(Color::White), bg: Some(Color::Indexed(30)), bold: true }),
{
    Style { fg: Some(Color::White), bg: Some(Color::Indexed(30)), bold: true }
}

/// The style of a text in the status bar.
#[verifier::allow_in_spec]
pub fn help_style() -> Style
    returns
        (Style { fg: Some(Color::Black), bg: Some(Color::Indexed(30)), bold: false }),
{
    Style { fg: Some(Color::Black), bg: Some(Color::Indexed(30)), bold: false }
}

/// A key in the status bar.
pub fn status_key(text: &str) -> (r: StyledSpan)
    ensures
        r@ == styled(text@, key_style()),
{
    span(text, key_style())
}

/// A text in the status bar.
pub fn status_text(text: &str) -> (r: StyledSpan)
    ensures
        r@ == styled(text@, help_style()),
{
    span(text, help_style())
}

/// The file name in a message that a file exists.
pub open spec fn existing_file(message: Seq<char>) -> Option<Seq<char>> {
    let prefix = "File "@;
    let suffix = " already exist"@;
    if message.len() >= prefix.len() + suffix.len() && message.take(prefix.len() as int) == prefix
        && message.skip(message.len() - suffix.len()) == suffix {
        Some(message.subrange(prefix.len() as int, message.len() - suffix.len()))
    } else {
        None
    }
}

/// An error message; the name of a file that exists is set off.
pub open spec fn error_line(message: Seq<char>) -> Seq<StyledModel> {
    let plain = ink_on(Color::White, Color::Red);
    match existing_file(message) {
        Some(name) => seq![
            styled("File "@, plain),
            styled(name, bold(ink_on(Color::Yellow, Color::Red))),
            styled(" already exist"@, plain),
        ],
        None => seq![styled(message, plain)],
    }
}

/// An error message; the name of a file that exists is set off.
pub fn render_save_error_message(message: &str) -> (r: StyledLine)
    ensures
        r@ == error_line(message@),
{
    proof {
        reveal_strlit("File ");
        reveal_strlit(" already exist");
    }
    let chars = chars_of(message);
    let prefix = chars_of("File ");
    let suffix = chars_of(" already exist");
    let plain = ink_on(Color::White, Color::Red);
    let n = chars.len();
    let mut spans: Vec<StyledSpan> = Vec::new();
    if n >= 19 && occurs_here(&chars, &prefix, 0) && occurs_here(&chars, &suffix, n - 14) {
        assert(chars@.subrange(0, 5) =~= message@.take(5));
        assert(chars@.subrange(n - 14, n as int) =~= message@.skip(n - 14));
        let name = string_between(&chars, 5, n - 14);
        spans.push(span("File ", plain));
        spans.push(span(name.as_str(), bold(ink_on(Color::Yellow, Color::Red))));
        spans.push(span(" already exist", plain));
    } else {
        proof {
            if n >= 19 {
                assert(chars@.subrange(0, 5) =~= message@.take(5));
                assert(chars@.subrange(n - 14, n as int) =~= message@.skip(n - 14));
            }
        }
        spans.push(span(message, plain));
    }
    let r = StyledLine { spans };
    assert(r@ =~= error_line(message@));
    r
}

} // verus!
