//! Editing, cutting and wrapping of texts.
use vstd::prelude::*;

use crate::bridge::utf8::{from_utf8_lossy, utf8_lossy};
use crate::text::chars::{char_is_control, is_control};
use crate::text::numbers::{hex_byte, hex_padded, push_hex, push_hex_byte};
use crate::text::seqs::{replace_all, replaced, split_chars, split_on};
use crate::text::strings::{chars_of, push_char, string_between, string_of, texts};

verus! {

/// The smaller of two numbers.
pub open spec fn smaller(a: int, b: int) -> int {
    if a < b {
        a
    } else {
        b
    }
}

/// The number of characters of a text.
pub fn char_count(text: &str) -> (r: usize)
    ensures
        r == text@.len(),
{
    chars_of(text).len()
}

/// A text with a character before its character at `at`, or at its end.
pub open spec fn with_char(s: Seq<char>, at: int, c: char) -> Seq<char> {
    s.insert(smaller(at, s.len() as int), c)
}

/// A text without its character at `at`, if there is one.
pub open spec fn without_char(s: Seq<char>, at: int) -> Seq<char> {
    if 0 <= at < s.len() {
        s.remove(at)
    } else {
        s
    }
}

/// Inserts a character before the cursor, which moves behind it.
pub fn insert_char_at(text: &mut String, cursor: &mut usize, ch: char)
    requires
        *old(cursor) < usize::MAX,
    ensures
        final(text)@ == with_char(old(text)@, *old(cursor) as int, ch),
        *final(cursor) == *old(cursor) + 1,
{
    let ghost before = text@;
    let chars = chars_of(text.as_str());
    let at = if *cursor < chars.len() {
        *cursor
    } else {
        chars.len()
    };
    let mut out = string_between(&chars, 0, at);
    push_char(&mut out, ch);
    let rest = string_between(&chars, at, chars.len());
    out.append(rest.as_str());
    *text = out;
    assert(text@ =~= with_char(before, *cursor as int, ch));
    *cursor = *cursor + 1;
}

/// Removes the character before the cursor, which moves to where it was.
pub fn delete_char_before(text: &mut String, cursor: &mut usize)
    ensures
        final(text)@ == without_char(old(text)@, *old(cursor) - 1),
        *final(cursor) == if *old(cursor) == 0 {
            0
        } else {
            *old(cursor) - 1
        },
{
    if *cursor == 0 {
        return;
    }
    *cursor = *cursor - 1;
    delete_char_at(text, *cursor);
}

/// Removes the character at the cursor.
pub fn delete_char_at(text: &mut String, cursor: usize)
    ensures
        final(text)@ == without_char(old(text)@, cursor as int),
{
    let ghost before = text@;
    let chars = chars_of(text.as_str());
    if cursor >= chars.len() {
        return;
    }
    let mut out = string_between(&chars, 0, cursor);
    let rest = string_between(&chars, cursor + 1, chars.len());
    out.append(rest.as_str());
    *text = out;
    assert(text@ =~= before.remove(cursor as int));
}

/// Deleting a character that was just inserted gives the text back.
pub proof fn law_delete_undoes_insert(s: Seq<char>, cursor: int, c: char)
    requires
        0 <= cursor <= s.len(),
    ensures
        without_char(with_char(s, cursor, c), cursor) == s,
{
    assert(s.insert(cursor, c).remove(cursor) =~= s);
}

/// A character of a text on one line: control characters become spaces.
pub open spec fn flat_char(c: char) -> char {
    if is_control(c) {
        ' '
    } else {
        c
    }
}

/// A text on one line.
pub open spec fn flattened(s: Seq<char>) -> Seq<char> {
    s.map_values(|c: char| flat_char(c))
}

/// A text cut down to so many characters, with dots where something is cut off.
pub open spec fn cut(s: Seq<char>, limit: nat) -> Seq<char> {
    if s.len() <= limit {
        s
    } else {
        s.take(limit as int) + "..."@
    }
}

/// A text on one line, cut down to `limit` characters.
pub fn trim_single_line(input: &str, limit: usize) -> (r: String)
    ensures
        r@ == cut(flattened(input@), limit as nat),
{
    let chars = chars_of(input);
    let mut out = String::new();
    let ghost flat = flattened(input@);
    let n = if chars.len() <= limit {
        chars.len()
    } else {
        limit
    };
    for i in 0..n
        invariant
            n <= chars@.len(),
            chars@ == input@,
            flat == flattened(input@),
            out@ == flat.take(i as int),
    {
        if char_is_control(chars[i]) {
            push_char(&mut out, ' ');
        } else {
            push_char(&mut out, chars[i]);
        }
        assert(out@ =~= flat.take(i + 1));
    }
    if chars.len() > limit {
        out.append("...");
    } else {
        assert(flat.take(n as int) =~= flat);
    }
    out
}

/// Bytes as text on one line, cut down to `limit` characters.
pub fn text_preview(bytes: &[u8], limit: usize) -> (r: String)
    ensures
        r@ == cut(flattened(utf8_lossy(bytes@)), limit as nat),
{
    trim_single_line(from_utf8_lossy(bytes).as_str(), limit)
}

/// So many spaces.
pub open spec fn spaces(n: nat) -> Seq<char> {
    Seq::new(n, |i: int| ' ')
}

/// Appends `n` times the character `c`.
fn push_repeated(out: &mut String, c: char, n: usize)
    ensures
        final(out)@ == old(out)@ + Seq::new(n as nat, |i: int| c),
{
    let ghost start = out@;
    assert(start + Seq::new(0, |i: int| c) =~= start);
    for i in 0..n
        invariant
            out@ == start + Seq::new(i as nat, |k: int| c),
    {
        push_char(out, c);
        assert(out@ =~= start + Seq::new((i + 1) as nat, |k: int| c));
    }
}

/// Appends `n` spaces.
pub fn push_spaces(out: &mut String, n: usize)
    ensures
        final(out)@ == old(out)@ + spaces(n as nat),
{
    push_repeated(out, ' ', n);
    assert(spaces(n as nat) =~= Seq::new(n as nat, |i: int| ' '));
}

/// A text in exactly so many characters: padded with spaces, or cut off with
/// dots.
pub open spec fn fitted(s: Seq<char>, width: nat) -> Seq<char> {
    if s.len() <= width {
        s + spaces((width - s.len()) as nat)
    } else if width <= 3 {
        Seq::new(width, |i: int| '.')
    } else {
        s.take(width - 3) + "..."@
    }
}

/// A text in exactly `width` characters.
pub fn fit_to_width(input: &str, width: usize) -> (r: String)
    ensures
        r@ == fitted(input@, width as nat),
        r@.len() == width,
{
    proof {
        reveal_strlit("...");
    }
    let chars = chars_of(input);
    if chars.len() <= width {
        let mut padded = input.to_owned();
        push_spaces(&mut padded, width - chars.len());
        return padded;
    }
    if width <= 3 {
        let mut dots = String::new();
        push_repeated(&mut dots, '.', width);
        assert(dots@ =~= fitted(input@, width as nat));
        return dots;
    }
    let mut out = string_between(&chars, 0, width - 3);
    assert(chars@.subrange(0, width - 3) =~= chars@.take(width - 3));
    out.append("...");
    out
}

/// Text in the making: what is written, and how long its last line is.
pub struct Wrapped {
    pub out: Seq<char>,
    pub col: nat,
}

/// A word behind what is written. A word that does not fit on the line opens a
/// new one, and a word that fits on no line is cut off.
pub open spec fn wrap_word(w: Wrapped, word: Seq<char>, width: nat) -> Wrapped {
    if word.len() == 0 {
        if 0 < w.col < width {
            Wrapped { out: w.out.push(' '), col: w.col + 1 }
        } else {
            w
        }
    } else if word.len() > width {
        let start = if w.col > 0 {
            w.out.push('\n')
        } else {
            w.out
        };
        Wrapped { out: (start + word.take(width - 1)).push('\u{2026}'), col: width }
    } else if w.col + (if w.col > 0 {
        1int
    } else {
        0
    }) + word.len() > width {
        Wrapped { out: w.out.push('\n') + word, col: word.len() }
    } else if w.col > 0 {
        Wrapped { out: w.out.push(' ') + word, col: w.col + 1 + word.len() }
    } else {
        Wrapped { out: w.out + word, col: word.len() }
    }
}

/// Words behind what is written.
pub open spec fn wrap_words(w: Wrapped, words: Seq<Seq<char>>, width: nat) -> Wrapped
    decreases words.len(),
{
    if words.len() == 0 {
        w
    } else {
        wrap_word(wrap_words(w, words.drop_last(), width), words.last(), width)
    }
}

/// Lines, each wrapped.
pub open spec fn wrap_lines(lines: Seq<Seq<char>>, width: nat) -> Seq<char>
    decreases lines.len(),
{
    if lines.len() == 0 {
        Seq::empty()
    } else {
        let before = wrap_lines(lines.drop_last(), width);
        let start = if lines.len() > 1 {
            before.push('\n')
        } else {
            before
        };
        wrap_words(Wrapped { out: start, col: 0 }, split_on(lines.last(), ' '), width).out
    }
}

/// A text with tabs as four spaces.
pub open spec fn untabbed(s: Seq<char>) -> Seq<char> {
    replaced(s, seq!['\t'], "    "@)
}

/// A text wrapped at a width; a width of zero leaves it as it is.
pub open spec fn wrapped(s: Seq<char>, width: nat) -> Seq<char> {
    if width == 0 {
        s
    } else {
        wrap_lines(split_on(untabbed(s), '\n'), width)
    }
}

/// Writes a word behind what is written.
fn push_word(out: &mut String, col: usize, word: &Vec<char>, width: usize) -> (r: usize)
    requires
        width > 0,
        col <= width,
    ensures
        (Wrapped { out: final(out)@, col: r as nat }) == wrap_word(
            Wrapped { out: old(out)@, col: col as nat },
            word@,
            width as nat,
        ),
        r <= width,
{
    let ghost start = out@;
    let n = word.len();
    if n == 0 {
        if col > 0 && col < width {
            push_char(out, ' ');
            return col + 1;
        }
        return col;
    }
    if n > width {
        if col > 0 {
            push_char(out, '\n');
        }
        out.append(string_between(word, 0, width - 1).as_str());
        assert(word@.subrange(0, width - 1) =~= word@.take(width - 1));
        push_char(out, '\u{2026}');
        return width;
    }
    let whole = string_of(word);
    if col > 0 {
        if width - col <= n {
            push_char(out, '\n');
            out.append(whole.as_str());
            return n;
        }
        push_char(out, ' ');
        out.append(whole.as_str());
        return col + 1 + n;
    }
    out.append(whole.as_str());
    n
}

/// A text wrapped at `width` characters.
pub fn smart_wrap(text: &str, width: usize) -> (r: String)
    ensures
        r@ == wrapped(text@, width as nat),
{
    if width == 0 {
        return text.to_owned();
    }
    let mut tab: Vec<char> = Vec::new();
    tab.push('\t');
    assert(tab@ =~= seq!['\t']);
    let flat = replace_all(&chars_of(text), &tab, "    ");
    let lines = split_chars(&chars_of(flat.as_str()), '\n');
    let ghost all = texts(lines@);
    let mut out = String::new();
    assert(all.take(0) =~= Seq::empty());
    for i in 0..lines.len()
        invariant
            width > 0,
            all == texts(lines@),
            out@ == wrap_lines(all.take(i as int), width as nat),
    {
        assert(all.take(i + 1).drop_last() =~= all.take(i as int));
        assert(all[i as int] == lines@[i as int]@);
        if i > 0 {
            push_char(&mut out, '\n');
        }
        let ghost start = Wrapped { out: out@, col: 0 };
        let words = split_chars(&chars_of(lines[i].as_str()), ' ');
        let ghost parts = texts(words@);
        assert(parts.take(0) =~= Seq::empty());
        let mut col: usize = 0;
        for j in 0..words.len()
            invariant
                width > 0,
                col <= width,
                parts == texts(words@),
                (Wrapped { out: out@, col: col as nat }) == wrap_words(
                    start,
                    parts.take(j as int),
                    width as nat,
                ),
        {
            assert(parts.take(j + 1).drop_last() =~= parts.take(j as int));
            assert(parts[j as int] == words@[j as int]@);
            col = push_word(&mut out, col, &chars_of(words[j].as_str()), width);
        }
        assert(parts.take(words@.len() as int) =~= parts);
    }
    assert(all.take(lines@.len() as int) =~= all);
    out
}

/// No line is longer than `width` characters.
pub open spec fn lines_fit(s: Seq<char>, width: nat) -> bool {
    forall|i: int|
        0 <= i < split_on(s, '\n').len() ==> (#[trigger] split_on(s, '\n')[i]).len() <= width
}

/// No line break in a text.
pub open spec fn one_line(s: Seq<char>) -> bool {
    forall|i: int| 0 <= i < s.len() ==> #[trigger] s[i] != '\n'
}

proof fn lemma_split_not_empty(s: Seq<char>)
    ensures
        split_on(s, '\n').len() > 0,
    decreases s.len(),
{
    if s.len() > 0 {
        lemma_split_not_empty(s.drop_last());
    }
}

/// Text that fits so far, with a last line of `col` characters.
spec fn fits(w: Wrapped, width: nat) -> bool {
    &&& lines_fit(w.out, width)
    &&& split_on(w.out, '\n').last().len() == w.col
    &&& w.col <= width
}

proof fn lemma_fits_newline(w: Wrapped, width: nat)
    requires
        fits(w, width),
    ensures
        fits(Wrapped { out: w.out.push('\n'), col: 0 }, width),
{
    lemma_split_not_empty(w.out);
    let next = w.out.push('\n');
    assert(next.drop_last() =~= w.out);
    let before = split_on(w.out, '\n');
    assert(split_on(next, '\n') == before.push(Seq::empty()));
    assert forall|i: int| 0 <= i < split_on(next, '\n').len() implies (#[trigger] split_on(
        next,
        '\n',
    )[i]).len() <= width by {
        if i < before.len() {
            assert(before[i].len() <= width);
        }
    }
}

proof fn lemma_fits_char(w: Wrapped, c: char, width: nat)
    requires
        fits(w, width),
        c != '\n',
        w.col < width,
    ensures
        fits(Wrapped { out: w.out.push(c), col: w.col + 1 }, width),
{
    lemma_split_not_empty(w.out);
    let next = w.out.push(c);
    assert(next.drop_last() =~= w.out);
    let before = split_on(w.out, '\n');
    assert(split_on(next, '\n') == before.drop_last().push(before.last().push(c)));
    assert forall|i: int| 0 <= i < split_on(next, '\n').len() implies (#[trigger] split_on(
        next,
        '\n',
    )[i]).len() <= width by {
        if i < before.len() - 1 {
            assert(before[i].len() <= width);
        }
    }
}

proof fn lemma_fits_word(w: Wrapped, word: Seq<char>, width: nat)
    requires
        fits(w, width),
        one_line(word),
        w.col + word.len() <= width,
    ensures
        fits(Wrapped { out: w.out + word, col: w.col + word.len() }, width),
    decreases word.len(),
{
    if word.len() == 0 {
        assert(w.out + word =~= w.out);
    } else {
        let init = word.drop_last();
        assert(one_line(init)) by {
            assert forall|i: int| 0 <= i < init.len() implies #[trigger] init[i] != '\n' by {
                assert(word[i] != '\n');
            }
        }
        lemma_fits_word(w, init, width);
        let mid = Wrapped { out: w.out + init, col: w.col + init.len() };
        assert(word[word.len() - 1] != '\n');
        lemma_fits_char(mid, word.last(), width);
        assert((w.out + init).push(word.last()) =~= w.out + word);
    }
}

proof fn lemma_fits_wrap_word(w: Wrapped, word: Seq<char>, width: nat)
    requires
        fits(w, width),
        one_line(word),
        width > 0,
    ensures
        fits(wrap_word(w, word, width), width),
{
    if word.len() == 0 {
        if 0 < w.col < width {
            lemma_fits_char(w, ' ', width);
        }
    } else if word.len() > width {
        let start = if w.col > 0 {
            lemma_fits_newline(w, width);
            Wrapped { out: w.out.push('\n'), col: 0 }
        } else {
            w
        };
        let head = word.take(width - 1);
        assert(one_line(head)) by {
            assert forall|i: int| 0 <= i < head.len() implies #[trigger] head[i] != '\n' by {
                assert(word[i] != '\n');
            }
        }
        lemma_fits_word(start, head, width);
        lemma_fits_char(
            Wrapped { out: start.out + head, col: start.col + head.len() },
            '\u{2026}',
            width,
        );
    } else if w.col + (if w.col > 0 {
        1int
    } else {
        0
    }) + word.len() > width {
        lemma_fits_newline(w, width);
        lemma_fits_word(Wrapped { out: w.out.push('\n'), col: 0 }, word, width);
    } else if w.col > 0 {
        lemma_fits_char(w, ' ', width);
        lemma_fits_word(Wrapped { out: w.out.push(' '), col: w.col + 1 }, word, width);
    } else {
        lemma_fits_word(w, word, width);
    }
}

proof fn lemma_fits_wrap_words(w: Wrapped, words: Seq<Seq<char>>, width: nat)
    requires
        fits(w, width),
        width > 0,
        forall|i: int| 0 <= i < words.len() ==> one_line(#[trigger] words[i]),
    ensures
        fits(wrap_words(w, words, width), width),
    decreases words.len(),
{
    if words.len() > 0 {
        let init = words.drop_last();
        assert forall|i: int| 0 <= i < init.len() implies one_line(#[trigger] init[i]) by {
            assert(one_line(words[i]));
        }
        lemma_fits_wrap_words(w, init, width);
        assert(one_line(words[words.len() - 1]));
        lemma_fits_wrap_word(wrap_words(w, init, width), words.last(), width);
    }
}

proof fn lemma_pieces_have_no_separator(s: Seq<char>, sep: char)
    ensures
        split_on(s, sep).len() > 0,
        forall|i: int, k: int|
            0 <= i < split_on(s, sep).len() && 0 <= k < split_on(s, sep)[i].len() ==> #[trigger]
                split_on(s, sep)[i][k] != sep,
    decreases s.len(),
{
    if s.len() > 0 {
        lemma_pieces_have_no_separator(s.drop_last(), sep);
        let before = split_on(s.drop_last(), sep);
        let after = split_on(s, sep);
        assert forall|i: int, k: int|
            0 <= i < after.len() && 0 <= k < after[i].len() implies #[trigger] after[i][k]
            != sep by {
            if i < before.len() - 1 {
                assert(after[i] == before[i]);
                assert(before[i][k] != sep);
            } else if s.last() == sep && i == before.len() - 1 {
                assert(after[i] == before[i]);
                assert(before[i][k] != sep);
            } else if s.last() != sep && i == before.len() - 1 && k < before[i].len() {
                assert(after[i] == before.last().push(s.last()));
                assert(before[i][k] != sep);
            }
        }
    }
}

proof fn lemma_pieces_stay_on_the_line(s: Seq<char>)
    requires
        one_line(s),
    ensures
        forall|i: int| 0 <= i < split_on(s, ' ').len() ==> one_line(#[trigger] split_on(s, ' ')[i]),
        split_on(s, ' ').len() > 0,
    decreases s.len(),
{
    if s.len() > 0 {
        let init = s.drop_last();
        assert(one_line(init)) by {
            assert forall|i: int| 0 <= i < init.len() implies #[trigger] init[i] != '\n' by {
                assert(s[i] != '\n');
            }
        }
        lemma_pieces_stay_on_the_line(init);
        assert(s[s.len() - 1] != '\n');
        let before = split_on(init, ' ');
        let after = split_on(s, ' ');
        assert forall|i: int| 0 <= i < after.len() implies one_line(#[trigger] after[i]) by {
            if i < before.len() - 1 || (s.last() == ' ' && i == before.len() - 1) {
                assert(after[i] == before[i]);
                assert(one_line(before[i]));
            } else if s.last() != ' ' {
                let piece = before.last();
                assert(one_line(before[before.len() - 1]));
                assert(after[i] == piece.push(s.last()));
                assert forall|k: int| 0 <= k < after[i].len() implies #[trigger] after[i][k]
                    != '\n' by {
                    if k < piece.len() {
                        assert(piece[k] != '\n');
                    }
                }
            }
        }
    }
}

proof fn lemma_wrap_lines_fit(lines: Seq<Seq<char>>, width: nat)
    requires
        width > 0,
        forall|i: int| 0 <= i < lines.len() ==> one_line(#[trigger] lines[i]),
    ensures
        lines_fit(wrap_lines(lines, width), width),
        split_on(wrap_lines(lines, width), '\n').last().len() <= width,
        lines.len() == 0 ==> wrap_lines(lines, width).len() == 0,
    decreases lines.len(),
{
    lemma_split_not_empty(wrap_lines(lines, width));
    if lines.len() == 0 {
        assert(split_on(Seq::<char>::empty(), '\n') =~= seq![Seq::<char>::empty()]);
    } else {
        let init = lines.drop_last();
        assert forall|i: int| 0 <= i < init.len() implies one_line(#[trigger] init[i]) by {
            assert(one_line(lines[i]));
        }
        lemma_wrap_lines_fit(init, width);
        let before = wrap_lines(init, width);
        lemma_split_not_empty(before);
        let last_len = split_on(before, '\n').last().len();
        let w = Wrapped { out: before, col: last_len };
        assert(fits(w, width));
        let start = if lines.len() > 1 {
            lemma_fits_newline(w, width);
            Wrapped { out: before.push('\n'), col: 0 }
        } else {
            assert(before =~= Seq::empty());
            assert(split_on(before, '\n') =~= seq![Seq::<char>::empty()]);
            Wrapped { out: before, col: 0 }
        };
        assert(one_line(lines[lines.len() - 1]));
        lemma_pieces_stay_on_the_line(lines.last());
        lemma_fits_wrap_words(start, split_on(lines.last(), ' '), width);
    }
}

/// No line of a wrapped text is longer than the width it is wrapped at.
pub proof fn law_wrapped_lines_fit(s: Seq<char>, width: nat)
    requires
        width > 0,
    ensures
        lines_fit(wrapped(s, width), width),
{
    let lines = split_on(untabbed(s), '\n');
    lemma_pieces_have_no_separator(untabbed(s), '\n');
    assert forall|i: int| 0 <= i < lines.len() implies one_line(#[trigger] lines[i]) by {
        assert forall|k: int| 0 <= k < lines[i].len() implies #[trigger] lines[i][k] != '\n' by {
            assert(split_on(untabbed(s), '\n')[i][k] != '\n');
        }
    }
    lemma_wrap_lines_fit(lines, width);
}

/// Bytes in hexadecimal, separated by spaces.
pub open spec fn hex_bytes(b: Seq<u8>) -> Seq<char>
    decreases b.len(),
{
    if b.len() == 0 {
        Seq::empty()
    } else if b.len() == 1 {
        hex_byte(b[0])
    } else {
        hex_bytes(b.drop_last()) + " "@ + hex_byte(b.last())
    }
}

/// The first `limit` bytes in hexadecimal, with dots where there are more.
pub open spec fn hex_cut(b: Seq<u8>, limit: nat) -> Seq<char> {
    if b.len() > limit {
        hex_bytes(b.take(limit as int)) + " ..."@
    } else {
        hex_bytes(b)
    }
}

/// The first `limit` bytes in hexadecimal, with dots where there are more.
pub fn hex_preview(bytes: &[u8], limit: usize) -> (r: String)
    ensures
        r@ == hex_cut(bytes@, limit as nat),
{
    let n = if bytes.len() > limit {
        limit
    } else {
        bytes.len()
    };
    let mut out = String::new();
    assert(bytes@.take(0) =~= Seq::empty());
    for i in 0..n
        invariant
            n <= bytes@.len(),
            out@ == hex_bytes(bytes@.take(i as int)),
    {
        assert(bytes@.take(i + 1).drop_last() =~= bytes@.take(i as int));
        if i > 0 {
            out.append(" ");
        }
        push_hex_byte(&mut out, bytes[i]);
        if i == 0 {
            assert(out@ =~= hex_byte(bytes@[0]));
        }
    }
    if bytes.len() > limit {
        out.append(" ...");
    } else {
        assert(bytes@.take(n as int) =~= bytes@);
    }
    out
}

/// Bytes in hexadecimal, each with a space behind it.
pub open spec fn spaced_hex(b: Seq<u8>) -> Seq<char>
    decreases b.len(),
{
    if b.len() == 0 {
        Seq::empty()
    } else {
        spaced_hex(b.drop_last()) + hex_byte(b.last()) + " "@
    }
}

/// Lines of sixteen bytes in hexadecimal, from `at` on, each with its offset.
pub open spec fn dump_from(b: Seq<u8>, at: int) -> Seq<char>
    decreases
            if at < b.len() {
                b.len() - at
            } else {
                0
            },
{
    if at >= b.len() {
        Seq::empty()
    } else {
        let end = smaller(at + 16, b.len() as int);
        hex_padded(at as nat, 8) + ": "@ + spaced_hex(b.subrange(at, end)) + "\n"@ + dump_from(
            b,
            at + 16,
        )
    }
}

/// Bytes in hexadecimal, sixteen on a line.
pub fn hex_dump(bytes: &[u8]) -> (r: String)
    ensures
        r@ == dump_from(bytes@, 0),
{
    let mut out = String::new();
    let mut at: usize = 0;
    let n = bytes.len();
    assert(out@ + dump_from(bytes@, 0) =~= dump_from(bytes@, 0));
    while at < n
        invariant
            at <= n,
            n == bytes@.len(),
            dump_from(bytes@, 0) == out@ + dump_from(bytes@, at as int),
        decreases n - at,
    {
        let ghost before = out@;
        let ghost at0 = at as int;
        let end = if n - at < 16 {
            n
        } else {
            at + 16
        };
        push_hex(&mut out, at as u64, 8);
        out.append(": ");
        let ghost head = out@;
        assert(bytes@.subrange(at as int, at as int) =~= Seq::empty());
        assert(head + Seq::<char>::empty() =~= head);
        for i in at..end
            invariant
                at <= end <= n,
                n == bytes@.len(),
                out@ == head + spaced_hex(bytes@.subrange(at as int, i as int)),
        {
            let ghost done = bytes@.subrange(at as int, i as int);
            assert(bytes@.subrange(at as int, i + 1).drop_last() =~= done);
            push_hex_byte(&mut out, bytes[i]);
            out.append(" ");
            assert(out@ =~= head + (spaced_hex(done) + hex_byte(bytes@[i as int]) + " "@));
        }
        out.append("\n");
        proof {
            let line = hex_padded(at0 as nat, 8) + ": "@ + spaced_hex(
                bytes@.subrange(at0, end as int),
            ) + "\n"@;
            assert(out@ =~= before + line);
            let rest = dump_from(bytes@, at0 + 16);
            assert(dump_from(bytes@, at0) == line + rest);
            assert(before + (line + rest) =~= (before + line) + rest);
            if n - at0 < 16 {
                assert(dump_from(bytes@, end as int) =~= Seq::empty());
                assert(rest =~= Seq::empty());
            }
        }
        at = end;
    }
    assert(out@ + Seq::<char>::empty() =~= out@);
    out
}

} // verus!
