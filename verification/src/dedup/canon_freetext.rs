//! Free text token classifier and canonicaliser.
//!
//! A body is split at white space, each token is classified by scanning its
//! bytes, and tokens that vary between otherwise equal messages are replaced
//! by placeholders. The canonical form is the resulting tokens joined by
//! single spaces.
use vstd::prelude::*;
use vstd::utf8::{encode_utf8, is_ascii_chars_encode_utf8};

use crate::bridge::patterns::{regex_found, regex_is_match};
use crate::text::bytes::{
    all_digits, all_hex, byte_count, decimal_value, has_alpha, has_byte, has_digit, has_hex_letter,
    only_digits, only_hex, some_alpha, some_digit, some_hex_letter,
};
use crate::text::chars::{
    byte_is_digit, byte_is_hex, char_is_ascii_digit, char_is_ascii_hex, char_is_ascii_hex_letter,
    char_is_ascii_letter, is_ascii_digit, is_ascii_hex, is_ascii_hex_letter, is_ascii_letter,
    is_digit, is_hex,
};
use crate::text::seqs::{
    count_of, equals, join_strings, joined, lemma_prefix_len, prefix_len, split_bytes, split_on,
    split_where, trim_end_where, words, words_of,
};
use crate::text::strings::{chars_of, push_char, string_between, texts};

verus! {

/// Result of classifying a single token.
#[derive(Debug, PartialEq, Eq)]
pub enum TokenClass {
    /// Keep the token verbatim.
    Preserve,
    /// Replace the token with a placeholder.
    Replace(&'static str),
    /// The token is a mixture; this is its canonical spelling.
    Compound(String),
}

/// What a [`TokenClass`] says, over mathematical strings.
pub enum TokenVerdict {
    Preserve,
    Replace(Seq<char>),
    Compound(Seq<char>),
}

impl View for TokenClass {
    type V = TokenVerdict;

    open spec fn view(&self) -> TokenVerdict {
        match *self {
            TokenClass::Preserve => TokenVerdict::Preserve,
            TokenClass::Replace(s) => TokenVerdict::Replace(s@),
            TokenClass::Compound(s) => TokenVerdict::Compound(s@),
        }
    }
}

/// The pattern of an ISO 8601 timestamp at the start of a token.
pub const ISO8601_START: &'static str = "^\\d{4}-\\d{2}-\\d{2}[T ]\\d{2}:\\d{2}:\\d{2}";

/// The part of a text that such a timestamp takes up: nineteen characters.
pub open spec fn timestamp_part(text: Seq<char>) -> Seq<char> {
    if text.len() <= 19 {
        text
    } else {
        text.take(19)
    }
}

/// Whether a text starts with an ISO 8601 timestamp.
pub open spec fn starts_with_iso8601(text: Seq<char>) -> bool {
    regex_found(ISO8601_START@, timestamp_part(text)) == Some(true)
}

/// 8-4-4-4-12 hexadecimal digits with dashes.
pub open spec fn uuid_form(b: Seq<u8>) -> bool {
    b.len() == 36 && forall|i: int|
        0 <= i < 36 ==> if i == 8 || i == 13 || i == 18 || i == 23 {
            #[trigger] b[i] == 0x2d
        } else {
            is_hex(b[i])
        }
}

/// Seven or more groups of at most four hexadecimal digits, joined by colons.
pub open spec fn ipv6_form(b: Seq<u8>) -> bool {
    let groups = split_on(b, 0x3au8);
    groups.len() >= 7 && forall|i: int|
        0 <= i < groups.len() ==> (#[trigger] groups[i]).len() <= 4 && all_hex(groups[i])
}

/// Six groups of two hexadecimal digits, joined by colons.
pub open spec fn mac_form(b: Seq<u8>) -> bool {
    b.len() == 17 && forall|i: int|
        0 <= i < 17 ==> if i % 3 == 2 {
            #[trigger] b[i] == 0x3a
        } else {
            is_hex(b[i])
        }
}

/// One group of a dotted IPv4 address: a number of one to three digits, at most 255.
pub open spec fn ipv4_group(g: Seq<u8>) -> bool {
    1 <= g.len() <= 3 && all_digits(g) && decimal_value(g) <= 255
}

/// Four such groups joined by dots.
pub open spec fn ipv4_form(b: Seq<u8>) -> bool {
    let groups = split_on(b, 0x2eu8);
    groups.len() == 4 && forall|i: int| 0 <= i < 4 ==> ipv4_group(#[trigger] groups[i])
}

/// `0x` or `0X` followed by hexadecimal digits.
pub open spec fn prefixed_hex_form(b: Seq<u8>) -> bool {
    b.len() > 2 && b[0] == 0x30 && (b[1] == 0x78 || b[1] == 0x58) && all_hex(b.skip(2))
}

/// Eight or more hexadecimal digits, a letter among them.
pub open spec fn bare_hex_form(b: Seq<u8>) -> bool {
    b.len() >= 8 && all_hex(b) && some_hex_letter(b)
}

/// A leading slash and at least one more.
pub open spec fn path_form(b: Seq<u8>) -> bool {
    b.len() > 0 && b[0] == 0x2f && count_of(b, 0x2fu8) >= 2
}

/// The same quotation mark at both ends.
pub open spec fn quoted_form(b: Seq<u8>) -> bool {
    b.len() >= 2 && b.first() == b.last() && (b.first() == 0x22 || b.first() == 0x27)
}

/// Two colons in a row.
pub open spec fn scope_operator_at(b: Seq<u8>, i: int) -> bool {
    0 <= i && i + 1 < b.len() && b[i] == 0x3a && b[i + 1] == 0x3a
}

/// Digits, one dot, digits.
pub open spec fn float_form(b: Seq<u8>) -> bool {
    exists|p: int| #[trigger] dot_between_digits(b, p)
}

/// Every byte but the dot at `p` is a digit, and there are digits on both sides.
pub open spec fn dot_between_digits(b: Seq<u8>, p: int) -> bool {
    0 < p < b.len() - 1 && b[p] == 0x2e && forall|i: int|
        0 <= i < b.len() && i != p ==> is_digit(#[trigger] b[i])
}

pub open spec fn letter_test() -> spec_fn(char) -> bool {
    |c: char| is_ascii_letter(c)
}

pub open spec fn hex_test() -> spec_fn(char) -> bool {
    |c: char| is_ascii_hex(c)
}

/// What stands for a run of hexadecimal digits that starts with a decimal one.
pub open spec fn canonical_run(run: Seq<char>) -> Seq<char> {
    if run.len() >= 8 && exists|i: int|
        0 <= i < run.len() && is_ascii_hex_letter(#[trigger] run[i]) {
        "_HEX_"@
    } else if run.len() >= 3 {
        "_N_"@
    } else {
        run
    }
}

/// The canonical spelling of a token that mixes letters and digits: runs of
/// letters stay, runs that start with a digit are shortened, every other
/// character stays. Letters and digits are those of ASCII.
pub open spec fn lexed(s: Seq<char>) -> Seq<char>
    decreases s.len(),
{
    if s.len() == 0 {
        Seq::empty()
    } else if is_ascii_letter(s[0]) {
        let n = prefix_len(s, letter_test()) as int;
        if 0 < n <= s.len() {
            s.take(n) + lexed(s.skip(n))
        } else {
            Seq::empty()
        }
    } else if is_ascii_digit(s[0]) {
        let n = prefix_len(s, hex_test()) as int;
        if 0 < n <= s.len() {
            canonical_run(s.take(n)) + lexed(s.skip(n))
        } else {
            Seq::empty()
        }
    } else {
        seq![s[0]] + lexed(s.skip(1))
    }
}

/// A character that a timestamp can have: a digit, of ASCII or of another
/// script, or what stands between its numbers.
pub open spec fn timestamp_char(c: char) -> bool {
    is_ascii_digit(c) || c > '\u{7f}' || c == '-' || c == 'T' || c == ' ' || c == ':'
}

/// A text starts with characters that a timestamp can have, the fifth of them
/// a dash.
pub open spec fn timestamp_framed(s: Seq<char>) -> bool {
    s.len() >= 19 && s[4] == '-' && forall|i: int| 0 <= i < 19 ==> timestamp_char(#[trigger] s[i])
}

/// The class of a token; `iso8601` says whether the token starts with an
/// ISO 8601 timestamp. The first rule that applies wins.
pub open spec fn token_class(token: Seq<char>, iso8601: bool) -> TokenVerdict {
    let b = encode_utf8(token);
    let alpha = some_alpha(b);
    let digit = some_digit(b);
    let colon = b.contains(0x3a);
    let dot = b.contains(0x2e);
    let dash = b.contains(0x2d);
    if b.len() == 0 {
        TokenVerdict::Preserve
    } else if uuid_form(b) {
        TokenVerdict::Replace("_UUID_"@)
    } else if !dot && ipv6_form(b) {
        TokenVerdict::Replace("_IPV6_"@)
    } else if mac_form(b) {
        TokenVerdict::Replace("_MAC_"@)
    } else if ipv4_form(b) {
        TokenVerdict::Replace("_IPV4_"@)
    } else if prefixed_hex_form(b) {
        TokenVerdict::Replace("_HEX_"@)
    } else if digit && dash && b.len() >= 19 && timestamp_framed(token) && iso8601 {
        TokenVerdict::Replace("_TS_"@)
    } else if path_form(b) {
        TokenVerdict::Replace("_PATH_"@)
    } else if bare_hex_form(b) {
        TokenVerdict::Replace("_HEX_"@)
    } else if quoted_form(b) {
        if b.len() - 2 > 16 {
            TokenVerdict::Replace("\"_\""@)
        } else {
            TokenVerdict::Preserve
        }
    } else if !digit && alpha && !colon && !dot {
        TokenVerdict::Preserve
    } else if exists|i: int| #[trigger] scope_operator_at(b, i) {
        TokenVerdict::Preserve
    } else if alpha && digit {
        TokenVerdict::Compound(lexed(token))
    } else if all_digits(b) {
        if b.len() <= 2 {
            TokenVerdict::Preserve
        } else {
            TokenVerdict::Replace("_N_"@)
        }
    } else if float_form(b) {
        TokenVerdict::Replace("_F_"@)
    } else {
        TokenVerdict::Preserve
    }
}

/// Whether `b` is a UUID.
pub fn is_uuid(b: &[u8]) -> (r: bool)
    ensures
        r == uuid_form(b@),
{
    if b.len() != 36 {
        return false;
    }
    for i in 0..36usize
        invariant
            b@.len() == 36,
            forall|j: int|
                0 <= j < i ==> if j == 8 || j == 13 || j == 18 || j == 23 {
                    #[trigger] b@[j] == 0x2d
                } else {
                    is_hex(b@[j])
                },
    {
        let c: u8 = b[i];
        if i == 8 || i == 13 || i == 18 || i == 23 {
            if c != 0x2d {
                return false;
            }
        } else if !byte_is_hex(c) {
            return false;
        }
    }
    true
}

/// Whether `b` is an IPv6 address of seven or more groups.
pub fn is_ipv6(b: &[u8]) -> (r: bool)
    ensures
        r == ipv6_form(b@),
{
    let groups = split_bytes(b, 0x3a);
    let ghost model = split_on(b@, 0x3au8);
    assert(groups@.len() == model.len());
    if groups.len() < 7 {
        return false;
    }
    for i in 0..groups.len()
        invariant
            model == split_on(b@, 0x3au8),
            groups@.map_values(|p: Vec<u8>| p@) == model,
            forall|j: int| 0 <= j < i ==> (#[trigger] model[j]).len() <= 4 && all_hex(model[j]),
    {
        assert(model[i as int] == groups@[i as int]@);
        if groups[i].len() > 4 || !only_hex(&groups[i]) {
            return false;
        }
    }
    true
}

/// Whether `b` is a MAC address.
pub fn is_mac(b: &[u8]) -> (r: bool)
    ensures
        r == mac_form(b@),
{
    if b.len() != 17 {
        return false;
    }
    for i in 0..17usize
        invariant
            b@.len() == 17,
            forall|j: int|
                0 <= j < i ==> if j % 3 == 2 {
                    #[trigger] b@[j] == 0x3a
                } else {
                    is_hex(b@[j])
                },
    {
        let c: u8 = b[i];
        if i % 3 == 2 {
            if c != 0x3a {
                return false;
            }
        } else if !byte_is_hex(c) {
            return false;
        }
    }
    true
}

/// Whether `g` can stand between the dots of an IPv4 address.
fn is_ipv4_group(g: &Vec<u8>) -> (r: bool)
    ensures
        r == ipv4_group(g@),
{
    if g.len() == 0 || g.len() > 3 || !only_digits(g) {
        return false;
    }
    let mut value: u32 = 0;
    assert(g@.take(0) =~= Seq::empty());
    for i in 0..g.len()
        invariant
            all_digits(g@),
            g@.len() <= 3,
            value == decimal_value(g@.take(i as int)),
            i == 0 ==> value == 0,
            i == 1 ==> value <= 9,
            i == 2 ==> value <= 99,
            i == 3 ==> value <= 999,
    {
        assert(g@.take(i + 1).drop_last() =~= g@.take(i as int));
        assert(is_digit(g@[i as int]));
        value = value * 10 + (g[i] - 0x30) as u32;
    }
    assert(g@.take(g@.len() as int) =~= g@);
    value <= 255
}

/// Whether `b` is a dotted IPv4 address.
pub fn is_ipv4(b: &[u8]) -> (r: bool)
    ensures
        r == ipv4_form(b@),
{
    let groups = split_bytes(b, 0x2e);
    let ghost model = split_on(b@, 0x2eu8);
    assert(groups@.len() == model.len());
    if groups.len() != 4 {
        return false;
    }
    for i in 0..groups.len()
        invariant
            model == split_on(b@, 0x2eu8),
            groups@.map_values(|p: Vec<u8>| p@) == model,
            groups@.len() == 4,
            forall|j: int| 0 <= j < i ==> ipv4_group(#[trigger] model[j]),
    {
        assert(model[i as int] == groups@[i as int]@);
        if !is_ipv4_group(&groups[i]) {
            return false;
        }
    }
    true
}

/// Whether `b` consists of digits, one dot and digits.
pub fn is_float(b: &[u8]) -> (r: bool)
    ensures
        r == float_form(b@),
{
    let mut dot: Option<usize> = None;
    for i in 0..b.len()
        invariant
            match dot {
                Some(p) => p < i && b@[p as int] == 0x2e && forall|j: int|
                    0 <= j < i && j != p ==> is_digit(#[trigger] b@[j]),
                None => forall|j: int| 0 <= j < i ==> is_digit(#[trigger] b@[j]),
            },
    {
        let c: u8 = b[i];
        if c == 0x2e {
            if let Some(p) = dot {
                assert forall|q: int| !#[trigger] dot_between_digits(b@, q) by {
                    assert(!is_digit(b@[p as int]) && !is_digit(b@[i as int]));
                }
                return false;
            }
            dot = Some(i);
        } else if !byte_is_digit(c) {
            assert forall|q: int| !#[trigger] dot_between_digits(b@, q) by {
                assert(!is_digit(b@[i as int]) && b@[i as int] != 0x2e);
            }
            return false;
        }
    }
    match dot {
        Some(p) => {
            assert forall|q: int| #[trigger] dot_between_digits(b@, q) implies q == p by {
                assert(!is_digit(b@[p as int]));
            }
            let r = p > 0 && p < b.len() - 1;
            assert(r == dot_between_digits(b@, p as int));
            r
        },
        None => {
            assert forall|q: int| !#[trigger] dot_between_digits(b@, q) by {
                if dot_between_digits(b@, q) {
                    assert(is_digit(b@[q]));
                }
            }
            false
        },
    }
}

/// Whether `b` starts and ends with the same quotation mark.
pub fn is_quoted(b: &[u8]) -> (r: bool)
    ensures
        r == quoted_form(b@),
{
    b.len() >= 2 && b[0] == b[b.len() - 1] && (b[0] == 0x22 || b[0] == 0x27)
}

/// Whether `b` holds two colons in a row.
fn has_scope_operator(b: &[u8]) -> (r: bool)
    ensures
        r == exists|i: int| #[trigger] scope_operator_at(b@, i),
{
    let n = b.len();
    if n < 2 {
        return false;
    }
    for i in 0..n - 1
        invariant
            n == b@.len(),
            n >= 2,
            forall|j: int| 0 <= j < i ==> !#[trigger] scope_operator_at(b@, j),
    {
        if b[i] == 0x3a && b[i + 1] == 0x3a {
            assert(scope_operator_at(b@, i as int));
            return true;
        }
    }
    false
}

/// Whether a text starts with characters that a timestamp can have.
fn is_timestamp_framed(token: &str) -> (r: bool)
    ensures
        r == timestamp_framed(token@),
{
    let s = chars_of(token);
    if s.len() < 19 || s[4] != '-' {
        return false;
    }
    for i in 0..19usize
        invariant
            s@ == token@,
            s@.len() >= 19,
            forall|j: int| 0 <= j < i ==> timestamp_char(#[trigger] s@[j]),
    {
        let c = s[i];
        if !(char_is_ascii_digit(c) || c > '\u{7f}' || c == '-' || c == 'T' || c == ' ' || c == ':') {
            return false;
        }
    }
    true
}

/// The end of the run of letters that starts at `from`.
fn letter_run_end(s: &[char], from: usize) -> (end: usize)
    requires
        from <= s@.len(),
    ensures
        from <= end <= s@.len(),
        end - from == prefix_len(s@.skip(from as int), letter_test()),
{
    let mut i: usize = from;
    while i < s.len() && char_is_ascii_letter(s[i])
        invariant
            from <= i <= s@.len(),
            forall|j: int| from <= j < i ==> is_ascii_letter(#[trigger] s@[j]),
        decreases s@.len() - i,
    {
        i = i + 1;
    }
    proof {
        lemma_prefix_len(s@.skip(from as int), letter_test(), i - from);
    }
    i
}

/// The end of the run of hexadecimal digits that starts at `from`.
fn hex_run_end(s: &[char], from: usize) -> (end: usize)
    requires
        from <= s@.len(),
    ensures
        from <= end <= s@.len(),
        end - from == prefix_len(s@.skip(from as int), hex_test()),
{
    let mut i: usize = from;
    while i < s.len() && char_is_ascii_hex(s[i])
        invariant
            from <= i <= s@.len(),
            forall|j: int| from <= j < i ==> is_ascii_hex(#[trigger] s@[j]),
        decreases s@.len() - i,
    {
        i = i + 1;
    }
    proof {
        lemma_prefix_len(s@.skip(from as int), hex_test(), i - from);
    }
    i
}

/// Appends what stands for the run of hexadecimal digits `s[from..to]`.
fn push_run(out: &mut String, s: &[char], from: usize, to: usize)
    requires
        from <= to <= s@.len(),
    ensures
        final(out)@ == old(out)@ + canonical_run(s@.subrange(from as int, to as int)),
{
    let ghost run = s@.subrange(from as int, to as int);
    let mut letter = false;
    for i in from..to
        invariant
            from <= to <= s@.len(),
            run == s@.subrange(from as int, to as int),
            letter == exists|j: int| 0 <= j < i - from && is_ascii_hex_letter(#[trigger] run[j]),
    {
        assert(run[i - from] == s@[i as int]);
        if char_is_ascii_hex_letter(s[i]) {
            letter = true;
        }
    }
    if to - from >= 8 && letter {
        out.append("_HEX_");
    } else if to - from >= 3 {
        out.append("_N_");
    } else {
        out.append(string_between(s, from, to).as_str());
    }
}

fn spell_compound(s: &[char]) -> (r: String)
    ensures
        r@ == lexed(s@),
{
    let mut out = String::new();
    let n = s.len();
    let mut i: usize = 0;
    assert(s@.skip(0) =~= s@);
    assert(out@ + lexed(s@.skip(0)) =~= lexed(s@));
    while i < n
        invariant
            n == s@.len(),
            i <= n,
            out@ + lexed(s@.skip(i as int)) == lexed(s@),
        decreases n - i,
    {
        let c: char = s[i];
        let ghost rest = s@.skip(i as int);
        let ghost before = out@;
        if char_is_ascii_letter(c) {
            let end = letter_run_end(s, i);
            proof {
                reveal_with_fuel(prefix_len, 2);
                assert(rest.take(end - i) =~= s@.subrange(i as int, end as int));
                assert(rest.skip(end - i) =~= s@.skip(end as int));
            }
            out.append(string_between(s, i, end).as_str());
            assert(before + (rest.take(end - i) + lexed(s@.skip(end as int))) =~= out@ + lexed(
                s@.skip(end as int),
            ));
            i = end;
        } else if char_is_ascii_digit(c) {
            let end = hex_run_end(s, i);
            proof {
                reveal_with_fuel(prefix_len, 2);
                assert(rest.take(end - i) =~= s@.subrange(i as int, end as int));
                assert(rest.skip(end - i) =~= s@.skip(end as int));
            }
            push_run(&mut out, s, i, end);
            assert(before + (canonical_run(rest.take(end - i)) + lexed(s@.skip(end as int)))
                =~= out@ + lexed(s@.skip(end as int)));
            i = end;
        } else {
            assert(rest.skip(1) =~= s@.skip(i + 1));
            push_char(&mut out, c);
            assert(before + (seq![c] + lexed(s@.skip(i + 1))) =~= out@ + lexed(s@.skip(i + 1)));
            i = i + 1;
        }
    }
    assert(s@.skip(n as int) =~= Seq::empty());
    assert(out@ =~= lexed(s@));
    out
}

/// Walks through a token that mixes letters and digits, character by
/// character, and spells it in its canonical form.
pub fn compound_mini_lexer(token: &str) -> (r: TokenClass)
    ensures
        r@ == TokenVerdict::Compound(lexed(token@)),
{
    TokenClass::Compound(spell_compound(&chars_of(token)))
}

/// Classifies a token, given whether it starts with an ISO 8601 timestamp.
pub fn classify_token_with(token: &str, iso8601: bool) -> (r: TokenClass)
    ensures
        r@ == token_class(token@, iso8601),
{
    let b: &[u8] = token.as_bytes();
    let len = b.len();
    if len == 0 {
        return TokenClass::Preserve;
    }
    let alpha = has_alpha(b);
    let digit = has_digit(b);
    let colon = has_byte(b, 0x3a);
    let dot = has_byte(b, 0x2e);
    let dash = has_byte(b, 0x2d);
    if is_uuid(b) {
        return TokenClass::Replace("_UUID_");
    }
    if !dot && is_ipv6(b) {
        return TokenClass::Replace("_IPV6_");
    }
    if is_mac(b) {
        return TokenClass::Replace("_MAC_");
    }
    if is_ipv4(b) {
        return TokenClass::Replace("_IPV4_");
    }
    if len > 2 && b[0] == 0x30 && (b[1] == 0x78 || b[1] == 0x58) {
        let digits = vstd::slice::slice_subrange(b, 2, len);
        if only_hex(digits) {
            return TokenClass::Replace("_HEX_");
        }
    }
    assert(!prefixed_hex_form(b@));
    if digit && dash && len >= 19 && is_timestamp_framed(token) && iso8601 {
        return TokenClass::Replace("_TS_");
    }
    if b[0] == 0x2f && byte_count(b, 0x2f) >= 2 {
        return TokenClass::Replace("_PATH_");
    }
    if len >= 8 && only_hex(b) && has_hex_letter(b) {
        return TokenClass::Replace("_HEX_");
    }
    if is_quoted(b) {
        return if len - 2 > 16 {
            TokenClass::Replace("\"_\"")
        } else {
            TokenClass::Preserve
        };
    }
    if !digit && alpha && !colon && !dot {
        return TokenClass::Preserve;
    }
    if has_scope_operator(b) {
        return TokenClass::Preserve;
    }
    if alpha && digit {
        return compound_mini_lexer(token);
    }
    if only_digits(b) {
        return if len <= 2 {
            TokenClass::Preserve
        } else {
            TokenClass::Replace("_N_")
        };
    }
    if is_float(b) {
        return TokenClass::Replace("_F_");
    }
    TokenClass::Preserve
}

/// Classifies a single token.
pub fn classify_token(token: &str) -> (r: TokenClass)
    ensures
        r@ == token_class(token@, starts_with_iso8601(token@)),
{
    let iso8601 = is_iso8601(token);
    classify_token_with(token, iso8601)
}

/// Whether `token` starts with an ISO 8601 timestamp.
pub fn is_iso8601(token: &str) -> (r: bool)
    ensures
        r == starts_with_iso8601(token@),
{
    let chars = chars_of(token);
    let end = if chars.len() <= 19 {
        chars.len()
    } else {
        19
    };
    let part = string_between(&chars, 0, end);
    assert(part@ =~= timestamp_part(token@));
    match regex_is_match(ISO8601_START, part.as_str()) {
        Some(found) => found,
        None => false,
    }
}

/// Punctuation that may follow a token without being part of it.
pub open spec fn trailing_punct() -> spec_fn(char) -> bool {
    |c: char| c == ',' || c == ';' || c == ':' || c == ')' || c == ']' || c == '}'
}

/// A token without the punctuation that follows it.
pub open spec fn token_core(token: Seq<char>) -> Seq<char> {
    trim_end_where(token, trailing_punct())
}

/// The text that a verdict on `token` puts in its place.
pub open spec fn verdict_text(v: TokenVerdict, token: Seq<char>) -> Seq<char> {
    match v {
        TokenVerdict::Preserve => token,
        TokenVerdict::Replace(s) => s,
        TokenVerdict::Compound(s) => s,
    }
}

/// The canonical text of a token with its trailing punctuation.
pub open spec fn rendered_token(token: Seq<char>, iso8601: bool) -> Seq<char> {
    let core = token_core(token);
    verdict_text(token_class(core, iso8601), core) + token.skip(core.len() as int)
}

/// The canonical form of a free-text body.
pub open spec fn freetext_canon(body: Seq<char>) -> Seq<char> {
    joined(
        words(body).map_values(
            |w: Seq<char>| rendered_token(w, starts_with_iso8601(token_core(w))),
        ),
        " "@,
    )
}

/// The text that takes the place of `token` under the class `class`.
pub fn class_text(class: TokenClass, token: &str) -> (r: String)
    ensures
        r@ == verdict_text(class@, token@),
{
    match class {
        TokenClass::Preserve => token.to_owned(),
        TokenClass::Replace(s) => s.to_owned(),
        TokenClass::Compound(s) => s,
    }
}

/// Where the trailing punctuation of a token begins.
fn core_len(token: &[char]) -> (n: usize)
    ensures
        n <= token@.len(),
        token@.take(n as int) == token_core(token@),
{
    let mut n: usize = token.len();
    assert(token@.take(n as int) =~= token@);
    while n > 0 && (token[n - 1] == ',' || token[n - 1] == ';' || token[n - 1] == ':' || token[n
        - 1] == ')' || token[n - 1] == ']' || token[n - 1] == '}')
        invariant
            n <= token@.len(),
            token_core(token@.take(n as int)) == token_core(token@),
        decreases n,
    {
        assert(token@.take(n as int).drop_last() =~= token@.take(n - 1));
        n = n - 1;
    }
    n
}

/// A token without its trailing punctuation, and that punctuation.
pub fn split_trailing_punct(token: &str) -> (r: (String, String))
    ensures
        r.0@ == token_core(token@),
        r.0@ + r.1@ == token@,
{
    let chars = chars_of(token);
    let n = core_len(&chars);
    let core = string_between(&chars, 0, n);
    let rest = string_between(&chars, n, chars.len());
    assert(core@ =~= token@.take(n as int));
    assert(core@ + rest@ =~= token@);
    (core, rest)
}

/// The canonical text of a token, given whether the token without its
/// trailing punctuation starts with an ISO 8601 timestamp.
pub fn render_token_with(token: &str, iso8601: bool) -> (r: String)
    ensures
        r@ == rendered_token(token@, iso8601),
{
    let (core, suffix) = split_trailing_punct(token);
    let class = classify_token_with(core.as_str(), iso8601);
    let mut r = class_text(class, core.as_str());
    r.append(suffix.as_str());
    assert(token@.skip(core@.len() as int) =~= suffix@);
    r
}

/// The canonical text of a token.
pub fn render_token(token: &str) -> (r: String)
    ensures
        r@ == rendered_token(token@, starts_with_iso8601(token_core(token@))),
{
    let (core, _suffix) = split_trailing_punct(token);
    let iso8601 = is_iso8601(core.as_str());
    render_token_with(token, iso8601)
}

/// Canonicalises a free-text body.
pub fn canonicalise_freetext(body: &str) -> (r: String)
    ensures
        r@ == freetext_canon(body@),
{
    let chars = chars_of(body);
    let tokens = words_of(&chars);
    let ghost render = |w: Seq<char>| rendered_token(w, starts_with_iso8601(token_core(w)));
    let mut rendered: Vec<String> = Vec::new();
    for i in 0..tokens.len()
        invariant
            texts(tokens@) == words(body@),
            render == (|w: Seq<char>| rendered_token(w, starts_with_iso8601(token_core(w)))),
            texts(rendered@) == words(body@).take(i as int).map_values(render),
    {
        assert(words(body@)[i as int] == tokens@[i as int]@);
        let ghost before = texts(rendered@);
        rendered.push(render_token(tokens[i].as_str()));
        assert(texts(rendered@) =~= before.push(render(tokens@[i as int]@)));
        assert(texts(rendered@) =~= words(body@).take(i + 1).map_values(render));
    }
    assert(words(body@).take(tokens@.len() as int) =~= words(body@));
    join_strings(&rendered, " ")
}

/// Bodies with the same words have the same canonical form, however the
/// words are spaced.
pub proof fn law_spacing_is_ignored(a: Seq<char>, b: Seq<char>)
    requires
        words(a) == words(b),
    ensures
        freetext_canon(a) == freetext_canon(b),
{
}

/// A separator that does not occur leaves the sequence in one piece.
pub proof fn lemma_split_without_separator<A>(s: Seq<A>, sep: A)
    requires
        !s.contains(sep),
    ensures
        split_on(s, sep) == seq![s],
    decreases s.len(),
{
    if s.len() > 0 {
        assert forall|x: A| s.drop_last().contains(x) implies s.contains(x) by {
            let i = choose|i: int| 0 <= i < s.drop_last().len() && s.drop_last()[i] == x;
            assert(s[i] == x);
        }
        lemma_split_without_separator(s.drop_last(), sep);
        assert(s.contains(s.last()));
        assert(s.drop_last().push(s.last()) =~= s);
        let before = split_where(s.drop_last(), equals(sep));
        assert(before == seq![s.drop_last()]);
        assert(before.drop_last().push(before.last().push(s.last())) =~= seq![s]);
        assert(split_on(s, sep) =~= seq![s]);
    } else {
        assert(s =~= Seq::empty());
        assert(split_on(s, sep) =~= seq![s]);
    }
}

/// Numbers of three or more digits are told apart by nothing: whatever their
/// digits are, the same placeholder takes their place.
pub proof fn law_long_numbers_look_alike(token: Seq<char>, iso8601: bool)
    requires
        token.len() >= 3,
        forall|i: int| 0 <= i < token.len() ==> is_ascii_digit(#[trigger] token[i]),
    ensures
        token_class(token, iso8601) == TokenVerdict::Replace("_N_"@),
{
    let b = encode_utf8(token);
    is_ascii_chars_encode_utf8(token);
    assert forall|i: int| 0 <= i < b.len() implies is_digit(#[trigger] b[i]) by {
        assert(is_ascii_digit(token[i]));
    }
    assert(is_digit(b[0]) && is_digit(b[1]) && is_digit(b[2]));
    assert(is_digit(b.last()));
    assert forall|x: u8| b.contains(x) implies is_digit(x) by {
        let i = choose|i: int| 0 <= i < b.len() && b[i] == x;
        assert(is_digit(b[i]));
    }
    lemma_split_without_separator(b, 0x3au8);
    lemma_split_without_separator(b, 0x2eu8);
    assert(!uuid_form(b)) by {
        if b.len() == 36 {
            assert(is_digit(b[8]));
        }
    }
    assert(!mac_form(b)) by {
        assert(b[2] != 0x3a);
    }
}

} // verus!
