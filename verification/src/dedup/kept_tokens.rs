//! Which tokens of free text keep their spelling, and which look alike.
use vstd::prelude::*;
use vstd::utf8::{encode_utf8, is_ascii_chars, is_ascii_chars_encode_utf8};

use crate::dedup::canon_freetext::{
    dot_between_digits, hex_test, ipv4_form, ipv6_form, lemma_split_without_separator, letter_test,
    lexed, mac_form, prefixed_hex_form, rendered_token, scope_operator_at, timestamp_char,
    timestamp_framed, token_core, trailing_punct, uuid_form,
};
use crate::dedup::canon_kv::kv_token;
use crate::dedup::kept_values::is_uuid_text;
use crate::dedup::second_pass::lemma_pieces_cover;
use crate::text::bytes::{all_digits, all_hex, some_digit};
use crate::text::chars::{is_alpha, is_ascii_hex_letter, is_digit, is_hex, is_hex_letter};
use crate::text::seqs::{
    count_of, count_where, equals, lemma_count_concat, lemma_count_none, lemma_first_index,
    lemma_prefix_len, split_on,
};

verus! {

/// Letters of ASCII.
pub open spec fn are_letters(s: Seq<char>) -> bool {
    forall|i: int|
        0 <= i < s.len() ==> 'a' <= #[trigger] s[i] <= 'z' || 'A' <= s[i] <= 'Z'
}

/// Digits of ASCII.
pub open spec fn are_digits(s: Seq<char>) -> bool {
    forall|i: int| 0 <= i < s.len() ==> '0' <= #[trigger] s[i] <= '9'
}

/// Hexadecimal digits.
pub open spec fn are_hex_digits(s: Seq<char>) -> bool {
    forall|i: int|
        0 <= i < s.len() ==> '0' <= #[trigger] s[i] <= '9' || 'a' <= s[i] <= 'f' || 'A' <= s[i]
            <= 'F'
}

/// Characters of ASCII.
pub open spec fn are_ascii(s: Seq<char>) -> bool {
    forall|i: int| 0 <= i < s.len() ==> '\0' <= #[trigger] s[i] <= '\u{7f}'
}

/// No punctuation that is set aside at the end of a token.
pub open spec fn ends_plainly(s: Seq<char>) -> bool {
    s.len() > 0 && s.last() != ',' && s.last() != ';' && s.last() != ':' && s.last() != ')'
        && s.last() != ']' && s.last() != '}'
}

/// Punctuation that is set aside at the end of a token.
pub open spec fn is_punctuation(s: Seq<char>) -> bool {
    forall|i: int|
        0 <= i < s.len() ==> (#[trigger] s[i] == ',' || s[i] == ';' || s[i] == ':' || s[i] == ')'
            || s[i] == ']' || s[i] == '}')
}

pub proof fn lemma_bytes(s: Seq<char>)
    requires
        are_ascii(s),
    ensures
        encode_utf8(s).len() == s.len(),
        forall|i: int|
            #![trigger s[i]]
            #![trigger encode_utf8(s)[i]]
            0 <= i < s.len() ==> encode_utf8(s)[i] == s[i] as u8 && s[i] <= '\u{7f}',
{
    assert(is_ascii_chars(s)) by {
        assert forall|i: int| 0 <= i < s.len() implies '\0' <= #[trigger] s[i] <= '\u{7f}' by {}
    }
    is_ascii_chars_encode_utf8(s);
}

pub proof fn lemma_core_is(core: Seq<char>, rest: Seq<char>)
    requires
        ends_plainly(core),
        is_punctuation(rest),
    ensures
        token_core(core + rest) == core,
        (core + rest).skip(core.len() as int) == rest,
    decreases rest.len(),
{
    assert((core + rest).skip(core.len() as int) =~= rest);
    if rest.len() > 0 {
        assert((core + rest).drop_last() =~= core + rest.drop_last());
        assert(is_punctuation(rest.drop_last())) by {
            assert forall|i: int| 0 <= i < rest.drop_last().len() implies (
            #[trigger] rest.drop_last()[i] == ',' || rest.drop_last()[i] == ';'
                || rest.drop_last()[i] == ':' || rest.drop_last()[i] == ')'
                || rest.drop_last()[i] == ']' || rest.drop_last()[i] == '}') by {
                assert(rest[i] == rest.drop_last()[i]);
            }
        }
        lemma_core_is(core, rest.drop_last());
        assert(trailing_punct()(rest[rest.len() - 1]));
        assert((core + rest).last() == rest.last());
    } else {
        assert(core + rest =~= core);
    }
}

/// A comma, semicolon, colon or closing bracket behind a token stays where it
/// is, and the token is read without it.
pub proof fn law_punctuation_is_set_aside(core: Seq<char>, rest: Seq<char>, iso8601: bool)
    requires
        ends_plainly(core),
        is_punctuation(rest),
    ensures
        token_core(core + rest) == core,
        rendered_token(core + rest, iso8601) == rendered_token(core, iso8601) + rest,
{
    lemma_core_is(core, rest);
    lemma_core_is(core, Seq::empty());
    assert(core + Seq::<char>::empty() =~= core);
    assert(rendered_token(core + rest, iso8601) =~= rendered_token(core, iso8601) + rest);
}

pub proof fn lemma_no_address(b: Seq<u8>, i: int)
    requires
        0 <= i < b.len(),
    ensures
        !is_hex(b[i]) && b[i] != 0x3a ==> !ipv6_form(b) && !mac_form(b),
        !is_digit(b[i]) && b[i] != 0x2e ==> !ipv4_form(b),
        !is_hex(b[i]) && b[i] != 0x2d ==> !uuid_form(b),
{
    if !is_hex(b[i]) && b[i] != 0x3a && ipv6_form(b) {
        let p = |x: u8| is_hex(x);
        let groups = split_on(b, 0x3au8);
        assert forall|k: int, j: int| 0 <= k < groups.len() && 0 <= j < groups[k].len() implies p(
            #[trigger] groups[k][j],
        ) by {
            assert(all_hex(groups[k]));
        }
        lemma_pieces_cover(b, 0x3au8, p, i);
    }
    if !is_digit(b[i]) && b[i] != 0x2e && ipv4_form(b) {
        let p = |x: u8| is_digit(x);
        let groups = split_on(b, 0x2eu8);
        assert forall|k: int, j: int| 0 <= k < groups.len() && 0 <= j < groups[k].len() implies p(
            #[trigger] groups[k][j],
        ) by {
            assert(all_digits(groups[k]));
        }
        lemma_pieces_cover(b, 0x2eu8, p, i);
    }
}

pub proof fn lemma_split_count<A>(s: Seq<A>, sep: A)
    ensures
        split_on(s, sep).len() == count_of(s, sep) + 1,
    decreases s.len(),
{
    if s.len() > 0 {
        lemma_split_count(s.drop_last(), sep);
        lemma_count_concat(s.drop_last(), seq![s.last()], equals(sep));
        assert(s.drop_last() + seq![s.last()] =~= s);
        lemma_count_single(s.last(), equals(sep));
    }
}

/// A word of letters keeps its spelling, unless it is eight or more hexadecimal
/// digits.
pub proof fn law_words_of_letters_are_kept(token: Seq<char>, iso8601: bool)
    requires
        token.len() > 0,
        are_letters(token),
        token.len() < 8 || !are_hex_digits(token),
    ensures
        rendered_token(token, iso8601) == token,
{
    let b = encode_utf8(token);
    lemma_bytes(token);
    lemma_core_is(token, Seq::empty());
    assert(token + Seq::<char>::empty() =~= token);
    assert forall|i: int| 0 <= i < b.len() implies is_alpha(#[trigger] b[i]) by {
        assert('a' <= token[i] <= 'z' || 'A' <= token[i] <= 'Z');
    }
    assert(is_alpha(b[0]));
    assert(!some_digit(b));
    assert forall|x: u8| b.contains(x) implies is_alpha(x) by {
        let i = choose|i: int| 0 <= i < b.len() && b[i] == x;
        assert(is_alpha(b[i]));
    }
    lemma_no_address(b, 0);
    lemma_split_without_separator(b, 0x3au8);
    assert(!uuid_form(b)) by {
        if b.len() == 36 {
            assert(is_alpha(b[8]));
        }
    }
    assert(!mac_form(b)) by {
        if b.len() == 17 {
            assert(is_alpha(b[2]));
        }
    }
    if b.len() >= 8 {
        let i = choose|i: int|
            0 <= i < token.len() && !('0' <= #[trigger] token[i] <= '9' || 'a' <= token[i] <= 'f'
                || 'A' <= token[i] <= 'F');
        assert(!is_hex(b[i]));
    }
    assert(is_alpha(b.last()));
    assert(rendered_token(token, iso8601) =~= token);
}

/// A number of one or two digits keeps its spelling, so that those tell bodies
/// apart.
pub proof fn law_short_numbers_are_kept(token: Seq<char>, iso8601: bool)
    requires
        1 <= token.len() <= 2,
        are_digits(token),
    ensures
        rendered_token(token, iso8601) == token,
{
    let b = encode_utf8(token);
    lemma_bytes(token);
    lemma_core_is(token, Seq::empty());
    assert(token + Seq::<char>::empty() =~= token);
    assert forall|i: int| 0 <= i < b.len() implies is_digit(#[trigger] b[i]) by {
        assert('0' <= token[i] <= '9');
    }
    assert forall|x: u8| b.contains(x) implies is_digit(x) by {
        let i = choose|i: int| 0 <= i < b.len() && b[i] == x;
        assert(is_digit(b[i]));
    }
    lemma_split_without_separator(b, 0x3au8);
    lemma_split_without_separator(b, 0x2eu8);
    assert(is_digit(b[0]));
    assert(is_digit(b.last()));
    assert(rendered_token(token, iso8601) =~= token);
}

/// Numbers with a fraction look alike.
pub proof fn law_numbers_with_a_fraction_look_alike(a: Seq<char>, f: Seq<char>, iso8601: bool)
    requires
        a.len() > 0,
        f.len() > 0,
        are_digits(a),
        are_digits(f),
    ensures
        rendered_token(a + seq!['.'] + f, iso8601) == "_F_"@,
{
    let token = a + seq!['.'] + f;
    let b = encode_utf8(token);
    let p = a.len() as int;
    assert forall|i: int| 0 <= i < token.len() && i != p implies '0' <= #[trigger] token[i]
        <= '9' by {
        if i < p {
            assert('0' <= a[i] <= '9');
        } else {
            assert('0' <= f[i - p - 1] <= '9');
        }
    }
    assert(token[p] == '.');
    assert forall|i: int| 0 <= i < token.len() implies '\0' <= #[trigger] token[i]
        <= '\u{7f}' by {
        assert(i == p || '0' <= token[i] <= '9');
    }
    lemma_bytes(token);
    assert(ends_plainly(token)) by {
        assert('0' <= token[token.len() - 1] <= '9');
    }
    lemma_core_is(token, Seq::empty());
    assert(token + Seq::<char>::empty() =~= token);
    assert forall|i: int| 0 <= i < b.len() && i != p implies is_digit(#[trigger] b[i]) by {
        assert('0' <= token[i] <= '9');
    }
    assert(b[p] == 0x2e);
    assert(dot_between_digits(b, p));
    assert(!all_digits(b));
    assert forall|x: u8| b.contains(x) implies is_digit(x) || x == 0x2e by {
        let i = choose|i: int| 0 <= i < b.len() && b[i] == x;
    }
    assert(b.contains(0x2e)) by {
        assert(b[p] == 0x2e);
    }
    lemma_split_count(b, 0x2eu8);
    assert(count_of(b, 0x2eu8) == 1) by {
        lemma_one_dot(b, p);
    }
    lemma_no_address(b, p);
    assert(is_digit(b[0]));
    assert(!prefixed_hex_form(b));
    assert(is_digit(b.last()));
    assert(rendered_token(token, iso8601) =~= "_F_"@);
}

proof fn lemma_one_dot(b: Seq<u8>, p: int)
    requires
        0 <= p < b.len(),
        b[p] == 0x2e,
        forall|i: int| 0 <= i < b.len() && i != p ==> is_digit(#[trigger] b[i]),
    ensures
        count_of(b, 0x2eu8) == 1,
{
    let e = equals(0x2eu8);
    let front = b.take(p);
    let back = b.skip(p + 1);
    assert(front + (seq![b[p]] + back) =~= b);
    lemma_count_concat(front, seq![b[p]] + back, e);
    lemma_count_concat(seq![b[p]], back, e);
    lemma_count_none(front, e);
    lemma_count_none(back, e);
    lemma_count_single(b[p], e);
}

pub proof fn lemma_count_single<A>(x: A, p: spec_fn(A) -> bool)
    ensures
        count_where(seq![x], p) == if p(x) {
            1nat
        } else {
            0
        },
{
    let s = seq![x];
    assert(s.drop_last() =~= Seq::empty());
    assert(count_where(s.drop_last(), p) == 0);
    assert(s.last() == x);
}

/// UUIDs look alike.
pub proof fn law_uuid_tokens_look_alike(token: Seq<char>, iso8601: bool)
    requires
        is_uuid_text(token),
    ensures
        rendered_token(token, iso8601) == "_UUID_"@,
{
    let b = encode_utf8(token);
    assert forall|i: int| 0 <= i < token.len() implies '\0' <= #[trigger] token[i]
        <= '\u{7f}' by {}
    lemma_bytes(token);
    lemma_core_is(token, Seq::empty());
    assert(token + Seq::<char>::empty() =~= token);
    assert forall|i: int| 0 <= i < 36 implies if i == 8 || i == 13 || i == 18 || i == 23 {
        #[trigger] b[i] == 0x2d
    } else {
        is_hex(b[i])
    } by {
        assert(token[i] as u8 == b[i]);
    }
    assert(rendered_token(token, iso8601) =~= "_UUID_"@);
}

/// Paths look alike: tokens that start with a slash and hold another one.
pub proof fn law_path_tokens_look_alike(token: Seq<char>, i: int, iso8601: bool)
    requires
        0 < i < token.len(),
        are_ascii(token),
        token[0] == '/',
        token[i] == '/',
        ends_plainly(token),
    ensures
        rendered_token(token, iso8601) == "_PATH_"@,
{
    let b = encode_utf8(token);
    lemma_bytes(token);
    lemma_core_is(token, Seq::empty());
    assert(token + Seq::<char>::empty() =~= token);
    assert(b[0] == 0x2f && b[i] == 0x2f);
    lemma_no_address(b, 0);
    let e = equals(0x2fu8);
    let front = b.take(i);
    let back = b.skip(i);
    assert(front + back =~= b);
    lemma_count_concat(front, back, e);
    lemma_count_concat(seq![front[0]], front.skip(1), e);
    lemma_count_single(front[0], e);
    assert(seq![front[0]] + front.skip(1) =~= front);
    lemma_count_concat(seq![back[0]], back.skip(1), e);
    lemma_count_single(back[0], e);
    assert(seq![back[0]] + back.skip(1) =~= back);
    assert(count_of(b, 0x2fu8) >= 2);
    assert(rendered_token(token, iso8601) =~= "_PATH_"@);
}

/// Hexadecimal numbers look alike: those of eight or more digits with a letter
/// among them, and those with `0x` in front.
pub proof fn law_hex_tokens_look_alike(token: Seq<char>, i: int, iso8601: bool)
    requires
        token.len() >= 8,
        are_hex_digits(token),
        0 <= i < token.len(),
        !('0' <= token[i] <= '9'),
    ensures
        rendered_token(token, iso8601) == "_HEX_"@,
        rendered_token("0x"@ + token, iso8601) == "_HEX_"@,
{
    let b = encode_utf8(token);
    assert(are_ascii(token)) by {
        assert forall|j: int| 0 <= j < token.len() implies '\0' <= #[trigger] token[j]
            <= '\u{7f}' by {}
    }
    lemma_bytes(token);
    assert(ends_plainly(token));
    lemma_core_is(token, Seq::empty());
    assert(token + Seq::<char>::empty() =~= token);
    assert forall|j: int| 0 <= j < b.len() implies is_hex(#[trigger] b[j]) by {
        assert(token[j] as u8 == b[j]);
    }
    assert(is_hex_letter(b[i]));
    assert forall|x: u8| b.contains(x) implies is_hex(x) by {
        let j = choose|j: int| 0 <= j < b.len() && b[j] == x;
        assert(is_hex(b[j]));
    }
    lemma_split_without_separator(b, 0x3au8);
    lemma_split_without_separator(b, 0x2eu8);
    assert(is_hex(b[0]) && is_hex(b[1]) && is_hex(b[2]));
    assert(!uuid_form(b)) by {
        if b.len() == 36 {
            assert(is_hex(b[8]));
        }
    }
    assert(!mac_form(b));
    assert(rendered_token(token, iso8601) =~= "_HEX_"@);
    reveal_strlit("0x");
    let marked = "0x"@ + token;
    let c = encode_utf8(marked);
    assert forall|j: int| 0 <= j < marked.len() implies '\0' <= #[trigger] marked[j]
        <= '\u{7f}' by {
        if j >= 2 {
            assert(marked[j] == token[j - 2]);
        }
    }
    lemma_bytes(marked);
    assert(ends_plainly(marked));
    lemma_core_is(marked, Seq::empty());
    assert(marked + Seq::<char>::empty() =~= marked);
    assert(marked[0] == '0' && marked[1] == 'x');
    assert(c[0] == 0x30 && c[1] == 0x78);
    assert forall|j: int| 0 <= j < c.skip(2).len() implies is_hex(#[trigger] c.skip(2)[j]) by {
        assert(c.skip(2)[j] == c[j + 2]);
        assert(marked[j + 2] == token[j]);
        assert(is_hex(b[j]));
    }
    lemma_no_address(c, 1);
    assert(rendered_token(marked, iso8601) =~= "_HEX_"@);
}

/// A number behind a word: one of one or two digits is kept with it, a longer
/// one is not.
pub proof fn law_numbers_behind_words(word: Seq<char>, digits: Seq<char>, k: int, iso8601: bool)
    requires
        are_letters(word),
        0 <= k < word.len(),
        !('a' <= word[k] <= 'f' || 'A' <= word[k] <= 'F'),
        are_digits(digits),
        digits.len() > 0,
    ensures
        rendered_token(word + digits, iso8601) == if digits.len() <= 2 {
            word + digits
        } else {
            word + "_N_"@
        },
{
    let token = word + digits;
    let n = word.len() as int;
    let b = encode_utf8(token);
    assert forall|i: int| 0 <= i < token.len() implies '\0' <= #[trigger] token[i]
        <= '\u{7f}' by {
        if i < n {
            assert('a' <= word[i] <= 'z' || 'A' <= word[i] <= 'Z');
        } else {
            assert('0' <= digits[i - n] <= '9');
        }
    }
    lemma_bytes(token);
    assert(ends_plainly(token)) by {
        assert('0' <= digits[digits.len() - 1] <= '9');
    }
    lemma_core_is(token, Seq::empty());
    assert(token + Seq::<char>::empty() =~= token);
    assert forall|i: int| 0 <= i < b.len() implies if i < n {
        is_alpha(#[trigger] b[i])
    } else {
        is_digit(b[i])
    } by {
        assert(token[i] as u8 == b[i]);
        if i < n {
            assert('a' <= word[i] <= 'z' || 'A' <= word[i] <= 'Z');
        } else {
            assert('0' <= digits[i - n] <= '9');
        }
    }
    assert(token[k] == word[k]);
    assert(is_alpha(b[k]) && !is_hex(b[k]));
    assert(is_digit(b[n]));
    assert(is_alpha(b[0]));
    assert(is_digit(b.last()));
    lemma_no_address(b, k);
    assert forall|x: u8| b.contains(x) implies is_alpha(x) || is_digit(x) by {
        let i = choose|i: int| 0 <= i < b.len() && b[i] == x;
        assert(if i < n {
            is_alpha(b[i])
        } else {
            is_digit(b[i])
        });
    }
    assert(!(exists|i: int| #[trigger] scope_operator_at(b, i))) by {
        assert forall|i: int| !#[trigger] scope_operator_at(b, i) by {
            if scope_operator_at(b, i) {
                assert(b.contains(b[i]));
            }
        }
    }
    // the letters, then the digits
    let rest = token.skip(n);
    assert(rest =~= digits);
    assert forall|i: int| 0 <= i < n implies letter_test()(#[trigger] token[i]) by {
        assert('a' <= word[i] <= 'z' || 'A' <= word[i] <= 'Z');
    }
    assert('0' <= digits[0] <= '9');
    assert(token[n] == digits[0]);
    lemma_prefix_len(token, letter_test(), n);
    assert(token.take(n) =~= word);
    assert('a' <= word[0] <= 'z' || 'A' <= word[0] <= 'Z');
    assert(token[0] == word[0]);
    assert(lexed(token) == word + lexed(digits));
    assert forall|i: int| 0 <= i < digits.len() implies hex_test()(#[trigger] digits[i]) by {
        assert('0' <= digits[i] <= '9');
    }
    lemma_prefix_len(digits, hex_test(), digits.len() as int);
    assert(digits.take(digits.len() as int) =~= digits);
    assert(digits.skip(digits.len() as int) =~= Seq::empty());
    assert(lexed(Seq::empty()) =~= Seq::empty());
    assert forall|i: int| 0 <= i < digits.len() implies !is_ascii_hex_letter(
        #[trigger] digits[i],
    ) by {
        assert('0' <= digits[i] <= '9');
    }
    assert(lexed(digits) =~= if digits.len() <= 2 {
        digits
    } else {
        "_N_"@
    });
    assert(rendered_token(token, iso8601) =~= lexed(token));
}

/// Quoted texts of up to sixteen characters are kept, longer ones look alike.
pub proof fn law_quoted_texts(text: Seq<char>, mark: char, iso8601: bool)
    requires
        are_ascii(text),
        mark == '"' || mark == '\'',
    ensures
        rendered_token(seq![mark] + text + seq![mark], iso8601) == if text.len() <= 16 {
            seq![mark] + text + seq![mark]
        } else {
            "\"_\""@
        },
{
    let token = seq![mark] + text + seq![mark];
    let b = encode_utf8(token);
    assert forall|i: int| 0 <= i < token.len() implies '\0' <= #[trigger] token[i]
        <= '\u{7f}' by {
        if 0 < i <= text.len() {
            assert(token[i] == text[i - 1]);
        }
    }
    lemma_bytes(token);
    assert(token[0] == mark && token.last() == mark);
    assert(ends_plainly(token));
    lemma_core_is(token, Seq::empty());
    assert(token + Seq::<char>::empty() =~= token);
    assert(b[0] == mark as u8);
    assert(b.last() == token[token.len() - 1] as u8);
    lemma_no_address(b, 0);
    assert(!timestamp_framed(token)) by {
        if token.len() >= 19 {
            assert(!timestamp_char(token[0]));
        }
    }
    assert(rendered_token(token, iso8601) =~= if text.len() <= 16 {
        token
    } else {
        "\"_\""@
    });
}

/// In a list of pairs, the key of a pair is kept and its value is read as a
/// token of its own: a value of letters stays, so that pairs with two such
/// values differ.
pub proof fn law_pairs_keep_key_and_word(
    key: Seq<char>,
    value: Seq<char>,
    iso8601: bool,
)
    requires
        key.len() > 0,
        !key.contains('='),
        value.len() > 0,
        are_letters(value),
        value.len() < 8 || !are_hex_digits(value),
    ensures
        kv_token(key + seq!['='] + value, iso8601) == key + seq!['='] + value,
{
    let token = key + seq!['='] + value;
    let n = key.len() as int;
    assert forall|i: int| 0 <= i < n implies token[i] != '=' by {
        assert(token[i] == key[i]);
    }
    lemma_first_index(token, '=', n);
    assert(token.skip(n + 1) =~= value);
    assert(token.take(n + 1) =~= key + seq!['=']);
    law_words_of_letters_are_kept(value, iso8601);
    lemma_core_is(value, Seq::empty());
    assert(value + Seq::<char>::empty() =~= value);
    assert(value.skip(value.len() as int) =~= Seq::empty());
    assert(kv_token(token, iso8601) =~= token);
}

} // verus!
