//! Which tokens of free text are read as addresses, timestamps and names.
use vstd::prelude::*;
use vstd::utf8::encode_utf8;

use crate::dedup::canon_freetext::{
    dot_between_digits, float_form, hex_test, ipv4_form, ipv4_group, ipv6_form, letter_test, lexed,
    mac_form, prefixed_hex_form, rendered_token, scope_operator_at, timestamp_char,
    timestamp_framed, uuid_form,
};
use crate::dedup::kept_tokens::{
    are_ascii, are_digits, are_hex_digits, are_letters, ends_plainly, lemma_bytes,
    lemma_core_is, lemma_count_single, lemma_no_address, lemma_split_count,
};
use crate::text::bytes::{all_digits, all_hex, decimal_value, some_alpha, some_digit};
use crate::text::chars::{is_alpha, is_ascii_hex_letter, is_digit, is_hex};
use crate::text::readback::number_read;
use crate::text::seqs::{
    count_of, equals, joined, lemma_count_concat, lemma_count_none, lemma_prefix_len, split_on,
};

verus! {

proof fn lemma_split_tail<A>(a: Seq<A>, w: Seq<A>, sep: A)
    requires
        !w.contains(sep),
    ensures
        split_on(a, sep).len() > 0,
        split_on(a + w, sep) == split_on(a, sep).drop_last().push(split_on(a, sep).last() + w),
    decreases w.len(),
{
    let before = split_on(a, sep);
    lemma_split_count(a, sep);
    if w.len() == 0 {
        assert(a + w =~= a);
        assert(before.last() + w =~= before.last());
        assert(before.drop_last().push(before.last()) =~= before);
    } else {
        let init = w.drop_last();
        assert(!init.contains(sep)) by {
            if init.contains(sep) {
                let i = choose|i: int| 0 <= i < init.len() && init[i] == sep;
                assert(w[i] == sep);
            }
        }
        lemma_split_tail(a, init, sep);
        assert((a + w).drop_last() =~= a + init);
        assert((a + w).last() == w.last());
        assert(w.last() != sep) by {
            assert(w.contains(w[w.len() - 1]));
        }
        assert(split_on(a + init, sep).drop_last() =~= before.drop_last());
        assert((before.last() + init).push(w.last()) =~= before.last() + w);
    }
}

/// A piece behind one more separator is one more piece.
proof fn lemma_split_next<A>(a: Seq<A>, w: Seq<A>, sep: A)
    requires
        !w.contains(sep),
    ensures
        split_on(a + seq![sep] + w, sep) == split_on(a, sep).push(w),
{
    let front = a + seq![sep];
    assert(front.drop_last() =~= a);
    assert(front.last() == sep);
    assert(split_on(front, sep) == split_on(a, sep).push(Seq::empty()));
    lemma_split_tail(front, w, sep);
    assert(split_on(front, sep).drop_last() =~= split_on(a, sep));
    assert(Seq::<A>::empty() + w =~= w);
}

/// Characters of ASCII other than `sep`.
spec fn fits_between(g: Seq<char>, sep: char) -> bool {
    are_ascii(g) && !g.contains(sep)
}

proof fn lemma_groups(groups: Seq<Seq<char>>, sep: char)
    requires
        groups.len() > 0,
        '\0' <= sep <= '\u{7f}',
        forall|i: int| 0 <= i < groups.len() ==> fits_between(#[trigger] groups[i], sep),
    ensures
        ({
            let s = joined(groups, seq![sep]);
            &&& are_ascii(s)
            &&& split_on(encode_utf8(s), sep as u8).len() == groups.len()
            &&& forall|i: int|
                0 <= i < groups.len() ==> #[trigger] split_on(encode_utf8(s), sep as u8)[i]
                    == encode_utf8(groups[i])
        }),
    decreases groups.len(),
{
    let s = joined(groups, seq![sep]);
    let last = groups.last();
    assert(fits_between(groups[groups.len() - 1], sep));
    lemma_bytes(last);
    let w = encode_utf8(last);
    assert(!w.contains(sep as u8)) by {
        if w.contains(sep as u8) {
            let i = choose|i: int| 0 <= i < w.len() && w[i] == sep as u8;
            assert(last[i] as u8 == sep as u8);
            assert(last[i] == sep);
            assert(last.contains(sep));
        }
    }
    if groups.len() == 1 {
        assert(s =~= last);
        lemma_split_tail(Seq::<u8>::empty(), w, sep as u8);
        assert(Seq::<u8>::empty() + w =~= w);
        let one = split_on(Seq::<u8>::empty(), sep as u8);
        assert(one =~= seq![Seq::<u8>::empty()]);
        assert(one.last() + w =~= w);
        assert(split_on(w, sep as u8) =~= seq![w]);
    } else {
        let init = groups.drop_last();
        assert forall|i: int| 0 <= i < init.len() implies fits_between(#[trigger] init[i], sep) by {
            assert(fits_between(groups[i], sep));
        }
        lemma_groups(init, sep);
        let front = joined(init, seq![sep]);
        assert(s =~= front + seq![sep] + last);
        lemma_bytes(front);
        assert forall|i: int| 0 <= i < s.len() implies '\0' <= #[trigger] s[i] <= '\u{7f}' by {
            if i < front.len() {
                assert(s[i] == front[i]);
            } else if i > front.len() {
                assert(s[i] == last[i - front.len() - 1]);
            }
        }
        lemma_bytes(s);
        assert(encode_utf8(s) =~= encode_utf8(front) + seq![sep as u8] + w) by {
            assert forall|i: int| 0 <= i < s.len() implies #[trigger] encode_utf8(s)[i] == (
            encode_utf8(front) + seq![sep as u8] + w)[i] by {
                assert(encode_utf8(s)[i] == s[i] as u8);
                if i < front.len() {
                    assert(s[i] == front[i]);
                } else if i > front.len() {
                    assert(s[i] == last[i - front.len() - 1]);
                }
            }
        }
        lemma_split_next(encode_utf8(front), w, sep as u8);
        assert forall|i: int| 0 <= i < groups.len() implies #[trigger] split_on(
            encode_utf8(s),
            sep as u8,
        )[i] == encode_utf8(groups[i]) by {
            if i < init.len() {
                assert(init[i] == groups[i]);
                assert(split_on(encode_utf8(front), sep as u8)[i] == encode_utf8(init[i]));
            }
        }
    }
}

proof fn lemma_value(g: Seq<char>)
    requires
        are_digits(g),
    ensures
        decimal_value(encode_utf8(g)) == number_read(g),
    decreases g.len(),
{
    assert(are_ascii(g)) by {
        assert forall|i: int| 0 <= i < g.len() implies '\0' <= #[trigger] g[i] <= '\u{7f}' by {}
    }
    lemma_bytes(g);
    if g.len() > 0 {
        let init = g.drop_last();
        assert(are_digits(init)) by {
            assert forall|i: int| 0 <= i < init.len() implies '0' <= #[trigger] init[i] <= '9' by {
                assert(init[i] == g[i]);
            }
        }
        lemma_value(init);
        assert(are_ascii(init)) by {
            assert forall|i: int| 0 <= i < init.len() implies '\0' <= #[trigger] init[i]
                <= '\u{7f}' by {
                assert(init[i] == g[i]);
            }
        }
        lemma_bytes(init);
        assert(encode_utf8(g).drop_last() =~= encode_utf8(init)) by {
            assert forall|i: int| 0 <= i < init.len() implies encode_utf8(g)[i] == #[trigger] encode_utf8(
                init,
            )[i] by {
                assert(init[i] == g[i]);
            }
        }
        assert(encode_utf8(g).last() == g[g.len() - 1] as u8);
        assert('0' <= g[g.len() - 1] <= '9');
    }
}

/// Four numbers of up to three digits, none above 255, with dots between them
/// are an address, and all of those look alike.
pub proof fn law_addresses_look_alike(groups: Seq<Seq<char>>, iso8601: bool)
    requires
        groups.len() == 4,
        forall|i: int|
            0 <= i < 4 ==> 1 <= (#[trigger] groups[i]).len() <= 3 && are_digits(groups[i])
                && number_read(groups[i]) <= 255,
    ensures
        rendered_token(joined(groups, seq!['.']), iso8601) == "_IPV4_"@,
{
    let token = joined(groups, seq!['.']);
    let b = encode_utf8(token);
    lemma_dotted(groups);
    lemma_core_is(token, Seq::empty());
    assert(token + Seq::<char>::empty() =~= token);
    let parts = split_on(b, 0x2eu8);
    assert forall|i: int| 0 <= i < 4 implies ipv4_group(#[trigger] parts[i]) by {
        assert(parts[i] == encode_utf8(groups[i]));
        lemma_value(groups[i]);
        assert(fits_between(groups[i], '.'));
        lemma_bytes(groups[i]);
        assert forall|j: int| 0 <= j < groups[i].len() implies is_digit(
            #[trigger] encode_utf8(groups[i])[j],
        ) by {
            assert('0' <= groups[i][j] <= '9');
        }
    }
    assert(ipv4_form(b));
    assert(rendered_token(token, iso8601) =~= "_IPV4_"@);
}

/// Numbers with two or more dots between them that are no address keep their
/// spelling: there are not four of them, or one is above 255 or longer than
/// three digits.
pub proof fn law_dotted_numbers_are_kept(groups: Seq<Seq<char>>, k: int, iso8601: bool)
    requires
        groups.len() >= 3,
        forall|i: int| 0 <= i < groups.len() ==> 1 <= (#[trigger] groups[i]).len() && are_digits(groups[i]),
        0 <= k < groups.len(),
        groups.len() != 4 || groups[k].len() > 3 || number_read(groups[k]) > 255,
    ensures
        rendered_token(joined(groups, seq!['.']), iso8601) == joined(groups, seq!['.']),
{
    let token = joined(groups, seq!['.']);
    let b = encode_utf8(token);
    lemma_dotted(groups);
    lemma_core_is(token, Seq::empty());
    assert(token + Seq::<char>::empty() =~= token);
    let parts = split_on(b, 0x2eu8);
    assert(!ipv4_form(b)) by {
        assert(parts[k] == encode_utf8(groups[k]));
        assert(fits_between(groups[k], '.'));
        lemma_value(groups[k]);
        lemma_bytes(groups[k]);
        if groups.len() == 4 {
            assert(!ipv4_group(parts[k]));
        }
    }
    assert(!b.contains(0x2f) && !b.contains(0x2d) && !b.contains(0x3a));
    assert(b.contains(b[0]) && b.contains(b.last()));
    lemma_split_count(b, 0x2eu8);
    assert(!float_form(b)) by {
        if float_form(b) {
            let p = choose|p: int| #[trigger] dot_between_digits(b, p);
            let e = equals(0x2eu8);
            let front = b.take(p);
            let back = b.skip(p + 1);
            assert(front + (seq![b[p]] + back) =~= b);
            lemma_count_concat(front, seq![b[p]] + back, e);
            lemma_count_concat(seq![b[p]], back, e);
            lemma_count_none(front, e);
            lemma_count_none(back, e);
            lemma_count_single(b[p], e);
        }
    }
    assert(!(exists|i: int| #[trigger] scope_operator_at(b, i))) by {
        assert forall|i: int| !#[trigger] scope_operator_at(b, i) by {
            if scope_operator_at(b, i) {
                assert(b.contains(b[i]));
            }
        }
    }
    assert(rendered_token(token, iso8601) =~= token);
}

/// Of digits and dots nothing else than an address or a number is made.
proof fn lemma_dotted(groups: Seq<Seq<char>>)
    requires
        groups.len() >= 3,
        forall|i: int| 0 <= i < groups.len() ==> 1 <= (#[trigger] groups[i]).len() && are_digits(groups[i]),
    ensures
        ({
            let token = joined(groups, seq!['.']);
            let b = encode_utf8(token);
            &&& are_ascii(token) && ends_plainly(token) && b.len() == token.len() && b.len() > 0
            &&& forall|i: int| 0 <= i < groups.len() ==> fits_between(#[trigger] groups[i], '.')
            &&& split_on(b, 0x2eu8).len() == groups.len()
            &&& forall|i: int|
                0 <= i < groups.len() ==> #[trigger] split_on(b, 0x2eu8)[i] == encode_utf8(
                    groups[i],
                )
            &&& forall|x: u8| #[trigger] b.contains(x) ==> is_digit(x) || x == 0x2e
            &&& b.contains(0x2e)
            &&& !some_alpha(b) && !all_digits(b)
            &&& is_digit(b[0]) && is_digit(b.last())
            &&& !uuid_form(b) && !mac_form(b) && !prefixed_hex_form(b) && !all_hex(b)
        }),
{
    let token = joined(groups, seq!['.']);
    let b = encode_utf8(token);
    assert forall|i: int| 0 <= i < groups.len() implies fits_between(#[trigger] groups[i], '.') by {
        let g = groups[i];
        assert forall|j: int| 0 <= j < g.len() implies '\0' <= #[trigger] g[j] <= '\u{7f}' by {
            assert('0' <= g[j] <= '9');
        }
        if g.contains('.') {
            let j = choose|j: int| 0 <= j < g.len() && g[j] == '.';
            assert('0' <= g[j] <= '9');
        }
    }
    lemma_groups(groups, '.');
    lemma_bytes(token);
    lemma_dotted_chars(groups);
    assert forall|x: u8| b.contains(x) implies is_digit(x) || x == 0x2e by {
        let i = choose|i: int| 0 <= i < b.len() && b[i] == x;
        assert(token[i] == '.' || '0' <= token[i] <= '9');
    }
    assert('0' <= token[0] <= '9');
    let n = token.len() - 1;
    assert('0' <= token[n] <= '9');
    assert(b[0] == token[0] as u8 && b[n] == token[n] as u8);
    lemma_split_count(b, 0x2eu8);
    assert(b.contains(0x2e)) by {
        if !b.contains(0x2e) {
            assert forall|i: int| 0 <= i < b.len() implies !equals(0x2eu8)(#[trigger] b[i]) by {
                assert(b.contains(b[i]));
            }
            lemma_count_none(b, equals(0x2eu8));
        }
    }
    let d = choose|d: int| 0 <= d < b.len() && b[d] == 0x2e;
    assert(!is_digit(b[d]) && !is_hex(b[d]));
    assert(!some_alpha(b)) by {
        if some_alpha(b) {
            let i = choose|i: int| 0 <= i < b.len() && is_alpha(#[trigger] b[i]);
            assert(b.contains(b[i]));
        }
    }
    lemma_no_address(b, d);
    assert(!mac_form(b));
    assert(!prefixed_hex_form(b)) by {
        if b.len() > 2 {
            assert(b.contains(b[1]));
        }
    }
}

proof fn lemma_dotted_chars(groups: Seq<Seq<char>>)
    requires
        groups.len() >= 1,
        forall|i: int| 0 <= i < groups.len() ==> 1 <= (#[trigger] groups[i]).len() && are_digits(groups[i]),
    ensures
        ({
            let token = joined(groups, seq!['.']);
            &&& token.len() > 0
            &&& '0' <= token[0] <= '9'
            &&& '0' <= token.last() <= '9'
            &&& forall|i: int|
                0 <= i < token.len() ==> #[trigger] token[i] == '.' || '0' <= token[i] <= '9'
        }),
    decreases groups.len(),
{
    let token = joined(groups, seq!['.']);
    let last = groups.last();
    assert(are_digits(groups[groups.len() - 1]));
    assert('0' <= last[0] <= '9');
    assert('0' <= last[last.len() - 1] <= '9');
    if groups.len() == 1 {
        assert(token =~= last);
    } else {
        let init = groups.drop_last();
        assert forall|i: int| 0 <= i < init.len() implies 1 <= (#[trigger] init[i]).len()
            && are_digits(init[i]) by {
            assert(init[i] == groups[i]);
        }
        lemma_dotted_chars(init);
        let front = joined(init, seq!['.']);
        assert(token =~= front + seq!['.'] + last);
        assert(token[0] == front[0]);
        assert forall|i: int| 0 <= i < token.len() implies #[trigger] token[i] == '.' || '0'
            <= token[i] <= '9' by {
            if i < front.len() {
                assert(token[i] == front[i]);
            } else if i > front.len() {
                assert(token[i] == last[i - front.len() - 1]);
            }
        }
    }
}

/// Seven or more groups of up to four hexadecimal digits with colons between
/// them look alike.
pub proof fn law_long_addresses_look_alike(groups: Seq<Seq<char>>, iso8601: bool)
    requires
        groups.len() >= 7,
        forall|i: int|
            0 <= i < groups.len() ==> (#[trigger] groups[i]).len() <= 4 && are_hex_digits(groups[i]),
        groups.last().len() > 0,
    ensures
        rendered_token(joined(groups, seq![':']), iso8601) == "_IPV6_"@,
{
    let token = joined(groups, seq![':']);
    let b = encode_utf8(token);
    assert forall|i: int| 0 <= i < groups.len() implies fits_between(#[trigger] groups[i], ':') by {
        let g = groups[i];
        assert forall|j: int| 0 <= j < g.len() implies '\0' <= #[trigger] g[j] <= '\u{7f}' by {
            assert('0' <= g[j] <= '9' || 'a' <= g[j] <= 'f' || 'A' <= g[j] <= 'F');
        }
        if g.contains(':') {
            let j = choose|j: int| 0 <= j < g.len() && g[j] == ':';
            assert('0' <= g[j] <= '9' || 'a' <= g[j] <= 'f' || 'A' <= g[j] <= 'F');
        }
    }
    lemma_groups(groups, ':');
    lemma_bytes(token);
    let parts = split_on(b, 0x3au8);
    assert forall|i: int| 0 <= i < parts.len() implies (#[trigger] parts[i]).len() <= 4 && all_hex(
        parts[i],
    ) by {
        let g = groups[i];
        assert(parts[i] == encode_utf8(g));
        assert(fits_between(g, ':'));
        lemma_bytes(g);
        assert forall|j: int| 0 <= j < g.len() implies is_hex(#[trigger] encode_utf8(g)[j]) by {
            assert('0' <= g[j] <= '9' || 'a' <= g[j] <= 'f' || 'A' <= g[j] <= 'F');
        }
    }
    assert(ipv6_form(b));
    let last = groups.last();
    let n = token.len() - 1;
    assert(token.len() > 0 && token[n] == last[last.len() - 1]) by {
        assert(token =~= joined(groups.drop_last(), seq![':']) + seq![':'] + last);
    }
    assert(are_hex_digits(groups[groups.len() - 1]));
    assert(ends_plainly(token)) by {
        assert('0' <= last[last.len() - 1] <= '9' || 'a' <= last[last.len() - 1] <= 'f' || 'A'
            <= last[last.len() - 1] <= 'F');
    }
    lemma_core_is(token, Seq::empty());
    assert(token + Seq::<char>::empty() =~= token);
    assert(!b.contains(0x2e)) by {
        if b.contains(0x2e) {
            let i = choose|i: int| 0 <= i < b.len() && b[i] == 0x2e;
            lemma_no_address(b, i);
        }
    }
    assert(!uuid_form(b)) by {
        if uuid_form(b) {
            lemma_split_count(b, 0x3au8);
            assert forall|i: int| 0 <= i < b.len() implies !equals(0x3au8)(#[trigger] b[i]) by {
                assert(is_hex(b[i]) || b[i] == 0x2d);
            }
            lemma_count_none(b, equals(0x3au8));
        }
    }
    assert(rendered_token(token, iso8601) =~= "_IPV6_"@);
}

proof fn lemma_colons(b: Seq<u8>, k: int)
    requires
        b.len() == 17,
        forall|i: int|
            0 <= i < 17 ==> if i % 3 == 2 {
                #[trigger] b[i] == 0x3a
            } else {
                is_hex(b[i])
            },
        0 <= k <= 5,
    ensures
        count_of(b.take(3 * k + 2), 0x3au8) == k,
    decreases k,
{
    let e = equals(0x3au8);
    if k == 0 {
        let s = b.take(2);
        assert(s[0] == b[0] && s[1] == b[1]);
        assert(is_hex(b[0]) && is_hex(b[1]));
        lemma_count_none(s, e);
    } else {
        lemma_colons(b, k - 1);
        let at = 3 * k - 1;
        let s = b.take(3 * k + 2);
        let pair = seq![b[at + 1], b[at + 2]];
        assert(s =~= b.take(at) + (seq![b[at]] + pair));
        assert(b[at] == 0x3a && is_hex(b[at + 1]) && is_hex(b[at + 2]));
        lemma_count_concat(b.take(at), seq![b[at]] + pair, e);
        lemma_count_concat(seq![b[at]], pair, e);
        lemma_count_single(b[at], e);
        lemma_count_none(pair, e);
    }
}

/// Six pairs of hexadecimal digits with colons between them look alike.
pub proof fn law_hardware_addresses_look_alike(token: Seq<char>, iso8601: bool)
    requires
        token.len() == 17,
        forall|i: int|
            0 <= i < 17 ==> if i % 3 == 2 {
                #[trigger] token[i] == ':'
            } else {
                '0' <= token[i] <= '9' || 'a' <= token[i] <= 'f' || 'A' <= token[i] <= 'F'
            },
    ensures
        rendered_token(token, iso8601) == "_MAC_"@,
{
    let b = encode_utf8(token);
    assert forall|i: int| 0 <= i < token.len() implies '\0' <= #[trigger] token[i]
        <= '\u{7f}' by {
        assert(i % 3 == 2 || i % 3 != 2);
    }
    lemma_bytes(token);
    assert(token[16] != ':');
    assert(ends_plainly(token));
    lemma_core_is(token, Seq::empty());
    assert(token + Seq::<char>::empty() =~= token);
    assert forall|i: int| 0 <= i < 17 implies if i % 3 == 2 {
        #[trigger] b[i] == 0x3a
    } else {
        is_hex(b[i])
    } by {
        assert(token[i] as u8 == b[i]);
    }
    lemma_colons(b, 5);
    assert(b.take(17) =~= b);
    lemma_split_count(b, 0x3au8);
    assert(mac_form(b));
    assert(rendered_token(token, iso8601) =~= "_MAC_"@);
}

/// A name with a scope operator keeps its spelling.
pub proof fn law_scoped_names_are_kept(token: Seq<char>, i: int, k: int, iso8601: bool)
    requires
        are_ascii(token),
        ends_plainly(token),
        'a' <= token[0] <= 'z',
        0 <= i,
        i + 1 < token.len(),
        token[i] == ':',
        token[i + 1] == ':',
        0 <= k < token.len(),
        'g' <= token[k] <= 'z',
    ensures
        rendered_token(token, iso8601) == token,
{
    let b = encode_utf8(token);
    lemma_bytes(token);
    lemma_core_is(token, Seq::empty());
    assert(token + Seq::<char>::empty() =~= token);
    assert(b[k] == token[k] as u8 && b[i] == 0x3a && b[i + 1] == 0x3a && b[0] == token[0] as u8);
    lemma_no_address(b, k);
    assert(is_alpha(b[0]));
    assert(b.contains(0x3a));
    assert(scope_operator_at(b, i));
    assert(!is_hex(b[i]));
    assert(!timestamp_framed(token)) by {
        if token.len() >= 19 {
            assert(!timestamp_char(token[0]));
        }
    }
    assert(rendered_token(token, iso8601) =~= token);
}

/// The shape of a date and a time: `dddd-dd-ddTdd:dd:dd`.
pub open spec fn is_date_time(s: Seq<char>) -> bool {
    s.len() == 19 && s[4] == '-' && s[7] == '-' && s[10] == 'T' && s[13] == ':' && s[16] == ':'
        && forall|i: int|
        0 <= i < 19 && i != 4 && i != 7 && i != 10 && i != 13 && i != 16 ==> '0'
            <= #[trigger] s[i] <= '9'
}

/// Timestamps look alike, whatever fraction and zone follow.
pub proof fn law_timestamps_look_alike(date: Seq<char>, rest: Seq<char>)
    requires
        is_date_time(date),
        are_ascii(rest),
        ends_plainly(date + rest),
    ensures
        rendered_token(date + rest, true) == "_TS_"@,
{
    let token = date + rest;
    let b = encode_utf8(token);
    assert forall|i: int| 0 <= i < 19 implies #[trigger] token[i] == date[i] by {}
    assert forall|i: int| 0 <= i < token.len() implies '\0' <= #[trigger] token[i]
        <= '\u{7f}' by {
        if i < 19 {
            assert(token[i] == date[i]);
        } else {
            assert(token[i] == rest[i - 19]);
        }
    }
    lemma_bytes(token);
    lemma_core_is(token, Seq::empty());
    assert(token + Seq::<char>::empty() =~= token);
    assert(token[10] == 'T' && token[4] == '-');
    assert(b[10] == 0x54 && b[4] == 0x2d);
    assert('0' <= date[0] <= '9' && '0' <= date[1] <= '9');
    assert(token[0] == date[0] && token[1] == date[1]);
    assert(is_digit(b[0]) && is_digit(b[1]));
    lemma_no_address(b, 10);
    assert(some_digit(b));
    assert(b.contains(0x2d));
    assert(timestamp_framed(token)) by {
        assert forall|i: int| 0 <= i < 19 implies timestamp_char(#[trigger] token[i]) by {
            assert(token[i] == date[i]);
        }
    }
    assert(rendered_token(token, true) =~= "_TS_"@);
}

/// Digits behind a word: a run of eight or more hexadecimal digits with a letter
/// among them is told from other long runs, and short runs are kept.
pub proof fn law_runs_behind_words(
    word: Seq<char>,
    run: Seq<char>,
    k: int,
    l: int,
    iso8601: bool,
)
    requires
        are_letters(word),
        0 <= k < word.len(),
        !('a' <= word[k] <= 'f' || 'A' <= word[k] <= 'F'),
        are_hex_digits(run),
        run.len() > 0,
        '0' <= run[0] <= '9',
        0 <= l < run.len(),
        !('0' <= run[l] <= '9'),
    ensures
        rendered_token(word + run, iso8601) == if run.len() >= 8 {
            word + "_HEX_"@
        } else if run.len() >= 3 {
            word + "_N_"@
        } else {
            word + run
        },
{
    let token = word + run;
    let n = word.len() as int;
    let b = encode_utf8(token);
    assert forall|i: int| 0 <= i < token.len() implies ('a' <= #[trigger] token[i] <= 'z' || 'A'
        <= token[i] <= 'Z' || '0' <= token[i] <= '9') && token[i] <= '\u{7f}' by {
        if i < n {
            assert('a' <= word[i] <= 'z' || 'A' <= word[i] <= 'Z');
        } else {
            assert(token[i] == run[i - n]);
        }
    }
    assert(are_ascii(token)) by {
        assert forall|i: int| 0 <= i < token.len() implies '\0' <= #[trigger] token[i]
            <= '\u{7f}' by {}
    }
    lemma_bytes(token);
    assert(ends_plainly(token));
    lemma_core_is(token, Seq::empty());
    assert(token + Seq::<char>::empty() =~= token);
    assert forall|i: int| 0 <= i < b.len() implies is_alpha(#[trigger] b[i]) || is_digit(b[i]) by {
        assert(token[i] as u8 == b[i]);
    }
    assert(token[k] == word[k] && token[0] == word[0] && token[n] == run[0]);
    assert('a' <= word[0] <= 'z' || 'A' <= word[0] <= 'Z');
    assert('a' <= word[k] <= 'z' || 'A' <= word[k] <= 'Z');
    assert(is_alpha(b[k]) && !is_hex(b[k]));
    assert(is_digit(b[n]));
    assert(is_alpha(b[0]));
    lemma_no_address(b, k);
    assert forall|x: u8| b.contains(x) implies is_alpha(x) || is_digit(x) by {
        let i = choose|i: int| 0 <= i < b.len() && b[i] == x;
        assert(is_alpha(b[i]) || is_digit(b[i]));
    }
    assert(is_alpha(b.last()) || is_digit(b.last()));
    assert(!(exists|i: int| #[trigger] scope_operator_at(b, i))) by {
        assert forall|i: int| !#[trigger] scope_operator_at(b, i) by {
            if scope_operator_at(b, i) {
                assert(b.contains(b[i]));
            }
        }
    }
    assert(token.skip(n) =~= run);
    assert forall|i: int| 0 <= i < n implies letter_test()(#[trigger] token[i]) by {
        assert('a' <= word[i] <= 'z' || 'A' <= word[i] <= 'Z');
    }
    lemma_prefix_len(token, letter_test(), n);
    assert(token.take(n) =~= word);
    assert(lexed(token) == word + lexed(run));
    assert forall|i: int| 0 <= i < run.len() implies hex_test()(#[trigger] run[i]) by {}
    lemma_prefix_len(run, hex_test(), run.len() as int);
    assert(run.take(run.len() as int) =~= run);
    assert(run.skip(run.len() as int) =~= Seq::empty());
    assert(lexed(Seq::empty()) =~= Seq::empty());
    assert(is_ascii_hex_letter(run[l]));
    assert(!timestamp_framed(token) || token[4] == '-');
    assert(!b.contains(0x2d));
    assert(lexed(run) =~= if run.len() >= 8 {
        "_HEX_"@
    } else if run.len() >= 3 {
        "_N_"@
    } else {
        run
    });
    assert(rendered_token(token, iso8601) =~= lexed(token));
}

} // verus!
