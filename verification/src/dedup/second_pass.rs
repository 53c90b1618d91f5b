//! The canonical form of free text is its own canonical form.
use vstd::prelude::*;
use vstd::utf8::{encode_utf8, is_ascii_chars, is_ascii_chars_encode_utf8};

use crate::dedup::canon_freetext::{
    canonical_run, dot_between_digits, float_form, freetext_canon, hex_test, ipv4_form, ipv6_form,
    letter_test, lexed, path_form, quoted_form, rendered_token, starts_with_iso8601,
    timestamp_char, timestamp_framed, timestamp_part, token_class, token_core, trailing_punct,
    verdict_text, TokenVerdict,
};
use crate::text::bytes::{all_digits, all_hex};
use crate::text::chars::{is_ascii_digit, is_ascii_letter, is_digit, is_hex, is_whitespace};
use crate::text::encoding::{lemma_encoded_contains, lemma_encoded_count, lemma_encoded_ends};
use crate::text::seqs::{
    count_of, equals, joined, lemma_count_concat, lemma_count_none, lemma_prefix_len, prefix_len,
    split_on, split_where, words,
};

verus! {

/// What the longest prefix that passes a test is.
proof fn lemma_prefix(s: Seq<char>, p: spec_fn(char) -> bool)
    ensures
        prefix_len(s, p) <= s.len(),
        forall|i: int| 0 <= i < prefix_len(s, p) ==> p(#[trigger] s[i]),
        prefix_len(s, p) < s.len() ==> !p(s[prefix_len(s, p) as int]),
        s.len() > 0 && p(s[0]) ==> prefix_len(s, p) > 0,
    decreases s.len(),
{
    if s.len() > 0 && p(s.first()) {
        let rest = s.drop_first();
        lemma_prefix(rest, p);
        assert forall|i: int| 0 <= i < prefix_len(s, p) implies p(#[trigger] s[i]) by {
            if i > 0 {
                assert(s[i] == rest[i - 1]);
            }
        }
    }
}

/// A character that no run holds.
spec fn stands_alone(c: char) -> bool {
    !is_ascii_letter(c) && !is_ascii_digit(c)
}

/// What the first piece of a token becomes, how long it is, and what follows.
spec fn piece_len(s: Seq<char>) -> int {
    if is_ascii_letter(s[0]) {
        prefix_len(s, letter_test()) as int
    } else if is_ascii_digit(s[0]) {
        prefix_len(s, hex_test()) as int
    } else {
        1
    }
}

spec fn piece(s: Seq<char>) -> Seq<char> {
    if is_ascii_digit(s[0]) {
        canonical_run(s.take(piece_len(s)))
    } else {
        s.take(piece_len(s))
    }
}

proof fn lemma_piece(s: Seq<char>)
    requires
        s.len() > 0,
    ensures
        0 < piece_len(s) <= s.len(),
        lexed(s) == piece(s) + lexed(s.skip(piece_len(s))),
        piece(s).len() > 0,
        piece(s) == s.take(piece_len(s)) || piece(s) == "_N_"@ || piece(s) == "_HEX_"@,
        is_ascii_letter(s[0]) ==> piece(s)[0] == s[0],
        stands_alone(s[0]) ==> piece(s) == seq![s[0]],
        is_ascii_digit(s[0]) ==> piece(s)[0] == s[0] || piece(s)[0] == '_',
{
    reveal_strlit("_N_");
    reveal_strlit("_HEX_");
    lemma_prefix(s, letter_test());
    lemma_prefix(s, hex_test());
    assert(s.take(piece_len(s))[0] == s[0]);
    if stands_alone(s[0]) {
        assert(s.take(1) =~= seq![s[0]]);
    }
}

/// The first character of a spelling, by the first character of the token.
proof fn lemma_first(s: Seq<char>)
    ensures
        lexed(s).len() == 0 <==> s.len() == 0,
        s.len() > 0 && !is_ascii_digit(s[0]) ==> lexed(s)[0] == s[0],
        s.len() > 0 && is_ascii_digit(s[0]) ==> lexed(s)[0] == s[0] || lexed(s)[0] == '_',
{
    if s.len() > 0 {
        lemma_piece(s);
        assert(lexed(s)[0] == piece(s)[0]);
    }
}

/// The last character of a spelling, by the last character of the token.
proof fn lemma_last(s: Seq<char>)
    requires
        s.len() > 0,
    ensures
        lexed(s).len() > 0,
        stands_alone(lexed(s).last()) && lexed(s).last() != '_' ==> lexed(s).last() == s.last(),
    decreases s.len(),
{
    reveal_strlit("_N_");
    reveal_strlit("_HEX_");
    lemma_piece(s);
    lemma_prefix(s, letter_test());
    lemma_prefix(s, hex_test());
    let n = piece_len(s);
    let rest = s.skip(n);
    if rest.len() > 0 {
        lemma_last(rest);
        assert(lexed(s).last() == lexed(rest).last());
        assert(rest.last() == s.last());
    } else {
        assert(lexed(rest) =~= Seq::empty());
        assert(lexed(s) =~= piece(s));
        if piece(s) == s.take(n) {
            assert(s.take(n) =~= s);
        }
    }
}

/// A spelling that is not the token itself holds an underscore.
proof fn lemma_changed(s: Seq<char>)
    ensures
        lexed(s) == s || lexed(s).contains('_'),
    decreases s.len(),
{
    if s.len() == 0 {
        assert(lexed(s) =~= s);
    } else {
        reveal_strlit("_N_");
        reveal_strlit("_HEX_");
        lemma_piece(s);
        let n = piece_len(s);
        let rest = s.skip(n);
        lemma_changed(rest);
        let head = piece(s);
        if head == s.take(n) {
            if lexed(rest) == rest {
                assert(head + rest =~= s);
            } else {
                let j = choose|j: int| 0 <= j < lexed(rest).len() && lexed(rest)[j] == '_';
                assert(lexed(s)[head.len() + j] == '_');
            }
        } else {
            assert(lexed(s)[0] == '_');
        }
    }
}

/// Spelling keeps every slash.
proof fn lemma_slashes(s: Seq<char>)
    ensures
        count_of(lexed(s), '/') == count_of(s, '/'),
    decreases s.len(),
{
    let p = equals('/');
    if s.len() > 0 {
        reveal_strlit("_N_");
        reveal_strlit("_HEX_");
        lemma_piece(s);
        lemma_prefix(s, letter_test());
        lemma_prefix(s, hex_test());
        let n = piece_len(s);
        let rest = s.skip(n);
        lemma_slashes(rest);
        lemma_count_concat(piece(s), lexed(rest), p);
        assert(s.take(n) + rest =~= s);
        lemma_count_concat(s.take(n), rest, p);
        if !stands_alone(s[0]) {
            assert forall|i: int| 0 <= i < n implies !p(#[trigger] s.take(n)[i]) by {
                if is_ascii_letter(s[0]) {
                    assert(letter_test()(s[i]));
                } else {
                    assert(hex_test()(s[i]));
                }
            }
            lemma_count_none(s.take(n), p);
            if piece(s) != s.take(n) {
                lemma_count_none(piece(s), p);
            }
        }
    } else {
        assert(lexed(s) =~= s);
    }
}

/// Spelling a spelling changes nothing.
proof fn lemma_respelled(s: Seq<char>)
    ensures
        lexed(lexed(s)) == lexed(s),
    decreases s.len(),
{
    if s.len() > 0 {
        lemma_piece(s);
        lemma_prefix(s, letter_test());
        lemma_prefix(s, hex_test());
        let n = piece_len(s);
        let rest = s.skip(n);
        let tail = lexed(rest);
        let l = lexed(s);
        lemma_respelled(rest);
        lemma_first(rest);
        if rest.len() > 0 {
            assert(rest[0] == s[n]);
        }
        if is_ascii_letter(s[0]) {
            assert forall|i: int| 0 <= i < n implies letter_test()(#[trigger] l[i]) by {
                assert(l[i] == s[i]);
                assert(letter_test()(s[i]));
            }
            if n < l.len() {
                assert(l[n] == tail[0]);
                assert(!letter_test()(s[n]));
            }
            lemma_prefix_len(l, letter_test(), n);
            assert(l.take(n) =~= s.take(n));
            assert(l.skip(n) =~= tail);
        } else if is_ascii_digit(s[0]) {
            if n <= 2 {
                assert(piece(s) == s.take(n));
                assert forall|i: int| 0 <= i < n implies hex_test()(#[trigger] l[i]) by {
                    assert(l[i] == s[i]);
                    assert(hex_test()(s[i]));
                }
                if n < l.len() {
                    assert(l[n] == tail[0]);
                    assert(!hex_test()(s[n]));
                }
                assert(l[0] == s[0]);
                lemma_prefix_len(l, hex_test(), n);
                assert(l.take(n) =~= s.take(n));
                assert(l.skip(n) =~= tail);
            } else {
                lemma_placeholder_spelled(piece(s), tail);
            }
        } else {
            assert(l.skip(1) =~= tail);
            assert(l[0] == s[0]);
        }
    } else {
        assert(lexed(s) =~= s);
    }
}

/// A placeholder in front of a spelling is kept.
proof fn lemma_placeholder_spelled(mark: Seq<char>, tail: Seq<char>)
    requires
        mark == "_N_"@ || mark == "_HEX_"@,
    ensures
        lexed(mark + tail) == mark + lexed(tail),
{
    reveal_strlit("_N_");
    reveal_strlit("_HEX_");
    let l = mark + tail;
    let n = mark.len() - 2;
    let inner = l.skip(1);
    let back = inner.skip(n);
    assert(lexed(l) == seq![l[0]] + lexed(inner));
    assert forall|i: int| 0 <= i < n implies letter_test()(#[trigger] inner[i]) by {
        assert(inner[i] == mark[i + 1]);
    }
    assert(inner[n] == '_');
    lemma_prefix_len(inner, letter_test(), n);
    assert(is_ascii_letter(inner[0])) by {
        assert(letter_test()(inner[0]));
    }
    assert(lexed(inner) == inner.take(n) + lexed(back));
    assert(back[0] == '_');
    assert(back.skip(1) =~= tail);
    assert(lexed(back) == seq!['_'] + lexed(tail));
    assert(lexed(l) =~= mark + lexed(tail));
}

/// Where every piece passes a test, every byte is a separator or passes it.
pub proof fn lemma_pieces_cover(s: Seq<u8>, sep: u8, p: spec_fn(u8) -> bool, i: int)
    requires
        0 <= i < s.len(),
        forall|k: int, j: int|
            0 <= k < split_on(s, sep).len() && 0 <= j < split_on(s, sep)[k].len() ==> p(
                #[trigger] split_on(s, sep)[k][j],
            ),
    ensures
        s[i] == sep || p(s[i]),
    decreases s.len(),
{
    lemma_split_len(s, sep);
    let init = s.drop_last();
    lemma_split_len(init, sep);
    let before = split_on(init, sep);
    let all = split_on(s, sep);
    let n = before.len() - 1;
    if s.last() == sep {
        assert forall|k: int, j: int| 0 <= k < before.len() && 0 <= j < before[k].len() implies p(
            #[trigger] before[k][j],
        ) by {
            assert(all[k] == before[k]);
            assert(p(all[k][j]));
        }
    } else {
        assert(all[n] == before[n].push(s.last()));
        assert(p(all[n][before[n].len() as int]));
        assert forall|k: int, j: int| 0 <= k < before.len() && 0 <= j < before[k].len() implies p(
            #[trigger] before[k][j],
        ) by {
            if k < n {
                assert(all[k] == before[k]);
            }
            assert(p(all[k][j]));
        }
    }
    if i < init.len() {
        lemma_pieces_cover(init, sep, p, i);
        assert(init[i] == s[i]);
    }
}

proof fn lemma_split_len<A>(s: Seq<A>, sep: A)
    ensures
        split_on(s, sep).len() > 0,
    decreases s.len(),
{
    if s.len() > 0 {
        lemma_split_len(s.drop_last(), sep);
    }
}

/// An underscore rules out the forms that are made of digits and separators.
proof fn lemma_underscore(token: Seq<char>)
    requires
        token.contains('_'),
    ensures
        ({
            let b = encode_utf8(token);
            &&& b.contains(0x5f)
            &&& !ipv6_form(b)
            &&& !ipv4_form(b)
            &&& !all_hex(b)
            &&& !all_digits(b)
            &&& !float_form(b)
        }),
{
    let b = encode_utf8(token);
    lemma_encoded_contains(token, '_');
    let at = choose|i: int| 0 <= i < b.len() && b[i] == 0x5f;
    assert(!is_hex(b[at]) && !is_digit(b[at]));
    if ipv6_form(b) {
        let p = |x: u8| is_hex(x);
        let g = split_on(b, 0x3au8);
        assert forall|k: int, j: int| 0 <= k < g.len() && 0 <= j < g[k].len() implies p(
            #[trigger] g[k][j],
        ) by {
            assert(all_hex(g[k]));
        }
        lemma_pieces_cover(b, 0x3au8, p, at);
    }
    if ipv4_form(b) {
        let p = |x: u8| is_digit(x);
        let g = split_on(b, 0x2eu8);
        assert forall|k: int, j: int| 0 <= k < g.len() && 0 <= j < g[k].len() implies p(
            #[trigger] g[k][j],
        ) by {
            assert(crate::dedup::canon_freetext::ipv4_group(g[k]));
        }
        lemma_pieces_cover(b, 0x2eu8, p, at);
    }
    assert forall|q: int| !#[trigger] dot_between_digits(b, q) by {
        if dot_between_digits(b, q) {
            if at != q {
                assert(is_digit(b[at]));
            }
        }
    }
}

/// A spelling that starts without an underscore starts as the token does.
proof fn lemma_start_kept(s: Seq<char>, k: int)
    requires
        0 <= k <= lexed(s).len(),
        forall|i: int| 0 <= i < k ==> #[trigger] lexed(s)[i] != '_',
    ensures
        k <= s.len(),
        lexed(s).take(k) == s.take(k),
    decreases s.len(),
{
    let l = lexed(s);
    if s.len() > 0 && k > 0 {
        reveal_strlit("_N_");
        reveal_strlit("_HEX_");
        lemma_piece(s);
        let head = piece(s);
        let n = piece_len(s);
        let rest = s.skip(n);
        assert(l[0] == head[0]);
        assert(head == s.take(n));
        if k > n {
            assert forall|i: int| 0 <= i < k - n implies #[trigger] lexed(rest)[i] != '_' by {
                assert(l[n + i] == lexed(rest)[i]);
            }
            lemma_start_kept(rest, k - n);
            assert forall|i: int| 0 <= i < k implies l[i] == s[i] by {
                if i < n {
                    assert(l[i] == head[i]);
                } else {
                    assert(l[i] == lexed(rest)[i - n]);
                    assert(lexed(rest).take(k - n)[i - n] == rest.take(k - n)[i - n]);
                }
            }
        } else {
            assert forall|i: int| 0 <= i < k implies l[i] == s[i] by {
                assert(l[i] == head[i]);
            }
        }
        assert(l.take(k) =~= s.take(k));
    } else {
        assert(k == 0);
        assert(l.take(k) =~= s.take(k));
    }
}

/// Where the spelling of a token starts like a timestamp, the token does.
proof fn lemma_no_new_timestamp(token: Seq<char>)
    requires
        timestamp_framed(lexed(token)),
    ensures
        timestamp_framed(token),
        starts_with_iso8601(lexed(token)) == starts_with_iso8601(token),
        encode_utf8(token).len() >= 19,
        encode_utf8(token).contains(0x2d),
{
    let l = lexed(token);
    assert forall|i: int| 0 <= i < 19 implies #[trigger] l[i] != '_' by {
        assert(timestamp_char(l[i]));
    }
    lemma_start_kept(token, 19);
    assert forall|i: int| 0 <= i < 19 implies timestamp_char(#[trigger] token[i]) && token[i]
        == l[i] by {
        assert(l.take(19)[i] == token.take(19)[i]);
        assert(timestamp_char(l[i]));
    }
    assert(token[4] == l[4]);
    assert(timestamp_part(l) =~= timestamp_part(token));
    lemma_encoded_ends(token);
    lemma_encoded_contains(token, '-');
    assert(token.contains('-'));
}

/// A token that is left as it is.
spec fn settled(token: Seq<char>) -> bool {
    verdict_text(token_class(token, starts_with_iso8601(token)), token) == token
}

/// The spelling of a compound token is left as it is.
proof fn lemma_compound_settled(token: Seq<char>)
    requires
        token_class(token, starts_with_iso8601(token)) is Compound,
    ensures
        settled(lexed(token)),
{
    let l = lexed(token);
    let b = encode_utf8(token);
    let c = encode_utf8(l);
    if token.len() == 0 {
        assert(b =~= Seq::empty());
    }
    lemma_respelled(token);
    lemma_changed(token);
    if l != token {
        lemma_underscore(l);
        lemma_slashes(token);
        lemma_encoded_count(token, '/');
        lemma_encoded_count(l, '/');
        lemma_encoded_ends(token);
        lemma_encoded_ends(l);
        lemma_first(token);
        lemma_last(token);
        let at = choose|i: int| 0 <= i < c.len() && c[i] == 0x5f;
        assert(!is_hex(c[at]));
        assert(!crate::dedup::canon_freetext::uuid_form(c));
        assert(!crate::dedup::canon_freetext::mac_form(c));
        assert(!crate::dedup::canon_freetext::prefixed_hex_form(c)) by {
            if crate::dedup::canon_freetext::prefixed_hex_form(c) {
                assert(at >= 2);
                assert(c.skip(2)[at - 2] == c[at]);
            }
        }
        if timestamp_framed(l) {
            lemma_no_new_timestamp(token);
        }
        assert(!path_form(c)) by {
            if path_form(c) {
                assert(l[0] == '/');
                assert(token[0] == '/');
                assert(b[0] == 0x2f);
            }
        }
        assert(!quoted_form(c)) by {
            if quoted_form(c) {
                assert(l[0] == '"' || l[0] == '\'');
                assert(l.last() == '"' || l.last() == '\'');
                assert(token[0] == l[0]);
                assert(token.last() == l.last());
                assert(b[0] == c[0]);
                assert(b.last() == c.last());
            }
        }
    }
}

/// The texts that take the place of tokens.
spec fn is_mark(s: Seq<char>) -> bool {
    ||| s == "_UUID_"@
    ||| s == "_IPV6_"@
    ||| s == "_MAC_"@
    ||| s == "_IPV4_"@
    ||| s == "_HEX_"@
    ||| s == "_TS_"@
    ||| s == "_PATH_"@
    ||| s == "_N_"@
    ||| s == "_F_"@
    ||| s == "\"_\""@
}

proof fn lemma_mark(s: Seq<char>)
    requires
        is_mark(s),
    ensures
        is_ascii_chars(s),
        s.len() >= 3,
        s[1] == '_' || s[0] == '_',
        s[0] == '_' || s =~= seq!['"', '_', '"'],
        s[0] == '_' ==> s.last() == '_',
        s[0] == '_' ==> (forall|i: int|
            0 <= i < s.len() ==> !is_ascii_digit(#[trigger] s[i])) || s =~= seq![
            '_',
            'I',
            'P',
            'V',
            '6',
            '_',
        ] || s =~= seq!['_', 'I', 'P', 'V', '4', '_'],
        s.last() == '_' || s.last() == '"',
        forall|i: int| 0 <= i < s.len() ==> !is_whitespace(#[trigger] s[i]),
{
    reveal_strlit("_UUID_");
    reveal_strlit("_IPV6_");
    reveal_strlit("_MAC_");
    reveal_strlit("_IPV4_");
    reveal_strlit("_HEX_");
    reveal_strlit("_TS_");
    reveal_strlit("_PATH_");
    reveal_strlit("_N_");
    reveal_strlit("_F_");
    reveal_strlit("\"_\"");
}

/// An address mark is spelled as it is.
proof fn lemma_address_mark(s: Seq<char>)
    requires
        s == seq!['_', 'I', 'P', 'V', '6', '_'] || s == seq!['_', 'I', 'P', 'V', '4', '_'],
    ensures
        lexed(s) == s,
{
    let a = s.skip(1);
    let b = a.skip(3);
    let c = b.skip(1);
    let d = c.skip(1);
    lemma_prefix_len(a, letter_test(), 3);
    lemma_prefix_len(b, hex_test(), 1);
    assert(d =~= Seq::empty());
    assert(lexed(d) =~= Seq::empty());
    assert(c[0] == '_');
    assert(lexed(c) =~= seq!['_']);
    assert(b[0] == s[4] && is_ascii_digit(b[0]));
    assert(canonical_run(b.take(1)) == b.take(1));
    assert(lexed(b) =~= b.take(1) + lexed(c));
    assert(is_ascii_letter(a[0]));
    assert(lexed(a) =~= a.take(3) + lexed(b));
    assert(lexed(s) == seq![s[0]] + lexed(a));
    assert(lexed(s) =~= s);
}

/// A placeholder is left as it is.
proof fn lemma_mark_settled(s: Seq<char>)
    requires
        is_mark(s),
    ensures
        settled(s),
{
    let b = encode_utf8(s);
    lemma_mark(s);
    is_ascii_chars_encode_utf8(s);
    assert(s.contains('_')) by {
        assert(s[0] == '_' || s[1] == '_');
    }
    lemma_underscore(s);
    let at = choose|i: int| 0 <= i < b.len() && b[i] == 0x5f;
    assert(!is_hex(b[at]));
    assert(!crate::dedup::canon_freetext::uuid_form(b));
    assert(!crate::dedup::canon_freetext::mac_form(b));
    assert(b[0] == 0x5f || b[0] == 0x22) by {
        assert(b[0] == s[0] as u8);
    }
    assert(!timestamp_framed(s)) by {
        assert(!timestamp_char(s[0]));
    }
    if s[0] == '_' {
        assert(b[b.len() - 1] == 0x5f);
        if s =~= seq!['_', 'I', 'P', 'V', '6', '_'] || s =~= seq!['_', 'I', 'P', 'V', '4', '_'] {
            lemma_address_mark(s);
        } else {
            assert forall|i: int| 0 <= i < b.len() implies !is_digit(#[trigger] b[i]) by {
                assert(!is_ascii_digit(s[i]));
                assert('\0' <= s[i] <= '\u{7f}');
            }
        }
    } else {
        assert(b[0] == 0x22 && b[2] == 0x22);
    }
}

/// What is put in the place of a token is left as it is, and ends in
/// punctuation only where the token does.
proof fn lemma_verdict_settled(token: Seq<char>)
    requires
        token.len() > 0 ==> !trailing_punct()(token.last()),
    ensures
        ({
            let v = verdict_text(token_class(token, starts_with_iso8601(token)), token);
            &&& settled(v)
            &&& v.len() > 0 ==> !trailing_punct()(v.last())
        }),
{
    let class = token_class(token, starts_with_iso8601(token));
    match class {
        TokenVerdict::Preserve => {},
        TokenVerdict::Replace(mark) => {
            assert(is_mark(mark));
            lemma_mark(mark);
            lemma_mark_settled(mark);
        },
        TokenVerdict::Compound(_) => {
            lemma_compound_settled(token);
            if token.len() > 0 {
                lemma_last(token);
            }
        },
    }
}

/// A token is its core and punctuation.
proof fn lemma_core(token: Seq<char>)
    ensures
        token_core(token).len() <= token.len(),
        token_core(token) == token.take(token_core(token).len() as int),
        token_core(token).len() > 0 ==> !trailing_punct()(token_core(token).last()),
        forall|i: int|
            token_core(token).len() <= i < token.len() ==> trailing_punct()(#[trigger] token[i]),
    decreases token.len(),
{
    let p = trailing_punct();
    if token.len() > 0 && p(token.last()) {
        let init = token.drop_last();
        lemma_core(init);
        let n = token_core(token).len() as int;
        assert(init.take(n) =~= token.take(n));
        assert forall|i: int| n <= i < token.len() implies p(#[trigger] token[i]) by {
            if i < init.len() {
                assert(p(init[i]));
            }
        }
    } else {
        assert(token.take(token.len() as int) =~= token);
    }
}

proof fn lemma_core_of(core: Seq<char>, rest: Seq<char>)
    requires
        core.len() > 0 ==> !trailing_punct()(core.last()),
        forall|i: int| 0 <= i < rest.len() ==> trailing_punct()(#[trigger] rest[i]),
    ensures
        token_core(core + rest) == core,
    decreases rest.len(),
{
    if rest.len() == 0 {
        assert(core + rest =~= core);
    } else {
        let init = rest.drop_last();
        assert forall|i: int| 0 <= i < init.len() implies trailing_punct()(#[trigger] init[i]) by {
            assert(trailing_punct()(rest[i]));
        }
        lemma_core_of(core, init);
        assert((core + rest).drop_last() =~= core + init);
        assert(trailing_punct()(rest[rest.len() - 1]));
    }
}

/// The text of a token as the canonical form holds it.
spec fn rendered(w: Seq<char>) -> Seq<char> {
    rendered_token(w, starts_with_iso8601(token_core(w)))
}

proof fn lemma_rendered_twice(w: Seq<char>)
    ensures
        rendered(rendered(w)) == rendered(w),
{
    let core = token_core(w);
    lemma_core(w);
    lemma_verdict_settled(core);
    let v = verdict_text(token_class(core, starts_with_iso8601(core)), core);
    let rest = w.skip(core.len() as int);
    assert forall|i: int| 0 <= i < rest.len() implies trailing_punct()(#[trigger] rest[i]) by {
        assert(trailing_punct()(w[core.len() + i]));
    }
    lemma_core_of(v, rest);
    assert((v + rest).skip(v.len() as int) =~= rest);
}

/// A run of characters without white space.
spec fn is_word(w: Seq<char>) -> bool {
    w.len() > 0 && forall|i: int| 0 <= i < w.len() ==> !is_whitespace(#[trigger] w[i])
}

proof fn lemma_lexed_word(s: Seq<char>)
    requires
        forall|i: int| 0 <= i < s.len() ==> !is_whitespace(#[trigger] s[i]),
    ensures
        forall|i: int| 0 <= i < lexed(s).len() ==> !is_whitespace(#[trigger] lexed(s)[i]),
    decreases s.len(),
{
    if s.len() > 0 {
        reveal_strlit("_N_");
        reveal_strlit("_HEX_");
        lemma_piece(s);
        let n = piece_len(s);
        let rest = s.skip(n);
        assert forall|i: int| 0 <= i < rest.len() implies !is_whitespace(#[trigger] rest[i]) by {
            assert(rest[i] == s[n + i]);
        }
        lemma_lexed_word(rest);
        let head = piece(s);
        assert forall|i: int| 0 <= i < lexed(s).len() implies !is_whitespace(
            #[trigger] lexed(s)[i],
        ) by {
            if i < head.len() {
                assert(lexed(s)[i] == head[i]);
                if head == s.take(n) {
                    assert(head[i] == s[i]);
                }
            } else {
                assert(lexed(s)[i] == lexed(rest)[i - head.len()]);
            }
        }
    }
}

proof fn lemma_encoded_empty(s: Seq<char>)
    ensures
        encode_utf8(s).len() == 0 ==> s.len() == 0,
{
    if s.len() > 0 {
        vstd::utf8::encode_utf8_first_scalar(s);
        vstd::utf8::encode_utf8_decode_utf8(s);
    }
}

/// A word is rendered as a word.
proof fn lemma_rendered_word(w: Seq<char>)
    requires
        is_word(w),
    ensures
        is_word(rendered(w)),
{
    let core = token_core(w);
    lemma_core(w);
    assert forall|i: int| 0 <= i < core.len() implies !is_whitespace(#[trigger] core[i]) by {
        assert(core[i] == w[i]);
    }
    let class = token_class(core, starts_with_iso8601(core));
    let v = verdict_text(class, core);
    let rest = w.skip(core.len() as int);
    lemma_lexed_word(core);
    lemma_first(core);
    lemma_encoded_empty(core);
    if let TokenVerdict::Replace(mark) = class {
        assert(is_mark(mark));
        lemma_mark(mark);
    }
    assert forall|i: int| 0 <= i < rendered(w).len() implies !is_whitespace(
        #[trigger] rendered(w)[i],
    ) by {
        if i >= v.len() {
            assert(rendered(w)[i] == w[core.len() + (i - v.len())]);
        } else {
            assert(rendered(w)[i] == v[i]);
        }
    }
}

/// No piece holds white space.
spec fn are_clean(pieces: Seq<Seq<char>>) -> bool {
    forall|k: int, j: int|
        0 <= k < pieces.len() && 0 <= j < pieces[k].len() ==> !is_whitespace(
            #[trigger] pieces[k][j],
        )
}

/// The pieces of a text hold its characters and no white space.
proof fn lemma_split_words(s: Seq<char>)
    ensures
        split_where(s, |c: char| is_whitespace(c)).len() > 0,
        are_clean(split_where(s, |c: char| is_whitespace(c))),
    decreases s.len(),
{
    let f = |c: char| is_whitespace(c);
    if s.len() > 0 {
        let init = s.drop_last();
        lemma_split_words(init);
        let before = split_where(init, f);
        let all = split_where(s, f);
        let n = before.len() - 1;
        assert forall|k: int, j: int| 0 <= k < all.len() && 0 <= j < all[k].len() implies
            !is_whitespace(#[trigger] all[k][j]) by {
            if k < before.len() && j < before[k].len() {
                assert(!is_whitespace(before[k][j]));
                assert(all[k][j] == before[k][j]);
            }
        }
    }
}

proof fn lemma_filter_keeps(s: Seq<Seq<char>>, p: spec_fn(Seq<char>) -> bool)
    ensures
        forall|i: int|
            0 <= i < s.filter(p).len() ==> p(#[trigger] s.filter(p)[i]) && s.contains(
                s.filter(p)[i],
            ),
        (forall|i: int| 0 <= i < s.len() ==> p(#[trigger] s[i])) ==> s.filter(p) == s,
    decreases s.len(),
{
    reveal(Seq::filter);
    if s.len() > 0 {
        let init = s.drop_last();
        lemma_filter_keeps(init, p);
        let kept = s.filter(p);
        assert forall|i: int| 0 <= i < kept.len() implies p(#[trigger] kept[i]) && s.contains(
            kept[i],
        ) by {
            if i < init.filter(p).len() {
                assert(kept[i] == init.filter(p)[i]);
                let j = choose|j: int| 0 <= j < init.len() && init[j] == kept[i];
                assert(init.contains(kept[i]));
                assert(s[j] == kept[i]);
            } else {
                assert(s[s.len() - 1] == kept[i]);
            }
        }
        if forall|i: int| 0 <= i < s.len() ==> p(#[trigger] s[i]) {
            assert forall|i: int| 0 <= i < init.len() implies p(#[trigger] init[i]) by {
                assert(p(s[i]));
            }
            assert(p(s[s.len() - 1]));
            assert(init.push(s.last()) =~= s);
        }
    } else {
        assert(s.filter(p) =~= s);
    }
}

/// What the words of a text are.
proof fn lemma_words(s: Seq<char>, i: int)
    requires
        0 <= i < words(s).len(),
    ensures
        is_word(words(s)[i]),
{
    let pieces = split_where(s, |c: char| is_whitespace(c));
    let keep = |w: Seq<char>| w.len() > 0;
    lemma_split_words(s);
    lemma_filter_keeps(pieces, keep);
    let w = words(s)[i];
    assert(keep(w));
    let k = choose|k: int| 0 <= k < pieces.len() && pieces[k] == w;
    assert(pieces.contains(w));
    assert forall|j: int| 0 <= j < w.len() implies !is_whitespace(#[trigger] w[j]) by {
        assert(!is_whitespace(pieces[k][j]));
    }
}

/// A word behind a text is a piece of its own, or goes on with the last one.
proof fn lemma_split_behind(a: Seq<char>, w: Seq<char>)
    requires
        forall|i: int| 0 <= i < w.len() ==> !is_whitespace(#[trigger] w[i]),
    ensures
        ({
            let f = |c: char| is_whitespace(c);
            let before = split_where(a, f);
            &&& before.len() > 0
            &&& split_where(a + w, f) == before.drop_last().push(before.last() + w)
        }),
    decreases w.len(),
{
    let f = |c: char| is_whitespace(c);
    let before = split_where(a, f);
    lemma_split_words(a);
    if w.len() == 0 {
        assert(a + w =~= a);
        assert(before.last() + w =~= before.last());
        assert(before.drop_last().push(before.last()) =~= before);
    } else {
        let init = w.drop_last();
        assert forall|i: int| 0 <= i < init.len() implies !is_whitespace(#[trigger] init[i]) by {
            assert(!is_whitespace(w[i]));
        }
        lemma_split_behind(a, init);
        assert((a + w).drop_last() =~= a + init);
        assert(!is_whitespace(w[w.len() - 1]));
        let mid = split_where(a + init, f);
        assert(mid.drop_last() =~= before.drop_last());
        assert((before.last() + init).push(w.last()) =~= before.last() + w);
    }
}

/// Words that are joined by spaces are the words of the result.
proof fn lemma_words_of_joined(ws: Seq<Seq<char>>)
    requires
        forall|i: int| 0 <= i < ws.len() ==> is_word(#[trigger] ws[i]),
    ensures
        words(joined(ws, " "@)) == ws,
{
    let f = |c: char| is_whitespace(c);
    let keep = |w: Seq<char>| w.len() > 0;
    if ws.len() == 0 {
        reveal(Seq::filter);
        let one = split_where(joined(ws, " "@), f);
        assert(one == seq![Seq::<char>::empty()]);
        assert(one.drop_last() =~= Seq::empty());
        assert(one.drop_last().filter(keep) =~= Seq::empty());
        assert(one.filter(keep) =~= Seq::empty());
        assert(words(joined(ws, " "@)) =~= ws);
    } else {
        lemma_split_joined(ws);
        assert forall|i: int| 0 <= i < ws.len() implies keep(#[trigger] ws[i]) by {
            assert(is_word(ws[i]));
        }
        lemma_filter_keeps(ws, keep);
    }
}

proof fn lemma_split_joined(ws: Seq<Seq<char>>)
    requires
        ws.len() > 0,
        forall|i: int| 0 <= i < ws.len() ==> is_word(#[trigger] ws[i]),
    ensures
        split_where(joined(ws, " "@), |c: char| is_whitespace(c)) == ws,
    decreases ws.len(),
{
    reveal_strlit(" ");
    let f = |c: char| is_whitespace(c);
    assert(is_word(ws[ws.len() - 1]));
    if ws.len() == 1 {
        let none = Seq::<char>::empty();
        lemma_split_behind(none, ws[0]);
        assert(none + ws[0] =~= ws[0]);
        assert(split_where(none, f) =~= seq![none]);
        assert(seq![none].drop_last().push(none + ws[0]) =~= ws);
    } else {
        let init = ws.drop_last();
        assert forall|i: int| 0 <= i < init.len() implies is_word(#[trigger] init[i]) by {
            assert(is_word(ws[i]));
        }
        lemma_split_joined(init);
        let front = joined(init, " "@) + " "@;
        assert(front.drop_last() =~= joined(init, " "@));
        assert(split_where(front, f) =~= init.push(Seq::empty()));
        lemma_split_behind(front, ws.last());
        assert(front + ws.last() =~= joined(ws, " "@));
        assert(init.push(Seq::empty()).drop_last() =~= init);
        assert(Seq::<char>::empty() + ws.last() =~= ws.last());
        assert(init.push(ws.last()) =~= ws);
    }
}

/// The canonical form has as many words as the body.
pub proof fn law_words_are_kept(body: Seq<char>)
    ensures
        words(freetext_canon(body)).len() == words(body).len(),
{
    let ws = words(body);
    let render = |w: Seq<char>| rendered_token(w, starts_with_iso8601(token_core(w)));
    let out = ws.map_values(render);
    assert forall|i: int| 0 <= i < out.len() implies is_word(#[trigger] out[i]) by {
        lemma_words(body, i);
        lemma_rendered_word(ws[i]);
        assert(out[i] == rendered(ws[i]));
    }
    lemma_words_of_joined(out);
}

/// A second pass changes nothing.
pub proof fn law_second_pass_changes_nothing(body: Seq<char>)
    ensures
        freetext_canon(freetext_canon(body)) == freetext_canon(body),
{
    let ws = words(body);
    let render = |w: Seq<char>| rendered_token(w, starts_with_iso8601(token_core(w)));
    let out = ws.map_values(render);
    assert forall|i: int| 0 <= i < out.len() implies is_word(#[trigger] out[i]) && render(out[i])
        == out[i] by {
        lemma_words(body, i);
        lemma_rendered_word(ws[i]);
        lemma_rendered_twice(ws[i]);
        assert(out[i] == rendered(ws[i]));
    }
    lemma_words_of_joined(out);
    assert(out.map_values(render) =~= out);
}

} // verus!
