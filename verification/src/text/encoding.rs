//! Characters and the bytes that encode them.
use vstd::prelude::*;
use vstd::utf8::{
    encode_scalar, encode_utf8, encode_utf8_first_scalar, is_ascii_chars_encode_utf8,
};

use crate::text::seqs::{count_of, count_where, equals, lemma_count_concat, lemma_count_none};

verus! {

/// A character of ASCII is one byte of the same value, any other is several
/// bytes outside ASCII.
proof fn lemma_one_character(c: char)
    ensures
        '\0' <= c <= '\u{7f}' ==> encode_scalar(c as u32) == seq![c as u8] && (c as u8) < 0x80
            && c as u8 as char == c,
        '\0' <= c,
        c > '\u{7f}' ==> encode_scalar(c as u32).len() >= 2 && forall|i: int|
            0 <= i < encode_scalar(c as u32).len() ==> #[trigger] encode_scalar(c as u32)[i]
                >= 0x80,
{
    let s = seq![c];
    let b = encode_scalar(c as u32);
    assert(s.drop_first() =~= Seq::empty());
    assert(encode_utf8(s.drop_first()) =~= Seq::empty());
    assert(encode_utf8(s) =~= b);
    encode_utf8_first_scalar(s);
    if c <= '\u{7f}' {
        is_ascii_chars_encode_utf8(s);
        assert(b =~= seq![c as u8]);
        assert(c as u8 as int == c as int);
    }
}

/// The ends of a text and the ends of its bytes agree wherever they are ASCII.
pub proof fn lemma_encoded_ends(s: Seq<char>)
    requires
        s.len() > 0,
    ensures
        encode_utf8(s).len() >= s.len(),
        encode_utf8(s)[0] < 0x80 <==> s[0] <= '\u{7f}',
        s[0] <= '\u{7f}' ==> encode_utf8(s)[0] == s[0] as u8,
        encode_utf8(s).last() < 0x80 <==> s.last() <= '\u{7f}',
        s.last() <= '\u{7f}' ==> encode_utf8(s).last() == s.last() as u8,
    decreases s.len(),
{
    let head = encode_scalar(s[0] as u32);
    let rest = s.drop_first();
    let b = encode_utf8(s);
    assert(b == head + encode_utf8(rest));
    lemma_one_character(s[0]);
    assert(head.len() >= 1);
    assert(b[0] == head[0]);
    if s.len() > 1 {
        lemma_encoded_ends(rest);
        assert(rest.last() == s.last());
        assert(b.last() == encode_utf8(rest).last());
    } else {
        assert(encode_utf8(rest) =~= Seq::empty());
        assert(b =~= head);
        assert(b.last() == head[head.len() - 1]);
    }
}

/// A text has an ASCII character exactly as often as its bytes have its value.
pub proof fn lemma_encoded_count(s: Seq<char>, c: char)
    requires
        c <= '\u{7f}',
    ensures
        count_of(encode_utf8(s), c as u8) == count_of(s, c),
    decreases s.len(),
{
    let p = equals(c);
    let q = equals(c as u8);
    lemma_one_character(c);
    if s.len() > 0 {
        let first = s[0];
        let head = encode_scalar(first as u32);
        let rest = s.drop_first();
        lemma_encoded_count(rest, c);
        lemma_one_character(first);
        lemma_count_concat(seq![first], rest, p);
        lemma_count_concat(head, encode_utf8(rest), q);
        assert(seq![first] + rest =~= s);
        assert(count_where(seq![first].drop_last(), p) == 0);
        if first <= '\u{7f}' {
            assert(count_where(head.drop_last(), q) == 0);
            assert((first as u8 == c as u8) == (first == c));
            assert(count_where(head, q) == count_where(seq![first], p));
        } else {
            assert forall|i: int| 0 <= i < head.len() implies !q(#[trigger] head[i]) by {
                assert(head[i] >= 0x80);
            }
            lemma_count_none(head, q);
            assert(count_where(seq![first], p) == 0);
        }
    } else {
        assert(encode_utf8(s) =~= Seq::empty());
    }
}

/// A text holds an ASCII character exactly where its bytes hold its value.
pub proof fn lemma_encoded_contains(s: Seq<char>, c: char)
    requires
        c <= '\u{7f}',
    ensures
        encode_utf8(s).contains(c as u8) == s.contains(c),
    decreases s.len(),
{
    if s.len() > 0 {
        let first = s[0];
        let head = encode_scalar(first as u32);
        let rest = s.drop_first();
        let b = encode_utf8(s);
        let tail = encode_utf8(rest);
        lemma_encoded_contains(rest, c);
        lemma_one_character(first);
        assert(b == head + tail);
        if s.contains(c) {
            let i = choose|i: int| 0 <= i < s.len() && s[i] == c;
            if i == 0 {
                assert(b[0] == head[0]);
            } else {
                assert(rest[i - 1] == c);
                let j = choose|j: int| 0 <= j < tail.len() && tail[j] == c as u8;
                assert(b[head.len() + j] == c as u8);
            }
        }
        if b.contains(c as u8) {
            let i = choose|i: int| 0 <= i < b.len() && b[i] == c as u8;
            if i < head.len() {
                assert(head[i] == c as u8);
                lemma_one_character(c);
                assert(s[0] == c);
            } else {
                assert(tail[i - head.len()] == c as u8);
                let j = choose|j: int| 0 <= j < rest.len() && rest[j] == c;
                assert(s[j + 1] == c);
            }
        }
    } else {
        assert(encode_utf8(s) =~= Seq::empty());
    }
}

} // verus!
