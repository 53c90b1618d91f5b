//! What splitting, joining, trimming and replacing do to a text.
use vstd::prelude::*;

use crate::text::chars::{ascii_lower, ascii_upper, is_whitespace};
use crate::text::seqs::{
    joined, replaced, split_on, trim, trim_end, trim_end_where, trim_start, trim_start_where,
};

verus! {

proof fn lemma_joined_push(parts: Seq<Seq<char>>, x: Seq<char>, sep: Seq<char>)
    requires
        parts.len() > 0,
    ensures
        joined(parts.push(x), sep) == joined(parts, sep) + sep + x,
{
    assert(parts.push(x).drop_last() =~= parts);
}

/// The pieces of a text between occurrences of a separator, put together again
/// with the separator between them, are the text; and no piece holds it.
pub proof fn law_pieces_make_up_the_text(s: Seq<char>, sep: char)
    ensures
        split_on(s, sep).len() > 0,
        joined(split_on(s, sep), seq![sep]) == s,
        forall|i: int|
            0 <= i < split_on(s, sep).len() ==> !(#[trigger] split_on(s, sep)[i]).contains(sep),
    decreases s.len(),
{
    let all = split_on(s, sep);
    if s.len() == 0 {
        assert(joined(all, seq![sep]) =~= s);
    } else {
        let init = s.drop_last();
        let before = split_on(init, sep);
        law_pieces_make_up_the_text(init, sep);
        if s.last() == sep {
            lemma_joined_push(before, Seq::empty(), seq![sep]);
            assert(joined(all, seq![sep]) =~= s);
        } else {
            let front = before.drop_last();
            let last = before.last();
            assert(front.push(last) =~= before);
            if front.len() > 0 {
                lemma_joined_push(front, last, seq![sep]);
                lemma_joined_push(front, last.push(s.last()), seq![sep]);
            }
            assert(joined(all, seq![sep]) =~= joined(before, seq![sep]).push(s.last()));
            assert(init.push(s.last()) =~= s);
            assert(!last.contains(sep));
            assert(!last.push(s.last()).contains(sep)) by {
                if last.push(s.last()).contains(sep) {
                    let i = choose|i: int|
                        0 <= i < last.push(s.last()).len() && last.push(s.last())[i] == sep;
                    assert(last[i] == sep);
                }
            }
        }
        assert forall|i: int| 0 <= i < all.len() implies !(#[trigger] all[i]).contains(sep) by {
            if i < before.len() - 1 {
                assert(!before[i].contains(sep));
            } else if i < before.len() && s.last() == sep {
                assert(!before[i].contains(sep));
            }
        }
    }
}

proof fn lemma_trim_start(s: Seq<char>)
    ensures
        ({
            let t = trim_start(s);
            let k = s.len() - t.len();
            &&& 0 <= k <= s.len()
            &&& t == s.skip(k)
            &&& forall|i: int| 0 <= i < k ==> is_whitespace(#[trigger] s[i])
            &&& t.len() > 0 ==> !is_whitespace(t[0])
        }),
    decreases s.len(),
{
    let f = |c: char| is_whitespace(c);
    let t = trim_start_where(s, f);
    assert(t == trim_start(s));
    if s.len() > 0 && f(s.first()) {
        let rest = s.drop_first();
        lemma_trim_start(rest);
        assert(trim_start(rest) == trim_start_where(rest, f));
        let k = rest.len() - t.len();
        assert(t =~= s.skip(k + 1));
        assert forall|i: int| 0 <= i < k + 1 implies is_whitespace(#[trigger] s[i]) by {
            if i > 0 {
                assert(s[i] == rest[i - 1]);
            }
        }
    } else {
        assert(t =~= s.skip(0));
    }
}

proof fn lemma_trim_end(s: Seq<char>)
    ensures
        ({
            let t = trim_end(s);
            &&& t.len() <= s.len()
            &&& t == s.take(t.len() as int)
            &&& forall|i: int| t.len() <= i < s.len() ==> is_whitespace(#[trigger] s[i])
            &&& t.len() > 0 ==> !is_whitespace(t.last())
        }),
    decreases s.len(),
{
    let f = |c: char| is_whitespace(c);
    let t = trim_end_where(s, f);
    assert(t == trim_end(s));
    if s.len() > 0 && f(s.last()) {
        let rest = s.drop_last();
        lemma_trim_end(rest);
        assert(trim_end(rest) == trim_end_where(rest, f));
        assert(t =~= s.take(t.len() as int));
        assert forall|i: int| t.len() <= i < s.len() implies is_whitespace(#[trigger] s[i]) by {
            if i < rest.len() {
                assert(s[i] == rest[i]);
            }
        }
    } else {
        assert(t =~= s.take(t.len() as int));
    }
}

/// Trimming takes away white space at both ends, all of it and nothing else.
pub proof fn law_trimming_takes_only_white_space(s: Seq<char>)
    ensures
        exists|a: int, b: int|
            {
                &&& 0 <= a <= b <= s.len()
                &&& trim(s) == #[trigger] s.subrange(a, b)
                &&& forall|i: int|
                    0 <= i < s.len() && (i < a || i >= b) ==> is_whitespace(#[trigger] s[i])
            },
        trim(s).len() > 0 ==> !is_whitespace(trim(s).first()) && !is_whitespace(trim(s).last()),
{
    let t = trim_start(s);
    lemma_trim_start(s);
    lemma_trim_end(t);
    let a = s.len() - t.len();
    let b = a + trim(s).len();
    assert(trim(s) =~= s.subrange(a, b));
    assert forall|i: int| 0 <= i < s.len() && (i < a || i >= b) implies is_whitespace(
        #[trigger] s[i],
    ) by {
        if i >= b {
            assert(s[i] == t[i - a]);
        }
    }
    if trim(s).len() > 0 {
        assert(trim(s)[0] == t[0]);
    }
}

/// Replacing a character replaces each occurrence of it and leaves every other
/// character.
pub proof fn law_each_occurrence_is_replaced(a: Seq<char>, x: char, c: char, with: Seq<char>)
    ensures
        replaced(Seq::empty(), seq![c], with).len() == 0,
        replaced(seq![x] + a, seq![c], with) == if x == c {
            with + replaced(a, seq![c], with)
        } else {
            seq![x] + replaced(a, seq![c], with)
        },
{
    let s = seq![x] + a;
    assert(s.drop_first() =~= a);
    assert(s.skip(1) =~= a);
    assert(s.subrange(0, 1) =~= seq![x]);
    if x != c {
        assert(seq![x][0] != seq![c][0]);
    }
}

/// Capital letters and small letters of ASCII stand for each other; nothing
/// else is changed.
pub proof fn law_letters_have_two_forms(c: char)
    ensures
        'a' <= c <= 'z' ==> ascii_lower(c) == c && 'A' <= ascii_upper(c) <= 'Z' && ascii_lower(
            ascii_upper(c),
        ) == c && ascii_upper(c) as int - 'A' as int == c as int - 'a' as int,
        'A' <= c <= 'Z' ==> ascii_upper(c) == c && 'a' <= ascii_lower(c) <= 'z' && ascii_upper(
            ascii_lower(c),
        ) == c,
        !('a' <= c <= 'z' || 'A' <= c <= 'Z') ==> ascii_lower(c) == c && ascii_upper(c) == c,
{
}

} // verus!
