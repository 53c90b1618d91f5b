//! Splitting, joining and searching sequences.
use vstd::prelude::*;

use crate::text::chars::{char_is_whitespace, is_whitespace};
use crate::text::strings::{push_char, string_between, texts};

verus! {

/// The pieces of `s` between the elements that satisfy `is_sep`. There is
/// always one piece more than there are separators.
pub open spec fn split_where<A>(s: Seq<A>, is_sep: spec_fn(A) -> bool) -> Seq<Seq<A>>
    decreases s.len(),
{
    if s.len() == 0 {
        seq![Seq::empty()]
    } else {
        let before = split_where(s.drop_last(), is_sep);
        if is_sep(s.last()) {
            before.push(Seq::empty())
        } else {
            before.drop_last().push(before.last().push(s.last()))
        }
    }
}

/// The test that only `x` passes.
pub open spec fn equals<A>(x: A) -> spec_fn(A) -> bool {
    |y: A| y == x
}

/// The pieces of `s` between occurrences of `sep`.
pub open spec fn split_on<A>(s: Seq<A>, sep: A) -> Seq<Seq<A>> {
    split_where(s, equals(sep))
}

/// The maximal runs of characters without white space.
pub open spec fn words(s: Seq<char>) -> Seq<Seq<char>> {
    split_where(s, |c: char| is_whitespace(c)).filter(|w: Seq<char>| w.len() > 0)
}

/// `parts` with `sep` between neighbours.
pub open spec fn joined(parts: Seq<Seq<char>>, sep: Seq<char>) -> Seq<char>
    decreases parts.len(),
{
    if parts.len() == 0 {
        Seq::empty()
    } else if parts.len() == 1 {
        parts[0]
    } else {
        joined(parts.drop_last(), sep) + sep + parts.last()
    }
}

/// `s` stands in `t` at index `at`.
pub open spec fn occurs_at<A>(t: Seq<A>, s: Seq<A>, at: int) -> bool {
    0 <= at && at + s.len() <= t.len() && t.subrange(at, at + s.len()) == s
}

/// `s` stands somewhere in `t`.
pub open spec fn contains_seq<A>(t: Seq<A>, s: Seq<A>) -> bool {
    exists|at: int| #[trigger] occurs_at(t, s, at)
}

/// How many elements of `s` satisfy `p`.
pub open spec fn count_where<A>(s: Seq<A>, p: spec_fn(A) -> bool) -> nat
    decreases s.len(),
{
    if s.len() == 0 {
        0
    } else {
        count_where(s.drop_last(), p) + if p(s.last()) {
            1nat
        } else {
            0nat
        }
    }
}

/// How often `x` occurs in `s`.
pub open spec fn count_of<A>(s: Seq<A>, x: A) -> nat {
    count_where(s, equals(x))
}

/// The length of the longest prefix of `s` whose elements all satisfy `p`.
pub open spec fn prefix_len<A>(s: Seq<A>, p: spec_fn(A) -> bool) -> nat
    decreases s.len(),
{
    if s.len() > 0 && p(s.first()) {
        1 + prefix_len(s.drop_first(), p)
    } else {
        0
    }
}

/// `prefix_len` is the index that ends the longest such prefix.
pub proof fn lemma_prefix_len<A>(s: Seq<A>, p: spec_fn(A) -> bool, n: int)
    requires
        0 <= n <= s.len(),
        forall|i: int| 0 <= i < n ==> p(#[trigger] s[i]),
        n < s.len() ==> !p(s[n]),
    ensures
        prefix_len(s, p) == n,
    decreases n,
{
    if n > 0 {
        assert(p(s[0]));
        assert forall|i: int| 0 <= i < n - 1 implies p(#[trigger] s.drop_first()[i]) by {
            assert(p(s[i + 1]));
        }
        lemma_prefix_len(s.drop_first(), p, n - 1);
    }
}

/// `s` without the leading elements that satisfy `p`.
pub open spec fn trim_start_where<A>(s: Seq<A>, p: spec_fn(A) -> bool) -> Seq<A>
    decreases s.len(),
{
    if s.len() > 0 && p(s.first()) {
        trim_start_where(s.drop_first(), p)
    } else {
        s
    }
}

/// `s` without the trailing elements that satisfy `p`.
pub open spec fn trim_end_where<A>(s: Seq<A>, p: spec_fn(A) -> bool) -> Seq<A>
    decreases s.len(),
{
    if s.len() > 0 && p(s.last()) {
        trim_end_where(s.drop_last(), p)
    } else {
        s
    }
}

/// `s` without leading white space.
pub open spec fn trim_start(s: Seq<char>) -> Seq<char> {
    trim_start_where(s, |c: char| is_whitespace(c))
}

/// `s` without trailing white space.
pub open spec fn trim_end(s: Seq<char>) -> Seq<char> {
    trim_end_where(s, |c: char| is_whitespace(c))
}

/// `s` without leading and trailing white space.
pub open spec fn trim(s: Seq<char>) -> Seq<char> {
    trim_end(trim_start(s))
}

/// The pieces of `b` between occurrences of the byte `sep`.
pub fn split_bytes(b: &[u8], sep: u8) -> (v: Vec<Vec<u8>>)
    ensures
        v@.map_values(|p: Vec<u8>| p@) == split_on(b@, sep),
{
    let mut done: Vec<Vec<u8>> = Vec::new();
    let mut cur: Vec<u8> = Vec::new();
    let ghost f = equals(sep);
    assert(b@.take(0) =~= Seq::empty());
    assert(done@.map_values(|p: Vec<u8>| p@).push(cur@) =~= split_where(b@.take(0), f));
    for i in 0..b.len()
        invariant
            f == equals(sep),
            done@.map_values(|p: Vec<u8>| p@).push(cur@) == split_where(b@.take(i as int), f),
    {
        let c: u8 = b[i];
        let ghost before = done@.map_values(|p: Vec<u8>| p@).push(cur@);
        assert(b@.take(i + 1).drop_last() =~= b@.take(i as int));
        assert(before.drop_last() =~= done@.map_values(|p: Vec<u8>| p@));
        if c == sep {
            let ghost done0 = done@;
            done.push(cur);
            cur = Vec::new();
            assert(done@.map_values(|p: Vec<u8>| p@) =~= before);
            assert(cur@ =~= Seq::<u8>::empty());
        } else {
            cur.push(c);
        }
    }
    assert(b@.take(b@.len() as int) =~= b@);
    let ghost done0 = done@;
    done.push(cur);
    assert(done@.map_values(|p: Vec<u8>| p@) =~= done0.map_values(|p: Vec<u8>| p@).push(cur@));
    done
}

/// The pieces of `s` between occurrences of the character `sep`.
pub fn split_chars(s: &[char], sep: char) -> (v: Vec<String>)
    ensures
        texts(v@) == split_on(s@, sep),
{
    let mut done: Vec<String> = Vec::new();
    let mut cur: String = String::new();
    let ghost f = equals(sep);
    assert(s@.take(0) =~= Seq::empty());
    assert(texts(done@).push(cur@) =~= split_where(s@.take(0), f));
    for i in 0..s.len()
        invariant
            f == equals(sep),
            texts(done@).push(cur@) == split_where(s@.take(i as int), f),
    {
        let c: char = s[i];
        let ghost before = texts(done@).push(cur@);
        assert(s@.take(i + 1).drop_last() =~= s@.take(i as int));
        assert(before.drop_last() =~= texts(done@));
        if c == sep {
            done.push(cur);
            cur = String::new();
            assert(texts(done@) =~= before);
        } else {
            push_char(&mut cur, c);
        }
    }
    assert(s@.take(s@.len() as int) =~= s@);
    let ghost done0 = done@;
    done.push(cur);
    assert(texts(done@) =~= texts(done0).push(cur@));
    done
}

/// The words of `s`.
pub fn words_of(s: &[char]) -> (v: Vec<String>)
    ensures
        texts(v@) == words(s@),
{
    let mut done: Vec<String> = Vec::new();
    let mut cur: String = String::new();
    let ghost f = |c: char| is_whitespace(c);
    let ghost keep = |w: Seq<char>| w.len() > 0;
    let ghost mut pieces: Seq<Seq<char>> = seq![];
    proof {
        assert(s@.take(0) =~= Seq::empty());
        assert(pieces.push(cur@) =~= split_where(s@.take(0), f));
        reveal(Seq::filter);
        assert(texts(done@) =~= pieces.filter(keep));
    }
    for i in 0..s.len()
        invariant
            f == (|c: char| is_whitespace(c)),
            keep == (|w: Seq<char>| w.len() > 0),
            pieces.push(cur@) == split_where(s@.take(i as int), f),
            texts(done@) == pieces.filter(keep),
    {
        let c: char = s[i];
        let ghost before = pieces.push(cur@);
        assert(s@.take(i + 1).drop_last() =~= s@.take(i as int));
        assert(before.drop_last() =~= pieces);
        if char_is_whitespace(c) {
            proof {
                reveal(Seq::filter);
                pieces = before;
            }
            let ghost cur0 = cur@;
            let ghost done0 = texts(done@);
            if cur.as_str().is_empty() {
            } else {
                done.push(cur);
                assert(texts(done@) =~= done0.push(cur0));
            }
            cur = String::new();
        } else {
            push_char(&mut cur, c);
        }
    }
    assert(s@.take(s@.len() as int) =~= s@);
    proof {
        reveal(Seq::filter);
        assert(pieces.push(cur@).drop_last() =~= pieces);
    }
    let ghost done0 = texts(done@);
    if !cur.as_str().is_empty() {
        done.push(cur);
        assert(texts(done@) =~= done0.push(cur@));
    }
    done
}

/// `parts` with `sep` between neighbours.
pub fn join_strings(parts: &Vec<String>, sep: &str) -> (r: String)
    ensures
        r@ == joined(texts(parts@), sep@),
{
    let mut r: String = String::new();
    assert(texts(parts@).take(0) =~= Seq::empty());
    for i in 0..parts.len()
        invariant
            r@ == joined(texts(parts@).take(i as int), sep@),
    {
        let ghost now = texts(parts@).take(i + 1);
        assert(now.drop_last() =~= texts(parts@).take(i as int));
        assert(now.last() == parts@[i as int]@);
        if i > 0 {
            r.append(sep);
        }
        r.append(parts[i].as_str());
        proof {
            if i == 0 {
                assert(r@ =~= parts@[0]@);
            }
        }
    }
    assert(texts(parts@).take(parts@.len() as int) =~= texts(parts@));
    r
}

/// Whether `s` stands in `t` at index `at`.
pub fn occurs_here(t: &[char], s: &[char], at: usize) -> (r: bool)
    ensures
        r == occurs_at(t@, s@, at as int),
{
    if t.len() < s.len() || t.len() - s.len() < at {
        return false;
    }
    let n = s.len();
    let limit = t.len();
    for k in 0..n
        invariant
            n == s@.len(),
            limit == t@.len(),
            at + n <= limit,
            forall|j: int| 0 <= j < k ==> t@[at + j] == s@[j],
    {
        if t[at + k] != s[k] {
            assert(t@.subrange(at as int, at + s@.len())[k as int] != s@[k as int]);
            return false;
        }
    }
    assert(t@.subrange(at as int, at + s@.len()) =~= s@);
    true
}

/// Whether `s` stands somewhere in `t`.
pub fn has_seq(t: &[char], s: &[char]) -> (r: bool)
    ensures
        r == contains_seq(t@, s@),
{
    let n = t.len();
    for at in 0..n
        invariant
            n == t@.len(),
            forall|j: int| 0 <= j < at ==> !#[trigger] occurs_at(t@, s@, j),
    {
        if occurs_here(t, s, at) {
            return true;
        }
    }
    let r = occurs_here(t, s, n);
    assert(!r ==> forall|j: int| !#[trigger] occurs_at(t@, s@, j));
    r
}

/// Whether `c` occurs in `t`.
pub fn has_char(t: &[char], c: char) -> (r: bool)
    ensures
        r == t@.contains(c),
{
    for i in 0..t.len()
        invariant
            forall|j: int| 0 <= j < i ==> t@[j] != c,
    {
        if t[i] == c {
            return true;
        }
    }
    false
}

/// The number of leading white-space characters.
fn leading_whitespace(s: &[char]) -> (n: usize)
    ensures
        n <= s@.len(),
        s@.skip(n as int) == trim_start(s@),
{
    let ghost f = |c: char| is_whitespace(c);
    let mut n: usize = 0;
    assert(s@.skip(0) =~= s@);
    while n < s.len() && char_is_whitespace(s[n])
        invariant
            n <= s@.len(),
            f == (|c: char| is_whitespace(c)),
            trim_start_where(s@.skip(n as int), f) == trim_start_where(s@, f),
        decreases s@.len() - n,
    {
        assert(s@.skip(n as int).drop_first() =~= s@.skip(n + 1));
        n = n + 1;
    }
    n
}

/// Where the trailing white space of `s` begins.
fn end_of_text(s: &[char]) -> (n: usize)
    ensures
        n <= s@.len(),
        s@.take(n as int) == trim_end(s@),
{
    let ghost f = |c: char| is_whitespace(c);
    let mut n: usize = s.len();
    assert(s@.take(n as int) =~= s@);
    while n > 0 && char_is_whitespace(s[n - 1])
        invariant
            n <= s@.len(),
            f == (|c: char| is_whitespace(c)),
            trim_end_where(s@.take(n as int), f) == trim_end_where(s@, f),
        decreases n,
    {
        assert(s@.take(n as int).drop_last() =~= s@.take(n - 1));
        n = n - 1;
    }
    n
}

/// `s` without leading white space.
pub fn trimmed_start(s: &[char]) -> (r: String)
    ensures
        r@ == trim_start(s@),
{
    let n = leading_whitespace(s);
    string_between(s, n, s.len())
}

/// `s` without leading and trailing white space.
pub fn trimmed(s: &[char]) -> (r: String)
    ensures
        r@ == trim(s@),
{
    let n = leading_whitespace(s);
    let rest = string_between(s, n, s.len());
    let chars = crate::text::strings::chars_of(rest.as_str());
    let end = end_of_text(&chars);
    string_between(&chars, 0, end)
}

/// Where `c` first occurs in `s`; the length of `s` where it does not occur.
pub open spec fn first_index<A>(s: Seq<A>, c: A) -> int
    decreases s.len(),
{
    if s.len() == 0 || s.first() == c {
        0
    } else {
        1 + first_index(s.drop_first(), c)
    }
}

/// What `first_index` means.
pub proof fn lemma_first_index<A>(s: Seq<A>, c: A, i: int)
    requires
        0 <= i <= s.len(),
        forall|j: int| 0 <= j < i ==> s[j] != c,
        i < s.len() ==> s[i] == c,
    ensures
        first_index(s, c) == i,
    decreases i,
{
    if i > 0 {
        assert(s[0] != c);
        assert forall|j: int| 0 <= j < i - 1 implies s.drop_first()[j] != c by {
            assert(s[j + 1] != c);
        }
        lemma_first_index(s.drop_first(), c, i - 1);
    }
}

/// Where `c` first occurs in `s`; the length of `s` where it does not occur.
pub fn index_of_char(s: &[char], c: char) -> (i: usize)
    ensures
        i <= s@.len(),
        i == first_index(s@, c),
        forall|j: int| 0 <= j < i ==> s@[j] != c,
        i < s@.len() ==> s@[i as int] == c,
{
    let mut i: usize = 0;
    while i < s.len() && s[i] != c
        invariant
            i <= s@.len(),
            forall|j: int| 0 <= j < i ==> s@[j] != c,
        decreases s@.len() - i,
    {
        i = i + 1;
    }
    proof {
        lemma_first_index(s@, c, i as int);
    }
    i
}

/// `s` with every occurrence of `pat` replaced by `with`, found from left to
/// right without overlap. An empty pattern occurs before every character and
/// at the end.
pub open spec fn replaced(s: Seq<char>, pat: Seq<char>, with: Seq<char>) -> Seq<char>
    decreases s.len(),
{
    if pat.len() == 0 {
        if s.len() == 0 {
            with
        } else {
            with + seq![s[0]] + replaced(s.drop_first(), pat, with)
        }
    } else if s.len() == 0 {
        s
    } else if occurs_at(s, pat, 0) {
        with + replaced(s.skip(pat.len() as int), pat, with)
    } else {
        seq![s[0]] + replaced(s.drop_first(), pat, with)
    }
}

/// `s` with every occurrence of `pat` replaced by `with`.
pub fn replace_all(s: &[char], pat: &[char], with: &str) -> (r: String)
    ensures
        r@ == replaced(s@, pat@, with@),
{
    let mut r = String::new();
    let n = s.len();
    let mut i: usize = 0;
    assert(s@.skip(0) =~= s@);
    assert(r@ + replaced(s@.skip(0), pat@, with@) =~= replaced(s@, pat@, with@));
    while i < n
        invariant
            n == s@.len(),
            i <= n,
            r@ + replaced(s@.skip(i as int), pat@, with@) == replaced(s@, pat@, with@),
        decreases n - i,
    {
        let ghost before = r@;
        let ghost rest = s@.skip(i as int);
        assert(rest.drop_first() =~= s@.skip(i + 1));
        if pat.len() == 0 {
            r.append(with);
            push_char(&mut r, s[i]);
            assert(r@ + replaced(s@.skip(i + 1), pat@, with@) =~= before + (with@ + seq![rest[0]]
                + replaced(rest.drop_first(), pat@, with@)));
            i = i + 1;
        } else if occurs_here(s, pat, i) {
            assert(rest.subrange(0, pat@.len() as int) =~= s@.subrange(i as int, i + pat@.len()));
            assert(occurs_at(rest, pat@, 0));
            r.append(with);
            assert(rest.skip(pat@.len() as int) =~= s@.skip(i + pat@.len()));
            assert(r@ + replaced(s@.skip(i + pat@.len()), pat@, with@) =~= before + (with@
                + replaced(rest.skip(pat@.len() as int), pat@, with@)));
            i = i + pat.len();
        } else {
            assert(!occurs_at(rest, pat@, 0)) by {
                if occurs_at(rest, pat@, 0) {
                    assert(rest.subrange(0, pat@.len() as int) =~= s@.subrange(
                        i as int,
                        i + pat@.len(),
                    ));
                }
            }
            push_char(&mut r, s[i]);
            assert(r@ + replaced(s@.skip(i + 1), pat@, with@) =~= before + (seq![rest[0]]
                + replaced(rest.drop_first(), pat@, with@)));
            i = i + 1;
        }
    }
    assert(s@.skip(n as int) =~= Seq::empty());
    if pat.len() == 0 {
        r.append(with);
    } else {
        assert(r@ =~= r@ + Seq::<char>::empty());
    }
    r
}

pub proof fn lemma_count_concat<A>(a: Seq<A>, b: Seq<A>, p: spec_fn(A) -> bool)
    ensures
        count_where(a + b, p) == count_where(a, p) + count_where(b, p),
    decreases b.len(),
{
    if b.len() == 0 {
        assert(a + b =~= a);
    } else {
        lemma_count_concat(a, b.drop_last(), p);
        assert((a + b).drop_last() =~= a + b.drop_last());
    }
}

pub proof fn lemma_count_none<A>(s: Seq<A>, p: spec_fn(A) -> bool)
    requires
        forall|i: int| 0 <= i < s.len() ==> !p(#[trigger] s[i]),
    ensures
        count_where(s, p) == 0,
    decreases s.len(),
{
    if s.len() > 0 {
        let init = s.drop_last();
        assert forall|i: int| 0 <= i < init.len() implies !p(#[trigger] init[i]) by {
            assert(!p(s[i]));
        }
        lemma_count_none(init, p);
        assert(!p(s[s.len() - 1]));
    }
}

/// A list without repeats that lies in another of the same length is a
/// rearrangement of it.
pub proof fn lemma_same_multiset<A>(a: Seq<A>, b: Seq<A>)
    requires
        a.no_duplicates(),
        a.len() == b.len(),
        forall|i: int| 0 <= i < a.len() ==> b.contains(#[trigger] a[i]),
    ensures
        a.to_multiset() == b.to_multiset(),
    decreases a.len(),
{
    broadcast use vstd::seq_lib::group_to_multiset_ensures;

    if a.len() == 0 {
        assert(a =~= b);
    } else {
        let init = a.drop_last();
        let x = a.last();
        assert(b.contains(a[a.len() - 1]));
        let k = choose|k: int| 0 <= k < b.len() && b[k] == x;
        let rest = b.remove(k);
        assert forall|i: int| 0 <= i < init.len() implies rest.contains(#[trigger] init[i]) by {
            assert(b.contains(a[i]));
            let j = choose|j: int| 0 <= j < b.len() && b[j] == a[i];
            assert(a[i] != a[a.len() - 1]);
            if j < k {
                assert(rest[j] == a[i]);
            } else {
                assert(rest[j - 1] == a[i]);
            }
        }
        lemma_same_multiset(init, rest);
        assert(init.push(x) =~= a);
        assert(rest.insert(k, x) =~= b);
        rest.insert_ensures(k, x);
        assert(b.to_multiset() =~= rest.to_multiset().insert(x));
        assert(a.to_multiset() =~= init.to_multiset().insert(x));
    }
}

/// A list without repeats is no longer than one that it lies in.
pub proof fn lemma_lies_in<A>(a: Seq<A>, b: Seq<A>)
    requires
        a.no_duplicates(),
        forall|i: int| 0 <= i < a.len() ==> b.contains(#[trigger] a[i]),
    ensures
        a.len() <= b.len(),
    decreases a.len(),
{
    if a.len() > 0 {
        let init = a.drop_last();
        assert(b.contains(a[a.len() - 1]));
        let k = choose|k: int| 0 <= k < b.len() && b[k] == a.last();
        let rest = b.remove(k);
        assert forall|i: int| 0 <= i < init.len() implies rest.contains(#[trigger] init[i]) by {
            assert(b.contains(a[i]));
            let j = choose|j: int| 0 <= j < b.len() && b[j] == a[i];
            assert(a[i] != a[a.len() - 1]);
            if j < k {
                assert(rest[j] == a[i]);
            } else {
                assert(rest[j - 1] == a[i]);
            }
        }
        lemma_lies_in(init, rest);
    }
}

} // verus!
