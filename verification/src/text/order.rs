//! The order of texts, and sorting by it.
use vstd::prelude::*;

use crate::text::seqs::{lemma_prefix_len, prefix_len};
use crate::text::strings::chars_of;

verus! {

/// `a` comes before `b`: lexicographically by code points, which is also the
/// order of the UTF-8 bytes.
pub open spec fn text_lt(a: Seq<char>, b: Seq<char>) -> bool
    decreases a.len(),
{
    if b.len() == 0 {
        false
    } else if a.len() == 0 {
        true
    } else if a[0] == b[0] {
        text_lt(a.drop_first(), b.drop_first())
    } else {
        a[0] < b[0]
    }
}

/// `a` does not come after `b`.
pub open spec fn text_le(a: Seq<char>, b: Seq<char>) -> bool {
    !text_lt(b, a)
}

pub proof fn lemma_text_order_is_total(a: Seq<char>, b: Seq<char>)
    ensures
        !(text_lt(a, b) && text_lt(b, a)),
        text_lt(a, b) || a == b || text_lt(b, a),
        !text_lt(a, a),
    decreases a.len(),
{
    if a.len() > 0 {
        lemma_text_order_is_total(a.drop_first(), a.drop_first());
        if b.len() > 0 {
            lemma_text_order_is_total(a.drop_first(), b.drop_first());
            if a.drop_first() == b.drop_first() && a[0] == b[0] {
                assert(a =~= seq![a[0]] + a.drop_first());
                assert(b =~= seq![b[0]] + b.drop_first());
            }
        }
    } else if b.len() == 0 {
        assert(a =~= b);
    }
}

pub proof fn lemma_text_order_is_transitive(a: Seq<char>, b: Seq<char>, c: Seq<char>)
    requires
        text_lt(a, b),
        text_lt(b, c),
    ensures
        text_lt(a, c),
    decreases a.len(),
{
    if a.len() > 0 && a[0] == b[0] && b[0] == c[0] {
        lemma_text_order_is_transitive(a.drop_first(), b.drop_first(), c.drop_first());
    }
}

pub proof fn lemma_text_le_is_transitive(a: Seq<char>, b: Seq<char>, c: Seq<char>)
    requires
        text_le(a, b),
        text_le(b, c),
    ensures
        text_le(a, c),
{
    lemma_text_order_is_total(a, b);
    lemma_text_order_is_total(b, c);
    lemma_text_order_is_total(a, c);
    if text_lt(a, b) && text_lt(b, c) {
        lemma_text_order_is_transitive(a, b, c);
    }
}

/// Whether `a` comes before `b`.
pub fn chars_lt(a: &[char], b: &[char]) -> (r: bool)
    ensures
        r == text_lt(a@, b@),
{
    let mut i: usize = 0;
    assert(a@.skip(0) =~= a@ && b@.skip(0) =~= b@);
    while i < a.len() && i < b.len()
        invariant
            i <= a@.len(),
            i <= b@.len(),
            text_lt(a@.skip(i as int), b@.skip(i as int)) == text_lt(a@, b@),
        decreases a@.len() - i,
    {
        if a[i] != b[i] {
            return a[i] < b[i];
        }
        assert(a@.skip(i as int).drop_first() =~= a@.skip(i + 1));
        assert(b@.skip(i as int).drop_first() =~= b@.skip(i + 1));
        i = i + 1;
    }
    i == a.len() && i < b.len()
}

/// Whether `a` comes before `b`.
pub fn str_lt(a: &str, b: &str) -> (r: bool)
    ensures
        r == text_lt(a@, b@),
{
    chars_lt(&chars_of(a), &chars_of(b))
}

/// Entries with the text of their key in place of the string.
pub open spec fn keyed<T>(s: Seq<(String, T)>) -> Seq<(Seq<char>, T)> {
    s.map_values(|e: (String, T)| (e.0@, e.1))
}

/// The test for keys up to `key`.
pub open spec fn up_to<T>(key: Seq<char>) -> spec_fn((Seq<char>, T)) -> bool {
    |e: (Seq<char>, T)| text_le(e.0, key)
}

/// `s` with `e` behind the leading entries whose keys do not come after its own.
pub open spec fn insert_by_key<T>(s: Seq<(Seq<char>, T)>, e: (Seq<char>, T)) -> Seq<
    (Seq<char>, T),
> {
    s.insert(prefix_len(s, up_to(e.0)) as int, e)
}

/// The entries of `s` in the order of their keys; entries with equal keys
/// keep their order.
pub open spec fn sorted_by_key<T>(s: Seq<(Seq<char>, T)>) -> Seq<(Seq<char>, T)>
    decreases s.len(),
{
    if s.len() == 0 {
        Seq::empty()
    } else {
        insert_by_key(sorted_by_key(s.drop_last()), s.last())
    }
}

/// Keys ascend.
pub open spec fn keys_ascend<T>(s: Seq<(Seq<char>, T)>) -> bool {
    forall|i: int, j: int| 0 <= i <= j < s.len() ==> text_le((#[trigger] s[i]).0, (#[trigger] s[j]).0)
}

proof fn lemma_prefix_bound<A>(s: Seq<A>, p: spec_fn(A) -> bool)
    ensures
        prefix_len(s, p) <= s.len(),
        forall|i: int| 0 <= i < prefix_len(s, p) ==> p(#[trigger] s[i]),
        prefix_len(s, p) < s.len() ==> !p(s[prefix_len(s, p) as int]),
    decreases s.len(),
{
    if s.len() > 0 && p(s.first()) {
        lemma_prefix_bound(s.drop_first(), p);
        assert forall|i: int| 0 <= i < prefix_len(s, p) implies p(#[trigger] s[i]) by {
            if i > 0 {
                assert(p(s.drop_first()[i - 1]));
            }
        }
    }
}

/// Sorting loses and invents no entry, and its result ascends.
pub proof fn law_sorting<T>(s: Seq<(Seq<char>, T)>)
    ensures
        keys_ascend(sorted_by_key(s)),
        sorted_by_key(s).to_multiset() == s.to_multiset(),
        sorted_by_key(s).len() == s.len(),
    decreases s.len(),
{
    broadcast use vstd::seq_lib::group_to_multiset_ensures;

    if s.len() > 0 {
        let e = s.last();
        let before = sorted_by_key(s.drop_last());
        law_sorting(s.drop_last());
        lemma_prefix_bound(before, up_to(e.0));
        let p = prefix_len(before, up_to(e.0)) as int;
        let after = before.insert(p, e);
        assert forall|i: int, j: int| 0 <= i <= j < after.len() implies text_le(
            (#[trigger] after[i]).0,
            (#[trigger] after[j]).0,
        ) by {
            lemma_text_order_is_total(e.0, e.0);
            if j == p && i < p {
                assert(up_to(e.0)(before[i]));
            }
            if i == p && j > p {
                lemma_text_order_is_total(before[p].0, e.0);
                assert(text_le(before[p].0, before[j - 1].0));
                lemma_text_le_is_transitive(e.0, before[p].0, before[j - 1].0);
            }
            if i < p && j > p {
                assert(text_le(before[i].0, before[j - 1].0));
            }
            if i > p {
                assert(text_le(before[i - 1].0, before[j - 1].0));
            }
            if j < p {
                assert(text_le(before[i].0, before[j].0));
            }
        }
        before.insert_ensures(p, e);
        assert(before.insert(p, e).to_multiset() =~= before.to_multiset().insert(e));
        assert(s.drop_last().push(e) =~= s);
    } else {
        assert(s =~= Seq::empty());
    }
}

/// Sorts entries by key.
pub fn sort_by_key<T>(entries: Vec<(String, T)>) -> (r: Vec<(String, T)>)
    ensures
        keyed(r@) == sorted_by_key(keyed(entries@)),
{
    let ghost source = entries@;
    let ghost model = keyed(source);
    let mut done: Vec<(String, T)> = Vec::new();
    assert(model.take(0) =~= Seq::empty());
    assert(keyed(done@) =~= sorted_by_key(model.take(0)));
    for e in it: entries
        invariant
            it.seq() == source,
            model == keyed(source),
            keyed(done@) == sorted_by_key(model.take(it.index() as int)),
    {
        let ghost i = it.index() as int;
        assert((e.0@, e.1) == model[i]);
        let key = chars_of(e.0.as_str());
        let mut p: usize = 0;
        while p < done.len() && !chars_lt(&key, &chars_of(done[p].0.as_str()))
            invariant
                key@ == e.0@,
                p <= done@.len(),
                forall|k: int|
                    0 <= k < p ==> up_to::<T>(e.0@)(#[trigger] keyed(done@)[k]),
            decreases done@.len() - p,
        {
            assert(keyed(done@)[p as int] == (done@[p as int].0@, done@[p as int].1));
            p = p + 1;
        }
        proof {
            if p < done@.len() {
                assert(keyed(done@)[p as int] == (done@[p as int].0@, done@[p as int].1));
            }
            lemma_prefix_len(keyed(done@), up_to::<T>(e.0@), p as int);
            assert(model.take(i + 1).drop_last() =~= model.take(i));
            assert(keyed(done@.insert(p as int, e)) =~= keyed(done@).insert(
                p as int,
                (e.0@, e.1),
            ));
        }
        done.insert(p, e);
    }
    assert(model.take(source.len() as int) =~= model);
    done
}

} // verus!
