//! The order of members in JSON bodies does not matter.
use vstd::prelude::*;

use crate::bridge::json_text::json_of;
use crate::dedup::canon_json::{
    array_shape, canon_json, canon_members, is_scalar, keys_differ, lemma_pair_le_is_total,
    lemma_same_members, lemma_sorted_pairs, pair_le, sorted_keys,
};
use crate::json::{
    bool_text, json_quoted, json_text, json_texts, lemma_sorting_maps, member_text, member_texts,
    seconds, Json,
};
use crate::text::numbers::{decimal, decimal_int};
use crate::text::order::{keys_ascend, law_sorting, sorted_by_key};
use crate::text::seqs::{joined, lemma_same_multiset};

verus! {

/// Two values differ at most in the order of the members of their objects, at
/// any depth; no object repeats a key.
pub open spec fn rearranged(a: Json, b: Json) -> bool
    decreases a,
{
    match (a, b) {
        (Json::Array(x), Json::Array(y)) => x.len() == y.len() && forall|i: int|
            0 <= i < x.len() ==> rearranged(#[trigger] x[i], y[i]),
        (Json::Object(x), Json::Object(y)) => {
            &&& x.len() == y.len()
            &&& keys_differ(x)
            &&& keys_differ(y)
            &&& forall|i: int|
                0 <= i < x.len() ==> exists|j: int|
                    0 <= j < y.len() && (#[trigger] y[j]).0 == x[i].0 && rearranged(
                        (#[trigger] x[i]).1,
                        y[j].1,
                    )
        },
        _ => a == b,
    }
}

/// Entries with distinct keys are sorted in one way only.
proof fn lemma_sorted_alike(a: Seq<(Seq<char>, Seq<char>)>, b: Seq<(Seq<char>, Seq<char>)>)
    requires
        keys_differ(a),
        keys_differ(b),
        a.len() == b.len(),
        forall|i: int| 0 <= i < a.len() ==> b.contains(#[trigger] a[i]),
    ensures
        sorted_by_key(a) == sorted_by_key(b),
{
    assert(a.no_duplicates()) by {
        assert forall|i: int, j: int| 0 <= i < j < a.len() implies a[i] != a[j] by {
            assert(a[i].0 != a[j].0);
        }
    }
    lemma_same_multiset(a, b);
    law_sorting(a);
    law_sorting(b);
    lemma_sorted_pairs(a);
    lemma_sorted_pairs(b);
    lemma_pair_le_is_total();
    vstd::seq_lib::lemma_sorted_unique(sorted_by_key(a), sorted_by_key(b), pair_le());
}

/// Objects with the same keys have the same sorted keys.
proof fn lemma_same_keys(x: Seq<(Seq<char>, Json)>, y: Seq<(Seq<char>, Json)>)
    requires
        rearranged(Json::Object(x), Json::Object(y)),
    ensures
        sorted_keys(x) == sorted_keys(y),
{
    let f = |e: (Seq<char>, Json)| (e.0, e.0);
    let a = x.map_values(f);
    let b = y.map_values(f);
    assert(keys_differ(a)) by {
        assert forall|i: int, j: int| 0 <= i < j < a.len() implies (#[trigger] a[i]).0 != (
        #[trigger] a[j]).0 by {
            assert(x[i].0 != x[j].0);
        }
    }
    assert(keys_differ(b)) by {
        assert forall|i: int, j: int| 0 <= i < j < b.len() implies (#[trigger] b[i]).0 != (
        #[trigger] b[j]).0 by {
            assert(y[i].0 != y[j].0);
        }
    }
    assert forall|i: int| 0 <= i < a.len() implies b.contains(#[trigger] a[i]) by {
        let j = choose|j: int|
            0 <= j < y.len() && (#[trigger] y[j]).0 == x[i].0 && rearranged(x[i].1, y[j].1);
        assert(b[j] == a[i]);
    }
    lemma_sorted_alike(a, b);
}

/// The canonical text of a JSON body does not depend on the order of members,
/// at any depth.
pub proof fn law_order_of_members_is_ignored(key: Seq<char>, a: Json, b: Json)
    requires
        rearranged(a, b),
    ensures
        json_text(canon_json(key, a)) == json_text(canon_json(key, b)),
    decreases a,
{
    match (a, b) {
        (Json::Array(x), Json::Array(y)) => {
            assert forall|i: int| 0 <= i < x.len() implies is_scalar(#[trigger] x[i]) == is_scalar(
                y[i],
            ) by {
                assert(rearranged(x[i], y[i]));
            }
            if x.len() > 0 {
                assert(rearranged(x[0], y[0]));
                if x[0] is Object {
                    lemma_same_keys(x[0]->Object_0, y[0]->Object_0);
                }
                if exists|i: int| 0 <= i < x.len() && !is_scalar(#[trigger] x[i]) {
                    let i = choose|i: int| 0 <= i < x.len() && !is_scalar(#[trigger] x[i]);
                    assert(!is_scalar(y[i]));
                }
                if exists|i: int| 0 <= i < y.len() && !is_scalar(#[trigger] y[i]) {
                    let i = choose|i: int| 0 <= i < y.len() && !is_scalar(#[trigger] y[i]);
                    assert(!is_scalar(x[i]));
                }
            }
            assert(array_shape(x) == array_shape(y));
        },
        (Json::Object(x), Json::Object(y)) => {
            let ta = member_texts(canon_members(x));
            let tb = member_texts(canon_members(y));
            assert(keys_differ(ta)) by {
                assert forall|i: int, j: int| 0 <= i < j < ta.len() implies (#[trigger] ta[i]).0
                    != (#[trigger] ta[j]).0 by {
                    assert(x[i].0 != x[j].0);
                }
            }
            assert(keys_differ(tb)) by {
                assert forall|i: int, j: int| 0 <= i < j < tb.len() implies (#[trigger] tb[i]).0
                    != (#[trigger] tb[j]).0 by {
                    assert(y[i].0 != y[j].0);
                }
            }
            assert forall|i: int| 0 <= i < ta.len() implies tb.contains(#[trigger] ta[i]) by {
                let j = choose|j: int|
                    0 <= j < y.len() && (#[trigger] y[j]).0 == x[i].0 && rearranged(
                        x[i].1,
                        y[j].1,
                    );
                assert(decreases_to!(a => x[i].1));
                law_order_of_members_is_ignored(x[i].0, x[i].1, y[j].1);
                assert(tb[j] == ta[i]);
            }
            lemma_sorted_alike(ta, tb);
        },
        _ => {},
    }
}

/// Two bodies that denote values with the same members have the same canonical
/// text, however they are spaced.
pub proof fn law_bodies_with_the_same_members_agree(a: Seq<char>, b: Seq<char>)
    requires
        json_of(a) is Some,
        json_of(b) is Some,
        rearranged(json_of(a)->0, json_of(b)->0),
    ensures
        json_text(canon_json(Seq::empty(), json_of(a)->0)) == json_text(
            canon_json(Seq::empty(), json_of(b)->0),
        ),
{
    law_order_of_members_is_ignored(Seq::empty(), json_of(a)->0, json_of(b)->0);
}

/// A value with the members of every object in the order of their keys.
pub open spec fn ordered(v: Json) -> Json
    decreases v,
{
    match v {
        Json::Array(a) => Json::Array(ordered_items(a)),
        Json::Object(m) => Json::Object(sorted_by_key(ordered_members(m))),
        _ => v,
    }
}

pub open spec fn ordered_items(a: Seq<Json>) -> Seq<Json>
    decreases a,
{
    Seq::new(
        a.len(),
        |i: int|
            if 0 <= i < a.len() {
                ordered(a[i])
            } else {
                Json::Null
            },
    )
}

pub open spec fn ordered_members(m: Seq<(Seq<char>, Json)>) -> Seq<(Seq<char>, Json)>
    decreases m,
{
    Seq::new(
        m.len(),
        |i: int|
            if 0 <= i < m.len() {
                (m[i].0, ordered(m[i].1))
            } else {
                (Seq::empty(), Json::Null)
            },
    )
}

/// The keys of every object ascend.
pub open spec fn keys_in_order(v: Json) -> bool
    decreases v,
{
    match v {
        Json::Array(a) => forall|i: int| 0 <= i < a.len() ==> keys_in_order(#[trigger] a[i]),
        Json::Object(m) => keys_ascend(m) && forall|i: int|
            0 <= i < m.len() ==> keys_in_order((#[trigger] m[i]).1),
        _ => true,
    }
}

/// A value as compact JSON text, the members of each object as they stand.
pub open spec fn text_as_is(v: Json) -> Seq<char>
    decreases v,
{
    match v {
        Json::Null => "null"@,
        Json::Bool(b) => bool_text(b),
        Json::Unsigned(n) => decimal(n as nat),
        Json::Negative(n) => decimal_int(n as int),
        Json::Float(t) => t,
        Json::Str(s) => json_quoted(s),
        Json::Array(a) => "["@ + joined(texts_as_is(a), ","@) + "]"@,
        Json::Object(m) => "{"@ + joined(seconds(members_as_is(m)), ","@) + "}"@,
    }
}

pub open spec fn texts_as_is(a: Seq<Json>) -> Seq<Seq<char>>
    decreases a,
{
    Seq::new(
        a.len(),
        |i: int|
            if 0 <= i < a.len() {
                text_as_is(a[i])
            } else {
                Seq::empty()
            },
    )
}

pub open spec fn members_as_is(m: Seq<(Seq<char>, Json)>) -> Seq<(Seq<char>, Seq<char>)>
    decreases m,
{
    Seq::new(
        m.len(),
        |i: int|
            if 0 <= i < m.len() {
                member_text(m[i].0, text_as_is(m[i].1))
            } else {
                (Seq::empty(), Seq::empty())
            },
    )
}

/// Sorting and a change of what stands behind the keys can trade places.
proof fn lemma_sorting_members(m: Seq<(Seq<char>, Json)>)
    ensures
        sorted_by_key(members_as_is(m)) == members_as_is(sorted_by_key(m)),
{
    let whole = m.map_values(|e: (Seq<char>, Json)| (e.0, e));
    let value = |e: (Seq<char>, Json)| e.1;
    let text = |e: (Seq<char>, Json)| member_text(e.0, text_as_is(e.1)).1;
    let by_value = |e: (Seq<char>, (Seq<char>, Json))| (e.0, value(e.1));
    let by_text = |e: (Seq<char>, (Seq<char>, Json))| (e.0, text(e.1));
    lemma_sorting_maps(whole, value);
    lemma_sorting_maps(whole, text);
    assert(whole.map_values(by_value) =~= m);
    assert(whole.map_values(by_text) =~= members_as_is(m));
    let s = sorted_by_key(whole);
    law_sorting(whole);
    assert forall|i: int| 0 <= i < s.len() implies (#[trigger] s[i]).0 == s[i].1.0 by {
        assert(s.contains(s[i]));
        lemma_same_members(s, whole, s[i]);
    }
    assert(sorted_by_key(m) =~= s.map_values(by_value));
    assert(s.map_values(by_text) =~= members_as_is(sorted_by_key(m)));
}

/// The printed form holds the members of every object in the order of their
/// keys.
pub proof fn law_printed_members_are_in_order(v: Json)
    ensures
        json_text(v) == text_as_is(ordered(v)),
        keys_in_order(ordered(v)),
    decreases v,
{
    match v {
        Json::Array(a) => {
            let o = ordered_items(a);
            assert forall|i: int| 0 <= i < a.len() implies keys_in_order(#[trigger] o[i])
                && json_text(a[i]) == text_as_is(o[i]) by {
                assert(decreases_to!(v => a[i]));
                law_printed_members_are_in_order(a[i]);
            }
            assert(json_texts(a) =~= texts_as_is(o));
        },
        Json::Object(m) => {
            let o = ordered_members(m);
            let s = sorted_by_key(o);
            assert forall|i: int| 0 <= i < m.len() implies keys_in_order((#[trigger] o[i]).1)
                && json_text(m[i].1) == text_as_is(o[i].1) by {
                assert(decreases_to!(v => m[i].1));
                law_printed_members_are_in_order(m[i].1);
            }
            assert(member_texts(m) =~= members_as_is(o));
            lemma_sorting_members(o);
            law_sorting(o);
            assert forall|i: int| 0 <= i < s.len() implies keys_in_order((#[trigger] s[i]).1) by {
                assert(s.contains(s[i]));
                lemma_same_members(s, o, s[i]);
                let j = choose|j: int| 0 <= j < o.len() && o[j] == s[i];
                assert(keys_in_order(o[j].1));
            }
        },
        _ => {},
    }
}

} // verus!
