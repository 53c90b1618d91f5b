//! JSON canonicalisation.
//!
//! Walks a JSON value depth-first and replaces what varies between otherwise
//! equal messages (large numbers, identifiers, paths), while keys, small
//! integers, booleans and null stay. The result is printed with sorted keys.
use vstd::prelude::*;
use vstd::utf8::encode_utf8;

use crate::bridge::json_text::{json_of, parse_json};
use crate::dedup::canon_freetext::{is_uuid, uuid_form};
use crate::json::{
    json_text, member_text, member_texts, seconds, sorted_json_string, Json, JsonValue,
};
use crate::text::bytes::{has_byte, has_digit, some_digit};
use crate::text::chars::{
    ascii_lower, byte_is_alpha, char_ascii_lower, char_is_ascii_digit, char_is_ascii_letter,
    is_alpha, is_ascii_digit, is_ascii_letter,
};
use crate::text::order::{
    keyed, law_sorting, lemma_text_le_is_transitive, lemma_text_order_is_total,
    lemma_text_order_is_transitive, sort_by_key, sorted_by_key, text_le, text_lt,
};
use crate::text::strings::{chars_of, push_char, str_eq};

verus! {

/// A normalised key whose numbers are never kept, whatever their magnitude.
pub open spec fn always_normalised(k: Seq<char>) -> bool {
    ||| k == "requestid"@
    ||| k == "reqid"@
    ||| k == "pathid"@
    ||| k == "routeid"@
    ||| k == "sessionid"@
    ||| k == "correlationid"@
    ||| k == "traceid"@
    ||| k == "spanid"@
    ||| k == "messageid"@
    ||| k == "offset"@
    ||| k == "position"@
    ||| k == "cursor"@
    ||| k == "size"@
    ||| k == "length"@
    ||| k == "len"@
    ||| k == "task"@
    ||| k == "tasks"@
    ||| k == "count"@
    ||| k == "total"@
    ||| k == "num"@
    ||| k == "timestamp"@
    ||| k == "time"@
    ||| k == "epoch"@
    ||| k == "ts"@
    ||| k == "duration"@
    ||| k == "elapsed"@
    ||| k == "latency"@
    ||| k == "port"@
    ||| k == "pid"@
    ||| k == "tid"@
    ||| k == "threadid"@
}

/// The ASCII letters and digits of a key, in lower case.
pub open spec fn normalised_key(key: Seq<char>) -> Seq<char> {
    key.filter(|c: char| is_ascii_letter(c) || is_ascii_digit(c)).map_values(
        |c: char| ascii_lower(c),
    )
}

/// The text that stands for a string value.
pub open spec fn canon_string(s: Seq<char>) -> Seq<char> {
    let b = encode_utf8(s);
    if uuid_form(b) {
        "_UUID_"@
    } else if s.len() > 0 && s[0] == '/' {
        "_PATH_"@
    } else if b.len() <= 12 && plain_word(b) {
        s
    } else if b.len() > 40 || some_digit(b) || b.contains(0x2e) || b.contains(0x2d) || b.contains(
        0x2f,
    ) {
        "_"@
    } else {
        s
    }
}

/// Only ASCII letters and underscores.
pub open spec fn plain_word(b: Seq<u8>) -> bool {
    forall|i: int| 0 <= i < b.len() ==> is_alpha(#[trigger] b[i]) || b[i] == 0x5f
}

/// The number that stands for a number under `key`; other values stay.
pub open spec fn canon_number(key: Seq<char>, v: Json) -> Json {
    match v {
        Json::Unsigned(n) => if always_normalised(normalised_key(key)) || n >= 1000 {
            Json::Unsigned(0)
        } else {
            v
        },
        Json::Negative(n) => if always_normalised(normalised_key(key)) || n <= -1000 || n >= 1000 {
            Json::Unsigned(0)
        } else {
            v
        },
        Json::Float(t) => if always_normalised(normalised_key(key)) {
            Json::Unsigned(0)
        } else if t == "0.0"@ || t == "-0.0"@ || t == "1.0"@ {
            v
        } else {
            Json::Float("0.0"@)
        },
        _ => v,
    }
}

/// Neither an object nor an array.
pub open spec fn is_scalar(v: Json) -> bool {
    !(v is Object) && !(v is Array)
}

/// The keys of an object in ascending order, as strings.
pub open spec fn sorted_keys(m: Seq<(Seq<char>, Json)>) -> Seq<Json> {
    seconds(sorted_by_key(m.map_values(|e: (Seq<char>, Json)| (e.0, e.0)))).map_values(
        |k: Seq<char>| Json::Str(k),
    )
}

/// What an array is collapsed into.
pub open spec fn array_shape(a: Seq<Json>) -> Json {
    if a.len() == 0 {
        Json::Array(Seq::empty())
    } else if forall|i: int| 0 <= i < a.len() ==> is_scalar(#[trigger] a[i]) {
        Json::Object(seq![("__arr"@, Json::Str("scalar"@))])
    } else if a[0] is Object {
        Json::Object(
            seq![
                ("__arr"@, Json::Str("object"@)),
                ("__shape"@, Json::Array(sorted_keys(a[0]->Object_0))),
            ],
        )
    } else {
        Json::Object(seq![("__arr"@, Json::Str("mixed"@))])
    }
}

/// The canonical form of the value that stands under `key`.
pub open spec fn canon_json(key: Seq<char>, v: Json) -> Json
    decreases v,
{
    match v {
        Json::Str(s) => Json::Str(canon_string(s)),
        Json::Array(a) => array_shape(a),
        Json::Object(m) => Json::Object(canon_members(m)),
        _ => canon_number(key, v),
    }
}

/// The members of an object, each value in its canonical form.
pub open spec fn canon_members(m: Seq<(Seq<char>, Json)>) -> Seq<(Seq<char>, Json)>
    decreases m,
{
    Seq::new(
        m.len(),
        |i: int|
            if 0 <= i < m.len() {
                (m[i].0, canon_json(m[i].0, m[i].1))
            } else {
                (Seq::empty(), Json::Null)
            },
    )
}

/// Whether numbers under the normalised key `k` are never kept.
fn is_always_normalised(k: &str) -> (r: bool)
    ensures
        r == always_normalised(k@),
{
    str_eq(k, "requestid") || str_eq(k, "reqid") || str_eq(k, "pathid") || str_eq(k, "routeid")
        || str_eq(k, "sessionid") || str_eq(k, "correlationid") || str_eq(k, "traceid") || str_eq(
        k,
        "spanid",
    ) || str_eq(k, "messageid") || str_eq(k, "offset") || str_eq(k, "position") || str_eq(
        k,
        "cursor",
    ) || str_eq(k, "size") || str_eq(k, "length") || str_eq(k, "len") || str_eq(k, "task")
        || str_eq(k, "tasks") || str_eq(k, "count") || str_eq(k, "total") || str_eq(k, "num")
        || str_eq(k, "timestamp") || str_eq(k, "time") || str_eq(k, "epoch") || str_eq(k, "ts")
        || str_eq(k, "duration") || str_eq(k, "elapsed") || str_eq(k, "latency") || str_eq(
        k,
        "port",
    ) || str_eq(k, "pid") || str_eq(k, "tid") || str_eq(k, "threadid")
}

/// Normalises a key: lower case, ASCII letters and digits only.
pub fn normalise_key(key: &str) -> (r: String)
    ensures
        r@ == normalised_key(key@),
{
    let chars = chars_of(key);
    let mut r = String::new();
    let ghost keep = |c: char| is_ascii_letter(c) || is_ascii_digit(c);
    let ghost lower = |c: char| ascii_lower(c);
    proof {
        reveal(Seq::filter);
        assert(r@ =~= chars@.take(0).filter(keep).map_values(lower));
    }
    for i in 0..chars.len()
        invariant
            keep == (|c: char| is_ascii_letter(c) || is_ascii_digit(c)),
            lower == (|c: char| ascii_lower(c)),
            r@ == chars@.take(i as int).filter(keep).map_values(lower),
    {
        let c: char = chars[i];
        proof {
            reveal(Seq::filter);
            assert(chars@.take(i + 1).drop_last() =~= chars@.take(i as int));
        }
        let ghost before = r@;
        if char_is_ascii_letter(c) || char_is_ascii_digit(c) {
            push_char(&mut r, char_ascii_lower(c));
            assert(r@ =~= chars@.take(i as int).filter(keep).push(c).map_values(lower));
        }
    }
    assert(chars@.take(chars@.len() as int) =~= chars@);
    r
}

fn is_plain_word(b: &[u8]) -> (r: bool)
    ensures
        r == plain_word(b@),
{
    for i in 0..b.len()
        invariant
            forall|j: int| 0 <= j < i ==> is_alpha(#[trigger] b@[j]) || b@[j] == 0x5f,
    {
        if !(byte_is_alpha(b[i]) || b[i] == 0x5f) {
            return false;
        }
    }
    true
}

/// The text that stands for a string value: words stay, what looks like
/// variable data is replaced.
pub fn canonicalise_string(s: &str) -> (r: String)
    ensures
        r@ == canon_string(s@),
{
    let b = s.as_bytes();
    let chars = chars_of(s);
    if is_uuid(b) {
        return "_UUID_".to_owned();
    }
    if chars.len() > 0 && chars[0] == '/' {
        return "_PATH_".to_owned();
    }
    if b.len() <= 12 && is_plain_word(b) {
        return s.to_owned();
    }
    if b.len() > 40 || has_digit(b) || has_byte(b, 0x2e) || has_byte(b, 0x2d) || has_byte(b, 0x2f) {
        return "_".to_owned();
    }
    s.to_owned()
}

/// The number that stands for a number under `key`: small integers stay
/// unless the key names a quantity that always varies.
pub fn canonicalise_number(key: &str, v: &JsonValue) -> (r: JsonValue)
    requires
        v is Unsigned || v is Negative || v is Float,
    ensures
        r@ == canon_number(key@, v@),
{
    let norm = normalise_key(key);
    let always = is_always_normalised(norm.as_str());
    match v {
        JsonValue::Unsigned(n) => if always || *n >= 1000 {
            JsonValue::Unsigned(0)
        } else {
            JsonValue::Unsigned(*n)
        },
        JsonValue::Negative(n) => if always || *n <= -1000 || *n >= 1000 {
            JsonValue::Unsigned(0)
        } else {
            JsonValue::Negative(*n)
        },
        JsonValue::Float(t) => if always {
            JsonValue::Unsigned(0)
        } else if str_eq(t.as_str(), "0.0") || str_eq(t.as_str(), "-0.0") || str_eq(
            t.as_str(),
            "1.0",
        ) {
            JsonValue::Float(t.clone())
        } else {
            JsonValue::Float("0.0".to_owned())
        },
        _ => JsonValue::Null,
    }
}

/// An object with one member, a string.
fn singleton(key: &str, value: &str) -> (r: JsonValue)
    ensures
        r@ == Json::Object(seq![(key@, Json::Str(value@))]),
{
    let mut members: Vec<(String, JsonValue)> = Vec::new();
    members.push((key.to_owned(), JsonValue::Str(value.to_owned())));
    assert(members@[0].1@ == Json::Str(value@));
    let r = JsonValue::Object(members);
    assert(r@->Object_0 =~= seq![(key@, Json::Str(value@))]);
    r
}

/// The keys of an object in ascending order.
fn shape_of(m: &Vec<(String, JsonValue)>) -> (r: JsonValue)
    ensures
        r@ == Json::Array(sorted_keys(JsonValue::Object(*m)@->Object_0)),
{
    let ghost model = JsonValue::Object(*m)@->Object_0;
    let mut keys: Vec<(String, ())> = Vec::new();
    for i in 0..m.len()
        invariant
            keys@.len() == i,
            forall|k: int| 0 <= k < i ==> (#[trigger] keys@[k]).0@ == m@[k].0@,
    {
        keys.push((m[i].0.clone(), ()));
    }
    let ghost unsorted = keyed(keys@);
    let sorted = sort_by_key(keys);
    let mut items: Vec<JsonValue> = Vec::new();
    for i in 0..sorted.len()
        invariant
            items@.len() == i,
            forall|k: int| 0 <= k < i ==> (#[trigger] items@[k])@ == Json::Str(sorted@[k].0@),
    {
        items.push(JsonValue::Str(sorted[i].0.clone()));
    }
    let r = JsonValue::Array(items);
    proof {
        let names = model.map_values(|e: (Seq<char>, Json)| (e.0, e.0));
        let nothing = |t: Seq<char>| ();
        let name_only = |e: (Seq<char>, Seq<char>)| (e.0, nothing(e.1));
        assert(names.map_values(name_only) =~= unsorted);
        crate::json::lemma_sorting_maps(names, nothing);
        law_sorting(names);
        lemma_sorted_pairs_are_equal(model);
        assert(keyed(sorted@) == sorted_by_key(names).map_values(name_only));
        assert(r@->Array_0 =~= sorted_keys(model)) by {
            assert forall|i: int| 0 <= i < sorted@.len() implies #[trigger] items@[i]@
                == sorted_keys(model)[i] by {
                assert(keyed(sorted@)[i].0 == sorted@[i].0@);
                assert(sorted_by_key(names)[i].0 == sorted_by_key(names)[i].1);
            }
        }
    }
    r
}

/// Sorting keeps equal the halves of pairs that are equal.
pub proof fn lemma_sorted_pairs_are_equal(m: Seq<(Seq<char>, Json)>)
    ensures
        ({
            let s = sorted_by_key(m.map_values(|e: (Seq<char>, Json)| (e.0, e.0)));
            forall|i: int| 0 <= i < s.len() ==> (#[trigger] s[i]).0 == s[i].1
        }),
{
    broadcast use vstd::seq_lib::group_to_multiset_ensures;

    let names = m.map_values(|e: (Seq<char>, Json)| (e.0, e.0));
    let s = sorted_by_key(names);
    law_sorting(names);
    assert forall|i: int| 0 <= i < s.len() implies (#[trigger] s[i]).0 == s[i].1 by {
        assert(s.contains(s[i]));
        lemma_same_members(s, names, s[i]);
    }
}

/// Collapses an array into a description of its shape.
pub fn canonicalise_array(arr: &Vec<JsonValue>) -> (r: JsonValue)
    ensures
        r@ == array_shape(JsonValue::Array(*arr)@->Array_0),
{
    let ghost model = JsonValue::Array(*arr)@->Array_0;
    if arr.len() == 0 {
        let r = JsonValue::Array(Vec::new());
        assert(r@->Array_0 =~= Seq::empty());
        return r;
    }
    let mut scalars = true;
    for i in 0..arr.len()
        invariant
            model == JsonValue::Array(*arr)@->Array_0,
            scalars == forall|k: int| 0 <= k < i ==> is_scalar(#[trigger] model[k]),
    {
        assert(model[i as int] == arr@[i as int]@);
        match &arr[i] {
            JsonValue::Array(_) => {
                scalars = false;
            },
            JsonValue::Object(_) => {
                scalars = false;
            },
            _ => {},
        }
    }
    assert(model[0] == arr@[0]@);
    if scalars {
        return singleton("__arr", "scalar");
    }
    if let JsonValue::Object(m) = &arr[0] {
        let mut members: Vec<(String, JsonValue)> = Vec::new();
        members.push(("__arr".to_owned(), JsonValue::Str("object".to_owned())));
        members.push(("__shape".to_owned(), shape_of(m)));
        assert(members@[0].1@ == Json::Str("object"@));
        let r = JsonValue::Object(members);
        assert(r@->Object_0 =~= array_shape(model)->Object_0);
        return r;
    }
    singleton("__arr", "mixed")
}

/// The canonical form of the value that stands under `parent_key`.
pub fn canonicalise_value(parent_key: &str, val: &JsonValue) -> (r: JsonValue)
    ensures
        r@ == canon_json(parent_key@, val@),
    decreases val,
{
    match val {
        JsonValue::Null => JsonValue::Null,
        JsonValue::Bool(b) => JsonValue::Bool(*b),
        JsonValue::Str(s) => JsonValue::Str(canonicalise_string(s.as_str())),
        JsonValue::Array(a) => canonicalise_array(a),
        JsonValue::Object(m) => {
            let mut members: Vec<(String, JsonValue)> = Vec::new();
            for i in 0..m.len()
                invariant
                    val == JsonValue::Object(*m),
                    members@.len() == i,
                    forall|k: int|
                        0 <= k < i ==> ((#[trigger] members@[k]).0@, members@[k].1@) == (
                            m@[k].0@,
                            canon_json(m@[k].0@, m@[k].1@),
                        ),
            {
                assert(decreases_to!(*val => val->Object_0));
                assert(decreases_to!(val->Object_0 => val->Object_0@));
                assert(decreases_to!(val->Object_0@ => val->Object_0@[i as int]));
                assert(decreases_to!(val->Object_0@[i as int] => val->Object_0@[i as int].1));
                let v = canonicalise_value(m[i].0.as_str(), &m[i].1);
                members.push((m[i].0.clone(), v));
            }
            let r = JsonValue::Object(members);
            assert(r@->Object_0 =~= canon_members(val@->Object_0));
            r
        },
        _ => canonicalise_number(parent_key, val),
    }
}

/// Parses a JSON body and prints its canonical form with sorted keys; `None`
/// where the body is not JSON.
pub fn canonicalise_json_to_string(body: &str) -> (r: Option<String>)
    ensures
        r is Some <==> json_of(body@) is Some,
        r matches Some(text) ==> text@ == json_text(canon_json(Seq::empty(), json_of(body@)->0)),
{
    match parse_json(body) {
        Some(v) => {
            proof {
                reveal_strlit("");
                assert(""@ =~= Seq::empty());
            }
            let canon = canonicalise_value("", &v);
            Some(sorted_json_string(&canon))
        },
        None => None,
    }
}

/// Numbers from a thousand up are told apart by nothing.
pub proof fn law_large_numbers_look_alike(key: Seq<char>, a: u64, b: u64)
    requires
        a >= 1000,
        b >= 1000,
    ensures
        canon_json(key, Json::Unsigned(a)) == canon_json(key, Json::Unsigned(b)),
{
}

/// The order of pairs by key and then by text.
pub open spec fn pair_le() -> spec_fn((Seq<char>, Seq<char>), (Seq<char>, Seq<char>)) -> bool {
    |a: (Seq<char>, Seq<char>), b: (Seq<char>, Seq<char>)|
        text_lt(a.0, b.0) || (a.0 == b.0 && text_le(a.1, b.1))
}

pub proof fn lemma_pair_le_is_total()
    ensures
        vstd::relations::total_ordering(pair_le()),
{
    assert forall|a: (Seq<char>, Seq<char>)| #[trigger] pair_le()(a, a) by {
        lemma_text_order_is_total(a.1, a.1);
    }
    assert forall|a: (Seq<char>, Seq<char>), b: (Seq<char>, Seq<char>)|
        #[trigger] pair_le()(a, b) && #[trigger] pair_le()(b, a) implies a == b by {
        lemma_text_order_is_total(a.0, b.0);
        lemma_text_order_is_total(a.1, b.1);
    }
    assert forall|a: (Seq<char>, Seq<char>), b: (Seq<char>, Seq<char>)|
        #[trigger] pair_le()(a, b) || #[trigger] pair_le()(b, a) by {
        lemma_text_order_is_total(a.0, b.0);
        lemma_text_order_is_total(a.1, b.1);
    }
    assert forall|
        a: (Seq<char>, Seq<char>),
        b: (Seq<char>, Seq<char>),
        c: (Seq<char>, Seq<char>),
    | #[trigger] pair_le()(a, b) && #[trigger] pair_le()(b, c) implies pair_le()(a, c) by {
        if text_lt(a.0, b.0) && text_lt(b.0, c.0) {
            lemma_text_order_is_transitive(a.0, b.0, c.0);
        }
        lemma_text_order_is_total(a.0, b.0);
        lemma_text_order_is_total(b.0, c.0);
        if a.0 == b.0 && b.0 == c.0 {
            lemma_text_le_is_transitive(a.1, b.1, c.1);
        }
    }
}

/// No key occurs twice.
pub open spec fn keys_differ<T>(m: Seq<(Seq<char>, T)>) -> bool {
    forall|i: int, j: int| 0 <= i < j < m.len() ==> (#[trigger] m[i]).0 != (#[trigger] m[j]).0
}

pub proof fn lemma_sorted_pairs(m: Seq<(Seq<char>, Seq<char>)>)
    requires
        keys_differ(m),
    ensures
        vstd::relations::sorted_by(sorted_by_key(m), pair_le()),
{
    let s = sorted_by_key(m);
    law_sorting(m);
    assert forall|i: int, j: int| 0 <= i < j < s.len() implies pair_le()(s[i], s[j]) by {
        assert(text_le(s[i].0, s[j].0));
        lemma_text_order_is_total(s[i].0, s[j].0);
        if s[i].0 == s[j].0 {
            lemma_distinct_after_sorting(m, i, j);
        }
    }
}

/// Sorting keeps keys distinct.
proof fn lemma_distinct_after_sorting(m: Seq<(Seq<char>, Seq<char>)>, i: int, j: int)
    requires
        keys_differ(m),
        0 <= i < j < sorted_by_key(m).len(),
    ensures
        sorted_by_key(m)[i].0 != sorted_by_key(m)[j].0,
    decreases m.len(),
{
    broadcast use vstd::seq_lib::group_to_multiset_ensures;

    if m.len() > 0 {
        let before = sorted_by_key(m.drop_last());
        let e = m.last();
        let p = crate::text::seqs::prefix_len(before, crate::text::order::up_to(e.0)) as int;
        law_sorting(m.drop_last());
        crate::json::lemma_prefix_at_most(
            before,
            crate::text::order::up_to::<Seq<char>>(e.0),
        );
        assert forall|k: int| 0 <= k < before.len() implies (#[trigger] before[k]).0 != e.0 by {
            assert(before.contains(before[k]));
            lemma_same_members(before, m.drop_last(), before[k]);
            let q = choose|q: int|
                0 <= q < m.drop_last().len() && m.drop_last()[q] == before[k];
            assert(m[q].0 != m[m.len() - 1].0);
        }
        assert(keys_differ(m.drop_last())) by {
            assert forall|a: int, b: int| 0 <= a < b < m.drop_last().len() implies (
            #[trigger] m.drop_last()[a]).0 != (#[trigger] m.drop_last()[b]).0 by {
                assert(m[a].0 != m[b].0);
            }
        }
        let a = if i < p {
            i
        } else {
            i - 1
        };
        let b = if j < p {
            j
        } else {
            j - 1
        };
        if i != p && j != p {
            lemma_distinct_after_sorting(m.drop_last(), a, b);
        }
    }
}

/// The printed form of an object does not depend on the order of its members.
pub proof fn law_member_order_is_ignored(
    a: Seq<(Seq<char>, Json)>,
    b: Seq<(Seq<char>, Json)>,
)
    requires
        keys_differ(a),
        keys_differ(b),
        a.to_multiset() == b.to_multiset(),
    ensures
        json_text(Json::Object(a)) == json_text(Json::Object(b)),
{
    let ta = member_texts(a);
    let tb = member_texts(b);
    let f = |e: (Seq<char>, Json)| member_text(e.0, json_text(e.1));
    assert(ta =~= a.map_values(f));
    assert(tb =~= b.map_values(f));
    assert(keys_differ(ta)) by {
        assert forall|i: int, j: int| 0 <= i < j < ta.len() implies (#[trigger] ta[i]).0 != (
        #[trigger] ta[j]).0 by {
            assert(a[i].0 != a[j].0);
        }
    }
    assert(keys_differ(tb)) by {
        assert forall|i: int, j: int| 0 <= i < j < tb.len() implies (#[trigger] tb[i]).0 != (
        #[trigger] tb[j]).0 by {
            assert(b[i].0 != b[j].0);
        }
    }
    lemma_map_multiset(a, b, f);
    law_sorting(ta);
    law_sorting(tb);
    lemma_sorted_pairs(ta);
    lemma_sorted_pairs(tb);
    lemma_pair_le_is_total();
    vstd::seq_lib::lemma_sorted_unique(sorted_by_key(ta), sorted_by_key(tb), pair_le());
}

pub proof fn lemma_same_members<A>(a: Seq<A>, b: Seq<A>, x: A)
    requires
        a.to_multiset() == b.to_multiset(),
        a.contains(x),
    ensures
        b.contains(x),
{
    broadcast use vstd::seq_lib::group_to_multiset_ensures;

    assert(a.to_multiset().count(x) > 0);
}

/// Rearranging a sequence rearranges what it is mapped to.
pub proof fn lemma_map_multiset<A, B>(a: Seq<A>, b: Seq<A>, f: spec_fn(A) -> B)
    requires
        a.to_multiset() == b.to_multiset(),
    ensures
        a.map_values(f).to_multiset() == b.map_values(f).to_multiset(),
    decreases a.len(),
{
    broadcast use vstd::seq_lib::group_to_multiset_ensures;

    a.to_multiset_ensures();
    b.to_multiset_ensures();
    if a.len() == 0 {
        assert(a.map_values(f) =~= b.map_values(f));
    } else {
        let x = a.last();
        assert(a.contains(x));
        lemma_same_members(a, b, x);
        let k = choose|k: int| 0 <= k < b.len() && b[k] == x;
        let b2 = b.remove(k);
        assert(a.drop_last().push(x) =~= a);
        assert(b2.insert(k, x) =~= b);
        b2.insert_ensures(k, x);
        assert(b.to_multiset() =~= b2.to_multiset().insert(x));
        assert(a.to_multiset() =~= a.drop_last().to_multiset().insert(x));
        assert(a.drop_last().to_multiset() =~= a.to_multiset().remove(x));
        assert(b2.to_multiset() =~= b.to_multiset().remove(x));
        lemma_map_multiset(a.drop_last(), b2, f);
        assert(a.map_values(f) =~= a.drop_last().map_values(f).push(f(x)));
        assert(b.map_values(f) =~= b2.map_values(f).insert(k, f(x)));
        b2.map_values(f).insert_ensures(k, f(x));
        assert(b.map_values(f).to_multiset() =~= b2.map_values(f).to_multiset().insert(f(x)));
    }
}

} // verus!
