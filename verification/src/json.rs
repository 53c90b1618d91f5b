//! JSON values.
use vstd::prelude::*;

use crate::bridge::json_text::quote_json;
use crate::text::numbers::{decimal, decimal_int, hex_byte, i64_text, u64_text};
use crate::text::order::{keyed, sort_by_key, sorted_by_key};
use crate::text::seqs::{join_strings, joined};
use crate::text::strings::texts;

verus! {

/// A JSON value. A number is an unsigned integer, a negative integer, or the
/// decimal text of a floating-point number.
#[derive(Debug)]
pub enum JsonValue {
    Null,
    Bool(bool),
    Unsigned(u64),
    Negative(i64),
    Float(String),
    Str(String),
    Array(Vec<JsonValue>),
    Object(Vec<(String, JsonValue)>),
}

/// A JSON value over mathematical strings and sequences.
pub enum Json {
    Null,
    Bool(bool),
    Unsigned(u64),
    Negative(i64),
    Float(Seq<char>),
    Str(Seq<char>),
    Array(Seq<Json>),
    Object(Seq<(Seq<char>, Json)>),
}

impl JsonValue {
    /// The value over mathematical strings and sequences.
    pub open spec fn model(self) -> Json
        decreases self,
    {
        match self {
            JsonValue::Null => Json::Null,
            JsonValue::Bool(b) => Json::Bool(b),
            JsonValue::Unsigned(n) => Json::Unsigned(n),
            JsonValue::Negative(n) => Json::Negative(n),
            JsonValue::Float(s) => Json::Float(s@),
            JsonValue::Str(s) => Json::Str(s@),
            JsonValue::Array(a) => Json::Array(
                Seq::new(
                    a@.len(),
                    |i: int|
                        if 0 <= i < a@.len() {
                            a@[i].model()
                        } else {
                            Json::Null
                        },
                ),
            ),
            JsonValue::Object(m) => Json::Object(
                Seq::new(
                    m@.len(),
                    |i: int|
                        if 0 <= i < m@.len() {
                            (m@[i].0@, m@[i].1.model())
                        } else {
                            (Seq::empty(), Json::Null)
                        },
                ),
            ),
        }
    }
}

impl View for JsonValue {
    type V = Json;

    open spec fn view(&self) -> Json {
        self.model()
    }
}

/// The model of an optional value.
pub open spec fn json_option(r: Option<JsonValue>) -> Option<Json> {
    match r {
        Some(v) => Some(v@),
        None => None,
    }
}

/// A character inside a JSON string literal.
pub open spec fn json_escaped(c: char) -> Seq<char> {
    if c == '"' {
        seq!['\\', '"']
    } else if c == '\\' {
        seq!['\\', '\\']
    } else if c == '\u{8}' {
        seq!['\\', 'b']
    } else if c == '\u{9}' {
        seq!['\\', 't']
    } else if c == '\u{a}' {
        seq!['\\', 'n']
    } else if c == '\u{c}' {
        seq!['\\', 'f']
    } else if c == '\u{d}' {
        seq!['\\', 'r']
    } else if !('\u{20}' <= c) {
        seq!['\\', 'u', '0', '0'] + hex_byte(c as u8)
    } else {
        seq![c]
    }
}

/// A text as a JSON string literal.
pub open spec fn json_quoted(s: Seq<char>) -> Seq<char> {
    seq!['"'] + s.map_values(|c: char| json_escaped(c)).flatten() + seq!['"']
}

/// The text of `true` or `false`.
pub open spec fn bool_text(b: bool) -> Seq<char> {
    if b {
        "true"@
    } else {
        "false"@
    }
}

/// One member of an object as text, beside its key.
pub open spec fn member_text(key: Seq<char>, value: Seq<char>) -> (Seq<char>, Seq<char>) {
    (key, json_quoted(key) + ":"@ + value)
}

/// The second halves of a list of pairs.
pub open spec fn seconds(s: Seq<(Seq<char>, Seq<char>)>) -> Seq<Seq<char>> {
    s.map_values(|e: (Seq<char>, Seq<char>)| e.1)
}

/// A value as compact JSON text, the members of each object in the order of
/// their keys.
pub open spec fn json_text(v: Json) -> Seq<char>
    decreases v,
{
    match v {
        Json::Null => "null"@,
        Json::Bool(b) => bool_text(b),
        Json::Unsigned(n) => decimal(n as nat),
        Json::Negative(n) => decimal_int(n as int),
        Json::Float(t) => t,
        Json::Str(s) => json_quoted(s),
        Json::Array(a) => "["@ + joined(json_texts(a), ","@) + "]"@,
        Json::Object(m) => "{"@ + joined(seconds(sorted_by_key(member_texts(m))), ","@) + "}"@,
    }
}

/// The texts of the elements of an array.
pub open spec fn json_texts(a: Seq<Json>) -> Seq<Seq<char>>
    decreases a,
{
    Seq::new(
        a.len(),
        |i: int|
            if 0 <= i < a.len() {
                json_text(a[i])
            } else {
                Seq::empty()
            },
    )
}

/// The members of an object as texts, each beside its key.
pub open spec fn member_texts(m: Seq<(Seq<char>, Json)>) -> Seq<(Seq<char>, Seq<char>)>
    decreases m,
{
    Seq::new(
        m.len(),
        |i: int|
            if 0 <= i < m.len() {
                member_text(m[i].0, json_text(m[i].1))
            } else {
                (Seq::empty(), Seq::empty())
            },
    )
}

/// Sorting does not look behind the keys.
pub proof fn lemma_sorting_maps<T, U>(s: Seq<(Seq<char>, T)>, f: spec_fn(T) -> U)
    ensures
        sorted_by_key(s.map_values(|e: (Seq<char>, T)| (e.0, f(e.1)))) == sorted_by_key(
            s,
        ).map_values(|e: (Seq<char>, T)| (e.0, f(e.1))),
    decreases s.len(),
{
    let g = |e: (Seq<char>, T)| (e.0, f(e.1));
    if s.len() == 0 {
        assert(sorted_by_key(s.map_values(g)) =~= sorted_by_key(s).map_values(g));
    } else {
        lemma_sorting_maps(s.drop_last(), f);
        assert(s.map_values(g).drop_last() =~= s.drop_last().map_values(g));
        let before = sorted_by_key(s.drop_last());
        lemma_prefix_maps(before, s.last().0, f);
        let p = crate::text::seqs::prefix_len(
            before,
            crate::text::order::up_to::<T>(s.last().0),
        ) as int;
        assert(before.insert(p, s.last()).map_values(g) =~= before.map_values(g).insert(
            p,
            g(s.last()),
        )) by {
            lemma_prefix_at_most(before, crate::text::order::up_to::<T>(s.last().0));
        }
    }
}

pub proof fn lemma_prefix_at_most<A>(s: Seq<A>, p: spec_fn(A) -> bool)
    ensures
        crate::text::seqs::prefix_len(s, p) <= s.len(),
    decreases s.len(),
{
    if s.len() > 0 && p(s.first()) {
        lemma_prefix_at_most(s.drop_first(), p);
    }
}

proof fn lemma_prefix_maps<T, U>(s: Seq<(Seq<char>, T)>, key: Seq<char>, f: spec_fn(T) -> U)
    ensures
        crate::text::seqs::prefix_len(
            s.map_values(|e: (Seq<char>, T)| (e.0, f(e.1))),
            crate::text::order::up_to::<U>(key),
        ) == crate::text::seqs::prefix_len(s, crate::text::order::up_to::<T>(key)),
    decreases s.len(),
{
    let g = |e: (Seq<char>, T)| (e.0, f(e.1));
    if s.len() > 0 {
        lemma_prefix_maps(s.drop_first(), key, f);
        assert(s.map_values(g).drop_first() =~= s.drop_first().map_values(g));
    }
}

/// A value as compact JSON text, the members of each object in the order of
/// their keys.
pub fn sorted_json_string(v: &JsonValue) -> (r: String)
    ensures
        r@ == json_text(v@),
    decreases v,
{
    match v {
        JsonValue::Null => "null".to_owned(),
        JsonValue::Bool(b) => if *b {
            "true".to_owned()
        } else {
            "false".to_owned()
        },
        JsonValue::Unsigned(n) => u64_text(*n),
        JsonValue::Negative(n) => i64_text(*n),
        JsonValue::Float(t) => t.clone(),
        JsonValue::Str(s) => quote_json(s.as_str()),
        JsonValue::Array(a) => {
            let mut items: Vec<String> = Vec::new();
            for i in 0..a.len()
                invariant
                    v == JsonValue::Array(*a),
                    items@.len() == i,
                    forall|k: int| 0 <= k < i ==> (#[trigger] items@[k])@ == json_text(a@[k]@),
            {
                assert(decreases_to!(*v => v->Array_0));
                assert(decreases_to!(v->Array_0 => v->Array_0@));
                assert(decreases_to!(v->Array_0@ => v->Array_0@[i as int]));
                items.push(sorted_json_string(&a[i]));
            }
            let mut r = "[".to_owned();
            r.append(join_strings(&items, ",").as_str());
            r.append("]");
            proof {
                assert(texts(items@) =~= json_texts(v@->Array_0));
            }
            r
        },
        JsonValue::Object(m) => {
            let mut members: Vec<(String, String)> = Vec::new();
            for i in 0..m.len()
                invariant
                    v == JsonValue::Object(*m),
                    members@.len() == i,
                    forall|k: int|
                        0 <= k < i ==> ((#[trigger] members@[k]).0@, members@[k].1@) == member_text(
                            m@[k].0@,
                            json_text(m@[k].1@),
                        ),
            {
                assert(decreases_to!(*v => v->Object_0));
                assert(decreases_to!(v->Object_0 => v->Object_0@));
                assert(decreases_to!(v->Object_0@ => v->Object_0@[i as int]));
                assert(decreases_to!(v->Object_0@[i as int] => v->Object_0@[i as int].1));
                let mut text = quote_json(m[i].0.as_str());
                text.append(":");
                text.append(sorted_json_string(&m[i].1).as_str());
                members.push((m[i].0.clone(), text));
            }
            let ghost unsorted = keyed(members@);
            let sorted = sort_by_key(members);
            let mut items: Vec<String> = Vec::new();
            for i in 0..sorted.len()
                invariant
                    items@.len() == i,
                    forall|k: int| 0 <= k < i ==> (#[trigger] items@[k])@ == sorted@[k].1@,
            {
                items.push(sorted[i].1.clone());
            }
            let mut r = "{".to_owned();
            r.append(join_strings(&items, ",").as_str());
            r.append("}");
            proof {
                let texted = member_texts(v@->Object_0);
                let view = |s: String| s@;
                assert(unsorted.map_values(|e: (Seq<char>, String)| (e.0, view(e.1))) =~= texted);
                lemma_sorting_maps(unsorted, view);
                assert(texts(items@) =~= seconds(sorted_by_key(texted)));
            }
            r
        },
    }
}

} // verus!
