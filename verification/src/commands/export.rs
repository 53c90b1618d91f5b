//! Export of records as newline-delimited JSON.
use vstd::prelude::*;

use crate::bridge::json_text::{double_shown, double_to_json, json_double, show_double};
use crate::bridge::protobuf::{decode_logs, logs_of};
use crate::bridge::timestamps::{format_utc, full_format, utc_text};
use crate::bridge::utf8::{from_utf8_lossy, utf8_lossy};
use crate::dedup::unpack::{resource_attrs_of, scope_attrs_of};
use crate::error::{Error, ErrorModel};
use crate::exporter::{
    kind_label, plugin_index, record_kind_label, unknown_format_text, ExporterRegistry, PluginInfo,
};
use crate::json::{json_text, sorted_json_string, Json, JsonValue};
use crate::otlp::{
    attrs_view, AnyModel, AttrValue, Attribute, KvModel, LogItem, LogRecordModel, LogsModel,
    LogsRequest, ResourceLogsModel, ScopeInfo, ScopeLogSet, ScopeLogsModel, ScopeModel,
};
use crate::predicate::{selected, RecordPredicate};
use crate::record::{stream_view, RecordModel, RecordType, StreamRecord};
use crate::text::numbers::{
    decimal, decimal_int, hex_encode, hex_text, i64_text, u64_text, usize_text,
};
use crate::text::seqs::{first_index, lemma_first_index};
use crate::text::strings::{chars_of, push_char, str_eq, string_between, texts};

verus! {

/// How a file is exported.
#[derive(Debug, Clone, Copy, PartialEq, Eq, Structural)]
pub enum ExportRoute {
    /// As newline-delimited JSON.
    Ndjson,
    /// By a plugin.
    Plugin,
}

/// How a file is exported in `format`. Fields can be selected in JSON only.
pub fn run(format: &str, fields: &Vec<String>) -> (r: Result<ExportRoute, Error>)
    ensures
        if format@ == "ndjson"@ {
            r == Ok::<ExportRoute, Error>(ExportRoute::Ndjson)
        } else if fields@.len() > 0 {
            r is Err && r->Err_0@ == ErrorModel::Usage(
                "--fields is only supported with ndjson output, not "@ + format@,
            )
        } else {
            r == Ok::<ExportRoute, Error>(ExportRoute::Plugin)
        },
{
    if str_eq(format, "ndjson") {
        return Ok(ExportRoute::Ndjson);
    }
    if fields.len() > 0 {
        let mut m = "--fields is only supported with ndjson output, not ".to_owned();
        m.append(format);
        return Err(Error::Usage(m));
    }
    Ok(ExportRoute::Plugin)
}

/// The plugin for `format`, or the error that there is none.
pub fn select_plugin<'a>(registry: &'a ExporterRegistry, format: &str) -> (r: Result<
    &'a PluginInfo,
    Error,
>)
    ensures
        ({
            let at = plugin_index(registry@.plugins, format@);
            match r {
                Ok(p) => at < registry@.plugins.len() && p@ == registry@.plugins[at],
                Err(e) => at >= registry@.plugins.len() && e@ == ErrorModel::Usage(
                    unknown_format_text(registry@, format@),
                ),
            }
        }),
{
    match registry.plugin(format) {
        Some(p) => Ok(p),
        None => Err(registry.unknown_format_error(format)),
    }
}

/// How many bytes a character has in UTF-8.
pub open spec fn utf8_width(c: char) -> nat {
    if (c as u32) < 0x80 {
        1
    } else if (c as u32) < 0x800 {
        2
    } else if (c as u32) < 0x1_0000 {
        3
    } else {
        4
    }
}

/// How many leading characters fit in so many bytes.
pub open spec fn fitting(s: Seq<char>, bytes: nat) -> nat
    decreases s.len(),
{
    if s.len() > 0 && utf8_width(s.first()) <= bytes {
        1 + fitting(s.drop_first(), (bytes - utf8_width(s.first())) as nat)
    } else {
        0
    }
}

/// A text cut down to so many bytes, with dots where something is cut off.
pub open spec fn preview(s: Seq<char>, bytes: Option<usize>) -> Seq<char> {
    match bytes {
        None => s,
        Some(limit) => if limit == 0 {
            Seq::empty()
        } else {
            let n = fitting(s, limit as nat) as int;
            if n < s.len() {
                s.take(n) + "..."@
            } else {
                s
            }
        },
    }
}

proof fn lemma_fitting_bound(s: Seq<char>, bytes: nat)
    ensures
        fitting(s, bytes) <= s.len(),
    decreases s.len(),
{
    if s.len() > 0 && utf8_width(s.first()) <= bytes {
        lemma_fitting_bound(s.drop_first(), (bytes - utf8_width(s.first())) as nat);
    }
}

/// A text cut down to so many bytes, with dots where something is cut off.
pub fn truncate_preview(value: &str, preview_bytes: Option<usize>) -> (r: String)
    ensures
        r@ == preview(value@, preview_bytes),
{
    let limit = match preview_bytes {
        Some(n) => n,
        None => return value.to_owned(),
    };
    if limit == 0 {
        return String::new();
    }
    let chars = chars_of(value);
    let mut left: usize = limit;
    let mut n: usize = 0;
    assert(chars@.skip(0) =~= chars@);
    while n < chars.len()
        invariant
            n <= chars@.len(),
            fitting(chars@, limit as nat) == n + fitting(chars@.skip(n as int), left as nat),
        ensures
            n <= chars@.len(),
            fitting(chars@, limit as nat) == n,
        decreases chars@.len() - n,
    {
        assert(chars@.skip(n as int).drop_first() =~= chars@.skip(n + 1));
        let c = chars[n] as u32;
        let width: usize = if c < 0x80 {
            1
        } else if c < 0x800 {
            2
        } else if c < 0x1_0000 {
            3
        } else {
            4
        };
        if width > left {
            break;
        }
        left = left - width;
        n = n + 1;
    }
    let mut out = string_between(&chars, 0, n);
    assert(chars@.subrange(0, n as int) =~= chars@.take(n as int));
    if n < chars.len() {
        out.append("...");
    } else {
        assert(chars@.take(n as int) =~= chars@);
    }
    out
}

/// The characters of a preview, without the dots, fit in the bytes.
pub proof fn law_preview_fits(s: Seq<char>, bytes: nat)
    ensures
        width_of(s.take(fitting(s, bytes) as int)) <= bytes,
    decreases s.len(),
{
    lemma_fitting_bound(s, bytes);
    if s.len() > 0 && utf8_width(s.first()) <= bytes {
        let rest = s.drop_first();
        let left = (bytes - utf8_width(s.first())) as nat;
        law_preview_fits(rest, left);
        let n = fitting(rest, left) as int;
        lemma_fitting_bound(rest, left);
        assert(s.take(n + 1).drop_first() =~= rest.take(n));
    }
}

/// How many bytes a text has in UTF-8.
pub open spec fn width_of(s: Seq<char>) -> nat
    decreases s.len(),
{
    if s.len() == 0 {
        0
    } else {
        utf8_width(s.first()) + width_of(s.drop_first())
    }
}

/// A timestamp as date and time.
pub open spec fn timestamp_text(ts: u64) -> Seq<char> {
    match utc_text((ts / 1_000_000_000) as i64, (ts % 1_000_000_000) as u32, full_format()) {
        Some(t) => t,
        None => decimal(ts as nat),
    }
}

/// The text of a timestamp, or its digits where the calendar does not reach
/// that far.
pub fn timestamp_or_digits(text: Option<String>, ts_unix_ns: u64) -> (r: String)
    ensures
        r@ == match text {
            Some(t) => t@,
            None => decimal(ts_unix_ns as nat),
        },
{
    match text {
        Some(t) => t,
        None => u64_text(ts_unix_ns),
    }
}

/// A timestamp as date and time.
pub fn format_timestamp(ts_unix_ns: u64) -> (r: String)
    ensures
        r@ == timestamp_text(ts_unix_ns),
{
    let secs = (ts_unix_ns / 1_000_000_000) as i64;
    let nanos = (ts_unix_ns % 1_000_000_000) as u32;
    timestamp_or_digits(format_utc(secs, nanos, "%Y-%m-%d %H:%M:%S.%f UTC"), ts_unix_ns)
}

/// Dots in a key become underscores.
pub open spec fn flat_key(key: Seq<char>) -> Seq<char> {
    key.map_values(
        |c: char|
            if c == '.' {
                '_'
            } else {
                c
            },
    )
}

/// Dots in a key become underscores.
pub fn flatten_key(key: &str) -> (r: String)
    ensures
        r@ == flat_key(key@),
{
    let chars = chars_of(key);
    let mut r = String::new();
    for i in 0..chars.len()
        invariant
            chars@ == key@,
            r@ == flat_key(key@).take(i as int),
    {
        if chars[i] == '.' {
            push_char(&mut r, '_');
        } else {
            push_char(&mut r, chars[i]);
        }
        assert(r@ =~= flat_key(key@).take(i + 1));
    }
    assert(flat_key(key@).take(chars@.len() as int) =~= flat_key(key@));
    r
}

/// An integer as JSON.
pub open spec fn json_int(n: int) -> Json {
    if n < 0 {
        Json::Negative(n as i64)
    } else {
        Json::Unsigned(n as u64)
    }
}

/// An integer as JSON.
pub fn int_to_json(n: i64) -> (r: JsonValue)
    ensures
        r@ == json_int(n as int),
{
    if n < 0 {
        JsonValue::Negative(n)
    } else {
        JsonValue::Unsigned(n as u64)
    }
}

/// The keys of the members of an object.
pub open spec fn member_keys(m: Seq<(Seq<char>, Json)>) -> Seq<Seq<char>> {
    m.map_values(|e: (Seq<char>, Json)| e.0)
}

/// The members with one more; a member with the same key is replaced.
pub open spec fn with_entry(m: Seq<(Seq<char>, Json)>, key: Seq<char>, value: Json) -> Seq<
    (Seq<char>, Json),
> {
    let at = first_index(member_keys(m), key);
    if at < m.len() {
        m.update(at, (key, value))
    } else {
        m.push((key, value))
    }
}

/// The models of members.
pub open spec fn members_view(m: Seq<(String, JsonValue)>) -> Seq<(Seq<char>, Json)> {
    m.map_values(|e: (String, JsonValue)| (e.0@, e.1@))
}

/// The place of the member with a key; the number of members where there is
/// none.
fn find_member(m: &Vec<(String, JsonValue)>, key: &str) -> (r: usize)
    ensures
        r == first_index(member_keys(members_view(m@)), key@),
        r <= m@.len(),
        r < m@.len() ==> m@[r as int].0@ == key@,
{
    let ghost keys = member_keys(members_view(m@));
    let mut i: usize = 0;
    let n = m.len();
    while i < n && !str_eq(m[i].0.as_str(), key)
        invariant
            i <= n,
            n == m@.len(),
            keys == member_keys(members_view(m@)),
            forall|j: int| 0 <= j < i ==> keys[j] != key@,
        decreases n - i,
    {
        assert(keys[i as int] == m@[i as int].0@);
        i = i + 1;
    }
    proof {
        if i < n {
            assert(keys[i as int] == m@[i as int].0@);
        }
        lemma_first_index(keys, key@, i as int);
    }
    i
}

/// Adds a member; one with the same key is replaced.
fn insert_member(m: &mut Vec<(String, JsonValue)>, key: String, value: JsonValue)
    ensures
        members_view(final(m)@) == with_entry(members_view(old(m)@), key@, value@),
{
    let ghost before = members_view(m@);
    let at = find_member(m, key.as_str());
    if at < m.len() {
        m.set(at, (key, value));
        assert(members_view(m@) =~= before.update(at as int, (key@, value@)));
    } else {
        m.push((key, value));
        assert(members_view(m@) =~= before.push((key@, value@)));
    }
}

/// An attribute value as JSON; `None` where it is empty or a number that is not
/// finite.
pub open spec fn json_of_value(v: AnyModel, bytes: Option<usize>) -> Option<Json>
    decreases v,
{
    match v {
        AnyModel::Empty => None,
        AnyModel::Str(s) => Some(Json::Str(preview(s, bytes))),
        AnyModel::Bool(b) => Some(Json::Bool(b)),
        AnyModel::Int(n) => Some(json_int(n as int)),
        AnyModel::Double(bits) => match json_double(bits) {
            Some(j) => Some(Json::Float(j)),
            None => None,
        },
        AnyModel::Bytes(b) => Some(Json::Str(preview(bytes_text(b), bytes))),
        AnyModel::Array(a) => Some(Json::Array(json_items(a, bytes))),
        AnyModel::Kvlist(m) => Some(Json::Object(json_members(m, bytes))),
    }
}

/// The elements of an array as JSON, without those that have none.
pub open spec fn json_items(a: Seq<AnyModel>, bytes: Option<usize>) -> Seq<Json>
    decreases a,
{
    if a.len() == 0 {
        Seq::empty()
    } else {
        let before = json_items(a.drop_last(), bytes);
        match json_of_value(a.last(), bytes) {
            Some(j) => before.push(j),
            None => before,
        }
    }
}

/// Attributes as JSON members, without those that have no value.
pub open spec fn json_members(m: Seq<KvModel>, bytes: Option<usize>) -> Seq<(Seq<char>, Json)>
    decreases m,
{
    if m.len() == 0 {
        Seq::empty()
    } else {
        let before = json_members(m.drop_last(), bytes);
        match m.last().value {
            Some(v) => match json_of_value(v, bytes) {
                Some(j) => with_entry(before, flat_key(m.last().key), j),
                None => before,
            },
            None => before,
        }
    }
}

/// How many bytes there are, as text.
pub open spec fn bytes_text(b: Seq<u8>) -> Seq<char> {
    "<"@ + decimal(b.len()) + " bytes>"@
}

/// How many bytes there are, as text.
fn count_bytes(b: &Vec<u8>) -> (r: String)
    ensures
        r@ == bytes_text(b@),
{
    let mut t = "<".to_owned();
    t.append(usize_text(b.len()).as_str());
    t.append(" bytes>");
    t
}

/// A number as JSON from its JSON text.
pub fn float_to_json(text: Option<String>) -> (r: Option<JsonValue>)
    ensures
        match text {
            Some(t) => r is Some && r->0@ == Json::Float(t@),
            None => r is None,
        },
{
    match text {
        Some(t) => Some(JsonValue::Float(t)),
        None => None,
    }
}

/// An attribute value as JSON; `None` where it is empty or a number that is not
/// finite.
pub fn any_value_to_json(value: &AttrValue, preview_bytes: Option<usize>) -> (r: Option<JsonValue>)
    ensures
        match r {
            Some(j) => json_of_value(value@, preview_bytes) == Some(j@),
            None => json_of_value(value@, preview_bytes) is None,
        },
    decreases value,
{
    match value {
        AttrValue::Empty => None,
        AttrValue::Str(s) => Some(JsonValue::Str(truncate_preview(s.as_str(), preview_bytes))),
        AttrValue::Bool(b) => Some(JsonValue::Bool(*b)),
        AttrValue::Int(n) => Some(int_to_json(*n)),
        AttrValue::Double(bits) => float_to_json(double_to_json(*bits)),
        AttrValue::Bytes(b) => Some(
            JsonValue::Str(truncate_preview(count_bytes(b).as_str(), preview_bytes)),
        ),
        AttrValue::Array(a) => {
            let ghost all = value@->Array_0;
            let mut items: Vec<JsonValue> = Vec::new();
            assert(all.take(0) =~= Seq::empty());
            assert(items@.map_values(|j: JsonValue| j@) =~= Seq::empty());
            for i in 0..a.len()
                invariant
                    *value == AttrValue::Array(*a),
                    all == value@->Array_0,
                    all.len() == a@.len(),
                    items@.map_values(|j: JsonValue| j@) == json_items(
                        all.take(i as int),
                        preview_bytes,
                    ),
            {
                assert(decreases_to!(*value => value->Array_0));
                assert(decreases_to!(value->Array_0 => value->Array_0@));
                assert(decreases_to!(value->Array_0@ => value->Array_0@[i as int]));
                assert(all.take(i + 1).drop_last() =~= all.take(i as int));
                assert(all[i as int] == a@[i as int]@);
                let ghost before = items@.map_values(|j: JsonValue| j@);
                if let Some(j) = any_value_to_json(&a[i], preview_bytes) {
                    items.push(j);
                    assert(items@.map_values(|j: JsonValue| j@) =~= before.push(j@));
                }
            }
            assert(all.take(a@.len() as int) =~= all);
            let r = JsonValue::Array(items);
            assert(r@->Array_0 =~= items@.map_values(|j: JsonValue| j@));
            Some(r)
        },
        AttrValue::Kvlist(m) => {
            let ghost all = value@->Kvlist_0;
            let mut members: Vec<(String, JsonValue)> = Vec::new();
            assert(all.take(0) =~= Seq::empty());
            assert(members_view(members@) =~= Seq::empty());
            for i in 0..m.len()
                invariant
                    *value == AttrValue::Kvlist(*m),
                    all == value@->Kvlist_0,
                    all.len() == m@.len(),
                    members_view(members@) == json_members(all.take(i as int), preview_bytes),
            {
                assert(decreases_to!(*value => value->Kvlist_0));
                assert(decreases_to!(value->Kvlist_0 => value->Kvlist_0@));
                assert(decreases_to!(value->Kvlist_0@ => value->Kvlist_0@[i as int]));
                assert(all.take(i + 1).drop_last() =~= all.take(i as int));
                assert(all[i as int] == m@[i as int]@);
                if let Some(inner) = &m[i].value {
                    assert(decreases_to!(value->Kvlist_0@[i as int] => value->Kvlist_0@[i as int].value));
                    assert(decreases_to!(value->Kvlist_0@[i as int].value => value->Kvlist_0@[i as int].value->0));
                    if let Some(j) = any_value_to_json(inner, preview_bytes) {
                        insert_member(&mut members, flatten_key(m[i].key.as_str()), j);
                    }
                }
            }
            assert(all.take(m@.len() as int) =~= all);
            let r = JsonValue::Object(members);
            assert(r@->Object_0 =~= members_view(members@));
            Some(r)
        },
    }
}

/// A value as plain text.
pub open spec fn value_text(v: Option<AnyModel>) -> Seq<char> {
    match v {
        None => "null"@,
        Some(AnyModel::Empty) => "null"@,
        Some(AnyModel::Str(s)) => s,
        Some(AnyModel::Bool(b)) => crate::json::bool_text(b),
        Some(AnyModel::Int(n)) => decimal_int(n as int),
        Some(AnyModel::Double(bits)) => double_shown(bits),
        Some(AnyModel::Bytes(b)) => bytes_text(b),
        Some(AnyModel::Array(a)) => "<array:"@ + decimal(a.len()) + ">"@,
        Some(AnyModel::Kvlist(m)) => "<map:"@ + decimal(m.len()) + ">"@,
    }
}

/// The model of an optional value.
pub open spec fn value_option(v: Option<AttrValue>) -> Option<AnyModel> {
    match v {
        Some(x) => Some(x@),
        None => None,
    }
}

/// A value as plain text.
pub fn format_value(value: &AttrValue) -> (r: String)
    ensures
        r@ == value_text(Some(value@)),
{
    match value {
        AttrValue::Empty => "null".to_owned(),
        AttrValue::Str(s) => s.clone(),
        AttrValue::Bool(b) => if *b {
            "true".to_owned()
        } else {
            "false".to_owned()
        },
        AttrValue::Int(n) => i64_text(*n),
        AttrValue::Double(bits) => show_double(*bits),
        AttrValue::Bytes(b) => count_bytes(b),
        AttrValue::Array(a) => {
            let mut t = "<array:".to_owned();
            t.append(usize_text(a.len()).as_str());
            t.append(">");
            t
        },
        AttrValue::Kvlist(m) => {
            let mut t = "<map:".to_owned();
            t.append(usize_text(m.len()).as_str());
            t.append(">");
            t
        },
    }
}

/// A value as plain text.
pub fn format_any_value(value: &Option<AttrValue>) -> (r: String)
    ensures
        r@ == value_text(value_option(*value)),
{
    match value {
        Some(v) => format_value(v),
        None => "null".to_owned(),
    }
}

/// Adds attributes to an object. A key that is there already stays as it is,
/// and a value that has no JSON form is left out.
pub open spec fn with_attrs(
    m: Seq<(Seq<char>, Json)>,
    attrs: Seq<KvModel>,
    bytes: Option<usize>,
) -> Seq<(Seq<char>, Json)>
    decreases attrs.len(),
{
    if attrs.len() == 0 {
        m
    } else {
        let before = with_attrs(m, attrs.drop_last(), bytes);
        let key = flat_key(attrs.last().key);
        if member_keys(before).contains(key) {
            before
        } else {
            match attrs.last().value {
                Some(v) => match json_of_value(v, bytes) {
                    Some(j) => before.push((key, j)),
                    None => before,
                },
                None => before,
            }
        }
    }
}

/// Adds attributes to an object. A key that is there already stays as it is,
/// and a value that has no JSON form is left out.
fn flatten_otlp_attrs_into_json(
    target: &mut Vec<(String, JsonValue)>,
    attrs: &Vec<Attribute>,
    preview_bytes: Option<usize>,
)
    ensures
        members_view(final(target)@) == with_attrs(
            members_view(old(target)@),
            attrs_view(attrs@),
            preview_bytes,
        ),
{
    let ghost start = members_view(target@);
    let ghost all = attrs_view(attrs@);
    assert(all.take(0) =~= Seq::empty());
    for i in 0..attrs.len()
        invariant
            all == attrs_view(attrs@),
            members_view(target@) == with_attrs(start, all.take(i as int), preview_bytes),
    {
        assert(all.take(i + 1).drop_last() =~= all.take(i as int));
        assert(all[i as int] == attrs@[i as int]@);
        let ghost before = members_view(target@);
        let key = flatten_key(attrs[i].key.as_str());
        let at = find_member(target, key.as_str());
        proof {
            if at < target@.len() {
                assert(member_keys(before)[at as int] == key@);
            } else {
                crate::dedup::lemma_first_index_hit(member_keys(before), key@);
            }
        }
        if at == target.len() {
            if let Some(value) = &attrs[i].value {
                if let Some(json) = any_value_to_json(value, preview_bytes) {
                    target.push((key, json));
                    assert(members_view(target@) =~= before.push((key@, json@)));
                }
            }
        }
    }
    assert(all.take(attrs@.len() as int) =~= all);
}

/// One member, where there is something to say.
pub open spec fn when(c: bool, key: Seq<char>, value: Json) -> Seq<(Seq<char>, Json)> {
    if c {
        seq![(key, value)]
    } else {
        Seq::empty()
    }
}

/// What a log record says of itself, as JSON members.
pub open spec fn log_fields(l: LogRecordModel, fallback_ts: u64, bytes: Option<usize>) -> Seq<
    (Seq<char>, Json),
> {
    let body = match l.body {
        Some(v) => value_text(Some(v)),
        None => Seq::empty(),
    };
    let ts = if l.time_unix_nano < fallback_ts {
        fallback_ts
    } else {
        l.time_unix_nano
    };
    when(true, "body"@, Json::Str(preview(body, bytes))) + when(
        true,
        "timestamp"@,
        Json::Str(timestamp_text(ts)),
    ) + when(
        l.observed_time_unix_nano > 0,
        "observed_timestamp"@,
        Json::Str(timestamp_text(l.observed_time_unix_nano)),
    ) + when(l.severity_number != 0, "severity_number"@, json_int(l.severity_number as int))
        + when(l.severity_text.len() > 0, "severity_text"@, Json::Str(l.severity_text)) + when(
        l.flags != 0,
        "flags"@,
        json_int(l.flags as int),
    ) + when(l.event_name.len() > 0, "event_name"@, Json::Str(l.event_name)) + when(
        l.trace_id.len() > 0,
        "trace_id"@,
        Json::Str(hex_text(l.trace_id)),
    ) + when(l.span_id.len() > 0, "span_id"@, Json::Str(hex_text(l.span_id)))
}

/// Adds a member with a key that is not there yet.
fn push_when(
    target: &mut Vec<(String, JsonValue)>,
    c: bool,
    key: &str,
    value: JsonValue,
)
    ensures
        members_view(final(target)@) == members_view(old(target)@) + when(c, key@, value@),
{
    let ghost before = members_view(target@);
    if c {
        target.push((key.to_owned(), value));
    }
    assert(members_view(target@) =~= before + when(c, key@, value@));
}

/// Adds what a log record says of itself.
fn insert_otlp_log_fields_with_preview(
    target: &mut Vec<(String, JsonValue)>,
    l: &LogItem,
    fallback_ts_unix_ns: u64,
    preview_bytes: Option<usize>,
)
    ensures
        members_view(final(target)@) == members_view(old(target)@) + log_fields(
            l@,
            fallback_ts_unix_ns,
            preview_bytes,
        ),
{
    let ghost start = members_view(target@);
    let body = if l.body.is_some() {
        format_any_value(&l.body)
    } else {
        String::new()
    };
    let ts = if l.time_unix_nano < fallback_ts_unix_ns {
        fallback_ts_unix_ns
    } else {
        l.time_unix_nano
    };
    let mut own: Vec<(String, JsonValue)> = Vec::new();
    own.push(
        ("body".to_owned(), JsonValue::Str(truncate_preview(body.as_str(), preview_bytes))),
    );
    assert(members_view(own@) =~= when(true, "body"@, own@[0].1@));
    push_when(&mut own, true, "timestamp", JsonValue::Str(format_timestamp(ts)));
    push_when(
        &mut own,
        l.observed_time_unix_nano > 0,
        "observed_timestamp",
        JsonValue::Str(format_timestamp(l.observed_time_unix_nano)),
    );
    push_when(
        &mut own,
        l.severity_number != 0,
        "severity_number",
        int_to_json(l.severity_number as i64),
    );
    push_when(
        &mut own,
        !l.severity_text.as_str().is_empty(),
        "severity_text",
        JsonValue::Str(l.severity_text.clone()),
    );
    push_when(&mut own, l.flags != 0, "flags", int_to_json(l.flags as i64));
    push_when(
        &mut own,
        !l.event_name.as_str().is_empty(),
        "event_name",
        JsonValue::Str(l.event_name.clone()),
    );
    push_when(
        &mut own,
        l.trace_id.len() > 0,
        "trace_id",
        JsonValue::Str(hex_encode(&l.trace_id)),
    );
    push_when(&mut own, l.span_id.len() > 0, "span_id", JsonValue::Str(hex_encode(&l.span_id)));
    let ghost added = members_view(own@);
    target.append(&mut own);
    assert(members_view(target@) =~= start + added);
}

/// What a scope says of itself, as JSON members.
pub open spec fn scope_fields(s: Option<ScopeModel>) -> Seq<(Seq<char>, Json)> {
    match s {
        Some(x) => when(x.name.len() > 0, "scope_name"@, Json::Str(x.name)) + when(
            x.version.len() > 0,
            "scope_version"@,
            Json::Str(x.version),
        ),
        None => Seq::empty(),
    }
}

/// The members of the JSON object for a log record.
pub open spec fn log_members(
    resource: Seq<KvModel>,
    scope: Option<ScopeModel>,
    l: LogRecordModel,
    ts: u64,
    bytes: Option<usize>,
) -> Seq<(Seq<char>, Json)> {
    with_attrs(
        with_attrs(
            with_attrs(scope_fields(scope) + log_fields(l, ts, bytes), resource, bytes),
            scope_attrs_of(scope),
            bytes,
        ),
        l.attributes,
        bytes,
    )
}

/// The members that are asked for, each once, in the order asked for; all of
/// them where none is asked for.
pub open spec fn picked(m: Seq<(Seq<char>, Json)>, fields: Seq<Seq<char>>) -> Seq<
    (Seq<char>, Json),
>
    decreases fields.len(),
{
    if fields.len() == 0 {
        Seq::empty()
    } else {
        let before = picked(m, fields.drop_last());
        let at = first_index(member_keys(m), fields.last());
        if at < m.len() && !fields.drop_last().contains(fields.last()) {
            before.push(m[at])
        } else {
            before
        }
    }
}

/// An object with the members that are asked for; all of them where none is
/// asked for.
pub open spec fn selected_json(m: Seq<(Seq<char>, Json)>, fields: Seq<Seq<char>>) -> Json {
    if fields.len() == 0 {
        Json::Object(m)
    } else {
        Json::Object(picked(m, fields))
    }
}

/// An equal JSON value.
fn copy_json(v: &JsonValue) -> (r: JsonValue)
    ensures
        r@ == v@,
    decreases v,
{
    match v {
        JsonValue::Null => JsonValue::Null,
        JsonValue::Bool(b) => JsonValue::Bool(*b),
        JsonValue::Unsigned(n) => JsonValue::Unsigned(*n),
        JsonValue::Negative(n) => JsonValue::Negative(*n),
        JsonValue::Float(t) => JsonValue::Float(t.clone()),
        JsonValue::Str(s) => JsonValue::Str(s.clone()),
        JsonValue::Array(a) => {
            let mut items: Vec<JsonValue> = Vec::new();
            for i in 0..a.len()
                invariant
                    *v == JsonValue::Array(*a),
                    items@.len() == i,
                    forall|k: int| 0 <= k < i ==> (#[trigger] items@[k])@ == a@[k]@,
            {
                assert(decreases_to!(*v => v->Array_0));
                assert(decreases_to!(v->Array_0 => v->Array_0@));
                assert(decreases_to!(v->Array_0@ => v->Array_0@[i as int]));
                items.push(copy_json(&a[i]));
            }
            let r = JsonValue::Array(items);
            assert(r@->Array_0 =~= v@->Array_0);
            r
        },
        JsonValue::Object(m) => {
            let mut members: Vec<(String, JsonValue)> = Vec::new();
            for i in 0..m.len()
                invariant
                    *v == JsonValue::Object(*m),
                    members@.len() == i,
                    forall|k: int|
                        0 <= k < i ==> (#[trigger] members@[k]).0@ == m@[k].0@ && members@[k].1@
                            == m@[k].1@,
            {
                assert(decreases_to!(*v => v->Object_0));
                assert(decreases_to!(v->Object_0 => v->Object_0@));
                assert(decreases_to!(v->Object_0@ => v->Object_0@[i as int]));
                assert(decreases_to!(v->Object_0@[i as int] => v->Object_0@[i as int].1));
                members.push((m[i].0.clone(), copy_json(&m[i].1)));
            }
            let r = JsonValue::Object(members);
            assert(r@->Object_0 =~= v@->Object_0);
            r
        },
    }
}

/// An object with the members that are asked for; all of them where none is
/// asked for.
pub fn select_json_fields(obj: Vec<(String, JsonValue)>, fields: &Vec<String>) -> (r: JsonValue)
    ensures
        r@ == selected_json(members_view(obj@), texts(fields@)),
{
    if fields.len() == 0 {
        let r = JsonValue::Object(obj);
        assert(r@->Object_0 =~= members_view(obj@));
        return r;
    }
    let ghost m = members_view(obj@);
    let ghost wanted = texts(fields@);
    let mut seen = crate::text::str_set::StrSet::new();
    let mut chosen: Vec<(String, JsonValue)> = Vec::new();
    assert(wanted.take(0) =~= Seq::empty());
    assert(members_view(chosen@) =~= Seq::empty());
    for i in 0..fields.len()
        invariant
            m == members_view(obj@),
            wanted == texts(fields@),
            seen.wf(),
            forall|x: Seq<char>| #[trigger]
                seen@.contains(x) <==> wanted.take(i as int).contains(x),
            members_view(chosen@) == picked(m, wanted.take(i as int)),
    {
        let ghost init = wanted.take(i as int);
        let ghost listed = seen@;
        let field = fields[i].as_str();
        proof {
            assert(wanted.take(i + 1).drop_last() =~= init);
            assert(wanted[i as int] == field@);
        }
        let at = find_member(&obj, field);
        if at < obj.len() && !seen.contains(field) {
            let ghost before = members_view(chosen@);
            let copy = copy_json(&obj[at].1);
            chosen.push((obj[at].0.clone(), copy));
            assert(m[at as int] == (obj@[at as int].0@, obj@[at as int].1@));
            assert(members_view(chosen@) =~= before.push(m[at as int]));
        }
        seen.insert(field);
        proof {
            let now = wanted.take(i + 1);
            assert(now =~= init.push(field@));
            assert forall|x: Seq<char>| #[trigger] seen@.contains(x) <==> now.contains(x) by {
                if init.contains(x) {
                    let k = choose|k: int| 0 <= k < init.len() && init[k] == x;
                    assert(now[k] == x);
                }
                assert(now[i as int] == field@);
                if listed.contains(x) {
                    let k = choose|k: int| 0 <= k < listed.len() && listed[k] == x;
                    assert(seen@[k] == x);
                }
                if !listed.contains(field@) {
                    assert(seen@[listed.len() as int] == field@);
                }
                if now.contains(x) && x != field@ {
                    let k = choose|k: int| 0 <= k < now.len() && now[k] == x;
                    assert(init[k] == x);
                }
                if seen@.contains(x) && x != field@ {
                    let k = choose|k: int| 0 <= k < seen@.len() && seen@[k] == x;
                    assert(listed[k] == x);
                }
            }
        }
    }
    assert(wanted.take(fields@.len() as int) =~= wanted);
    let r = JsonValue::Object(chosen);
    assert(r@->Object_0 =~= members_view(chosen@));
    r
}

/// The rows of the log records of a scope.
pub open spec fn scope_rows(
    resource: Seq<KvModel>,
    s: ScopeLogsModel,
    ts: u64,
    fields: Seq<Seq<char>>,
    bytes: Option<usize>,
) -> Seq<Json> {
    s.log_records.map_values(
        |l: LogRecordModel| selected_json(log_members(resource, s.scope, l, ts, bytes), fields),
    )
}

/// The rows of the scopes of a resource.
pub open spec fn resource_rows(
    resource: Seq<KvModel>,
    s: Seq<ScopeLogsModel>,
    ts: u64,
    fields: Seq<Seq<char>>,
    bytes: Option<usize>,
) -> Seq<Json>
    decreases s.len(),
{
    if s.len() == 0 {
        Seq::empty()
    } else {
        resource_rows(resource, s.drop_last(), ts, fields, bytes) + scope_rows(
            resource,
            s.last(),
            ts,
            fields,
            bytes,
        )
    }
}

/// The rows of a batch.
pub open spec fn batch_rows(
    r: Seq<ResourceLogsModel>,
    ts: u64,
    fields: Seq<Seq<char>>,
    bytes: Option<usize>,
) -> Seq<Json>
    decreases r.len(),
{
    if r.len() == 0 {
        Seq::empty()
    } else {
        batch_rows(r.drop_last(), ts, fields, bytes) + resource_rows(
            resource_attrs_of(r.last().resource),
            r.last().scope_logs,
            ts,
            fields,
            bytes,
        )
    }
}

/// The members of the row of a record that is no log batch.
pub open spec fn opaque_members(r: RecordModel, bytes: Option<usize>) -> Seq<(Seq<char>, Json)> {
    when(r.record_type != RecordType::Logs, "record_type"@, Json::Str(kind_label(r.record_type)))
        + when(true, "timestamp"@, Json::Str(timestamp_text(r.ts_unix_ns))) + when(
        true,
        "payload"@,
        Json::Str(preview(utf8_lossy(r.payload), bytes)),
    )
}

/// The rows of a record, given the batch that its payload encodes.
pub open spec fn decoded_rows(
    r: RecordModel,
    batch: Option<LogsModel>,
    fields: Seq<Seq<char>>,
    bytes: Option<usize>,
) -> Seq<Json> {
    match batch {
        Some(b) if r.record_type == RecordType::Logs => batch_rows(
            b.resource_logs,
            r.ts_unix_ns,
            fields,
            bytes,
        ),
        _ => seq![selected_json(opaque_members(r, bytes), fields)],
    }
}

/// The rows of a record.
pub open spec fn record_rows(r: RecordModel, fields: Seq<Seq<char>>, bytes: Option<usize>) -> Seq<
    Json,
> {
    decoded_rows(r, logs_of(r.payload), fields, bytes)
}

/// The models of rows.
pub open spec fn jsons_view(r: Seq<JsonValue>) -> Seq<Json> {
    r.map_values(|j: JsonValue| j@)
}

/// The row of a log record.
fn log_row(
    resource: &Vec<Attribute>,
    scope: &Option<ScopeInfo>,
    l: &LogItem,
    ts: u64,
    fields: &Vec<String>,
    preview_bytes: Option<usize>,
    Ghost(sm): Ghost<Option<ScopeModel>>,
) -> (r: JsonValue)
    requires
        sm == match *scope {
            Some(s) => Some(s@),
            None => None,
        },
    ensures
        r@ == selected_json(
            log_members(attrs_view(resource@), sm, l@, ts, preview_bytes),
            texts(fields@),
        ),
{
    let mut obj: Vec<(String, JsonValue)> = Vec::new();
    assert(members_view(obj@) =~= Seq::empty());
    if let Some(s) = scope {
        push_when(
            &mut obj,
            !s.name.as_str().is_empty(),
            "scope_name",
            JsonValue::Str(s.name.clone()),
        );
        push_when(
            &mut obj,
            !s.version.as_str().is_empty(),
            "scope_version",
            JsonValue::Str(s.version.clone()),
        );
    }
    assert(members_view(obj@) =~= scope_fields(sm));
    insert_otlp_log_fields_with_preview(&mut obj, l, ts, preview_bytes);
    flatten_otlp_attrs_into_json(&mut obj, resource, preview_bytes);
    if let Some(s) = scope {
        flatten_otlp_attrs_into_json(&mut obj, &s.attributes, preview_bytes);
    }
    flatten_otlp_attrs_into_json(&mut obj, &l.attributes, preview_bytes);
    select_json_fields(obj, fields)
}

/// Adds the rows of a scope.
fn push_scope_rows(
    out: &mut Vec<JsonValue>,
    resource: &Vec<Attribute>,
    sl: &ScopeLogSet,
    ts: u64,
    fields: &Vec<String>,
    preview_bytes: Option<usize>,
)
    ensures
        jsons_view(final(out)@) == jsons_view(old(out)@) + scope_rows(
            attrs_view(resource@),
            sl@,
            ts,
            texts(fields@),
            preview_bytes,
        ),
{
    let ghost start = jsons_view(out@);
    let ghost rows = scope_rows(attrs_view(resource@), sl@, ts, texts(fields@), preview_bytes);
    assert(start + rows.take(0) =~= start);
    for i in 0..sl.log_records.len()
        invariant
            rows == scope_rows(attrs_view(resource@), sl@, ts, texts(fields@), preview_bytes),
            jsons_view(out@) == start + rows.take(i as int),
    {
        let ghost before = jsons_view(out@);
        let row = log_row(
            resource,
            &sl.scope,
            &sl.log_records[i],
            ts,
            fields,
            preview_bytes,
            Ghost(sl@.scope),
        );
        assert(sl@.log_records[i as int] == sl.log_records@[i as int]@);
        assert(rows[i as int] == row@);
        out.push(row);
        assert(jsons_view(out@) =~= before.push(row@));
        assert(before.push(row@) =~= start + rows.take(i + 1));
    }
    assert(rows.take(sl.log_records@.len() as int) =~= rows);
}

/// Adds the rows of a resource.
fn push_resource_rows(
    out: &mut Vec<JsonValue>,
    resource: &Vec<Attribute>,
    scopes: &Vec<ScopeLogSet>,
    ts: u64,
    fields: &Vec<String>,
    preview_bytes: Option<usize>,
    Ghost(s): Ghost<Seq<ScopeLogsModel>>,
)
    requires
        s == scopes@.map_values(|x: ScopeLogSet| x@),
    ensures
        jsons_view(final(out)@) == jsons_view(old(out)@) + resource_rows(
            attrs_view(resource@),
            s,
            ts,
            texts(fields@),
            preview_bytes,
        ),
{
    let ghost start = jsons_view(out@);
    assert(s.take(0) =~= Seq::empty());
    assert(start + Seq::<Json>::empty() =~= start);
    for i in 0..scopes.len()
        invariant
            s == scopes@.map_values(|x: ScopeLogSet| x@),
            jsons_view(out@) == start + resource_rows(
                attrs_view(resource@),
                s.take(i as int),
                ts,
                texts(fields@),
                preview_bytes,
            ),
    {
        let ghost before = resource_rows(
            attrs_view(resource@),
            s.take(i as int),
            ts,
            texts(fields@),
            preview_bytes,
        );
        let ghost own = scope_rows(
            attrs_view(resource@),
            s[i as int],
            ts,
            texts(fields@),
            preview_bytes,
        );
        assert(s.take(i + 1).drop_last() =~= s.take(i as int));
        assert(s[i as int] == scopes@[i as int]@);
        push_scope_rows(out, resource, &scopes[i], ts, fields, preview_bytes);
        assert((start + before) + own =~= start + (before + own));
    }
    assert(s.take(scopes@.len() as int) =~= s);
}

/// The rows of a record, given the batch that its payload encodes.
pub fn rows_of_decoded(
    record: &StreamRecord,
    batch: &Option<LogsRequest>,
    fields: &Vec<String>,
    preview_bytes: Option<usize>,
) -> (r: Vec<JsonValue>)
    ensures
        jsons_view(r@) == decoded_rows(
            record@,
            match *batch {
                Some(b) => Some(b@),
                None => None,
            },
            texts(fields@),
            preview_bytes,
        ),
{
    let mut out: Vec<JsonValue> = Vec::new();
    if record.record_type == RecordType::Logs {
        if let Some(b) = batch {
            let ghost all = b@.resource_logs;
            let no_attributes: Vec<Attribute> = Vec::new();
            assert(attrs_view(no_attributes@) =~= Seq::empty());
            assert(all.take(0) =~= Seq::empty());
            assert(jsons_view(out@) =~= Seq::empty());
            for i in 0..b.resource_logs.len()
                invariant
                    all == b@.resource_logs,
                    attrs_view(no_attributes@) == Seq::<KvModel>::empty(),
                    jsons_view(out@) == batch_rows(
                        all.take(i as int),
                        record.ts_unix_ns,
                        texts(fields@),
                        preview_bytes,
                    ),
            {
                let rl = &b.resource_logs[i];
                assert(all.take(i + 1).drop_last() =~= all.take(i as int));
                assert(all[i as int] == rl@);
                let attributes = match &rl.resource {
                    Some(resource) => &resource.attributes,
                    None => &no_attributes,
                };
                push_resource_rows(
                    &mut out,
                    attributes,
                    &rl.scope_logs,
                    record.ts_unix_ns,
                    fields,
                    preview_bytes,
                    Ghost(rl@.scope_logs),
                );
            }
            assert(all.take(b.resource_logs@.len() as int) =~= all);
            return out;
        }
    }
    let mut obj: Vec<(String, JsonValue)> = Vec::new();
    assert(members_view(obj@) =~= Seq::empty());
    push_when(
        &mut obj,
        record.record_type != RecordType::Logs,
        "record_type",
        JsonValue::Str(record_kind_label(record.record_type).to_owned()),
    );
    push_when(
        &mut obj,
        true,
        "timestamp",
        JsonValue::Str(format_timestamp(record.ts_unix_ns)),
    );
    push_when(
        &mut obj,
        true,
        "payload",
        JsonValue::Str(
            truncate_preview(from_utf8_lossy(&record.payload).as_str(), preview_bytes),
        ),
    );
    assert(members_view(obj@) =~= opaque_members(record@, preview_bytes));
    let row = select_json_fields(obj, fields);
    out.push(row);
    assert(jsons_view(out@) =~= seq![row@]);
    out
}

/// The rows of a record, with long texts cut down to so many bytes.
pub fn export_ndjson_objects_with_preview(
    record: &StreamRecord,
    fields: &Vec<String>,
    preview_bytes: Option<usize>,
) -> (r: Vec<JsonValue>)
    ensures
        jsons_view(r@) == record_rows(record@, texts(fields@), preview_bytes),
{
    rows_of_decoded(record, &decode_logs(&record.payload), fields, preview_bytes)
}

/// The rows of a record.
pub fn export_ndjson_objects(record: &StreamRecord, fields: &Vec<String>) -> (r: Vec<JsonValue>)
    ensures
        jsons_view(r@) == record_rows(record@, texts(fields@), None),
{
    export_ndjson_objects_with_preview(record, fields, None)
}

/// JSON values as lines.
pub open spec fn lines_of(rows: Seq<Json>) -> Seq<char>
    decreases rows.len(),
{
    if rows.len() == 0 {
        Seq::empty()
    } else {
        lines_of(rows.drop_last()) + json_text(rows.last()) + "\n"@
    }
}

/// Adds JSON values as lines.
fn push_lines(out: &mut String, rows: &Vec<JsonValue>)
    ensures
        final(out)@ == old(out)@ + lines_of(jsons_view(rows@)),
{
    let ghost start = out@;
    let ghost all = jsons_view(rows@);
    assert(all.take(0) =~= Seq::empty());
    assert(start + lines_of(all.take(0)) =~= start);
    for i in 0..rows.len()
        invariant
            all == jsons_view(rows@),
            out@ == start + lines_of(all.take(i as int)),
    {
        let ghost before = lines_of(all.take(i as int));
        assert(all.take(i + 1).drop_last() =~= all.take(i as int));
        assert(all[i as int] == rows@[i as int]@);
        out.append(sorted_json_string(&rows[i]).as_str());
        out.append("\n");
        assert(out@ =~= start + (before + json_text(all[i as int]) + "\n"@));
    }
    assert(all.take(rows@.len() as int) =~= all);
}

/// The lines of records.
pub open spec fn stream_lines(
    records: Seq<RecordModel>,
    fields: Seq<Seq<char>>,
    bytes: Option<usize>,
) -> Seq<char>
    decreases records.len(),
{
    if records.len() == 0 {
        Seq::empty()
    } else {
        stream_lines(records.drop_last(), fields, bytes) + lines_of(
            record_rows(records.last(), fields, bytes),
        )
    }
}

/// The records of a file as lines of JSON.
pub fn run_ndjson(records: &Vec<StreamRecord>, fields: &Vec<String>) -> (r: String)
    ensures
        r@ == stream_lines(stream_view(records@), texts(fields@), None),
{
    let mut out = String::new();
    let ghost all = stream_view(records@);
    assert(all.take(0) =~= Seq::empty());
    for i in 0..records.len()
        invariant
            all == stream_view(records@),
            out@ == stream_lines(all.take(i as int), texts(fields@), None),
    {
        assert(all.take(i + 1).drop_last() =~= all.take(i as int));
        assert(all[i as int] == records@[i as int]@);
        push_lines(&mut out, &export_ndjson_objects(&records[i], fields));
    }
    assert(all.take(records@.len() as int) =~= all);
    out
}

/// The matching records of a file as lines of JSON.
pub fn run_query_ndjson_multi(
    records: &Vec<StreamRecord>,
    predicate: &RecordPredicate,
    fields: &Vec<String>,
    preview_bytes: Option<usize>,
) -> (r: String)
    ensures
        r@ == stream_lines(
            selected(stream_view(records@), predicate@),
            texts(fields@),
            preview_bytes,
        ),
{
    let mut out = String::new();
    let ghost all = stream_view(records@);
    let ghost p = predicate@;
    proof {
        reveal(Seq::filter);
        assert(all.take(0) =~= Seq::empty());
        assert(selected(all.take(0), p) =~= Seq::empty());
    }
    for i in 0..records.len()
        invariant
            all == stream_view(records@),
            p == predicate@,
            out@ == stream_lines(selected(all.take(i as int), p), texts(fields@), preview_bytes),
    {
        let ghost before = selected(all.take(i as int), p);
        proof {
            reveal(Seq::filter);
            assert(all.take(i + 1).drop_last() =~= all.take(i as int));
            assert(all[i as int] == records@[i as int]@);
        }
        if predicate.matches(&records[i]) {
            assert(selected(all.take(i + 1), p) == before.push(all[i as int]));
            assert(before.push(all[i as int]).drop_last() =~= before);
            push_lines(
                &mut out,
                &export_ndjson_objects_with_preview(&records[i], fields, preview_bytes),
            );
        }
    }
    assert(all.take(records@.len() as int) =~= all);
    out
}

/// Records can be turned into lines piece by piece.
pub proof fn law_lines_in_pieces(
    a: Seq<RecordModel>,
    b: Seq<RecordModel>,
    fields: Seq<Seq<char>>,
    bytes: Option<usize>,
)
    ensures
        stream_lines(a + b, fields, bytes) == stream_lines(a, fields, bytes) + stream_lines(
            b,
            fields,
            bytes,
        ),
    decreases b.len(),
{
    if b.len() == 0 {
        assert(a + b =~= a);
        assert(stream_lines(a, fields, bytes) + stream_lines(b, fields, bytes) =~= stream_lines(
            a,
            fields,
            bytes,
        ));
    } else {
        law_lines_in_pieces(a, b.drop_last(), fields, bytes);
        assert((a + b).drop_last() =~= a + b.drop_last());
        assert((a + b).last() == b.last());
        assert(stream_lines(a + b, fields, bytes) =~= stream_lines(a, fields, bytes)
            + stream_lines(b, fields, bytes));
    }
}

} // verus!
