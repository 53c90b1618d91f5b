//! What the rows of an export hold.
use vstd::prelude::*;

use crate::bridge::protobuf::logs_of;
use crate::bridge::utf8::utf8_lossy;
use crate::commands::export::{
    flat_key, json_int, json_of_value, log_fields, log_members, member_keys, opaque_members, picked,
    preview, record_rows, scope_fields, selected_json, timestamp_text, value_text, with_attrs,
};
use crate::dedup::unpack::scope_attrs_of;
use crate::json::Json;
use crate::otlp::{KvModel, LogRecordModel, ScopeModel};
use crate::record::{RecordModel, RecordType};
use crate::text::numbers::hex_text;
use crate::text::seqs::first_index;

verus! {

/// The value under a key: that of the first member with the key.
pub open spec fn member(m: Seq<(Seq<char>, Json)>, key: Seq<char>) -> Option<Json>
    decreases m.len(),
{
    if m.len() == 0 {
        None
    } else if m[0].0 == key {
        Some(m[0].1)
    } else {
        member(m.drop_first(), key)
    }
}

proof fn lemma_member_concat(a: Seq<(Seq<char>, Json)>, b: Seq<(Seq<char>, Json)>, key: Seq<char>)
    ensures
        member(a + b, key) == if member(a, key) is Some {
            member(a, key)
        } else {
            member(b, key)
        },
    decreases a.len(),
{
    if a.len() == 0 {
        assert(a + b =~= b);
    } else {
        lemma_member_concat(a.drop_first(), b, key);
        assert((a + b).drop_first() =~= a.drop_first() + b);
        assert((a + b)[0] == a[0]);
    }
}

proof fn lemma_member_keys(m: Seq<(Seq<char>, Json)>, key: Seq<char>)
    ensures
        member(m, key) is Some <==> member_keys(m).contains(key),
    decreases m.len(),
{
    let keys = member_keys(m);
    if m.len() > 0 {
        let rest = m.drop_first();
        lemma_member_keys(rest, key);
        assert(keys[0] == m[0].0);
        if member_keys(rest).contains(key) {
            let i = choose|i: int| 0 <= i < member_keys(rest).len() && member_keys(rest)[i] == key;
            assert(keys[i + 1] == key);
        }
        if keys.contains(key) && m[0].0 != key {
            let i = choose|i: int| 0 <= i < keys.len() && keys[i] == key;
            assert(member_keys(rest)[i - 1] == key);
        }
    }
}

proof fn lemma_member_when(c: bool, k: Seq<char>, v: Json, key: Seq<char>)
    ensures
        member(crate::commands::export::when(c, k, v), key) == if c && k == key {
            Some(v)
        } else {
            None
        },
{
    if c {
        let one = crate::commands::export::when(c, k, v);
        assert(one.drop_first() =~= Seq::empty());
        assert(member(one.drop_first(), key) is None);
    }
}

/// What is there already is not touched by attributes.
pub proof fn law_attributes_replace_nothing(
    m: Seq<(Seq<char>, Json)>,
    attrs: Seq<KvModel>,
    bytes: Option<usize>,
    key: Seq<char>,
)
    requires
        member(m, key) is Some,
    ensures
        member(with_attrs(m, attrs, bytes), key) == member(m, key),
    decreases attrs.len(),
{
    if attrs.len() > 0 {
        let before = with_attrs(m, attrs.drop_last(), bytes);
        let after = with_attrs(m, attrs, bytes);
        law_attributes_replace_nothing(m, attrs.drop_last(), bytes, key);
        if after != before {
            lemma_member_concat(before, seq![after.last()], key);
            assert(after =~= before + seq![after.last()]);
        }
    }
}

/// An attribute with a JSON form stands under its key with dots as underscores,
/// unless the key was taken by then.
pub proof fn law_attributes_are_members(
    m: Seq<(Seq<char>, Json)>,
    attrs: Seq<KvModel>,
    bytes: Option<usize>,
    i: int,
    value: Json,
)
    requires
        0 <= i < attrs.len(),
        attrs[i].value is Some,
        json_of_value(attrs[i].value->0, bytes) == Some(value),
        member(with_attrs(m, attrs.take(i), bytes), flat_key(attrs[i].key)) is None,
    ensures
        member(with_attrs(m, attrs, bytes), flat_key(attrs[i].key)) == Some(value),
    decreases attrs.len() - i,
{
    let key = flat_key(attrs[i].key);
    assert(attrs.take(i + 1).take(i) =~= attrs.take(i));
    lemma_attributes_are_members(m, attrs.take(i + 1), bytes, i, value);
    lemma_attrs_in_pieces(m, attrs.take(i + 1), attrs.skip(i + 1), bytes);
    assert(attrs.take(i + 1) + attrs.skip(i + 1) =~= attrs);
    law_attributes_replace_nothing(
        with_attrs(m, attrs.take(i + 1), bytes),
        attrs.skip(i + 1),
        bytes,
        key,
    );
}

proof fn lemma_attributes_are_members(
    m: Seq<(Seq<char>, Json)>,
    attrs: Seq<KvModel>,
    bytes: Option<usize>,
    i: int,
    value: Json,
)
    requires
        0 <= i == attrs.len() - 1,
        attrs[i].value is Some,
        json_of_value(attrs[i].value->0, bytes) == Some(value),
        member(with_attrs(m, attrs.take(i), bytes), flat_key(attrs[i].key)) is None,
    ensures
        member(with_attrs(m, attrs, bytes), flat_key(attrs[i].key)) == Some(value),
{
    let key = flat_key(attrs[i].key);
    let before = with_attrs(m, attrs.drop_last(), bytes);
    assert(attrs.take(i) =~= attrs.drop_last());
    lemma_member_keys(before, key);
    let one = seq![(key, value)];
    assert(with_attrs(m, attrs, bytes) =~= before + one);
    lemma_member_concat(before, one, key);
}

/// Attributes can be added in pieces.
proof fn lemma_attrs_in_pieces(
    m: Seq<(Seq<char>, Json)>,
    a: Seq<KvModel>,
    b: Seq<KvModel>,
    bytes: Option<usize>,
)
    ensures
        with_attrs(m, a + b, bytes) == with_attrs(with_attrs(m, a, bytes), b, bytes),
    decreases b.len(),
{
    if b.len() == 0 {
        assert(a + b =~= a);
    } else {
        lemma_attrs_in_pieces(m, a, b.drop_last(), bytes);
        assert((a + b).drop_last() =~= a + b.drop_last());
        assert((a + b).last() == b.last());
    }
}

/// The value of a field that is there only under a condition.
pub open spec fn given(c: bool, v: Json) -> Option<Json> {
    if c {
        Some(v)
    } else {
        None
    }
}

/// The keys of the fields of a log record are told apart by a character.
proof fn lemma_field_keys()
    ensures
        "body"@.len() == 4,
        "flags"@.len() == 5,
        "span_id"@.len() == 7,
        "trace_id"@.len() == 8,
        "timestamp"@.len() == 9,
        "event_name"@.len() == 10,
        "scope_name"@.len() == 10,
        "event_name"@[0] == 'e',
        "scope_name"@[0] == 's',
        "severity_text"@.len() == 13,
        "scope_version"@.len() == 13,
        "severity_text"@[1] == 'e',
        "scope_version"@[1] == 'c',
        "severity_number"@.len() == 15,
        "observed_timestamp"@.len() == 18,
{
    reveal_strlit("body");
    reveal_strlit("flags");
    reveal_strlit("span_id");
    reveal_strlit("trace_id");
    reveal_strlit("timestamp");
    reveal_strlit("event_name");
    reveal_strlit("scope_name");
    reveal_strlit("severity_text");
    reveal_strlit("scope_version");
    reveal_strlit("severity_number");
    reveal_strlit("observed_timestamp");
}

/// The value of a field among the nine that a log record can have.
proof fn lemma_log_field(l: LogRecordModel, ts: u64, bytes: Option<usize>, key: Seq<char>)
    ensures
        ({
            let f = log_fields(l, ts, bytes);
            &&& member(f, "trace_id"@) == given(
                l.trace_id.len() > 0,
                Json::Str(hex_text(l.trace_id)),
            )
            &&& member(f, "span_id"@) == given(l.span_id.len() > 0, Json::Str(hex_text(l.span_id)))
            &&& member(f, "severity_text"@) == given(
                l.severity_text.len() > 0,
                Json::Str(l.severity_text),
            )
            &&& member(f, "severity_number"@) == given(
                l.severity_number != 0,
                json_int(l.severity_number as int),
            )
            &&& member(f, "flags"@) == given(l.flags != 0, json_int(l.flags as int))
            &&& member(f, "event_name"@) == given(l.event_name.len() > 0, Json::Str(l.event_name))
            &&& member(f, "observed_timestamp"@) == given(
                l.observed_time_unix_nano > 0,
                Json::Str(timestamp_text(l.observed_time_unix_nano)),
            )
            &&& member(f, "timestamp"@) == Some(
                Json::Str(
                    timestamp_text(
                        if l.time_unix_nano >= ts {
                            l.time_unix_nano
                        } else {
                            ts
                        },
                    ),
                ),
            )
            &&& member(f, "body"@) == Some(
                Json::Str(
                    preview(
                        match l.body {
                            Some(v) => value_text(Some(v)),
                            None => Seq::empty(),
                        },
                        bytes,
                    ),
                ),
            )
        }),
{
    lemma_field_keys();
    lemma_log_field_parts(l, ts, bytes, "trace_id"@);
    lemma_log_field_parts(l, ts, bytes, "span_id"@);
    lemma_log_field_parts(l, ts, bytes, "severity_text"@);
    lemma_log_field_parts(l, ts, bytes, "severity_number"@);
    lemma_log_field_parts(l, ts, bytes, "flags"@);
    lemma_log_field_parts(l, ts, bytes, "event_name"@);
    lemma_log_field_parts(l, ts, bytes, "observed_timestamp"@);
    lemma_log_field_parts(l, ts, bytes, "timestamp"@);
    lemma_log_field_parts(l, ts, bytes, "body"@);
}

/// A field is looked up part by part.
proof fn lemma_log_field_parts(l: LogRecordModel, ts: u64, bytes: Option<usize>, key: Seq<char>)
    ensures
        ({
            let body = match l.body {
                Some(v) => value_text(Some(v)),
                None => Seq::empty(),
            };
            let time = if l.time_unix_nano < ts {
                ts
            } else {
                l.time_unix_nano
            };
            member(log_fields(l, ts, bytes), key) == if key == "body"@ {
                Some(Json::Str(preview(body, bytes)))
            } else if key == "timestamp"@ {
                Some(Json::Str(timestamp_text(time)))
            } else if l.observed_time_unix_nano > 0 && key == "observed_timestamp"@ {
                Some(Json::Str(timestamp_text(l.observed_time_unix_nano)))
            } else if l.severity_number != 0 && key == "severity_number"@ {
                Some(json_int(l.severity_number as int))
            } else if l.severity_text.len() > 0 && key == "severity_text"@ {
                Some(Json::Str(l.severity_text))
            } else if l.flags != 0 && key == "flags"@ {
                Some(json_int(l.flags as int))
            } else if l.event_name.len() > 0 && key == "event_name"@ {
                Some(Json::Str(l.event_name))
            } else if l.trace_id.len() > 0 && key == "trace_id"@ {
                Some(Json::Str(hex_text(l.trace_id)))
            } else if l.span_id.len() > 0 && key == "span_id"@ {
                Some(Json::Str(hex_text(l.span_id)))
            } else {
                None
            }
        }),
{
    let body = match l.body {
        Some(v) => value_text(Some(v)),
        None => Seq::empty(),
    };
    let time = if l.time_unix_nano < ts {
        ts
    } else {
        l.time_unix_nano
    };
    let p1 = crate::commands::export::when(true, "body"@, Json::Str(preview(body, bytes)));
    let p2 = crate::commands::export::when(true, "timestamp"@, Json::Str(timestamp_text(time)));
    let p3 = crate::commands::export::when(
        l.observed_time_unix_nano > 0,
        "observed_timestamp"@,
        Json::Str(timestamp_text(l.observed_time_unix_nano)),
    );
    let p4 = crate::commands::export::when(
        l.severity_number != 0,
        "severity_number"@,
        json_int(l.severity_number as int),
    );
    let p5 = crate::commands::export::when(l.severity_text.len() > 0, "severity_text"@, Json::Str(l.severity_text));
    let p6 = crate::commands::export::when(l.flags != 0, "flags"@, json_int(l.flags as int));
    let p7 = crate::commands::export::when(l.event_name.len() > 0, "event_name"@, Json::Str(l.event_name));
    let p8 = crate::commands::export::when(l.trace_id.len() > 0, "trace_id"@, Json::Str(hex_text(l.trace_id)));
    let p9 = crate::commands::export::when(l.span_id.len() > 0, "span_id"@, Json::Str(hex_text(l.span_id)));
    assert(log_fields(l, ts, bytes) == p1 + p2 + p3 + p4 + p5 + p6 + p7 + p8 + p9);
    lemma_member_concat(p1, p2, key);
    lemma_member_concat(p1 + p2, p3, key);
    lemma_member_concat(p1 + p2 + p3, p4, key);
    lemma_member_concat(p1 + p2 + p3 + p4, p5, key);
    lemma_member_concat(p1 + p2 + p3 + p4 + p5, p6, key);
    lemma_member_concat(p1 + p2 + p3 + p4 + p5 + p6, p7, key);
    lemma_member_concat(p1 + p2 + p3 + p4 + p5 + p6 + p7, p8, key);
    lemma_member_concat(p1 + p2 + p3 + p4 + p5 + p6 + p7 + p8, p9, key);
    lemma_member_when(true, "body"@, Json::Str(preview(body, bytes)), key);
    lemma_member_when(true, "timestamp"@, Json::Str(timestamp_text(time)), key);
    lemma_member_when(
        l.observed_time_unix_nano > 0,
        "observed_timestamp"@,
        Json::Str(timestamp_text(l.observed_time_unix_nano)),
        key,
    );
    lemma_member_when(
        l.severity_number != 0,
        "severity_number"@,
        json_int(l.severity_number as int),
        key,
    );
    lemma_member_when(
        l.severity_text.len() > 0,
        "severity_text"@,
        Json::Str(l.severity_text),
        key,
    );
    lemma_member_when(l.flags != 0, "flags"@, json_int(l.flags as int), key);
    lemma_member_when(l.event_name.len() > 0, "event_name"@, Json::Str(l.event_name), key);
    lemma_member_when(l.trace_id.len() > 0, "trace_id"@, Json::Str(hex_text(l.trace_id)), key);
    lemma_member_when(l.span_id.len() > 0, "span_id"@, Json::Str(hex_text(l.span_id)), key);
}

proof fn lemma_scope_field(s: Option<ScopeModel>, key: Seq<char>)
    ensures
        member(scope_fields(s), key) == match s {
            Some(x) => if x.name.len() > 0 && key == "scope_name"@ {
                Some(Json::Str(x.name))
            } else if x.version.len() > 0 && key == "scope_version"@ {
                Some(Json::Str(x.version))
            } else {
                None
            },
            None => None,
        },
{
    if let Some(x) = s {
        lemma_member_when(x.name.len() > 0, "scope_name"@, Json::Str(x.name), key);
        lemma_member_when(x.version.len() > 0, "scope_version"@, Json::Str(x.version), key);
        lemma_member_concat(
            crate::commands::export::when(x.name.len() > 0, "scope_name"@, Json::Str(x.name)),
            crate::commands::export::when(x.version.len() > 0, "scope_version"@, Json::Str(x.version)),
            key,
        );
    }
}

/// The row of a log record says what the record says, under the name of each
/// field, whatever attributes there are: its two identifiers as hexadecimal
/// texts, its severity as text and as number, its flags and its event name
/// where they are set, its times, its body, and the scope it belongs to.
pub proof fn law_row_holds_the_fields(
    resource: Seq<KvModel>,
    scope: Option<ScopeModel>,
    l: LogRecordModel,
    ts: u64,
    bytes: Option<usize>,
)
    ensures
        ({
            let row = log_members(resource, scope, l, ts, bytes);
            &&& l.trace_id.len() > 0 ==> member(row, "trace_id"@) == Some(
                Json::Str(hex_text(l.trace_id)),
            )
            &&& l.span_id.len() > 0 ==> member(row, "span_id"@) == Some(
                Json::Str(hex_text(l.span_id)),
            )
            &&& l.severity_text.len() > 0 ==> member(row, "severity_text"@) == Some(
                Json::Str(l.severity_text),
            )
            &&& l.severity_number > 0 ==> member(row, "severity_number"@) == Some(
                Json::Unsigned(l.severity_number as u64),
            )
            &&& l.severity_number < 0 ==> member(row, "severity_number"@) == Some(
                Json::Negative(l.severity_number as i64),
            )
            &&& l.flags > 0 ==> member(row, "flags"@) == Some(Json::Unsigned(l.flags as u64))
            &&& l.event_name.len() > 0 ==> member(row, "event_name"@) == Some(
                Json::Str(l.event_name),
            )
            &&& l.observed_time_unix_nano > 0 ==> member(row, "observed_timestamp"@) == Some(
                Json::Str(timestamp_text(l.observed_time_unix_nano)),
            )
            &&& l.time_unix_nano >= ts ==> member(row, "timestamp"@) == Some(
                Json::Str(timestamp_text(l.time_unix_nano)),
            )
            &&& l.time_unix_nano < ts ==> member(row, "timestamp"@) == Some(
                Json::Str(timestamp_text(ts)),
            )
            &&& l.body is None ==> member(row, "body"@) == Some(
                Json::Str(preview(Seq::empty(), bytes)),
            )
            &&& l.body is Some ==> member(row, "body"@) == Some(
                Json::Str(preview(value_text(l.body), bytes)),
            )
            &&& scope is Some && scope->0.name.len() > 0 ==> member(row, "scope_name"@) == Some(
                Json::Str(scope->0.name),
            )
            &&& scope is Some && scope->0.version.len() > 0 ==> member(row, "scope_version"@)
                == Some(Json::Str(scope->0.version))
        }),
{
    lemma_field_keys();
    lemma_log_field(l, ts, bytes, "body"@);
    lemma_row_field(resource, scope, l, ts, bytes, "trace_id"@);
    lemma_row_field(resource, scope, l, ts, bytes, "span_id"@);
    lemma_row_field(resource, scope, l, ts, bytes, "severity_text"@);
    lemma_row_field(resource, scope, l, ts, bytes, "severity_number"@);
    lemma_row_field(resource, scope, l, ts, bytes, "flags"@);
    lemma_row_field(resource, scope, l, ts, bytes, "event_name"@);
    lemma_row_field(resource, scope, l, ts, bytes, "observed_timestamp"@);
    lemma_row_field(resource, scope, l, ts, bytes, "timestamp"@);
    lemma_row_field(resource, scope, l, ts, bytes, "body"@);
    lemma_row_field(resource, scope, l, ts, bytes, "scope_name"@);
    lemma_row_field(resource, scope, l, ts, bytes, "scope_version"@);
}

/// A field stays as it is when attributes are added.
proof fn lemma_row_field(
    resource: Seq<KvModel>,
    scope: Option<ScopeModel>,
    l: LogRecordModel,
    ts: u64,
    bytes: Option<usize>,
    key: Seq<char>,
)
    ensures
        ({
            let own = if member(scope_fields(scope), key) is Some {
                member(scope_fields(scope), key)
            } else {
                member(log_fields(l, ts, bytes), key)
            };
            own is Some ==> member(log_members(resource, scope, l, ts, bytes), key) == own
        }),
        member(scope_fields(scope), key) == match scope {
            Some(x) => if x.name.len() > 0 && key == "scope_name"@ {
                Some(Json::Str(x.name))
            } else if x.version.len() > 0 && key == "scope_version"@ {
                Some(Json::Str(x.version))
            } else {
                None
            },
            None => None,
        },
{
    let start = scope_fields(scope) + log_fields(l, ts, bytes);
    lemma_scope_field(scope, key);
    lemma_member_concat(scope_fields(scope), log_fields(l, ts, bytes), key);
    if member(start, key) is Some {
        let first = with_attrs(start, resource, bytes);
        let second = with_attrs(first, scope_attrs_of(scope), bytes);
        law_attributes_replace_nothing(start, resource, bytes, key);
        law_attributes_replace_nothing(first, scope_attrs_of(scope), bytes, key);
        law_attributes_replace_nothing(second, l.attributes, bytes, key);
    }
}

/// Identifiers that are not there make no member, unless an attribute of that
/// name does.
pub proof fn law_absent_fields_are_left_out(
    scope: Option<ScopeModel>,
    l: LogRecordModel,
    ts: u64,
    bytes: Option<usize>,
)
    requires
        l.attributes.len() == 0,
        scope is None,
    ensures
        ({
            let row = log_members(Seq::empty(), scope, l, ts, bytes);
            &&& l.trace_id.len() == 0 ==> member(row, "trace_id"@) is None
            &&& l.span_id.len() == 0 ==> member(row, "span_id"@) is None
            &&& l.severity_text.len() == 0 ==> member(row, "severity_text"@) is None
            &&& l.severity_number == 0 ==> member(row, "severity_number"@) is None
            &&& l.flags == 0 ==> member(row, "flags"@) is None
            &&& l.event_name.len() == 0 ==> member(row, "event_name"@) is None
            &&& l.observed_time_unix_nano == 0 ==> member(row, "observed_timestamp"@) is None
        }),
{
    lemma_field_keys();
    lemma_log_field(l, ts, bytes, "body"@);
    assert(scope_fields(scope) + log_fields(l, ts, bytes) =~= log_fields(l, ts, bytes));
}

/// Attributes of the resource go before those of the scope, and those before
/// the attributes of the log record: the first one under a key is shown.
pub proof fn law_resource_attributes_come_first(
    resource: Seq<KvModel>,
    scope: Option<ScopeModel>,
    l: LogRecordModel,
    ts: u64,
    bytes: Option<usize>,
    i: int,
    value: Json,
)
    requires
        0 <= i < resource.len(),
        resource[i].value is Some,
        json_of_value(resource[i].value->0, bytes) == Some(value),
        member(scope_fields(scope) + log_fields(l, ts, bytes), flat_key(resource[i].key)) is None,
        forall|j: int|
            0 <= j < i ==> flat_key((#[trigger] resource[j]).key) != flat_key(resource[i].key),
    ensures
        member(log_members(resource, scope, l, ts, bytes), flat_key(resource[i].key)) == Some(
            value,
        ),
{
    let start = scope_fields(scope) + log_fields(l, ts, bytes);
    let key = flat_key(resource[i].key);
    let first = with_attrs(start, resource, bytes);
    let second = with_attrs(first, scope_attrs_of(scope), bytes);
    assert forall|j: int| 0 <= j < i implies flat_key((#[trigger] resource.take(i)[j]).key)
        != key by {
        assert(flat_key(resource[j].key) != key);
    }
    law_attributes_bring_no_other_key(start, resource.take(i), bytes, key);
    law_attributes_are_members(start, resource, bytes, i, value);
    law_attributes_replace_nothing(first, scope_attrs_of(scope), bytes, key);
    law_attributes_replace_nothing(second, l.attributes, bytes, key);
}

/// Attributes bring no key but their own.
pub proof fn law_attributes_bring_no_other_key(
    m: Seq<(Seq<char>, Json)>,
    attrs: Seq<KvModel>,
    bytes: Option<usize>,
    key: Seq<char>,
)
    requires
        member(m, key) is None,
        forall|j: int| 0 <= j < attrs.len() ==> flat_key((#[trigger] attrs[j]).key) != key,
    ensures
        member(with_attrs(m, attrs, bytes), key) is None,
    decreases attrs.len(),
{
    if attrs.len() > 0 {
        let init = attrs.drop_last();
        let before = with_attrs(m, init, bytes);
        let after = with_attrs(m, attrs, bytes);
        assert forall|j: int| 0 <= j < init.len() implies flat_key((#[trigger] init[j]).key)
            != key by {
            assert(flat_key(attrs[j].key) != key);
        }
        law_attributes_bring_no_other_key(m, init, bytes, key);
        assert(flat_key(attrs[attrs.len() - 1].key) != key);
        if after != before {
            let one = seq![after.last()];
            assert(after =~= before + one);
            assert(one[0].0 == flat_key(attrs.last().key));
            assert(member(one.drop_first(), key) is None);
            assert(member(one, key) is None);
            lemma_member_concat(before, one, key);
        }
    }
}

/// Dots in a key become underscores, character by character, and nothing else
/// changes.
pub proof fn law_keys_are_flattened(key: Seq<char>, i: int)
    requires
        0 <= i < key.len(),
    ensures
        flat_key(key).len() == key.len(),
        key[i] == '.' ==> flat_key(key)[i] == '_',
        key[i] != '.' ==> flat_key(key)[i] == key[i],
        !flat_key(key).contains('.'),
{
    if flat_key(key).contains('.') {
        let j = choose|j: int| 0 <= j < flat_key(key).len() && flat_key(key)[j] == '.';
        assert(key[j] == '.' || key[j] == '.');
    }
}

/// Fields that are asked for keep their values, and no other member is there.
pub proof fn law_picked_fields_keep_their_values(
    m: Seq<(Seq<char>, Json)>,
    fields: Seq<Seq<char>>,
    key: Seq<char>,
)
    ensures
        member(picked(m, fields), key) == if fields.contains(key) {
            member(m, key)
        } else {
            None
        },
    decreases fields.len(),
{
    if fields.len() > 0 {
        let init = fields.drop_last();
        let last = fields.last();
        let before = picked(m, init);
        let after = picked(m, fields);
        law_picked_fields_keep_their_values(m, init, key);
        if fields.contains(key) && key != last {
            let i = choose|i: int| 0 <= i < fields.len() && fields[i] == key;
            assert(init[i] == key);
        }
        if init.contains(key) {
            let i = choose|i: int| 0 <= i < init.len() && init[i] == key;
            assert(fields[i] == key);
        }
        assert(fields[fields.len() - 1] == last);
        lemma_first_member(m, last);
        let at = first_index(member_keys(m), last);
        if at < m.len() && !init.contains(last) {
            let one = seq![m[at]];
            assert(after =~= before + one);
            lemma_member_concat(before, one, key);
            assert(one.drop_first() =~= Seq::empty());
            assert(member(one.drop_first(), key) is None);
        }
    }
}

/// The first member with a key holds the value under it.
proof fn lemma_first_member(m: Seq<(Seq<char>, Json)>, key: Seq<char>)
    ensures
        ({
            let at = first_index(member_keys(m), key);
            &&& 0 <= at <= m.len()
            &&& at < m.len() ==> m[at].0 == key && member(m, key) == Some(m[at].1)
            &&& at == m.len() ==> member(m, key) is None
        }),
    decreases m.len(),
{
    if m.len() > 0 {
        lemma_first_member(m.drop_first(), key);
        assert(member_keys(m).drop_first() =~= member_keys(m.drop_first()));
        assert(member_keys(m)[0] == m[0].0);
    }
}

/// A record that is no log batch is one row with its type, its time and its
/// payload; a log record that cannot be decoded has no type in its row.
pub proof fn law_other_records_are_one_row(r: RecordModel, bytes: Option<usize>)
    requires
        r.record_type != RecordType::Logs || logs_of(r.payload) is None,
    ensures
        ({
            let rows = record_rows(r, Seq::empty(), bytes);
            let m = rows[0]->Object_0;
            &&& rows.len() == 1
            &&& rows[0] is Object
            &&& r.record_type == RecordType::Metrics ==> member(m, "record_type"@) == Some(
                Json::Str("metrics"@),
            )
            &&& r.record_type == RecordType::Traces ==> member(m, "record_type"@) == Some(
                Json::Str("traces"@),
            )
            &&& r.record_type == RecordType::Logs ==> member(m, "record_type"@) is None
            &&& member(m, "timestamp"@) == Some(Json::Str(timestamp_text(r.ts_unix_ns)))
            &&& member(m, "payload"@) == Some(Json::Str(preview(utf8_lossy(r.payload), bytes)))
        }),
{
    reveal_strlit("record_type");
    reveal_strlit("timestamp");
    reveal_strlit("payload");
    let label = Json::Str(crate::exporter::kind_label(r.record_type));
    let time = Json::Str(timestamp_text(r.ts_unix_ns));
    let payload = Json::Str(preview(utf8_lossy(r.payload), bytes));
    let p1 = crate::commands::export::when(r.record_type != RecordType::Logs, "record_type"@, label);
    let p2 = crate::commands::export::when(true, "timestamp"@, time);
    let p3 = crate::commands::export::when(true, "payload"@, payload);
    let m = opaque_members(r, bytes);
    assert(m == p1 + p2 + p3);
    lemma_opaque_field(p1, p2, p3, r, label, time, payload, "record_type"@);
    lemma_opaque_field(p1, p2, p3, r, label, time, payload, "timestamp"@);
    lemma_opaque_field(p1, p2, p3, r, label, time, payload, "payload"@);
    let rows = record_rows(r, Seq::empty(), bytes);
    assert(rows == seq![selected_json(m, Seq::empty())]);
    assert(rows[0] == Json::Object(m));
    assert("record_type"@.len() == 11 && "timestamp"@.len() == 9 && "payload"@.len() == 7);
}

proof fn lemma_opaque_field(
    p1: Seq<(Seq<char>, Json)>,
    p2: Seq<(Seq<char>, Json)>,
    p3: Seq<(Seq<char>, Json)>,
    r: RecordModel,
    label: Json,
    time: Json,
    payload: Json,
    key: Seq<char>,
)
    requires
        p1 == crate::commands::export::when(r.record_type != RecordType::Logs, "record_type"@, label),
        p2 == crate::commands::export::when(true, "timestamp"@, time),
        p3 == crate::commands::export::when(true, "payload"@, payload),
    ensures
        member(p1 + p2 + p3, key) == if r.record_type != RecordType::Logs && key
            == "record_type"@ {
            Some(label)
        } else if key == "timestamp"@ {
            Some(time)
        } else if key == "payload"@ {
            Some(payload)
        } else {
            None
        },
{
    lemma_member_when(r.record_type != RecordType::Logs, "record_type"@, label, key);
    lemma_member_when(true, "timestamp"@, time, key);
    lemma_member_when(true, "payload"@, payload, key);
    lemma_member_concat(p1, p2, key);
    lemma_member_concat(p1 + p2, p3, key);
}

} // verus!
