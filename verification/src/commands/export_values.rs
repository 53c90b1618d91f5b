//! How values are written out, and how the text is cut into lines.
use vstd::prelude::*;
use vstd::utf8::{encode_scalar, encode_utf8};

use crate::bridge::protobuf::logs_of;
use crate::bridge::timestamps::utc_text;
use crate::commands::discover_counts::log_records_of;
use crate::commands::export::{
    batch_rows, fitting, flat_key, json_items, json_members, json_of_value, lines_of, log_members,
    preview, record_rows, resource_rows, scope_rows, stream_lines, timestamp_text, utf8_width,
    value_text, width_of, with_entry, member_keys,
};
use crate::commands::export_rows::member;
use crate::commands::view::flatten::{all_log_items, all_log_scopes};
use crate::dedup::unpack::resource_attrs_of;
use crate::dedup::lemma_first_index_hit;
use crate::json::{json_escaped, json_quoted, json_text, Json};
use crate::otlp::{
    AnyModel, KvModel, LogRecordModel, ResourceLogsModel, ScopeLogsModel, ScopeModel,
};
use crate::record::{RecordModel, RecordType};
use crate::text::numbers::hex_byte;
use crate::text::readback::{
    hex_value, law_decimal_reads_back, law_signed_decimal_reads_back, number_read,
};
use crate::text::seqs::first_index;

verus! {

/// Texts, truth values and integers keep their values in JSON; bytes are told
/// by their number; an empty value has no JSON form.
pub proof fn law_values_keep_their_kind(s: Seq<char>, b: bool, n: i64, x: Seq<u8>)
    ensures
        json_of_value(AnyModel::Str(s), None) == Some(Json::Str(s)),
        json_of_value(AnyModel::Bool(b), None) == Some(Json::Bool(b)),
        n >= 0 ==> json_of_value(AnyModel::Int(n), None) == Some(Json::Unsigned(n as u64)),
        n < 0 ==> json_of_value(AnyModel::Int(n), None) == Some(Json::Negative(n)),
        exists|t: Seq<char>| #[trigger]
            json_of_value(AnyModel::Bytes(x), None) == Some(Json::Str("<"@ + t + " bytes>"@))
                && number_read(t) == x.len(),
        json_of_value(AnyModel::Empty, None) is None,
{
    law_decimal_reads_back(x.len());
    let t = crate::text::numbers::decimal(x.len());
    assert(json_of_value(AnyModel::Bytes(x), None) == Some(Json::Str("<"@ + t + " bytes>"@)));
}

/// An array keeps its elements, each in its place, where each has a JSON form.
pub proof fn law_arrays_keep_their_elements(a: Seq<AnyModel>, bytes: Option<usize>)
    requires
        forall|i: int| 0 <= i < a.len() ==> json_of_value(#[trigger] a[i], bytes) is Some,
    ensures
        json_of_value(AnyModel::Array(a), bytes) is Some,
        ({
            let items = json_of_value(AnyModel::Array(a), bytes)->0;
            &&& items is Array
            &&& items->Array_0.len() == a.len()
            &&& forall|i: int|
                0 <= i < a.len() ==> Some(#[trigger] items->Array_0[i]) == json_of_value(
                    a[i],
                    bytes,
                )
        }),
    decreases a.len(),
{
    if a.len() > 0 {
        let init = a.drop_last();
        assert forall|i: int| 0 <= i < init.len() implies json_of_value(
            #[trigger] init[i],
            bytes,
        ) is Some by {
            assert(json_of_value(a[i], bytes) is Some);
        }
        law_arrays_keep_their_elements(init, bytes);
        assert(json_of_value(a[a.len() - 1], bytes) is Some);
        let items = json_items(a, bytes);
        let before = json_items(init, bytes);
        assert(json_of_value(AnyModel::Array(init), bytes)->0->Array_0 == before);
        assert forall|i: int| 0 <= i < a.len() implies Some(#[trigger] items[i]) == json_of_value(
            a[i],
            bytes,
        ) by {
            if i < init.len() {
                assert(items[i] == before[i]);
                assert(init[i] == a[i]);
            }
        }
    }
}

proof fn lemma_entry(m: Seq<(Seq<char>, Json)>, key: Seq<char>, value: Json, asked: Seq<char>)
    ensures
        member(with_entry(m, key, value), asked) == if asked == key {
            Some(value)
        } else {
            member(m, asked)
        },
    decreases m.len(),
{
    let at = first_index(member_keys(m), key);
    lemma_first_index_hit(member_keys(m), key);
    let after = with_entry(m, key, value);
    if m.len() == 0 {
        assert(after.drop_first() =~= Seq::empty());
        assert(member(after.drop_first(), asked) is None);
        assert(after[0] == (key, value));
    } else {
        let rest = m.drop_first();
        assert(member_keys(m).drop_first() =~= member_keys(rest));
        assert(member_keys(m)[0] == m[0].0);
        if m[0].0 == key {
            assert(at == 0);
            assert(after.drop_first() =~= rest);
            assert(after[0] == (key, value));
        } else {
            lemma_entry(rest, key, value, asked);
            assert(at == 1 + first_index(member_keys(rest), key));
            assert(after.drop_first() =~= with_entry(rest, key, value));
            assert(after[0] == m[0]);
        }
    }
}

/// In a map, the last value with a JSON form under a key stands under that key,
/// with dots as underscores.
pub proof fn law_maps_keep_their_values(m: Seq<KvModel>, bytes: Option<usize>, i: int)
    requires
        0 <= i < m.len(),
        m[i].value is Some,
        json_of_value(m[i].value->0, bytes) is Some,
        forall|j: int|
            i < j < m.len() ==> flat_key((#[trigger] m[j]).key) != flat_key(m[i].key),
    ensures
        json_of_value(AnyModel::Kvlist(m), bytes) is Some,
        json_of_value(AnyModel::Kvlist(m), bytes)->0 is Object,
        member(
            json_of_value(AnyModel::Kvlist(m), bytes)->0->Object_0,
            flat_key(m[i].key),
        ) == json_of_value(m[i].value->0, bytes),
    decreases m.len(),
{
    let init = m.drop_last();
    let before = json_members(init, bytes);
    let key = flat_key(m[i].key);
    if i < init.len() {
        assert(init[i] == m[i]);
        assert forall|j: int| i < j < init.len() implies flat_key((#[trigger] init[j]).key)
            != flat_key(init[i].key) by {
            assert(flat_key(m[j].key) != key);
        }
        law_maps_keep_their_values(init, bytes, i);
        assert(json_of_value(AnyModel::Kvlist(init), bytes)->0->Object_0 == before);
        assert(flat_key(m[m.len() - 1].key) != key);
    }
    if m.last().value is Some && json_of_value(m.last().value->0, bytes) is Some {
        lemma_entry(
            before,
            flat_key(m.last().key),
            json_of_value(m.last().value->0, bytes)->0,
            key,
        );
    }
}

/// A text is shown as it is, an integer by its decimal digits, a truth value as
/// `true` or `false`; what is missing or empty is `null`; bytes, arrays and maps
/// are told by their sizes.
pub proof fn law_values_are_shown(s: Seq<char>, n: i64, x: Seq<u8>, a: Seq<AnyModel>, m: Seq<KvModel>)
    ensures
        value_text(Some(AnyModel::Str(s))) == s,
        value_text(Some(AnyModel::Bool(true))) == "true"@,
        value_text(Some(AnyModel::Bool(false))) == "false"@,
        n >= 0 ==> number_read(value_text(Some(AnyModel::Int(n)))) == n,
        n < 0 ==> value_text(Some(AnyModel::Int(n)))[0] == '-' && number_read(
            value_text(Some(AnyModel::Int(n))).skip(1),
        ) == -n,
        value_text(None) == "null"@,
        value_text(Some(AnyModel::Empty)) == "null"@,
        exists|t: Seq<char>| #[trigger]
            value_text(Some(AnyModel::Bytes(x))) == "<"@ + t + " bytes>"@ && number_read(t)
                == x.len(),
        exists|t: Seq<char>| #[trigger]
            value_text(Some(AnyModel::Array(a))) == "<array:"@ + t + ">"@ && number_read(t)
                == a.len(),
        exists|t: Seq<char>| #[trigger]
            value_text(Some(AnyModel::Kvlist(m))) == "<map:"@ + t + ">"@ && number_read(t)
                == m.len(),
{
    law_signed_decimal_reads_back(n as int);
    law_decimal_reads_back(x.len());
    law_decimal_reads_back(a.len());
    law_decimal_reads_back(m.len());
    let t = crate::text::numbers::decimal(x.len());
    assert(value_text(Some(AnyModel::Bytes(x))) == "<"@ + t + " bytes>"@);
    let u = crate::text::numbers::decimal(a.len());
    assert(value_text(Some(AnyModel::Array(a))) == "<array:"@ + u + ">"@);
    let v = crate::text::numbers::decimal(m.len());
    assert(value_text(Some(AnyModel::Kvlist(m))) == "<map:"@ + v + ">"@);
}

/// A timestamp is shown by its whole seconds and the nanoseconds left over, or
/// by its digits where the calendar does not reach that far.
pub proof fn law_timestamps_are_split(ts: u64, secs: i64, nanos: u32)
    requires
        ts == secs * 1_000_000_000 + nanos,
        nanos < 1_000_000_000,
        secs >= 0,
    ensures
        match utc_text(secs, nanos, "%Y-%m-%d %H:%M:%S.%f UTC"@) {
            Some(t) => timestamp_text(ts) == t,
            None => number_read(timestamp_text(ts)) == ts,
        },
{
    law_decimal_reads_back(ts as nat);
    assert(ts / 1_000_000_000 == secs);
    assert(ts % 1_000_000_000 == nanos);
}

proof fn lemma_width(c: char)
    ensures
        utf8_width(c) == encode_scalar(c as u32).len(),
{
}

proof fn lemma_width_of(s: Seq<char>)
    ensures
        width_of(s) == encode_utf8(s).len(),
    decreases s.len(),
{
    if s.len() > 0 {
        lemma_width_of(s.drop_first());
        lemma_width(s.first());
    }
}

proof fn lemma_fitting(s: Seq<char>, bytes: nat)
    ensures
        fitting(s, bytes) <= s.len(),
        width_of(s.take(fitting(s, bytes) as int)) <= bytes,
        fitting(s, bytes) < s.len() ==> width_of(s.take(fitting(s, bytes) + 1int)) > bytes,
    decreases s.len(),
{
    if s.len() > 0 {
        let rest = s.drop_first();
        if utf8_width(s.first()) <= bytes {
            let left = (bytes - utf8_width(s.first())) as nat;
            lemma_fitting(rest, left);
            let n = fitting(rest, left) as int;
            assert(s.take(n + 1).drop_first() =~= rest.take(n));
            if n < rest.len() {
                assert(s.take(n + 2).drop_first() =~= rest.take(n + 1));
            }
        } else {
            assert(s.take(1).drop_first() =~= Seq::empty());
            assert(width_of(s.take(1).drop_first()) == 0);
        }
    }
}

/// A preview of some bytes is the text itself where its UTF-8 form fits, and
/// otherwise its longest beginning that fits, followed by three dots. A preview
/// of no bytes is empty, and without a limit the text is shown whole.
pub proof fn law_previews_are_as_long_as_they_may(s: Seq<char>, limit: usize)
    ensures
        preview(s, None) == s,
        preview(s, Some(0)).len() == 0,
        limit > 0 && encode_utf8(s).len() <= limit ==> preview(s, Some(limit)) == s,
        limit > 0 && encode_utf8(s).len() > limit ==> exists|n: int|
            {
                &&& 0 <= n < s.len()
                &&& preview(s, Some(limit)) == #[trigger] s.take(n) + "..."@
                &&& encode_utf8(s.take(n)).len() <= limit < encode_utf8(s.take(n + 1)).len()
            },
{
    let n = fitting(s, limit as nat) as int;
    lemma_fitting(s, limit as nat);
    lemma_width_of(s);
    lemma_width_of(s.take(n));
    assert(s.take(s.len() as int) =~= s);
    if n < s.len() {
        lemma_width_of(s.take(n + 1));
        lemma_width_grows(s, n + 1);
        assert(preview(s, Some(limit)) == s.take(n) + "..."@ || limit == 0);
    }
}

proof fn lemma_width_grows(s: Seq<char>, n: int)
    requires
        0 <= n <= s.len(),
    ensures
        width_of(s.take(n)) <= width_of(s),
    decreases s.len(),
{
    if s.len() > 0 && n > 0 {
        lemma_width_grows(s.drop_first(), n - 1);
        assert(s.take(n).drop_first() =~= s.drop_first().take(n - 1));
    } else {
        assert(s.take(n) =~= Seq::empty());
    }
}

/// A row is that of a log record: it has the members of the record with some
/// resource and scope.
pub open spec fn is_row_of(row: Json, l: LogRecordModel, ts: u64, bytes: Option<usize>) -> bool {
    exists|resource: Seq<KvModel>, scope: Option<ScopeModel>|
        row == Json::Object(#[trigger] log_members(resource, scope, l, ts, bytes))
}

/// The rows are those of the log records, one each, in order.
pub open spec fn row_of_each(
    rows: Seq<Json>,
    l: Seq<LogRecordModel>,
    ts: u64,
    bytes: Option<usize>,
) -> bool {
    &&& rows.len() == l.len()
    &&& forall|i: int| 0 <= i < l.len() ==> is_row_of(#[trigger] rows[i], l[i], ts, bytes)
}

proof fn lemma_rows_concat(
    a: Seq<Json>,
    l: Seq<LogRecordModel>,
    b: Seq<Json>,
    m: Seq<LogRecordModel>,
    ts: u64,
    bytes: Option<usize>,
)
    requires
        row_of_each(a, l, ts, bytes),
        row_of_each(b, m, ts, bytes),
    ensures
        row_of_each(a + b, l + m, ts, bytes),
{
    assert forall|i: int| 0 <= i < (l + m).len() implies is_row_of(
        #[trigger] (a + b)[i],
        (l + m)[i],
        ts,
        bytes,
    ) by {
        if i < l.len() {
            assert(is_row_of(a[i], l[i], ts, bytes));
        } else {
            assert(is_row_of(b[i - l.len()], m[i - l.len()], ts, bytes));
        }
    }
}

proof fn lemma_resource_rows(
    resource: Seq<KvModel>,
    s: Seq<ScopeLogsModel>,
    ts: u64,
    bytes: Option<usize>,
)
    ensures
        row_of_each(resource_rows(resource, s, ts, Seq::empty(), bytes), all_log_items(s), ts, bytes),
    decreases s.len(),
{
    if s.len() > 0 {
        lemma_resource_rows(resource, s.drop_last(), ts, bytes);
        let own = scope_rows(resource, s.last(), ts, Seq::empty(), bytes);
        let items = s.last().log_records;
        assert forall|i: int| 0 <= i < items.len() implies is_row_of(
            #[trigger] own[i],
            items[i],
            ts,
            bytes,
        ) by {
            assert(own[i] == Json::Object(
                log_members(resource, s.last().scope, items[i], ts, bytes),
            ));
        }
        lemma_rows_concat(
            resource_rows(resource, s.drop_last(), ts, Seq::empty(), bytes),
            all_log_items(s.drop_last()),
            own,
            items,
            ts,
            bytes,
        );
    }
}

proof fn lemma_log_items_concat(a: Seq<ScopeLogsModel>, b: Seq<ScopeLogsModel>)
    ensures
        all_log_items(a + b) == all_log_items(a) + all_log_items(b),
    decreases b.len(),
{
    if b.len() > 0 {
        assert((a + b).drop_last() =~= a + b.drop_last());
        lemma_log_items_concat(a, b.drop_last());
        assert(all_log_items(a + b) =~= all_log_items(a) + all_log_items(b));
    } else {
        assert(a + b =~= a);
        assert(all_log_items(a + b) =~= all_log_items(a) + all_log_items(b));
    }
}

proof fn lemma_batch_rows(r: Seq<ResourceLogsModel>, ts: u64, bytes: Option<usize>)
    ensures
        row_of_each(
            batch_rows(r, ts, Seq::empty(), bytes),
            all_log_items(all_log_scopes(r)),
            ts,
            bytes,
        ),
    decreases r.len(),
{
    if r.len() > 0 {
        lemma_batch_rows(r.drop_last(), ts, bytes);
        let resource = resource_attrs_of(r.last().resource);
        lemma_resource_rows(resource, r.last().scope_logs, ts, bytes);
        lemma_log_items_concat(all_log_scopes(r.drop_last()), r.last().scope_logs);
        lemma_rows_concat(
            batch_rows(r.drop_last(), ts, Seq::empty(), bytes),
            all_log_items(all_log_scopes(r.drop_last())),
            resource_rows(resource, r.last().scope_logs, ts, Seq::empty(), bytes),
            all_log_items(r.last().scope_logs),
            ts,
            bytes,
        );
    }
}

/// A log batch is exported as one row for each of its log records, in order.
pub proof fn law_every_log_record_is_a_row(r: RecordModel, bytes: Option<usize>)
    requires
        r.record_type == RecordType::Logs,
        logs_of(r.payload) is Some,
    ensures
        record_rows(r, Seq::empty(), bytes).len() == log_records_of(r).len(),
        row_of_each(record_rows(r, Seq::empty(), bytes), log_records_of(r), r.ts_unix_ns, bytes),
{
    lemma_batch_rows(logs_of(r.payload)->0.resource_logs, r.ts_unix_ns, bytes);
}

/// What the inside of a JSON string literal denotes.
pub open spec fn json_read(t: Seq<char>) -> Seq<char>
    decreases t.len(),
{
    if t.len() == 0 {
        Seq::empty()
    } else if t[0] != '\\' {
        seq![t[0]] + json_read(t.skip(1))
    } else if t.len() >= 6 && t[1] == 'u' {
        seq![
            (((hex_value(t[2]) * 16 + hex_value(t[3])) * 16 + hex_value(t[4])) * 16 + hex_value(
                t[5],
            )) as char,
        ] + json_read(t.skip(6))
    } else if t.len() >= 2 {
        seq![
            if t[1] == 'b' {
                '\u{8}'
            } else if t[1] == 't' {
                '\u{9}'
            } else if t[1] == 'n' {
                '\u{a}'
            } else if t[1] == 'f' {
                '\u{c}'
            } else if t[1] == 'r' {
                '\u{d}'
            } else {
                t[1]
            },
        ] + json_read(t.skip(2))
    } else {
        Seq::empty()
    }
}

proof fn lemma_read_one(c: char, rest: Seq<char>)
    ensures
        json_read(json_escaped(c) + rest) == seq![c] + json_read(rest),
{
    let e = json_escaped(c);
    let t = e + rest;
    assert(t.skip(e.len() as int) =~= rest);
    assert(t[0] == e[0]);
    if e.len() >= 2 {
        assert(t[1] == e[1]);
    }
    if e.len() == 6 {
        let b = c as u8;
        assert(e =~= seq!['\\', 'u', '0', '0', hex_byte(b)[0], hex_byte(b)[1]]);
        assert(t[2] == '0' && t[3] == '0' && t[4] == hex_byte(b)[0] && t[5] == hex_byte(b)[1]);
        lemma_byte_digits(b);
    }
    assert(json_read(t) =~= seq![c] + json_read(rest));
}

proof fn lemma_byte_digits(b: u8)
    ensures
        hex_value(hex_byte(b)[0]) * 16 + hex_value(hex_byte(b)[1]) == b,
{
}

proof fn lemma_read_all(s: Seq<char>)
    ensures
        json_read(s.map_values(|c: char| json_escaped(c)).flatten()) == s,
    decreases s.len(),
{
    let parts = s.map_values(|c: char| json_escaped(c));
    if s.len() > 0 {
        assert(parts.drop_first() =~= s.drop_first().map_values(|c: char| json_escaped(c)));
        lemma_read_all(s.drop_first());
        lemma_read_one(s[0], parts.drop_first().flatten());
        assert(parts.flatten() == parts.first() + parts.drop_first().flatten());
        assert(seq![s[0]] + s.drop_first() =~= s);
    } else {
        assert(s =~= Seq::empty());
    }
}

proof fn lemma_no_controls(s: Seq<char>, i: int)
    requires
        0 <= i < s.map_values(|c: char| json_escaped(c)).flatten().len(),
    ensures
        s.map_values(|c: char| json_escaped(c)).flatten()[i] >= ' ',
    decreases s.len(),
{
    let parts = s.map_values(|c: char| json_escaped(c));
    if s.len() > 0 {
        assert(parts.drop_first() =~= s.drop_first().map_values(|c: char| json_escaped(c)));
        let e = json_escaped(s[0]);
        assert(parts.flatten() == e + parts.drop_first().flatten());
        if i >= e.len() {
            lemma_no_controls(s.drop_first(), i - e.len());
        } else {
            assert(parts.flatten()[i] == e[i]);
            let b = s[0] as u8;
            if e.len() == 6 {
                assert(hex_byte(b)[0] >= ' ' && hex_byte(b)[1] >= ' ');
                assert(e =~= seq!['\\', 'u', '0', '0', hex_byte(b)[0], hex_byte(b)[1]]);
            }
        }
    }
}

/// A text can be read back from its JSON literal, which stands on one line.
pub proof fn law_quoted_texts_read_back(s: Seq<char>)
    ensures
        json_quoted(s).len() >= 2,
        json_quoted(s).first() == '"',
        json_quoted(s).last() == '"',
        json_read(json_quoted(s).subrange(1, json_quoted(s).len() - 1)) == s,
        forall|i: int| 0 <= i < json_quoted(s).len() ==> #[trigger] json_quoted(s)[i] >= ' ',
{
    let inside = s.map_values(|c: char| json_escaped(c)).flatten();
    lemma_read_all(s);
    assert(json_quoted(s).subrange(1, json_quoted(s).len() - 1) =~= inside);
    assert forall|i: int| 0 <= i < json_quoted(s).len() implies #[trigger] json_quoted(s)[i]
        >= ' ' by {
        if 0 < i < json_quoted(s).len() - 1 {
            assert(json_quoted(s)[i] == inside[i - 1]);
            lemma_no_controls(s, i - 1);
        }
    }
}

/// Plain JSON values are written by their names and digits.
pub proof fn law_plain_json_is_written(n: u64, m: i64, s: Seq<char>)
    ensures
        json_text(Json::Null) == "null"@,
        json_text(Json::Bool(true)) == "true"@,
        json_text(Json::Bool(false)) == "false"@,
        number_read(json_text(Json::Unsigned(n))) == n,
        m < 0 ==> json_text(Json::Negative(m))[0] == '-' && number_read(
            json_text(Json::Negative(m)).skip(1),
        ) == -m,
        json_text(Json::Str(s)) == json_quoted(s),
        json_text(Json::Array(Seq::empty())) == "["@ + "]"@,
        json_text(Json::Array(seq![Json::Str(s)])) == "["@ + json_quoted(s) + "]"@,
{
    law_decimal_reads_back(n as nat);
    law_signed_decimal_reads_back(m as int);
    let none = crate::json::json_texts(Seq::empty());
    assert(crate::text::seqs::joined(none, ","@) =~= Seq::empty());
    assert("["@ + Seq::<char>::empty() + "]"@ =~= "["@ + "]"@);
    let one = crate::json::json_texts(seq![Json::Str(s)]);
    assert(one =~= seq![json_quoted(s)]);
    assert(crate::text::seqs::joined(one, ","@) == json_quoted(s));
}

/// Every row is written on a line of its own: the lines of rows are their texts,
/// each followed by a line break.
pub proof fn law_rows_are_lines(rows: Seq<Json>, row: Json)
    ensures
        lines_of(Seq::empty()).len() == 0,
        lines_of(rows.push(row)) == lines_of(rows) + json_text(row) + seq!['\n'],
{
    reveal_strlit("\n");
    assert("\n"@ =~= seq!['\n']);
    assert(rows.push(row).drop_last() =~= rows);
}

/// The lines of a record are those of its rows.
pub proof fn law_records_are_written_row_by_row(
    r: RecordModel,
    fields: Seq<Seq<char>>,
    bytes: Option<usize>,
)
    ensures
        stream_lines(seq![r], fields, bytes) == lines_of(record_rows(r, fields, bytes)),
{
    let one = seq![r];
    assert(one.drop_last() =~= Seq::empty());
    assert(stream_lines(one.drop_last(), fields, bytes) =~= Seq::empty());
    assert(stream_lines(one, fields, bytes) =~= lines_of(record_rows(r, fields, bytes)));
}

} // verus!
