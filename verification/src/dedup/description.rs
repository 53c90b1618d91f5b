//! What the output says of a group, and how bodies are told apart by shape.
use vstd::prelude::*;

use crate::bridge::json_text::json_of;
use crate::bridge::patterns::regex_matches;
use crate::dedup::canon::canon_body;
use crate::dedup::canon_freetext::freetext_canon;
use crate::dedup::canon_json::canon_json;
use crate::dedup::canon_kv::kv_canon;
use crate::dedup::detect::{detected, json_suffix_from, BodyShape, PAIR};
use crate::dedup::emit::{
    dedup_attrs, emitted_batch, emitted_record, group_mode, group_record, opt_attr, time_span_ms,
};
use crate::dedup::GroupModel;
use crate::json::json_text;
use crate::otlp::{AnyModel, KvModel};
use crate::record::RecordType;
use crate::text::numbers::hex_padded;
use crate::text::readback::{hex_number_read, law_padded_hex_reads_back};
use crate::text::seqs::{joined, trim_start};

verus! {

/// Attributes say `v` under a key: it occurs, and never with another value.
pub open spec fn says(a: Seq<KvModel>, key: Seq<char>, v: AnyModel) -> bool {
    &&& exists|i: int| 0 <= i < a.len() && (#[trigger] a[i]).key == key
    &&& forall|i: int|
        0 <= i < a.len() && (#[trigger] a[i]).key == key ==> a[i].value == Some(v)
}

/// Attributes say nothing under a key.
pub open spec fn is_silent(a: Seq<KvModel>, key: Seq<char>) -> bool {
    forall|i: int| 0 <= i < a.len() ==> (#[trigger] a[i]).key != key
}

/// The names of the dedup attributes, in order.
spec fn attr_names() -> Seq<Seq<char>> {
    seq![
        "dedup.count"@,
        "dedup.mode"@,
        "dedup.signature"@,
        "dedup.first_seen_ns"@,
        "dedup.last_seen_ns"@,
        "dedup.time_span_ms"@,
        "dedup.exemplar_trace_ids"@,
        "dedup.exemplar_span_ids"@,
        "dedup.canonical_body"@,
        "dedup.body_shape"@,
        "dedup.drain3_template"@,
        "dedup.drain3_cluster_id"@,
    ]
}

proof fn lemma_names_differ()
    ensures
        attr_names().no_duplicates(),
{
    reveal_strlit("dedup.count");
    reveal_strlit("dedup.mode");
    reveal_strlit("dedup.signature");
    reveal_strlit("dedup.first_seen_ns");
    reveal_strlit("dedup.last_seen_ns");
    reveal_strlit("dedup.time_span_ms");
    reveal_strlit("dedup.exemplar_trace_ids");
    reveal_strlit("dedup.exemplar_span_ids");
    reveal_strlit("dedup.canonical_body");
    reveal_strlit("dedup.body_shape");
    reveal_strlit("dedup.drain3_template");
    reveal_strlit("dedup.drain3_cluster_id");
    assert("dedup.last_seen_ns"@[6] == 'l');
    assert("dedup.time_span_ms"@[6] == 't');
    assert("dedup.exemplar_span_ids"@[6] == 'e');
    assert("dedup.drain3_cluster_id"@[6] == 'd');
    let n = attr_names();
    assert(n[0].len() == 11 && n[1].len() == 10 && n[2].len() == 15 && n[3].len() == 19
        && n[4].len() == 18 && n[5].len() == 18 && n[6].len() == 24 && n[7].len() == 23
        && n[8].len() == 20 && n[9].len() == 16 && n[10].len() == 21 && n[11].len() == 23);
}

/// Where a key stands among the names.
spec fn place(key: Seq<char>, k: int) -> bool {
    0 <= k < 12 && attr_names()[k] == key
}

/// Which attributes there are, with their places among the names.
proof fn lemma_attrs(g: GroupModel, label: Seq<char>, i: int)
    requires
        0 <= i < dedup_attrs(g, label).len(),
    ensures
        exists|k: int| #[trigger] place(dedup_attrs(g, label)[i].key, k),
        ({
            let x = dedup_attrs(g, label)[i];
            forall|k: int| #[trigger]
                place(x.key, k) ==> x.value == Some(
                    if k == 0 {
                        AnyModel::Int(g.count as i64)
                    } else if k == 1 {
                        AnyModel::Str(group_mode(g, label))
                    } else if k == 2 {
                        AnyModel::Str(hex_padded(g.signature as nat, 16))
                    } else if k == 3 {
                        AnyModel::Int(g.first_seen_ns as i64)
                    } else if k == 4 {
                        AnyModel::Int(g.last_seen_ns as i64)
                    } else if k == 5 {
                        AnyModel::Int(time_span_ms(g) as i64)
                    } else if k == 6 {
                        AnyModel::Str(joined(g.exemplar_trace_ids, ","@))
                    } else if k == 7 {
                        AnyModel::Str(joined(g.exemplar_span_ids, ","@))
                    } else if k == 8 {
                        AnyModel::Str(g.canonical_body->0)
                    } else if k == 9 {
                        AnyModel::Str(g.body_shape->0)
                    } else if k == 10 {
                        AnyModel::Str(g.drain3_template->0)
                    } else {
                        AnyModel::Int(g.drain3_cluster_id->0)
                    },
                ) && (k == 8 ==> g.canonical_body is Some) && (k == 9 ==> g.body_shape is Some)
                    && (k == 10 ==> g.drain3_template is Some) && (k == 11
                    ==> g.drain3_cluster_id is Some)
        }),
{
    lemma_names_differ();
    let a = dedup_attrs(g, label);
    let n1 = 8int + opt_attr("dedup.canonical_body"@, g.canonical_body).len();
    let n2 = n1 + opt_attr("dedup.body_shape"@, g.body_shape).len();
    let n3 = n2 + opt_attr("dedup.drain3_template"@, g.drain3_template).len();
    let k0: int = if i < 8 {
        i
    } else if i < n1 {
        8
    } else if i < n2 {
        9
    } else if i < n3 {
        10
    } else {
        11
    };
    assert(place(a[i].key, k0));
    assert forall|k: int| #[trigger] place(a[i].key, k) implies k == k0 by {
        if k < k0 {
            assert(attr_names()[k] != attr_names()[k0]);
        } else if k > k0 {
            assert(attr_names()[k0] != attr_names()[k]);
        }
    }
}

/// The record of a group carries the attributes of its representative, and
/// behind them what the group is: how many records it stands for, under which
/// label, the signature, when the first and the last of them came and how long
/// that is in whole milliseconds, and which traces and spans are examples.
pub proof fn law_group_is_described(g: GroupModel, label: Seq<char>)
    requires
        g.first_seen_ns <= g.last_seen_ns <= i64::MAX,
        g.count <= i64::MAX,
    ensures
        ({
            let n = g.representative.record_attrs.len() as int;
            let all = emitted_record(g, label).attributes;
            let a = all.skip(n);
            &&& all.take(n) == g.representative.record_attrs
            &&& says(a, "dedup.count"@, AnyModel::Int(g.count as i64))
            &&& says(a, "dedup.mode"@, AnyModel::Str(group_mode(g, label)))
            &&& exists|t: Seq<char>| #[trigger]
                says(a, "dedup.signature"@, AnyModel::Str(t)) && t.len() >= 16
                    && hex_number_read(t) == g.signature
            &&& says(a, "dedup.first_seen_ns"@, AnyModel::Int(g.first_seen_ns as i64))
            &&& says(a, "dedup.last_seen_ns"@, AnyModel::Int(g.last_seen_ns as i64))
            &&& exists|ms: i64| #[trigger]
                says(a, "dedup.time_span_ms"@, AnyModel::Int(ms)) && ms * 1_000_000
                    <= g.last_seen_ns - g.first_seen_ns < (ms + 1) * 1_000_000
            &&& says(
                a,
                "dedup.exemplar_trace_ids"@,
                AnyModel::Str(joined(g.exemplar_trace_ids, ","@)),
            )
            &&& says(
                a,
                "dedup.exemplar_span_ids"@,
                AnyModel::Str(joined(g.exemplar_span_ids, ","@)),
            )
        }),
{
    let n = g.representative.record_attrs.len() as int;
    let all = emitted_record(g, label).attributes;
    let d = dedup_attrs(g, label);
    assert(all.skip(n) =~= d);
    assert(all.take(n) =~= g.representative.record_attrs);
    lemma_says(g, label);
    let t = hex_padded(g.signature as nat, 16);
    law_padded_hex_reads_back(g.signature as nat, 16);
    assert(says(d, "dedup.signature"@, AnyModel::Str(t)));
    let ms = time_span_ms(g) as i64;
    assert(says(d, "dedup.time_span_ms"@, AnyModel::Int(ms)));
}

proof fn lemma_says(g: GroupModel, label: Seq<char>)
    ensures
        ({
            let d = dedup_attrs(g, label);
            &&& says(d, "dedup.count"@, AnyModel::Int(g.count as i64))
            &&& says(d, "dedup.mode"@, AnyModel::Str(group_mode(g, label)))
            &&& says(d, "dedup.signature"@, AnyModel::Str(hex_padded(g.signature as nat, 16)))
            &&& says(d, "dedup.first_seen_ns"@, AnyModel::Int(g.first_seen_ns as i64))
            &&& says(d, "dedup.last_seen_ns"@, AnyModel::Int(g.last_seen_ns as i64))
            &&& says(d, "dedup.time_span_ms"@, AnyModel::Int(time_span_ms(g) as i64))
            &&& says(
                d,
                "dedup.exemplar_trace_ids"@,
                AnyModel::Str(joined(g.exemplar_trace_ids, ","@)),
            )
            &&& says(
                d,
                "dedup.exemplar_span_ids"@,
                AnyModel::Str(joined(g.exemplar_span_ids, ","@)),
            )
            &&& g.canonical_body is Some ==> says(
                d,
                "dedup.canonical_body"@,
                AnyModel::Str(g.canonical_body->0),
            )
            &&& g.canonical_body is None ==> is_silent(d, "dedup.canonical_body"@)
            &&& g.body_shape is Some ==> says(
                d,
                "dedup.body_shape"@,
                AnyModel::Str(g.body_shape->0),
            )
            &&& g.body_shape is None ==> is_silent(d, "dedup.body_shape"@)
            &&& g.drain3_template is Some ==> says(
                d,
                "dedup.drain3_template"@,
                AnyModel::Str(g.drain3_template->0),
            )
            &&& g.drain3_template is None ==> is_silent(d, "dedup.drain3_template"@)
            &&& g.drain3_cluster_id is Some ==> says(
                d,
                "dedup.drain3_cluster_id"@,
                AnyModel::Int(g.drain3_cluster_id->0),
            )
            &&& g.drain3_cluster_id is None ==> is_silent(d, "dedup.drain3_cluster_id"@)
        }),
{
    let d = dedup_attrs(g, label);
    let names = attr_names();
    assert forall|k: int, i: int|
        0 <= k < 12 && 0 <= i < d.len() && (#[trigger] d[i]).key == #[trigger] names[k] implies place(
        d[i].key,
        k,
    ) by {}
    assert forall|i: int| 0 <= i < d.len() implies exists|k: int| #[trigger]
        place((#[trigger] d[i]).key, k) by {
        lemma_attrs(g, label, i);
    }
    assert(names[0] == "dedup.count"@ && d[0].key == names[0]);
    assert(names[1] == "dedup.mode"@ && d[1].key == names[1]);
    assert(names[2] == "dedup.signature"@ && d[2].key == names[2]);
    assert(names[3] == "dedup.first_seen_ns"@ && d[3].key == names[3]);
    assert(names[4] == "dedup.last_seen_ns"@ && d[4].key == names[4]);
    assert(names[5] == "dedup.time_span_ms"@ && d[5].key == names[5]);
    assert(names[6] == "dedup.exemplar_trace_ids"@ && d[6].key == names[6]);
    assert(names[7] == "dedup.exemplar_span_ids"@ && d[7].key == names[7]);
    assert(names[8] == "dedup.canonical_body"@ && names[9] == "dedup.body_shape"@ && names[10]
        == "dedup.drain3_template"@ && names[11] == "dedup.drain3_cluster_id"@);
    let n1 = 8int + opt_attr("dedup.canonical_body"@, g.canonical_body).len();
    let n2 = n1 + opt_attr("dedup.body_shape"@, g.body_shape).len();
    let n3 = n2 + opt_attr("dedup.drain3_template"@, g.drain3_template).len();
    if g.canonical_body is Some {
        assert(d[8].key == names[8]);
    }
    if g.body_shape is Some {
        assert(d[n1].key == names[9]);
    }
    if g.drain3_template is Some {
        assert(d[n2].key == names[10]);
    }
    if g.drain3_cluster_id is Some {
        assert(d[n3].key == names[11]);
    }
    assert forall|i: int| 0 <= i < d.len() implies #[trigger] tells(g, label, d[i]) by {
        lemma_attrs(g, label, i);
        let x = d[i];
        assert forall|k: int| 0 <= k < 12 && x.key == #[trigger] names[k] implies place(x.key, k) by {}
    }
    assert forall|i: int| 0 <= i < d.len() implies tells(g, label, #[trigger] d[i]) by {}
}

/// What an attribute with a given name says.
spec fn tells(g: GroupModel, label: Seq<char>, x: KvModel) -> bool {
    &&& x.key == "dedup.count"@ ==> x.value == Some(AnyModel::Int(g.count as i64))
    &&& x.key == "dedup.mode"@ ==> x.value == Some(AnyModel::Str(group_mode(g, label)))
    &&& x.key == "dedup.signature"@ ==> x.value == Some(
        AnyModel::Str(hex_padded(g.signature as nat, 16)),
    )
    &&& x.key == "dedup.first_seen_ns"@ ==> x.value == Some(AnyModel::Int(g.first_seen_ns as i64))
    &&& x.key == "dedup.last_seen_ns"@ ==> x.value == Some(AnyModel::Int(g.last_seen_ns as i64))
    &&& x.key == "dedup.time_span_ms"@ ==> x.value == Some(
        AnyModel::Int(time_span_ms(g) as i64),
    )
    &&& x.key == "dedup.exemplar_trace_ids"@ ==> x.value == Some(
        AnyModel::Str(joined(g.exemplar_trace_ids, ","@)),
    )
    &&& x.key == "dedup.exemplar_span_ids"@ ==> x.value == Some(
        AnyModel::Str(joined(g.exemplar_span_ids, ","@)),
    )
    &&& x.key == "dedup.canonical_body"@ ==> g.canonical_body is Some && x.value == Some(
        AnyModel::Str(g.canonical_body->0),
    )
    &&& x.key == "dedup.body_shape"@ ==> g.body_shape is Some && x.value == Some(
        AnyModel::Str(g.body_shape->0),
    )
    &&& x.key == "dedup.drain3_template"@ ==> g.drain3_template is Some && x.value == Some(
        AnyModel::Str(g.drain3_template->0),
    )
    &&& x.key == "dedup.drain3_cluster_id"@ ==> g.drain3_cluster_id is Some && x.value == Some(
        AnyModel::Int(g.drain3_cluster_id->0),
    )
}

/// The canonical body, the shape, the template and the cluster are said where
/// a group has them, and only there.
pub proof fn law_only_what_is_known_is_said(g: GroupModel, label: Seq<char>)
    ensures
        ({
            let d = dedup_attrs(g, label);
            &&& match g.canonical_body {
                Some(c) => says(d, "dedup.canonical_body"@, AnyModel::Str(c)),
                None => is_silent(d, "dedup.canonical_body"@),
            }
            &&& match g.body_shape {
                Some(s) => says(d, "dedup.body_shape"@, AnyModel::Str(s)),
                None => is_silent(d, "dedup.body_shape"@),
            }
            &&& match g.drain3_template {
                Some(t) => says(d, "dedup.drain3_template"@, AnyModel::Str(t)),
                None => is_silent(d, "dedup.drain3_template"@),
            }
            &&& match g.drain3_cluster_id {
                Some(id) => says(d, "dedup.drain3_cluster_id"@, AnyModel::Int(id)),
                None => is_silent(d, "dedup.drain3_cluster_id"@),
            }
        }),
{
    lemma_says(g, label);
}

/// The record of a group is a log record at the time of the first of its
/// records. It is the representative, from the first time to the last.
pub proof fn law_group_becomes_its_representative(g: GroupModel, label: Seq<char>)
    ensures
        group_record(g, label).record_type == RecordType::Logs,
        group_record(g, label).ts_unix_ns == g.first_seen_ns,
        ({
            let l = emitted_record(g, label);
            let rep = g.representative;
            &&& l.time_unix_nano == g.first_seen_ns
            &&& l.observed_time_unix_nano == g.last_seen_ns
            &&& l.severity_number == rep.severity_number
            &&& l.severity_text == rep.severity_text
            &&& l.body == Some(AnyModel::Str(rep.body))
            &&& l.trace_id == rep.trace_id
            &&& l.span_id == rep.span_id
            &&& l.event_name == rep.event_name
        }),
        ({
            let r = emitted_batch(g, label).resource_logs;
            &&& r.len() == 1
            &&& r[0].resource is Some
            &&& r[0].resource->0.attributes == g.representative.resource_attrs
            &&& r[0].scope_logs.len() == 1
            &&& r[0].scope_logs[0].scope is Some
            &&& r[0].scope_logs[0].scope->0.name == g.representative.scope_name
            &&& r[0].scope_logs[0].scope->0.attributes == g.representative.scope_attrs
            &&& r[0].scope_logs[0].log_records.len() == 1
        }),
{
}

/// A body that is a JSON object or array, apart from white space before it, is
/// read as JSON, and nothing else is.
pub proof fn law_json_bodies_are_read_as_json(body: Seq<char>)
    ensures
        ({
            let s = trim_start(body);
            let opens = s.len() > 0 && (s[0] == '{' || s[0] == '[');
            &&& opens && json_of(s) is Some ==> canon_body(body) == (
                json_text(canon_json(Seq::empty(), json_of(s)->0)),
                "json"@,
            )
            &&& canon_body(body).1 == "json"@ ==> opens && json_of(s) is Some
        }),
    decreases body.len(),
{
    lemma_labels_differ();
}

proof fn lemma_labels_differ()
    ensures
        "kv"@ != "json"@,
        "freetext"@ != "json"@,
        "freetext"@ != "kv"@,
        forall|s: Seq<char>| #[trigger] ("prefixed/"@ + s) != "json"@,
        forall|s: Seq<char>| #[trigger] ("prefixed/"@ + s) != "kv"@,
        forall|s: Seq<char>| #[trigger] ("prefixed/"@ + s) != "freetext"@,
{
    reveal_strlit("kv");
    reveal_strlit("json");
    reveal_strlit("freetext");
    reveal_strlit("prefixed/");
    assert("kv"@.len() == 2 && "json"@.len() == 4 && "freetext"@.len() == 8 && "prefixed/"@.len()
        == 9);
    assert forall|s: Seq<char>| #[trigger] ("prefixed/"@ + s) != "json"@ by {
        assert(("prefixed/"@ + s).len() >= 9);
    }
    assert forall|s: Seq<char>| #[trigger] ("prefixed/"@ + s) != "kv"@ by {
        assert(("prefixed/"@ + s).len() >= 9);
    }
    assert forall|s: Seq<char>| #[trigger] ("prefixed/"@ + s) != "freetext"@ by {
        assert(("prefixed/"@ + s)[0] == 'p');
    }
}

/// A body without JSON in it and with at least two `key=value` pairs is read as
/// pairs. One with fewer pairs is not.
pub proof fn law_two_pairs_make_a_list(body: Seq<char>)
    requires
        json_of(trim_start(body)) is None,
        json_suffix_from(body, 0) is None,
    ensures
        ({
            let n = match regex_matches(PAIR@, body) {
                Some(n) => n as int,
                None => 0,
            };
            &&& n >= 2 ==> canon_body(body) == (kv_canon(body), "kv"@)
            &&& n < 2 ==> canon_body(body).1 != "kv"@
            &&& canon_body(body).1 == "freetext"@ ==> canon_body(body).0 == freetext_canon(body)
        }),
{
    lemma_labels_differ();
}

/// JSON behind a prefix is read as if it stood alone: the body has the
/// canonical form of the JSON, whatever the prefix is.
pub proof fn law_json_behind_a_prefix_is_read(body: Seq<char>, i: int)
    requires
        json_of(trim_start(body)) is None,
        0 <= i < body.len(),
        body[i] == '{' || body[i] == '[',
        json_of(body.skip(i)) is Some,
        forall|j: int|
            0 <= j < i && (body[j] == '{' || body[j] == '[') ==> json_of(
                #[trigger] body.skip(j),
            ) is None,
        i != body.len() - trim_start(body).len(),
    ensures
        canon_body(body) == (canon_body(body.skip(i)).0, "prefixed/"@ + canon_body(body.skip(i)).1),
{
    lemma_suffix_at(body, 0, i);
    assert(detected(body).suffix == Some(body.skip(i)));
    assert(detected(body).shape == BodyShape::SourcePrefixed);
}

proof fn lemma_suffix_at(body: Seq<char>, from: int, i: int)
    requires
        0 <= from <= i < body.len(),
        body[i] == '{' || body[i] == '[',
        json_of(body.skip(i)) is Some,
        forall|j: int|
            0 <= j < i && (body[j] == '{' || body[j] == '[') ==> json_of(
                #[trigger] body.skip(j),
            ) is None,
        i != body.len() - trim_start(body).len(),
    ensures
        json_suffix_from(body, from) == Some(body.skip(i)),
    decreases i - from,
{
    if from < i {
        assert(body[from] == '{' || body[from] == '[' ==> json_of(body.skip(from)) is None);
        lemma_suffix_at(body, from + 1, i);
    }
}

} // verus!
