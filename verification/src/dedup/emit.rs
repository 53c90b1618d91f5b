//! Turns dedup groups back into log batches. Each group becomes one log
//! record with dedup attributes; records that passed through are unchanged.
use vstd::prelude::*;

use crate::bridge::protobuf::{
    attrs_survive, batch_survives, encode_logs, logs_encoded, logs_of, opt_survives,
    ROOM_IN_RECORD, ROOM_IN_RESOURCE, ROOM_IN_SCOPE,
};
use crate::dedup::unpack::{flat_resources, flat_scope, flat_scopes, flat_stream};
use crate::dedup::{
    groups_view, mode_label_of, total_count, DedupGroup, DedupMatchMode, DedupMode, DedupStats,
    GroupModel,
};
use crate::otlp::{
    attrs_view, copy_attrs, copy_bytes, AnyModel, AttrValue, Attribute, KvModel, LogItem,
    LogRecordModel, LogsModel, LogsRequest, ResourceInfo, ResourceLogSet, ResourceLogsModel,
    ResourceModel, ScopeInfo, ScopeLogSet, ScopeLogsModel, ScopeModel,
};
use crate::record::{
    insert_by_time, law_sorting_by_time, sort_by_time, sorted_by_time, stream_view, times_ascend,
    RecordModel, RecordType, StreamRecord,
};
use crate::text::numbers::{hex_padded, push_hex};
use crate::text::seqs::{
    first_index, index_of_char, join_strings, joined, lemma_first_index,
};
use crate::text::strings::{chars_of, str_eq, string_between};

verus! {

/// A string attribute.
pub open spec fn str_attr(key: Seq<char>, value: Seq<char>) -> KvModel {
    KvModel { key, value: Some(AnyModel::Str(value)) }
}

/// An integer attribute.
pub open spec fn int_attr(key: Seq<char>, value: i64) -> KvModel {
    KvModel { key, value: Some(AnyModel::Int(value)) }
}

/// An optional string attribute.
pub open spec fn opt_attr(key: Seq<char>, value: Option<Seq<char>>) -> Seq<KvModel> {
    match value {
        Some(v) => seq![str_attr(key, v)],
        None => Seq::empty(),
    }
}

/// The part of a mode label that names the behaviour: what stands before the
/// first slash.
pub open spec fn behaviour_part(mode_label: Seq<char>) -> Seq<char> {
    mode_label.take(first_index(mode_label, '/'))
}

/// The behaviour and the matcher that a group is labelled with. Where a
/// template joined its records, the matcher is the template miner.
pub open spec fn group_mode(g: GroupModel, mode_label: Seq<char>) -> Seq<char> {
    if g.drain3_template is Some {
        behaviour_part(mode_label) + "/drain3"@
    } else if mode_label == "full"@ {
        "full/canon"@
    } else {
        mode_label
    }
}

/// Milliseconds between the first and the last record of a group.
pub open spec fn time_span_ms(g: GroupModel) -> u64 {
    if g.last_seen_ns >= g.first_seen_ns {
        ((g.last_seen_ns - g.first_seen_ns) / 1_000_000) as u64
    } else {
        0
    }
}

/// The attributes that describe a group.
pub open spec fn dedup_attrs(g: GroupModel, mode_label: Seq<char>) -> Seq<KvModel> {
    seq![
        int_attr("dedup.count"@, g.count as i64),
        str_attr("dedup.mode"@, group_mode(g, mode_label)),
        str_attr("dedup.signature"@, hex_padded(g.signature as nat, 16)),
        int_attr("dedup.first_seen_ns"@, g.first_seen_ns as i64),
        int_attr("dedup.last_seen_ns"@, g.last_seen_ns as i64),
        int_attr("dedup.time_span_ms"@, time_span_ms(g) as i64),
        str_attr("dedup.exemplar_trace_ids"@, joined(g.exemplar_trace_ids, ","@)),
        str_attr("dedup.exemplar_span_ids"@, joined(g.exemplar_span_ids, ","@)),
    ] + opt_attr("dedup.canonical_body"@, g.canonical_body) + opt_attr(
        "dedup.body_shape"@,
        g.body_shape,
    ) + opt_attr("dedup.drain3_template"@, g.drain3_template) + match g.drain3_cluster_id {
        Some(id) => seq![int_attr("dedup.drain3_cluster_id"@, id)],
        None => Seq::empty(),
    }
}

/// The log record that a group becomes.
pub open spec fn emitted_record(g: GroupModel, mode_label: Seq<char>) -> LogRecordModel {
    let rep = g.representative;
    LogRecordModel {
        time_unix_nano: g.first_seen_ns,
        observed_time_unix_nano: g.last_seen_ns,
        severity_number: rep.severity_number,
        severity_text: rep.severity_text,
        body: Some(AnyModel::Str(rep.body)),
        attributes: rep.record_attrs + dedup_attrs(g, mode_label),
        flags: 0,
        trace_id: rep.trace_id,
        span_id: rep.span_id,
        event_name: rep.event_name,
    }
}

/// The batch that a group becomes.
pub open spec fn emitted_batch(g: GroupModel, mode_label: Seq<char>) -> LogsModel {
    let rep = g.representative;
    LogsModel {
        resource_logs: seq![
            ResourceLogsModel {
                resource: Some(ResourceModel { attributes: rep.resource_attrs }),
                scope_logs: seq![
                    ScopeLogsModel {
                        scope: Some(
                            ScopeModel {
                                name: rep.scope_name,
                                version: Seq::empty(),
                                attributes: rep.scope_attrs,
                            },
                        ),
                        log_records: seq![emitted_record(g, mode_label)],
                    },
                ],
            },
        ],
    }
}

/// The record that a group becomes, before it is numbered.
pub open spec fn group_record(g: GroupModel, mode_label: Seq<char>) -> RecordModel {
    RecordModel {
        record_type: RecordType::Logs,
        seq: 0,
        ts_unix_ns: g.first_seen_ns,
        payload: logs_encoded(emitted_batch(g, mode_label)),
    }
}

/// Records numbered from zero.
pub open spec fn numbered(s: Seq<RecordModel>) -> Seq<RecordModel> {
    Seq::new(s.len(), |i: int| RecordModel { seq: i as u64, ..s[i] })
}

/// The output for groups and for records that passed through: in the order of
/// their timestamps, numbered from zero.
pub open spec fn emitted(
    groups: Seq<GroupModel>,
    passthrough: Seq<RecordModel>,
    mode_label: Seq<char>,
) -> Seq<RecordModel> {
    numbered(
        sorted_by_time(
            groups.map_values(|g: GroupModel| group_record(g, mode_label)) + passthrough,
        ),
    )
}

fn push_attr_str(attrs: &mut Vec<Attribute>, key: &str, val: &str)
    ensures
        attrs_view(final(attrs)@) == attrs_view(old(attrs)@).push(str_attr(key@, val@)),
{
    let ghost before = attrs@;
    let a = Attribute { key: key.to_owned(), value: Some(AttrValue::Str(val.to_owned())) };
    assert(a@ == str_attr(key@, val@)) by {
        assert(a.value->0@ == AnyModel::Str(val@));
    }
    attrs.push(a);
    assert(attrs_view(attrs@) =~= attrs_view(before).push(str_attr(key@, val@)));
}

fn push_attr_i64(attrs: &mut Vec<Attribute>, key: &str, val: i64)
    ensures
        attrs_view(final(attrs)@) == attrs_view(old(attrs)@).push(int_attr(key@, val)),
{
    let ghost before = attrs@;
    let a = Attribute { key: key.to_owned(), value: Some(AttrValue::Int(val)) };
    assert(a@ == int_attr(key@, val)) by {
        assert(a.value->0@ == AnyModel::Int(val));
    }
    attrs.push(a);
    assert(attrs_view(attrs@) =~= attrs_view(before).push(int_attr(key@, val)));
}

/// The behaviour and the matcher that a group is labelled with.
fn label_group(group: &DedupGroup, mode_label: &str) -> (r: String)
    ensures
        r@ == group_mode(group@, mode_label@),
{
    if group.drain3_template.is_some() {
        let chars = chars_of(mode_label);
        let end = index_of_char(&chars, '/');
        let mut label = string_between(&chars, 0, end);
        assert(label@ =~= behaviour_part(mode_label@));
        label.append("/drain3");
        label
    } else if str_eq(mode_label, "full") {
        "full/canon".to_owned()
    } else {
        mode_label.to_owned()
    }
}

/// Every emitted group shows behaviour and matcher: groups that a template
/// joined are labelled with the behaviour of the run and the template miner,
/// all others with the label of the run.
pub proof fn law_label_shows_behaviour_and_matcher(
    g: GroupModel,
    mode: DedupMode,
    match_mode: DedupMatchMode,
)
    ensures
        group_mode(g, mode_label_of(mode, match_mode)) == if g.drain3_template is None {
            mode_label_of(mode, match_mode)
        } else if mode == DedupMode::Distinct {
            "distinct/drain3"@
        } else {
            "collapse/drain3"@
        },
{
    reveal_strlit("full");
    reveal_strlit("/drain3");
    reveal_strlit("distinct/drain3");
    reveal_strlit("collapse/drain3");
    reveal_strlit("distinct/exact");
    reveal_strlit("distinct/canon");
    reveal_strlit("distinct/full");
    reveal_strlit("collapse/exact");
    reveal_strlit("collapse/canon");
    reveal_strlit("collapse/full");
    let label = mode_label_of(mode, match_mode);
    assert(label.len() > 8 && label[8] == '/');
    lemma_first_index(label, '/', 8);
    if g.drain3_template is Some {
        if mode == DedupMode::Distinct {
            assert(behaviour_part(label) + "/drain3"@ =~= "distinct/drain3"@);
        } else {
            assert(behaviour_part(label) + "/drain3"@ =~= "collapse/drain3"@);
        }
    }
}

/// Appends the attributes that describe a group.
fn push_dedup_attrs(attrs: &mut Vec<Attribute>, group: &DedupGroup, mode_label: &str)
    ensures
        attrs_view(final(attrs)@) == attrs_view(old(attrs)@) + dedup_attrs(group@, mode_label@),
{
    let ghost start = attrs_view(attrs@);
    let mut sig_hex = String::new();
    push_hex(&mut sig_hex, group.signature, 16);
    assert(sig_hex@ =~= hex_padded(group.signature as nat, 16));
    push_attr_i64(attrs, "dedup.count", group.count as i64);
    let mode = label_group(group, mode_label);
    push_attr_str(attrs, "dedup.mode", mode.as_str());
    push_attr_str(attrs, "dedup.signature", sig_hex.as_str());
    push_attr_i64(attrs, "dedup.first_seen_ns", group.first_seen_ns as i64);
    push_attr_i64(attrs, "dedup.last_seen_ns", group.last_seen_ns as i64);
    let span: u64 = group.last_seen_ns.saturating_sub(group.first_seen_ns) / 1_000_000;
    push_attr_i64(attrs, "dedup.time_span_ms", span as i64);
    let traces = join_strings(&group.exemplar_trace_ids, ",");
    push_attr_str(attrs, "dedup.exemplar_trace_ids", traces.as_str());
    let spans = join_strings(&group.exemplar_span_ids, ",");
    push_attr_str(attrs, "dedup.exemplar_span_ids", spans.as_str());
    if let Some(canon) = &group.canonical_body {
        push_attr_str(attrs, "dedup.canonical_body", canon.as_str());
    }
    if let Some(shape) = &group.body_shape {
        push_attr_str(attrs, "dedup.body_shape", shape.as_str());
    }
    if let Some(template) = &group.drain3_template {
        push_attr_str(attrs, "dedup.drain3_template", template.as_str());
    }
    if let Some(id) = group.drain3_cluster_id {
        push_attr_i64(attrs, "dedup.drain3_cluster_id", id);
    }
    assert(attrs_view(attrs@) =~= start + dedup_attrs(group@, mode_label@));
}

/// The batch that a group becomes.
pub fn build_batch(group: &DedupGroup, mode_label: &str) -> (r: LogsRequest)
    ensures
        r@ == emitted_batch(group@, mode_label@),
{
    let rep = &group.representative;
    let mut attrs = copy_attrs(&rep.record_attrs);
    push_dedup_attrs(&mut attrs, group, mode_label);
    let body = AttrValue::Str(rep.body.clone());
    assert(body@ == AnyModel::Str(rep@.body));
    let item = LogItem {
        time_unix_nano: group.first_seen_ns,
        observed_time_unix_nano: group.last_seen_ns,
        severity_number: rep.severity_number,
        severity_text: rep.severity_text.clone(),
        body: Some(body),
        attributes: attrs,
        flags: 0,
        trace_id: copy_bytes(&rep.trace_id),
        span_id: copy_bytes(&rep.span_id),
        event_name: rep.event_name.clone(),
    };
    assert(item@ == emitted_record(group@, mode_label@));
    let mut items: Vec<LogItem> = Vec::new();
    items.push(item);
    let scope = ScopeInfo {
        name: rep.scope_name.clone(),
        version: String::new(),
        attributes: copy_attrs(&rep.scope_attrs),
    };
    assert(scope@.version =~= Seq::empty());
    let scope_logs = ScopeLogSet { scope: Some(scope), log_records: items };
    assert(scope_logs@.log_records =~= seq![emitted_record(group@, mode_label@)]);
    let mut scopes: Vec<ScopeLogSet> = Vec::new();
    scopes.push(scope_logs);
    let resource = ResourceInfo { attributes: copy_attrs(&rep.resource_attrs) };
    let resource_logs = ResourceLogSet { resource: Some(resource), scope_logs: scopes };
    assert(resource_logs@.scope_logs =~= seq![scope_logs@]);
    let mut resources: Vec<ResourceLogSet> = Vec::new();
    resources.push(resource_logs);
    let r = LogsRequest { resource_logs: resources };
    assert(r@.resource_logs =~= seq![resource_logs@]);
    r
}

/// The attributes of a group's representative are nested no deeper than the
/// decoder goes, and no double among them is a NaN.
pub open spec fn group_survives(g: GroupModel) -> bool {
    let rep = g.representative;
    &&& attrs_survive(rep.resource_attrs, ROOM_IN_RESOURCE as int)
    &&& attrs_survive(rep.scope_attrs, ROOM_IN_SCOPE as int)
    &&& attrs_survive(rep.record_attrs, ROOM_IN_RECORD as int)
}

/// The attributes that describe a group stand in the way of no decoder.
proof fn lemma_batch_survives(g: GroupModel, mode_label: Seq<char>)
    requires
        group_survives(g),
    ensures
        batch_survives(emitted_batch(g, mode_label)),
{
    let attrs = emitted_record(g, mode_label).attributes;
    let own = g.representative.record_attrs;
    let room = ROOM_IN_RECORD as int;
    assert(attrs_survive(attrs, room)) by {
        assert forall|i: int| 0 <= i < attrs.len() implies opt_survives(
            (#[trigger] attrs[i]).value,
            room,
        ) by {
            if i < own.len() {
                assert(opt_survives(own[i].value, room));
            } else {
                assert(attrs[i] == dedup_attrs(g, mode_label)[i - own.len()]);
            }
        }
    }
}

/// The payload of the record that a group becomes. Decoding it gives the batch
/// back, unless an attribute of the representative is nested deeper than the
/// decoder goes or holds a NaN.
pub fn build_otlp_payload(group: &DedupGroup, mode_label: &str) -> (r: Vec<u8>)
    ensures
        r@ == logs_encoded(emitted_batch(group@, mode_label@)),
        group_survives(group@) ==> logs_of(r@) == Some(emitted_batch(group@, mode_label@)),
{
    proof {
        if group_survives(group@) {
            lemma_batch_survives(group@, mode_label@);
        }
    }
    encode_logs(build_batch(group, mode_label))
}

/// The output records for dedup groups and for records that passed through,
/// with the statistics of the run.
pub fn write(
    groups: &Vec<DedupGroup>,
    passthrough: Vec<StreamRecord>,
    mode_label: &str,
) -> (r: (Vec<StreamRecord>, DedupStats))
    requires
        total_count(groups_view(groups@)) <= u64::MAX,
    ensures
        stream_view(r.0@) == emitted(
            groups_view(groups@),
            stream_view(passthrough@),
            mode_label@,
        ),
        r.1.total_records == total_count(groups_view(groups@)),
        r.1.group_count == groups@.len(),
{
    let ghost gs = groups_view(groups@);
    let ghost label = mode_label@;
    let ghost to_record = |g: GroupModel| group_record(g, label);
    let mut total: u64 = 0;
    let mut out: Vec<StreamRecord> = Vec::new();
    assert(gs.take(0) =~= Seq::empty());
    assert(stream_view(out@) =~= gs.take(0).map_values(to_record));
    for i in 0..groups.len()
        invariant
            gs == groups_view(groups@),
            label == mode_label@,
            to_record == (|g: GroupModel| group_record(g, label)),
            total_count(gs) <= u64::MAX,
            total == total_count(gs.take(i as int)),
            stream_view(out@) == gs.take(i as int).map_values(to_record),
    {
        let g = &groups[i];
        let ghost before = out@;
        proof {
            assert(gs[i as int] == g@);
            assert(gs.take(i + 1).drop_last() =~= gs.take(i as int));
            crate::dedup::canon::lemma_total_of_prefix(gs, i + 1);
        }
        total = total + g.count;
        let rec = StreamRecord {
            record_type: RecordType::Logs,
            seq: 0,
            ts_unix_ns: g.first_seen_ns,
            payload: build_otlp_payload(g, mode_label),
        };
        assert(rec@ == to_record(g@));
        out.push(rec);
        assert(stream_view(out@) =~= stream_view(before).push(rec@));
        assert(stream_view(out@) =~= gs.take(i + 1).map_values(to_record));
    }
    assert(gs.take(groups@.len() as int) =~= gs);
    let ghost own = out@;
    let ghost pass = passthrough@;
    let mut rest = passthrough;
    out.append(&mut rest);
    assert(stream_view(out@) =~= stream_view(own) + stream_view(pass));
    let ghost unsorted = stream_view(out@);
    sort_by_time(&mut out);
    let ghost sorted = stream_view(out@);
    let ghost sorted_records = out@;
    let n = out.len();
    for i in 0..n
        invariant
            n == out@.len(),
            sorted == stream_view(sorted_records),
            out@.len() == sorted_records.len(),
            forall|k: int|
                0 <= k < i ==> (#[trigger] out@[k])@ == (RecordModel {
                    seq: k as u64,
                    ..sorted_records[k]@
                }),
            forall|k: int| i <= k < out@.len() ==> #[trigger] out@[k] == sorted_records[k],
    {
        out[i].seq = i as u64;
    }
    assert(stream_view(out@) =~= numbered(sorted));
    (out, DedupStats { total_records: total, group_count: groups.len() as u64 })
}

/// A record without its number.
pub open spec fn without_number(r: RecordModel) -> RecordModel {
    RecordModel { seq: 0, ..r }
}

/// Records without their numbers.
pub open spec fn unnumbered(s: Seq<RecordModel>) -> Seq<RecordModel> {
    s.map_values(|r: RecordModel| without_number(r))
}

proof fn lemma_insert_unnumbered(s: Seq<RecordModel>, e: RecordModel)
    ensures
        unnumbered(insert_by_time(s, e)).to_multiset() == unnumbered(s).to_multiset().insert(
            without_number(e),
        ),
    decreases s.len(),
{
    broadcast use vstd::seq_lib::group_to_multiset_ensures;

    if s.len() > 0 && s.last().ts_unix_ns > e.ts_unix_ns {
        let init = s.drop_last();
        lemma_insert_unnumbered(init, e);
        assert(unnumbered(insert_by_time(s, e)) =~= unnumbered(insert_by_time(init, e)).push(
            without_number(s.last()),
        ));
        assert(unnumbered(s) =~= unnumbered(init).push(without_number(s.last())));
        assert(unnumbered(insert_by_time(s, e)).to_multiset() =~= unnumbered(
            s,
        ).to_multiset().insert(without_number(e)));
    } else {
        assert(unnumbered(insert_by_time(s, e)) =~= unnumbered(s).push(without_number(e)));
    }
}

proof fn lemma_sorted_unnumbered(s: Seq<RecordModel>)
    ensures
        unnumbered(sorted_by_time(s)).to_multiset() == unnumbered(s).to_multiset(),
    decreases s.len(),
{
    broadcast use vstd::seq_lib::group_to_multiset_ensures;

    if s.len() > 0 {
        let init = s.drop_last();
        lemma_sorted_unnumbered(init);
        lemma_insert_unnumbered(sorted_by_time(init), s.last());
        assert(unnumbered(s) =~= unnumbered(init).push(without_number(s.last())));
    } else {
        assert(unnumbered(sorted_by_time(s)) =~= unnumbered(s));
    }
}

/// The output is in the order of time and numbered from zero.
pub proof fn law_output_is_in_order(
    groups: Seq<GroupModel>,
    passthrough: Seq<RecordModel>,
    mode_label: Seq<char>,
)
    ensures
        times_ascend(emitted(groups, passthrough, mode_label)),
        forall|i: int|
            0 <= i < emitted(groups, passthrough, mode_label).len() ==> (#[trigger] emitted(
                groups,
                passthrough,
                mode_label,
            )[i]).seq == i as u64,
{
    let all = groups.map_values(|g: GroupModel| group_record(g, mode_label)) + passthrough;
    law_sorting_by_time(all);
    let out = emitted(groups, passthrough, mode_label);
    assert forall|i: int, j: int| 0 <= i <= j < out.len() implies (#[trigger] out[i]).ts_unix_ns
        <= (#[trigger] out[j]).ts_unix_ns by {
        assert(sorted_by_time(all)[i].ts_unix_ns <= sorted_by_time(all)[j].ts_unix_ns);
    }
}

/// The output holds one record for each group, and every record that passed
/// through with its type, timestamp and payload unchanged.
pub proof fn law_output_holds_every_record(
    groups: Seq<GroupModel>,
    passthrough: Seq<RecordModel>,
    mode_label: Seq<char>,
)
    ensures
        emitted(groups, passthrough, mode_label).len() == groups.len() + passthrough.len(),
        unnumbered(emitted(groups, passthrough, mode_label)).to_multiset() == unnumbered(
            groups.map_values(|g: GroupModel| group_record(g, mode_label)),
        ).to_multiset().add(unnumbered(passthrough).to_multiset()),
{
    let made = groups.map_values(|g: GroupModel| group_record(g, mode_label));
    let all = made + passthrough;
    law_sorting_by_time(all);
    lemma_sorted_unnumbered(all);
    assert(unnumbered(emitted(groups, passthrough, mode_label)) =~= unnumbered(
        sorted_by_time(all),
    ));
    assert(unnumbered(all) =~= unnumbered(made) + unnumbered(passthrough));
    vstd::seq_lib::lemma_multiset_commutative(unnumbered(made), unnumbered(passthrough));
}

/// A payload that decodes to the batch of a group unpacks to one record, which
/// is the representative of the group with the dedup attributes behind its own.
pub proof fn law_group_unpacks_to_one_record(g: GroupModel, mode_label: Seq<char>)
    requires
        logs_of(group_record(g, mode_label).payload) == Some(emitted_batch(g, mode_label)),
    ensures
        flat_stream(seq![group_record(g, mode_label)]).len() == 1,
        ({
            let r = flat_stream(seq![group_record(g, mode_label)])[0];
            let rep = g.representative;
            &&& r.body == rep.body
            &&& r.severity_number == rep.severity_number
            &&& r.severity_text == rep.severity_text
            &&& r.event_name == rep.event_name
            &&& r.scope_name == rep.scope_name
            &&& r.trace_id == rep.trace_id
            &&& r.span_id == rep.span_id
            &&& r.time_unix_nano == g.first_seen_ns
            &&& r.observed_time_unix_nano == g.last_seen_ns
            &&& r.resource_attrs == rep.resource_attrs
            &&& r.scope_attrs == rep.scope_attrs
            &&& r.record_attrs == rep.record_attrs + dedup_attrs(g, mode_label)
        }),
{
    let record = group_record(g, mode_label);
    let batch = emitted_batch(g, mode_label);
    let rl = batch.resource_logs[0];
    let sl = rl.scope_logs[0];
    assert(seq![record].drop_last() =~= Seq::<RecordModel>::empty());
    assert(batch.resource_logs.drop_last() =~= Seq::<ResourceLogsModel>::empty());
    assert(rl.scope_logs.drop_last() =~= Seq::<ScopeLogsModel>::empty());
    assert(flat_stream(seq![record].drop_last()) =~= Seq::empty());
    assert(flat_resources(batch.resource_logs.drop_last()) =~= Seq::empty());
    assert(flat_scopes(rl.resource, rl.scope_logs.drop_last()) =~= Seq::empty());
    assert(flat_scopes(rl.resource, rl.scope_logs) =~= flat_scope(rl.resource, sl));
    assert(flat_stream(seq![record]) =~= flat_scope(rl.resource, sl));
}

} // verus!
