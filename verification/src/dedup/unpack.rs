//! Cracks log batches into flat records. Records that are no logs, or whose
//! payload is no log batch, pass through.
use vstd::prelude::*;

use crate::bridge::protobuf::{decode_logs, logs_of};
use crate::dedup::detect::text_option;
use crate::dedup::flat_record::{FlatModel, FlatRecord};
use crate::dedup::records_view;
use crate::otlp::{
    attrs_view, copy_attrs, copy_bytes, AnyModel, AttrValue, Attribute, KvModel, LogItem,
    LogRecordModel, LogsRequest, ResourceInfo, ResourceLogsModel, ResourceModel, ScopeInfo,
    ScopeLogsModel, ScopeModel,
};
use crate::record::{stream_view, RecordModel, RecordType, StreamRecord};
use crate::text::seqs::{first_index, lemma_first_index};
use crate::text::strings::str_eq;

verus! {

/// Result of unpacking a stream.
#[derive(Debug)]
pub struct UnpackResult {
    /// Flat log records ready for dedup.
    pub records: Vec<FlatRecord>,
    /// Records to pass through unchanged.
    pub passthrough: Vec<StreamRecord>,
}

/// The keys of a list of attributes.
pub open spec fn attr_keys(a: Seq<KvModel>) -> Seq<Seq<char>> {
    a.map_values(|x: KvModel| x.key)
}

/// The text of a string value.
pub open spec fn string_value(v: Option<AnyModel>) -> Option<Seq<char>> {
    match v {
        Some(AnyModel::Str(s)) => Some(s),
        _ => None,
    }
}

/// The service name among resource attributes: the first `service.name`, if
/// it is a string; else empty.
pub open spec fn service_of(a: Seq<KvModel>) -> Seq<char> {
    let i = first_index(attr_keys(a), "service.name"@);
    if i < a.len() {
        match string_value(a[i].value) {
            Some(s) => s,
            None => Seq::empty(),
        }
    } else {
        Seq::empty()
    }
}

/// The source file among record attributes: the last `code.filepath` that is
/// a string.
pub open spec fn filepath_of(a: Seq<KvModel>) -> Option<Seq<char>>
    decreases a.len(),
{
    if a.len() == 0 {
        None
    } else if a.last().key == "code.filepath"@ && string_value(a.last().value) is Some {
        string_value(a.last().value)
    } else {
        filepath_of(a.drop_last())
    }
}

/// The integer of an integer value.
pub open spec fn int_value(v: Option<AnyModel>) -> Option<i64> {
    match v {
        Some(AnyModel::Int(n)) => Some(n),
        _ => None,
    }
}

/// The source line among record attributes: the last `code.lineno` that is an
/// integer.
pub open spec fn lineno_of(a: Seq<KvModel>) -> Option<i64>
    decreases a.len(),
{
    if a.len() == 0 {
        None
    } else if a.last().key == "code.lineno"@ && int_value(a.last().value) is Some {
        int_value(a.last().value)
    } else {
        lineno_of(a.drop_last())
    }
}

/// The attributes of an optional resource.
pub open spec fn resource_attrs_of(r: Option<ResourceModel>) -> Seq<KvModel> {
    match r {
        Some(x) => x.attributes,
        None => Seq::empty(),
    }
}

/// The name of an optional scope.
pub open spec fn scope_name_of(s: Option<ScopeModel>) -> Seq<char> {
    match s {
        Some(x) => x.name,
        None => Seq::empty(),
    }
}

/// The attributes of an optional scope.
pub open spec fn scope_attrs_of(s: Option<ScopeModel>) -> Seq<KvModel> {
    match s {
        Some(x) => x.attributes,
        None => Seq::empty(),
    }
}

/// A text, or the empty text.
pub open spec fn or_empty(s: Option<Seq<char>>) -> Seq<char> {
    match s {
        Some(t) => t,
        None => Seq::empty(),
    }
}

/// One log record with the resource and scope it belongs to.
pub open spec fn flat_item(
    resource: Option<ResourceModel>,
    scope: Option<ScopeModel>,
    r: LogRecordModel,
) -> FlatModel {
    FlatModel {
        service_name: service_of(resource_attrs_of(resource)),
        severity_number: r.severity_number,
        severity_text: r.severity_text,
        scope_name: scope_name_of(scope),
        event_name: r.event_name,
        code_filepath: filepath_of(r.attributes),
        code_lineno: lineno_of(r.attributes),
        trace_id: r.trace_id,
        span_id: r.span_id,
        time_unix_nano: r.time_unix_nano,
        observed_time_unix_nano: r.observed_time_unix_nano,
        body: or_empty(string_value(r.body)),
        resource_attrs: resource_attrs_of(resource),
        scope_attrs: scope_attrs_of(scope),
        record_attrs: r.attributes,
    }
}

/// The records of one scope.
pub open spec fn flat_scope(resource: Option<ResourceModel>, s: ScopeLogsModel) -> Seq<FlatModel> {
    s.log_records.map_values(|r: LogRecordModel| flat_item(resource, s.scope, r))
}

/// The records of a list of scopes.
pub open spec fn flat_scopes(resource: Option<ResourceModel>, s: Seq<ScopeLogsModel>) -> Seq<
    FlatModel,
>
    decreases s.len(),
{
    if s.len() == 0 {
        Seq::empty()
    } else {
        flat_scopes(resource, s.drop_last()) + flat_scope(resource, s.last())
    }
}

/// The records of a list of resources.
pub open spec fn flat_resources(r: Seq<ResourceLogsModel>) -> Seq<FlatModel>
    decreases r.len(),
{
    if r.len() == 0 {
        Seq::empty()
    } else {
        flat_resources(r.drop_last()) + flat_scopes(r.last().resource, r.last().scope_logs)
    }
}

/// The log records of a stream, flattened, in order.
pub open spec fn flat_stream(s: Seq<RecordModel>) -> Seq<FlatModel>
    decreases s.len(),
{
    if s.len() == 0 {
        Seq::empty()
    } else {
        let before = flat_stream(s.drop_last());
        if is_batch(s.last()) {
            before + flat_resources(logs_of(s.last().payload)->0.resource_logs)
        } else {
            before
        }
    }
}

/// A log record whose payload is a log batch.
pub open spec fn is_batch(r: RecordModel) -> bool {
    r.record_type == RecordType::Logs && logs_of(r.payload) is Some
}

/// A record that passes through.
pub open spec fn passes() -> spec_fn(RecordModel) -> bool {
    |r: RecordModel| !is_batch(r)
}

/// The service name among resource attributes.
pub fn service_name(attrs: &Vec<Attribute>) -> (r: String)
    ensures
        r@ == service_of(attrs_view(attrs@)),
{
    let ghost a = attrs_view(attrs@);
    let ghost keys = attr_keys(a);
    let n = attrs.len();
    let mut i: usize = 0;
    while i < n && !str_eq(attrs[i].key.as_str(), "service.name")
        invariant
            i <= n,
            n == attrs@.len(),
            a == attrs_view(attrs@),
            keys == attr_keys(a),
            keys.len() == n,
            forall|j: int| 0 <= j < i ==> keys[j] != "service.name"@,
        decreases n - i,
    {
        assert(keys[i as int] == attrs@[i as int].key@);
        i = i + 1;
    }
    proof {
        if i < n {
            assert(keys[i as int] == attrs@[i as int].key@);
        }
        lemma_first_index(keys, "service.name"@, i as int);
    }
    let empty = String::new();
    assert(empty@ =~= Seq::empty());
    if i < n {
        assert(a[i as int] == attrs@[i as int]@);
        if let Some(AttrValue::Str(s)) = &attrs[i].value {
            return s.clone();
        }
    }
    empty
}

/// The source file and line among record attributes.
pub fn extract_source_location(attrs: &Vec<Attribute>) -> (r: (Option<String>, Option<i64>))
    ensures
        text_option(r.0) == filepath_of(attrs_view(attrs@)),
        r.1 == lineno_of(attrs_view(attrs@)),
{
    let ghost a = attrs_view(attrs@);
    let mut filepath: Option<String> = None;
    let mut lineno: Option<i64> = None;
    assert(a.take(0) =~= Seq::empty());
    for i in 0..attrs.len()
        invariant
            a == attrs_view(attrs@),
            text_option(filepath) == filepath_of(a.take(i as int)),
            lineno == lineno_of(a.take(i as int)),
    {
        proof {
            assert(a.take(i + 1).drop_last() =~= a.take(i as int));
            assert(a[i as int] == attrs@[i as int]@);
            reveal_strlit("code.filepath");
            reveal_strlit("code.lineno");
            assert("code.filepath"@.len() != "code.lineno"@.len());
        }
        if str_eq(attrs[i].key.as_str(), "code.filepath") {
            if let Some(AttrValue::Str(s)) = &attrs[i].value {
                filepath = Some(s.clone());
            }
        } else if str_eq(attrs[i].key.as_str(), "code.lineno") {
            if let Some(AttrValue::Int(n)) = &attrs[i].value {
                lineno = Some(*n);
            }
        }
    }
    assert(a.take(attrs@.len() as int) =~= a);
    (filepath, lineno)
}

/// Flattens one log record.
fn flatten_item(resource: &Option<ResourceInfo>, scope: &Option<ScopeInfo>, item: &LogItem) -> (r:
    FlatRecord)
    ensures
        r@ == flat_item(
            match *resource {
                Some(x) => Some(x@),
                None => None,
            },
            match *scope {
                Some(x) => Some(x@),
                None => None,
            },
            item@,
        ),
{
    let (code_filepath, code_lineno) = extract_source_location(&item.attributes);
    let body = match &item.body {
        Some(AttrValue::Str(s)) => s.clone(),
        _ => String::new(),
    };
    let (service, resource_attrs) = match resource {
        Some(x) => (service_name(&x.attributes), copy_attrs(&x.attributes)),
        None => (String::new(), Vec::new()),
    };
    let (scope_name, scope_attrs) = match scope {
        Some(x) => (x.name.clone(), copy_attrs(&x.attributes)),
        None => (String::new(), Vec::new()),
    };
    let r = FlatRecord {
        service_name: service,
        severity_number: item.severity_number,
        severity_text: item.severity_text.clone(),
        scope_name,
        event_name: item.event_name.clone(),
        code_filepath,
        code_lineno,
        trace_id: copy_bytes(&item.trace_id),
        span_id: copy_bytes(&item.span_id),
        time_unix_nano: item.time_unix_nano,
        observed_time_unix_nano: item.observed_time_unix_nano,
        body,
        resource_attrs,
        scope_attrs,
        record_attrs: copy_attrs(&item.attributes),
    };
    proof {
        if resource is None {
            assert(attr_keys(Seq::<KvModel>::empty()) =~= Seq::empty());
            assert(r@.service_name =~= service_of(Seq::empty()));
            assert(r@.resource_attrs =~= Seq::empty());
        }
        if scope is None {
            assert(r@.scope_name =~= Seq::empty());
            assert(r@.scope_attrs =~= Seq::empty());
        }
        if string_value(item@.body) is None {
            assert(r@.body =~= Seq::empty());
        }
    }
    r
}

/// Flattens a batch: one flat record for each log record.
pub fn flatten_batch(batch: &LogsRequest, out: &mut Vec<FlatRecord>)
    ensures
        records_view(final(out)@) == records_view(old(out)@) + flat_resources(
            batch@.resource_logs,
        ),
{
    let ghost start = records_view(out@);
    let ghost rls = batch@.resource_logs;
    assert(rls.take(0) =~= Seq::empty());
    assert(start + flat_resources(rls.take(0)) =~= start);
    for i in 0..batch.resource_logs.len()
        invariant
            rls == batch@.resource_logs,
            records_view(out@) == start + flat_resources(rls.take(i as int)),
    {
        let rl = &batch.resource_logs[i];
        assert(rls[i as int] == rl@);
        assert(rls.take(i + 1).drop_last() =~= rls.take(i as int));
        let ghost base = records_view(out@);
        let ghost res = rl@.resource;
        let ghost sls = rl@.scope_logs;
        assert(sls.take(0) =~= Seq::empty());
        assert(base + flat_scopes(res, sls.take(0)) =~= base);
        for j in 0..rl.scope_logs.len()
            invariant
                res == rl@.resource,
                sls == rl@.scope_logs,
                records_view(out@) == base + flat_scopes(res, sls.take(j as int)),
        {
            let sl = &rl.scope_logs[j];
            assert(sls[j as int] == sl@);
            assert(sls.take(j + 1).drop_last() =~= sls.take(j as int));
            let ghost inner = records_view(out@);
            let ghost flat = flat_scope(res, sl@);
            assert(inner + flat.take(0) =~= inner);
            for k in 0..sl.log_records.len()
                invariant
                    res == rl@.resource,
                    flat == flat_scope(res, sl@),
                    flat.len() == sl.log_records@.len(),
                    records_view(out@) == inner + flat.take(k as int),
            {
                let ghost before = out@;
                let item = flatten_item(&rl.resource, &sl.scope, &sl.log_records[k]);
                assert(item@ == flat[k as int]);
                out.push(item);
                assert(records_view(out@) =~= records_view(before).push(item@));
                assert(inner + flat.take(k + 1) =~= (inner + flat.take(k as int)).push(
                    flat[k as int],
                ));
            }
            assert(flat.take(sl.log_records@.len() as int) =~= flat);
            assert(base + flat_scopes(res, sls.take(j + 1)) =~= inner + flat);
        }
        assert(sls.take(rl.scope_logs@.len() as int) =~= sls);
        assert(start + flat_resources(rls.take(i + 1)) =~= base + flat_scopes(res, sls));
    }
    assert(rls.take(batch.resource_logs@.len() as int) =~= rls);
}

/// Flattens the log batches of a stream.
pub fn unpack(records: Vec<StreamRecord>) -> (r: UnpackResult)
    ensures
        records_view(r.records@) == flat_stream(stream_view(records@)),
        stream_view(r.passthrough@) == stream_view(records@).filter(passes()),
{
    let ghost source = records@;
    let ghost all = stream_view(source);
    let mut flat: Vec<FlatRecord> = Vec::new();
    let mut passthrough: Vec<StreamRecord> = Vec::new();
    proof {
        reveal(Seq::filter);
        assert(all.take(0) =~= Seq::empty());
        assert(records_view(flat@) =~= flat_stream(all.take(0)));
        assert(stream_view(passthrough@) =~= all.take(0).filter(passes()));
    }
    for rec in it: records
        invariant
            it.seq() == source,
            all == stream_view(source),
            records_view(flat@) == flat_stream(all.take(it.index() as int)),
            stream_view(passthrough@) == all.take(it.index() as int).filter(passes()),
    {
        let ghost i = it.index() as int;
        let ghost before = passthrough@;
        proof {
            reveal(Seq::filter);
            assert(rec@ == all[i]);
            assert(all.take(i + 1).drop_last() =~= all.take(i));
        }
        let ghost recm = rec@;
        if rec.record_type != RecordType::Logs {
            passthrough.push(rec);
            assert(stream_view(passthrough@) =~= stream_view(before).push(recm));
        } else {
            match decode_logs(&rec.payload) {
                Some(batch) => {
                    flatten_batch(&batch, &mut flat);
                },
                None => {
                    passthrough.push(rec);
                    assert(stream_view(passthrough@) =~= stream_view(before).push(recm));
                },
            }
        }
    }
    assert(all.take(source.len() as int) =~= all);
    UnpackResult { records: flat, passthrough }
}

} // verus!
