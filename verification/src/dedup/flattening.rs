//! What flattening keeps of a log record, and which records share a bucket.
use vstd::prelude::*;

use crate::bridge::protobuf::logs_of;
use crate::commands::discover_counts::{all_log_records, log_records_of};
use crate::commands::view::flatten::{all_log_items, all_log_scopes};
use crate::dedup::flat_record::{key_of, BucketKeyKind, FlatModel};
use crate::dedup::unpack::{
    attr_keys, filepath_of, flat_item, flat_resources, flat_scope, flat_scopes, flat_stream,
    is_batch, lineno_of, passes, service_of,
};
use crate::dedup::lemma_first_index_hit;
use crate::otlp::{
    AnyModel, KvModel, LogRecordModel, ResourceLogsModel,
    ResourceModel, ScopeLogsModel, ScopeModel,
};
use crate::record::{RecordModel, RecordType};
use crate::text::seqs::{first_index, lemma_first_index};

verus! {

/// A flat record is the log record `l`: it has its severity, ids, times, event
/// name and attributes, and its body where that is a text.
pub open spec fn is_flat_of(f: FlatModel, l: LogRecordModel) -> bool {
    &&& f.severity_number == l.severity_number
    &&& f.severity_text == l.severity_text
    &&& f.event_name == l.event_name
    &&& f.trace_id == l.trace_id
    &&& f.span_id == l.span_id
    &&& f.time_unix_nano == l.time_unix_nano
    &&& f.observed_time_unix_nano == l.observed_time_unix_nano
    &&& f.record_attrs == l.attributes
    &&& forall|s: Seq<char>| #[trigger]
        l.body == Some(AnyModel::Str(s)) ==> f.body == s
    &&& (forall|s: Seq<char>| #[trigger] l.body != Some(AnyModel::Str(s))) ==> f.body.len() == 0
}

/// Flattening takes each field of a log record over, and what the resource and
/// the scope say.
pub proof fn law_fields_are_taken_over(
    resource: Option<ResourceModel>,
    scope: Option<ScopeModel>,
    l: LogRecordModel,
)
    ensures
        is_flat_of(flat_item(resource, scope, l), l),
        resource is Some ==> flat_item(resource, scope, l).resource_attrs
            == resource->0.attributes,
        scope is Some ==> flat_item(resource, scope, l).scope_attrs == scope->0.attributes
            && flat_item(resource, scope, l).scope_name == scope->0.name,
        resource is None ==> flat_item(resource, scope, l).resource_attrs.len() == 0
            && flat_item(resource, scope, l).service_name.len() == 0,
        scope is None ==> flat_item(resource, scope, l).scope_attrs.len() == 0 && flat_item(
            resource,
            scope,
            l,
        ).scope_name.len() == 0,
{
    let f = flat_item(resource, scope, l);
    match l.body {
        Some(AnyModel::Str(s)) => {
            assert(l.body == Some(AnyModel::Str(s)));
        },
        _ => {},
    }
    if resource is None {
        lemma_first_index_hit(attr_keys(Seq::empty()), "service.name"@);
    }
}

/// The first `service.name` among the resource attributes names the service of
/// a flat record, if it is a text; otherwise the service has no name.
pub proof fn law_first_service_name_is_taken(a: Seq<KvModel>, i: int)
    requires
        0 <= i < a.len(),
        a[i].key == "service.name"@,
        forall|j: int| 0 <= j < i ==> (#[trigger] a[j]).key != "service.name"@,
    ensures
        forall|s: Seq<char>| #[trigger]
            a[i].value == Some(AnyModel::Str(s)) ==> service_of(a) == s,
        (forall|s: Seq<char>| #[trigger] a[i].value != Some(AnyModel::Str(s))) ==> service_of(
            a,
        ).len() == 0,
{
    let keys = attr_keys(a);
    assert forall|j: int| 0 <= j < i implies keys[j] != "service.name"@ by {
        assert(a[j].key != "service.name"@);
    }
    lemma_first_index(keys, "service.name"@, i);
    match a[i].value {
        Some(AnyModel::Str(s)) => {
            assert(a[i].value == Some(AnyModel::Str(s)));
        },
        _ => {},
    }
}

/// Without an attribute `service.name` the service has no name.
pub proof fn law_no_service_name_is_made_up(a: Seq<KvModel>)
    requires
        forall|j: int| 0 <= j < a.len() ==> (#[trigger] a[j]).key != "service.name"@,
    ensures
        service_of(a).len() == 0,
{
    let keys = attr_keys(a);
    lemma_first_index_hit(keys, "service.name"@);
    if first_index(keys, "service.name"@) < a.len() {
        assert(a[first_index(keys, "service.name"@)].key != "service.name"@);
    }
}

/// An attribute with a text.
pub open spec fn gives_text(x: KvModel, key: Seq<char>) -> bool {
    x.key == key && x.value is Some && x.value->0 is Str
}

/// An attribute with an integer.
pub open spec fn gives_int(x: KvModel, key: Seq<char>) -> bool {
    x.key == key && x.value is Some && x.value->0 is Int
}

/// The last text under `code.filepath` is the source file; without one there
/// is none.
pub proof fn law_last_source_file_is_taken(a: Seq<KvModel>, i: int)
    requires
        0 <= i <= a.len(),
        i < a.len() ==> gives_text(a[i], "code.filepath"@),
        i == a.len() ==> forall|j: int|
            0 <= j < a.len() ==> !gives_text(#[trigger] a[j], "code.filepath"@),
        forall|j: int| i < j < a.len() ==> !gives_text(#[trigger] a[j], "code.filepath"@),
    ensures
        i == a.len() ==> filepath_of(a) is None,
        i < a.len() ==> filepath_of(a) == Some(a[i].value->0->Str_0),
    decreases a.len(),
{
    if a.len() > 0 && i != a.len() - 1 {
        assert(!gives_text(a[a.len() - 1], "code.filepath"@));
        let init = a.drop_last();
        assert forall|j: int| 0 <= j < init.len() && (i == a.len() || i < j) implies !gives_text(
            #[trigger] init[j],
            "code.filepath"@,
        ) by {
            assert(!gives_text(a[j], "code.filepath"@));
        }
        law_last_source_file_is_taken(
            init,
            if i == a.len() {
                init.len() as int
            } else {
                i
            },
        );
    }
}

/// The last integer under `code.lineno` is the source line; without one there
/// is none.
pub proof fn law_last_source_line_is_taken(a: Seq<KvModel>, i: int)
    requires
        0 <= i <= a.len(),
        i < a.len() ==> gives_int(a[i], "code.lineno"@),
        i == a.len() ==> forall|j: int|
            0 <= j < a.len() ==> !gives_int(#[trigger] a[j], "code.lineno"@),
        forall|j: int| i < j < a.len() ==> !gives_int(#[trigger] a[j], "code.lineno"@),
    ensures
        i == a.len() ==> lineno_of(a) is None,
        i < a.len() ==> lineno_of(a) == Some(a[i].value->0->Int_0),
    decreases a.len(),
{
    if a.len() > 0 && i != a.len() - 1 {
        assert(!gives_int(a[a.len() - 1], "code.lineno"@));
        let init = a.drop_last();
        assert forall|j: int| 0 <= j < init.len() && (i == a.len() || i < j) implies !gives_int(
            #[trigger] init[j],
            "code.lineno"@,
        ) by {
            assert(!gives_int(a[j], "code.lineno"@));
        }
        law_last_source_line_is_taken(
            init,
            if i == a.len() {
                init.len() as int
            } else {
                i
            },
        );
    }
}

/// The flat records are those of the log records, one each, in order.
pub open spec fn flat_of_each(f: Seq<FlatModel>, l: Seq<LogRecordModel>) -> bool {
    &&& f.len() == l.len()
    &&& forall|i: int| 0 <= i < l.len() ==> is_flat_of(#[trigger] f[i], l[i])
}

proof fn lemma_flat_concat(
    f: Seq<FlatModel>,
    l: Seq<LogRecordModel>,
    g: Seq<FlatModel>,
    m: Seq<LogRecordModel>,
)
    requires
        flat_of_each(f, l),
        flat_of_each(g, m),
    ensures
        flat_of_each(f + g, l + m),
{
    assert forall|i: int| 0 <= i < (l + m).len() implies is_flat_of(
        #[trigger] (f + g)[i],
        (l + m)[i],
    ) by {
        if i < l.len() {
            assert(is_flat_of(f[i], l[i]));
        } else {
            assert(is_flat_of(g[i - l.len()], m[i - l.len()]));
        }
    }
}

proof fn lemma_items_concat(a: Seq<ScopeLogsModel>, b: Seq<ScopeLogsModel>)
    ensures
        all_log_items(a + b) == all_log_items(a) + all_log_items(b),
    decreases b.len(),
{
    if b.len() > 0 {
        assert((a + b).drop_last() =~= a + b.drop_last());
        lemma_items_concat(a, b.drop_last());
        assert(all_log_items(a + b) =~= all_log_items(a) + all_log_items(b));
    } else {
        assert(a + b =~= a);
        assert(all_log_items(a + b) =~= all_log_items(a) + all_log_items(b));
    }
}

proof fn lemma_flat_scopes(resource: Option<ResourceModel>, s: Seq<ScopeLogsModel>)
    ensures
        flat_of_each(flat_scopes(resource, s), all_log_items(s)),
    decreases s.len(),
{
    if s.len() > 0 {
        lemma_flat_scopes(resource, s.drop_last());
        let own = flat_scope(resource, s.last());
        let items = s.last().log_records;
        assert forall|i: int| 0 <= i < items.len() implies is_flat_of(
            #[trigger] own[i],
            items[i],
        ) by {
            law_fields_are_taken_over(resource, s.last().scope, items[i]);
        }
        lemma_flat_concat(
            flat_scopes(resource, s.drop_last()),
            all_log_items(s.drop_last()),
            own,
            items,
        );
    }
}

proof fn lemma_flat_resources(r: Seq<ResourceLogsModel>)
    ensures
        flat_of_each(flat_resources(r), all_log_items(all_log_scopes(r))),
    decreases r.len(),
{
    if r.len() > 0 {
        lemma_flat_resources(r.drop_last());
        lemma_flat_scopes(r.last().resource, r.last().scope_logs);
        lemma_items_concat(all_log_scopes(r.drop_last()), r.last().scope_logs);
        lemma_flat_concat(
            flat_resources(r.drop_last()),
            all_log_items(all_log_scopes(r.drop_last())),
            flat_scopes(r.last().resource, r.last().scope_logs),
            all_log_items(r.last().scope_logs),
        );
    }
}

/// Unpacking a stream gives one flat record for each log record of each of its
/// batches, in order.
pub proof fn law_every_log_record_is_unpacked(s: Seq<RecordModel>)
    ensures
        flat_stream(s).len() == all_log_records(s).len(),
        flat_of_each(flat_stream(s), all_log_records(s)),
    decreases s.len(),
{
    if s.len() > 0 {
        law_every_log_record_is_unpacked(s.drop_last());
        if is_batch(s.last()) {
            lemma_flat_resources(logs_of(s.last().payload)->0.resource_logs);
            lemma_flat_concat(
                flat_stream(s.drop_last()),
                all_log_records(s.drop_last()),
                flat_resources(logs_of(s.last().payload)->0.resource_logs),
                log_records_of(s.last()),
            );
        } else {
            assert(all_log_records(s) =~= all_log_records(s.drop_last()));
        }
    }
}

/// What is no log batch passes through, and only that: traces, metrics, and log
/// records whose payload does not decode. It carries no log record.
pub proof fn law_what_is_no_batch_passes_through(r: RecordModel)
    ensures
        passes()(r) <==> r.record_type != RecordType::Logs || logs_of(r.payload) is None,
        passes()(r) ==> flat_stream(seq![r]).len() == 0,
{
    assert(seq![r].drop_last() =~= Seq::empty());
    assert(flat_stream(seq![r].drop_last()).len() == 0);
}

/// Which records share a bucket: under the global key all of them, otherwise
/// those of one service and severity, and of one scope or of one source file
/// and line where the key asks for it.
pub proof fn law_buckets_keep_apart(a: FlatModel, b: FlatModel)
    ensures
        key_of(a, BucketKeyKind::Global) == key_of(b, BucketKeyKind::Global),
        key_of(a, BucketKeyKind::Default) == key_of(b, BucketKeyKind::Default) <==> {
            &&& a.service_name == b.service_name
            &&& a.severity_number == b.severity_number
        },
        key_of(a, BucketKeyKind::Scope) == key_of(b, BucketKeyKind::Scope) <==> {
            &&& a.service_name == b.service_name
            &&& a.severity_number == b.severity_number
            &&& a.scope_name == b.scope_name
        },
        key_of(a, BucketKeyKind::SourceLine) == key_of(b, BucketKeyKind::SourceLine) <==> {
            &&& a.service_name == b.service_name
            &&& a.severity_number == b.severity_number
            &&& a.code_filepath == b.code_filepath
            &&& a.code_lineno == b.code_lineno
        },
        key_of(a, BucketKeyKind::ScopeAndSourceLine) == key_of(
            b,
            BucketKeyKind::ScopeAndSourceLine,
        ) <==> {
            &&& a.service_name == b.service_name
            &&& a.severity_number == b.severity_number
            &&& a.scope_name == b.scope_name
            &&& a.code_filepath == b.code_filepath
            &&& a.code_lineno == b.code_lineno
        },
{
}

} // verus!
