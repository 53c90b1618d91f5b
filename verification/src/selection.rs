//! What predicates select.
use vstd::prelude::*;

use crate::bridge::patterns::{bytes_regex_found, regex_escaped};
use crate::bridge::protobuf::logs_of;
use crate::error::ErrorModel;
use crate::otlp::{AnyModel, KvModel};
use crate::predicate::{
    asked_predicate, named_service, passes_predicate, payload_allowed, predicate_matches, query_of,
    selected, FilterMode, FilterModel, PredicateArgs, PredicateModel, QueryModel, RecordKind,
};
use crate::record::{RecordModel, RecordType};
use crate::text::seqs::{lemma_first_index, trim};
use crate::text::strings::texts;

verus! {

/// A record is of the type that is asked for.
pub open spec fn is_of_kind(r: RecordModel, k: RecordKind) -> bool {
    &&& k == RecordKind::Logs ==> r.record_type == RecordType::Logs
    &&& k == RecordKind::Metrics ==> r.record_type == RecordType::Metrics
    &&& k == RecordKind::Traces ==> r.record_type == RecordType::Traces
}

/// A record satisfies a predicate exactly where it is of the type that is asked
/// for, lies in the ranges that are asked for, and its payload holds every
/// pattern and every literal text that is asked for.
pub proof fn law_predicate_asks_for(a: PredicateArgs, r: RecordModel)
    ensures
        predicate_matches(asked_predicate(a), r) <==> {
            &&& a.record_type is Some ==> is_of_kind(r, a.record_type->0)
            &&& a.seq_min is Some ==> r.seq >= a.seq_min->0
            &&& a.seq_max is Some ==> r.seq <= a.seq_max->0
            &&& a.ts_min is Some ==> r.ts_unix_ns >= a.ts_min->0
            &&& a.ts_max is Some ==> r.ts_unix_ns <= a.ts_max->0
            &&& forall|i: int|
                0 <= i < a.grep@.len() ==> bytes_regex_found(
                    (#[trigger] a.grep@[i])@,
                    a.ignore_case,
                    r.payload,
                )
            &&& forall|i: int|
                0 <= i < a.fixed_string@.len() ==> bytes_regex_found(
                    regex_escaped((#[trigger] a.fixed_string@[i])@),
                    a.ignore_case,
                    r.payload,
                )
        },
{
    let m = asked_predicate(a).matchers;
    let n = a.grep@.len() as int;
    assert forall|i: int| 0 <= i < a.grep@.len() implies m[i].source == (#[trigger] a.grep@[i])@
        && m[i].ignore_case == a.ignore_case by {
        assert(texts(a.grep@)[i] == a.grep@[i]@);
    }
    assert forall|i: int| 0 <= i < a.fixed_string@.len() implies m[n + i].source == regex_escaped(
        (#[trigger] a.fixed_string@[i])@,
    ) && m[n + i].ignore_case == a.ignore_case by {
        assert(texts(a.fixed_string@)[i] == a.fixed_string@[i]@);
    }
    assert(m.len() == n + a.fixed_string@.len());
    if predicate_matches(asked_predicate(a), r) {
        assert forall|i: int| 0 <= i < a.grep@.len() implies bytes_regex_found(
            (#[trigger] a.grep@[i])@,
            a.ignore_case,
            r.payload,
        ) by {
            assert(bytes_regex_found(m[i].source, m[i].ignore_case, r.payload));
        }
        assert forall|i: int| 0 <= i < a.fixed_string@.len() implies bytes_regex_found(
            regex_escaped((#[trigger] a.fixed_string@[i])@),
            a.ignore_case,
            r.payload,
        ) by {
            assert(bytes_regex_found(m[n + i].source, m[n + i].ignore_case, r.payload));
        }
    }
    if (forall|i: int|
        0 <= i < a.grep@.len() ==> bytes_regex_found(
            (#[trigger] a.grep@[i])@,
            a.ignore_case,
            r.payload,
        )) && (forall|i: int|
        0 <= i < a.fixed_string@.len() ==> bytes_regex_found(
            regex_escaped((#[trigger] a.fixed_string@[i])@),
            a.ignore_case,
            r.payload,
        )) {
        assert forall|i: int| 0 <= i < m.len() implies bytes_regex_found(
            (#[trigger] m[i]).source,
            m[i].ignore_case,
            r.payload,
        ) by {
            if i < n {
                assert(a.grep@[i]@ == m[i].source);
            } else {
                assert(a.fixed_string@[i - n]@ == a.fixed_string@[i - n]@);
            }
        }
    }
}

/// Asking for one record type and nothing else selects exactly the records of
/// that type.
pub proof fn law_kind_selects_its_type(a: PredicateArgs, r: RecordModel)
    requires
        a.seq_min is None && a.seq_max is None && a.ts_min is None && a.ts_max is None,
        a.grep@.len() == 0,
        a.fixed_string@.len() == 0,
    ensures
        a.record_type == Some(RecordKind::Logs) ==> (predicate_matches(asked_predicate(a), r)
            <==> r.record_type == RecordType::Logs),
        a.record_type == Some(RecordKind::Metrics) ==> (predicate_matches(asked_predicate(a), r)
            <==> r.record_type == RecordType::Metrics),
        a.record_type == Some(RecordKind::Traces) ==> (predicate_matches(asked_predicate(a), r)
            <==> r.record_type == RecordType::Traces),
        a.record_type is None ==> predicate_matches(asked_predicate(a), r),
{
    law_predicate_asks_for(a, r);
}

/// No record is of two types that can be asked for.
pub proof fn law_kinds_exclude_each_other(a: PredicateArgs, b: PredicateArgs, r: RecordModel)
    requires
        a.record_type is Some && b.record_type is Some,
        a.record_type != b.record_type,
    ensures
        !(predicate_matches(asked_predicate(a), r) && predicate_matches(asked_predicate(b), r)),
{
    law_predicate_asks_for(a, r);
    law_predicate_asks_for(b, r);
}

/// Two predicates differ at most in their bounds on sequence numbers and times.
pub open spec fn same_but_bounds(a: PredicateArgs, b: PredicateArgs) -> bool {
    &&& a.record_type == b.record_type
    &&& a.grep@ == b.grep@
    &&& a.fixed_string@ == b.fixed_string@
    &&& a.ignore_case == b.ignore_case
}

/// A range of sequence numbers that is cut in two selects every record in
/// exactly one of its halves.
pub proof fn law_sequence_ranges_can_be_cut(
    whole: PredicateArgs,
    low: PredicateArgs,
    high: PredicateArgs,
    at: u64,
    r: RecordModel,
)
    requires
        same_but_bounds(whole, low) && same_but_bounds(whole, high),
        whole.seq_min is None && whole.seq_max is None,
        low.seq_min is None && low.seq_max == Some(at),
        high.seq_min is Some && high.seq_min->0 == at + 1 && high.seq_max is None,
        whole.ts_min == low.ts_min && whole.ts_min == high.ts_min,
        whole.ts_max == low.ts_max && whole.ts_max == high.ts_max,
    ensures
        ({
            let l = predicate_matches(asked_predicate(low), r);
            let h = predicate_matches(asked_predicate(high), r);
            &&& predicate_matches(asked_predicate(whole), r) <==> l || h
            &&& !(l && h)
        }),
{
    law_predicate_asks_for(whole, r);
    law_predicate_asks_for(low, r);
    law_predicate_asks_for(high, r);
}

/// A range of times that is cut in two selects every record in exactly one of
/// its halves.
pub proof fn law_time_ranges_can_be_cut(
    whole: PredicateArgs,
    low: PredicateArgs,
    high: PredicateArgs,
    at: u64,
    r: RecordModel,
)
    requires
        same_but_bounds(whole, low) && same_but_bounds(whole, high),
        whole.ts_min is None && whole.ts_max is None,
        low.ts_min is None && low.ts_max == Some(at),
        high.ts_min is Some && high.ts_min->0 == at + 1 && high.ts_max is None,
        whole.seq_min == low.seq_min && whole.seq_min == high.seq_min,
        whole.seq_max == low.seq_max && whole.seq_max == high.seq_max,
    ensures
        ({
            let l = predicate_matches(asked_predicate(low), r);
            let h = predicate_matches(asked_predicate(high), r);
            &&& predicate_matches(asked_predicate(whole), r) <==> l || h
            &&& !(l && h)
        }),
{
    law_predicate_asks_for(whole, r);
    law_predicate_asks_for(low, r);
    law_predicate_asks_for(high, r);
}

/// Filtering keeps a record exactly where it satisfies the predicate.
pub proof fn law_filtering_decides_each_record(r: RecordModel, p: PredicateModel)
    ensures
        selected(seq![r], p) == if predicate_matches(p, r) {
            seq![r]
        } else {
            Seq::empty()
        },
{
    reveal(Seq::filter);
    let s = seq![r];
    assert(s.drop_last() =~= Seq::empty());
    assert(selected(s.drop_last(), p) =~= Seq::empty());
    assert(passes_predicate(p)(r) == predicate_matches(p, r));
    assert(selected(s, p) =~= if predicate_matches(p, r) {
        seq![r]
    } else {
        Seq::empty()
    });
}

/// What is kept was there and satisfies the predicate; what satisfies it and
/// was there is kept.
pub proof fn law_filtering_keeps_what_matches(records: Seq<RecordModel>, p: PredicateModel, r: RecordModel)
    ensures
        selected(records, p).contains(r) <==> records.contains(r) && predicate_matches(p, r),
    decreases records.len(),
{
    reveal(Seq::filter);
    if records.len() > 0 {
        let init = records.drop_last();
        let last = records.last();
        let before = selected(init, p);
        let now = selected(records, p);
        law_filtering_keeps_what_matches(init, p, r);
        if records.contains(r) {
            let i = choose|i: int| 0 <= i < records.len() && records[i] == r;
            if i < init.len() {
                assert(init[i] == r);
            }
        }
        if init.contains(r) {
            let i = choose|i: int| 0 <= i < init.len() && init[i] == r;
            assert(records[i] == r);
        }
        assert(records[records.len() - 1] == last);
        if before.contains(r) {
            let i = choose|i: int| 0 <= i < before.len() && before[i] == r;
            assert(now[i] == r);
        }
        if now.contains(r) {
            let i = choose|i: int| 0 <= i < now.len() && now[i] == r;
            if i < before.len() {
                assert(before[i] == r);
            }
        }
        if predicate_matches(p, last) {
            assert(now[before.len() as int] == last);
        }
    }
}

/// The service that decides is the first `service.name` among the attributes
/// of a resource, and only if it is a text.
pub proof fn law_first_service_name_decides(a: Seq<KvModel>, i: int)
    requires
        0 <= i < a.len(),
        a[i].key == "service.name"@,
        forall|j: int| 0 <= j < i ==> (#[trigger] a[j]).key != "service.name"@,
    ensures
        named_service(a) == match a[i].value {
            Some(AnyModel::Str(s)) => Some(s),
            _ => None,
        },
{
    let keys = crate::dedup::unpack::attr_keys(a);
    assert forall|j: int| 0 <= j < i implies keys[j] != "service.name"@ by {
        assert(a[j].key != "service.name"@);
    }
    assert(keys[i] == a[i].key);
    lemma_first_index(keys, "service.name"@, i);
}

/// A resource without the attribute names no service.
pub proof fn law_no_service_is_made_up(a: Seq<KvModel>)
    requires
        forall|j: int| 0 <= j < a.len() ==> (#[trigger] a[j]).key != "service.name"@,
    ensures
        named_service(a) is None,
{
    let keys = crate::dedup::unpack::attr_keys(a);
    assert forall|j: int| 0 <= j < a.len() implies keys[j] != "service.name"@ by {
        assert(a[j].key != "service.name"@);
    }
    lemma_first_index(keys, "service.name"@, a.len() as int);
}

/// A payload that passes a filter of severities and services holds no log
/// record of another severity and no resource that names another service; a
/// payload that is no log batch passes every filter.
pub proof fn law_field_filters_leave_nothing_else(f: FilterModel, payload: Seq<u8>)
    ensures
        logs_of(payload) is None ==> payload_allowed(f, payload),
        f.severities is None && f.services is None ==> payload_allowed(f, payload),
        logs_of(payload) is Some && payload_allowed(f, payload) && f.severities is Some ==> forall|
            i: int,
            j: int,
            k: int,
        |
            0 <= i < logs_of(payload)->0.resource_logs.len() && 0 <= j
                < logs_of(payload)->0.resource_logs[i].scope_logs.len() && 0 <= k
                < logs_of(payload)->0.resource_logs[i].scope_logs[j].log_records.len()
                ==> f.severities->0.contains(
                (#[trigger] logs_of(
                    payload,
                )->0.resource_logs[i].scope_logs[j].log_records[k]).severity_text,
            ),
        logs_of(payload) is Some && payload_allowed(f, payload) && f.services is Some ==> forall|
            i: int,
        |
            0 <= i < logs_of(payload)->0.resource_logs.len() && (
            #[trigger] logs_of(payload)->0.resource_logs[i]).resource is Some && named_service(
                logs_of(payload)->0.resource_logs[i].resource->0.attributes,
            ) is Some ==> f.services->0.contains(
                named_service(logs_of(payload)->0.resource_logs[i].resource->0.attributes)->0,
            ),
{
    if logs_of(payload) is Some && payload_allowed(f, payload) {
        let r = logs_of(payload)->0.resource_logs;
        if f.severities is Some {
            assert forall|i: int, j: int, k: int|
                0 <= i < r.len() && 0 <= j < r[i].scope_logs.len() && 0 <= k
                    < r[i].scope_logs[j].log_records.len() implies f.severities->0.contains(
                (#[trigger] r[i].scope_logs[j].log_records[k]).severity_text,
            ) by {
                assert(crate::predicate::resource_allowed(f, r[i]));
                assert(crate::predicate::severities_allowed(f, r[i].scope_logs[j]));
            }
        }
        if f.services is Some {
            assert forall|i: int|
                0 <= i < r.len() && (#[trigger] r[i]).resource is Some && named_service(
                    r[i].resource->0.attributes,
                ) is Some implies f.services->0.contains(
                named_service(r[i].resource->0.attributes)->0,
            ) by {
                assert(crate::predicate::resource_allowed(f, r[i]));
            }
        }
    }
}

/// A wider filter lets pass whatever a narrower one does.
pub proof fn law_wider_filters_let_more_pass(narrow: FilterModel, wide: FilterModel, payload: Seq<u8>)
    requires
        wide.severities is Some ==> narrow.severities is Some && forall|x: Seq<char>|
            narrow.severities->0.contains(x) ==> #[trigger] wide.severities->0.contains(x),
        wide.services is Some ==> narrow.services is Some && forall|x: Seq<char>|
            narrow.services->0.contains(x) ==> #[trigger] wide.services->0.contains(x),
        payload_allowed(narrow, payload),
    ensures
        payload_allowed(wide, payload),
{
    if logs_of(payload) is Some && (wide.severities is Some || wide.services is Some) {
        let r = logs_of(payload)->0.resource_logs;
        assert forall|i: int| 0 <= i < r.len() implies crate::predicate::resource_allowed(
            wide,
            #[trigger] r[i],
        ) by {
            assert(crate::predicate::resource_allowed(narrow, r[i]));
            assert forall|j: int|
                0 <= j < r[i].scope_logs.len() implies crate::predicate::severities_allowed(
                wide,
                #[trigger] r[i].scope_logs[j],
            ) by {
                assert(crate::predicate::severities_allowed(narrow, r[i].scope_logs[j]));
            }
        }
    }
}

/// A typed filter that is blank asks for everything. One that does not start
/// with a hyphen is searched for as it is, without the blanks around it: as a
/// text or as a pattern, as the mode says. One that does is read as options,
/// and refused where its quotes do not close.
pub proof fn law_typed_filters(query: Seq<char>, argv: Option<Seq<Seq<char>>>)
    ensures
        ({
            let t = trim(query);
            &&& t.len() == 0 ==> query_of(query, FilterMode::Strings, argv) == Ok::<
                QueryModel,
                ErrorModel,
            >(QueryModel::All) && query_of(query, FilterMode::Regex, argv) == Ok::<
                QueryModel,
                ErrorModel,
            >(QueryModel::All)
            &&& t.len() > 0 && t[0] != '-' ==> query_of(query, FilterMode::Strings, argv) == Ok::<
                QueryModel,
                ErrorModel,
            >(QueryModel::Text(t)) && query_of(query, FilterMode::Regex, argv) == Ok::<
                QueryModel,
                ErrorModel,
            >(QueryModel::Pattern(t))
            &&& t.len() > 0 && t[0] == '-' && argv is Some ==> query_of(
                query,
                FilterMode::Strings,
                argv,
            ) == Ok::<QueryModel, ErrorModel>(QueryModel::Options(argv->0)) && query_of(
                query,
                FilterMode::Regex,
                argv,
            ) == query_of(query, FilterMode::Strings, argv)
            &&& t.len() > 0 && t[0] == '-' && argv is None ==> query_of(
                query,
                FilterMode::Strings,
                argv,
            ) is Err && query_of(query, FilterMode::Regex, argv) is Err
        }),
{
}

} // verus!
