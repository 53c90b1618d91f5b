//! The services and severities that occur in files.
use vstd::prelude::*;

use crate::bridge::protobuf::decode_logs;
use crate::commands::view::field_filter::{CatalogModel, FieldCatalog};
use crate::dataset_index::{
    batch_services, batch_severities, record_services, record_severities, resource_severities,
    scope_severities, service_values,
};
use crate::dedup::unpack::resource_attrs_of;
use crate::otlp::{attrs_view, AttrValue, Attribute, LogsRequest, ScopeLogSet};
use crate::record::{RecordModel, RecordType, StreamRecord};
use crate::text::order::{
    law_sorting, lemma_text_le_is_transitive, lemma_text_order_is_total, sorted_by_key, text_le,
};
use crate::text::str_set::{sorted_members, with_member, StrSet};
use crate::text::strings::{str_eq, texts};

verus! {

/// Names to which others are added.
pub open spec fn gathered(names: Seq<Seq<char>>, more: Seq<Seq<char>>) -> Seq<Seq<char>>
    decreases more.len(),
{
    if more.len() == 0 {
        names
    } else {
        with_member(gathered(names, more.drop_last()), more.last())
    }
}

proof fn lemma_gathered_concat(names: Seq<Seq<char>>, a: Seq<Seq<char>>, b: Seq<Seq<char>>)
    ensures
        gathered(names, a + b) == gathered(gathered(names, a), b),
    decreases b.len(),
{
    if b.len() == 0 {
        assert(a + b =~= a);
    } else {
        lemma_gathered_concat(names, a, b.drop_last());
        assert((a + b).drop_last() =~= a + b.drop_last());
    }
}

fn gather(set: &mut StrSet, names: &Vec<String>)
    requires
        old(set).wf(),
    ensures
        final(set).wf(),
        final(set)@ == gathered(old(set)@, texts(names@)),
{
    let ghost start = set@;
    let ghost all = texts(names@);
    assert(all.take(0) =~= Seq::empty());
    for i in 0..names.len()
        invariant
            set.wf(),
            all == texts(names@),
            set@ == gathered(start, all.take(i as int)),
    {
        assert(all.take(i + 1).drop_last() =~= all.take(i as int));
        assert(all[i as int] == names@[i as int]@);
        set.insert(names[i].as_str());
    }
    assert(all.take(names@.len() as int) =~= all);
}

fn gather_services(attrs: &Vec<Attribute>, set: &mut StrSet)
    requires
        old(set).wf(),
    ensures
        final(set).wf(),
        final(set)@ == gathered(old(set)@, service_values(attrs_view(attrs@))),
{
    let ghost start = set@;
    let ghost a = attrs_view(attrs@);
    assert(a.take(0) =~= Seq::empty());
    for i in 0..attrs.len()
        invariant
            set.wf(),
            a == attrs_view(attrs@),
            set@ == gathered(start, service_values(a.take(i as int))),
    {
        assert(a.take(i + 1).drop_last() =~= a.take(i as int));
        assert(a[i as int] == attrs@[i as int]@);
        let ghost before = service_values(a.take(i as int));
        if str_eq(attrs[i].key.as_str(), "service.name") {
            if let Some(AttrValue::Str(s)) = &attrs[i].value {
                set.insert(s.as_str());
                assert(before.push(s@).drop_last() =~= before);
            }
        }
    }
    assert(a.take(attrs@.len() as int) =~= a);
}

fn gather_severities(s: &ScopeLogSet, set: &mut StrSet)
    requires
        old(set).wf(),
    ensures
        final(set).wf(),
        final(set)@ == gathered(old(set)@, scope_severities(s@)),
{
    let ghost start = set@;
    let ghost all = s@.log_records.map_values(
        |r: crate::otlp::LogRecordModel| r.severity_text,
    );
    let ghost keep = |t: Seq<char>| t.len() > 0;
    proof {
        reveal(Seq::filter);
        assert(all.take(0) =~= Seq::empty());
        assert(all.take(0).filter(keep) =~= Seq::empty());
    }
    for i in 0..s.log_records.len()
        invariant
            set.wf(),
            keep == (|t: Seq<char>| t.len() > 0),
            all == s@.log_records.map_values(|r: crate::otlp::LogRecordModel| r.severity_text),
            set@ == gathered(start, all.take(i as int).filter(keep)),
    {
        let ghost before = all.take(i as int).filter(keep);
        proof {
            reveal(Seq::filter);
            assert(all.take(i + 1).drop_last() =~= all.take(i as int));
            assert(all[i as int] == s.log_records@[i as int]@.severity_text);
            assert(before.push(all[i as int]).drop_last() =~= before);
        }
        if !s.log_records[i].severity_text.as_str().is_empty() {
            set.insert(s.log_records[i].severity_text.as_str());
        }
    }
    assert(all.take(s.log_records@.len() as int) =~= all);
}

fn gather_batch(batch: &LogsRequest, services: &mut StrSet, severities: &mut StrSet)
    requires
        old(services).wf(),
        old(severities).wf(),
    ensures
        final(services).wf(),
        final(severities).wf(),
        final(services)@ == gathered(old(services)@, batch_services(batch@.resource_logs)),
        final(severities)@ == gathered(old(severities)@, batch_severities(batch@.resource_logs)),
{
    let ghost sv = services@;
    let ghost sev = severities@;
    let ghost rls = batch@.resource_logs;
    assert(rls.take(0) =~= Seq::empty());
    for i in 0..batch.resource_logs.len()
        invariant
            services.wf(),
            severities.wf(),
            rls == batch@.resource_logs,
            services@ == gathered(sv, batch_services(rls.take(i as int))),
            severities@ == gathered(sev, batch_severities(rls.take(i as int))),
    {
        let rl = &batch.resource_logs[i];
        assert(rls.take(i + 1).drop_last() =~= rls.take(i as int));
        assert(rls[i as int] == rl@);
        let ghost bs = batch_services(rls.take(i as int));
        let ghost be = batch_severities(rls.take(i as int));
        proof {
            lemma_gathered_concat(sv, bs, service_values(resource_attrs_of(rl@.resource)));
        }
        if let Some(resource) = &rl.resource {
            gather_services(&resource.attributes, services);
        } else {
            assert(service_values(Seq::empty()) =~= Seq::empty());
            assert(bs + Seq::<Seq<char>>::empty() =~= bs);
        }
        let ghost sls = rl@.scope_logs;
        let ghost inner = severities@;
        assert(sls.take(0) =~= Seq::empty());
        for j in 0..rl.scope_logs.len()
            invariant
                severities.wf(),
                sls == rl@.scope_logs,
                severities@ == gathered(inner, resource_severities(sls.take(j as int))),
        {
            assert(sls.take(j + 1).drop_last() =~= sls.take(j as int));
            assert(sls[j as int] == rl.scope_logs@[j as int]@);
            proof {
                lemma_gathered_concat(
                    inner,
                    resource_severities(sls.take(j as int)),
                    scope_severities(sls[j as int]),
                );
            }
            gather_severities(&rl.scope_logs[j], severities);
        }
        assert(sls.take(rl.scope_logs@.len() as int) =~= sls);
        proof {
            lemma_gathered_concat(sev, be, resource_severities(sls));
        }
    }
    assert(rls.take(batch.resource_logs@.len() as int) =~= rls);
}

/// The names found so far.
#[derive(Debug)]
pub struct FoundNames {
    services: StrSet,
    severities: StrSet,
}

impl View for FoundNames {
    type V = CatalogModel;

    closed spec fn view(&self) -> CatalogModel {
        CatalogModel { services: self.services@, severities: self.severities@ }
    }
}

/// The names with those of a record.
pub open spec fn found_in(m: CatalogModel, r: RecordModel) -> CatalogModel {
    CatalogModel {
        services: gathered(m.services, record_services(r)),
        severities: gathered(m.severities, record_severities(r)),
    }
}

/// The names of two scans.
pub open spec fn found_in_both(m: CatalogModel, other: CatalogModel) -> CatalogModel {
    CatalogModel {
        services: gathered(m.services, other.services),
        severities: gathered(m.severities, other.severities),
    }
}

/// The names in ascending order.
pub open spec fn catalog_of(m: CatalogModel) -> CatalogModel {
    CatalogModel {
        services: sorted_members(m.services),
        severities: sorted_members(m.severities),
    }
}

impl FoundNames {
    /// No name occurs twice.
    pub closed spec fn wf(&self) -> bool {
        self.services.wf() && self.severities.wf()
    }

    /// No names.
    pub fn new() -> (r: Self)
        ensures
            r.wf(),
            r@ == (CatalogModel { services: Seq::empty(), severities: Seq::empty() }),
    {
        FoundNames { services: StrSet::new(), severities: StrSet::new() }
    }

    /// Adds the names of a record of a file.
    pub fn scan_record(&mut self, record: &StreamRecord)
        requires
            old(self).wf(),
        ensures
            final(self).wf(),
            final(self)@ == found_in(old(self)@, record@),
    {
        if record.record_type == RecordType::Logs {
            if let Some(batch) = decode_logs(&record.payload) {
                gather_batch(&batch, &mut self.services, &mut self.severities);
            }
        }
    }

    /// Adds the names of another file.
    pub fn merge(&mut self, other: &FoundNames)
        requires
            old(self).wf(),
        ensures
            final(self).wf(),
            final(self)@ == found_in_both(old(self)@, other@),
    {
        gather(&mut self.services, other.services.items());
        gather(&mut self.severities, other.severities.items());
    }

    /// The names in ascending order.
    pub fn finish(&self) -> (r: FieldCatalog)
        ensures
            r@ == catalog_of(self@),
    {
        FieldCatalog { services: self.services.sorted(), severities: self.severities.sorted() }
    }
}

proof fn lemma_gathered_members(names: Seq<Seq<char>>, more: Seq<Seq<char>>)
    requires
        names.no_duplicates(),
    ensures
        gathered(names, more).no_duplicates(),
        forall|x: Seq<char>| #[trigger]
            gathered(names, more).contains(x) <==> names.contains(x) || more.contains(x),
    decreases more.len(),
{
    if more.len() > 0 {
        let before = gathered(names, more.drop_last());
        let last = more.last();
        lemma_gathered_members(names, more.drop_last());
        assert forall|x: Seq<char>| #[trigger] gathered(names, more).contains(x) <==> names.contains(
            x,
        ) || more.contains(x) by {
            if more.contains(x) {
                let i = choose|i: int| 0 <= i < more.len() && more[i] == x;
                if i < more.len() - 1 {
                    assert(more.drop_last()[i] == x);
                }
            }
            if more.drop_last().contains(x) {
                let i = choose|i: int|
                    0 <= i < more.drop_last().len() && more.drop_last()[i] == x;
                assert(more[i] == x);
            }
            assert(more[more.len() - 1] == last);
            if before.contains(x) && !before.contains(last) {
                let i = choose|i: int| 0 <= i < before.len() && before[i] == x;
                assert(before.push(last)[i] == x);
            }
            assert(before.push(last)[before.len() as int] == last);
            if before.push(last).contains(x) && x != last {
                let i = choose|i: int| 0 <= i < before.len() + 1 && before.push(last)[i] == x;
                assert(before[i] == x);
            }
        }
    }
}

/// Sorting names that do not repeat gives the same list for the same names.
pub proof fn law_sorted_names_agree(a: Seq<Seq<char>>, b: Seq<Seq<char>>)
    requires
        a.no_duplicates(),
        b.no_duplicates(),
        forall|x: Seq<char>| #[trigger] a.contains(x) <==> b.contains(x),
    ensures
        sorted_members(a) == sorted_members(b),
{
    broadcast use vstd::seq_lib::group_to_multiset_ensures;

    let ea = a.map_values(|x: Seq<char>| (x, ()));
    let eb = b.map_values(|x: Seq<char>| (x, ()));
    law_sorting(ea);
    law_sorting(eb);
    let leq = |p: (Seq<char>, ()), q: (Seq<char>, ())| text_le(p.0, q.0);
    assert(vstd::relations::total_ordering(leq)) by {
        assert forall|p: (Seq<char>, ())| #[trigger] leq(p, p) by {
            lemma_text_order_is_total(p.0, p.0);
        }
        assert forall|p: (Seq<char>, ()), q: (Seq<char>, ())| #[trigger]
            leq(p, q) && #[trigger] leq(q, p) implies p == q by {
            lemma_text_order_is_total(p.0, q.0);
        }
        assert forall|p: (Seq<char>, ()), q: (Seq<char>, ()), r: (Seq<char>, ())| #[trigger]
            leq(p, q) && #[trigger] leq(q, r) implies leq(p, r) by {
            lemma_text_le_is_transitive(p.0, q.0, r.0);
        }
        assert forall|p: (Seq<char>, ()), q: (Seq<char>, ())| #[trigger] leq(p, q) || leq(q, p) by {
            lemma_text_order_is_total(p.0, q.0);
        }
    }
    assert(ea.no_duplicates());
    assert(eb.no_duplicates());
    ea.lemma_multiset_has_no_duplicates();
    eb.lemma_multiset_has_no_duplicates();
    assert(ea.to_multiset() =~= eb.to_multiset()) by {
        assert forall|p: (Seq<char>, ())| ea.contains(p) == eb.contains(p) by {
            assert(a.contains(p.0) == b.contains(p.0));
            if a.contains(p.0) {
                let i = choose|i: int| 0 <= i < a.len() && a[i] == p.0;
                let j = choose|j: int| 0 <= j < b.len() && b[j] == p.0;
                assert(ea[i] == p && eb[j] == p);
            } else {
                assert forall|i: int| 0 <= i < ea.len() implies ea[i] != p by {
                    assert(ea[i].0 == a[i]);
                }
                assert forall|i: int| 0 <= i < eb.len() implies eb[i] != p by {
                    assert(eb[i].0 == b[i]);
                }
            }
        }
        assert forall|p: (Seq<char>, ())| #[trigger]
            ea.to_multiset().count(p) == eb.to_multiset().count(p) by {
            assert(ea.contains(p) == eb.contains(p));
            assert(ea.to_multiset().contains(p) == eb.to_multiset().contains(p));
        }
    }
    vstd::seq_lib::lemma_sorted_unique(sorted_by_key(ea), sorted_by_key(eb), leq);
}

/// The catalogue of two files is the same in whichever order they are scanned.
pub proof fn law_catalog_ignores_file_order(a: CatalogModel, b: CatalogModel)
    requires
        a.services.no_duplicates(),
        a.severities.no_duplicates(),
        b.services.no_duplicates(),
        b.severities.no_duplicates(),
    ensures
        catalog_of(found_in_both(a, b)) == catalog_of(found_in_both(b, a)),
{
    lemma_gathered_members(a.services, b.services);
    lemma_gathered_members(b.services, a.services);
    lemma_gathered_members(a.severities, b.severities);
    lemma_gathered_members(b.severities, a.severities);
    law_sorted_names_agree(gathered(a.services, b.services), gathered(b.services, a.services));
    law_sorted_names_agree(
        gathered(a.severities, b.severities),
        gathered(b.severities, a.severities),
    );
}

} // verus!
