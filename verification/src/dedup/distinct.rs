//! Distinct runs look at bodies only.
use vstd::prelude::*;
use vstd::utf8::encode_utf8;

use crate::bridge::hashing::xxh3;
use crate::dedup::bucket::{bucket_keys, bucketed};
use crate::dedup::canon::{annotated, canon_body, canon_groups, law_canon_groups_differ};
use crate::dedup::drain3::DrainModel;
use crate::dedup::exact::{add_record, bucket_groups, exact_groups};
use crate::dedup::flat_record::{key_of, BucketKeyKind, FlatModel, KeyModel};
use crate::dedup::guarantees::{
    all_sound, body_signature, count_with, follows_body, is_sound,
    law_canon_groups_hold_their_records, law_equal_bodies_share_a_group,
    law_exact_groups_hold_their_records, lemma_sound_canon, lemma_sound_exact, records_with,
    shape_signature,
};
use crate::dedup::residuals::{
    bucket_residuals, cluster_groups, drained, group_bucket_keys, group_buckets, is_merged,
    is_residual, lemma_members_range, lemma_mined, members, merged_at, mined, residual_groups,
};
use crate::dedup::{
    dedup_groups, identities, lemma_first_index_hit, lemma_groups_bounded, total_count,
    DedupMatchMode, DedupMode, GroupModel, OptsModel,
};
use crate::text::seqs::{first_index, lemma_lies_in, lemma_same_multiset};

verus! {

/// Two groups agree in all but their times, exemplars and the fields of their
/// representatives beside the body.
spec fn alike(g: GroupModel, h: GroupModel) -> bool {
    &&& g.bucket_key == h.bucket_key
    &&& g.signature == h.signature
    &&& g.count == h.count
    &&& g.representative.body == h.representative.body
    &&& g.canonical_body == h.canonical_body
}

spec fn all_alike(a: Seq<GroupModel>, b: Seq<GroupModel>) -> bool {
    a.len() == b.len() && forall|i: int| 0 <= i < a.len() ==> alike(#[trigger] a[i], b[i])
}

/// The signature and the count of each group.
pub open spec fn tallies(groups: Seq<GroupModel>) -> Seq<(u64, u64)> {
    groups.map_values(|g: GroupModel| (g.signature, g.count))
}

/// The bodies of records.
pub open spec fn bodies(records: Seq<FlatModel>) -> Seq<Seq<char>> {
    records.map_values(|r: FlatModel| r.body)
}

/// The one key of a global bucket.
spec fn global_key() -> KeyModel {
    KeyModel {
        service_name: Seq::empty(),
        severity_number: 0,
        scope_name: None,
        code_filepath: None,
        code_lineno: None,
    }
}

/// All groups lie in the global bucket.
spec fn all_global(groups: Seq<GroupModel>) -> bool {
    forall|i: int| 0 <= i < groups.len() ==> (#[trigger] groups[i]).bucket_key == global_key()
}

proof fn lemma_global_bucket(records: Seq<FlatModel>)
    ensures
        bucketed(records, BucketKeyKind::Global) == if records.len() == 0 {
            Seq::empty()
        } else {
            seq![(global_key(), records)]
        },
    decreases records.len(),
{
    if records.len() > 0 {
        let init = records.drop_last();
        let before = bucketed(init, BucketKeyKind::Global);
        lemma_global_bucket(init);
        lemma_first_index_hit(bucket_keys(before), global_key());
        assert(key_of(records.last(), BucketKeyKind::Global) == global_key());
        if init.len() > 0 {
            assert(bucket_keys(before)[0] == global_key());
            assert(init.push(records.last()) =~= records);
            assert(bucketed(records, BucketKeyKind::Global) =~= seq![(global_key(), records)]);
        } else {
            assert(seq![records.last()] =~= records);
            assert(bucketed(records, BucketKeyKind::Global) =~= seq![(global_key(), records)]);
        }
    }
}

proof fn lemma_exact_global(records: Seq<FlatModel>)
    ensures
        exact_groups(bucketed(records, BucketKeyKind::Global)) == bucket_groups(
            global_key(),
            records,
        ),
{
    lemma_global_bucket(records);
    if records.len() > 0 {
        let b = seq![(global_key(), records)];
        assert(b.drop_last() =~= Seq::empty());
        assert(exact_groups(b.drop_last()) =~= Seq::empty());
        assert(exact_groups(b) =~= bucket_groups(global_key(), records));
    }
}

proof fn lemma_alike_identities(a: Seq<GroupModel>, b: Seq<GroupModel>)
    requires
        all_alike(a, b),
    ensures
        identities(a) == identities(b),
        tallies(a) == tallies(b),
{
    assert forall|i: int| 0 <= i < a.len() implies identities(a)[i] == identities(b)[i]
        && tallies(a)[i] == tallies(b)[i] by {
        assert(alike(a[i], b[i]));
    }
    assert(identities(a) =~= identities(b));
    assert(tallies(a) =~= tallies(b));
}

proof fn lemma_alike_buckets(key: KeyModel, a: Seq<FlatModel>, b: Seq<FlatModel>)
    requires
        bodies(a) == bodies(b),
    ensures
        all_alike(bucket_groups(key, a), bucket_groups(key, b)),
    decreases a.len(),
{
    assert(bodies(a).len() == a.len());
    assert(bodies(b).len() == b.len());
    if a.len() > 0 {
        let ia = a.drop_last();
        let ib = b.drop_last();
        assert(bodies(ia) =~= bodies(a).drop_last());
        assert(bodies(ib) =~= bodies(b).drop_last());
        assert(a.last().body == bodies(a).last());
        assert(b.last().body == bodies(b).last());
        lemma_alike_buckets(key, ia, ib);
        let ga = bucket_groups(key, ia);
        let gb = bucket_groups(key, ib);
        let h = xxh3(encode_utf8(a.last().body));
        lemma_alike_identities(ga, gb);
        lemma_first_index_hit(identities(ga), (key, h));
        let i = first_index(identities(ga), (key, h));
        assert(b.last().body == a.last().body);
        assert(bucket_groups(key, a) == add_record(ga, key, h, a.last()));
        assert(bucket_groups(key, b) == add_record(gb, key, h, b.last()));
        assert forall|j: int| 0 <= j < bucket_groups(key, a).len() implies alike(
            #[trigger] bucket_groups(key, a)[j],
            bucket_groups(key, b)[j],
        ) by {
            if j < ga.len() {
                assert(alike(ga[j], gb[j]));
            }
        }
    }
}

proof fn lemma_alike_canon(a: Seq<GroupModel>, b: Seq<GroupModel>)
    requires
        all_alike(a, b),
    ensures
        all_alike(canon_groups(a), canon_groups(b)),
    decreases a.len(),
{
    if a.len() > 0 {
        let ia = a.drop_last();
        let ib = b.drop_last();
        assert forall|i: int| 0 <= i < ia.len() implies alike(#[trigger] ia[i], ib[i]) by {
            assert(alike(a[i], b[i]));
        }
        lemma_alike_canon(ia, ib);
        assert(alike(a[a.len() - 1], b[b.len() - 1]));
        let ga = canon_groups(ia);
        let gb = canon_groups(ib);
        let x = annotated(a.last());
        lemma_alike_identities(ga, gb);
        lemma_first_index_hit(identities(ga), (x.bucket_key, x.signature));
        let i = first_index(identities(ga), (x.bucket_key, x.signature));
        if i < ga.len() {
            assert(alike(ga[i], gb[i]));
        }
    }
}

proof fn lemma_alike_total(a: Seq<GroupModel>, b: Seq<GroupModel>)
    requires
        all_alike(a, b),
    ensures
        total_count(a) == total_count(b),
    decreases a.len(),
{
    if a.len() > 0 {
        let ia = a.drop_last();
        let ib = b.drop_last();
        assert forall|i: int| 0 <= i < ia.len() implies alike(#[trigger] ia[i], ib[i]) by {
            assert(alike(a[i], b[i]));
        }
        assert(alike(a[a.len() - 1], b[b.len() - 1]));
        lemma_alike_total(ia, ib);
    }
}

proof fn lemma_alike_filters(a: Seq<GroupModel>, b: Seq<GroupModel>)
    requires
        all_alike(a, b),
    ensures
        all_alike(a.filter(is_merged()), b.filter(is_merged())),
        all_alike(a.filter(is_residual()), b.filter(is_residual())),
    decreases a.len(),
{
    reveal(Seq::filter);
    if a.len() > 0 {
        let ia = a.drop_last();
        let ib = b.drop_last();
        assert forall|i: int| 0 <= i < ia.len() implies alike(#[trigger] ia[i], ib[i]) by {
            assert(alike(a[i], b[i]));
        }
        assert(alike(a[a.len() - 1], b[b.len() - 1]));
        lemma_alike_filters(ia, ib);
    }
}

proof fn lemma_alike_mined(m: DrainModel, a: Seq<GroupModel>, b: Seq<GroupModel>)
    requires
        all_alike(a, b),
    ensures
        mined(m, a) == mined(m, b),
        mined(m, a).1.len() == a.len(),
    decreases a.len(),
{
    if a.len() > 0 {
        let ia = a.drop_last();
        let ib = b.drop_last();
        assert forall|i: int| 0 <= i < ia.len() implies alike(#[trigger] ia[i], ib[i]) by {
            assert(alike(a[i], b[i]));
        }
        assert(alike(a[a.len() - 1], b[b.len() - 1]));
        lemma_alike_mined(m, ia, ib);
    }
}

proof fn lemma_alike_mergers(a: Seq<GroupModel>, b: Seq<GroupModel>, indices: Seq<int>)
    requires
        all_alike(a, b),
        indices.len() >= 1,
        forall|i: int| 0 <= i < indices.len() ==> 0 <= #[trigger] indices[i] < a.len(),
    ensures
        alike(merged_at(a, indices), merged_at(b, indices)),
    decreases indices.len(),
{
    if indices.len() == 1 {
        assert(alike(a[indices[0]], b[indices[0]]));
    } else {
        let init = indices.drop_last();
        assert forall|i: int| 0 <= i < init.len() implies 0 <= #[trigger] init[i] < a.len() by {
            assert(0 <= indices[i] < a.len());
        }
        lemma_alike_mergers(a, b, init);
        assert(alike(a[indices[indices.len() - 1]], b[indices[indices.len() - 1]]));
    }
}

proof fn lemma_alike_clusters(
    a: Seq<GroupModel>,
    b: Seq<GroupModel>,
    m: DrainModel,
    ids: Seq<i64>,
    k: int,
)
    requires
        all_alike(a, b),
        ids.len() == a.len(),
        forall|c: int| 1 <= c <= k ==> (#[trigger] members(ids, c)).len() >= 1,
    ensures
        all_alike(cluster_groups(a, m, ids, k), cluster_groups(b, m, ids, k)),
    decreases k,
{
    if k > 0 {
        lemma_alike_clusters(a, b, m, ids, k - 1);
        assert(members(ids, k).len() >= 1);
        lemma_members_range(ids, k);
        lemma_alike_mergers(a, b, members(ids, k));
    }
}

proof fn lemma_alike_residuals(a: Seq<GroupModel>, b: Seq<GroupModel>, m: DrainModel)
    requires
        all_alike(a, b),
        a.len() + 1 < i64::MAX,
        crate::dedup::drain3::drain_ok(m),
        m.clusters.len() == 0,
    ensures
        all_alike(bucket_residuals(a, m), bucket_residuals(b, m)),
{
    lemma_alike_filters(a, b);
    lemma_alike_total(a, b);
    let ra = a.filter(is_residual());
    let rb = b.filter(is_residual());
    a.lemma_filter_len(is_residual());
    if ra.len() >= 2 && total_count(a) != 0 {
        lemma_alike_mined(m, ra, rb);
        lemma_mined(m, ra);
        let (after, ids) = mined(m, ra);
        lemma_alike_clusters(ra, rb, after, ids, after.clusters.len() as int);
        assert(drained(ra, m) == cluster_groups(ra, after, ids, after.clusters.len() as int));
    }
}

proof fn lemma_global_buckets(groups: Seq<GroupModel>)
    requires
        all_global(groups),
    ensures
        group_buckets(groups) == if groups.len() == 0 {
            Seq::empty()
        } else {
            seq![(global_key(), groups)]
        },
    decreases groups.len(),
{
    if groups.len() > 0 {
        let init = groups.drop_last();
        let before = group_buckets(init);
        assert forall|i: int| 0 <= i < init.len() implies (#[trigger] init[i]).bucket_key
            == global_key() by {
            assert(groups[i].bucket_key == global_key());
        }
        assert(groups[groups.len() - 1].bucket_key == global_key());
        lemma_global_buckets(init);
        lemma_first_index_hit(group_bucket_keys(before), global_key());
        if init.len() > 0 {
            assert(group_bucket_keys(before)[0] == global_key());
            assert(init.push(groups.last()) =~= groups);
        } else {
            assert(seq![groups.last()] =~= groups);
        }
        assert(group_buckets(groups) =~= seq![(global_key(), groups)]);
    }
}

proof fn lemma_global_groups(records: Seq<FlatModel>)
    ensures
        all_global(bucket_groups(global_key(), records)),
    decreases records.len(),
{
    if records.len() > 0 {
        let before = bucket_groups(global_key(), records.drop_last());
        let h = xxh3(encode_utf8(records.last().body));
        lemma_global_groups(records.drop_last());
        lemma_first_index_hit(identities(before), (global_key(), h));
    }
}

proof fn lemma_global_canon(groups: Seq<GroupModel>)
    requires
        all_global(groups),
    ensures
        all_global(canon_groups(groups)),
    decreases groups.len(),
{
    if groups.len() > 0 {
        let init = groups.drop_last();
        let before = canon_groups(init);
        let g = annotated(groups.last());
        assert forall|i: int| 0 <= i < init.len() implies (#[trigger] init[i]).bucket_key
            == global_key() by {
            assert(groups[i].bucket_key == global_key());
        }
        assert(groups[groups.len() - 1].bucket_key == global_key());
        lemma_global_canon(init);
        lemma_first_index_hit(identities(before), (g.bucket_key, g.signature));
    }
}

/// A distinct run looks at bodies only: records with the same bodies give the
/// same signatures with the same counts, in the same order, whatever their
/// services, severities and other fields are.
pub proof fn law_distinct_looks_at_bodies_only(
    a: Seq<FlatModel>,
    b: Seq<FlatModel>,
    opts: OptsModel,
)
    requires
        a.len() + 1 < i64::MAX,
        bodies(a) == bodies(b),
        opts.mode == DedupMode::Distinct,
        crate::dedup::drain3::drain_ok(opts.miner),
        opts.miner.clusters.len() == 0,
    ensures
        tallies(dedup_groups(a, opts)) == tallies(dedup_groups(b, opts)),
        total_count(dedup_groups(a, opts)) == total_count(dedup_groups(b, opts)),
        dedup_groups(a, opts).len() == dedup_groups(b, opts).len(),
{
    assert(bodies(a).len() == a.len() && bodies(b).len() == b.len());
    lemma_exact_global(a);
    lemma_exact_global(b);
    let ea = bucket_groups(global_key(), a);
    let eb = bucket_groups(global_key(), b);
    lemma_alike_buckets(global_key(), a, b);
    lemma_alike_canon(ea, eb);
    if opts.match_mode == DedupMatchMode::Full {
        let ca = canon_groups(ea);
        let cb = canon_groups(eb);
        lemma_global_groups(a);
        lemma_global_groups(b);
        lemma_global_canon(ea);
        lemma_global_canon(eb);
        lemma_global_buckets(ca);
        lemma_global_buckets(cb);
        lemma_groups_bounded(a);
        if ca.len() > 0 {
            lemma_alike_residuals(ca, cb, opts.miner);
            let ba = seq![(global_key(), ca)];
            let bb = seq![(global_key(), cb)];
            assert(ba.drop_last() =~= Seq::empty());
            assert(bb.drop_last() =~= Seq::empty());
            assert(residual_groups(ba.drop_last(), opts.miner) =~= Seq::empty());
            assert(residual_groups(ba, opts.miner) =~= bucket_residuals(ca, opts.miner));
            assert(residual_groups(bb, opts.miner) =~= bucket_residuals(cb, opts.miner));
        }
    }
    lemma_alike_identities(dedup_groups(a, opts), dedup_groups(b, opts));
    lemma_alike_total(dedup_groups(a, opts), dedup_groups(b, opts));
}

/// A distinct run that mines no templates has no signature twice.
pub proof fn law_distinct_signatures_differ(records: Seq<FlatModel>, opts: OptsModel, i: int, j: int)
    requires
        records.len() <= u64::MAX,
        opts.mode == DedupMode::Distinct,
        opts.match_mode != DedupMatchMode::Full,
        0 <= i < j < dedup_groups(records, opts).len(),
    ensures
        dedup_groups(records, opts)[i].signature != dedup_groups(records, opts)[j].signature,
{
    let groups = dedup_groups(records, opts);
    lemma_distinct_groups(records, opts);
    assert(identities(groups)[i] != identities(groups)[j]);
    assert(groups[i].bucket_key == groups[j].bucket_key);
}

/// How many records have a signature that depends on the body alone.
proof fn lemma_records_by_body(
    records: Seq<FlatModel>,
    sign: spec_fn(FlatModel) -> u64,
    of_body: spec_fn(Seq<char>) -> u64,
    signature: u64,
)
    requires
        forall|r: FlatModel| #[trigger] sign(r) == of_body(r.body),
    ensures
        records_with(records, BucketKeyKind::Global, sign, global_key(), signature) == bodies(
            records,
        ).to_multiset().filter(|x: Seq<char>| of_body(x) == signature).len(),
    decreases records.len(),
{
    broadcast use vstd::seq_lib::group_to_multiset_ensures;
    broadcast use vstd::multiset::group_multiset_axioms;

    let p = |x: Seq<char>| of_body(x) == signature;
    let all = bodies(records).to_multiset();
    if records.len() > 0 {
        let init = records.drop_last();
        let rec = records.last();
        let before = bodies(init).to_multiset();
        lemma_records_by_body(init, sign, of_body, signature);
        assert(bodies(init).push(rec.body) =~= bodies(records));
        assert(all =~= before.insert(rec.body));
        assert(key_of(rec, BucketKeyKind::Global) == global_key());
        assert(sign(rec) == of_body(rec.body));
        if p(rec.body) {
            assert(all.filter(p) =~= before.filter(p).insert(rec.body));
        } else {
            assert(all.filter(p) =~= before.filter(p));
        }
    } else {
        assert(all.filter(p) =~= vstd::multiset::Multiset::empty());
    }
}

/// What groups with a key and a signature stand for, where no two share them.
proof fn lemma_count_of_one(groups: Seq<GroupModel>, key: KeyModel, signature: u64)
    requires
        identities(groups).no_duplicates(),
    ensures
        forall|i: int|
            0 <= i < groups.len() && (#[trigger] groups[i]).bucket_key == key
                && groups[i].signature == signature ==> count_with(groups, key, signature)
                == groups[i].count,
        count_with(groups, key, signature) > 0 ==> exists|i: int|
            0 <= i < groups.len() && (#[trigger] groups[i]).bucket_key == key
                && groups[i].signature == signature,
    decreases groups.len(),
{
    if groups.len() > 0 {
        let init = groups.drop_last();
        let n = groups.len() - 1;
        assert(identities(init) =~= identities(groups).drop_last());
        lemma_count_of_one(init, key, signature);
        let mine = groups[n].bucket_key == key && groups[n].signature == signature;
        assert forall|i: int|
            0 <= i < groups.len() && (#[trigger] groups[i]).bucket_key == key
                && groups[i].signature == signature implies count_with(groups, key, signature)
            == groups[i].count by {
            if i < n {
                assert(init[i] == groups[i]);
                assert(identities(groups)[i] != identities(groups)[n]);
            } else if count_with(init, key, signature) > 0 {
                let j = choose|j: int|
                    0 <= j < init.len() && (#[trigger] init[j]).bucket_key == key
                        && init[j].signature == signature;
                assert(identities(groups)[j] != identities(groups)[n]);
            }
        }
        if count_with(groups, key, signature) > 0 {
            if mine {
                assert(groups[n].bucket_key == key);
            } else {
                let j = choose|j: int|
                    0 <= j < init.len() && (#[trigger] init[j]).bucket_key == key
                        && init[j].signature == signature;
                assert(groups[j] == init[j]);
            }
        }
    }
}

/// Each signature of one list with its count is one of the other.
proof fn lemma_tallies_lie_in(a: Seq<GroupModel>, b: Seq<GroupModel>)
    requires
        all_global(a),
        all_global(b),
        identities(a).no_duplicates(),
        identities(b).no_duplicates(),
        all_sound(a),
        forall|s: u64|
            count_with(a, global_key(), s) == #[trigger] count_with(b, global_key(), s),
    ensures
        tallies(a).no_duplicates(),
        forall|i: int| 0 <= i < tallies(a).len() ==> tallies(b).contains(#[trigger] tallies(a)[i]),
{
    let ta = tallies(a);
    let tb = tallies(b);
    assert forall|i: int, j: int| 0 <= i < j < ta.len() implies ta[i] != ta[j] by {
        assert(identities(a)[i] != identities(a)[j]);
        assert(a[i].bucket_key == a[j].bucket_key);
    }
    assert forall|i: int| 0 <= i < ta.len() implies tb.contains(#[trigger] ta[i]) by {
        let s = a[i].signature;
        assert(a[i].bucket_key == global_key());
        assert(is_sound(a[i]));
        lemma_count_of_one(a, global_key(), s);
        lemma_count_of_one(b, global_key(), s);
        assert(count_with(b, global_key(), s) > 0);
        let j = choose|j: int|
            0 <= j < b.len() && (#[trigger] b[j]).bucket_key == global_key() && b[j].signature
                == s;
        assert(tb[j] == ta[i]);
    }
}

/// What holds of the groups of a distinct run that mines no templates.
proof fn lemma_distinct_groups(records: Seq<FlatModel>, opts: OptsModel)
    requires
        records.len() <= u64::MAX,
        opts.mode == DedupMode::Distinct,
        opts.match_mode != DedupMatchMode::Full,
    ensures
        all_global(dedup_groups(records, opts)),
        identities(dedup_groups(records, opts)).no_duplicates(),
        all_sound(dedup_groups(records, opts)),
        total_count(dedup_groups(records, opts)) == records.len(),
{
    let exact = bucket_groups(global_key(), records);
    lemma_exact_global(records);
    lemma_global_groups(records);
    lemma_global_canon(exact);
    law_equal_bodies_share_a_group(records, BucketKeyKind::Global);
    law_canon_groups_differ(exact);
    lemma_groups_bounded(records);
    lemma_sound_exact(bucketed(records, BucketKeyKind::Global));
    lemma_sound_canon(exact);
}

/// Neither order nor bucket boundaries matter to a distinct run that mines no
/// templates: records with the same bodies in any order, whatever their
/// services, severities and other fields are, give the same signatures with the
/// same counts. Under canonical matching inputs with two bodies of one hash and
/// two shapes are left out.
pub proof fn law_distinct_ignores_order_and_buckets(
    a: Seq<FlatModel>,
    b: Seq<FlatModel>,
    opts: OptsModel,
)
    requires
        a.len() <= u64::MAX,
        bodies(a).to_multiset() == bodies(b).to_multiset(),
        opts.mode == DedupMode::Distinct,
        opts.match_mode != DedupMatchMode::Full,
        opts.match_mode == DedupMatchMode::Hash2 ==> follows_body(a, shape_signature())
            && follows_body(b, shape_signature()),
    ensures
        tallies(dedup_groups(a, opts)).to_multiset() == tallies(
            dedup_groups(b, opts),
        ).to_multiset(),
        dedup_groups(a, opts).len() == dedup_groups(b, opts).len(),
        total_count(dedup_groups(a, opts)) == a.len(),
        total_count(dedup_groups(b, opts)) == a.len(),
{
    bodies(a).to_multiset_ensures();
    bodies(b).to_multiset_ensures();
    assert(bodies(a).len() == a.len() && bodies(b).len() == b.len());
    let ga = dedup_groups(a, opts);
    let gb = dedup_groups(b, opts);
    let key = global_key();
    let kind = BucketKeyKind::Global;
    lemma_distinct_groups(a, opts);
    lemma_distinct_groups(b, opts);
    assert forall|s: u64| #[trigger] count_with(ga, key, s) == count_with(gb, key, s) by {
        if opts.match_mode == DedupMatchMode::Exact {
            let of_body = |x: Seq<char>| xxh3(encode_utf8(x));
            law_exact_groups_hold_their_records(a, kind, key, s);
            law_exact_groups_hold_their_records(b, kind, key, s);
            lemma_records_by_body(a, body_signature(), of_body, s);
            lemma_records_by_body(b, body_signature(), of_body, s);
        } else {
            let of_body = |x: Seq<char>| xxh3(encode_utf8(canon_body(x).0));
            law_canon_groups_hold_their_records(a, kind, key, s);
            law_canon_groups_hold_their_records(b, kind, key, s);
            lemma_records_by_body(a, shape_signature(), of_body, s);
            lemma_records_by_body(b, shape_signature(), of_body, s);
        }
    }
    assert forall|s: u64| count_with(ga, key, s) == #[trigger] count_with(gb, key, s) by {
        assert(count_with(ga, key, s) == count_with(gb, key, s));
    }
    lemma_tallies_lie_in(ga, gb);
    lemma_tallies_lie_in(gb, ga);
    lemma_lies_in(tallies(ga), tallies(gb));
    lemma_lies_in(tallies(gb), tallies(ga));
    lemma_same_multiset(tallies(ga), tallies(gb));
}

} // verus!
