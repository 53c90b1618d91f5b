//! Collapses records with equal bodies within each bucket. Bodies are
//! compared by their hashes; the record seen first represents its group.
use vstd::prelude::*;
use vstd::utf8::encode_utf8;

use crate::bridge::hashing::{xxh3, xxh3_64};
use crate::dedup::bucket::{bucket_total, buckets_view};
use crate::dedup::flat_record::{BucketKey, FlatModel, FlatRecord, KeyModel};
use crate::dedup::{
    find_group, find_index, group_absorb, group_new, groups_view, identities,
    lemma_first_index_hit, lemma_total_concat, lemma_total_push, lemma_total_update, records_view,
    total_count, DedupGroup, GroupModel,
};

verus! {

/// The groups after a record with this key and signature.
pub open spec fn add_record(
    groups: Seq<GroupModel>,
    key: KeyModel,
    signature: u64,
    rec: FlatModel,
) -> Seq<GroupModel> {
    let i = find_index(groups, key, signature);
    if i < groups.len() {
        groups.update(i, group_absorb(groups[i], rec))
    } else {
        groups.push(group_new(key, signature, rec))
    }
}

/// The groups of one bucket, in the order of their first records.
pub open spec fn bucket_groups(key: KeyModel, records: Seq<FlatModel>) -> Seq<GroupModel>
    decreases records.len(),
{
    if records.len() == 0 {
        Seq::empty()
    } else {
        add_record(
            bucket_groups(key, records.drop_last()),
            key,
            xxh3(encode_utf8(records.last().body)),
            records.last(),
        )
    }
}

/// The groups of all buckets, bucket by bucket.
pub open spec fn exact_groups(buckets: Seq<(KeyModel, Seq<FlatModel>)>) -> Seq<GroupModel>
    decreases buckets.len(),
{
    if buckets.len() == 0 {
        Seq::empty()
    } else {
        exact_groups(buckets.drop_last()) + bucket_groups(buckets.last().0, buckets.last().1)
    }
}

/// A record adds one to the total, unless a counter would overflow.
pub proof fn lemma_add_record_total(
    groups: Seq<GroupModel>,
    key: KeyModel,
    signature: u64,
    rec: FlatModel,
)
    requires
        total_count(groups) < u64::MAX,
    ensures
        total_count(add_record(groups, key, signature, rec)) == total_count(groups) + 1,
        ({
            let i = find_index(groups, key, signature);
            i < groups.len() ==> groups[i].count < u64::MAX
        }),
{
    let i = find_index(groups, key, signature);
    lemma_first_index_hit(identities(groups), (key, signature));
    if i < groups.len() {
        lemma_total_update(groups, i, group_absorb(groups[i], rec));
    } else {
        lemma_total_push(groups, group_new(key, signature, rec));
    }
}

/// The groups of a bucket stand for as many records as it holds.
pub proof fn lemma_bucket_groups_total(key: KeyModel, records: Seq<FlatModel>)
    requires
        records.len() <= u64::MAX,
    ensures
        total_count(bucket_groups(key, records)) == records.len(),
    decreases records.len(),
{
    if records.len() > 0 {
        lemma_bucket_groups_total(key, records.drop_last());
        lemma_add_record_total(
            bucket_groups(key, records.drop_last()),
            key,
            xxh3(encode_utf8(records.last().body)),
            records.last(),
        );
    }
}

/// Exact matching loses and invents no record: the counts of the groups add
/// up to the number of records.
pub proof fn law_exact_counts_every_record(buckets: Seq<(KeyModel, Seq<FlatModel>)>)
    requires
        bucket_total(buckets) <= u64::MAX,
    ensures
        total_count(exact_groups(buckets)) == bucket_total(buckets),
    decreases buckets.len(),
{
    if buckets.len() > 0 {
        law_exact_counts_every_record(buckets.drop_last());
        lemma_bucket_groups_total(buckets.last().0, buckets.last().1);
        lemma_total_concat(
            exact_groups(buckets.drop_last()),
            bucket_groups(buckets.last().0, buckets.last().1),
        );
    }
}

/// No two groups of a bucket share a signature.
pub proof fn law_exact_groups_differ(key: KeyModel, records: Seq<FlatModel>)
    ensures
        identities(bucket_groups(key, records)).no_duplicates(),
    decreases records.len(),
{
    if records.len() > 0 {
        let before = bucket_groups(key, records.drop_last());
        let h = xxh3(encode_utf8(records.last().body));
        law_exact_groups_differ(key, records.drop_last());
        lemma_first_index_hit(identities(before), (key, h));
        if find_index(before, key, h) < before.len() {
            assert(identities(bucket_groups(key, records)) =~= identities(before));
        } else {
            assert(identities(bucket_groups(key, records)) =~= identities(before).push((key, h)));
        }
    }
}

/// Collapses one bucket.
fn dedup_bucket(key: &BucketKey, records: Vec<FlatRecord>, out: &mut Vec<DedupGroup>)
    ensures
        groups_view(final(out)@) == groups_view(old(out)@) + bucket_groups(
            key@,
            records_view(records@),
        ),
{
    let ghost source = records@;
    let ghost all = records_view(source);
    let mut groups: Vec<DedupGroup> = Vec::new();
    assert(source.len() == records.len());
    assert(all.take(0) =~= Seq::empty());
    assert(groups_view(groups@) =~= bucket_groups(key@, all.take(0)));
    for rec in it: records
        invariant
            it.seq() == source,
            source.len() <= usize::MAX,
            all == records_view(source),
            groups_view(groups@) == bucket_groups(key@, all.take(it.index() as int)),
    {
        let ghost i = it.index() as int;
        assert(rec@ == all[i]);
        assert(all.take(i + 1).drop_last() =~= all.take(i));
        let hash = xxh3_64(rec.body.as_str().as_bytes());
        let at = find_group(&groups, key, hash);
        let ghost before = groups@;
        proof {
            lemma_bucket_groups_total(key@, all.take(i));
            lemma_add_record_total(groups_view(before), key@, hash, rec@);
        }
        if at < groups.len() {
            assert(groups_view(before)[at as int] == before[at as int]@);
            groups[at].absorb(&rec);
            assert(groups_view(groups@) =~= add_record(groups_view(before), key@, hash, rec@));
        } else {
            groups.push(DedupGroup::new(key.copy(), hash, rec));
            assert(groups_view(groups@) =~= add_record(groups_view(before), key@, hash, rec@));
        }
    }
    assert(all.take(source.len() as int) =~= all);
    let ghost before = out@;
    let ghost added = groups@;
    out.append(&mut groups);
    assert(groups_view(out@) =~= groups_view(before) + groups_view(added));
}

/// Collapses equal bodies in all buckets.
pub fn dedup(buckets: Vec<(BucketKey, Vec<FlatRecord>)>) -> (r: Vec<DedupGroup>)
    ensures
        groups_view(r@) == exact_groups(buckets_view(buckets@)),
{
    let ghost source = buckets@;
    let ghost all = buckets_view(source);
    let mut out: Vec<DedupGroup> = Vec::new();
    assert(all.take(0) =~= Seq::empty());
    assert(groups_view(out@) =~= exact_groups(all.take(0)));
    for bucket in it: buckets
        invariant
            it.seq() == source,
            all == buckets_view(source),
            groups_view(out@) == exact_groups(all.take(it.index() as int)),
    {
        let ghost i = it.index() as int;
        let (key, records) = bucket;
        assert((key@, records_view(records@)) == all[i]);
        assert(all.take(i + 1).drop_last() =~= all.take(i));
        dedup_bucket(&key, records, &mut out);
    }
    assert(all.take(source.len() as int) =~= all);
    out
}

/// There are no more groups than records.
pub proof fn lemma_exact_len(buckets: Seq<(KeyModel, Seq<FlatModel>)>)
    ensures
        exact_groups(buckets).len() <= bucket_total(buckets),
    decreases buckets.len(),
{
    if buckets.len() > 0 {
        lemma_exact_len(buckets.drop_last());
        lemma_bucket_groups_len(buckets.last().0, buckets.last().1);
    }
}

proof fn lemma_bucket_groups_len(key: KeyModel, records: Seq<FlatModel>)
    ensures
        bucket_groups(key, records).len() <= records.len(),
    decreases records.len(),
{
    if records.len() > 0 {
        let h = xxh3(encode_utf8(records.last().body));
        lemma_bucket_groups_len(key, records.drop_last());
        lemma_first_index_hit(
            identities(bucket_groups(key, records.drop_last())),
            (key, h),
        );
    }
}

} // verus!
