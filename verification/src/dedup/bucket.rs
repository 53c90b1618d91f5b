//! Groups flat records by bucket key. Later stages work within a bucket.
use vstd::prelude::*;

use crate::dedup::flat_record::{
    key_of, BucketKey, BucketKeyKind, FlatModel, FlatRecord, KeyModel,
};
use crate::dedup::records_view;
use crate::text::seqs::{first_index, lemma_first_index};

verus! {

/// Buckets over mathematical values.
pub open spec fn buckets_view(b: Seq<(BucketKey, Vec<FlatRecord>)>) -> Seq<
    (KeyModel, Seq<FlatModel>),
> {
    b.map_values(|x: (BucketKey, Vec<FlatRecord>)| (x.0@, records_view(x.1@)))
}

/// The keys of a list of buckets.
pub open spec fn bucket_keys(b: Seq<(KeyModel, Seq<FlatModel>)>) -> Seq<KeyModel> {
    b.map_values(|x: (KeyModel, Seq<FlatModel>)| x.0)
}

/// The buckets after a record was put into the one with its key.
pub open spec fn put_record(
    b: Seq<(KeyModel, Seq<FlatModel>)>,
    key: KeyModel,
    rec: FlatModel,
) -> Seq<(KeyModel, Seq<FlatModel>)> {
    let i = first_index(bucket_keys(b), key);
    if i < b.len() {
        b.update(i, (key, b[i].1.push(rec)))
    } else {
        b.push((key, seq![rec]))
    }
}

/// Records by bucket key: buckets in the order of their first record, records
/// in their order.
pub open spec fn bucketed(records: Seq<FlatModel>, kind: BucketKeyKind) -> Seq<
    (KeyModel, Seq<FlatModel>),
>
    decreases records.len(),
{
    if records.len() == 0 {
        Seq::empty()
    } else {
        put_record(
            bucketed(records.drop_last(), kind),
            key_of(records.last(), kind),
            records.last(),
        )
    }
}

/// The index of the bucket with this key, or the number of buckets.
fn find_bucket(b: &Vec<(BucketKey, Vec<FlatRecord>)>, key: &BucketKey) -> (i: usize)
    ensures
        i == first_index(bucket_keys(buckets_view(b@)), key@),
        i <= b@.len(),
{
    let ghost keys = bucket_keys(buckets_view(b@));
    let n = b.len();
    let mut i: usize = 0;
    while i < n && !b[i].0.same(key)
        invariant
            i <= n,
            n == b@.len(),
            keys == bucket_keys(buckets_view(b@)),
            keys.len() == n,
            forall|j: int| 0 <= j < i ==> keys[j] != key@,
        decreases n - i,
    {
        assert(keys[i as int] == b@[i as int].0@);
        i = i + 1;
    }
    proof {
        if i < n {
            assert(keys[i as int] == b@[i as int].0@);
        }
        lemma_first_index(keys, key@, i as int);
    }
    i
}

/// Groups records into hard-partitioned buckets.
pub fn group(records: Vec<FlatRecord>, kind: BucketKeyKind) -> (r: Vec<
    (BucketKey, Vec<FlatRecord>),
>)
    ensures
        buckets_view(r@) == bucketed(records_view(records@), kind),
{
    let ghost source = records@;
    let ghost all = records_view(source);
    let mut buckets: Vec<(BucketKey, Vec<FlatRecord>)> = Vec::new();
    assert(all.take(0) =~= Seq::empty());
    assert(buckets_view(buckets@) =~= bucketed(all.take(0), kind));
    for rec in it: records
        invariant
            it.seq() == source,
            all == records_view(source),
            buckets_view(buckets@) == bucketed(all.take(it.index() as int), kind),
    {
        let ghost i = it.index() as int;
        assert(rec@ == all[i]);
        assert(all.take(i + 1).drop_last() =~= all.take(i));
        let key = BucketKey::from_record(&rec, kind);
        let at = find_bucket(&buckets, &key);
        let ghost before = buckets@;
        if at < buckets.len() {
            let ghost old_recs = buckets@[at as int].1@;
            assert(bucket_keys(buckets_view(before))[at as int] == key@) by {
                crate::dedup::lemma_first_index_hit(
                    bucket_keys(buckets_view(before)),
                    key@,
                );
            }
            buckets[at].1.push(rec);
            assert(records_view(buckets@[at as int].1@) =~= records_view(old_recs).push(rec@));
            assert(buckets_view(buckets@) =~= put_record(buckets_view(before), key@, rec@));
        } else {
            let mut recs: Vec<FlatRecord> = Vec::new();
            recs.push(rec);
            assert(records_view(recs@) =~= seq![rec@]);
            buckets.push((key, recs));
            assert(buckets_view(buckets@) =~= put_record(buckets_view(before), key@, rec@));
        }
    }
    assert(all.take(source.len() as int) =~= all);
    buckets
}

/// How many records the buckets hold together.
pub open spec fn bucket_total(b: Seq<(KeyModel, Seq<FlatModel>)>) -> nat
    decreases b.len(),
{
    if b.len() == 0 {
        0
    } else {
        bucket_total(b.drop_last()) + b.last().1.len()
    }
}

proof fn lemma_bucket_total_update(
    b: Seq<(KeyModel, Seq<FlatModel>)>,
    i: int,
    x: (KeyModel, Seq<FlatModel>),
)
    requires
        0 <= i < b.len(),
    ensures
        bucket_total(b.update(i, x)) == bucket_total(b) - b[i].1.len() + x.1.len(),
    decreases b.len(),
{
    if i == b.len() - 1 {
        assert(b.update(i, x).drop_last() =~= b.drop_last());
    } else {
        lemma_bucket_total_update(b.drop_last(), i, x);
        assert(b.update(i, x).drop_last() =~= b.drop_last().update(i, x));
    }
}

/// Bucketing is a partition: no two buckets share a key, every record lies in
/// the bucket with its own key, and none is lost or doubled.
pub proof fn law_bucketing_is_a_partition(records: Seq<FlatModel>, kind: BucketKeyKind)
    ensures
        bucket_keys(bucketed(records, kind)).no_duplicates(),
        forall|b: int, i: int|
            0 <= b < bucketed(records, kind).len() && 0 <= i < bucketed(records, kind)[b].1.len()
                ==> key_of(#[trigger] bucketed(records, kind)[b].1[i], kind) == bucketed(
                records,
                kind,
            )[b].0,
        bucket_total(bucketed(records, kind)) == records.len(),
    decreases records.len(),
{
    if records.len() > 0 {
        let before = bucketed(records.drop_last(), kind);
        let after = bucketed(records, kind);
        let rec = records.last();
        let key = key_of(rec, kind);
        let at = first_index(bucket_keys(before), key);
        law_bucketing_is_a_partition(records.drop_last(), kind);
        crate::dedup::lemma_first_index_hit(bucket_keys(before), key);
        if at < before.len() {
            assert(bucket_keys(after) =~= bucket_keys(before));
            lemma_bucket_total_update(before, at, (key, before[at].1.push(rec)));
        } else {
            assert(bucket_keys(after) =~= bucket_keys(before).push(key));
            assert(after.drop_last() =~= before);
        }
        assert forall|b: int, i: int|
            0 <= b < after.len() && 0 <= i < after[b].1.len() implies key_of(
            #[trigger] after[b].1[i],
            kind,
        ) == after[b].0 by {
            if b < before.len() && i < before[b].1.len() {
                assert(key_of(before[b].1[i], kind) == before[b].0);
            }
        }
    }
}

} // verus!
