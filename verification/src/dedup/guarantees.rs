//! What the groups of a run say of its records.
use vstd::prelude::*;
use vstd::utf8::encode_utf8;

use crate::bridge::hashing::xxh3;
use crate::dedup::bucket::{bucket_keys, bucket_total, bucketed, law_bucketing_is_a_partition};
use crate::dedup::canon::{
    annotated, canon_body, canon_groups, law_canon_counts_every_record, lemma_add_group_total,
};
use crate::dedup::exact::{
    bucket_groups, exact_groups, law_exact_counts_every_record, law_exact_groups_differ,
    lemma_add_record_total, lemma_bucket_groups_total,
};
use crate::dedup::collapse::{candidate, collapsed, law_collapse_counts_every_record};
use crate::dedup::drain3::{drain_ok, DrainModel};
use crate::dedup::flat_record::{key_of, BucketKeyKind, FlatModel, KeyModel};
use crate::dedup::residuals::{
    cluster_groups, count_at, group_bucket_keys, group_bucket_total, group_buckets, is_merged,
    is_residual, lemma_count_upto_bound, lemma_count_upto_step, lemma_filter_total,
    lemma_group_buckets, lemma_members_range, lemma_merged_count, lemma_mined, members, merged_at,
    mined, residual_groups,
};
use crate::dedup::{
    blank_id, dedup_groups, effective_time, find_index, group_absorb, group_merge, group_new,
    identities, lemma_first_index_hit, lemma_groups_bounded, lemma_total_update, total_count,
    with_exemplar, DedupMatchMode, DedupMode, GroupModel, OptsModel,
};
use crate::text::numbers::hex_text;
use crate::text::seqs::first_index;

verus! {

/// The signature of a record that is matched by its body.
pub open spec fn body_signature() -> spec_fn(FlatModel) -> u64 {
    |r: FlatModel| xxh3(encode_utf8(r.body))
}

/// The signature of a record that is matched by its canonical body.
pub open spec fn shape_signature() -> spec_fn(FlatModel) -> u64 {
    |r: FlatModel| xxh3(encode_utf8(canon_body(r.body).0))
}

/// How many records have a bucket key and a signature.
pub open spec fn records_with(
    records: Seq<FlatModel>,
    kind: BucketKeyKind,
    sign: spec_fn(FlatModel) -> u64,
    key: KeyModel,
    signature: u64,
) -> nat
    decreases records.len(),
{
    if records.len() == 0 {
        0
    } else {
        records_with(records.drop_last(), kind, sign, key, signature) + if key_of(
            records.last(),
            kind,
        ) == key && sign(records.last()) == signature {
            1nat
        } else {
            0
        }
    }
}

/// How many records the groups with a bucket key and a signature stand for.
pub open spec fn count_with(groups: Seq<GroupModel>, key: KeyModel, signature: u64) -> nat
    decreases groups.len(),
{
    if groups.len() == 0 {
        0
    } else {
        count_with(groups.drop_last(), key, signature) + if groups.last().bucket_key == key
            && groups.last().signature == signature {
            groups.last().count as nat
        } else {
            0
        }
    }
}

/// How many records the groups with a bucket key stand for whose
/// representatives have a signature.
spec fn count_by(
    groups: Seq<GroupModel>,
    sign: spec_fn(FlatModel) -> u64,
    key: KeyModel,
    signature: u64,
) -> nat
    decreases groups.len(),
{
    if groups.len() == 0 {
        0
    } else {
        count_by(groups.drop_last(), sign, key, signature) + share(
            groups.last(),
            sign,
            key,
            signature,
        )
    }
}

spec fn share(
    g: GroupModel,
    sign: spec_fn(FlatModel) -> u64,
    key: KeyModel,
    signature: u64,
) -> nat {
    if g.bucket_key == key && sign(g.representative) == signature {
        g.count as nat
    } else {
        0
    }
}

proof fn lemma_count_by_push(
    groups: Seq<GroupModel>,
    g: GroupModel,
    sign: spec_fn(FlatModel) -> u64,
    key: KeyModel,
    signature: u64,
)
    ensures
        count_by(groups.push(g), sign, key, signature) == count_by(groups, sign, key, signature)
            + share(g, sign, key, signature),
{
    assert(groups.push(g).drop_last() =~= groups);
}

proof fn lemma_count_by_update(
    groups: Seq<GroupModel>,
    i: int,
    g: GroupModel,
    sign: spec_fn(FlatModel) -> u64,
    key: KeyModel,
    signature: u64,
)
    requires
        0 <= i < groups.len(),
    ensures
        count_by(groups.update(i, g), sign, key, signature) == count_by(
            groups,
            sign,
            key,
            signature,
        ) - share(groups[i], sign, key, signature) + share(g, sign, key, signature),
    decreases groups.len(),
{
    if i == groups.len() - 1 {
        assert(groups.update(i, g).drop_last() =~= groups.drop_last());
    } else {
        lemma_count_by_update(groups.drop_last(), i, g, sign, key, signature);
        assert(groups.update(i, g).drop_last() =~= groups.drop_last().update(i, g));
    }
}

proof fn lemma_count_by_concat(
    a: Seq<GroupModel>,
    b: Seq<GroupModel>,
    sign: spec_fn(FlatModel) -> u64,
    key: KeyModel,
    signature: u64,
)
    ensures
        count_by(a + b, sign, key, signature) == count_by(a, sign, key, signature) + count_by(
            b,
            sign,
            key,
            signature,
        ),
    decreases b.len(),
{
    if b.len() == 0 {
        assert(a + b =~= a);
    } else {
        lemma_count_by_concat(a, b.drop_last(), sign, key, signature);
        assert((a + b).drop_last() =~= a + b.drop_last());
    }
}

/// Records with equal bodies have equal signatures.
pub open spec fn follows_body(records: Seq<FlatModel>, sign: spec_fn(FlatModel) -> u64) -> bool {
    forall|i: int, j: int|
        0 <= i < records.len() && 0 <= j < records.len() && #[trigger] body_signature()(records[i])
            == #[trigger] body_signature()(records[j]) ==> sign(records[i]) == sign(records[j])
}

/// The groups of a bucket are made from its records.
spec fn stems_from(groups: Seq<GroupModel>, bucket: KeyModel, records: Seq<FlatModel>) -> bool {
    forall|g: int|
        0 <= g < groups.len() ==> (#[trigger] groups[g]).bucket_key == bucket
            && body_signature()(groups[g].representative) == groups[g].signature
            && records.contains(groups[g].representative)
}

proof fn lemma_bucket(
    bucket: KeyModel,
    records: Seq<FlatModel>,
    kind: BucketKeyKind,
    sign: spec_fn(FlatModel) -> u64,
    key: KeyModel,
    signature: u64,
)
    requires
        records.len() <= u64::MAX,
        forall|i: int| 0 <= i < records.len() ==> key_of(#[trigger] records[i], kind) == bucket,
        follows_body(records, sign),
    ensures
        count_by(bucket_groups(bucket, records), sign, key, signature) == records_with(
            records,
            kind,
            sign,
            key,
            signature,
        ),
        stems_from(bucket_groups(bucket, records), bucket, records),
    decreases records.len(),
{
    if records.len() > 0 {
        let init = records.drop_last();
        let rec = records.last();
        let h = body_signature()(rec);
        let before = bucket_groups(bucket, init);
        assert(follows_body(init, sign)) by {
            assert forall|i: int, j: int|
                0 <= i < init.len() && 0 <= j < init.len() && #[trigger] body_signature()(init[i])
                    == #[trigger] body_signature()(init[j]) implies sign(init[i]) == sign(init[j]) by {
                assert(body_signature()(records[i]) == body_signature()(records[j]));
            }
        }
        assert forall|i: int| 0 <= i < init.len() implies key_of(#[trigger] init[i], kind)
            == bucket by {
            assert(key_of(records[i], kind) == bucket);
        }
        lemma_bucket(bucket, init, kind, sign, key, signature);
        lemma_bucket_groups_total(bucket, init);
        lemma_add_record_total(before, bucket, h, rec);
        lemma_first_index_hit(identities(before), (bucket, h));
        let at = find_index(before, bucket, h);
        let after = bucket_groups(bucket, records);
        assert(key_of(records[records.len() - 1], kind) == bucket);
        if at < before.len() {
            let g = before[at];
            lemma_count_by_update(before, at, group_absorb(g, rec), sign, key, signature);
            assert(identities(before)[at] == (g.bucket_key, g.signature));
            let j = choose|j: int| 0 <= j < init.len() && init[j] == g.representative;
            assert(init.contains(g.representative));
            assert(records[j] == g.representative);
            assert(body_signature()(records[j]) == body_signature()(records[records.len() - 1]));
            assert(sign(g.representative) == sign(rec));
        } else {
            lemma_count_by_push(before, group_new(bucket, h, rec), sign, key, signature);
        }
        assert forall|g: int| 0 <= g < after.len() implies (#[trigger] after[g]).bucket_key
            == bucket && body_signature()(after[g].representative) == after[g].signature
            && records.contains(after[g].representative) by {
            if g < before.len() {
                assert(before[g].bucket_key == bucket);
                assert(after[g].representative == before[g].representative);
                let j = choose|j: int| 0 <= j < init.len() && init[j] == before[g].representative;
                assert(init.contains(before[g].representative));
                assert(records[j] == after[g].representative);
            } else {
                assert(records[records.len() - 1] == after[g].representative);
            }
        }
    }
}

/// How many records of the buckets have a bucket key and a signature.
spec fn buckets_with(
    b: Seq<(KeyModel, Seq<FlatModel>)>,
    kind: BucketKeyKind,
    sign: spec_fn(FlatModel) -> u64,
    key: KeyModel,
    signature: u64,
) -> nat
    decreases b.len(),
{
    if b.len() == 0 {
        0
    } else {
        buckets_with(b.drop_last(), kind, sign, key, signature) + records_with(
            b.last().1,
            kind,
            sign,
            key,
            signature,
        )
    }
}

proof fn lemma_buckets_with_update(
    b: Seq<(KeyModel, Seq<FlatModel>)>,
    i: int,
    x: (KeyModel, Seq<FlatModel>),
    kind: BucketKeyKind,
    sign: spec_fn(FlatModel) -> u64,
    key: KeyModel,
    signature: u64,
)
    requires
        0 <= i < b.len(),
    ensures
        buckets_with(b.update(i, x), kind, sign, key, signature) == buckets_with(
            b,
            kind,
            sign,
            key,
            signature,
        ) - records_with(b[i].1, kind, sign, key, signature) + records_with(
            x.1,
            kind,
            sign,
            key,
            signature,
        ),
    decreases b.len(),
{
    if i == b.len() - 1 {
        assert(b.update(i, x).drop_last() =~= b.drop_last());
    } else {
        lemma_buckets_with_update(b.drop_last(), i, x, kind, sign, key, signature);
        assert(b.update(i, x).drop_last() =~= b.drop_last().update(i, x));
    }
}

/// Every record of the buckets is one of the records.
spec fn drawn_from(b: Seq<(KeyModel, Seq<FlatModel>)>, records: Seq<FlatModel>) -> bool {
    forall|k: int, i: int|
        0 <= k < b.len() && 0 <= i < b[k].1.len() ==> records.contains(#[trigger] b[k].1[i])
}

proof fn lemma_bucketed(
    records: Seq<FlatModel>,
    kind: BucketKeyKind,
    sign: spec_fn(FlatModel) -> u64,
    key: KeyModel,
    signature: u64,
)
    ensures
        buckets_with(bucketed(records, kind), kind, sign, key, signature) == records_with(
            records,
            kind,
            sign,
            key,
            signature,
        ),
        drawn_from(bucketed(records, kind), records),
    decreases records.len(),
{
    if records.len() > 0 {
        let init = records.drop_last();
        let rec = records.last();
        let own = key_of(rec, kind);
        let before = bucketed(init, kind);
        let after = bucketed(records, kind);
        let at = first_index(bucket_keys(before), own);
        lemma_bucketed(init, kind, sign, key, signature);
        lemma_first_index_hit(bucket_keys(before), own);
        if at < before.len() {
            let more = before[at].1.push(rec);
            assert(more.drop_last() =~= before[at].1);
            lemma_buckets_with_update(before, at, (own, more), kind, sign, key, signature);
        } else {
            assert(after.drop_last() =~= before);
            assert(seq![rec].drop_last() =~= Seq::<FlatModel>::empty());
            assert(records_with(seq![rec].drop_last(), kind, sign, key, signature) == 0);
        }
        assert forall|k: int, i: int|
            0 <= k < after.len() && 0 <= i < after[k].1.len() implies records.contains(
            #[trigger] after[k].1[i],
        ) by {
            if k < before.len() && i < before[k].1.len() {
                let r = before[k].1[i];
                assert(init.contains(r));
                let j = choose|j: int| 0 <= j < init.len() && init[j] == r;
                assert(records[j] == after[k].1[i]);
            } else {
                assert(records[records.len() - 1] == after[k].1[i]);
            }
        }
    }
}

proof fn lemma_exact(
    b: Seq<(KeyModel, Seq<FlatModel>)>,
    records: Seq<FlatModel>,
    kind: BucketKeyKind,
    sign: spec_fn(FlatModel) -> u64,
    key: KeyModel,
    signature: u64,
)
    requires
        bucket_total(b) <= u64::MAX,
        drawn_from(b, records),
        follows_body(records, sign),
        forall|k: int, i: int|
            0 <= k < b.len() && 0 <= i < b[k].1.len() ==> key_of(#[trigger] b[k].1[i], kind)
                == b[k].0,
    ensures
        count_by(exact_groups(b), sign, key, signature) == buckets_with(
            b,
            kind,
            sign,
            key,
            signature,
        ),
    decreases b.len(),
{
    if b.len() > 0 {
        let init = b.drop_last();
        let n = b.len() - 1;
        let own = b.last().1;
        assert forall|k: int, i: int| 0 <= k < init.len() && 0 <= i < init[k].1.len() implies key_of(
            #[trigger] init[k].1[i],
            kind,
        ) == init[k].0 by {
            assert(key_of(b[k].1[i], kind) == b[k].0);
        }
        assert(drawn_from(init, records)) by {
            assert forall|k: int, i: int|
                0 <= k < init.len() && 0 <= i < init[k].1.len() implies records.contains(
                #[trigger] init[k].1[i],
            ) by {
                assert(records.contains(b[k].1[i]));
            }
        }
        assert forall|i: int| 0 <= i < own.len() implies key_of(#[trigger] own[i], kind)
            == b.last().0 by {
            assert(key_of(b[n].1[i], kind) == b[n].0);
        }
        assert(follows_body(own, sign)) by {
            assert forall|i: int, j: int|
                0 <= i < own.len() && 0 <= j < own.len() && #[trigger] body_signature()(own[i])
                    == #[trigger] body_signature()(own[j]) implies sign(own[i]) == sign(own[j]) by {
                assert(records.contains(b[n].1[i]));
                assert(records.contains(b[n].1[j]));
                let x = choose|x: int| 0 <= x < records.len() && records[x] == own[i];
                let y = choose|y: int| 0 <= y < records.len() && records[y] == own[j];
                assert(body_signature()(records[x]) == body_signature()(records[y]));
            }
        }
        lemma_exact(init, records, kind, sign, key, signature);
        lemma_bucket(b.last().0, own, kind, sign, key, signature);
        lemma_count_by_concat(
            exact_groups(init),
            bucket_groups(b.last().0, own),
            sign,
            key,
            signature,
        );
    }
}

/// A group carries the signature of its representative.
spec fn signed_by_body(groups: Seq<GroupModel>) -> bool {
    forall|g: int|
        0 <= g < groups.len() ==> body_signature()((#[trigger] groups[g]).representative)
            == groups[g].signature
}

proof fn lemma_signed_by_body(b: Seq<(KeyModel, Seq<FlatModel>)>, kind: BucketKeyKind)
    requires
        bucket_total(b) <= u64::MAX,
        forall|k: int, i: int|
            0 <= k < b.len() && 0 <= i < b[k].1.len() ==> key_of(#[trigger] b[k].1[i], kind)
                == b[k].0,
    ensures
        signed_by_body(exact_groups(b)),
    decreases b.len(),
{
    if b.len() > 0 {
        let init = b.drop_last();
        let n = b.len() - 1;
        let own = b.last().1;
        assert forall|k: int, i: int| 0 <= k < init.len() && 0 <= i < init[k].1.len() implies key_of(
            #[trigger] init[k].1[i],
            kind,
        ) == init[k].0 by {
            assert(key_of(b[k].1[i], kind) == b[k].0);
        }
        assert forall|i: int| 0 <= i < own.len() implies key_of(#[trigger] own[i], kind)
            == b.last().0 by {
            assert(key_of(b[n].1[i], kind) == b[n].0);
        }
        lemma_signed_by_body(init, kind);
        lemma_bucket(b.last().0, own, kind, body_signature(), b.last().0, 0);
    }
}

proof fn lemma_count_with_is_count_by(groups: Seq<GroupModel>, key: KeyModel, signature: u64)
    requires
        signed_by_body(groups),
    ensures
        count_with(groups, key, signature) == count_by(groups, body_signature(), key, signature),
    decreases groups.len(),
{
    if groups.len() > 0 {
        let init = groups.drop_last();
        assert forall|g: int| 0 <= g < init.len() implies body_signature()(
            (#[trigger] init[g]).representative,
        ) == init[g].signature by {
            assert(body_signature()(groups[g].representative) == groups[g].signature);
        }
        lemma_count_with_is_count_by(init, key, signature);
        assert(body_signature()(groups[groups.len() - 1].representative) == groups.last().signature);
    }
}

/// Groups of equal bodies hold exactly the records of their bucket with their
/// signature, wherever those stand in the input.
pub proof fn law_exact_groups_hold_their_records(
    records: Seq<FlatModel>,
    kind: BucketKeyKind,
    key: KeyModel,
    signature: u64,
)
    requires
        records.len() <= u64::MAX,
    ensures
        count_with(exact_groups(bucketed(records, kind)), key, signature) == records_with(
            records,
            kind,
            body_signature(),
            key,
            signature,
        ),
{
    let b = bucketed(records, kind);
    law_bucketing_is_a_partition(records, kind);
    lemma_bucketed(records, kind, body_signature(), key, signature);
    lemma_exact(b, records, kind, body_signature(), key, signature);
    lemma_signed_by_body(b, kind);
    lemma_count_with_is_count_by(exact_groups(b), key, signature);
}

proof fn lemma_bucket_of_groups(b: Seq<(KeyModel, Seq<FlatModel>)>, kind: BucketKeyKind, g: int)
    requires
        bucket_total(b) <= u64::MAX,
        forall|k: int, i: int|
            0 <= k < b.len() && 0 <= i < b[k].1.len() ==> key_of(#[trigger] b[k].1[i], kind)
                == b[k].0,
        0 <= g < exact_groups(b).len(),
    ensures
        bucket_keys(b).contains(exact_groups(b)[g].bucket_key),
    decreases b.len(),
{
    let init = b.drop_last();
    let n = b.len() - 1;
    let own = b.last().1;
    assert forall|k: int, i: int| 0 <= k < init.len() && 0 <= i < init[k].1.len() implies key_of(
        #[trigger] init[k].1[i],
        kind,
    ) == init[k].0 by {
        assert(key_of(b[k].1[i], kind) == b[k].0);
    }
    if g < exact_groups(init).len() {
        lemma_bucket_of_groups(init, kind, g);
        let x = exact_groups(b)[g].bucket_key;
        let j = choose|j: int| 0 <= j < bucket_keys(init).len() && bucket_keys(init)[j] == x;
        assert(bucket_keys(b)[j] == x);
    } else {
        assert forall|i: int| 0 <= i < own.len() implies key_of(#[trigger] own[i], kind)
            == b.last().0 by {
            assert(key_of(b[n].1[i], kind) == b[n].0);
        }
        lemma_bucket(b.last().0, own, kind, body_signature(), b.last().0, 0);
        let at = g - exact_groups(init).len();
        assert(exact_groups(b)[g] == bucket_groups(b.last().0, own)[at]);
        assert(bucket_keys(b)[n] == b.last().0);
    }
}

proof fn lemma_exact_identities(b: Seq<(KeyModel, Seq<FlatModel>)>, kind: BucketKeyKind)
    requires
        bucket_total(b) <= u64::MAX,
        bucket_keys(b).no_duplicates(),
        forall|k: int, i: int|
            0 <= k < b.len() && 0 <= i < b[k].1.len() ==> key_of(#[trigger] b[k].1[i], kind)
                == b[k].0,
    ensures
        identities(exact_groups(b)).no_duplicates(),
    decreases b.len(),
{
    if b.len() > 0 {
        let init = b.drop_last();
        let n = b.len() - 1;
        let own = b.last().1;
        assert(bucket_keys(init) =~= bucket_keys(b).drop_last());
        assert forall|k: int, i: int| 0 <= k < init.len() && 0 <= i < init[k].1.len() implies key_of(
            #[trigger] init[k].1[i],
            kind,
        ) == init[k].0 by {
            assert(key_of(b[k].1[i], kind) == b[k].0);
        }
        assert forall|i: int| 0 <= i < own.len() implies key_of(#[trigger] own[i], kind)
            == b.last().0 by {
            assert(key_of(b[n].1[i], kind) == b[n].0);
        }
        lemma_exact_identities(init, kind);
        law_exact_groups_differ(b.last().0, own);
        lemma_bucket(b.last().0, own, kind, body_signature(), b.last().0, 0);
        let first = exact_groups(init);
        let second = bucket_groups(b.last().0, own);
        let ids = identities(exact_groups(b));
        assert(ids =~= identities(first) + identities(second));
        assert forall|i: int, j: int| 0 <= i < j < ids.len() implies ids[i] != ids[j] by {
            if j < first.len() {
                assert(identities(first)[i] != identities(first)[j]);
            } else if i >= first.len() {
                assert(identities(second)[i - first.len()] != identities(second)[j - first.len()]);
            } else {
                lemma_bucket_of_groups(init, kind, i);
                let x = first[i].bucket_key;
                let k = choose|k: int| 0 <= k < bucket_keys(init).len() && bucket_keys(init)[k] == x;
                assert(bucket_keys(b)[k] == x);
                assert(bucket_keys(b)[n] == b.last().0);
                assert(second[j - first.len()].bucket_key == b.last().0);
            }
        }
    }
}

/// Equal bodies of a bucket share one group, however far apart they stand: no
/// two groups agree in bucket key and signature.
pub proof fn law_equal_bodies_share_a_group(records: Seq<FlatModel>, kind: BucketKeyKind)
    requires
        records.len() <= u64::MAX,
    ensures
        identities(exact_groups(bucketed(records, kind))).no_duplicates(),
{
    law_bucketing_is_a_partition(records, kind);
    lemma_exact_identities(bucketed(records, kind), kind);
}

proof fn lemma_count_with_push(
    groups: Seq<GroupModel>,
    g: GroupModel,
    key: KeyModel,
    signature: u64,
)
    ensures
        count_with(groups.push(g), key, signature) == count_with(groups, key, signature) + if
            g.bucket_key == key && g.signature == signature {
            g.count as nat
        } else {
            0
        },
{
    assert(groups.push(g).drop_last() =~= groups);
}

proof fn lemma_count_with_update(
    groups: Seq<GroupModel>,
    i: int,
    g: GroupModel,
    key: KeyModel,
    signature: u64,
)
    requires
        0 <= i < groups.len(),
        g.bucket_key == groups[i].bucket_key,
        g.signature == groups[i].signature,
    ensures
        count_with(groups.update(i, g), key, signature) == count_with(groups, key, signature) + if
            g.bucket_key == key && g.signature == signature {
            g.count - groups[i].count
        } else {
            0
        },
    decreases groups.len(),
{
    if i == groups.len() - 1 {
        assert(groups.update(i, g).drop_last() =~= groups.drop_last());
    } else {
        lemma_count_with_update(groups.drop_last(), i, g, key, signature);
        assert(groups.update(i, g).drop_last() =~= groups.drop_last().update(i, g));
    }
}

proof fn lemma_canon(groups: Seq<GroupModel>, key: KeyModel, signature: u64)
    requires
        total_count(groups) <= u64::MAX,
    ensures
        count_with(canon_groups(groups), key, signature) == count_by(
            groups,
            shape_signature(),
            key,
            signature,
        ),
    decreases groups.len(),
{
    if groups.len() > 0 {
        let init = groups.drop_last();
        let before = canon_groups(init);
        let g = annotated(groups.last());
        lemma_canon(init, key, signature);
        law_canon_counts_every_record(init);
        lemma_add_group_total(before, g);
        lemma_first_index_hit(identities(before), (g.bucket_key, g.signature));
        let at = find_index(before, g.bucket_key, g.signature);
        if at < before.len() {
            assert(identities(before)[at] == (before[at].bucket_key, before[at].signature));
            lemma_count_with_update(before, at, group_merge(before[at], g), key, signature);
        } else {
            lemma_count_with_push(before, g, key, signature);
        }
    }
}

/// Groups of equal canonical bodies hold exactly the records of their bucket
/// whose canonical bodies have their signature, wherever those stand in the
/// input. Left out are inputs with two bodies of one hash and two shapes.
pub proof fn law_canon_groups_hold_their_records(
    records: Seq<FlatModel>,
    kind: BucketKeyKind,
    key: KeyModel,
    signature: u64,
)
    requires
        records.len() <= u64::MAX,
        follows_body(records, shape_signature()),
    ensures
        count_with(canon_groups(exact_groups(bucketed(records, kind))), key, signature)
            == records_with(records, kind, shape_signature(), key, signature),
{
    let b = bucketed(records, kind);
    law_bucketing_is_a_partition(records, kind);
    lemma_bucketed(records, kind, shape_signature(), key, signature);
    lemma_exact(b, records, kind, shape_signature(), key, signature);
    law_exact_counts_every_record(b);
    lemma_canon(exact_groups(b), key, signature);
}

/// The records with a bucket key and a signature.
spec fn has_identity(
    kind: BucketKeyKind,
    sign: spec_fn(FlatModel) -> u64,
    key: KeyModel,
    signature: u64,
) -> spec_fn(FlatModel) -> bool {
    |r: FlatModel| key_of(r, kind) == key && sign(r) == signature
}

proof fn lemma_records_with_multiset(
    records: Seq<FlatModel>,
    kind: BucketKeyKind,
    sign: spec_fn(FlatModel) -> u64,
    key: KeyModel,
    signature: u64,
)
    ensures
        records_with(records, kind, sign, key, signature) == records.to_multiset().filter(
            has_identity(kind, sign, key, signature),
        ).len(),
    decreases records.len(),
{
    broadcast use vstd::seq_lib::group_to_multiset_ensures;
    broadcast use vstd::multiset::group_multiset_axioms;

    let p = has_identity(kind, sign, key, signature);
    if records.len() > 0 {
        let init = records.drop_last();
        let rec = records.last();
        lemma_records_with_multiset(init, kind, sign, key, signature);
        assert(init.push(rec) =~= records);
        assert(records.to_multiset() =~= init.to_multiset().insert(rec));
        if p(rec) {
            assert(records.to_multiset().filter(p) =~= init.to_multiset().filter(p).insert(rec));
        } else {
            assert(records.to_multiset().filter(p) =~= init.to_multiset().filter(p));
        }
    } else {
        assert(records.to_multiset().filter(p) =~= vstd::multiset::Multiset::empty());
    }
}

/// The order of the records does not matter: the same records in another order
/// give the same counts under the same keys and signatures.
pub proof fn law_order_of_records_is_ignored(
    a: Seq<FlatModel>,
    b: Seq<FlatModel>,
    kind: BucketKeyKind,
    key: KeyModel,
    signature: u64,
)
    requires
        a.len() <= u64::MAX,
        b.len() <= u64::MAX,
        a.to_multiset() == b.to_multiset(),
    ensures
        count_with(exact_groups(bucketed(a, kind)), key, signature) == count_with(
            exact_groups(bucketed(b, kind)),
            key,
            signature,
        ),
        follows_body(a, shape_signature()) && follows_body(b, shape_signature()) ==> count_with(
            canon_groups(exact_groups(bucketed(a, kind))),
            key,
            signature,
        ) == count_with(canon_groups(exact_groups(bucketed(b, kind))), key, signature),
{
    law_exact_groups_hold_their_records(a, kind, key, signature);
    law_exact_groups_hold_their_records(b, kind, key, signature);
    lemma_records_with_multiset(a, kind, body_signature(), key, signature);
    lemma_records_with_multiset(b, kind, body_signature(), key, signature);
    if follows_body(a, shape_signature()) && follows_body(b, shape_signature()) {
        law_canon_groups_hold_their_records(a, kind, key, signature);
        law_canon_groups_hold_their_records(b, kind, key, signature);
        lemma_records_with_multiset(a, kind, shape_signature(), key, signature);
        lemma_records_with_multiset(b, kind, shape_signature(), key, signature);
    }
}

/// The exemplars of a group that starts with one id and then sees others.
pub open spec fn exemplars_after(first: Seq<u8>, ids: Seq<Seq<u8>>) -> Seq<Seq<char>>
    decreases ids.len(),
{
    if ids.len() == 0 {
        seq![hex_text(first)]
    } else {
        with_exemplar(exemplars_after(first, ids.drop_last()), ids.last())
    }
}

/// A group lists the id it started with, the one after it and the last one,
/// where none of those that follow is blank.
pub proof fn law_exemplars_are_first_next_and_last(first: Seq<u8>, ids: Seq<Seq<u8>>)
    requires
        forall|i: int| 0 <= i < ids.len() ==> !blank_id(#[trigger] ids[i]),
    ensures
        exemplars_after(first, ids) == if ids.len() == 0 {
            seq![hex_text(first)]
        } else if ids.len() == 1 {
            seq![hex_text(first), hex_text(ids[0])]
        } else {
            seq![hex_text(first), hex_text(ids[0]), hex_text(ids.last())]
        },
    decreases ids.len(),
{
    if ids.len() > 0 {
        let init = ids.drop_last();
        assert forall|i: int| 0 <= i < init.len() implies !blank_id(#[trigger] init[i]) by {
            assert(!blank_id(ids[i]));
        }
        law_exemplars_are_first_next_and_last(first, init);
        assert(!blank_id(ids[ids.len() - 1]));
    }
}

/// What holds of a group: it stands for a record, spans the time of its
/// representative, and lists few exemplars.
pub open spec fn is_sound(g: GroupModel) -> bool {
    &&& g.count >= 1
    &&& g.first_seen_ns <= effective_time(g.representative) <= g.last_seen_ns
    &&& 1 <= g.exemplar_trace_ids.len() <= 3
    &&& 1 <= g.exemplar_span_ids.len() <= 3
}

/// Every group is sound.
pub open spec fn all_sound(groups: Seq<GroupModel>) -> bool {
    forall|i: int| 0 <= i < groups.len() ==> is_sound(#[trigger] groups[i])
}

proof fn lemma_sound_bucket(key: KeyModel, records: Seq<FlatModel>)
    requires
        records.len() <= u64::MAX,
    ensures
        all_sound(bucket_groups(key, records)),
    decreases records.len(),
{
    if records.len() > 0 {
        let init = records.drop_last();
        let before = bucket_groups(key, init);
        let h = xxh3(encode_utf8(records.last().body));
        lemma_sound_bucket(key, init);
        lemma_bucket_groups_total(key, init);
        lemma_add_record_total(before, key, h, records.last());
        lemma_first_index_hit(identities(before), (key, h));
    }
}

pub proof fn lemma_sound_exact(b: Seq<(KeyModel, Seq<FlatModel>)>)
    requires
        bucket_total(b) <= u64::MAX,
    ensures
        all_sound(exact_groups(b)),
    decreases b.len(),
{
    if b.len() > 0 {
        lemma_sound_exact(b.drop_last());
        lemma_sound_bucket(b.last().0, b.last().1);
    }
}

pub proof fn lemma_sound_canon(groups: Seq<GroupModel>)
    requires
        total_count(groups) <= u64::MAX,
        all_sound(groups),
    ensures
        all_sound(canon_groups(groups)),
    decreases groups.len(),
{
    if groups.len() > 0 {
        let init = groups.drop_last();
        let before = canon_groups(init);
        let g = annotated(groups.last());
        assert(is_sound(groups[groups.len() - 1]));
        assert forall|i: int| 0 <= i < init.len() implies is_sound(#[trigger] init[i]) by {
            assert(is_sound(groups[i]));
        }
        lemma_sound_canon(init);
        law_canon_counts_every_record(init);
        lemma_add_group_total(before, g);
        lemma_first_index_hit(identities(before), (g.bucket_key, g.signature));
    }
}

proof fn lemma_sound_merger(groups: Seq<GroupModel>, indices: Seq<int>)
    requires
        all_sound(groups),
        indices.len() >= 1,
        forall|i: int| 0 <= i < indices.len() ==> 0 <= #[trigger] indices[i] < groups.len(),
        count_at(groups, indices) <= u64::MAX,
    ensures
        is_sound(merged_at(groups, indices)),
    decreases indices.len(),
{
    if indices.len() == 1 {
        assert(is_sound(groups[indices[0]]));
    } else {
        let init = indices.drop_last();
        assert forall|i: int| 0 <= i < init.len() implies 0 <= #[trigger] init[i]
            < groups.len() by {
            assert(0 <= indices[i] < groups.len());
        }
        lemma_sound_merger(groups, init);
        lemma_merged_count(groups, init);
        assert(is_sound(groups[indices[indices.len() - 1]]));
    }
}

proof fn lemma_sound_clusters(groups: Seq<GroupModel>, m: DrainModel, k: int)
    requires
        all_sound(groups),
        drain_ok(m),
        m.clusters.len() == 0,
        groups.len() + 1 < i64::MAX,
        total_count(groups) <= u64::MAX,
        0 <= k <= mined(m, groups).0.clusters.len(),
    ensures
        all_sound(cluster_groups(groups, mined(m, groups).0, mined(m, groups).1, k)),
    decreases k,
{
    if k > 0 {
        let (after, ids) = mined(m, groups);
        lemma_mined(m, groups);
        lemma_sound_clusters(groups, m, k - 1);
        let ix = members(ids, k);
        assert(ix.len() >= 1);
        lemma_members_range(ids, k);
        lemma_count_upto_step(groups, ids, k);
        lemma_count_upto_bound(groups, ids, k);
        lemma_sound_merger(groups, ix);
    }
}

proof fn lemma_sound_filter(groups: Seq<GroupModel>, p: spec_fn(GroupModel) -> bool)
    requires
        all_sound(groups),
    ensures
        all_sound(groups.filter(p)),
        groups.filter(p).len() <= groups.len(),
    decreases groups.len(),
{
    reveal(Seq::filter);
    if groups.len() > 0 {
        let init = groups.drop_last();
        assert(is_sound(groups[groups.len() - 1]));
        assert forall|i: int| 0 <= i < init.len() implies is_sound(#[trigger] init[i]) by {
            assert(is_sound(groups[i]));
        }
        lemma_sound_filter(init, p);
    }
}

proof fn lemma_sound_residuals(b: Seq<(KeyModel, Seq<GroupModel>)>, m: DrainModel)
    requires
        drain_ok(m),
        m.clusters.len() == 0,
        forall|i: int|
            0 <= i < b.len() ==> (#[trigger] b[i]).1.len() + 1 < i64::MAX && all_sound(b[i].1),
        group_bucket_total(b) <= u64::MAX,
    ensures
        all_sound(residual_groups(b, m)),
    decreases b.len(),
{
    if b.len() > 0 {
        let init = b.drop_last();
        let own = b.last().1;
        assert forall|i: int| 0 <= i < init.len() implies (#[trigger] init[i]).1.len() + 1
            < i64::MAX && all_sound(init[i].1) by {
            assert(b[i].1.len() + 1 < i64::MAX);
        }
        lemma_sound_residuals(init, m);
        assert(b[b.len() - 1].1 == own);
        let residuals = own.filter(is_residual());
        lemma_sound_filter(own, is_merged());
        lemma_sound_filter(own, is_residual());
        lemma_filter_total(own);
        if residuals.len() >= 2 && total_count(own) != 0 {
            lemma_sound_clusters(residuals, m, mined(m, residuals).0.clusters.len() as int);
        }
    }
}

proof fn lemma_sound_buckets(groups: Seq<GroupModel>)
    requires
        all_sound(groups),
    ensures
        forall|i: int|
            0 <= i < group_buckets(groups).len() ==> all_sound(
                (#[trigger] group_buckets(groups)[i]).1,
            ),
    decreases groups.len(),
{
    if groups.len() > 0 {
        let init = groups.drop_last();
        let g = groups.last();
        let before = group_buckets(init);
        let after = group_buckets(groups);
        assert(is_sound(groups[groups.len() - 1]));
        assert forall|i: int| 0 <= i < init.len() implies is_sound(#[trigger] init[i]) by {
            assert(is_sound(groups[i]));
        }
        lemma_sound_buckets(init);
        lemma_first_index_hit(group_bucket_keys(before), g.bucket_key);
        let at = first_index(group_bucket_keys(before), g.bucket_key);
        assert forall|i: int| 0 <= i < after.len() implies all_sound((#[trigger] after[i]).1) by {
            if i < before.len() {
                assert(all_sound(before[i].1));
                if i == at {
                    assert(after[i].1 == before[i].1.push(g));
                }
            } else {
                assert(after[i].1 == seq![g]);
            }
        }
    }
}

proof fn lemma_sound_collapsed(
    records: Seq<FlatModel>,
    kind: BucketKeyKind,
    match_mode: DedupMatchMode,
    m: DrainModel,
)
    requires
        records.len() <= u64::MAX,
    ensures
        all_sound(collapsed(records, kind, match_mode, m)),
    decreases records.len(),
{
    if records.len() > 0 {
        let init = records.drop_last();
        let before = collapsed(init, kind, match_mode, m);
        let c = candidate(records.last(), kind, match_mode);
        lemma_sound_collapsed(init, kind, match_mode, m);
        law_collapse_counts_every_record(init, kind, match_mode, m);
        if before.len() > 0 {
            lemma_total_update(before, before.len() - 1, before.last());
            assert(is_sound(before[before.len() - 1]));
        }
        let after = collapsed(records, kind, match_mode, m);
        assert forall|i: int| 0 <= i < after.len() implies is_sound(#[trigger] after[i]) by {
            if i < before.len() - 1 {
                assert(is_sound(before[i]));
            }
        }
    }
}

/// Whatever the options, every group of a run stands for at least one record,
/// spans the time of its representative, and lists one to three exemplars of
/// each kind.
pub proof fn law_groups_are_sound(records: Seq<FlatModel>, opts: OptsModel)
    requires
        records.len() + 1 < i64::MAX,
        drain_ok(opts.miner),
        opts.miner.clusters.len() == 0,
    ensures
        all_sound(dedup_groups(records, opts)),
{
    if opts.mode == DedupMode::Collapse {
        lemma_sound_collapsed(records, opts.bucket_key, opts.match_mode, opts.miner);
    } else {
        let b = bucketed(records, BucketKeyKind::Global);
        lemma_groups_bounded(records);
        lemma_sound_exact(b);
        let exact = exact_groups(b);
        lemma_sound_canon(exact);
        let canon = canon_groups(exact);
        lemma_sound_buckets(canon);
        lemma_group_buckets(canon);
        let gb = group_buckets(canon);
        assert forall|i: int| 0 <= i < gb.len() implies (#[trigger] gb[i]).1.len() + 1 < i64::MAX
            && all_sound(gb[i].1) by {
            assert(gb[i].1.len() <= canon.len());
        }
        lemma_sound_residuals(gb, opts.miner);
    }
}

} // verus!
