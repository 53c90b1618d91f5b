//! Where the times, the representatives and the runs of groups come from.
use vstd::prelude::*;
use vstd::utf8::encode_utf8;

use crate::bridge::hashing::xxh3;
use crate::dedup::bucket::{bucket_keys, bucketed};
use crate::dedup::canon::{annotated, canon_body, canon_groups};
use crate::dedup::collapse::{candidate, collapsed, law_collapse_counts_every_record, mined_together, opened, taken_in};
use crate::dedup::drain3::{drain_ok, DrainModel};
use crate::dedup::exact::{bucket_groups, exact_groups};
use crate::dedup::flat_record::{key_of, BucketKeyKind, FlatModel, KeyModel};
use crate::dedup::residuals::{
    bucket_residuals, cluster_groups, drained, group_buckets, group_bucket_keys, is_merged,
    is_residual, lemma_group_buckets, lemma_members_range, lemma_mined, members, merged_at, mined, residual_groups,
};
use crate::dedup::{
    dedup_groups, effective_time, find_index, group_absorb, group_new, identities,
    lemma_first_index_hit, lemma_groups_bounded, lemma_total_update, DedupMatchMode, DedupMode,
    GroupModel, OptsModel,
};
use crate::text::seqs::first_index;

verus! {

/// The time of a record is the time it gives for the event; a record without
/// one has the time at which it was observed.
pub proof fn law_event_time_comes_first(rec: FlatModel)
    ensures
        rec.time_unix_nano > 0 ==> effective_time(rec) == rec.time_unix_nano,
        rec.time_unix_nano == 0 ==> effective_time(rec) == rec.observed_time_unix_nano,
{
}

/// Some record has this time.
pub open spec fn is_time_of(t: u64, records: Seq<FlatModel>) -> bool {
    exists|i: int| 0 <= i < records.len() && effective_time(#[trigger] records[i]) == t
}

/// A group is drawn from records: its representative is one of them, and it
/// starts and ends at times of theirs.
#[verifier::opaque]
pub open spec fn is_drawn_from(g: GroupModel, records: Seq<FlatModel>) -> bool {
    &&& records.contains(g.representative)
    &&& is_time_of(g.first_seen_ns, records)
    &&& is_time_of(g.last_seen_ns, records)
}

/// Every group is drawn from records.
pub open spec fn all_drawn_from(groups: Seq<GroupModel>, records: Seq<FlatModel>) -> bool {
    forall|i: int| 0 <= i < groups.len() ==> is_drawn_from(#[trigger] groups[i], records)
}

/// Every record is one of `all`.
spec fn within(records: Seq<FlatModel>, all: Seq<FlatModel>) -> bool {
    forall|i: int| 0 <= i < records.len() ==> all.contains(#[trigger] records[i])
}

/// Some group spans a time.
pub open spec fn spans(groups: Seq<GroupModel>, t: u64) -> bool {
    exists|i: int|
        0 <= i < groups.len() && (#[trigger] groups[i]).first_seen_ns <= t
            <= groups[i].last_seen_ns
}

proof fn lemma_new_is_drawn(key: KeyModel, signature: u64, rec: FlatModel, all: Seq<FlatModel>)
    requires
        all.contains(rec),
    ensures
        is_drawn_from(group_new(key, signature, rec), all),
{
    reveal(is_drawn_from);
    let i = choose|i: int| 0 <= i < all.len() && all[i] == rec;
    assert(effective_time(all[i]) == effective_time(rec));
}

proof fn lemma_absorb_is_drawn(g: GroupModel, rec: FlatModel, all: Seq<FlatModel>)
    requires
        is_drawn_from(g, all),
        all.contains(rec),
    ensures
        is_drawn_from(group_absorb(g, rec), all),
{
    reveal(is_drawn_from);
    let i = choose|i: int| 0 <= i < all.len() && all[i] == rec;
    assert(effective_time(all[i]) == effective_time(rec));
}

proof fn lemma_drawn_bucket(key: KeyModel, records: Seq<FlatModel>, all: Seq<FlatModel>)
    requires
        within(records, all),
    ensures
        all_drawn_from(bucket_groups(key, records), all),
        forall|i: int|
            0 <= i < records.len() ==> spans(
                bucket_groups(key, records),
                effective_time(#[trigger] records[i]),
            ),
    decreases records.len(),
{
    if records.len() > 0 {
        let init = records.drop_last();
        let rec = records.last();
        let before = bucket_groups(key, init);
        let after = bucket_groups(key, records);
        let h = xxh3(encode_utf8(rec.body));
        assert forall|i: int| 0 <= i < init.len() implies all.contains(#[trigger] init[i]) by {
            assert(all.contains(records[i]));
        }
        assert(all.contains(records[records.len() - 1]));
        lemma_drawn_bucket(key, init, all);
        let at = find_index(before, key, h);
        lemma_first_index_hit(identities(before), (key, h));
        if at < before.len() {
            lemma_absorb_is_drawn(before[at], rec, all);
        } else {
            lemma_new_is_drawn(key, h, rec, all);
        }
        assert forall|i: int| 0 <= i < records.len() implies spans(
            after,
            effective_time(#[trigger] records[i]),
        ) by {
            if i < init.len() {
                assert(init[i] == records[i]);
                assert(spans(before, effective_time(init[i])));
                let g = choose|g: int|
                    0 <= g < before.len() && (#[trigger] before[g]).first_seen_ns
                        <= effective_time(init[i]) <= before[g].last_seen_ns;
                assert(after[g].first_seen_ns <= effective_time(records[i])
                    <= after[g].last_seen_ns);
            } else {
                let g = if at < before.len() {
                    at
                } else {
                    before.len() as int
                };
                assert(after[g].first_seen_ns <= effective_time(records[i])
                    <= after[g].last_seen_ns);
            }
        }
    }
}

proof fn lemma_spans_concat(a: Seq<GroupModel>, b: Seq<GroupModel>, t: u64)
    ensures
        spans(a, t) || spans(b, t) ==> spans(a + b, t),
        spans(a, t) || spans(b, t) ==> spans(b + a, t),
{
    if spans(a, t) {
        let i = choose|i: int|
            0 <= i < a.len() && (#[trigger] a[i]).first_seen_ns <= t <= a[i].last_seen_ns;
        assert((a + b)[i] == a[i]);
        assert((b + a)[b.len() + i] == a[i]);
    } else if spans(b, t) {
        let i = choose|i: int|
            0 <= i < b.len() && (#[trigger] b[i]).first_seen_ns <= t <= b[i].last_seen_ns;
        assert((a + b)[a.len() + i] == b[i]);
        assert((b + a)[i] == b[i]);
    }
}

proof fn lemma_drawn_exact(b: Seq<(KeyModel, Seq<FlatModel>)>, all: Seq<FlatModel>)
    requires
        forall|k: int| 0 <= k < b.len() ==> within((#[trigger] b[k]).1, all),
    ensures
        all_drawn_from(exact_groups(b), all),
        forall|k: int, i: int|
            0 <= k < b.len() && 0 <= i < b[k].1.len() ==> spans(
                exact_groups(b),
                effective_time(#[trigger] b[k].1[i]),
            ),
    decreases b.len(),
{
    if b.len() > 0 {
        let init = b.drop_last();
        let own = b.last();
        assert forall|k: int| 0 <= k < init.len() implies within((#[trigger] init[k]).1, all) by {
            assert(within(b[k].1, all));
        }
        assert(within(b[b.len() - 1].1, all));
        lemma_drawn_exact(init, all);
        lemma_drawn_bucket(own.0, own.1, all);
        assert forall|k: int, i: int| 0 <= k < b.len() && 0 <= i < b[k].1.len() implies spans(
            exact_groups(b),
            effective_time(#[trigger] b[k].1[i]),
        ) by {
            let t = effective_time(b[k].1[i]);
            if k < init.len() {
                assert(init[k].1[i] == b[k].1[i]);
                assert(spans(exact_groups(init), effective_time(init[k].1[i])));
            } else {
                assert(spans(bucket_groups(own.0, own.1), effective_time(own.1[i])));
            }
            lemma_spans_concat(exact_groups(init), bucket_groups(own.0, own.1), t);
        }
    }
}

proof fn lemma_canon_drawn(groups: Seq<GroupModel>, all: Seq<FlatModel>)
    requires
        all_drawn_from(groups, all),
    ensures
        all_drawn_from(canon_groups(groups), all),
        forall|t: u64| spans(groups, t) ==> #[trigger] spans(canon_groups(groups), t),
    decreases groups.len(),
{
    reveal(is_drawn_from);
    if groups.len() > 0 {
        let init = groups.drop_last();
        let before = canon_groups(init);
        let after = canon_groups(groups);
        let g = annotated(groups.last());
        assert(is_drawn_from(groups[groups.len() - 1], all));
        assert forall|i: int| 0 <= i < init.len() implies is_drawn_from(
            #[trigger] init[i],
            all,
        ) by {
            assert(is_drawn_from(groups[i], all));
        }
        lemma_canon_drawn(init, all);
        lemma_first_index_hit(identities(before), (g.bucket_key, g.signature));
        let at = find_index(before, g.bucket_key, g.signature);
        assert forall|t: u64| spans(groups, t) implies #[trigger] spans(after, t) by {
            let i = choose|i: int|
                0 <= i < groups.len() && (#[trigger] groups[i]).first_seen_ns <= t
                    <= groups[i].last_seen_ns;
            if i < init.len() {
                assert(init[i] == groups[i]);
                assert(spans(init, t));
                assert(spans(before, t));
                let k = choose|k: int|
                    0 <= k < before.len() && (#[trigger] before[k]).first_seen_ns <= t
                        <= before[k].last_seen_ns;
                assert(after[k].first_seen_ns <= t <= after[k].last_seen_ns);
            } else {
                let k = if at < before.len() {
                    at
                } else {
                    before.len() as int
                };
                assert(after[k].first_seen_ns <= t <= after[k].last_seen_ns);
            }
        }
    }
}

proof fn lemma_merged_drawn(groups: Seq<GroupModel>, indices: Seq<int>, all: Seq<FlatModel>)
    requires
        all_drawn_from(groups, all),
        indices.len() >= 1,
        forall|i: int| 0 <= i < indices.len() ==> 0 <= #[trigger] indices[i] < groups.len(),
    ensures
        is_drawn_from(merged_at(groups, indices), all),
        forall|i: int|
            0 <= i < indices.len() ==> merged_at(groups, indices).first_seen_ns
                <= groups[#[trigger] indices[i]].first_seen_ns
                && groups[indices[i]].last_seen_ns <= merged_at(groups, indices).last_seen_ns,
    decreases indices.len(),
{
    reveal(is_drawn_from);
    if indices.len() == 1 {
        assert(is_drawn_from(groups[indices[0]], all));
    } else {
        let init = indices.drop_last();
        assert forall|i: int| 0 <= i < init.len() implies 0 <= #[trigger] init[i]
            < groups.len() by {
            assert(0 <= indices[i] < groups.len());
        }
        lemma_merged_drawn(groups, init, all);
        assert(is_drawn_from(groups[indices[indices.len() - 1]], all));
        let m = merged_at(groups, indices);
        assert forall|i: int| 0 <= i < indices.len() implies m.first_seen_ns
            <= groups[#[trigger] indices[i]].first_seen_ns && groups[indices[i]].last_seen_ns
            <= m.last_seen_ns by {
            if i < init.len() {
                assert(init[i] == indices[i]);
            }
        }
    }
}

proof fn lemma_is_member(ids: Seq<i64>, i: int)
    requires
        0 <= i < ids.len(),
    ensures
        members(ids, ids[i] as int).contains(i),
    decreases ids.len(),
{
    let k = ids[i] as int;
    if i == ids.len() - 1 {
        assert(members(ids, k).last() == i);
    } else {
        lemma_is_member(ids.drop_last(), i);
        let before = members(ids.drop_last(), k);
        let j = choose|j: int| 0 <= j < before.len() && before[j] == i;
        assert(members(ids, k)[j] == i);
    }
}

proof fn lemma_clusters_drawn(
    groups: Seq<GroupModel>,
    m: DrainModel,
    k: int,
    all: Seq<FlatModel>,
)
    requires
        all_drawn_from(groups, all),
        drain_ok(m),
        m.clusters.len() == 0,
        groups.len() + 1 < i64::MAX,
        0 <= k <= mined(m, groups).0.clusters.len(),
    ensures
        all_drawn_from(cluster_groups(groups, mined(m, groups).0, mined(m, groups).1, k), all),
        cluster_groups(groups, mined(m, groups).0, mined(m, groups).1, k).len() == k,
        forall|i: int|
            0 <= i < groups.len() && 1 <= #[trigger] mined(m, groups).1[i] <= k ==> ({
                let c = cluster_groups(
                    groups,
                    mined(m, groups).0,
                    mined(m, groups).1,
                    k,
                )[mined(m, groups).1[i] - 1];
                c.first_seen_ns <= groups[i].first_seen_ns && groups[i].last_seen_ns
                    <= c.last_seen_ns
            }),
    decreases k,
{
    reveal(is_drawn_from);
    if k > 0 {
        let (after, ids) = mined(m, groups);
        lemma_mined(m, groups);
        lemma_clusters_drawn(groups, m, k - 1, all);
        let ix = members(ids, k);
        assert(ix.len() >= 1);
        lemma_members_range(ids, k);
        lemma_merged_drawn(groups, ix, all);
        let before = cluster_groups(groups, after, ids, k - 1);
        let now = cluster_groups(groups, after, ids, k);
        assert forall|i: int| 0 <= i < groups.len() && 1 <= #[trigger] ids[i] <= k implies ({
            let c = now[ids[i] - 1];
            c.first_seen_ns <= groups[i].first_seen_ns && groups[i].last_seen_ns <= c.last_seen_ns
        }) by {
            if ids[i] == k {
                lemma_is_member(ids, i);
                let j = choose|j: int| 0 <= j < ix.len() && ix[j] == i;
                assert(merged_at(groups, ix).first_seen_ns <= groups[ix[j]].first_seen_ns);
            } else {
                assert(now[ids[i] - 1] == before[ids[i] - 1]);
            }
        }
    }
}

proof fn lemma_filter_drawn(
    groups: Seq<GroupModel>,
    all: Seq<FlatModel>,
)
    requires
        all_drawn_from(groups, all),
    ensures
        all_drawn_from(groups.filter(is_merged()), all),
        all_drawn_from(groups.filter(is_residual()), all),
        groups.filter(is_residual()).len() <= groups.len(),
        forall|t: u64|
            spans(groups, t) ==> #[trigger] spans(groups.filter(is_merged()), t) || spans(
                groups.filter(is_residual()),
                t,
            ),
{
    let a = groups.filter(is_merged());
    let b = groups.filter(is_residual());
    assert forall|i: int| 0 <= i < a.len() implies is_drawn_from(#[trigger] a[i], all) by {
        groups.lemma_filter_contains_rev(is_merged(), a[i]);
        let j = choose|j: int| 0 <= j < groups.len() && groups[j] == a[i];
        assert(is_drawn_from(groups[j], all));
    }
    assert forall|i: int| 0 <= i < b.len() implies is_drawn_from(#[trigger] b[i], all) by {
        groups.lemma_filter_contains_rev(is_residual(), b[i]);
        let j = choose|j: int| 0 <= j < groups.len() && groups[j] == b[i];
        assert(is_drawn_from(groups[j], all));
    }
    groups.lemma_filter_len(is_residual());
    assert forall|t: u64| spans(groups, t) implies #[trigger] spans(a, t) || spans(b, t) by {
        let i = choose|i: int|
            0 <= i < groups.len() && (#[trigger] groups[i]).first_seen_ns <= t
                <= groups[i].last_seen_ns;
        if groups[i].count > 1 {
            groups.lemma_filter_contains(is_merged(), i);
            let j = choose|j: int| 0 <= j < a.len() && a[j] == groups[i];
            assert(a[j].first_seen_ns <= t <= a[j].last_seen_ns);
        } else {
            groups.lemma_filter_contains(is_residual(), i);
            let j = choose|j: int| 0 <= j < b.len() && b[j] == groups[i];
            assert(b[j].first_seen_ns <= t <= b[j].last_seen_ns);
        }
    }
}

proof fn lemma_bucketed_within(records: Seq<FlatModel>, kind: BucketKeyKind, all: Seq<FlatModel>)
    requires
        within(records, all),
    ensures
        forall|k: int|
            0 <= k < bucketed(records, kind).len() ==> within(
                (#[trigger] bucketed(records, kind)[k]).1,
                all,
            ),
        forall|i: int|
            0 <= i < records.len() ==> exists|k: int, j: int|
                0 <= k < bucketed(records, kind).len() && 0 <= j < bucketed(records, kind)[k].1.len()
                    && #[trigger] bucketed(records, kind)[k].1[j] == #[trigger] records[i],
    decreases records.len(),
{
    if records.len() > 0 {
        let init = records.drop_last();
        let rec = records.last();
        let before = bucketed(init, kind);
        let after = bucketed(records, kind);
        let key = key_of(rec, kind);
        assert forall|i: int| 0 <= i < init.len() implies all.contains(#[trigger] init[i]) by {
            assert(all.contains(records[i]));
        }
        assert(all.contains(records[records.len() - 1]));
        lemma_bucketed_within(init, kind, all);
        lemma_first_index_hit(bucket_keys(before), key);
        let at = first_index(bucket_keys(before), key);
        assert forall|k: int| 0 <= k < after.len() implies within((#[trigger] after[k]).1, all) by {
            if k < before.len() {
                assert(within(before[k].1, all));
                if k == at {
                    assert(after[k].1 == before[k].1.push(rec));
                    assert forall|j: int| 0 <= j < after[k].1.len() implies all.contains(
                        #[trigger] after[k].1[j],
                    ) by {
                        if j < before[k].1.len() {
                            assert(all.contains(before[k].1[j]));
                        }
                    }
                }
            } else {
                assert(after[k].1 == seq![rec]);
            }
        }
        assert forall|i: int| 0 <= i < records.len() implies exists|k: int, j: int|
            0 <= k < after.len() && 0 <= j < after[k].1.len() && #[trigger] after[k].1[j]
                == #[trigger] records[i] by {
            if i < init.len() {
                assert(init[i] == records[i]);
                let (k, j) = choose|k: int, j: int|
                    0 <= k < before.len() && 0 <= j < before[k].1.len()
                        && #[trigger] before[k].1[j] == init[i];
                assert(after[k].1[j] == records[i]);
            } else if at < before.len() {
                assert(after[at].1[before[at].1.len() as int] == records[i]);
            } else {
                assert(after[at].1[0] == records[i]);
            }
        }
    }
}

proof fn lemma_group_buckets_drawn(groups: Seq<GroupModel>, all: Seq<FlatModel>)
    requires
        all_drawn_from(groups, all),
    ensures
        forall|k: int|
            0 <= k < group_buckets(groups).len() ==> all_drawn_from(
                (#[trigger] group_buckets(groups)[k]).1,
                all,
            ),
        forall|t: u64| #[trigger]
            spans(groups, t) ==> exists|k: int|
                0 <= k < group_buckets(groups).len() && spans(
                    (#[trigger] group_buckets(groups)[k]).1,
                    t,
                ),
    decreases groups.len(),
{
    if groups.len() > 0 {
        let init = groups.drop_last();
        let g = groups.last();
        let before = group_buckets(init);
        let after = group_buckets(groups);
        assert(is_drawn_from(groups[groups.len() - 1], all));
        assert forall|i: int| 0 <= i < init.len() implies is_drawn_from(#[trigger] init[i], all) by {
            assert(is_drawn_from(groups[i], all));
        }
        lemma_group_buckets_drawn(init, all);
        lemma_first_index_hit(group_bucket_keys(before), g.bucket_key);
        let at = first_index(group_bucket_keys(before), g.bucket_key);
        assert forall|k: int| 0 <= k < after.len() implies all_drawn_from(
            (#[trigger] after[k]).1,
            all,
        ) by {
            if k < before.len() {
                assert(all_drawn_from(before[k].1, all));
                if k == at {
                    assert(after[k].1 == before[k].1.push(g));
                }
            } else {
                assert(after[k].1 == seq![g]);
            }
        }
        assert forall|t: u64| #[trigger] spans(groups, t) implies exists|k: int|
            0 <= k < after.len() && spans((#[trigger] after[k]).1, t) by {
            let i = choose|i: int|
                0 <= i < groups.len() && (#[trigger] groups[i]).first_seen_ns <= t
                    <= groups[i].last_seen_ns;
            if i < init.len() {
                assert(init[i] == groups[i]);
                assert(spans(init, t));
                let k = choose|k: int|
                    0 <= k < before.len() && spans((#[trigger] before[k]).1, t);
                let j = choose|j: int|
                    0 <= j < before[k].1.len() && (#[trigger] before[k].1[j]).first_seen_ns <= t
                        <= before[k].1[j].last_seen_ns;
                assert(after[k].1[j] == before[k].1[j]);
                assert(spans(after[k].1, t));
            } else if at < before.len() {
                assert(after[at].1 == before[at].1.push(g));
                assert(after[at].1[before[at].1.len() as int] == g);
                assert(spans(after[at].1, t));
            } else {
                assert(after[at].1 == seq![g]);
                assert(after[at].1[0] == g);
                assert(spans(after[at].1, t));
            }
        }
    }
}

proof fn lemma_concat_drawn(a: Seq<GroupModel>, b: Seq<GroupModel>, all: Seq<FlatModel>)
    requires
        all_drawn_from(a, all),
        all_drawn_from(b, all),
    ensures
        all_drawn_from(a + b, all),
{
    assert forall|i: int| 0 <= i < (a + b).len() implies is_drawn_from(
        #[trigger] (a + b)[i],
        all,
    ) by {
        if i < a.len() {
            assert(is_drawn_from(a[i], all));
        } else {
            assert(is_drawn_from(b[i - a.len()], all));
        }
    }
}

proof fn lemma_bucket_residuals_drawn(
    groups: Seq<GroupModel>,
    m: DrainModel,
    all: Seq<FlatModel>,
)
    requires
        drain_ok(m),
        m.clusters.len() == 0,
        groups.len() + 1 < i64::MAX,
        all_drawn_from(groups, all),
    ensures
        all_drawn_from(bucket_residuals(groups, m), all),
        forall|t: u64| spans(groups, t) ==> #[trigger] spans(bucket_residuals(groups, m), t),
{
    let kept = groups.filter(is_merged());
    let single = groups.filter(is_residual());
    lemma_filter_drawn(groups, all);
    lemma_concat_drawn(kept, single, all);
    let n = mined(m, single).0.clusters.len() as int;
    lemma_mined(m, single);
    lemma_clusters_drawn(single, m, n, all);
    lemma_concat_drawn(drained(single, m), kept, all);
    assert forall|t: u64| spans(groups, t) implies #[trigger] spans(
        bucket_residuals(groups, m),
        t,
    ) by {
        assert(spans(kept, t) || spans(single, t));
        if spans(single, t) {
            let i = choose|i: int|
                0 <= i < single.len() && (#[trigger] single[i]).first_seen_ns <= t
                    <= single[i].last_seen_ns;
            let ids = mined(m, single).1;
            assert(1 <= ids[i] <= n);
            let c = drained(single, m)[ids[i] - 1];
            assert(c.first_seen_ns <= t <= c.last_seen_ns);
            assert(spans(drained(single, m), t));
        }
        lemma_spans_concat(kept, single, t);
        lemma_spans_concat(drained(single, m), kept, t);
    }
}

proof fn lemma_residuals_drawn(
    b: Seq<(KeyModel, Seq<GroupModel>)>,
    m: DrainModel,
    all: Seq<FlatModel>,
)
    requires
        drain_ok(m),
        m.clusters.len() == 0,
        forall|k: int|
            0 <= k < b.len() ==> (#[trigger] b[k]).1.len() + 1 < i64::MAX && all_drawn_from(
                b[k].1,
                all,
            ),
    ensures
        all_drawn_from(residual_groups(b, m), all),
        forall|k: int, t: u64|
            0 <= k < b.len() && #[trigger] spans(b[k].1, t) ==> spans(residual_groups(b, m), t),
    decreases b.len(),
{
    if b.len() > 0 {
        let init = b.drop_last();
        let own = b.last().1;
        assert forall|k: int| 0 <= k < init.len() implies (#[trigger] init[k]).1.len() + 1
            < i64::MAX && all_drawn_from(init[k].1, all) by {
            assert(all_drawn_from(b[k].1, all));
        }
        assert(all_drawn_from(b[b.len() - 1].1, all));
        lemma_residuals_drawn(init, m, all);
        lemma_bucket_residuals_drawn(own, m, all);
        lemma_concat_drawn(residual_groups(init, m), bucket_residuals(own, m), all);
        assert forall|k: int, t: u64| 0 <= k < b.len() && #[trigger] spans(b[k].1, t) implies spans(
            residual_groups(b, m),
            t,
        ) by {
            if k < init.len() {
                assert(spans(init[k].1, t));
            } else {
                assert(spans(own, t));
                assert(spans(bucket_residuals(own, m), t));
            }
            lemma_spans_concat(residual_groups(init, m), bucket_residuals(own, m), t);
        }
    }
}

proof fn lemma_collapsed_drawn(
    records: Seq<FlatModel>,
    kind: BucketKeyKind,
    match_mode: DedupMatchMode,
    m: DrainModel,
    all: Seq<FlatModel>,
)
    requires
        within(records, all),
    ensures
        all_drawn_from(collapsed(records, kind, match_mode, m), all),
        forall|i: int|
            0 <= i < records.len() ==> spans(
                collapsed(records, kind, match_mode, m),
                effective_time(#[trigger] records[i]),
            ),
    decreases records.len(),
{
    reveal(is_drawn_from);
    if records.len() > 0 {
        let init = records.drop_last();
        let rec = records.last();
        let before = collapsed(init, kind, match_mode, m);
        let after = collapsed(records, kind, match_mode, m);
        let c = candidate(rec, kind, match_mode);
        assert forall|i: int| 0 <= i < init.len() implies all.contains(#[trigger] init[i]) by {
            assert(all.contains(records[i]));
        }
        assert(all.contains(records[records.len() - 1]));
        lemma_collapsed_drawn(init, kind, match_mode, m, all);
        lemma_new_is_drawn(c.key, c.signature, rec, all);
        assert(is_drawn_from(opened(c), all));
        let joins = before.len() > 0 && taken_in(before.last(), c, match_mode, m) is Some;
        if before.len() > 0 {
            assert(is_drawn_from(before[before.len() - 1], all));
            lemma_absorb_is_drawn(before.last(), rec, all);
            if let Some(g) = mined_together(before.last(), c, m) {
                assert(is_drawn_from(g, all));
                lemma_absorb_is_drawn(g, rec, all);
            }
        }
        assert forall|i: int| 0 <= i < after.len() implies is_drawn_from(
            #[trigger] after[i],
            all,
        ) by {
            if i < before.len() - 1 {
                assert(is_drawn_from(before[i], all));
            } else if !joins && i == before.len() - 1 {
                assert(is_drawn_from(before[i], all));
            }
        }
        assert forall|i: int| 0 <= i < records.len() implies spans(
            after,
            effective_time(#[trigger] records[i]),
        ) by {
            let t = effective_time(records[i]);
            if i < init.len() {
                assert(init[i] == records[i]);
                assert(spans(before, effective_time(init[i])));
                let g = choose|g: int|
                    0 <= g < before.len() && (#[trigger] before[g]).first_seen_ns <= t
                        <= before[g].last_seen_ns;
                assert(after[g].first_seen_ns <= t <= after[g].last_seen_ns);
            } else {
                let g = after.len() - 1;
                assert(after[g].first_seen_ns <= t <= after[g].last_seen_ns);
            }
        }
    }
}

/// The time of every record lies within the span of some group.
pub open spec fn all_spanned(groups: Seq<GroupModel>, records: Seq<FlatModel>) -> bool {
    forall|i: int|
        0 <= i < records.len() ==> spans(groups, effective_time(#[trigger] records[i]))
}

proof fn lemma_exact_spans(records: Seq<FlatModel>)
    ensures
        all_drawn_from(exact_groups(bucketed(records, BucketKeyKind::Global)), records),
        all_spanned(exact_groups(bucketed(records, BucketKeyKind::Global)), records),
{
    assert(within(records, records));
    let b = bucketed(records, BucketKeyKind::Global);
    lemma_bucketed_within(records, BucketKeyKind::Global, records);
    lemma_drawn_exact(b, records);
    let exact = exact_groups(b);
    assert forall|i: int| 0 <= i < records.len() implies spans(
        exact,
        effective_time(#[trigger] records[i]),
    ) by {
        let (k, j) = choose|k: int, j: int|
            0 <= k < b.len() && 0 <= j < b[k].1.len() && #[trigger] b[k].1[j] == records[i];
        assert(spans(exact, effective_time(b[k].1[j])));
    }
}

proof fn lemma_canon_spans(groups: Seq<GroupModel>, records: Seq<FlatModel>)
    requires
        all_drawn_from(groups, records),
        all_spanned(groups, records),
    ensures
        all_drawn_from(canon_groups(groups), records),
        all_spanned(canon_groups(groups), records),
{
    lemma_canon_drawn(groups, records);
    assert forall|i: int| 0 <= i < records.len() implies spans(
        canon_groups(groups),
        effective_time(#[trigger] records[i]),
    ) by {
        assert(spans(groups, effective_time(records[i])));
    }
}

proof fn lemma_residual_spans(groups: Seq<GroupModel>, m: DrainModel, records: Seq<FlatModel>)
    requires
        drain_ok(m),
        m.clusters.len() == 0,
        groups.len() + 1 < i64::MAX,
        all_drawn_from(groups, records),
        all_spanned(groups, records),
    ensures
        all_drawn_from(residual_groups(group_buckets(groups), m), records),
        all_spanned(residual_groups(group_buckets(groups), m), records),
{
    let gb = group_buckets(groups);
    lemma_group_buckets_drawn(groups, records);
    lemma_group_buckets(groups);
    assert forall|k: int| 0 <= k < gb.len() implies (#[trigger] gb[k]).1.len() + 1 < i64::MAX
        && all_drawn_from(gb[k].1, records) by {
        assert(gb[k].1.len() <= groups.len());
    }
    lemma_residuals_drawn(gb, m, records);
    assert forall|i: int| 0 <= i < records.len() implies spans(
        residual_groups(gb, m),
        effective_time(#[trigger] records[i]),
    ) by {
        let t = effective_time(records[i]);
        assert(spans(groups, t));
        let k = choose|k: int| 0 <= k < gb.len() && spans((#[trigger] gb[k]).1, t);
        assert(spans(gb[k].1, t));
    }
}

/// Whatever the options, a group is represented by one of the records, and
/// starts and ends at times of records; and the time of every record lies
/// within the span of some group.
pub proof fn law_spans_end_at_records(records: Seq<FlatModel>, opts: OptsModel)
    requires
        records.len() + 1 < i64::MAX,
        drain_ok(opts.miner),
        opts.miner.clusters.len() == 0,
    ensures
        all_drawn_from(dedup_groups(records, opts), records),
        all_spanned(dedup_groups(records, opts), records),
{
    if opts.mode == DedupMode::Collapse {
        assert(within(records, records));
        lemma_collapsed_drawn(records, opts.bucket_key, opts.match_mode, opts.miner, records);
    } else {
        let exact = exact_groups(bucketed(records, BucketKeyKind::Global));
        lemma_exact_spans(records);
        lemma_groups_bounded(records);
        lemma_canon_spans(exact, records);
        lemma_residual_spans(canon_groups(exact), opts.miner, records);
    }
}

/// Two records match without template mining: they lie in one bucket, and their
/// bodies, or under canonical matching their canonical bodies, have one hash.
pub open spec fn match_plainly(
    a: FlatModel,
    b: FlatModel,
    kind: BucketKeyKind,
    match_mode: DedupMatchMode,
) -> bool {
    &&& key_of(a, kind) == key_of(b, kind)
    &&& if match_mode == DedupMatchMode::Exact {
        xxh3(encode_utf8(a.body)) == xxh3(encode_utf8(b.body))
    } else {
        xxh3(encode_utf8(canon_body(a.body).0)) == xxh3(encode_utf8(canon_body(b.body).0))
    }
}

proof fn lemma_last_group(
    records: Seq<FlatModel>,
    kind: BucketKeyKind,
    match_mode: DedupMatchMode,
    m: DrainModel,
)
    requires
        match_mode != DedupMatchMode::Full,
        records.len() > 0,
    ensures
        collapsed(records, kind, match_mode, m).len() > 0,
        ({
            let g = collapsed(records, kind, match_mode, m).last();
            let c = candidate(records.last(), kind, match_mode);
            g.bucket_key == c.key && g.signature == c.signature
        }),
{
}

/// Without template mining, collapsing looks only at neighbours: a record that
/// matches the one just before it joins its group, which keeps its
/// representative and counts one more; any other record opens a group of its
/// own, also where its message was seen before. Earlier groups stay.
pub proof fn law_only_neighbours_collapse(
    records: Seq<FlatModel>,
    next: FlatModel,
    kind: BucketKeyKind,
    match_mode: DedupMatchMode,
    m: DrainModel,
)
    requires
        match_mode != DedupMatchMode::Full,
        records.len() > 0,
        records.len() < u64::MAX,
    ensures
        ({
            let before = collapsed(records, kind, match_mode, m);
            let after = collapsed(records.push(next), kind, match_mode, m);
            if match_plainly(records.last(), next, kind, match_mode) {
                &&& after.len() == before.len()
                &&& after.drop_last() == before.drop_last()
                &&& after.last().count == before.last().count + 1
                &&& after.last().representative == before.last().representative
            } else {
                &&& after.len() == before.len() + 1
                &&& after.drop_last() == before
                &&& after.last().count == 1
                &&& after.last().representative == next
            }
        }),
{
    let before = collapsed(records, kind, match_mode, m);
    let after = collapsed(records.push(next), kind, match_mode, m);
    assert(records.push(next).drop_last() =~= records);
    lemma_last_group(records, kind, match_mode, m);
    law_collapse_counts_every_record(records, kind, match_mode, m);
    lemma_total_update(before, before.len() - 1, before.last());
    assert(before.update(before.len() - 1, before.last()) =~= before);
    assert(before.last().count < u64::MAX);
    assert(after.drop_last() =~= if match_plainly(records.last(), next, kind, match_mode) {
        before.drop_last()
    } else {
        before
    });
}

/// Template mining leaves groups of several records as they are, and a single
/// record that is alone in its bucket.
pub proof fn law_merged_groups_are_not_mined(groups: Seq<GroupModel>, m: DrainModel, i: int)
    requires
        0 <= i < groups.len(),
        groups[i].count > 1,
    ensures
        bucket_residuals(groups, m).contains(groups[i]),
{
    let kept = groups.filter(is_merged());
    let single = groups.filter(is_residual());
    groups.lemma_filter_contains(is_merged(), i);
    let j = choose|j: int| 0 <= j < kept.len() && kept[j] == groups[i];
    assert((kept + single)[j] == groups[i]);
    assert((drained(single, m) + kept)[drained(single, m).len() + j] == groups[i]);
}

} // verus!
