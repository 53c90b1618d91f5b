//! Runs the template miner over the groups that are still single records.
use vstd::prelude::*;
use vstd::utf8::encode_utf8;

use crate::bridge::hashing::{xxh3, xxh3_64};
use crate::dedup::drain3::{
    drain_ok, drain_step, first_state, lemma_matched_cluster, lemma_step_ok, tokens_of, Drain, DrainConfig,
    DrainModel, Ratio,
};
use crate::dedup::flat_record::{BucketKey, KeyModel};
use crate::dedup::{
    group_merge, groups_view, lemma_first_index_hit, lemma_total_concat, lemma_total_push,
    total_count, DedupGroup, DrainOpts, GroupModel,
};
use crate::text::seqs::{first_index, joined, lemma_first_index};
use crate::text::strings::{copy_texts, texts};

verus! {

/// The miner that the options ask for, before its first message.
pub open spec fn fresh_miner(depth: i64, sim_th: Ratio, delimiters: Seq<Seq<char>>) -> DrainModel {
    first_state(depth, sim_th, 100, delimiters, true)
}

/// The miner that the options ask for.
pub fn new_miner(opts: &DrainOpts, max_clusters: usize) -> (r: Drain)
    requires
        opts.sim_th.den >= 1,
    ensures
        r.wf(),
        r@ == fresh_miner(opts.depth, opts.sim_th, texts(opts.extra_delimiters@)),
{
    Drain::new(
        DrainConfig {
            depth: opts.depth,
            sim_th: opts.sim_th,
            max_children: 100,
            max_clusters,
            extra_delimiters: copy_texts(&opts.extra_delimiters),
            parametrize_numeric_tokens: true,
        },
    )
}

/// The text of a group that the miner sees.
pub open spec fn mined_text(g: GroupModel) -> Seq<char> {
    match g.canonical_body {
        Some(c) => c,
        None => g.representative.body,
    }
}

/// The miner after the texts of all groups, and the cluster id of each group.
pub open spec fn mined(m: DrainModel, groups: Seq<GroupModel>) -> (DrainModel, Seq<i64>)
    decreases groups.len(),
{
    if groups.len() == 0 {
        (m, Seq::empty())
    } else {
        let (before, ids) = mined(m, groups.drop_last());
        let (after, id) = drain_step(
            before,
            tokens_of(mined_text(groups.last()), before.delimiters),
        );
        (after, ids.push(id))
    }
}

/// The indices of the groups in cluster `k`.
pub open spec fn members(ids: Seq<i64>, k: int) -> Seq<int>
    decreases ids.len(),
{
    if ids.len() == 0 {
        Seq::empty()
    } else if ids.last() == k {
        members(ids.drop_last(), k).push(ids.len() - 1)
    } else {
        members(ids.drop_last(), k)
    }
}

/// The groups at these indices as one; the first lends its representative.
pub open spec fn merged_at(groups: Seq<GroupModel>, indices: Seq<int>) -> GroupModel
    decreases indices.len(),
{
    if indices.len() <= 1 {
        groups[indices[0]]
    } else {
        group_merge(merged_at(groups, indices.drop_last()), groups[indices.last()])
    }
}

/// The group of cluster `k`: a single member stays as it is, several are
/// merged under the template of the cluster.
pub open spec fn cluster_group(
    groups: Seq<GroupModel>,
    indices: Seq<int>,
    template: Seq<char>,
    k: int,
) -> GroupModel {
    if indices.len() == 1 {
        groups[indices[0]]
    } else {
        GroupModel {
            signature: xxh3(encode_utf8(template)),
            drain3_template: Some(template),
            drain3_cluster_id: Some(k as i64),
            ..merged_at(groups, indices)
        }
    }
}

/// The groups of the first `k` clusters.
pub open spec fn cluster_groups(
    groups: Seq<GroupModel>,
    m: DrainModel,
    ids: Seq<i64>,
    k: int,
) -> Seq<GroupModel>
    decreases k,
{
    if k <= 0 {
        Seq::empty()
    } else {
        cluster_groups(groups, m, ids, k - 1).push(
            cluster_group(groups, members(ids, k), joined(m.clusters[k - 1].tokens, " "@), k),
        )
    }
}

/// Single records grouped by template.
pub open spec fn drained(groups: Seq<GroupModel>, m: DrainModel) -> Seq<GroupModel> {
    let (after, ids) = mined(m, groups);
    cluster_groups(groups, after, ids, after.clusters.len() as int)
}

/// More than one record.
pub open spec fn is_merged() -> spec_fn(GroupModel) -> bool {
    |g: GroupModel| g.count > 1
}

/// A single record.
pub open spec fn is_residual() -> spec_fn(GroupModel) -> bool {
    |g: GroupModel| g.count <= 1
}

/// The groups of one bucket after template mining: groups of several records
/// stay, single records are mined if there are at least two.
pub open spec fn bucket_residuals(groups: Seq<GroupModel>, m: DrainModel) -> Seq<GroupModel> {
    let merged = groups.filter(is_merged());
    let residuals = groups.filter(is_residual());
    if residuals.len() < 2 || total_count(groups) == 0 {
        merged + residuals
    } else {
        drained(residuals, m) + merged
    }
}

/// The keys of a list of group buckets.
pub open spec fn group_bucket_keys(b: Seq<(KeyModel, Seq<GroupModel>)>) -> Seq<KeyModel> {
    b.map_values(|x: (KeyModel, Seq<GroupModel>)| x.0)
}

/// The buckets after a group was put into the one with its key.
pub open spec fn put_group(b: Seq<(KeyModel, Seq<GroupModel>)>, g: GroupModel) -> Seq<
    (KeyModel, Seq<GroupModel>),
> {
    let i = first_index(group_bucket_keys(b), g.bucket_key);
    if i < b.len() {
        b.update(i, (g.bucket_key, b[i].1.push(g)))
    } else {
        b.push((g.bucket_key, seq![g]))
    }
}

/// Groups by bucket key, buckets in the order of their first group.
pub open spec fn group_buckets(groups: Seq<GroupModel>) -> Seq<(KeyModel, Seq<GroupModel>)>
    decreases groups.len(),
{
    if groups.len() == 0 {
        Seq::empty()
    } else {
        put_group(group_buckets(groups.drop_last()), groups.last())
    }
}

/// The groups of all buckets after template mining, bucket by bucket.
pub open spec fn residual_groups(b: Seq<(KeyModel, Seq<GroupModel>)>, m: DrainModel) -> Seq<
    GroupModel,
>
    decreases b.len(),
{
    if b.len() == 0 {
        Seq::empty()
    } else {
        residual_groups(b.drop_last(), m) + bucket_residuals(b.last().1, m)
    }
}

/// The records of the groups whose ids lie in `1..=k`.
pub open spec fn count_upto(groups: Seq<GroupModel>, ids: Seq<i64>, k: int) -> nat
    decreases groups.len(),
{
    if groups.len() == 0 {
        0
    } else {
        count_upto(groups.drop_last(), ids.drop_last(), k) + if 1 <= ids.last() <= k {
            groups.last().count as nat
        } else {
            0
        }
    }
}

/// The records of the groups at these indices.
pub open spec fn count_at(groups: Seq<GroupModel>, indices: Seq<int>) -> nat
    decreases indices.len(),
{
    if indices.len() == 0 {
        0
    } else {
        count_at(groups, indices.drop_last()) + groups[indices.last()].count as nat
    }
}

pub proof fn lemma_members_range(ids: Seq<i64>, k: int)
    ensures
        forall|i: int|
            0 <= i < members(ids, k).len() ==> 0 <= #[trigger] members(ids, k)[i] < ids.len(),
    decreases ids.len(),
{
    if ids.len() > 0 {
        let before = members(ids.drop_last(), k);
        lemma_members_range(ids.drop_last(), k);
        assert forall|i: int| 0 <= i < members(ids, k).len() implies 0 <= #[trigger] members(
            ids,
            k,
        )[i] < ids.len() by {
            if i < before.len() {
                assert(0 <= before[i] < ids.drop_last().len());
            }
        }
    }
}

/// Members do not depend on groups that follow.
proof fn lemma_count_at_prefix(groups: Seq<GroupModel>, indices: Seq<int>, n: int)
    requires
        0 <= n <= groups.len(),
        forall|i: int| 0 <= i < indices.len() ==> 0 <= #[trigger] indices[i] < n,
    ensures
        count_at(groups.take(n), indices) == count_at(groups, indices),
    decreases indices.len(),
{
    if indices.len() > 0 {
        let init = indices.drop_last();
        assert forall|i: int| 0 <= i < init.len() implies 0 <= #[trigger] init[i] < n by {
            assert(init[i] == indices[i]);
        }
        lemma_count_at_prefix(groups, init, n);
        assert(0 <= indices[indices.len() - 1] < n);
    }
}

/// One more cluster adds the records of its members.
pub proof fn lemma_count_upto_step(groups: Seq<GroupModel>, ids: Seq<i64>, k: int)
    requires
        groups.len() == ids.len(),
        k >= 1,
    ensures
        count_upto(groups, ids, k) == count_upto(groups, ids, k - 1) + count_at(
            groups,
            members(ids, k),
        ),
    decreases groups.len(),
{
    if groups.len() > 0 {
        let init = groups.drop_last();
        lemma_count_upto_step(init, ids.drop_last(), k);
        let before = members(ids.drop_last(), k);
        lemma_members_range(ids.drop_last(), k);
        assert(init =~= groups.take(groups.len() - 1));
        lemma_count_at_prefix(groups, before, groups.len() - 1);
        if ids.last() == k {
            assert(members(ids, k).drop_last() =~= before);
        }
    }
}

proof fn lemma_count_upto_all(groups: Seq<GroupModel>, ids: Seq<i64>, k: int)
    requires
        groups.len() == ids.len(),
        forall|i: int| 0 <= i < ids.len() ==> 1 <= #[trigger] ids[i] <= k,
    ensures
        count_upto(groups, ids, k) == total_count(groups),
    decreases groups.len(),
{
    if groups.len() > 0 {
        assert forall|i: int| 0 <= i < ids.drop_last().len() implies 1
            <= #[trigger] ids.drop_last()[i] <= k by {
            assert(ids[i] == ids.drop_last()[i]);
        }
        lemma_count_upto_all(groups.drop_last(), ids.drop_last(), k);
        assert(1 <= ids[ids.len() - 1] <= k);
    }
}

proof fn lemma_count_upto_zero(groups: Seq<GroupModel>, ids: Seq<i64>)
    ensures
        count_upto(groups, ids, 0) == 0,
    decreases groups.len(),
{
    if groups.len() > 0 {
        lemma_count_upto_zero(groups.drop_last(), ids.drop_last());
    }
}

pub proof fn lemma_count_upto_bound(groups: Seq<GroupModel>, ids: Seq<i64>, k: int)
    ensures
        count_upto(groups, ids, k) <= total_count(groups),
    decreases groups.len(),
{
    if groups.len() > 0 {
        lemma_count_upto_bound(groups.drop_last(), ids.drop_last(), k);
    }
}

/// A merger stands for the records of its parts.
pub proof fn lemma_merged_count(groups: Seq<GroupModel>, indices: Seq<int>)
    requires
        indices.len() >= 1,
        count_at(groups, indices) <= u64::MAX,
    ensures
        merged_at(groups, indices).count == count_at(groups, indices),
    decreases indices.len(),
{
    if indices.len() == 1 {
        assert(indices.drop_last() =~= Seq::empty());
        assert(count_at(groups, indices.drop_last()) == 0);
        assert(indices.last() == indices[0]);
    } else {
        lemma_merged_count(groups, indices.drop_last());
    }
}

/// Every id names a cluster, and every cluster has a member.
pub open spec fn ids_cover(ids: Seq<i64>, clusters: int) -> bool {
    &&& forall|i: int| 0 <= i < ids.len() ==> 1 <= #[trigger] ids[i] <= clusters
    &&& forall|k: int| 1 <= k <= clusters ==> (#[trigger] members(ids, k)).len() >= 1
}

/// What holds of the miner after any number of groups.
pub proof fn lemma_mined(m: DrainModel, groups: Seq<GroupModel>)
    requires
        drain_ok(m),
        m.clusters.len() == 0,
        groups.len() + 1 < i64::MAX,
    ensures
        ({
            let (after, ids) = mined(m, groups);
            &&& drain_ok(after)
            &&& after.delimiters == m.delimiters
            &&& ids.len() == groups.len()
            &&& after.clusters.len() <= groups.len()
            &&& ids_cover(ids, after.clusters.len() as int)
            &&& forall|c: int|
                0 <= c < after.clusters.len() ==> (#[trigger] after.clusters[c]).size
                    <= groups.len()
        }),
    decreases groups.len(),
{
    if groups.len() > 0 {
        lemma_mined(m, groups.drop_last());
        let (before, ids0) = mined(m, groups.drop_last());
        let tokens = tokens_of(mined_text(groups.last()), before.delimiters);
        let (after, id) = drain_step(before, tokens);
        let ids = ids0.push(id);
        lemma_matched_cluster(before, tokens);
        lemma_step_ok(before, tokens);
        assert(ids.drop_last() =~= ids0);
        assert forall|k: int| 1 <= k <= after.clusters.len() implies (#[trigger] members(
            ids,
            k,
        )).len() >= 1 by {
            if k <= before.clusters.len() {
                assert(members(ids0, k).len() >= 1);
            }
        }
    }
}

/// Template mining loses and invents no record of a list of groups.
pub proof fn lemma_drained_total(groups: Seq<GroupModel>, m: DrainModel, k: int)
    requires
        drain_ok(m),
        m.clusters.len() == 0,
        groups.len() + 1 < i64::MAX,
        total_count(groups) <= u64::MAX,
        0 <= k <= mined(m, groups).0.clusters.len(),
    ensures
        total_count(cluster_groups(groups, mined(m, groups).0, mined(m, groups).1, k))
            == count_upto(groups, mined(m, groups).1, k),
    decreases k,
{
    let (after, ids) = mined(m, groups);
    lemma_mined(m, groups);
    if k == 0 {
        lemma_count_upto_zero(groups, ids);
    } else {
        lemma_drained_total(groups, m, k - 1);
        lemma_count_upto_step(groups, ids, k);
        lemma_count_upto_bound(groups, ids, k);
        let ix = members(ids, k);
        assert(ix.len() >= 1);
        lemma_merged_count(groups, ix);
        lemma_total_push(
            cluster_groups(groups, after, ids, k - 1),
            cluster_group(groups, ix, joined(after.clusters[k - 1].tokens, " "@), k),
        );
    }
}

pub proof fn lemma_filter_total(groups: Seq<GroupModel>)
    ensures
        total_count(groups.filter(is_merged())) + total_count(groups.filter(is_residual()))
            == total_count(groups),
        groups.filter(is_residual()).len() <= groups.len(),
    decreases groups.len(),
{
    reveal(Seq::filter);
    if groups.len() > 0 {
        lemma_filter_total(groups.drop_last());
        let g = groups.last();
        lemma_total_push(groups.drop_last().filter(is_merged()), g);
        lemma_total_push(groups.drop_last().filter(is_residual()), g);
    }
}

/// Template mining loses and invents no record of a bucket.
pub proof fn law_mining_counts_every_record(groups: Seq<GroupModel>, m: DrainModel)
    requires
        drain_ok(m),
        m.clusters.len() == 0,
        groups.len() + 1 < i64::MAX,
        total_count(groups) <= u64::MAX,
    ensures
        total_count(bucket_residuals(groups, m)) == total_count(groups),
{
    let merged = groups.filter(is_merged());
    let residuals = groups.filter(is_residual());
    lemma_filter_total(groups);
    lemma_total_concat(merged, residuals);
    if residuals.len() >= 2 {
        let (after, ids) = mined(m, residuals);
        let k = after.clusters.len() as int;
        lemma_mined(m, residuals);
        lemma_drained_total(residuals, m, k);
        lemma_count_upto_all(residuals, ids, k);
        lemma_total_concat(drained(residuals, m), merged);
    }
}

/// How many groups the buckets hold together, and how many records.
pub open spec fn group_bucket_total(b: Seq<(KeyModel, Seq<GroupModel>)>) -> nat
    decreases b.len(),
{
    if b.len() == 0 {
        0
    } else {
        group_bucket_total(b.drop_last()) + total_count(b.last().1)
    }
}

proof fn lemma_group_bucket_update(
    b: Seq<(KeyModel, Seq<GroupModel>)>,
    i: int,
    x: (KeyModel, Seq<GroupModel>),
)
    requires
        0 <= i < b.len(),
    ensures
        group_bucket_total(b.update(i, x)) == group_bucket_total(b) - total_count(b[i].1)
            + total_count(x.1),
    decreases b.len(),
{
    if i == b.len() - 1 {
        assert(b.update(i, x).drop_last() =~= b.drop_last());
    } else {
        lemma_group_bucket_update(b.drop_last(), i, x);
        assert(b.update(i, x).drop_last() =~= b.drop_last().update(i, x));
    }
}

/// Sorting groups into buckets keeps them all, and no bucket is larger than
/// the whole.
pub proof fn lemma_group_buckets(groups: Seq<GroupModel>)
    ensures
        group_bucket_total(group_buckets(groups)) == total_count(groups),
        forall|i: int|
            0 <= i < group_buckets(groups).len() ==> (#[trigger] group_buckets(groups)[i]).1.len()
                <= groups.len(),
    decreases groups.len(),
{
    if groups.len() > 0 {
        let g = groups.last();
        let before = group_buckets(groups.drop_last());
        lemma_group_buckets(groups.drop_last());
        lemma_first_index_hit(group_bucket_keys(before), g.bucket_key);
        let i = first_index(group_bucket_keys(before), g.bucket_key);
        if i < before.len() {
            lemma_total_push(before[i].1, g);
            lemma_group_bucket_update(before, i, (g.bucket_key, before[i].1.push(g)));
        } else {
            let last = (g.bucket_key, seq![g]);
            assert(before.push(last).drop_last() =~= before);
            assert(seq![g] =~= Seq::<GroupModel>::empty().push(g));
            lemma_total_push(Seq::empty(), g);
            assert(groups.len() >= 1);
        }
        let after = group_buckets(groups);
        assert forall|j: int| 0 <= j < after.len() implies (#[trigger] after[j]).1.len()
            <= groups.len() by {
            if j < before.len() {
                assert(before[j].1.len() <= groups.drop_last().len());
            }
        }
    }
}

proof fn lemma_residual_total(b: Seq<(KeyModel, Seq<GroupModel>)>, m: DrainModel)
    requires
        drain_ok(m),
        m.clusters.len() == 0,
        forall|i: int| 0 <= i < b.len() ==> (#[trigger] b[i]).1.len() + 1 < i64::MAX,
        group_bucket_total(b) <= u64::MAX,
    ensures
        total_count(residual_groups(b, m)) == group_bucket_total(b),
    decreases b.len(),
{
    if b.len() > 0 {
        assert forall|i: int| 0 <= i < b.drop_last().len() implies (#[trigger] b.drop_last()[i]).1.len()
            + 1 < i64::MAX by {
            assert(b[i].1.len() + 1 < i64::MAX);
        }
        lemma_residual_total(b.drop_last(), m);
        assert(b[b.len() - 1].1.len() + 1 < i64::MAX);
        law_mining_counts_every_record(b.last().1, m);
        lemma_total_concat(residual_groups(b.drop_last(), m), bucket_residuals(b.last().1, m));
    }
}

/// The residual stage loses and invents no record.
pub proof fn law_residuals_count_every_record(groups: Seq<GroupModel>, m: DrainModel)
    requires
        drain_ok(m),
        m.clusters.len() == 0,
        groups.len() + 1 < i64::MAX,
        total_count(groups) <= u64::MAX,
    ensures
        total_count(residual_groups(group_buckets(groups), m)) == total_count(groups),
{
    lemma_group_buckets(groups);
    assert forall|i: int| 0 <= i < group_buckets(groups).len() implies (#[trigger] group_buckets(
        groups,
    )[i]).1.len() + 1 < i64::MAX by {}
    lemma_residual_total(group_buckets(groups), m);
}

/// Indices as mathematical integers.
pub open spec fn index_view(v: Seq<usize>) -> Seq<int> {
    v.map_values(|x: usize| x as int)
}

/// The text of a group that the miner sees.
fn text_to_mine(g: &DedupGroup) -> (r: &str)
    ensures
        r@ == mined_text(g@),
{
    match &g.canonical_body {
        Some(c) => c.as_str(),
        None => g.representative.body.as_str(),
    }
}

/// The group of one cluster.
fn build_cluster_group(
    groups: &Vec<DedupGroup>,
    indices: &Vec<usize>,
    template: String,
    k: i64,
) -> (r: DedupGroup)
    requires
        indices@.len() >= 1,
        forall|i: int| 0 <= i < indices@.len() ==> #[trigger] indices@[i] < groups@.len(),
        count_at(groups_view(groups@), index_view(indices@)) <= u64::MAX,
    ensures
        r@ == cluster_group(groups_view(groups@), index_view(indices@), template@, k as int),
{
    let ghost gs = groups_view(groups@);
    let ghost ix = index_view(indices@);
    assert(indices@[0] < groups@.len());
    let mut g = groups[indices[0]].copy();
    assert(ix[0] == indices@[0] as int);
    if indices.len() == 1 {
        return g;
    }
    assert(ix.take(1).len() == 1);
    assert(g@ == merged_at(gs, ix.take(1)));
    for i in 1..indices.len()
        invariant
            gs == groups_view(groups@),
            ix == index_view(indices@),
            forall|i: int| 0 <= i < indices@.len() ==> #[trigger] indices@[i] < groups@.len(),
            count_at(gs, ix) <= u64::MAX,
            g@ == merged_at(gs, ix.take(i as int)),
    {
        let at: usize = indices[i];
        let ghost now = ix.take(i + 1);
        proof {
            assert(indices@[i as int] < groups@.len());
            assert(now.drop_last() =~= ix.take(i as int));
            lemma_count_at_take(gs, ix, i + 1);
            lemma_count_at_take(gs, ix, i as int);
            lemma_merged_count(gs, now.drop_last());
            assert(gs[at as int] == groups@[at as int]@);
        }
        g.merge_group(&groups[at]);
    }
    assert(ix.take(indices@.len() as int) =~= ix);
    g.signature = xxh3_64(template.as_str().as_bytes());
    g.drain3_template = Some(template);
    g.drain3_cluster_id = Some(k);
    g
}

proof fn lemma_count_at_take(groups: Seq<GroupModel>, indices: Seq<int>, n: int)
    requires
        0 <= n <= indices.len(),
    ensures
        count_at(groups, indices.take(n)) <= count_at(groups, indices),
    decreases indices.len() - n,
{
    if n < indices.len() {
        lemma_count_at_take(groups, indices, n + 1);
        assert(indices.take(n + 1).drop_last() =~= indices.take(n));
    } else {
        assert(indices.take(n) =~= indices);
    }
}

/// Lists of members, one for each cluster.
pub open spec fn lists_match(lists: Seq<Vec<usize>>, ids: Seq<i64>) -> bool {
    forall|k: int|
        0 <= k < lists.len() ==> index_view((#[trigger] lists[k])@) == members(ids, k + 1)
}

proof fn lemma_members_beyond(ids: Seq<i64>, k: int)
    requires
        forall|i: int| 0 <= i < ids.len() ==> #[trigger] ids[i] < k,
    ensures
        members(ids, k) == Seq::<int>::empty(),
    decreases ids.len(),
{
    if ids.len() > 0 {
        assert(ids[ids.len() - 1] < k);
        assert forall|i: int| 0 <= i < ids.drop_last().len() implies #[trigger] ids.drop_last()[i]
            < k by {
            assert(ids[i] < k);
        }
        lemma_members_beyond(ids.drop_last(), k);
    }
}

/// Feeds the groups to the miner and notes the members of each cluster.
fn mine(engine: &mut Drain, groups: &Vec<DedupGroup>) -> (lists: Vec<Vec<usize>>)
    requires
        old(engine).wf(),
        old(engine)@.clusters.len() == 0,
        groups@.len() + 1 < i64::MAX,
    ensures
        final(engine)@ == mined(old(engine)@, groups_view(groups@)).0,
        lists@.len() == final(engine)@.clusters.len(),
        lists_match(lists@, mined(old(engine)@, groups_view(groups@)).1),
{
    let ghost m = engine@;
    let ghost gs = groups_view(groups@);
    let mut lists: Vec<Vec<usize>> = Vec::new();
    assert(gs.take(0) =~= Seq::empty());
    for i in 0..groups.len()
        invariant
            drain_ok(m),
            m.clusters.len() == 0,
            gs == groups_view(groups@),
            groups@.len() + 1 < i64::MAX,
            engine.wf(),
            engine@ == mined(m, gs.take(i as int)).0,
            lists@.len() == engine@.clusters.len(),
            lists_match(lists@, mined(m, gs.take(i as int)).1),
    {
        let ghost before = engine@;
        let ghost ids0 = mined(m, gs.take(i as int)).1;
        let ghost lists0 = lists@;
        proof {
            assert(gs.take(i + 1).drop_last() =~= gs.take(i as int));
            assert(gs[i as int] == groups@[i as int]@);
            lemma_mined(m, gs.take(i as int));
            lemma_mined(m, gs.take(i + 1));
            lemma_matched_cluster(
                before,
                tokens_of(mined_text(gs[i as int]), before.delimiters),
            );
        }
        let (id, is_new) = engine.add_log_message(text_to_mine(&groups[i]));
        let ghost ids = mined(m, gs.take(i + 1)).1;
        assert(ids == ids0.push(id));
        assert(ids.drop_last() =~= ids0);
        if is_new {
            let mut first: Vec<usize> = Vec::new();
            first.push(i);
            lists.push(first);
            assert forall|k: int| 0 <= k < lists@.len() implies index_view((#[trigger] lists@[k])@)
                == members(ids, k + 1) by {
                if k < lists0.len() {
                    assert(index_view(lists0[k]@) == members(ids0, k + 1));
                } else {
                    lemma_members_beyond(ids0, k + 1);
                    assert(index_view(first@) =~= Seq::<int>::empty().push(i as int));
                }
            }
        } else {
            let count = lists.len();
            assert(1 <= id <= count);
            let at = (id - 1) as usize;
            let ghost list0 = lists@[at as int]@;
            lists[at].push(i);
            assert forall|k: int| 0 <= k < lists@.len() implies index_view((#[trigger] lists@[k])@)
                == members(ids, k + 1) by {
                assert(index_view(lists0[k]@) == members(ids0, k + 1));
                if k == at {
                    assert(index_view(lists@[k]@) =~= index_view(list0).push(i as int));
                }
            }
        }
    }
    assert(gs.take(groups@.len() as int) =~= gs);
    lists
}

/// Groups single records by template.
fn drain_groups(residuals: &Vec<DedupGroup>, opts: &DrainOpts) -> (r: Vec<DedupGroup>)
    requires
        opts.sim_th.den >= 1,
        residuals@.len() + 1 < i64::MAX,
        total_count(groups_view(residuals@)) <= u64::MAX,
    ensures
        groups_view(r@) == drained(
            groups_view(residuals@),
            fresh_miner(opts.depth, opts.sim_th, texts(opts.extra_delimiters@)),
        ),
{
    let ghost gs = groups_view(residuals@);
    let mut engine = new_miner(opts, residuals.len() / 2);
    let ghost m = engine@;
    let lists = mine(&mut engine, residuals);
    let ghost after = mined(m, gs).0;
    let ghost ids = mined(m, gs).1;
    proof {
        lemma_mined(m, gs);
    }
    let clusters = engine.clusters();
    assert(clusters@.len() == after.clusters.len());
    let mut out: Vec<DedupGroup> = Vec::new();
    assert(groups_view(out@) =~= cluster_groups(gs, after, ids, 0));
    for k in 0..lists.len()
        invariant
            gs == groups_view(residuals@),
            gs.len() == residuals@.len(),
            ids.len() == gs.len(),
            total_count(gs) <= u64::MAX,
            ids_cover(ids, after.clusters.len() as int),
            after.clusters.len() <= gs.len(),
            gs.len() + 1 < i64::MAX,
            lists@.len() == after.clusters.len(),
            lists_match(lists@, ids),
            clusters@.map_values(|c: crate::dedup::drain3::LogCluster| c@) == after.clusters,
            groups_view(out@) == cluster_groups(gs, after, ids, k as int),
    {
        proof {
            assert(index_view(lists@[k as int]@) == members(ids, k + 1));
            assert(members(ids, k + 1).len() >= 1);
            lemma_members_range(ids, k + 1);
            assert forall|i: int| 0 <= i < lists@[k as int]@.len() implies (
            #[trigger] lists@[k as int]@[i]) < residuals@.len() by {
                assert(members(ids, k + 1)[i] == lists@[k as int]@[i] as int);
            }
            lemma_count_upto_step(gs, ids, k + 1);
            lemma_count_upto_bound(gs, ids, k + 1);
            assert(after.clusters[k as int] == clusters@[k as int]@);
        }
        let template = clusters[k].template();
        let ghost before = out@;
        let g = build_cluster_group(residuals, &lists[k], template, k as i64 + 1);
        out.push(g);
        assert(groups_view(out@) =~= groups_view(before).push(g@));
    }
    out
}

/// Mines the single records of one bucket.
fn dedup_bucket_residuals(groups: Vec<DedupGroup>, opts: &DrainOpts, out: &mut Vec<DedupGroup>)
    requires
        opts.sim_th.den >= 1,
        groups@.len() + 1 < i64::MAX,
        total_count(groups_view(groups@)) <= u64::MAX,
    ensures
        groups_view(final(out)@) == groups_view(old(out)@) + bucket_residuals(
            groups_view(groups@),
            fresh_miner(opts.depth, opts.sim_th, texts(opts.extra_delimiters@)),
        ),
{
    let ghost source = groups@;
    let ghost all = groups_view(source);
    let mut merged: Vec<DedupGroup> = Vec::new();
    let mut residuals: Vec<DedupGroup> = Vec::new();
    let mut empty = true;
    proof {
        assert(all.take(0) =~= Seq::empty());
        reveal(Seq::filter);
        assert(groups_view(merged@) =~= all.take(0).filter(is_merged()));
        assert(groups_view(residuals@) =~= all.take(0).filter(is_residual()));
    }
    for g in it: groups
        invariant
            it.seq() == source,
            all == groups_view(source),
            total_count(all) <= u64::MAX,
            groups_view(merged@) == all.take(it.index() as int).filter(is_merged()),
            groups_view(residuals@) == all.take(it.index() as int).filter(is_residual()),
            empty == (total_count(all.take(it.index() as int)) == 0),
    {
        let ghost i = it.index() as int;
        let ghost merged0 = merged@;
        let ghost residuals0 = residuals@;
        proof {
            assert(g@ == all[i]);
            assert(all.take(i + 1).drop_last() =~= all.take(i));
            reveal(Seq::filter);
        }
        if g.count > 0 {
            empty = false;
        }
        if g.count > 1 {
            merged.push(g);
            assert(groups_view(merged@) =~= groups_view(merged0).push(all[i]));
        } else {
            residuals.push(g);
            assert(groups_view(residuals@) =~= groups_view(residuals0).push(all[i]));
        }
    }
    proof {
        assert(all.take(source.len() as int) =~= all);
        lemma_filter_total(all);
        assert(groups_view(residuals@).len() == residuals@.len());
    }
    let ghost start = groups_view(out@);
    let ghost ms = groups_view(merged@);
    let ghost rs = groups_view(residuals@);
    if residuals.len() < 2 || empty {
        let ghost o0 = out@;
        let ghost m0 = merged@;
        out.append(&mut merged);
        assert(groups_view(out@) =~= start + ms);
        let ghost o1 = out@;
        let ghost r0 = residuals@;
        out.append(&mut residuals);
        assert(groups_view(out@) =~= groups_view(o1) + groups_view(r0));
        assert(groups_view(out@) =~= start + (ms + rs));
    } else {
        let mut mined_groups = drain_groups(&residuals, opts);
        let ghost ds = groups_view(mined_groups@);
        out.append(&mut mined_groups);
        assert(groups_view(out@) =~= start + ds);
        out.append(&mut merged);
        assert(groups_view(out@) =~= start + (ds + ms));
    }
}

/// Group buckets over mathematical values.
pub open spec fn group_buckets_view(b: Seq<(BucketKey, Vec<DedupGroup>)>) -> Seq<
    (KeyModel, Seq<GroupModel>),
> {
    b.map_values(|x: (BucketKey, Vec<DedupGroup>)| (x.0@, groups_view(x.1@)))
}

/// Sorts groups into buckets by their keys.
fn split_by_bucket(groups: Vec<DedupGroup>) -> (r: Vec<(BucketKey, Vec<DedupGroup>)>)
    ensures
        group_buckets_view(r@) == group_buckets(groups_view(groups@)),
{
    let ghost source = groups@;
    let ghost all = groups_view(source);
    let mut buckets: Vec<(BucketKey, Vec<DedupGroup>)> = Vec::new();
    assert(all.take(0) =~= Seq::empty());
    assert(group_buckets_view(buckets@) =~= group_buckets(all.take(0)));
    for g in it: groups
        invariant
            it.seq() == source,
            all == groups_view(source),
            group_buckets_view(buckets@) == group_buckets(all.take(it.index() as int)),
    {
        let ghost idx = it.index() as int;
        assert(g@ == all[idx]);
        assert(all.take(idx + 1).drop_last() =~= all.take(idx));
        let ghost before = buckets@;
        let ghost keys = group_bucket_keys(group_buckets_view(before));
        let n = buckets.len();
        let mut at: usize = 0;
        while at < n && !buckets[at].0.same(&g.bucket_key)
            invariant
                at <= n,
                n == buckets@.len(),
                buckets@ == before,
                keys == group_bucket_keys(group_buckets_view(before)),
                keys.len() == n,
                forall|j: int| 0 <= j < at ==> keys[j] != g.bucket_key@,
            decreases n - at,
        {
            assert(keys[at as int] == buckets@[at as int].0@);
            at = at + 1;
        }
        proof {
            if at < n {
                assert(keys[at as int] == buckets@[at as int].0@);
            }
            lemma_first_index(keys, g.bucket_key@, at as int);
        }
        let ghost gm = g@;
        if at < n {
            let ghost list0 = buckets@[at as int].1@;
            buckets[at].1.push(g);
            assert(groups_view(buckets@[at as int].1@) =~= groups_view(list0).push(gm));
            assert(group_buckets_view(buckets@) =~= put_group(group_buckets_view(before), gm));
        } else {
            let key = g.bucket_key.copy();
            let mut list: Vec<DedupGroup> = Vec::new();
            list.push(g);
            assert(groups_view(list@) =~= seq![gm]);
            buckets.push((key, list));
            assert(group_buckets_view(buckets@) =~= put_group(group_buckets_view(before), gm));
        }
    }
    assert(all.take(source.len() as int) =~= all);
    buckets
}

/// Runs the template miner over the single records of each bucket. Groups of
/// several records pass through.
pub fn dedup_residuals(groups: Vec<DedupGroup>, opts: &DrainOpts) -> (r: Vec<DedupGroup>)
    requires
        opts.sim_th.den >= 1,
        groups@.len() + 1 < i64::MAX,
        total_count(groups_view(groups@)) <= u64::MAX,
    ensures
        groups_view(r@) == residual_groups(
            group_buckets(groups_view(groups@)),
            fresh_miner(opts.depth, opts.sim_th, texts(opts.extra_delimiters@)),
        ),
{
    let ghost gs = groups_view(groups@);
    let ghost m = fresh_miner(opts.depth, opts.sim_th, texts(opts.extra_delimiters@));
    proof {
        lemma_group_buckets(gs);
        assert(gs.len() == groups@.len());
    }
    let buckets = split_by_bucket(groups);
    let ghost source = buckets@;
    let ghost all = group_buckets_view(source);
    let mut out: Vec<DedupGroup> = Vec::new();
    assert(all.take(0) =~= Seq::empty());
    assert(groups_view(out@) =~= residual_groups(all.take(0), m));
    for bucket in it: buckets
        invariant
            it.seq() == source,
            all == group_buckets_view(source),
            opts.sim_th.den >= 1,
            m == fresh_miner(opts.depth, opts.sim_th, texts(opts.extra_delimiters@)),
            forall|i: int| 0 <= i < all.len() ==> (#[trigger] all[i]).1.len() + 1 < i64::MAX,
            group_bucket_total(all) <= u64::MAX,
            groups_view(out@) == residual_groups(all.take(it.index() as int), m),
    {
        let ghost i = it.index() as int;
        let (_key, list) = bucket;
        proof {
            assert(groups_view(list@) == all[i].1);
            assert(groups_view(list@).len() == list@.len());
            assert(all.take(i + 1).drop_last() =~= all.take(i));
            lemma_group_bucket_part(all, i);
        }
        dedup_bucket_residuals(list, opts, &mut out);
    }
    assert(all.take(source.len() as int) =~= all);
    out
}

/// A bucket stands for no more records than all buckets.
proof fn lemma_group_bucket_part(b: Seq<(KeyModel, Seq<GroupModel>)>, i: int)
    requires
        0 <= i < b.len(),
    ensures
        total_count(b[i].1) <= group_bucket_total(b),
    decreases b.len(),
{
    if i < b.len() - 1 {
        lemma_group_bucket_part(b.drop_last(), i);
    }
}

/// A miner without clusters is in order.
pub proof fn lemma_fresh_miner_ok(m: DrainModel)
    requires
        m.levels >= 1,
        m.max_children >= 1,
        m.threshold.den >= 1,
        m.groups.len() == 0,
        m.clusters.len() == 0,
    ensures
        drain_ok(m),
{
}

} // verus!
