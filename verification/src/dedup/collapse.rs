//! Local deduplication.
//!
//! Order is preserved, and a record is merged only into the group just before
//! it, if both lie in the same bucket and match. Once another record starts a
//! new run, later repeats become new groups.
use vstd::prelude::*;
use vstd::utf8::encode_utf8;

use crate::bridge::hashing::{xxh3, xxh3_64};
use crate::dedup::canon::{canon_body, canonicalise_body};
use crate::dedup::detect::text_option;
use crate::dedup::drain3::{
    drain_step, lemma_matched_cluster, matched_cluster, tokens_of, DrainModel,
};
use crate::dedup::flat_record::{key_of, BucketKey, BucketKeyKind, FlatModel, FlatRecord, KeyModel};
use crate::dedup::residuals::{fresh_miner, new_miner};
use crate::dedup::{
    group_absorb, group_new, groups_view, identities, lemma_total_push, lemma_total_update,
    records_view, total_count, DedupGroup, DedupMatchMode, DedupOpts, GroupModel,
};
use crate::text::seqs::joined;
use crate::text::strings::texts;

verus! {

/// What a record is matched by.
pub struct CandidateModel {
    pub key: KeyModel,
    pub signature: u64,
    pub canonical: Option<Seq<char>>,
    pub shape: Option<Seq<char>>,
    pub record: FlatModel,
}

/// What a record is matched by under a match mode.
pub open spec fn candidate(
    rec: FlatModel,
    kind: BucketKeyKind,
    match_mode: DedupMatchMode,
) -> CandidateModel {
    if match_mode == DedupMatchMode::Exact {
        CandidateModel {
            key: key_of(rec, kind),
            signature: xxh3(encode_utf8(rec.body)),
            canonical: None,
            shape: None,
            record: rec,
        }
    } else {
        let (canon, shape) = canon_body(rec.body);
        CandidateModel {
            key: key_of(rec, kind),
            signature: xxh3(encode_utf8(canon)),
            canonical: Some(canon),
            shape: Some(shape),
            record: rec,
        }
    }
}

/// The group that a candidate opens.
pub open spec fn opened(c: CandidateModel) -> GroupModel {
    GroupModel {
        canonical_body: c.canonical,
        body_shape: c.shape,
        ..group_new(c.key, c.signature, c.record)
    }
}

/// The text of a group that the template miner sees.
pub open spec fn group_text(g: GroupModel) -> Seq<char> {
    match g.drain3_template {
        Some(t) => t,
        None => match g.canonical_body {
            Some(c) => c,
            None => g.representative.body,
        },
    }
}

/// The text of a candidate that the template miner sees.
pub open spec fn candidate_text(c: CandidateModel) -> Seq<char> {
    match c.canonical {
        Some(t) => t,
        None => c.record.body,
    }
}

/// A fresh miner that has seen the group puts the candidate into the same
/// cluster: the group under the common template. `None` where it does not.
pub open spec fn mined_together(g: GroupModel, c: CandidateModel, m: DrainModel) -> Option<
    GroupModel,
> {
    let after_group = drain_step(m, tokens_of(group_text(g), m.delimiters)).0;
    let tokens = tokens_of(candidate_text(c), m.delimiters);
    match matched_cluster(after_group, tokens) {
        Some(id) => {
            let template = joined(
                drain_step(after_group, tokens).0.clusters[id - 1].tokens,
                " "@,
            );
            Some(
                GroupModel {
                    signature: xxh3(encode_utf8(template)),
                    drain3_template: Some(template),
                    drain3_cluster_id: Some(id),
                    ..g
                },
            )
        },
        None => None,
    }
}

/// The group that takes a candidate in; `None` where the candidate opens its
/// own.
pub open spec fn taken_in(
    g: GroupModel,
    c: CandidateModel,
    match_mode: DedupMatchMode,
    m: DrainModel,
) -> Option<GroupModel> {
    if g.bucket_key != c.key {
        None
    } else if g.signature == c.signature {
        Some(group_absorb(g, c.record))
    } else if match_mode == DedupMatchMode::Full {
        match mined_together(g, c, m) {
            Some(g2) => Some(group_absorb(g2, c.record)),
            None => None,
        }
    } else {
        None
    }
}

/// The groups after one more candidate.
pub open spec fn collapse_step(
    groups: Seq<GroupModel>,
    c: CandidateModel,
    match_mode: DedupMatchMode,
    m: DrainModel,
) -> Seq<GroupModel> {
    if groups.len() > 0 && taken_in(groups.last(), c, match_mode, m) is Some {
        groups.drop_last().push(taken_in(groups.last(), c, match_mode, m)->0)
    } else {
        groups.push(opened(c))
    }
}

/// The groups of a list of records.
pub open spec fn collapsed(
    records: Seq<FlatModel>,
    kind: BucketKeyKind,
    match_mode: DedupMatchMode,
    m: DrainModel,
) -> Seq<GroupModel>
    decreases records.len(),
{
    if records.len() == 0 {
        Seq::empty()
    } else {
        collapse_step(
            collapsed(records.drop_last(), kind, match_mode, m),
            candidate(records.last(), kind, match_mode),
            match_mode,
            m,
        )
    }
}

/// Collapsing loses and invents no record.
pub proof fn law_collapse_counts_every_record(
    records: Seq<FlatModel>,
    kind: BucketKeyKind,
    match_mode: DedupMatchMode,
    m: DrainModel,
)
    requires
        records.len() <= u64::MAX,
    ensures
        total_count(collapsed(records, kind, match_mode, m)) == records.len(),
    decreases records.len(),
{
    if records.len() > 0 {
        let before = collapsed(records.drop_last(), kind, match_mode, m);
        let c = candidate(records.last(), kind, match_mode);
        law_collapse_counts_every_record(records.drop_last(), kind, match_mode, m);
        if before.len() > 0 && taken_in(before.last(), c, match_mode, m) is Some {
            let g = taken_in(before.last(), c, match_mode, m)->0;
            lemma_total_push(before.drop_last(), g);
            lemma_total_update(before, before.len() - 1, g);
        } else {
            lemma_total_push(before, opened(c));
        }
    }
}

/// Without template mining, neighbouring groups differ in bucket key or
/// signature: a run is never split.
pub proof fn law_neighbours_differ(
    records: Seq<FlatModel>,
    kind: BucketKeyKind,
    match_mode: DedupMatchMode,
    m: DrainModel,
    i: int,
)
    requires
        match_mode != DedupMatchMode::Full,
        0 < i < collapsed(records, kind, match_mode, m).len(),
    ensures
        identities(collapsed(records, kind, match_mode, m))[i - 1] != identities(
            collapsed(records, kind, match_mode, m),
        )[i],
    decreases records.len(),
{
    if records.len() > 0 {
        let before = collapsed(records.drop_last(), kind, match_mode, m);
        if i < before.len() {
            law_neighbours_differ(records.drop_last(), kind, match_mode, m, i);
        }
    }
}

/// A record and what it is matched by.
struct CollapseCandidate {
    bucket_key: BucketKey,
    signature: u64,
    canonical_body: Option<String>,
    body_shape: Option<String>,
    record: FlatRecord,
}

impl CollapseCandidate {
    spec fn model(self) -> CandidateModel {
        CandidateModel {
            key: self.bucket_key@,
            signature: self.signature,
            canonical: text_option(self.canonical_body),
            shape: text_option(self.body_shape),
            record: self.record@,
        }
    }

    fn from_record(record: FlatRecord, kind: BucketKeyKind, match_mode: DedupMatchMode) -> (r: Self)
        ensures
            r.model() == candidate(record@, kind, match_mode),
    {
        let bucket_key = BucketKey::from_record(&record, kind);
        match match_mode {
            DedupMatchMode::Exact => {
                let signature = xxh3_64(record.body.as_str().as_bytes());
                CollapseCandidate {
                    bucket_key,
                    signature,
                    canonical_body: None,
                    body_shape: None,
                    record,
                }
            },
            _ => {
                let (canonical_body, body_shape) = canonicalise_body(record.body.as_str());
                let signature = xxh3_64(canonical_body.as_str().as_bytes());
                CollapseCandidate {
                    bucket_key,
                    signature,
                    canonical_body: Some(canonical_body),
                    body_shape: Some(body_shape),
                    record,
                }
            },
        }
    }

    fn into_group(self) -> (r: DedupGroup)
        ensures
            r@ == opened(self.model()),
    {
        let mut group = DedupGroup::new(self.bucket_key, self.signature, self.record);
        group.canonical_body = self.canonical_body;
        group.body_shape = self.body_shape;
        group
    }
}

/// Whether a fresh miner puts the candidate into the cluster of the group; if
/// so, the group takes the common template.
fn drain_matches(group: &mut DedupGroup, candidate: &CollapseCandidate, opts: &DedupOpts) -> (r:
    bool)
    requires
        opts.drain.sim_th.den >= 1,
    ensures
        ({
            let m = fresh_miner(
                opts.drain.depth,
                opts.drain.sim_th,
                texts(opts.drain.extra_delimiters@),
            );
            match mined_together(old(group)@, candidate.model(), m) {
                Some(g) => r && final(group)@ == g,
                None => !r && final(group)@ == old(group)@,
            }
        }),
{
    let mut engine = new_miner(&opts.drain, 4);
    let ghost m = engine@;
    let ghost left = tokens_of(group_text(group@), m.delimiters);
    let ghost right = tokens_of(candidate_text(candidate.model()), m.delimiters);
    proof {
        lemma_matched_cluster(m, left);
    }
    let _first = match &group.drain3_template {
        Some(t) => engine.add_log_message(t.as_str()),
        None => match &group.canonical_body {
            Some(c) => engine.add_log_message(c.as_str()),
            None => engine.add_log_message(group.representative.body.as_str()),
        },
    };
    let ghost m1 = engine@;
    proof {
        assert(m1 == drain_step(m, left).0);
        assert(m1.delimiters == m.delimiters);
        assert(m1.clusters.len() <= 1);
        lemma_matched_cluster(m1, right);
    }
    let (id, is_new) = match &candidate.canonical_body {
        Some(c) => engine.add_log_message(c.as_str()),
        None => engine.add_log_message(candidate.record.body.as_str()),
    };
    if is_new {
        return false;
    }
    let clusters = engine.clusters();
    assert(1 <= id <= clusters@.len());
    let at = (id - 1) as usize;
    assert(engine@.clusters[at as int] == clusters@[at as int]@);
    let template = clusters[at].template();
    group.signature = xxh3_64(template.as_str().as_bytes());
    group.drain3_template = Some(template);
    group.drain3_cluster_id = Some(id);
    true
}

/// Collapses runs of matching records.
pub fn dedup(records: Vec<FlatRecord>, opts: &DedupOpts) -> (r: Vec<DedupGroup>)
    requires
        opts.drain.sim_th.den >= 1,
    ensures
        groups_view(r@) == collapsed(
            records_view(records@),
            opts.bucket_key,
            opts.match_mode,
            fresh_miner(
                opts.drain.depth,
                opts.drain.sim_th,
                texts(opts.drain.extra_delimiters@),
            ),
        ),
{
    let ghost m = fresh_miner(
        opts.drain.depth,
        opts.drain.sim_th,
        texts(opts.drain.extra_delimiters@),
    );
    let ghost source = records@;
    let ghost all = records_view(source);
    let mut groups: Vec<DedupGroup> = Vec::new();
    assert(source.len() == records.len());
    assert(all.take(0) =~= Seq::empty());
    assert(groups_view(groups@) =~= collapsed(all.take(0), opts.bucket_key, opts.match_mode, m));
    for rec in it: records
        invariant
            it.seq() == source,
            source.len() <= usize::MAX,
            all == records_view(source),
            opts.drain.sim_th.den >= 1,
            m == fresh_miner(
                opts.drain.depth,
                opts.drain.sim_th,
                texts(opts.drain.extra_delimiters@),
            ),
            groups_view(groups@) == collapsed(
                all.take(it.index() as int),
                opts.bucket_key,
                opts.match_mode,
                m,
            ),
    {
        let ghost i = it.index() as int;
        let ghost before = groups_view(groups@);
        let ghost c = candidate(rec@, opts.bucket_key, opts.match_mode);
        proof {
            assert(rec@ == all[i]);
            assert(all.take(i + 1).drop_last() =~= all.take(i));
            law_collapse_counts_every_record(
                all.take(i),
                opts.bucket_key,
                opts.match_mode,
                m,
            );
        }
        let cand = CollapseCandidate::from_record(rec, opts.bucket_key, opts.match_mode);
        match groups.pop() {
            Some(last) => {
                let mut last = last;
                let ghost lastm = last@;
                proof {
                    assert(groups_view(groups@) =~= before.drop_last());
                    assert(lastm == before.last());
                    lemma_total_update(before, before.len() - 1, lastm);
                }
                let mut matched = false;
                if last.bucket_key.same(&cand.bucket_key) {
                    if last.signature == cand.signature {
                        matched = true;
                    } else if opts.match_mode == DedupMatchMode::Full {
                        matched = drain_matches(&mut last, &cand, opts);
                    }
                }
                let ghost rest = groups@;
                if matched {
                    last.absorb(&cand.record);
                    groups.push(last);
                    assert(groups_view(groups@) =~= collapse_step(before, c, opts.match_mode, m));
                } else {
                    groups.push(last);
                    groups.push(cand.into_group());
                    assert(groups_view(groups@) =~= collapse_step(before, c, opts.match_mode, m));
                }
            },
            None => {
                groups.push(cand.into_group());
                assert(groups_view(groups@) =~= collapse_step(before, c, opts.match_mode, m));
            },
        }
    }
    assert(all.take(source.len() as int) =~= all);
    groups
}

} // verus!
