//! What a group knows when it opens, and when it is mined.
use vstd::prelude::*;
use vstd::utf8::encode_utf8;

use crate::bridge::hashing::xxh3;
use crate::dedup::canon::canon_body;
use crate::dedup::collapse::{
    candidate, candidate_text, group_text, mined_together, opened, taken_in, CandidateModel,
};
use crate::dedup::drain3::{drain_step, tokens_of, DrainModel};
use crate::dedup::flat_record::{key_of, BucketKeyKind, FlatModel};
use crate::dedup::{DedupMatchMode, GroupModel};
use crate::text::numbers::hex_text;
use crate::text::seqs::joined;

verus! {

/// A record that opens a group is the only one in it and stands for it. Where
/// bodies must be equal, the group is known by its body; otherwise by what is
/// common to such bodies, which it keeps with their shape.
pub proof fn law_opened_groups_know_their_body(
    rec: FlatModel,
    kind: BucketKeyKind,
    mode: DedupMatchMode,
)
    ensures
        ({
            let g = opened(candidate(rec, kind, mode));
            &&& g.count == 1 && g.representative == rec && g.bucket_key == key_of(rec, kind)
            &&& mode == DedupMatchMode::Exact ==> g.signature == xxh3(encode_utf8(rec.body))
                && g.canonical_body is None && g.body_shape is None
            &&& mode != DedupMatchMode::Exact ==> g.canonical_body is Some && g.signature == xxh3(
                encode_utf8(g.canonical_body->0),
            ) && g.canonical_body->0 == canon_body(rec.body).0 && g.body_shape == Some(
                canon_body(rec.body).1,
            )
            &&& g.drain3_template is None && g.drain3_cluster_id is None
            &&& g.exemplar_trace_ids == seq![hex_text(rec.trace_id)]
            &&& g.exemplar_span_ids == seq![hex_text(rec.span_id)]
        }),
{
}

/// Two messages that are mined together get the template of their cluster, are
/// known by it, and keep all else that the group knew.
pub proof fn law_mined_groups_name_their_cluster(g: GroupModel, c: CandidateModel, m: DrainModel)
    requires
        mined_together(g, c, m) is Some,
    ensures
        ({
            let h = mined_together(g, c, m)->0;
            let seen = drain_step(m, tokens_of(group_text(g), m.delimiters)).0;
            let (after, id) = drain_step(seen, tokens_of(candidate_text(c), m.delimiters));
            &&& h.drain3_cluster_id == Some(id)
            &&& h.drain3_template == Some(joined(after.clusters[id - 1].tokens, " "@))
            &&& h.signature == xxh3(encode_utf8(h.drain3_template->0))
            &&& h.count == g.count && h.bucket_key == g.bucket_key
            &&& h.representative == g.representative
            &&& h.first_seen_ns == g.first_seen_ns && h.last_seen_ns == g.last_seen_ns
            &&& h.canonical_body == g.canonical_body && h.body_shape == g.body_shape
        }),
{
}

/// A group takes in a neighbour of its own bucket and signature, whatever the
/// mode, and none of another bucket.
pub proof fn law_who_is_taken_in(
    g: GroupModel,
    c: CandidateModel,
    mode: DedupMatchMode,
    m: DrainModel,
)
    ensures
        g.bucket_key != c.key ==> taken_in(g, c, mode, m) is None,
        g.bucket_key == c.key && g.signature == c.signature ==> taken_in(g, c, mode, m) is Some,
        g.bucket_key == c.key && g.signature != c.signature && mode != DedupMatchMode::Full
            ==> taken_in(g, c, mode, m) is None,
        g.count < u64::MAX ==> (taken_in(g, c, mode, m) matches Some(h) ==> h.count == g.count + 1
            && h.representative == g.representative),
{
}

} // verus!
