//! Canonicalises bodies and merges groups that become equal.
use vstd::prelude::*;
use vstd::utf8::encode_utf8;

use crate::bridge::hashing::{xxh3, xxh3_64};
use crate::dedup::canon_freetext::{canonicalise_freetext, freetext_canon};
use crate::dedup::canon_json::{canon_json, canonicalise_value};
use crate::dedup::canon_kv::{canonicalise_kv, kv_canon};
use crate::dedup::detect::{detect, detected, law_prefix_is_never_empty, BodyShape};
use crate::dedup::{
    find_group, find_index, group_merge, groups_view, identities, lemma_first_index_hit,
    lemma_total_push, lemma_total_update, total_count, DedupGroup, GroupModel,
};
use crate::json::{json_text, sorted_json_string};

verus! {

/// The canonical form of a body and the label of its shape. What follows a
/// prefix is canonicalised in its own right.
pub open spec fn canon_body(body: Seq<char>) -> (Seq<char>, Seq<char>)
    decreases body.len(),
{
    let d = detected(body);
    match d.shape {
        BodyShape::Json => (json_text(canon_json(Seq::empty(), d.json->0)), "json"@),
        BodyShape::KeyValue => (kv_canon(body), "kv"@),
        BodyShape::SourcePrefixed => {
            proof {
                law_prefix_is_never_empty(body);
            }
            let inner = canon_body(d.suffix->0);
            (inner.0, "prefixed/"@ + inner.1)
        },
        BodyShape::FreeText => (freetext_canon(body), "freetext"@),
    }
}

/// Canonicalises a body. Returns the canonical form and the label of its shape.
pub fn canonicalise_body(body: &str) -> (r: (String, String))
    ensures
        (r.0@, r.1@) == canon_body(body@),
    decreases body@.len(),
{
    let d = detect(body);
    match d.shape {
        BodyShape::Json => {
            if let Some(value) = &d.json_value {
                proof {
                    reveal_strlit("");
                    assert(""@ =~= Seq::empty());
                }
                let canon = canonicalise_value("", value);
                return (sorted_json_string(&canon), "json".to_owned());
            }
            (canonicalise_freetext(body), "freetext".to_owned())
        },
        BodyShape::KeyValue => (canonicalise_kv(body), "kv".to_owned()),
        BodyShape::SourcePrefixed => {
            if let Some(suffix) = &d.stripped_suffix {
                proof {
                    law_prefix_is_never_empty(body@);
                }
                let (canon, inner) = canonicalise_body(suffix.as_str());
                let mut shape = "prefixed/".to_owned();
                shape.append(inner.as_str());
                return (canon, shape);
            }
            (canonicalise_freetext(body), "freetext".to_owned())
        },
        BodyShape::FreeText => (canonicalise_freetext(body), "freetext".to_owned()),
    }
}

/// A prefix has no say in the canonical form: bodies that differ only in what
/// stands before the same rest have the canonical form of that rest.
pub proof fn law_prefix_has_no_say(a: Seq<char>, b: Seq<char>)
    requires
        detected(a).shape == BodyShape::SourcePrefixed,
        detected(b).shape == BodyShape::SourcePrefixed,
        detected(a).suffix == detected(b).suffix,
    ensures
        canon_body(a) == canon_body(b),
        canon_body(a).0 == canon_body(detected(a).suffix->0).0,
        canon_body(a).1 == "prefixed/"@ + canon_body(detected(a).suffix->0).1,
{
    law_prefix_is_never_empty(a);
    law_prefix_is_never_empty(b);
}

/// A group with its canonical body and the signature of that.
pub open spec fn annotated(g: GroupModel) -> GroupModel {
    let (canon, shape) = canon_body(g.representative.body);
    GroupModel {
        canonical_body: Some(canon),
        body_shape: Some(shape),
        signature: xxh3(encode_utf8(canon)),
        ..g
    }
}

/// The groups after `g` was merged into the one with its key and signature.
pub open spec fn add_group(groups: Seq<GroupModel>, g: GroupModel) -> Seq<GroupModel> {
    let i = find_index(groups, g.bucket_key, g.signature);
    if i < groups.len() {
        groups.update(i, group_merge(groups[i], g))
    } else {
        groups.push(g)
    }
}

/// Groups merged by bucket key and canonical body, in the order of the first.
pub open spec fn canon_groups(groups: Seq<GroupModel>) -> Seq<GroupModel>
    decreases groups.len(),
{
    if groups.len() == 0 {
        Seq::empty()
    } else {
        add_group(canon_groups(groups.drop_last()), annotated(groups.last()))
    }
}

pub proof fn lemma_add_group_total(groups: Seq<GroupModel>, g: GroupModel)
    requires
        total_count(groups) + g.count <= u64::MAX,
    ensures
        total_count(add_group(groups, g)) == total_count(groups) + g.count,
        ({
            let i = find_index(groups, g.bucket_key, g.signature);
            i < groups.len() ==> groups[i].count + g.count <= u64::MAX
        }),
{
    let i = find_index(groups, g.bucket_key, g.signature);
    lemma_first_index_hit(identities(groups), (g.bucket_key, g.signature));
    if i < groups.len() {
        lemma_total_update(groups, i, group_merge(groups[i], g));
    } else {
        lemma_total_push(groups, g);
    }
}

/// Canonical matching loses and invents no record.
pub proof fn law_canon_counts_every_record(groups: Seq<GroupModel>)
    requires
        total_count(groups) <= u64::MAX,
    ensures
        total_count(canon_groups(groups)) == total_count(groups),
    decreases groups.len(),
{
    if groups.len() > 0 {
        law_canon_counts_every_record(groups.drop_last());
        lemma_add_group_total(canon_groups(groups.drop_last()), annotated(groups.last()));
    }
}

/// After canonical matching no two groups share a bucket key and a signature.
pub proof fn law_canon_groups_differ(groups: Seq<GroupModel>)
    ensures
        identities(canon_groups(groups)).no_duplicates(),
    decreases groups.len(),
{
    if groups.len() > 0 {
        let before = canon_groups(groups.drop_last());
        let g = annotated(groups.last());
        law_canon_groups_differ(groups.drop_last());
        lemma_first_index_hit(identities(before), (g.bucket_key, g.signature));
        if find_index(before, g.bucket_key, g.signature) < before.len() {
            assert(identities(canon_groups(groups)) =~= identities(before));
        } else {
            assert(identities(canon_groups(groups)) =~= identities(before).push(
                (g.bucket_key, g.signature),
            ));
        }
    }
}

/// Canonicalises groups and merges those that become equal. Groups in
/// different buckets never merge.
pub fn canon_dedup(groups: Vec<DedupGroup>) -> (r: Vec<DedupGroup>)
    requires
        total_count(groups_view(groups@)) <= u64::MAX,
    ensures
        groups_view(r@) == canon_groups(groups_view(groups@)),
{
    let ghost source = groups@;
    let ghost all = groups_view(source);
    let mut merged: Vec<DedupGroup> = Vec::new();
    assert(all.take(0) =~= Seq::empty());
    assert(groups_view(merged@) =~= canon_groups(all.take(0)));
    for group in it: groups
        invariant
            it.seq() == source,
            all == groups_view(source),
            total_count(all) <= u64::MAX,
            groups_view(merged@) == canon_groups(all.take(it.index() as int)),
    {
        let ghost i = it.index() as int;
        let mut g = group;
        let ghost original = g@;
        assert(g@ == all[i]);
        assert(all.take(i + 1).drop_last() =~= all.take(i));
        let (canon, shape) = canonicalise_body(g.representative.body.as_str());
        let hash = xxh3_64(canon.as_str().as_bytes());
        g.canonical_body = Some(canon);
        g.body_shape = Some(shape);
        g.signature = hash;
        assert(g@ == annotated(original));
        let at = find_group(&merged, &g.bucket_key, hash);
        let ghost before = merged@;
        proof {
            lemma_total_of_prefix(all, i + 1);
            lemma_total_of_prefix(all, i);
            law_canon_counts_every_record(all.take(i));
            lemma_add_group_total(groups_view(before), g@);
        }
        if at < merged.len() {
            assert(groups_view(before)[at as int] == before[at as int]@);
            merged[at].merge_group(&g);
            assert(groups_view(merged@) =~= add_group(groups_view(before), g@));
        } else {
            merged.push(g);
            assert(groups_view(merged@) =~= add_group(groups_view(before), g@));
        }
    }
    assert(all.take(source.len() as int) =~= all);
    merged
}

/// A prefix stands for no more records than the whole.
pub proof fn lemma_total_of_prefix(g: Seq<GroupModel>, n: int)
    requires
        0 <= n <= g.len(),
    ensures
        total_count(g.take(n)) <= total_count(g),
    decreases g.len() - n,
{
    if n < g.len() {
        lemma_total_of_prefix(g, n + 1);
        assert(g.take(n + 1).drop_last() =~= g.take(n));
    } else {
        assert(g.take(n) =~= g);
    }
}

/// Merging makes no groups.
pub proof fn lemma_canon_len(groups: Seq<GroupModel>)
    ensures
        canon_groups(groups).len() <= groups.len(),
    decreases groups.len(),
{
    if groups.len() > 0 {
        let before = canon_groups(groups.drop_last());
        let g = annotated(groups.last());
        lemma_canon_len(groups.drop_last());
        lemma_first_index_hit(identities(before), (g.bucket_key, g.signature));
    }
}

} // verus!
