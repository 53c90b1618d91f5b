//! How messages are led through the tree of a miner.
use vstd::prelude::*;

use crate::dedup::drain3::{
    branch, branch_keys, grown, growth_key, has_branch, leaf_ids, tree_path, DrainModel, Tree,
};
use crate::text::bytes::some_digit;
use crate::text::seqs::{first_index, lemma_first_index};

verus! {

/// A message is led through the tree by its first words: as many as there are
/// levels, less one, and never by its last word.
pub proof fn law_first_words_lead_through_the_tree(
    m: DrainModel,
    tokens: Seq<Seq<char>>,
    i: int,
)
    requires
        m.levels >= 1,
        tokens.len() > 0,
    ensures
        m.levels <= tokens.len() ==> tree_path(m, tokens).len() == m.levels - 1,
        m.levels > tokens.len() ==> tree_path(m, tokens).len() == tokens.len() - 1,
        0 <= i < tree_path(m, tokens).len() ==> tree_path(m, tokens)[i] == tokens[i],
{
}

/// A word takes its own branch where there is one. A word with a digit, or one
/// for which there is no room, takes the branch of the wildcard, for which one
/// place is kept.
pub proof fn law_branches_of_words(t: Tree, token: Seq<char>, max_children: int)
    ensures
        growth_key(t, token, max_children, true) == token || growth_key(
            t,
            token,
            max_children,
            true,
        ) == "<*>"@,
        has_branch(t, token) ==> growth_key(t, token, max_children, true) == token && growth_key(
            t,
            token,
            max_children,
            false,
        ) == token,
        !has_branch(t, token) && some_digit(vstd::utf8::encode_utf8(token)) ==> growth_key(
            t,
            token,
            max_children,
            true,
        ) == "<*>"@,
        !has_branch(t, token) && t.children.len() >= max_children ==> growth_key(
            t,
            token,
            max_children,
            false,
        ) == "<*>"@,
        !has_branch(t, token) && has_branch(t, "<*>"@) && t.children.len() < max_children
            ==> growth_key(t, token, max_children, false) == token,
        !has_branch(t, token) && !has_branch(t, "<*>"@) ==> (growth_key(
            t,
            token,
            max_children,
            false,
        ) == token <==> t.children.len() + 1int < max_children || token == "<*>"@),
{
}

proof fn lemma_index_holds<A>(s: Seq<A>, x: A)
    ensures
        0 <= first_index(s, x) <= s.len(),
        first_index(s, x) < s.len() ==> s[first_index(s, x)] == x,
        forall|i: int| 0 <= i < first_index(s, x) ==> s[i] != x,
    decreases s.len(),
{
    if s.len() > 0 && s[0] != x {
        lemma_index_holds(s.drop_first(), x);
        assert forall|i: int| 0 <= i < first_index(s, x) implies s[i] != x by {
            if i > 0 {
                assert(s.drop_first()[i - 1] == s[i]);
            }
        }
    }
}

/// A cluster is found again where it was put: the words of the message that
/// opened it lead to it.
pub proof fn law_clusters_are_found_where_they_grew(
    t: Tree,
    path: Seq<Seq<char>>,
    id: i64,
    max_children: int,
    numeric: bool,
)
    ensures
        ({
            let found = leaf_ids(grown(t, path, id, max_children, numeric), path);
            &&& found is Some
            &&& found->0.len() > 0
            &&& found->0.last() == id
        }),
    decreases path.len(),
{
    if path.len() > 0 {
        let key = growth_key(t, path[0], max_children, numeric);
        let rest = path.drop_first();
        let at = branch(t, key);
        let g = grown(t, path, id, max_children, numeric);
        lemma_index_holds(branch_keys(t), key);
        lemma_index_holds(branch_keys(t), path[0]);
        if at < t.children.len() {
            law_clusters_are_found_where_they_grew(
                t.children[at].1,
                rest,
                id,
                max_children,
                numeric,
            );
            assert(branch_keys(t)[at] == t.children[at].0);
            assert(branch_keys(g) =~= branch_keys(t));
        } else {
            law_clusters_are_found_where_they_grew(
                crate::dedup::drain3::empty_tree(),
                rest,
                id,
                max_children,
                numeric,
            );
            let n = t.children.len() as int;
            assert(branch_keys(g) =~= branch_keys(t).push(key));
            assert forall|i: int| 0 <= i < n implies branch_keys(g)[i] != key by {
                assert(branch_keys(g)[i] == branch_keys(t)[i]);
            }
            lemma_first_index(branch_keys(g), key, n);
            lemma_index_holds(branch_keys(g), path[0]);
        }
    }
}

} // verus!
