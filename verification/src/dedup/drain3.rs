//! Drain3 log template miner.
//!
//! Prefix-tree based online log parsing. Each log shape is assigned to a
//! cluster with a template that holds `<*>` in place of variable tokens.
use vstd::prelude::*;

use crate::text::bytes::{has_digit, some_digit};
use crate::text::seqs::{
    first_index, join_strings, joined, lemma_first_index, replace_all, replaced, trim, trimmed,
    words, words_of,
};
use crate::text::strings::{chars_of, str_eq, texts};

verus! {

/// A similarity threshold, as a fraction.
#[derive(Debug, Clone, Copy, PartialEq, Eq)]
pub struct Ratio {
    pub num: u64,
    pub den: u64,
}

/// Configuration for the Drain algorithm.
#[derive(Debug)]
pub struct DrainConfig {
    /// Tree depth (minimum 3). The first level groups by token count.
    pub depth: i64,
    /// Similarity threshold. Higher means stricter matching.
    pub sim_th: Ratio,
    /// Child nodes per tree node before falling back to the wildcard.
    pub max_children: i64,
    /// Has no effect on the result: clusters are neither bounded nor dropped.
    pub max_clusters: usize,
    /// Extra delimiters replaced by a space before tokenising.
    pub extra_delimiters: Vec<String>,
    /// Route tokens with digits through wildcard branches of the tree.
    pub parametrize_numeric_tokens: bool,
}

impl Default for DrainConfig {
    fn default() -> (r: Self)
        ensures
            r.depth == 4,
            r.sim_th == (Ratio { num: 2, den: 5 }),
            r.max_children == 100,
            r.max_clusters == 1000,
            r.extra_delimiters@.len() == 0,
            r.parametrize_numeric_tokens,
    {
        DrainConfig {
            depth: 4,
            sim_th: Ratio { num: 2, den: 5 },
            max_children: 100,
            max_clusters: 1000,
            extra_delimiters: Vec::new(),
            parametrize_numeric_tokens: true,
        }
    }
}

/// A cluster of log messages with a common template.
#[derive(Debug)]
pub struct LogCluster {
    pub cluster_id: i64,
    pub template_tokens: Vec<String>,
    pub size: i64,
}

/// What a [`LogCluster`] holds.
pub struct ClusterModel {
    pub id: int,
    pub tokens: Seq<Seq<char>>,
    pub size: int,
}

impl View for LogCluster {
    type V = ClusterModel;

    open spec fn view(&self) -> ClusterModel {
        ClusterModel {
            id: self.cluster_id as int,
            tokens: texts(self.template_tokens@),
            size: self.size as int,
        }
    }
}

impl LogCluster {
    /// A cluster of one message.
    pub fn new(id: i64, tokens: Vec<String>) -> (r: Self)
        ensures
            r@ == (ClusterModel { id: id as int, tokens: texts(tokens@), size: 1 }),
    {
        LogCluster { cluster_id: id, template_tokens: tokens, size: 1 }
    }

    /// The template as one string.
    pub fn template(&self) -> (r: String)
        ensures
            r@ == joined(self@.tokens, " "@),
    {
        join_strings(&self.template_tokens, " ")
    }
}

/// A node of the prefix tree.
#[derive(Debug)]
pub struct Node {
    children: Vec<(String, Node)>,
    cluster_ids: Vec<i64>,
}

/// What a [`Node`] holds.
pub struct Tree {
    pub children: Seq<(Seq<char>, Tree)>,
    pub ids: Seq<i64>,
}

impl Node {
    pub closed spec fn model(self) -> Tree
        decreases self,
    {
        Tree {
            children: Seq::new(
                self.children@.len(),
                |i: int|
                    if 0 <= i < self.children@.len() {
                        (self.children@[i].0@, self.children@[i].1.model())
                    } else {
                        arbitrary()
                    },
            ),
            ids: self.cluster_ids@,
        }
    }
}

/// The wildcard token.
pub open spec fn wildcard() -> Seq<char> {
    "<*>"@
}

/// The tree without branches and clusters.
pub open spec fn empty_tree() -> Tree {
    Tree { children: Seq::empty(), ids: Seq::empty() }
}

/// The tokens of the branches that leave a node.
pub open spec fn branch_keys(t: Tree) -> Seq<Seq<char>> {
    t.children.map_values(|e: (Seq<char>, Tree)| e.0)
}

/// The index of the branch for `key`, or the number of branches.
pub open spec fn branch(t: Tree, key: Seq<char>) -> int {
    first_index(branch_keys(t), key)
}

/// There is a branch for `key`.
pub open spec fn has_branch(t: Tree, key: Seq<char>) -> bool {
    branch(t, key) < t.children.len()
}

/// All cluster ids in a tree.
pub open spec fn all_ids(t: Tree) -> Seq<i64>
    decreases t,
{
    t.ids + child_ids(t.children)
}

/// All cluster ids under a list of branches.
pub open spec fn child_ids(c: Seq<(Seq<char>, Tree)>) -> Seq<i64>
    decreases c,
{
    if c.len() == 0 {
        Seq::empty()
    } else {
        child_ids(c.drop_last()) + all_ids(c.last().1)
    }
}

/// The ids at the node that `path` leads to; a token without a branch takes
/// the wildcard branch, and without that one the path ends nowhere.
pub open spec fn leaf_ids(t: Tree, path: Seq<Seq<char>>) -> Option<Seq<i64>>
    decreases path.len(),
{
    if path.len() == 0 {
        Some(t.ids)
    } else if has_branch(t, path[0]) {
        leaf_ids(t.children[branch(t, path[0])].1, path.drop_first())
    } else if has_branch(t, wildcard()) {
        leaf_ids(t.children[branch(t, wildcard())].1, path.drop_first())
    } else {
        None
    }
}

/// The branch that a new message with `token` takes: its own if it exists or
/// may be made, else the wildcard.
pub open spec fn growth_key(t: Tree, token: Seq<char>, max_children: int, numeric: bool) -> Seq<
    char,
> {
    let n = t.children.len();
    if has_branch(t, token) {
        token
    } else if numeric && some_digit(vstd::utf8::encode_utf8(token)) {
        wildcard()
    } else if has_branch(t, wildcard()) {
        if n < max_children {
            token
        } else {
            wildcard()
        }
    } else if n + 1 < max_children {
        token
    } else {
        wildcard()
    }
}

/// The tree with `id` attached where `path` leads, branches made as needed.
pub open spec fn grown(
    t: Tree,
    path: Seq<Seq<char>>,
    id: i64,
    max_children: int,
    numeric: bool,
) -> Tree
    decreases path.len(),
{
    if path.len() == 0 {
        Tree { children: t.children, ids: t.ids.push(id) }
    } else {
        let key = growth_key(t, path[0], max_children, numeric);
        let rest = path.drop_first();
        let at = branch(t, key);
        if at < t.children.len() {
            Tree {
                children: t.children.update(
                    at,
                    (key, grown(t.children[at].1, rest, id, max_children, numeric)),
                ),
                ids: t.ids,
            }
        } else {
            Tree {
                children: t.children.push(
                    (key, grown(empty_tree(), rest, id, max_children, numeric)),
                ),
                ids: t.ids,
            }
        }
    }
}

/// No two branches share a token, and a node without a wildcard branch has
/// room for one.
pub open spec fn tree_ok(t: Tree, max_children: int) -> bool
    decreases t,
{
    &&& branch_keys(t).no_duplicates()
    &&& has_branch(t, wildcard()) || t.children.len() + 1 <= max_children
    &&& forall|i: int| 0 <= i < t.children.len() ==> tree_ok((#[trigger] t.children[i]).1, max_children)
}

/// How many of the first `k` template tokens are the wildcard.
pub open spec fn params(template: Seq<Seq<char>>, k: nat) -> nat
    decreases k,
{
    if k == 0 {
        0
    } else {
        params(template, (k - 1) as nat) + if template[k - 1] == wildcard() {
            1nat
        } else {
            0nat
        }
    }
}

/// How many of the first `k` template tokens are not the wildcard and equal
/// the message token.
pub open spec fn hits(template: Seq<Seq<char>>, tokens: Seq<Seq<char>>, k: nat) -> nat
    decreases k,
{
    if k == 0 {
        0
    } else {
        hits(template, tokens, (k - 1) as nat) + if template[k - 1] != wildcard() && template[k - 1]
            == tokens[k - 1] {
            1nat
        } else {
            0nat
        }
    }
}

/// The numerator of the similarity of a template and a message of as many
/// tokens; the denominator is [`similarity_total`].
pub open spec fn similarity(
    template: Seq<Seq<char>>,
    tokens: Seq<Seq<char>>,
    with_params: bool,
) -> nat {
    if tokens.len() == 0 {
        1
    } else {
        hits(template, tokens, tokens.len()) + if with_params {
            params(template, tokens.len())
        } else {
            0
        }
    }
}

/// The denominator of a similarity.
pub open spec fn similarity_total(tokens: Seq<Seq<char>>) -> nat {
    if tokens.len() == 0 {
        1
    } else {
        tokens.len()
    }
}

/// Cluster `a` fits a message better than cluster `b`: it is more similar,
/// or as similar with more wildcards.
pub open spec fn fits_better(
    a: ClusterModel,
    b: ClusterModel,
    tokens: Seq<Seq<char>>,
    with_params: bool,
) -> bool {
    let sa = similarity(a.tokens, tokens, with_params);
    let sb = similarity(b.tokens, tokens, with_params);
    sa > sb || (sa == sb && params(a.tokens, tokens.len()) > params(b.tokens, tokens.len()))
}

/// The candidate that fits a message best; the first of several.
pub open spec fn best_fit(
    clusters: Seq<ClusterModel>,
    ids: Seq<i64>,
    tokens: Seq<Seq<char>>,
    with_params: bool,
) -> Option<i64>
    decreases ids.len(),
{
    if ids.len() == 0 {
        None
    } else {
        let c = ids.last();
        match best_fit(clusters, ids.drop_last(), tokens, with_params) {
            None => Some(c),
            Some(b) => if fits_better(clusters[c - 1], clusters[b - 1], tokens, with_params) {
                Some(c)
            } else {
                Some(b)
            },
        }
    }
}

/// The state of a miner.
pub struct DrainModel {
    /// Levels of the tree below the token count.
    pub levels: int,
    pub threshold: Ratio,
    pub max_children: int,
    pub delimiters: Seq<Seq<char>>,
    pub numeric: bool,
    /// One tree for each token count.
    pub groups: Seq<(nat, Tree)>,
    /// The cluster with id `k` stands at index `k - 1`.
    pub clusters: Seq<ClusterModel>,
}

/// The state before the first message. The depth is at least three.
pub open spec fn first_state(
    depth: i64,
    threshold: Ratio,
    max_children: int,
    delimiters: Seq<Seq<char>>,
    numeric: bool,
) -> DrainModel {
    DrainModel {
        levels: if depth < 3 {
            1
        } else {
            depth - 2
        },
        threshold,
        max_children,
        delimiters,
        numeric,
        groups: Seq::empty(),
        clusters: Seq::empty(),
    }
}

/// The best candidate, if it reaches the threshold.
pub open spec fn fast_match_of(
    m: DrainModel,
    ids: Seq<i64>,
    tokens: Seq<Seq<char>>,
    with_params: bool,
) -> Option<i64> {
    match best_fit(m.clusters, ids, tokens, with_params) {
        Some(id) => if similarity(m.clusters[id - 1].tokens, tokens, with_params) * m.threshold.den
            >= m.threshold.num * similarity_total(tokens) {
            Some(id)
        } else {
            None
        },
        None => None,
    }
}

/// The tokens that lead through the tree.
pub open spec fn tree_path(m: DrainModel, tokens: Seq<Seq<char>>) -> Seq<Seq<char>> {
    if tokens.len() == 0 {
        Seq::empty()
    } else if m.levels <= tokens.len() {
        tokens.take(m.levels - 1)
    } else {
        tokens.drop_last()
    }
}

/// The index of the tree for messages of `n` tokens, or the number of trees.
pub open spec fn group_index(groups: Seq<(nat, Tree)>, n: nat) -> int
    decreases groups.len(),
{
    if groups.len() == 0 || groups[0].0 == n {
        0
    } else {
        1 + group_index(groups.drop_first(), n)
    }
}

/// The cluster found by walking the tree.
pub open spec fn tree_search_of(m: DrainModel, t: Tree, tokens: Seq<Seq<char>>) -> Option<i64> {
    if tokens.len() == 0 {
        if t.ids.len() > 0 {
            Some(t.ids[0])
        } else {
            None
        }
    } else {
        match leaf_ids(t, tree_path(m, tokens)) {
            Some(ids) => fast_match_of(m, ids, tokens, false),
            None => None,
        }
    }
}

/// The cluster that a message belongs to: the one found by walking the tree,
/// else the best among all clusters with as many tokens.
pub open spec fn matched_cluster(m: DrainModel, tokens: Seq<Seq<char>>) -> Option<i64> {
    let g = group_index(m.groups, tokens.len());
    if g < m.groups.len() {
        let t = m.groups[g].1;
        match tree_search_of(m, t, tokens) {
            Some(id) => Some(id),
            None => fast_match_of(m, all_ids(t), tokens, true),
        }
    } else {
        None
    }
}

/// Tokens on which template and message agree stay, others become the wildcard.
pub open spec fn merged_template(template: Seq<Seq<char>>, tokens: Seq<Seq<char>>) -> Seq<Seq<char>> {
    Seq::new(
        template.len(),
        |i: int|
            if template[i] == tokens[i] {
                template[i]
            } else {
                wildcard()
            },
    )
}

/// `content` with each delimiter replaced by a space in turn.
pub open spec fn delimited(content: Seq<char>, delimiters: Seq<Seq<char>>) -> Seq<char>
    decreases delimiters.len(),
{
    if delimiters.len() == 0 {
        content
    } else {
        replaced(delimited(content, delimiters.drop_last()), delimiters.last(), " "@)
    }
}

/// The tokens of a message.
pub open spec fn tokens_of(content: Seq<char>, delimiters: Seq<Seq<char>>) -> Seq<Seq<char>> {
    words(delimited(trim(content), delimiters))
}

/// The state after a message with these tokens, and the id of its cluster.
pub open spec fn drain_step(m: DrainModel, tokens: Seq<Seq<char>>) -> (DrainModel, i64) {
    match matched_cluster(m, tokens) {
        Some(id) => {
            let c = m.clusters[id - 1];
            (
                DrainModel {
                    clusters: m.clusters.update(
                        id - 1,
                        ClusterModel {
                            id: c.id,
                            tokens: merged_template(c.tokens, tokens),
                            size: c.size + 1,
                        },
                    ),
                    ..m
                },
                id,
            )
        },
        None => {
            let id = (m.clusters.len() + 1) as i64;
            let g = group_index(m.groups, tokens.len());
            let old_tree = if g < m.groups.len() {
                m.groups[g].1
            } else {
                empty_tree()
            };
            let tree = grown(old_tree, tree_path(m, tokens), id, m.max_children, m.numeric);
            (
                DrainModel {
                    groups: if g < m.groups.len() {
                        m.groups.update(g, (tokens.len(), tree))
                    } else {
                        m.groups.push((tokens.len(), tree))
                    },
                    clusters: m.clusters.push(ClusterModel { id: id as int, tokens, size: 1 }),
                    ..m
                },
                id,
            )
        },
    }
}

/// Every id names a cluster whose template has `n` tokens.
pub open spec fn ids_ok(ids: Seq<i64>, n: nat, clusters: Seq<ClusterModel>) -> bool {
    forall|i: int|
        0 <= i < ids.len() ==> 1 <= #[trigger] ids[i] <= clusters.len() && clusters[ids[i]
            - 1].tokens.len() == n
}

/// The cluster at index `c` can be found in the tree for its token count.
pub open spec fn is_filed(m: DrainModel, c: int) -> bool {
    let g = group_index(m.groups, m.clusters[c].tokens.len());
    g < m.groups.len() && all_ids(m.groups[g].1).contains((c + 1) as i64)
}

/// What every operation keeps.
pub open spec fn drain_ok(m: DrainModel) -> bool {
    &&& m.levels >= 1
    &&& m.max_children >= 1
    &&& m.threshold.den >= 1
    &&& m.clusters.len() < i64::MAX
    &&& forall|c: int|
        0 <= c < m.clusters.len() ==> (#[trigger] m.clusters[c]).id == c + 1 && m.clusters[c].size
            >= 1
    &&& forall|g: int|
        0 <= g < m.groups.len() ==> tree_ok((#[trigger] m.groups[g]).1, m.max_children) && ids_ok(
            all_ids(m.groups[g].1),
            m.groups[g].0,
            m.clusters,
        )
    &&& forall|c: int| 0 <= c < m.clusters.len() ==> #[trigger] is_filed(m, c)
}

/// An id stands under a list of branches exactly when it stands in one of
/// their trees.
proof fn lemma_child_ids(c: Seq<(Seq<char>, Tree)>, x: i64)
    ensures
        child_ids(c).contains(x) <==> exists|i: int|
            0 <= i < c.len() && #[trigger] all_ids(c[i].1).contains(x),
    decreases c.len(),
{
    if c.len() > 0 {
        let init = c.drop_last();
        lemma_child_ids(init, x);
        lemma_concat_contains(child_ids(init), all_ids(c.last().1), x);
        if child_ids(c).contains(x) {
            if child_ids(init).contains(x) {
                let i = choose|i: int|
                    0 <= i < init.len() && #[trigger] all_ids(init[i].1).contains(x);
                assert(all_ids(c[i].1).contains(x));
            } else {
                assert(all_ids(c[c.len() - 1].1).contains(x));
            }
        }
        if exists|i: int| 0 <= i < c.len() && #[trigger] all_ids(c[i].1).contains(x) {
            let i = choose|i: int| 0 <= i < c.len() && #[trigger] all_ids(c[i].1).contains(x);
            if i < init.len() {
                assert(all_ids(init[i].1).contains(x));
            }
        }
    }
}

proof fn lemma_concat_contains<A>(a: Seq<A>, b: Seq<A>, x: A)
    ensures
        (a + b).contains(x) <==> a.contains(x) || b.contains(x),
{
    if a.contains(x) {
        let i = choose|i: int| 0 <= i < a.len() && a[i] == x;
        assert((a + b)[i] == x);
    }
    if b.contains(x) {
        let i = choose|i: int| 0 <= i < b.len() && b[i] == x;
        assert((a + b)[a.len() + i] == x);
    }
    if (a + b).contains(x) {
        let i = choose|i: int| 0 <= i < (a + b).len() && (a + b)[i] == x;
        if i < a.len() {
            assert(a[i] == x);
        } else {
            assert(b[i - a.len()] == x);
        }
    }
}

/// The ids in a tree are those at its root and those below its branches.
proof fn lemma_all_ids(t: Tree, x: i64)
    ensures
        all_ids(t).contains(x) <==> t.ids.contains(x) || exists|i: int|
            0 <= i < t.children.len() && #[trigger] all_ids(t.children[i].1).contains(x),
{
    lemma_child_ids(t.children, x);
    lemma_concat_contains(t.ids, child_ids(t.children), x);
}

/// A branch index is valid and leads to the token it was asked for.
proof fn lemma_branch(t: Tree, key: Seq<char>)
    ensures
        0 <= branch(t, key) <= t.children.len(),
        has_branch(t, key) ==> t.children[branch(t, key)].0 == key,
        !has_branch(t, key) ==> !branch_keys(t).contains(key),
{
    lemma_first_index_range(branch_keys(t), key);
}

proof fn lemma_first_index_range<A>(s: Seq<A>, c: A)
    ensures
        0 <= first_index(s, c) <= s.len(),
        first_index(s, c) < s.len() ==> s[first_index(s, c)] == c,
        first_index(s, c) == s.len() ==> !s.contains(c),
    decreases s.len(),
{
    if s.len() > 0 && s.first() != c {
        lemma_first_index_range(s.drop_first(), c);
        if s.contains(c) {
            let i = choose|i: int| 0 <= i < s.len() && s[i] == c;
            assert(s.drop_first()[i - 1] == c);
        }
    }
}

/// What a path leads to stands in the tree.
proof fn lemma_leaf_ids(t: Tree, path: Seq<Seq<char>>, x: i64)
    requires
        leaf_ids(t, path) is Some,
        leaf_ids(t, path)->0.contains(x),
    ensures
        all_ids(t).contains(x),
    decreases path.len(),
{
    lemma_all_ids(t, x);
    if path.len() > 0 {
        let at = if has_branch(t, path[0]) {
            branch(t, path[0])
        } else {
            branch(t, wildcard())
        };
        lemma_branch(t, path[0]);
        lemma_branch(t, wildcard());
        lemma_leaf_ids(t.children[at].1, path.drop_first(), x);
    }
}

/// Growing a tree adds one id and loses none.
proof fn lemma_grown_ids(
    t: Tree,
    path: Seq<Seq<char>>,
    id: i64,
    max_children: int,
    numeric: bool,
    x: i64,
)
    ensures
        all_ids(grown(t, path, id, max_children, numeric)).contains(x) <==> all_ids(t).contains(x)
            || x == id,
    decreases path.len(),
{
    let g = grown(t, path, id, max_children, numeric);
    lemma_all_ids(t, x);
    lemma_all_ids(g, x);
    if path.len() == 0 {
        lemma_concat_contains(t.ids, seq![id], x);
        assert(t.ids.push(id) =~= t.ids + seq![id]);
        assert(seq![id].contains(x) <==> x == id) by {
            assert(seq![id][0] == id);
        }
    } else {
        let key = growth_key(t, path[0], max_children, numeric);
        let rest = path.drop_first();
        let at = branch(t, key);
        lemma_branch(t, key);
        if at < t.children.len() {
            lemma_grown_ids(t.children[at].1, rest, id, max_children, numeric, x);
            if exists|i: int|
                0 <= i < t.children.len() && #[trigger] all_ids(t.children[i].1).contains(x) {
                let i = choose|i: int|
                    0 <= i < t.children.len() && #[trigger] all_ids(t.children[i].1).contains(x);
                assert(all_ids(g.children[i].1).contains(x));
            }
            if exists|i: int|
                0 <= i < g.children.len() && #[trigger] all_ids(g.children[i].1).contains(x) {
                let i = choose|i: int|
                    0 <= i < g.children.len() && #[trigger] all_ids(g.children[i].1).contains(x);
                if i != at {
                    assert(all_ids(t.children[i].1).contains(x));
                }
            }
            if x == id {
                assert(all_ids(g.children[at].1).contains(x));
            }
        } else {
            lemma_grown_ids(empty_tree(), rest, id, max_children, numeric, x);
            lemma_all_ids(empty_tree(), x);
            let n = t.children.len() as int;
            if exists|i: int|
                0 <= i < t.children.len() && #[trigger] all_ids(t.children[i].1).contains(x) {
                let i = choose|i: int|
                    0 <= i < t.children.len() && #[trigger] all_ids(t.children[i].1).contains(x);
                assert(all_ids(g.children[i].1).contains(x));
            }
            if exists|i: int|
                0 <= i < g.children.len() && #[trigger] all_ids(g.children[i].1).contains(x) {
                let i = choose|i: int|
                    0 <= i < g.children.len() && #[trigger] all_ids(g.children[i].1).contains(x);
                if i != n {
                    assert(all_ids(t.children[i].1).contains(x));
                }
            }
            if x == id {
                assert(all_ids(g.children[n].1).contains(x));
            }
        }
    }
}

/// A key that occurs is a branch.
proof fn lemma_key_is_branch(t: Tree, i: int)
    requires
        0 <= i < t.children.len(),
    ensures
        has_branch(t, t.children[i].0),
{
    lemma_branch(t, t.children[i].0);
    assert(branch_keys(t)[i] == t.children[i].0);
}

/// Growing a tree keeps it in order.
proof fn lemma_grown_ok(
    t: Tree,
    path: Seq<Seq<char>>,
    id: i64,
    max_children: int,
    numeric: bool,
)
    requires
        max_children >= 1,
        tree_ok(t, max_children),
    ensures
        tree_ok(grown(t, path, id, max_children, numeric), max_children),
    decreases path.len(),
{
    let g = grown(t, path, id, max_children, numeric);
    if path.len() == 0 {
        assert(branch_keys(g) =~= branch_keys(t));
    } else {
        let key = growth_key(t, path[0], max_children, numeric);
        let rest = path.drop_first();
        let at = branch(t, key);
        lemma_branch(t, key);
        lemma_branch(t, wildcard());
        if at < t.children.len() {
            lemma_grown_ok(t.children[at].1, rest, id, max_children, numeric);
            assert(branch_keys(g) =~= branch_keys(t));
        } else {
            assert(branch_keys(empty_tree()) =~= Seq::empty());
            assert(tree_ok(empty_tree(), max_children));
            lemma_grown_ok(empty_tree(), rest, id, max_children, numeric);
            assert(branch_keys(g) =~= branch_keys(t).push(key));
            assert(branch_keys(g).no_duplicates()) by {
                assert(!branch_keys(t).contains(key));
            }
            if key == wildcard() {
                lemma_key_is_branch(g, t.children.len() as int);
            } else if has_branch(t, wildcard()) {
                lemma_key_is_branch(g, branch(t, wildcard()));
            }
        }
        assert forall|i: int| 0 <= i < g.children.len() implies tree_ok(
            (#[trigger] g.children[i]).1,
            max_children,
        ) by {
            if i < t.children.len() && i != at {
                assert(tree_ok(t.children[i].1, max_children));
            }
        }
    }
}

/// The best candidate is one of the candidates, and none is more similar.
proof fn lemma_best_fit(
    clusters: Seq<ClusterModel>,
    ids: Seq<i64>,
    tokens: Seq<Seq<char>>,
    with_params: bool,
)
    ensures
        ids.len() > 0 <==> best_fit(clusters, ids, tokens, with_params) is Some,
        best_fit(clusters, ids, tokens, with_params) matches Some(b) ==> ids.contains(b)
            && forall|i: int|
            0 <= i < ids.len() ==> similarity(
                clusters[#[trigger] ids[i] - 1].tokens,
                tokens,
                with_params,
            ) <= similarity(clusters[b - 1].tokens, tokens, with_params),
    decreases ids.len(),
{
    if ids.len() > 0 {
        lemma_best_fit(clusters, ids.drop_last(), tokens, with_params);
        let b = best_fit(clusters, ids, tokens, with_params)->0;
        assert(ids.contains(b)) by {
            if b == ids.last() {
                assert(ids[ids.len() - 1] == b);
            } else {
                let k = choose|k: int|
                    0 <= k < ids.drop_last().len() && ids.drop_last()[k] == b;
                assert(ids[k] == b);
            }
        }
        assert forall|i: int| 0 <= i < ids.len() implies similarity(
            clusters[#[trigger] ids[i] - 1].tokens,
            tokens,
            with_params,
        ) <= similarity(clusters[b - 1].tokens, tokens, with_params) by {
            if i < ids.len() - 1 {
                assert(ids.drop_last()[i] == ids[i]);
            }
        }
    }
}

/// Only candidates are matched.
proof fn lemma_fast_match(
    m: DrainModel,
    ids: Seq<i64>,
    tokens: Seq<Seq<char>>,
    with_params: bool,
)
    ensures
        fast_match_of(m, ids, tokens, with_params) matches Some(b) ==> ids.contains(b),
{
    lemma_best_fit(m.clusters, ids, tokens, with_params);
}

proof fn lemma_group_index(groups: Seq<(nat, Tree)>, n: nat)
    ensures
        0 <= group_index(groups, n) <= groups.len(),
        group_index(groups, n) < groups.len() ==> groups[group_index(groups, n)].0 == n,
    decreases groups.len(),
{
    if groups.len() > 0 && groups[0].0 != n {
        lemma_group_index(groups.drop_first(), n);
    }
}

/// Where the search for a token count ends.
proof fn lemma_group_index_at(groups: Seq<(nat, Tree)>, n: nat, i: int)
    requires
        0 <= i <= groups.len(),
        forall|j: int| 0 <= j < i ==> (#[trigger] groups[j]).0 != n,
        i < groups.len() ==> groups[i].0 == n,
    ensures
        group_index(groups, n) == i,
    decreases i,
{
    if i > 0 {
        assert(groups[0].0 != n);
        assert forall|j: int| 0 <= j < i - 1 implies (#[trigger] groups.drop_first()[j]).0 != n by {
            assert(groups[j + 1].0 != n);
        }
        lemma_group_index_at(groups.drop_first(), n, i - 1);
    }
}

proof fn lemma_group_index_before(groups: Seq<(nat, Tree)>, n: nat, j: int)
    requires
        0 <= j < group_index(groups, n),
        j < groups.len(),
    ensures
        groups[j].0 != n,
    decreases groups.len(),
{
    if groups.len() > 0 && groups[0].0 != n && j > 0 {
        lemma_group_index_before(groups.drop_first(), n, j - 1);
    }
}

/// A matched cluster exists and has as many tokens as the message.
pub proof fn lemma_matched_cluster(m: DrainModel, tokens: Seq<Seq<char>>)
    requires
        drain_ok(m),
    ensures
        matched_cluster(m, tokens) matches Some(id) ==> 1 <= id <= m.clusters.len()
            && m.clusters[id - 1].tokens.len() == tokens.len(),
{
    let g = group_index(m.groups, tokens.len());
    lemma_group_index(m.groups, tokens.len());
    if let Some(id) = matched_cluster(m, tokens) {
        let t = m.groups[g].1;
        assert(tree_ok(m.groups[g].1, m.max_children));
        if let Some(found) = tree_search_of(m, t, tokens) {
            if tokens.len() == 0 {
                assert(t.ids.contains(id));
                lemma_all_ids(t, id);
            } else {
                let ids = leaf_ids(t, tree_path(m, tokens))->0;
                lemma_fast_match(m, ids, tokens, false);
                lemma_leaf_ids(t, tree_path(m, tokens), id);
            }
        } else {
            lemma_fast_match(m, all_ids(t), tokens, true);
        }
        let k = choose|k: int| 0 <= k < all_ids(t).len() && all_ids(t)[k] == id;
        assert(all_ids(t)[k] == id);
    }
}

/// A step keeps the state in order.
pub proof fn lemma_step_ok(m: DrainModel, tokens: Seq<Seq<char>>)
    requires
        drain_ok(m),
        m.clusters.len() + 1 < i64::MAX,
    ensures
        drain_ok(drain_step(m, tokens).0),
{
    let (after, id) = drain_step(m, tokens);
    lemma_matched_cluster(m, tokens);
    let n = tokens.len();
    let g = group_index(m.groups, n);
    lemma_group_index(m.groups, n);
    if matched_cluster(m, tokens) is Some {
        assert forall|h: int| 0 <= h < after.groups.len() implies tree_ok(
            (#[trigger] after.groups[h]).1,
            after.max_children,
        ) && ids_ok(all_ids(after.groups[h].1), after.groups[h].0, after.clusters) by {
            assert(ids_ok(all_ids(m.groups[h].1), m.groups[h].0, m.clusters));
        }
        assert forall|c: int| 0 <= c < after.clusters.len() implies #[trigger] is_filed(
            after,
            c,
        ) by {
            assert(is_filed(m, c));
        }
    } else {
        let old_tree = if g < m.groups.len() {
            m.groups[g].1
        } else {
            empty_tree()
        };
        let path = tree_path(m, tokens);
        let tree = grown(old_tree, path, id, m.max_children, m.numeric);
        assert(branch_keys(empty_tree()) =~= Seq::empty());
        assert(tree_ok(empty_tree(), m.max_children));
        lemma_grown_ok(old_tree, path, id, m.max_children, m.numeric);
        assert(ids_ok(all_ids(old_tree), n, m.clusters)) by {
            assert(all_ids(empty_tree()) =~= Seq::empty());
        }
        assert(ids_ok(all_ids(tree), n, after.clusters)) by {
            assert forall|i: int| 0 <= i < all_ids(tree).len() implies 1 <= #[trigger] all_ids(
                tree,
            )[i] <= after.clusters.len() && after.clusters[all_ids(tree)[i] - 1].tokens.len()
                == n by {
                let x = all_ids(tree)[i];
                assert(all_ids(tree).contains(x));
                lemma_grown_ids(old_tree, path, id, m.max_children, m.numeric, x);
                if x != id {
                    let k = choose|k: int|
                        0 <= k < all_ids(old_tree).len() && all_ids(old_tree)[k] == x;
                    assert(all_ids(old_tree)[k] == x);
                }
            }
        }
        assert forall|h: int| 0 <= h < after.groups.len() implies tree_ok(
            (#[trigger] after.groups[h]).1,
            after.max_children,
        ) && ids_ok(all_ids(after.groups[h].1), after.groups[h].0, after.clusters) by {
            if h < m.groups.len() && h != g {
                assert(ids_ok(all_ids(m.groups[h].1), m.groups[h].0, m.clusters));
                assert(after.groups[h] == m.groups[h]);
            }
        }
        assert forall|c: int| 0 <= c < after.clusters.len() implies #[trigger] is_filed(
            after,
            c,
        ) by {
            let len = after.clusters[c].tokens.len();
            lemma_group_index(m.groups, len);
            lemma_index_after_filing(m.groups, after.groups, len, g);
            if c < m.clusters.len() {
                assert(is_filed(m, c));
                if len == n {
                    lemma_grown_ids(
                        old_tree,
                        path,
                        id,
                        m.max_children,
                        m.numeric,
                        (c + 1) as i64,
                    );
                }
            } else {
                lemma_index_after_filing(m.groups, after.groups, n, g);
                lemma_grown_ids(old_tree, path, id, m.max_children, m.numeric, id);
            }
        }
    }
}

/// Putting a tree in place of the one for its token count, or behind the
/// others, moves no other tree.
proof fn lemma_index_after_filing(
    before: Seq<(nat, Tree)>,
    after: Seq<(nat, Tree)>,
    n: nat,
    g: int,
)
    requires
        0 <= g <= before.len(),
        g < before.len() ==> after.len() == before.len() && after[g].0 == before[g].0,
        g == before.len() ==> after.len() == before.len() + 1,
        forall|h: int| 0 <= h < before.len() && h != g ==> #[trigger] after[h] == before[h],
    ensures
        group_index(before, n) < before.len() ==> group_index(after, n) == group_index(before, n),
        group_index(before, n) == before.len() && after.len() > before.len() && after[g].0 == n
            ==> group_index(after, n) == g,
{
    let i = group_index(before, n);
    lemma_group_index(before, n);
    assert forall|j: int| 0 <= j < i implies (#[trigger] after[j]).0 != n by {
        lemma_group_index_before(before, n, j);
        if j != g {
            assert(after[j] == before[j]);
        }
    }
    if i < before.len() {
        if i != g {
            assert(after[i] == before[i]);
        }
        lemma_group_index_at(after, n, i);
    } else if after.len() > before.len() && after[g].0 == n {
        lemma_group_index_at(after, n, g);
    }
}

impl Node {
    /// A node without branches and clusters.
    pub fn new() -> (r: Self)
        ensures
            r.model() == empty_tree(),
    {
        let r = Node { children: Vec::new(), cluster_ids: Vec::new() };
        assert(r.model().children =~= Seq::empty());
        assert(r.model().ids =~= Seq::empty());
        r
    }

    /// The index of the branch for `key`, or the number of branches.
    fn find(&self, key: &str) -> (i: usize)
        ensures
            i == branch(self.model(), key@),
            i <= self.children@.len(),
            self.children@.len() == self.model().children.len(),
    {
        let n = self.children.len();
        let mut i: usize = 0;
        let ghost keys = branch_keys(self.model());
        assert(keys.len() == n);
        while i < n && !str_eq(self.children[i].0.as_str(), key)
            invariant
                i <= n,
                n == self.children@.len(),
                keys == branch_keys(self.model()),
                keys.len() == n,
                forall|j: int| 0 <= j < i ==> keys[j] != key@,
            decreases n - i,
        {
            assert(keys[i as int] == self.children@[i as int].0@);
            i = i + 1;
        }
        proof {
            if i < n {
                assert(keys[i as int] == self.children@[i as int].0@);
            }
            lemma_first_index(keys, key@, i as int);
        }
        i
    }

    /// The ids at the node that `tokens[from..to]` leads to.
    fn leaf(&self, tokens: &Vec<String>, from: usize, to: usize) -> (r: Option<Vec<i64>>)
        requires
            from <= to <= tokens@.len(),
        ensures
            r is Some <==> leaf_ids(
                self.model(),
                texts(tokens@).subrange(from as int, to as int),
            ) is Some,
            r matches Some(ids) ==> leaf_ids(
                self.model(),
                texts(tokens@).subrange(from as int, to as int),
            ) == Some(ids@),
        decreases to - from,
    {
        let ghost path = texts(tokens@).subrange(from as int, to as int);
        if from == to {
            let mut ids: Vec<i64> = Vec::new();
            for i in 0..self.cluster_ids.len()
                invariant
                    ids@ == self.cluster_ids@.take(i as int),
            {
                ids.push(self.cluster_ids[i]);
                assert(ids@ =~= self.cluster_ids@.take(i + 1));
            }
            assert(ids@ =~= self.model().ids);
            return Some(ids);
        }
        assert(path[0] == tokens@[from as int]@);
        assert(path.drop_first() =~= texts(tokens@).subrange(from + 1, to as int));
        let own = self.find(tokens[from].as_str());
        if own < self.children.len() {
            return self.children[own].1.leaf(tokens, from + 1, to);
        }
        let star = self.find("<*>");
        if star < self.children.len() {
            return self.children[star].1.leaf(tokens, from + 1, to);
        }
        None
    }

    /// Attaches `id` where `tokens[from..to]` leads, making branches as needed.
    fn attach(
        &mut self,
        tokens: &Vec<String>,
        from: usize,
        to: usize,
        id: i64,
        max_children: i64,
        numeric: bool,
    )
        requires
            from <= to <= tokens@.len(),
        ensures
            final(self).model() == grown(
                old(self).model(),
                texts(tokens@).subrange(from as int, to as int),
                id,
                max_children as int,
                numeric,
            ),
        decreases to - from,
    {
        let ghost path = texts(tokens@).subrange(from as int, to as int);
        let ghost before = self.model();
        if from == to {
            self.cluster_ids.push(id);
            assert(self.model().children =~= before.children);
            assert(self.model().ids =~= before.ids.push(id));
            return;
        }
        assert(path[0] == tokens@[from as int]@);
        assert(path.drop_first() =~= texts(tokens@).subrange(from + 1, to as int));
        let n = self.children.len();
        let own = self.find(tokens[from].as_str());
        let star = self.find("<*>");
        let use_own = if own < n {
            true
        } else if numeric && has_digit(tokens[from].as_str().as_bytes()) {
            false
        } else if star < n {
            fits(n, 0, max_children)
        } else {
            fits(n, 1, max_children)
        };
        let at = if use_own {
            own
        } else {
            star
        };
        let ghost key = growth_key(before, path[0], max_children as int, numeric);
        assert(key == if use_own {
            path[0]
        } else {
            wildcard()
        });
        assert(at == branch(before, key));
        proof {
            lemma_branch(before, key);
        }
        if at < n {
            let ghost old_children = self.children@;
            self.children[at].1.attach(tokens, from + 1, to, id, max_children, numeric);
            assert(self.model().children =~= before.children.update(
                at as int,
                (
                    key,
                    grown(
                        before.children[at as int].1,
                        path.drop_first(),
                        id,
                        max_children as int,
                        numeric,
                    ),
                ),
            ));
            assert(self.model().ids =~= before.ids);
        } else {
            let mut child = Node::new();
            child.attach(tokens, from + 1, to, id, max_children, numeric);
            let name = if use_own {
                tokens[from].clone()
            } else {
                "<*>".to_owned()
            };
            self.children.push((name, child));
            assert(self.model().children =~= before.children.push(
                (
                    key,
                    grown(empty_tree(), path.drop_first(), id, max_children as int, numeric),
                ),
            ));
            assert(self.model().ids =~= before.ids);
        }
    }
}

/// Whether `n + extra < max`, over unbounded integers.
fn fits(n: usize, extra: u8, max: i64) -> (r: bool)
    ensures
        r == (n + extra < max),
{
    (n as i128) + (extra as i128) < max as i128
}

/// Appends all cluster ids of a tree to `out`.
fn collect_cluster_ids(node: &Node, out: &mut Vec<i64>)
    ensures
        final(out)@ == old(out)@ + all_ids(node.model()),
    decreases node,
{
    let ghost start = out@;
    for i in 0..node.cluster_ids.len()
        invariant
            out@ == start + node.cluster_ids@.take(i as int),
    {
        out.push(node.cluster_ids[i]);
        assert(out@ =~= start + node.cluster_ids@.take(i + 1));
    }
    let ghost model = node.model();
    assert(out@ =~= start + model.ids);
    assert(model.children.len() == node.children@.len());
    assert(model.children.take(0) =~= Seq::empty());
    for i in 0..node.children.len()
        invariant
            model == node.model(),
            model.children.len() == node.children@.len(),
            out@ == start + model.ids + child_ids(model.children.take(i as int)),
    {
        assert(decreases_to!(*node => node.children));
        assert(decreases_to!(node.children => node.children@));
        assert(decreases_to!(node.children@ => node.children@[i as int]));
        assert(decreases_to!(node.children@[i as int] => node.children@[i as int].1));
        let ghost now = model.children.take(i + 1);
        assert(now.drop_last() =~= model.children.take(i as int));
        assert(now.last().1 == node.children@[i as int].1.model());
        collect_cluster_ids(&node.children[i].1, out);
        assert(out@ =~= start + model.ids + child_ids(now));
    }
    assert(model.children.take(model.children.len() as int) =~= model.children);
    assert(out@ =~= start + all_ids(model));
}

/// Similarity of a template and a message of as many tokens: its numerator
/// and the number of wildcards.
fn seq_distance(template: &Vec<String>, tokens: &Vec<String>, with_params: bool) -> (r: (
    usize,
    usize,
))
    requires
        template@.len() == tokens@.len(),
    ensures
        r.0 == similarity(texts(template@), texts(tokens@), with_params),
        r.1 == params(texts(template@), tokens@.len()),
{
    if tokens.len() == 0 {
        return (1, 0);
    }
    let mut hit: usize = 0;
    let mut wild: usize = 0;
    for i in 0..tokens.len()
        invariant
            template@.len() == tokens@.len(),
            hit == hits(texts(template@), texts(tokens@), i as nat),
            wild == params(texts(template@), i as nat),
            hit + wild <= i,
    {
        assert(texts(template@)[i as int] == template@[i as int]@);
        assert(texts(tokens@)[i as int] == tokens@[i as int]@);
        if str_eq(template[i].as_str(), "<*>") {
            wild = wild + 1;
        } else if str_eq(template[i].as_str(), tokens[i].as_str()) {
            hit = hit + 1;
        }
    }
    if with_params {
        (hit + wild, wild)
    } else {
        (hit, wild)
    }
}

/// Merges a message into a template of as many tokens: tokens that agree
/// stay, others become `<*>`.
fn create_template(tokens: &Vec<String>, template: &Vec<String>) -> (r: Vec<String>)
    requires
        template@.len() == tokens@.len(),
    ensures
        texts(r@) == merged_template(texts(template@), texts(tokens@)),
{
    let mut r: Vec<String> = Vec::new();
    for i in 0..template.len()
        invariant
            template@.len() == tokens@.len(),
            r@.len() == i,
            forall|k: int|
                0 <= k < i ==> (#[trigger] r@[k])@ == merged_template(
                    texts(template@),
                    texts(tokens@),
                )[k],
    {
        assert(texts(template@)[i as int] == template@[i as int]@);
        assert(texts(tokens@)[i as int] == tokens@[i as int]@);
        if str_eq(tokens[i].as_str(), template[i].as_str()) {
            r.push(template[i].clone());
        } else {
            r.push("<*>".to_owned());
        }
    }
    assert(texts(r@) =~= merged_template(texts(template@), texts(tokens@)));
    r
}

/// Whether `k / total` reaches the threshold.
fn reaches(k: usize, total: usize, threshold: Ratio) -> (r: bool)
    ensures
        r == (k * threshold.den >= threshold.num * total),
{
    let a: u64 = k as u64;
    let b: u64 = total as u64;
    let c: u64 = threshold.den;
    let d: u64 = threshold.num;
    assert(a * c <= 0xffff_ffff_ffff_ffff * 0xffff_ffff_ffff_ffff) by (nonlinear_arith)
        requires
            0 <= a <= 0xffff_ffff_ffff_ffff,
            0 <= c <= 0xffff_ffff_ffff_ffff,
    ;
    assert(d * b <= 0xffff_ffff_ffff_ffff * 0xffff_ffff_ffff_ffff) by (nonlinear_arith)
        requires
            0 <= d <= 0xffff_ffff_ffff_ffff,
            0 <= b <= 0xffff_ffff_ffff_ffff,
    ;
    (a as u128) * (c as u128) >= (d as u128) * (b as u128)
}

/// The Drain algorithm state.
#[derive(Debug)]
pub struct Drain {
    max_node_depth: i64,
    sim_th: Ratio,
    max_children: i64,
    groups: Vec<(usize, Node)>,
    extra_delimiters: Vec<String>,
    parametrize_numeric_tokens: bool,
    clusters: Vec<LogCluster>,
}

impl View for Drain {
    type V = DrainModel;

    closed spec fn view(&self) -> DrainModel {
        DrainModel {
            levels: self.max_node_depth as int,
            threshold: self.sim_th,
            max_children: self.max_children as int,
            delimiters: texts(self.extra_delimiters@),
            numeric: self.parametrize_numeric_tokens,
            groups: self.groups@.map_values(|g: (usize, Node)| (g.0 as nat, g.1.model())),
            clusters: self.clusters@.map_values(|c: LogCluster| c@),
        }
    }
}

impl Drain {
    /// The invariant of the state.
    pub open spec fn wf(&self) -> bool {
        drain_ok(self@)
    }

    /// A miner without clusters.
    pub fn new(cfg: DrainConfig) -> (r: Self)
        requires
            cfg.max_children >= 1,
            cfg.sim_th.den >= 1,
        ensures
            r.wf(),
            r@ == first_state(
                cfg.depth,
                cfg.sim_th,
                cfg.max_children as int,
                texts(cfg.extra_delimiters@),
                cfg.parametrize_numeric_tokens,
            ),
    {
        let max_node_depth: i64 = if cfg.depth < 3 {
            1
        } else {
            cfg.depth - 2
        };
        let r = Drain {
            max_node_depth,
            sim_th: cfg.sim_th,
            max_children: cfg.max_children,
            groups: Vec::new(),
            extra_delimiters: cfg.extra_delimiters,
            parametrize_numeric_tokens: cfg.parametrize_numeric_tokens,
            clusters: Vec::new(),
        };
        assert(r@.groups =~= Seq::empty());
        assert(r@.clusters =~= Seq::empty());
        r
    }

    /// All clusters, in the order of their ids.
    pub fn clusters(&self) -> (r: &Vec<LogCluster>)
        ensures
            r@.map_values(|c: LogCluster| c@) == self@.clusters,
    {
        &self.clusters
    }

    /// The tokens of a message.
    fn tokenise(&self, content: &str) -> (r: Vec<String>)
        ensures
            texts(r@) == tokens_of(content@, self@.delimiters),
    {
        let mut s = trimmed(&chars_of(content));
        let ghost delims = texts(self.extra_delimiters@);
        assert(delims.take(0) =~= Seq::empty());
        for i in 0..self.extra_delimiters.len()
            invariant
                delims == texts(self.extra_delimiters@),
                s@ == delimited(trim(content@), delims.take(i as int)),
        {
            assert(delims.take(i + 1).drop_last() =~= delims.take(i as int));
            assert(delims[i as int] == self.extra_delimiters@[i as int]@);
            let pat = chars_of(self.extra_delimiters[i].as_str());
            s = replace_all(&chars_of(s.as_str()), &pat, " ");
        }
        assert(delims.take(delims.len() as int) =~= delims);
        words_of(&chars_of(s.as_str()))
    }

    /// The index of the tree for messages of `n` tokens, or the number of trees.
    fn group_of(&self, n: usize) -> (i: usize)
        ensures
            i == group_index(self@.groups, n as nat),
            i <= self.groups@.len(),
    {
        let total = self.groups.len();
        let mut i: usize = 0;
        while i < total && self.groups[i].0 != n
            invariant
                i <= total,
                total == self.groups@.len(),
                forall|j: int| 0 <= j < i ==> (#[trigger] self@.groups[j]).0 != n,
            decreases total - i,
        {
            assert(self@.groups[i as int].0 == self.groups@[i as int].0);
            i = i + 1;
        }
        proof {
            lemma_group_index_at(self@.groups, n as nat, i as int);
        }
        i
    }

    /// Where the path of a message through the tree ends.
    fn path_end(&self, n: usize) -> (end: usize)
        requires
            self.wf(),
        ensures
            end <= n,
            forall|tokens: Seq<Seq<char>>|
                tokens.len() == n ==> #[trigger] tree_path(self@, tokens) == tokens.take(end as int),
    {
        if n == 0 {
            assert forall|tokens: Seq<Seq<char>>| tokens.len() == n implies #[trigger] tree_path(
                self@,
                tokens,
            ) == tokens.take(0) by {
                assert(tokens.take(0) =~= Seq::empty());
            }
            return 0;
        }
        let levels: u64 = self.max_node_depth as u64;
        let end: usize = if levels <= n as u64 {
            (levels - 1) as usize
        } else {
            n - 1
        };
        assert forall|tokens: Seq<Seq<char>>| tokens.len() == n implies #[trigger] tree_path(
            self@,
            tokens,
        ) == tokens.take(end as int) by {
            assert(tokens.drop_last() =~= tokens.take(n - 1));
        }
        end
    }

    /// The candidate that fits the message best, if it reaches the threshold.
    fn fast_match(&self, ids: &Vec<i64>, tokens: &Vec<String>, with_params: bool) -> (r: Option<
        i64,
    >)
        requires
            self.wf(),
            ids_ok(ids@, tokens@.len(), self@.clusters),
        ensures
            r == fast_match_of(self@, ids@, texts(tokens@), with_params),
    {
        let ghost t = texts(tokens@);
        let mut best: Option<i64> = None;
        let mut best_sim: usize = 0;
        let mut best_params: usize = 0;
        assert(ids@.take(0) =~= Seq::empty());
        let count = self.clusters.len();
        for i in 0..ids.len()
            invariant
                count == self.clusters@.len(),
                t == texts(tokens@),
                t.len() == tokens@.len(),
                self@.clusters.len() == self.clusters@.len(),
                ids_ok(ids@, tokens@.len(), self@.clusters),
                best == best_fit(self@.clusters, ids@.take(i as int), t, with_params),
                best matches Some(b) ==> 1 <= b <= self@.clusters.len() && best_sim == similarity(
                    self@.clusters[b - 1].tokens,
                    t,
                    with_params,
                ) && best_params == params(self@.clusters[b - 1].tokens, t.len()),
        {
            let id: i64 = ids[i];
            assert(ids@.take(i + 1).drop_last() =~= ids@.take(i as int));
            assert(1 <= ids@[i as int] <= count);
            let c = &self.clusters[(id - 1) as usize];
            assert(self@.clusters[id - 1] == c@);
            let (sim, wild) = seq_distance(&c.template_tokens, tokens, with_params);
            let better = match best {
                None => true,
                Some(_) => sim > best_sim || (sim == best_sim && wild > best_params),
            };
            if better {
                best = Some(id);
                best_sim = sim;
                best_params = wild;
            }
        }
        assert(ids@.take(ids@.len() as int) =~= ids@);
        match best {
            Some(id) => {
                let total: usize = if tokens.len() == 0 {
                    1
                } else {
                    tokens.len()
                };
                if reaches(best_sim, total, self.sim_th) {
                    Some(id)
                } else {
                    None
                }
            },
            None => None,
        }
    }

    /// The cluster found by walking the tree at index `g`.
    fn tree_search(&self, g: usize, tokens: &Vec<String>) -> (r: Option<i64>)
        requires
            self.wf(),
            g < self@.groups.len(),
            self@.groups[g as int].0 == tokens@.len(),
        ensures
            r == tree_search_of(self@, self@.groups[g as int].1, texts(tokens@)),
    {
        let node = &self.groups[g].1;
        let ghost t = self@.groups[g as int].1;
        assert(t == node.model());
        assert(ids_ok(all_ids(t), self@.groups[g as int].0, self@.clusters));
        if tokens.len() == 0 {
            return if node.cluster_ids.len() > 0 {
                Some(node.cluster_ids[0])
            } else {
                None
            };
        }
        let end = self.path_end(tokens.len());
        let ghost path = tree_path(self@, texts(tokens@));
        assert(path == texts(tokens@).subrange(0, end as int));
        match node.leaf(tokens, 0, end) {
            Some(ids) => {
                assert(ids_ok(ids@, tokens@.len(), self@.clusters)) by {
                    assert forall|i: int| 0 <= i < ids@.len() implies 1 <= #[trigger] ids@[i]
                        <= self@.clusters.len() && self@.clusters[ids@[i] - 1].tokens.len()
                        == tokens@.len() by {
                        assert(ids@.contains(ids@[i]));
                        lemma_leaf_ids(t, path, ids@[i]);
                        let k = choose|k: int|
                            0 <= k < all_ids(t).len() && all_ids(t)[k] == ids@[i];
                        assert(all_ids(t)[k] == ids@[i]);
                    }
                }
                self.fast_match(&ids, tokens, false)
            },
            None => None,
        }
    }

    /// All cluster ids in the tree at index `g`.
    fn get_cluster_ids_for_group(&self, g: usize) -> (r: Vec<i64>)
        requires
            g < self@.groups.len(),
        ensures
            r@ == all_ids(self@.groups[g as int].1),
    {
        let mut out: Vec<i64> = Vec::new();
        collect_cluster_ids(&self.groups[g].1, &mut out);
        assert(out@ =~= all_ids(self@.groups[g as int].1));
        out
    }

    /// Feeds a message with these tokens.
    fn add_tokens(&mut self, tokens: Vec<String>) -> (r: (i64, bool))
        requires
            old(self).wf(),
            old(self)@.clusters.len() + 1 < i64::MAX,
            forall|c: int|
                0 <= c < old(self)@.clusters.len() ==> (#[trigger] old(self)@.clusters[c]).size
                    < i64::MAX,
        ensures
            final(self).wf(),
            (final(self)@, r.0) == drain_step(old(self)@, texts(tokens@)),
            r.1 == (matched_cluster(old(self)@, texts(tokens@)) is None),
    {
        let ghost m = self@;
        let ghost t = texts(tokens@);
        let n = tokens.len();
        proof {
            lemma_matched_cluster(m, t);
            lemma_step_ok(m, t);
            lemma_group_index(m.groups, n as nat);
        }
        let g = self.group_of(n);
        let found: Option<i64> = if g < self.groups.len() {
            match self.tree_search(g, &tokens) {
                Some(id) => Some(id),
                None => {
                    let ids = self.get_cluster_ids_for_group(g);
                    assert(ids_ok(ids@, m.groups[g as int].0, m.clusters));
                    self.fast_match(&ids, &tokens, true)
                },
            }
        } else {
            None
        };
        assert(found == matched_cluster(m, t));
        match found {
            Some(id) => {
                let count = self.clusters.len();
                assert(id <= count);
                let at = (id - 1) as usize;
                assert(m.clusters[at as int] == self.clusters@[at as int]@);
                let template = create_template(&tokens, &self.clusters[at].template_tokens);
                let size = self.clusters[at].size + 1;
                let cluster_id = self.clusters[at].cluster_id;
                self.clusters[at] = LogCluster { cluster_id, template_tokens: template, size };
                assert(self@.clusters =~= drain_step(m, t).0.clusters);
                assert(self@.groups =~= m.groups);
                (id, false)
            },
            None => {
                let id: i64 = self.clusters.len() as i64 + 1;
                let end = self.path_end(n);
                assert(tree_path(m, t) == t.subrange(0, end as int));
                if g < self.groups.len() {
                    let max_children = self.max_children;
                    let numeric = self.parametrize_numeric_tokens;
                    self.groups[g].1.attach(&tokens, 0, end, id, max_children, numeric);
                    assert(self@.groups =~= drain_step(m, t).0.groups);
                } else {
                    let mut node = Node::new();
                    node.attach(
                        &tokens,
                        0,
                        end,
                        id,
                        self.max_children,
                        self.parametrize_numeric_tokens,
                    );
                    self.groups.push((n, node));
                    assert(self@.groups =~= drain_step(m, t).0.groups);
                }
                let ghost old_clusters = self.clusters@;
                self.clusters.push(LogCluster::new(id, tokens));
                assert(self@.clusters =~= drain_step(m, t).0.clusters);
                (id, true)
            },
        }
    }

    /// Feeds a log message. Returns the id of its cluster and whether the
    /// cluster is new.
    pub fn add_log_message(&mut self, content: &str) -> (r: (i64, bool))
        requires
            old(self).wf(),
            old(self)@.clusters.len() + 1 < i64::MAX,
            forall|c: int|
                0 <= c < old(self)@.clusters.len() ==> (#[trigger] old(self)@.clusters[c]).size
                    < i64::MAX,
        ensures
            final(self).wf(),
            (final(self)@, r.0) == drain_step(
                old(self)@,
                tokens_of(content@, old(self)@.delimiters),
            ),
            r.1 == (matched_cluster(
                old(self)@,
                tokens_of(content@, old(self)@.delimiters),
            ) is None),
    {
        let tokens = self.tokenise(content);
        self.add_tokens(tokens)
    }
}

/// A template covers a message: each of its tokens is the wildcard or the
/// token of the message.
pub open spec fn covers(template: Seq<Seq<char>>, tokens: Seq<Seq<char>>) -> bool {
    template.len() == tokens.len() && forall|i: int|
        0 <= i < tokens.len() ==> #[trigger] template[i] == wildcard() || template[i] == tokens[i]
}

proof fn lemma_covering_is_fully_similar(
    template: Seq<Seq<char>>,
    tokens: Seq<Seq<char>>,
    k: nat,
)
    requires
        covers(template, tokens),
        k <= tokens.len(),
    ensures
        hits(template, tokens, k) + params(template, k) == k,
    decreases k,
{
    if k > 0 {
        lemma_covering_is_fully_similar(template, tokens, (k - 1) as nat);
        assert(template[k - 1] == wildcard() || template[k - 1] == tokens[k - 1]);
    }
}

/// A message that some cluster covers never opens a new cluster, as long as
/// the threshold does not exceed one.
pub proof fn law_covered_messages_are_matched(m: DrainModel, tokens: Seq<Seq<char>>, c: int)
    requires
        drain_ok(m),
        m.threshold.num <= m.threshold.den,
        0 <= c < m.clusters.len(),
        covers(m.clusters[c].tokens, tokens),
    ensures
        matched_cluster(m, tokens) is Some,
{
    assert(is_filed(m, c));
    let g = group_index(m.groups, tokens.len());
    lemma_group_index(m.groups, tokens.len());
    let t = m.groups[g].1;
    let ids = all_ids(t);
    lemma_best_fit(m.clusters, ids, tokens, true);
    let k = choose|k: int| 0 <= k < ids.len() && ids[k] == (c + 1) as i64;
    assert(ids[k] - 1 == c);
    lemma_covering_is_fully_similar(m.clusters[c].tokens, tokens, tokens.len());
    let b = best_fit(m.clusters, ids, tokens, true)->0;
    let s = similarity(m.clusters[b - 1].tokens, tokens, true);
    let total = similarity_total(tokens);
    assert(s >= total);
    assert(s * m.threshold.den >= m.threshold.num * total) by (nonlinear_arith)
        requires
            s >= total,
            m.threshold.num <= m.threshold.den,
    ;
}

/// What a cluster covers it goes on covering, whatever messages follow.
pub proof fn law_covering_lasts(
    m: DrainModel,
    fed: Seq<Seq<char>>,
    covered: Seq<Seq<char>>,
    c: int,
)
    requires
        drain_ok(m),
        0 <= c < m.clusters.len(),
        covers(m.clusters[c].tokens, covered),
    ensures
        covers(drain_step(m, fed).0.clusters[c].tokens, covered),
{
    lemma_matched_cluster(m, fed);
    let (after, id) = drain_step(m, fed);
    if c == id - 1 && matched_cluster(m, fed) is Some {
        assert forall|i: int| 0 <= i < covered.len() implies #[trigger] after.clusters[c].tokens[i]
            == wildcard() || after.clusters[c].tokens[i] == covered[i] by {
            assert(m.clusters[c].tokens[i] == wildcard() || m.clusters[c].tokens[i] == covered[i]);
        }
    }
}

/// The message just fed, the first one too, is covered by the cluster that
/// took it.
pub proof fn law_fed_message_is_covered(m: DrainModel, fed: Seq<Seq<char>>)
    requires
        drain_ok(m),
    ensures
        1 <= drain_step(m, fed).1 <= drain_step(m, fed).0.clusters.len(),
        covers(drain_step(m, fed).0.clusters[drain_step(m, fed).1 - 1].tokens, fed),
{
    lemma_matched_cluster(m, fed);
}

/// A message just seen never opens a cluster, as long as the threshold does
/// not exceed one.
pub proof fn law_message_just_seen_opens_no_cluster(m: DrainModel, content: Seq<char>)
    requires
        drain_ok(m),
        m.threshold.num <= m.threshold.den,
        m.clusters.len() + 1 < i64::MAX,
    ensures
        ({
            let tokens = tokens_of(content, m.delimiters);
            let after = drain_step(m, tokens).0;
            &&& after.delimiters == m.delimiters
            &&& matched_cluster(after, tokens) is Some
        }),
{
    let tokens = tokens_of(content, m.delimiters);
    let (after, id) = drain_step(m, tokens);
    lemma_step_ok(m, tokens);
    law_fed_message_is_covered(m, tokens);
    law_covered_messages_are_matched(after, tokens, id - 1);
}

/// How many messages the clusters hold together.
pub open spec fn total_size(clusters: Seq<ClusterModel>) -> int
    decreases clusters.len(),
{
    if clusters.len() == 0 {
        0
    } else {
        total_size(clusters.drop_last()) + clusters.last().size
    }
}

proof fn lemma_total_size_update(clusters: Seq<ClusterModel>, i: int, c: ClusterModel)
    requires
        0 <= i < clusters.len(),
    ensures
        total_size(clusters.update(i, c)) == total_size(clusters) - clusters[i].size + c.size,
    decreases clusters.len(),
{
    let init = clusters.drop_last();
    if i == clusters.len() - 1 {
        assert(clusters.update(i, c).drop_last() =~= init);
    } else {
        lemma_total_size_update(init, i, c);
        assert(clusters.update(i, c).drop_last() =~= init.update(i, c));
    }
}

/// A message is counted once. It opens a cluster of its own exactly where the
/// id names no cluster yet, and that id follows the others; else the size of
/// its cluster grows by one. Every other cluster stays.
pub proof fn law_message_is_counted_once(m: DrainModel, tokens: Seq<Seq<char>>)
    requires
        drain_ok(m),
    ensures
        ({
            let (after, id) = drain_step(m, tokens);
            let is_new = matched_cluster(m, tokens) is None;
            let n = m.clusters.len();
            &&& total_size(after.clusters) == total_size(m.clusters) + 1
            &&& is_new <==> !(1 <= id <= n)
            &&& is_new ==> id == n + 1 && after.clusters.len() == n + 1 && after.clusters[id
                - 1].size == 1
            &&& !is_new ==> after.clusters.len() == n && after.clusters[id - 1].size
                == m.clusters[id - 1].size + 1
            &&& after.clusters[id - 1].id == id
            &&& forall|c: int|
                0 <= c < n && c != id - 1 ==> #[trigger] after.clusters[c] == m.clusters[c]
        }),
{
    let (after, id) = drain_step(m, tokens);
    lemma_matched_cluster(m, tokens);
    if matched_cluster(m, tokens) is Some {
        assert(m.clusters[id - 1].id == id);
        lemma_total_size_update(m.clusters, id - 1, after.clusters[id - 1]);
    } else {
        assert(after.clusters.drop_last() =~= m.clusters);
    }
}

/// The state after messages, and the answer to each: the id of its cluster and
/// whether the cluster is new.
pub open spec fn after_messages(m: DrainModel, messages: Seq<Seq<char>>) -> (
    DrainModel,
    Seq<(i64, bool)>,
)
    decreases messages.len(),
{
    if messages.len() == 0 {
        (m, Seq::empty())
    } else {
        let (before, answers) = after_messages(m, messages.drop_last());
        let tokens = tokens_of(messages.last(), before.delimiters);
        let (after, id) = drain_step(before, tokens);
        (after, answers.push((id, matched_cluster(before, tokens) is None)))
    }
}

/// After any messages the sizes of the clusters add up to their number.
pub proof fn law_sizes_add_up(m: DrainModel, messages: Seq<Seq<char>>)
    requires
        drain_ok(m),
        m.clusters.len() == 0,
        messages.len() + 1 < i64::MAX,
    ensures
        drain_ok(after_messages(m, messages).0),
        total_size(after_messages(m, messages).0.clusters) == messages.len(),
        after_messages(m, messages).0.clusters.len() <= messages.len(),
    decreases messages.len(),
{
    if messages.len() > 0 {
        law_sizes_add_up(m, messages.drop_last());
        let before = after_messages(m, messages.drop_last()).0;
        let tokens = tokens_of(messages.last(), before.delimiters);
        lemma_step_ok(before, tokens);
        law_message_is_counted_once(before, tokens);
    }
}

/// A depth below three acts as three: over any messages the answers are the
/// same, and so are the templates and sizes in the end.
pub proof fn law_depth_is_at_least_three(
    depth: i64,
    threshold: Ratio,
    max_children: int,
    delimiters: Seq<Seq<char>>,
    numeric: bool,
    messages: Seq<Seq<char>>,
)
    requires
        depth < 3,
    ensures
        after_messages(first_state(depth, threshold, max_children, delimiters, numeric), messages)
            == after_messages(
            first_state(3, threshold, max_children, delimiters, numeric),
            messages,
        ),
{
}

/// The places where a template has the wildcard or the token of the message.
pub open spec fn places_agreed(template: Seq<Seq<char>>, tokens: Seq<Seq<char>>, k: nat) -> nat
    decreases k,
{
    if k == 0 {
        0
    } else {
        places_agreed(template, tokens, (k - 1) as nat) + if template[k - 1] == tokens[k - 1]
            || template[k - 1] == "<*>"@ {
            1nat
        } else {
            0nat
        }
    }
}

proof fn lemma_agreed(template: Seq<Seq<char>>, tokens: Seq<Seq<char>>, k: nat)
    ensures
        hits(template, tokens, k) + params(template, k) == places_agreed(template, tokens, k),
    decreases k,
{
    if k > 0 {
        lemma_agreed(template, tokens, (k - 1) as nat);
    }
}

/// A message joins a cluster only if it is similar enough: its template has as
/// many tokens, and the share of places where it agrees with the message, or
/// has the wildcard, reaches the threshold.
pub proof fn law_joined_messages_are_similar(m: DrainModel, tokens: Seq<Seq<char>>)
    requires
        drain_ok(m),
        tokens.len() > 0,
        matched_cluster(m, tokens) is Some,
    ensures
        ({
            let template = m.clusters[matched_cluster(m, tokens)->0 - 1].tokens;
            &&& template.len() == tokens.len()
            &&& places_agreed(template, tokens, tokens.len()) * m.threshold.den
                >= m.threshold.num * tokens.len()
        }),
{
    lemma_matched_cluster(m, tokens);
    let template = m.clusters[matched_cluster(m, tokens)->0 - 1].tokens;
    let n = tokens.len();
    lemma_agreed(template, tokens, n);
    let all = places_agreed(template, tokens, n) as int;
    let plain = similarity(template, tokens, false) as int;
    let den = m.threshold.den as int;
    assert(plain <= all);
    assert(plain * den <= all * den) by (nonlinear_arith)
        requires
            plain <= all,
            den >= 0,
    ;
}

/// What a cluster learns from a message that joins it: it keeps the tokens on
/// which both agree, shows `<*>` in every other place, and counts one message
/// more. Other clusters stay as they are. A message that joins none opens a
/// cluster of its own words.
pub proof fn law_templates_keep_what_agrees(m: DrainModel, tokens: Seq<Seq<char>>)
    requires
        drain_ok(m),
        m.clusters.len() + 1 < i64::MAX,
    ensures
        ({
            let (after, id) = drain_step(m, tokens);
            match matched_cluster(m, tokens) {
                Some(c) => {
                    let old_template = m.clusters[c - 1].tokens;
                    let template = after.clusters[c - 1].tokens;
                    &&& id == c
                    &&& after.clusters.len() == m.clusters.len()
                    &&& template.len() == old_template.len()
                    &&& forall|i: int|
                        0 <= i < template.len() ==> #[trigger] template[i] == if old_template[i]
                            == tokens[i] {
                            tokens[i]
                        } else {
                            "<*>"@
                        }
                    &&& after.clusters[c - 1].size == m.clusters[c - 1].size + 1
                    &&& forall|k: int|
                        0 <= k < m.clusters.len() && k != c - 1 ==> #[trigger] after.clusters[k]
                            == m.clusters[k]
                },
                None => {
                    &&& id == m.clusters.len() + 1
                    &&& after.clusters.drop_last() == m.clusters
                    &&& after.clusters.last().tokens == tokens
                    &&& after.clusters.last().size == 1
                },
            }
        }),
{
    lemma_matched_cluster(m, tokens);
    let (after, id) = drain_step(m, tokens);
    if matched_cluster(m, tokens) is None {
        assert(after.clusters.drop_last() =~= m.clusters);
    }
}

/// Without further delimiters the tokens of a message are its words.
pub proof fn law_tokens_are_words(content: Seq<char>)
    ensures
        tokens_of(content, Seq::empty()) == words(trim(content)),
{
}

} // verus!
