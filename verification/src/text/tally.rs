//! Counts of texts.
use vstd::multiset::Multiset;
use vstd::prelude::*;

use crate::text::order::{
    lemma_text_order_is_total, lemma_text_order_is_transitive, str_lt, text_lt,
};
use crate::text::seqs::{lemma_prefix_len, prefix_len};
use crate::text::strings::str_eq;

verus! {

/// How often texts occur, in the ascending order of the texts.
#[derive(Debug)]
pub struct Tally {
    entries: Vec<(String, u64)>,
}

/// A text and how often it occurs.
#[derive(Debug)]
pub struct CountRow {
    pub value: String,
    pub count: u64,
}

/// The model of a row.
pub open spec fn row_model(r: CountRow) -> (Seq<char>, nat) {
    (r.value@, r.count as nat)
}

/// The models of rows.
pub open spec fn rows_view(r: Seq<CountRow>) -> Seq<(Seq<char>, nat)> {
    r.map_values(|x: CountRow| row_model(x))
}

/// One text, `n` times.
pub open spec fn copies(text: Seq<char>, n: nat) -> Multiset<Seq<char>> {
    Multiset::empty().update(text, n)
}

proof fn lemma_copies(text: Seq<char>, n: nat)
    ensures
        forall|x: Seq<char>|
            #[trigger] copies(text, n).count(x) == if x == text {
                n
            } else {
                0
            },
{
    broadcast use vstd::multiset::group_multiset_properties;

    assert forall|x: Seq<char>|
        #[trigger] copies(text, n).count(x) == if x == text {
            n
        } else {
            0
        } by {
        if x != text {
            vstd::multiset::lemma_update_different(Multiset::<Seq<char>>::empty(), text, n, x);
        }
    }
}

/// The texts that rows count.
pub open spec fn rows_bag(rows: Seq<(Seq<char>, nat)>) -> Multiset<Seq<char>>
    decreases rows.len(),
{
    if rows.len() == 0 {
        Multiset::empty()
    } else {
        rows_bag(rows.drop_last()).add(copies(rows.last().0, rows.last().1))
    }
}

/// Texts ascend, and none occurs zero times.
pub open spec fn rows_ok(rows: Seq<(Seq<char>, nat)>) -> bool {
    &&& forall|i: int, j: int|
        0 <= i < j < rows.len() ==> text_lt((#[trigger] rows[i]).0, (#[trigger] rows[j]).0)
    &&& forall|i: int| 0 <= i < rows.len() ==> (#[trigger] rows[i]).1 > 0
}

proof fn lemma_bag_insert(rows: Seq<(Seq<char>, nat)>, i: int, x: (Seq<char>, nat))
    requires
        0 <= i <= rows.len(),
    ensures
        rows_bag(rows.insert(i, x)) == rows_bag(rows).add(copies(x.0, x.1)),
    decreases rows.len(),
{
    let after = rows.insert(i, x);
    if i == rows.len() {
        assert(after.drop_last() =~= rows);
    } else {
        assert(after.drop_last() =~= rows.drop_last().insert(i, x));
        lemma_bag_insert(rows.drop_last(), i, x);
    }
    assert(rows_bag(after) =~= rows_bag(rows).add(copies(x.0, x.1)));
}

proof fn lemma_bag_update(rows: Seq<(Seq<char>, nat)>, i: int, n: nat)
    requires
        0 <= i < rows.len(),
    ensures
        rows_bag(rows.update(i, (rows[i].0, rows[i].1 + n))) == rows_bag(rows).add(
            copies(rows[i].0, n),
        ),
    decreases rows.len(),
{
    let after = rows.update(i, (rows[i].0, rows[i].1 + n));
    if i == rows.len() - 1 {
        assert(after.drop_last() =~= rows.drop_last());
    } else {
        assert(after.drop_last() =~= rows.drop_last().update(i, (rows[i].0, rows[i].1 + n)));
        lemma_bag_update(rows.drop_last(), i, n);
    }
    lemma_copies(rows[i].0, n);
    lemma_copies(rows[i].0, rows[i].1);
    lemma_copies(rows[i].0, rows[i].1 + n);
    assert(rows_bag(after) =~= rows_bag(rows).add(copies(rows[i].0, n)));
}

proof fn lemma_rows_init(rows: Seq<(Seq<char>, nat)>)
    requires
        rows_ok(rows),
        rows.len() > 0,
    ensures
        rows_ok(rows.drop_last()),
{
    let init = rows.drop_last();
    assert forall|i: int, j: int| 0 <= i < j < init.len() implies text_lt(
        (#[trigger] init[i]).0,
        (#[trigger] init[j]).0,
    ) by {
        assert(text_lt(rows[i].0, rows[j].0));
    }
    assert forall|i: int| 0 <= i < init.len() implies (#[trigger] init[i]).1 > 0 by {
        assert(rows[i].1 > 0);
    }
}

/// A row says how often its text occurs, and texts without a row do not
/// occur.
pub proof fn law_rows_count(rows: Seq<(Seq<char>, nat)>, text: Seq<char>)
    requires
        rows_ok(rows),
    ensures
        forall|i: int|
            0 <= i < rows.len() && (#[trigger] rows[i]).0 == text ==> rows_bag(rows).count(text)
                == rows[i].1,
        (forall|i: int| 0 <= i < rows.len() ==> (#[trigger] rows[i]).0 != text) ==> rows_bag(
            rows,
        ).count(text) == 0,
    decreases rows.len(),
{
    if rows.len() > 0 {
        let init = rows.drop_last();
        lemma_rows_init(rows);
        law_rows_count(init, text);
        lemma_copies(rows.last().0, rows.last().1);
        if rows.last().0 == text {
            assert forall|i: int| 0 <= i < init.len() implies (#[trigger] init[i]).0 != text by {
                assert(text_lt(rows[i].0, rows[rows.len() - 1].0));
                lemma_text_order_is_total(text, text);
            }
            assert forall|i: int| 0 <= i < rows.len() && (#[trigger] rows[i]).0 == text implies i
                == rows.len() - 1 by {
                if i < rows.len() - 1 {
                    assert(init[i].0 != text);
                }
            }
        } else {
            assert forall|i: int|
                0 <= i < rows.len() && (#[trigger] rows[i]).0 == text implies rows_bag(rows).count(
                text,
            ) == rows[i].1 by {
                assert(init[i] == rows[i]);
            }
            if forall|i: int| 0 <= i < rows.len() ==> (#[trigger] rows[i]).0 != text {
                assert forall|i: int| 0 <= i < init.len() implies (#[trigger] init[i]).0
                    != text by {
                    assert(rows[i].0 != text);
                }
            }
        }
    }
}

/// A row comes before another: its count is higher, or it is the same and its
/// text comes first.
pub open spec fn ranks_before(a: (Seq<char>, nat), b: (Seq<char>, nat)) -> bool {
    a.1 > b.1 || (a.1 == b.1 && text_lt(a.0, b.0))
}

/// The test for rows that come before `e`.
pub open spec fn before_row(e: (Seq<char>, nat)) -> spec_fn((Seq<char>, nat)) -> bool {
    |x: (Seq<char>, nat)| ranks_before(x, e)
}

/// Rows by descending count; rows with the same count by their text.
pub open spec fn ranked(rows: Seq<(Seq<char>, nat)>) -> Seq<(Seq<char>, nat)>
    decreases rows.len(),
{
    if rows.len() == 0 {
        Seq::empty()
    } else {
        let before = ranked(rows.drop_last());
        before.insert(prefix_len(before, before_row(rows.last())) as int, rows.last())
    }
}

/// Rows stand by rank.
pub open spec fn in_rank_order(rows: Seq<(Seq<char>, nat)>) -> bool {
    forall|i: int, j: int|
        0 <= i < j < rows.len() ==> ranks_before(#[trigger] rows[i], #[trigger] rows[j])
}

proof fn lemma_rank_order(a: (Seq<char>, nat), b: (Seq<char>, nat), c: (Seq<char>, nat))
    ensures
        ranks_before(a, b) && ranks_before(b, c) ==> ranks_before(a, c),
        a.0 != b.0 ==> ranks_before(a, b) || ranks_before(b, a),
{
    lemma_text_order_is_total(a.0, b.0);
    if text_lt(a.0, b.0) && text_lt(b.0, c.0) {
        lemma_text_order_is_transitive(a.0, b.0, c.0);
    }
}

/// The texts of rows differ.
pub open spec fn rows_differ(rows: Seq<(Seq<char>, nat)>) -> bool {
    forall|i: int, j: int|
        0 <= i < j < rows.len() ==> (#[trigger] rows[i]).0 != (#[trigger] rows[j]).0
}

proof fn lemma_prefix_facts(rows: Seq<(Seq<char>, nat)>, p: spec_fn((Seq<char>, nat)) -> bool)
    ensures
        prefix_len(rows, p) <= rows.len(),
        forall|i: int| 0 <= i < prefix_len(rows, p) ==> p(#[trigger] rows[i]),
        prefix_len(rows, p) < rows.len() ==> !p(rows[prefix_len(rows, p) as int]),
    decreases rows.len(),
{
    if rows.len() > 0 && p(rows.first()) {
        lemma_prefix_facts(rows.drop_first(), p);
        assert forall|i: int| 0 <= i < prefix_len(rows, p) implies p(#[trigger] rows[i]) by {
            if i > 0 {
                assert(p(rows.drop_first()[i - 1]));
            }
        }
    }
}

/// Ranking loses and invents no row, and the result stands by rank.
pub proof fn law_ranking(rows: Seq<(Seq<char>, nat)>)
    requires
        rows_differ(rows),
    ensures
        in_rank_order(ranked(rows)),
        ranked(rows).to_multiset() == rows.to_multiset(),
        ranked(rows).len() == rows.len(),
    decreases rows.len(),
{
    broadcast use vstd::seq_lib::group_to_multiset_ensures;

    if rows.len() > 0 {
        let init = rows.drop_last();
        let e = rows.last();
        assert(rows_differ(init)) by {
            assert forall|i: int, j: int| 0 <= i < j < init.len() implies (#[trigger] init[i]).0
                != (#[trigger] init[j]).0 by {
                assert(rows[i].0 != rows[j].0);
            }
        }
        law_ranking(init);
        let s = ranked(init);
        let k = prefix_len(s, before_row(e)) as int;
        lemma_prefix_facts(s, before_row(e));
        let r = s.insert(k, e);
        assert forall|i: int| 0 <= i < s.len() implies (#[trigger] s[i]).0 != e.0 by {
            assert(s.contains(s[i]));
            assert(s.to_multiset().count(s[i]) > 0);
            assert(init.contains(s[i]));
            let m = choose|m: int| 0 <= m < init.len() && init[m] == s[i];
            assert(rows[m].0 != rows[rows.len() - 1].0);
        }
        assert forall|i: int, j: int| 0 <= i < j < r.len() implies ranks_before(
            #[trigger] r[i],
            #[trigger] r[j],
        ) by {
            let a = if i < k {
                s[i]
            } else if i == k {
                e
            } else {
                s[i - 1]
            };
            let b = if j < k {
                s[j]
            } else if j == k {
                e
            } else {
                s[j - 1]
            };
            assert(r[i] == a && r[j] == b);
            if j == k {
                assert(before_row(e)(s[i]));
            } else if i == k {
                assert(!before_row(e)(s[k]));
                lemma_rank_order(s[k], e, e);
                lemma_rank_order(e, s[k], s[j - 1]);
                if j - 1 > k {
                    assert(ranks_before(s[k], s[j - 1]));
                }
            } else if i < k && j > k {
                assert(ranks_before(s[i], s[j - 1]));
            } else if j < k {
                assert(ranks_before(s[i], s[j]));
            } else {
                assert(ranks_before(s[i - 1], s[j - 1]));
            }
        }
        assert(init.push(e) =~= rows);
        s.to_multiset_ensures();
        lemma_insert_to_multiset(s, k, e);
    } else {
        assert(rows =~= Seq::empty());
        assert(ranked(rows) =~= Seq::empty());
    }
}

proof fn lemma_insert_to_multiset(s: Seq<(Seq<char>, nat)>, k: int, e: (Seq<char>, nat))
    requires
        0 <= k <= s.len(),
    ensures
        s.insert(k, e).to_multiset() == s.to_multiset().insert(e),
{
    broadcast use vstd::seq_lib::group_to_multiset_ensures;

    let r = s.insert(k, e);
    assert(r.remove(k) =~= s);
    assert(r[k] == e);
    assert(r.contains(e));
    r.to_multiset_ensures();
    assert(r.to_multiset().count(e) > 0);
    assert(r.remove(k).to_multiset() =~= r.to_multiset().remove(e));
    assert(r.to_multiset() =~= s.to_multiset().insert(e));
}

impl View for Tally {
    type V = Multiset<Seq<char>>;

    /// The texts that are counted.
    closed spec fn view(&self) -> Multiset<Seq<char>> {
        rows_bag(self.rows())
    }
}

impl Tally {
    /// The texts and how often they occur.
    pub closed spec fn rows(&self) -> Seq<(Seq<char>, nat)> {
        self.entries@.map_values(|e: (String, u64)| (e.0@, e.1 as nat))
    }

    /// Texts ascend, and none occurs zero times.
    pub open spec fn wf(&self) -> bool {
        rows_ok(self.rows())
    }

    /// The rows count the texts.
    pub proof fn law_rows(&self)
        ensures
            rows_bag(self.rows()) == self@,
    {
    }

    /// No texts.
    pub fn new() -> (r: Self)
        ensures
            r.wf(),
            r@ == Multiset::<Seq<char>>::empty(),
    {
        let r = Tally { entries: Vec::new() };
        assert(r.rows() =~= Seq::empty());
        r
    }

    /// The place of the first row whose text does not come before `value`.
    fn place(&self, value: &str) -> (r: usize)
        requires
            self.wf(),
        ensures
            r <= self.entries@.len(),
            forall|i: int| 0 <= i < r ==> text_lt((#[trigger] self.rows()[i]).0, value@),
            r < self.entries@.len() ==> !text_lt(self.rows()[r as int].0, value@),
    {
        let mut i: usize = 0;
        while i < self.entries.len()
            invariant
                i <= self.entries@.len(),
                forall|j: int| 0 <= j < i ==> text_lt((#[trigger] self.rows()[j]).0, value@),
            decreases self.entries@.len() - i,
        {
            assert(self.rows()[i as int].0 == self.entries@[i as int].0@);
            if !str_lt(self.entries[i].0.as_str(), value) {
                return i;
            }
            i = i + 1;
        }
        i
    }

    /// Counts `value` another `n` times.
    pub fn count_more(&mut self, value: &str, n: u64)
        requires
            old(self).wf(),
            n > 0,
            old(self)@.count(value@) + n <= u64::MAX,
        ensures
            final(self).wf(),
            final(self)@ == old(self)@.add(copies(value@, n as nat)),
    {
        let ghost rows = self.rows();
        let at = self.place(value);
        proof {
            law_rows_count(rows, value@);
        }
        if at < self.entries.len() && str_eq(self.entries[at].0.as_str(), value) {
            let ghost pair = self.entries@[at as int];
            assert(rows[at as int] == (pair.0@, pair.1 as nat));
            let count = self.entries[at].1 + n;
            let kept = self.entries[at].0.clone();
            self.entries.set(at, (kept, count));
            proof {
                assert(self.rows() =~= rows.update(at as int, (value@, rows[at as int].1 + n as nat)));
                lemma_bag_update(rows, at as int, n as nat);
                assert forall|i: int, j: int| 0 <= i < j < self.rows().len() implies text_lt(
                    (#[trigger] self.rows()[i]).0,
                    (#[trigger] self.rows()[j]).0,
                ) by {
                    assert(text_lt(rows[i].0, rows[j].0));
                }
            }
        } else {
            proof {
                if at < rows.len() {
                    assert(rows[at as int].0 == self.entries@[at as int].0@);
                    lemma_text_order_is_total(rows[at as int].0, value@);
                }
                lemma_bag_insert(rows, at as int, (value@, n as nat));
            }
            self.entries.insert(at, (value.to_owned(), n));
            proof {
                let after = rows.insert(at as int, (value@, n as nat));
                assert(self.rows() =~= after);
                assert forall|i: int, j: int| 0 <= i < j < after.len() implies text_lt(
                    (#[trigger] after[i]).0,
                    (#[trigger] after[j]).0,
                ) by {
                    if i < at && j > at {
                        assert(text_lt(rows[i].0, rows[j - 1].0));
                    } else if j < at {
                        assert(text_lt(rows[i].0, rows[j].0));
                    } else if i > at {
                        assert(text_lt(rows[i - 1].0, rows[j - 1].0));
                    } else if i == at && j - 1 > at {
                        assert(text_lt(rows[at as int].0, rows[j - 1].0));
                        lemma_text_order_is_transitive(
                            value@,
                            rows[at as int].0,
                            rows[j - 1].0,
                        );
                    }
                }
            }
        }
    }

    /// Counts `value` once more.
    pub fn increment(&mut self, value: &str)
        requires
            old(self).wf(),
            old(self)@.count(value@) < u64::MAX,
        ensures
            final(self).wf(),
            final(self)@ == old(self)@.insert(value@),
    {
        let ghost before = self@;
        self.count_more(value, 1);
        proof {
            lemma_copies(value@, 1);
        }
        assert(self@ =~= before.insert(value@));
    }

    /// Counts all texts of another tally.
    pub fn merge(&mut self, other: &Tally)
        requires
            old(self).wf(),
            other.wf(),
            forall|t: Seq<char>|
                #[trigger] old(self)@.count(t) + other@.count(t) <= u64::MAX,
        ensures
            final(self).wf(),
            final(self)@ == old(self)@.add(other@),
    {
        let ghost start = self@;
        let ghost rows = other.rows();
        assert(rows.take(0) =~= Seq::empty());
        assert(self@ =~= start.add(rows_bag(rows.take(0))));
        for i in 0..other.entries.len()
            invariant
                self.wf(),
                rows == other.rows(),
                rows_ok(rows),
                other@ == rows_bag(rows),
                forall|t: Seq<char>| #[trigger] start.count(t) + other@.count(t) <= u64::MAX,
                self@ == start.add(rows_bag(rows.take(i as int))),
        {
            proof {
                let upto = rows.take(i + 1);
                let init = rows.take(i as int);
                let text = rows[i as int].0;
                assert(upto.drop_last() =~= init);
                assert(rows[i as int] == (
                    other.entries@[i as int].0@,
                    other.entries@[i as int].1 as nat,
                ));
                law_rows_count(rows, text);
                lemma_rows_take(rows, i as int);
                law_rows_count(init, text);
                assert forall|j: int| 0 <= j < init.len() implies (#[trigger] init[j]).0
                    != text by {
                    assert(text_lt(rows[j].0, rows[i as int].0));
                    lemma_text_order_is_total(text, text);
                }
                assert(start.count(text) + other@.count(text) <= u64::MAX);
            }
            self.count_more(other.entries[i].0.as_str(), other.entries[i].1);
            assert(self@ =~= start.add(rows_bag(rows.take(i + 1))));
        }
        assert(rows.take(other.entries@.len() as int) =~= rows);
    }

    /// The rows in the ascending order of their texts.
    pub fn all_counts(&self) -> (r: Vec<CountRow>)
        ensures
            rows_view(r@) == self.rows(),
    {
        let mut r: Vec<CountRow> = Vec::new();
        for i in 0..self.entries.len()
            invariant
                rows_view(r@) == self.rows().take(i as int),
        {
            let ghost before = rows_view(r@);
            let row = CountRow { value: self.entries[i].0.clone(), count: self.entries[i].1 };
            r.push(row);
            assert(rows_view(r@) =~= before.push(row_model(row)));
            assert(rows_view(r@) =~= self.rows().take(i + 1));
        }
        assert(self.rows().take(self.entries@.len() as int) =~= self.rows());
        r
    }

    /// The `limit` rows with the highest counts.
    pub fn top_counts(&self, limit: usize) -> (r: Vec<CountRow>)
        ensures
            rows_view(r@) == ranked(self.rows()).take(
                if limit < self.rows().len() {
                    limit as int
                } else {
                    self.rows().len() as int
                },
            ),
    {
        let rows = self.all_counts();
        let ghost source = rows@;
        let ghost all = self.rows();
        let mut sorted: Vec<CountRow> = Vec::new();
        assert(all.take(0) =~= Seq::empty());
        assert(rows_view(sorted@) =~= Seq::empty());
        for row in it: rows
            invariant
                it.seq() == source,
                rows_view(source) == all,
                rows_view(sorted@) == ranked(all.take(it.index() as int)),
                sorted@.len() == it.index(),
        {
            let ghost i = it.index();
            let ghost before = rows_view(sorted@);
            assert(all.take(i + 1).drop_last() =~= all.take(i));
            assert(all[i] == row_model(row));
            let at = place_of(&sorted, &row);
            sorted.insert(at, row);
            assert(rows_view(sorted@) =~= before.insert(at as int, row_model(row)));
        }
        assert(all.take(source.len() as int) =~= all);
        let mut r: Vec<CountRow> = Vec::new();
        let n = if limit < sorted.len() {
            limit
        } else {
            sorted.len()
        };
        for i in 0..n
            invariant
                n <= sorted@.len(),
                rows_view(r@) == rows_view(sorted@).take(i as int),
        {
            let ghost before = rows_view(r@);
            let row = CountRow { value: sorted[i].value.clone(), count: sorted[i].count };
            r.push(row);
            assert(rows_view(sorted@)[i as int] == row_model(row));
            assert(rows_view(r@) =~= before.push(row_model(row)));
            assert(rows_view(r@) =~= rows_view(sorted@).take(i + 1));
        }
        r
    }
}

/// How many of the leading rows come before `row`.
fn place_of(rows: &Vec<CountRow>, row: &CountRow) -> (r: usize)
    ensures
        r == prefix_len(rows_view(rows@), before_row(row_model(*row))),
        r <= rows@.len(),
{
    let ghost all = rows_view(rows@);
    let ghost p = before_row(row_model(*row));
    let mut i: usize = 0;
    while i < rows.len()
        invariant
            i <= rows@.len(),
            all == rows_view(rows@),
            p == before_row(row_model(*row)),
            forall|j: int| 0 <= j < i ==> p(#[trigger] all[j]),
        decreases rows@.len() - i,
    {
        assert(all[i as int] == row_model(rows@[i as int]));
        if rows[i].count > row.count || (rows[i].count == row.count && str_lt(
            rows[i].value.as_str(),
            row.value.as_str(),
        )) {
            i = i + 1;
        } else {
            proof {
                lemma_prefix_len(all, p, i as int);
            }
            return i;
        }
    }
    proof {
        lemma_prefix_len(all, p, i as int);
    }
    i
}

proof fn lemma_rows_take(rows: Seq<(Seq<char>, nat)>, n: int)
    requires
        rows_ok(rows),
        0 <= n <= rows.len(),
    ensures
        rows_ok(rows.take(n)),
{
    let init = rows.take(n);
    assert forall|i: int, j: int| 0 <= i < j < init.len() implies text_lt(
        (#[trigger] init[i]).0,
        (#[trigger] init[j]).0,
    ) by {
        assert(text_lt(rows[i].0, rows[j].0));
    }
    assert forall|i: int| 0 <= i < init.len() implies (#[trigger] init[i]).1 > 0 by {
        assert(rows[i].1 > 0);
    }
}

} // verus!
