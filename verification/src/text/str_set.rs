//! Sets of strings.
use vstd::prelude::*;

use crate::text::order::{keyed, law_sorting, sort_by_key, sorted_by_key, text_le};
use crate::text::seqs::{first_index, lemma_first_index};
use crate::text::strings::{str_eq, texts};

verus! {

/// A set of strings, in the order of insertion.
#[derive(Debug, Clone, PartialEq, Eq)]
pub struct StrSet {
    items: Vec<String>,
}

impl View for StrSet {
    type V = Seq<Seq<char>>;

    /// The members in the order of insertion.
    closed spec fn view(&self) -> Seq<Seq<char>> {
        texts(self.items@)
    }
}

/// A list of members after an insertion.
pub open spec fn with_member(s: Seq<Seq<char>>, x: Seq<char>) -> Seq<Seq<char>> {
    if s.contains(x) {
        s
    } else {
        s.push(x)
    }
}

/// The members without `x`.
pub open spec fn without_member(s: Seq<Seq<char>>, x: Seq<char>) -> Seq<Seq<char>> {
    let at = first_index(s, x);
    if at < s.len() {
        s.remove(at)
    } else {
        s
    }
}

/// The members of `s` in ascending order.
pub open spec fn sorted_members(s: Seq<Seq<char>>) -> Seq<Seq<char>> {
    sorted_by_key(s.map_values(|x: Seq<char>| (x, ()))).map_values(|e: (Seq<char>, ())| e.0)
}

impl StrSet {
    /// No member occurs twice.
    pub open spec fn wf(&self) -> bool {
        self@.no_duplicates()
    }

    /// The empty set.
    pub fn new() -> (r: Self)
        ensures
            r.wf(),
            r@ == Seq::<Seq<char>>::empty(),
    {
        let r = StrSet { items: Vec::new() };
        assert(r@ =~= Seq::empty());
        r
    }

    /// The number of members.
    pub fn len(&self) -> (r: usize)
        ensures
            r == self@.len(),
    {
        self.items.len()
    }

    /// Whether `x` is a member.
    pub fn contains(&self, x: &str) -> (r: bool)
        ensures
            r == self@.contains(x@),
    {
        for i in 0..self.items.len()
            invariant
                forall|j: int| 0 <= j < i ==> (#[trigger] self.items@[j])@ != x@,
        {
            if str_eq(self.items[i].as_str(), x) {
                assert(self@[i as int] == x@);
                return true;
            }
        }
        assert(!self@.contains(x@)) by {
            if self@.contains(x@) {
                let i = choose|i: int| 0 <= i < self@.len() && self@[i] == x@;
                assert(self.items@[i]@ == x@);
            }
        }
        false
    }

    /// Adds `x`, if it is not a member.
    pub fn insert(&mut self, x: &str)
        requires
            old(self).wf(),
        ensures
            final(self).wf(),
            final(self)@ == with_member(old(self)@, x@),
    {
        if !self.contains(x) {
            let ghost before = self@;
            self.items.push(x.to_owned());
            assert(self@ =~= before.push(x@));
        }
    }

    /// Removes `x`. The answer is whether it was a member.
    pub fn remove(&mut self, x: &str) -> (r: bool)
        requires
            old(self).wf(),
        ensures
            final(self).wf(),
            r == old(self)@.contains(x@),
            final(self)@ == without_member(old(self)@, x@),
    {
        let ghost before = self@;
        let n = self.items.len();
        let mut at: usize = 0;
        while at < n && !str_eq(self.items[at].as_str(), x)
            invariant
                at <= n,
                n == self.items@.len(),
                before == self@,
                forall|j: int| 0 <= j < at ==> (#[trigger] before[j]) != x@,
            decreases n - at,
        {
            assert(before[at as int] == self.items@[at as int]@);
            at = at + 1;
        }
        proof {
            if at < n {
                assert(before[at as int] == self.items@[at as int]@);
            }
            lemma_first_index(before, x@, at as int);
        }
        if at < n {
            self.items.remove(at);
            assert(self@ =~= before.remove(at as int));
            true
        } else {
            false
        }
    }

    /// The members in the order of insertion.
    pub fn items(&self) -> (r: &Vec<String>)
        ensures
            texts(r@) == self@,
    {
        &self.items
    }

    /// The members in ascending order.
    pub fn sorted(&self) -> (r: Vec<String>)
        ensures
            texts(r@) == sorted_members(self@),
    {
        let mut entries: Vec<(String, ())> = Vec::new();
        for i in 0..self.items.len()
            invariant
                entries@.len() == i,
                forall|k: int| 0 <= k < i ==> (#[trigger] entries@[k]).0@ == self.items@[k]@,
        {
            entries.push((self.items[i].clone(), ()));
        }
        assert(keyed(entries@) =~= self@.map_values(|x: Seq<char>| (x, ())));
        let sorted = sort_by_key(entries);
        let mut r: Vec<String> = Vec::new();
        for i in 0..sorted.len()
            invariant
                r@.len() == i,
                forall|k: int| 0 <= k < i ==> (#[trigger] r@[k])@ == sorted@[k].0@,
        {
            r.push(sorted[i].0.clone());
        }
        assert(texts(r@) =~= keyed(sorted@).map_values(|e: (Seq<char>, ())| e.0));
        r
    }

    /// An equal set.
    pub fn copy(&self) -> (r: Self)
        ensures
            r@ == self@,
    {
        StrSet { items: crate::text::strings::copy_texts(&self.items) }
    }
}

/// Sorting keeps the members.
pub proof fn law_sorted_members(s: Seq<Seq<char>>)
    ensures
        forall|x: Seq<char>| #[trigger] sorted_members(s).contains(x) <==> s.contains(x),
        forall|i: int, j: int|
            0 <= i <= j < sorted_members(s).len() ==> text_le(
                #[trigger] sorted_members(s)[i],
                #[trigger] sorted_members(s)[j],
            ),
        sorted_members(s).len() == s.len(),
{
    broadcast use vstd::seq_lib::group_to_multiset_ensures;

    let e = s.map_values(|x: Seq<char>| (x, ()));
    let t = sorted_by_key(e);
    law_sorting(e);
    assert forall|x: Seq<char>| #[trigger] sorted_members(s).contains(x) <==> s.contains(x) by {
        assert(e.to_multiset().count((x, ())) == t.to_multiset().count((x, ())));
        assert(e.contains((x, ())) == t.contains((x, ())));
        if s.contains(x) {
            let i = choose|i: int| 0 <= i < s.len() && s[i] == x;
            assert(e[i] == (x, ()));
            let j = choose|j: int| 0 <= j < t.len() && t[j] == (x, ());
            assert(sorted_members(s)[j] == x);
        }
        if sorted_members(s).contains(x) {
            let j = choose|j: int| 0 <= j < sorted_members(s).len() && sorted_members(s)[j] == x;
            assert(t[j] == (x, ()));
            let i = choose|i: int| 0 <= i < e.len() && e[i] == (x, ());
            assert(s[i] == x);
        }
    }
    assert forall|i: int, j: int| 0 <= i <= j < sorted_members(s).len() implies text_le(
        #[trigger] sorted_members(s)[i],
        #[trigger] sorted_members(s)[j],
    ) by {
        assert(text_le(t[i].0, t[j].0));
    }
}

/// The distinct texts of a list that are not empty, in the order of their first
/// occurrence.
pub open spec fn listed(v: Seq<Seq<char>>) -> Seq<Seq<char>>
    decreases v.len(),
{
    if v.len() == 0 {
        Seq::empty()
    } else if v.last().len() == 0 {
        listed(v.drop_last())
    } else {
        with_member(listed(v.drop_last()), v.last())
    }
}

/// The distinct texts of a list, in the order of their first occurrence.
pub open spec fn distinct(v: Seq<Seq<char>>) -> Seq<Seq<char>>
    decreases v.len(),
{
    if v.len() == 0 {
        Seq::empty()
    } else {
        with_member(distinct(v.drop_last()), v.last())
    }
}

/// The distinct texts of a list.
pub fn distinct_texts(v: &Vec<String>) -> (r: StrSet)
    ensures
        r.wf(),
        r@ == distinct(texts(v@)),
{
    let ghost all = texts(v@);
    let mut set = StrSet::new();
    assert(all.take(0) =~= Seq::empty());
    for i in 0..v.len()
        invariant
            all == texts(v@),
            set.wf(),
            set@ == distinct(all.take(i as int)),
    {
        assert(all.take(i + 1).drop_last() =~= all.take(i as int));
        assert(all[i as int] == v@[i as int]@);
        set.insert(v[i].as_str());
    }
    assert(all.take(v@.len() as int) =~= all);
    set
}

/// The distinct texts of a list that are not empty.
pub fn listed_texts(v: &Vec<String>) -> (r: StrSet)
    ensures
        r.wf(),
        r@ == listed(texts(v@)),
{
    let ghost all = texts(v@);
    let mut set = StrSet::new();
    assert(all.take(0) =~= Seq::empty());
    for i in 0..v.len()
        invariant
            all == texts(v@),
            set.wf(),
            set@ == listed(all.take(i as int)),
    {
        assert(all.take(i + 1).drop_last() =~= all.take(i as int));
        assert(all[i as int] == v@[i as int]@);
        if !v[i].as_str().is_empty() {
            set.insert(v[i].as_str());
        }
    }
    assert(all.take(v@.len() as int) =~= all);
    set
}

} // verus!
