//! In which order records of several files are shown, and where they are kept.
use vstd::prelude::*;

use crate::commands::view::scan::{
    entry_plan, first_keys, law_merge_is_in_order, law_smallest_comes_next, left_behind,
    le_bytes, lemma_total_shrinks, merge_key_of, merged, open_blocks, ranked_before,
    files_in_order, smallest_head, spool_meta, spooled, total_records, PlanModel,
};
use crate::commands::view::types::ViewOrder;
use crate::dataset_index::{index_may_match, DatasetIndex};
use crate::predicate::PredicateModel;
use crate::record::RecordModel;

verus! {

/// Sequence numbers ascend, and timestamps where those are equal.
pub open spec fn by_sequence(a: RecordModel, b: RecordModel) -> bool {
    a.seq < b.seq || (a.seq == b.seq && a.ts_unix_ns <= b.ts_unix_ns)
}

/// Timestamps ascend, and sequence numbers where those are equal.
pub open spec fn by_time(a: RecordModel, b: RecordModel) -> bool {
    a.ts_unix_ns < b.ts_unix_ns || (a.ts_unix_ns == b.ts_unix_ns && a.seq <= b.seq)
}

/// Files that are each in the order of their sequence numbers are merged in
/// that order.
pub proof fn law_merged_by_sequence(s: Seq<Seq<RecordModel>>, i: int, j: int)
    requires
        s.len() <= usize::MAX,
        forall|f: int, a: int, b: int|
            0 <= f < s.len() && 0 <= a <= b < s[f].len() ==> by_sequence(
                #[trigger] s[f][a],
                #[trigger] s[f][b],
            ),
        0 <= i <= j < merged(ViewOrder::MergeSeq, s).len(),
    ensures
        by_sequence(merged(ViewOrder::MergeSeq, s)[i].1, merged(ViewOrder::MergeSeq, s)[j].1),
{
    assert(files_in_order(ViewOrder::MergeSeq, s)) by {
        assert forall|f: int, a: int, b: int|
            0 <= f < s.len() && 0 <= a <= b < s[f].len() implies ranked_before(
            ViewOrder::MergeSeq,
            #[trigger] s[f][a],
            #[trigger] s[f][b],
        ) by {
            assert(by_sequence(s[f][a], s[f][b]));
        }
    }
    law_merge_is_in_order(ViewOrder::MergeSeq, s, i, j);
}

/// Files that are each in the order of their timestamps are merged in that
/// order.
pub proof fn law_merged_by_time(s: Seq<Seq<RecordModel>>, i: int, j: int)
    requires
        s.len() <= usize::MAX,
        forall|f: int, a: int, b: int|
            0 <= f < s.len() && 0 <= a <= b < s[f].len() ==> by_time(
                #[trigger] s[f][a],
                #[trigger] s[f][b],
            ),
        0 <= i <= j < merged(ViewOrder::MergeTs, s).len(),
    ensures
        by_time(merged(ViewOrder::MergeTs, s)[i].1, merged(ViewOrder::MergeTs, s)[j].1),
{
    assert(files_in_order(ViewOrder::MergeTs, s)) by {
        assert forall|f: int, a: int, b: int|
            0 <= f < s.len() && 0 <= a <= b < s[f].len() implies ranked_before(
            ViewOrder::MergeTs,
            #[trigger] s[f][a],
            #[trigger] s[f][b],
        ) by {
            assert(by_time(s[f][a], s[f][b]));
        }
    }
    law_merge_is_in_order(ViewOrder::MergeTs, s, i, j);
}

proof fn lemma_none_before(s: Seq<Seq<RecordModel>>, k: int, i: int)
    requires
        s.len() <= usize::MAX,
        forall|f: int| 0 <= f < k && f < s.len() ==> (#[trigger] s[f]).len() == 0,
        0 <= i < merged(ViewOrder::Concat, s).len(),
    ensures
        merged(ViewOrder::Concat, s)[i].0 >= k,
    decreases total_records(s),
{
    let heads = first_keys(ViewOrder::Concat, s);
    law_smallest_comes_next(heads);
    let at = smallest_head(heads)->0;
    assert(heads[at] is Some);
    assert(s[at].len() > 0);
    assert(at >= k);
    let rest = left_behind(s, at);
    lemma_total_shrinks(s, at);
    let m = merged(ViewOrder::Concat, s);
    if i > 0 {
        assert forall|f: int| 0 <= f < k && f < rest.len() implies (#[trigger] rest[f]).len()
            == 0 by {
            assert(s[f].len() == 0);
        }
        assert(m[i] == merged(ViewOrder::Concat, rest)[i - 1]);
        lemma_none_before(rest, k, i - 1);
    }
}

/// Without merging, files are read one after the other, in the order in which
/// they are listed.
pub proof fn law_files_come_one_after_the_other(s: Seq<Seq<RecordModel>>, i: int, j: int)
    requires
        s.len() <= usize::MAX,
        0 <= i <= j < merged(ViewOrder::Concat, s).len(),
    ensures
        merged(ViewOrder::Concat, s)[i].0 <= merged(ViewOrder::Concat, s)[j].0,
    decreases total_records(s),
{
    let heads = first_keys(ViewOrder::Concat, s);
    law_smallest_comes_next(heads);
    let at = smallest_head(heads)->0;
    let rest = left_behind(s, at);
    lemma_total_shrinks(s, at);
    let m = merged(ViewOrder::Concat, s);
    assert(m[0].0 == at);
    if j > 0 {
        assert(m[j] == merged(ViewOrder::Concat, rest)[j - 1]);
        if i > 0 {
            assert(m[i] == merged(ViewOrder::Concat, rest)[i - 1]);
            law_files_come_one_after_the_other(rest, i - 1, j - 1);
        } else {
            assert forall|f: int| 0 <= f < at && f < rest.len() implies (#[trigger] rest[f]).len()
                == 0 by {
                assert(rest[f] == s[f]);
                if s[f].len() > 0 {
                    assert(heads[f] is Some);
                    assert(heads[at] == Some(
                        merge_key_of(ViewOrder::Concat, s[at][0], at as usize, 0),
                    ));
                    assert(heads[f] == Some(
                        merge_key_of(ViewOrder::Concat, s[f][0], f as usize, 0),
                    ));
                }
            }
            lemma_none_before(rest, at, j - 1);
        }
    }
}

/// A file without an index is read whole. Of one with an index those blocks are
/// read that the index does not rule out, in their order, and none where it
/// rules out the file.
pub proof fn law_indexes_decide_what_is_read(index: DatasetIndex, p: PredicateModel, i: int)
    ensures
        entry_plan(None, p) == PlanModel::Whole,
        !index_may_match(index.summary@, p) ==> entry_plan(Some(index), p) == PlanModel::Skip,
        index_may_match(index.summary@, p) ==> entry_plan(Some(index), p) is Blocks,
        index_may_match(index.summary@, p) ==> (entry_plan(Some(index), p)->Blocks_0.contains(i)
            <==> 0 <= i < index.blocks@.len() && index_may_match(index.blocks@[i]@, p)),
{
    lemma_open(index.blocks@, p, i);
}

proof fn lemma_open(b: Seq<crate::dataset_index::IndexBlock>, p: PredicateModel, i: int)
    ensures
        open_blocks(b, p).contains(i) <==> 0 <= i < b.len() && index_may_match(b[i]@, p),
    decreases b.len(),
{
    let o = open_blocks(b, p);
    if b.len() > 0 {
        let init = b.drop_last();
        let before = open_blocks(init, p);
        lemma_open(init, p, i);
        if before.contains(i) {
            let k = choose|k: int| 0 <= k < before.len() && before[k] == i;
            assert(o[k] == i);
        }
        if index_may_match(b.last()@, p) {
            assert(o[before.len() as int] == b.len() - 1);
        }
        if o.contains(i) && !before.contains(i) {
            let k = choose|k: int| 0 <= k < o.len() && o[k] == i;
            assert(k == before.len());
        }
    }
}

/// A number from its eight bytes, the lowest first.
pub open spec fn le_read(b: Seq<u8>) -> int
    decreases b.len(),
{
    if b.len() == 0 {
        0
    } else {
        b[0] + 256 * le_read(b.drop_first())
    }
}

proof fn lemma_le_read(b: Seq<u8>)
    requires
        b.len() == 8,
    ensures
        le_read(b) == b[0] + 0x100 * b[1] + 0x1_0000 * b[2] + 0x100_0000 * b[3] + 0x1_0000_0000
            * b[4] + 0x100_0000_0000 * b[5] + 0x1_0000_0000_0000 * b[6] + 0x100_0000_0000_0000
            * b[7],
{
    reveal_with_fuel(le_read, 9);
    let c = b.drop_first();
    let d = c.drop_first();
    let e = d.drop_first();
    let f = e.drop_first();
    let g = f.drop_first();
    let h = g.drop_first();
    let i = h.drop_first();
    assert(i.drop_first().len() == 0);
    assert(c[0] == b[1] && d[0] == b[2] && e[0] == b[3] && f[0] == b[4] && g[0] == b[5] && h[0]
        == b[6] && i[0] == b[7]);
}

proof fn lemma_le_bytes(n: u64)
    ensures
        le_read(le_bytes(n)) == n,
{
    lemma_le_read(le_bytes(n));
    let n1 = n / 0x100;
    let n2 = n1 / 0x100;
    let n3 = n2 / 0x100;
    let n4 = n3 / 0x100;
    let n5 = n4 / 0x100;
    let n6 = n5 / 0x100;
    let n7 = n6 / 0x100;
    assert(n2 == n / 0x1_0000);
    assert(n3 == n / 0x100_0000);
    assert(n4 == n / 0x1_0000_0000);
    assert(n5 == n / 0x100_0000_0000);
    assert(n6 == n / 0x1_0000_0000_0000);
    assert(n7 == n / 0x100_0000_0000_0000);
    assert(n7 < 0x100);
    assert(n7 % 0x100 == n7);
}

/// A record that is kept aside is found again: its place, its type and header,
/// and the file it came from are remembered, and in front of its payload stand
/// the number of its kind and its sequence number, time and length.
pub proof fn law_records_are_kept_aside(
    kind: u8,
    r: RecordModel,
    offset: u64,
    path: Seq<char>,
)
    requires
        r.payload.len() <= u64::MAX,
    ensures
        ({
            let m = spool_meta(r, offset, path);
            &&& m.offset == offset
            &&& m.record_type == r.record_type
            &&& m.seq == r.seq
            &&& m.ts_unix_ns == r.ts_unix_ns
            &&& m.payload_len == r.payload.len()
            &&& m.source_path == path
        }),
        ({
            let b = spooled(kind, r);
            &&& b.len() == 25 + r.payload.len()
            &&& b[0] == kind
            &&& le_read(b.subrange(1, 9)) == r.seq
            &&& le_read(b.subrange(9, 17)) == r.ts_unix_ns
            &&& le_read(b.subrange(17, 25)) == r.payload.len()
            &&& b.skip(25) == r.payload
        }),
{
    let b = spooled(kind, r);
    assert(b.subrange(1, 9) =~= le_bytes(r.seq));
    assert(b.subrange(9, 17) =~= le_bytes(r.ts_unix_ns));
    assert(b.subrange(17, 25) =~= le_bytes(r.payload.len() as u64));
    assert(b.skip(25) =~= r.payload);
    lemma_le_bytes(r.seq);
    lemma_le_bytes(r.ts_unix_ns);
    lemma_le_bytes(r.payload.len() as u64);
}

} // verus!
