//! Blocks are read back as they are written.
use vstd::prelude::*;

use crate::block::{
    continues, groups_value, kind_of, number_at, place, record_at, records_from, BlockError,
};
use crate::record::{RecordModel, RecordType};
use crate::text::seqs::lemma_prefix_len;

verus! {

/// A number in groups of seven bits, the lowest first; all but the last have
/// the high bit set.
pub open spec fn written(n: nat) -> Seq<u8>
    decreases n,
{
    if n < 128 {
        seq![n as u8]
    } else {
        seq![(n % 128 + 128) as u8] + written(n / 128)
    }
}

proof fn lemma_value_of_longer(b: u8, t: Seq<u8>)
    ensures
        groups_value(seq![b] + t) == b as nat % 128 + 128 * groups_value(t),
    decreases t.len(),
{
    let s = seq![b] + t;
    if t.len() == 0 {
        assert(s.drop_last() =~= Seq::empty());
        assert(groups_value(s.drop_last()) == 0);
        assert(place(0) == 1);
        assert(s.last() == b);
        assert((b as nat % 128) * place(0) == b as nat % 128) by (nonlinear_arith)
            requires
                place(0) == 1,
        ;
    } else {
        let init = t.drop_last();
        lemma_value_of_longer(b, init);
        assert(s.drop_last() =~= seq![b] + init);
        let x = t.last() as nat % 128;
        let p = place((t.len() - 1) as nat);
        assert(place(t.len()) == 128 * p);
        assert(x * (128 * p) == 128 * (x * p)) by (nonlinear_arith);
    }
}

proof fn lemma_written(n: nat)
    ensures
        written(n).len() >= 1,
        written(n).last() < 128,
        forall|i: int| 0 <= i < written(n).len() - 1 ==> #[trigger] written(n)[i] >= 128,
        groups_value(written(n)) == n,
    decreases n,
{
    if n < 128 {
        let s = written(n);
        assert(s =~= seq![n as u8] + Seq::<u8>::empty());
        lemma_value_of_longer(n as u8, Seq::empty());
    } else {
        lemma_written(n / 128);
        let b = (n % 128 + 128) as u8;
        lemma_value_of_longer(b, written(n / 128));
        assert(b as nat % 128 == n % 128);
        assert forall|i: int| 0 <= i < written(n).len() - 1 implies #[trigger] written(n)[i]
            >= 128 by {
            if i > 0 {
                assert(written(n)[i] == written(n / 128)[i - 1]);
            }
        }
    }
}

proof fn lemma_written_len(n: nat, k: nat)
    requires
        k >= 1,
        n < place(k),
    ensures
        written(n).len() <= k,
    decreases k,
{
    if n >= 128 {
        if k == 1 {
            assert(place(1) == 128 * place(0));
        } else {
            assert(n / 128 < place((k - 1) as nat));
            lemma_written_len(n / 128, (k - 1) as nat);
        }
    }
}

proof fn lemma_ten_places()
    ensures
        place(10) > 0xffff_ffff_ffff_ffff,
{
    assert(place(0) == 1);
    assert(place(1) == 128);
    assert(place(2) == 16384);
    assert(place(3) == 2097152);
    assert(place(4) == 268435456);
    assert(place(5) == 34359738368);
    assert(place(6) == 4398046511104);
    assert(place(7) == 562949953421312);
    assert(place(8) == 72057594037927936);
    assert(place(9) == 9223372036854775808);
    assert(place(10) == 1180591620717411303424);
}

/// A number of 64 bits is read back from where it was written, and what follows
/// it begins right behind it.
pub proof fn law_numbers_read_back(before: Seq<u8>, n: u64, after: Seq<u8>)
    ensures
        number_at(before + written(n as nat) + after, before.len() as int) == Ok::<
            (nat, int),
            BlockError,
        >((n as nat, before.len() + written(n as nat).len() as int)),
{
    let w = written(n as nat);
    let s = before + w + after;
    let at = before.len() as int;
    lemma_written(n as nat);
    lemma_ten_places();
    lemma_written_len(n as nat, 10);
    let rest = s.skip(at);
    assert(rest =~= w + after);
    let more = w.len() - 1;
    assert forall|i: int| 0 <= i < more implies continues()(#[trigger] rest[i]) by {
        assert(rest[i] == w[i]);
    }
    assert(rest[more] == w[more]);
    lemma_prefix_len(rest, continues(), more);
    assert(s.subrange(at, at + more + 1) =~= w);
}

/// The number of a kind that is listed first decides; a number that is not
/// listed has no kind.
pub proof fn law_first_number_decides(kinds: Seq<(u8, RecordType)>, i: int)
    requires
        0 <= i < kinds.len(),
        forall|j: int| 0 <= j < i ==> (#[trigger] kinds[j]).0 != kinds[i].0,
    ensures
        kind_of(kinds, kinds[i].0) == Some(kinds[i].1),
    decreases kinds.len(),
{
    if i > 0 {
        let rest = kinds.drop_first();
        assert(kinds[0].0 != kinds[i].0);
        assert forall|j: int| 0 <= j < i - 1 implies (#[trigger] rest[j]).0 != rest[i - 1].0 by {
            assert(kinds[j + 1].0 != kinds[i].0);
        }
        law_first_number_decides(rest, i - 1);
    }
}

/// A record as it stands in a block: the number of its kind, how far its
/// sequence number and timestamp are from those of the block, and its payload
/// behind its length.
pub open spec fn written_record(
    r: RecordModel,
    number: u8,
    base_seq: u64,
    base_ts: u64,
) -> Seq<u8> {
    seq![number] + written((r.seq - base_seq) as nat) + written((r.ts_unix_ns - base_ts) as nat)
        + written(r.payload.len()) + r.payload
}

/// A record is read back from where it was written.
pub proof fn law_records_read_back(
    before: Seq<u8>,
    r: RecordModel,
    number: u8,
    base_seq: u64,
    base_ts: u64,
    kinds: Seq<(u8, RecordType)>,
    after: Seq<u8>,
)
    requires
        r.seq >= base_seq,
        r.ts_unix_ns >= base_ts,
        kind_of(kinds, number) == Some(r.record_type),
        before.len() + written_record(r, number, base_seq, base_ts).len() + after.len()
            <= usize::MAX,
    ensures
        record_at(
            before + written_record(r, number, base_seq, base_ts) + after,
            before.len() as int,
            base_seq,
            base_ts,
            kinds,
        ) == Ok::<(RecordModel, int), BlockError>(
            (r, before.len() + written_record(r, number, base_seq, base_ts).len() as int),
        ),
{
    let a = written((r.seq - base_seq) as nat);
    let b = written((r.ts_unix_ns - base_ts) as nat);
    let c = written(r.payload.len());
    let s = before + written_record(r, number, base_seq, base_ts) + after;
    let head = before + seq![number];
    lemma_written((r.seq - base_seq) as nat);
    assert(s =~= head + a + (b + c + r.payload + after));
    law_numbers_read_back(head, (r.seq - base_seq) as u64, b + c + r.payload + after);
    assert(s =~= (head + a) + b + (c + r.payload + after));
    law_numbers_read_back(head + a, (r.ts_unix_ns - base_ts) as u64, c + r.payload + after);
    assert(s =~= (head + a + b) + c + (r.payload + after));
    law_numbers_read_back(head + a + b, r.payload.len() as u64, r.payload + after);
    assert(s[before.len() as int] == number);
    let body_at = (head + a + b + c).len() as int;
    assert(s.subrange(body_at, body_at + r.payload.len()) =~= r.payload);
}

/// The records of a block, one behind the other.
pub open spec fn written_block(
    r: Seq<RecordModel>,
    number: spec_fn(RecordType) -> u8,
    base_seq: u64,
    base_ts: u64,
) -> Seq<u8>
    decreases r.len(),
{
    if r.len() == 0 {
        Seq::empty()
    } else {
        written_record(r.first(), number(r.first().record_type), base_seq, base_ts)
            + written_block(r.drop_first(), number, base_seq, base_ts)
    }
}

proof fn lemma_block_from(
    before: Seq<u8>,
    r: Seq<RecordModel>,
    number: spec_fn(RecordType) -> u8,
    base_seq: u64,
    base_ts: u64,
    kinds: Seq<(u8, RecordType)>,
)
    requires
        forall|i: int|
            0 <= i < r.len() ==> (#[trigger] r[i]).seq >= base_seq && r[i].ts_unix_ns >= base_ts
                && kind_of(kinds, number(r[i].record_type)) == Some(r[i].record_type),
        before.len() + written_block(r, number, base_seq, base_ts).len() <= usize::MAX,
    ensures
        records_from(
            before + written_block(r, number, base_seq, base_ts),
            before.len() as int,
            base_seq,
            base_ts,
            kinds,
        ) == Ok::<Seq<RecordModel>, BlockError>(r),
    decreases r.len(),
{
    let s = before + written_block(r, number, base_seq, base_ts);
    if r.len() == 0 {
        assert(r =~= Seq::empty());
    } else {
        let rest = r.drop_first();
        let n = number(r[0].record_type);
        let w = written_record(r[0], n, base_seq, base_ts);
        let tail = written_block(rest, number, base_seq, base_ts);
        assert(s =~= before + w + tail);
        law_records_read_back(before, r[0], n, base_seq, base_ts, kinds, tail);
        assert forall|i: int| 0 <= i < rest.len() implies (#[trigger] rest[i]).seq >= base_seq
            && rest[i].ts_unix_ns >= base_ts && kind_of(kinds, number(rest[i].record_type))
            == Some(rest[i].record_type) by {
            assert(r[i + 1].seq >= base_seq);
        }
        assert(s =~= (before + w) + tail);
        lemma_block_from(before + w, rest, number, base_seq, base_ts, kinds);
        assert(seq![r[0]] + rest =~= r);
        assert(w.len() >= 1);
    }
}

/// A block gives back the records that were written to it, all of them and in
/// order.
pub proof fn law_blocks_read_back(
    r: Seq<RecordModel>,
    number: spec_fn(RecordType) -> u8,
    base_seq: u64,
    base_ts: u64,
    kinds: Seq<(u8, RecordType)>,
)
    requires
        forall|i: int|
            0 <= i < r.len() ==> (#[trigger] r[i]).seq >= base_seq && r[i].ts_unix_ns >= base_ts
                && kind_of(kinds, number(r[i].record_type)) == Some(r[i].record_type),
        written_block(r, number, base_seq, base_ts).len() <= usize::MAX,
    ensures
        records_from(
            written_block(r, number, base_seq, base_ts),
            0,
            base_seq,
            base_ts,
            kinds,
        ) == Ok::<Seq<RecordModel>, BlockError>(r),
{
    let none = Seq::<u8>::empty();
    lemma_block_from(none, r, number, base_seq, base_ts, kinds);
    assert(none + written_block(r, number, base_seq, base_ts) =~= written_block(
        r,
        number,
        base_seq,
        base_ts,
    ));
}

/// A block that ends inside a number, or before the end of a payload, is
/// refused.
pub proof fn law_numbers_must_end(s: Seq<u8>, at: int)
    requires
        0 <= at <= s.len(),
        forall|i: int| at <= i < s.len() ==> #[trigger] s[i] >= 128,
    ensures
        s.len() - at <= 10 ==> number_at(s, at) == Err::<(nat, int), BlockError>(
            BlockError::TruncatedNumber,
        ),
        s.len() - at > 10 ==> number_at(s, at) == Err::<(nat, int), BlockError>(
            BlockError::LongNumber,
        ),
{
    let rest = s.skip(at);
    assert forall|i: int| 0 <= i < rest.len() implies continues()(#[trigger] rest[i]) by {
        assert(rest[i] == s[at + i]);
    }
    lemma_prefix_len(rest, continues(), rest.len() as int);
}

} // verus!
