//! The records in the payload of a block.
//!
//! A record is a byte for its kind, then its sequence number and its
//! timestamp as distances from those of the block, then the length of its
//! payload, then the payload. The three numbers are written in groups of seven
//! bits, the lowest first, and all bytes of a number but the last have their
//! high bit set.
use vstd::prelude::*;

use crate::record::{stream_view, RecordModel, RecordType, StreamRecord};
use crate::text::seqs::{lemma_prefix_len, prefix_len};

verus! {

/// Why the payload of a block cannot be read.
#[derive(Debug, Clone, Copy, PartialEq, Eq, Structural)]
pub enum BlockError {
    /// No kind of record has this number.
    UnknownKind(u8),
    /// The payload ends inside a number.
    TruncatedNumber,
    /// A number has more than ten bytes.
    LongNumber,
    /// A sequence number or a timestamp does not fit in 64 bits.
    NumberOverflow,
    /// The length of a payload does not fit in memory.
    LengthOverflow,
    /// The payload of a record ends behind that of the block.
    OutOfRange,
}

/// How many bytes a number has at most.
pub const NUMBER_BYTES: usize = 10;

/// What a byte of a number is worth at index `k`.
pub open spec fn place(k: nat) -> nat
    decreases k,
{
    if k == 0 {
        1
    } else {
        128 * place((k - 1) as nat)
    }
}

/// The number that groups of seven bits make up, the lowest first.
pub open spec fn groups_value(s: Seq<u8>) -> nat
    decreases s.len(),
{
    if s.len() == 0 {
        0
    } else {
        groups_value(s.drop_last()) + (s.last() as nat % 128) * place((s.len() - 1) as nat)
    }
}

/// More bytes of the number follow.
pub open spec fn continues() -> spec_fn(u8) -> bool {
    |b: u8| b >= 128
}

/// The number at `at`, modulo two to the power of 64, and where it ends.
pub open spec fn number_at(s: Seq<u8>, at: int) -> Result<(nat, int), BlockError> {
    let more = prefix_len(s.skip(at), continues());
    if more >= NUMBER_BYTES && at + NUMBER_BYTES < s.len() {
        Err(BlockError::LongNumber)
    } else if at + more >= s.len() {
        Err(BlockError::TruncatedNumber)
    } else {
        Ok(
            (
                groups_value(s.subrange(at, at + more + 1)) % 0x1_0000_0000_0000_0000,
                at + more + 1,
            ),
        )
    }
}

proof fn lemma_place_bound(k: nat)
    ensures
        k == 0 ==> place(k) == 1,
        k <= 9 ==> place(k) <= 0x8000_0000_0000_0000,
        k <= 10 ==> place(k) <= 0x40_0000_0000_0000_0000,
    decreases k,
{
    if k <= 10 {
        reveal_with_fuel(place, 11);
    }
}

/// The number at `at` and where it ends.
pub fn decode_varint(bytes: &[u8], at: usize) -> (r: Result<(u64, usize), BlockError>)
    requires
        at <= bytes@.len(),
    ensures
        match r {
            Ok((value, next)) => number_at(bytes@, at as int) == Ok::<(nat, int), BlockError>(
                (value as nat, next as int),
            ) && at < next <= bytes@.len(),
            Err(e) => number_at(bytes@, at as int) == Err::<(nat, int), BlockError>(e),
        },
{
    let ghost rest = bytes@.skip(at as int);
    let mut value: u128 = 0;
    let mut scale: u128 = 1;
    let mut k: usize = 0;
    let n = bytes.len();
    while at + k < n
        invariant
            at + k <= bytes@.len(),
            n == bytes@.len(),
            rest == bytes@.skip(at as int),
            k <= NUMBER_BYTES,
            scale == place(k as nat),
            value == groups_value(bytes@.subrange(at as int, at + k)),
            value < place(k as nat),
            forall|i: int| 0 <= i < k ==> (#[trigger] rest[i]) >= 128,
        decreases bytes@.len() - at - k,
    {
        proof {
            lemma_place_bound(k as nat);
        }
        if k >= NUMBER_BYTES {
            proof {
                lemma_prefix_at_least(rest, k as nat);
            }
            return Err(BlockError::LongNumber);
        }
        let byte = bytes[at + k];
        let low: u128 = (byte % 128) as u128;
        assert(low * scale <= 127 * scale) by (nonlinear_arith)
            requires
                low <= 127,
        ;
        let ghost upto = bytes@.subrange(at as int, at + k + 1);
        assert(upto.drop_last() =~= bytes@.subrange(at as int, at + k));
        assert(rest[k as int] == byte);
        value = value + low * scale;
        assert(place((k + 1) as nat) == 128 * place(k as nat));
        if byte < 128 {
            proof {
                lemma_prefix_len(rest, continues(), k as int);
            }
            let low64: u64 = (value % 0x1_0000_0000_0000_0000) as u64;
            return Ok((low64, at + k + 1));
        }
        scale = scale * 128;
        k = k + 1;
    }
    proof {
        lemma_prefix_len(rest, continues(), k as int);
    }
    Err(BlockError::TruncatedNumber)
}

proof fn lemma_prefix_at_least(s: Seq<u8>, n: nat)
    requires
        n <= s.len(),
        forall|i: int| 0 <= i < n ==> (#[trigger] s[i]) >= 128,
    ensures
        prefix_len(s, continues()) >= n,
    decreases n,
{
    if n > 0 {
        assert(s[0] >= 128);
        assert forall|i: int| 0 <= i < n - 1 implies (#[trigger] s.drop_first()[i]) >= 128 by {
            assert(s[i + 1] >= 128);
        }
        lemma_prefix_at_least(s.drop_first(), (n - 1) as nat);
    }
}

/// The kind of record that has a number.
pub open spec fn kind_of(kinds: Seq<(u8, RecordType)>, number: u8) -> Option<RecordType>
    decreases kinds.len(),
{
    if kinds.len() == 0 {
        None
    } else if kinds.first().0 == number {
        Some(kinds.first().1)
    } else {
        kind_of(kinds.drop_first(), number)
    }
}

/// The kind of record that has a number.
pub fn find_kind(kinds: &Vec<(u8, RecordType)>, number: u8) -> (r: Option<RecordType>)
    ensures
        r == kind_of(kinds@, number),
{
    assert(kinds@.skip(0) =~= kinds@);
    for i in 0..kinds.len()
        invariant
            kind_of(kinds@, number) == kind_of(kinds@.skip(i as int), number),
    {
        assert(kinds@.skip(i as int).drop_first() =~= kinds@.skip(i + 1));
        if kinds[i].0 == number {
            return Some(kinds[i].1);
        }
    }
    None
}

/// The record at `at` and where it ends.
pub open spec fn record_at(
    s: Seq<u8>,
    at: int,
    base_seq: u64,
    base_ts: u64,
    kinds: Seq<(u8, RecordType)>,
) -> Result<(RecordModel, int), BlockError> {
    match kind_of(kinds, s[at]) {
        None => Err(BlockError::UnknownKind(s[at])),
        Some(kind) => match number_at(s, at + 1) {
            Err(e) => Err(e),
            Ok((seq, ts_at)) => if base_seq + seq > u64::MAX {
                Err(BlockError::NumberOverflow)
            } else {
                match number_at(s, ts_at) {
                    Err(e) => Err(e),
                    Ok((ts, len_at)) => if base_ts + ts > u64::MAX {
                        Err(BlockError::NumberOverflow)
                    } else {
                        match number_at(s, len_at) {
                            Err(e) => Err(e),
                            Ok((len, body_at)) => if len > usize::MAX || body_at + len
                                > usize::MAX {
                                Err(BlockError::LengthOverflow)
                            } else if body_at + len > s.len() {
                                Err(BlockError::OutOfRange)
                            } else {
                                Ok(
                                    (
                                        RecordModel {
                                            record_type: kind,
                                            seq: (base_seq + seq) as u64,
                                            ts_unix_ns: (base_ts + ts) as u64,
                                            payload: s.subrange(body_at, body_at + len),
                                        },
                                        body_at + len,
                                    ),
                                )
                            },
                        }
                    },
                }
            },
        },
    }
}

/// Records in front of what follows them.
pub open spec fn before_rest(
    first: Seq<RecordModel>,
    rest: Result<Seq<RecordModel>, BlockError>,
) -> Result<Seq<RecordModel>, BlockError> {
    match rest {
        Err(e) => Err(e),
        Ok(r) => Ok(first + r),
    }
}

/// The records from `at` on.
pub open spec fn records_from(
    s: Seq<u8>,
    at: int,
    base_seq: u64,
    base_ts: u64,
    kinds: Seq<(u8, RecordType)>,
) -> Result<Seq<RecordModel>, BlockError>
    decreases s.len() - at,
{
    if at >= s.len() {
        Ok(Seq::empty())
    } else {
        match record_at(s, at, base_seq, base_ts, kinds) {
            Err(e) => Err(e),
            Ok((record, next)) => if next <= at {
                Ok(seq![record])
            } else {
                before_rest(seq![record], records_from(s, next, base_seq, base_ts, kinds))
            },
        }
    }
}

/// The record at `at` and where it ends.
fn parse_record(
    payload: &[u8],
    at: usize,
    base_seq: u64,
    base_ts_unix_ns: u64,
    kinds: &Vec<(u8, RecordType)>,
) -> (r: Result<(StreamRecord, usize), BlockError>)
    requires
        at < payload@.len(),
    ensures
        match r {
            Ok((record, next)) => record_at(
                payload@,
                at as int,
                base_seq,
                base_ts_unix_ns,
                kinds@,
            ) == Ok::<(RecordModel, int), BlockError>((record@, next as int)) && at < next
                <= payload@.len(),
            Err(e) => record_at(payload@, at as int, base_seq, base_ts_unix_ns, kinds@) == Err::<
                (RecordModel, int),
                BlockError,
            >(e),
        },
{
    let record_type = match find_kind(kinds, payload[at]) {
        Some(kind) => kind,
        None => return Err(BlockError::UnknownKind(payload[at])),
    };
    let (seq, ts_at) = match decode_varint(payload, at + 1) {
        Ok(x) => x,
        Err(e) => return Err(e),
    };
    let seq = match base_seq.checked_add(seq) {
        Some(x) => x,
        None => return Err(BlockError::NumberOverflow),
    };
    let (ts, len_at) = match decode_varint(payload, ts_at) {
        Ok(x) => x,
        Err(e) => return Err(e),
    };
    let ts_unix_ns = match base_ts_unix_ns.checked_add(ts) {
        Some(x) => x,
        None => return Err(BlockError::NumberOverflow),
    };
    let (len, body_at) = match decode_varint(payload, len_at) {
        Ok(x) => x,
        Err(e) => return Err(e),
    };
    if len > (usize::MAX - body_at) as u64 {
        return Err(BlockError::LengthOverflow);
    }
    let len = len as usize;
    if len > payload.len() - body_at {
        return Err(BlockError::OutOfRange);
    }
    let mut body: Vec<u8> = Vec::new();
    for i in body_at..body_at + len
        invariant
            body_at + len <= payload@.len(),
            body@ == payload@.subrange(body_at as int, i as int),
    {
        body.push(payload[i]);
    }
    Ok((StreamRecord { record_type, seq, ts_unix_ns, payload: body }, body_at + len))
}

/// The records in the payload of a block.
pub fn parse_block_payload(
    payload: &[u8],
    base_seq: u64,
    base_ts_unix_ns: u64,
    kinds: &Vec<(u8, RecordType)>,
) -> (r: Result<Vec<StreamRecord>, BlockError>)
    ensures
        match r {
            Ok(records) => records_from(payload@, 0, base_seq, base_ts_unix_ns, kinds@) == Ok::<
                Seq<RecordModel>,
                BlockError,
            >(stream_view(records@)),
            Err(e) => records_from(payload@, 0, base_seq, base_ts_unix_ns, kinds@) == Err::<
                Seq<RecordModel>,
                BlockError,
            >(e),
        },
{
    let mut records: Vec<StreamRecord> = Vec::new();
    let mut at: usize = 0;
    let ghost whole = records_from(payload@, 0, base_seq, base_ts_unix_ns, kinds@);
    assert(whole == before_rest(stream_view(records@), whole)) by {
        assert(stream_view(records@) =~= Seq::empty());
        if whole is Ok {
            assert(Seq::<RecordModel>::empty() + whole->Ok_0 =~= whole->Ok_0);
        }
    }
    while at < payload.len()
        invariant
            at <= payload@.len(),
            whole == records_from(payload@, 0, base_seq, base_ts_unix_ns, kinds@),
            whole == before_rest(
                stream_view(records@),
                records_from(payload@, at as int, base_seq, base_ts_unix_ns, kinds@),
            ),
        decreases payload@.len() - at,
    {
        match parse_record(payload, at, base_seq, base_ts_unix_ns, kinds) {
            Err(e) => {
                return Err(e);
            },
            Ok((record, next)) => {
                let ghost done = stream_view(records@);
                let ghost rest = records_from(
                    payload@,
                    next as int,
                    base_seq,
                    base_ts_unix_ns,
                    kinds@,
                );
                records.push(record);
                at = next;
                proof {
                    assert(stream_view(records@) =~= done + seq![record@]);
                    if rest is Ok {
                        assert(done + (seq![record@] + rest->Ok_0) =~= (done + seq![record@])
                            + rest->Ok_0);
                    }
                }
            },
        }
    }
    assert(stream_view(records@) + Seq::<RecordModel>::empty() =~= stream_view(records@));
    Ok(records)
}

} // verus!
