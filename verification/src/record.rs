//! Records of a telemetry stream.
use vstd::prelude::*;


verus! {

/// What the payload of a record encodes.
#[derive(Debug, Clone, Copy, PartialEq, Eq, Structural)]
pub enum RecordType {
    Logs,
    Metrics,
    Traces,
    Events,
}

/// One record of a stream.
#[derive(Debug, PartialEq, Eq)]
pub struct StreamRecord {
    pub record_type: RecordType,
    pub seq: u64,
    pub ts_unix_ns: u64,
    pub payload: Vec<u8>,
}

/// What a [`StreamRecord`] holds.
pub struct RecordModel {
    pub record_type: RecordType,
    pub seq: u64,
    pub ts_unix_ns: u64,
    pub payload: Seq<u8>,
}

impl View for StreamRecord {
    type V = RecordModel;

    open spec fn view(&self) -> RecordModel {
        RecordModel {
            record_type: self.record_type,
            seq: self.seq,
            ts_unix_ns: self.ts_unix_ns,
            payload: self.payload@,
        }
    }
}

/// The models of a list of records.
pub open spec fn stream_view(r: Seq<StreamRecord>) -> Seq<RecordModel> {
    r.map_values(|x: StreamRecord| x@)
}

/// `s` with `e` behind the leading records that are not later.
pub open spec fn insert_by_time(s: Seq<RecordModel>, e: RecordModel) -> Seq<RecordModel>
    decreases s.len(),
{
    if s.len() == 0 {
        seq![e]
    } else if s.last().ts_unix_ns <= e.ts_unix_ns {
        s.push(e)
    } else {
        insert_by_time(s.drop_last(), e).push(s.last())
    }
}

/// Records in the order of their timestamps; records with equal timestamps
/// keep their order.
pub open spec fn sorted_by_time(s: Seq<RecordModel>) -> Seq<RecordModel>
    decreases s.len(),
{
    if s.len() == 0 {
        Seq::empty()
    } else {
        insert_by_time(sorted_by_time(s.drop_last()), s.last())
    }
}

/// Timestamps ascend.
pub open spec fn times_ascend(s: Seq<RecordModel>) -> bool {
    forall|i: int, j: int|
        0 <= i <= j < s.len() ==> (#[trigger] s[i]).ts_unix_ns <= (#[trigger] s[j]).ts_unix_ns
}

proof fn lemma_insert_by_time(s: Seq<RecordModel>, e: RecordModel)
    requires
        times_ascend(s),
    ensures
        times_ascend(insert_by_time(s, e)),
        insert_by_time(s, e).to_multiset() == s.to_multiset().insert(e),
        insert_by_time(s, e).len() == s.len() + 1,
        forall|i: int|
            0 <= i < insert_by_time(s, e).len() ==> (#[trigger] insert_by_time(s, e)[i]).ts_unix_ns
                <= e.ts_unix_ns || (s.len() > 0 && insert_by_time(s, e)[i].ts_unix_ns
                <= s.last().ts_unix_ns),
    decreases s.len(),
{
    broadcast use vstd::seq_lib::group_to_multiset_ensures;

    if s.len() == 0 {
        assert(s =~= Seq::empty());
        assert(seq![e] =~= Seq::<RecordModel>::empty().push(e));
    } else if s.last().ts_unix_ns > e.ts_unix_ns {
        let init = s.drop_last();
        assert(times_ascend(init)) by {
            assert forall|i: int, j: int| 0 <= i <= j < init.len() implies (
            #[trigger] init[i]).ts_unix_ns <= (#[trigger] init[j]).ts_unix_ns by {
                assert(s[i].ts_unix_ns <= s[j].ts_unix_ns);
            }
        }
        lemma_insert_by_time(init, e);
        let r = insert_by_time(init, e);
        assert forall|i: int| 0 <= i < r.len() implies (#[trigger] r[i]).ts_unix_ns
            <= s.last().ts_unix_ns by {
            if init.len() > 0 {
                assert(s[init.len() - 1].ts_unix_ns <= s[s.len() - 1].ts_unix_ns);
            }
        }
        assert(init.push(s.last()) =~= s);
        assert(r.push(s.last()).to_multiset() =~= s.to_multiset().insert(e));
    }
}

/// Sorting by time loses and invents no record, and its result ascends.
pub proof fn law_sorting_by_time(s: Seq<RecordModel>)
    ensures
        times_ascend(sorted_by_time(s)),
        sorted_by_time(s).to_multiset() == s.to_multiset(),
        sorted_by_time(s).len() == s.len(),
    decreases s.len(),
{
    broadcast use vstd::seq_lib::group_to_multiset_ensures;

    if s.len() > 0 {
        law_sorting_by_time(s.drop_last());
        lemma_insert_by_time(sorted_by_time(s.drop_last()), s.last());
        assert(s.drop_last().push(s.last()) =~= s);
    } else {
        assert(s =~= Seq::empty());
    }
}

/// `<[T]>::sort_by_key` with the timestamp as the key: a stable sort.
#[verifier::external_body]
pub(crate) fn sort_by_time(records: &mut Vec<StreamRecord>)
    ensures
        stream_view(final(records)@) == sorted_by_time(stream_view(old(records)@)),
{
    records.sort_by_key(|r| r.ts_unix_ns)
}

} // verus!
