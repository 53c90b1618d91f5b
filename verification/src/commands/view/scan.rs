//! Scanning files for records that match, in order, by way of a spool file.
use vstd::prelude::*;

use crate::commands::view::types::{
    metas_view, EntryMeta, MetaModel, ViewOrder, SCAN_BATCH_SIZE,
};
use crate::dataset::DatasetEntry;
use crate::dataset_index::{
    covers_record, index_may_match, law_index_hides_no_match, names_service, names_severity,
    DatasetIndex, IndexBlock,
};
use crate::error::{Error, ErrorModel};
use crate::predicate::{predicate_matches, PredicateModel, RecordPredicate};
use crate::record::{RecordModel, StreamRecord};
use crate::text::numbers::{decimal, u128_text, u64_text};

verus! {

/// How many threads scan files at most.
pub const MAX_SCAN_WORKERS: usize = 8;

/// How many threads scan files by default, where so many can run at once.
#[verifier::allow_in_spec]
pub fn default_worker_count(available: Option<usize>) -> usize
    returns
        (match available {
            Some(n) => if n < 1 {
                1
            } else if n > MAX_SCAN_WORKERS {
                MAX_SCAN_WORKERS
            } else {
                n
            },
            None => 1,
        }),
{
    match available {
        Some(n) => if n < 1 {
            1
        } else if n > MAX_SCAN_WORKERS {
            MAX_SCAN_WORKERS
        } else {
            n
        },
        None => 1,
    }
}

/// How many threads scan so many files: not more than there are files, and at
/// least one.
#[verifier::allow_in_spec]
pub fn catalog_workers(workers: usize, files: usize) -> usize
    returns
        (if workers <= 1 || files <= 1 {
            1
        } else if workers < files {
            workers
        } else {
            files
        }),
{
    if workers <= 1 || files <= 1 {
        1
    } else if workers < files {
        workers
    } else {
        files
    }
}

/// What is read of a file.
#[derive(Debug, PartialEq, Eq)]
pub enum EntryPlan {
    /// Nothing: the index shows that no record matches.
    Skip,
    /// The blocks of the index at these places.
    Blocks(Vec<usize>),
    /// All of it.
    Whole,
}

/// What an [`EntryPlan`] is.
pub enum PlanModel {
    Skip,
    Blocks(Seq<int>),
    Whole,
}

impl View for EntryPlan {
    type V = PlanModel;

    open spec fn view(&self) -> PlanModel {
        match *self {
            EntryPlan::Skip => PlanModel::Skip,
            EntryPlan::Blocks(b) => PlanModel::Blocks(b@.map_values(|i: usize| i as int)),
            EntryPlan::Whole => PlanModel::Whole,
        }
    }
}

/// The places of the blocks that may hold a record that matches.
pub open spec fn open_blocks(b: Seq<IndexBlock>, p: PredicateModel) -> Seq<int>
    decreases b.len(),
{
    if b.len() == 0 {
        Seq::empty()
    } else if index_may_match(b.last()@, p) {
        open_blocks(b.drop_last(), p).push(b.len() - 1)
    } else {
        open_blocks(b.drop_last(), p)
    }
}

/// What is read of a file with this index.
pub open spec fn entry_plan(index: Option<DatasetIndex>, p: PredicateModel) -> PlanModel {
    match index {
        Some(i) => if index_may_match(i.summary@, p) {
            PlanModel::Blocks(open_blocks(i.blocks@, p))
        } else {
            PlanModel::Skip
        },
        None => PlanModel::Whole,
    }
}

/// The plan for a file leaves out no match: a block whose summary covers a
/// record that matches is read. Where the predicate asks for services or
/// severities, the record has to name one.
pub proof fn law_plan_reads_every_match(
    b: Seq<IndexBlock>,
    p: PredicateModel,
    i: int,
    r: RecordModel,
    service_at: int,
    severity_at: (int, int, int),
)
    requires
        0 <= i < b.len(),
        covers_record(b[i]@, r),
        predicate_matches(p, r),
        p.fields.services is Some ==> names_service(r, service_at),
        p.fields.severities is Some ==> names_severity(
            r,
            severity_at.0,
            severity_at.1,
            severity_at.2,
        ),
    ensures
        open_blocks(b, p).contains(i),
    decreases b.len(),
{
    let before = open_blocks(b.drop_last(), p);
    if i < b.len() - 1 {
        law_plan_reads_every_match(b.drop_last(), p, i, r, service_at, severity_at);
        let j = choose|j: int| 0 <= j < before.len() && before[j] == i;
        assert(open_blocks(b, p)[j] == i);
    } else {
        law_index_hides_no_match(b[i]@, p, r, service_at, severity_at);
        assert(open_blocks(b, p)[before.len() as int] == i);
    }
}

/// Says what is read of a file.
pub fn plan_entry(entry: &DatasetEntry, predicate: &RecordPredicate) -> (r: EntryPlan)
    ensures
        r@ == entry_plan(entry.index, predicate@),
{
    match &entry.index {
        None => EntryPlan::Whole,
        Some(index) => {
            if !index.summary.may_match(predicate) {
                return EntryPlan::Skip;
            }
            let ghost all = index.blocks@;
            let mut places: Vec<usize> = Vec::new();
            assert(all.take(0) =~= Seq::empty());
            assert(places@.map_values(|i: usize| i as int) =~= open_blocks(
                all.take(0),
                predicate@,
            ));
            for i in 0..index.blocks.len()
                invariant
                    all == index.blocks@,
                    places@.map_values(|i: usize| i as int) == open_blocks(
                        all.take(i as int),
                        predicate@,
                    ),
            {
                assert(all.take(i + 1).drop_last() =~= all.take(i as int));
                let ghost before = places@.map_values(|i: usize| i as int);
                if index.blocks[i].may_match(predicate) {
                    places.push(i);
                    assert(places@.map_values(|i: usize| i as int) =~= before.push(i as int));
                }
            }
            assert(all.take(index.blocks@.len() as int) =~= all);
            EntryPlan::Blocks(places)
        },
    }
}

/// Whether a file takes part in a merge: the index does not rule it out.
pub fn takes_part(entry: &DatasetEntry, predicate: &RecordPredicate) -> (r: bool)
    ensures
        r == !(entry_plan(entry.index, predicate@) is Skip),
{
    match &entry.index {
        Some(index) => index.summary.may_match(predicate),
        None => true,
    }
}

/// The error of a counter that is full.
pub open spec fn overflow_error(what: Seq<char>) -> ErrorModel {
    ErrorModel::Logjet("numeric overflow: "@ + what)
}

/// One more.
pub fn count_up(n: u64, what: &str) -> (r: Result<u64, Error>)
    ensures
        match r {
            Ok(m) => n < u64::MAX && m == n + 1,
            Err(e) => n == u64::MAX && e@ == overflow_error(what@),
        },
{
    if n < u64::MAX {
        Ok(n + 1)
    } else {
        let mut text = "numeric overflow: ".to_owned();
        text.append(what);
        Err(Error::Logjet(text))
    }
}

/// Records that wait to be handed over, so many at once.
#[derive(Debug)]
pub struct Batcher {
    pending: Vec<EntryMeta>,
}

impl View for Batcher {
    type V = Seq<MetaModel>;

    closed spec fn view(&self) -> Seq<MetaModel> {
        metas_view(self.pending@)
    }
}

/// The batch that is handed over, if there is one.
pub open spec fn batch_option(b: Option<Vec<EntryMeta>>) -> Option<Seq<MetaModel>> {
    match b {
        Some(v) => Some(metas_view(v@)),
        None => None,
    }
}

/// The records that wait and the batch that is handed over, once one more is there.
pub open spec fn batched_one(pending: Seq<MetaModel>, m: MetaModel) -> (
    Seq<MetaModel>,
    Option<Seq<MetaModel>>,
) {
    let all = pending.push(m);
    if all.len() >= SCAN_BATCH_SIZE {
        (Seq::empty(), Some(all))
    } else {
        (all, None)
    }
}

impl Batcher {
    /// Nothing waits.
    pub fn new() -> (r: Self)
        ensures
            r@ == Seq::<MetaModel>::empty(),
    {
        let r = Batcher { pending: Vec::new() };
        assert(r@ =~= Seq::<MetaModel>::empty());
        r
    }

    /// Adds a record; a batch that is full is handed over.
    pub fn push(&mut self, meta: EntryMeta) -> (r: Option<Vec<EntryMeta>>)
        ensures
            (final(self)@, batch_option(r)) == batched_one(old(self)@, meta@),
    {
        let ghost before = self@;
        self.pending.push(meta);
        assert(self@ =~= before.push(meta@));
        if self.pending.len() >= SCAN_BATCH_SIZE {
            self.take()
        } else {
            None
        }
    }

    /// Hands over what waits.
    pub fn take(&mut self) -> (r: Option<Vec<EntryMeta>>)
        ensures
            final(self)@ == Seq::<MetaModel>::empty(),
            batch_option(r) == if old(self)@.len() == 0 {
                None
            } else {
                Some(old(self)@)
            },
    {
        let mut all: Vec<EntryMeta> = Vec::new();
        all.append(&mut self.pending);
        assert(all@ =~= old(self).pending@);
        assert(self@ =~= Seq::<MetaModel>::empty());
        if all.len() == 0 {
            None
        } else {
            Some(all)
        }
    }
}

/// The batches that come of a list of records, and what waits behind them.
pub open spec fn batches_of(m: Seq<MetaModel>) -> (Seq<Seq<MetaModel>>, Seq<MetaModel>)
    decreases m.len(),
{
    if m.len() == 0 {
        (Seq::empty(), Seq::empty())
    } else {
        let (done, pending) = batches_of(m.drop_last());
        let (rest, full) = batched_one(pending, m.last());
        match full {
            Some(b) => (done.push(b), rest),
            None => (done, rest),
        }
    }
}

/// All batches, one behind the other.
pub open spec fn all_batches(b: Seq<Seq<MetaModel>>) -> Seq<MetaModel>
    decreases b.len(),
{
    if b.len() == 0 {
        Seq::empty()
    } else {
        all_batches(b.drop_last()) + b.last()
    }
}

/// The batches and what waits behind them hold every record in order, and every
/// batch is full.
pub proof fn law_batches_hold_every_record(m: Seq<MetaModel>)
    ensures
        all_batches(batches_of(m).0) + batches_of(m).1 == m,
        batches_of(m).1.len() < SCAN_BATCH_SIZE,
        forall|i: int|
            0 <= i < batches_of(m).0.len() ==> (#[trigger] batches_of(m).0[i]).len()
                == SCAN_BATCH_SIZE,
    decreases m.len(),
{
    if m.len() == 0 {
        assert(all_batches(batches_of(m).0) + batches_of(m).1 =~= m);
    } else {
        law_batches_hold_every_record(m.drop_last());
        let (done, pending) = batches_of(m.drop_last());
        let (rest, full) = batched_one(pending, m.last());
        assert(m =~= m.drop_last().push(m.last()));
        match full {
            Some(b) => {
                assert(done.push(b).drop_last() =~= done);
                assert(all_batches(done.push(b)) + rest =~= m);
            },
            None => {
                assert(all_batches(done) + rest =~= m);
            },
        }
    }
}

/// What a record is ordered by in a merge: two numbers of its own, then the file,
/// then the time of reading.
#[derive(Debug, Clone, Copy, PartialEq, Eq, Structural)]
pub struct MergeKey {
    pub first: u64,
    pub second: u64,
    pub stream: usize,
    pub serial: u64,
}

/// The key of a record.
pub open spec fn merge_key_of(order: ViewOrder, r: RecordModel, stream: usize, serial: u64) -> MergeKey {
    match order {
        ViewOrder::Concat => MergeKey { first: serial, second: 0, stream, serial },
        ViewOrder::MergeSeq => MergeKey { first: r.seq, second: r.ts_unix_ns, stream, serial },
        ViewOrder::MergeTs => MergeKey { first: r.ts_unix_ns, second: r.seq, stream, serial },
    }
}

/// The key of a record.
pub fn merge_key(order: ViewOrder, record: &StreamRecord, stream: usize, serial: u64) -> (r:
    MergeKey)
    ensures
        r == merge_key_of(order, record@, stream, serial),
{
    match order {
        ViewOrder::Concat => MergeKey { first: serial, second: 0, stream, serial },
        ViewOrder::MergeSeq => MergeKey {
            first: record.seq,
            second: record.ts_unix_ns,
            stream,
            serial,
        },
        ViewOrder::MergeTs => MergeKey {
            first: record.ts_unix_ns,
            second: record.seq,
            stream,
            serial,
        },
    }
}

/// One key comes before another.
#[verifier::allow_in_spec]
pub fn key_before(a: MergeKey, b: MergeKey) -> bool
    returns
        (a.first < b.first || (a.first == b.first && (a.second < b.second || (a.second
            == b.second && (a.stream < b.stream || (a.stream == b.stream && a.serial
            < b.serial)))))),
{
    a.first < b.first || (a.first == b.first && (a.second < b.second || (a.second == b.second && (
    a.stream < b.stream || (a.stream == b.stream && a.serial < b.serial)))))
}

/// The place of the smallest key; the first of equal ones.
pub open spec fn smallest_head(heads: Seq<Option<MergeKey>>) -> Option<int>
    decreases heads.len(),
{
    if heads.len() == 0 {
        None
    } else {
        let rest = smallest_head(heads.drop_last());
        match (rest, heads.last()) {
            (_, None) => rest,
            (None, Some(_)) => Some(heads.len() - 1),
            (Some(i), Some(k)) => if key_before(k, heads[i]->0) {
                Some(heads.len() - 1)
            } else {
                rest
            },
        }
    }
}

/// What is next in a merge comes before everything else that waits, and something
/// is next as long as anything waits.
pub proof fn law_smallest_comes_next(heads: Seq<Option<MergeKey>>)
    ensures
        match smallest_head(heads) {
            Some(i) => 0 <= i < heads.len() && heads[i] is Some && forall|j: int|
                0 <= j < heads.len() && (#[trigger] heads[j]) is Some ==> !key_before(
                    heads[j]->0,
                    heads[i]->0,
                ),
            None => forall|j: int| 0 <= j < heads.len() ==> (#[trigger] heads[j]) is None,
        },
    decreases heads.len(),
{
    if heads.len() > 0 {
        let short = heads.drop_last();
        law_smallest_comes_next(short);
        assert forall|j: int| 0 <= j < short.len() implies short[j] == heads[j] by {}
        if let Some(i) = smallest_head(heads) {
            assert forall|j: int| 0 <= j < heads.len() && (#[trigger] heads[j]) is Some implies !key_before(
                heads[j]->0,
                heads[i]->0,
            ) by {
                if j < short.len() {
                    assert(short[j] == heads[j]);
                }
            }
        } else {
            assert forall|j: int| 0 <= j < heads.len() implies (#[trigger] heads[j]) is None by {
                if j < short.len() {
                    assert(short[j] == heads[j]);
                }
            }
        }
    }
}

/// A merge of files: of each the record that waits.
#[derive(Debug)]
pub struct MergeQueue {
    order: ViewOrder,
    heads: Vec<Option<MergeKey>>,
    serial: u64,
}

/// What a [`MergeQueue`] holds.
pub struct QueueModel {
    pub order: ViewOrder,
    pub heads: Seq<Option<MergeKey>>,
    pub serial: u64,
}

impl View for MergeQueue {
    type V = QueueModel;

    closed spec fn view(&self) -> QueueModel {
        QueueModel { order: self.order, heads: self.heads@, serial: self.serial }
    }
}

impl MergeQueue {
    /// A merge of so many files of which nothing has been read.
    pub fn new(order: ViewOrder, streams: usize) -> (r: Self)
        ensures
            r@.order == order,
            r@.serial == 0,
            r@.heads == Seq::new(streams as nat, |i: int| None::<MergeKey>),
    {
        let mut heads: Vec<Option<MergeKey>> = Vec::new();
        for i in 0..streams
            invariant
                heads@ =~= Seq::new(i as nat, |i: int| None::<MergeKey>),
        {
            heads.push(None);
        }
        MergeQueue { order, heads, serial: 0 }
    }

    /// A record of a file waits.
    pub fn offer(&mut self, stream: usize, record: &StreamRecord) -> (r: Result<(), Error>)
        requires
            stream < old(self)@.heads.len(),
        ensures
            match r {
                Ok(_) => old(self)@.serial < u64::MAX && final(self)@ == (QueueModel {
                    heads: old(self)@.heads.update(
                        stream as int,
                        Some(
                            merge_key_of(
                                old(self)@.order,
                                record@,
                                stream,
                                old(self)@.serial,
                            ),
                        ),
                    ),
                    serial: (old(self)@.serial + 1) as u64,
                    ..old(self)@
                }),
                Err(e) => old(self)@.serial == u64::MAX && e@ == overflow_error(
                    "view merge serial"@,
                ) && final(self)@ == old(self)@,
            },
    {
        let key = merge_key(self.order, record, stream, self.serial);
        match count_up(self.serial, "view merge serial") {
            Ok(n) => {
                self.serial = n;
                self.heads.set(stream, Some(key));
                Ok(())
            },
            Err(e) => Err(e),
        }
    }

    /// The file whose record comes next; the record no longer waits.
    pub fn next(&mut self) -> (r: Option<usize>)
        ensures
            match r {
                Some(i) => smallest_head(old(self)@.heads) == Some(i as int) && final(self)@ == (
                QueueModel { heads: old(self)@.heads.update(i as int, None), ..old(self)@ }),
                None => smallest_head(old(self)@.heads) is None && final(self)@ == old(self)@,
            },
    {
        let ghost all = self.heads@;
        let mut best: Option<usize> = None;
        assert(all.take(0) =~= Seq::empty());
        for i in 0..self.heads.len()
            invariant
                all == self.heads@,
                match best {
                    Some(b) => b < i && all[b as int] is Some && smallest_head(all.take(i as int))
                        == Some(b as int),
                    None => smallest_head(all.take(i as int)) is None,
                },
        {
            assert(all.take(i + 1).drop_last() =~= all.take(i as int));
            if let Some(k) = self.heads[i] {
                match best {
                    None => {
                        best = Some(i);
                    },
                    Some(b) => {
                        if let Some(other) = self.heads[b] {
                            if key_before(k, other) {
                                best = Some(i);
                            }
                        }
                    },
                }
            }
        }
        assert(all.take(self.heads@.len() as int) =~= all);
        if let Some(b) = best {
            self.heads.set(b, None);
        }
        best
    }
}

/// The files with what is left of each once a record is taken.
pub open spec fn left_behind(s: Seq<Seq<RecordModel>>, at: int) -> Seq<Seq<RecordModel>> {
    s.update(at, s[at].drop_first())
}

/// The number of all records.
pub open spec fn total_records(s: Seq<Seq<RecordModel>>) -> nat
    decreases s.len(),
{
    if s.len() == 0 {
        0
    } else {
        total_records(s.drop_last()) + s.last().len()
    }
}

pub proof fn lemma_total_shrinks(s: Seq<Seq<RecordModel>>, at: int)
    requires
        0 <= at < s.len(),
        s[at].len() > 0,
    ensures
        total_records(left_behind(s, at)) == total_records(s) - 1,
    decreases s.len(),
{
    let t = left_behind(s, at);
    if at == s.len() - 1 {
        assert(t.drop_last() =~= s.drop_last());
    } else {
        assert(t.drop_last() =~= left_behind(s.drop_last(), at));
        assert(t.last() == s.last());
        lemma_total_shrinks(s.drop_last(), at);
    }
}

/// The keys of the first records.
pub open spec fn first_keys(order: ViewOrder, s: Seq<Seq<RecordModel>>) -> Seq<Option<MergeKey>> {
    s.map(
        |i: int, r: Seq<RecordModel>|
            if r.len() == 0 {
                None
            } else {
                Some(merge_key_of(order, r[0], i as usize, 0))
            },
    )
}

/// Files merged by sequence number or by timestamp: each record with its file.
pub open spec fn merged(order: ViewOrder, s: Seq<Seq<RecordModel>>) -> Seq<(int, RecordModel)>
    decreases total_records(s),
    via merged_decreases
{
    match smallest_head(first_keys(order, s)) {
        Some(i) => seq![(i, s[i][0])] + merged(order, left_behind(s, i)),
        None => Seq::empty(),
    }
}

#[via_fn]
proof fn merged_decreases(order: ViewOrder, s: Seq<Seq<RecordModel>>) {
    let heads = first_keys(order, s);
    law_smallest_comes_next(heads);
    if let Some(i) = smallest_head(heads) {
        lemma_total_shrinks(s, i);
    }
}

/// The records of one file in a merge.
pub open spec fn records_of(m: Seq<(int, RecordModel)>, stream: int) -> Seq<RecordModel>
    decreases m.len(),
{
    if m.len() == 0 {
        Seq::empty()
    } else if m[0].0 == stream {
        seq![m[0].1] + records_of(m.drop_first(), stream)
    } else {
        records_of(m.drop_first(), stream)
    }
}

/// A merge holds all records of every file, in the order of the file.
pub proof fn law_merge_keeps_every_file(order: ViewOrder, s: Seq<Seq<RecordModel>>, stream: int)
    requires
        0 <= stream < s.len(),
    ensures
        records_of(merged(order, s), stream) == s[stream],
    decreases total_records(s),
{
    let heads = first_keys(order, s);
    law_smallest_comes_next(heads);
    match smallest_head(heads) {
        Some(i) => {
            let rest = left_behind(s, i);
            lemma_total_shrinks(s, i);
            law_merge_keeps_every_file(order, rest, stream);
            let m = merged(order, s);
            assert(m.drop_first() =~= merged(order, rest));
            assert(m[0] == (i, s[i][0]));
            if i == stream {
                assert(seq![s[i][0]] + s[i].drop_first() =~= s[i]);
            }
        },
        None => {
            assert(heads[stream] is None);
            assert(s[stream] =~= Seq::empty());
        },
    }
}

/// What a merge is ordered by.
pub open spec fn rank(order: ViewOrder, r: RecordModel) -> (u64, u64) {
    if order == ViewOrder::MergeSeq {
        (r.seq, r.ts_unix_ns)
    } else {
        (r.ts_unix_ns, r.seq)
    }
}

/// A record does not come after another in a merge.
pub open spec fn ranked_before(order: ViewOrder, a: RecordModel, b: RecordModel) -> bool {
    let (x, y) = (rank(order, a), rank(order, b));
    x.0 < y.0 || (x.0 == y.0 && x.1 <= y.1)
}

/// Every file is in order.
pub open spec fn files_in_order(order: ViewOrder, s: Seq<Seq<RecordModel>>) -> bool {
    forall|f: int, i: int, j: int|
        0 <= f < s.len() && 0 <= i <= j < s[f].len() ==> ranked_before(
            order,
            #[trigger] s[f][i],
            #[trigger] s[f][j],
        )
}

/// A record comes before all that is left.
spec fn bounds(order: ViewOrder, r: RecordModel, s: Seq<Seq<RecordModel>>) -> bool {
    forall|f: int, i: int|
        0 <= f < s.len() && 0 <= i < s[f].len() ==> ranked_before(order, r, #[trigger] s[f][i])
}

proof fn lemma_merged_bounded(order: ViewOrder, r: RecordModel, s: Seq<Seq<RecordModel>>)
    requires
        order != ViewOrder::Concat,
        bounds(order, r, s),
    ensures
        forall|k: int|
            0 <= k < merged(order, s).len() ==> ranked_before(
                order,
                r,
                (#[trigger] merged(order, s)[k]).1,
            ),
    decreases total_records(s),
{
    let heads = first_keys(order, s);
    law_smallest_comes_next(heads);
    if let Some(i) = smallest_head(heads) {
        let rest = left_behind(s, i);
        lemma_total_shrinks(s, i);
        assert(bounds(order, r, rest)) by {
            assert forall|f: int, j: int| 0 <= f < rest.len() && 0 <= j < rest[f].len() implies ranked_before(
                order,
                r,
                #[trigger] rest[f][j],
            ) by {
                if f == i {
                    assert(rest[f][j] == s[f][j + 1]);
                } else {
                    assert(rest[f][j] == s[f][j]);
                }
            }
        }
        lemma_merged_bounded(order, r, rest);
        assert forall|k: int| 0 <= k < merged(order, s).len() implies ranked_before(
            order,
            r,
            (#[trigger] merged(order, s)[k]).1,
        ) by {
            if k == 0 {
                assert(s[i][0] == merged(order, s)[0].1);
            } else {
                assert(merged(order, s)[k] == merged(order, rest)[k - 1]);
            }
        }
    }
}

/// A merge of files that are in order is in order.
pub proof fn law_merge_is_in_order(order: ViewOrder, s: Seq<Seq<RecordModel>>, i: int, j: int)
    requires
        order != ViewOrder::Concat,
        files_in_order(order, s),
        s.len() <= usize::MAX,
        0 <= i <= j < merged(order, s).len(),
    ensures
        ranked_before(order, merged(order, s)[i].1, merged(order, s)[j].1),
    decreases total_records(s),
{
    let heads = first_keys(order, s);
    law_smallest_comes_next(heads);
    let at = smallest_head(heads)->0;
    let rest = left_behind(s, at);
    lemma_total_shrinks(s, at);
    let head = s[at][0];
    assert(heads[at] == Some(merge_key_of(order, head, at as usize, 0)));
    if i == 0 {
        if j > 0 {
            assert(bounds(order, head, rest)) by {
                assert forall|f: int, k: int| 0 <= f < rest.len() && 0 <= k < rest[f].len() implies ranked_before(
                    order,
                    head,
                    #[trigger] rest[f][k],
                ) by {
                    if f == at {
                        assert(rest[f][k] == s[f][k + 1]);
                        assert(ranked_before(order, s[f][0], s[f][k + 1]));
                    } else {
                        assert(rest[f][k] == s[f][k]);
                        assert(heads[f] == Some(merge_key_of(order, s[f][0], f as usize, 0)));
                        assert(!key_before(heads[f]->0, heads[at]->0));
                        assert(ranked_before(order, s[f][0], s[f][k]));
                        assert(ranked_before(order, head, s[f][0]));
                    }
                }
            }
            lemma_merged_bounded(order, head, rest);
            assert(merged(order, s)[j] == merged(order, rest)[j - 1]);
        }
    } else {
        assert(files_in_order(order, rest)) by {
            assert forall|f: int, a: int, b: int|
                0 <= f < rest.len() && 0 <= a <= b < rest[f].len() implies ranked_before(
                order,
                #[trigger] rest[f][a],
                #[trigger] rest[f][b],
            ) by {
                if f == at {
                    assert(rest[f][a] == s[f][a + 1] && rest[f][b] == s[f][b + 1]);
                } else {
                    assert(rest[f][a] == s[f][a] && rest[f][b] == s[f][b]);
                }
            }
        }
        law_merge_is_in_order(order, rest, i - 1, j - 1);
        assert(merged(order, s)[i] == merged(order, rest)[i - 1]);
        assert(merged(order, s)[j] == merged(order, rest)[j - 1]);
    }
}

/// The bytes of a number from the lowest to the highest.
pub open spec fn le_bytes(n: u64) -> Seq<u8> {
    seq![
        (n % 0x100) as u8,
        (n / 0x100 % 0x100) as u8,
        (n / 0x1_0000 % 0x100) as u8,
        (n / 0x100_0000 % 0x100) as u8,
        (n / 0x1_0000_0000 % 0x100) as u8,
        (n / 0x100_0000_0000 % 0x100) as u8,
        (n / 0x1_0000_0000_0000 % 0x100) as u8,
        (n / 0x100_0000_0000_0000 % 0x100) as u8,
    ]
}

/// Appends the bytes of a number from the lowest to the highest.
fn push_le(out: &mut Vec<u8>, n: u64)
    ensures
        final(out)@ == old(out)@ + le_bytes(n),
{
    let ghost before = out@;
    out.push((n % 0x100) as u8);
    out.push((n / 0x100 % 0x100) as u8);
    out.push((n / 0x1_0000 % 0x100) as u8);
    out.push((n / 0x100_0000 % 0x100) as u8);
    out.push((n / 0x1_0000_0000 % 0x100) as u8);
    out.push((n / 0x100_0000_0000 % 0x100) as u8);
    out.push((n / 0x1_0000_0000_0000 % 0x100) as u8);
    out.push((n / 0x100_0000_0000_0000 % 0x100) as u8);
    assert(out@ =~= before + le_bytes(n));
}

/// How many bytes stand before a payload in the spool.
pub const SPOOL_HEADER: u64 = 25;

/// A record in the spool; `kind` is the number of its type.
pub open spec fn spooled(kind: u8, r: RecordModel) -> Seq<u8> {
    seq![kind] + le_bytes(r.seq) + le_bytes(r.ts_unix_ns) + le_bytes(r.payload.len() as u64)
        + r.payload
}

/// What is remembered of a record in the spool.
pub open spec fn spool_meta(r: RecordModel, offset: u64, source_path: Seq<char>) -> MetaModel {
    MetaModel {
        offset,
        record_type: r.record_type,
        seq: r.seq,
        ts_unix_ns: r.ts_unix_ns,
        payload_len: r.payload.len() as u64,
        source_path,
    }
}

/// The bytes of a record in the spool, and what is remembered of it when they are
/// written at `offset`.
pub fn write_spool_record(kind: u8, record: &StreamRecord, offset: u64, source_path: &str) -> (r: (
    Vec<u8>,
    EntryMeta,
))
    ensures
        r.0@ == spooled(kind, record@),
        r.1@ == spool_meta(record@, offset, source_path@),
{
    let payload_len = record.payload.len() as u64;
    let mut out: Vec<u8> = Vec::new();
    out.push(kind);
    assert(out@ =~= seq![kind]);
    push_le(&mut out, record.seq);
    push_le(&mut out, record.ts_unix_ns);
    push_le(&mut out, payload_len);
    let mut payload = crate::otlp::copy_bytes(&record.payload);
    out.append(&mut payload);
    assert(out@ =~= spooled(kind, record@));
    let meta = EntryMeta {
        offset,
        record_type: record.record_type,
        seq: record.seq,
        ts_unix_ns: record.ts_unix_ns,
        payload_len,
        source_path: source_path.to_owned(),
    };
    (out, meta)
}

/// Where the payload of a record starts in the spool.
pub fn payload_offset(meta: &EntryMeta) -> (r: Option<u64>)
    ensures
        match r {
            Some(n) => n == meta@.offset + SPOOL_HEADER,
            None => meta@.offset + SPOOL_HEADER > u64::MAX,
        },
{
    meta.offset.checked_add(SPOOL_HEADER)
}

/// The payload that a spool holds for a record.
pub open spec fn payload_in(spool: Seq<u8>, m: MetaModel) -> Seq<u8> {
    spool.subrange(m.offset + SPOOL_HEADER, m.offset + SPOOL_HEADER + m.payload_len)
}

/// A record that is written at the end of a spool is read back, also when more is
/// written behind it.
pub proof fn law_spool_gives_back(
    before: Seq<u8>,
    kind: u8,
    r: RecordModel,
    source_path: Seq<char>,
    after: Seq<u8>,
)
    requires
        before.len() <= u64::MAX,
        r.payload.len() <= u64::MAX,
    ensures
        payload_in(
            before + spooled(kind, r) + after,
            spool_meta(r, before.len() as u64, source_path),
        ) == r.payload,
{
    let all = before + spooled(kind, r) + after;
    assert(payload_in(all, spool_meta(r, before.len() as u64, source_path)) =~= r.payload);
}

/// The sequence number and timestamp of the last record of the block that is being
/// written, if there is one.
#[derive(Debug, Clone, Copy, PartialEq, Eq)]
pub struct BlockOrder {
    pub last: Option<(u64, u64)>,
}

/// A block ends before a record that goes back in sequence number or time.
pub open spec fn ends_block(b: BlockOrder, pending: bool, seq: u64, ts_unix_ns: u64) -> bool {
    pending && match b.last {
        Some((last_seq, last_ts)) => seq < last_seq || ts_unix_ns < last_ts,
        None => false,
    }
}

impl BlockOrder {
    /// No block.
    #[verifier::allow_in_spec]
    pub fn new() -> Self
        returns
            (BlockOrder { last: None }),
    {
        BlockOrder { last: None }
    }

    /// Whether the block ends before a record. `pending` says whether a block is
    /// being written.
    pub fn must_flush(&mut self, pending: bool, seq: u64, ts_unix_ns: u64) -> (r: bool)
        ensures
            r == ends_block(*old(self), pending, seq, ts_unix_ns),
            *final(self) == if r {
                BlockOrder::new()
            } else {
                *old(self)
            },
    {
        if !pending {
            return false;
        }
        if let Some((last_seq, last_ts)) = self.last {
            if seq < last_seq || ts_unix_ns < last_ts {
                self.last = None;
                return true;
            }
        }
        false
    }

    /// A record has been written. `pending` says whether its block goes on.
    pub fn written(&mut self, pending: bool, seq: u64, ts_unix_ns: u64)
        ensures
            final(self).last == if pending {
                Some((seq, ts_unix_ns))
            } else {
                None
            },
    {
        self.last = if pending {
            Some((seq, ts_unix_ns))
        } else {
            None
        };
    }
}

/// Within a block neither sequence numbers nor timestamps go back.
pub proof fn law_blocks_ascend(b: BlockOrder, seq: u64, ts_unix_ns: u64)
    ensures
        !ends_block(b, true, seq, ts_unix_ns) <==> (b.last matches Some((s, t)) ==> s <= seq && t
            <= ts_unix_ns),
{
}

/// The name of a temporary file.
pub open spec fn temp_name(pid: u64, nanos: u128, attempt: u64) -> Seq<char> {
    "ljx-view-"@ + decimal(pid as nat) + "-"@ + decimal(nanos as nat) + "-"@ + decimal(
        attempt as nat,
    ) + ".tmp"@
}

/// The name of a temporary file.
pub fn temp_file_name(pid: u64, nanos: u128, attempt: u64) -> (r: String)
    ensures
        r@ == temp_name(pid, nanos, attempt),
{
    let mut r = "ljx-view-".to_owned();
    r.append(u64_text(pid).as_str());
    r.append("-");
    r.append(u128_text(nanos).as_str());
    r.append("-");
    r.append(u64_text(attempt).as_str());
    r.append(".tmp");
    r
}

} // verus!
