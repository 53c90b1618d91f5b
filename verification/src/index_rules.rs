//! What an index says of the records, and when it is used.
use vstd::prelude::*;
use vstd::utf8::encode_utf8;

use crate::bridge::hashing::xxh3;
use crate::dataset_index::{
    blocks_summary, capped_all, covers_record, law_merged_summary_covers, sidecar_name, IndexModel, empty_summary, fresh, index_may_match, record_services, record_severities,
    services_part, severities_part, summary_of, type_bit, CappedModel, DiskModel,
};
use crate::predicate::PredicateModel;
use crate::record::{RecordModel, RecordType};
use crate::text::numbers::hex_padded;
use crate::text::readback::law_padded_hex_reads_back;
use crate::text::str_set::with_member;

verus! {

proof fn lemma_other_bit(a: u8, x: RecordType, t: RecordType)
    requires
        a & type_bit(t) == 0,
        x != t,
    ensures
        (a | type_bit(x)) & type_bit(t) == 0,
{
    let b = type_bit(x);
    let c = type_bit(t);
    assert((a | b) & c == 0) by (bit_vector)
        requires
            a & c == 0,
            b == 1 || b == 2 || b == 4 || b == 8,
            c == 1 || c == 2 || c == 4 || c == 8,
            b != c,
    ;
}

proof fn lemma_no_type(records: Seq<RecordModel>, t: RecordType)
    requires
        forall|i: int| 0 <= i < records.len() ==> (#[trigger] records[i]).record_type != t,
    ensures
        summary_of(records).types & type_bit(t) == 0,
    decreases records.len(),
{
    if records.len() > 0 {
        let init = records.drop_last();
        assert forall|i: int| 0 <= i < init.len() implies (#[trigger] init[i]).record_type != t by {
            assert(records[i].record_type != t);
        }
        lemma_no_type(init, t);
        assert(records[records.len() - 1].record_type != t);
        lemma_other_bit(summary_of(init).types, records.last().record_type, t);
    } else {
        let c = type_bit(t);
        assert(0u8 & c == 0) by (bit_vector);
    }
}

/// Records of which none has the type that is asked for are ruled out.
pub proof fn law_other_types_are_ruled_out(
    records: Seq<RecordModel>,
    p: PredicateModel,
    t: RecordType,
)
    requires
        p.record_type == Some(t),
        forall|i: int| 0 <= i < records.len() ==> (#[trigger] records[i]).record_type != t,
    ensures
        !index_may_match(summary_of(records), p),
{
    lemma_no_type(records, t);
}

/// Each type of record has a bit of its own.
pub proof fn law_types_have_their_own_bits(s: RecordType, t: RecordType)
    ensures
        type_bit(s) & type_bit(t) != 0 <==> s == t,
{
    let b = type_bit(s);
    let c = type_bit(t);
    assert(b & c != 0 <==> b == c) by (bit_vector)
        requires
            b == 1 || b == 2 || b == 4 || b == 8,
            c == 1 || c == 2 || c == 4 || c == 8,
    ;
}

/// A summary starts with the sequence number and the time of the first record
/// and ends with those of the last.
pub proof fn law_summary_spans_its_records(records: Seq<RecordModel>)
    requires
        records.len() > 0,
    ensures
        summary_of(records).first_seq == Some(records.first().seq),
        summary_of(records).last_seq == Some(records.last().seq),
        summary_of(records).first_ts == Some(records.first().ts_unix_ns),
        summary_of(records).last_ts == Some(records.last().ts_unix_ns),
    decreases records.len(),
{
    let init = records.drop_last();
    if init.len() > 0 {
        law_summary_spans_its_records(init);
        assert(init.first() == records.first());
    } else {
        assert(summary_of(init) == empty_summary());
    }
}

/// Records that lie before the range that is asked for, or behind it, are ruled
/// out.
pub proof fn law_other_ranges_are_ruled_out(records: Seq<RecordModel>, p: PredicateModel)
    requires
        records.len() > 0,
    ensures
        p.seq_min matches Some(min) ==> records.last().seq < min ==> !index_may_match(
            summary_of(records),
            p,
        ),
        p.seq_max matches Some(max) ==> records.first().seq > max ==> !index_may_match(
            summary_of(records),
            p,
        ),
        p.ts_min matches Some(min) ==> records.last().ts_unix_ns < min ==> !index_may_match(
            summary_of(records),
            p,
        ),
        p.ts_max matches Some(max) ==> records.first().ts_unix_ns > max ==> !index_may_match(
            summary_of(records),
            p,
        ),
{
    law_summary_spans_its_records(records);
}

/// What is listed was given, and no list holds more than sixteen values.
pub open spec fn lists_only(c: CappedModel, values: Seq<Seq<char>>) -> bool {
    &&& c.values.len() <= 16
    &&& forall|x: Seq<char>| #[trigger] c.values.contains(x) ==> values.contains(x)
}

proof fn lemma_member_of(s: Seq<Seq<char>>, x: Seq<char>, y: Seq<char>)
    ensures
        with_member(s, x).contains(y) <==> s.contains(y) || x == y,
        with_member(s, x).len() <= s.len() + 1,
        s.contains(x) ==> with_member(s, x).len() == s.len(),
{
    if !s.contains(x) {
        let t = s.push(x);
        if s.contains(y) {
            let i = choose|i: int| 0 <= i < s.len() && s[i] == y;
            assert(t[i] == y);
        }
        assert(t[s.len() as int] == x);
        if t.contains(y) && x != y {
            let i = choose|i: int| 0 <= i < t.len() && t[i] == y;
            assert(s[i] == y);
        }
    }
}

proof fn lemma_capped_lists(c: CappedModel, values: Seq<Seq<char>>, before: Seq<Seq<char>>)
    requires
        lists_only(c, before),
    ensures
        lists_only(capped_all(c, values), before + values),
        c.complete && c.values.len() + values.len() <= 16 ==> capped_all(c, values).complete
            && capped_all(c, values).values.len() <= c.values.len() + values.len(),
    decreases values.len(),
{
    if values.len() > 0 {
        let init = values.drop_last();
        let x = values.last();
        lemma_capped_lists(c, init, before);
        let d = capped_all(c, init);
        let e = capped_all(c, values);
        lemma_member_of(d.values, x, x);
        assert forall|y: Seq<char>| #[trigger] e.values.contains(y) implies (before
            + values).contains(y) by {
            lemma_member_of(d.values, x, y);
            if d.values.contains(y) {
                assert((before + init).contains(y));
                let i = choose|i: int| 0 <= i < (before + init).len() && (before + init)[i] == y;
                assert((before + values)[i] == y);
            } else {
                assert((before + values)[before.len() + values.len() - 1] == x);
            }
        }
    } else {
        assert(before + values =~= before);
    }
}

/// The services that records name.
pub open spec fn all_services(records: Seq<RecordModel>) -> Seq<Seq<char>>
    decreases records.len(),
{
    if records.len() == 0 {
        Seq::empty()
    } else {
        all_services(records.drop_last()) + record_services(records.last())
    }
}

/// The severities that records name.
pub open spec fn all_severities(records: Seq<RecordModel>) -> Seq<Seq<char>>
    decreases records.len(),
{
    if records.len() == 0 {
        Seq::empty()
    } else {
        all_severities(records.drop_last()) + record_severities(records.last())
    }
}

/// A summary lists no service and no severity that no record names, and at most
/// sixteen of each; and where the records name no more than that, its lists are
/// complete.
pub proof fn law_summary_lists_what_is_named(records: Seq<RecordModel>)
    ensures
        lists_only(services_part(summary_of(records)), all_services(records)),
        lists_only(severities_part(summary_of(records)), all_severities(records)),
        all_services(records).len() <= 16 ==> summary_of(records).services_complete && summary_of(
            records,
        ).services.len() <= all_services(records).len(),
        all_severities(records).len() <= 16 ==> summary_of(records).severities_complete
            && summary_of(records).severities.len() <= all_severities(records).len(),
    decreases records.len(),
{
    if records.len() > 0 {
        let init = records.drop_last();
        let before = summary_of(init);
        law_summary_lists_what_is_named(init);
        lemma_capped_lists(
            services_part(before),
            record_services(records.last()),
            all_services(init),
        );
        lemma_capped_lists(
            severities_part(before),
            record_severities(records.last()),
            all_severities(init),
        );
    }
}

/// An index file is used exactly where it is of the current version and was
/// made for the same path, the same size and the same time of change.
pub proof fn law_stale_indexes_are_not_used(
    d: DiskModel,
    path: Seq<char>,
    size: u64,
    modified_ns: Option<u64>,
)
    ensures
        d.version != 1 ==> !fresh(d, path, size, modified_ns),
        d.source_path != path ==> !fresh(d, path, size, modified_ns),
        d.index.size != size ==> !fresh(d, path, size, modified_ns),
        d.index.modified_ns != modified_ns ==> !fresh(d, path, size, modified_ns),
        d.version == 1 && d.source_path == path && d.index.size == size && d.index.modified_ns
            == modified_ns ==> fresh(d, path, size, modified_ns),
{
}

/// The summary of a file starts where its first block starts and ends where its
/// last block ends.
pub proof fn law_file_summary_spans_its_blocks(blocks: Seq<IndexModel>)
    requires
        blocks.len() > 0,
        forall|i: int|
            0 <= i < blocks.len() ==> (#[trigger] blocks[i]).first_seq is Some
                && blocks[i].last_seq is Some && blocks[i].first_ts is Some && blocks[i].last_ts
                is Some,
    ensures
        blocks_summary(blocks).first_seq == blocks.first().first_seq,
        blocks_summary(blocks).last_seq == blocks.last().last_seq,
        blocks_summary(blocks).first_ts == blocks.first().first_ts,
        blocks_summary(blocks).last_ts == blocks.last().last_ts,
    decreases blocks.len(),
{
    let init = blocks.drop_last();
    assert(blocks[blocks.len() - 1].first_seq is Some);
    if init.len() > 0 {
        assert forall|i: int| 0 <= i < init.len() implies (#[trigger] init[i]).first_seq is Some
            && init[i].last_seq is Some && init[i].first_ts is Some && init[i].last_ts
            is Some by {
            assert(blocks[i].first_seq is Some);
        }
        law_file_summary_spans_its_blocks(init);
        assert(init.first() == blocks.first());
        assert(blocks[0].first_seq is Some);
    } else {
        assert(blocks_summary(init) == empty_summary());
    }
}

/// The summary of the blocks so far covers each record that the last of them
/// covers, where the first does not start behind the record.
pub proof fn law_file_summary_covers_its_last_block(blocks: Seq<IndexModel>, r: RecordModel)
    requires
        blocks.len() > 0,
        covers_record(blocks.last(), r),
        forall|i: int|
            0 <= i < blocks.len() ==> (#[trigger] blocks[i]).first_seq is Some
                && blocks[i].last_seq is Some && blocks[i].first_ts is Some && blocks[i].last_ts
                is Some,
        blocks.first().first_seq->0 <= r.seq,
        blocks.first().first_ts->0 <= r.ts_unix_ns,
    ensures
        covers_record(blocks_summary(blocks), r),
{
    let init = blocks.drop_last();
    if init.len() > 0 {
        assert forall|i: int| 0 <= i < init.len() implies (#[trigger] init[i]).first_seq is Some
            && init[i].last_seq is Some && init[i].first_ts is Some && init[i].last_ts
            is Some by {
            assert(blocks[i].first_seq is Some);
        }
        law_file_summary_spans_its_blocks(init);
        assert(init.first() == blocks.first());
    } else {
        assert(blocks_summary(init) == empty_summary());
    }
    law_merged_summary_covers(blocks_summary(init), blocks.last(), r);
}

/// A file has the name of its index from its own path alone; two paths share one
/// only where their hashes are equal, and every such name ends alike.
pub proof fn law_index_names(a: Seq<char>, b: Seq<char>)
    ensures
        sidecar_name(a) == sidecar_name(b) <==> xxh3(encode_utf8(a)) == xxh3(encode_utf8(b)),
        sidecar_name(a).len() >= 7,
        sidecar_name(a).skip(sidecar_name(a).len() - 7) == ".ljxidx"@,
{
    reveal_strlit(".ljxidx");
    let m = xxh3(encode_utf8(a)) as nat;
    let n = xxh3(encode_utf8(b)) as nat;
    law_padded_hex_reads_back(m, 16);
    law_padded_hex_reads_back(n, 16);
    if sidecar_name(a) == sidecar_name(b) {
        let k = sidecar_name(a).len() - 7;
        assert(sidecar_name(a).take(k) =~= hex_padded(m, 16));
        assert(sidecar_name(b).take(k) =~= hex_padded(n, 16));
    }
    assert(sidecar_name(a).skip(sidecar_name(a).len() - 7) =~= ".ljxidx"@);
}

} // verus!
