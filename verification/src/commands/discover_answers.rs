//! What a discovery answers, and when it is refused.
use vstd::prelude::*;

use crate::bridge::patterns::{bytes_regex_error, regex_escaped};
use crate::cli::DiscoverArgs;
use crate::commands::discover::{
    discover_predicate_of, file_scan, filter_of, is_top, machine_error_of, next_page, scans_of,
    summary_fits, summary_of_files, tells, DiscoverResponse, FileSummary, ScanModel,
};
use crate::commands::discover_counts::{law_totals_are_sums, sum_of};
use crate::commands::view::reached::law_distinct_texts;
use crate::dataset::DatasetEntry;
use crate::error::{error_text, ErrorModel};
use crate::predicate::{
    asked_matchers, asked_predicate, build_error, first_refused, some_empty, MatcherModel,
    PredicateArgs, PredicateModel,
};
use crate::record::RecordModel;
use crate::text::strings::texts;
use crate::text::tally::{rows_bag, rows_view};

verus! {

/// The answer tells which files were read, adds up what they hold, and lists
/// them in order.
pub proof fn law_answers_add_up(
    r: DiscoverResponse,
    args: DiscoverArgs,
    files_total: nat,
    scans: Seq<ScanModel>,
    text: Seq<char>,
    i: int,
)
    requires
        tells(r, args, files_total, scans),
    ensures
        r.format_version == 1,
        r.input.files_total == files_total,
        r.input.files_scanned == scans.len(),
        r.input.offset == args.offset,
        r.input.limit == args.limit,
        r.records_scanned == sum_of(scans, |x: ScanModel| x.row.scanned),
        r.records_matched == sum_of(scans, |x: ScanModel| x.row.matched),
        r.log_events == sum_of(scans, |x: ScanModel| x.row.events),
        rows_bag(rows_view(r.severity_breakdown@)).count(text) == sum_of(
            scans,
            |x: ScanModel| x.severities.count(text),
        ),
        r.files@.len() == scans.len(),
        0 <= i < scans.len() ==> r.files@[i]@ == scans[i].row,
        is_top(rows_view(r.top_services@), summary_of_files(scans).services, args.top_services),
        r.time_span_unix_ns == summary_of_files(scans).time,
{
    law_totals_are_sums(scans, text);
    let files = r.files@.map_values(|f: FileSummary| f@);
    let rows = scans.map_values(|s: ScanModel| s.row);
    assert(files == rows);
    assert(files.len() == r.files@.len());
    assert(rows.len() == scans.len());
    if 0 <= i < scans.len() {
        assert(files[i] == r.files@[i]@);
        assert(rows[i] == scans[i].row);
    }
}

/// The answer names the offset of the next page exactly where files are left.
pub proof fn law_next_page_is_named(offset: nat, scanned: nat, total: nat)
    requires
        total <= usize::MAX,
    ensures
        offset + scanned < total ==> next_page(offset, scanned, total) is Some && next_page(
            offset,
            scanned,
            total,
        )->0 == offset + scanned,
        offset + scanned >= total ==> next_page(offset, scanned, total) is None,
{
}

/// Each file of the page is scanned with its own records.
pub proof fn law_each_file_is_scanned(
    entries: Seq<DatasetEntry>,
    records: Seq<Seq<RecordModel>>,
    p: PredicateModel,
    i: int,
)
    requires
        0 <= i < entries.len(),
    ensures
        scans_of(entries, records, p).len() == entries.len(),
        scans_of(entries, records, p)[i] == file_scan(entries[i], records[i], p),
{
}

/// A list of values filters for the values on it; an empty list does not
/// filter.
pub proof fn law_listed_values_are_asked_for(values: Seq<String>, x: Seq<char>)
    ensures
        filter_of(values) is None <==> values.len() == 0,
        filter_of(values) matches Some(f) ==> (f.contains(x) <==> exists|i: int|
            0 <= i < values.len() && (#[trigger] values[i])@ == x),
{
    let all = texts(values);
    law_distinct_texts(all, x);
    if all.contains(x) {
        let i = choose|i: int| 0 <= i < all.len() && all[i] == x;
        assert(values[i]@ == x);
    }
    if exists|i: int| 0 <= i < values.len() && (#[trigger] values[i])@ == x {
        let i = choose|i: int| 0 <= i < values.len() && (#[trigger] values[i])@ == x;
        assert(all[i] == x);
    }
}

/// A discovery is refused where it asks for no file at all, where a pattern
/// does not compile, and where a service or a severity is empty. Otherwise it
/// asks of records what its predicate asks, and of payloads that they name the
/// services and severities that are listed.
pub proof fn law_discoveries_ask(args: DiscoverArgs)
    ensures
        discover_predicate_of(args) is Ok <==> {
            &&& args.limit != Some(0usize)
            &&& build_error(args.predicate) is None
            &&& forall|i: int| 0 <= i < args.services@.len() ==> (#[trigger] args.services@[i])@.len()
                > 0
            &&& forall|i: int|
                0 <= i < args.severities@.len() ==> (#[trigger] args.severities@[i])@.len() > 0
        },
        discover_predicate_of(args) matches Ok(p) ==> {
            let q = asked_predicate(args.predicate);
            &&& p.fields.services == filter_of(args.services@)
            &&& p.fields.severities == filter_of(args.severities@)
            &&& p.record_type == q.record_type
            &&& p.seq_min == q.seq_min
            &&& p.seq_max == q.seq_max
            &&& p.ts_min == q.ts_min
            &&& p.ts_max == q.ts_max
            &&& p.matchers == q.matchers
        },
{
    lemma_some_empty(args.services@);
    lemma_some_empty(args.severities@);
}

proof fn lemma_some_empty(values: Seq<String>)
    ensures
        some_empty(texts(values)) <==> exists|i: int|
            0 <= i < values.len() && (#[trigger] values[i])@.len() == 0,
{
    let all = texts(values);
    if some_empty(all) {
        let i = choose|i: int| 0 <= i < all.len() && (#[trigger] all[i]).len() == 0;
        assert(values[i]@.len() == 0);
    }
    if exists|i: int| 0 <= i < values.len() && (#[trigger] values[i])@.len() == 0 {
        let i = choose|i: int| 0 <= i < values.len() && (#[trigger] values[i])@.len() == 0;
        assert(all[i].len() == 0);
    }
}

/// For a machine, an error keeps its text and gets a code; one that has a code
/// keeps it.
pub proof fn law_errors_get_a_code(e: ErrorModel)
    ensures
        error_text(machine_error_of(e)) == error_text(e),
        machine_error_of(e) is JsonUsage,
        e is JsonUsage ==> machine_error_of(e) == e,
        e !is JsonUsage ==> machine_error_of(e)->code == "discover_failed"@,
{
}

/// A sum fits where each of its numbers fits in 64 bits.
pub proof fn law_what_fits(s: Seq<ScanModel>)
    ensures
        summary_fits(summary_of_files(s)) <==> summary_of_files(s).scanned <= u64::MAX
            && summary_of_files(s).matched <= u64::MAX && summary_of_files(s).events <= u64::MAX,
{
}

proof fn lemma_first_refused(m: Seq<MatcherModel>)
    ensures
        0 <= first_refused(m) <= m.len(),
        forall|i: int|
            0 <= i < first_refused(m) ==> bytes_regex_error(
                (#[trigger] m[i]).source,
                m[i].ignore_case,
            ) is None,
        first_refused(m) < m.len() ==> bytes_regex_error(
            m[first_refused(m)].source,
            m[first_refused(m)].ignore_case,
        ) is Some,
    decreases m.len(),
{
    if m.len() > 0 && bytes_regex_error(m[0].source, m[0].ignore_case) is None {
        let rest = m.drop_first();
        lemma_first_refused(rest);
        assert forall|i: int| 0 <= i < first_refused(m) implies bytes_regex_error(
            (#[trigger] m[i]).source,
            m[i].ignore_case,
        ) is None by {
            if i > 0 {
                assert(m[i] == rest[i - 1]);
            }
        }
    }
}

/// A predicate compiles exactly where each of its patterns does: the regular
/// expressions as they are, the literal texts with what is special in them
/// taken literally.
pub proof fn law_patterns_must_compile(a: PredicateArgs)
    ensures
        build_error(a) is None <==> {
            &&& forall|i: int|
                0 <= i < a.grep@.len() ==> bytes_regex_error(
                    (#[trigger] a.grep@[i])@,
                    a.ignore_case,
                ) is None
            &&& forall|i: int|
                0 <= i < a.fixed_string@.len() ==> bytes_regex_error(
                    regex_escaped((#[trigger] a.fixed_string@[i])@),
                    a.ignore_case,
                ) is None
        },
{
    let m = asked_matchers(a);
    let n = a.grep@.len() as int;
    lemma_first_refused(m);
    assert(m.len() == n + a.fixed_string@.len());
    assert forall|i: int| 0 <= i < n implies m[i].source == (#[trigger] a.grep@[i])@
        && m[i].ignore_case == a.ignore_case by {
        assert(texts(a.grep@)[i] == a.grep@[i]@);
    }
    assert forall|i: int| 0 <= i < a.fixed_string@.len() implies m[n + i].source == regex_escaped(
        (#[trigger] a.fixed_string@[i])@,
    ) && m[n + i].ignore_case == a.ignore_case by {
        assert(texts(a.fixed_string@)[i] == a.fixed_string@[i]@);
    }
    if build_error(a) is Some {
        let k = first_refused(m);
        if k < n {
            assert(m[k].source == a.grep@[k]@);
        } else {
            assert(m[n + (k - n)].source == regex_escaped(a.fixed_string@[k - n]@));
        }
    } else {
        assert forall|i: int| 0 <= i < n implies bytes_regex_error(
            (#[trigger] a.grep@[i])@,
            a.ignore_case,
        ) is None by {
            assert(bytes_regex_error(m[i].source, m[i].ignore_case) is None);
        }
        assert forall|i: int| 0 <= i < a.fixed_string@.len() implies bytes_regex_error(
            regex_escaped((#[trigger] a.fixed_string@[i])@),
            a.ignore_case,
        ) is None by {
            assert(bytes_regex_error(m[n + i].source, m[n + i].ignore_case) is None);
        }
    }
}

} // verus!
