//! How the screen starts, and what it says of scans, exports and runs.
use vstd::prelude::*;

use crate::bridge::paths::{path_stem_of, same_components};
use crate::commands::view::detail::full_text;
use crate::commands::view::field_filter::filter_note;
use crate::commands::view::prompts::{export_opened, running_phase, ExportModel};
use crate::commands::view::state::{
    first_screen, offered_formats, offered_stem, scan_begun, scan_status, tail_begun, with_detail,
    EffectModel, ViewModel,
};
use crate::commands::view::types::{
    plugin_choices, raised, ChoiceModel, DetailModel, ExportField, Focus, ViewOrder,
};
use crate::commands::view::updates::{
    dedup_begun, dedup_summary, on_file, plugin_exporting, reads_file, taken_note, writing_phase,
};
use crate::dataset::Dataset;
use crate::dedup::{DedupMatchMode, DedupMode};
use crate::exporter::{
    format_members, kind_label, status_text, unknown_format_text, PluginModel, RegistryModel,
};
use crate::predicate::{FilterMode, FilterModel};
use crate::record::RecordType;
use crate::text::numbers::{decimal, decimal_int};
use crate::text::seqs::joined;
use crate::text::str_set::{law_sorted_members, sorted_members};

verus! {

/// The screen starts with an empty query for texts that has the keys, without
/// results, filters or popups, and follows the file where that is asked for.
pub proof fn law_first_screen(
    dataset: Dataset,
    order: ViewOrder,
    hex: bool,
    tail: bool,
    formats: Seq<ChoiceModel>,
)
    ensures
        ({
            let m = first_screen(dataset, order, hex, tail, formats);
            &&& m.focus == Focus::Search
            &&& m.filter_mode == FilterMode::Strings
            &&& m.query_input.len() == 0 && m.applied_query.len() == 0
            &&& m.list.entries.len() == 0 && m.list.selected == 0 && m.scan is None
            &&& m.active_filter.services is None && m.active_filter.severities is None
            &&& m.modal.text is None && m.field_filter is None && !m.details_visible
            &&& m.view_order == order && m.hex_payload == hex && m.dataset == dataset
            &&& m.tail_on_launch == tail && !m.tail_mode
            &&& m.export.formats == formats && m.export.range.text == "all"@
            &&& m.dedup.behavior == DedupMode::Distinct && m.dedup.match_mode
                == DedupMatchMode::Hash2 && !m.dedup.running && !m.export.running
        }),
{
}

/// A scan that begins has found nothing yet, and the status says what is looked
/// for, in how many files and in which order.
pub proof fn law_scans_begin(m: ViewModel)
    ensures
        ({
            let next = scan_begun(m);
            &&& next.scan is Some && !next.scan->0.finished && next.scan->0.scanned == 0
                && next.scan->0.matched == 0
            &&& next.status == scan_status(
                m.dataset.spec_paths().len(),
                m.applied_query,
                m.view_order,
                None,
            )
            &&& next.list == m.list && next.applied_query == m.applied_query
        }),
        scan_status(1, Seq::empty(), ViewOrder::Concat, None) == "Scanning "@ + "all records"@
            + " ["@ + "concat"@ + "]"@,
        scan_status(1, Seq::empty(), ViewOrder::MergeSeq, None) == "Scanning "@ + "all records"@
            + " ["@ + "merge-seq"@ + "]"@,
        scan_status(1, Seq::empty(), ViewOrder::MergeTs, None) == "Scanning "@ + "all records"@
            + " ["@ + "merge-ts"@ + "]"@,
{
}

/// The status of a scan of several files tells how many, and while records come
/// in how many have matched.
pub proof fn law_scan_status(files: nat, order: ViewOrder, n: nat)
    requires
        files != 1,
    ensures
        scan_status(files, Seq::empty(), order, None) == "Scanning "@ + ("all records"@
            + " across "@ + decimal(files) + " files"@) + " ["@ + order.spec_label() + "]"@,
        scan_status(files, Seq::empty(), order, Some(n)) == scan_status(
            files,
            Seq::empty(),
            order,
            None,
        ) + ": "@ + decimal(n) + " matches buffered"@,
{
}

/// A record that was loaded is the one that is shown: in the info pane, and in
/// the popup where that is open, both from their tops.
pub proof fn law_loaded_records_are_shown(m: ViewModel, d: DetailModel)
    ensures
        ({
            let next = with_detail(m, d);
            &&& next.list.detail == Some(d)
            &&& next.list.detail_scroll == 0
            &&& m.focus == Focus::Modal ==> next.modal.text == Some(full_text(d, m.hex_payload))
                && next.modal.scroll == 0
            &&& m.focus != Focus::Modal ==> next.modal == m.modal
            &&& next.list.selected == m.list.selected && next.list.entries == m.list.entries
        }),
{
}

/// Following a file begins at its last record, which is marked.
pub proof fn law_following_begins_at_the_end(m: ViewModel)
    requires
        0 < m.list.entries.len() <= usize::MAX,
    ensures
        ({
            let (next, effect) = tail_begun(m);
            &&& next.tail_mode
            &&& next.list.selected == m.list.entries.len() - 1
            &&& next.tail_marker is Some && next.tail_marker->0 == m.list.entries.len() - 1
            &&& effect == EffectModel::LoadDetail
            &&& next.list.entries == m.list.entries
        }),
{
}

proof fn lemma_plugin_choices(names: Seq<Seq<char>>, x: Seq<char>)
    ensures
        (exists|i: int|
            0 <= i < plugin_choices(names).len() && (#[trigger] plugin_choices(names)[i]).name == x)
            <==> names.contains(x) && x != "ndjson"@,
        forall|i: int|
            0 <= i < plugin_choices(names).len() ==> (#[trigger] plugin_choices(
                names,
            )[i]).default_extension == plugin_choices(names)[i].name && plugin_choices(
                names,
            )[i].title == raised(plugin_choices(names)[i].name),
    decreases names.len(),
{
    let c = plugin_choices(names);
    if names.len() > 0 {
        let init = names.drop_last();
        let before = plugin_choices(init);
        lemma_plugin_choices(init, x);
        if exists|i: int| 0 <= i < before.len() && (#[trigger] before[i]).name == x {
            let i = choose|i: int| 0 <= i < before.len() && (#[trigger] before[i]).name == x;
            assert(c[i].name == x);
            let j = choose|j: int| 0 <= j < init.len() && init[j] == x;
            assert(names[j] == x);
        }
        if exists|i: int| 0 <= i < c.len() && (#[trigger] c[i]).name == x {
            let i = choose|i: int| 0 <= i < c.len() && (#[trigger] c[i]).name == x;
            if i < before.len() {
                assert(before[i].name == x);
            } else {
                assert(names[names.len() - 1] == x);
            }
        }
        if names.contains(x) && x != "ndjson"@ {
            let i = choose|i: int| 0 <= i < names.len() && names[i] == x;
            if i < init.len() {
                assert(init[i] == x);
            } else {
                assert(c[c.len() - 1].name == x);
            }
        }
    }
}

/// The export prompt offers `ndjson` first, and then the formats of the
/// plugins, each with its name as the extension.
pub proof fn law_formats_are_offered(r: RegistryModel, x: Seq<char>)
    ensures
        offered_formats(r).len() > 0,
        offered_formats(r)[0].name == "ndjson"@,
        offered_formats(r)[0].default_extension == "ndjson"@,
        x != "ndjson"@ ==> ((exists|i: int|
            0 <= i < offered_formats(r).len() && (#[trigger] offered_formats(r)[i]).name == x)
            <==> format_members(r.plugins).contains(x)),
{
    let all = offered_formats(r);
    let names = sorted_members(format_members(r.plugins));
    law_sorted_members(format_members(r.plugins));
    lemma_plugin_choices(names, x);
    let more = plugin_choices(names);
    if x != "ndjson"@ {
        if exists|i: int| 0 <= i < all.len() && (#[trigger] all[i]).name == x {
            let i = choose|i: int| 0 <= i < all.len() && (#[trigger] all[i]).name == x;
            assert(i > 0);
            assert(more[i - 1].name == x);
        }
        if exists|i: int| 0 <= i < more.len() && (#[trigger] more[i]).name == x {
            let i = choose|i: int| 0 <= i < more.len() && (#[trigger] more[i]).name == x;
            assert(all[i + 1].name == x);
        }
    }
}

/// The export prompt opens at the format. A name that was never typed is made
/// of the name of the input and the extension of the format; an empty range
/// means everything.
pub proof fn law_export_prompt_opens(m: ExportModel, formats: Seq<ChoiceModel>, stem: Seq<char>)
    requires
        0 <= m.format_index < formats.len(),
    ensures
        ({
            let next = export_opened(m, formats, stem);
            &&& next.field == ExportField::Format
            &&& next.formats == formats
            &&& next.message is None
            &&& m.filename.text.len() == 0 ==> next.filename.text == stem + "."@
                + formats[m.format_index].default_extension
            &&& m.range.text.len() == 0 ==> next.range.text == "all"@
            &&& m.range.text.len() > 0 ==> next.range.text == m.range.text
            &&& next.range.cursor == next.range.text.len()
            &&& next.filename.cursor == next.filename.text.len()
        }),
{
}

/// Names that are offered come from the only input, or say that there are
/// several.
pub proof fn law_offered_names(d: Dataset, fallback: Seq<char>)
    ensures
        d.spec_paths().len() != 1 ==> offered_stem(d, fallback) == "dataset"@,
        d.spec_paths().len() == 1 && path_stem_of(d.spec_paths()[0]) is Some ==> offered_stem(
            d,
            fallback,
        ) == path_stem_of(d.spec_paths()[0])->0,
        d.spec_paths().len() == 1 && path_stem_of(d.spec_paths()[0]) is None ==> offered_stem(
            d,
            fallback,
        ) == fallback,
{
}

/// A file is one of the inputs under any spelling of its path.
pub proof fn law_inputs_are_recognised(d: Dataset, path: Seq<char>, i: int)
    requires
        0 <= i < d.spec_paths().len(),
        same_components(d.spec_paths()[i], path),
    ensures
        reads_file(d, path),
{
}

/// What is said of a file that exists, and of running exports and dedup runs.
pub proof fn law_running_work_is_told(m: ViewModel, rows: nat, format: Seq<char>, path: Seq<char>)
    ensures
        taken_note(path) == "File "@ + path + " already exist"@,
        ({
            let e = plugin_exporting(m, rows, format);
            &&& e.focus == Focus::ExportProgress && e.export.running
            &&& e.list == m.list
        }),
        ({
            let d = dedup_begun(m, path);
            &&& d.focus == Focus::DedupProgress && d.dedup.running
            &&& d.dedup.output_path == Some(path) && d.dedup.completion is None
            &&& d.dedup.behavior == m.dedup.behavior && d.dedup.match_mode == m.dedup.match_mode
            &&& d.list == m.list
        }),
        running_phase(DedupMode::Distinct, DedupMatchMode::Hash2) == "running "@ + "distinct"@
            + " / "@ + "canon"@,
        running_phase(DedupMode::Collapse, DedupMatchMode::Exact) == "running "@ + "collapse"@
            + " / "@ + "exact"@,
        running_phase(DedupMode::Collapse, DedupMatchMode::Full) == "running "@ + "collapse"@
            + " / "@ + "full"@,
{
}

/// Progress is told as how many of how many, never more than all.
pub proof fn law_progress_is_told(processed: nat, total: nat, groups: nat, percent: Seq<char>)
    requires
        total > 0,
    ensures
        processed <= total ==> writing_phase(processed, total) == "Writing records "@ + decimal(
            processed,
        ) + "/"@ + decimal(total),
        processed > total ==> writing_phase(processed, total) == "Writing records "@ + decimal(
            total,
        ) + "/"@ + decimal(total),
        dedup_summary(total, groups, percent) == decimal(total) + " records \u{2192} "@ + decimal(
            groups,
        ) + " groups ("@ + percent + "% reduction)"@,
{
}

/// Opening a file clears the query and the results, and makes it the input.
pub proof fn law_opening_a_file(m: ViewModel, path: Seq<char>, dataset: Dataset)
    ensures
        ({
            let next = on_file(m, path, dataset);
            &&& next.input == path && next.dataset == dataset
            &&& next.query_input.len() == 0 && next.applied_query.len() == 0
            &&& next.list.entries.len() == 0 && next.scan is None && next.list.detail is None
            &&& next.focus == Focus::List && !next.tail_mode
        }),
{
}

/// The note on a filter names what is chosen.
pub proof fn law_filters_are_noted(a: Seq<Seq<char>>, b: Seq<Seq<char>>)
    ensures
        filter_note(FilterModel { severities: None, services: None }) == "Field filter cleared"@,
        filter_note(FilterModel { severities: Some(a), services: None }) == "Field filter: "@ + (
        "severity: "@ + joined(a, ", "@)),
        filter_note(FilterModel { severities: None, services: Some(b) }) == "Field filter: "@ + (
        "service: "@ + joined(b, ", "@)),
        filter_note(FilterModel { severities: Some(a), services: Some(b) }) == "Field filter: "@
            + (("severity: "@ + joined(a, ", "@)) + " | "@ + ("service: "@ + joined(b, ", "@))),
{
}

/// An unknown format is named, with the formats that there are, and where
/// exporters were looked for.
pub proof fn law_unknown_formats_are_named(r: RegistryModel, requested: Seq<char>)
    requires
        r.diagnostics.len() == 0,
    ensures
        ({
            let start = "unknown export format `"@ + requested + "`; available formats: "@
                + joined(sorted_members(format_members(r.plugins)), ", "@);
            &&& r.search_roots.len() == 0 ==> unknown_format_text(r, requested) == start
            &&& r.search_roots.len() > 0 ==> unknown_format_text(r, requested) == start
                + "; searched: "@ + joined(r.search_roots, " -> "@)
        }),
{
}

/// A failure of a plugin names the plugin, what it failed to do, at which record
/// and with which status.
pub proof fn law_plugin_failures_are_told(
    p: PluginModel,
    status: i32,
    seq: u64,
    t: RecordType,
    action: Seq<char>,
    detail: Seq<char>,
)
    requires
        detail.len() > 0,
    ensures
        ({
            let start = "exporter `"@ + p.display_name + "` from "@ + p.path + " failed to "@
                + action;
            &&& status_text(p, status, None, action, detail) == start + ": "@ + detail
                + " (status "@ + decimal_int(status as int) + ")"@
            &&& status_text(p, status, Some((seq, t)), action, detail) == start + " at seq "@
                + decimal(seq as nat) + " ("@ + kind_label(t) + ")"@ + ": "@ + detail
                + " (status "@ + decimal_int(status as int) + ")"@
        }),
{
}

} // verus!
