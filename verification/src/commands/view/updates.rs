//! What the workers report, and what comes of it.
use vstd::prelude::*;

use crate::bridge::paths::{path_name, path_name_of, same_components, same_path};
use crate::commands::view::detail::render_modal_message;
use crate::commands::view::keys::{is_letter, KeyCode, KeyPress};
use crate::commands::view::field_filter::CatalogModel;
use crate::commands::view::prompts::{DedupModel, ExportModel};
use crate::commands::view::state::{
    describe_scan, export_message, focused, key_pressed, save_message, saying, scan_reset,
    scan_status, state_ok, tail_asked, tail_begun, tail_stopped, with_detail, Effect, EffectModel,
    ResultModel, ScanState, ViewModel, ViewState,
};
use crate::commands::view::types::{
    metas_view, ChoiceModel, DetailRecord, EntryMeta, Focus, MetaModel,
};
use crate::dataset::{Dataset, DatasetEntry};
use crate::dedup::detect::text_option;
use crate::text::numbers::{decimal, u64_text, usize_text};

verus! {

/// What a scan reports.
#[derive(Debug)]
pub enum ScanUpdate {
    Batch(Vec<EntryMeta>),
    Finished { scanned: u64, matched: u64 },
    Failed(String),
}

/// What a [`ScanUpdate`] holds.
pub enum ScanUpdateModel {
    Batch(Seq<MetaModel>),
    Finished { scanned: u64, matched: u64 },
    Failed(Seq<char>),
}

impl View for ScanUpdate {
    type V = ScanUpdateModel;

    open spec fn view(&self) -> ScanUpdateModel {
        match *self {
            ScanUpdate::Batch(b) => ScanUpdateModel::Batch(metas_view(b@)),
            ScanUpdate::Finished { scanned, matched } => ScanUpdateModel::Finished {
                scanned,
                matched,
            },
            ScanUpdate::Failed(e) => ScanUpdateModel::Failed(e@),
        }
    }
}

/// The models of reports.
pub open spec fn updates_view(u: Seq<ScanUpdate>) -> Seq<ScanUpdateModel> {
    u.map_values(|x: ScanUpdate| x@)
}

/// What reports have come to so far.
pub struct Drained {
    pub entries: Seq<MetaModel>,
    pub selected: int,
    pub scan: ScanState,
    pub refresh: bool,
    pub note: Option<Seq<char>>,
    pub failed: bool,
}

/// The status of a scan that is over.
pub open spec fn finished_note(scanned: u64, matched: u64) -> Seq<char> {
    "Scan complete: "@ + decimal(matched as nat) + " matches out of "@ + decimal(scanned as nat)
        + " records"@
}

/// One report more.
pub open spec fn drained_one(m: ViewModel, d: Drained, u: ScanUpdateModel) -> Drained {
    match u {
        ScanUpdateModel::Batch(b) => {
            let entries = d.entries + b;
            let some = entries.len() > 0;
            Drained {
                entries,
                selected: if m.tail_mode && some {
                    entries.len() - 1
                } else {
                    d.selected
                },
                scan: ScanState { matched: entries.len() as u64, ..d.scan },
                refresh: d.refresh || (some && (m.tail_mode || m.list.detail is None)),
                ..d
            }
        },
        ScanUpdateModel::Finished { scanned, matched } => Drained {
            scan: ScanState { scanned, matched, finished: true },
            note: Some(finished_note(scanned, matched)),
            ..d
        },
        ScanUpdateModel::Failed(e) => Drained {
            scan: ScanState { finished: true, ..d.scan },
            note: Some("Scan failed: "@ + e),
            failed: true,
            ..d
        },
    }
}

/// What reports come to.
pub open spec fn drained(m: ViewModel, scan: ScanState, u: Seq<ScanUpdateModel>) -> Drained
    decreases u.len(),
{
    if u.len() == 0 {
        Drained {
            entries: m.list.entries,
            selected: m.list.selected,
            scan,
            refresh: false,
            note: None,
            failed: false,
        }
    } else {
        drained_one(m, drained(m, scan, u.drop_last()), u.last())
    }
}

/// The state once reports are taken in; whether the selected record is to be
/// read; what else is to be done.
pub open spec fn updates_taken(m: ViewModel, u: Seq<ScanUpdateModel>) -> (
    ViewModel,
    bool,
    EffectModel,
) {
    match m.scan {
        None => (m, false, EffectModel::Nothing),
        Some(scan) => {
            let d = drained(m, scan, u);
            let listed = ViewModel {
                list: ResultModel { entries: d.entries, selected: d.selected, ..m.list },
                scan: Some(d.scan),
                status: match d.note {
                    Some(t) => t,
                    None => m.status,
                },
                ..m
            };
            let now = if d.failed {
                tail_stopped(listed)
            } else {
                listed
            };
            if now.tail_on_launch && d.scan.finished && !now.tail_mode {
                let (next, effect) = tail_asked(ViewModel { tail_on_launch: false, ..now });
                (next, d.refresh, effect)
            } else if now.tail_mode || d.scan.finished {
                (now, d.refresh, EffectModel::Nothing)
            } else {
                (
                    saying(
                        now,
                        scan_status(
                            m.dataset.spec_paths().len(),
                            m.applied_query,
                            m.view_order,
                            Some(d.entries.len()),
                        ),
                    ),
                    d.refresh,
                    EffectModel::Nothing,
                )
            }
        },
    }
}

/// The records of all batches, in order.
pub open spec fn batched(u: Seq<ScanUpdateModel>) -> Seq<MetaModel>
    decreases u.len(),
{
    if u.len() == 0 {
        Seq::empty()
    } else {
        match u.last() {
            ScanUpdateModel::Batch(b) => batched(u.drop_last()) + b,
            _ => batched(u.drop_last()),
        }
    }
}

/// The list gains the records that are reported, in their order, and loses none.
pub proof fn law_reports_lose_nothing(m: ViewModel, scan: ScanState, u: Seq<ScanUpdateModel>)
    ensures
        drained(m, scan, u).entries == m.list.entries + batched(u),
    decreases u.len(),
{
    if u.len() == 0 {
        assert(m.list.entries + batched(u) =~= m.list.entries);
    } else {
        law_reports_lose_nothing(m, scan, u.drop_last());
        if let ScanUpdateModel::Batch(b) = u.last() {
            assert(m.list.entries + batched(u.drop_last()) + b =~= m.list.entries + (batched(
                u.drop_last(),
            ) + b));
        }
    }
}

/// However the state comes to report, one of the records stays selected.
proof fn lemma_selection_stays(m: ViewModel, scan: ScanState, u: Seq<ScanUpdateModel>)
    requires
        state_ok(m),
    ensures
        ({
            let d = drained(m, scan, u);
            0 <= d.selected < d.entries.len() || (d.selected == 0 && d.entries.len() == 0)
        }),
    decreases u.len(),
{
    if u.len() > 0 {
        lemma_selection_stays(m, scan, u.drop_last());
    }
}

/// What an export reports.
#[derive(Debug)]
pub enum ExportUpdate {
    Progress { processed: usize, total: usize },
    Finalizing,
    Done { format: String, rows: usize, output: String },
    Failed(String),
}

/// The phase in which so many records are written.
pub open spec fn writing_phase(processed: nat, total: nat) -> Seq<char> {
    let all = if total == 0 {
        1
    } else {
        total
    };
    "Writing records "@ + decimal(
        if processed < all {
            processed
        } else {
            all
        },
    ) + "/"@ + decimal(all)
}

/// What is said of an export that is over.
pub open spec fn exported_note(rows: nat, format: Seq<char>, output: Seq<char>) -> Seq<char> {
    "Exported "@ + decimal(rows) + " "@ + format + " row(s) to "@ + output
}

/// The state after a report of an export.
pub open spec fn export_reported(m: ViewModel, u: ExportUpdate) -> ViewModel {
    match u {
        ExportUpdate::Progress { processed, total } => ViewModel {
            export: ExportModel {
                phase: writing_phase(processed as nat, total as nat),
                ..m.export
            },
            ..m
        },
        ExportUpdate::Finalizing => ViewModel {
            export: ExportModel { phase: "Finalizing output file..."@, ..m.export },
            ..m
        },
        ExportUpdate::Done { format, rows, output } => ViewModel {
            export: ExportModel { phase: Seq::empty(), message: None, running: false, ..m.export },
            focus: Focus::List,
            status: exported_note(rows as nat, format@, output@),
            ..m
        },
        ExportUpdate::Failed(e) => ViewModel {
            export: ExportModel {
                phase: Seq::empty(),
                message: Some(e@),
                running: false,
                ..m.export
            },
            focus: Focus::ExportError,
            ..m
        },
    }
}

/// What a run of deduplication reports.
#[derive(Debug)]
pub enum DedupUpdate {
    Progress { phase: String },
    /// The percentage is a text with one decimal.
    Done { total: u64, groups: u64, percent: String },
    Failed(String),
}

/// What is said of a run that is over.
pub open spec fn dedup_summary(total: nat, groups: nat, percent: Seq<char>) -> Seq<char> {
    decimal(total) + " records \u{2192} "@ + decimal(groups) + " groups ("@ + percent
        + "% reduction)"@
}

/// The state after a report of a run.
pub open spec fn dedup_reported(m: ViewModel, u: DedupUpdate) -> ViewModel {
    match u {
        DedupUpdate::Progress { phase } => ViewModel {
            dedup: DedupModel { phase: phase@, ..m.dedup },
            ..m
        },
        DedupUpdate::Done { total, groups, percent } => ViewModel {
            dedup: DedupModel {
                phase: "OK"@,
                running: false,
                completion: Some(dedup_summary(total as nat, groups as nat, percent@)),
                ..m.dedup
            },
            ..m
        },
        DedupUpdate::Failed(e) => ViewModel {
            dedup: DedupModel { running: false, output_path: None, ..m.dedup },
            status: "Dedup failed: "@ + e@,
            focus: Focus::List,
            ..m
        },
    }
}

/// One of the files is this one.
pub open spec fn reads_file(d: Dataset, path: Seq<char>) -> bool {
    exists|i: int|
        0 <= i < d.spec_paths().len() && same_components(#[trigger] d.spec_paths()[i], path)
}

/// What is said of a file that would be overwritten.
pub open spec fn taken_note(name: Seq<char>) -> Seq<char> {
    "File "@ + name + " already exist"@
}

/// The state while a plugin exports.
pub open spec fn plugin_exporting(m: ViewModel, rows: nat, format: Seq<char>) -> ViewModel {
    ViewModel {
        export: ExportModel {
            running: true,
            phase: "Exporting "@ + decimal(rows) + " "@ + format + " row(s)..."@,
            ..m.export
        },
        focus: Focus::ExportProgress,
        ..m
    }
}

/// The state once a run of deduplication has started.
pub open spec fn dedup_begun(m: ViewModel, output_path: Seq<char>) -> ViewModel {
    ViewModel {
        dedup: DedupModel {
            output_path: Some(output_path),
            running: true,
            phase: "starting"@,
            completion: None,
            ..m.dedup
        },
        focus: Focus::DedupProgress,
        ..m
    }
}

/// The state on another file, before it is scanned.
pub open spec fn on_file(m: ViewModel, path: Seq<char>, dataset: Dataset) -> ViewModel {
    scan_reset(ViewModel { input: path, dataset, query_input: Seq::empty(), ..m })
}

fn describe_taken(name: &str) -> (r: String)
    ensures
        r@ == taken_note(name@),
{
    let mut r = "File ".to_owned();
    r.append(name);
    r.append(" already exist");
    r
}

fn describe_exported(rows: usize, format: &str, output: &str) -> (r: String)
    ensures
        r@ == exported_note(rows as nat, format@, output@),
{
    let mut r = "Exported ".to_owned();
    r.append(usize_text(rows).as_str());
    r.append(" ");
    r.append(format);
    r.append(" row(s) to ");
    r.append(output);
    r
}

fn describe_writing(processed: usize, total: usize) -> (r: String)
    ensures
        r@ == writing_phase(processed as nat, total as nat),
{
    let all = if total == 0 {
        1
    } else {
        total
    };
    let done = if processed < all {
        processed
    } else {
        all
    };
    let mut r = "Writing records ".to_owned();
    r.append(usize_text(done).as_str());
    r.append("/");
    r.append(usize_text(all).as_str());
    r
}

fn describe_dedup(total: u64, groups: u64, percent: &str) -> (r: String)
    ensures
        r@ == dedup_summary(total as nat, groups as nat, percent@),
{
    let mut r = u64_text(total);
    r.append(" records \u{2192} ");
    r.append(u64_text(groups).as_str());
    r.append(" groups (");
    r.append(percent);
    r.append("% reduction)");
    r
}

impl ViewState {
    /// Takes in what the scan and the worker that follows the file report. The
    /// answer is whether the selected record is to be read first, and what is to
    /// be done.
    pub fn drain_scan_updates(&mut self, updates: Vec<ScanUpdate>) -> (r: (bool, Effect))
        requires
            old(self).wf(),
        ensures
            final(self).wf(),
            (final(self)@, r.0, r.1@) == updates_taken(old(self)@, updates_view(updates@)),
    {
        let start = match self.scan {
            None => {
                return (false, Effect::Nothing);
            },
            Some(s) => s,
        };
        let ghost m = self@;
        let ghost all = updates_view(updates@);
        let ghost source = updates@;
        let tailing = self.tail_mode;
        let no_detail = self.list.detail.is_none();
        let mut scan = start;
        let mut refresh = false;
        let mut note: Option<String> = None;
        let mut failed = false;
        assert(all.take(0) =~= Seq::empty());
        for u in it: updates
            invariant
                it.seq() == source,
                all == updates_view(source),
                state_ok(m),
                m.tail_mode == tailing,
                no_detail == (m.list.detail is None),
                self@ == (ViewModel {
                    list: ResultModel {
                        entries: drained(m, start, all.take(it.index())).entries,
                        selected: drained(m, start, all.take(it.index())).selected,
                        ..m.list
                    },
                    ..m
                }),
                self.field_filter == old(self).field_filter,
                self.active_filter == old(self).active_filter,
                scan == drained(m, start, all.take(it.index())).scan,
                refresh == drained(m, start, all.take(it.index())).refresh,
                text_option(note) == drained(m, start, all.take(it.index())).note,
                failed == drained(m, start, all.take(it.index())).failed,
        {
            let ghost i = it.index() as int;
            assert(all.take(i + 1).drop_last() =~= all.take(i));
            assert(all[i] == source[i]@);
            let ghost before = drained(m, start, all.take(i));
            match u {
                ScanUpdate::Batch(mut batch) => {
                    let ghost added = metas_view(batch@);
                    self.list.entries.append(&mut batch);
                    assert(metas_view(self.list.entries@) =~= before.entries + added);
                    scan.matched = self.list.entries.len() as u64;
                    if self.list.entries.len() > 0 {
                        if tailing {
                            self.list.selected = self.list.entries.len() - 1;
                            refresh = true;
                        } else if no_detail {
                            refresh = true;
                        }
                    }
                },
                ScanUpdate::Finished { scanned, matched } => {
                    scan = ScanState { scanned, matched, finished: true };
                    let mut text = "Scan complete: ".to_owned();
                    text.append(u64_text(matched).as_str());
                    text.append(" matches out of ");
                    text.append(u64_text(scanned).as_str());
                    text.append(" records");
                    note = Some(text);
                },
                ScanUpdate::Failed(e) => {
                    scan.finished = true;
                    failed = true;
                    let mut text = "Scan failed: ".to_owned();
                    text.append(e.as_str());
                    note = Some(text);
                },
            }
        }
        assert(all.take(source.len() as int) =~= all);
        proof {
            lemma_selection_stays(m, start, all);
        }
        self.scan = Some(scan);
        if failed {
            self.stop_tail_mode();
        }
        if let Some(text) = note {
            self.status = text;
        }
        if self.tail_on_launch && scan.finished && !self.tail_mode {
            self.tail_on_launch = false;
            let effect = self.start_tail_mode();
            return (refresh, effect);
        }
        if !self.tail_mode && !scan.finished {
            self.status = describe_scan(
                self.dataset.len(),
                self.applied_query.as_str(),
                self.view_order,
                Some(self.list.entries.len()),
            );
        }
        (refresh, Effect::Nothing)
    }

    /// The selected record has been read.
    pub fn detail_loaded(&mut self, detail: DetailRecord)
        requires
            old(self).wf(),
        ensures
            final(self).wf(),
            final(self)@ == with_detail(old(self)@, detail@),
    {
        self.list.detail_scroll = 0;
        if self.focus == Focus::Modal {
            self.modal.text = Some(render_modal_message(&detail, self.hex_payload));
            self.modal.scroll = 0;
        }
        self.list.detail = Some(detail);
    }

    /// The file is being followed.
    pub fn tail_started(&mut self) -> (r: Effect)
        requires
            old(self).wf(),
        ensures
            final(self).wf(),
            (final(self)@, r@) == tail_begun(old(self)@),
    {
        self.tail_mode = true;
        let n = self.list.entries.len();
        if n == 0 {
            self.tail_marker = None;
            Effect::Nothing
        } else {
            self.tail_marker = Some(n - 1);
            self.list.selected = n - 1;
            Effect::LoadDetail
        }
    }

    fn export_ended(&mut self, message: Option<String>)
        ensures
            final(self).field_filter == old(self).field_filter,
            final(self).active_filter == old(self).active_filter,
            final(self)@ == (ViewModel {
                export: ExportModel {
                    phase: Seq::empty(),
                    message: text_option(message),
                    running: false,
                    ..old(self)@.export
                },
                ..old(self)@
            }),
    {
        self.export.running = false;
        self.export.message = message;
        self.export.phase = String::new();
        assert(self.export.phase@ =~= Seq::empty());
    }

    /// Takes in what an export reports. The answer is whether it goes on.
    pub fn drain_export_update(&mut self, update: ExportUpdate) -> (r: bool)
        requires
            old(self).wf(),
        ensures
            final(self).wf(),
            final(self)@ == export_reported(old(self)@, update),
            r == (update is Progress || update is Finalizing),
    {
        match update {
            ExportUpdate::Progress { processed, total } => {
                self.export.phase = describe_writing(processed, total);
                true
            },
            ExportUpdate::Finalizing => {
                self.export.phase = "Finalizing output file...".to_owned();
                true
            },
            ExportUpdate::Done { format, rows, output } => {
                self.export_ended(None);
                self.focus = Focus::List;
                self.status = describe_exported(rows, format.as_str(), output.as_str());
                false
            },
            ExportUpdate::Failed(e) => {
                self.export_ended(Some(e));
                self.focus = Focus::ExportError;
                false
            },
        }
    }

    fn dedup_done(&mut self, text: String)
        ensures
            final(self).field_filter == old(self).field_filter,
            final(self).active_filter == old(self).active_filter,
            final(self)@ == (ViewModel {
                dedup: DedupModel {
                    phase: "OK"@,
                    running: false,
                    completion: Some(text@),
                    ..old(self)@.dedup
                },
                ..old(self)@
            }),
    {
        self.dedup.phase = "OK".to_owned();
        self.dedup.running = false;
        self.dedup.completion = Some(text);
    }

    fn dedup_failed(&mut self, error: &str)
        ensures
            final(self).field_filter == old(self).field_filter,
            final(self).active_filter == old(self).active_filter,
            final(self)@ == (ViewModel {
                dedup: DedupModel { running: false, output_path: None, ..old(self)@.dedup },
                status: "Dedup failed: "@ + error@,
                focus: Focus::List,
                ..old(self)@
            }),
    {
        let mut text = "Dedup failed: ".to_owned();
        text.append(error);
        self.status = text;
        self.dedup.running = false;
        self.dedup.output_path = None;
        self.focus = Focus::List;
    }

    /// Takes in what a run of deduplication reports. The answer is whether it
    /// goes on.
    pub fn drain_dedup_update(&mut self, update: DedupUpdate) -> (r: bool)
        requires
            old(self).wf(),
        ensures
            final(self).wf(),
            final(self)@ == dedup_reported(old(self)@, update),
            r == (update is Progress),
    {
        match update {
            DedupUpdate::Progress { phase } => {
                self.dedup.phase = phase;
                true
            },
            DedupUpdate::Done { total, groups, percent } => {
                let text = describe_dedup(total, groups, percent.as_str());
                self.dedup_done(text);
                false
            },
            DedupUpdate::Failed(e) => {
                self.dedup_failed(e.as_str());
                false
            },
        }
    }

    /// Whether one of the files is this one.
    pub fn is_input(&self, path: &str) -> (r: bool)
        ensures
            r == reads_file(self@.dataset, path@),
    {
        let entries = self.dataset.entries();
        let ghost paths = self.dataset.spec_paths();
        for i in 0..entries.len()
            invariant
                paths == self.dataset.spec_paths(),
                paths == entries@.map_values(|e: DatasetEntry| e.path@),
                forall|j: int| 0 <= j < i ==> !same_components(#[trigger] paths[j], path@),
        {
            assert(paths[i as int] == entries@[i as int].path@);
            if same_path(entries[i].path.as_str(), path) {
                return true;
            }
        }
        false
    }

    /// Whether the records may be saved under a name that stands for this path.
    /// `present` says whether there is such a file.
    pub fn confirm_save(&mut self, name: &str, path: &str, present: bool) -> (r: bool)
        requires
            old(self).wf(),
        ensures
            final(self).wf(),
            r == !(reads_file(old(self)@.dataset, path@) || present),
            final(self)@ == if r {
                old(self)@
            } else {
                focused(save_message(old(self)@, Some(taken_note(name@))), Focus::SaveError)
            },
    {
        if self.is_input(path) || present {
            self.save.message = Some(describe_taken(name));
            self.focus = Focus::SaveError;
            return false;
        }
        true
    }

    /// The records have been saved.
    pub fn saved(&mut self, path: &str)
        requires
            old(self).wf(),
        ensures
            final(self).wf(),
            final(self)@ == saying(
                focused(save_message(old(self)@, None), Focus::List),
                "Saved "@ + decimal(old(self)@.list.entries.len()) + " records to "@ + path@,
            ),
    {
        self.focus = Focus::List;
        self.save.message = None;
        let mut status = "Saved ".to_owned();
        status.append(usize_text(self.list.entries.len()).as_str());
        status.append(" records to ");
        status.append(path);
        self.status = status;
    }

    /// Whether records may be exported under a name that stands for this path.
    /// `present` says whether there is such a file.
    pub fn confirm_export(&mut self, name: &str, path: &str, present: bool) -> (r: bool)
        requires
            old(self).wf(),
        ensures
            final(self).wf(),
            r == (!(reads_file(old(self)@.dataset, path@) || present) && old(self)@.scan is Some),
            final(self)@ == if r {
                old(self)@
            } else if reads_file(old(self)@.dataset, path@) || present {
                focused(export_message(old(self)@, Some(taken_note(name@))), Focus::ExportError)
            } else {
                export_message(old(self)@, Some("No scan data to export."@))
            },
    {
        if self.is_input(path) || present {
            self.export.message = Some(describe_taken(name));
            self.focus = Focus::ExportError;
            return false;
        }
        if self.scan.is_none() {
            self.export.message = Some("No scan data to export.".to_owned());
            return false;
        }
        true
    }

    /// Rows have been exported.
    pub fn exported(&mut self, rows: usize, format: &str, path: &str)
        requires
            old(self).wf(),
        ensures
            final(self).wf(),
            final(self)@ == saying(
                focused(export_message(old(self)@, None), Focus::List),
                exported_note(rows as nat, format@, path@),
            ),
    {
        self.focus = Focus::List;
        self.export.message = None;
        self.status = describe_exported(rows, format, path);
    }

    /// A plugin exports rows.
    pub fn plugin_export_started(&mut self, rows: usize, format: &str)
        requires
            old(self).wf(),
        ensures
            final(self).wf(),
            final(self)@ == plugin_exporting(old(self)@, rows as nat, format@),
    {
        let mut phase = "Exporting ".to_owned();
        phase.append(usize_text(rows).as_str());
        phase.append(" ");
        phase.append(format);
        phase.append(" row(s)...");
        self.export.phase = phase;
        self.export.running = true;
        self.focus = Focus::ExportProgress;
    }

    /// The records of the list could not be prepared for deduplication.
    pub fn dedup_unprepared(&mut self, error: &str)
        requires
            old(self).wf(),
        ensures
            final(self).wf(),
            final(self)@ == focused(
                saying(old(self)@, "Dedup preparation failed: "@ + error@),
                Focus::List,
            ),
    {
        let mut status = "Dedup preparation failed: ".to_owned();
        status.append(error);
        self.status = status;
        self.focus = Focus::List;
    }

    /// A run of deduplication has started.
    pub fn dedup_started(&mut self, output_path: String)
        requires
            old(self).wf(),
        ensures
            final(self).wf(),
            final(self)@ == dedup_begun(old(self)@, output_path@),
    {
        self.dedup.running = true;
        self.dedup.output_path = Some(output_path);
        self.dedup.phase = "starting".to_owned();
        self.dedup.completion = None;
        self.focus = Focus::DedupProgress;
    }

    /// Goes on with another file: a scan for everything is to follow.
    pub fn file_opened(&mut self, path: String, dataset: Dataset)
        requires
            old(self).wf(),
            dataset.wf(),
        ensures
            final(self).wf(),
            final(self)@ == on_file(old(self)@, path@, dataset),
    {
        self.scan = None;
        self.list = crate::commands::view::state::ResultList::new();
        self.input = path;
        self.dataset = dataset;
        self.query_input = String::new();
        assert(self.query_input@ =~= Seq::empty());
        self.reset_for_scan();
    }

    /// The name of the file of the selected record.
    pub fn current_record_filename(&self) -> (r: Option<String>)
        ensures
            text_option(r) == if self@.list.selected < self@.list.entries.len() {
                path_name_of(self@.list.entries[self@.list.selected].source_path)
            } else {
                None
            },
    {
        if self.list.selected < self.list.entries.len() {
            assert(self@.list.entries[self.list.selected as int]
                == self.list.entries@[self.list.selected as int]@);
            path_name(self.list.entries[self.list.selected].source_path.as_str())
        } else {
            None
        }
    }
}

/// Only `q` on the list leaves.
pub proof fn law_only_q_on_the_list_quits(
    m: ViewModel,
    k: KeyPress,
    catalog: Option<CatalogModel>,
    formats: Seq<ChoiceModel>,
    screen_height: int,
)
    ensures
        key_pressed(m, k, catalog, formats, screen_height).1 == EffectModel::Quit <==> m.focus
            == Focus::List && !m.tail_mode && is_letter(k.code, 'q', 'Q'),
{
}

/// Every key ends the following of a file.
pub proof fn law_keys_end_following(
    m: ViewModel,
    k: KeyPress,
    catalog: Option<CatalogModel>,
    formats: Seq<ChoiceModel>,
    screen_height: int,
)
    ensures
        m.tail_mode ==> !key_pressed(m, k, catalog, formats, screen_height).0.tail_mode,
{
}

/// Keys in a prompt leave the records, the files and the scan as they are.
pub proof fn law_prompts_keep_results(
    m: ViewModel,
    k: KeyPress,
    catalog: Option<CatalogModel>,
    formats: Seq<ChoiceModel>,
    screen_height: int,
)
    requires
        m.focus == Focus::SavePrompt || m.focus == Focus::SaveError || m.focus
            == Focus::ExportPrompt || m.focus == Focus::ExportError || m.focus
            == Focus::ExportProgress || m.focus == Focus::DedupPrompt || m.focus
            == Focus::DedupProgress,
    ensures
        ({
            let next = key_pressed(m, k, catalog, formats, screen_height).0;
            &&& next.list == m.list
            &&& next.dataset == m.dataset
            &&& next.scan == m.scan
            &&& next.applied_query == m.applied_query
            &&& next.active_filter == m.active_filter
        }),
{
}

/// Escape leads from every prompt and pane back to the list, unless something
/// runs or is followed, or an error is shown.
pub proof fn law_escape_leads_back(
    m: ViewModel,
    k: KeyPress,
    catalog: Option<CatalogModel>,
    formats: Seq<ChoiceModel>,
    screen_height: int,
)
    requires
        k.code == KeyCode::Esc,
        !m.tail_mode,
        m.focus != Focus::SaveError,
        m.focus != Focus::ExportError,
        m.focus != Focus::ExportProgress,
        m.focus == Focus::DedupProgress ==> !m.dedup.running,
    ensures
        key_pressed(m, k, catalog, formats, screen_height).0.focus == Focus::List,
{
}

} // verus!
