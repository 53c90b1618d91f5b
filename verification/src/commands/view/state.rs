//! The state of the screen, and what keys and workers do to it.
use std::collections::{HashMap, VecDeque};
use vstd::prelude::*;

use crate::bridge::debug_text::{debug_quote, debug_quoted};
use crate::bridge::paths::path_stem_of;
use crate::commands::view::detail::{
    extract_otlp_log_severity, format_summary, full_text, log_severity, summary_text,
};
use crate::commands::view::field_filter::{
    chosen_filter, filter_note, pane_after, CatalogModel, FieldFilterState, FilterPanel,
    FilterStateModel, PickModel,
};
use crate::commands::view::keys::{
    edited, is_letter, line_with, popped, typed_char, KeyCode, KeyPress,
};
use crate::commands::view::prompts::{
    dedup_after, export_after, export_answer, export_opened, name_fault, save_opened, DedupModel,
    DedupPrompt, ExportAnswer, ExportModel, ExportPlan, ExportPrompt, PlanModel, SaveModel,
    SavePrompt,
};
use crate::commands::view::types::{
    cache_ok, kept_order, kept_rows, metas_view, ndjson_choice, plugin_choices, remember_summary,
    ChoiceModel, DetailModel, DetailRecord, EntryMeta, ExportField, Focus, ListRowSummary,
    MetaModel, ViewOrder,
};
use crate::dataset::{is_stdin_path, Dataset};
use crate::dedup::detect::text_option;
use crate::dedup::{DedupMatchMode, DedupMode};
use crate::exporter::{format_members, RegistryModel};
use crate::bridge::protobuf::logs_of;
use crate::predicate::{FieldFilter, FilterMode, FilterModel};
use crate::text::numbers::{decimal, usize_text};
use crate::text::seqs::trim;
use crate::text::str_set::sorted_members;
use crate::text::strings::is_blank;

verus! {

/// A scan as far as it is known.
#[derive(Debug, Clone, Copy, PartialEq, Eq, Structural)]
pub struct ScanState {
    pub scanned: u64,
    pub matched: u64,
    pub finished: bool,
}

/// A scan that has just begun.
#[verifier::allow_in_spec]
pub fn fresh_scan() -> ScanState
    returns
        (ScanState { scanned: 0, matched: 0, finished: false }),
{
    ScanState { scanned: 0, matched: 0, finished: false }
}

/// The records that match, and which of them is selected.
#[derive(Debug)]
pub struct ResultList {
    pub entries: Vec<EntryMeta>,
    pub selected: usize,
    pub offset: usize,
    pub detail_scroll: u16,
    pub detail: Option<DetailRecord>,
    pub cache: HashMap<usize, ListRowSummary>,
    pub order: VecDeque<usize>,
}

/// What a [`ResultList`] holds.
pub struct ResultModel {
    pub entries: Seq<MetaModel>,
    pub selected: int,
    pub offset: int,
    pub detail_scroll: int,
    pub detail: Option<DetailModel>,
    pub cache: Map<usize, ListRowSummary>,
    pub order: Seq<usize>,
}

/// The model of an optional record.
pub open spec fn detail_option(d: Option<DetailRecord>) -> Option<DetailModel> {
    match d {
        Some(x) => Some(x@),
        None => None,
    }
}

impl View for ResultList {
    type V = ResultModel;

    open spec fn view(&self) -> ResultModel {
        ResultModel {
            entries: metas_view(self.entries@),
            selected: self.selected as int,
            offset: self.offset as int,
            detail_scroll: self.detail_scroll as int,
            detail: detail_option(self.detail),
            cache: self.cache@,
            order: self.order@,
        }
    }
}

/// No records.
pub open spec fn no_results() -> ResultModel {
    ResultModel {
        entries: Seq::empty(),
        selected: 0,
        offset: 0,
        detail_scroll: 0,
        detail: None,
        cache: Map::empty(),
        order: Seq::empty(),
    }
}

/// One of the records is selected, if there is one.
pub open spec fn results_ok(l: ResultModel) -> bool {
    &&& (0 <= l.selected < l.entries.len() || (l.selected == 0 && l.entries.len() == 0))
    &&& cache_ok(l.cache, l.order)
}

/// The selection `delta` places on, within the list.
pub open spec fn moved(l: ResultModel, delta: int) -> int {
    if l.entries.len() == 0 {
        l.selected
    } else if l.selected + delta < 0 {
        0
    } else if l.selected + delta > l.entries.len() - 1 {
        l.entries.len() - 1
    } else {
        l.selected + delta
    }
}

impl ResultList {
    /// No records.
    pub fn new() -> (r: Self)
        ensures
            r@ == no_results(),
    {
        broadcast use vstd::std_specs::hash::group_hash_axioms;

        let r = ResultList {
            entries: Vec::new(),
            selected: 0,
            offset: 0,
            detail_scroll: 0,
            detail: None,
            cache: HashMap::new(),
            order: VecDeque::new(),
        };
        assert(r@.entries =~= Seq::empty());
        assert(r@.cache =~= Map::empty());
        assert(r@.order =~= Seq::empty());
        r
    }

    /// Moves the selection. The answer is whether it moved.
    pub fn move_selection(&mut self, delta: isize) -> (r: bool)
        requires
            results_ok(old(self)@),
        ensures
            final(self)@ == (ResultModel { selected: moved(old(self)@, delta as int), ..old(self)@ }),
            r == (moved(old(self)@, delta as int) != old(self)@.selected),
    {
        let n = self.entries.len();
        if n == 0 {
            return false;
        }
        let at = self.selected;
        let next = if delta >= 0 {
            if n - 1 - at <= delta as usize {
                n - 1
            } else {
                at + delta as usize
            }
        } else {
            let back = back_steps(delta);
            if at <= back {
                0
            } else {
                at - back
            }
        };
        self.selected = next;
        next != at
    }

    /// The row of a record, if it is remembered.
    pub fn cached_row(&self, index: usize) -> (r: Option<&ListRowSummary>)
        ensures
            match r {
                Some(s) => self@.cache.contains_key(index) && *s == self@.cache[index],
                None => !self@.cache.contains_key(index),
            },
    {
        broadcast use vstd::std_specs::hash::group_hash_axioms;

        self.cache.get(&index)
    }

    /// Remembers the row of a record.
    pub fn remember_row(&mut self, index: usize, summary: ListRowSummary)
        requires
            results_ok(old(self)@),
        ensures
            results_ok(final(self)@),
            final(self)@ == (ResultModel {
                cache: kept_rows(old(self)@.cache.insert(index, summary), old(self)@.order.push(index)),
                order: kept_order(old(self)@.order.push(index)),
                ..old(self)@
            }),
    {
        proof {
            crate::commands::view::types::law_rows_stay_bounded(
                self.cache@,
                self.order@,
                index,
                summary,
            );
        }
        remember_summary(&mut self.cache, &mut self.order, index, summary);
    }
}

/// The steps of a move backwards.
fn back_steps(delta: isize) -> (r: usize)
    requires
        delta < 0,
    ensures
        r == -delta,
{
    let less: isize = -(delta + 1);
    less as usize + 1
}

/// The row of a record.
pub fn row_summary(detail: &DetailRecord, hex_payload: bool) -> (r: ListRowSummary)
    ensures
        r.message@ == summary_text(detail@, hex_payload),
        text_option(r.severity) == match logs_of(detail@.payload) {
            Some(b) => log_severity(b),
            None => None,
        },
{
    ListRowSummary {
        message: format_summary(detail, hex_payload),
        severity: extract_otlp_log_severity(&detail.payload),
    }
}

/// The pane that shows a record in full.
#[derive(Debug)]
pub struct ModalPane {
    pub text: Option<String>,
    pub scroll: u16,
    pub info_visible: bool,
}

/// What a [`ModalPane`] holds.
pub struct ModalModel {
    pub text: Option<Seq<char>>,
    pub scroll: int,
    pub info_visible: bool,
}

impl View for ModalPane {
    type V = ModalModel;

    open spec fn view(&self) -> ModalModel {
        ModalModel {
            text: text_option(self.text),
            scroll: self.scroll as int,
            info_visible: self.info_visible,
        }
    }
}

/// The state of the screen.
#[derive(Debug)]
pub struct ViewState {
    pub input: String,
    pub dataset: Dataset,
    pub view_order: ViewOrder,
    pub hex_payload: bool,
    pub focus: Focus,
    pub filter_mode: FilterMode,
    pub query_input: String,
    pub applied_query: String,
    pub status: String,
    pub list: ResultList,
    pub modal: ModalPane,
    pub details_visible: bool,
    pub save: SavePrompt,
    pub export: ExportPrompt,
    pub dedup: DedupPrompt,
    pub scan: Option<ScanState>,
    pub tail_on_launch: bool,
    pub tail_mode: bool,
    pub tail_marker: Option<usize>,
    pub field_filter: Option<FieldFilterState>,
    pub active_filter: FieldFilter,
}

/// What a [`ViewState`] holds.
pub struct ViewModel {
    pub input: Seq<char>,
    pub dataset: Dataset,
    pub view_order: ViewOrder,
    pub hex_payload: bool,
    pub focus: Focus,
    pub filter_mode: FilterMode,
    pub query_input: Seq<char>,
    pub applied_query: Seq<char>,
    pub status: Seq<char>,
    pub list: ResultModel,
    pub modal: ModalModel,
    pub details_visible: bool,
    pub save: SaveModel,
    pub export: ExportModel,
    pub dedup: DedupModel,
    pub scan: Option<ScanState>,
    pub tail_on_launch: bool,
    pub tail_mode: bool,
    pub tail_marker: Option<usize>,
    pub field_filter: Option<FilterStateModel>,
    pub active_filter: FilterModel,
}

/// The model of an optional pane.
pub open spec fn pane_option(p: Option<FieldFilterState>) -> Option<FilterStateModel> {
    match p {
        Some(x) => Some(x@),
        None => None,
    }
}

impl View for ViewState {
    type V = ViewModel;

    open spec fn view(&self) -> ViewModel {
        ViewModel {
            input: self.input@,
            dataset: self.dataset,
            view_order: self.view_order,
            hex_payload: self.hex_payload,
            focus: self.focus,
            filter_mode: self.filter_mode,
            query_input: self.query_input@,
            applied_query: self.applied_query@,
            status: self.status@,
            list: self.list@,
            modal: self.modal@,
            details_visible: self.details_visible,
            save: self.save@,
            export: self.export@,
            dedup: self.dedup@,
            scan: self.scan,
            tail_on_launch: self.tail_on_launch,
            tail_mode: self.tail_mode,
            tail_marker: self.tail_marker,
            field_filter: pane_option(self.field_filter),
            active_filter: self.active_filter@,
        }
    }
}

/// There is a file and a format, one of the records is selected if there is one,
/// and records come from a scan.
pub open spec fn state_ok(m: ViewModel) -> bool {
    &&& m.dataset.wf()
    &&& m.export.formats.len() > 0
    &&& results_ok(m.list)
    &&& m.list.entries.len() > 0 ==> m.scan is Some
    &&& m.field_filter matches Some(p) ==> p.severity.chosen.no_duplicates()
        && p.service.chosen.no_duplicates()
    &&& m.active_filter.severities matches Some(s) ==> s.no_duplicates()
    &&& m.active_filter.services matches Some(s) ==> s.no_duplicates()
}

/// The screen as it starts.
pub open spec fn first_screen(
    dataset: Dataset,
    view_order: ViewOrder,
    hex_payload: bool,
    tail: bool,
    formats: Seq<ChoiceModel>,
) -> ViewModel {
    ViewModel {
        input: dataset.spec_paths()[0],
        dataset,
        view_order,
        hex_payload,
        focus: Focus::Search,
        filter_mode: FilterMode::Strings,
        query_input: Seq::empty(),
        applied_query: Seq::empty(),
        status: "Type a filter and press Enter to scan matching records"@,
        list: no_results(),
        modal: ModalModel { text: None, scroll: 0, info_visible: false },
        details_visible: false,
        save: SaveModel { filename: line_with(Seq::empty()), message: None },
        export: ExportModel {
            formats,
            format_index: 0,
            filename: line_with(Seq::empty()),
            range: line_with("all"@),
            field: ExportField::Format,
            message: None,
            phase: Seq::empty(),
            running: false,
        },
        dedup: DedupModel {
            filename: Seq::empty(),
            behavior: DedupMode::Distinct,
            match_mode: DedupMatchMode::Hash2,
            output_path: None,
            running: false,
            phase: Seq::empty(),
            completion: None,
        },
        scan: None,
        tail_on_launch: tail,
        tail_mode: false,
        tail_marker: None,
        field_filter: None,
        active_filter: FilterModel { severities: None, services: None },
    }
}

/// What is to be done outside.
#[derive(Debug)]
pub enum Effect {
    Nothing,
    /// Give up the scan and leave.
    Quit,
    /// Scan the files for the query. With `or_else_nothing` a query that cannot
    /// be read is passed over.
    StartScan { or_else_nothing: bool },
    /// Follow what is appended to the file.
    StartTail,
    /// Read the selected record.
    LoadDetail,
    /// Save the records under this name.
    Save(String),
    Export(ExportPlan),
    StartDedup(DedupPlan),
    /// Go on with this file, then show the note.
    OpenFile { path: String, note: Option<String> },
}

/// A run of deduplication that can start.
#[derive(Debug)]
pub struct DedupPlan {
    pub name: String,
    /// The records of the list, not the file.
    pub selection: bool,
    pub behavior: DedupMode,
    pub match_mode: DedupMatchMode,
}

/// What an [`Effect`] is.
pub enum EffectModel {
    Nothing,
    Quit,
    StartScan { or_else_nothing: bool },
    StartTail,
    LoadDetail,
    Save(Seq<char>),
    Export(PlanModel),
    StartDedup { name: Seq<char>, selection: bool, behavior: DedupMode, match_mode: DedupMatchMode },
    OpenFile { path: Seq<char>, note: Option<Seq<char>> },
}

impl View for Effect {
    type V = EffectModel;

    open spec fn view(&self) -> EffectModel {
        match *self {
            Effect::Nothing => EffectModel::Nothing,
            Effect::Quit => EffectModel::Quit,
            Effect::StartScan { or_else_nothing } => EffectModel::StartScan { or_else_nothing },
            Effect::StartTail => EffectModel::StartTail,
            Effect::LoadDetail => EffectModel::LoadDetail,
            Effect::Save(name) => EffectModel::Save(name@),
            Effect::Export(plan) => EffectModel::Export(plan@),
            Effect::StartDedup(p) => EffectModel::StartDedup {
                name: p.name@,
                selection: p.selection,
                behavior: p.behavior,
                match_mode: p.match_mode,
            },
            Effect::OpenFile { path, note } => EffectModel::OpenFile {
                path: path@,
                note: text_option(note),
            },
        }
    }
}

/// What is scanned.
pub open spec fn scan_target(files: nat, query: Seq<char>) -> Seq<char> {
    let what = if query.len() == 0 {
        "all records"@
    } else {
        debug_quoted(query)
    };
    if files == 1 {
        what
    } else {
        what + " across "@ + decimal(files) + " files"@
    }
}

/// The status of a scan; with `buffered` the matches so far.
pub open spec fn scan_status(
    files: nat,
    query: Seq<char>,
    order: ViewOrder,
    buffered: Option<nat>,
) -> Seq<char> {
    let head = "Scanning "@ + scan_target(files, query) + " ["@ + order.spec_label() + "]"@;
    match buffered {
        Some(n) => head + ": "@ + decimal(n) + " matches buffered"@,
        None => head,
    }
}

/// The status of a scan; with `buffered` the matches so far.
pub fn describe_scan(files: usize, query: &str, order: ViewOrder, buffered: Option<usize>) -> (r:
    String)
    ensures
        r@ == scan_status(
            files as nat,
            query@,
            order,
            match buffered {
                Some(n) => Some(n as nat),
                None => None,
            },
        ),
{
    let mut target = if is_blank(query) {
        "all records".to_owned()
    } else {
        debug_quote(query)
    };
    if files != 1 {
        target.append(" across ");
        target.append(usize_text(files).as_str());
        target.append(" files");
    }
    let mut r = "Scanning ".to_owned();
    r.append(target.as_str());
    r.append(" [");
    r.append(order.label());
    r.append("]");
    if let Some(n) = buffered {
        r.append(": ");
        r.append(usize_text(n).as_str());
        r.append(" matches buffered");
    }
    r
}

/// The stem of names that are offered.
pub open spec fn offered_stem(d: Dataset, fallback: Seq<char>) -> Seq<char> {
    if d.spec_paths().len() == 1 {
        match path_stem_of(d.spec_paths()[0]) {
            Some(s) => s,
            None => fallback,
        }
    } else {
        "dataset"@
    }
}

/// The selection is standard input.
pub open spec fn reads_stdin(d: Dataset) -> bool {
    d.spec_paths().len() == 1 && is_stdin_path(d.spec_paths()[0])
}

/// One file, and not standard input.
pub open spec fn one_real_file(d: Dataset) -> bool {
    d.spec_paths().len() == 1 && !reads_stdin(d)
}

/// The formats that can be chosen.
pub open spec fn offered_formats(r: RegistryModel) -> Seq<ChoiceModel> {
    seq![ndjson_choice()] + plugin_choices(sorted_members(format_members(r.plugins)))
}

/// The state with another status.
pub open spec fn saying(m: ViewModel, status: Seq<char>) -> ViewModel {
    ViewModel { status, ..m }
}

/// The state with the keys on another pane.
pub open spec fn focused(m: ViewModel, focus: Focus) -> ViewModel {
    ViewModel { focus, ..m }
}

/// Nothing is followed.
pub open spec fn tail_stopped(m: ViewModel) -> ViewModel {
    ViewModel { tail_mode: false, tail_marker: None, ..m }
}

/// The state before a scan starts.
pub open spec fn scan_reset(m: ViewModel) -> ViewModel {
    ViewModel {
        list: no_results(),
        modal: ModalModel { text: None, scroll: 0, ..m.modal },
        applied_query: m.query_input,
        focus: Focus::List,
        scan: None,
        tail_mode: false,
        tail_marker: None,
        ..m
    }
}

/// The state once a scan has started.
pub open spec fn scan_begun(m: ViewModel) -> ViewModel {
    ViewModel {
        status: scan_status(m.dataset.spec_paths().len(), m.applied_query, m.view_order, None),
        scan: Some(fresh_scan()),
        ..m
    }
}

/// The state with the selected record read anew, or with none.
pub open spec fn refreshed(m: ViewModel) -> (ViewModel, EffectModel) {
    if m.list.entries.len() == 0 {
        (ViewModel { list: ResultModel { detail: None, ..m.list }, ..m }, EffectModel::Nothing)
    } else {
        (m, EffectModel::LoadDetail)
    }
}

/// The state with the selection moved.
pub open spec fn selection_moved(m: ViewModel, delta: int) -> (ViewModel, EffectModel) {
    let to = moved(m.list, delta);
    if to == m.list.selected {
        (m, EffectModel::Nothing)
    } else {
        (
            ViewModel { list: ResultModel { selected: to, ..m.list }, ..m },
            EffectModel::LoadDetail,
        )
    }
}

/// The state with the selected record shown in full.
pub open spec fn modal_opened(m: ViewModel) -> ViewModel {
    match m.list.detail {
        Some(d) => ViewModel {
            modal: ModalModel {
                text: Some(full_text(d, m.hex_payload)),
                scroll: 0,
                ..m.modal
            },
            focus: Focus::Modal,
            ..m
        },
        None => m,
    }
}

/// The state once the selected record has been read.
pub open spec fn with_detail(m: ViewModel, d: DetailModel) -> ViewModel {
    ViewModel {
        list: ResultModel { detail: Some(d), detail_scroll: 0, ..m.list },
        modal: if m.focus == Focus::Modal {
            ModalModel { text: Some(full_text(d, m.hex_payload)), scroll: 0, ..m.modal }
        } else {
            m.modal
        },
        ..m
    }
}

/// What comes of asking to follow the file.
pub open spec fn tail_asked(m: ViewModel) -> (ViewModel, EffectModel) {
    if m.dataset.spec_paths().len() != 1 {
        (saying(m, "Tail mode needs exactly one input file."@), EffectModel::Nothing)
    } else if m.view_order != ViewOrder::Concat {
        (saying(m, "Tail mode only works with concat ordering."@), EffectModel::Nothing)
    } else if reads_stdin(m.dataset) {
        (saying(m, "Tail mode needs a real file, not stdin."@), EffectModel::Nothing)
    } else {
        match m.scan {
            None => (saying(m, "No active scan to tail."@), EffectModel::Nothing),
            Some(s) => if !s.finished {
                (
                    saying(m, "Wait for the scan to finish before tailing."@),
                    EffectModel::Nothing,
                )
            } else if m.tail_mode {
                (m, EffectModel::Nothing)
            } else {
                (m, EffectModel::StartTail)
            },
        }
    }
}

/// The state once the file is followed.
pub open spec fn tail_begun(m: ViewModel) -> (ViewModel, EffectModel) {
    let n = m.list.entries.len();
    if n == 0 {
        (ViewModel { tail_mode: true, tail_marker: None, ..m }, EffectModel::Nothing)
    } else {
        (
            ViewModel {
                tail_mode: true,
                tail_marker: Some((n - 1) as usize),
                list: ResultModel { selected: n - 1, ..m.list },
                ..m
            },
            EffectModel::LoadDetail,
        )
    }
}

/// A scroll position so many lines up.
pub open spec fn scrolled_up(at: int, by: int) -> int {
    if at < by {
        0
    } else {
        at - by
    }
}

/// A scroll position so many lines down.
pub open spec fn scrolled_down(at: int, by: int) -> int {
    if at + by > 0xffff {
        0xffff
    } else {
        at + by
    }
}

/// The state with the full record scrolled.
pub open spec fn modal_at(m: ViewModel, scroll: int) -> ViewModel {
    ViewModel { modal: ModalModel { scroll, ..m.modal }, ..m }
}

/// The neighbour of the selected record in full.
pub open spec fn modal_neighbour(m: ViewModel, delta: int) -> (ViewModel, EffectModel) {
    let (next, effect) = selection_moved(m, delta);
    if effect == EffectModel::LoadDetail {
        (next, effect)
    } else {
        (modal_opened(next), effect)
    }
}

/// A key while a record is shown in full.
pub open spec fn modal_key(m: ViewModel, k: KeyPress) -> (ViewModel, EffectModel) {
    if k.code == KeyCode::Esc {
        (
            ViewModel {
                focus: Focus::List,
                modal: ModalModel { text: None, scroll: 0, ..m.modal },
                ..m
            },
            EffectModel::Nothing,
        )
    } else if k.code == KeyCode::Up {
        (modal_at(m, scrolled_up(m.modal.scroll, 1)), EffectModel::Nothing)
    } else if k.code == KeyCode::Down {
        (modal_at(m, scrolled_down(m.modal.scroll, 1)), EffectModel::Nothing)
    } else if k.code == KeyCode::PageUp {
        (modal_at(m, scrolled_up(m.modal.scroll, 10)), EffectModel::Nothing)
    } else if k.code == KeyCode::PageDown {
        (modal_at(m, scrolled_down(m.modal.scroll, 10)), EffectModel::Nothing)
    } else if is_letter(k.code, 'i', 'I') {
        (
            ViewModel {
                modal: ModalModel { info_visible: !m.modal.info_visible, ..m.modal },
                ..m
            },
            EffectModel::Nothing,
        )
    } else if is_letter(k.code, 't', 'T') {
        tail_asked(m)
    } else if k.code == KeyCode::Left {
        modal_neighbour(m, -1)
    } else if k.code == KeyCode::Right {
        modal_neighbour(m, 1)
    } else {
        (m, EffectModel::Nothing)
    }
}

/// The other way of reading a bare query.
#[verifier::allow_in_spec]
pub fn other_mode(mode: FilterMode) -> FilterMode
    returns
        (match mode {
            FilterMode::Strings => FilterMode::Regex,
            FilterMode::Regex => FilterMode::Strings,
        }),
{
    match mode {
        FilterMode::Strings => FilterMode::Regex,
        FilterMode::Regex => FilterMode::Strings,
    }
}

/// A scan for the query as it stands.
pub open spec fn scan_asked(m: ViewModel) -> (ViewModel, EffectModel) {
    (scan_reset(m), EffectModel::StartScan { or_else_nothing: false })
}

/// A key while the query is typed.
pub open spec fn search_key(m: ViewModel, k: KeyPress) -> (ViewModel, EffectModel) {
    match k.code {
        KeyCode::Tab => (focused(m, Focus::List), EffectModel::Nothing),
        KeyCode::Up | KeyCode::Down => (
            ViewModel { filter_mode: other_mode(m.filter_mode), ..m },
            EffectModel::Nothing,
        ),
        KeyCode::Esc => scan_asked(ViewModel { query_input: Seq::empty(), ..m }),
        KeyCode::Enter => scan_asked(m),
        KeyCode::Backspace => (
            ViewModel { query_input: popped(m.query_input), ..m },
            EffectModel::Nothing,
        ),
        KeyCode::Char(c) => if c == 'u' && k.control {
            (ViewModel { query_input: Seq::empty(), ..m }, EffectModel::Nothing)
        } else {
            match typed_char(k) {
                Some(ch) => (
                    ViewModel { query_input: m.query_input.push(ch), ..m },
                    EffectModel::Nothing,
                ),
                None => (m, EffectModel::Nothing),
            }
        },
        _ => (m, EffectModel::Nothing),
    }
}

/// The save prompt with a message.
pub open spec fn save_message(m: ViewModel, message: Option<Seq<char>>) -> ViewModel {
    ViewModel { save: SaveModel { message, ..m.save }, ..m }
}

/// What comes of asking to save.
pub open spec fn save_asked(m: ViewModel) -> (ViewModel, EffectModel) {
    let name = trim(m.save.filename.text);
    match name_fault(name) {
        Some(fault) => (save_message(m, Some(fault)), EffectModel::Nothing),
        None => if m.scan is None {
            (save_message(m, Some("No scan data to save."@)), EffectModel::Nothing)
        } else {
            (m, EffectModel::Save(name))
        },
    }
}

/// A key in the save prompt.
pub open spec fn save_key(m: ViewModel, k: KeyPress) -> (ViewModel, EffectModel) {
    match k.code {
        KeyCode::Esc => (
            focused(save_message(m, None), Focus::List),
            EffectModel::Nothing,
        ),
        KeyCode::Enter => save_asked(m),
        _ => (
            ViewModel {
                save: SaveModel { filename: edited(m.save.filename, k), ..m.save },
                ..m
            },
            EffectModel::Nothing,
        ),
    }
}

/// The export prompt with a message.
pub open spec fn export_message(m: ViewModel, message: Option<Seq<char>>) -> ViewModel {
    ViewModel { export: ExportModel { message, ..m.export }, ..m }
}

/// What comes of asking to export.
pub open spec fn export_asked(m: ViewModel) -> (ViewModel, EffectModel) {
    match export_answer(m.export, m.list.entries.len(), m.list.selected as nat) {
        ExportAnswer::BadName(e) => (export_message(m, Some(e)), EffectModel::Nothing),
        ExportAnswer::BadRange(e) => (
            focused(export_message(m, Some(e)), Focus::ExportError),
            EffectModel::Nothing,
        ),
        ExportAnswer::Ready(p) => (m, EffectModel::Export(p)),
    }
}

/// A key in the export prompt.
pub open spec fn export_key(m: ViewModel, k: KeyPress) -> (ViewModel, EffectModel) {
    match k.code {
        KeyCode::Esc => (
            focused(export_message(m, None), Focus::List),
            EffectModel::Nothing,
        ),
        KeyCode::Enter => export_asked(m),
        _ => (
            ViewModel { export: export_after(m.export, k), ..m },
            EffectModel::Nothing,
        ),
    }
}

/// The records can be deduplicated: the scan is over and found some.
pub open spec fn dedupable(m: ViewModel) -> bool {
    (m.scan matches Some(s) && s.finished) && m.list.entries.len() > 0
}

/// What comes of asking to deduplicate.
pub open spec fn dedup_asked(m: ViewModel) -> (ViewModel, EffectModel) {
    if m.dedup.filename.len() == 0 {
        (m, EffectModel::Nothing)
    } else if dedupable(m) || one_real_file(m.dataset) {
        (
            m,
            EffectModel::StartDedup {
                name: m.dedup.filename,
                selection: dedupable(m),
                behavior: m.dedup.behavior,
                match_mode: m.dedup.match_mode,
            },
        )
    } else {
        (
            focused(
                saying(m, "Dedup needs a finished scan or one real input file."@),
                Focus::List,
            ),
            EffectModel::Nothing,
        )
    }
}

/// A key in the prompt for deduplicating.
pub open spec fn dedup_key(m: ViewModel, k: KeyPress) -> (ViewModel, EffectModel) {
    match k.code {
        KeyCode::Enter => dedup_asked(m),
        KeyCode::Esc => (focused(m, Focus::List), EffectModel::Nothing),
        _ => (ViewModel { dedup: dedup_after(m.dedup, k), ..m }, EffectModel::Nothing),
    }
}

/// The note of a run that is over.
pub open spec fn dedup_noted(m: ViewModel, note: Option<Seq<char>>) -> ViewModel {
    match note {
        Some(t) => saying(m, "Dedup: "@ + t),
        None => m,
    }
}

/// A key while a run is shown: nothing until it is over.
pub open spec fn dedup_progress_key(m: ViewModel, k: KeyPress) -> (ViewModel, EffectModel) {
    if m.dedup.running {
        (m, EffectModel::Nothing)
    } else if k.code == KeyCode::Enter {
        let done = ViewModel {
            dedup: DedupModel { completion: None, output_path: None, ..m.dedup },
            ..m
        };
        match m.dedup.output_path {
            Some(path) => (done, EffectModel::OpenFile { path, note: m.dedup.completion }),
            None => (
                dedup_noted(focused(done, Focus::List), m.dedup.completion),
                EffectModel::Nothing,
            ),
        }
    } else if k.code == KeyCode::Esc {
        (
            ViewModel {
                dedup: DedupModel { completion: None, output_path: None, ..m.dedup },
                focus: Focus::List,
                ..m
            },
            EffectModel::Nothing,
        )
    } else {
        (m, EffectModel::Nothing)
    }
}

/// What comes of asking for the save prompt.
pub open spec fn save_prompt_asked(m: ViewModel) -> ViewModel {
    match m.scan {
        None => saying(m, "No active scan to save."@),
        Some(s) => if !s.finished {
            saying(m, "Wait for the scan to finish before saving."@)
        } else {
            focused(ViewModel { save: save_opened(m.save), ..m }, Focus::SavePrompt)
        },
    }
}

/// What comes of asking for the export prompt.
pub open spec fn export_prompt_asked(m: ViewModel, formats: Seq<ChoiceModel>) -> ViewModel {
    match m.scan {
        None => saying(m, "No active scan to export."@),
        Some(s) => if !s.finished {
            saying(m, "Wait for the scan to finish before exporting."@)
        } else {
            focused(
                ViewModel {
                    export: export_opened(m.export, formats, offered_stem(m.dataset, "export"@)),
                    ..m
                },
                Focus::ExportPrompt,
            )
        },
    }
}

/// What comes of asking for the prompt for deduplicating.
pub open spec fn dedup_prompt_asked(m: ViewModel) -> ViewModel {
    if m.scan is None && !one_real_file(m.dataset) {
        saying(m, "Dedup needs a finished scan or one real input file."@)
    } else {
        focused(
            ViewModel {
                dedup: DedupModel {
                    filename: offered_stem(m.dataset, "output"@) + "-dedup.logjet"@,
                    behavior: DedupMode::Distinct,
                    match_mode: DedupMatchMode::Hash2,
                    ..m.dedup
                },
                ..m
            },
            Focus::DedupPrompt,
        )
    }
}

/// A list as the pane opens: what the filter holds is chosen.
pub open spec fn pick_opened(chosen: Option<Seq<Seq<char>>>) -> PickModel {
    PickModel {
        cursor: 0,
        scroll: 0,
        chosen: match chosen {
            Some(s) => s,
            None => Seq::empty(),
        },
    }
}

/// What comes of asking for the pane of severities and services.
pub open spec fn pane_asked(m: ViewModel, catalog: Option<CatalogModel>) -> ViewModel {
    match catalog {
        None => saying(m, "Field catalog still scanning\u{2026} try again in a moment"@),
        Some(_) => focused(
            ViewModel {
                field_filter: Some(
                    FilterStateModel {
                        panel: FilterPanel::Severities,
                        severity: pick_opened(m.active_filter.severities),
                        service: pick_opened(m.active_filter.services),
                        filter_text: Seq::empty(),
                    },
                ),
                ..m
            },
            Focus::FieldFilter,
        ),
    }
}

/// The filter of the pane applied.
pub open spec fn pane_applied(m: ViewModel, p: FilterStateModel) -> (ViewModel, EffectModel) {
    let filter = chosen_filter(p);
    (
        scan_reset(
            ViewModel {
                field_filter: None,
                active_filter: filter,
                status: filter_note(filter),
                ..m
            },
        ),
        EffectModel::StartScan { or_else_nothing: true },
    )
}

/// A key in the pane of severities and services.
pub open spec fn pane_key(
    m: ViewModel,
    k: KeyPress,
    catalog: Option<CatalogModel>,
    screen_height: int,
) -> (ViewModel, EffectModel) {
    match (catalog, m.field_filter) {
        (Some(c), Some(p)) => if k.code == KeyCode::Esc {
            (
                focused(ViewModel { field_filter: None, ..m }, Focus::List),
                EffectModel::Nothing,
            )
        } else if k.code == KeyCode::Enter {
            pane_applied(m, p)
        } else {
            (
                ViewModel {
                    field_filter: Some(pane_after(p, k.code, c, screen_height)),
                    ..m
                },
                EffectModel::Nothing,
            )
        },
        _ => (focused(m, Focus::List), EffectModel::Nothing),
    }
}

/// A key on the list.
pub open spec fn list_key(
    m: ViewModel,
    k: KeyPress,
    catalog: Option<CatalogModel>,
    formats: Seq<ChoiceModel>,
) -> (ViewModel, EffectModel) {
    match k.code {
        KeyCode::Tab => (focused(m, Focus::Search), EffectModel::Nothing),
        KeyCode::Up => selection_moved(m, -1),
        KeyCode::Down => selection_moved(m, 1),
        KeyCode::PageUp => selection_moved(m, -10),
        KeyCode::PageDown => selection_moved(m, 10),
        KeyCode::Home => refreshed(
            ViewModel { list: ResultModel { selected: 0, offset: 0, ..m.list }, ..m },
        ),
        KeyCode::End => if m.list.entries.len() == 0 {
            (m, EffectModel::Nothing)
        } else {
            (
                ViewModel {
                    list: ResultModel { selected: m.list.entries.len() - 1, ..m.list },
                    ..m
                },
                EffectModel::LoadDetail,
            )
        },
        KeyCode::Enter => (modal_opened(m), EffectModel::Nothing),
        KeyCode::Char(c) => if c == 's' || c == 'S' {
            (save_prompt_asked(m), EffectModel::Nothing)
        } else if c == 'e' || c == 'E' {
            (export_prompt_asked(m, formats), EffectModel::Nothing)
        } else if c == 'd' || c == 'D' {
            (dedup_prompt_asked(m), EffectModel::Nothing)
        } else if c == 'i' || c == 'I' {
            (ViewModel { details_visible: !m.details_visible, ..m }, EffectModel::Nothing)
        } else if c == 't' || c == 'T' {
            tail_asked(m)
        } else if c == 'f' || c == 'F' {
            (pane_asked(m, catalog), EffectModel::Nothing)
        } else if c == '/' {
            (focused(m, Focus::Search), EffectModel::Nothing)
        } else {
            (m, EffectModel::Nothing)
        },
        _ => (m, EffectModel::Nothing),
    }
}

/// A key that moves the selection.
#[verifier::allow_in_spec]
pub fn moves_selection(code: KeyCode) -> bool
    returns
        (code == KeyCode::Up || code == KeyCode::Down || code == KeyCode::PageUp || code
            == KeyCode::PageDown || code == KeyCode::Home || code == KeyCode::End),
{
    matches!(
        code,
        KeyCode::Up | KeyCode::Down | KeyCode::PageUp | KeyCode::PageDown | KeyCode::Home
            | KeyCode::End
    )
}

/// A key while nothing is followed.
pub open spec fn plain_key(
    m: ViewModel,
    k: KeyPress,
    catalog: Option<CatalogModel>,
    formats: Seq<ChoiceModel>,
    screen_height: int,
) -> (ViewModel, EffectModel) {
    match m.focus {
        Focus::Modal => modal_key(m, k),
        Focus::FieldFilter => pane_key(m, k, catalog, screen_height),
        Focus::SavePrompt => save_key(m, k),
        Focus::SaveError => (
            focused(save_message(m, None), Focus::SavePrompt),
            EffectModel::Nothing,
        ),
        Focus::ExportPrompt => export_key(m, k),
        Focus::ExportError => (
            focused(export_message(m, None), Focus::ExportPrompt),
            EffectModel::Nothing,
        ),
        Focus::ExportProgress => (m, EffectModel::Nothing),
        Focus::DedupPrompt => dedup_key(m, k),
        Focus::DedupProgress => dedup_progress_key(m, k),
        Focus::Search => search_key(m, k),
        Focus::List => if is_letter(k.code, 'q', 'Q') {
            (m, EffectModel::Quit)
        } else {
            list_key(m, k, catalog, formats)
        },
    }
}

/// A key. While the file is followed, every key ends that; on the list, one that
/// moves the selection is carried out as well.
pub open spec fn key_pressed(
    m: ViewModel,
    k: KeyPress,
    catalog: Option<CatalogModel>,
    formats: Seq<ChoiceModel>,
    screen_height: int,
) -> (ViewModel, EffectModel) {
    if !m.tail_mode {
        plain_key(m, k, catalog, formats, screen_height)
    } else if m.focus == Focus::List && moves_selection(k.code) {
        plain_key(tail_stopped(m), k, catalog, formats, screen_height)
    } else {
        (tail_stopped(m), EffectModel::Nothing)
    }
}

} // verus!
