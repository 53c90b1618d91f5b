//! What keys do.
use vstd::prelude::*;

use crate::commands::view::detail::render_modal_message;
use crate::commands::view::field_filter::{
    describe_filter, CatalogModel, FieldCatalog, FieldFilterState, FilterPanel, NamePick,
};
use crate::commands::view::keys::{is_letter, pop_char, typed_char, KeyCode, KeyPress};
use crate::commands::view::prompts::{
    find_name_fault, DedupPrompt, ExportFault, ExportPrompt, SavePrompt,
};
use crate::commands::view::state::{
    dedup_asked, dedup_key, dedup_noted, dedup_progress_key, dedup_prompt_asked, dedupable,
    describe_scan, export_asked, export_key, export_prompt_asked, fresh_scan, key_pressed,
    list_key, modal_key, modal_neighbour, modal_opened, moves_selection, offered_formats,
    one_real_file, other_mode, pane_applied, pane_asked, pane_key, plain_key, refreshed,
    save_asked, save_key, save_prompt_asked, scan_begun, scan_reset, scrolled_down, scrolled_up,
    search_key, selection_moved, state_ok, tail_asked, tail_stopped, DedupPlan, Effect, ModalPane,
    ResultList, ViewState,
};
use crate::commands::view::types::{
    choices_view, discover_export_format_choices, ExportFormatChoice, Focus, ViewOrder,
};
use crate::dataset::Dataset;
use crate::dedup::{DedupMatchMode, DedupMode};
use crate::exporter::ExporterRegistry;
use crate::predicate::{FieldFilter, FilterMode};
use crate::text::seqs::trimmed;
use crate::text::strings::{chars_of, is_blank, push_char};

verus! {

/// The model of an optional catalogue.
pub open spec fn catalog_option(c: Option<&FieldCatalog>) -> Option<CatalogModel> {
    match c {
        Some(x) => Some(x@),
        None => None,
    }
}

impl ViewState {
    /// Every part is well-formed.
    pub open spec fn wf(&self) -> bool {
        &&& state_ok(self@)
        &&& self.field_filter matches Some(p) ==> p.wf()
        &&& self.active_filter.severities matches Some(s) ==> s.wf()
        &&& self.active_filter.services matches Some(s) ==> s.wf()
    }

    /// The screen as it starts.
    pub fn new(
        dataset: Dataset,
        view_order: ViewOrder,
        hex_payload: bool,
        tail: bool,
        export_formats: Vec<ExportFormatChoice>,
    ) -> (r: Self)
        requires
            dataset.wf(),
            export_formats@.len() > 0,
        ensures
            r.wf(),
            r@ == crate::commands::view::state::first_screen(
                dataset,
                view_order,
                hex_payload,
                tail,
                choices_view(export_formats@),
            ),
    {
        let r = ViewState {
            input: dataset.primary_path().to_owned(),
            dataset,
            view_order,
            hex_payload,
            focus: Focus::Search,
            filter_mode: FilterMode::Strings,
            query_input: String::new(),
            applied_query: String::new(),
            status: "Type a filter and press Enter to scan matching records".to_owned(),
            list: ResultList::new(),
            modal: ModalPane { text: None, scroll: 0, info_visible: false },
            details_visible: false,
            save: SavePrompt::new(),
            export: ExportPrompt::new(export_formats),
            dedup: DedupPrompt::new(),
            scan: None,
            tail_on_launch: tail,
            tail_mode: false,
            tail_marker: None,
            field_filter: None,
            active_filter: FieldFilter::new(),
        };
        assert(r.query_input@ =~= Seq::empty());
        assert(r.applied_query@ =~= Seq::empty());
        r
    }

    /// Follows nothing any more.
    pub fn stop_tail_mode(&mut self)
        requires
            old(self).wf(),
        ensures
            final(self).wf(),
            final(self)@ == tail_stopped(old(self)@),
    {
        self.tail_mode = false;
        self.tail_marker = None;
    }

    /// Prepares for a scan.
    pub fn reset_for_scan(&mut self)
        requires
            old(self).wf(),
        ensures
            final(self).wf(),
            final(self)@ == scan_reset(old(self)@),
    {
        self.stop_tail_mode();
        self.scan = None;
        self.list = ResultList::new();
        self.modal.text = None;
        self.modal.scroll = 0;
        self.applied_query = self.query_input.clone();
        self.focus = Focus::List;
    }

    /// A scan has started.
    pub fn scan_started(&mut self)
        requires
            old(self).wf(),
        ensures
            final(self).wf(),
            final(self)@ == scan_begun(old(self)@),
    {
        self.status = describe_scan(
            self.dataset.len(),
            self.applied_query.as_str(),
            self.view_order,
            None,
        );
        self.scan = Some(fresh_scan());
    }

    fn apply_filter(&mut self) -> (r: Effect)
        requires
            old(self).wf(),
        ensures
            final(self).wf(),
            (final(self)@, r@) == crate::commands::view::state::scan_asked(old(self)@),
    {
        self.reset_for_scan();
        Effect::StartScan { or_else_nothing: false }
    }

    /// Moves the selection.
    pub fn move_selection(&mut self, delta: isize) -> (r: Effect)
        requires
            old(self).wf(),
        ensures
            final(self).wf(),
            (final(self)@, r@) == selection_moved(old(self)@, delta as int),
    {
        if self.list.move_selection(delta) {
            Effect::LoadDetail
        } else {
            Effect::Nothing
        }
    }

    fn refresh_selected_detail(&mut self) -> (r: Effect)
        requires
            old(self).wf(),
        ensures
            final(self).wf(),
            (final(self)@, r@) == refreshed(old(self)@),
    {
        if self.list.entries.len() == 0 {
            self.list.detail = None;
            Effect::Nothing
        } else {
            Effect::LoadDetail
        }
    }

    fn open_modal(&mut self)
        requires
            old(self).wf(),
        ensures
            final(self).wf(),
            final(self)@ == modal_opened(old(self)@),
    {
        if let Some(detail) = &self.list.detail {
            self.modal.text = Some(render_modal_message(detail, self.hex_payload));
            self.modal.scroll = 0;
            self.focus = Focus::Modal;
        }
    }

    /// Asks to follow the file.
    pub fn start_tail_mode(&mut self) -> (r: Effect)
        requires
            old(self).wf(),
        ensures
            final(self).wf(),
            (final(self)@, r@) == tail_asked(old(self)@),
    {
        if self.dataset.len() != 1 {
            self.status = "Tail mode needs exactly one input file.".to_owned();
            return Effect::Nothing;
        }
        if self.view_order != ViewOrder::Concat {
            self.status = "Tail mode only works with concat ordering.".to_owned();
            return Effect::Nothing;
        }
        if self.dataset.is_stdin() {
            self.status = "Tail mode needs a real file, not stdin.".to_owned();
            return Effect::Nothing;
        }
        match self.scan {
            None => {
                self.status = "No active scan to tail.".to_owned();
                Effect::Nothing
            },
            Some(scan) => {
                if !scan.finished {
                    self.status = "Wait for the scan to finish before tailing.".to_owned();
                    Effect::Nothing
                } else if self.tail_mode {
                    Effect::Nothing
                } else {
                    Effect::StartTail
                }
            },
        }
    }

    fn scroll_modal_up(&mut self, by: u16)
        requires
            old(self).wf(),
        ensures
            final(self).wf(),
            final(self)@ == crate::commands::view::state::modal_at(
                old(self)@,
                scrolled_up(old(self)@.modal.scroll, by as int),
            ),
    {
        if self.modal.scroll < by {
            self.modal.scroll = 0;
        } else {
            self.modal.scroll = self.modal.scroll - by;
        }
    }

    fn scroll_modal_down(&mut self, by: u16)
        requires
            old(self).wf(),
        ensures
            final(self).wf(),
            final(self)@ == crate::commands::view::state::modal_at(
                old(self)@,
                scrolled_down(old(self)@.modal.scroll, by as int),
            ),
    {
        if 0xffff - self.modal.scroll < by {
            self.modal.scroll = 0xffff;
        } else {
            self.modal.scroll = self.modal.scroll + by;
        }
    }

    fn show_neighbour(&mut self, delta: isize) -> (r: Effect)
        requires
            old(self).wf(),
        ensures
            final(self).wf(),
            (final(self)@, r@) == modal_neighbour(old(self)@, delta as int),
    {
        if self.list.move_selection(delta) {
            Effect::LoadDetail
        } else {
            self.open_modal();
            Effect::Nothing
        }
    }

    fn handle_modal_key(&mut self, k: KeyPress) -> (r: Effect)
        requires
            old(self).wf(),
        ensures
            final(self).wf(),
            (final(self)@, r@) == modal_key(old(self)@, k),
    {
        match k.code {
            KeyCode::Esc => {
                self.focus = Focus::List;
                self.modal.text = None;
                self.modal.scroll = 0;
                Effect::Nothing
            },
            KeyCode::Up => {
                self.scroll_modal_up(1);
                Effect::Nothing
            },
            KeyCode::Down => {
                self.scroll_modal_down(1);
                Effect::Nothing
            },
            KeyCode::PageUp => {
                self.scroll_modal_up(10);
                Effect::Nothing
            },
            KeyCode::PageDown => {
                self.scroll_modal_down(10);
                Effect::Nothing
            },
            KeyCode::Left => self.show_neighbour(-1),
            KeyCode::Right => self.show_neighbour(1),
            _ => {
                if is_letter(k.code, 'i', 'I') {
                    self.modal.info_visible = !self.modal.info_visible;
                    Effect::Nothing
                } else if is_letter(k.code, 't', 'T') {
                    self.start_tail_mode()
                } else {
                    Effect::Nothing
                }
            },
        }
    }

    fn handle_search_key(&mut self, k: KeyPress) -> (r: Effect)
        requires
            old(self).wf(),
        ensures
            final(self).wf(),
            (final(self)@, r@) == search_key(old(self)@, k),
    {
        match k.code {
            KeyCode::Tab => {
                self.focus = Focus::List;
            },
            KeyCode::Up | KeyCode::Down => {
                self.filter_mode = other_mode(self.filter_mode);
            },
            KeyCode::Esc => {
                self.query_input = String::new();
                assert(self.query_input@ =~= Seq::empty());
                return self.apply_filter();
            },
            KeyCode::Enter => {
                return self.apply_filter();
            },
            KeyCode::Backspace => {
                pop_char(&mut self.query_input);
            },
            KeyCode::Char(c) => {
                if c == 'u' && k.control {
                    self.query_input = String::new();
                    assert(self.query_input@ =~= Seq::empty());
                } else if let Some(ch) = typed_char(k) {
                    push_char(&mut self.query_input, ch);
                }
            },
            _ => {},
        }
        Effect::Nothing
    }

    fn save_current_results(&mut self) -> (r: Effect)
        requires
            old(self).wf(),
        ensures
            final(self).wf(),
            (final(self)@, r@) == save_asked(old(self)@),
    {
        let name = trimmed(&chars_of(self.save.filename.text.as_str()));
        if let Some(fault) = find_name_fault(name.as_str()) {
            self.save.message = Some(fault);
            return Effect::Nothing;
        }
        if self.scan.is_none() {
            self.save.message = Some("No scan data to save.".to_owned());
            return Effect::Nothing;
        }
        Effect::Save(name)
    }

    fn handle_save_prompt_key(&mut self, k: KeyPress) -> (r: Effect)
        requires
            old(self).wf(),
        ensures
            final(self).wf(),
            (final(self)@, r@) == save_key(old(self)@, k),
    {
        match k.code {
            KeyCode::Esc => {
                self.focus = Focus::List;
                self.save.message = None;
                Effect::Nothing
            },
            KeyCode::Enter => self.save_current_results(),
            _ => {
                self.save.filename.edit(k);
                Effect::Nothing
            },
        }
    }

    fn export_current_results(&mut self) -> (r: Effect)
        requires
            old(self).wf(),
        ensures
            final(self).wf(),
            (final(self)@, r@) == export_asked(old(self)@),
    {
        match self.export.plan(self.list.entries.len(), self.list.selected) {
            Ok(plan) => Effect::Export(plan),
            Err(ExportFault::Name(e)) => {
                self.export.message = Some(e);
                Effect::Nothing
            },
            Err(ExportFault::Range(e)) => {
                self.export.message = Some(e);
                self.focus = Focus::ExportError;
                Effect::Nothing
            },
        }
    }

    fn handle_export_prompt_key(&mut self, k: KeyPress) -> (r: Effect)
        requires
            old(self).wf(),
        ensures
            final(self).wf(),
            (final(self)@, r@) == export_key(old(self)@, k),
    {
        match k.code {
            KeyCode::Esc => {
                self.focus = Focus::List;
                self.export.message = None;
                Effect::Nothing
            },
            KeyCode::Enter => self.export_current_results(),
            _ => {
                self.export.press(k);
                Effect::Nothing
            },
        }
    }

    /// Whether the records can be deduplicated.
    pub fn can_dedup(&self) -> (r: bool)
        ensures
            r == dedupable(self@),
    {
        match self.scan {
            Some(scan) => scan.finished && self.list.entries.len() > 0,
            None => false,
        }
    }

    /// Whether the file can be followed.
    pub fn can_tail(&self) -> (r: bool)
        ensures
            r == (one_real_file(self@.dataset) && self@.view_order == ViewOrder::Concat),
    {
        self.dataset.len() == 1 && !self.dataset.is_stdin() && self.view_order
            == ViewOrder::Concat
    }

    fn start_dedup(&mut self) -> (r: Effect)
        requires
            old(self).wf(),
        ensures
            final(self).wf(),
            (final(self)@, r@) == dedup_asked(old(self)@),
    {
        if is_blank(self.dedup.filename.as_str()) {
            return Effect::Nothing;
        }
        let selection = self.can_dedup();
        if selection || (self.dataset.len() == 1 && !self.dataset.is_stdin()) {
            Effect::StartDedup(
                DedupPlan {
                    name: self.dedup.filename.clone(),
                    selection,
                    behavior: self.dedup.behavior,
                    match_mode: self.dedup.match_mode,
                },
            )
        } else {
            self.status = "Dedup needs a finished scan or one real input file.".to_owned();
            self.focus = Focus::List;
            Effect::Nothing
        }
    }

    fn handle_dedup_prompt_key(&mut self, k: KeyPress) -> (r: Effect)
        requires
            old(self).wf(),
        ensures
            final(self).wf(),
            (final(self)@, r@) == dedup_key(old(self)@, k),
    {
        match k.code {
            KeyCode::Enter => self.start_dedup(),
            KeyCode::Esc => {
                self.focus = Focus::List;
                Effect::Nothing
            },
            _ => {
                self.dedup.press(k);
                Effect::Nothing
            },
        }
    }

    /// Shows the note of a run that is over.
    pub fn note_dedup(&mut self, note: Option<String>)
        requires
            old(self).wf(),
        ensures
            final(self).wf(),
            final(self)@ == dedup_noted(
                old(self)@,
                crate::dedup::detect::text_option(note),
            ),
    {
        if let Some(text) = note {
            let mut status = "Dedup: ".to_owned();
            status.append(text.as_str());
            self.status = status;
        }
    }

    fn handle_dedup_progress_key(&mut self, k: KeyPress) -> (r: Effect)
        requires
            old(self).wf(),
        ensures
            final(self).wf(),
            (final(self)@, r@) == dedup_progress_key(old(self)@, k),
    {
        if self.dedup.running {
            return Effect::Nothing;
        }
        match k.code {
            KeyCode::Enter => {
                let note = self.dedup.completion.take();
                match self.dedup.output_path.take() {
                    Some(path) => Effect::OpenFile { path, note },
                    None => {
                        self.focus = Focus::List;
                        self.note_dedup(note);
                        Effect::Nothing
                    },
                }
            },
            KeyCode::Esc => {
                self.dedup.completion = None;
                self.dedup.output_path = None;
                self.focus = Focus::List;
                Effect::Nothing
            },
            _ => Effect::Nothing,
        }
    }

    fn open_save_prompt(&mut self)
        requires
            old(self).wf(),
        ensures
            final(self).wf(),
            final(self)@ == save_prompt_asked(old(self)@),
    {
        match self.scan {
            None => {
                self.status = "No active scan to save.".to_owned();
            },
            Some(scan) => {
                if !scan.finished {
                    self.status = "Wait for the scan to finish before saving.".to_owned();
                } else {
                    self.save.open();
                    self.focus = Focus::SavePrompt;
                }
            },
        }
    }

    fn open_export_prompt(&mut self, exporters: &ExporterRegistry)
        requires
            old(self).wf(),
        ensures
            final(self).wf(),
            final(self)@ == export_prompt_asked(old(self)@, offered_formats(exporters@)),
    {
        match self.scan {
            None => {
                self.status = "No active scan to export.".to_owned();
            },
            Some(scan) => {
                if !scan.finished {
                    self.status = "Wait for the scan to finish before exporting.".to_owned();
                } else {
                    let formats = discover_export_format_choices(exporters);
                    let stem = self.dataset.default_stem("export");
                    self.export.open(formats, stem.as_str());
                    self.focus = Focus::ExportPrompt;
                }
            },
        }
    }

    fn open_dedup_prompt(&mut self)
        requires
            old(self).wf(),
        ensures
            final(self).wf(),
            final(self)@ == dedup_prompt_asked(old(self)@),
    {
        if self.scan.is_none() && (self.dataset.len() != 1 || self.dataset.is_stdin()) {
            self.status = "Dedup needs a finished scan or one real input file.".to_owned();
            return;
        }
        let mut filename = self.dataset.default_stem("output");
        filename.append("-dedup.logjet");
        self.dedup.filename = filename;
        self.dedup.behavior = DedupMode::Distinct;
        self.dedup.match_mode = DedupMatchMode::Hash2;
        self.focus = Focus::DedupPrompt;
    }

    fn open_field_filter(&mut self, catalog: Option<&FieldCatalog>)
        requires
            old(self).wf(),
        ensures
            final(self).wf(),
            final(self)@ == pane_asked(old(self)@, catalog_option(catalog)),
    {
        if catalog.is_none() {
            self.status = "Field catalog still scanning\u{2026} try again in a moment".to_owned();
            return;
        }
        let filter_text = String::new();
        assert(filter_text@ =~= Seq::empty());
        self.field_filter = Some(
            FieldFilterState {
                panel: FilterPanel::Severities,
                severity: NamePick::starting(&self.active_filter.severities),
                service: NamePick::starting(&self.active_filter.services),
                filter_text,
            },
        );
        self.focus = Focus::FieldFilter;
    }

    fn apply_field_filter(&mut self, pane: FieldFilterState) -> (r: Effect)
        requires
            old(self).wf(),
            pane.wf(),
        ensures
            final(self).wf(),
            (final(self)@, r@) == pane_applied(old(self)@, pane@),
    {
        self.field_filter = None;
        self.active_filter = pane.filter();
        self.status = describe_filter(&self.active_filter);
        self.reset_for_scan();
        Effect::StartScan { or_else_nothing: true }
    }

    fn handle_field_filter_key(
        &mut self,
        k: KeyPress,
        catalog: Option<&FieldCatalog>,
        screen_height: u16,
    ) -> (r: Effect)
        requires
            old(self).wf(),
        ensures
            final(self).wf(),
            (final(self)@, r@) == pane_key(
                old(self)@,
                k,
                catalog_option(catalog),
                screen_height as int,
            ),
    {
        match catalog {
            None => {
                self.focus = Focus::List;
                Effect::Nothing
            },
            Some(names) => match self.field_filter.take() {
                None => {
                    self.focus = Focus::List;
                    Effect::Nothing
                },
                Some(mut pane) => match k.code {
                    KeyCode::Esc => {
                        self.focus = Focus::List;
                        Effect::Nothing
                    },
                    KeyCode::Enter => self.apply_field_filter(pane),
                    _ => {
                        pane.press(k.code, names, screen_height);
                        self.field_filter = Some(pane);
                        Effect::Nothing
                    },
                },
            },
        }
    }

    fn handle_list_key(
        &mut self,
        k: KeyPress,
        catalog: Option<&FieldCatalog>,
        exporters: &ExporterRegistry,
    ) -> (r: Effect)
        requires
            old(self).wf(),
        ensures
            final(self).wf(),
            (final(self)@, r@) == list_key(
                old(self)@,
                k,
                catalog_option(catalog),
                offered_formats(exporters@),
            ),
    {
        match k.code {
            KeyCode::Tab => {
                self.focus = Focus::Search;
            },
            KeyCode::Up => {
                return self.move_selection(-1);
            },
            KeyCode::Down => {
                return self.move_selection(1);
            },
            KeyCode::PageUp => {
                return self.move_selection(-10);
            },
            KeyCode::PageDown => {
                return self.move_selection(10);
            },
            KeyCode::Home => {
                self.list.selected = 0;
                self.list.offset = 0;
                return self.refresh_selected_detail();
            },
            KeyCode::End => {
                if self.list.entries.len() > 0 {
                    self.list.selected = self.list.entries.len() - 1;
                    return Effect::LoadDetail;
                }
            },
            KeyCode::Enter => {
                self.open_modal();
            },
            KeyCode::Char(c) => {
                if c == 's' || c == 'S' {
                    self.open_save_prompt();
                } else if c == 'e' || c == 'E' {
                    self.open_export_prompt(exporters);
                } else if c == 'd' || c == 'D' {
                    self.open_dedup_prompt();
                } else if c == 'i' || c == 'I' {
                    self.details_visible = !self.details_visible;
                } else if c == 't' || c == 'T' {
                    return self.start_tail_mode();
                } else if c == 'f' || c == 'F' {
                    self.open_field_filter(catalog);
                } else if c == '/' {
                    self.focus = Focus::Search;
                }
            },
            _ => {},
        }
        Effect::Nothing
    }

    fn handle_plain_key(
        &mut self,
        k: KeyPress,
        catalog: Option<&FieldCatalog>,
        exporters: &ExporterRegistry,
        screen_height: u16,
    ) -> (r: Effect)
        requires
            old(self).wf(),
        ensures
            final(self).wf(),
            (final(self)@, r@) == plain_key(
                old(self)@,
                k,
                catalog_option(catalog),
                offered_formats(exporters@),
                screen_height as int,
            ),
    {
        match self.focus {
            Focus::Modal => self.handle_modal_key(k),
            Focus::FieldFilter => self.handle_field_filter_key(k, catalog, screen_height),
            Focus::SavePrompt => self.handle_save_prompt_key(k),
            Focus::SaveError => {
                self.focus = Focus::SavePrompt;
                self.save.message = None;
                Effect::Nothing
            },
            Focus::ExportPrompt => self.handle_export_prompt_key(k),
            Focus::ExportError => {
                self.focus = Focus::ExportPrompt;
                self.export.message = None;
                Effect::Nothing
            },
            Focus::ExportProgress => Effect::Nothing,
            Focus::DedupPrompt => self.handle_dedup_prompt_key(k),
            Focus::DedupProgress => self.handle_dedup_progress_key(k),
            Focus::Search => self.handle_search_key(k),
            Focus::List => {
                if is_letter(k.code, 'q', 'Q') {
                    Effect::Quit
                } else {
                    self.handle_list_key(k, catalog, exporters)
                }
            },
        }
    }

    /// What a key does. While the file is followed, every key ends that; on the
    /// list, one that moves the selection is carried out as well.
    pub fn handle_key(
        &mut self,
        k: KeyPress,
        catalog: Option<&FieldCatalog>,
        exporters: &ExporterRegistry,
        screen_height: u16,
    ) -> (r: Effect)
        requires
            old(self).wf(),
        ensures
            final(self).wf(),
            (final(self)@, r@) == key_pressed(
                old(self)@,
                k,
                catalog_option(catalog),
                offered_formats(exporters@),
                screen_height as int,
            ),
    {
        if self.tail_mode {
            let goes_on = moves_selection(k.code) && self.focus == Focus::List;
            self.stop_tail_mode();
            if !goes_on {
                return Effect::Nothing;
            }
        }
        self.handle_plain_key(k, catalog, exporters, screen_height)
    }
}

} // verus!
