//! The interactive screen: keys, prompts, reports and drawing.

use ljx::commands::view::catalog::FoundNames;
use ljx::commands::view::field_filter::{visible_names, visible_rows, FieldCatalog, FilterPanel};
use ljx::commands::view::keys::{KeyCode, KeyPress, LineEdit};
use ljx::commands::view::lines::{
    fit_modal_body, format_size_parts, parse_export_selection, severity_initial,
};
use ljx::commands::view::paint::Paint;
use ljx::commands::view::popups::ModalParts;
use ljx::commands::view::prompts::{
    describe_running, find_name_fault, replace_extension, ExportPrompt, ProgressReport,
};
use ljx::commands::view::scan::{
    catalog_workers, count_up, default_worker_count, payload_offset, plan_entry, temp_file_name,
    write_spool_record, Batcher, BlockOrder, EntryPlan, MergeQueue,
};
use ljx::commands::view::state::{Effect, ViewState};
use ljx::commands::view::style::{centered_rect_fixed_height, inner_area, render_save_error_message, Area};
use ljx::commands::view::text::{fit_to_width, hex_dump, hex_preview, smart_wrap};
use ljx::commands::view::types::{
    DetailRecord, EntryMeta, ExportField, ExportFormatChoice, Focus, ListRowSummary, ViewOrder,
};
use ljx::commands::view::updates::{DedupUpdate, ExportUpdate, ScanUpdate};
use ljx::dataset::{Dataset, DatasetEntry};
use ljx::dataset_index::{build_index, summarise_block};
use ljx::dedup::{DedupMatchMode, DedupMode};
use ljx::error::Error;
use ljx::exporter::{Candidate, ExporterRegistry, PluginInfo};
use ljx::predicate::{FilterMode, PredicateArgs};
use ljx::record::{RecordType, StreamRecord};

fn key(code: KeyCode) -> KeyPress {
    KeyPress { code, control: false, alt: false }
}

fn meta(seq: u64) -> EntryMeta {
    EntryMeta {
        offset: 0,
        record_type: RecordType::Logs,
        seq,
        ts_unix_ns: seq,
        payload_len: 0,
        source_path: format!("logs/{seq}.logjet"),
    }
}

fn detail(seq: u64, payload: &[u8]) -> DetailRecord {
    DetailRecord { meta: meta(seq), payload: payload.to_vec() }
}

fn record(seq: u64, ts_unix_ns: u64, payload: &[u8]) -> StreamRecord {
    StreamRecord { record_type: RecordType::Logs, seq, ts_unix_ns, payload: payload.to_vec() }
}

fn exporters() -> ExporterRegistry {
    let plugin = PluginInfo {
        path: "libcsv.so".to_string(),
        format_name: "csv".to_string(),
        display_name: "CSV".to_string(),
        capabilities: 0,
    };
    let candidate = Candidate { path: "libcsv.so".to_string(), loaded: Ok(plugin) };
    ExporterRegistry::discover(Vec::new(), Vec::new(), vec![candidate])
}

fn dataset(paths: &[&str]) -> Dataset {
    Dataset::new(paths.iter().map(|p| DatasetEntry::new(p.to_string(), 0, None, None)).collect())
}

fn screen_on(paths: &[&str]) -> ViewState {
    ViewState::new(dataset(paths), ViewOrder::Concat, false, false, vec![ExportFormatChoice::ndjson()])
}

/// A screen whose scan is over and found `n` records.
fn screen_with(n: u64) -> ViewState {
    let mut s = screen_on(&["logs/day.logjet"]);
    s.reset_for_scan();
    s.scan_started();
    let (refresh, _) = s.drain_scan_updates(vec![
        ScanUpdate::Batch((0..n).map(meta).collect()),
        ScanUpdate::Finished { scanned: 2 * n, matched: n },
    ]);
    assert_eq!(refresh, n > 0);
    if n > 0 {
        s.detail_loaded(detail(0, b"first"));
    }
    s
}

fn press(s: &mut ViewState, code: KeyCode) -> Effect {
    s.handle_key(key(code), None, &exporters(), 40)
}

fn type_text(s: &mut ViewState, text: &str) {
    for c in text.chars() {
        press(s, KeyCode::Char(c));
    }
}

#[test]
fn lines_are_edited_at_the_cursor() {
    let mut l = LineEdit::with_text("ac");
    l.edit(key(KeyCode::Left));
    l.edit(key(KeyCode::Char('b')));
    assert_eq!((l.text.as_str(), l.cursor), ("abc", 2));
    l.edit(key(KeyCode::Backspace));
    assert_eq!((l.text.as_str(), l.cursor), ("ac", 1));
    l.edit(key(KeyCode::Delete));
    assert_eq!((l.text.as_str(), l.cursor), ("a", 1));
    l.edit(key(KeyCode::Home));
    l.edit(key(KeyCode::Left));
    assert_eq!(l.cursor, 0);
    l.edit(key(KeyCode::End));
    l.edit(key(KeyCode::Right));
    assert_eq!(l.cursor, 1);
    l.edit(KeyPress { code: KeyCode::Char('x'), control: false, alt: true });
    assert_eq!(l.text, "a");
    l.edit(KeyPress { code: KeyCode::Char('u'), control: true, alt: false });
    assert_eq!((l.text.as_str(), l.cursor), ("", 0));
}

#[test]
fn a_query_starts_a_scan() {
    let mut s = screen_on(&["a.logjet"]);
    assert_eq!(s.focus, Focus::Search);
    type_text(&mut s, "err");
    press(&mut s, KeyCode::Backspace);
    press(&mut s, KeyCode::Up);
    assert_eq!(s.filter_mode, FilterMode::Regex);
    assert!(matches!(press(&mut s, KeyCode::Enter), Effect::StartScan { or_else_nothing: false }));
    assert_eq!(s.applied_query, "er");
    assert_eq!(s.focus, Focus::List);
    s.scan_started();
    assert_eq!(s.status, "Scanning \"er\" [concat]");
}

#[test]
fn a_scan_over_several_files_says_so() {
    let mut s = screen_on(&["a.logjet", "b.logjet"]);
    s.reset_for_scan();
    s.scan_started();
    assert_eq!(s.status, "Scanning all records across 2 files [concat]");
    s.drain_scan_updates(vec![ScanUpdate::Batch(vec![meta(1)])]);
    assert_eq!(s.status, "Scanning all records across 2 files [concat]: 1 matches buffered");
}

#[test]
fn only_q_on_the_list_leaves() {
    let mut s = screen_with(3);
    assert!(matches!(press(&mut s, KeyCode::Char('Q')), Effect::Quit));
    press(&mut s, KeyCode::Char('/'));
    assert!(matches!(press(&mut s, KeyCode::Char('q')), Effect::Nothing));
    assert_eq!(s.query_input, "q");
}

#[test]
fn the_selection_stays_in_the_list() {
    let mut s = screen_with(12);
    assert_eq!(s.status, "Scan complete: 12 matches out of 24 records");
    assert!(matches!(press(&mut s, KeyCode::Up), Effect::Nothing));
    assert!(matches!(press(&mut s, KeyCode::PageDown), Effect::LoadDetail));
    assert_eq!(s.list.selected, 10);
    press(&mut s, KeyCode::PageDown);
    assert_eq!(s.list.selected, 11);
    press(&mut s, KeyCode::Home);
    assert_eq!(s.list.selected, 0);
    press(&mut s, KeyCode::End);
    assert_eq!(s.list.selected, 11);
    assert_eq!(s.current_record_filename().as_deref(), Some("11.logjet"));
    s.scroll_list(5);
    assert_eq!(s.list.offset, 7);
    let mut none = screen_with(0);
    assert!(matches!(press(&mut none, KeyCode::Down), Effect::Nothing));
    assert!(none.current_record_filename().is_none());
}

#[test]
fn a_record_opens_in_full() {
    let mut s = screen_with(2);
    press(&mut s, KeyCode::Enter);
    assert_eq!(s.focus, Focus::Modal);
    assert_eq!(s.modal.text.as_deref(), Some("first"));
    press(&mut s, KeyCode::Down);
    assert_eq!(s.modal.scroll, 1);
    assert!(matches!(press(&mut s, KeyCode::Right), Effect::LoadDetail));
    s.detail_loaded(detail(1, b"second"));
    assert_eq!(s.modal.text.as_deref(), Some("second"));
    assert_eq!(s.modal.scroll, 0);
    press(&mut s, KeyCode::PageUp);
    assert_eq!(s.modal.scroll, 0);
    press(&mut s, KeyCode::Esc);
    assert_eq!(s.focus, Focus::List);
    assert!(s.modal.text.is_none());
}

#[test]
fn following_needs_one_real_file() {
    let mut s = screen_on(&["a.logjet", "b.logjet"]);
    assert!(matches!(s.start_tail_mode(), Effect::Nothing));
    assert_eq!(s.status, "Tail mode needs exactly one input file.");
    let mut s = ViewState::new(Dataset::stdin(), ViewOrder::Concat, false, false, vec![ExportFormatChoice::ndjson()]);
    s.start_tail_mode();
    assert_eq!(s.status, "Tail mode needs a real file, not stdin.");
    let mut s = ViewState::new(dataset(&["a.logjet"]), ViewOrder::MergeTs, false, false, vec![ExportFormatChoice::ndjson()]);
    s.start_tail_mode();
    assert_eq!(s.status, "Tail mode only works with concat ordering.");
    let mut s = screen_on(&["a.logjet"]);
    s.start_tail_mode();
    assert_eq!(s.status, "No active scan to tail.");
    s.reset_for_scan();
    s.scan_started();
    s.start_tail_mode();
    assert_eq!(s.status, "Wait for the scan to finish before tailing.");
    assert!(s.can_tail());
}

#[test]
fn any_key_ends_the_following() {
    let mut s = screen_with(3);
    assert!(matches!(press(&mut s, KeyCode::Char('t')), Effect::StartTail));
    assert!(matches!(s.tail_started(), Effect::LoadDetail));
    assert_eq!(s.tail_marker, Some(2));
    let (refresh, _) = s.drain_scan_updates(vec![ScanUpdate::Batch(vec![meta(9)])]);
    assert!(refresh);
    assert_eq!(s.list.selected, 3);
    assert!(matches!(press(&mut s, KeyCode::Char('q')), Effect::Nothing));
    assert!(!s.tail_mode);
    s.start_tail_mode();
    s.tail_started();
    assert!(matches!(press(&mut s, KeyCode::Up), Effect::LoadDetail));
    assert_eq!(s.list.selected, 2);
}

#[test]
fn following_from_the_start_waits_for_the_scan() {
    let mut s = ViewState::new(dataset(&["a.logjet"]), ViewOrder::Concat, false, true, vec![ExportFormatChoice::ndjson()]);
    s.reset_for_scan();
    s.scan_started();
    let (_, effect) = s.drain_scan_updates(vec![ScanUpdate::Batch(vec![meta(1)])]);
    assert!(matches!(effect, Effect::Nothing));
    let (_, effect) = s.drain_scan_updates(vec![ScanUpdate::Finished { scanned: 1, matched: 1 }]);
    assert!(matches!(effect, Effect::StartTail));
    assert!(!s.tail_on_launch);
}

#[test]
fn a_failed_scan_is_reported() {
    let mut s = screen_on(&["a.logjet"]);
    s.reset_for_scan();
    s.scan_started();
    s.drain_scan_updates(vec![ScanUpdate::Failed("no such file".to_string())]);
    assert_eq!(s.status, "Scan failed: no such file");
    assert!(s.scan.unwrap().finished);
}

#[test]
fn saving_asks_for_a_good_name() {
    let mut s = screen_on(&["logs/day.logjet"]);
    s.focus = Focus::List;
    press(&mut s, KeyCode::Char('s'));
    assert_eq!(s.status, "No active scan to save.");
    let mut s = screen_with(2);
    press(&mut s, KeyCode::Char('s'));
    assert_eq!(s.focus, Focus::SavePrompt);
    assert_eq!(s.save.filename.text, "filtered.logjet");
    assert!(matches!(press(&mut s, KeyCode::Enter), Effect::Save(name) if name == "filtered.logjet"));
    assert!(!s.confirm_save("day.logjet", "logs/day.logjet", false));
    assert_eq!(s.save.message.as_deref(), Some("File day.logjet already exist"));
    assert_eq!(s.focus, Focus::SaveError);
    press(&mut s, KeyCode::Char('x'));
    assert_eq!(s.focus, Focus::SavePrompt);
    assert!(!s.confirm_save("new.logjet", "logs/new.logjet", true));
    press(&mut s, KeyCode::Char('x'));
    assert!(s.confirm_save("new.logjet", "logs/new.logjet", false));
    s.saved("logs/new.logjet");
    assert_eq!(s.status, "Saved 2 records to logs/new.logjet");
    assert_eq!(find_name_fault("").as_deref(), Some("Filename must not be empty."));
    assert_eq!(find_name_fault("a/b").as_deref(), Some("Filename must not contain path separators."));
    assert!(find_name_fault("a").is_none());
}

#[test]
fn exporting_follows_the_format() {
    let mut s = screen_with(5);
    press(&mut s, KeyCode::Char('e'));
    assert_eq!(s.focus, Focus::ExportPrompt);
    assert_eq!(s.export.filename.text, "day.ndjson");
    assert_eq!(s.export.formats.len(), 2);
    press(&mut s, KeyCode::Right);
    assert_eq!(s.export.filename.text, "day.csv");
    assert_eq!(s.export.current_export_format().title(), "CSV");
    press(&mut s, KeyCode::Char(' '));
    assert_eq!(s.export.filename.text, "day.ndjson");
    press(&mut s, KeyCode::Left);
    assert_eq!(s.export.current_export_format().label(), "csv");
    press(&mut s, KeyCode::Tab);
    press(&mut s, KeyCode::Tab);
    assert_eq!(s.export.field, ExportField::Range);
    s.handle_key(KeyPress { code: KeyCode::Char('u'), control: true, alt: false }, None, &exporters(), 40);
    type_text(&mut s, "2-3");
    match press(&mut s, KeyCode::Enter) {
        Effect::Export(plan) => {
            assert_eq!((plan.start, plan.end), (1, 3));
            assert_eq!(plan.name, "day.csv");
            assert_eq!(plan.format, "csv");
            assert!(s.confirm_export(&plan.name, "logs/day.csv", false));
        }
        _ => panic!("an export expected"),
    }
    type_text(&mut s, "x");
    assert!(matches!(press(&mut s, KeyCode::Enter), Effect::Nothing));
    assert_eq!(s.focus, Focus::ExportError);
    press(&mut s, KeyCode::Enter);
    assert_eq!(s.focus, Focus::ExportPrompt);
}

#[test]
fn exports_report_their_progress() {
    let mut s = screen_with(1);
    s.plugin_export_started(200, "csv");
    assert_eq!(s.export.phase, "Exporting 200 csv row(s)...");
    assert!(s.drain_export_update(ExportUpdate::Progress { processed: 128, total: 200 }));
    assert_eq!(s.export.phase, "Writing records 128/200");
    assert!(s.drain_export_update(ExportUpdate::Finalizing));
    assert_eq!(s.export.phase, "Finalizing output file...");
    assert!(!s.drain_export_update(ExportUpdate::Done {
        format: "csv".to_string(),
        rows: 200,
        output: "a.csv".to_string(),
    }));
    assert_eq!(s.status, "Exported 200 csv row(s) to a.csv");
    s.plugin_export_started(1, "csv");
    assert!(!s.drain_export_update(ExportUpdate::Failed("full".to_string())));
    assert_eq!(s.export.message.as_deref(), Some("full"));
    assert_eq!(s.focus, Focus::ExportError);
    s.exported(3, "ndjson", "b.ndjson");
    assert_eq!(s.status, "Exported 3 ndjson row(s) to b.ndjson");

    let mut p = ProgressReport::new();
    assert_eq!(p.step(1, 300), (false, false));
    assert_eq!(p.step(128, 300), (true, false));
    assert_eq!(p.step(200, 300), (false, false));
    assert_eq!(p.step(300, 300), (true, true));
    assert_eq!(p.step(300, 300), (true, false));
}

#[test]
fn formats_go_round() {
    let mut p = ExportPrompt::new(vec![
        ExportFormatChoice::ndjson(),
        ExportFormatChoice::from_plugin_name("csv".to_string()),
        ExportFormatChoice::from_plugin_name("parquet".to_string()),
    ]);
    p.cycle_export_format(false);
    assert_eq!(p.current_export_format().label(), "parquet");
    p.cycle_export_format(true);
    assert_eq!(p.current_export_format().label(), "ndjson");
    assert_eq!(replace_extension("a.b.c", "csv"), "a.b.csv");
    assert_eq!(replace_extension("abc", "csv"), "abc.csv");
}

#[test]
fn deduplication_runs_to_its_end() {
    let mut s = screen_with(4);
    press(&mut s, KeyCode::Char('d'));
    assert_eq!(s.focus, Focus::DedupPrompt);
    assert_eq!(s.dedup.filename, "day-dedup.logjet");
    press(&mut s, KeyCode::Right);
    press(&mut s, KeyCode::Down);
    assert_eq!(s.dedup.behavior, DedupMode::Collapse);
    assert_eq!(s.dedup.match_mode, DedupMatchMode::Full);
    match press(&mut s, KeyCode::Enter) {
        Effect::StartDedup(plan) => {
            assert!(plan.selection);
            assert_eq!(plan.name, "day-dedup.logjet");
        }
        _ => panic!("a run expected"),
    }
    s.dedup_started("logs/day-dedup.logjet".to_string());
    assert!(matches!(press(&mut s, KeyCode::Enter), Effect::Nothing));
    assert!(s.drain_dedup_update(DedupUpdate::Progress { phase: "unpacking records".to_string() }));
    assert_eq!(s.dedup.phase, "unpacking records");
    assert!(!s.drain_dedup_update(DedupUpdate::Done { total: 4, groups: 1, percent: "75.0".to_string() }));
    match press(&mut s, KeyCode::Enter) {
        Effect::OpenFile { path, note } => {
            assert_eq!(path, "logs/day-dedup.logjet");
            assert_eq!(note.as_deref(), Some("4 records \u{2192} 1 groups (75.0% reduction)"));
            s.file_opened(path, dataset(&["logs/day-dedup.logjet"]));
            s.scan_started();
            s.note_dedup(note);
        }
        _ => panic!("a file expected"),
    }
    assert_eq!(s.status, "Dedup: 4 records \u{2192} 1 groups (75.0% reduction)");
    assert_eq!(s.list.entries.len(), 0);
    assert!(!s.drain_dedup_update(DedupUpdate::Failed("bad".to_string())));
    assert_eq!(s.status, "Dedup failed: bad");
    s.dedup_unprepared("full");
    assert_eq!(s.status, "Dedup preparation failed: full");
    assert_eq!(describe_running(DedupMode::Distinct, DedupMatchMode::Hash2), "running distinct / canon");
}

#[test]
fn deduplication_needs_something_to_read() {
    let mut s = screen_on(&["a.logjet", "b.logjet"]);
    s.focus = Focus::List;
    press(&mut s, KeyCode::Char('d'));
    assert_eq!(s.status, "Dedup needs a finished scan or one real input file.");
    assert_eq!(s.focus, Focus::List);
    assert!(!s.can_dedup());
}

fn catalog() -> FieldCatalog {
    FieldCatalog {
        services: vec!["Auth".to_string(), "billing".to_string()],
        severities: vec!["ERROR".to_string(), "INFO".to_string(), "WARN".to_string()],
    }
}

#[test]
fn a_chosen_name_is_given_up_and_chosen_again() {
    let names = catalog();
    let mut s = screen_with(1);
    let mut go = |s: &mut ViewState, code| s.handle_key(key(code), Some(&names), &exporters(), 40);
    go(&mut s, KeyCode::Char('f'));
    for code in [' ', ' ', ' '] {
        go(&mut s, KeyCode::Char(code));
    }
    assert_eq!(s.field_filter.as_ref().unwrap().severity.cursor, 0);
    go(&mut s, KeyCode::Enter);
    assert_eq!(s.status, "Field filter: severity: ERROR");
}

#[test]
fn severities_and_services_are_chosen() {
    let names = catalog();
    let mut s = screen_with(1);
    s.handle_key(key(KeyCode::Char('f')), None, &exporters(), 40);
    assert_eq!(s.status, "Field catalog still scanning\u{2026} try again in a moment");
    let mut go = |s: &mut ViewState, code| s.handle_key(key(code), Some(&names), &exporters(), 40);
    go(&mut s, KeyCode::Char('f'));
    assert_eq!(s.focus, Focus::FieldFilter);
    go(&mut s, KeyCode::Down);
    go(&mut s, KeyCode::Char(' '));
    go(&mut s, KeyCode::Down);
    go(&mut s, KeyCode::Down);
    assert_eq!(s.field_filter.as_ref().unwrap().severity.cursor, 2);
    go(&mut s, KeyCode::Char(' '));
    go(&mut s, KeyCode::Char(' '));
    go(&mut s, KeyCode::Tab);
    assert_eq!(s.field_filter.as_ref().unwrap().panel, FilterPanel::Services);
    go(&mut s, KeyCode::Char('A'));
    go(&mut s, KeyCode::Char('u'));
    go(&mut s, KeyCode::Char(' '));
    match go(&mut s, KeyCode::Enter) {
        Effect::StartScan { or_else_nothing } => assert!(or_else_nothing),
        _ => panic!("a scan expected"),
    }
    assert_eq!(s.status, "Field filter: severity: INFO | service: Auth");
    assert_eq!(s.focus, Focus::List);
    assert!(s.field_filter.is_none());
    go(&mut s, KeyCode::Char('f'));
    go(&mut s, KeyCode::Down);
    go(&mut s, KeyCode::Char(' '));
    go(&mut s, KeyCode::Tab);
    go(&mut s, KeyCode::Char(' '));
    go(&mut s, KeyCode::Enter);
    assert_eq!(s.status, "Field filter cleared");
}

#[test]
fn typed_text_narrows_the_names() {
    let names = vec!["Auth".to_string(), "billing".to_string()];
    assert_eq!(visible_names(&names, "BILL"), vec!["billing".to_string()]);
    assert_eq!(visible_names(&names, ""), names);
    assert_eq!(visible_rows(40), 24);
    assert_eq!(visible_rows(3), 2);
}

#[test]
fn catalogues_do_not_depend_on_the_order_of_files() {
    let mut a = FoundNames::new();
    a.scan_record(&record(1, 1, b"not a batch"));
    let b = FoundNames::new();
    a.merge(&b);
    assert!(a.finish().services.is_empty());
    assert!(a.finish().severities.is_empty());
}

#[test]
fn rows_are_drawn_with_time_and_severity() {
    let s = screen_with(1);
    let rows = vec![Some(ListRowSummary { message: "hello".to_string(), severity: Some("WARN".to_string()) })];
    let area = Area { x: 0, y: 0, width: 40, height: 5 };
    let paints = s.render_list(area, &rows);
    assert_eq!(paints.len(), 2);
    match &paints[0] {
        Paint::Lines { lines, .. } => {
            let spans = &lines[0].spans;
            assert_eq!(spans.len(), 5);
            assert_eq!(spans[0].text, "Jan  1 00:00:00");
            assert_eq!(spans[2].text, "W");
            assert_eq!(spans[4].text, format!("{:<20}", "hello"));
        }
        _ => panic!("lines expected"),
    }
    assert!(screen_with(0).render_list(area, &Vec::new()).len() == 1);
    assert_eq!(severity_initial("info"), "I");
}

#[test]
fn the_status_bar_shares_its_width() {
    let mut s = screen_with(0);
    s.status = "done".to_string();
    let paints = s.render_status(Area { x: 0, y: 9, width: 30, height: 1 });
    match (&paints[1], &paints[2]) {
        (Paint::Spans { width: left, .. }, Paint::Spans { x, width, spans, .. }) => {
            assert_eq!(*left, 25);
            assert_eq!((*x, *width), (26, 4));
            assert_eq!(spans[0].text, "done");
        }
        _ => panic!("two texts expected"),
    }
    assert!(s.render_status(Area { x: 0, y: 0, width: 0, height: 1 }).is_empty());
}

#[test]
fn the_search_bar_places_the_cursor() {
    let mut s = screen_on(&["a.logjet"]);
    type_text(&mut s, "abc");
    let paints = s.render_search(Area { x: 2, y: 1, width: 60, height: 1 });
    assert!(matches!(paints[2], Paint::Cursor { x: 23, y: 1 }));
    let paints = s.render_search(Area { x: 2, y: 1, width: 10, height: 1 });
    assert!(matches!(paints[2], Paint::Cursor { x: 11, y: 1 }));
}

#[test]
fn popups_are_planned_for_the_screen() {
    let mut s = screen_with(1);
    press(&mut s, KeyCode::Enter);
    let screen = Area { x: 0, y: 0, width: 100, height: 50 };
    let plan = s.plan_modal(screen);
    assert_eq!(plan.area.width, 80);
    assert_eq!(plan.area.x, 10);
    assert_eq!(plan.text, "first");
    assert_eq!(plan.text_lines, 1);
    assert_eq!(s.render_modal_frame(&plan).len(), 2);
    let inner = inner_area(plan.area);
    assert_eq!(inner, Area { x: 11, y: plan.area.y + 1, width: 78, height: plan.area.height - 2 });
    let parts = ModalParts { body: inner, divider: inner, info: inner, footer: inner };
    assert_eq!(s.render_modal(&plan, parts).len(), 3);
    press(&mut s, KeyCode::Char('i'));
    let plan = s.plan_modal(screen);
    assert!(plan.info_width >= 16);
    assert_eq!(plan.message_width + plan.info_width + 1, 78);
    assert_eq!(s.render_modal(&plan, parts).len(), 11);
}

#[test]
fn prompts_are_drawn() {
    let mut s = screen_with(2);
    let screen = Area { x: 0, y: 0, width: 100, height: 50 };
    press(&mut s, KeyCode::Char('s'));
    let paints = s.render_save_prompt(Area { x: 10, y: 10, width: 40, height: 5 });
    assert!(matches!(paints[3], Paint::Cursor { x: 36, y: 11 }));
    press(&mut s, KeyCode::Esc);
    press(&mut s, KeyCode::Char('e'));
    let paints = s.render_export_prompt(screen);
    assert_eq!(paints.len(), 7);
    press(&mut s, KeyCode::Esc);
    press(&mut s, KeyCode::Char('d'));
    assert_eq!(s.render_dedup_prompt(screen).len(), 7);
    s.dedup_started("x".to_string());
    assert_eq!(s.render_dedup_progress(screen).len(), 4);
    assert_eq!(s.render_details(screen).len(), 2);
    let area = centered_rect_fixed_height(50, 20, 6, screen);
    assert_eq!(area, Area { x: 25, y: 22, width: 50, height: 6 });
    let line = render_save_error_message("File a.txt already exist");
    assert_eq!(line.spans.len(), 3);
    assert_eq!(line.spans[1].text, "a.txt");
    assert_eq!(render_save_error_message("other").spans.len(), 1);
}

#[test]
fn the_pane_is_drawn_in_two_halves() {
    let names = catalog();
    let mut s = screen_with(1);
    s.handle_key(key(KeyCode::Char('f')), Some(&names), &exporters(), 50);
    let pane = s.field_filter.as_ref().unwrap();
    let area = pane.place(&names, Area { x: 0, y: 0, width: 100, height: 50 });
    assert_eq!(area, Area { x: 20, y: 10, width: 60, height: 20 });
    let paints = pane.render_field_filter(&names, area, area, area);
    match &paints[2] {
        Paint::Lines { lines, .. } => {
            assert_eq!(lines.len(), 4);
            assert_eq!(lines[0].spans[0].text, " Severity");
            assert_eq!(lines[1].spans[0].text, " \u{2610} ERROR");
        }
        _ => panic!("lines expected"),
    }
}

#[test]
fn sizes_are_rounded_as_floating_point_is() {
    let samples: [u64; 14] = [
        0, 1023, 1024, 1075, 1076, 1126, 1177, 1536, 102_450, 1_048_575, 1_048_576, 1_101_005,
        123_456_789, u64::MAX,
    ];
    for n in samples {
        let (number, unit) = format_size_parts(n);
        let expected = if n >= 1024 * 1024 {
            (format!("{:.1}", n as f64 / (1024.0 * 1024.0)), " Mb")
        } else if n >= 1024 {
            (format!("{:.1}", n as f64 / 1024.0), " Kb")
        } else {
            (n.to_string(), " Bt")
        };
        assert_eq!((number, unit.as_str()), expected);
    }
}

#[test]
fn sizes_agree_with_floating_point_everywhere_near_a_tie() {
    for n in 1024u64..60_000 {
        assert_eq!(format_size_parts(n).0, format!("{:.1}", n as f64 / 1024.0));
    }
    for k in 0u64..4000 {
        let n = 1_048_576 + k * 52_429 + k % 7;
        assert_eq!(format_size_parts(n).0, format!("{:.1}", n as f64 / (1024.0 * 1024.0)));
    }
    for k in 0u64..4000 {
        let n = u64::MAX - k * 1_000_003;
        assert_eq!(format_size_parts(n).0, format!("{:.1}", n as f64 / (1024.0 * 1024.0)));
    }
}

#[test]
fn ranges_of_an_export() {
    assert_eq!(parse_export_selection("all", 10, 3), Ok((0, 10)));
    assert_eq!(parse_export_selection("c", 10, 3), Ok((3, 4)));
    assert_eq!(parse_export_selection("0", 0, 0), Ok((0, 0)));
    assert_eq!(parse_export_selection("5", 10, 3), Ok((0, 5)));
    assert_eq!(parse_export_selection("99", 10, 3), Ok((0, 10)));
    assert_eq!(parse_export_selection("20-30", 10, 3), Ok((10, 10)));
    assert_eq!(parse_export_selection("", 10, 3), Err("Range must not be empty.".to_string()));
    assert_eq!(parse_export_selection("0-3", 10, 3), Err("Range is 1-based; values must be >= 1.".to_string()));
    assert_eq!(parse_export_selection("2-4", 10, 3), Ok((1, 4)));
    assert!(parse_export_selection("4-2", 10, 3).is_err());
    assert!(parse_export_selection("x", 10, 3).is_err());
}

#[test]
fn texts_are_fitted_and_wrapped() {
    assert_eq!(fit_to_width("abc", 5), "abc  ");
    assert_eq!(fit_to_width("abcdef", 5), "ab...");
    assert_eq!(fit_to_width("abcdef", 2), "..");
    let (text, lines) = fit_modal_body("one two three", 7);
    assert_eq!(lines as usize, text.lines().count());
    for line in smart_wrap("the quick brown fox jumps", 9).lines() {
        assert!(line.chars().count() <= 9);
    }
    assert!(hex_preview(&[0xde, 0xad], 32).to_lowercase().contains("de"));
    assert!(hex_dump(b"abc").contains("61"));
}

#[test]
fn batches_are_handed_over_when_full() {
    let mut b = Batcher::new();
    for i in 0..127 {
        assert!(b.push(meta(i)).is_none());
    }
    let full = b.push(meta(127)).unwrap();
    assert_eq!(full.len(), 128);
    assert_eq!(full[127].seq, 127);
    assert!(b.take().is_none());
    b.push(meta(1));
    assert_eq!(b.take().unwrap().len(), 1);
}

#[test]
fn merges_are_in_order() {
    let files = [vec![record(1, 9, b""), record(4, 10, b"")], vec![record(2, 1, b""), record(3, 2, b"")]];
    let run = |order| {
        let mut queue = MergeQueue::new(order, 2);
        let mut at = [0usize, 0];
        let mut out = Vec::new();
        for f in 0..2 {
            queue.offer(f, &files[f][0]).unwrap();
        }
        while let Some(f) = queue.next() {
            out.push(files[f][at[f]].seq);
            at[f] += 1;
            if at[f] < files[f].len() {
                queue.offer(f, &files[f][at[f]]).unwrap();
            }
        }
        out
    };
    assert_eq!(run(ViewOrder::MergeSeq), vec![1, 2, 3, 4]);
    assert_eq!(run(ViewOrder::MergeTs), vec![2, 3, 1, 4]);
}

#[test]
fn the_spool_gives_records_back() {
    let first = record(7, 8, b"payload");
    let (bytes, meta) = write_spool_record(1, &first, 3, "a.logjet");
    let mut spool = vec![0u8; 3];
    spool.extend_from_slice(&bytes);
    spool.extend_from_slice(b"more");
    assert_eq!(bytes[0], 1);
    assert_eq!(bytes[1..9], 7u64.to_le_bytes());
    assert_eq!(bytes[9..17], 8u64.to_le_bytes());
    assert_eq!(bytes[17..25], 7u64.to_le_bytes());
    let at = payload_offset(&meta).unwrap() as usize;
    assert_eq!(&spool[at..at + meta.payload_len as usize], b"payload");
    let mut far = meta;
    far.offset = u64::MAX;
    assert!(payload_offset(&far).is_none());
}

#[test]
fn blocks_end_where_records_go_back() {
    let mut b = BlockOrder::new();
    assert!(!b.must_flush(false, 1, 1));
    b.written(true, 5, 50);
    assert!(!b.must_flush(true, 5, 50));
    assert!(b.must_flush(true, 4, 60));
    assert!(!b.must_flush(true, 1, 1));
    b.written(true, 5, 50);
    assert!(b.must_flush(true, 6, 49));
    b.written(false, 6, 49);
    assert!(b.last.is_none());
}

#[test]
fn files_are_read_as_far_as_needed() {
    let mut args = PredicateArgs::new();
    args.seq_min = Some(10);
    let p = args.build().unwrap();
    let low = summarise_block(0, 10, &vec![record(1, 1, b"")]);
    let high = summarise_block(10, 10, &vec![record(10, 2, b"")]);
    let index = build_index(vec![low, high], 20, None).unwrap();
    let entry = DatasetEntry::new("a".to_string(), 20, None, Some(index));
    assert_eq!(plan_entry(&entry, &p), EntryPlan::Blocks(vec![1]));
    let low = summarise_block(0, 10, &vec![record(1, 1, b"")]);
    let entry = DatasetEntry::new("a".to_string(), 10, None, Some(build_index(vec![low], 10, None).unwrap()));
    assert_eq!(plan_entry(&entry, &p), EntryPlan::Skip);
    let entry = DatasetEntry::new("a".to_string(), 10, None, None);
    assert_eq!(plan_entry(&entry, &p), EntryPlan::Whole);
}

#[test]
fn workers_and_names() {
    assert_eq!(default_worker_count(Some(64)), 8);
    assert_eq!(default_worker_count(Some(3)), 3);
    assert_eq!(default_worker_count(None), 1);
    assert_eq!(catalog_workers(8, 3), 3);
    assert_eq!(catalog_workers(0, 0), 1);
    assert_eq!(temp_file_name(12, 345, 6), "ljx-view-12-345-6.tmp");
    assert_eq!(count_up(1, "view scanned").unwrap(), 2);
    assert!(matches!(count_up(u64::MAX, "view scanned"), Err(Error::Logjet(_))));
}
