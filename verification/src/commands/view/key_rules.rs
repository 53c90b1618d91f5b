//! What the keys do.
use vstd::prelude::*;

use crate::commands::view::detail::full_text;
use crate::commands::view::field_filter::{
    filter_text_after, pane_after, pick_after, shown_names, CatalogModel, FilterPanel,
    FilterStateModel, PickModel,
};
use crate::commands::view::keys::{edited, KeyCode, KeyPress, LineModel};
use crate::commands::view::prompts::{
    dedup_after, export_after, export_answer, name_fault, save_opened, with_extension,
    without_extension, DedupModel, ExportAnswer, ExportModel,
};
use crate::commands::view::state::{key_pressed, EffectModel, ViewModel};
use crate::commands::view::types::{ChoiceModel, ExportField, Focus, ViewOrder};
use crate::commands::view::updates::{
    dedup_reported, export_reported, updates_taken, DedupUpdate, ExportUpdate, ScanUpdateModel,
};
use crate::bridge::lowercase::lowercase_of;
use crate::dataset::is_stdin_path;
use crate::dedup::{DedupMatchMode, DedupMode};
use crate::text::numbers::decimal;
use crate::text::seqs::{contains_seq, trim};

verus! {

/// A key without control or alt.
pub open spec fn key(code: KeyCode) -> KeyPress {
    KeyPress { code, control: false, alt: false }
}

/// Nothing of what was found has changed, but for the place in the list.
pub open spec fn same_results(a: ViewModel, b: ViewModel) -> bool {
    &&& a.list.entries == b.list.entries
    &&& a.scan == b.scan
    &&& a.dataset == b.dataset
    &&& a.query_input == b.query_input
    &&& a.applied_query == b.applied_query
    &&& a.active_filter == b.active_filter
}

/// On the list, the arrows go one record up or down, page keys ten, and home
/// and end to the first and the last, as far as there are records. The record
/// that is then selected is loaded where it is another one.
pub proof fn law_keys_move_along_the_list(
    m: ViewModel,
    catalog: Option<CatalogModel>,
    formats: Seq<ChoiceModel>,
    height: int,
)
    requires
        m.focus == Focus::List,
        !m.tail_mode,
        0 <= m.list.selected < m.list.entries.len(),
    ensures
        ({
            let n = m.list.entries.len() as int;
            let at = m.list.selected;
            let (up, up_effect) = key_pressed(m, key(KeyCode::Up), catalog, formats, height);
            let (down, down_effect) = key_pressed(m, key(KeyCode::Down), catalog, formats, height);
            let page_up = key_pressed(m, key(KeyCode::PageUp), catalog, formats, height).0;
            let page_down = key_pressed(m, key(KeyCode::PageDown), catalog, formats, height).0;
            let home = key_pressed(m, key(KeyCode::Home), catalog, formats, height).0;
            let end = key_pressed(m, key(KeyCode::End), catalog, formats, height).0;
            &&& at > 0 ==> up.list.selected == at - 1 && up_effect == EffectModel::LoadDetail
            &&& at == 0 ==> up.list.selected == 0 && up_effect == EffectModel::Nothing
            &&& at + 1 < n ==> down.list.selected == at + 1 && down_effect
                == EffectModel::LoadDetail
            &&& at + 1 == n ==> down.list.selected == at && down_effect == EffectModel::Nothing
            &&& at >= 10 ==> page_up.list.selected == at - 10
            &&& at < 10 ==> page_up.list.selected == 0
            &&& at + 10 < n ==> page_down.list.selected == at + 10
            &&& at + 10 >= n ==> page_down.list.selected == n - 1
            &&& home.list.selected == 0
            &&& end.list.selected == n - 1
            &&& same_results(m, up) && same_results(m, down) && same_results(m, page_up)
                && same_results(m, page_down) && same_results(m, home) && same_results(m, end)
        }),
{
}

/// On the list, letters, small or capital, open prompts and panes. Saving and
/// exporting need a scan that has ended; so does following a file.
pub proof fn law_letters_on_the_list(
    m: ViewModel,
    c: char,
    catalog: Option<CatalogModel>,
    formats: Seq<ChoiceModel>,
    height: int,
)
    requires
        m.focus == Focus::List,
        !m.tail_mode,
    ensures
        ({
            let (next, effect) = key_pressed(m, key(KeyCode::Char(c)), catalog, formats, height);
            let ended = m.scan is Some && m.scan->0.finished;
            &&& c == 's' || c == 'S' ==> (next.focus == Focus::SavePrompt <==> ended)
            &&& c == 'e' || c == 'E' ==> (next.focus == Focus::ExportPrompt <==> ended)
            &&& (c == 's' || c == 'S' || c == 'e' || c == 'E') && !ended ==> next.focus
                == Focus::List && next.save == m.save && next.export == m.export
            &&& c == 'f' || c == 'F' ==> (next.focus == Focus::FieldFilter <==> catalog is Some)
            &&& c == 'i' || c == 'I' ==> next.details_visible == !m.details_visible
            &&& c == '/' ==> next.focus == Focus::Search
            &&& c == 'q' || c == 'Q' ==> effect == EffectModel::Quit && next == m
            &&& c != 'q' && c != 'Q' && c != 't' && c != 'T' ==> effect == EffectModel::Nothing
            &&& same_results(m, next)
            &&& next.list == m.list
        }),
        key_pressed(m, key(KeyCode::Tab), catalog, formats, height).0.focus == Focus::Search,
{
}

/// Enter on the list shows the full text of the selected record.
pub proof fn law_enter_shows_the_record(
    m: ViewModel,
    catalog: Option<CatalogModel>,
    formats: Seq<ChoiceModel>,
    height: int,
)
    requires
        m.focus == Focus::List,
        !m.tail_mode,
    ensures
        ({
            let (next, effect) = key_pressed(m, key(KeyCode::Enter), catalog, formats, height);
            &&& effect == EffectModel::Nothing
            &&& m.list.detail is None ==> next == m
            &&& m.list.detail matches Some(d) ==> next.focus == Focus::Modal && next.modal.text
                == Some(full_text(d, m.hex_payload)) && next.modal.scroll == 0
            &&& same_results(m, next)
        }),
{
}

/// A file is followed where it is the only input, a real file, its records are
/// shown in its own order, and the scan has ended.
pub proof fn law_following_needs_one_file(
    m: ViewModel,
    catalog: Option<CatalogModel>,
    formats: Seq<ChoiceModel>,
    height: int,
)
    requires
        m.focus == Focus::List || m.focus == Focus::Modal,
        !m.tail_mode,
    ensures
        key_pressed(m, key(KeyCode::Char('t')), catalog, formats, height).1
            == EffectModel::StartTail <==> {
            &&& m.dataset.spec_paths().len() == 1
            &&& !is_stdin_path(m.dataset.spec_paths()[0])
            &&& m.view_order == ViewOrder::Concat
            &&& m.scan is Some
            &&& m.scan->0.finished
        },
{
}

/// In the query, a character is put behind what was typed, backspace takes the
/// last one away, and control and `u` all of them; the arrows choose between
/// texts and patterns. None of them starts a scan.
pub proof fn law_queries_are_typed(
    m: ViewModel,
    c: char,
    catalog: Option<CatalogModel>,
    formats: Seq<ChoiceModel>,
    height: int,
)
    requires
        m.focus == Focus::Search,
        !m.tail_mode,
    ensures
        ({
            let (typed, e1) = key_pressed(m, key(KeyCode::Char(c)), catalog, formats, height);
            let (back, e2) = key_pressed(typed, key(KeyCode::Backspace), catalog, formats, height);
            let (cleared, e3) = key_pressed(
                m,
                KeyPress { code: KeyCode::Char('u'), control: true, alt: false },
                catalog,
                formats,
                height,
            );
            let (up, e4) = key_pressed(m, key(KeyCode::Up), catalog, formats, height);
            let (down, e5) = key_pressed(m, key(KeyCode::Down), catalog, formats, height);
            &&& typed.query_input == m.query_input.push(c)
            &&& back.query_input == m.query_input
            &&& cleared.query_input.len() == 0
            &&& up.filter_mode != m.filter_mode && down.filter_mode != m.filter_mode
            &&& up.query_input == m.query_input && down.query_input == m.query_input
            &&& e1 == EffectModel::Nothing && e2 == EffectModel::Nothing && e3
                == EffectModel::Nothing && e4 == EffectModel::Nothing && e5 == EffectModel::Nothing
            &&& typed.applied_query == m.applied_query && typed.list == m.list
        }),
{
    let typed = key_pressed(m, key(KeyCode::Char(c)), catalog, formats, height).0;
    assert(typed.query_input.drop_last() =~= m.query_input);
}

/// Enter in the query scans for what was typed: the results are cleared, and
/// the list gets the keys. Escape scans for everything.
pub proof fn law_enter_starts_the_scan(
    m: ViewModel,
    catalog: Option<CatalogModel>,
    formats: Seq<ChoiceModel>,
    height: int,
)
    requires
        m.focus == Focus::Search,
        !m.tail_mode,
    ensures
        ({
            let (asked, e1) = key_pressed(m, key(KeyCode::Enter), catalog, formats, height);
            let (all, e2) = key_pressed(m, key(KeyCode::Esc), catalog, formats, height);
            &&& e1 == EffectModel::StartScan { or_else_nothing: false } && e2 == e1
            &&& asked.applied_query == m.query_input && asked.query_input == m.query_input
            &&& all.applied_query.len() == 0 && all.query_input.len() == 0
            &&& asked.focus == Focus::List && all.focus == Focus::List
            &&& asked.list.entries.len() == 0 && asked.list.selected == 0 && asked.scan is None
                && asked.list.detail is None && asked.modal.text is None
            &&& all.list.entries.len() == 0 && all.scan is None
            &&& asked.active_filter == m.active_filter && asked.filter_mode == m.filter_mode
        }),
        key_pressed(m, key(KeyCode::Tab), catalog, formats, height).0.focus == Focus::List,
{
}

/// Over the text of a record, the arrows scroll by one line and the page keys
/// by ten, not above the first; left and right go to the neighbouring record.
pub proof fn law_keys_over_a_record(
    m: ViewModel,
    catalog: Option<CatalogModel>,
    formats: Seq<ChoiceModel>,
    height: int,
)
    requires
        m.focus == Focus::Modal,
        !m.tail_mode,
        0 <= m.modal.scroll <= 0xffff,
        0 <= m.list.selected < m.list.entries.len(),
    ensures
        ({
            let s = m.modal.scroll;
            let up = key_pressed(m, key(KeyCode::Up), catalog, formats, height).0;
            let down = key_pressed(m, key(KeyCode::Down), catalog, formats, height).0;
            let page_up = key_pressed(m, key(KeyCode::PageUp), catalog, formats, height).0;
            let page_down = key_pressed(m, key(KeyCode::PageDown), catalog, formats, height).0;
            let (left, e1) = key_pressed(m, key(KeyCode::Left), catalog, formats, height);
            let (right, e2) = key_pressed(m, key(KeyCode::Right), catalog, formats, height);
            let out = key_pressed(m, key(KeyCode::Esc), catalog, formats, height).0;
            &&& up.modal.scroll == if s > 0 {
                s - 1
            } else {
                0
            }
            &&& s < 0xffff ==> down.modal.scroll == s + 1
            &&& page_up.modal.scroll == if s >= 10 {
                s - 10
            } else {
                0
            }
            &&& s <= 0xffff - 10 ==> page_down.modal.scroll == s + 10
            &&& m.list.selected > 0 ==> left.list.selected == m.list.selected - 1 && e1
                == EffectModel::LoadDetail
            &&& m.list.selected + 1 < m.list.entries.len() ==> right.list.selected
                == m.list.selected + 1 && e2 == EffectModel::LoadDetail
            &&& left.focus == Focus::Modal && right.focus == Focus::Modal
            &&& out.focus == Focus::List && out.modal.text is None
            &&& up.list == m.list && down.list == m.list && out.list == m.list
            &&& key_pressed(
                m,
                key(KeyCode::Char('i')),
                catalog,
                formats,
                height,
            ).0.modal.info_visible == !m.modal.info_visible
        }),
{
}

/// A name for a file is refused where it is empty or holds a slash, and only
/// there.
pub proof fn law_file_names(name: Seq<char>)
    ensures
        name_fault(name) is None <==> name.len() > 0 && !name.contains('/'),
{
}

/// Enter in the save prompt saves under the name without blanks around it, if
/// it is a name for a file; otherwise the prompt says what is wrong with it.
pub proof fn law_enter_saves(
    m: ViewModel,
    catalog: Option<CatalogModel>,
    formats: Seq<ChoiceModel>,
    height: int,
)
    requires
        m.focus == Focus::SavePrompt,
        !m.tail_mode,
        m.scan is Some,
    ensures
        ({
            let name = trim(m.save.filename.text);
            let (next, effect) = key_pressed(m, key(KeyCode::Enter), catalog, formats, height);
            if name.len() > 0 && !name.contains('/') {
                effect == EffectModel::Save(name)
            } else {
                effect == EffectModel::Nothing && next.save.message is Some && next.focus
                    == Focus::SavePrompt
            }
        }),
        save_opened(m.save).filename.text.len() > 0,
        m.save.filename.text.len() > 0 ==> save_opened(m.save).filename.text
            == m.save.filename.text,
{
    reveal_strlit("filtered.logjet");
}

/// Enter in the dedup prompt starts a run with what was chosen: over the
/// records that were found, where there are some and the scan has ended, and
/// otherwise over the file.
pub proof fn law_enter_starts_dedup(
    m: ViewModel,
    catalog: Option<CatalogModel>,
    formats: Seq<ChoiceModel>,
    height: int,
)
    requires
        m.focus == Focus::DedupPrompt,
        !m.tail_mode,
    ensures
        ({
            let (next, effect) = key_pressed(m, key(KeyCode::Enter), catalog, formats, height);
            let found = m.scan is Some && m.scan->0.finished && m.list.entries.len() > 0;
            let file = m.dataset.spec_paths().len() == 1 && !is_stdin_path(
                m.dataset.spec_paths()[0],
            );
            if m.dedup.filename.len() > 0 && (found || file) {
                effect == EffectModel::StartDedup {
                    name: m.dedup.filename,
                    selection: found,
                    behavior: m.dedup.behavior,
                    match_mode: m.dedup.match_mode,
                }
            } else {
                effect == EffectModel::Nothing
            }
        }),
{
}

/// In the dedup prompt, left and right change the behaviour and go back and
/// forth; up and down change the matching; characters are put behind the name.
pub proof fn law_dedup_choices(d: DedupModel, c: char)
    ensures
        dedup_after(d, key(KeyCode::Left)).behavior != d.behavior,
        dedup_after(d, key(KeyCode::Right)).behavior != d.behavior,
        dedup_after(d, key(KeyCode::Left)).match_mode == d.match_mode,
        dedup_after(dedup_after(d, key(KeyCode::Down)), key(KeyCode::Up)).match_mode
            == d.match_mode,
        dedup_after(d, key(KeyCode::Down)).match_mode != d.match_mode,
        dedup_after(d, key(KeyCode::Down)).behavior == d.behavior,
        d.match_mode == DedupMatchMode::Exact ==> dedup_after(d, key(KeyCode::Down)).match_mode
            == DedupMatchMode::Hash2,
        d.match_mode == DedupMatchMode::Hash2 ==> dedup_after(d, key(KeyCode::Down)).match_mode
            == DedupMatchMode::Full,
        dedup_after(d, key(KeyCode::Char(c))).filename == d.filename.push(c),
        dedup_after(
            dedup_after(d, key(KeyCode::Char(c))),
            key(KeyCode::Backspace),
        ).filename == d.filename,
{
    assert(d.filename.push(c).drop_last() =~= d.filename);
}

/// The dedup prompt offers the name of the input with `-dedup.logjet` behind
/// it, and the choices `distinct` and `canon`.
pub proof fn law_dedup_prompt_opens(
    m: ViewModel,
    catalog: Option<CatalogModel>,
    formats: Seq<ChoiceModel>,
    height: int,
)
    requires
        m.focus == Focus::List,
        !m.tail_mode,
        m.scan is Some,
    ensures
        ({
            let next = key_pressed(m, key(KeyCode::Char('d')), catalog, formats, height).0;
            &&& next.focus == Focus::DedupPrompt
            &&& next.dedup.behavior == DedupMode::Distinct
            &&& next.dedup.match_mode == DedupMatchMode::Hash2
            &&& m.dataset.spec_paths().len() > 1 ==> next.dedup.filename == "dataset"@
                + "-dedup.logjet"@
        }),
{
}

/// Enter in the field filter applies what is chosen and scans again; nothing
/// chosen means no filter. Escape leaves the filter as it was.
pub proof fn law_enter_applies_the_filter(
    m: ViewModel,
    catalog: CatalogModel,
    formats: Seq<ChoiceModel>,
    height: int,
)
    requires
        m.focus == Focus::FieldFilter,
        !m.tail_mode,
        m.field_filter is Some,
    ensures
        ({
            let p = m.field_filter->0;
            let (next, effect) = key_pressed(
                m,
                key(KeyCode::Enter),
                Some(catalog),
                formats,
                height,
            );
            let out = key_pressed(m, key(KeyCode::Esc), Some(catalog), formats, height).0;
            &&& effect == EffectModel::StartScan { or_else_nothing: true }
            &&& p.severity.chosen.len() > 0 ==> next.active_filter.severities == Some(
                p.severity.chosen,
            )
            &&& p.severity.chosen.len() == 0 ==> next.active_filter.severities is None
            &&& p.service.chosen.len() > 0 ==> next.active_filter.services == Some(
                p.service.chosen,
            )
            &&& p.service.chosen.len() == 0 ==> next.active_filter.services is None
            &&& next.focus == Focus::List && next.list.entries.len() == 0 && next.field_filter
                is None
            &&& out.active_filter == m.active_filter && out.list == m.list && out.field_filter
                is None
        }),
{
}

/// The field filter opens with what is applied chosen, at the severities.
pub proof fn law_filter_opens_as_applied(
    m: ViewModel,
    catalog: CatalogModel,
    formats: Seq<ChoiceModel>,
    height: int,
)
    requires
        m.focus == Focus::List,
        !m.tail_mode,
    ensures
        ({
            let next = key_pressed(
                m,
                key(KeyCode::Char('f')),
                Some(catalog),
                formats,
                height,
            ).0;
            &&& next.field_filter is Some
            &&& next.field_filter->0.panel == FilterPanel::Severities
            &&& m.active_filter.severities matches Some(s) ==> next.field_filter->0.severity.chosen
                == s
            &&& m.active_filter.severities is None
                ==> next.field_filter->0.severity.chosen.len() == 0
            &&& m.active_filter.services matches Some(s) ==> next.field_filter->0.service.chosen
                == s
            &&& m.active_filter.services is None ==> next.field_filter->0.service.chosen.len() == 0
            &&& next.field_filter->0.filter_text.len() == 0
        }),
{
}

/// The names that are shown are those in which the typed text occurs, in any
/// case, in their order; without a text all of them.
pub proof fn law_names_are_narrowed(names: Seq<Seq<char>>, text: Seq<char>, name: Seq<char>)
    ensures
        shown_names(names.push(name), text) == if text.len() == 0 || contains_seq(
            lowercase_of(name),
            lowercase_of(text),
        ) {
            shown_names(names, text).push(name)
        } else {
            shown_names(names, text)
        },
        shown_names(Seq::empty(), text).len() == 0,
{
    assert(names.push(name).drop_last() =~= names);
}

/// In the field filter, the arrows go one name up or down as far as there are
/// names; the choice stays as it is.
pub proof fn law_arrows_in_the_filter(p: PickModel, shown: Seq<Seq<char>>)
    requires
        0 <= p.cursor < shown.len(),
    ensures
        p.cursor > 0 ==> pick_after(p, KeyCode::Up, shown).cursor == p.cursor - 1,
        p.cursor == 0 ==> pick_after(p, KeyCode::Up, shown).cursor == 0,
        p.cursor + 1 < shown.len() ==> pick_after(p, KeyCode::Down, shown).cursor == p.cursor + 1,
        p.cursor + 1 == shown.len() ==> pick_after(p, KeyCode::Down, shown).cursor == p.cursor,
        pick_after(p, KeyCode::Up, shown).chosen == p.chosen,
        pick_after(p, KeyCode::Down, shown).chosen == p.chosen,
{
}

/// Tab goes to the other list of the field filter and clears the typed text;
/// what is chosen in either list stays.
pub proof fn law_tab_goes_to_the_other_list(
    p: FilterStateModel,
    catalog: CatalogModel,
    height: int,
)
    ensures
        ({
            let next = pane_after(p, KeyCode::Tab, catalog, height);
            &&& next.panel != p.panel
            &&& next.filter_text.len() == 0
            &&& next.severity.chosen == p.severity.chosen
            &&& next.service.chosen == p.service.chosen
        }),
{
}

/// Characters narrow the list that is shown, and backspace takes the last one
/// away; a blank is not one of them.
pub proof fn law_filter_text_is_typed(text: Seq<char>, c: char)
    ensures
        c != ' ' ==> filter_text_after(text, KeyCode::Char(c)) == text.push(c),
        filter_text_after(text, KeyCode::Char(' ')) == text,
        filter_text_after(text.push(c), KeyCode::Backspace) == text,
{
    assert(text.push(c).drop_last() =~= text);
}

/// In a line, a character goes in at the cursor, which moves behind it; delete
/// takes the one under the cursor away; left and right move the cursor; home
/// and end put it at the ends.
pub proof fn law_lines_are_edited(l: LineModel, c: char)
    requires
        l.cursor <= l.text.len(),
        l.text.len() < usize::MAX,
    ensures
        ({
            let typed = edited(l, key(KeyCode::Char(c)));
            let gone = edited(l, key(KeyCode::Delete));
            &&& typed.text == l.text.take(l.cursor as int) + seq![c] + l.text.skip(l.cursor as int)
            &&& typed.cursor == l.cursor + 1
            &&& l.cursor < l.text.len() ==> gone.text == l.text.take(l.cursor as int)
                + l.text.skip(l.cursor + 1int) && gone.cursor == l.cursor
            &&& l.cursor == l.text.len() ==> gone == l
            &&& l.cursor > 0 ==> edited(l, key(KeyCode::Left)).cursor == l.cursor - 1
            &&& l.cursor == 0 ==> edited(l, key(KeyCode::Left)).cursor == 0
            &&& l.cursor < l.text.len() ==> edited(l, key(KeyCode::Right)).cursor == l.cursor + 1
            &&& l.cursor == l.text.len() ==> edited(l, key(KeyCode::Right)).cursor == l.cursor
            &&& edited(l, key(KeyCode::Home)).cursor == 0
            &&& edited(l, key(KeyCode::End)).cursor == l.text.len()
            &&& edited(l, key(KeyCode::Left)).text == l.text && edited(
                l,
                key(KeyCode::Right),
            ).text == l.text && edited(l, key(KeyCode::Home)).text == l.text && edited(
                l,
                key(KeyCode::End),
            ).text == l.text
        }),
{
    let typed = edited(l, key(KeyCode::Char(c)));
    assert(typed.text =~= l.text.take(l.cursor as int) + seq![c] + l.text.skip(l.cursor as int));
    let gone = edited(l, key(KeyCode::Delete));
    if l.cursor < l.text.len() {
        assert(gone.text =~= l.text.take(l.cursor as int) + l.text.skip(l.cursor + 1int));
    }
}

proof fn lemma_extension(stem: Seq<char>, extension: Seq<char>)
    requires
        !extension.contains('.'),
    ensures
        without_extension(stem.push('.') + extension) == stem,
    decreases extension.len(),
{
    let s = stem.push('.') + extension;
    assert(s[stem.len() as int] == '.');
    assert(s.contains('.'));
    if extension.len() == 0 {
        assert(s =~= stem.push('.'));
        assert(s.drop_last() =~= stem);
    } else {
        let less = extension.drop_last();
        assert(s.last() == extension.last());
        assert(extension.contains(extension.last()));
        assert(!less.contains('.')) by {
            if less.contains('.') {
                let i = choose|i: int| 0 <= i < less.len() && less[i] == '.';
                assert(extension[i] == '.');
            }
        }
        assert(s.drop_last() =~= stem.push('.') + less);
        lemma_extension(stem, less);
    }
}

/// Changing the format changes what stands behind the last dot of the name, and
/// nothing before it; a name without a dot gets the extension behind it.
pub proof fn law_extensions_follow_the_format(
    stem: Seq<char>,
    before: Seq<char>,
    extension: Seq<char>,
)
    requires
        !before.contains('.'),
    ensures
        with_extension(stem.push('.') + before, extension) == stem.push('.') + extension,
        !stem.contains('.') ==> with_extension(stem, extension) == stem.push('.') + extension,
{
    lemma_extension(stem, before);
}

/// The keys of the export prompt: tab and the arrows up and down go round its
/// three fields; in a text field the others edit it and leave the rest.
pub proof fn law_export_fields(m: ExportModel, c: char)
    ensures
        ({
            let a = export_after(m, key(KeyCode::Tab));
            let b = export_after(a, key(KeyCode::Tab));
            let d = export_after(b, key(KeyCode::Tab));
            &&& a.field != m.field && b.field != m.field && b.field != a.field && d.field
                == m.field
            &&& a.filename == m.filename && a.range == m.range && a.format_index == m.format_index
        }),
        m.field == ExportField::Filename ==> export_after(m, key(KeyCode::Char(c))).filename
            == edited(m.filename, key(KeyCode::Char(c))) && export_after(
            m,
            key(KeyCode::Char(c)),
        ).range == m.range,
        m.field == ExportField::Range ==> export_after(m, key(KeyCode::Char(c))).range == edited(
            m.range,
            key(KeyCode::Char(c)),
        ) && export_after(m, key(KeyCode::Char(c))).filename == m.filename,
{
}

/// An export that is ready has the name without blanks around it and the name
/// of the chosen format.
pub proof fn law_exports_are_planned(m: ExportModel, total: nat, selected: nat)
    requires
        0 <= m.format_index < m.formats.len(),
    ensures
        export_answer(m, total, selected) matches ExportAnswer::Ready(p) ==> p.name == trim(
            m.filename.text,
        ) && p.name.len() > 0 && !p.name.contains('/') && p.format
            == m.formats[m.format_index].name,
        trim(m.filename.text).len() == 0 || trim(m.filename.text).contains('/') ==> export_answer(
            m,
            total,
            selected,
        ) is BadName,
{
}

/// What a run reports when it ends: an export leads back to the list, or shows
/// its error; a dedup run keeps its window with a summary, or leads back.
pub proof fn law_ends_of_runs(m: ViewModel, rows: u64, total: u64, groups: u64, t: String, u: String)
    ensures
        ({
            let done = export_reported(
                m,
                ExportUpdate::Done { format: t, rows: rows as usize, output: u },
            );
            let failed = export_reported(m, ExportUpdate::Failed(t));
            &&& done.focus == Focus::List && !done.export.running && done.status == "Exported "@
                + decimal((rows as usize) as nat) + " "@ + t@ + " row(s) to "@ + u@
            &&& failed.focus == Focus::ExportError && !failed.export.running
                && failed.export.message == Some(t@)
            &&& done.list == m.list && failed.list == m.list
        }),
        ({
            let failed = dedup_reported(m, DedupUpdate::Failed(t));
            &&& failed.focus == Focus::List && !failed.dedup.running
                && failed.dedup.output_path is None && failed.status == "Dedup failed: "@ + t@
            &&& failed.list == m.list
        }),
{
}

/// Following a file, the newest record is selected as records come in; otherwise
/// the selection stays.
pub proof fn law_new_records_are_shown(
    m: ViewModel,
    b: Seq<crate::commands::view::types::MetaModel>,
)
    requires
        m.scan is Some,
        b.len() > 0,
    ensures
        ({
            let next = updates_taken(m, seq![ScanUpdateModel::Batch(b)]).0;
            &&& next.list.entries == m.list.entries + b
            &&& m.tail_mode ==> next.list.selected == m.list.entries.len() + b.len() - 1
            &&& !m.tail_mode ==> next.list.selected == m.list.selected
            &&& next.scan is Some && next.scan->0.finished == m.scan->0.finished
        }),
{
    let u = seq![ScanUpdateModel::Batch(b)];
    assert(u.drop_last() =~= Seq::empty());
    crate::commands::view::updates::law_reports_lose_nothing(m, m.scan->0, u);
    let d = crate::commands::view::updates::drained(m, m.scan->0, u.drop_last());
    assert(d.entries == m.list.entries);
}

/// A scan that ends says how many of the records matched; one that fails says
/// why and ends the following of the file.
pub proof fn law_ends_of_scans(m: ViewModel, scanned: u64, matched: u64, e: Seq<char>)
    requires
        m.scan is Some,
        !m.tail_on_launch,
    ensures
        ({
            let done = updates_taken(
                m,
                seq![ScanUpdateModel::Finished { scanned, matched }],
            ).0;
            let failed = updates_taken(m, seq![ScanUpdateModel::Failed(e)]).0;
            &&& done.scan is Some && done.scan->0.finished && done.scan->0.scanned == scanned
                && done.scan->0.matched == matched
            &&& done.status == "Scan complete: "@ + decimal(matched as nat) + " matches out of "@
                + decimal(scanned as nat) + " records"@
            &&& failed.scan is Some && failed.scan->0.finished && failed.status
                == "Scan failed: "@ + e && !failed.tail_mode
            &&& done.list.entries == m.list.entries && failed.list.entries == m.list.entries
        }),
{
    let u = seq![ScanUpdateModel::Finished { scanned, matched }];
    let v = seq![ScanUpdateModel::Failed(e)];
    assert(u.drop_last() =~= Seq::empty());
    assert(v.drop_last() =~= Seq::empty());
    let d = crate::commands::view::updates::drained(m, m.scan->0, u.drop_last());
    assert(d.entries == m.list.entries);
    let f = crate::commands::view::updates::drained(m, m.scan->0, v.drop_last());
    assert(f.entries == m.list.entries);
}

} // verus!
