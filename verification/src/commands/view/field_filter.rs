//! The pane in which severities and services are chosen.
use vstd::prelude::*;

use crate::bridge::lowercase::{lowercase_of, to_lowercase};
use crate::commands::view::keys::{pop_char, popped, KeyCode};
use crate::commands::view::text::smaller;
use crate::predicate::{FieldFilter, FilterModel};
use crate::text::seqs::{contains_seq, has_seq, join_strings, joined};
use crate::text::str_set::{without_member, StrSet};
use crate::text::strings::{chars_of, push_char, texts};

verus! {

/// The services and severities of the files.
#[derive(Debug)]
pub struct FieldCatalog {
    pub services: Vec<String>,
    pub severities: Vec<String>,
}

/// What a [`FieldCatalog`] holds.
pub struct CatalogModel {
    pub services: Seq<Seq<char>>,
    pub severities: Seq<Seq<char>>,
}

impl View for FieldCatalog {
    type V = CatalogModel;

    open spec fn view(&self) -> CatalogModel {
        CatalogModel { services: texts(self.services@), severities: texts(self.severities@) }
    }
}

/// One of the two lists.
#[derive(Debug, Clone, Copy, PartialEq, Eq, Structural)]
pub enum FilterPanel {
    Severities,
    Services,
}

impl FilterPanel {
    /// The other list.
    #[verifier::allow_in_spec]
    pub fn other(self) -> FilterPanel
        returns
            (match self {
                FilterPanel::Severities => FilterPanel::Services,
                FilterPanel::Services => FilterPanel::Severities,
            }),
    {
        match self {
            FilterPanel::Severities => FilterPanel::Services,
            FilterPanel::Services => FilterPanel::Severities,
        }
    }
}

/// A list from which any number of names is chosen.
#[derive(Debug)]
pub struct NamePick {
    pub cursor: usize,
    pub scroll: u32,
    pub chosen: StrSet,
}

/// What a [`NamePick`] holds.
pub struct PickModel {
    pub cursor: int,
    pub scroll: int,
    pub chosen: Seq<Seq<char>>,
}

impl View for NamePick {
    type V = PickModel;

    open spec fn view(&self) -> PickModel {
        PickModel { cursor: self.cursor as int, scroll: self.scroll as int, chosen: self.chosen@ }
    }
}

/// What the pane holds.
#[derive(Debug)]
pub struct FieldFilterState {
    pub panel: FilterPanel,
    pub severity: NamePick,
    pub service: NamePick,
    pub filter_text: String,
}

/// What a [`FieldFilterState`] holds.
pub struct FilterStateModel {
    pub panel: FilterPanel,
    pub severity: PickModel,
    pub service: PickModel,
    pub filter_text: Seq<char>,
}

impl View for FieldFilterState {
    type V = FilterStateModel;

    open spec fn view(&self) -> FilterStateModel {
        FilterStateModel {
            panel: self.panel,
            severity: self.severity@,
            service: self.service@,
            filter_text: self.filter_text@,
        }
    }
}

/// A name passes the text that is typed: it holds it, whatever the case.
pub open spec fn name_shown(name: Seq<char>, filter: Seq<char>) -> bool {
    filter.len() == 0 || contains_seq(lowercase_of(name), lowercase_of(filter))
}

/// The names that pass the text that is typed.
pub open spec fn shown_names(names: Seq<Seq<char>>, filter: Seq<char>) -> Seq<Seq<char>>
    decreases names.len(),
{
    if names.len() == 0 {
        Seq::empty()
    } else if name_shown(names.last(), filter) {
        shown_names(names.drop_last(), filter).push(names.last())
    } else {
        shown_names(names.drop_last(), filter)
    }
}

/// The names that pass the text that is typed.
pub fn visible_names(names: &Vec<String>, filter: &str) -> (r: Vec<String>)
    ensures
        texts(r@) == shown_names(texts(names@), filter@),
{
    let ghost all = texts(names@);
    let typed = chars_of(filter);
    let lower = chars_of(to_lowercase(filter).as_str());
    let mut r: Vec<String> = Vec::new();
    assert(all.take(0) =~= Seq::empty());
    assert(texts(r@) =~= shown_names(all.take(0), filter@));
    for i in 0..names.len()
        invariant
            all == texts(names@),
            typed@ == filter@,
            lower@ == lowercase_of(filter@),
            texts(r@) == shown_names(all.take(i as int), filter@),
    {
        assert(all.take(i + 1).drop_last() =~= all.take(i as int));
        assert(all[i as int] == names@[i as int]@);
        let ghost before = texts(r@);
        let name = chars_of(to_lowercase(names[i].as_str()).as_str());
        if typed.len() == 0 || has_seq(&name, &lower) {
            r.push(names[i].clone());
            assert(texts(r@) =~= before.push(all[i as int]));
        }
    }
    assert(all.take(names@.len() as int) =~= all);
    r
}

/// Chosen names with one of them the other way round.
pub open spec fn toggled(chosen: Seq<Seq<char>>, name: Seq<char>) -> Seq<Seq<char>> {
    if chosen.contains(name) {
        without_member(chosen, name)
    } else {
        chosen.push(name)
    }
}

/// A list after a key.
pub open spec fn pick_after(p: PickModel, code: KeyCode, shown: Seq<Seq<char>>) -> PickModel {
    match code {
        KeyCode::Up => PickModel {
            cursor: if p.cursor == 0 {
                0
            } else {
                p.cursor - 1
            },
            ..p
        },
        KeyCode::Down => if shown.len() == 0 {
            p
        } else {
            PickModel { cursor: smaller(p.cursor + 1, shown.len() - 1), ..p }
        },
        KeyCode::Backspace => PickModel { cursor: 0, scroll: 0, ..p },
        KeyCode::Char(c) => if c == ' ' {
            if p.cursor < shown.len() {
                PickModel { chosen: toggled(p.chosen, shown[p.cursor]), ..p }
            } else {
                p
            }
        } else {
            PickModel { cursor: 0, scroll: 0, ..p }
        },
        _ => p,
    }
}

/// The text after a key.
pub open spec fn filter_text_after(text: Seq<char>, code: KeyCode) -> Seq<char> {
    match code {
        KeyCode::Tab => Seq::empty(),
        KeyCode::Backspace => popped(text),
        KeyCode::Char(c) => if c == ' ' {
            text
        } else {
            text.push(c)
        },
        _ => text,
    }
}

/// The rows of a list on a screen of this height.
pub open spec fn list_rows(screen_height: int) -> int {
    if screen_height * 70 / 100 < 6 {
        2
    } else {
        screen_height * 70 / 100 - 4
    }
}

/// A list of `count` names with the cursor on one of them, scrolled to where
/// the cursor is seen. Rows are counted in sixteen bits.
pub open spec fn settled(p: PickModel, count: int, rows: int) -> PickModel {
    let cursor = if count == 0 {
        0
    } else {
        smaller(p.cursor, count - 1)
    };
    let row = cursor % 0x10000 + 1;
    let scroll = if row < p.scroll {
        row
    } else if row >= p.scroll + rows {
        row - rows + 1
    } else {
        p.scroll
    };
    PickModel { cursor, scroll, chosen: p.chosen }
}

/// The pane after a key that neither leaves nor applies it.
pub open spec fn pane_after(
    m: FilterStateModel,
    code: KeyCode,
    catalog: CatalogModel,
    screen_height: int,
) -> FilterStateModel {
    let panel = if code == KeyCode::Tab {
        m.panel.other()
    } else {
        m.panel
    };
    let text = filter_text_after(m.filter_text, code);
    let rows = list_rows(screen_height);
    let severity = if m.panel == FilterPanel::Severities {
        pick_after(m.severity, code, shown_names(catalog.severities, m.filter_text))
    } else {
        m.severity
    };
    let service = if m.panel == FilterPanel::Services {
        pick_after(m.service, code, shown_names(catalog.services, m.filter_text))
    } else {
        m.service
    };
    FilterStateModel {
        panel,
        severity: if panel == FilterPanel::Severities {
            settled(severity, shown_names(catalog.severities, text).len() as int, rows)
        } else {
            severity
        },
        service: if panel == FilterPanel::Services {
            settled(service, shown_names(catalog.services, text).len() as int, rows)
        } else {
            service
        },
        filter_text: text,
    }
}

impl NamePick {
    /// A list with nothing chosen but what the filter already holds.
    pub fn starting(chosen: &Option<StrSet>) -> (r: Self)
        requires
            *chosen matches Some(s) ==> s.wf(),
        ensures
            r.chosen.wf(),
            r@ == (PickModel {
                cursor: 0,
                scroll: 0,
                chosen: match *chosen {
                    Some(s) => s@,
                    None => Seq::empty(),
                },
            }),
    {
        NamePick {
            cursor: 0,
            scroll: 0,
            chosen: match chosen {
                Some(s) => s.copy(),
                None => StrSet::new(),
            },
        }
    }

    /// What a key does to the list.
    fn press(&mut self, code: KeyCode, shown: &Vec<String>)
        requires
            old(self).chosen.wf(),
        ensures
            final(self).chosen.wf(),
            final(self)@ == pick_after(old(self)@, code, texts(shown@)),
    {
        match code {
            KeyCode::Up => {
                if self.cursor > 0 {
                    self.cursor = self.cursor - 1;
                }
            },
            KeyCode::Down => {
                if shown.len() > 0 {
                    if self.cursor < shown.len() - 1 {
                        self.cursor = self.cursor + 1;
                    } else {
                        self.cursor = shown.len() - 1;
                    }
                }
            },
            KeyCode::Backspace => {
                self.cursor = 0;
                self.scroll = 0;
            },
            KeyCode::Char(c) => {
                if c == ' ' {
                    if self.cursor < shown.len() {
                        assert(texts(shown@)[self.cursor as int] == shown@[self.cursor as int]@);
                        let name = shown[self.cursor].as_str();
                        if !self.chosen.remove(name) {
                            proof {
                                lemma_absent(old(self).chosen@, name@);
                            }
                            self.chosen.insert(name);
                        }
                    }
                } else {
                    self.cursor = 0;
                    self.scroll = 0;
                }
            },
            _ => {},
        }
    }

    /// Puts the cursor on one of `count` names and scrolls to it.
    fn settle(&mut self, count: usize, rows: u16)
        requires
            rows >= 2,
        ensures
            final(self).chosen == old(self).chosen,
            final(self)@ == settled(old(self)@, count as int, rows as int),
    {
        if count == 0 {
            self.cursor = 0;
        } else if self.cursor > count - 1 {
            self.cursor = count - 1;
        }
        let row: u64 = (self.cursor % 0x10000) as u64 + 1;
        if row < self.scroll as u64 {
            self.scroll = row as u32;
        } else if row >= self.scroll as u64 + rows as u64 {
            self.scroll = (row - rows as u64 + 1) as u32;
        }
    }
}

proof fn lemma_absent(s: Seq<Seq<char>>, x: Seq<char>)
    requires
        !s.contains(x),
    ensures
        without_member(s, x) == s,
{
    crate::text::seqs::lemma_first_index(s, x, s.len() as int);
}

/// The rows of a list on a screen of this height.
pub fn visible_rows(screen_height: u16) -> (r: u16)
    ensures
        r == list_rows(screen_height as int),
        r >= 2,
{
    let high: u32 = screen_height as u32 * 70 / 100;
    if high < 6 {
        2
    } else {
        (high - 4) as u16
    }
}

impl FieldFilterState {
    /// Both lists hold no name twice.
    pub open spec fn wf(&self) -> bool {
        self.severity.chosen.wf() && self.service.chosen.wf()
    }

    /// What a key does that neither leaves the pane nor applies it.
    pub fn press(&mut self, code: KeyCode, catalog: &FieldCatalog, screen_height: u16)
        requires
            old(self).wf(),
        ensures
            final(self).wf(),
            final(self)@ == pane_after(old(self)@, code, catalog@, screen_height as int),
    {
        match self.panel {
            FilterPanel::Severities => {
                let shown = visible_names(&catalog.severities, self.filter_text.as_str());
                self.severity.press(code, &shown);
            },
            FilterPanel::Services => {
                let shown = visible_names(&catalog.services, self.filter_text.as_str());
                self.service.press(code, &shown);
            },
        }
        match code {
            KeyCode::Tab => {
                self.panel = self.panel.other();
                self.filter_text = String::new();
                assert(self.filter_text@ =~= Seq::empty());
            },
            KeyCode::Backspace => {
                pop_char(&mut self.filter_text);
            },
            KeyCode::Char(c) => {
                if c != ' ' {
                    push_char(&mut self.filter_text, c);
                }
            },
            _ => {},
        }
        let rows = visible_rows(screen_height);
        match self.panel {
            FilterPanel::Severities => {
                let shown = visible_names(&catalog.severities, self.filter_text.as_str());
                assert(texts(shown@).len() == shown@.len());
                self.severity.settle(shown.len(), rows);
            },
            FilterPanel::Services => {
                let shown = visible_names(&catalog.services, self.filter_text.as_str());
                assert(texts(shown@).len() == shown@.len());
                self.service.settle(shown.len(), rows);
            },
        }
    }

    /// The filter that is chosen.
    pub fn filter(self) -> (r: FieldFilter)
        requires
            self.wf(),
        ensures
            r@ == chosen_filter(self@),
            r.severities matches Some(s) ==> s.wf(),
            r.services matches Some(s) ==> s.wf(),
    {
        FieldFilter {
            severities: if self.severity.chosen.len() == 0 {
                None
            } else {
                Some(self.severity.chosen)
            },
            services: if self.service.chosen.len() == 0 {
                None
            } else {
                Some(self.service.chosen)
            },
        }
    }
}

/// The filter that is chosen: a list of which nothing is chosen filters
/// nothing.
pub open spec fn chosen_filter(m: FilterStateModel) -> FilterModel {
    FilterModel {
        severities: if m.severity.chosen.len() == 0 {
            None
        } else {
            Some(m.severity.chosen)
        },
        services: if m.service.chosen.len() == 0 {
            None
        } else {
            Some(m.service.chosen)
        },
    }
}

/// Names behind what they are.
pub open spec fn named_list(label: Seq<char>, names: Seq<Seq<char>>) -> Seq<char> {
    label + joined(names, ", "@)
}

/// What is said once a filter is applied.
pub open spec fn filter_note(f: FilterModel) -> Seq<char> {
    match (f.severities, f.services) {
        (None, None) => "Field filter cleared"@,
        (Some(a), None) => "Field filter: "@ + named_list("severity: "@, a),
        (None, Some(b)) => "Field filter: "@ + named_list("service: "@, b),
        (Some(a), Some(b)) => "Field filter: "@ + (named_list("severity: "@, a) + " | "@
            + named_list("service: "@, b)),
    }
}

fn list_note(label: &str, names: &StrSet) -> (r: String)
    ensures
        r@ == named_list(label@, names@),
{
    let mut r = label.to_owned();
    r.append(join_strings(names.items(), ", ").as_str());
    r
}

/// What is said once a filter is applied.
pub fn describe_filter(f: &FieldFilter) -> (r: String)
    ensures
        r@ == filter_note(f@),
{
    let mut r = "Field filter: ".to_owned();
    match (&f.severities, &f.services) {
        (None, None) => "Field filter cleared".to_owned(),
        (Some(a), None) => {
            r.append(list_note("severity: ", a).as_str());
            r
        },
        (None, Some(b)) => {
            r.append(list_note("service: ", b).as_str());
            r
        },
        (Some(a), Some(b)) => {
            let mut both = list_note("severity: ", a);
            both.append(" | ");
            both.append(list_note("service: ", b).as_str());
            r.append(both.as_str());
            r
        },
    }
}

/// Toggling a name changes whether that name is chosen and nothing else, and
/// chooses no name twice.
pub proof fn law_toggling_changes_one_name(chosen: Seq<Seq<char>>, name: Seq<char>)
    requires
        chosen.no_duplicates(),
    ensures
        toggled(chosen, name).no_duplicates(),
        toggled(chosen, name).to_set() == if chosen.contains(name) {
            chosen.to_set().remove(name)
        } else {
            chosen.to_set().insert(name)
        },
{
    let after = toggled(chosen, name);
    if chosen.contains(name) {
        let at = choose|i: int| 0 <= i < chosen.len() && chosen[i] == name;
        assert forall|j: int| 0 <= j < at implies chosen[j] != name by {}
        crate::text::seqs::lemma_first_index(chosen, name, at);
        assert(after == chosen.remove(at));
        assert forall|x: Seq<char>| after.to_set().contains(x) == chosen.to_set().remove(
            name,
        ).contains(x) by {
            if after.contains(x) {
                let i = choose|i: int| 0 <= i < after.len() && after[i] == x;
                let j = if i < at { i } else { i + 1 };
                assert(chosen[j] == x);
            }
            if chosen.contains(x) && x != name {
                let j = choose|j: int| 0 <= j < chosen.len() && chosen[j] == x;
                let i = if j < at { j } else { j - 1 };
                assert(after[i] == x);
            }
        }
        assert(after.to_set() =~= chosen.to_set().remove(name));
    } else {
        assert forall|x: Seq<char>| after.to_set().contains(x) == chosen.to_set().insert(
            name,
        ).contains(x) by {
            if after.contains(x) && x != name {
                let i = choose|i: int| 0 <= i < after.len() && after[i] == x;
                assert(chosen[i] == x);
            }
            if chosen.contains(x) {
                let i = choose|i: int| 0 <= i < chosen.len() && chosen[i] == x;
                assert(after[i] == x);
            }
            assert(after[chosen.len() as int] == name);
        }
        assert(after.to_set() =~= chosen.to_set().insert(name));
    }
}

/// A name that is toggled twice leaves the choice as it was: the same names
/// are chosen, and one that was not chosen leaves the order alone too.
pub proof fn law_toggling_twice(chosen: Seq<Seq<char>>, name: Seq<char>)
    requires
        chosen.no_duplicates(),
    ensures
        toggled(toggled(chosen, name), name).to_set() == chosen.to_set(),
        !chosen.contains(name) ==> toggled(toggled(chosen, name), name) == chosen,
{
    let once = toggled(chosen, name);
    law_toggling_changes_one_name(chosen, name);
    law_toggling_changes_one_name(once, name);
    assert(once.contains(name) == once.to_set().contains(name));
    assert(toggled(once, name).to_set() =~= chosen.to_set());
    if !chosen.contains(name) {
        assert(once[chosen.len() as int] == name);
        assert forall|j: int| 0 <= j < chosen.len() implies once[j] != name by {
            assert(chosen[j] != name);
        }
        crate::text::seqs::lemma_first_index(once, name, chosen.len() as int);
        assert(once.remove(chosen.len() as int) =~= chosen);
    }
}

/// The space bar toggles the name under the cursor of the list in front and
/// leaves the text, the cursors and the other list alone. Pressed twice it
/// leaves the same names chosen in both lists.
pub proof fn law_space_bar_toggles_one_name(
    m: FilterStateModel,
    catalog: CatalogModel,
    screen_height: int,
)
    requires
        m.severity.chosen.no_duplicates(),
        m.service.chosen.no_duplicates(),
        m.panel == FilterPanel::Severities ==> 0 <= m.severity.cursor < shown_names(
            catalog.severities,
            m.filter_text,
        ).len(),
        m.panel == FilterPanel::Services ==> 0 <= m.service.cursor < shown_names(
            catalog.services,
            m.filter_text,
        ).len(),
    ensures
        ({
            let once = pane_after(m, KeyCode::Char(' '), catalog, screen_height);
            let twice = pane_after(once, KeyCode::Char(' '), catalog, screen_height);
            &&& once.panel == m.panel
            &&& once.filter_text == m.filter_text
            &&& once.severity.cursor == m.severity.cursor
            &&& once.service.cursor == m.service.cursor
            &&& once.severity.chosen == if m.panel == FilterPanel::Severities {
                toggled(
                    m.severity.chosen,
                    shown_names(catalog.severities, m.filter_text)[m.severity.cursor],
                )
            } else {
                m.severity.chosen
            }
            &&& once.service.chosen == if m.panel == FilterPanel::Services {
                toggled(
                    m.service.chosen,
                    shown_names(catalog.services, m.filter_text)[m.service.cursor],
                )
            } else {
                m.service.chosen
            }
            &&& twice.severity.chosen.to_set() == m.severity.chosen.to_set()
            &&& twice.service.chosen.to_set() == m.service.chosen.to_set()
        }),
{
    if m.panel == FilterPanel::Severities {
        let name = shown_names(catalog.severities, m.filter_text)[m.severity.cursor];
        law_toggling_twice(m.severity.chosen, name);
    } else {
        let name = shown_names(catalog.services, m.filter_text)[m.service.cursor];
        law_toggling_twice(m.service.chosen, name);
    }
}

/// The cursor is on a name wherever there is one, and the row of the cursor is
/// seen.
pub proof fn law_cursor_is_seen(p: PickModel, count: int, rows: int)
    requires
        0 <= p.cursor,
        0 <= count <= 0xffff,
        2 <= rows,
    ensures
        ({
            let s = settled(p, count, rows);
            &&& 0 < count ==> 0 <= s.cursor < count
            &&& s.scroll <= s.cursor + 1 < s.scroll + rows
        }),
{
}

} // verus!
