//! The prompts for saving, exporting and deduplicating.
use vstd::prelude::*;

use crate::commands::view::keys::{
    edited, line_with, pop_char, popped, typed_char, KeyCode, KeyPress, LineEdit, LineModel,
};
use crate::commands::view::lines::{export_range, parse_export_selection};
use crate::commands::view::text::smaller;
use crate::commands::view::types::{
    choices_view, ChoiceModel, ExportField, ExportFormatChoice,
};
use crate::dedup::detect::text_option;
use crate::dedup::{DedupMatchMode, DedupMode};
use crate::text::seqs::{has_char, trim, trimmed};
use crate::text::strings::{chars_of, is_blank, push_char, string_between};

verus! {

/// What is wrong with a file name.
pub open spec fn name_fault(name: Seq<char>) -> Option<Seq<char>> {
    if name.len() == 0 {
        Some("Filename must not be empty."@)
    } else if name.contains('/') {
        Some("Filename must not contain path separators."@)
    } else {
        None
    }
}

/// What is wrong with a file name.
pub fn find_name_fault(name: &str) -> (r: Option<String>)
    ensures
        text_option(r) == name_fault(name@),
{
    let chars = chars_of(name);
    if chars.len() == 0 {
        Some("Filename must not be empty.".to_owned())
    } else if has_char(&chars, '/') {
        Some("Filename must not contain path separators.".to_owned())
    } else {
        None
    }
}

/// The prompt for saving.
#[derive(Debug)]
pub struct SavePrompt {
    pub filename: LineEdit,
    pub message: Option<String>,
}

/// What a [`SavePrompt`] holds.
pub struct SaveModel {
    pub filename: LineModel,
    pub message: Option<Seq<char>>,
}

impl View for SavePrompt {
    type V = SaveModel;

    open spec fn view(&self) -> SaveModel {
        SaveModel { filename: self.filename@, message: text_option(self.message) }
    }
}

/// The prompt as it opens: the last name, or one that is offered.
pub open spec fn save_opened(m: SaveModel) -> SaveModel {
    SaveModel {
        filename: line_with(
            if m.filename.text.len() == 0 {
                "filtered.logjet"@
            } else {
                m.filename.text
            },
        ),
        message: None,
    }
}

impl SavePrompt {
    /// A prompt that was never opened.
    pub fn new() -> (r: Self)
        ensures
            r@ == (SaveModel { filename: line_with(Seq::empty()), message: None }),
    {
        SavePrompt { filename: LineEdit::empty(), message: None }
    }

    /// Opens the prompt.
    pub fn open(&mut self)
        ensures
            final(self)@ == save_opened(old(self)@),
    {
        let text = if is_blank(self.filename.text.as_str()) {
            "filtered.logjet".to_owned()
        } else {
            self.filename.text.clone()
        };
        self.filename = LineEdit::with_text(text.as_str());
        self.message = None;
    }
}

/// A name without the last dot and what follows it.
pub open spec fn without_extension(s: Seq<char>) -> Seq<char>
    decreases s.len(),
{
    if !s.contains('.') || s.len() == 0 {
        s
    } else if s.last() == '.' {
        s.drop_last()
    } else {
        without_extension(s.drop_last())
    }
}

/// A name with another extension.
pub open spec fn with_extension(s: Seq<char>, extension: Seq<char>) -> Seq<char> {
    without_extension(s).push('.') + extension
}

proof fn lemma_without_extension(s: Seq<char>, at: int)
    requires
        0 <= at < s.len(),
        s[at] == '.',
        forall|j: int| at < j < s.len() ==> s[j] != '.',
    ensures
        without_extension(s) == s.take(at),
    decreases s.len() - at,
{
    assert(s.contains('.'));
    if at == s.len() - 1 {
        assert(s.drop_last() =~= s.take(at));
    } else {
        assert(s.last() != '.');
        lemma_without_extension(s.drop_last(), at);
        assert(s.drop_last().take(at) =~= s.take(at));
    }
}

/// A name with another extension.
pub fn replace_extension(name: &str, extension: &str) -> (r: String)
    ensures
        r@ == with_extension(name@, extension@),
{
    let chars = chars_of(name);
    let n = chars.len();
    let mut end: usize = n;
    let mut i: usize = n;
    while i > 0
        invariant_except_break
            end == n,
        invariant
            i <= n,
            n == chars@.len(),
            chars@ == name@,
            forall|j: int| i <= j < n ==> chars@[j] != '.',
        ensures
            end <= n,
            end < n ==> chars@[end as int] == '.',
            forall|j: int| end < j < n ==> chars@[j] != '.',
            end == n ==> !chars@.contains('.'),
        decreases i,
    {
        i = i - 1;
        if chars[i] == '.' {
            end = i;
            i = i + 1;
            break;
        }
    }
    proof {
        if end < n {
            lemma_without_extension(name@, end as int);
        }
    }
    let mut r = string_between(&chars, 0, end);
    assert(r@ =~= without_extension(name@));
    push_char(&mut r, '.');
    r.append(extension);
    r
}

/// The prompt for exporting, and the export that runs.
#[derive(Debug)]
pub struct ExportPrompt {
    pub formats: Vec<ExportFormatChoice>,
    pub format_index: usize,
    pub filename: LineEdit,
    pub range: LineEdit,
    pub field: ExportField,
    pub message: Option<String>,
    pub phase: String,
    pub running: bool,
}

/// What an [`ExportPrompt`] holds.
pub struct ExportModel {
    pub formats: Seq<ChoiceModel>,
    pub format_index: int,
    pub filename: LineModel,
    pub range: LineModel,
    pub field: ExportField,
    pub message: Option<Seq<char>>,
    pub phase: Seq<char>,
    pub running: bool,
}

impl View for ExportPrompt {
    type V = ExportModel;

    open spec fn view(&self) -> ExportModel {
        ExportModel {
            formats: choices_view(self.formats@),
            format_index: self.format_index as int,
            filename: self.filename@,
            range: self.range@,
            field: self.field,
            message: text_option(self.message),
            phase: self.phase@,
            running: self.running,
        }
    }
}

/// The format that is chosen.
pub open spec fn current_choice(m: ExportModel) -> ChoiceModel {
    m.formats[smaller(m.format_index, m.formats.len() - 1)]
}

/// The prompt with a name that fits the format; a name without characters stays.
pub open spec fn export_synced(m: ExportModel) -> ExportModel {
    if trim(m.filename.text).len() == 0 {
        m
    } else {
        ExportModel {
            filename: line_with(
                with_extension(m.filename.text, current_choice(m).default_extension),
            ),
            ..m
        }
    }
}

/// The prompt with the format `delta` places on; the list goes round.
pub open spec fn export_cycled(m: ExportModel, delta: int) -> ExportModel {
    export_synced(
        ExportModel { format_index: (m.format_index + delta) % (m.formats.len() as int), ..m },
    )
}

/// The field behind a field of the prompt.
#[verifier::allow_in_spec]
pub fn next_field(f: ExportField) -> ExportField
    returns
        (match f {
            ExportField::Format => ExportField::Filename,
            ExportField::Filename => ExportField::Range,
            ExportField::Range => ExportField::Format,
        }),
{
    match f {
        ExportField::Format => ExportField::Filename,
        ExportField::Filename => ExportField::Range,
        ExportField::Range => ExportField::Format,
    }
}

/// The prompt after a key that neither leaves it nor starts the export.
pub open spec fn export_after(m: ExportModel, k: KeyPress) -> ExportModel {
    if k.code == KeyCode::Tab || k.code == KeyCode::Up || k.code == KeyCode::Down {
        ExportModel { field: next_field(m.field), ..m }
    } else {
        match m.field {
            ExportField::Format => if k.code == KeyCode::Left {
                export_cycled(m, -1)
            } else if k.code == KeyCode::Right || k.code == KeyCode::Char(' ') {
                export_cycled(m, 1)
            } else {
                m
            },
            ExportField::Filename => ExportModel { filename: edited(m.filename, k), ..m },
            ExportField::Range => ExportModel { range: edited(m.range, k), ..m },
        }
    }
}

/// The prompt as it opens, with these formats.
pub open spec fn export_opened(
    m: ExportModel,
    formats: Seq<ChoiceModel>,
    stem: Seq<char>,
) -> ExportModel {
    let fresh = ExportModel { formats, message: None, ..m };
    let named = if m.filename.text.len() == 0 {
        ExportModel {
            filename: line_with(stem + "."@ + current_choice(fresh).default_extension),
            ..fresh
        }
    } else {
        export_synced(fresh)
    };
    ExportModel {
        filename: line_with(named.filename.text),
        range: line_with(
            if m.range.text.len() == 0 {
                "all"@
            } else {
                m.range.text
            },
        ),
        field: ExportField::Format,
        ..named
    }
}

/// An export that can start.
#[derive(Debug)]
pub struct ExportPlan {
    pub name: String,
    pub format: String,
    pub start: usize,
    pub end: usize,
}

/// What an [`ExportPlan`] holds.
pub struct PlanModel {
    pub name: Seq<char>,
    pub format: Seq<char>,
    pub start: nat,
    pub end: nat,
}

impl View for ExportPlan {
    type V = PlanModel;

    open spec fn view(&self) -> PlanModel {
        PlanModel {
            name: self.name@,
            format: self.format@,
            start: self.start as nat,
            end: self.end as nat,
        }
    }
}

/// What comes of asking for an export.
pub enum ExportAnswer {
    /// The name is at fault; the prompt stays.
    BadName(Seq<char>),
    /// The range is at fault.
    BadRange(Seq<char>),
    Ready(PlanModel),
}

/// What comes of asking for an export.
pub open spec fn export_answer(m: ExportModel, total: nat, selected: nat) -> ExportAnswer {
    let name = trim(m.filename.text);
    match name_fault(name) {
        Some(fault) => ExportAnswer::BadName(fault),
        None => match export_range(m.range.text, total, selected) {
            Err(e) => ExportAnswer::BadRange(e),
            Ok((start, end)) => ExportAnswer::Ready(
                PlanModel { name, format: current_choice(m).name, start, end },
            ),
        },
    }
}

/// Why an export cannot start.
#[derive(Debug)]
pub enum ExportFault {
    Name(String),
    Range(String),
}

impl ExportPrompt {
    /// There is a format to choose.
    pub open spec fn wf(&self) -> bool {
        self@.formats.len() > 0
    }

    /// A prompt that was never opened.
    pub fn new(formats: Vec<ExportFormatChoice>) -> (r: Self)
        ensures
            r@ == (ExportModel {
                formats: choices_view(formats@),
                format_index: 0,
                filename: line_with(Seq::empty()),
                range: line_with("all"@),
                field: ExportField::Format,
                message: None,
                phase: Seq::empty(),
                running: false,
            }),
    {
        let phase = String::new();
        assert(phase@ =~= Seq::empty());
        ExportPrompt {
            formats,
            format_index: 0,
            filename: LineEdit::empty(),
            range: LineEdit::with_text("all"),
            field: ExportField::Format,
            message: None,
            phase,
            running: false,
        }
    }

    /// The format that is chosen.
    pub fn current_export_format(&self) -> (r: &ExportFormatChoice)
        requires
            self.wf(),
        ensures
            r@ == current_choice(self@),
    {
        let last = self.formats.len() - 1;
        let at = if self.format_index < last {
            self.format_index
        } else {
            last
        };
        assert(self@.formats[at as int] == self.formats@[at as int]@);
        &self.formats[at]
    }

    /// Makes the name fit the format.
    fn sync_export_filename_extension(&mut self)
        requires
            old(self).wf(),
        ensures
            final(self)@ == export_synced(old(self)@),
    {
        let name = trimmed(&chars_of(self.filename.text.as_str()));
        if !is_blank(name.as_str()) {
            let text = replace_extension(
                self.filename.text.as_str(),
                self.current_export_format().default_extension(),
            );
            self.filename = LineEdit::with_text(text.as_str());
        }
    }

    /// Chooses the next format, or the one before.
    pub fn cycle_export_format(&mut self, forward: bool)
        requires
            old(self).wf(),
        ensures
            final(self)@ == export_cycled(
                old(self)@,
                if forward {
                    1
                } else {
                    -1
                },
            ),
    {
        let n = self.formats.len();
        let at = self.format_index % n;
        proof {
            lemma_round(self.format_index as int, n as int);
        }
        if forward {
            self.format_index = if at + 1 == n {
                0
            } else {
                at + 1
            };
        } else {
            self.format_index = if at == 0 {
                n - 1
            } else {
                at - 1
            };
        }
        self.sync_export_filename_extension();
    }

    /// What a key does that neither leaves the prompt nor starts the export.
    pub fn press(&mut self, k: KeyPress)
        requires
            old(self).wf(),
        ensures
            final(self)@ == export_after(old(self)@, k),
    {
        match k.code {
            KeyCode::Tab | KeyCode::Up | KeyCode::Down => {
                self.field = next_field(self.field);
            },
            _ => match self.field {
                ExportField::Format => match k.code {
                    KeyCode::Left => self.cycle_export_format(false),
                    KeyCode::Right => self.cycle_export_format(true),
                    KeyCode::Char(c) => {
                        if c == ' ' {
                            self.cycle_export_format(true);
                        }
                    },
                    _ => {},
                },
                ExportField::Filename => self.filename.edit(k),
                ExportField::Range => self.range.edit(k),
            },
        }
    }

    /// Opens the prompt. `stem` is the name that is offered, without extension.
    pub fn open(&mut self, formats: Vec<ExportFormatChoice>, stem: &str)
        requires
            formats@.len() > 0,
        ensures
            final(self)@ == export_opened(old(self)@, choices_view(formats@), stem@),
    {
        self.formats = formats;
        self.message = None;
        if is_blank(self.filename.text.as_str()) {
            let mut text = stem.to_owned();
            text.append(".");
            text.append(self.current_export_format().default_extension());
            self.filename = LineEdit::with_text(text.as_str());
        } else {
            self.sync_export_filename_extension();
        }
        if is_blank(self.range.text.as_str()) {
            self.range.text = "all".to_owned();
        }
        self.filename = LineEdit::with_text(self.filename.text.as_str());
        self.range = LineEdit::with_text(self.range.text.as_str());
        self.field = ExportField::Format;
    }

    /// What is to be exported.
    pub fn plan(&self, total: usize, selected: usize) -> (r: Result<ExportPlan, ExportFault>)
        requires
            self.wf(),
        ensures
            match r {
                Ok(p) => export_answer(self@, total as nat, selected as nat)
                    == ExportAnswer::Ready(p@) && p.start <= p.end <= total,
                Err(ExportFault::Name(e)) => export_answer(self@, total as nat, selected as nat)
                    == ExportAnswer::BadName(e@),
                Err(ExportFault::Range(e)) => export_answer(self@, total as nat, selected as nat)
                    == ExportAnswer::BadRange(e@),
            },
    {
        let name = trimmed(&chars_of(self.filename.text.as_str()));
        if let Some(fault) = find_name_fault(name.as_str()) {
            return Err(ExportFault::Name(fault));
        }
        match parse_export_selection(self.range.text.as_str(), total, selected) {
            Ok((start, end)) => Ok(
                ExportPlan {
                    name,
                    format: self.current_export_format().label().to_owned(),
                    start,
                    end,
                },
            ),
            Err(e) => Err(ExportFault::Range(e)),
        }
    }
}

/// One place on and one place back in a list that goes round.
proof fn lemma_round(at: int, n: int)
    requires
        0 <= at,
        0 < n,
    ensures
        (at + 1) % n == if at % n + 1 == n {
            0
        } else {
            at % n + 1
        },
        (at - 1) % n == if at % n == 0 {
            n - 1
        } else {
            at % n - 1
        },
{
    let q = at / n;
    let r = at % n;
    vstd::arithmetic::div_mod::lemma_fundamental_div_mod(at, n);
    if r + 1 == n {
        assert(at + 1 == (q + 1) * n + 0) by (nonlinear_arith)
            requires
                at == n * q + r,
                r + 1 == n,
        ;
        vstd::arithmetic::div_mod::lemma_fundamental_div_mod_converse(at + 1, n, q + 1, 0);
    } else {
        assert(at + 1 == q * n + (r + 1)) by (nonlinear_arith)
            requires
                at == n * q + r,
        ;
        vstd::arithmetic::div_mod::lemma_fundamental_div_mod_converse(at + 1, n, q, r + 1);
    }
    if r == 0 {
        assert(at - 1 == (q - 1) * n + (n - 1)) by (nonlinear_arith)
            requires
                at == n * q + r,
                r == 0,
        ;
        vstd::arithmetic::div_mod::lemma_fundamental_div_mod_converse(at - 1, n, q - 1, n - 1);
    } else {
        assert(at - 1 == q * n + (r - 1)) by (nonlinear_arith)
            requires
                at == n * q + r,
        ;
        vstd::arithmetic::div_mod::lemma_fundamental_div_mod_converse(at - 1, n, q, r - 1);
    }
}

/// Going one format on and one back gives the chosen format again.
pub proof fn law_formats_go_round(m: ExportModel)
    requires
        0 <= m.format_index < m.formats.len(),
    ensures
        export_cycled(export_cycled(m, 1), -1).format_index == m.format_index,
        export_cycled(export_cycled(m, -1), 1).format_index == m.format_index,
{
    let n = m.formats.len() as int;
    lemma_round(m.format_index, n);
    lemma_round(export_cycled(m, 1).format_index, n);
    lemma_round(export_cycled(m, -1).format_index, n);
    vstd::arithmetic::div_mod::lemma_small_mod(m.format_index as nat, n as nat);
    vstd::arithmetic::div_mod::lemma_small_mod(
        export_cycled(m, 1).format_index as nat,
        n as nat,
    );
    vstd::arithmetic::div_mod::lemma_small_mod(
        export_cycled(m, -1).format_index as nat,
        n as nat,
    );
}

/// The prompt for deduplicating, and the run that it starts.
#[derive(Debug)]
pub struct DedupPrompt {
    pub filename: String,
    pub behavior: DedupMode,
    pub match_mode: DedupMatchMode,
    pub output_path: Option<String>,
    pub running: bool,
    pub phase: String,
    pub completion: Option<String>,
}

/// What a [`DedupPrompt`] holds.
pub struct DedupModel {
    pub filename: Seq<char>,
    pub behavior: DedupMode,
    pub match_mode: DedupMatchMode,
    pub output_path: Option<Seq<char>>,
    pub running: bool,
    pub phase: Seq<char>,
    pub completion: Option<Seq<char>>,
}

impl View for DedupPrompt {
    type V = DedupModel;

    open spec fn view(&self) -> DedupModel {
        DedupModel {
            filename: self.filename@,
            behavior: self.behavior,
            match_mode: self.match_mode,
            output_path: text_option(self.output_path),
            running: self.running,
            phase: self.phase@,
            completion: text_option(self.completion),
        }
    }
}

/// The prompt after a key that neither leaves it nor starts the run.
pub open spec fn dedup_after(m: DedupModel, k: KeyPress) -> DedupModel {
    match k.code {
        KeyCode::Left => DedupModel { behavior: m.behavior.prev(), ..m },
        KeyCode::Right => DedupModel { behavior: m.behavior.next(), ..m },
        KeyCode::Up => DedupModel { match_mode: m.match_mode.prev(), ..m },
        KeyCode::Down | KeyCode::Tab => DedupModel { match_mode: m.match_mode.next(), ..m },
        KeyCode::Backspace => DedupModel { filename: popped(m.filename), ..m },
        KeyCode::Char(_) => match typed_char(k) {
            Some(c) => DedupModel { filename: m.filename.push(c), ..m },
            None => m,
        },
        _ => m,
    }
}

impl DedupPrompt {
    /// A prompt that was never opened.
    pub fn new() -> (r: Self)
        ensures
            r@ == (DedupModel {
                filename: Seq::empty(),
                behavior: DedupMode::Distinct,
                match_mode: DedupMatchMode::Hash2,
                output_path: None,
                running: false,
                phase: Seq::empty(),
                completion: None,
            }),
    {
        let r = DedupPrompt {
            filename: String::new(),
            behavior: DedupMode::Distinct,
            match_mode: DedupMatchMode::Hash2,
            output_path: None,
            running: false,
            phase: String::new(),
            completion: None,
        };
        assert(r.filename@ =~= Seq::empty());
        assert(r.phase@ =~= Seq::empty());
        r
    }

    /// What a key does that neither leaves the prompt nor starts the run.
    pub fn press(&mut self, k: KeyPress)
        ensures
            final(self)@ == dedup_after(old(self)@, k),
    {
        match k.code {
            KeyCode::Left => {
                self.behavior = self.behavior.prev();
            },
            KeyCode::Right => {
                self.behavior = self.behavior.next();
            },
            KeyCode::Up => {
                self.match_mode = self.match_mode.prev();
            },
            KeyCode::Down | KeyCode::Tab => {
                self.match_mode = self.match_mode.next();
            },
            KeyCode::Backspace => {
                pop_char(&mut self.filename);
            },
            KeyCode::Char(_) => {
                if let Some(c) = typed_char(k) {
                    push_char(&mut self.filename, c);
                }
            },
            _ => {},
        }
    }
}

/// The phase of a run in which the records are grouped.
pub open spec fn running_phase(behavior: DedupMode, match_mode: DedupMatchMode) -> Seq<char> {
    "running "@ + behavior.spec_label() + " / "@ + match_mode.spec_label()
}

/// The phase of a run in which the records are grouped.
pub fn describe_running(behavior: DedupMode, match_mode: DedupMatchMode) -> (r: String)
    ensures
        r@ == running_phase(behavior, match_mode),
{
    let mut r = "running ".to_owned();
    r.append(behavior.label());
    r.append(" / ");
    r.append(match_mode.label());
    r
}

/// How far an export has been reported.
#[derive(Debug, Clone, Copy, PartialEq, Eq, Structural)]
pub struct ProgressReport {
    pub last_sent: usize,
    pub finalizing_sent: bool,
}

/// Whether progress is reported now, and whether it is reported that the output
/// is being finished.
pub open spec fn report_due(p: ProgressReport, processed: int, rows: int) -> (bool, bool) {
    let sent = processed == rows || processed - p.last_sent >= 128;
    (sent, sent && processed >= rows && !p.finalizing_sent)
}

/// What has been reported behind that.
pub open spec fn report_after(p: ProgressReport, processed: usize, rows: usize) -> ProgressReport {
    let (sent, finalizing) = report_due(p, processed as int, rows as int);
    ProgressReport {
        last_sent: if sent {
            processed
        } else {
            p.last_sent
        },
        finalizing_sent: p.finalizing_sent || finalizing,
    }
}

impl ProgressReport {
    /// Nothing has been reported.
    #[verifier::allow_in_spec]
    pub fn new() -> Self
        returns
            (ProgressReport { last_sent: 0, finalizing_sent: false }),
    {
        ProgressReport { last_sent: 0, finalizing_sent: false }
    }

    /// Says what is reported once `processed` of `rows` rows are written.
    pub fn step(&mut self, processed: usize, rows: usize) -> (r: (bool, bool))
        ensures
            r == report_due(*old(self), processed as int, rows as int),
            *final(self) == report_after(*old(self), processed, rows),
    {
        let far = processed >= self.last_sent && processed - self.last_sent >= 128;
        let sent = processed == rows || far;
        let finalizing = sent && processed >= rows && !self.finalizing_sent;
        if sent {
            self.last_sent = processed;
        }
        if finalizing {
            self.finalizing_sent = true;
        }
        (sent, finalizing)
    }
}

/// That the output is being finished is reported once at most.
pub proof fn law_finalizing_is_sent_once(p: ProgressReport, a: usize, b: usize, rows: usize)
    ensures
        report_due(p, a as int, rows as int).1 ==> !report_due(
            report_after(p, a, rows),
            b as int,
            rows as int,
        ).1,
{
}

} // verus!
