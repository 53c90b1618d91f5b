//! What the screen is made of.
use std::collections::{HashMap, VecDeque};
use vstd::prelude::*;

use crate::dedup::{DedupMatchMode, DedupMode};
use crate::exporter::{format_members, ExporterRegistry};
use crate::record::RecordType;
use crate::text::chars::{ascii_upper, char_ascii_upper};
use crate::text::str_set::sorted_members;
use crate::text::strings::{chars_of, push_char, str_eq, texts};

verus! {

/// How many rows of the list are remembered.
pub const SUMMARY_CACHE_LIMIT: usize = 256;

/// How many characters of a payload the info pane shows.
pub const DETAIL_PREVIEW_BYTES: usize = 1024;

/// How many records a scan hands over at once.
pub const SCAN_BATCH_SIZE: usize = 128;

/// How many attributes of each kind are listed.
pub const MODAL_ATTR_ENTRY_LIMIT_PER_KIND: usize = 32;

/// What the keys act on.
#[derive(Debug, Clone, Copy, PartialEq, Eq, Structural)]
pub enum Focus {
    Search,
    List,
    Modal,
    FieldFilter,
    SavePrompt,
    SaveError,
    ExportPrompt,
    ExportError,
    ExportProgress,
    DedupPrompt,
    DedupProgress,
}

/// A field of the export prompt.
#[derive(Debug, Clone, Copy, PartialEq, Eq, Structural)]
pub enum ExportField {
    Format,
    Filename,
    Range,
}

/// The order of records from several files.
#[derive(Debug, Clone, Copy, PartialEq, Eq, Structural)]
pub enum ViewOrder {
    /// File by file.
    Concat,
    /// By sequence number.
    MergeSeq,
    /// By timestamp.
    MergeTs,
}

impl ViewOrder {
    pub open spec fn spec_label(self) -> Seq<char> {
        match self {
            ViewOrder::Concat => "concat"@,
            ViewOrder::MergeSeq => "merge-seq"@,
            ViewOrder::MergeTs => "merge-ts"@,
        }
    }

    /// The name of the order.
    pub fn label(self) -> (r: &'static str)
        ensures
            r@ == self.spec_label(),
    {
        match self {
            ViewOrder::Concat => "concat",
            ViewOrder::MergeSeq => "merge-seq",
            ViewOrder::MergeTs => "merge-ts",
        }
    }
}

/// A record that matches: where it is kept, and its header.
#[derive(Debug, Clone)]
pub struct EntryMeta {
    pub offset: u64,
    pub record_type: RecordType,
    pub seq: u64,
    pub ts_unix_ns: u64,
    pub payload_len: u64,
    pub source_path: String,
}

/// What an [`EntryMeta`] holds.
pub struct MetaModel {
    pub offset: u64,
    pub record_type: RecordType,
    pub seq: u64,
    pub ts_unix_ns: u64,
    pub payload_len: u64,
    pub source_path: Seq<char>,
}

impl View for EntryMeta {
    type V = MetaModel;

    open spec fn view(&self) -> MetaModel {
        MetaModel {
            offset: self.offset,
            record_type: self.record_type,
            seq: self.seq,
            ts_unix_ns: self.ts_unix_ns,
            payload_len: self.payload_len,
            source_path: self.source_path@,
        }
    }
}

/// The models of records that match.
pub open spec fn metas_view(m: Seq<EntryMeta>) -> Seq<MetaModel> {
    m.map_values(|x: EntryMeta| x@)
}

/// A record with its payload.
#[derive(Debug)]
pub struct DetailRecord {
    pub meta: EntryMeta,
    pub payload: Vec<u8>,
}

/// What a [`DetailRecord`] holds.
pub struct DetailModel {
    pub meta: MetaModel,
    pub payload: Seq<u8>,
}

impl View for DetailRecord {
    type V = DetailModel;

    open spec fn view(&self) -> DetailModel {
        DetailModel { meta: self.meta@, payload: self.payload@ }
    }
}

/// A row of the list.
#[derive(Debug)]
pub struct ListRowSummary {
    pub message: String,
    pub severity: Option<String>,
}

impl DedupMode {
    pub open spec fn spec_label(self) -> Seq<char> {
        match self {
            DedupMode::Distinct => "distinct"@,
            DedupMode::Collapse => "collapse"@,
        }
    }

    pub open spec fn spec_description(self) -> Seq<char> {
        match self {
            DedupMode::Distinct => "whole filtered set, SQL-like distinct"@,
            DedupMode::Collapse => "nearby burst suppression within bucket"@,
        }
    }

    /// The name of the behaviour.
    pub fn label(self) -> (r: &'static str)
        ensures
            r@ == self.spec_label(),
    {
        match self {
            DedupMode::Distinct => "distinct",
            DedupMode::Collapse => "collapse",
        }
    }

    /// The behaviour in a few words.
    pub fn description(self) -> (r: &'static str)
        ensures
            r@ == self.spec_description(),
    {
        match self {
            DedupMode::Distinct => "whole filtered set, SQL-like distinct",
            DedupMode::Collapse => "nearby burst suppression within bucket",
        }
    }

    /// The next behaviour.
    #[verifier::allow_in_spec]
    pub fn next(self) -> DedupMode
        returns
            (match self {
                DedupMode::Distinct => DedupMode::Collapse,
                DedupMode::Collapse => DedupMode::Distinct,
            }),
    {
        match self {
            DedupMode::Distinct => DedupMode::Collapse,
            DedupMode::Collapse => DedupMode::Distinct,
        }
    }

    /// The behaviour before this one.
    #[verifier::allow_in_spec]
    pub fn prev(self) -> DedupMode
        returns
            self.next(),
    {
        self.next()
    }
}

impl DedupMatchMode {
    pub open spec fn spec_label(self) -> Seq<char> {
        match self {
            DedupMatchMode::Exact => "exact"@,
            DedupMatchMode::Hash2 => "canon"@,
            DedupMatchMode::Full => "full"@,
        }
    }

    pub open spec fn spec_description(self) -> Seq<char> {
        match self {
            DedupMatchMode::Exact => "byte-identical bodies only"@,
            DedupMatchMode::Hash2 => "canonicalized body grouping"@,
            DedupMatchMode::Full => "canon plus Drain3 residuals"@,
        }
    }

    /// The name of the matching.
    pub fn label(self) -> (r: &'static str)
        ensures
            r@ == self.spec_label(),
    {
        match self {
            DedupMatchMode::Exact => "exact",
            DedupMatchMode::Hash2 => "canon",
            DedupMatchMode::Full => "full",
        }
    }

    /// The matching in a few words.
    pub fn description(self) -> (r: &'static str)
        ensures
            r@ == self.spec_description(),
    {
        match self {
            DedupMatchMode::Exact => "byte-identical bodies only",
            DedupMatchMode::Hash2 => "canonicalized body grouping",
            DedupMatchMode::Full => "canon plus Drain3 residuals",
        }
    }

    /// The next matching.
    #[verifier::allow_in_spec]
    pub fn next(self) -> DedupMatchMode
        returns
            (match self {
                DedupMatchMode::Exact => DedupMatchMode::Hash2,
                DedupMatchMode::Hash2 => DedupMatchMode::Full,
                DedupMatchMode::Full => DedupMatchMode::Exact,
            }),
    {
        match self {
            DedupMatchMode::Exact => DedupMatchMode::Hash2,
            DedupMatchMode::Hash2 => DedupMatchMode::Full,
            DedupMatchMode::Full => DedupMatchMode::Exact,
        }
    }

    /// The matching before this one.
    #[verifier::allow_in_spec]
    pub fn prev(self) -> DedupMatchMode
        returns
            (match self {
                DedupMatchMode::Exact => DedupMatchMode::Full,
                DedupMatchMode::Hash2 => DedupMatchMode::Exact,
                DedupMatchMode::Full => DedupMatchMode::Hash2,
            }),
    {
        match self {
            DedupMatchMode::Exact => DedupMatchMode::Full,
            DedupMatchMode::Hash2 => DedupMatchMode::Exact,
            DedupMatchMode::Full => DedupMatchMode::Hash2,
        }
    }
}

/// Going on and back again changes nothing.
pub proof fn law_choices_go_round(mode: DedupMode, matching: DedupMatchMode)
    ensures
        mode.next().prev() == mode,
        matching.next().prev() == matching,
        matching.prev().next() == matching,
{
}

/// ASCII letters made capital.
pub open spec fn raised(s: Seq<char>) -> Seq<char> {
    s.map_values(|c: char| ascii_upper(c))
}

/// ASCII letters made capital.
pub fn ascii_raised(s: &str) -> (r: String)
    ensures
        r@ == raised(s@),
{
    let chars = chars_of(s);
    let mut r = String::new();
    for i in 0..chars.len()
        invariant
            chars@ == s@,
            r@ == raised(s@).take(i as int),
    {
        push_char(&mut r, char_ascii_upper(chars[i]));
        assert(r@ =~= raised(s@).take(i + 1));
    }
    assert(raised(s@).take(chars@.len() as int) =~= raised(s@));
    r
}

/// An export format that can be chosen.
#[derive(Debug)]
pub struct ExportFormatChoice {
    name: String,
    title: String,
    default_extension: String,
}

/// What an [`ExportFormatChoice`] holds.
pub struct ChoiceModel {
    pub name: Seq<char>,
    pub title: Seq<char>,
    pub default_extension: Seq<char>,
}

impl View for ExportFormatChoice {
    type V = ChoiceModel;

    closed spec fn view(&self) -> ChoiceModel {
        ChoiceModel {
            name: self.name@,
            title: self.title@,
            default_extension: self.default_extension@,
        }
    }
}

/// The choice of newline-delimited JSON.
pub open spec fn ndjson_choice() -> ChoiceModel {
    ChoiceModel { name: "ndjson"@, title: "NDJSON"@, default_extension: "ndjson"@ }
}

/// The choice of a plugin.
pub open spec fn plugin_choice(name: Seq<char>) -> ChoiceModel {
    ChoiceModel { name, title: raised(name), default_extension: name }
}

impl ExportFormatChoice {
    /// The choice of newline-delimited JSON.
    pub fn ndjson() -> (r: Self)
        ensures
            r@ == ndjson_choice(),
    {
        ExportFormatChoice {
            name: "ndjson".to_owned(),
            title: "NDJSON".to_owned(),
            default_extension: "ndjson".to_owned(),
        }
    }

    /// The choice of a plugin.
    pub fn from_plugin_name(name: String) -> (r: Self)
        ensures
            r@ == plugin_choice(name@),
    {
        ExportFormatChoice {
            title: ascii_raised(name.as_str()),
            default_extension: name.clone(),
            name,
        }
    }

    /// The name of the format.
    pub fn label(&self) -> (r: &str)
        ensures
            r@ == self@.name,
    {
        self.name.as_str()
    }

    /// The title of the format.
    pub fn title(&self) -> (r: &str)
        ensures
            r@ == self@.title,
    {
        self.title.as_str()
    }

    /// The usual extension of files in the format.
    pub fn default_extension(&self) -> (r: &str)
        ensures
            r@ == self@.default_extension,
    {
        self.default_extension.as_str()
    }
}

/// The models of choices.
pub open spec fn choices_view(c: Seq<ExportFormatChoice>) -> Seq<ChoiceModel> {
    c.map_values(|x: ExportFormatChoice| x@)
}

/// The choices for formats, without the built-in one.
pub open spec fn plugin_choices(names: Seq<Seq<char>>) -> Seq<ChoiceModel>
    decreases names.len(),
{
    if names.len() == 0 {
        Seq::empty()
    } else if names.last() == "ndjson"@ {
        plugin_choices(names.drop_last())
    } else {
        plugin_choices(names.drop_last()).push(plugin_choice(names.last()))
    }
}

/// The formats that can be chosen: the built-in one, then those of the plugins
/// in ascending order.
pub fn discover_export_format_choices(exporters: &ExporterRegistry) -> (r: Vec<ExportFormatChoice>)
    ensures
        choices_view(r@) == seq![ndjson_choice()] + plugin_choices(
            sorted_members(format_members(exporters@.plugins)),
        ),
        r@.len() > 0,
{
    let names = exporters.available_formats();
    let ghost all = texts(names@);
    let mut out: Vec<ExportFormatChoice> = Vec::new();
    out.push(ExportFormatChoice::ndjson());
    assert(all.take(0) =~= Seq::empty());
    assert(choices_view(out@) =~= seq![ndjson_choice()] + plugin_choices(all.take(0)));
    for i in 0..names.len()
        invariant
            all == texts(names@),
            choices_view(out@) == seq![ndjson_choice()] + plugin_choices(all.take(i as int)),
            out@.len() > 0,
    {
        let ghost before = choices_view(out@);
        assert(all.take(i + 1).drop_last() =~= all.take(i as int));
        assert(all[i as int] == names@[i as int]@);
        if !str_eq(names[i].as_str(), "ndjson") {
            let choice = ExportFormatChoice::from_plugin_name(names[i].clone());
            out.push(choice);
            assert(choices_view(out@) =~= before.push(choice@));
            assert(before.push(choice@) =~= seq![ndjson_choice()] + plugin_choices(
                all.take(i + 1),
            ));
        }
    }
    assert(all.take(names@.len() as int) =~= all);
    out
}

/// The rows that are kept once the oldest are dropped.
pub open spec fn kept_rows(cache: Map<usize, ListRowSummary>, order: Seq<usize>) -> Map<
    usize,
    ListRowSummary,
>
    decreases order.len(),
{
    if order.len() <= SUMMARY_CACHE_LIMIT {
        cache
    } else {
        kept_rows(cache.remove(order.first()), order.drop_first())
    }
}

/// The newest entries, as many as are remembered.
pub open spec fn kept_order(order: Seq<usize>) -> Seq<usize> {
    if order.len() <= SUMMARY_CACHE_LIMIT {
        order
    } else {
        order.skip(order.len() - SUMMARY_CACHE_LIMIT)
    }
}

/// Remembers a row and forgets the oldest where there are too many.
pub fn remember_summary(
    cache: &mut HashMap<usize, ListRowSummary>,
    order: &mut VecDeque<usize>,
    index: usize,
    summary: ListRowSummary,
)
    requires
        old(order)@.len() < usize::MAX,
    ensures
        final(cache)@ == kept_rows(
            old(cache)@.insert(index, summary),
            old(order)@.push(index),
        ),
        final(order)@ == kept_order(old(order)@.push(index)),
{
    broadcast use vstd::std_specs::hash::group_hash_axioms;

    cache.insert(index, summary);
    order.push_back(index);
    let ghost rows = cache@;
    let ghost all = order@;
    while order.len() > SUMMARY_CACHE_LIMIT
        invariant
            kept_rows(cache@, order@) == kept_rows(rows, all),
            kept_order(order@) == kept_order(all),
        decreases order@.len(),
    {
        broadcast use vstd::std_specs::hash::group_hash_axioms;

        let ghost now = order@;
        if let Some(oldest) = order.pop_front() {
            assert(order@ =~= now.drop_first());
            cache.remove(&oldest);
            assert(kept_order(order@) =~= kept_order(now));
        }
    }
}

/// Every row that is remembered is listed, and not more than the limit are.
pub open spec fn cache_ok(cache: Map<usize, ListRowSummary>, order: Seq<usize>) -> bool {
    &&& order.len() <= SUMMARY_CACHE_LIMIT
    &&& forall|k: usize| #[trigger] cache.dom().contains(k) ==> order.contains(k)
}

proof fn lemma_kept_rows_listed(cache: Map<usize, ListRowSummary>, order: Seq<usize>)
    requires
        forall|k: usize| #[trigger] cache.dom().contains(k) ==> order.contains(k),
    ensures
        cache_ok(kept_rows(cache, order), kept_order(order)),
    decreases order.len(),
{
    if order.len() > SUMMARY_CACHE_LIMIT {
        let next = cache.remove(order.first());
        let rest = order.drop_first();
        assert forall|k: usize| #[trigger] next.dom().contains(k) implies rest.contains(k) by {
            assert(cache.dom().contains(k));
            let i = choose|i: int| 0 <= i < order.len() && order[i] == k;
            assert(rest[i - 1] == k);
        }
        lemma_kept_rows_listed(next, rest);
        assert(kept_order(rest) =~= kept_order(order));
    }
}

/// However many rows are remembered, the limit is kept.
pub proof fn law_rows_stay_bounded(
    cache: Map<usize, ListRowSummary>,
    order: Seq<usize>,
    index: usize,
    summary: ListRowSummary,
)
    requires
        cache_ok(cache, order),
    ensures
        cache_ok(
            kept_rows(cache.insert(index, summary), order.push(index)),
            kept_order(order.push(index)),
        ),
{
    let next = cache.insert(index, summary);
    let longer = order.push(index);
    assert forall|k: usize| #[trigger] next.dom().contains(k) implies longer.contains(k) by {
        if k == index {
            assert(longer[order.len() as int] == k);
        } else {
            assert(cache.dom().contains(k));
            let i = choose|i: int| 0 <= i < order.len() && order[i] == k;
            assert(longer[i] == k);
        }
    }
    lemma_kept_rows_listed(next, longer);
}

} // verus!
