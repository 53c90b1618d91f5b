//! Exporter plugins: which are found, which are used, and what is said of
//! those that cannot be used.
use vstd::prelude::*;

use crate::bridge::paths::{path_extension, path_extension_of, same_components, same_path};
use crate::bridge::protobuf::{decode_logs, logs_of};
use crate::dedup::detect::text_option;
use crate::error::{Error, ErrorModel};
use crate::record::{RecordModel, RecordType, StreamRecord};
use crate::text::chars::{
    ascii_lower, char_ascii_lower, char_is_ascii_digit, is_ascii_digit,
};
use crate::text::numbers::{decimal, decimal_int, i64_text, u64_text};
use crate::text::order::{keyed, sort_by_key, sorted_by_key};
use crate::text::seqs::{join_strings, joined, trim, trimmed};
use crate::text::str_set::{sorted_members, with_member, StrSet};
use crate::text::strings::{chars_of, push_char, str_eq, texts};

verus! {

/// The built-in export format.
pub const BUILTIN_EXPORTER: &'static str = "ndjson";

/// What an exporter plugin says of itself.
#[derive(Debug)]
pub struct DescriptorInfo {
    pub struct_size: u32,
    pub abi_major: u32,
    pub abi_minor: u32,
    pub format_name: String,
    pub display_name: String,
    pub capabilities: u64,
}

/// What this program expects of exporter plugins.
#[derive(Debug, Clone, Copy)]
pub struct HostAbi {
    pub descriptor_size: u32,
    pub major: u32,
    pub minor: u32,
}

/// An exporter plugin.
#[derive(Debug)]
pub struct PluginInfo {
    pub path: String,
    pub format_name: String,
    pub display_name: String,
    pub capabilities: u64,
}

/// What a [`PluginInfo`] holds.
pub struct PluginModel {
    pub path: Seq<char>,
    pub format_name: Seq<char>,
    pub display_name: Seq<char>,
    pub capabilities: u64,
}

impl View for PluginInfo {
    type V = PluginModel;

    open spec fn view(&self) -> PluginModel {
        PluginModel {
            path: self.path@,
            format_name: self.format_name@,
            display_name: self.display_name@,
            capabilities: self.capabilities,
        }
    }
}

/// The models of a list of plugins.
pub open spec fn plugins_view(p: Seq<PluginInfo>) -> Seq<PluginModel> {
    p.map_values(|x: PluginInfo| x@)
}

/// ASCII letters made small.
pub open spec fn lowered(s: Seq<char>) -> Seq<char> {
    s.map_values(|c: char| ascii_lower(c))
}

/// ASCII letters made small.
pub fn ascii_lowered(s: &str) -> (r: String)
    ensures
        r@ == lowered(s@),
{
    let chars = chars_of(s);
    let mut r = String::new();
    for i in 0..chars.len()
        invariant
            chars@ == s@,
            r@ == lowered(s@).take(i as int),
    {
        push_char(&mut r, char_ascii_lower(chars[i]));
        assert(r@ =~= lowered(s@).take(i + 1));
    }
    assert(lowered(s@).take(chars@.len() as int) =~= lowered(s@));
    r
}

/// A character that a format name may hold.
pub open spec fn is_format_char(c: char) -> bool {
    ('a' <= c <= 'z') || is_ascii_digit(c) || c == '-' || c == '_'
}

/// A format name: at least one character, each a small ASCII letter, a digit,
/// a hyphen or an underscore.
pub open spec fn valid_format_name(s: Seq<char>) -> bool {
    s.len() > 0 && forall|i: int| 0 <= i < s.len() ==> is_format_char(#[trigger] s[i])
}

/// Whether a text is a format name.
pub fn is_valid_format_name(value: &str) -> (r: bool)
    ensures
        r == valid_format_name(value@),
{
    let chars = chars_of(value);
    for i in 0..chars.len()
        invariant
            chars@ == value@,
            forall|j: int| 0 <= j < i ==> is_format_char(#[trigger] value@[j]),
    {
        let c = chars[i];
        if !(('a' <= c && c <= 'z') || char_is_ascii_digit(c) || c == '-' || c == '_') {
            assert(!is_format_char(value@[i as int]));
            return false;
        }
    }
    chars.len() > 0
}

/// A text, or another where it holds whitespace only.
pub open spec fn text_or(value: Seq<char>, fallback: Seq<char>) -> Seq<char> {
    if trim(value).len() == 0 {
        fallback
    } else {
        value
    }
}

/// `value`, or `fallback` where it holds whitespace only.
pub fn non_empty_or(value: String, fallback: &str) -> (r: String)
    ensures
        r@ == text_or(value@, fallback@),
{
    let inner = trimmed(&chars_of(value.as_str()));
    if chars_of(inner.as_str()).len() == 0 {
        fallback.to_owned()
    } else {
        value
    }
}

/// The plugin with a descriptor, or why it cannot be used.
pub open spec fn checked_descriptor(path: Seq<char>, d: DescriptorInfo, host: HostAbi) -> Result<
    PluginModel,
    Seq<char>,
> {
    let name = lowered(trim(d.format_name@));
    if d.struct_size < host.descriptor_size {
        Err(
            "exporter "@ + path + " advertises descriptor size "@ + decimal(d.struct_size as nat) + " but host needs "@ + decimal(host.descriptor_size as nat),
        )
    } else if d.abi_major != host.major {
        Err(
            "exporter "@ + path + " uses ABI "@ + decimal(d.abi_major as nat) + "."@ + decimal(d.abi_minor as nat) + " but host needs "@ + decimal(host.major as nat) + ".x"@,
        )
    } else if d.abi_minor > host.minor {
        Err(
            "exporter "@ + path + " uses newer ABI minor "@ + decimal(d.abi_major as nat) + "."@ + decimal(d.abi_minor as nat) + " than host supports "@ + decimal(host.major as nat) + "."@ + decimal(host.minor as nat),
        )
    } else if !valid_format_name(name) {
        Err("exporter "@ + path + " returned invalid format name `"@ + name + "`"@)
    } else {
        Ok(
            PluginModel {
                path,
                format_name: name,
                display_name: text_or(d.display_name@, name),
                capabilities: d.capabilities,
            },
        )
    }
}

/// The plugin at `path` with this descriptor, or why it cannot be used.
pub fn check_descriptor(path: &str, d: DescriptorInfo, host: HostAbi) -> (r: Result<
    PluginInfo,
    String,
>)
    ensures
        match r {
            Ok(p) => checked_descriptor(path@, d, host) == Ok::<PluginModel, Seq<char>>(p@),
            Err(e) => checked_descriptor(path@, d, host) == Err::<PluginModel, Seq<char>>(e@),
        },
{
    if d.struct_size < host.descriptor_size {
        let mut m = "exporter ".to_owned();
        m.append(path);
        m.append(" advertises descriptor size ");
        m.append(u64_text(d.struct_size as u64).as_str());
        m.append(" but host needs ");
        m.append(u64_text(host.descriptor_size as u64).as_str());
        return Err(m);
    }
    if d.abi_major != host.major {
        let mut m = "exporter ".to_owned();
        m.append(path);
        m.append(" uses ABI ");
        m.append(u64_text(d.abi_major as u64).as_str());
        m.append(".");
        m.append(u64_text(d.abi_minor as u64).as_str());
        m.append(" but host needs ");
        m.append(u64_text(host.major as u64).as_str());
        m.append(".x");
        return Err(m);
    }
    if d.abi_minor > host.minor {
        let mut m = "exporter ".to_owned();
        m.append(path);
        m.append(" uses newer ABI minor ");
        m.append(u64_text(d.abi_major as u64).as_str());
        m.append(".");
        m.append(u64_text(d.abi_minor as u64).as_str());
        m.append(" than host supports ");
        m.append(u64_text(host.major as u64).as_str());
        m.append(".");
        m.append(u64_text(host.minor as u64).as_str());
        return Err(m);
    }
    let name = ascii_lowered(trimmed(&chars_of(d.format_name.as_str())).as_str());
    if !is_valid_format_name(name.as_str()) {
        let mut m = "exporter ".to_owned();
        m.append(path);
        m.append(" returned invalid format name `");
        m.append(name.as_str());
        m.append("`");
        return Err(m);
    }
    let display_name = non_empty_or(d.display_name, name.as_str());
    Ok(
        PluginInfo {
            path: path.to_owned(),
            format_name: name,
            display_name,
            capabilities: d.capabilities,
        },
    )
}

/// The exporters that are known, and what was noted while they were looked
/// for.
#[derive(Debug)]
pub struct ExporterRegistry {
    plugins: Vec<PluginInfo>,
    diagnostics: Vec<String>,
    search_roots: Vec<String>,
}

/// What an [`ExporterRegistry`] holds.
pub struct RegistryModel {
    pub plugins: Seq<PluginModel>,
    pub diagnostics: Seq<Seq<char>>,
    pub search_roots: Seq<Seq<char>>,
}

impl View for ExporterRegistry {
    type V = RegistryModel;

    closed spec fn view(&self) -> RegistryModel {
        RegistryModel {
            plugins: plugins_view(self.plugins@),
            diagnostics: texts(self.diagnostics@),
            search_roots: texts(self.search_roots@),
        }
    }
}

/// A plugin file and what came of loading it.
#[derive(Debug)]
pub struct Candidate {
    pub path: String,
    pub loaded: Result<PluginInfo, String>,
}

/// What a [`Candidate`] holds.
pub struct CandidateModel {
    pub path: Seq<char>,
    pub loaded: Result<PluginModel, Seq<char>>,
}

impl View for Candidate {
    type V = CandidateModel;

    open spec fn view(&self) -> CandidateModel {
        CandidateModel {
            path: self.path@,
            loaded: match self.loaded {
                Ok(p) => Ok(p@),
                Err(e) => Err(e@),
            },
        }
    }
}

/// The place of the plugin for a format; the number of plugins where there is
/// none.
pub open spec fn plugin_index(p: Seq<PluginModel>, format: Seq<char>) -> int
    decreases p.len(),
{
    if p.len() == 0 || p.first().format_name == format {
        0
    } else {
        1 + plugin_index(p.drop_first(), format)
    }
}

/// The place of the plugin for `format`; the number of plugins where there is
/// none.
fn find_plugin(plugins: &Vec<PluginInfo>, format: &str) -> (r: usize)
    ensures
        r == plugin_index(plugins_view(plugins@), format@),
        r <= plugins@.len(),
        r < plugins@.len() ==> plugins@[r as int].format_name@ == format@,
{
    let ghost all = plugins_view(plugins@);
    assert(all.skip(0) =~= all);
    for i in 0..plugins.len()
        invariant
            all == plugins_view(plugins@),
            plugin_index(all, format@) == i + plugin_index(all.skip(i as int), format@),
    {
        assert(all.skip(i as int).drop_first() =~= all.skip(i + 1));
        assert(all.skip(i as int).first() == plugins@[i as int]@);
        if str_eq(plugins[i].format_name.as_str(), format) {
            return i;
        }
    }
    plugins.len()
}

/// The note on a plugin whose format is built in.
pub open spec fn builtin_conflict(path: Seq<char>, format: Seq<char>) -> Seq<char> {
    "ignoring exporter plugin "@ + path + ": format `"@ + format + "` conflicts with built-in exporter"@
}

/// The note on a plugin whose format another plugin already has.
pub open spec fn plugin_conflict(
    path: Seq<char>,
    format: Seq<char>,
    existing: Seq<char>,
) -> Seq<char> {
    "ignoring exporter plugin "@ + path + ": format `"@ + format + "` already provided by "@ + existing
}

/// A candidate becomes the exporter for its format, unless the format is
/// built in or an earlier candidate has it.
pub open spec fn consider(r: RegistryModel, c: CandidateModel) -> RegistryModel {
    match c.loaded {
        Err(e) => RegistryModel { diagnostics: r.diagnostics.push(e), ..r },
        Ok(p) => {
            let at = plugin_index(r.plugins, p.format_name);
            if p.format_name == BUILTIN_EXPORTER@ {
                RegistryModel {
                    diagnostics: r.diagnostics.push(builtin_conflict(c.path, p.format_name)),
                    ..r
                }
            } else if at < r.plugins.len() {
                RegistryModel {
                    diagnostics: r.diagnostics.push(
                        plugin_conflict(c.path, p.format_name, r.plugins[at].path),
                    ),
                    ..r
                }
            } else {
                RegistryModel { plugins: r.plugins.push(PluginModel { path: c.path, ..p }), ..r }
            }
        },
    }
}

/// The registry after all candidates.
pub open spec fn discovered(start: RegistryModel, c: Seq<CandidateModel>) -> RegistryModel
    decreases c.len(),
{
    if c.len() == 0 {
        start
    } else {
        consider(discovered(start, c.drop_last()), c.last())
    }
}

/// The built-in format and those of the plugins, each once.
pub open spec fn format_members(p: Seq<PluginModel>) -> Seq<Seq<char>>
    decreases p.len(),
{
    if p.len() == 0 {
        seq![BUILTIN_EXPORTER@]
    } else {
        with_member(format_members(p.drop_last()), p.last().format_name)
    }
}

/// The message for a format that no exporter has.
pub open spec fn unknown_format_text(r: RegistryModel, requested: Seq<char>) -> Seq<char> {
    let start = "unknown export format `"@ + requested + "`; available formats: "@ + joined(sorted_members(format_members(r.plugins)), ", "@);
    let searched = if r.search_roots.len() == 0 {
        start
    } else {
        start + "; searched: "@ + joined(r.search_roots, " -> "@)
    };
    if r.diagnostics.len() == 0 {
        searched
    } else {
        searched + "; loader notes: "@ + joined(r.diagnostics, " | "@)
    }
}

impl ExporterRegistry {
    /// The registry with the plugins that were loaded from `candidates`.
    pub fn discover(
        search_roots: Vec<String>,
        diagnostics: Vec<String>,
        candidates: Vec<Candidate>,
    ) -> (r: Self)
        ensures
            r@ == discovered(
                RegistryModel {
                    plugins: Seq::empty(),
                    diagnostics: texts(diagnostics@),
                    search_roots: texts(search_roots@),
                },
                candidates@.map_values(|c: Candidate| c@),
            ),
    {
        let ghost source = candidates@;
        let ghost all = candidates@.map_values(|c: Candidate| c@);
        let ghost start = RegistryModel {
            plugins: Seq::empty(),
            diagnostics: texts(diagnostics@),
            search_roots: texts(search_roots@),
        };
        let mut reg = ExporterRegistry { plugins: Vec::new(), diagnostics, search_roots };
        assert(reg@.plugins =~= Seq::empty());
        assert(all.take(0) =~= Seq::empty());
        for candidate in it: candidates
            invariant
                it.seq() == source,
                all == source.map_values(|c: Candidate| c@),
                reg@ == discovered(start, all.take(it.index() as int)),
        {
            let ghost i = it.index();
            assert(all.take(i + 1).drop_last() =~= all.take(i));
            assert(all[i] == candidate@);
            reg.consider(candidate);
        }
        assert(all.take(source.len() as int) =~= all);
        reg
    }

    fn consider(&mut self, candidate: Candidate)
        ensures
            final(self)@ == consider(old(self)@, candidate@),
    {
        let ghost before = self@;
        match candidate.loaded {
            Err(e) => {
                let ghost notes = texts(self.diagnostics@);
                self.diagnostics.push(e);
                assert(texts(self.diagnostics@) =~= notes.push(e@));
            },
            Ok(p) => {
                let ghost notes = texts(self.diagnostics@);
                if str_eq(p.format_name.as_str(), BUILTIN_EXPORTER) {
                    let mut m = "ignoring exporter plugin ".to_owned();
                    m.append(candidate.path.as_str());
                    m.append(": format `");
                    m.append(p.format_name.as_str());
                    m.append("` conflicts with built-in exporter");
                    let ghost note = m@;
                    self.diagnostics.push(m);
                    assert(texts(self.diagnostics@) =~= notes.push(note));
                } else {
                    let at = find_plugin(&self.plugins, p.format_name.as_str());
                    if at < self.plugins.len() {
                        assert(before.plugins[at as int] == self.plugins@[at as int]@);
                        let mut m = "ignoring exporter plugin ".to_owned();
                        m.append(candidate.path.as_str());
                        m.append(": format `");
                        m.append(p.format_name.as_str());
                        m.append("` already provided by ");
                        m.append(self.plugins[at].path.as_str());
                        let ghost note = m@;
                        self.diagnostics.push(m);
                        assert(texts(self.diagnostics@) =~= notes.push(note));
                    } else {
                        let kept = PluginInfo { path: candidate.path, ..p };
                        self.plugins.push(kept);
                        assert(plugins_view(self.plugins@) =~= before.plugins.push(kept@));
                    }
                }
            },
        }
    }

    /// The plugin for `format`.
    pub fn plugin(&self, format: &str) -> (r: Option<&PluginInfo>)
        ensures
            match r {
                Some(p) => plugin_index(self@.plugins, format@) < self@.plugins.len() && p@
                    == self@.plugins[plugin_index(self@.plugins, format@)],
                None => plugin_index(self@.plugins, format@) >= self@.plugins.len(),
            },
    {
        let at = find_plugin(&self.plugins, format);
        if at < self.plugins.len() {
            assert(self@.plugins[at as int] == self.plugins@[at as int]@);
            Some(&self.plugins[at])
        } else {
            None
        }
    }

    /// All export formats in ascending order.
    pub fn available_formats(&self) -> (r: Vec<String>)
        ensures
            texts(r@) == sorted_members(format_members(self@.plugins)),
    {
        let mut set = StrSet::new();
        set.insert(BUILTIN_EXPORTER);
        let ghost all = self@.plugins;
        assert(set@ =~= seq![BUILTIN_EXPORTER@]);
        assert(all.take(0) =~= Seq::empty());
        for i in 0..self.plugins.len()
            invariant
                all == plugins_view(self.plugins@),
                set.wf(),
                set@ == format_members(all.take(i as int)),
        {
            assert(all.take(i + 1).drop_last() =~= all.take(i as int));
            assert(all[i as int] == self.plugins@[i as int]@);
            set.insert(self.plugins[i].format_name.as_str());
        }
        assert(all.take(self.plugins@.len() as int) =~= all);
        set.sorted()
    }

    /// The error for a format that no exporter has.
    pub fn unknown_format_error(&self, requested: &str) -> (r: Error)
        ensures
            r@ == ErrorModel::Usage(unknown_format_text(self@, requested@)),
    {
        let formats = self.available_formats();
        let mut m = "unknown export format `".to_owned();
        m.append(requested);
        m.append("`; available formats: ");
        m.append(join_strings(&formats, ", ").as_str());
        if self.search_roots.len() > 0 {
            m.append("; searched: ");
            m.append(join_strings(&self.search_roots, " -> ").as_str());
        }
        if self.diagnostics.len() > 0 {
            m.append("; loader notes: ");
            m.append(join_strings(&self.diagnostics, " | ").as_str());
        }
        Error::Usage(m)
    }
}

/// Each plugin has a format of its own that is not the built-in one.
pub open spec fn formats_differ(p: Seq<PluginModel>) -> bool {
    &&& forall|i: int| 0 <= i < p.len() ==> (#[trigger] p[i]).format_name != BUILTIN_EXPORTER@
    &&& forall|i: int, j: int|
        0 <= i < j < p.len() ==> (#[trigger] p[i]).format_name != (#[trigger] p[j]).format_name
}

proof fn lemma_plugin_index(p: Seq<PluginModel>, format: Seq<char>)
    ensures
        0 <= plugin_index(p, format) <= p.len(),
        forall|i: int| 0 <= i < plugin_index(p, format) ==> (#[trigger] p[i]).format_name != format,
        plugin_index(p, format) < p.len() ==> p[plugin_index(p, format)].format_name == format,
    decreases p.len(),
{
    if p.len() > 0 && p.first().format_name != format {
        lemma_plugin_index(p.drop_first(), format);
        assert forall|i: int| 0 <= i < plugin_index(p, format) implies (
        #[trigger] p[i]).format_name != format by {
            if i > 0 {
                assert(p.drop_first()[i - 1].format_name != format);
            }
        }
    }
}

/// Each exporter that is found has a format of its own, and none replaces the
/// built-in one.
pub proof fn law_formats_differ(start: RegistryModel, c: Seq<CandidateModel>)
    requires
        formats_differ(start.plugins),
    ensures
        formats_differ(discovered(start, c).plugins),
    decreases c.len(),
{
    if c.len() > 0 {
        law_formats_differ(start, c.drop_last());
        let before = discovered(start, c.drop_last());
        if let Ok(p) = c.last().loaded {
            lemma_plugin_index(before.plugins, p.format_name);
        }
    }
}

/// The first candidate with a format that is not built in provides it, and
/// later candidates do not replace it.
pub proof fn law_first_candidate_wins(r: RegistryModel, c: CandidateModel, format: Seq<char>)
    requires
        plugin_index(r.plugins, format) < r.plugins.len(),
    ensures
        plugin_index(consider(r, c).plugins, format) == plugin_index(r.plugins, format),
        consider(r, c).plugins[plugin_index(r.plugins, format)] == r.plugins[plugin_index(
            r.plugins,
            format,
        )],
{
    lemma_plugin_index(r.plugins, format);
    let after = consider(r, c).plugins;
    if after != r.plugins {
        lemma_plugin_index_of_longer(r.plugins, after.last(), format);
        assert(after =~= r.plugins.push(after.last()));
    }
}

proof fn lemma_plugin_index_of_longer(p: Seq<PluginModel>, x: PluginModel, format: Seq<char>)
    requires
        plugin_index(p, format) < p.len(),
    ensures
        plugin_index(p.push(x), format) == plugin_index(p, format),
    decreases p.len(),
{
    if p.first().format_name != format {
        assert(p.push(x).drop_first() =~= p.drop_first().push(x));
        lemma_plugin_index_of_longer(p.drop_first(), x, format);
    }
}

/// The label of a record type.
pub open spec fn kind_label(t: RecordType) -> Seq<char> {
    match t {
        RecordType::Logs => "logs"@,
        RecordType::Metrics => "metrics"@,
        RecordType::Traces => "traces"@,
        RecordType::Events => "events"@,
    }
}

/// The label of a record type.
pub fn record_kind_label(t: RecordType) -> (r: &'static str)
    ensures
        r@ == kind_label(t),
{
    match t {
        RecordType::Logs => "logs",
        RecordType::Metrics => "metrics",
        RecordType::Traces => "traces",
        RecordType::Events => "events",
    }
}

/// The bits by which a plugin says what it accepts.
#[derive(Debug, Clone, Copy)]
pub struct CapabilityBits {
    pub logs: u64,
    pub metrics: u64,
    pub traces: u64,
    pub otlp_logs: u64,
}

/// The bit for records of a type; none for events.
pub open spec fn capability_bit(bits: CapabilityBits, t: RecordType) -> u64 {
    match t {
        RecordType::Logs => bits.logs,
        RecordType::Metrics => bits.metrics,
        RecordType::Traces => bits.traces,
        RecordType::Events => 0,
    }
}

/// A log batch.
pub open spec fn is_otlp_logs(r: RecordModel) -> bool {
    r.record_type == RecordType::Logs && logs_of(r.payload) is Some
}

/// The number of the kind of payload of a record: `otlp_logs` for a log batch
/// and `opaque` for anything else.
pub fn payload_kind(record: &StreamRecord, otlp_logs: u32, opaque: u32) -> (r: u32)
    ensures
        r == if is_otlp_logs(record@) {
            otlp_logs
        } else {
            opaque
        },
{
    if record.record_type == RecordType::Logs && decode_logs(&record.payload).is_some() {
        otlp_logs
    } else {
        opaque
    }
}

/// Why a plugin does not accept a record.
pub open spec fn refusal(
    p: PluginModel,
    t: RecordType,
    otlp_logs: bool,
    bits: CapabilityBits,
) -> Option<Seq<char>> {
    if p.capabilities & capability_bit(bits, t) == 0 {
        Some(
            "exporter `"@ + p.display_name + "` from "@ + p.path + " does not accept "@ + kind_label(t) + " records"@,
        )
    } else if otlp_logs && p.capabilities & bits.otlp_logs == 0 {
        Some(
            "exporter `"@ + p.display_name + "` from "@ + p.path + " does not accept OTLP logs payloads"@,
        )
    } else {
        None
    }
}

impl PluginInfo {
    /// An error where the plugin does not accept records of type `t`, or where
    /// the payload is a log batch and it does not accept those.
    pub fn validate_capabilities(
        &self,
        t: RecordType,
        otlp_logs: bool,
        bits: CapabilityBits,
    ) -> (r: Result<(), Error>)
        ensures
            match r {
                Ok(()) => refusal(self@, t, otlp_logs, bits) is None,
                Err(e) => refusal(self@, t, otlp_logs, bits) is Some && e@ == ErrorModel::Usage(
                    refusal(self@, t, otlp_logs, bits)->0,
                ),
            },
    {
        let flag: u64 = match t {
            RecordType::Logs => bits.logs,
            RecordType::Metrics => bits.metrics,
            RecordType::Traces => bits.traces,
            RecordType::Events => 0,
        };
        if self.capabilities & flag == 0 {
            let mut m = "exporter `".to_owned();
            m.append(self.display_name.as_str());
            m.append("` from ");
            m.append(self.path.as_str());
            m.append(" does not accept ");
            m.append(record_kind_label(t));
            m.append(" records");
            return Err(Error::Usage(m));
        }
        if otlp_logs && self.capabilities & bits.otlp_logs == 0 {
            let mut m = "exporter `".to_owned();
            m.append(self.display_name.as_str());
            m.append("` from ");
            m.append(self.path.as_str());
            m.append(" does not accept OTLP logs payloads");
            return Err(Error::Usage(m));
        }
        Ok(())
    }

    /// The error for a plugin that could not be started.
    pub fn start_error(&self) -> (r: Error)
        ensures
            r@ == ErrorModel::Usage(
                "exporter `"@ + self.display_name@ + "` from "@ + self.path@ + " failed to start: create returned NULL"@,
            ),
    {
        let mut m = "exporter `".to_owned();
        m.append(self.display_name.as_str());
        m.append("` from ");
        m.append(self.path.as_str());
        m.append(" failed to start: create returned NULL");
        Error::Usage(m)
    }

    /// The error for output that could not be written.
    pub fn write_error(&self, detail: &str) -> (r: Error)
        ensures
            r@ == ErrorModel::Usage(
                "exporter `"@ + self.display_name@ + "` write error: "@ + detail@,
            ),
    {
        let mut m = "exporter `".to_owned();
        m.append(self.display_name.as_str());
        m.append("` write error: ");
        m.append(detail);
        Error::Usage(m)
    }

    /// The error for an action of the plugin that ended with `status`, with the
    /// record it was on and what the plugin says of it.
    pub fn status_error(
        &self,
        status: i32,
        record: Option<(u64, RecordType)>,
        action: &str,
        detail: &str,
    ) -> (r: Error)
        ensures
            r@ == ErrorModel::Usage(status_text(self@, status, record, action@, detail@)),
    {
        let mut m = "exporter `".to_owned();
        m.append(self.display_name.as_str());
        m.append("` from ");
        m.append(self.path.as_str());
        m.append(" failed to ");
        m.append(action);
        if let Some((seq, t)) = record {
            m.append(" at seq ");
            m.append(u64_text(seq).as_str());
            m.append(" (");
            m.append(record_kind_label(t));
            m.append(")");
        }
        if chars_of(detail).len() > 0 {
            m.append(": ");
            m.append(detail);
        }
        m.append(" (status ");
        m.append(i64_text(status as i64).as_str());
        m.append(")");
        Error::Usage(m)
    }
}

/// What is said of an action that ended with `status`.
pub open spec fn status_text(
    p: PluginModel,
    status: i32,
    record: Option<(u64, RecordType)>,
    action: Seq<char>,
    detail: Seq<char>,
) -> Seq<char> {
    let start = "exporter `"@ + p.display_name + "` from "@ + p.path + " failed to "@ + action;
    let at = match record {
        Some((seq, t)) => start + " at seq "@ + decimal(seq as nat) + " ("@ + kind_label(t) + ")"@,
        None => start,
    };
    let told = if detail.len() == 0 {
        at
    } else {
        at + ": "@ + detail
    };
    told + " (status "@ + decimal_int(status as int) + ")"@
}

/// A path in a list, under any spelling with the same components.
pub open spec fn lists_path(paths: Seq<Seq<char>>, candidate: Seq<char>) -> bool {
    exists|i: int| 0 <= i < paths.len() && same_components(#[trigger] paths[i], candidate)
}

/// A list with a path at its end, unless it is listed already.
pub open spec fn with_path(paths: Seq<Seq<char>>, candidate: Seq<char>) -> Seq<Seq<char>> {
    if lists_path(paths, candidate) {
        paths
    } else {
        paths.push(candidate)
    }
}

/// Adds a path, unless it is listed already.
pub fn push_unique_path(paths: &mut Vec<String>, candidate: String)
    ensures
        texts(final(paths)@) == with_path(texts(old(paths)@), candidate@),
{
    let ghost before = texts(paths@);
    for i in 0..paths.len()
        invariant
            before == texts(paths@),
            forall|j: int| 0 <= j < i ==> !same_components(#[trigger] before[j], candidate@),
            *paths == *old(paths),
    {
        assert(before[i as int] == paths@[i as int]@);
        if same_path(paths[i].as_str(), candidate.as_str()) {
            return;
        }
    }
    paths.push(candidate);
    assert(texts(paths@) =~= before.push(candidate@));
}

/// A configured search path and whether it exists.
#[derive(Debug)]
pub struct ConfiguredPath {
    pub path: String,
    pub exists: bool,
}

/// The configured search paths that are not empty, each once.
pub open spec fn configured_roots(c: Seq<ConfiguredPath>) -> Seq<Seq<char>>
    decreases c.len(),
{
    if c.len() == 0 {
        Seq::empty()
    } else if c.last().path@.len() == 0 {
        configured_roots(c.drop_last())
    } else {
        with_path(configured_roots(c.drop_last()), c.last().path@)
    }
}

/// A note for each configured search path that does not exist.
pub open spec fn missing_roots(c: Seq<ConfiguredPath>) -> Seq<Seq<char>>
    decreases c.len(),
{
    if c.len() == 0 {
        Seq::empty()
    } else if c.last().path@.len() == 0 || c.last().exists {
        missing_roots(c.drop_last())
    } else {
        missing_roots(c.drop_last()).push(
            "configured exporter search path "@ + c.last().path@ + " does not exist"@,
        )
    }
}

/// A list with more paths, unless they are listed already.
pub open spec fn with_paths(paths: Seq<Seq<char>>, more: Seq<Seq<char>>) -> Seq<Seq<char>>
    decreases more.len(),
{
    if more.len() == 0 {
        paths
    } else {
        with_path(with_paths(paths, more.drop_last()), more.last())
    }
}

/// Where exporters are looked for, and notes on the configured paths that do
/// not exist. The configured paths come first, then the standard ones.
pub fn collect_search_roots(configured: Vec<ConfiguredPath>, standard: Vec<String>) -> (r: (
    Vec<String>,
    Vec<String>,
))
    ensures
        texts(r.0@) == with_paths(configured_roots(configured@), texts(standard@)),
        texts(r.1@) == missing_roots(configured@),
{
    let mut roots: Vec<String> = Vec::new();
    let mut diagnostics: Vec<String> = Vec::new();
    assert(texts(roots@) =~= Seq::empty());
    assert(texts(diagnostics@) =~= Seq::empty());
    assert(configured@.take(0) =~= Seq::empty());
    for i in 0..configured.len()
        invariant
            texts(roots@) == configured_roots(configured@.take(i as int)),
            texts(diagnostics@) == missing_roots(configured@.take(i as int)),
    {
        assert(configured@.take(i + 1).drop_last() =~= configured@.take(i as int));
        let path = configured[i].path.as_str();
        if chars_of(path).len() > 0 {
            if !configured[i].exists {
                let ghost before = texts(diagnostics@);
                let mut m = "configured exporter search path ".to_owned();
                m.append(path);
                m.append(" does not exist");
                let ghost note = m@;
                diagnostics.push(m);
                assert(texts(diagnostics@) =~= before.push(note));
            }
            push_unique_path(&mut roots, path.to_owned());
        }
    }
    assert(configured@.take(configured@.len() as int) =~= configured@);
    let ghost more = texts(standard@);
    let ghost start = texts(roots@);
    assert(more.take(0) =~= Seq::empty());
    for i in 0..standard.len()
        invariant
            more == texts(standard@),
            texts(roots@) == with_paths(start, more.take(i as int)),
    {
        assert(more.take(i + 1).drop_last() =~= more.take(i as int));
        assert(more[i as int] == standard@[i as int]@);
        push_unique_path(&mut roots, standard[i].clone());
    }
    assert(more.take(standard@.len() as int) =~= more);
    (roots, diagnostics)
}

/// The extension of a path is that of a shared library.
pub open spec fn has_library_extension(path: Seq<char>, library_extension: Seq<char>) -> bool {
    path_extension_of(path) is Some && lowered(path_extension_of(path)->0) == lowered(
        library_extension,
    )
}

/// Whether an extension, in any case, is that of a shared library.
pub fn extension_matches(extension: &Option<String>, library_extension: &str) -> (r: bool)
    ensures
        r == (text_option(*extension) is Some && lowered(text_option(*extension)->0) == lowered(
            library_extension@,
        )),
{
    match extension {
        Some(e) => str_eq(
            ascii_lowered(e.as_str()).as_str(),
            ascii_lowered(library_extension).as_str(),
        ),
        None => false,
    }
}

/// Whether `path` is a shared library.
pub fn is_shared_library(path: &str, is_file: bool, library_extension: &str) -> (r: bool)
    ensures
        r == (is_file && has_library_extension(path@, library_extension@)),
{
    is_file && extension_matches(&path_extension(path), library_extension)
}

/// A file in a search directory.
#[derive(Debug)]
pub struct ListedFile {
    pub path: String,
    pub is_file: bool,
}

/// A search path as it is on disk.
#[derive(Debug)]
pub enum RootFact {
    /// It is a file.
    File(String),
    /// It does not exist.
    Missing,
    /// It is a directory that cannot be read.
    Unreadable { path: String, error: String },
    /// It is a directory.
    Directory(Vec<ListedFile>),
}

/// The shared libraries in a directory, as they are listed.
pub open spec fn listed_libraries(files: Seq<ListedFile>, extension: Seq<char>) -> Seq<
    (Seq<char>, ()),
>
    decreases files.len(),
{
    if files.len() == 0 {
        Seq::empty()
    } else if files.last().is_file && has_library_extension(files.last().path@, extension) {
        listed_libraries(files.drop_last(), extension).push((files.last().path@, ()))
    } else {
        listed_libraries(files.drop_last(), extension)
    }
}

/// The texts of sorted entries.
pub open spec fn keys_of(e: Seq<(Seq<char>, ())>) -> Seq<Seq<char>> {
    e.map_values(|x: (Seq<char>, ())| x.0)
}

/// The plugin files of a search path: the path itself where it is a file, and
/// the shared libraries in it, in ascending order, where it is a directory.
pub open spec fn root_candidates(r: RootFact, extension: Seq<char>) -> Seq<Seq<char>> {
    match r {
        RootFact::File(path) => seq![path@],
        RootFact::Missing => Seq::empty(),
        RootFact::Unreadable { path, error } => Seq::empty(),
        RootFact::Directory(files) => keys_of(
            sorted_by_key(listed_libraries(files@, extension)),
        ),
    }
}

/// The plugin files of all search paths.
pub open spec fn all_candidates(r: Seq<RootFact>, extension: Seq<char>) -> Seq<Seq<char>>
    decreases r.len(),
{
    if r.len() == 0 {
        Seq::empty()
    } else {
        all_candidates(r.drop_last(), extension) + root_candidates(r.last(), extension)
    }
}

/// A note for each directory that cannot be read.
pub open spec fn unreadable_notes(r: Seq<RootFact>) -> Seq<Seq<char>>
    decreases r.len(),
{
    if r.len() == 0 {
        Seq::empty()
    } else {
        match r.last() {
            RootFact::Unreadable { path, error } => unreadable_notes(r.drop_last()).push(
                "cannot read exporter directory "@ + path@ + ": "@ + error@,
            ),
            _ => unreadable_notes(r.drop_last()),
        }
    }
}

/// The shared libraries in a directory, in ascending order.
fn sorted_libraries(files: &Vec<ListedFile>, library_extension: &str) -> (r: Vec<String>)
    ensures
        texts(r@) == keys_of(sorted_by_key(listed_libraries(files@, library_extension@))),
{
    let mut entries: Vec<(String, ())> = Vec::new();
    assert(files@.take(0) =~= Seq::empty());
    assert(keyed(entries@) =~= Seq::empty());
    for i in 0..files.len()
        invariant
            keyed(entries@) == listed_libraries(files@.take(i as int), library_extension@),
    {
        assert(files@.take(i + 1).drop_last() =~= files@.take(i as int));
        let path = files[i].path.as_str();
        if is_shared_library(path, files[i].is_file, library_extension) {
            let ghost before = keyed(entries@);
            entries.push((path.to_owned(), ()));
            assert(keyed(entries@) =~= before.push((path@, ())));
        }
    }
    assert(files@.take(files@.len() as int) =~= files@);
    let sorted = sort_by_key(entries);
    let mut out: Vec<String> = Vec::new();
    for i in 0..sorted.len()
        invariant
            texts(out@) == keys_of(keyed(sorted@)).take(i as int),
    {
        let ghost before = texts(out@);
        let name = sorted[i].0.clone();
        out.push(name);
        assert(keys_of(keyed(sorted@))[i as int] == name@);
        assert(texts(out@) =~= before.push(name@));
        assert(texts(out@) =~= keys_of(keyed(sorted@)).take(i + 1));
    }
    assert(keys_of(keyed(sorted@)).take(sorted@.len() as int) =~= keys_of(keyed(sorted@)));
    out
}

/// The plugin files of all search paths; a note is added for each directory
/// that cannot be read.
pub fn collect_plugin_candidates(
    roots: &Vec<RootFact>,
    library_extension: &str,
    diagnostics: &mut Vec<String>,
) -> (r: Vec<String>)
    ensures
        texts(r@) == all_candidates(roots@, library_extension@),
        texts(final(diagnostics)@) == texts(old(diagnostics)@) + unreadable_notes(roots@),
{
    let mut out: Vec<String> = Vec::new();
    let ghost start = texts(diagnostics@);
    assert(texts(out@) =~= Seq::empty());
    assert(roots@.take(0) =~= Seq::empty());
    assert(start + Seq::<Seq<char>>::empty() =~= start);
    for i in 0..roots.len()
        invariant
            texts(out@) == all_candidates(roots@.take(i as int), library_extension@),
            texts(diagnostics@) == start + unreadable_notes(roots@.take(i as int)),
    {
        assert(roots@.take(i + 1).drop_last() =~= roots@.take(i as int));
        let ghost before = texts(out@);
        let ghost notes = texts(diagnostics@);
        let ghost earlier = unreadable_notes(roots@.take(i as int));
        match &roots[i] {
            RootFact::File(path) => {
                out.push(path.clone());
                assert(texts(out@) =~= before + seq![path@]);
            },
            RootFact::Missing => {
                assert(before + Seq::<Seq<char>>::empty() =~= before);
            },
            RootFact::Unreadable { path, error } => {
                assert(before + Seq::<Seq<char>>::empty() =~= before);
                let mut m = "cannot read exporter directory ".to_owned();
                m.append(path.as_str());
                m.append(": ");
                m.append(error.as_str());
                let ghost note = m@;
                diagnostics.push(m);
                assert(texts(diagnostics@) =~= notes.push(note));
                assert(notes.push(note) =~= start + earlier.push(note));
            },
            RootFact::Directory(files) => {
                let mut libraries = sorted_libraries(files, library_extension);
                let ghost found = texts(libraries@);
                out.append(&mut libraries);
                assert(texts(out@) =~= before + found);
            },
        }
    }
    assert(roots@.take(roots@.len() as int) =~= roots@);
    out
}

} // verus!
