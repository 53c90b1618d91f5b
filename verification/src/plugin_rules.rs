//! Which exporter plugins are taken, and what they are given.
use vstd::prelude::*;

use crate::bridge::paths::{path_extension_of, same_components};
use crate::bridge::protobuf::logs_of;
use crate::exporter::{
    all_candidates, checked_descriptor, configured_roots, consider, format_members,
    has_library_extension, is_otlp_logs, kind_label, listed_libraries, lowered, missing_roots,
    plugin_index, refusal, root_candidates, unreadable_notes, valid_format_name, with_path,
    with_paths, CandidateModel, CapabilityBits, ConfiguredPath, DescriptorInfo, HostAbi,
    ListedFile, PluginModel, RegistryModel, RootFact,
};
use crate::record::{RecordModel, RecordType};
use crate::text::order::{law_sorting, sorted_by_key, text_le};
use crate::text::seqs::trim;

verus! {

/// Format names are made of small letters, digits, hyphens and underscores; the
/// empty text is none.
pub proof fn law_format_names(s: Seq<char>)
    ensures
        valid_format_name(s) <==> {
            &&& s.len() > 0
            &&& forall|i: int|
                0 <= i < s.len() ==> ('a' <= #[trigger] s[i] <= 'z' || '0' <= s[i] <= '9' || s[i]
                    == '-' || s[i] == '_')
        },
{
    if valid_format_name(s) {
        assert forall|i: int| 0 <= i < s.len() implies ('a' <= #[trigger] s[i] <= 'z' || '0'
            <= s[i] <= '9' || s[i] == '-' || s[i] == '_') by {
            assert(crate::exporter::is_format_char(s[i]));
        }
    }
}

/// Letters are made small, and nothing else is changed.
pub proof fn law_letters_are_made_small(s: Seq<char>, i: int)
    requires
        0 <= i < s.len(),
    ensures
        lowered(s).len() == s.len(),
        !('A' <= lowered(s)[i] <= 'Z'),
        !('A' <= s[i] <= 'Z') ==> lowered(s)[i] == s[i],
        'A' <= s[i] <= 'Z' ==> lowered(s)[i] as int - 'a' as int == s[i] as int - 'A' as int,
{
}

/// A plugin is taken exactly where its descriptor is as large as is needed, its
/// interface is of the same major version and of no later minor one, and its
/// format has a name.
pub proof fn law_plugins_must_fit(path: Seq<char>, d: DescriptorInfo, host: HostAbi)
    ensures
        checked_descriptor(path, d, host) is Ok <==> {
            &&& d.struct_size >= host.descriptor_size
            &&& d.abi_major == host.major
            &&& d.abi_minor <= host.minor
            &&& valid_format_name(lowered(trim(d.format_name@)))
        },
        checked_descriptor(path, d, host) matches Ok(p) ==> {
            &&& p.path == path
            &&& p.format_name == lowered(trim(d.format_name@))
            &&& p.capabilities == d.capabilities
            &&& trim(d.display_name@).len() > 0 ==> p.display_name == d.display_name@
            &&& trim(d.display_name@).len() == 0 ==> p.display_name == p.format_name
        },
{
}

/// Each type of record has a label of its own.
pub proof fn law_types_have_labels(t: RecordType)
    ensures
        kind_label(t) == "logs"@ <==> t == RecordType::Logs,
        kind_label(t) == "metrics"@ <==> t == RecordType::Metrics,
        kind_label(t) == "traces"@ <==> t == RecordType::Traces,
        kind_label(t) == "events"@ <==> t == RecordType::Events,
{
    reveal_strlit("logs");
    reveal_strlit("metrics");
    reveal_strlit("traces");
    reveal_strlit("events");
    assert("logs"@.len() == 4 && "metrics"@.len() == 7 && "traces"@.len() == 6 && "events"@.len()
        == 6);
    assert("traces"@[0] == 't' && "events"@[0] == 'e');
}

/// A plugin gets a record exactly where it declares the type of the record, and
/// for log batches that it takes those. Events are given to none.
pub proof fn law_plugins_get_what_they_accept(p: PluginModel, r: RecordModel, bits: CapabilityBits)
    ensures
        r.record_type == RecordType::Logs ==> (refusal(p, r.record_type, is_otlp_logs(r), bits)
            is None <==> p.capabilities & bits.logs != 0 && (logs_of(r.payload) is Some
            ==> p.capabilities & bits.otlp_logs != 0)),
        r.record_type == RecordType::Metrics ==> (refusal(p, r.record_type, is_otlp_logs(r), bits)
            is None <==> p.capabilities & bits.metrics != 0),
        r.record_type == RecordType::Traces ==> (refusal(p, r.record_type, is_otlp_logs(r), bits)
            is None <==> p.capabilities & bits.traces != 0),
        r.record_type == RecordType::Events ==> refusal(
            p,
            r.record_type,
            is_otlp_logs(r),
            bits,
        ) is Some,
{
    let c = p.capabilities;
    assert(c & 0u64 == 0) by (bit_vector);
}

proof fn lemma_plugin_found(p: Seq<PluginModel>, format: Seq<char>)
    ensures
        0 <= plugin_index(p, format) <= p.len(),
        plugin_index(p, format) < p.len() <==> exists|i: int|
            0 <= i < p.len() && (#[trigger] p[i]).format_name == format,
        plugin_index(p, format) < p.len() ==> p[plugin_index(p, format)].format_name == format,
    decreases p.len(),
{
    if p.len() > 0 {
        if p.first().format_name != format {
            let rest = p.drop_first();
            lemma_plugin_found(rest, format);
            if exists|i: int| 0 <= i < p.len() && (#[trigger] p[i]).format_name == format {
                let i = choose|i: int|
                    0 <= i < p.len() && (#[trigger] p[i]).format_name == format;
                assert(rest[i - 1].format_name == format);
            }
            if exists|i: int| 0 <= i < rest.len() && (#[trigger] rest[i]).format_name == format {
                let i = choose|i: int|
                    0 <= i < rest.len() && (#[trigger] rest[i]).format_name == format;
                assert(p[i + 1].format_name == format);
            }
        } else {
            assert(p[0].format_name == format);
        }
    }
}

/// A candidate that loads provides its format where no plugin does so yet, and
/// where the format is not the built-in `ndjson`. Any other candidate leaves
/// the plugins as they are, and a note says why.
pub proof fn law_new_formats_are_taken(r: RegistryModel, c: CandidateModel)
    ensures
        ({
            let after = consider(r, c);
            let taken = c.loaded is Ok && c.loaded->Ok_0.format_name != "ndjson"@ && forall|i: int|
                0 <= i < r.plugins.len() ==> (#[trigger] r.plugins[i]).format_name
                    != c.loaded->Ok_0.format_name;
            if taken {
                &&& after.plugins.drop_last() == r.plugins
                &&& after.plugins.last().format_name == c.loaded->Ok_0.format_name
                &&& after.plugins.last().display_name == c.loaded->Ok_0.display_name
                &&& after.plugins.last().capabilities == c.loaded->Ok_0.capabilities
                &&& after.plugins.last().path == c.path
                &&& after.diagnostics == r.diagnostics
            } else {
                &&& after.plugins == r.plugins
                &&& after.diagnostics.len() == r.diagnostics.len() + 1
                &&& after.diagnostics.drop_last() == r.diagnostics
                &&& c.loaded is Err ==> after.diagnostics.last() == c.loaded->Err_0
            }
        }),
        consider(r, c).search_roots == r.search_roots,
{
    let after = consider(r, c);
    if let Ok(p) = c.loaded {
        lemma_plugin_found(r.plugins, p.format_name);
    }
    if after.plugins != r.plugins {
        assert(after.plugins.drop_last() =~= r.plugins);
    } else {
        assert(after.diagnostics.drop_last() =~= r.diagnostics);
    }
}

/// The formats that can be asked for are `ndjson` and those of the plugins.
pub proof fn law_formats_are_listed(p: Seq<PluginModel>, format: Seq<char>)
    ensures
        format_members(p).contains(format) <==> format == "ndjson"@ || exists|i: int|
            0 <= i < p.len() && (#[trigger] p[i]).format_name == format,
    decreases p.len(),
{
    let m = format_members(p);
    if p.len() == 0 {
        assert(m[0] == "ndjson"@);
    } else {
        let init = p.drop_last();
        let before = format_members(init);
        law_formats_are_listed(init, format);
        if before.contains(format) && !before.contains(p.last().format_name) {
            let i = choose|i: int| 0 <= i < before.len() && before[i] == format;
            assert(m[i] == format);
        }
        if !before.contains(p.last().format_name) {
            assert(m[before.len() as int] == p.last().format_name);
        }
        if m.contains(format) && !before.contains(format) {
            let i = choose|i: int| 0 <= i < m.len() && m[i] == format;
            assert(p[p.len() - 1].format_name == format);
        }
        if exists|i: int| 0 <= i < init.len() && (#[trigger] init[i]).format_name == format {
            let i = choose|i: int|
                0 <= i < init.len() && (#[trigger] init[i]).format_name == format;
            assert(p[i].format_name == format);
        }
        if exists|i: int| 0 <= i < p.len() && (#[trigger] p[i]).format_name == format {
            let i = choose|i: int| 0 <= i < p.len() && (#[trigger] p[i]).format_name == format;
            if i < init.len() {
                assert(init[i].format_name == format);
            }
        }
    }
}

/// Configured search paths come before the standard ones; each is listed once,
/// under its first spelling, and the order is kept.
pub proof fn law_search_paths_are_listed_once(paths: Seq<Seq<char>>, next: Seq<char>)
    ensures
        (exists|i: int| 0 <= i < paths.len() && same_components(#[trigger] paths[i], next))
            ==> with_path(paths, next) == paths,
        (forall|i: int| 0 <= i < paths.len() ==> !same_components(#[trigger] paths[i], next))
            ==> with_path(paths, next) == paths.push(next),
        with_paths(paths, seq![next]) == with_path(paths, next),
        with_paths(paths, Seq::empty()) == paths,
{
    let one = seq![next];
    assert(one.drop_last() =~= Seq::empty());
    assert(with_paths(paths, one.drop_last()) == paths);
    assert(one.last() == next);
}

/// An empty configured path is skipped; one that does not exist is searched and
/// noted.
pub proof fn law_configured_paths(c: Seq<ConfiguredPath>, next: ConfiguredPath)
    ensures
        next.path@.len() == 0 ==> configured_roots(c.push(next)) == configured_roots(c)
            && missing_roots(c.push(next)) == missing_roots(c),
        next.path@.len() > 0 ==> configured_roots(c.push(next)) == with_path(
            configured_roots(c),
            next.path@,
        ),
        next.path@.len() > 0 && next.exists ==> missing_roots(c.push(next)) == missing_roots(c),
        next.path@.len() > 0 && !next.exists ==> missing_roots(c.push(next)) == missing_roots(
            c,
        ).push("configured exporter search path "@ + next.path@ + " does not exist"@),
{
    assert(c.push(next).drop_last() =~= c);
}

proof fn lemma_listed(files: Seq<ListedFile>, extension: Seq<char>, x: Seq<char>)
    ensures
        listed_libraries(files, extension).contains((x, ())) <==> exists|i: int|
            0 <= i < files.len() && (#[trigger] files[i]).path@ == x && files[i].is_file
                && has_library_extension(x, extension),
    decreases files.len(),
{
    let l = listed_libraries(files, extension);
    if files.len() > 0 {
        let init = files.drop_last();
        let before = listed_libraries(init, extension);
        lemma_listed(init, extension, x);
        if before.contains((x, ())) {
            let i = choose|i: int| 0 <= i < before.len() && before[i] == (x, ());
            assert(l[i] == (x, ()));
            let j = choose|j: int|
                0 <= j < init.len() && (#[trigger] init[j]).path@ == x && init[j].is_file
                    && has_library_extension(x, extension);
            assert(files[j].path@ == x);
        }
        if l.contains((x, ())) && !before.contains((x, ())) {
            let i = choose|i: int| 0 <= i < l.len() && l[i] == (x, ());
            assert(files[files.len() - 1].path@ == x);
        }
        if exists|i: int|
            0 <= i < files.len() && (#[trigger] files[i]).path@ == x && files[i].is_file
                && has_library_extension(x, extension) {
            let i = choose|i: int|
                0 <= i < files.len() && (#[trigger] files[i]).path@ == x && files[i].is_file
                    && has_library_extension(x, extension);
            if i < init.len() {
                assert(init[i].path@ == x);
            } else {
                assert(l[l.len() - 1] == (x, ()));
            }
        }
    }
}

/// In a search directory the files with the extension of a shared library, in
/// any case, are candidates, in ascending order; directories are not. A search
/// path that is a file is a candidate itself.
pub proof fn law_libraries_are_candidates(
    files: Vec<ListedFile>,
    extension: Seq<char>,
    x: Seq<char>,
)
    ensures
        ({
            let c = root_candidates(RootFact::Directory(files), extension);
            &&& c.contains(x) <==> exists|i: int|
                {
                    &&& 0 <= i < files@.len()
                    &&& (#[trigger] files@[i]).path@ == x
                    &&& files@[i].is_file
                    &&& path_extension_of(x) is Some
                    &&& lowered(path_extension_of(x)->0) == lowered(extension)
                }
            &&& forall|i: int, j: int|
                0 <= i <= j < c.len() ==> text_le(#[trigger] c[i], #[trigger] c[j])
        }),
{
    broadcast use vstd::seq_lib::group_to_multiset_ensures;

    let l = listed_libraries(files@, extension);
    let s = sorted_by_key(l);
    let c = root_candidates(RootFact::Directory(files), extension);
    law_sorting(l);
    lemma_listed(files@, extension, x);
    assert forall|i: int, j: int| 0 <= i <= j < c.len() implies text_le(
        #[trigger] c[i],
        #[trigger] c[j],
    ) by {
        assert(text_le(s[i].0, s[j].0));
    }
    if c.contains(x) {
        let i = choose|i: int| 0 <= i < c.len() && c[i] == x;
        assert(s[i] == (x, ()));
        assert(s.contains((x, ())));
        assert(s.to_multiset().count((x, ())) > 0);
        assert(l.contains((x, ())));
    }
    if l.contains((x, ())) {
        assert(l.to_multiset().count((x, ())) > 0);
        assert(s.contains((x, ())));
        let i = choose|i: int| 0 <= i < s.len() && s[i] == (x, ());
        assert(c[i] == x);
    }
}

/// The candidates of several search paths are those of each, one after the
/// other, and each directory that cannot be read is noted.
pub proof fn law_search_paths_are_read_in_turn(
    roots: Seq<RootFact>,
    next: RootFact,
    extension: Seq<char>,
)
    ensures
        all_candidates(roots.push(next), extension) == all_candidates(roots, extension)
            + root_candidates(next, extension),
        next matches RootFact::File(path) ==> root_candidates(next, extension) == seq![path@],
        next is Missing || next is Unreadable ==> root_candidates(next, extension).len() == 0,
        unreadable_notes(roots.push(next)) == if let RootFact::Unreadable { path, error } = next {
            unreadable_notes(roots).push(
                "cannot read exporter directory "@ + path@ + ": "@ + error@,
            )
        } else {
            unreadable_notes(roots)
        },
{
    assert(roots.push(next).drop_last() =~= roots);
}

} // verus!
