//! The files of a selection.
use vstd::prelude::*;

use crate::bridge::paths::{
    path_extension, path_extension_of, path_parent, path_parent_of, path_stem, path_stem_of,
    same_components, same_path,
};
use crate::dataset_index::DatasetIndex;
use crate::dedup::detect::text_option;
use crate::error::{Error, ErrorModel};
use crate::text::order::{keyed, sort_by_key, sorted_by_key};
use crate::text::seqs::has_char;
use crate::text::strings::{chars_of, str_eq, texts};

verus! {

/// How a selection is read.
#[derive(Debug, Clone, Copy, PartialEq, Eq, Structural)]
pub struct DatasetOptions {
    pub load_index: bool,
}

impl DatasetOptions {
    /// With indexes.
    pub fn default() -> (r: Self)
        ensures
            r.load_index,
    {
        DatasetOptions { load_index: true }
    }

    /// Without indexes, for slow file systems.
    pub fn nfs() -> (r: Self)
        ensures
            !r.load_index,
    {
        DatasetOptions { load_index: false }
    }
}

/// What is known of a file without reading its records.
#[derive(Debug, Clone)]
pub struct DatasetEntry {
    pub path: String,
    pub size: u64,
    pub modified_ns: Option<u64>,
    pub first_seq: Option<u64>,
    pub last_seq: Option<u64>,
    pub first_ts_unix_ns: Option<u64>,
    pub last_ts_unix_ns: Option<u64>,
    pub index: Option<DatasetIndex>,
}

impl DatasetEntry {
    /// The entry of a file.
    pub fn new(path: String, size: u64, modified_ns: Option<u64>, index: Option<DatasetIndex>) -> (r:
        Self)
        ensures
            r.path == path,
            r.size == size,
            r.modified_ns == modified_ns,
            r.index == index,
            match index {
                Some(i) => r.first_seq == i.summary.first_seq && r.last_seq == i.summary.last_seq
                    && r.first_ts_unix_ns == i.summary.first_ts_unix_ns && r.last_ts_unix_ns
                    == i.summary.last_ts_unix_ns,
                None => r.first_seq is None && r.last_seq is None && r.first_ts_unix_ns is None
                    && r.last_ts_unix_ns is None,
            },
    {
        let (first_seq, last_seq, first_ts, last_ts) = match &index {
            Some(i) => (
                i.summary.first_seq,
                i.summary.last_seq,
                i.summary.first_ts_unix_ns,
                i.summary.last_ts_unix_ns,
            ),
            None => (None, None, None, None),
        };
        DatasetEntry {
            path,
            size,
            modified_ns,
            first_seq,
            last_seq,
            first_ts_unix_ns: first_ts,
            last_ts_unix_ns: last_ts,
            index,
        }
    }
}

/// A selection of files.
#[derive(Debug, Clone)]
pub struct Dataset {
    entries: Vec<DatasetEntry>,
}

/// The path that stands for standard input.
pub open spec fn is_stdin_path(p: Seq<char>) -> bool {
    same_components(p, "-"@)
}

/// What the file system says of an input.
#[derive(Debug)]
pub enum InputFact {
    Missing,
    /// A directory, with the files below it.
    Directory(Vec<String>),
    File,
    Other,
}

/// What an [`InputFact`] holds.
pub enum FactModel {
    Missing,
    Directory(Seq<Seq<char>>),
    File,
    Other,
}

impl View for InputFact {
    type V = FactModel;

    open spec fn view(&self) -> FactModel {
        match *self {
            InputFact::Missing => FactModel::Missing,
            InputFact::Directory(v) => FactModel::Directory(texts(v@)),
            InputFact::File => FactModel::File,
            InputFact::Other => FactModel::Other,
        }
    }
}

/// What inputs stand for: standard input, or files.
pub open spec fn inputs_plan(inputs: Seq<Seq<char>>) -> Result<bool, ErrorModel> {
    if inputs.len() == 0 {
        Err(
            ErrorModel::Usage("dataset selection is empty; pass one or more .logjet files"@),
        )
    } else if exists|i: int| 0 <= i < inputs.len() && is_stdin_path(#[trigger] inputs[i]) {
        if inputs.len() == 1 {
            Ok(true)
        } else {
            Err(
                ErrorModel::Usage("stdin cannot be mixed with file inputs in `ljx view`"@),
            )
        }
    } else {
        Ok(false)
    }
}

/// A text that a shell would expand.
pub open spec fn globbed(path: Seq<char>) -> bool {
    path.contains('*') || path.contains('?') || path.contains('[')
}

/// The extension of a path is `logjet`.
pub open spec fn logjet_path(path: Seq<char>) -> bool {
    path_extension_of(path) == Some("logjet"@)
}

/// The `.logjet` files of a directory.
pub open spec fn logjet_files(files: Seq<Seq<char>>) -> Seq<Seq<char>>
    decreases files.len(),
{
    if files.len() == 0 {
        Seq::empty()
    } else if logjet_path(files.last()) {
        logjet_files(files.drop_last()).push(files.last())
    } else {
        logjet_files(files.drop_last())
    }
}

/// The files that one input stands for.
pub open spec fn input_paths(input: Seq<char>, fact: FactModel) -> Result<
    Seq<Seq<char>>,
    ErrorModel,
> {
    match fact {
        FactModel::Missing => Err(
            ErrorModel::Usage(
                "input "@ + input + " does not exist"@ + if globbed(input) {
                    "; `ljx view` expects the shell to expand globs"@
                } else {
                    Seq::empty()
                },
            ),
        ),
        FactModel::Directory(files) => if logjet_files(files).len() == 0 {
            Err(
                ErrorModel::Usage(
                    "input "@ + input + " is a directory with no .logjet files"@,
                ),
            )
        } else {
            Ok(logjet_files(files))
        },
        FactModel::File => Ok(seq![input]),
        FactModel::Other => Err(
            ErrorModel::Usage("input "@ + input + " is not a regular file"@),
        ),
    }
}

/// The files that inputs stand for, input by input; the first error counts.
pub open spec fn all_paths(inputs: Seq<Seq<char>>, facts: Seq<FactModel>) -> Result<
    Seq<Seq<char>>,
    ErrorModel,
>
    decreases inputs.len(),
{
    if inputs.len() == 0 {
        Ok(Seq::empty())
    } else {
        match all_paths(inputs.drop_last(), facts.drop_last()) {
            Err(e) => Err(e),
            Ok(before) => match input_paths(inputs.last(), facts.last()) {
                Err(e) => Err(e),
                Ok(paths) => Ok(before + paths),
            },
        }
    }
}

/// Paths in ascending order.
pub open spec fn sorted_paths(p: Seq<Seq<char>>) -> Seq<Seq<char>> {
    sorted_by_key(p.map_values(|x: Seq<char>| (x, ()))).map_values(|e: (Seq<char>, ())| e.0)
}

/// Paths without those that repeat the one before.
pub open spec fn without_repeats(p: Seq<Seq<char>>) -> Seq<Seq<char>>
    decreases p.len(),
{
    if p.len() == 0 {
        Seq::empty()
    } else {
        let before = without_repeats(p.drop_last());
        if before.len() > 0 && same_components(p.last(), before.last()) {
            before
        } else {
            before.push(p.last())
        }
    }
}

/// The files of a selection, sorted, each once.
pub open spec fn selection(inputs: Seq<Seq<char>>, facts: Seq<FactModel>) -> Result<
    Seq<Seq<char>>,
    ErrorModel,
> {
    match all_paths(inputs, facts) {
        Err(e) => Err(e),
        Ok(paths) => if paths.len() == 0 {
            Err(ErrorModel::Usage("dataset selection resolved to no .logjet files"@))
        } else {
            Ok(without_repeats(sorted_paths(paths)))
        },
    }
}

/// Whether a path looks like a pattern that a shell would expand.
pub fn looks_like_glob(path: &str) -> (r: bool)
    ensures
        r == globbed(path@),
{
    let c = chars_of(path);
    has_char(&c, '*') || has_char(&c, '?') || has_char(&c, '[')
}

/// Whether a path names a `.logjet` file.
pub fn is_logjet_path(path: &str) -> (r: bool)
    ensures
        r == (path_extension_of(path@) == Some("logjet"@)),
{
    match path_extension(path) {
        Some(ext) => str_eq(ext.as_str(), "logjet"),
        None => false,
    }
}

/// Whether inputs stand for standard input; an error where they are none, or
/// standard input among others.
pub fn check_inputs(inputs: &Vec<String>) -> (r: Result<bool, Error>)
    ensures
        match r {
            Ok(b) => inputs_plan(texts(inputs@)) == Ok::<bool, ErrorModel>(b),
            Err(e) => inputs_plan(texts(inputs@)) == Err::<bool, ErrorModel>(e@),
        },
{
    let ghost all = texts(inputs@);
    if inputs.len() == 0 {
        return Err(
            Error::usage("dataset selection is empty; pass one or more .logjet files"),
        );
    }
    for i in 0..inputs.len()
        invariant
            all == texts(inputs@),
            inputs@.len() > 0,
            forall|j: int| 0 <= j < i ==> !is_stdin_path(#[trigger] all[j]),
    {
        assert(all[i as int] == inputs@[i as int]@);
        if same_path(inputs[i].as_str(), "-") {
            return if inputs.len() == 1 {
                Ok(true)
            } else {
                Err(Error::usage("stdin cannot be mixed with file inputs in `ljx view`"))
            };
        }
    }
    Ok(false)
}

/// Facts over mathematical strings.
pub open spec fn facts_view(f: Seq<InputFact>) -> Seq<FactModel> {
    f.map_values(|x: InputFact| x@)
}

/// Adds the files of one input.
fn add_input(input: &str, fact: &InputFact, paths: &mut Vec<(String, ())>) -> (r: Result<(), Error>)
    ensures
        match r {
            Ok(()) => input_paths(input@, fact@) is Ok && path_texts(final(paths)@) == path_texts(
                old(paths)@,
            ) + input_paths(input@, fact@)->Ok_0,
            Err(e) => input_paths(input@, fact@) == Err::<Seq<Seq<char>>, ErrorModel>(e@),
        },
{
    let ghost before = path_texts(paths@);
    match fact {
        InputFact::Missing => {
            let mut message = "input ".to_owned();
            message.append(input);
            message.append(" does not exist");
            if looks_like_glob(input) {
                message.append("; `ljx view` expects the shell to expand globs");
            }
            assert(message@ =~= "input "@ + input@ + " does not exist"@ + if globbed(input@) {
                "; `ljx view` expects the shell to expand globs"@
            } else {
                Seq::empty()
            });
            Err(Error::Usage(message))
        },
        InputFact::Directory(files) => {
            let ghost names = texts(files@);
            let mut found: usize = 0;
            assert(names.take(0) =~= Seq::empty());
            assert(before + logjet_files(names.take(0)) =~= before);
            for i in 0..files.len()
                invariant
                    names == texts(files@),
                    found <= i,
                    found == logjet_files(names.take(i as int)).len(),
                    path_texts(paths@) == before + logjet_files(names.take(i as int)),
            {
                let ghost p0 = paths@;
                let ghost listed = logjet_files(names.take(i as int));
                assert(names.take(i + 1).drop_last() =~= names.take(i as int));
                assert(names[i as int] == files@[i as int]@);
                if is_logjet_path(files[i].as_str()) {
                    paths.push((files[i].clone(), ()));
                    found = found + 1;
                    assert(path_texts(paths@) =~= path_texts(p0).push(names[i as int]));
                    assert(before + listed.push(names[i as int]) =~= (before + listed).push(
                        names[i as int],
                    ));
                }
            }
            assert(names.take(files@.len() as int) =~= names);
            if found == 0 {
                let mut message = "input ".to_owned();
                message.append(input);
                message.append(" is a directory with no .logjet files");
                return Err(Error::Usage(message));
            }
            Ok(())
        },
        InputFact::File => {
            paths.push((input.to_owned(), ()));
            assert(path_texts(paths@) =~= before + seq![input@]);
            Ok(())
        },
        InputFact::Other => {
            let mut message = "input ".to_owned();
            message.append(input);
            message.append(" is not a regular file");
            Err(Error::Usage(message))
        },
    }
}

/// The texts of a list of paths.
pub open spec fn path_texts(p: Seq<(String, ())>) -> Seq<Seq<char>> {
    p.map_values(|x: (String, ())| x.0@)
}

/// The files of a selection, from what the file system says of each input.
pub fn select_paths(inputs: &Vec<String>, facts: &Vec<InputFact>) -> (r: Result<Vec<String>, Error>)
    requires
        inputs@.len() == facts@.len(),
    ensures
        match r {
            Ok(v) => selection(texts(inputs@), facts_view(facts@)) == Ok::<
                Seq<Seq<char>>,
                ErrorModel,
            >(texts(v@)),
            Err(e) => selection(texts(inputs@), facts_view(facts@)) == Err::<
                Seq<Seq<char>>,
                ErrorModel,
            >(e@),
        },
{
    let ghost ins = texts(inputs@);
    let ghost fs = facts_view(facts@);
    let mut paths: Vec<(String, ())> = Vec::new();
    assert(path_texts(paths@) =~= Seq::empty());
    assert(ins.take(0) =~= Seq::empty());
    assert(fs.take(0) =~= Seq::empty());
    for i in 0..inputs.len()
        invariant
            inputs@.len() == facts@.len(),
            ins == texts(inputs@),
            fs == facts_view(facts@),
            all_paths(ins.take(i as int), fs.take(i as int)) == Ok::<Seq<Seq<char>>, ErrorModel>(
                path_texts(paths@),
            ),
    {
        assert(ins.take(i + 1).drop_last() =~= ins.take(i as int));
        assert(fs.take(i + 1).drop_last() =~= fs.take(i as int));
        assert(ins[i as int] == inputs@[i as int]@);
        assert(fs[i as int] == facts@[i as int]@);
        match add_input(inputs[i].as_str(), &facts[i], &mut paths) {
            Ok(()) => {},
            Err(e) => {
                proof {
                    lemma_error_stays(ins, fs, i + 1);
                }
                return Err(e);
            },
        }
    }
    assert(ins.take(inputs@.len() as int) =~= ins);
    assert(fs.take(facts@.len() as int) =~= fs);
    if paths.len() == 0 {
        return Err(Error::usage("dataset selection resolved to no .logjet files"));
    }
    let ghost all = path_texts(paths@);
    assert(keyed(paths@) =~= all.map_values(|x: Seq<char>| (x, ())));
    let sorted = sort_by_key(paths);
    let ghost order = sorted_paths(all);
    assert(order =~= keyed(sorted@).map_values(|e: (Seq<char>, ())| e.0));
    let mut out: Vec<String> = Vec::new();
    assert(order.take(0) =~= Seq::empty());
    assert(texts(out@) =~= without_repeats(order.take(0)));
    for i in 0..sorted.len()
        invariant
            order == keyed(sorted@).map_values(|e: (Seq<char>, ())| e.0),
            texts(out@) == without_repeats(order.take(i as int)),
    {
        assert(order.take(i + 1).drop_last() =~= order.take(i as int));
        assert(order[i as int] == sorted@[i as int].0@);
        let n = out.len();
        let ghost out0 = out@;
        if n > 0 {
            assert(texts(out@).last() == out@[n - 1]@);
        }
        if n > 0 && same_path(sorted[i].0.as_str(), out[n - 1].as_str()) {
        } else {
            out.push(sorted[i].0.clone());
            assert(texts(out@) =~= texts(out0).push(order[i as int]));
        }
    }
    assert(order.take(sorted@.len() as int) =~= order);
    Ok(out)
}

/// An error on the way is the error of the whole.
proof fn lemma_error_stays(inputs: Seq<Seq<char>>, facts: Seq<FactModel>, n: int)
    requires
        0 <= n <= inputs.len(),
        inputs.len() == facts.len(),
        all_paths(inputs.take(n), facts.take(n)) is Err,
    ensures
        all_paths(inputs, facts) == all_paths(inputs.take(n), facts.take(n)),
    decreases inputs.len() - n,
{
    if n < inputs.len() {
        assert(inputs.take(n + 1).drop_last() =~= inputs.take(n));
        assert(facts.take(n + 1).drop_last() =~= facts.take(n));
        lemma_error_stays(inputs, facts, n + 1);
    } else {
        assert(inputs.take(n) =~= inputs);
        assert(facts.take(n) =~= facts);
    }
}

impl Dataset {
    /// The paths of the files.
    pub closed spec fn spec_paths(&self) -> Seq<Seq<char>> {
        self.entries@.map_values(|e: DatasetEntry| e.path@)
    }

    /// The files.
    pub closed spec fn spec_entries(&self) -> Seq<DatasetEntry> {
        self.entries@
    }

    /// There is at least one file.
    pub open spec fn wf(&self) -> bool {
        self.spec_paths().len() > 0
    }

    /// A selection of these files.
    pub fn new(entries: Vec<DatasetEntry>) -> (r: Self)
        requires
            entries@.len() > 0,
        ensures
            r.wf(),
            r.spec_entries() == entries@,
            r.spec_paths() == entries@.map_values(|e: DatasetEntry| e.path@),
    {
        Dataset { entries }
    }

    /// The selection that is standard input.
    pub fn stdin() -> (r: Self)
        ensures
            r.wf(),
            r.spec_paths() == seq!["-"@],
    {
        let mut entries: Vec<DatasetEntry> = Vec::new();
        entries.push(DatasetEntry::new("-".to_owned(), 0, None, None));
        let r = Dataset { entries };
        assert(r.spec_paths() =~= seq!["-"@]);
        r
    }

    /// The number of files.
    pub fn len(&self) -> (r: usize)
        ensures
            r == self.spec_paths().len(),
            r == self.spec_entries().len(),
    {
        self.entries.len()
    }

    /// Whether the selection is standard input.
    pub fn is_stdin(&self) -> (r: bool)
        ensures
            r == (self.spec_paths().len() == 1 && is_stdin_path(self.spec_paths()[0])),
    {
        self.entries.len() == 1 && same_path(self.entries[0].path.as_str(), "-")
    }

    /// The path of the first file.
    pub fn primary_path(&self) -> (r: &str)
        requires
            self.wf(),
        ensures
            r@ == self.spec_paths()[0],
    {
        assert(self.spec_paths()[0] == self.entries@[0].path@);
        self.entries[0].path.as_str()
    }

    /// The files.
    pub fn entries(&self) -> (r: &Vec<DatasetEntry>)
        ensures
            r@ == self.spec_entries(),
            r@.map_values(|e: DatasetEntry| e.path@) == self.spec_paths(),
    {
        &self.entries
    }

    /// The directory for output: the common directory of the files, else the
    /// current one.
    pub fn output_dir(&self) -> (r: String)
        ensures
            r@ == common_dir(self.spec_paths()),
    {
        let ghost paths = self.spec_paths();
        let mut first: Option<String> = None;
        let mut same = true;
        assert(paths.take(0) =~= Seq::empty());
        for i in 0..self.entries.len()
            invariant
                paths == self.spec_paths(),
                text_option(first) == first_dir(paths.take(i as int)),
                same == one_dir(paths.take(i as int)),
        {
            assert(paths.take(i + 1).drop_last() =~= paths.take(i as int));
            assert(paths[i as int] == self.entries@[i as int].path@);
            let path = self.entries[i].path.as_str();
            if !same_path(path, "-") {
                if let Some(dir) = path_parent(path) {
                    match &first {
                        None => {
                            first = Some(dir);
                        },
                        Some(f) => {
                            if !same_path(dir.as_str(), f.as_str()) {
                                same = false;
                            }
                        },
                    }
                }
            }
        }
        assert(paths.take(self.entries@.len() as int) =~= paths);
        match first {
            Some(f) => if same {
                f
            } else {
                ".".to_owned()
            },
            None => ".".to_owned(),
        }
    }

    /// The stem for names of output files.
    pub fn default_stem(&self, fallback: &str) -> (r: String)
        requires
            self.wf(),
        ensures
            r@ == if self.spec_paths().len() == 1 {
                match path_stem_of(self.spec_paths()[0]) {
                    Some(s) => s,
                    None => fallback@,
                }
            } else {
                "dataset"@
            },
    {
        if self.len() == 1 {
            match path_stem(self.primary_path()) {
                Some(s) => s,
                None => fallback.to_owned(),
            }
        } else {
            "dataset".to_owned()
        }
    }
}

/// The directory of a file; none for standard input.
pub open spec fn file_dir(path: Seq<char>) -> Option<Seq<char>> {
    if is_stdin_path(path) {
        None
    } else {
        path_parent_of(path)
    }
}

/// The directory of the first file that has one.
pub open spec fn first_dir(paths: Seq<Seq<char>>) -> Option<Seq<char>>
    decreases paths.len(),
{
    if paths.len() == 0 {
        None
    } else if first_dir(paths.drop_last()) is Some {
        first_dir(paths.drop_last())
    } else {
        file_dir(paths.last())
    }
}

/// Every directory is the first one.
pub open spec fn one_dir(paths: Seq<Seq<char>>) -> bool
    decreases paths.len(),
{
    paths.len() == 0 || (one_dir(paths.drop_last()) && match (
        first_dir(paths.drop_last()),
        file_dir(paths.last()),
    ) {
        (Some(f), Some(d)) => same_components(d, f),
        _ => true,
    })
}

/// The common directory of the files, else the current one.
pub open spec fn common_dir(paths: Seq<Seq<char>>) -> Seq<char> {
    match first_dir(paths) {
        Some(f) => if one_dir(paths) {
            f
        } else {
            "."@
        },
        None => "."@,
    }
}

} // verus!
