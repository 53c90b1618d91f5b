//! Which files a selection holds, and where its output goes.
use vstd::prelude::*;

use crate::bridge::paths::{path_extension_of, path_parent_of, same_components};
use crate::cli::asks_filters;
use crate::dataset::{
    all_paths, common_dir, file_dir, first_dir, input_paths, inputs_plan, is_stdin_path,
    logjet_files, one_dir, selection, sorted_paths, without_repeats, FactModel,
};
use crate::error::{error_text, ErrorModel};
use crate::predicate::{asked_predicate, predicate_matches, PredicateArgs};
use crate::record::RecordModel;
use crate::selection::law_predicate_asks_for;
use crate::text::order::{law_sorting, sorted_by_key, text_le};

verus! {

/// Standard input is read where `-` is the only input. It cannot be mixed with
/// files, and there has to be some input.
pub proof fn law_standard_input_stands_alone(inputs: Seq<Seq<char>>)
    ensures
        inputs_plan(inputs) == Ok::<bool, ErrorModel>(true) <==> inputs.len() == 1
            && same_components(inputs[0], "-"@),
        inputs_plan(inputs) == Ok::<bool, ErrorModel>(false) <==> inputs.len() > 0 && forall|i: int|
            0 <= i < inputs.len() ==> !same_components(#[trigger] inputs[i], "-"@),
        inputs_plan(inputs) is Err ==> inputs_plan(inputs)->Err_0 is Usage,
{
    if inputs.len() == 1 && same_components(inputs[0], "-"@) {
        assert(is_stdin_path(inputs[0]));
    }
    if exists|i: int| 0 <= i < inputs.len() && is_stdin_path(#[trigger] inputs[i]) {
        let i = choose|i: int| 0 <= i < inputs.len() && is_stdin_path(#[trigger] inputs[i]);
        assert(same_components(inputs[i], "-"@));
    } else {
        assert forall|i: int| 0 <= i < inputs.len() implies !same_components(
            #[trigger] inputs[i],
            "-"@,
        ) by {
            assert(!is_stdin_path(inputs[i]));
        }
    }
}

/// The test for files with the extension `logjet`.
pub open spec fn ends_in_logjet() -> spec_fn(Seq<char>) -> bool {
    |p: Seq<char>| path_extension_of(p) == Some("logjet"@)
}

/// A directory stands for those of its files that have the extension `logjet`,
/// in their order; a file stands for itself, whatever its name.
pub proof fn law_inputs_stand_for_files(input: Seq<char>, files: Seq<Seq<char>>)
    ensures
        input_paths(input, FactModel::File) == Ok::<Seq<Seq<char>>, ErrorModel>(seq![input]),
        files.filter(ends_in_logjet()).len() > 0 ==> input_paths(
            input,
            FactModel::Directory(files),
        ) == Ok::<Seq<Seq<char>>, ErrorModel>(files.filter(ends_in_logjet())),
        files.filter(ends_in_logjet()).len() == 0 ==> input_paths(
            input,
            FactModel::Directory(files),
        ) is Err,
        input_paths(input, FactModel::Missing) is Err,
        input_paths(input, FactModel::Other) is Err,
{
    lemma_logjet_files(files);
}

proof fn lemma_logjet_files(files: Seq<Seq<char>>)
    ensures
        logjet_files(files) == files.filter(ends_in_logjet()),
    decreases files.len(),
{
    reveal(Seq::filter);
    if files.len() > 0 {
        lemma_logjet_files(files.drop_last());
    }
}

/// A missing input is named in the error, with a hint where it holds a
/// character that a shell would expand.
pub proof fn law_missing_inputs_are_named(input: Seq<char>)
    ensures
        ({
            let text = error_text(input_paths(input, FactModel::Missing)->Err_0);
            let start = "input "@ + input + " does not exist"@;
            if input.contains('*') || input.contains('?') || input.contains('[') {
                text == start + "; `ljx view` expects the shell to expand globs"@
            } else {
                text == start
            }
        }),
{
    let start = "input "@ + input + " does not exist"@;
    assert(start + Seq::<char>::empty() =~= start);
}

proof fn lemma_sorted_paths(p: Seq<Seq<char>>)
    ensures
        sorted_paths(p).len() == p.len(),
        forall|i: int, j: int|
            0 <= i <= j < p.len() ==> text_le(
                #[trigger] sorted_paths(p)[i],
                #[trigger] sorted_paths(p)[j],
            ),
        forall|x: Seq<char>| #[trigger] sorted_paths(p).contains(x) <==> p.contains(x),
{
    broadcast use vstd::seq_lib::group_to_multiset_ensures;

    let e = p.map_values(|x: Seq<char>| (x, ()));
    let s = sorted_by_key(e);
    law_sorting(e);
    let out = sorted_paths(p);
    assert forall|i: int, j: int| 0 <= i <= j < p.len() implies text_le(
        #[trigger] out[i],
        #[trigger] out[j],
    ) by {
        assert(text_le(s[i].0, s[j].0));
    }
    assert forall|x: Seq<char>| #[trigger] out.contains(x) <==> p.contains(x) by {
        if p.contains(x) {
            let i = choose|i: int| 0 <= i < p.len() && p[i] == x;
            assert(e[i] == (x, ()));
            assert(e.contains((x, ())));
            assert(e.to_multiset().count((x, ())) > 0);
            assert(s.contains((x, ())));
            let j = choose|j: int| 0 <= j < s.len() && s[j] == (x, ());
            assert(out[j] == x);
        }
        if out.contains(x) {
            let j = choose|j: int| 0 <= j < out.len() && out[j] == x;
            assert(s[j] == (x, ()));
            assert(s.contains((x, ())));
            assert(s.to_multiset().count((x, ())) > 0);
            assert(e.contains((x, ())));
            let i = choose|i: int| 0 <= i < e.len() && e[i] == (x, ());
            assert(p[i] == x);
        }
    }
}

/// Some path of a list is `x`, or another spelling of it.
pub open spec fn is_listed(v: Seq<Seq<char>>, x: Seq<char>) -> bool {
    exists|i: int| 0 <= i < v.len() && (#[trigger] v[i] == x || same_components(x, v[i]))
}

proof fn lemma_without_repeats(p: Seq<Seq<char>>)
    requires
        forall|i: int, j: int|
            0 <= i <= j < p.len() ==> text_le(#[trigger] p[i], #[trigger] p[j]),
    ensures
        ({
            let v = without_repeats(p);
            &&& forall|x: Seq<char>| #[trigger] v.contains(x) ==> p.contains(x)
            &&& forall|i: int| 0 <= i < p.len() ==> is_listed(v, #[trigger] p[i])
            &&& forall|i: int, j: int|
                0 <= i <= j < v.len() ==> text_le(#[trigger] v[i], #[trigger] v[j])
            &&& forall|i: int, j: int|
                0 <= i < j < v.len() && j == i + 1 ==> !#[trigger] same_components(v[j], v[i])
            &&& p.len() > 0 ==> v.len() > 0
        }),
    decreases p.len(),
{
    let v = without_repeats(p);
    if p.len() > 0 {
        let init = p.drop_last();
        let before = without_repeats(init);
        assert forall|i: int, j: int| 0 <= i <= j < init.len() implies text_le(
            #[trigger] init[i],
            #[trigger] init[j],
        ) by {
            assert(text_le(p[i], p[j]));
        }
        lemma_without_repeats(init);
        assert forall|x: Seq<char>| #[trigger] v.contains(x) implies p.contains(x) by {
            let i = choose|i: int| 0 <= i < v.len() && v[i] == x;
            if i < before.len() {
                assert(before[i] == x);
                assert(before.contains(x));
                let j = choose|j: int| 0 <= j < init.len() && init[j] == x;
                assert(p[j] == x);
            } else {
                assert(p[p.len() - 1] == x);
            }
        }
        assert forall|i: int| 0 <= i < p.len() implies is_listed(v, #[trigger] p[i]) by {
            if i < init.len() {
                assert(init[i] == p[i]);
                assert(is_listed(before, init[i]));
                let k = choose|k: int|
                    0 <= k < before.len() && (#[trigger] before[k] == p[i] || same_components(
                        p[i],
                        before[k],
                    ));
                assert(v[k] == before[k]);
            } else {
                assert(v[v.len() - 1] == p[i] || same_components(p[i], v[v.len() - 1]));
            }
        }
        assert forall|i: int, j: int| 0 <= i <= j < v.len() implies text_le(
            #[trigger] v[i],
            #[trigger] v[j],
        ) by {
            if j < before.len() {
                assert(text_le(before[i], before[j]));
            } else if i < before.len() {
                assert(before.contains(before[i]));
                let k = choose|k: int| 0 <= k < init.len() && init[k] == before[i];
                assert(text_le(p[k], p[p.len() - 1]));
            } else {
                assert(text_le(p[p.len() - 1], p[p.len() - 1]));
            }
        }
        assert forall|i: int, j: int|
            0 <= i < j < v.len() && j == i + 1 implies !#[trigger] same_components(v[j], v[i]) by {
            if j < before.len() {
                assert(!same_components(before[j], before[i]));
            }
        }
    }
}

/// A selection holds the files that its inputs stand for, and no other: in
/// ascending order, and without neighbours that are spellings of one path.
pub proof fn law_selections_hold_the_files(inputs: Seq<Seq<char>>, facts: Seq<FactModel>)
    requires
        all_paths(inputs, facts) is Ok,
        all_paths(inputs, facts)->Ok_0.len() > 0,
    ensures
        selection(inputs, facts) is Ok,
        ({
            let paths = all_paths(inputs, facts)->Ok_0;
            let v = selection(inputs, facts)->Ok_0;
            &&& v.len() > 0
            &&& forall|x: Seq<char>| #[trigger] v.contains(x) ==> paths.contains(x)
            &&& forall|i: int| 0 <= i < paths.len() ==> is_listed(v, #[trigger] paths[i])
            &&& forall|i: int, j: int|
                0 <= i <= j < v.len() ==> text_le(#[trigger] v[i], #[trigger] v[j])
            &&& forall|i: int, j: int|
                0 <= i < j < v.len() && j == i + 1 ==> !#[trigger] same_components(v[j], v[i])
        }),
{
    let paths = all_paths(inputs, facts)->Ok_0;
    let s = sorted_paths(paths);
    let v = selection(inputs, facts)->Ok_0;
    lemma_sorted_paths(paths);
    lemma_without_repeats(s);
    assert forall|x: Seq<char>| #[trigger] v.contains(x) implies paths.contains(x) by {
        assert(s.contains(x));
    }
    assert forall|i: int| 0 <= i < paths.len() implies is_listed(v, #[trigger] paths[i]) by {
        assert(paths.contains(paths[i]));
        assert(s.contains(paths[i]));
        let k = choose|k: int| 0 <= k < s.len() && s[k] == paths[i];
        assert(is_listed(v, s[k]));
    }
}

/// The files of all inputs are those of each, one after the other; the first
/// input that stands for none makes the selection fail with its error.
pub proof fn law_inputs_are_taken_in_turn(
    inputs: Seq<Seq<char>>,
    facts: Seq<FactModel>,
    input: Seq<char>,
    fact: FactModel,
)
    requires
        inputs.len() == facts.len(),
    ensures
        all_paths(inputs, facts) is Err ==> all_paths(inputs.push(input), facts.push(fact))
            == all_paths(inputs, facts),
        all_paths(inputs, facts) is Ok && input_paths(input, fact) is Err ==> all_paths(
            inputs.push(input),
            facts.push(fact),
        ) == input_paths(input, fact),
        all_paths(inputs, facts) is Ok && input_paths(input, fact) is Ok ==> all_paths(
            inputs.push(input),
            facts.push(fact),
        ) == Ok::<Seq<Seq<char>>, ErrorModel>(
            all_paths(inputs, facts)->Ok_0 + input_paths(input, fact)->Ok_0,
        ),
        all_paths(Seq::empty(), Seq::empty()) == Ok::<Seq<Seq<char>>, ErrorModel>(Seq::empty()),
{
    assert(inputs.push(input).drop_last() =~= inputs);
    assert(facts.push(fact).drop_last() =~= facts);
}

proof fn lemma_first_dir(paths: Seq<Seq<char>>, i: int)
    requires
        0 <= i < paths.len(),
        file_dir(paths[i]) is Some,
        forall|j: int| 0 <= j < i ==> file_dir(#[trigger] paths[j]) is None,
    ensures
        first_dir(paths) == file_dir(paths[i]),
    decreases paths.len(),
{
    let init = paths.drop_last();
    if i < init.len() {
        assert forall|j: int| 0 <= j < i implies file_dir(#[trigger] init[j]) is None by {
            assert(file_dir(paths[j]) is None);
        }
        lemma_first_dir(init, i);
    } else {
        lemma_no_dir(init, paths);
    }
}

proof fn lemma_no_dir(init: Seq<Seq<char>>, paths: Seq<Seq<char>>)
    requires
        init.len() <= paths.len(),
        forall|j: int| 0 <= j < init.len() ==> init[j] == #[trigger] paths[j],
        forall|j: int| 0 <= j < init.len() ==> file_dir(#[trigger] paths[j]) is None,
    ensures
        first_dir(init) is None,
    decreases init.len(),
{
    if init.len() > 0 {
        let less = init.drop_last();
        assert forall|j: int| 0 <= j < less.len() implies less[j] == #[trigger] paths[j] by {
            assert(init[j] == paths[j]);
        }
        lemma_no_dir(less, paths);
        assert(file_dir(paths[init.len() - 1]) is None);
    }
}

proof fn lemma_one_dir(paths: Seq<Seq<char>>, i: int, d: Seq<char>)
    requires
        0 <= i < paths.len(),
        file_dir(paths[i]) == Some(d),
        forall|j: int| 0 <= j < i ==> file_dir(#[trigger] paths[j]) is None,
    ensures
        one_dir(paths) <==> forall|j: int|
            i < j < paths.len() && file_dir(#[trigger] paths[j]) is Some ==> same_components(
                file_dir(paths[j])->0,
                d,
            ),
    decreases paths.len(),
{
    let init = paths.drop_last();
    if i < init.len() {
        assert forall|j: int| 0 <= j < i implies file_dir(#[trigger] init[j]) is None by {
            assert(file_dir(paths[j]) is None);
        }
        lemma_one_dir(init, i, d);
        lemma_first_dir(init, i);
        let last = paths.len() - 1;
        if one_dir(paths) {
            assert forall|j: int|
                i < j < paths.len() && file_dir(#[trigger] paths[j]) is Some implies same_components(
                file_dir(paths[j])->0,
                d,
            ) by {
                if j < last {
                    assert(init[j] == paths[j]);
                }
            }
        } else if forall|j: int|
            i < j < paths.len() && file_dir(#[trigger] paths[j]) is Some ==> same_components(
                file_dir(paths[j])->0,
                d,
            ) {
            assert forall|j: int|
                i < j < init.len() && file_dir(#[trigger] init[j]) is Some implies same_components(
                file_dir(init[j])->0,
                d,
            ) by {
                assert(init[j] == paths[j]);
            }
            assert(file_dir(paths[last]) is Some ==> same_components(file_dir(paths[last])->0, d));
        }
    } else {
        lemma_no_dir(init, paths);
        lemma_one_dir_of_none(init);
    }
}

proof fn lemma_one_dir_of_none(paths: Seq<Seq<char>>)
    requires
        first_dir(paths) is None,
    ensures
        one_dir(paths),
    decreases paths.len(),
{
    if paths.len() > 0 {
        lemma_one_dir_of_none(paths.drop_last());
    }
}

/// Output goes to the directory of the first file that has one, if all others
/// that have one lie there too, and otherwise to the current directory.
/// Standard input has no directory.
pub proof fn law_output_goes_where_the_files_are(paths: Seq<Seq<char>>, i: int, d: Seq<char>)
    requires
        0 <= i < paths.len(),
        !same_components(paths[i], "-"@),
        path_parent_of(paths[i]) == Some(d),
        forall|j: int|
            0 <= j < i ==> same_components(#[trigger] paths[j], "-"@) || path_parent_of(
                paths[j],
            ) is None,
    ensures
        common_dir(paths) == if forall|j: int|
            i < j < paths.len() && !same_components(#[trigger] paths[j], "-"@) && path_parent_of(
                paths[j],
            ) is Some ==> same_components(path_parent_of(paths[j])->0, d) {
            d
        } else {
            "."@
        },
{
    assert forall|j: int| 0 <= j < i implies file_dir(#[trigger] paths[j]) is None by {
        assert(same_components(paths[j], "-"@) || path_parent_of(paths[j]) is None);
    }
    lemma_first_dir(paths, i);
    lemma_one_dir(paths, i, d);
    if one_dir(paths) {
        assert forall|j: int|
            i < j < paths.len() && !same_components(#[trigger] paths[j], "-"@) && path_parent_of(
                paths[j],
            ) is Some implies same_components(path_parent_of(paths[j])->0, d) by {
            assert(file_dir(paths[j]) is Some);
        }
    } else {
        let j = choose|j: int|
            i < j < paths.len() && file_dir(#[trigger] paths[j]) is Some && !same_components(
                file_dir(paths[j])->0,
                d,
            );
        assert(!same_components(paths[j], "-"@));
    }
}

/// Without filters on the command line every record matches.
pub proof fn law_without_filters_everything_matches(a: PredicateArgs, r: RecordModel)
    requires
        !asks_filters(a),
    ensures
        predicate_matches(asked_predicate(a), r),
{
    law_predicate_asks_for(a, r);
}

/// An error shows its text, and nothing else.
pub proof fn law_errors_show_their_text(s: Seq<char>, code: Seq<char>)
    ensures
        error_text(ErrorModel::Io(s)) == s,
        error_text(ErrorModel::Logjet(s)) == s,
        error_text(ErrorModel::Usage(s)) == s,
        error_text(ErrorModel::Unimplemented(s)) == s,
        error_text(ErrorModel::JsonUsage { code, message: s }) == s,
{
}

} // verus!
