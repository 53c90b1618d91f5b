//! The `dedup` command.
use vstd::prelude::*;

use crate::bridge::debug_text::{debug_quote, debug_quoted};
use crate::cli::{DedupArgs, DedupBehaviorArg, DedupMatchArg};
use crate::dedup::drain3::Ratio;
use crate::dedup::flat_record::BucketKeyKind;
use crate::dedup::{DedupMatchMode, DedupMode, DedupOpts, DrainOpts};
use crate::error::{Error, ErrorModel};
use crate::text::seqs::{split_chars, split_on, trim, trimmed};
use crate::text::strings::{chars_of, str_eq, texts};

verus! {

/// The behaviour that is asked for.
pub open spec fn mode_of(arg: DedupBehaviorArg) -> DedupMode {
    match arg {
        DedupBehaviorArg::Distinct => DedupMode::Distinct,
        DedupBehaviorArg::Collapse => DedupMode::Collapse,
    }
}

/// The behaviour that is asked for.
pub fn dedup_mode(arg: DedupBehaviorArg) -> (r: DedupMode)
    ensures
        r == mode_of(arg),
{
    match arg {
        DedupBehaviorArg::Distinct => DedupMode::Distinct,
        DedupBehaviorArg::Collapse => DedupMode::Collapse,
    }
}

/// The matching that is asked for.
pub open spec fn match_of(arg: DedupMatchArg) -> DedupMatchMode {
    match arg {
        DedupMatchArg::Exact => DedupMatchMode::Exact,
        DedupMatchArg::Canon => DedupMatchMode::Hash2,
        DedupMatchArg::Full => DedupMatchMode::Full,
    }
}

/// The matching that is asked for.
pub fn dedup_match(arg: DedupMatchArg) -> (r: DedupMatchMode)
    ensures
        r == match_of(arg),
{
    match arg {
        DedupMatchArg::Exact => DedupMatchMode::Exact,
        DedupMatchArg::Canon => DedupMatchMode::Hash2,
        DedupMatchArg::Full => DedupMatchMode::Full,
    }
}

/// The words of a list that is separated by commas.
pub open spec fn comma_words(s: Seq<char>) -> Seq<Seq<char>> {
    split_on(s, ',').map_values(|w: Seq<char>| trim(w))
}

/// The words of a list that is separated by commas.
fn split_words(s: &str) -> (r: Vec<String>)
    ensures
        texts(r@) == comma_words(s@),
{
    let parts = split_chars(&chars_of(s), ',');
    let mut r: Vec<String> = Vec::new();
    for i in 0..parts.len()
        invariant
            texts(parts@) == split_on(s@, ','),
            texts(r@) == comma_words(s@).take(i as int),
    {
        let ghost before = texts(r@);
        let word = trimmed(&chars_of(parts[i].as_str()));
        r.push(word);
        assert(texts(parts@)[i as int] == parts@[i as int]@);
        assert(texts(r@) =~= before.push(word@));
        assert(texts(r@) =~= comma_words(s@).take(i + 1));
    }
    assert(comma_words(s@).take(parts@.len() as int) =~= comma_words(s@));
    r
}

/// A word that names a bucket extension.
pub open spec fn is_extension(w: Seq<char>) -> bool {
    w == "scope"@ || w == "source_line"@
}

/// The place of the first word that names no bucket extension; the number of
/// words where there is none.
pub open spec fn first_unknown(words: Seq<Seq<char>>) -> int
    decreases words.len(),
{
    if words.len() == 0 || !is_extension(words.first()) {
        0
    } else {
        1 + first_unknown(words.drop_first())
    }
}

/// The bucket key with the extensions that are named.
pub open spec fn key_kind(words: Seq<Seq<char>>) -> BucketKeyKind {
    match (words.contains("scope"@), words.contains("source_line"@)) {
        (true, true) => BucketKeyKind::ScopeAndSourceLine,
        (true, false) => BucketKeyKind::Scope,
        (false, true) => BucketKeyKind::SourceLine,
        (false, false) => BucketKeyKind::Default,
    }
}

/// What is said of a word that names no bucket extension, given in quotes.
pub open spec fn unknown_extension_text(quoted: Seq<char>) -> Seq<char> {
    "unknown --bucket-by value: "@ + quoted + " (valid: scope, source_line)"@
}

/// The error for a word that names no bucket extension, given in quotes.
pub fn unknown_extension(quoted: &str) -> (r: Error)
    ensures
        r@ == ErrorModel::Usage(unknown_extension_text(quoted@)),
{
    let mut m = "unknown --bucket-by value: ".to_owned();
    m.append(quoted);
    m.append(" (valid: scope, source_line)");
    Error::Usage(m)
}

/// The bucket key that is asked for.
pub open spec fn bucket_by(value: Option<String>) -> Result<BucketKeyKind, ErrorModel> {
    match value {
        None => Ok(BucketKeyKind::Default),
        Some(v) => {
            let words = comma_words(v@);
            let at = first_unknown(words);
            if at < words.len() {
                Err(ErrorModel::Usage(unknown_extension_text(debug_quoted(words[at]))))
            } else {
                Ok(key_kind(words))
            }
        },
    }
}

/// The bucket key that is asked for: a list, separated by commas, of `scope`
/// and `source_line`.
pub fn parse_bucket_by(value: &Option<String>) -> (r: Result<BucketKeyKind, Error>)
    ensures
        match r {
            Ok(kind) => bucket_by(*value) == Ok::<BucketKeyKind, ErrorModel>(kind),
            Err(e) => bucket_by(*value) == Err::<BucketKeyKind, ErrorModel>(e@),
        },
{
    let val = match value {
        Some(v) => v,
        None => return Ok(BucketKeyKind::Default),
    };
    let parts = split_words(val.as_str());
    let ghost words = texts(parts@);
    let mut has_scope = false;
    let mut has_source = false;
    assert(words.skip(0) =~= words);
    for i in 0..parts.len()
        invariant
            words == texts(parts@),
            words == comma_words(val@),
            *value == Some(*val),
            first_unknown(words) == i + first_unknown(words.skip(i as int)),
            has_scope == words.take(i as int).contains("scope"@),
            has_source == words.take(i as int).contains("source_line"@),
    {
        let word = parts[i].as_str();
        proof {
            assert(words[i as int] == word@);
            assert(words.skip(i as int).drop_first() =~= words.skip(i + 1));
            let before = words.take(i as int);
            assert(words.take(i + 1) =~= before.push(word@));
            assert forall|x: Seq<char>| before.push(word@).contains(x) == (before.contains(x) || x
                == word@) by {
                if before.contains(x) {
                    let k = choose|k: int| 0 <= k < before.len() && before[k] == x;
                    assert(before.push(word@)[k] == x);
                }
                assert(before.push(word@)[i as int] == word@);
            }
        }
        let scope = str_eq(word, "scope");
        let source = str_eq(word, "source_line");
        if !scope && !source {
            return Err(unknown_extension(debug_quote(word).as_str()));
        }
        has_scope = has_scope || scope;
        has_source = has_source || source;
    }
    assert(words.take(parts@.len() as int) =~= words);
    Ok(
        match (has_scope, has_source) {
            (true, true) => BucketKeyKind::ScopeAndSourceLine,
            (true, false) => BucketKeyKind::Scope,
            (false, true) => BucketKeyKind::SourceLine,
            (false, false) => BucketKeyKind::Default,
        },
    )
}

/// The options of the pipeline for the arguments of the command: by default a
/// threshold of seven tenths, a depth of three and no extra delimiters.
pub fn options(args: &DedupArgs) -> (r: Result<DedupOpts, Error>)
    ensures
        match r {
            Ok(o) => {
                &&& bucket_by(args.bucket_by) == Ok::<BucketKeyKind, ErrorModel>(o.bucket_key)
                &&& o.mode == mode_of(args.mode)
                &&& o.match_mode == match_of(args.matcher)
                &&& o.drain.sim_th == match args.sim_th {
                    Some(t) => t,
                    None => Ratio { num: 7, den: 10 },
                }
                &&& o.drain.depth == match args.drain_depth {
                    Some(d) => d,
                    None => 3,
                }
                &&& texts(o.drain.extra_delimiters@) == match args.extra_delimiters {
                    Some(d) => split_on(d@, ','),
                    None => Seq::empty(),
                }
            },
            Err(e) => bucket_by(args.bucket_by) == Err::<BucketKeyKind, ErrorModel>(e@),
        },
{
    let bucket_key = match parse_bucket_by(&args.bucket_by) {
        Ok(k) => k,
        Err(e) => return Err(e),
    };
    let sim_th = match args.sim_th {
        Some(t) => t,
        None => Ratio { num: 7, den: 10 },
    };
    let depth: i64 = match args.drain_depth {
        Some(d) => d,
        None => 3,
    };
    let extra_delimiters: Vec<String> = match &args.extra_delimiters {
        Some(d) => split_chars(&chars_of(d.as_str()), ','),
        None => Vec::new(),
    };
    assert(args.extra_delimiters is None ==> texts(extra_delimiters@) =~= Seq::empty());
    Ok(
        DedupOpts {
            mode: dedup_mode(args.mode),
            match_mode: dedup_match(args.matcher),
            bucket_key,
            drain: DrainOpts { sim_th, depth, extra_delimiters },
        },
    )
}

/// Each behaviour and each matching on the command line asks for its own, and
/// `canon` for equal canonical bodies.
pub proof fn law_options_ask_for_what_they_name(mode: DedupBehaviorArg, matcher: DedupMatchArg)
    ensures
        mode_of(mode) == DedupMode::Distinct <==> mode is Distinct,
        mode_of(mode) == DedupMode::Collapse <==> mode is Collapse,
        match_of(matcher) == DedupMatchMode::Exact <==> matcher is Exact,
        match_of(matcher) == DedupMatchMode::Hash2 <==> matcher is Canon,
        match_of(matcher) == DedupMatchMode::Full <==> matcher is Full,
{
}

proof fn lemma_first_unknown(words: Seq<Seq<char>>)
    ensures
        0 <= first_unknown(words) <= words.len(),
        forall|i: int|
            0 <= i < first_unknown(words) ==> #[trigger] words[i] == "scope"@ || words[i]
                == "source_line"@,
        first_unknown(words) < words.len() ==> words[first_unknown(words)] != "scope"@
            && words[first_unknown(words)] != "source_line"@,
    decreases words.len(),
{
    if words.len() > 0 && is_extension(words.first()) {
        let rest = words.drop_first();
        lemma_first_unknown(rest);
        assert forall|i: int| 0 <= i < first_unknown(words) implies #[trigger] words[i]
            == "scope"@ || words[i] == "source_line"@ by {
            if i > 0 {
                assert(words[i] == rest[i - 1]);
            }
        }
    }
}

/// The bucket key is the service and the severity, with the scope where a word
/// of the list is `scope`, and with the source line where one is `source_line`.
/// Any other word is refused, and the error quotes the first of them.
pub proof fn law_bucket_words_extend_the_key(value: String)
    ensures
        ({
            let words = split_on(value@, ',').map_values(|w: Seq<char>| trim(w));
            let scope = exists|i: int| 0 <= i < words.len() && #[trigger] words[i] == "scope"@;
            let line = exists|i: int|
                0 <= i < words.len() && #[trigger] words[i] == "source_line"@;
            let known = forall|i: int|
                0 <= i < words.len() ==> #[trigger] words[i] == "scope"@ || words[i]
                    == "source_line"@;
            match bucket_by(Some(value)) {
                Ok(kind) => {
                    &&& known
                    &&& scope && line <==> kind == BucketKeyKind::ScopeAndSourceLine
                    &&& scope && !line <==> kind == BucketKeyKind::Scope
                    &&& !scope && line <==> kind == BucketKeyKind::SourceLine
                },
                Err(e) => exists|i: int|
                    {
                        &&& 0 <= i < words.len()
                        &&& #[trigger] words[i] != "scope"@
                        &&& words[i] != "source_line"@
                        &&& e == ErrorModel::Usage(
                            "unknown --bucket-by value: "@ + debug_quoted(words[i])
                                + " (valid: scope, source_line)"@,
                        )
                        &&& forall|j: int|
                            0 <= j < i ==> #[trigger] words[j] == "scope"@ || words[j]
                                == "source_line"@
                    },
            }
        }),
        bucket_by(None) == Ok::<BucketKeyKind, ErrorModel>(BucketKeyKind::Default),
{
    let words = comma_words(value@);
    lemma_first_unknown(words);
    let at = first_unknown(words);
    if at < words.len() {
        assert(words[at] != "scope"@);
    }
}

} // verus!
