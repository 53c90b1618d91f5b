//! Regular expressions.
use vstd::prelude::*;
use vstd::utf8::{encode_utf8, is_char_boundary};

verus! {

/// Whether `pattern` matches somewhere in `text`; `None` where `pattern` is
/// not a regular expression that the `regex` crate compiles.
pub uninterp spec fn regex_found(pattern: Seq<char>, text: Seq<char>) -> Option<bool>;

/// `regex::Regex::new` followed by `Regex::is_match`. The claim is that the
/// answer depends on the pattern and the text alone.
#[verifier::external_body]
pub(crate) fn regex_is_match(pattern: &str, text: &str) -> (r: Option<bool>)
    ensures
        r == regex_found(pattern@, text@),
{
    match regex::Regex::new(pattern) {
        Ok(re) => Some(re.is_match(text)),
        Err(_) => None,
    }
}

/// How many matches of `pattern` follow one another in `text` without
/// overlap; `None` where `pattern` does not compile.
pub uninterp spec fn regex_matches(pattern: Seq<char>, text: Seq<char>) -> Option<usize>;

/// `regex::Regex::new` followed by `Regex::find_iter` and a count. The claim
/// is that the number depends on the pattern and the text alone.
#[verifier::external_body]
pub(crate) fn regex_count(pattern: &str, text: &str) -> (r: Option<usize>)
    ensures
        r == regex_matches(pattern@, text@),
{
    match regex::Regex::new(pattern) {
        Ok(re) => Some(re.find_iter(text).count()),
        Err(_) => None,
    }
}

/// The byte index behind the first match of `pattern` in `text`; `None` where
/// there is no match or `pattern` does not compile.
pub uninterp spec fn regex_end(pattern: Seq<char>, text: Seq<char>) -> Option<usize>;

/// `regex::Regex::new` followed by `Regex::find` and `Match::end`. The claims
/// are that the index depends on the pattern and the text alone and that it
/// is a character boundary of the text.
#[verifier::external_body]
pub(crate) fn regex_find_end(pattern: &str, text: &str) -> (r: Option<usize>)
    ensures
        r == regex_end(pattern@, text@),
        r matches Some(end) ==> end <= encode_utf8(text@).len() && is_char_boundary(
            encode_utf8(text@),
            end as int,
        ),
{
    match regex::Regex::new(pattern) {
        Ok(re) => re.find(text).map(|m| m.end()),
        Err(_) => None,
    }
}

/// The message of the error with which the `regex` crate refuses a pattern for
/// byte strings; `None` where it accepts the pattern.
pub uninterp spec fn bytes_regex_error(pattern: Seq<char>, ignore_case: bool) -> Option<Seq<char>>;

/// `regex::bytes::RegexBuilder::build`. The claim is that success and the
/// message depend on the pattern and the case flag alone.
#[verifier::external_body]
pub(crate) fn check_bytes_regex(pattern: &str, ignore_case: bool) -> (r: Option<String>)
    ensures
        (match r {
            Some(s) => Some(s@),
            None => None,
        }) == bytes_regex_error(pattern@, ignore_case),
{
    match regex::bytes::RegexBuilder::new(pattern).case_insensitive(ignore_case).build() {
        Ok(_) => None,
        Err(e) => Some(e.to_string()),
    }
}

/// Whether `pattern` matches somewhere in a byte string; false where the
/// pattern is refused.
pub uninterp spec fn bytes_regex_found(
    pattern: Seq<char>,
    ignore_case: bool,
    bytes: Seq<u8>,
) -> bool;

/// `regex::bytes::RegexBuilder::build` followed by `Regex::is_match`. The
/// claim is that the answer depends on the pattern, the case flag and the
/// bytes alone.
#[verifier::external_body]
pub(crate) fn bytes_regex_is_match(pattern: &str, ignore_case: bool, bytes: &[u8]) -> (r: bool)
    ensures
        r == bytes_regex_found(pattern@, ignore_case, bytes@),
{
    match regex::bytes::RegexBuilder::new(pattern).case_insensitive(ignore_case).build() {
        Ok(re) => re.is_match(bytes),
        Err(_) => false,
    }
}

/// A character that has a meaning of its own in a regular expression.
pub open spec fn is_meta(c: char) -> bool {
    "\\.+*?()|[]{}^$#&-~"@.contains(c)
}

/// The pattern that matches a text literally: a backslash stands before each
/// character that has a meaning of its own.
pub open spec fn regex_escaped(text: Seq<char>) -> Seq<char>
    decreases text.len(),
{
    if text.len() == 0 {
        Seq::empty()
    } else if is_meta(text.last()) {
        regex_escaped(text.drop_last()).push('\\').push(text.last())
    } else {
        regex_escaped(text.drop_last()).push(text.last())
    }
}

/// `regex::escape`: it copies the text and puts a backslash before each
/// character that has a meaning of its own.
#[verifier::external_body]
pub(crate) fn regex_escape(text: &str) -> (r: String)
    ensures
        r@ == regex_escaped(text@),
{
    regex::escape(text)
}

} // verus!
