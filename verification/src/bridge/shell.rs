//! Shell words.
use vstd::prelude::*;

use crate::text::strings::texts;

verus! {

/// The words of a shell command line; `None` where a quotation or an escape
/// is left open.
pub uninterp spec fn shell_words(text: Seq<char>) -> Option<Seq<Seq<char>>>;

/// `shlex::split`. The claim is that success and the words depend on the text
/// alone.
#[verifier::external_body]
pub(crate) fn split_shell(text: &str) -> (r: Option<Vec<String>>)
    ensures
        (match r {
            Some(v) => Some(texts(v@)),
            None => None,
        }) == shell_words(text@),
{
    shlex::split(text)
}

} // verus!
