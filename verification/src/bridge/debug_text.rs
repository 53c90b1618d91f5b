//! Quoted texts in messages.
use vstd::prelude::*;

verus! {

/// A text in quotes, with the characters escaped that cannot be shown.
pub uninterp spec fn debug_quoted(s: Seq<char>) -> Seq<char>;

/// `format!("{:?}", s)` for a text. The claim is that the quoted text depends
/// on the text alone.
#[verifier::external_body]
pub(crate) fn debug_quote(s: &str) -> (r: String)
    ensures
        r@ == debug_quoted(s@),
{
    format!("{:?}", s)
}

} // verus!
