//! Identifiers as text.
use vstd::prelude::*;

use crate::text::numbers::{hex_encode, hex_text};

verus! {

/// The bytes of an identifier in lower-case hexadecimal.
pub fn encode(bytes: &[u8]) -> (r: String)
    ensures
        r@ == hex_text(bytes@),
{
    hex_encode(bytes)
}

} // verus!
