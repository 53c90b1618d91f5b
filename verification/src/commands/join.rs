//! The `join` command.
use vstd::prelude::*;

use crate::cli::JoinArgs;
use crate::error::{Error, ErrorModel};

verus! {

/// `join` is not supported yet.
pub fn run(_args: JoinArgs) -> (r: Result<(), Error>)
    ensures
        r is Err,
        r->Err_0@ == ErrorModel::Unimplemented(
            "join is not implemented yet; the CLI shape is defined but ordered multi-segment merging still needs to be added"@,
        ),
{
    Err(
        Error::Unimplemented(
            "join is not implemented yet; the CLI shape is defined but ordered multi-segment merging still needs to be added",
        ),
    )
}

} // verus!
