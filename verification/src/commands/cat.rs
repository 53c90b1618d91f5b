//! The `cat` command.
use vstd::prelude::*;

use crate::cli::CatArgs;
use crate::error::{Error, ErrorModel};

verus! {

/// `cat` is not supported yet.
pub fn run(_args: CatArgs) -> (r: Result<(), Error>)
    ensures
        r is Err,
        r->Err_0@ == ErrorModel::Unimplemented(
            "cat is not implemented yet; the CLI shape is defined but record rendering still needs to be added"@,
        ),
{
    Err(
        Error::Unimplemented(
            "cat is not implemented yet; the CLI shape is defined but record rendering still needs to be added",
        ),
    )
}

} // verus!
