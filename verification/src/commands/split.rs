//! The `split` command.
use vstd::prelude::*;

use crate::cli::SplitArgs;
use crate::error::{Error, ErrorModel};

verus! {

/// `split` is not supported yet.
pub fn run(_args: SplitArgs) -> (r: Result<(), Error>)
    ensures
        r is Err,
        r->Err_0@ == ErrorModel::Unimplemented(
            "split is not implemented yet; the CLI shape is defined but block-preserving file partitioning still needs to be added"@,
        ),
{
    Err(
        Error::Unimplemented(
            "split is not implemented yet; the CLI shape is defined but block-preserving file partitioning still needs to be added",
        ),
    )
}

} // verus!
