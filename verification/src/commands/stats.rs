//! The `stats` command.
use vstd::prelude::*;

use crate::cli::StatsArgs;
use crate::error::{Error, ErrorModel};

verus! {

/// `stats` is not supported yet.
pub fn run(_args: StatsArgs) -> (r: Result<(), Error>)
    ensures
        r is Err,
        r->Err_0@ == ErrorModel::Unimplemented(
            "stats is not implemented yet; the CLI shape is defined but streaming summaries still need to be added"@,
        ),
{
    Err(
        Error::Unimplemented(
            "stats is not implemented yet; the CLI shape is defined but streaming summaries still need to be added",
        ),
    )
}

} // verus!
