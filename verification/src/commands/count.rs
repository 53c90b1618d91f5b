//! The `count` command.
use vstd::prelude::*;

use crate::cli::CountArgs;
use crate::error::Error;
use crate::predicate::{asked_predicate, build_error, selected};
use crate::record::{stream_view, StreamRecord};

verus! {

/// How many of the records match, or why the predicate cannot be compiled.
pub fn run(args: &CountArgs, records: &Vec<StreamRecord>) -> (r: Result<u64, Error>)
    ensures
        match r {
            Ok(count) => build_error(args.predicate) is None && count == selected(
                stream_view(records@),
                asked_predicate(args.predicate),
            ).len(),
            Err(e) => build_error(args.predicate) == Some(e@),
        },
{
    let predicate = match args.predicate.build() {
        Ok(p) => p,
        Err(e) => return Err(e),
    };
    let ghost all = stream_view(records@);
    let mut count: u64 = 0;
    proof {
        reveal(Seq::filter);
    }
    assert(all.take(0) =~= Seq::empty());
    for i in 0..records.len()
        invariant
            all == stream_view(records@),
            count <= i,
            count == selected(all.take(i as int), predicate@).len(),
    {
        proof {
            reveal(Seq::filter);
            assert(all.take(i + 1).drop_last() =~= all.take(i as int));
            assert(all[i as int] == records@[i as int]@);
        }
        if predicate.matches(&records[i]) {
            count = count + 1;
        }
    }
    assert(all.take(records@.len() as int) =~= all);
    Ok(count)
}

} // verus!
