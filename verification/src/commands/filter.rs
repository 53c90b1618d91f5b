//! The `filter` command.
use vstd::prelude::*;

use crate::cli::FilterArgs;
use crate::error::Error;
use crate::predicate::{asked_predicate, build_error, passes_predicate, selected};
use crate::record::{stream_view, StreamRecord};

verus! {

/// The records that match, in their order, or why the predicate cannot be
/// compiled.
pub fn run(args: &FilterArgs, records: Vec<StreamRecord>) -> (r: Result<Vec<StreamRecord>, Error>)
    ensures
        match r {
            Ok(kept) => build_error(args.predicate) is None && stream_view(kept@) == selected(
                stream_view(records@),
                asked_predicate(args.predicate),
            ),
            Err(e) => build_error(args.predicate) == Some(e@),
        },
{
    let predicate = match args.predicate.build() {
        Ok(p) => p,
        Err(e) => return Err(e),
    };
    let ghost source = records@;
    let ghost all = stream_view(source);
    let mut kept: Vec<StreamRecord> = Vec::new();
    proof {
        reveal(Seq::filter);
    }
    assert(all.take(0) =~= Seq::empty());
    assert(stream_view(kept@) =~= selected(all.take(0), predicate@));
    for record in it: records
        invariant
            it.seq() == source,
            all == stream_view(source),
            stream_view(kept@) == selected(all.take(it.index() as int), predicate@),
    {
        let ghost i = it.index();
        let ghost before = stream_view(kept@);
        proof {
            reveal(Seq::filter);
            assert(all.take(i + 1).drop_last() =~= all.take(i));
            assert(all[i] == record@);
        }
        if predicate.matches(&record) {
            kept.push(record);
            assert(stream_view(kept@) =~= before.push(record@));
        }
    }
    assert(all.take(source.len() as int) =~= all);
    Ok(kept)
}

/// Records can be filtered piece by piece.
pub proof fn law_filtering_in_pieces(
    a: Seq<crate::record::RecordModel>,
    b: Seq<crate::record::RecordModel>,
    p: crate::predicate::PredicateModel,
)
    ensures
        selected(a + b, p) == selected(a, p) + selected(b, p),
{
    Seq::filter_distributes_over_add(a, b, passes_predicate(p));
}

/// Filtering once more changes nothing, and no record is added.
pub proof fn law_filtering_is_idempotent(
    records: Seq<crate::record::RecordModel>,
    p: crate::predicate::PredicateModel,
)
    ensures
        selected(selected(records, p), p) == selected(records, p),
        selected(records, p).len() <= records.len(),
    decreases records.len(),
{
    reveal(Seq::filter);
    if records.len() > 0 {
        law_filtering_is_idempotent(records.drop_last(), p);
        let kept = selected(records, p);
        let before = selected(records.drop_last(), p);
        if passes_predicate(p)(records.last()) {
            assert(kept.drop_last() =~= before);
        }
    }
}

} // verus!
