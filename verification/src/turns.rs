//! Where a loop stops that asks for a decision in every turn.

use vstd::prelude::*;

verus! {

/// The turn at which a loop stops that goes on as long as its decisions say so:
/// the first turn whose decision does not, or the last turn there is. Before it
/// come exactly as many turns whose decision was to go on.
pub open spec fn first_stop<D>(decisions: Seq<D>, goes_on: spec_fn(D) -> bool) -> nat
    decreases decisions.len(),
{
    if decisions.len() <= 1 || !goes_on(decisions.first()) {
        0
    } else {
        1 + first_stop(decisions.drop_first(), goes_on)
    }
}

/// Every decision before the stop is to go on, and the stop's own is not unless
/// there are no more turns. No other turn is like that.
pub proof fn lemma_first_stop<D>(decisions: Seq<D>, goes_on: spec_fn(D) -> bool)
    requires
        decisions.len() > 0,
    ensures
        first_stop(decisions, goes_on) < decisions.len(),
        forall|j: int|
            0 <= j < first_stop(decisions, goes_on) ==> goes_on(#[trigger] decisions[j]),
        goes_on(decisions[first_stop(decisions, goes_on) as int]) ==> first_stop(
            decisions,
            goes_on,
        ) == decisions.len() - 1,
    decreases decisions.len(),
{
    if decisions.len() > 1 && goes_on(decisions.first()) {
        let rest = decisions.drop_first();
        lemma_first_stop(rest, goes_on);
        assert forall|j: int| 0 <= j < first_stop(decisions, goes_on) implies goes_on(
            #[trigger] decisions[j],
        ) by {
            if j > 0 {
                assert(rest[j - 1] == decisions[j]);
            }
        }
    }
}

/// A turn that does not go on, after turns that all do, is the stop.
pub proof fn lemma_stops_at<D>(decisions: Seq<D>, goes_on: spec_fn(D) -> bool, k: int)
    requires
        0 <= k < decisions.len(),
        !goes_on(decisions[k]),
        forall|j: int| 0 <= j < k ==> goes_on(#[trigger] decisions[j]),
    ensures
        first_stop(decisions, goes_on) == k,
{
    lemma_first_stop(decisions, goes_on);
    let stop = first_stop(decisions, goes_on) as int;
    if stop < k {
        assert(goes_on(decisions[stop]));
    }
    if k < stop {
        assert(goes_on(decisions[k]));
    }
}

} // verus!
