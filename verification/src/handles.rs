//! Whether a round of work left handles behind.
//!
//! The number of handles of a process is shared by everything that runs in it,
//! so a single round that ends above where it started proves nothing. A round is
//! repeated until one falls into a quiet window.

use crate::turns::{first_stop, lemma_first_stop, lemma_stops_at};
use vstd::prelude::*;

verus! {

/// How long to rest between two rounds: fifty milliseconds.
pub const REST: u64 = 50_000_000;

/// What `handle_count` returns.
pub open spec fn counted_handles(ok: i32, count: u32) -> Option<u32> {
    if ok != 0 {
        Some(count)
    } else {
        None
    }
}

/// The number of handles, where the call that asks for it succeeded. `ok` is
/// what the call returned, and `count` what it stored.
pub fn handle_count(ok: i32, count: u32) -> (handles: Option<u32>)
    ensures
        handles == counted_handles(ok, count),
{
    if ok != 0 {
        Some(count)
    } else {
        None
    }
}

/// What a loop that repeats a round does next.
#[derive(Clone, Copy, Debug, PartialEq, Eq, Structural)]
pub enum Window {
    /// The round left nothing behind.
    Quiet,
    /// Rest for this long, then repeat the round.
    Rest(u64),
    /// The deadline has passed, and the last round grew the number of handles.
    Grew {
        /// The number before the round.
        before: u32,
        /// The number after it.
        after: u32,
    },
}

/// The decision of `quiet_window`.
pub open spec fn window_decision(before: u32, after: u32, deadline: u64, now: u64) -> Window {
    if after <= before {
        Window::Quiet
    } else if now < deadline {
        Window::Rest(REST)
    } else {
        Window::Grew { before, after }
    }
}

/// Repeats a round until it ends no higher than it started.
pub fn quiet_window(before: u32, after: u32, deadline: u64, now: u64) -> (next: Window)
    ensures
        next == window_decision(before, after, deadline, now),
{
    if after <= before {
        Window::Quiet
    } else if now < deadline {
        Window::Rest(REST)
    } else {
        Window::Grew { before, after }
    }
}

/// A round as `quiet_window` sees it.
pub struct Round {
    /// The number of handles before the round.
    pub before: u32,
    /// The number after it.
    pub after: u32,
    /// The time when the round had ended.
    pub now: u64,
}

/// The decisions of a loop that repeats a round.
pub open spec fn window_decisions(rounds: Seq<Round>, deadline: u64) -> Seq<Window> {
    rounds.map_values(
        |round: Round| window_decision(round.before, round.after, deadline, round.now),
    )
}

/// The number of times that a loop rests before it stops.
pub open spec fn window_rests(rounds: Seq<Round>, deadline: u64) -> nat {
    first_stop(window_decisions(rounds, deadline), |next: Window| next is Rest)
}

/// How a loop stands when it stops.
pub open spec fn window_outcome(rounds: Seq<Round>, deadline: u64) -> Window {
    window_decisions(rounds, deadline)[window_rests(rounds, deadline) as int]
}

/// Each of the first `k` rounds grew the number of handles and ended in time.
pub open spec fn keeps_growing(rounds: Seq<Round>, deadline: u64, k: int) -> bool {
    forall|j: int|
        0 <= j < k ==> (#[trigger] rounds[j]).before < rounds[j].after && rounds[j].now < deadline
}

/// A loop finds a quiet window after exactly `k` rests when that round is the first
/// not to grow the number of handles and every one before it ended in time. It
/// gives up after exactly `k` rests when every round grew the number and that one
/// is the first to end too late.
pub proof fn law_window_ends(rounds: Seq<Round>, deadline: u64, k: int)
    requires
        0 <= k < rounds.len(),
    ensures
        window_outcome(rounds, deadline) is Quiet && window_rests(rounds, deadline) == k
            <==> rounds[k].after <= rounds[k].before && keeps_growing(rounds, deadline, k),
        window_outcome(rounds, deadline) is Grew && window_rests(rounds, deadline) == k
            <==> rounds[k].before < rounds[k].after && deadline <= rounds[k].now && keeps_growing(
            rounds,
            deadline,
            k,
        ),
{
    let decisions = window_decisions(rounds, deadline);
    let goes_on = |next: Window| next is Rest;
    lemma_first_stop(decisions, goes_on);
    let stop = window_rests(rounds, deadline) as int;
    assert forall|j: int| 0 <= j < stop implies (#[trigger] rounds[j]).before < rounds[j].after
        && rounds[j].now < deadline by {
        assert(goes_on(decisions[j]));
    }
    if keeps_growing(rounds, deadline, k) && !goes_on(decisions[k]) {
        assert forall|j: int| 0 <= j < k implies goes_on(#[trigger] decisions[j]) by {
            assert(rounds[j].before < rounds[j].after);
        }
        lemma_stops_at(decisions, goes_on, k);
    }
}

/// A round is quiet exactly when it ends no higher than it started, whatever the time. One
/// that grew the number of handles is repeated after fifty milliseconds while there is
/// time, and told with both numbers as soon as there is none.
pub proof fn law_window_tells(before: u32, after: u32, deadline: u64, now: u64)
    ensures
        window_decision(before, after, deadline, now) is Quiet <==> after <= before,
        before < after && now < deadline ==> window_decision(before, after, deadline, now)
            == Window::Rest(50_000_000),
        before < after && deadline <= now ==> window_decision(before, after, deadline, now)
            == (Window::Grew { before, after }),
{
}

/// The call that asks for the number of handles has failed exactly if it returned zero, and
/// where it has not the number is what it stored.
pub proof fn law_handles_counted(ok: i32, count: u32)
    ensures
        counted_handles(ok, count) is None <==> ok == 0,
        counted_handles(ok, count) matches Some(handles) ==> handles == count,
{
}

} // verus!
