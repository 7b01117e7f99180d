//! The decisions of the loops that poll until something has happened.
//!
//! Times are nanoseconds on a monotonic clock. A driver hands each function what
//! the last poll delivered and the time it is, does what comes back, and asks
//! again until it is told to stop.

use vstd::prelude::*;

use crate::readiness::{
    Event, Readiness, Token, law_one_event_reports, mentioned, mentions, reported, reports,
    reports_writable,
};
use crate::turns::{first_stop, lemma_first_stop, lemma_stops_at};

verus! {

/// How long a loop may take altogether: thirty seconds.
pub const TIMEOUT: u64 = 30_000_000_000;

/// How long one poll of `reap_all` may take: a hundred milliseconds.
pub const REAP_SLICE: u64 = 100_000_000;

/// How long one poll of `reap_until_done` may take: ten milliseconds.
pub const JOIN_SLICE: u64 = 10_000_000;

/// How often `settle` polls.
pub const SETTLE_POLLS: usize = 10;

/// How long one poll of `settle` may take: a hundred milliseconds.
pub const SETTLE_SLICE: u64 = 100_000_000;

/// What a loop that waits for an event does next.
#[derive(Clone, Copy, Debug, PartialEq, Eq, Structural)]
pub enum Wait {
    /// The event has come.
    Found,
    /// Poll, for this long at most.
    Poll(u64),
    /// The deadline has passed without the event.
    TimedOut,
}

/// What a loop that waits for the operations in flight does next.
#[derive(Clone, Copy, Debug, PartialEq, Eq, Structural)]
pub enum Reap {
    /// Nothing is in flight any more.
    Done,
    /// Poll, for this long at most.
    Poll(u64),
    /// The deadline has passed, and this many operations are still in flight.
    StillInFlight(usize),
}

/// What a loop that keeps a poll going for a reader does next.
#[derive(Clone, Copy, Debug, PartialEq, Eq, Structural)]
pub enum Join {
    /// The reader has finished: join it.
    Join,
    /// Poll, for this long at most.
    Poll(u64),
}

/// The time at which a loop that starts at `start` gives up.
pub fn deadline(start: u64) -> (at: u64)
    requires
        start + TIMEOUT <= u64::MAX,
    ensures
        at == start + TIMEOUT,
{
    start + TIMEOUT
}

/// The batch that the last poll delivered, if there was a poll.
pub open spec fn batch(last: Option<&[Event]>) -> Option<Seq<Event>> {
    match last {
        Some(events) => Some(events@),
        None => None,
    }
}

/// The last poll has reported `token` to be ready for `ready`. Before the first
/// poll nothing has been reported.
pub open spec fn has_reported(last: Option<Seq<Event>>, token: Token, ready: Readiness) -> bool {
    match last {
        Some(events) => reported(events, token, ready),
        None => false,
    }
}

/// The decision of `wait_for`.
pub open spec fn wait_decision(
    last: Option<Seq<Event>>,
    token: Token,
    ready: Readiness,
    deadline: u64,
    now: u64,
) -> Wait {
    if has_reported(last, token, ready) {
        Wait::Found
    } else if now < deadline {
        Wait::Poll((deadline - now) as u64)
    } else {
        Wait::TimedOut
    }
}

/// Polls until `token` reports `ready`. `last` is what the last poll delivered,
/// and `None` before the first one, whatever an earlier loop may have polled. Each
/// poll may take as long as is left until the deadline.
pub fn wait_for(
    last: Option<&[Event]>,
    token: Token,
    ready: Readiness,
    deadline: u64,
    now: u64,
) -> (next: Wait)
    ensures
        next == wait_decision(batch(last), token, ready, deadline, now),
{
    let found = match last {
        Some(events) => reports(events, token, ready),
        None => false,
    };
    if found {
        Wait::Found
    } else if now < deadline {
        Wait::Poll(deadline - now)
    } else {
        Wait::TimedOut
    }
}

/// Polls until `token` reports that it is writable.
pub fn wait_writable(last: Option<&[Event]>, token: Token, deadline: u64, now: u64) -> (next: Wait)
    ensures
        next == wait_decision(batch(last), token, Readiness::spec_writable(), deadline, now),
{
    let found = match last {
        Some(events) => reports_writable(events, token),
        None => false,
    };
    if found {
        Wait::Found
    } else if now < deadline {
        Wait::Poll(deadline - now)
    } else {
        Wait::TimedOut
    }
}

/// What a loop without a deadline does next.
#[derive(Clone, Copy, Debug, PartialEq, Eq, Structural)]
pub enum Untimed {
    /// Poll, for as long as it takes.
    Poll,
    /// Stop.
    Stop,
}

/// The decision of `wait_any`.
pub open spec fn any_decision(last: Option<Seq<Event>>) -> Untimed {
    match last {
        Some(events) => if events.len() > 0 {
            Untimed::Stop
        } else {
            Untimed::Poll
        },
        None => Untimed::Poll,
    }
}

/// Polls until something is ready.
pub fn wait_any(last: Option<&[Event]>) -> (next: Untimed)
    ensures
        next == any_decision(batch(last)),
{
    match last {
        Some(events) => {
            if events.len() > 0 {
                Untimed::Stop
            } else {
                Untimed::Poll
            }
        },
        None => Untimed::Poll,
    }
}

/// The decision of `wait_for_token`.
pub open spec fn token_decision(last: Option<Seq<Event>>, token: Token) -> Untimed {
    match last {
        Some(events) => if mentioned(events, token) {
            Untimed::Stop
        } else {
            Untimed::Poll
        },
        None => Untimed::Poll,
    }
}

/// Polls until an event of `token` comes, whatever it is ready for.
pub fn wait_for_token(last: Option<&[Event]>, token: Token) -> (next: Untimed)
    ensures
        next == token_decision(batch(last), token),
{
    match last {
        Some(events) => {
            if mentions(events, token) {
                Untimed::Stop
            } else {
                Untimed::Poll
            }
        },
        None => Untimed::Poll,
    }
}

/// The decision of `settle`.
pub open spec fn settle_decision(polls: usize) -> Option<u64> {
    if polls < SETTLE_POLLS {
        Some(SETTLE_SLICE)
    } else {
        None
    }
}

/// Polls a fixed number of times, so that the completion of a cancelled operation
/// can be delivered. `polls` is how often was polled already; what comes back is
/// how long the next poll may take, if there is to be one.
pub fn settle(polls: usize) -> (timeout: Option<u64>)
    ensures
        timeout == settle_decision(polls),
{
    if polls < SETTLE_POLLS {
        Some(SETTLE_SLICE)
    } else {
        None
    }
}

/// The decision of `reap_all`.
pub open spec fn reap_decision(pending: usize, deadline: u64, now: u64) -> Reap {
    if pending == 0 {
        Reap::Done
    } else if now < deadline {
        Reap::Poll(REAP_SLICE)
    } else {
        Reap::StillInFlight(pending)
    }
}

/// Polls until every operation in flight has been reaped. `pending` is the
/// number of them.
pub fn reap_all(pending: usize, deadline: u64, now: u64) -> (next: Reap)
    ensures
        next == reap_decision(pending, deadline, now),
{
    if pending == 0 {
        Reap::Done
    } else if now < deadline {
        Reap::Poll(REAP_SLICE)
    } else {
        Reap::StillInFlight(pending)
    }
}

/// The decision of `reap_until_done`.
pub open spec fn join_decision(finished: bool) -> Join {
    if finished {
        Join::Join
    } else {
        Join::Poll(JOIN_SLICE)
    }
}

/// Keeps polling while a reader runs, then joins it.
pub fn reap_until_done(finished: bool) -> (next: Join)
    ensures
        next == join_decision(finished),
{
    if finished {
        Join::Join
    } else {
        Join::Poll(JOIN_SLICE)
    }
}

/// The number of polls that a loop makes which asks this often whether its reader
/// has finished.
pub open spec fn join_polls(finished: Seq<bool>) -> nat {
    first_stop(finished.map_values(|f: bool| join_decision(f)), |next: Join| next is Poll)
}

/// A loop joins its reader after exactly `k` polls when the reader has finished by
/// then and had not before any of the polls.
pub proof fn law_joins(finished: Seq<bool>, k: int)
    requires
        0 <= k < finished.len(),
    ensures
        join_polls(finished) == k && join_decision(finished[join_polls(finished) as int]) is Join
            <==> finished[k] && forall|j: int| 0 <= j < k ==> !#[trigger] finished[j],
{
    let decisions = finished.map_values(|f: bool| join_decision(f));
    let goes_on = |next: Join| next is Poll;
    lemma_first_stop(decisions, goes_on);
    assert forall|j: int| 0 <= j < join_polls(finished) implies !#[trigger] finished[j] by {
        assert(goes_on(decisions[j]));
    }
    if finished[k] && forall|j: int| 0 <= j < k ==> !#[trigger] finished[j] {
        assert forall|j: int| 0 <= j < k implies goes_on(#[trigger] decisions[j]) by {
            assert(!finished[j]);
        }
        lemma_stops_at(decisions, goes_on, k);
    }
}

/// One turn of a waiting loop: what the last poll delivered, and the time.
pub struct WaitTurn {
    /// What the last poll delivered, if there was one.
    pub last: Option<Seq<Event>>,
    /// The time.
    pub now: u64,
}

/// One turn of a reaping loop: the number of operations in flight, and the time.
pub struct ReapTurn {
    /// The number of operations in flight.
    pub pending: usize,
    /// The time.
    pub now: u64,
}

/// The turns of a loop that polls in between: the first comes before any poll,
/// and every other one after a poll.
pub open spec fn wait_turns(turns: Seq<WaitTurn>) -> bool {
    &&& turns.len() > 0
    &&& turns[0].last is None
    &&& forall|j: int| 0 < j < turns.len() ==> (#[trigger] turns[j]).last is Some
}

/// The decisions of a waiting loop, turn by turn.
pub open spec fn wait_decisions(
    turns: Seq<WaitTurn>,
    token: Token,
    ready: Readiness,
    deadline: u64,
) -> Seq<Wait> {
    turns.map_values(
        |turn: WaitTurn| wait_decision(turn.last, token, ready, deadline, turn.now),
    )
}

/// The number of polls that a waiting loop makes before it stops.
pub open spec fn wait_polls(
    turns: Seq<WaitTurn>,
    token: Token,
    ready: Readiness,
    deadline: u64,
) -> nat {
    first_stop(wait_decisions(turns, token, ready, deadline), |next: Wait| next is Poll)
}

/// How a waiting loop stands when it stops.
pub open spec fn wait_outcome(
    turns: Seq<WaitTurn>,
    token: Token,
    ready: Readiness,
    deadline: u64,
) -> Wait {
    wait_decisions(turns, token, ready, deadline)[wait_polls(
        turns,
        token,
        ready,
        deadline,
    ) as int]
}

/// The decisions of a reaping loop, turn by turn.
pub open spec fn reap_decisions(turns: Seq<ReapTurn>, deadline: u64) -> Seq<Reap> {
    turns.map_values(|turn: ReapTurn| reap_decision(turn.pending, deadline, turn.now))
}

/// The number of polls that a reaping loop makes before it stops.
pub open spec fn reap_polls(turns: Seq<ReapTurn>, deadline: u64) -> nat {
    first_stop(reap_decisions(turns, deadline), |next: Reap| next is Poll)
}

/// How a reaping loop stands when it stops.
pub open spec fn reap_outcome(turns: Seq<ReapTurn>, deadline: u64) -> Reap {
    reap_decisions(turns, deadline)[reap_polls(turns, deadline) as int]
}

/// In each of the first `k` turns there was time left, and none of them comes
/// after a poll that reported the token ready.
pub open spec fn keeps_waiting(
    turns: Seq<WaitTurn>,
    token: Token,
    ready: Readiness,
    deadline: u64,
    k: int,
) -> bool {
    forall|j: int|
        0 <= j < k ==> (#[trigger] turns[j]).now < deadline && !has_reported(
            turns[j].last,
            token,
            ready,
        )
}

/// In each of the first `k` turns there was time left and something in flight.
pub open spec fn keeps_reaping(turns: Seq<ReapTurn>, deadline: u64, k: int) -> bool {
    forall|j: int|
        0 <= j < k ==> (#[trigger] turns[j]).now < deadline && turns[j].pending != 0
}

/// A waiting loop finds its event after exactly `k` polls, at least one, when the
/// `k`th poll is the first to report the token ready and there was time left before
/// each poll. It times out after exactly `k` polls when none of them reported the
/// token ready and the time was up then and not before. What an earlier loop polled
/// plays no part, and no poll may go on past the deadline.
pub proof fn law_wait_ends(
    turns: Seq<WaitTurn>,
    token: Token,
    ready: Readiness,
    deadline: u64,
    k: int,
)
    requires
        wait_turns(turns),
        0 <= k < turns.len(),
    ensures
        wait_outcome(turns, token, ready, deadline) is Found && wait_polls(
            turns,
            token,
            ready,
            deadline,
        ) == k <==> {
            &&& k >= 1
            &&& reported(turns[k].last->0, token, ready)
            &&& keeps_waiting(turns, token, ready, deadline, k)
        },
        wait_outcome(turns, token, ready, deadline) is TimedOut && wait_polls(
            turns,
            token,
            ready,
            deadline,
        ) == k <==> {
            &&& turns[k].now >= deadline
            &&& k >= 1 ==> !reported(turns[k].last->0, token, ready)
            &&& keeps_waiting(turns, token, ready, deadline, k)
        },
        forall|j: int|
            0 <= j < wait_polls(turns, token, ready, deadline) ==> #[trigger] wait_decisions(
                turns,
                token,
                ready,
                deadline,
            )[j] == Wait::Poll((deadline - turns[j].now) as u64),
{
    let decisions = wait_decisions(turns, token, ready, deadline);
    let goes_on = |next: Wait| next is Poll;
    lemma_first_stop(decisions, goes_on);
    let stop = wait_polls(turns, token, ready, deadline);
    assert(keeps_waiting(turns, token, ready, deadline, stop as int)) by {
        assert forall|j: int| 0 <= j < stop implies (#[trigger] turns[j]).now < deadline
            && !has_reported(turns[j].last, token, ready) by {
            assert(goes_on(decisions[j]));
        }
    }
    assert(k >= 1 ==> turns[k].last is Some);
    if keeps_waiting(turns, token, ready, deadline, k) && !goes_on(decisions[k]) {
        assert forall|j: int| 0 <= j < k implies goes_on(#[trigger] decisions[j]) by {
            assert(turns[j].now < deadline);
        }
        lemma_stops_at(decisions, goes_on, k);
    }
    assert forall|j: int| 0 <= j < stop implies #[trigger] decisions[j] == Wait::Poll(
        (deadline - turns[j].now) as u64,
    ) by {
        assert(goes_on(decisions[j]));
    }
}

/// A reaping loop is done after exactly `k` polls when nothing is in flight then,
/// and something was and there was time left before each poll. It gives up after
/// exactly `k` polls when something is still in flight then and the time is up.
pub proof fn law_reap_ends(turns: Seq<ReapTurn>, deadline: u64, k: int)
    requires
        0 <= k < turns.len(),
    ensures
        reap_outcome(turns, deadline) is Done && reap_polls(turns, deadline) == k <==> turns[k].pending
            == 0 && keeps_reaping(turns, deadline, k),
        reap_outcome(turns, deadline) is StillInFlight && reap_polls(turns, deadline) == k <==> {
            &&& turns[k].pending != 0
            &&& turns[k].now >= deadline
            &&& keeps_reaping(turns, deadline, k)
        },
{
    let decisions = reap_decisions(turns, deadline);
    let goes_on = |next: Reap| next is Poll;
    lemma_first_stop(decisions, goes_on);
    let stop = reap_polls(turns, deadline);
    assert(keeps_reaping(turns, deadline, stop as int)) by {
        assert forall|j: int| 0 <= j < stop implies (#[trigger] turns[j]).now < deadline
            && turns[j].pending != 0 by {
            assert(goes_on(decisions[j]));
        }
    }
    if keeps_reaping(turns, deadline, k) && !goes_on(decisions[k]) {
        assert forall|j: int| 0 <= j < k implies goes_on(#[trigger] decisions[j]) by {
            assert(turns[j].now < deadline);
        }
        lemma_stops_at(decisions, goes_on, k);
    }
}

/// A batch is what the last poll delivered, event by event, and there is none before the
/// first poll.
pub proof fn law_batch(events: &[Event])
    ensures
        batch(None) is None,
        batch(Some(events)) == Some(events@),
{
}

/// A wait is over exactly when one event of the last batch is for the token and lacks no
/// bit of what is waited for, and before the first poll it is never over. As long as it is
/// not over the loop polls while there is time, up to the deadline and not beyond, and
/// gives up as soon as there is none.
pub proof fn law_wait_found(
    last: Option<Seq<Event>>,
    token: Token,
    ready: Readiness,
    deadline: u64,
    now: u64,
)
    ensures
        ({
            let next = wait_decision(last, token, ready, deadline, now);
            &&& last is None ==> !(next is Found)
            &&& last matches Some(events) ==> (next is Found <==> exists|i: int|
                0 <= i < events.len() && (#[trigger] events[i]).token == token && ready.bits
                    & !events[i].readiness.bits == 0)
            &&& last matches Some(events) ==> (forall|i: int|
                0 <= i < events.len() && (#[trigger] events[i]).token == token ==> ready.bits
                    & !events[i].readiness.bits != 0) ==> !(next is Found)
            &&& next matches Wait::Poll(timeout) ==> timeout > 0 && now + timeout == deadline
            &&& next is TimedOut ==> deadline <= now
            &&& now < deadline ==> next is Found || next is Poll
            &&& deadline <= now ==> next is Found || next is TimedOut
        }),
{
    if let Some(events) = last {
        law_one_event_reports(events, token, ready);
    }
}

/// A reaping loop is done exactly when nothing is in flight, whatever the time. As long as
/// something is it polls for a tenth of a second at a time while there is time, and gives
/// up as soon as there is none, with the number of operations that are left.
pub proof fn law_reap_tells(pending: usize, deadline: u64, now: u64)
    ensures
        reap_decision(pending, deadline, now) is Done <==> pending == 0,
        pending > 0 && now < deadline ==> reap_decision(pending, deadline, now) == Reap::Poll(
            100_000_000,
        ),
        pending > 0 && deadline <= now ==> reap_decision(pending, deadline, now)
            == Reap::StillInFlight(pending),
{
}

/// A reader is joined exactly when it has finished, and until then the loop polls for ten
/// milliseconds at a time.
pub proof fn law_join_tells(finished: bool)
    ensures
        join_decision(finished) is Join <==> finished,
        !finished ==> join_decision(finished) == Join::Poll(10_000_000),
{
}

/// A loop without a deadline that waits for anything stops exactly when the last batch holds
/// an event, and one that waits for a token exactly when the last batch holds an event of
/// it, whatever that is ready for. Neither stops before the first poll.
pub proof fn law_untimed_stops(last: Option<Seq<Event>>, token: Token)
    ensures
        any_decision(last) is Stop <==> (last matches Some(events) && events.len() > 0),
        last is None ==> token_decision(last, token) is Poll,
        last matches Some(events) ==> (token_decision(last, token) is Stop <==> exists|i: int|
            0 <= i < events.len() && (#[trigger] events[i]).token == token),
        token_decision(last, token) is Stop ==> any_decision(last) is Stop,
{
    if let Some(events) = last {
        law_one_event_reports(events, token, Readiness::spec_empty());
    }
}

/// What is cancelled has ten polls of a tenth of a second to be delivered, no more and no
/// less, and a loop with a deadline has thirty seconds.
pub proof fn law_times(polls: usize)
    ensures
        settle_decision(polls) is Some <==> polls < 10,
        settle_decision(polls) matches Some(timeout) ==> timeout == 100_000_000,
        TIMEOUT == 30 * 1_000_000_000,
{
}

} // verus!
