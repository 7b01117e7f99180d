//! Readiness sets, events, and the questions that are asked of a batch of
//! events.
//!
//! A readiness set is held as the bits of an `mio::Ready`; the set operations
//! are those of mio. Which bit stands for what is up to the release of mio: the
//! contracts below hold of the one that the lock file names.

use vstd::prelude::*;

verus! {

/// The token that a socket is registered under.
#[derive(Clone, Copy, Debug, PartialEq, Eq, Structural)]
pub struct Token(pub usize);

/// A set of readiness kinds, as the bits of an `mio::Ready`.
#[derive(Clone, Copy, Debug, PartialEq, Eq, Structural)]
pub struct Readiness {
    /// The bits, as `mio::Ready::as_usize` gives them.
    pub bits: usize,
}

/// One event out of a poll.
#[derive(Clone, Copy, Debug, PartialEq, Eq, Structural)]
pub struct Event {
    /// The token of the socket that is ready.
    pub token: Token,
    /// What it is ready for.
    pub readiness: Readiness,
}

/// How a registration is triggered.
#[derive(Clone, Copy, Debug, PartialEq, Eq, Structural)]
pub enum Trigger {
    /// Once for each time that the readiness changes.
    Edge,
    /// As long as the readiness lasts.
    Level,
}

/// How a socket is registered with a poll.
#[derive(Clone, Copy, Debug, PartialEq, Eq, Structural)]
pub struct Registration {
    /// The token that it is registered under.
    pub token: Token,
    /// What it is registered for.
    pub interest: Readiness,
    /// How it is triggered.
    pub trigger: Trigger,
}

impl Registration {
    /// An edge-triggered registration.
    pub open spec fn spec_edge(token: Token, interest: Readiness) -> Registration {
        Registration { token, interest, trigger: Trigger::Edge }
    }

    /// Registers a socket under `token` and for `interest`, edge triggered.
    pub fn edge(token: Token, interest: Readiness) -> (registration: Registration)
        ensures
            registration == Registration::spec_edge(token, interest),
    {
        Registration { token, interest, trigger: Trigger::Edge }
    }
}

/// `mio::Ready::empty`: the set without a bit.
#[verifier::external_body]
fn mio_empty() -> (bits: usize)
    ensures
        bits == 0,
{
    mio::Ready::empty().as_usize()
}

/// `mio::Ready::readable`: the set whose one bit is the lowest.
#[verifier::external_body]
fn mio_readable() -> (bits: usize)
    ensures
        bits == 1,
{
    mio::Ready::readable().as_usize()
}

/// `mio::Ready::writable`: the set whose one bit is the second lowest.
#[verifier::external_body]
fn mio_writable() -> (bits: usize)
    ensures
        bits == 2,
{
    mio::Ready::writable().as_usize()
}

/// The `|` of `mio::Ready`: the bits that are in either set.
#[verifier::external_body]
fn mio_union(a: usize, b: usize) -> (bits: usize)
    ensures
        bits == a | b,
{
    (mio::Ready::from_usize(a) | mio::Ready::from_usize(b)).as_usize()
}

/// `mio::Ready::contains`: whether every bit of `other` is in `set`.
#[verifier::external_body]
fn mio_contains(set: usize, other: usize) -> (contained: bool)
    ensures
        contained == (set & other == other),
{
    mio::Ready::from_usize(set).contains(mio::Ready::from_usize(other))
}

/// `mio::Ready::is_writable`: whether the writable bit is in `set`.
#[verifier::external_body]
fn mio_is_writable(set: usize) -> (writable: bool)
    ensures
        writable == (set & 2 == 2),
{
    mio::Ready::from_usize(set).is_writable()
}

impl Readiness {
    /// The set that holds reading alone.
    pub open spec fn spec_readable() -> Readiness {
        Readiness { bits: 1 }
    }

    /// The set that holds writing alone.
    pub open spec fn spec_writable() -> Readiness {
        Readiness { bits: 2 }
    }

    /// The union of two sets.
    pub open spec fn spec_union(self, other: Readiness) -> Readiness {
        Readiness { bits: self.bits | other.bits }
    }

    /// `other` is a subset of this set.
    pub open spec fn covers(self, other: Readiness) -> bool {
        self.bits & other.bits == other.bits
    }

    /// The set that holds nothing.
    pub open spec fn spec_empty() -> Readiness {
        Readiness { bits: 0 }
    }

    /// Readiness for nothing.
    pub fn empty() -> (set: Readiness)
        ensures
            set == Readiness::spec_empty(),
    {
        Readiness { bits: mio_empty() }
    }

    /// Readiness for reading.
    pub fn readable() -> (set: Readiness)
        ensures
            set == Readiness::spec_readable(),
    {
        Readiness { bits: mio_readable() }
    }

    /// Readiness for writing.
    pub fn writable() -> (set: Readiness)
        ensures
            set == Readiness::spec_writable(),
    {
        Readiness { bits: mio_writable() }
    }

    /// Readiness for what either set holds.
    pub fn union(self, other: Readiness) -> (set: Readiness)
        ensures
            set == self.spec_union(other),
    {
        Readiness { bits: mio_union(self.bits, other.bits) }
    }

    /// Tests whether this set holds everything that `other` holds.
    pub fn contains(self, other: Readiness) -> (contained: bool)
        ensures
            contained == self.covers(other),
    {
        mio_contains(self.bits, other.bits)
    }

    /// Tests whether this set holds writing.
    pub fn is_writable(self) -> (writable: bool)
        ensures
            writable == self.covers(Readiness::spec_writable()),
    {
        mio_is_writable(self.bits)
    }
}

/// Some event of the batch is for `token` and ready for all of `ready`.
pub open spec fn reported(events: Seq<Event>, token: Token, ready: Readiness) -> bool {
    exists|i: int|
        0 <= i < events.len() && (#[trigger] events[i]).token == token
            && events[i].readiness.covers(ready)
}

/// Some event of the batch is for `token`, whatever it is ready for.
pub open spec fn mentioned(events: Seq<Event>, token: Token) -> bool {
    exists|i: int| 0 <= i < events.len() && (#[trigger] events[i]).token == token
}

/// Looks through a batch for an event of `token` that is ready for `ready`.
pub fn reports(events: &[Event], token: Token, ready: Readiness) -> (found: bool)
    ensures
        found == reported(events@, token, ready),
{
    let mut i: usize = 0;
    while i < events.len()
        invariant
            i <= events@.len(),
            forall|j: int|
                0 <= j < i ==> !((#[trigger] events@[j]).token == token
                    && events@[j].readiness.covers(ready)),
        decreases events@.len() - i,
    {
        let event = events[i];
        if event.token == token && event.readiness.contains(ready) {
            return true;
        }
        i += 1;
    }
    false
}

/// Looks through a batch for an event that says that `token` is writable.
pub fn reports_writable(events: &[Event], token: Token) -> (found: bool)
    ensures
        found == reported(events@, token, Readiness::spec_writable()),
{
    let mut i: usize = 0;
    while i < events.len()
        invariant
            i <= events@.len(),
            forall|j: int|
                0 <= j < i ==> !((#[trigger] events@[j]).token == token
                    && events@[j].readiness.covers(Readiness::spec_writable())),
        decreases events@.len() - i,
    {
        let event = events[i];
        if event.token == token && event.readiness.is_writable() {
            return true;
        }
        i += 1;
    }
    false
}

/// Looks through a batch for any event of `token`.
pub fn mentions(events: &[Event], token: Token) -> (found: bool)
    ensures
        found == mentioned(events@, token),
{
    let mut i: usize = 0;
    while i < events.len()
        invariant
            i <= events@.len(),
            forall|j: int| 0 <= j < i ==> (#[trigger] events@[j]).token != token,
        decreases events@.len() - i,
    {
        if events[i].token == token {
            return true;
        }
        i += 1;
    }
    false
}

/// How a batch differs from a single event of the expected token.
#[derive(Clone, Copy, Debug, PartialEq, Eq, Structural)]
pub enum NotSole {
    /// The batch holds this many events instead of one.
    Count(usize),
    /// The one event is for this token.
    Token(Token),
}

/// What `sole_event` returns.
pub open spec fn sole_checked(events: Seq<Event>, token: Token) -> Result<(), NotSole> {
    if events.len() != 1 {
        Err(NotSole::Count(events.len() as usize))
    } else if events[0].token != token {
        Err(NotSole::Token(events[0].token))
    } else {
        Ok(())
    }
}

/// Checks that a batch is a single event, and that it is for `token`. What the
/// event is ready for does not matter.
pub fn sole_event(events: &[Event], token: Token) -> (checked: Result<(), NotSole>)
    ensures
        checked == sole_checked(events@, token),
        checked is Ok <==> events@.len() == 1 && events@[0].token == token,
        events@.len() != 1 ==> checked == Err::<(), NotSole>(NotSole::Count(events@.len() as usize)),
        events@.len() == 1 && events@[0].token != token ==> checked == Err::<(), NotSole>(
            NotSole::Token(events@[0].token),
        ),
{
    if events.len() != 1 {
        return Err(NotSole::Count(events.len()));
    }
    if events[0].token != token {
        return Err(NotSole::Token(events[0].token));
    }
    Ok(())
}

/// A union holds exactly what both of its parts hold: it covers a set that
/// either part covers, and being covered by a set takes both parts.
pub proof fn law_union(a: Readiness, b: Readiness, c: Readiness)
    ensures
        a.spec_union(b).covers(a),
        a.spec_union(b).covers(b),
        a.covers(c) ==> a.spec_union(b).covers(c),
        c.covers(a.spec_union(b)) <==> c.covers(a) && c.covers(b),
{
    let (x, y, z) = (a.bits, b.bits, c.bits);
    assert((x | y) & x == x) by (bit_vector);
    assert((x | y) & y == y) by (bit_vector);
    assert(x & z == z ==> (x | y) & z == z) by (bit_vector);
    assert(z & (x | y) == x | y <==> z & x == x && z & y == y) by (bit_vector);
}

/// The sets, bit by bit: reading is the lowest bit and writing the second lowest, a set
/// covers another when no bit of the other is missing in it, and a bit is in a union
/// when it is in one of the parts.
pub proof fn law_bits(a: Readiness, b: Readiness)
    ensures
        Readiness::spec_empty().bits == 0,
        Readiness::spec_readable().bits == 1,
        Readiness::spec_writable().bits == 2,
        a.covers(b) <==> b.bits & !a.bits == 0,
        a.covers(Readiness::spec_empty()),
        a.covers(a),
        a.spec_union(b).bits & !a.bits & !b.bits == 0,
        a.bits & !a.spec_union(b).bits == 0,
        b.bits & !a.spec_union(b).bits == 0,
        a.spec_union(Readiness::spec_empty()) == a,
        a.covers(b) && b.covers(a) ==> a == b,
{
    let (x, y) = (a.bits, b.bits);
    assert(x & y == y <==> y & !x == 0) by (bit_vector);
    assert(x & 0 == 0) by (bit_vector);
    assert(x & x == x) by (bit_vector);
    assert((x | y) & !x & !y == 0) by (bit_vector);
    assert(x & !(x | y) == 0) by (bit_vector);
    assert(y & !(x | y) == 0) by (bit_vector);
    assert(x | 0 == x) by (bit_vector);
    assert(x & y == y && y & x == x ==> x == y) by (bit_vector);
}

/// A registration is made under the token and for the interest that it is asked for,
/// and is edge triggered.
pub proof fn law_edge(token: Token, interest: Readiness)
    ensures
        Registration::spec_edge(token, interest).token == token,
        Registration::spec_edge(token, interest).interest == interest,
        Registration::spec_edge(token, interest).trigger == Trigger::Edge,
{
}

/// A batch reports a token ready when one and the same event is for the token and lacks no
/// bit of what is asked for: what one event says of another token, and what several
/// events of the token say between them, does not count. Where every event of the token
/// lacks a bit nothing is reported.
pub proof fn law_one_event_reports(events: Seq<Event>, token: Token, ready: Readiness)
    ensures
        reported(events, token, ready) <==> exists|i: int|
            0 <= i < events.len() && (#[trigger] events[i]).token == token && ready.bits
                & !events[i].readiness.bits == 0,
        (forall|i: int|
            0 <= i < events.len() && (#[trigger] events[i]).token == token ==> ready.bits
                & !events[i].readiness.bits != 0) ==> !reported(events, token, ready),
        mentioned(events, token) <==> exists|i: int|
            0 <= i < events.len() && (#[trigger] events[i]).token == token,
        reported(events, token, ready) ==> mentioned(events, token),
{
    assert forall|i: int| 0 <= i < events.len() implies (#[trigger] events[i]).readiness.covers(
        ready,
    ) == (ready.bits & !events[i].readiness.bits == 0) by {
        law_bits(events[i].readiness, ready);
    }
    if reported(events, token, ready) {
        let i = choose|i: int|
            0 <= i < events.len() && (#[trigger] events[i]).token == token
                && events[i].readiness.covers(ready);
        assert(events[i].token == token && ready.bits & !events[i].readiness.bits == 0);
    }
}

/// Two batches report together what one of them reports by itself, and an empty batch
/// reports nothing: it makes no difference how events are split into batches, or in
/// which order they come.
pub proof fn law_batches_report(
    first: Seq<Event>,
    second: Seq<Event>,
    token: Token,
    ready: Readiness,
)
    ensures
        !reported(Seq::empty(), token, ready),
        !mentioned(Seq::empty(), token),
        reported(first + second, token, ready) <==> reported(first, token, ready) || reported(
            second,
            token,
            ready,
        ),
        mentioned(first + second, token) <==> mentioned(first, token) || mentioned(second, token),
        first.len() == 1 ==> (reported(first, token, ready) <==> first[0].token == token
            && ready.bits & !first[0].readiness.bits == 0),
        first.len() == 1 ==> (mentioned(first, token) <==> first[0].token == token),
{
    let both = first + second;
    law_one_event_reports(first, token, ready);
    law_one_event_reports(second, token, ready);
    law_one_event_reports(both, token, ready);
    assert forall|i: int| 0 <= i < first.len() implies both[i] == #[trigger] first[i] by {}
    assert forall|i: int| 0 <= i < second.len() implies both[first.len() + i]
        == #[trigger] second[i] by {}
    assert forall|i: int| first.len() <= i < both.len() implies #[trigger] both[i] == second[i
        - first.len()] by {}
}

/// A batch that passes for a single event of a token holds one event, mentions that token
/// and no other, and does so whatever the event is ready for. One that does not is told by
/// its length, or by the one token that it mentions.
pub proof fn law_sole_event(events: Seq<Event>, token: Token, other: Token, ready: Readiness)
    requires
        events.len() <= usize::MAX,
    ensures
        sole_checked(events, token) is Ok <==> events.len() == 1 && mentioned(events, token),
        sole_checked(events, token) is Ok && mentioned(events, other) ==> other == token,
        sole_checked(events, token) matches Err(NotSole::Count(n)) ==> n == events.len() && n != 1,
        sole_checked(events, token) matches Err(NotSole::Token(found)) ==> found != token
            && sole_checked(events, found) is Ok,
        sole_checked(seq![Event { token, readiness: ready }], token) is Ok,
{
    if events.len() == 1 {
        assert(mentioned(events, events[0].token));
    }
}

} // verus!
