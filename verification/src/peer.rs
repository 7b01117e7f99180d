//! What a blocking peer makes of what it reads from the other side.

use vstd::prelude::*;

use crate::kind::ErrorKind;
use crate::turns::{first_stop, lemma_first_stop, lemma_stops_at};
use crate::wait::TIMEOUT;

verus! {

/// The buffer that a peer reads into: 64 KiB.
pub const READ_BUFFER: usize = 65_536;

/// How long a read of a peer that drains what is left of a stream may take: ten
/// seconds.
pub const DRAIN_TIMEOUT: u64 = 10_000_000_000;

/// What a peer that waits for the other side to be closed has done.
#[derive(Clone, Copy, Debug)]
pub enum Watch {
    /// Nothing yet.
    Start,
    /// Its reads are limited.
    Limited,
    /// It has read, with this result.
    Read(Result<usize, ErrorKind>),
}

/// What a peer that waits for the other side to be closed does next.
#[derive(Clone, Copy, Debug, PartialEq, Eq, Structural)]
pub enum Closing {
    /// Limit reads to so many nanoseconds.
    LimitReads(u64),
    /// Read into a buffer of this size.
    Read(usize),
    /// The other side is closed.
    Closed,
    /// The read failed in another way, so the socket was not released.
    NotReleased(ErrorKind),
}

/// What a peer makes of a read.
pub open spec fn read_decision(read: Result<usize, ErrorKind>) -> Closing {
    match read {
        Ok(n) => if n == 0 {
            Closing::Closed
        } else {
            Closing::Read(READ_BUFFER)
        },
        Err(error) => if error.is_gone() {
            Closing::Closed
        } else {
            Closing::NotReleased(error)
        },
    }
}

/// The decision of `expect_closed`.
pub open spec fn closing_decision(done: Watch) -> Closing {
    match done {
        Watch::Start => Closing::LimitReads(TIMEOUT),
        Watch::Limited => Closing::Read(READ_BUFFER),
        Watch::Read(read) => read_decision(read),
    }
}

/// Sorts what a read returned: the end of the stream, a reset and an abort all say
/// that the other side is closed.
fn on_read(read: Result<usize, ErrorKind>) -> (next: Closing)
    ensures
        next == read_decision(read),
{
    match read {
        Ok(n) => {
            if n == 0 {
                Closing::Closed
            } else {
                Closing::Read(READ_BUFFER)
            }
        },
        Err(error) => {
            if error.is_connection_gone() {
                Closing::Closed
            } else {
                Closing::NotReleased(error)
            }
        },
    }
}

/// Limits the peer's reads, and then reads until the other side is seen to be
/// closed. `done` is what was done last.
pub fn expect_closed(done: Watch) -> (next: Closing)
    ensures
        next == closing_decision(done),
{
    match done {
        Watch::Start => Closing::LimitReads(TIMEOUT),
        Watch::Limited => Closing::Read(READ_BUFFER),
        Watch::Read(read) => on_read(read),
    }
}

/// The decision of `Drain::next`.
pub open spec fn drain_decision(done: Watch) -> Closing {
    match done {
        Watch::Start => Closing::LimitReads(DRAIN_TIMEOUT),
        Watch::Limited => Closing::Read(READ_BUFFER),
        Watch::Read(read) => read_decision(read),
    }
}

/// The number of bytes that this has brought.
pub open spec fn brought(done: Watch) -> nat {
    match done {
        Watch::Read(Ok(n)) => n as nat,
        _ => 0,
    }
}

/// A peer that reads what is left of a stream, and counts it.
pub struct Drain {
    total: usize,
}

impl Drain {
    /// The number of bytes read so far.
    pub closed spec fn read_so_far(&self) -> nat {
        self.total as nat
    }

    /// A peer that has read nothing.
    pub fn new() -> (drain: Drain)
        ensures
            drain.read_so_far() == 0,
    {
        Drain { total: 0 }
    }

    /// The number of bytes read so far.
    pub fn total(&self) -> (total: usize)
        ensures
            total == self.read_so_far(),
    {
        self.total
    }

    /// Limits the peer's reads, and then reads and counts until the other side is
    /// seen to be closed. `done` is what was done last.
    pub fn next(&mut self, done: Watch) -> (next: Closing)
        requires
            done matches Watch::Read(Ok(n)) ==> old(self).read_so_far() + n <= usize::MAX,
        ensures
            next == drain_decision(done),
            final(self).read_so_far() == old(self).read_so_far() + brought(done),
    {
        match done {
            Watch::Start => Closing::LimitReads(DRAIN_TIMEOUT),
            Watch::Limited => Closing::Read(READ_BUFFER),
            Watch::Read(read) => {
                if let Ok(n) = read {
                    self.total = self.total + n;
                }
                on_read(read)
            },
        }
    }

    /// Checks that the peer has read no more than was written.
    pub fn within(&self, written: usize) -> (within: bool)
        ensures
            within == (self.read_so_far() <= written),
    {
        self.total <= written
    }
}

/// What a peer has done when it has made these reads, step by step.
pub open spec fn watched(reads: Seq<Result<usize, ErrorKind>>) -> Seq<Watch> {
    seq![Watch::Start, Watch::Limited] + reads.map_values(
        |read: Result<usize, ErrorKind>| Watch::Read(read),
    )
}

/// The decisions of a peer, step by step.
pub open spec fn closing_decisions(reads: Seq<Result<usize, ErrorKind>>) -> Seq<Closing> {
    watched(reads).map_values(|done: Watch| closing_decision(done))
}

/// The step at which a peer stops.
pub open spec fn closing_stop(reads: Seq<Result<usize, ErrorKind>>) -> nat {
    first_stop(
        closing_decisions(reads),
        |next: Closing| next is LimitReads || next is Read,
    )
}

/// How a peer stands when it stops.
pub open spec fn closing_outcome(reads: Seq<Result<usize, ErrorKind>>) -> Closing {
    closing_decisions(reads)[closing_stop(reads) as int]
}

/// The read says that the other side is closed.
pub open spec fn says_closed(read: Result<usize, ErrorKind>) -> bool {
    match read {
        Ok(n) => n == 0,
        Err(error) => error is ConnectionReset || error is ConnectionAborted,
    }
}

/// The read returned data.
pub open spec fn says_data(read: Result<usize, ErrorKind>) -> bool {
    read matches Ok(n) && n > 0
}

/// The first `k` reads returned nothing but data.
pub open spec fn only_data(reads: Seq<Result<usize, ErrorKind>>, k: int) -> bool {
    forall|j: int| 0 <= j < k ==> says_data(#[trigger] reads[j])
}

/// A peer limits its reads before the first of them, and every read goes into a
/// buffer of the same size. It sees the other side closed at read `k` exactly when
/// that read says so after nothing but data, however much data that is, and finds
/// the socket not released exactly when that read fails in another way.
pub proof fn law_sees_closed(reads: Seq<Result<usize, ErrorKind>>, k: int)
    requires
        0 <= k < reads.len(),
    ensures
        closing_decisions(reads)[0] == Closing::LimitReads(TIMEOUT),
        forall|j: int|
            1 <= j < closing_stop(reads) ==> #[trigger] closing_decisions(reads)[j] == Closing::Read(
                READ_BUFFER,
            ),
        closing_outcome(reads) is Closed && closing_stop(reads) == k + 2 <==> says_closed(reads[k])
            && only_data(reads, k),
        closing_outcome(reads) is NotReleased && closing_stop(reads) == k + 2 <==> !says_closed(
            reads[k],
        ) && !says_data(reads[k]) && only_data(reads, k),
{
    let decisions = closing_decisions(reads);
    let goes_on = |next: Closing| next is LimitReads || next is Read;
    let stop = closing_stop(reads) as int;
    lemma_first_stop(decisions, goes_on);
    assert(watched(reads)[0] == Watch::Start);
    assert(watched(reads)[1] == Watch::Limited);
    assert forall|j: int| 0 <= j < reads.len() implies #[trigger] decisions[j + 2]
        == read_decision(reads[j]) by {
        assert(watched(reads)[j + 2] == Watch::Read(reads[j]));
    }
    assert(decisions[k + 2] == read_decision(reads[k]));
    assert forall|j: int| 1 <= j < stop implies #[trigger] decisions[j] == Closing::Read(
        READ_BUFFER,
    ) by {
        assert(goes_on(decisions[j]));
        if j >= 2 {
            assert(decisions[(j - 2) + 2] == read_decision(reads[j - 2]));
        }
    }
    if stop == k + 2 {
        assert forall|j: int| 0 <= j < k implies says_data(#[trigger] reads[j]) by {
            assert(decisions[j + 2] == read_decision(reads[j]));
            assert(goes_on(decisions[j + 2]));
        }
    }
    if only_data(reads, k) && !says_data(reads[k]) {
        assert forall|j: int| 0 <= j < k + 2 implies goes_on(#[trigger] decisions[j]) by {
            if j >= 2 {
                assert(decisions[(j - 2) + 2] == read_decision(reads[j - 2]));
                assert(says_data(reads[j - 2]));
            }
        }
        lemma_stops_at(decisions, goes_on, k + 2);
    }
}

/// What a peer makes of one read. Of all the kinds that a read can fail with, a reset and
/// an abort alone say that the other side is closed; every other one, a read that has
/// timed out included, is told as it is. A read of nothing is the end of the stream, and
/// after a read of anything, however much, the peer reads on.
pub proof fn law_read_tells(read: Result<usize, ErrorKind>)
    ensures
        read_decision(read) is Closed <==> read == Ok::<usize, ErrorKind>(0) || read == Err::<
            usize,
            ErrorKind,
        >(ErrorKind::ConnectionReset) || read == Err::<usize, ErrorKind>(
            ErrorKind::ConnectionAborted,
        ),
        forall|error: ErrorKind| #[trigger]
            read_decision(Err(error)) == if error == ErrorKind::ConnectionReset || error
                == ErrorKind::ConnectionAborted {
                Closing::Closed
            } else {
                Closing::NotReleased(error)
            },
        read_decision(Err(ErrorKind::WouldBlock)) == Closing::NotReleased(ErrorKind::WouldBlock),
        read_decision(Err(ErrorKind::ConnectionRefused)) == Closing::NotReleased(
            ErrorKind::ConnectionRefused,
        ),
        read_decision(Err(ErrorKind::Other)) == Closing::NotReleased(ErrorKind::Other),
        read matches Ok(n) ==> n > 0 ==> read_decision(read) == Closing::Read(65_536),
        closing_decision(Watch::Read(read)) == read_decision(read),
        closing_decision(Watch::Start) == Closing::LimitReads(30_000_000_000),
        closing_decision(Watch::Limited) == Closing::Read(65_536),
{
}

/// A peer that drains a stream makes of a read what one that waits for the close makes of
/// it, gives each read ten seconds instead of thirty, and counts every byte that a read
/// brings and nothing else.
pub proof fn law_drain_tells(done: Watch)
    ensures
        drain_decision(Watch::Start) == Closing::LimitReads(10_000_000_000),
        !(done is Start) ==> drain_decision(done) == closing_decision(done),
        forall|n: usize| #[trigger] brought(Watch::Read(Ok(n))) == n,
        !(done matches Watch::Read(Ok(_))) ==> brought(done) == 0,
        drain_decision(done) is NotReleased || drain_decision(done) is Closed ==> brought(done)
            == 0,
        drain_decision(done) is Closed <==> done == Watch::Read(Ok(0)) || done == Watch::Read(
            Err(ErrorKind::ConnectionReset),
        ) || done == Watch::Read(Err(ErrorKind::ConnectionAborted)),
{
}

/// How received bytes differ from the expected ones.
#[derive(Clone, Copy, Debug, PartialEq, Eq, Structural)]
pub enum Mismatch {
    /// So many bytes came, instead of so many.
    Length {
        /// How many came.
        got: usize,
        /// How many were expected.
        expected: usize,
    },
    /// As many came as were expected, but not the same ones.
    Corrupted,
}

/// What `expect_exactly` returns.
pub open spec fn exactly_checked(got: Seq<u8>, expected: Seq<u8>) -> Result<(), Mismatch> {
    if got.len() != expected.len() {
        Err(Mismatch::Length { got: got.len() as usize, expected: expected.len() as usize })
    } else if got != expected {
        Err(Mismatch::Corrupted)
    } else {
        Ok(())
    }
}

/// What `expect_read` returns.
pub open spec fn read_checked(n: usize, buf: Seq<u8>, expected: Seq<u8>) -> Result<(), Mismatch> {
    if n != expected.len() {
        Err(Mismatch::Length { got: n, expected: expected.len() as usize })
    } else if buf.take(expected.len() as int) != expected {
        Err(Mismatch::Corrupted)
    } else {
        Ok(())
    }
}

/// A check passes exactly when the same bytes came, in the same order and no fewer and no
/// more; of bytes that are as many as expected, one that differs is enough for it to fail.
/// A read of `n` bytes is checked as the `n` bytes that it brought would be, and what the
/// buffer holds beyond them makes no difference.
pub proof fn law_checks(
    got: Seq<u8>,
    expected: Seq<u8>,
    n: usize,
    buf: Seq<u8>,
    beyond: Seq<u8>,
    i: int,
)
    requires
        got.len() <= usize::MAX,
        expected.len() <= usize::MAX,
        n <= buf.len(),
    ensures
        exactly_checked(expected, expected) is Ok,
        exactly_checked(got, expected) is Ok ==> got == expected,
        exactly_checked(got, expected) matches Err(Mismatch::Length { got: a, expected: b })
            ==> a == got.len() && b == expected.len() && a != b,
        exactly_checked(got, expected) == Err::<(), Mismatch>(Mismatch::Corrupted) ==> got.len()
            == expected.len(),
        got.len() == expected.len() && 0 <= i < got.len() && got[i] != expected[i]
            ==> exactly_checked(got, expected) == Err::<(), Mismatch>(Mismatch::Corrupted),
        read_checked(n, buf, expected) == exactly_checked(buf.take(n as int), expected),
        read_checked(n, buf.take(n as int) + beyond, expected) == read_checked(n, buf, expected),
{
    let shared = buf.take(n as int) + beyond;
    assert(shared.take(n as int) =~= buf.take(n as int));
}

/// Compares two byte strings of the same length.
fn same_bytes(got: &[u8], expected: &[u8]) -> (same: bool)
    requires
        got@.len() == expected@.len(),
    ensures
        same == (got@ == expected@),
{
    let mut i: usize = 0;
    while i < got.len()
        invariant
            got@.len() == expected@.len(),
            i <= got@.len(),
            forall|j: int| 0 <= j < i ==> got@[j] == expected@[j],
        decreases got@.len() - i,
    {
        if got[i] != expected[i] {
            return false;
        }
        i += 1;
    }
    assert(got@ =~= expected@);
    true
}

/// Checks that a peer which has read to the end of the stream received exactly
/// `expected`. A wrong length is told before wrong bytes are.
pub fn expect_exactly(got: &[u8], expected: &[u8]) -> (checked: Result<(), Mismatch>)
    ensures
        checked == exactly_checked(got@, expected@),
        checked is Ok <==> got@ == expected@,
        got@.len() != expected@.len() ==> checked == Err::<(), Mismatch>(
            Mismatch::Length { got: got@.len() as usize, expected: expected@.len() as usize },
        ),
        got@.len() == expected@.len() && got@ != expected@ ==> checked == Err::<(), Mismatch>(
            Mismatch::Corrupted,
        ),
{
    if got.len() != expected.len() {
        return Err(Mismatch::Length { got: got.len(), expected: expected.len() });
    }
    if same_bytes(got, expected) {
        Ok(())
    } else {
        Err(Mismatch::Corrupted)
    }
}

/// Checks a read of `n` bytes into `buf`: that it is as long as `expected`, and
/// that the buffer starts with it. What the buffer holds beyond does not matter.
pub fn expect_read(n: usize, buf: &[u8], expected: &[u8]) -> (checked: Result<(), Mismatch>)
    requires
        expected@.len() <= buf@.len(),
    ensures
        checked == read_checked(n, buf@, expected@),
        checked is Ok <==> n == expected@.len() && buf@.take(expected@.len() as int) == expected@,
        n != expected@.len() ==> checked == Err::<(), Mismatch>(
            Mismatch::Length { got: n, expected: expected@.len() as usize },
        ),
        n == expected@.len() && buf@.take(expected@.len() as int) != expected@ ==> checked
            == Err::<(), Mismatch>(Mismatch::Corrupted),
{
    if n != expected.len() {
        return Err(Mismatch::Length { got: n, expected: expected.len() });
    }
    let mut i: usize = 0;
    while i < expected.len()
        invariant
            expected@.len() <= buf@.len(),
            n == expected@.len(),
            i <= expected@.len(),
            forall|j: int| 0 <= j < i ==> buf@[j] == expected@[j],
        decreases expected@.len() - i,
    {
        if buf[i] != expected[i] {
            assert(buf@.take(expected@.len() as int)[i as int] != expected@[i as int]);
            return Err(Mismatch::Corrupted);
        }
        i += 1;
    }
    assert(buf@.take(expected@.len() as int) =~= expected@);
    Ok(())
}

} // verus!
