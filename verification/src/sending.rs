//! The decisions of a sender: parking a send, waiting for it to be flushed,
//! filling a connection, and waiting for a reset to surface.

use vstd::prelude::*;

use crate::kind::ErrorKind;
use crate::turns::{first_stop, lemma_first_stop, lemma_stops_at};

verus! {

/// What has happened to a send that is to be parked.
#[derive(Clone, Copy, Debug)]
pub enum ParkEvent {
    /// Nothing yet.
    Start,
    /// The send buffer has its size.
    Sized,
    /// The bytes were written, with this result.
    Wrote(Result<usize, ErrorKind>),
    /// The stream was flushed, with this result.
    Flushed(Result<(), ErrorKind>),
}

/// What to do next with a send that is to be parked.
#[derive(Clone, Copy, Debug, PartialEq, Eq, Structural)]
pub enum Park {
    /// Set the size of the send buffer, so that the kernel sends straight out of
    /// the bytes and the send stays in flight.
    SetSendBuffer(usize),
    /// Write the bytes.
    Write,
    /// Flush the stream.
    Flush,
    /// The send is parked.
    Parked,
    /// The write took only so many of the bytes.
    ShortWrite(usize),
    /// The write failed.
    WriteFailed(ErrorKind),
    /// The flush succeeded, so the send is not in flight.
    NotInFlight,
    /// The flush failed in another way than by having to wait.
    FlushFailed(ErrorKind),
}

/// The decision of `park_send`.
pub open spec fn park_decision(len: usize, event: ParkEvent) -> Park {
    match event {
        ParkEvent::Start => Park::SetSendBuffer(0),
        ParkEvent::Sized => Park::Write,
        ParkEvent::Wrote(Ok(n)) => if n == len {
            Park::Flush
        } else {
            Park::ShortWrite(n)
        },
        ParkEvent::Wrote(Err(error)) => Park::WriteFailed(error),
        ParkEvent::Flushed(Ok(_)) => Park::NotInFlight,
        ParkEvent::Flushed(Err(error)) => if error is WouldBlock {
            Park::Parked
        } else {
            Park::FlushFailed(error)
        },
    }
}

/// Parks a send of `len` bytes: the write has to take all of them, and the flush
/// has to wait.
pub fn park_send(len: usize, event: ParkEvent) -> (next: Park)
    ensures
        next == park_decision(len, event),
{
    match event {
        ParkEvent::Start => Park::SetSendBuffer(0),
        ParkEvent::Sized => Park::Write,
        ParkEvent::Wrote(Ok(n)) => {
            if n == len {
                Park::Flush
            } else {
                Park::ShortWrite(n)
            }
        },
        ParkEvent::Wrote(Err(error)) => Park::WriteFailed(error),
        ParkEvent::Flushed(Ok(_)) => Park::NotInFlight,
        ParkEvent::Flushed(Err(error)) => {
            if error == ErrorKind::WouldBlock {
                Park::Parked
            } else {
                Park::FlushFailed(error)
            }
        },
    }
}

/// What has happened once a step was done, where the write and the flush return
/// this.
pub open spec fn park_report(
    step: Park,
    write: Result<usize, ErrorKind>,
    flush: Result<(), ErrorKind>,
) -> ParkEvent {
    match step {
        Park::SetSendBuffer(_) => ParkEvent::Sized,
        Park::Write => ParkEvent::Wrote(write),
        Park::Flush => ParkEvent::Flushed(flush),
        _ => ParkEvent::Start,
    }
}

/// There is more to do after this step.
pub open spec fn park_goes_on(step: Park) -> bool {
    step is SetSendBuffer || step is Write || step is Flush
}

/// The steps of parking from `event` on, the last one included.
pub open spec fn park_steps(
    len: usize,
    event: ParkEvent,
    write: Result<usize, ErrorKind>,
    flush: Result<(), ErrorKind>,
    fuel: nat,
) -> Seq<Park>
    decreases fuel,
{
    let step = park_decision(len, event);
    if fuel == 0 || !park_goes_on(step) {
        seq![step]
    } else {
        seq![step] + park_steps(
            len,
            park_report(step, write, flush),
            write,
            flush,
            (fuel - 1) as nat,
        )
    }
}

/// The steps of parking a send, where the write and the flush return this.
pub open spec fn park_way(
    len: usize,
    write: Result<usize, ErrorKind>,
    flush: Result<(), ErrorKind>,
) -> Seq<Park> {
    park_steps(len, ParkEvent::Start, write, flush, 4)
}

/// A send is parked by taking the send buffer away, writing and flushing, and is
/// parked exactly if the write took all of the bytes and the flush had to wait. The
/// stream is flushed only if the write took all of the bytes, and a failure is the
/// end of it.
pub proof fn law_park_way(
    len: usize,
    write: Result<usize, ErrorKind>,
    flush: Result<(), ErrorKind>,
)
    ensures
        park_way(len, write, flush) == seq![
            Park::SetSendBuffer(0),
            Park::Write,
            Park::Flush,
            Park::Parked,
        ] <==> write == Ok::<usize, ErrorKind>(len) && flush == Err::<(), ErrorKind>(
            ErrorKind::WouldBlock,
        ),
        park_way(len, write, flush).last() is Parked <==> write == Ok::<usize, ErrorKind>(len)
            && flush == Err::<(), ErrorKind>(ErrorKind::WouldBlock),
        write != Ok::<usize, ErrorKind>(len) ==> park_way(len, write, flush) == seq![
            Park::SetSendBuffer(0),
            Park::Write,
            match write {
                Ok(n) => Park::ShortWrite(n),
                Err(error) => Park::WriteFailed(error),
            },
        ],
        write == Ok::<usize, ErrorKind>(len) ==> park_way(len, write, flush) == seq![
            Park::SetSendBuffer(0),
            Park::Write,
            Park::Flush,
            match flush {
                Ok(_) => Park::NotInFlight,
                Err(error) => if error == ErrorKind::WouldBlock {
                    Park::Parked
                } else {
                    Park::FlushFailed(error)
                },
            },
        ],
{
    reveal_with_fuel(park_steps, 5);
    let way = park_way(len, write, flush);
    if write == Ok::<usize, ErrorKind>(len) {
        assert(way =~= seq![
            Park::SetSendBuffer(0),
            Park::Write,
            Park::Flush,
            park_decision(len, ParkEvent::Flushed(flush)),
        ]);
        assert(way[3] == park_decision(len, ParkEvent::Flushed(flush)));
        assert(flush == Err::<(), ErrorKind>(ErrorKind::WouldBlock) <==> way[3] is Parked);
    } else {
        assert(way =~= seq![
            Park::SetSendBuffer(0),
            Park::Write,
            match write {
                Ok(n) => Park::ShortWrite(n),
                Err(error) => Park::WriteFailed(error),
            },
        ]);
        assert(way.len() == 3);
    }
}

/// What a sender that flushes before it drops the stream does next.
#[derive(Clone, Copy, Debug, PartialEq, Eq, Structural)]
pub enum Flush {
    /// The kernel has the bytes: drop the stream.
    Drop,
    /// The send is in flight: wait until the stream is writable, and flush again.
    WaitWritable,
    /// The flush failed.
    Failed(ErrorKind),
}

/// The decision of `flush_until_taken`.
pub open spec fn flush_decision(flush: Result<(), ErrorKind>) -> Flush {
    match flush {
        Ok(_) => Flush::Drop,
        Err(error) => if error is WouldBlock {
            Flush::WaitWritable
        } else {
            Flush::Failed(error)
        },
    }
}

/// Flushes until the kernel has taken the bytes over. `flush` is what the last
/// flush returned.
pub fn flush_until_taken(flush: Result<(), ErrorKind>) -> (next: Flush)
    ensures
        next == flush_decision(flush),
{
    match flush {
        Ok(_) => Flush::Drop,
        Err(error) => {
            if error == ErrorKind::WouldBlock {
                Flush::WaitWritable
            } else {
                Flush::Failed(error)
            }
        },
    }
}

/// The decisions of a sender, flush by flush.
pub open spec fn flush_decisions(flushes: Seq<Result<(), ErrorKind>>) -> Seq<Flush> {
    flushes.map_values(|flush: Result<(), ErrorKind>| flush_decision(flush))
}

/// The number of times that a sender waits before it stops.
pub open spec fn flush_waits(flushes: Seq<Result<(), ErrorKind>>) -> nat {
    first_stop(flush_decisions(flushes), |next: Flush| next is WaitWritable)
}

/// How a sender stands when it stops.
pub open spec fn flush_outcome(flushes: Seq<Result<(), ErrorKind>>) -> Flush {
    flush_decisions(flushes)[flush_waits(flushes) as int]
}

/// Each of the first `k` flushes had to wait.
pub open spec fn keeps_flushing(flushes: Seq<Result<(), ErrorKind>>, k: int) -> bool {
    forall|j: int|
        0 <= j < k ==> #[trigger] flushes[j] == Err::<(), ErrorKind>(ErrorKind::WouldBlock)
}

/// A sender drops its stream after exactly `k` waits when flush succeeds then and
/// had to wait each time before, and gives up when flush fails in another way then.
pub proof fn law_flush_ends(flushes: Seq<Result<(), ErrorKind>>, k: int)
    requires
        0 <= k < flushes.len(),
    ensures
        flush_outcome(flushes) is Drop && flush_waits(flushes) == k <==> flushes[k] is Ok
            && keeps_flushing(flushes, k),
        flush_outcome(flushes) is Failed && flush_waits(flushes) == k <==> flushes[k] is Err
            && flushes[k] != Err::<(), ErrorKind>(ErrorKind::WouldBlock) && keeps_flushing(
            flushes,
            k,
        ),
        flush_outcome(flushes) is Failed && flush_waits(flushes) == k ==> flush_outcome(flushes)
            == Flush::Failed(flushes[k]->Err_0),
{
    let decisions = flush_decisions(flushes);
    let goes_on = |next: Flush| next is WaitWritable;
    lemma_first_stop(decisions, goes_on);
    let stop = flush_waits(flushes) as int;
    assert forall|j: int| 0 <= j < stop implies #[trigger] flushes[j] == Err::<(), ErrorKind>(
        ErrorKind::WouldBlock,
    ) by {
        assert(goes_on(decisions[j]));
    }
    if keeps_flushing(flushes, k) && !goes_on(decisions[k]) {
        assert forall|j: int| 0 <= j < k implies goes_on(#[trigger] decisions[j]) by {
            assert(flushes[j] == Err::<(), ErrorKind>(ErrorKind::WouldBlock));
        }
        lemma_stops_at(decisions, goes_on, k);
    }
}

/// The most that a connection can be filled with: 256 MiB.
pub const FILL_LIMIT: usize = 268_435_456;

/// What a sender that fills a connection does next.
#[derive(Clone, Copy, Debug, PartialEq, Eq, Structural)]
pub enum Filling {
    /// Write on.
    WriteOn,
    /// A write is left pending.
    Pending,
    /// The connection takes more than the limit.
    NeverBlocked,
    /// A write failed.
    Failed(ErrorKind),
}

/// The decision of `Fill::on_write`.
pub open spec fn fill_decision(so_far: nat, write: Result<usize, ErrorKind>) -> Filling {
    match write {
        Ok(n) => if so_far + n <= FILL_LIMIT {
            Filling::WriteOn
        } else {
            Filling::NeverBlocked
        },
        Err(error) => if error is WouldBlock {
            Filling::Pending
        } else {
            Filling::Failed(error)
        },
    }
}

/// The number of bytes that writes have taken after this one.
pub open spec fn filled(so_far: nat, write: Result<usize, ErrorKind>) -> nat {
    match write {
        Ok(n) => if so_far + n <= FILL_LIMIT {
            so_far + n as nat
        } else {
            so_far
        },
        Err(_) => so_far,
    }
}

/// A sender that writes to a connection until a write is left pending.
pub struct Fill {
    written: usize,
}

impl Fill {
    /// The number of bytes that writes have taken.
    pub closed spec fn so_far(&self) -> nat {
        self.written as nat
    }

    /// The connection has taken no more than the limit.
    pub open spec fn wf(&self) -> bool {
        self.so_far() <= FILL_LIMIT
    }

    /// A sender that has written nothing.
    pub fn new() -> (fill: Fill)
        ensures
            fill.wf(),
            fill.so_far() == 0,
    {
        Fill { written: 0 }
    }

    /// The number of bytes that writes have taken.
    pub fn written(&self) -> (written: usize)
        ensures
            written == self.so_far(),
    {
        self.written
    }

    /// Decides on what a write returned. Once the connection takes more than the
    /// limit the sender gives up, and what that write took is not counted.
    pub fn on_write(&mut self, write: Result<usize, ErrorKind>) -> (next: Filling)
        requires
            old(self).wf(),
        ensures
            final(self).wf(),
            next == fill_decision(old(self).so_far(), write),
            final(self).so_far() == filled(old(self).so_far(), write),
    {
        match write {
            Ok(n) => {
                if n > FILL_LIMIT - self.written {
                    return Filling::NeverBlocked;
                }
                self.written = self.written + n;
                Filling::WriteOn
            },
            Err(error) => {
                if error == ErrorKind::WouldBlock {
                    Filling::Pending
                } else {
                    Filling::Failed(error)
                }
            },
        }
    }
}

/// The number of attempts after which a reset must have surfaced.
pub const ATTEMPTS: usize = 8;

/// What a sender that waits for a reset to surface does next.
#[derive(Clone, Copy, Debug, PartialEq, Eq, Structural)]
pub enum Probing {
    /// Flush the stream.
    Flush,
    /// Write to the stream.
    Write,
    /// Reap what is in flight, then start the next attempt.
    Reap,
    /// Start the next attempt.
    Again,
    /// The reset surfaced.
    Surfaced(ErrorKind),
    /// Another error surfaced.
    Unexpected(ErrorKind),
    /// The attempts are used up.
    NeverSurfaced,
}

/// What an error that comes out of a flush or a write means.
pub open spec fn probe_error(error: ErrorKind) -> Probing {
    if error is WouldBlock {
        Probing::Reap
    } else if error.is_gone() {
        Probing::Surfaced(error)
    } else {
        Probing::Unexpected(error)
    }
}

/// What starting the next attempt comes to, when so many were started.
pub open spec fn attempt_decision(started: nat) -> Probing {
    if started < ATTEMPTS {
        Probing::Flush
    } else {
        Probing::NeverSurfaced
    }
}

/// The number of attempts that were started after asking for the next one.
pub open spec fn attempted(started: nat) -> nat {
    if started < ATTEMPTS {
        started + 1
    } else {
        started
    }
}

/// The decision of `Probe::on_flush`.
pub open spec fn probe_flush(flush: Result<(), ErrorKind>) -> Probing {
    match flush {
        Ok(_) => Probing::Write,
        Err(error) => probe_error(error),
    }
}

/// The decision of `Probe::on_write`.
pub open spec fn probe_write(write: Result<usize, ErrorKind>) -> Probing {
    match write {
        Ok(_) => Probing::Again,
        Err(error) => probe_error(error),
    }
}

/// A sender whose peer has reset the connection. The error of a failed send
/// comes out of a flush; where the send counted as done the next write trips
/// over the reset instead.
pub struct Probe {
    attempts: usize,
}

impl Probe {
    /// The number of attempts that were started.
    pub closed spec fn started(&self) -> nat {
        self.attempts as nat
    }

    /// No more attempts were started than there are.
    pub open spec fn wf(&self) -> bool {
        self.started() <= ATTEMPTS
    }

    /// A sender that has not tried yet.
    pub fn new() -> (probe: Probe)
        ensures
            probe.wf(),
            probe.started() == 0,
    {
        Probe { attempts: 0 }
    }

    /// Starts the next attempt, with a flush, if one is left.
    pub fn next_attempt(&mut self) -> (next: Probing)
        requires
            old(self).wf(),
        ensures
            final(self).wf(),
            next == attempt_decision(old(self).started()),
            final(self).started() == attempted(old(self).started()),
    {
        if self.attempts < ATTEMPTS {
            self.attempts = self.attempts + 1;
            Probing::Flush
        } else {
            Probing::NeverSurfaced
        }
    }

    /// Sorts an error that came out of a flush or a write.
    fn on_error(error: ErrorKind) -> (next: Probing)
        ensures
            next == probe_error(error),
    {
        if error == ErrorKind::WouldBlock {
            Probing::Reap
        } else if error.is_connection_gone() {
            Probing::Surfaced(error)
        } else {
            Probing::Unexpected(error)
        }
    }

    /// Decides on what the flush of an attempt returned.
    pub fn on_flush(&self, flush: Result<(), ErrorKind>) -> (next: Probing)
        ensures
            next == probe_flush(flush),
    {
        match flush {
            Ok(_) => Probing::Write,
            Err(error) => Probe::on_error(error),
        }
    }

    /// Decides on what the write of an attempt returned, however much it took.
    pub fn on_write(&self, write: Result<usize, ErrorKind>) -> (next: Probing)
        ensures
            next == probe_write(write),
    {
        match write {
            Ok(_) => Probing::Again,
            Err(error) => Probe::on_error(error),
        }
    }
}

/// What a sender makes of one flush: it drops the stream exactly when the flush succeeded,
/// waits exactly when the flush had to wait, and is told any other error as it is.
pub proof fn law_flush_answered(flush: Result<(), ErrorKind>)
    ensures
        flush_decision(flush) is Drop <==> flush is Ok,
        flush_decision(flush) is WaitWritable <==> flush == Err::<(), ErrorKind>(
            ErrorKind::WouldBlock,
        ),
        forall|error: ErrorKind|
            error != ErrorKind::WouldBlock ==> #[trigger] flush_decision(Err(error))
                == Flush::Failed(error),
{
}

/// What an error says to a sender that waits for a reset: a reset and an abort are what it
/// waits for, having to wait means that something is in flight, and every other kind is
/// unexpected. Each is told as it is.
pub proof fn law_probe_tells(error: ErrorKind)
    ensures
        probe_error(error) is Reap <==> error == ErrorKind::WouldBlock,
        error == ErrorKind::ConnectionReset || error == ErrorKind::ConnectionAborted
            <==> probe_error(error) == Probing::Surfaced(error),
        probe_error(error) is Surfaced ==> probe_error(error)->Surfaced_0 == error,
        error == ErrorKind::ConnectionRefused || error == ErrorKind::Other <==> probe_error(error)
            == Probing::Unexpected(error),
{
}

/// An attempt starts with a flush, as long as fewer than eight were started, and each of
/// them counts; the ninth is not made. A flush that succeeds is followed by a write, a
/// write that succeeds, however much it took, by the next attempt, and from either an error
/// is told alike.
pub proof fn law_probe_attempts(
    started: nat,
    flush: Result<(), ErrorKind>,
    write: Result<usize, ErrorKind>,
    error: ErrorKind,
)
    requires
        started <= 8,
    ensures
        ATTEMPTS == 8,
        attempt_decision(started) is Flush <==> started < 8,
        attempt_decision(started) is NeverSurfaced <==> started == 8,
        attempt_decision(started) is Flush <==> attempted(started) == started + 1,
        attempt_decision(started) is NeverSurfaced <==> attempted(started) == started,
        probe_flush(flush) is Write <==> flush is Ok,
        probe_write(write) is Again <==> write is Ok,
        probe_flush(Err(error)) == probe_write(Err(error)),
        probe_flush(flush) is Reap <==> flush == Err::<(), ErrorKind>(ErrorKind::WouldBlock),
        probe_write(write) is Reap <==> write == Err::<usize, ErrorKind>(ErrorKind::WouldBlock),
        probe_flush(Err(error)) == Probing::Surfaced(error) <==> error
            == ErrorKind::ConnectionReset || error == ErrorKind::ConnectionAborted,
        probe_flush(Err(error)) == Probing::Unexpected(error) <==> error
            == ErrorKind::ConnectionRefused || error == ErrorKind::Other,
{
}

/// A connection is filled until a write has to wait, and not beyond 256 MiB: as long as the
/// writes have taken no more than that the sender writes on and has counted every byte, the
/// first write that would take it beyond is given up on and not counted, and a write that
/// fails takes nothing.
pub proof fn law_filling(so_far: nat, write: Result<usize, ErrorKind>)
    requires
        so_far <= 256 * 1024 * 1024,
    ensures
        fill_decision(so_far, write) is Pending <==> write == Err::<usize, ErrorKind>(
            ErrorKind::WouldBlock,
        ),
        forall|error: ErrorKind|
            error != ErrorKind::WouldBlock ==> #[trigger] fill_decision(so_far, Err(error))
                == Filling::Failed(error),
        write matches Ok(n) ==> (fill_decision(so_far, write) is WriteOn <==> so_far + n <= 256
            * 1024 * 1024),
        write matches Ok(n) ==> (fill_decision(so_far, write) is NeverBlocked <==> so_far + n > 256
            * 1024 * 1024),
        fill_decision(so_far, write) is WriteOn ==> filled(so_far, write) == so_far + write->Ok_0,
        !(fill_decision(so_far, write) is WriteOn) ==> filled(so_far, write) == so_far,
        filled(so_far, write) <= 256 * 1024 * 1024,
{
}

} // verus!
