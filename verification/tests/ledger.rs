//! The account of the operations in flight, scenario by scenario.

use inflight::account::{Op, OpKind, Outcome, SocketKind};
use inflight::kind::ErrorKind;
use inflight::ledger::Ledger;
use inflight::peer::{expect_closed, expect_exactly, Closing, Drain, Mismatch, Watch};
use inflight::readiness::{Event, Readiness, Token};
use inflight::sending::{
    flush_until_taken, park_send, Fill, Filling, Flush, Park, ParkEvent, Probe, Probing, FILL_LIMIT,
};
use inflight::wait::{reap_all, settle, wait_writable, Reap, Wait};

fn op(socket: usize, kind: OpKind) -> Op {
    Op { socket, kind }
}

/// Parks a send, as a driver would.
fn park(ledger: &mut Ledger, socket: usize, buf: &[u8]) {
    let mut next = park_send(buf.len(), ParkEvent::Start);
    loop {
        next = match next {
            Park::SetSendBuffer(size) => {
                assert_eq!(size, 0);
                park_send(buf.len(), ParkEvent::Sized)
            }
            Park::Write => park_send(buf.len(), ParkEvent::Wrote(ledger.write(socket, buf))),
            Park::Flush => park_send(buf.len(), ParkEvent::Flushed(ledger.flush(socket))),
            Park::Parked => return,
            other => panic!("{:?}", other),
        }
    }
}

#[test]
fn cancelled_operations_are_reaped_after_drop() {
    let mut ledger = Ledger::new();
    let stream = ledger.connect();
    assert_eq!(ledger.pending(), 1);
    park(&mut ledger, stream, &vec![0xCD; 2 * 1024 * 1024]);
    assert_eq!(ledger.pending(), 2);

    ledger.drop_socket(stream);
    assert_eq!(ledger.pending(), 2);
    assert!(!ledger.is_released(stream));
    assert_eq!(reap_all(ledger.pending(), 10, 0), Reap::Poll(100_000_000));
    assert_eq!(reap_all(ledger.pending(), 10, 10), Reap::StillInFlight(2));

    ledger.dispatch(op(stream, OpKind::Read), Outcome::Failed(ErrorKind::Other));
    assert_eq!(ledger.pending(), 1);
    assert!(!ledger.is_released(stream));
    ledger.dispatch(op(stream, OpKind::Send), Outcome::Failed(ErrorKind::Other));
    assert_eq!(ledger.pending(), 0);
    assert!(ledger.is_released(stream));
    assert_eq!(reap_all(ledger.pending(), 10, 10), Reap::Done);
    assert_eq!(expect_closed(Watch::Read(Ok(0))), Closing::Closed);
}

#[test]
fn error_completions_are_reaped() {
    let mut ledger = Ledger::new();

    // A refused connect.
    let stream = ledger.register(SocketKind::Stream);
    assert_eq!(ledger.pending(), 1);
    ledger.dispatch(
        op(stream, OpKind::Connect),
        Outcome::Failed(ErrorKind::ConnectionRefused),
    );
    assert_eq!(ledger.pending(), 0);
    assert_eq!(ledger.take_error(stream), Some(ErrorKind::ConnectionRefused));
    assert_eq!(ledger.take_error(stream), None);
    ledger.drop_socket(stream);
    assert_eq!(ledger.pending(), 0);
    assert!(ledger.is_released(stream));

    // A recv that fails while a send is in flight.
    let udp = ledger.register(SocketKind::Udp);
    assert_eq!(ledger.pending(), 1);
    assert_eq!(ledger.write(udp, b"ping"), Ok(4));
    assert_eq!(ledger.pending(), 2);
    ledger.dispatch(op(udp, OpKind::Recv), Outcome::Failed(ErrorKind::ConnectionReset));
    ledger.dispatch(op(udp, OpKind::Send), Outcome::Done);
    ledger.drop_socket(udp);
    assert_eq!(ledger.pending(), 0);

    // A parked send whose peer resets the connection.
    let stream = ledger.connect();
    park(&mut ledger, stream, &vec![0xEF; 2 * 1024 * 1024]);
    assert_eq!(ledger.pending(), 2);
    ledger.dispatch(op(stream, OpKind::Send), Outcome::Failed(ErrorKind::ConnectionReset));
    ledger.dispatch(op(stream, OpKind::Read), Outcome::Failed(ErrorKind::ConnectionReset));
    assert_eq!(ledger.pending(), 0);
    let mut probe = Probe::new();
    assert_eq!(probe.next_attempt(), Probing::Flush);
    assert_eq!(
        probe.on_flush(ledger.flush(stream)),
        Probing::Surfaced(ErrorKind::ConnectionReset)
    );
    // An error is handed out once; afterwards flush is clean again.
    assert_eq!(ledger.flush(stream), Ok(()));
    ledger.drop_socket(stream);
    assert_eq!(ledger.pending(), 0);
    assert!(ledger.is_released(stream));
}

#[test]
fn a_send_that_counts_as_done_lets_the_next_write_trip() {
    let mut ledger = Ledger::new();
    let stream = ledger.connect();
    park(&mut ledger, stream, &[0xEF; 64]);
    ledger.dispatch(op(stream, OpKind::Send), Outcome::Done);
    let mut probe = Probe::new();
    assert_eq!(probe.next_attempt(), Probing::Flush);
    assert_eq!(probe.on_flush(ledger.flush(stream)), Probing::Write);
    assert_eq!(probe.on_write(ledger.write(stream, b"x")), Probing::Again);
    assert_eq!(probe.next_attempt(), Probing::Flush);
    assert_eq!(probe.on_flush(ledger.flush(stream)), Probing::Reap);
    ledger.dispatch(op(stream, OpKind::Send), Outcome::Failed(ErrorKind::ConnectionAborted));
    assert_eq!(probe.next_attempt(), Probing::Flush);
    assert_eq!(
        probe.on_write(ledger.write(stream, b"x")),
        Probing::Surfaced(ErrorKind::ConnectionAborted)
    );
    assert_eq!(ledger.flush(stream), Ok(()));
    assert_eq!(ledger.write(stream, b"x"), Ok(1));
}

#[test]
fn a_reset_that_never_surfaces() {
    let mut probe = Probe::new();
    for _ in 0..8 {
        assert_eq!(probe.next_attempt(), Probing::Flush);
        assert_eq!(probe.on_flush(Ok(())), Probing::Write);
        assert_eq!(probe.on_write(Ok(1)), Probing::Again);
    }
    assert_eq!(probe.next_attempt(), Probing::NeverSurfaced);
    assert_eq!(probe.next_attempt(), Probing::NeverSurfaced);
    assert_eq!(probe.on_write(Err(ErrorKind::WouldBlock)), Probing::Reap);
    assert_eq!(
        probe.on_flush(Err(ErrorKind::ConnectionRefused)),
        Probing::Unexpected(ErrorKind::ConnectionRefused)
    );
}

#[test]
fn flush_reports_in_flight_write() {
    let mut ledger = Ledger::new();
    let stream = ledger.connect();

    let buf = vec![0x5A; 4 * 1024 * 1024];
    assert_eq!(ledger.write(stream, &buf), Ok(buf.len()));

    // Nothing has been dispatched: the send is still in flight.
    assert_eq!(ledger.flush(stream), Err(ErrorKind::WouldBlock));
    // Still in flight, the state must not have been touched.
    assert_eq!(ledger.flush(stream), Err(ErrorKind::WouldBlock));
    assert_eq!(ledger.write(stream, &buf), Err(ErrorKind::WouldBlock));
    assert_eq!(ledger.pending(), 2);

    ledger.dispatch(op(stream, OpKind::Send), Outcome::Done);
    assert_eq!(ledger.flush(stream), Ok(()));
    assert_eq!(ledger.pending(), 1);
    assert!(ledger.in_flight(op(stream, OpKind::Read)));
    assert!(!ledger.in_flight(op(stream, OpKind::Send)));
}

/// A stream whose kernel takes the bytes of a send over when the send completes,
/// and none of them when the send is cancelled.
struct Stream {
    ledger: Ledger,
    number: usize,
    in_transit: Vec<u8>,
    peer: Vec<u8>,
}

impl Stream {
    fn connect() -> Stream {
        let mut ledger = Ledger::new();
        let number = ledger.connect();
        Stream { ledger, number, in_transit: Vec::new(), peer: Vec::new() }
    }

    fn write(&mut self, buf: &[u8]) -> Result<usize, ErrorKind> {
        let written = self.ledger.write(self.number, buf);
        if let Ok(n) = written {
            self.in_transit.extend_from_slice(&buf[..n]);
        }
        written
    }

    /// Polls once: the send completes, if there is one.
    fn poll(&mut self) -> Vec<Event> {
        let send = op(self.number, OpKind::Send);
        if !self.ledger.in_flight(send) {
            return Vec::new();
        }
        let readiness = self.ledger.dispatch(send, Outcome::Done);
        self.peer.append(&mut self.in_transit);
        vec![Event { token: Token(0), readiness }]
    }

    /// Drops the stream, and returns what the peer has received by then.
    fn close(mut self) -> Vec<u8> {
        self.ledger.drop_socket(self.number);
        self.ledger.settle(Outcome::Failed(ErrorKind::Other));
        assert!(self.ledger.is_released(self.number));
        self.peer
    }
}

#[test]
fn flush_then_drop_delivers_everything() {
    let mut stream = Stream::connect();

    let buf = vec![0xA5; 8 * 1024 * 1024];
    assert_eq!(stream.write(&buf), Ok(buf.len()));

    let mut waits = 0;
    loop {
        let flushed = stream.ledger.flush(stream.number);
        match flush_until_taken(flushed) {
            Flush::Drop => break,
            Flush::WaitWritable => {
                waits += 1;
                let events = stream.poll();
                assert_eq!(wait_writable(Some(&events), Token(0), 1, 0), Wait::Found);
            }
            Flush::Failed(e) => panic!("flush failed: {:?}", e),
        }
    }
    assert_eq!(waits, 1);
    assert_eq!(expect_exactly(&stream.close(), &buf), Ok(()));
    assert_eq!(
        flush_until_taken(Err(ErrorKind::ConnectionReset)),
        Flush::Failed(ErrorKind::ConnectionReset)
    );
}

#[test]
fn a_drop_before_the_flush_truncates() {
    let mut stream = Stream::connect();
    assert_eq!(stream.write(&[1, 2]), Ok(2));
    assert_eq!(stream.poll().len(), 1);
    assert_eq!(stream.write(&[3, 4]), Ok(2));
    let number = stream.number;
    assert_eq!(stream.ledger.flush(number), Err(ErrorKind::WouldBlock));
    assert_eq!(
        expect_exactly(&stream.close(), &[1, 2, 3, 4]),
        Err(Mismatch::Length { got: 2, expected: 4 })
    );
}

#[test]
fn completions_are_reported_to_an_owner_that_is_around() {
    let both = Readiness::readable().union(Readiness::writable());
    let failed = Outcome::Failed(ErrorKind::ConnectionReset);
    let mut ledger = Ledger::new();

    let listener = ledger.register(SocketKind::Listener);
    assert_eq!(
        ledger.dispatch(op(listener, OpKind::Accept), Outcome::Done),
        Readiness::readable()
    );
    let udp = ledger.register(SocketKind::Udp);
    assert_eq!(ledger.dispatch(op(udp, OpKind::Recv), failed), Readiness::readable());
    let refused = ledger.register(SocketKind::Stream);
    assert_eq!(ledger.dispatch(op(refused, OpKind::Connect), failed), both);
    let stream = ledger.register(SocketKind::Stream);
    assert_eq!(
        ledger.dispatch(op(stream, OpKind::Connect), Outcome::Done),
        Readiness::writable()
    );
    assert_eq!(ledger.write(stream, b"x"), Ok(1));
    assert_eq!(ledger.dispatch(op(stream, OpKind::Send), failed), Readiness::writable());
    assert_eq!(ledger.flush(stream), Err(ErrorKind::ConnectionReset));
    assert_eq!(ledger.write(stream, b"x"), Ok(1));
    ledger.drop_socket(stream);
    assert_eq!(ledger.dispatch(op(stream, OpKind::Send), Outcome::Done), Readiness::empty());
    assert_eq!(ledger.dispatch(op(stream, OpKind::Read), failed), Readiness::empty());
}

#[test]
fn a_write_of_nothing() {
    let mut ledger = Ledger::new();
    let stream = ledger.connect();
    assert_eq!(ledger.write(stream, &[]), Ok(0));
    assert_eq!(ledger.pending(), 1);
    assert_eq!(ledger.write(stream, &[7]), Ok(1));
    // Even while a send is in flight there is nothing to wait for.
    assert_eq!(ledger.write(stream, &[]), Ok(0));
    assert_eq!(ledger.write(stream, &[7]), Err(ErrorKind::WouldBlock));
    ledger.dispatch(op(stream, OpKind::Send), Outcome::Failed(ErrorKind::ConnectionReset));
    assert_eq!(ledger.write(stream, &[]), Ok(0));
    assert_eq!(ledger.flush(stream), Err(ErrorKind::ConnectionReset));

    // A datagram may be empty.
    let udp = ledger.register(SocketKind::Udp);
    assert_eq!(ledger.write(udp, &[]), Ok(0));
    assert!(ledger.in_flight(op(udp, OpKind::Send)));
}

#[test]
fn write_pending_then_drop_releases_socket() {
    let mut ledger = Ledger::new();
    let s2 = ledger.connect();

    // Fill the connection until a write is left pending.
    let chunk = vec![0xAB; 64 * 1024];
    let mut fill = Fill::new();
    let mut next = Filling::WriteOn;
    while next == Filling::WriteOn {
        next = fill.on_write(ledger.write(s2, &chunk));
    }
    assert_eq!(next, Filling::Pending);
    assert_eq!(fill.written(), 64 * 1024);

    ledger.drop_socket(s2);
    assert!(!ledger.is_released(s2));

    // Let the completions be delivered.
    let cancelled = Outcome::Failed(ErrorKind::Other);
    let mut completions = vec![op(s2, OpKind::Read), op(s2, OpKind::Send)];
    let mut polls = 0;
    while let Some(timeout) = settle(polls) {
        assert_eq!(timeout, 100_000_000);
        if let Some(completion) = completions.pop() {
            ledger.dispatch(completion, cancelled);
        }
        polls += 1;
    }
    assert_eq!(polls, 10);
    assert!(ledger.is_released(s2));

    // The peer reads what the kernel had accepted, and then sees the reset.
    let mut drain = Drain::new();
    assert_eq!(drain.next(Watch::Start), Closing::LimitReads(10_000_000_000));
    assert_eq!(drain.next(Watch::Limited), Closing::Read(64 * 1024));
    assert_eq!(drain.next(Watch::Read(Ok(1000))), Closing::Read(64 * 1024));
    assert_eq!(drain.next(Watch::Read(Ok(24))), Closing::Read(64 * 1024));
    assert_eq!(drain.next(Watch::Read(Err(ErrorKind::ConnectionReset))), Closing::Closed);
    assert_eq!(drain.total(), 1024);
    assert!(drain.within(fill.written()));
    assert!(drain.within(1024));
    assert!(!drain.within(1023));
}

#[test]
fn filling_has_a_limit() {
    let mut fill = Fill::new();
    assert_eq!(fill.on_write(Ok(FILL_LIMIT)), Filling::WriteOn);
    assert_eq!(fill.written(), 256 * 1024 * 1024);
    assert_eq!(fill.on_write(Ok(1)), Filling::NeverBlocked);
    assert_eq!(fill.on_write(Ok(usize::MAX)), Filling::NeverBlocked);
    assert_eq!(fill.on_write(Err(ErrorKind::WouldBlock)), Filling::Pending);
    assert_eq!(
        fill.on_write(Err(ErrorKind::Other)),
        Filling::Failed(ErrorKind::Other)
    );
    assert_eq!(fill.written(), 256 * 1024 * 1024);
}

#[test]
fn every_way_in_which_a_send_is_not_parked() {
    assert_eq!(park_send(5, ParkEvent::Start), Park::SetSendBuffer(0));
    assert_eq!(park_send(5, ParkEvent::Sized), Park::Write);
    assert_eq!(park_send(5, ParkEvent::Wrote(Ok(5))), Park::Flush);
    assert_eq!(park_send(5, ParkEvent::Wrote(Ok(4))), Park::ShortWrite(4));
    assert_eq!(
        park_send(5, ParkEvent::Wrote(Err(ErrorKind::WouldBlock))),
        Park::WriteFailed(ErrorKind::WouldBlock)
    );
    assert_eq!(park_send(5, ParkEvent::Flushed(Ok(()))), Park::NotInFlight);
    assert_eq!(
        park_send(5, ParkEvent::Flushed(Err(ErrorKind::WouldBlock))),
        Park::Parked
    );
    assert_eq!(
        park_send(5, ParkEvent::Flushed(Err(ErrorKind::ConnectionReset))),
        Park::FlushFailed(ErrorKind::ConnectionReset)
    );
}

/// The steps of parking a send, where the write and the flush return this.
fn parking(len: usize, write: Result<usize, ErrorKind>, flush: Result<(), ErrorKind>) -> Vec<Park> {
    let mut steps = Vec::new();
    let mut event = ParkEvent::Start;
    loop {
        let step = park_send(len, event);
        steps.push(step);
        event = match step {
            Park::SetSendBuffer(_) => ParkEvent::Sized,
            Park::Write => ParkEvent::Wrote(write),
            Park::Flush => ParkEvent::Flushed(flush),
            _ => return steps,
        };
    }
}

#[test]
fn a_send_is_parked_step_by_step() {
    let wait = Err(ErrorKind::WouldBlock);
    let sized = Park::SetSendBuffer(0);
    assert_eq!(parking(5, Ok(5), wait), [sized, Park::Write, Park::Flush, Park::Parked]);
    assert_eq!(parking(5, Ok(5), Ok(())), [sized, Park::Write, Park::Flush, Park::NotInFlight]);
    assert_eq!(parking(5, Ok(4), wait), [sized, Park::Write, Park::ShortWrite(4)]);
    assert_eq!(
        parking(5, Err(ErrorKind::WouldBlock), wait),
        [sized, Park::Write, Park::WriteFailed(ErrorKind::WouldBlock)]
    );
    assert_eq!(
        parking(5, Ok(5), Err(ErrorKind::ConnectionReset)),
        [sized, Park::Write, Park::Flush, Park::FlushFailed(ErrorKind::ConnectionReset)]
    );
}

#[test]
fn a_send_is_parked_where_a_write_issues_it() {
    let mut ledger = Ledger::new();
    let stream = ledger.connect();

    // An empty write issues nothing, so there is nothing for the flush to wait for.
    let write = ledger.write(stream, &[]);
    let flush = ledger.flush(stream);
    assert_eq!(parking(0, write, flush).last(), Some(&Park::NotInFlight));

    park(&mut ledger, stream, b"parked");
    assert!(ledger.in_flight(op(stream, OpKind::Send)));

    // Behind it no other send is parked, and an empty write finds this one.
    let write = ledger.write(stream, b"late");
    let flush = ledger.flush(stream);
    assert_eq!(
        parking(4, write, flush).last(),
        Some(&Park::WriteFailed(ErrorKind::WouldBlock))
    );
    let write = ledger.write(stream, &[]);
    let flush = ledger.flush(stream);
    assert_eq!(parking(0, write, flush).last(), Some(&Park::Parked));
}

#[test]
fn what_a_peer_reads() {
    assert_eq!(expect_closed(Watch::Start), Closing::LimitReads(30_000_000_000));
    assert_eq!(expect_closed(Watch::Limited), Closing::Read(64 * 1024));
    assert_eq!(expect_closed(Watch::Read(Ok(0))), Closing::Closed);
    assert_eq!(expect_closed(Watch::Read(Ok(1))), Closing::Read(64 * 1024));
    assert_eq!(expect_closed(Watch::Read(Err(ErrorKind::ConnectionReset))), Closing::Closed);
    assert_eq!(expect_closed(Watch::Read(Err(ErrorKind::ConnectionAborted))), Closing::Closed);
    assert_eq!(
        expect_closed(Watch::Read(Err(ErrorKind::WouldBlock))),
        Closing::NotReleased(ErrorKind::WouldBlock)
    );
    assert_eq!(expect_exactly(&[], &[]), Ok(()));
    assert_eq!(
        expect_exactly(&[1, 2], &[1, 2, 3]),
        Err(Mismatch::Length { got: 2, expected: 3 })
    );
    assert_eq!(expect_exactly(&[1, 2, 4], &[1, 2, 3]), Err(Mismatch::Corrupted));
}

#[test]
fn an_owner_that_is_gone_is_told_nothing_and_parks_nothing() {
    let mut ledger = Ledger::new();
    let late = ledger.register(SocketKind::Stream);
    ledger.drop_socket(late);
    assert_eq!(ledger.pending(), 1);
    // The connect was done before it could be cancelled.
    ledger.dispatch(op(late, OpKind::Connect), Outcome::Done);
    assert_eq!(ledger.pending(), 0);
    assert!(ledger.is_released(late));
    assert!(!ledger.socket(late).connected);
    assert_eq!(ledger.sockets(), 1);
}

#[test]
fn a_connect_is_replaced_by_the_read_that_parks_the_stream() {
    let mut ledger = Ledger::new();
    let stream = ledger.register(SocketKind::Stream);
    assert_eq!(ledger.pending(), 1);
    assert!(ledger.in_flight(op(stream, OpKind::Connect)));
    ledger.dispatch(op(stream, OpKind::Connect), Outcome::Done);
    assert_eq!(ledger.pending(), 1);
    assert!(!ledger.in_flight(op(stream, OpKind::Connect)));
    assert!(ledger.in_flight(op(stream, OpKind::Read)));
    assert!(ledger.socket(stream).connected);
}
