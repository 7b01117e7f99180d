//! A whole round, against a poll that keeps a count of its own, and the loops
//! around it.

use inflight::account::{Outcome, SocketKind};
use inflight::connecting::{connect, Next, Plan, Progress, PEER_BUFFER};
use inflight::exercise::{
    Exercise, Step, Task, PEERS, READERS, SEND_BYTE, SEND_LEN, STREAMS, WRITERS,
};
use inflight::handles::{handle_count, quiet_window, Window};
use inflight::kind::ErrorKind;
use inflight::ledger::Ledger;
use inflight::peer::{expect_read, Mismatch};
use inflight::readiness::{Readiness, Registration, Token, Trigger};
use inflight::wait::{deadline, reap_all, reap_until_done, Join, Reap, TIMEOUT};

fn edge(token: usize, interest: Readiness) -> Registration {
    Registration { token: Token(token), interest, trigger: Trigger::Edge }
}

/// A poll that counts what it is asked to issue.
struct Counter {
    pending: usize,
    cancelled: bool,
}

/// Carries out a round and returns the tasks and the counts before each.
fn play(counter: &mut Counter) -> Vec<(usize, Task)> {
    let mut round = Exercise::new();
    assert!(round.payload().len() == SEND_LEN && round.payload().iter().all(|b| *b == SEND_BYTE));
    let mut played = Vec::new();
    loop {
        let task = match round.step(counter.pending) {
            Step::Do(task) => task,
            Step::Finished => return played,
            Step::Miscounted { expected, counted } => {
                panic!("{} in flight, {} counted", expected, counted)
            }
        };
        played.push((counter.pending, task));
        match task {
            Task::Listen(..)
            | Task::Receive(..)
            | Task::Connect(..)
            | Task::Park(..)
            | Task::ConnectLate(..) => counter.pending += 1,
            Task::DropAll => counter.cancelled = true,
            Task::Reap => {
                assert!(counter.cancelled);
                let mut now = 0;
                loop {
                    match reap_all(counter.pending, deadline(0), now) {
                        Reap::Done => break,
                        Reap::Poll(slice) => {
                            now += slice;
                            counter.pending -= 1;
                        }
                        Reap::StillInFlight(n) => panic!("{} still in flight", n),
                    }
                }
            }
            Task::ExpectClosed(_) | Task::Rebind => assert_eq!(counter.pending, 0),
        }
    }
}

#[test]
fn counts_every_kind_of_operation() {
    let mut counter = Counter { pending: 0, cancelled: false };
    // The first round opens handles that stay around, the second does not.
    let counts = [10, 14, 14];
    let mut rounds = 0;
    loop {
        let before = handle_count(1, counts[rounds]).unwrap();
        let played = play(&mut counter);
        rounds += 1;
        let after = handle_count(1, counts[rounds]).unwrap();
        assert_eq!(played.len(), 24);
        match quiet_window(before, after, deadline(0), 0) {
            Window::Quiet => break,
            Window::Rest(rest) => assert_eq!(rest, 50_000_000),
            Window::Grew { before, after } => panic!("{} to {}", before, after),
        }
    }
    assert_eq!(rounds, 2);
}

#[test]
fn a_round_asks_for_its_tasks_in_order() {
    let readable = Readiness::readable();
    let writable = Readiness::writable();
    let both = readable.union(writable);
    let mut tasks = vec![
        (0, Task::Listen(edge(1, readable))),
        (1, Task::Receive(edge(2, readable))),
    ];
    for i in 0..7 {
        tasks.push((2 + i, Task::Connect(edge(10 + i, both))));
    }
    for i in 0..3 {
        tasks.push((9 + i, Task::Park(4 + i)));
    }
    tasks.push((12, Task::ConnectLate(edge(3, writable))));
    tasks.push((13, Task::DropAll));
    tasks.push((13, Task::Reap));
    for i in 0..8 {
        tasks.push((0, Task::ExpectClosed(i)));
    }
    tasks.push((0, Task::Rebind));
    assert_eq!(play(&mut Counter { pending: 0, cancelled: false }), tasks);
    assert_eq!((READERS, WRITERS, STREAMS, PEERS), (4, 3, 7, 8));
    assert_eq!((PEER_BUFFER, SEND_LEN), (64 * 1024, 2 * 1024 * 1024));
}

#[test]
fn a_round_stops_at_a_wrong_count() {
    let mut round = Exercise::new();
    assert_eq!(round.expected(), Some(0));
    assert_eq!(round.step(1), Step::Miscounted { expected: 0, counted: 1 });
    assert!(matches!(round.step(0), Step::Do(Task::Listen(..))));
    assert_eq!(round.expected(), Some(1));
    assert_eq!(round.step(0), Step::Miscounted { expected: 1, counted: 0 });
    for count in 1..9 {
        assert!(matches!(round.step(count), Step::Do(_)));
    }
    assert_eq!(round.expected(), Some(9));
    assert_eq!(round.step(9), Step::Do(Task::Park(4)));
    // Between two parked sends the count is not looked at.
    assert_eq!(round.expected(), None);
    assert_eq!(round.step(99), Step::Do(Task::Park(5)));
    assert_eq!(round.step(99), Step::Do(Task::Park(6)));
    assert_eq!(round.expected(), Some(12));
    assert_eq!(round.step(99), Step::Miscounted { expected: 12, counted: 99 });
    assert!(matches!(round.step(12), Step::Do(Task::ConnectLate(..))));
    assert_eq!(round.step(13), Step::Do(Task::DropAll));
    // Dropping takes nothing off the count.
    assert_eq!(round.step(0), Step::Miscounted { expected: 13, counted: 0 });
    assert_eq!(round.step(13), Step::Do(Task::Reap));
    assert_eq!(round.expected(), None);
}

#[test]
fn handles_are_counted_where_the_call_succeeded() {
    assert_eq!(handle_count(1, 7), Some(7));
    assert_eq!(handle_count(-1, 7), Some(7));
    assert_eq!(handle_count(0, 7), None);
    assert_eq!(quiet_window(10, 10, 5, 9), Window::Quiet);
    assert_eq!(quiet_window(10, 9, 5, 9), Window::Quiet);
    assert_eq!(quiet_window(10, 11, 5, 4), Window::Rest(50_000_000));
    assert_eq!(quiet_window(10, 11, 5, 5), Window::Grew { before: 10, after: 11 });
}

/// The number of sockets that are not gone.
fn unreleased(ledger: &Ledger) -> u32 {
    (0..ledger.sockets()).filter(|s| !ledger.is_released(*s)).count() as u32
}

#[test]
fn a_round_leaves_no_handle_behind() {
    let mut ledger = Ledger::new();
    let mut round = Exercise::new();
    let mut streams = Vec::new();
    let before = 100;
    loop {
        let task = match round.step(ledger.pending()) {
            Step::Do(task) => task,
            Step::Finished => break,
            Step::Miscounted { expected, counted } => {
                panic!("{} in flight, {} counted", expected, counted)
            }
        };
        match task {
            Task::Listen(..) => {
                ledger.register(SocketKind::Listener);
            }
            Task::Receive(..) => {
                ledger.register(SocketKind::Udp);
            }
            Task::Connect(..) => streams.push(ledger.connect()),
            Task::Park(i) => {
                assert_eq!(ledger.write(streams[i], round.payload()), Ok(SEND_LEN));
            }
            Task::ConnectLate(..) => {
                ledger.register(SocketKind::Stream);
            }
            Task::DropAll => {
                for socket in 0..ledger.sockets() {
                    ledger.drop_socket(socket);
                }
            }
            Task::Reap => {
                // Every socket is dropped, and every one is still a handle.
                let after = before + unreleased(&ledger);
                assert_eq!(after, 110);
                assert_eq!(quiet_window(before, after, 5, 5), Window::Grew { before, after });
                ledger.settle(Outcome::Failed(ErrorKind::ConnectionAborted));
            }
            Task::ExpectClosed(_) | Task::Rebind => assert_eq!(unreleased(&ledger), 0),
        }
    }
    assert_eq!(quiet_window(before, before + unreleased(&ledger), 5, 5), Window::Quiet);
}

#[test]
fn loops_take_thirty_seconds_at_most() {
    assert_eq!(TIMEOUT, 30_000_000_000);
    assert_eq!(deadline(5), 30_000_000_005);
    assert_eq!(reap_all(1, deadline(0), TIMEOUT - 1), Reap::Poll(100_000_000));
    assert_eq!(reap_all(1, deadline(0), TIMEOUT), Reap::StillInFlight(1));
    assert_eq!(reap_until_done(false), Join::Poll(10_000_000));
    assert_eq!(reap_until_done(true), Join::Join);
}

#[test]
fn a_read_that_is_not_the_expected_one() {
    let buf = [1, 2, 3, 4, 0, 0, 0, 0, 0, 0];
    assert_eq!(expect_read(4, &buf, &[1, 2, 3, 4]), Ok(()));
    assert_eq!(
        expect_read(3, &buf, &[1, 2, 3, 4]),
        Err(Mismatch::Length { got: 3, expected: 4 })
    );
    assert_eq!(expect_read(4, &buf, &[1, 2, 3, 5]), Err(Mismatch::Corrupted));
}

/// Does everything that a plan asks for, with a kernel that gives send buffers
/// of this size.
fn set_up(plan: &Plan, kernel: usize) -> Vec<Next> {
    let mut done = Vec::new();
    let mut event = Progress::Start;
    loop {
        let next = connect(plan, event);
        done.push(next);
        event = match next {
            Next::Connect => Progress::Connected,
            Next::Register(..) => Progress::Registered,
            Next::Accept => Progress::Accepted,
            Next::SetPeerBuffer(_) => Progress::PeerSized,
            Next::SetPeerTimeout(_) => Progress::PeerTimed,
            Next::WaitFor(..) | Next::WaitWritable(_) => Progress::Writable,
            Next::SetSendBuffer(_) => Progress::SendSized,
            Next::GetSendBuffer => Progress::SendBufferIs(kernel),
            Next::Ready | Next::WrongSendBuffer(_) => return done,
        };
    }
}

#[test]
fn a_parked_stream_is_set_up() {
    let both = Readiness::readable().union(Readiness::writable());
    assert_eq!(
        set_up(&Plan::both_ways(Token(10)), 0),
        vec![
            Next::Connect,
            Next::Register(edge(10, both)),
            Next::Accept,
            Next::SetPeerBuffer(64 * 1024),
            Next::WaitFor(Token(10), Readiness::writable()),
            Next::Ready,
        ]
    );
}

#[test]
fn a_stream_without_a_send_buffer_is_set_up() {
    let plan = Plan::unbuffered(Token(0), 64 * 1024);
    let done = set_up(&plan, 0);
    assert_eq!(
        done,
        vec![
            Next::Connect,
            Next::Register(edge(0, Readiness::writable())),
            Next::Accept,
            Next::SetPeerBuffer(64 * 1024),
            Next::SetPeerTimeout(30_000_000_000),
            Next::WaitWritable(Token(0)),
            Next::SetSendBuffer(0),
            Next::GetSendBuffer,
            Next::Ready,
        ]
    );
    assert_eq!(set_up(&plan, 8192).last(), Some(&Next::WrongSendBuffer(8192)));
    // A plan that sets no send buffer does not expect to hear of one.
    let parked = Plan::parked(edge(0, Readiness::writable()));
    assert_eq!(connect(&parked, Progress::SendBufferIs(0)), Next::WrongSendBuffer(0));
}
