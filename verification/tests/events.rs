//! Batches of events out of a poll of mio. No network is needed: the readiness of
//! the sockets is set by hand, and the bytes of a stream go through a pipe.

use std::io::{pipe, PipeWriter, Read, Write};

use inflight::peer::expect_read;
use inflight::readiness::{
    mentions, reports, reports_writable, sole_event, Event, NotSole, Readiness, Token,
};
use inflight::wait::{wait_any, wait_for, wait_for_token, wait_writable, Untimed, Wait};
use mio::{Events, Poll, PollOpt, Ready, Registration, SetReadiness};

fn batch(events: &Events) -> Vec<Event> {
    events
        .iter()
        .map(|e| Event {
            token: Token(e.token().0),
            readiness: Readiness { bits: e.readiness().as_usize() },
        })
        .collect()
}

/// Polls until something is ready.
fn next_batch(poll: &Poll) -> Vec<Event> {
    let mut events = Events::with_capacity(1024);
    let mut last: Option<Vec<Event>> = None;
    while wait_any(last.as_deref()) == Untimed::Poll {
        poll.poll(&mut events, None).unwrap();
        last = Some(batch(&events));
    }
    last.unwrap()
}

/// A socket that is ready for what it is told to be.
fn socket(poll: &Poll, token: usize, interest: Ready) -> (Registration, SetReadiness) {
    let (registration, readiness) = Registration::new2();
    poll.register(&registration, mio::Token(token), interest, PollOpt::edge()).unwrap();
    (registration, readiness)
}

/// The sending end of a stream.
struct Sender {
    registration: Registration,
    wire: PipeWriter,
}

#[test]
fn write_then_drop() {
    drop(::env_logger::init());

    let poll = Poll::new().unwrap();
    let (_a, a_ready) = socket(&poll, 1, Ready::readable());
    let (s, s_ready) = socket(&poll, 3, Ready::empty());
    let (mut wire, end) = pipe().unwrap();

    a_ready.set_readiness(Ready::readable()).unwrap();
    let events = next_batch(&poll);
    assert_eq!(events.len(), 1);
    assert_eq!(events[0].token, Token(1));
    assert_eq!(sole_event(&events, Token(1)), Ok(()));

    let (registration, s2_ready) = socket(&poll, 2, Ready::writable());
    let mut s2 = Sender { registration, wire: end };
    s2_ready.set_readiness(Ready::writable()).unwrap();
    let events = next_batch(&poll);
    assert_eq!(events.len(), 1);
    assert_eq!(events[0].token, Token(2));
    assert_eq!(sole_event(&events, Token(2)), Ok(()));

    s2.wire.write_all(&[1, 2, 3, 4]).unwrap();
    drop(s2);

    poll.reregister(&s, mio::Token(3), Ready::readable(), PollOpt::edge()).unwrap();
    s_ready.set_readiness(Ready::readable()).unwrap();
    let events = next_batch(&poll);
    assert_eq!(events.len(), 1);
    assert_eq!(events[0].token, Token(3));
    assert_eq!(sole_event(&events, Token(3)), Ok(()));

    let mut buf = [0; 10];
    let n = wire.read(&mut buf).unwrap();
    assert_eq!(n, 4);
    assert_eq!(&buf[0..4], &[1, 2, 3, 4]);
    assert_eq!(expect_read(n, &buf, &[1, 2, 3, 4]), Ok(()));
    // The sending end is gone: nothing follows.
    assert_eq!(wire.read(&mut buf).unwrap(), 0);
}

#[test]
fn write_then_deregister() {
    drop(::env_logger::init());

    let poll = Poll::new().unwrap();
    let (_a, a_ready) = socket(&poll, 1, Ready::readable());
    let (s, s_ready) = socket(&poll, 3, Ready::empty());
    let (mut wire, end) = pipe().unwrap();

    a_ready.set_readiness(Ready::readable()).unwrap();
    let events = next_batch(&poll);
    assert_eq!(events.len(), 1);
    assert_eq!(events[0].token, Token(1));
    assert_eq!(sole_event(&events, Token(1)), Ok(()));

    let (registration, s2_ready) = socket(&poll, 2, Ready::writable());
    let mut s2 = Sender { registration, wire: end };
    s2_ready.set_readiness(Ready::writable()).unwrap();
    let events = next_batch(&poll);
    assert_eq!(events.len(), 1);
    assert_eq!(events[0].token, Token(2));
    assert_eq!(sole_event(&events, Token(2)), Ok(()));

    s2.wire.write_all(&[1, 2, 3, 4]).unwrap();
    poll.deregister(&s2.registration).unwrap();

    poll.reregister(&s, mio::Token(3), Ready::readable(), PollOpt::edge()).unwrap();
    s_ready.set_readiness(Ready::readable()).unwrap();
    let events = next_batch(&poll);
    assert_eq!(events.len(), 1);
    assert_eq!(events[0].token, Token(3));
    assert_eq!(sole_event(&events, Token(3)), Ok(()));

    let mut buf = [0; 10];
    let n = wire.read(&mut buf).unwrap();
    assert_eq!(n, 4);
    assert_eq!(&buf[0..4], &[1, 2, 3, 4]);
    assert_eq!(expect_read(n, &buf, &[1, 2, 3, 4]), Ok(()));
    // The sending end is still there.
    s2.wire.write_all(&[5]).unwrap();
    assert_eq!(wire.read(&mut buf).unwrap(), 1);
}

#[test]
fn waits_for_the_right_socket_and_direction() {
    let poll = Poll::new().unwrap();
    let both = Ready::readable() | Ready::writable();
    let (_one, one_ready) = socket(&poll, 10, both);
    let (_two, two_ready) = socket(&poll, 11, both);

    one_ready.set_readiness(Ready::readable()).unwrap();
    let events = next_batch(&poll);
    assert!(reports(&events, Token(10), Readiness::readable()));
    assert!(!reports(&events, Token(10), Readiness::writable()));
    assert!(!reports_writable(&events, Token(10)));
    assert!(!reports(&events, Token(11), Readiness::readable()));
    assert!(mentions(&events, Token(10)));
    assert!(!mentions(&events, Token(11)));
    let last = Some(&events[..]);
    assert_eq!(wait_for(last, Token(10), Readiness::readable(), 9, 5), Wait::Found);
    assert_eq!(wait_writable(last, Token(10), 9, 5), Wait::Poll(4));
    assert_eq!(wait_for_token(last, Token(10)), Untimed::Stop);
    assert_eq!(wait_for_token(last, Token(11)), Untimed::Poll);

    two_ready.set_readiness(both).unwrap();
    let events = next_batch(&poll);
    assert!(reports(&events, Token(11), Readiness::readable().union(Readiness::writable())));
    assert!(reports_writable(&events, Token(11)));
    let last = Some(&events[..]);
    assert_eq!(wait_writable(last, Token(11), 9, 9), Wait::Found);
    assert_eq!(wait_writable(last, Token(10), 9, 9), Wait::TimedOut);
}

#[test]
fn a_wait_starts_with_a_poll() {
    assert_eq!(wait_for(None, Token(1), Readiness::empty(), 9, 2), Wait::Poll(7));
    assert_eq!(wait_for(None, Token(1), Readiness::empty(), 9, 9), Wait::TimedOut);
    assert_eq!(wait_writable(None, Token(1), 9, 2), Wait::Poll(7));
    assert_eq!(wait_any(None), Untimed::Poll);
    assert_eq!(wait_any(Some(&[])), Untimed::Poll);
    assert_eq!(wait_for_token(None, Token(1)), Untimed::Poll);
    assert_eq!(wait_for_token(Some(&[]), Token(1)), Untimed::Poll);
}

#[test]
fn a_whole_wait() {
    let event = |token, readiness| Event { token: Token(token), readiness };
    let polled = [
        vec![event(4, Readiness::writable())],
        vec![event(5, Readiness::readable())],
        vec![event(4, Readiness::readable()), event(5, Readiness::writable())],
    ];
    let mut last: Option<&[Event]> = None;
    let mut polls = 0;
    loop {
        match wait_for(last, Token(5), Readiness::writable(), 100, 10 * polls as u64) {
            Wait::Found => break,
            Wait::Poll(timeout) => {
                assert_eq!(timeout, 100 - 10 * polls as u64);
                last = Some(&polled[polls]);
                polls += 1;
            }
            Wait::TimedOut => panic!("timed out"),
        }
    }
    assert_eq!(polls, 3);
}

#[test]
fn readiness_sets_are_those_of_mio() {
    assert_eq!(Readiness::readable().bits, Ready::readable().as_usize());
    assert_eq!(Readiness::writable().bits, Ready::writable().as_usize());
    assert_eq!(Readiness::empty().bits, Ready::empty().as_usize());
    assert_eq!(Readiness::empty().bits, 0);
    assert_eq!(Readiness::readable().bits, 1);
    assert_eq!(Readiness::writable().bits, 2);
    assert_eq!(Readiness::readable().union(Readiness::writable()).bits, 3);
    for a in 0..16 {
        let set = Readiness { bits: a };
        assert_eq!(set.is_writable(), Ready::from_usize(a).is_writable());
        for b in 0..16 {
            let other = Readiness { bits: b };
            assert_eq!(set.contains(other), a & b == b);
            assert_eq!(set.union(other).bits, a | b);
            assert!(set.union(other).contains(set) && set.union(other).contains(other));
        }
    }
}

#[test]
fn a_batch_that_is_not_a_sole_event() {
    let event = |token| Event { token: Token(token), readiness: Readiness::readable() };
    assert_eq!(sole_event(&[], Token(1)), Err(NotSole::Count(0)));
    assert_eq!(sole_event(&[event(1), event(1)], Token(1)), Err(NotSole::Count(2)));
    assert_eq!(sole_event(&[event(2)], Token(1)), Err(NotSole::Token(Token(2))));
    assert_eq!(sole_event(&[event(1)], Token(1)), Ok(()));
}
