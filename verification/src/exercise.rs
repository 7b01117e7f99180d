//! A round that has every kind of operation in flight at once.
//!
//! Every kind of operation counts exactly once while it is in flight, and the
//! count only returns to zero once all the cancellations that dropping the
//! sockets issued have been dispatched, at which point the sockets are really
//! gone. A driver carries out the tasks of the round and reports the poll's own
//! count before it asks for the next one; the round holds the count against the
//! account of what it has asked for.

use vstd::prelude::*;

use crate::account::{Account, Bytes, Op, OpKind, Outcome, Socket, SocketKind};
use crate::handles::window_decision;
use crate::kind::ErrorKind;
use crate::laws::{
    law_dropped, law_registered, law_released, law_settled, law_written, law_zero_means_gone,
    lemma_sockets_replaced,
};
use crate::ledger::Ledger;
use crate::readiness::{Readiness, Registration, Token};

verus! {

/// The streams on which nothing but a read is parked.
pub const READERS: usize = 4;

/// The streams on which a send is parked on top of the read.
pub const WRITERS: usize = 3;

/// All of the connected streams.
pub const STREAMS: usize = 7;

/// The peers of the connected streams, and that of the late one.
pub const PEERS: usize = 8;

/// The length of a parked send: 2 MiB.
pub const SEND_LEN: usize = 2_097_152;

/// The byte that a parked send repeats.
pub const SEND_BYTE: u8 = 0xAB;

/// How far a round has come.
#[derive(Clone, Copy, Debug, PartialEq, Eq, Structural)]
pub enum Stage {
    /// Nothing has happened.
    Start,
    /// The listener is registered.
    Listening,
    /// The UDP socket is registered.
    Receiving,
    /// So many streams are connected.
    Connected(usize),
    /// So many sends are parked.
    Parked(usize),
    /// The late connect is issued.
    Late,
    /// All sockets are dropped.
    Dropped,
    /// Everything is reaped.
    Reaped,
    /// So many peers have seen their stream closed.
    Closed(usize),
    /// The ports of the listener and the UDP socket could be bound again.
    Rebound,
}

/// What a driver has to do.
#[derive(Clone, Copy, Debug, PartialEq, Eq, Structural)]
pub enum Task {
    /// Bind the peers' listener, and register a listener that nobody connects to.
    Listen(Registration),
    /// Register a UDP socket that nobody sends to.
    Receive(Registration),
    /// Connect a stream to a blocking peer and see the connect dispatched.
    Connect(Registration),
    /// Park a send on the stream with this number.
    Park(usize),
    /// Connect a stream to a blocking peer without polling.
    ConnectLate(Registration),
    /// Drop the streams, the late one, the listener and the UDP socket.
    DropAll,
    /// Poll until nothing is in flight.
    Reap,
    /// See the peer with this number observe that its stream is closed.
    ExpectClosed(usize),
    /// Drop the peers' listener and bind the ports of the listener and of the
    /// UDP socket again.
    Rebind,
}

/// What comes of asking for the next task.
#[derive(Clone, Copy, Debug, PartialEq, Eq, Structural)]
pub enum Step {
    /// Do this.
    Do(Task),
    /// The poll counts wrongly.
    Miscounted {
        /// The number of operations in flight.
        expected: usize,
        /// What the poll counts.
        counted: usize,
    },
    /// The round is over.
    Finished,
}

/// Reading and writing.
pub open spec fn both_ways() -> Readiness {
    Readiness::spec_readable().spec_union(Readiness::spec_writable())
}

/// The number of streams that are connected at this stage.
pub open spec fn connected_at(stage: Stage) -> int {
    match stage {
        Stage::Start | Stage::Listening | Stage::Receiving => 0,
        Stage::Connected(k) => k as int,
        _ => STREAMS as int,
    }
}

/// The number of sends that are parked at this stage.
pub open spec fn parked_at(stage: Stage) -> int {
    match stage {
        Stage::Start | Stage::Listening | Stage::Receiving | Stage::Connected(_) => 0,
        Stage::Parked(k) => k as int,
        _ => WRITERS as int,
    }
}

/// The late connect has been issued at this stage.
pub open spec fn late_at(stage: Stage) -> bool {
    !(stage is Start || stage is Listening || stage is Receiving || stage is Connected
        || stage is Parked)
}

/// The sockets have been dropped at this stage.
pub open spec fn dropped_at(stage: Stage) -> bool {
    late_at(stage) && !(stage is Late)
}

/// Everything has been reaped at this stage.
pub open spec fn reaped_at(stage: Stage) -> bool {
    dropped_at(stage) && !(stage is Dropped)
}

/// The stage is one that a round comes through.
pub open spec fn stage_wf(stage: Stage) -> bool {
    match stage {
        Stage::Connected(k) => 1 <= k <= STREAMS,
        Stage::Parked(k) => 1 <= k <= WRITERS,
        Stage::Closed(k) => 1 <= k <= PEERS,
        _ => true,
    }
}

/// The count that is checked at this stage, if one is. Between two parked sends
/// none is, nor once everything is reaped.
pub open spec fn expected_at(stage: Stage) -> Option<int> {
    match stage {
        Stage::Start => Some(0),
        Stage::Listening => Some(1),
        Stage::Receiving => Some(2),
        Stage::Connected(k) => Some(2 + k),
        Stage::Parked(k) => if k == WRITERS {
            Some(2 + READERS + 2 * WRITERS)
        } else {
            None
        },
        Stage::Late | Stage::Dropped => Some(2 + READERS + 2 * WRITERS + 1),
        _ => None,
    }
}

/// The count is right at this stage, or is not checked.
pub open spec fn count_right(stage: Stage, counted: usize) -> bool {
    match expected_at(stage) {
        Some(expected) => expected == counted,
        None => true,
    }
}

/// The stage at which the connected stream with this number is asked for.
pub open spec fn before_connect(k: usize) -> Stage {
    if k == 0 {
        Stage::Receiving
    } else {
        Stage::Connected(k)
    }
}

/// The stage at which the parked send with this number is asked for.
pub open spec fn before_park(k: usize) -> Stage {
    if k == 0 {
        Stage::Connected(STREAMS)
    } else {
        Stage::Parked(k)
    }
}

/// The task that is handed out at this stage, and the stage that it leads to.
pub open spec fn task_at(stage: Stage) -> Option<(Task, Stage)> {
    match stage {
        Stage::Start => Some(
            (
                Task::Listen(Registration::spec_edge(Token(1), Readiness::spec_readable())),
                Stage::Listening,
            ),
        ),
        Stage::Listening => Some(
            (
                Task::Receive(Registration::spec_edge(Token(2), Readiness::spec_readable())),
                Stage::Receiving,
            ),
        ),
        Stage::Receiving => Some(
            (
                Task::Connect(Registration::spec_edge(Token(10), both_ways())),
                Stage::Connected(1),
            ),
        ),
        Stage::Connected(k) => if k < STREAMS {
            Some(
                (
                    Task::Connect(Registration::spec_edge(Token((10 + k) as usize), both_ways())),
                    Stage::Connected((k + 1) as usize),
                ),
            )
        } else {
            Some((Task::Park(READERS), Stage::Parked(1)))
        },
        Stage::Parked(k) => if k < WRITERS {
            Some((Task::Park((READERS + k) as usize), Stage::Parked((k + 1) as usize)))
        } else {
            Some(
                (
                    Task::ConnectLate(
                        Registration::spec_edge(Token(3), Readiness::spec_writable()),
                    ),
                    Stage::Late,
                ),
            )
        },
        Stage::Late => Some((Task::DropAll, Stage::Dropped)),
        Stage::Dropped => Some((Task::Reap, Stage::Reaped)),
        Stage::Reaped => Some((Task::ExpectClosed(0), Stage::Closed(1))),
        Stage::Closed(k) => if k < PEERS {
            Some((Task::ExpectClosed(k), Stage::Closed((k + 1) as usize)))
        } else {
            Some((Task::Rebind, Stage::Rebound))
        },
        Stage::Rebound => None,
    }
}

/// The operation is in flight at this stage. The listener is socket 0, the UDP
/// socket is 1, the streams follow, and the late stream comes last.
pub open spec fn op_at(stage: Stage, op: Op) -> bool {
    !reaped_at(stage) && match op.kind {
        OpKind::Accept => op.socket == 0 && !(stage is Start),
        OpKind::Recv => op.socket == 1 && !(stage is Start || stage is Listening),
        OpKind::Read => 2 <= op.socket < 2 + connected_at(stage),
        OpKind::Send => 2 + READERS <= op.socket < 2 + READERS + parked_at(stage),
        OpKind::Connect => op.socket == 2 + STREAMS && late_at(stage),
    }
}

/// The number of operations in flight at this stage.
pub open spec fn count_at(stage: Stage) -> int {
    if reaped_at(stage) {
        0
    } else {
        sockets_at(stage) + parked_at(stage)
    }
}

/// The number of sockets that have been registered at this stage.
pub open spec fn sockets_at(stage: Stage) -> int {
    match stage {
        Stage::Start => 0,
        Stage::Listening => 1,
        _ => 2 + connected_at(stage) + if late_at(stage) {
            1int
        } else {
            0int
        },
    }
}

/// The kind of the socket with this number.
pub open spec fn kind_of(i: int) -> SocketKind {
    if i == 0 {
        SocketKind::Listener
    } else if i == 1 {
        SocketKind::Udp
    } else {
        SocketKind::Stream
    }
}

/// The socket with this number at this stage.
pub open spec fn socket_at(stage: Stage, i: int) -> Socket {
    Socket {
        kind: kind_of(i),
        open: !dropped_at(stage),
        connected: 2 <= i < 2 + connected_at(stage),
        connect_error: None,
        send_error: None,
    }
}

/// The bytes that a parked send carries.
pub open spec fn send_bytes() -> Seq<u8> {
    Seq::new(SEND_LEN as nat, |i: int| SEND_BYTE)
}

/// The bytes of the socket with this number at this stage: those of a parked send
/// are in transit until everything is reaped, and then its cancellation has come.
pub open spec fn bytes_at(stage: Stage, i: int) -> Bytes {
    if 2 + READERS <= i < 2 + READERS + parked_at(stage) {
        if reaped_at(stage) {
            Bytes { sent: send_bytes(), failed: send_bytes(), ..Bytes::none() }
        } else {
            Bytes { sent: send_bytes(), in_transit: send_bytes(), ..Bytes::none() }
        }
    } else {
        Bytes::none()
    }
}

/// The account is that of a round at this stage.
pub open spec fn account_at(stage: Stage, account: Account) -> bool {
    &&& account.wf()
    &&& account.pending() == count_at(stage)
    &&& forall|op: Op| #[trigger] account.ops.contains(op) <==> op_at(stage, op)
    &&& account.sockets.len() == sockets_at(stage)
    &&& forall|i: int|
        0 <= i < account.sockets.len() ==> #[trigger] account.sockets[i] == socket_at(stage, i)
    &&& forall|i: int|
        0 <= i < account.bytes.len() ==> #[trigger] account.bytes[i] == bytes_at(stage, i)
}

/// A round in progress.
pub struct Exercise {
    stage: Stage,
    ledger: Ledger,
    payload: Vec<u8>,
}

impl Exercise {
    /// How far the round has come.
    pub closed spec fn stage(&self) -> Stage {
        self.stage
    }

    /// The account of what the round has asked for.
    pub closed spec fn account(&self) -> Account {
        self.ledger@
    }

    /// The round is at a stage of its own, and its account is that of the stage.
    pub closed spec fn wf(&self) -> bool {
        &&& stage_wf(self.stage)
        &&& self.ledger.wf()
        &&& account_at(self.stage, self.ledger@)
        &&& self.payload@ == send_bytes()
    }

    /// What a round in progress keeps.
    pub proof fn lemma_wf(&self)
        requires
            self.wf(),
        ensures
            stage_wf(self.stage()),
            account_at(self.stage(), self.account()),
    {
    }

    /// Starts a round, with nothing in flight.
    pub fn new() -> (round: Exercise)
        ensures
            round.wf(),
            round.stage() == Stage::Start,
            round.account() == Account::empty(),
    {
        let round = Exercise {
            stage: Stage::Start,
            ledger: Ledger::new(),
            payload: vec![SEND_BYTE; SEND_LEN],
        };
        assert(round.payload@ =~= send_bytes());
        proof {
            round.ledger.lemma_wf();
        }
        round
    }

    /// The bytes that a parked send carries.
    pub fn payload(&self) -> (bytes: &[u8])
        requires
            self.wf(),
        ensures
            bytes@ == send_bytes(),
    {
        self.payload.as_slice()
    }

    /// The count that the poll has to show now, if it is checked now.
    pub fn expected(&self) -> (count: Option<usize>)
        requires
            self.wf(),
        ensures
            count matches Some(n) ==> expected_at(self.stage()) == Some(n as int),
            count is None <==> expected_at(self.stage()) is None,
    {
        let checked = match self.stage {
            Stage::Parked(k) => k == WRITERS,
            Stage::Reaped | Stage::Closed(_) | Stage::Rebound => false,
            _ => true,
        };
        if checked {
            Some(self.ledger.pending())
        } else {
            None
        }
    }

    /// Asks for the next task. `counted` is what the poll counts as in flight; at
    /// a stage where the count is checked the round does not go on unless it is
    /// right.
    pub fn step(&mut self, counted: usize) -> (step: Step)
        requires
            old(self).wf(),
        ensures
            final(self).wf(),
            !count_right(old(self).stage(), counted) ==> {
                &&& step == Step::Miscounted {
                    expected: expected_at(old(self).stage())->0 as usize,
                    counted,
                }
                &&& final(self).stage() == old(self).stage()
                &&& final(self).account() == old(self).account()
            },
            count_right(old(self).stage(), counted) ==> match task_at(old(self).stage()) {
                Some((task, stage)) => step == Step::Do(task) && final(self).stage() == stage,
                None => step == Step::Finished && final(self).stage() == old(self).stage(),
            },
    {
        if let Some(expected) = self.expected() {
            if expected != counted {
                return Step::Miscounted { expected, counted };
            }
        }
        let ghost account = self.ledger@;
        let (task, stage) = match self.stage {
            Stage::Start => {
                proof {
                    lemma_listening(account);
                }
                self.ledger.register(SocketKind::Listener);
                (
                    Task::Listen(Registration::edge(Token(1), Readiness::readable())),
                    Stage::Listening,
                )
            },
            Stage::Listening => {
                proof {
                    lemma_receiving(account);
                }
                self.ledger.register(SocketKind::Udp);
                (
                    Task::Receive(Registration::edge(Token(2), Readiness::readable())),
                    Stage::Receiving,
                )
            },
            Stage::Receiving => self.connect(0),
            Stage::Connected(k) => {
                if k < STREAMS {
                    self.connect(k)
                } else {
                    self.park(0)
                }
            },
            Stage::Parked(k) => {
                if k < WRITERS {
                    self.park(k)
                } else {
                    proof {
                        lemma_late(account);
                    }
                    self.ledger.register(SocketKind::Stream);
                    (
                        Task::ConnectLate(Registration::edge(Token(3), Readiness::writable())),
                        Stage::Late,
                    )
                }
            },
            Stage::Late => {
                self.drop_all();
                (Task::DropAll, Stage::Dropped)
            },
            Stage::Dropped => {
                // The driver comes back once nothing is in flight. How each
                // operation ended does not show in the count.
                let cancelled = Outcome::Failed(ErrorKind::Other);
                proof {
                    lemma_settled(account, cancelled);
                }
                self.ledger.settle(cancelled);
                (Task::Reap, Stage::Reaped)
            },
            Stage::Reaped => (Task::ExpectClosed(0), Stage::Closed(1)),
            Stage::Closed(k) => {
                if k < PEERS {
                    (Task::ExpectClosed(k), Stage::Closed(k + 1))
                } else {
                    (Task::Rebind, Stage::Rebound)
                }
            },
            Stage::Rebound => {
                return Step::Finished;
            },
        };
        self.stage = stage;
        proof {
            self.ledger.lemma_wf();
        }
        Step::Do(task)
    }

    /// Enters the connected stream with this number.
    fn connect(&mut self, k: usize) -> (next: (Task, Stage))
        requires
            old(self).wf(),
            k < STREAMS,
            old(self).stage == before_connect(k),
        ensures
            final(self).ledger.wf(),
            account_at(Stage::Connected((k + 1) as usize), final(self).ledger@),
            final(self).payload == old(self).payload,
            next == (
                Task::Connect(Registration::spec_edge(Token((10 + k) as usize), both_ways())),
                Stage::Connected((k + 1) as usize),
            ),
    {
        proof {
            lemma_connected(self.ledger@, k);
        }
        self.ledger.connect();
        let interest = Readiness::readable().union(Readiness::writable());
        (Task::Connect(Registration::edge(Token(10 + k), interest)), Stage::Connected(k + 1))
    }

    /// Parks a send on the writer with this number.
    fn park(&mut self, k: usize) -> (next: (Task, Stage))
        requires
            old(self).wf(),
            k < WRITERS,
            old(self).stage == before_park(k),
        ensures
            final(self).ledger.wf(),
            account_at(Stage::Parked((k + 1) as usize), final(self).ledger@),
            final(self).payload == old(self).payload,
            next == (Task::Park((READERS + k) as usize), Stage::Parked((k + 1) as usize)),
    {
        let socket = 2 + READERS + k;
        proof {
            lemma_parked(self.ledger@, k);
        }
        let _ = self.ledger.write(socket, self.payload.as_slice());
        (Task::Park(READERS + k), Stage::Parked(k + 1))
    }

    /// Drops every socket of the round.
    fn drop_all(&mut self)
        requires
            old(self).wf(),
            old(self).stage is Late,
        ensures
            final(self).ledger.wf(),
            account_at(Stage::Dropped, final(self).ledger@),
            final(self).payload == old(self).payload,
    {
        let ghost before = self.ledger@;
        let sockets = self.ledger.sockets();
        let mut i: usize = 0;
        while i < sockets
            invariant
                i <= sockets,
                self.ledger.wf(),
                self.payload == old(self).payload,
                account_at(Stage::Late, before),
                sockets == before.sockets.len(),
                self.ledger@.ops == before.ops,
                self.ledger@.bytes == before.bytes,
                self.ledger@.sockets.len() == sockets,
                forall|j: int|
                    0 <= j < sockets ==> #[trigger] self.ledger@.sockets[j] == if j < i {
                        socket_at(Stage::Dropped, j)
                    } else {
                        before.sockets[j]
                    },
            decreases sockets - i,
        {
            let ghost last = self.ledger@;
            proof {
                self.ledger.lemma_wf();
                assert(last.sockets[i as int] == before.sockets[i as int]);
                law_dropped(last, i);
            }
            self.ledger.drop_socket(i);
            i += 1;
        }
        proof {
            self.ledger.lemma_wf();
            assert forall|j: int| 0 <= j < self.ledger@.bytes.len() implies
                #[trigger] self.ledger@.bytes[j] == bytes_at(Stage::Dropped, j) by {
                assert(before.bytes[j] == bytes_at(Stage::Late, j));
            }
        }
    }
}

/// Registering the listener.
proof fn lemma_listening(account: Account)
    requires
        account_at(Stage::Start, account),
    ensures
        account_at(Stage::Listening, account.registered(SocketKind::Listener)),
{
    law_registered(account, SocketKind::Listener);
}

/// Registering the UDP socket.
proof fn lemma_receiving(account: Account)
    requires
        account_at(Stage::Listening, account),
    ensures
        account_at(Stage::Receiving, account.registered(SocketKind::Udp)),
{
    law_registered(account, SocketKind::Udp);
}

/// Connecting a stream.
proof fn lemma_connected(account: Account, k: usize)
    requires
        k < STREAMS,
        account_at(before_connect(k), account),
    ensures
        account_at(Stage::Connected((k + 1) as usize), account.connected()),
{
    let stage = before_connect(k);
    let op = Op { socket: account.sockets.len() as usize, kind: OpKind::Connect };
    let registered = account.registered(SocketKind::Stream);
    law_registered(account, SocketKind::Stream);
    crate::laws::law_dispatched(registered, op, Outcome::Done);
    let after = account.connected();
    let next = Stage::Connected((k + 1) as usize);
    assert forall|o: Op| #[trigger] after.ops.contains(o) <==> op_at(next, o) by {
        assert(account.ops.contains(o) <==> op_at(stage, o));
    }
    assert forall|i: int| 0 <= i < after.sockets.len() implies #[trigger] after.sockets[i]
        == socket_at(next, i) by {
        if i < account.sockets.len() {
            assert(account.sockets[i] == socket_at(stage, i));
        }
    }
    assert forall|i: int| 0 <= i < after.bytes.len() implies #[trigger] after.bytes[i] == bytes_at(
        next,
        i,
    ) by {
        if i < account.bytes.len() {
            assert(account.bytes[i] == bytes_at(stage, i));
        }
    }
}

/// Parking a send.
proof fn lemma_parked(account: Account, k: usize)
    requires
        k < WRITERS,
        account_at(before_park(k), account),
    ensures
        account.can_send((2 + READERS + k) as usize),
        account_at(
            Stage::Parked((k + 1) as usize),
            account.written((2 + READERS + k) as usize, send_bytes()),
        ),
{
    let stage = before_park(k);
    let socket = (2 + READERS + k) as usize;
    assert(account.sockets[socket as int] == socket_at(stage, socket as int));
    assert(!account.ops.contains(Op { socket, kind: OpKind::Send }));
    law_written(account, socket, send_bytes());
    let after = account.written(socket, send_bytes());
    let next = Stage::Parked((k + 1) as usize);
    assert forall|o: Op| #[trigger] after.ops.contains(o) <==> op_at(next, o) by {
        assert(account.ops.contains(o) <==> op_at(stage, o));
    }
    assert forall|i: int| 0 <= i < after.sockets.len() implies #[trigger] after.sockets[i]
        == socket_at(next, i) by {
        assert(account.sockets[i] == socket_at(stage, i));
    }
    assert forall|i: int| 0 <= i < after.bytes.len() implies #[trigger] after.bytes[i] == bytes_at(
        next,
        i,
    ) by {
        assert(account.bytes[i] == bytes_at(stage, i));
        if i == socket {
            assert(account.bytes[i].sent + send_bytes() =~= send_bytes());
        }
    }
}

/// Issuing the late connect.
proof fn lemma_late(account: Account)
    requires
        account_at(Stage::Parked(WRITERS), account),
    ensures
        account_at(Stage::Late, account.registered(SocketKind::Stream)),
{
    law_registered(account, SocketKind::Stream);
    let after = account.registered(SocketKind::Stream);
    let stage = Stage::Parked(WRITERS);
    assert forall|o: Op| #[trigger] after.ops.contains(o) <==> op_at(Stage::Late, o) by {
        assert(account.ops.contains(o) <==> op_at(stage, o));
    }
    assert forall|i: int| 0 <= i < after.sockets.len() implies #[trigger] after.sockets[i]
        == socket_at(Stage::Late, i) by {
        if i < account.sockets.len() {
            assert(account.sockets[i] == socket_at(stage, i));
        }
    }
    assert forall|i: int| 0 <= i < after.bytes.len() implies #[trigger] after.bytes[i] == bytes_at(
        Stage::Late,
        i,
    ) by {
        if i < account.bytes.len() {
            assert(account.bytes[i] == bytes_at(stage, i));
        }
    }
}

/// Reaping what the dropped sockets have in flight.
proof fn lemma_settled(account: Account, outcome: Outcome)
    requires
        outcome is Failed,
        account_at(Stage::Dropped, account),
    ensures
        account.all_dropped(),
        account_at(Stage::Reaped, account.settled(outcome)),
{
    assert(account.all_dropped());
    law_settled(account, outcome);
    let after = account.settled(outcome);
    assert forall|i: int| 0 <= i < after.sockets.len() implies #[trigger] after.sockets[i]
        == socket_at(Stage::Reaped, i) by {
        assert(account.sockets[i] == socket_at(Stage::Dropped, i));
    }
    assert forall|i: int| 0 <= i < after.bytes.len() implies #[trigger] after.bytes[i] == bytes_at(
        Stage::Reaped,
        i,
    ) by {
        assert(account.bytes[i] == bytes_at(Stage::Dropped, i));
        assert(account.ops.contains(Op { socket: i as usize, kind: OpKind::Send }) <==> op_at(
            Stage::Dropped,
            Op { socket: i as usize, kind: OpKind::Send },
        ));
        assert(account.bytes[i].failed + account.bytes[i].in_transit
            =~= account.bytes[i].in_transit);
    }
}

/// A round checks the count at the start, after the listener, after the UDP socket, after
/// each of the connected streams, after the last of the parked sends, after the late
/// connect and after the drop, and what it checks is that each operation which it has asked
/// for counts exactly once: the count goes up by one with each registration and each
/// parked send, and stays with the drop. No count is checked between two parked sends,
/// nor once everything is reaped.
pub proof fn law_checked_counts(stage: Stage, account: Account)
    requires
        stage_wf(stage),
        account_at(stage, account),
    ensures
        expected_at(stage) matches Some(expected) ==> expected == account.pending(),
        expected_at(stage) == match stage {
            Stage::Parked(1) | Stage::Parked(2) => None,
            Stage::Reaped | Stage::Closed(_) | Stage::Rebound => None,
            _ => Some(account.pending() as int),
        },
        account.pending() == match stage {
            Stage::Start => 0,
            Stage::Listening => 1,
            Stage::Receiving => 2,
            Stage::Connected(k) => 2 + k,
            Stage::Parked(k) => 9 + k,
            Stage::Late | Stage::Dropped => 13,
            Stage::Reaped | Stage::Closed(_) | Stage::Rebound => 0,
        },
{
}

/// Where a count is checked a round goes on with the one right count and with no other, and
/// where none is checked it goes on whatever the poll counts.
pub proof fn law_wrong_count_stops(stage: Stage, account: Account, counted: usize)
    requires
        stage_wf(stage),
        account_at(stage, account),
    ensures
        count_right(stage, counted) <==> counted == account.pending() || match stage {
            Stage::Parked(1) | Stage::Parked(2) => true,
            Stage::Reaped | Stage::Closed(_) | Stage::Rebound => true,
            _ => false,
        },
        !count_right(stage, counted) ==> expected_at(stage)->0 == account.pending(),
{
    law_checked_counts(stage, account);
}

/// The account of a round follows from its tasks: it starts with nothing, and every task
/// does to it what it says. Registering enters the socket, connecting leaves a parked
/// stream, parking a send writes two mebibytes of one byte to the stream with that number,
/// dropping takes every socket from its owner and nothing else, and reaping dispatches
/// everything as cancelled.
pub proof fn law_tasks_make_account(
    stage: Stage,
    account: Account,
    dropped: Account,
    error: ErrorKind,
)
    requires
        stage_wf(stage),
        account_at(stage, account),
        dropped.ops == account.ops,
        dropped.bytes == account.bytes,
        dropped.sockets.len() == account.sockets.len(),
        forall|i: int|
            0 <= i < account.sockets.len() ==> #[trigger] dropped.sockets[i] == (Socket {
                open: false,
                ..account.sockets[i]
            }),
    ensures
        account_at(Stage::Start, Account::empty()),
        task_at(stage) is None <==> stage is Rebound,
        task_at(stage) matches Some((task, next)) ==> stage_wf(next) && match task {
            Task::Listen(_) => account_at(next, account.registered(SocketKind::Listener)),
            Task::Receive(_) => account_at(next, account.registered(SocketKind::Udp)),
            Task::Connect(_) => account_at(next, account.connected()),
            Task::Park(stream) => {
                &&& account.issues((2 + stream) as usize, Seq::new(2_097_152, |i: int| 0xABu8))
                &&& account_at(
                    next,
                    account.written(
                        (2 + stream) as usize,
                        Seq::new(2_097_152, |i: int| 0xABu8),
                    ),
                )
            },
            Task::ConnectLate(_) => account_at(next, account.registered(SocketKind::Stream)),
            Task::DropAll => account_at(next, dropped),
            Task::Reap => account.all_dropped() && account_at(
                next,
                account.settled(Outcome::Failed(error)),
            ),
            Task::ExpectClosed(_) | Task::Rebind => account_at(next, account),
        },
{
    assert(send_bytes() =~= Seq::new(2_097_152, |i: int| 0xABu8));
    match stage {
        Stage::Start => lemma_listening(account),
        Stage::Listening => lemma_receiving(account),
        Stage::Receiving => lemma_connected(account, 0),
        Stage::Connected(k) => {
            if k < STREAMS {
                lemma_connected(account, k);
            } else {
                lemma_parked(account, 0);
            }
        },
        Stage::Parked(k) => {
            if k < WRITERS {
                lemma_parked(account, k);
            } else {
                lemma_late(account);
            }
        },
        Stage::Late => {
            lemma_all_dropped(account, dropped);
        },
        Stage::Dropped => lemma_settled(account, Outcome::Failed(error)),
        _ => lemma_stays(stage, account),
    }
}

/// Dropping every socket.
proof fn lemma_all_dropped(account: Account, dropped: Account)
    requires
        account_at(Stage::Late, account),
        dropped.ops == account.ops,
        dropped.bytes == account.bytes,
        dropped.sockets.len() == account.sockets.len(),
        forall|i: int|
            0 <= i < account.sockets.len() ==> #[trigger] dropped.sockets[i] == (Socket {
                open: false,
                ..account.sockets[i]
            }),
    ensures
        account_at(Stage::Dropped, dropped),
{
    lemma_sockets_replaced(account, dropped);
    assert forall|op: Op| #[trigger] dropped.ops.contains(op) <==> op_at(Stage::Dropped, op) by {
        assert(account.ops.contains(op) <==> op_at(Stage::Late, op));
    }
    assert forall|i: int| 0 <= i < dropped.sockets.len() implies #[trigger] dropped.sockets[i]
        == socket_at(Stage::Dropped, i) by {
        assert(account.sockets[i] == socket_at(Stage::Late, i));
    }
    assert forall|i: int| 0 <= i < dropped.bytes.len() implies #[trigger] dropped.bytes[i]
        == bytes_at(Stage::Dropped, i) by {
        assert(account.bytes[i] == bytes_at(Stage::Late, i));
    }
}

/// Nothing happens to the account once everything is reaped.
proof fn lemma_stays(stage: Stage, account: Account)
    requires
        stage_wf(stage),
        reaped_at(stage),
        account_at(stage, account),
    ensures
        task_at(stage) matches Some((_, next)) ==> account_at(next, account),
{
    if let Some((_, next)) = task_at(stage) {
        assert forall|op: Op| #[trigger] account.ops.contains(op) <==> op_at(next, op) by {
            assert(account.ops.contains(op) <==> op_at(stage, op));
        }
        assert forall|i: int| 0 <= i < account.sockets.len() implies #[trigger] account.sockets[i]
            == socket_at(next, i) by {
            assert(account.sockets[i] == socket_at(stage, i));
        }
        assert forall|i: int| 0 <= i < account.bytes.len() implies #[trigger] account.bytes[i]
            == bytes_at(next, i) by {
            assert(account.bytes[i] == bytes_at(stage, i));
        }
    }
}

/// The tasks of a round, in order: the listener and the UDP socket are registered for
/// reading, seven streams are connected under tokens from ten on and registered for both
/// directions, a send is parked on each of the last three of them, the late stream is
/// registered for writing, everything is dropped and reaped, each of the eight peers sees
/// its stream closed, and the ports are bound again.
pub proof fn law_tasks_in_order(stage: Stage, task: Task, next: Stage)
    requires
        stage_wf(stage),
        task_at(stage) == Some((task, next)),
    ensures
        match task {
            Task::Listen(registration) => {
                &&& tasks_before(stage) == 0
                &&& registration.token == Token(1)
                &&& registration.interest.bits == 1
            },
            Task::Receive(registration) => {
                &&& tasks_before(stage) == 1
                &&& registration.token == Token(2)
                &&& registration.interest.bits == 1
            },
            Task::Connect(registration) => {
                &&& 2 <= tasks_before(stage) < 9
                &&& registration.token.0 == 10 + (tasks_before(stage) - 2)
                &&& registration.interest.bits == 3
            },
            Task::Park(stream) => {
                &&& 9 <= tasks_before(stage) < 12
                &&& stream == 4 + (tasks_before(stage) - 9)
            },
            Task::ConnectLate(registration) => {
                &&& tasks_before(stage) == 12
                &&& registration.token == Token(3)
                &&& registration.interest.bits == 2
            },
            Task::DropAll => tasks_before(stage) == 13,
            Task::Reap => tasks_before(stage) == 14,
            Task::ExpectClosed(peer) => {
                &&& 15 <= tasks_before(stage) < 23
                &&& peer == tasks_before(stage) - 15
            },
            Task::Rebind => tasks_before(stage) == 23,
        },
        tasks_before(Stage::Rebound) == 24,
{
    assert(1usize | 2usize == 3) by (bit_vector);
}

/// Dropping everything changes the count of nothing and lets no socket go; once
/// everything is reaped the count is zero and every socket is gone.
pub proof fn law_round_releases(stage: Stage, account: Account)
    requires
        stage_wf(stage),
        account_at(stage, account),
    ensures
        stage is Dropped ==> account.pending() == count_at(Stage::Late) && forall|s: usize|
            account.known(s) ==> !#[trigger] account.released(s),
        reaped_at(stage) ==> account.pending() == 0 && forall|s: usize|
            account.known(s) ==> #[trigger] account.released(s),
{
    if stage is Dropped {
        assert forall|s: usize| account.known(s) implies !#[trigger] account.released(s) by {
            law_released(account, s);
            let kind = if s == 0 {
                OpKind::Accept
            } else if s == 1 {
                OpKind::Recv
            } else if s < 2 + STREAMS {
                OpKind::Read
            } else {
                OpKind::Connect
            };
            assert(account.ops.contains(Op { socket: s, kind }));
            assert(account.in_flight(s, kind));
        }
    }
    if reaped_at(stage) {
        law_zero_means_gone(account);
        assert forall|s: usize| account.known(s) implies #[trigger] account.released(s) by {
            assert(account.sockets[s as int] == socket_at(stage, s as int));
        }
    }
}

/// The number of tasks that a round has handed out when it comes to this stage.
pub open spec fn tasks_before(stage: Stage) -> int {
    match stage {
        Stage::Start => 0,
        Stage::Listening => 1,
        Stage::Receiving => 2,
        Stage::Connected(k) => 2 + k,
        Stage::Parked(k) => 2 + STREAMS + k,
        Stage::Late => 2 + STREAMS + WRITERS + 1,
        Stage::Dropped => 2 + STREAMS + WRITERS + 2,
        Stage::Reaped => 2 + STREAMS + WRITERS + 3,
        Stage::Closed(k) => 2 + STREAMS + WRITERS + 3 + k,
        Stage::Rebound => 2 + STREAMS + WRITERS + 3 + PEERS + 1,
    }
}

/// Every task brings a round to a stage that comes after exactly one task more,
/// so a round whose counts are right comes to its end, and no stage comes twice.
pub proof fn law_round_ends(stage: Stage)
    requires
        stage_wf(stage),
    ensures
        task_at(stage) matches Some((task, next)) ==> stage_wf(next) && tasks_before(next)
            == tasks_before(stage) + 1,
        task_at(stage) is None <==> tasks_before(stage) == tasks_before(Stage::Rebound),
        tasks_before(stage) <= tasks_before(Stage::Rebound),
{
}

/// The registration that is made at this stage, if one is.
pub open spec fn registration_at(stage: Stage) -> Option<Registration> {
    match task_at(stage) {
        Some((Task::Listen(registration), _)) => Some(registration),
        Some((Task::Receive(registration), _)) => Some(registration),
        Some((Task::Connect(registration), _)) => Some(registration),
        Some((Task::ConnectLate(registration), _)) => Some(registration),
        _ => None,
    }
}

/// Every registration of a round is edge triggered, no two of them are under the
/// same token, and each enters one socket, so that a round makes as many of them as
/// it has sockets.
pub proof fn law_registrations(stage: Stage, other: Stage)
    requires
        stage_wf(stage),
        stage_wf(other),
    ensures
        registration_at(stage) matches Some(registration) ==> registration.trigger is Edge,
        registration_at(stage) is Some && registration_at(other) is Some && stage != other
            ==> registration_at(stage)->0.token != registration_at(other)->0.token,
        task_at(stage) matches Some((task, next)) ==> sockets_at(next) == sockets_at(stage) + if (
        registration_at(stage) is Some) {
            1int
        } else {
            0int
        },
        sockets_at(Stage::Start) == 0,
        sockets_at(Stage::Rebound) == 2 + READERS + WRITERS + 1,
{
}

/// A round leaves not a single handle behind: once everything is reaped none of its
/// sockets is left, so that the round is found quiet unless something else in the
/// process opened more handles than it closed meanwhile. `others` is what everything
/// but the sockets of the round added to the number of handles.
pub proof fn law_round_leaves_no_handle(
    stage: Stage,
    account: Account,
    before: u32,
    after: u32,
    others: int,
    deadline: u64,
    now: u64,
)
    requires
        stage_wf(stage),
        account_at(stage, account),
        reaped_at(stage),
        after == before + account.unreleased() + others,
    ensures
        account.unreleased() == 0,
        others <= 0 ==> after <= before,
        others <= 0 ==> window_decision(before, after, deadline, now) is Quiet,
{
    law_round_releases(stage, account);
    assert(Set::new(|s: usize| account.known(s) && !account.released(s)) =~= Set::<usize>::empty());
}

/// A round that ends while one of its sockets is not gone is not found quiet unless
/// something else in the process closed more handles than it opened meanwhile.
pub proof fn law_leak_is_not_quiet(
    account: Account,
    socket: usize,
    before: u32,
    after: u32,
    others: int,
    deadline: u64,
    now: u64,
)
    requires
        account.wf(),
        account.known(socket),
        !account.released(socket),
        after == before + account.unreleased() + others,
    ensures
        others >= 0 ==> !(window_decision(before, after, deadline, now) is Quiet),
{
    let alive = Set::new(|s: usize| account.known(s) && !account.released(s));
    lemma_numbers_finite(alive, account.sockets.len());
    assert(alive.contains(socket));
    if alive.len() == 0 {
        alive.lemma_len0_is_empty();
    }
}

/// A set of numbers below a bound is finite.
proof fn lemma_numbers_finite(numbers: Set<usize>, bound: nat)
    requires
        forall|s: usize| #[trigger] numbers.contains(s) ==> s < bound,
        bound <= usize::MAX,
    ensures
        numbers.finite(),
    decreases bound,
{
    if bound == 0 {
        assert(numbers =~= Set::<usize>::empty());
    } else {
        let last = (bound - 1) as usize;
        lemma_numbers_finite(numbers.remove(last), (bound - 1) as nat);
        assert(numbers =~= numbers.remove(last) || numbers =~= numbers.remove(last).insert(last));
    }
}

} // verus!
