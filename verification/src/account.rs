//! The account of the operations in flight: which operations a completion port
//! still owes, and what becomes of a socket when one is issued, cancelled or
//! dispatched.
//!
//! Every overlapped operation loans a reference to its socket to the completion
//! port, and the reference comes back only when a poll dispatches the
//! operation's completion. A socket is gone once its owner has dropped it and
//! the last loan is back.

use vstd::prelude::*;

use crate::kind::ErrorKind;
use crate::readiness::Readiness;

verus! {

/// The kinds of overlapped operation.
#[derive(Clone, Copy, Debug, PartialEq, Eq, Structural)]
pub enum OpKind {
    /// A listener waits for a connection.
    Accept,
    /// A UDP socket waits for a datagram.
    Recv,
    /// A stream is being connected.
    Connect,
    /// The empty read that parks a connected stream.
    Read,
    /// Bytes are being handed to the kernel.
    Send,
}

/// One operation in flight. A socket has at most one of each kind.
#[derive(Clone, Copy, Debug, PartialEq, Eq, Structural)]
pub struct Op {
    /// The socket's number in the account.
    pub socket: usize,
    /// What the operation does.
    pub kind: OpKind,
}

/// The kinds of socket.
#[derive(Clone, Copy, Debug, PartialEq, Eq, Structural)]
pub enum SocketKind {
    /// A TCP listener.
    Listener,
    /// A UDP socket.
    Udp,
    /// A TCP stream that connects to a peer.
    Stream,
}

/// What is known of a socket besides its operations.
#[derive(Clone, Copy, Debug)]
pub struct Socket {
    /// What it is.
    pub kind: SocketKind,
    /// Its owner has not dropped it.
    pub open: bool,
    /// Its connect has completed without an error.
    pub connected: bool,
    /// The error of a failed connect, until the owner takes it.
    pub connect_error: Option<ErrorKind>,
    /// The error of a failed send, until the owner is told of it.
    pub send_error: Option<ErrorKind>,
}

/// How an operation completed.
#[derive(Clone, Copy, Debug, PartialEq, Eq, Structural)]
pub enum Outcome {
    /// It did what it was issued for.
    Done,
    /// It failed, which is also how a cancelled operation completes.
    Failed(ErrorKind),
}

/// The bytes that went through a socket.
#[verifier::ext_equal]
pub struct Bytes {
    /// What writes have reported as written.
    pub sent: Seq<u8>,
    /// What the send in flight carries.
    pub in_transit: Seq<u8>,
    /// What sends that are done have handed over to the kernel.
    pub taken: Seq<u8>,
    /// What sends that failed have carried. The kernel may have accepted a part
    /// of it before the send failed or was cancelled.
    pub failed: Seq<u8>,
}

impl Bytes {
    /// Nothing went through.
    pub open spec fn none() -> Bytes {
        Bytes {
            sent: Seq::empty(),
            in_transit: Seq::empty(),
            taken: Seq::empty(),
            failed: Seq::empty(),
        }
    }

    /// The most bytes that the kernel can have accepted, and so the most that a
    /// peer can read: those of sends that are done, and all of those that a send
    /// in flight or a failed one carries.
    pub open spec fn reach(self) -> nat {
        self.taken.len() + self.in_transit.len() + self.failed.len()
    }
}

/// The account: what the operations in flight are, and the state of every
/// socket that ever entered it.
#[verifier::ext_equal]
pub struct Account {
    /// The operations in flight.
    pub ops: Set<Op>,
    /// The sockets, by number.
    pub sockets: Seq<Socket>,
    /// The bytes of each socket, by the socket's number.
    pub bytes: Seq<Bytes>,
}

/// A socket of this kind can have an operation of that kind.
pub open spec fn fits(socket: SocketKind, op: OpKind) -> bool {
    match op {
        OpKind::Accept => socket is Listener,
        OpKind::Recv => socket is Udp,
        OpKind::Connect => socket is Stream,
        OpKind::Read => socket is Stream,
        OpKind::Send => socket is Udp || socket is Stream,
    }
}

/// The operation that registering a socket issues.
pub open spec fn first_op(kind: SocketKind) -> OpKind {
    match kind {
        SocketKind::Listener => OpKind::Accept,
        SocketKind::Udp => OpKind::Recv,
        SocketKind::Stream => OpKind::Connect,
    }
}

/// A socket that has just been registered.
pub open spec fn fresh_socket(kind: SocketKind) -> Socket {
    Socket { kind, open: true, connected: false, connect_error: None, send_error: None }
}

/// What the owner of a socket is left with when one of its operations
/// completes. An owner that is gone is told nothing.
pub open spec fn socket_after(socket: Socket, op: OpKind, outcome: Outcome) -> Socket {
    if !socket.open {
        socket
    } else {
        match (op, outcome) {
            (OpKind::Connect, Outcome::Done) => Socket { connected: true, ..socket },
            (OpKind::Connect, Outcome::Failed(error)) => Socket {
                connect_error: Some(error),
                ..socket
            },
            (OpKind::Send, Outcome::Failed(error)) => if socket.kind is Stream {
                Socket { send_error: Some(error), ..socket }
            } else {
                socket
            },
            _ => socket,
        }
    }
}

/// What becomes of the bytes in transit when one of the socket's operations
/// completes: a send that is done hands them over, one that failed does not.
pub open spec fn bytes_after(bytes: Bytes, op: OpKind, outcome: Outcome) -> Bytes {
    if op is Send {
        match outcome {
            Outcome::Done => Bytes {
                in_transit: Seq::empty(),
                taken: bytes.taken + bytes.in_transit,
                ..bytes
            },
            Outcome::Failed(_) => Bytes {
                in_transit: Seq::empty(),
                failed: bytes.failed + bytes.in_transit,
                ..bytes
            },
        }
    } else {
        bytes
    }
}

impl Account {
    /// The account of a poll that has issued nothing.
    pub open spec fn empty() -> Account {
        Account { ops: Set::empty(), sockets: Seq::empty(), bytes: Seq::empty() }
    }

    /// The number of operations in flight.
    pub open spec fn pending(self) -> nat {
        self.ops.len()
    }

    /// The socket's operation of this kind is in flight.
    pub open spec fn in_flight(self, socket: usize, kind: OpKind) -> bool {
        self.ops.contains(Op { socket, kind })
    }

    /// The socket's operations in flight.
    pub open spec fn ops_of(self, socket: usize) -> Set<Op> {
        self.ops.filter(|op: Op| op.socket == socket)
    }

    /// The references that keep a socket alive: its owner's, and one on loan
    /// for each operation in flight.
    pub open spec fn references(self, socket: usize) -> nat {
        self.ops_of(socket).len() + if self.sockets[socket as int].open {
            1nat
        } else {
            0nat
        }
    }

    /// The number of sockets that are not gone.
    pub open spec fn unreleased(self) -> nat {
        Set::new(|s: usize| self.known(s) && !self.released(s)).len()
    }

    /// The socket is really gone.
    pub open spec fn released(self, socket: usize) -> bool {
        self.references(socket) == 0
    }

    /// Every socket has been dropped by its owner.
    pub open spec fn all_dropped(self) -> bool {
        forall|i: int| 0 <= i < self.sockets.len() ==> !(#[trigger] self.sockets[i]).open
    }

    /// The number belongs to a socket.
    pub open spec fn known(self, socket: usize) -> bool {
        socket < self.sockets.len()
    }

    /// The number belongs to a socket that its owner still holds.
    pub open spec fn held(self, socket: usize) -> bool {
        self.known(socket) && self.sockets[socket as int].open
    }

    /// The socket can be handed bytes to send.
    pub open spec fn can_send(self, socket: usize) -> bool {
        &&& self.held(socket)
        &&& self.sockets[socket as int].kind is Udp || self.sockets[socket as int].connected
    }

    /// What holds of every account.
    pub open spec fn wf(self) -> bool {
        &&& self.ops.finite()
        &&& self.sockets.len() <= usize::MAX
        &&& self.bytes.len() == self.sockets.len()
        &&& forall|op: Op| #[trigger]
            self.ops.contains(op) ==> self.known(op.socket) && fits(
                self.sockets[op.socket as int].kind,
                op.kind,
            ) && self.op_wf(op)
        &&& forall|i: int| 0 <= i < self.sockets.len() ==> self.socket_wf(#[trigger] self.sockets[i])
        &&& forall|i: int| 0 <= i < self.bytes.len() ==> self.bytes_wf(i, #[trigger] self.bytes[i])
    }

    /// A connect is in flight only before the stream is connected, a read only
    /// after it, and a send on a stream only after it and only while there is no
    /// error of an earlier send to hand out.
    pub open spec fn op_wf(self, op: Op) -> bool {
        let socket = self.sockets[op.socket as int];
        match op.kind {
            OpKind::Connect => !socket.connected,
            OpKind::Read => socket.connected,
            OpKind::Send => (socket.connected || socket.kind is Udp) && socket.send_error is None,
            _ => true,
        }
    }

    /// Only a stream connects or keeps an error.
    pub open spec fn socket_wf(self, socket: Socket) -> bool {
        !(socket.kind is Stream) ==> !socket.connected && socket.connect_error is None
            && socket.send_error is None
    }

    /// Bytes are in transit only while a send is in flight, every byte sent is
    /// taken over, in transit or part of a failed send, and unless a send failed
    /// what is taken over and in transit is what was sent, in order.
    pub open spec fn bytes_wf(self, i: int, bytes: Bytes) -> bool {
        &&& !self.in_flight(i as usize, OpKind::Send) ==> bytes.in_transit == Seq::<u8>::empty()
        &&& bytes.reach() == bytes.sent.len()
        &&& bytes.failed.len() == 0 ==> bytes.sent == bytes.taken + bytes.in_transit
    }

    /// A socket of this kind is registered, which issues its first operation.
    pub open spec fn registered(self, kind: SocketKind) -> Account {
        Account {
            ops: self.ops.insert(Op { socket: self.sockets.len() as usize, kind: first_op(kind) }),
            sockets: self.sockets.push(fresh_socket(kind)),
            bytes: self.bytes.push(Bytes::none()),
        }
    }

    /// The socket with its stored send error gone.
    pub open spec fn send_error_told(self, socket: usize) -> Account {
        Account {
            sockets: self.sockets.update(
                socket as int,
                Socket { send_error: None, ..self.sockets[socket as int] },
            ),
            ..self
        }
    }

    /// A write of nothing to a stream, which succeeds whatever is in flight and
    /// does nothing. A datagram may be empty.
    pub open spec fn idle_write(self, socket: usize, data: Seq<u8>) -> bool {
        data.len() == 0 && self.sockets[socket as int].kind is Stream
    }

    /// A write of `data` issues a send that carries it.
    pub open spec fn issues(self, socket: usize, data: Seq<u8>) -> bool {
        &&& !self.idle_write(socket, data)
        &&& !self.in_flight(socket, OpKind::Send)
        &&& self.sockets[socket as int].send_error is None
    }

    /// What a write of `data` returns: it waits while a send is in flight, hands
    /// out the error of an earlier send, and else takes all of the bytes.
    pub open spec fn write_result(self, socket: usize, data: Seq<u8>) -> Result<
        usize,
        ErrorKind,
    > {
        if self.idle_write(socket, data) {
            Ok(0)
        } else if self.in_flight(socket, OpKind::Send) {
            Err(ErrorKind::WouldBlock)
        } else {
            match self.sockets[socket as int].send_error {
                Some(error) => Err(error),
                None => Ok(data.len() as usize),
            }
        }
    }

    /// The account after a write of `data`.
    pub open spec fn written(self, socket: usize, data: Seq<u8>) -> Account {
        if self.issues(socket, data) {
            Account {
                ops: self.ops.insert(Op { socket, kind: OpKind::Send }),
                bytes: self.bytes.update(
                    socket as int,
                    Bytes {
                        sent: self.bytes[socket as int].sent + data,
                        in_transit: data,
                        ..self.bytes[socket as int]
                    },
                ),
                ..self
            }
        } else if self.idle_write(socket, data) || self.in_flight(socket, OpKind::Send) {
            self
        } else {
            self.send_error_told(socket)
        }
    }

    /// What a flush returns: whether the kernel has taken the bytes over.
    pub open spec fn flush_result(self, socket: usize) -> Result<(), ErrorKind> {
        if self.in_flight(socket, OpKind::Send) {
            Err(ErrorKind::WouldBlock)
        } else {
            match self.sockets[socket as int].send_error {
                Some(error) => Err(error),
                None => Ok(()),
            }
        }
    }

    /// The account after a flush.
    pub open spec fn flushed(self, socket: usize) -> Account {
        if self.in_flight(socket, OpKind::Send) {
            self
        } else {
            self.send_error_told(socket)
        }
    }

    /// The account after the owner has taken the error of a failed connect.
    pub open spec fn connect_error_taken(self, socket: usize) -> Account {
        Account {
            sockets: self.sockets.update(
                socket as int,
                Socket { connect_error: None, ..self.sockets[socket as int] },
            ),
            ..self
        }
    }

    /// The owner drops the socket, which cancels its operations: each of them
    /// stays in flight until its completion is dispatched.
    pub open spec fn dropped(self, socket: usize) -> Account {
        Account {
            sockets: self.sockets.update(
                socket as int,
                Socket { open: false, ..self.sockets[socket as int] },
            ),
            ..self
        }
    }

    /// What the poll reports of the socket when the completion of `op` is
    /// dispatched, if the socket is registered for it: the completion of a
    /// connect or a send is reported as writable, a connect that failed as
    /// readable too, and that of anything else as readable. Nothing is reported
    /// of a socket that was dropped, whose registration is gone.
    pub open spec fn signal(self, op: Op, outcome: Outcome) -> Readiness {
        if !self.sockets[op.socket as int].open {
            Readiness::spec_empty()
        } else {
            match (op.kind, outcome) {
                (OpKind::Connect, Outcome::Failed(_)) => Readiness::spec_readable().spec_union(
                    Readiness::spec_writable(),
                ),
                (OpKind::Connect, Outcome::Done) => Readiness::spec_writable(),
                (OpKind::Send, _) => Readiness::spec_writable(),
                _ => Readiness::spec_readable(),
            }
        }
    }

    /// A connect that is done leads to the read that parks the stream.
    pub open spec fn parks(self, op: Op, outcome: Outcome) -> bool {
        op.kind is Connect && outcome is Done && self.sockets[op.socket as int].open
    }

    /// The completion of `op` is dispatched.
    pub open spec fn dispatched(self, op: Op, outcome: Outcome) -> Account {
        Account {
            ops: if self.parks(op, outcome) {
                self.ops.remove(op).insert(Op { socket: op.socket, kind: OpKind::Read })
            } else {
                self.ops.remove(op)
            },
            sockets: self.sockets.update(
                op.socket as int,
                socket_after(self.sockets[op.socket as int], op.kind, outcome),
            ),
            bytes: self.bytes.update(
                op.socket as int,
                bytes_after(self.bytes[op.socket as int], op.kind, outcome),
            ),
        }
    }

    /// A stream is registered while it connects, and its connect is done: the
    /// read that parks it is in flight.
    pub open spec fn connected(self) -> Account {
        self.registered(SocketKind::Stream).dispatched(
            Op { socket: self.sockets.len() as usize, kind: OpKind::Connect },
            Outcome::Done,
        )
    }

    /// `now` is this account after some of its completions, each with the same
    /// outcome, once all sockets have been dropped: fewer operations are in flight,
    /// the sockets are as they were, and the bytes of a send went the way of its
    /// completion if that has come.
    pub open spec fn settling(self, now: Account, outcome: Outcome) -> bool {
        &&& now.ops.subset_of(self.ops)
        &&& now.sockets == self.sockets
        &&& now.bytes.len() == self.bytes.len()
        &&& forall|i: int|
            0 <= i < self.bytes.len() ==> #[trigger] now.bytes[i] == self.settling_bytes(
                now,
                outcome,
                i,
            )
    }

    /// The bytes of a socket on the way from this account to `now`.
    pub open spec fn settling_bytes(self, now: Account, outcome: Outcome, i: int) -> Bytes {
        if self.in_flight(i as usize, OpKind::Send) && !now.in_flight(i as usize, OpKind::Send) {
            bytes_after(self.bytes[i], OpKind::Send, outcome)
        } else {
            self.bytes[i]
        }
    }

    /// Every operation completes in the same way. This is for sockets that have
    /// all been dropped, whose owners are told nothing.
    pub open spec fn settled(self, outcome: Outcome) -> Account {
        Account {
            ops: Set::empty(),
            sockets: self.sockets,
            bytes: Seq::new(
                self.bytes.len(),
                |i: int|
                    if self.in_flight(i as usize, OpKind::Send) {
                        bytes_after(self.bytes[i], OpKind::Send, outcome)
                    } else {
                        self.bytes[i]
                    },
            ),
        }
    }

    /// The completions can be dispatched in this order.
    pub open spec fn can_reap(self, completions: Seq<(Op, Outcome)>) -> bool
        decreases completions.len(),
    {
        completions.len() == 0 || {
            &&& self.can_reap(completions.drop_last())
            &&& self.reaped(completions.drop_last()).ops.contains(completions.last().0)
        }
    }

    /// The account after the completions have been dispatched in this order.
    pub open spec fn reaped(self, completions: Seq<(Op, Outcome)>) -> Account
        decreases completions.len(),
    {
        if completions.len() == 0 {
            self
        } else {
            self.reaped(completions.drop_last()).dispatched(
                completions.last().0,
                completions.last().1,
            )
        }
    }
}

} // verus!
