//! The ledger keeps the account of the operations in flight.

use vstd::prelude::*;

use crate::account::{
    Account, Bytes, Op, OpKind, Outcome, Socket, SocketKind, first_op,
};
use crate::kind::ErrorKind;
use crate::readiness::Readiness;
use crate::laws::{
    law_connect_error_taken, law_dispatched, law_dropped, law_flushed, law_registered,
    law_released, law_written, lemma_settling,
};

verus! {

/// The operations that a poll has in flight, and the sockets they belong to.
pub struct Ledger {
    ops: Vec<Op>,
    sockets: Vec<Socket>,
    bytes: Ghost<Seq<Bytes>>,
}

impl View for Ledger {
    type V = Account;

    closed spec fn view(&self) -> Account {
        Account { ops: self.ops@.to_set(), sockets: self.sockets@, bytes: self.bytes@ }
    }
}

impl Ledger {
    /// The ledger holds each operation once, and its account is well formed.
    pub closed spec fn wf(&self) -> bool {
        &&& self.ops@.no_duplicates()
        &&& self@.wf()
    }

    /// The account of a well-formed ledger is well formed.
    pub proof fn lemma_wf(&self)
        requires
            self.wf(),
        ensures
            self@.wf(),
    {
    }

    /// The ledger of a poll that has issued nothing.
    pub fn new() -> (ledger: Ledger)
        ensures
            ledger.wf(),
            ledger@ == Account::empty(),
    {
        let ledger = Ledger { ops: Vec::new(), sockets: Vec::new(), bytes: Ghost(Seq::empty()) };
        assert(ledger@.ops =~= Set::<Op>::empty());
        assert(ledger@ =~= Account::empty());
        ledger
    }

    /// The number of operations in flight.
    pub fn pending(&self) -> (count: usize)
        requires
            self.wf(),
        ensures
            count == self@.pending(),
    {
        proof {
            self.ops@.unique_seq_to_set();
        }
        self.ops.len()
    }

    /// The number of sockets that ever entered the ledger. They are numbered in
    /// the order in which they did.
    pub fn sockets(&self) -> (count: usize)
        ensures
            count == self@.sockets.len(),
    {
        self.sockets.len()
    }

    /// What is known of a socket besides its operations.
    pub fn socket(&self, socket: usize) -> (known: Socket)
        requires
            self@.known(socket),
        ensures
            known == self@.sockets[socket as int],
    {
        self.sockets[socket]
    }

    /// The place of an operation in the list.
    fn place(&self, op: Op) -> (place: Option<usize>)
        ensures
            place matches Some(i) ==> i < self.ops@.len() && self.ops@[i as int] == op,
            place is Some <==> self@.ops.contains(op),
    {
        let mut i: usize = 0;
        while i < self.ops.len()
            invariant
                i <= self.ops@.len(),
                forall|j: int| 0 <= j < i ==> self.ops@[j] != op,
            decreases self.ops@.len() - i,
        {
            if self.ops[i] == op {
                assert(self.ops@.contains(op));
                return Some(i);
            }
            i += 1;
        }
        assert(!self.ops@.contains(op));
        None
    }

    /// Tests whether an operation is in flight.
    pub fn in_flight(&self, op: Op) -> (found: bool)
        ensures
            found == self@.ops.contains(op),
    {
        self.place(op).is_some()
    }

    /// Tests whether a socket is really gone: dropped, and nothing of it in
    /// flight.
    pub fn is_released(&self, socket: usize) -> (gone: bool)
        requires
            self.wf(),
            self@.known(socket),
        ensures
            gone == self@.released(socket),
    {
        if self.sockets[socket].open {
            return false;
        }
        let mut i: usize = 0;
        while i < self.ops.len()
            invariant
                self.wf(),
                self@.known(socket),
                i <= self.ops@.len(),
                forall|j: int| 0 <= j < i ==> (#[trigger] self.ops@[j]).socket != socket,
            decreases self.ops@.len() - i,
        {
            if self.ops[i].socket == socket {
                assert(self.ops@.contains(self.ops@[i as int]));
                assert(self@.in_flight(socket, self.ops@[i as int].kind));
                proof {
                    law_released(self@, socket);
                }
                return false;
            }
            i += 1;
        }
        proof {
            law_released(self@, socket);
        }
        true
    }

    /// Appends an operation that is not in flight yet.
    fn issue(&mut self, op: Op)
        requires
            old(self).ops@.no_duplicates(),
            !old(self)@.ops.contains(op),
        ensures
            final(self).ops@.no_duplicates(),
            final(self)@.ops == old(self)@.ops.insert(op),
            final(self).sockets == old(self).sockets,
            final(self).bytes == old(self).bytes,
    {
        let ghost before = self.ops@;
        assert(!before.contains(op));
        self.ops.push(op);
        assert(self.ops@.to_set() =~= before.to_set().insert(op)) by {
            broadcast use Seq::lemma_push_to_set_commute;

        }
    }

    /// Takes an operation off the list.
    fn take_off(&mut self, op: Op)
        requires
            old(self).ops@.no_duplicates(),
            old(self)@.ops.contains(op),
        ensures
            final(self).ops@.no_duplicates(),
            final(self)@.ops == old(self)@.ops.remove(op),
            final(self).sockets == old(self).sockets,
            final(self).bytes == old(self).bytes,
    {
        if let Some(i) = self.place(op) {
            let ghost before = self.ops@;
            self.ops.remove(i);
            let ghost after = self.ops@;
            proof {
                assert forall|o: Op| after.to_set().contains(o) <==> before.to_set().remove(
                    op,
                ).contains(o) by {
                    if after.contains(o) {
                        let j = choose|j: int| 0 <= j < after.len() && after[j] == o;
                        assert(before[if j < i {
                            j
                        } else {
                            j + 1
                        }] == o);
                    }
                    if before.contains(o) && o != op {
                        let j = choose|j: int| 0 <= j < before.len() && before[j] == o;
                        assert(after[if j < i {
                            j
                        } else {
                            j - 1
                        }] == o);
                    }
                }
                assert(after.to_set() =~= before.to_set().remove(op));
            }
        }
    }

    /// Enters a socket that is registered for reading, or a stream that is
    /// registered while it connects. Its first operation is in flight at once.
    pub fn register(&mut self, kind: SocketKind) -> (socket: usize)
        requires
            old(self).wf(),
            old(self)@.sockets.len() < usize::MAX,
        ensures
            final(self).wf(),
            final(self)@ == old(self)@.registered(kind),
            socket == old(self)@.sockets.len(),
    {
        let ghost before = self@;
        let socket = self.sockets.len();
        let first = match kind {
            SocketKind::Listener => OpKind::Accept,
            SocketKind::Udp => OpKind::Recv,
            SocketKind::Stream => OpKind::Connect,
        };
        assert(first == first_op(kind));
        assert(!before.ops.contains(Op { socket, kind: first }));
        self.issue(Op { socket, kind: first });
        self.sockets.push(
            Socket { kind, open: true, connected: false, connect_error: None, send_error: None },
        );
        self.bytes = Ghost(before.registered(kind).bytes);
        proof {
            assert(self@ =~= before.registered(kind));
            law_registered(before, kind);
        }
        socket
    }

    /// Writes to a socket whose sends do not complete at once: a write that is
    /// let through takes all of the bytes and leaves a send in flight. A write of
    /// nothing to a stream succeeds and does nothing.
    pub fn write(&mut self, socket: usize, data: &[u8]) -> (result: Result<usize, ErrorKind>)
        requires
            old(self).wf(),
            old(self)@.can_send(socket),
        ensures
            final(self).wf(),
            result == old(self)@.write_result(socket, data@),
            final(self)@ == old(self)@.written(socket, data@),
    {
        let ghost before = self@;
        proof {
            law_written(before, socket, data@);
        }
        if data.len() == 0 && self.sockets[socket].kind == SocketKind::Stream {
            return Ok(0);
        }
        let send = Op { socket, kind: OpKind::Send };
        if self.in_flight(send) {
            return Err(ErrorKind::WouldBlock);
        }
        match self.tell_send_error(socket) {
            Some(error) => Err(error),
            None => {
                assert(self@ =~= before);
                self.issue(send);
                self.bytes = Ghost(before.written(socket, data@).bytes);
                assert(self@ =~= before.written(socket, data@));
                Ok(data.len())
            },
        }
    }

    /// Hands out the stored error of a send.
    fn tell_send_error(&mut self, socket: usize) -> (error: Option<ErrorKind>)
        requires
            old(self)@.known(socket),
        ensures
            error == old(self)@.sockets[socket as int].send_error,
            final(self).ops == old(self).ops,
            final(self)@ == old(self)@.send_error_told(socket),
            error is None ==> final(self)@ == old(self)@,
    {
        let ghost before = self@;
        let mut state = self.sockets[socket];
        let error = state.send_error;
        state.send_error = None;
        self.sockets.set(socket, state);
        assert(self@ =~= before.send_error_told(socket));
        assert(error is None ==> self.sockets@ =~= before.sockets);
        error
    }

    /// Flushes a stream: tells whether the kernel has taken the bytes over.
    pub fn flush(&mut self, socket: usize) -> (result: Result<(), ErrorKind>)
        requires
            old(self).wf(),
            old(self)@.held(socket),
        ensures
            final(self).wf(),
            result == old(self)@.flush_result(socket),
            final(self)@ == old(self)@.flushed(socket),
    {
        proof {
            law_flushed(self@, socket);
        }
        if self.in_flight(Op { socket, kind: OpKind::Send }) {
            return Err(ErrorKind::WouldBlock);
        }
        match self.tell_send_error(socket) {
            Some(error) => Err(error),
            None => Ok(()),
        }
    }

    /// Takes the error of a failed connect.
    pub fn take_error(&mut self, socket: usize) -> (error: Option<ErrorKind>)
        requires
            old(self).wf(),
            old(self)@.held(socket),
        ensures
            final(self).wf(),
            error == old(self)@.sockets[socket as int].connect_error,
            final(self)@ == old(self)@.connect_error_taken(socket),
    {
        let ghost before = self@;
        let mut state = self.sockets[socket];
        let error = state.connect_error;
        state.connect_error = None;
        self.sockets.set(socket, state);
        proof {
            assert(self@ =~= before.connect_error_taken(socket));
            law_connect_error_taken(before, socket);
        }
        error
    }

    /// The owner drops a socket. What it has in flight is cancelled, and counts
    /// until it is dispatched.
    pub fn drop_socket(&mut self, socket: usize)
        requires
            old(self).wf(),
            old(self)@.held(socket),
        ensures
            final(self).wf(),
            final(self)@ == old(self)@.dropped(socket),
    {
        let ghost before = self@;
        let mut state = self.sockets[socket];
        state.open = false;
        self.sockets.set(socket, state);
        proof {
            assert(self@ =~= before.dropped(socket));
            law_dropped(before, socket);
        }
    }

    /// A poll dispatches the completion of an operation. What comes back is what
    /// the poll reports of the socket.
    pub fn dispatch(&mut self, op: Op, outcome: Outcome) -> (signal: Readiness)
        requires
            old(self).wf(),
            old(self)@.ops.contains(op),
        ensures
            final(self).wf(),
            final(self)@ == old(self)@.dispatched(op, outcome),
            signal == old(self)@.signal(op, outcome),
    {
        let ghost before = self@;
        proof {
            law_dispatched(before, op, outcome);
        }
        let socket = op.socket;
        let mut state = self.sockets[socket];
        self.take_off(op);
        let mut signal = Readiness::empty();
        if state.open {
            signal = match op.kind {
                OpKind::Connect => match outcome {
                    Outcome::Done => Readiness::writable(),
                    Outcome::Failed(_) => Readiness::readable().union(Readiness::writable()),
                },
                OpKind::Send => Readiness::writable(),
                _ => Readiness::readable(),
            };
            match (op.kind, outcome) {
                (OpKind::Connect, Outcome::Done) => {
                    state.connected = true;
                    let read = Op { socket, kind: OpKind::Read };
                    assert(before.op_wf(op));
                    assert(!before.ops.contains(read));
                    self.issue(read);
                },
                (OpKind::Connect, Outcome::Failed(error)) => {
                    state.connect_error = Some(error);
                },
                (OpKind::Send, Outcome::Failed(error)) => {
                    if state.kind == SocketKind::Stream {
                        state.send_error = Some(error);
                    }
                },
                _ => {},
            }
        }
        self.sockets.set(socket, state);
        self.bytes = Ghost(before.dispatched(op, outcome).bytes);
        assert(self@ =~= before.dispatched(op, outcome));
        signal
    }

    /// Connects a stream: enters it, and dispatches its connect.
    pub fn connect(&mut self) -> (socket: usize)
        requires
            old(self).wf(),
            old(self)@.sockets.len() < usize::MAX,
        ensures
            final(self).wf(),
            final(self)@ == old(self)@.connected(),
            final(self)@.pending() == old(self)@.pending() + 1,
            socket == old(self)@.sockets.len(),
    {
        let ghost before = self@;
        proof {
            law_registered(before, SocketKind::Stream);
            law_dispatched(
                before.registered(SocketKind::Stream),
                Op { socket: before.sockets.len() as usize, kind: OpKind::Connect },
                Outcome::Done,
            );
        }
        let socket = self.register(SocketKind::Stream);
        let _ = self.dispatch(Op { socket, kind: OpKind::Connect }, Outcome::Done);
        socket
    }

    /// Dispatches the completion of everything that is in flight, once all
    /// sockets have been dropped.
    pub fn settle(&mut self, outcome: Outcome)
        requires
            old(self).wf(),
            old(self)@.all_dropped(),
        ensures
            final(self).wf(),
            final(self)@ == old(self)@.settled(outcome),
    {
        let ghost before = self@;
        while self.ops.len() > 0
            invariant
                self.wf(),
                before.wf(),
                before.all_dropped(),
                before.settling(self@, outcome),
            decreases self.ops@.len(),
        {
            let op = self.ops[self.ops.len() - 1];
            assert(self.ops@.contains(op));
            proof {
                self.ops@.unique_seq_to_set();
                law_dispatched(self@, op, outcome);
                lemma_settling(before, self@, op, outcome);
                assert(!before.sockets[op.socket as int].open);
            }
            let _ = self.dispatch(op, outcome);
            proof {
                self.ops@.unique_seq_to_set();
            }
        }
        assert(self@.ops =~= Set::<Op>::empty());
        assert(self@ =~= before.settled(outcome));
    }
}

} // verus!
