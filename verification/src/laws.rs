//! What holds of the account whatever is issued, dropped and dispatched.

use vstd::prelude::*;

use crate::account::{Account, Op, OpKind, Outcome, SocketKind, first_op};
use crate::kind::ErrorKind;
use crate::readiness::{Event, Readiness, Token};
use crate::sending::{law_park_way, park_way};
use crate::wait::{reap_decision, wait_decision};

verus! {

/// The socket's operations are finitely many.
proof fn lemma_ops_of_finite(account: Account, socket: usize)
    requires
        account.ops.finite(),
    ensures
        account.ops_of(socket).finite(),
        account.ops_of(socket).len() <= account.pending(),
{
    account.ops.lemma_len_filter(|op: Op| op.socket == socket);
}

/// An account stays well formed when only the owner's side of its sockets
/// changes: who holds them, and which errors they keep.
pub proof fn lemma_sockets_replaced(before: Account, after: Account)
    requires
        before.wf(),
        after.ops == before.ops,
        after.bytes == before.bytes,
        after.sockets.len() == before.sockets.len(),
        forall|i: int|
            0 <= i < before.sockets.len() ==> {
                let (old_socket, new_socket) = (before.sockets[i], #[trigger] after.sockets[i]);
                &&& new_socket.kind == old_socket.kind
                &&& new_socket.connected == old_socket.connected
                &&& new_socket.send_error is Some ==> new_socket.send_error
                    == old_socket.send_error
                &&& new_socket.connect_error is Some ==> new_socket.connect_error
                    == old_socket.connect_error
            },
    ensures
        after.wf(),
{
    assert forall|o: Op| #[trigger] after.ops.contains(o) implies after.known(o.socket)
        && crate::account::fits(after.sockets[o.socket as int].kind, o.kind) && after.op_wf(o) by {
        assert(before.ops.contains(o));
        assert(after.sockets[o.socket as int].kind == before.sockets[o.socket as int].kind);
    }
    assert forall|i: int| 0 <= i < after.sockets.len() implies after.socket_wf(
        #[trigger] after.sockets[i],
    ) by {
        assert(before.socket_wf(before.sockets[i]));
    }
    assert forall|i: int| 0 <= i < after.bytes.len() implies after.bytes_wf(
        i,
        #[trigger] after.bytes[i],
    ) by {
        assert(before.bytes_wf(i, before.bytes[i]));
    }
}

/// Registering a socket issues one operation, which counts once, and loans one
/// reference to the new socket; everything else stays as it was.
pub proof fn law_registered(account: Account, kind: SocketKind)
    requires
        account.wf(),
        account.sockets.len() < usize::MAX,
    ensures
        account.registered(kind).wf(),
        account.registered(kind).pending() == account.pending() + 1,
        account.registered(kind).in_flight(account.sockets.len() as usize, first_op(kind)),
        account.registered(kind).references(account.sockets.len() as usize) == 2,
        forall|s: usize|
            account.known(s) ==> #[trigger] account.registered(kind).references(s)
                == account.references(s),
{
    let after = account.registered(kind);
    let new = account.sockets.len() as usize;
    let op = Op { socket: new, kind: first_op(kind) };
    assert(!account.ops.contains(op));
    assert(after.ops_of(new) =~= Set::empty().insert(op));
    assert forall|s: usize| account.known(s) implies #[trigger] after.references(s)
        == account.references(s) by {
        assert(after.ops_of(s) =~= account.ops_of(s));
    }
    assert forall|o: Op| #[trigger] after.ops.contains(o) implies after.known(o.socket)
        && crate::account::fits(after.sockets[o.socket as int].kind, o.kind) && after.op_wf(o) by {
        if o != op {
            assert(account.ops.contains(o));
        }
    }
    assert forall|i: int| 0 <= i < after.sockets.len() implies after.socket_wf(
        #[trigger] after.sockets[i],
    ) by {
        if i < new {
            assert(account.socket_wf(account.sockets[i]));
        }
    }
    assert forall|i: int| 0 <= i < after.bytes.len() implies after.bytes_wf(
        i,
        #[trigger] after.bytes[i],
    ) by {
        if i < new {
            assert(account.bytes_wf(i, account.bytes[i]));
        } else {
            assert(after.bytes[i].sent =~= after.bytes[i].taken + after.bytes[i].in_transit);
        }
    }
}

/// A write that issues a send adds one to the count, on top of what the socket
/// has in flight already; a write that does not leaves the count alone. A write
/// that has bytes to take issues a send exactly when it succeeds.
pub proof fn law_written(account: Account, socket: usize, data: Seq<u8>)
    requires
        account.wf(),
        account.can_send(socket),
    ensures
        account.written(socket, data).wf(),
        data.len() > 0 ==> (account.issues(socket, data) <==> account.write_result(
            socket,
            data,
        ) is Ok),
        account.issues(socket, data) ==> {
            &&& account.written(socket, data).pending() == account.pending() + 1
            &&& account.written(socket, data).references(socket) == account.references(socket) + 1
            &&& account.written(socket, data).in_flight(socket, OpKind::Send)
        },
        !account.issues(socket, data) ==> account.written(socket, data).ops == account.ops,
{
    let after = account.written(socket, data);
    let op = Op { socket, kind: OpKind::Send };
    let issues = account.issues(socket, data);
    if issues {
        assert(!account.ops_of(socket).contains(op));
        assert(after.ops_of(socket) =~= account.ops_of(socket).insert(op));
        lemma_ops_of_finite(account, socket);
    }
    assert forall|o: Op| #[trigger] after.ops.contains(o) implies after.known(o.socket)
        && crate::account::fits(after.sockets[o.socket as int].kind, o.kind) && after.op_wf(o) by {
        assert(account.socket_wf(account.sockets[socket as int]));
        if o != op {
            assert(account.ops.contains(o));
        }
    }
    assert forall|i: int| 0 <= i < after.sockets.len() implies after.socket_wf(
        #[trigger] after.sockets[i],
    ) by {
        assert(account.socket_wf(account.sockets[i]));
    }
    assert forall|i: int| 0 <= i < after.bytes.len() implies after.bytes_wf(
        i,
        #[trigger] after.bytes[i],
    ) by {
        assert(account.bytes_wf(i, account.bytes[i]));
        if issues && i == socket {
            let old_bytes = account.bytes[i];
            if old_bytes.failed.len() == 0 {
                assert(old_bytes.sent =~= old_bytes.taken);
            }
        }
    }
}

/// A flush issues nothing and dispatches nothing.
pub proof fn law_flushed(account: Account, socket: usize)
    requires
        account.wf(),
        account.held(socket),
    ensures
        account.flushed(socket).wf(),
        account.flushed(socket).ops == account.ops,
        account.flushed(socket).bytes == account.bytes,
{
    let after = account.flushed(socket);
    lemma_sockets_replaced(account, after);
}

/// Taking the error of a failed connect issues nothing and dispatches nothing,
/// and leaves none to take.
pub proof fn law_connect_error_taken(account: Account, socket: usize)
    requires
        account.wf(),
        account.held(socket),
    ensures
        account.connect_error_taken(socket).wf(),
        account.connect_error_taken(socket).ops == account.ops,
        account.connect_error_taken(socket).bytes == account.bytes,
        account.connect_error_taken(socket).sockets[socket as int].connect_error is None,
{
    lemma_sockets_replaced(account, account.connect_error_taken(socket));
}

/// Dropping a socket gives its owner's reference back and no other: what it has
/// in flight still counts, and keeps it alive.
pub proof fn law_dropped(account: Account, socket: usize)
    requires
        account.wf(),
        account.held(socket),
    ensures
        account.dropped(socket).wf(),
        account.dropped(socket).ops == account.ops,
        account.dropped(socket).pending() == account.pending(),
        account.dropped(socket).references(socket) + 1 == account.references(socket),
        account.dropped(socket).released(socket) <==> account.ops_of(socket).is_empty(),
        forall|s: usize|
            account.known(s) && s != socket ==> #[trigger] account.dropped(socket).references(s)
                == account.references(s),
{
    let after = account.dropped(socket);
    lemma_sockets_replaced(account, after);
    lemma_ops_of_finite(account, socket);
    assert(after.ops_of(socket) =~= account.ops_of(socket));
    if account.ops_of(socket).len() == 0 {
        account.ops_of(socket).lemma_len0_is_empty();
    }
}

/// Dispatching a completion gives back the reference that the operation had on
/// loan and takes it off the count, except that a connect which is done leads
/// to the read that parks the stream and takes over both.
pub proof fn law_dispatched(account: Account, op: Op, outcome: Outcome)
    requires
        account.wf(),
        account.ops.contains(op),
    ensures
        account.dispatched(op, outcome).wf(),
        !account.dispatched(op, outcome).ops.contains(op),
        account.parks(op, outcome) ==> {
            &&& account.dispatched(op, outcome).pending() == account.pending()
            &&& account.dispatched(op, outcome).references(op.socket) == account.references(
                op.socket,
            )
            &&& account.dispatched(op, outcome).in_flight(op.socket, OpKind::Read)
        },
        !account.parks(op, outcome) ==> {
            &&& account.dispatched(op, outcome).pending() + 1 == account.pending()
            &&& account.dispatched(op, outcome).references(op.socket) + 1 == account.references(
                op.socket,
            )
        },
        forall|s: usize|
            account.known(s) && s != op.socket ==> #[trigger] account.dispatched(
                op,
                outcome,
            ).references(s) == account.references(s),
{
    let after = account.dispatched(op, outcome);
    let read = Op { socket: op.socket, kind: OpKind::Read };
    lemma_ops_of_finite(account, op.socket);
    assert(account.ops_of(op.socket).contains(op));
    assert(account.op_wf(op));
    if account.parks(op, outcome) {
        assert(!account.ops.contains(read));
        assert(after.ops_of(op.socket) =~= account.ops_of(op.socket).remove(op).insert(read));
    } else {
        assert(after.ops_of(op.socket) =~= account.ops_of(op.socket).remove(op));
    }
    assert forall|s: usize| account.known(s) && s != op.socket implies #[trigger] after.references(
        s,
    ) == account.references(s) by {
        assert(after.ops_of(s) =~= account.ops_of(s));
    }
    assert forall|o: Op| #[trigger] after.ops.contains(o) implies after.known(o.socket)
        && crate::account::fits(after.sockets[o.socket as int].kind, o.kind) && after.op_wf(o) by {
        if account.ops.contains(o) {
        } else {
            assert(o == read);
        }
    }
    assert forall|i: int| 0 <= i < after.sockets.len() implies after.socket_wf(
        #[trigger] after.sockets[i],
    ) by {
        assert(account.socket_wf(account.sockets[i]));
    }
    assert forall|i: int| 0 <= i < after.bytes.len() implies after.bytes_wf(
        i,
        #[trigger] after.bytes[i],
    ) by {
        assert(account.bytes_wf(i, account.bytes[i]));
        if op.kind is Send && i == op.socket {
            assert(after.bytes[i].taken + after.bytes[i].in_transit =~= after.bytes[i].taken);
        } else {
            assert(op != Op { socket: i as usize, kind: OpKind::Send });
        }
    }
}

/// A socket is gone exactly when its owner has dropped it and nothing of it is
/// in flight any more.
pub proof fn law_released(account: Account, socket: usize)
    requires
        account.wf(),
        account.known(socket),
    ensures
        account.released(socket) <==> !account.held(socket) && forall|kind: OpKind|
            !#[trigger] account.in_flight(socket, kind),
{
    lemma_ops_of_finite(account, socket);
    let ops = account.ops_of(socket);
    if ops.len() == 0 {
        ops.lemma_len0_is_empty();
        assert forall|kind: OpKind| !#[trigger] account.in_flight(socket, kind) by {
            assert(!ops.contains(Op { socket, kind }));
        }
    } else if forall|kind: OpKind| !#[trigger] account.in_flight(socket, kind) {
        let op = ops.choose();
        assert(ops.contains(op));
        assert(account.in_flight(socket, op.kind));
    }
}

/// A count of zero means that every socket that was dropped is really gone, and
/// once all sockets are dropped it means nothing less: as long as one of them is
/// not gone the count is above zero.
pub proof fn law_zero_means_gone(account: Account)
    requires
        account.wf(),
    ensures
        account.pending() == 0 ==> forall|s: usize|
            account.known(s) && !account.held(s) ==> #[trigger] account.released(s),
        account.all_dropped() ==> (account.pending() == 0 <==> forall|s: usize|
            account.known(s) ==> #[trigger] account.released(s)),
{
    if account.pending() == 0 {
        account.ops.lemma_len0_is_empty();
        assert forall|s: usize| account.known(s) && !account.held(s) implies #[trigger] account.released(
            s,
        ) by {
            assert(account.ops_of(s) =~= Set::<Op>::empty());
        }
        if account.all_dropped() {
            assert forall|s: usize| account.known(s) implies #[trigger] account.released(s) by {
                assert(!account.sockets[s as int].open);
            }
        }
    } else if account.all_dropped() {
        let op = account.ops.choose();
        assert(account.ops.contains(op));
        law_released(account, op.socket);
        assert(account.in_flight(op.socket, op.kind));
        assert(!account.released(op.socket));
    }
}

/// Dispatching keeps an account an account, and lets no socket be held again.
proof fn lemma_reaped(account: Account, completions: Seq<(Op, Outcome)>)
    requires
        account.wf(),
        account.can_reap(completions),
    ensures
        account.reaped(completions).wf(),
        account.reaped(completions).sockets.len() == account.sockets.len(),
        forall|i: int|
            0 <= i < account.sockets.len() ==> (#[trigger] account.reaped(
                completions,
            ).sockets[i]).open == account.sockets[i].open,
    decreases completions.len(),
{
    if completions.len() > 0 {
        let rest = completions.drop_last();
        let (op, outcome) = completions.last();
        lemma_reaped(account, rest);
        law_dispatched(account.reaped(rest), op, outcome);
    }
}

/// Once all sockets are dropped every dispatched completion takes exactly one
/// operation off the count, whatever the completion carries: the count is back
/// to zero after as many completions as there were operations in flight and not
/// before, and then all of the sockets are gone.
pub proof fn law_reaped(account: Account, completions: Seq<(Op, Outcome)>)
    requires
        account.wf(),
        account.all_dropped(),
        account.can_reap(completions),
    ensures
        account.reaped(completions).wf(),
        account.reaped(completions).all_dropped(),
        account.reaped(completions).pending() + completions.len() == account.pending(),
        account.reaped(completions).pending() == 0 <==> completions.len() == account.pending(),
        completions.len() == account.pending() ==> forall|s: usize|
            account.known(s) ==> #[trigger] account.reaped(completions).released(s),
    decreases completions.len(),
{
    let after = account.reaped(completions);
    lemma_reaped(account, completions);
    assert(after.all_dropped());
    if completions.len() > 0 {
        let rest = completions.drop_last();
        let (op, outcome) = completions.last();
        law_reaped(account, rest);
        law_dispatched(account.reaped(rest), op, outcome);
        assert(!account.reaped(rest).parks(op, outcome));
    }
    law_zero_means_gone(after);
    if completions.len() == account.pending() {
        assert forall|s: usize| account.known(s) implies #[trigger] after.released(s) by {
            assert(after.known(s));
        }
    }
}

/// A completion that carries an error is reaped like any other, whether the
/// owner is gone or not: it comes off the count just as one without an error
/// does. A connect that failed is not followed by a read.
pub proof fn law_error_reaped_alike(account: Account, op: Op, error: ErrorKind)
    requires
        account.wf(),
        account.ops.contains(op),
    ensures
        account.dispatched(op, Outcome::Failed(error)).pending() + 1 == account.pending(),
        account.dispatched(op, Outcome::Failed(error)).ops == account.ops.remove(op),
        !account.parks(op, Outcome::Done) ==> account.dispatched(op, Outcome::Done).ops
            == account.dispatched(op, Outcome::Failed(error)).ops,
{
    law_dispatched(account, op, Outcome::Failed(error));
}

/// The error of a failed connect is kept for an owner that is still around, who
/// takes it once.
pub proof fn law_connect_error_told(account: Account, socket: usize, error: ErrorKind)
    requires
        account.wf(),
        account.held(socket),
        account.in_flight(socket, OpKind::Connect),
    ensures
        ({
            let failed = account.dispatched(
                Op { socket, kind: OpKind::Connect },
                Outcome::Failed(error),
            );
            &&& failed.sockets[socket as int].connect_error == Some(error)
            &&& failed.connect_error_taken(socket).sockets[socket as int].connect_error is None
        }),
{
}

/// A flush waits exactly while the send is in flight, and as long as it waits it
/// touches nothing.
pub proof fn law_flush_waits(account: Account, socket: usize)
    requires
        account.wf(),
        account.held(socket),
    ensures
        account.in_flight(socket, OpKind::Send) ==> account.flush_result(socket) == Err::<
            (),
            ErrorKind,
        >(ErrorKind::WouldBlock) && account.flushed(socket) == account,
        !account.in_flight(socket, OpKind::Send)
            && account.sockets[socket as int].send_error is None ==> account.flush_result(socket)
            == Ok::<(), ErrorKind>(()),
{
}

/// From a write on, flush waits until the completion of the send is dispatched.
/// Then it succeeds if the send is done, and hands out its error if it failed.
pub proof fn law_flush_follows_write(
    account: Account,
    socket: usize,
    data: Seq<u8>,
    outcome: Outcome,
)
    requires
        account.wf(),
        account.can_send(socket),
        account.sockets[socket as int].kind is Stream,
        account.issues(socket, data),
    ensures
        ({
            let parked = account.written(socket, data);
            let done = parked.dispatched(Op { socket, kind: OpKind::Send }, outcome);
            &&& parked.flush_result(socket) == Err::<(), ErrorKind>(ErrorKind::WouldBlock)
            &&& done.flush_result(socket) == match outcome {
                Outcome::Done => Ok::<(), ErrorKind>(()),
                Outcome::Failed(error) => Err::<(), ErrorKind>(error),
            }
        }),
{
    law_written(account, socket, data);
}

/// The error of a failed send is handed out once, by a flush or by a write of
/// something, whichever comes first; afterwards flush is clean again, and so is write.
pub proof fn law_send_error_told_once(account: Account, socket: usize, data: Seq<u8>)
    requires
        account.wf(),
        account.can_send(socket),
        !account.in_flight(socket, OpKind::Send),
        account.sockets[socket as int].send_error is Some,
        data.len() > 0,
    ensures
        account.flush_result(socket) == Err::<(), ErrorKind>(
            account.sockets[socket as int].send_error->0,
        ),
        account.write_result(socket, data) == Err::<usize, ErrorKind>(
            account.sockets[socket as int].send_error->0,
        ),
        account.flushed(socket) == account.written(socket, data),
        account.flushed(socket).flush_result(socket) == Ok::<(), ErrorKind>(()),
        account.flushed(socket).write_result(socket, data) == Ok::<usize, ErrorKind>(
            data.len() as usize,
        ),
{
}

/// Write, flush until it succeeds, drop at once: the kernel has every byte that
/// was reported as written, and nothing that is dispatched after the drop takes
/// one back.
pub proof fn law_flush_then_drop_delivers(
    account: Account,
    socket: usize,
    completions: Seq<(Op, Outcome)>,
)
    requires
        account.wf(),
        account.held(socket),
        account.flush_result(socket) is Ok,
        account.bytes[socket as int].failed.len() == 0,
        account.flushed(socket).dropped(socket).can_reap(completions),
    ensures
        account.bytes[socket as int].taken == account.bytes[socket as int].sent,
        account.flushed(socket).dropped(socket).reaped(completions).bytes[socket as int]
            == account.bytes[socket as int],
{
    let bytes = account.bytes[socket as int];
    assert(account.bytes_wf(socket as int, bytes));
    assert(bytes.taken + bytes.in_transit =~= bytes.taken);
    law_flushed(account, socket);
    law_dropped(account.flushed(socket), socket);
    lemma_bytes_settled(account.flushed(socket).dropped(socket), socket, completions);
}

/// Dispatching does not touch the bytes of a socket that has no send in flight,
/// and does not put one in flight.
proof fn lemma_bytes_settled(account: Account, socket: usize, completions: Seq<(Op, Outcome)>)
    requires
        account.wf(),
        account.known(socket),
        !account.in_flight(socket, OpKind::Send),
        account.can_reap(completions),
    ensures
        !account.reaped(completions).in_flight(socket, OpKind::Send),
        account.reaped(completions).bytes[socket as int] == account.bytes[socket as int],
    decreases completions.len(),
{
    if completions.len() > 0 {
        let rest = completions.drop_last();
        lemma_bytes_settled(account, socket, rest);
        lemma_reaped(account, rest);
        assert(completions.last().0 != Op { socket, kind: OpKind::Send });
    }
}

/// A peer reads no more than was written, whatever fails or is cancelled: at any
/// time after the socket is dropped the most that the kernel can have accepted is
/// what writes had reported by then, and so a peer that has read to the end has
/// read no more than that.
pub proof fn law_no_more_than_written(
    account: Account,
    socket: usize,
    completions: Seq<(Op, Outcome)>,
    total: nat,
)
    requires
        account.wf(),
        account.held(socket),
        account.dropped(socket).can_reap(completions),
        total <= account.dropped(socket).reaped(completions).bytes[socket as int].reach(),
    ensures
        account.dropped(socket).reaped(completions).bytes[socket as int].sent
            == account.bytes[socket as int].sent,
        total <= account.bytes[socket as int].sent.len(),
{
    let dropped = account.dropped(socket);
    law_dropped(account, socket);
    lemma_reaped(dropped, completions);
    lemma_sent_kept(dropped, socket, completions);
    let after = dropped.reaped(completions);
    assert(after.bytes_wf(socket as int, after.bytes[socket as int]));
}

/// Dispatching does not change what writes have reported.
proof fn lemma_sent_kept(account: Account, socket: usize, completions: Seq<(Op, Outcome)>)
    requires
        account.wf(),
        account.known(socket),
        account.can_reap(completions),
    ensures
        account.reaped(completions).bytes[socket as int].sent == account.bytes[socket as int].sent,
    decreases completions.len(),
{
    if completions.len() > 0 {
        let rest = completions.drop_last();
        lemma_sent_kept(account, socket, rest);
        lemma_reaped(account, rest);
    }
}

/// The writable event signals the completion of the send: what is reported when
/// the send's completion is dispatched satisfies a wait for the stream to be
/// writable, no other completion of a stream with a send in flight does, and after
/// it flush does not wait but tells how the send ended.
pub proof fn law_writable_signals_send(account: Account, op: Op, outcome: Outcome)
    requires
        account.wf(),
        account.ops.contains(op),
        account.held(op.socket),
        account.sockets[op.socket as int].kind is Stream,
        account.in_flight(op.socket, OpKind::Send),
    ensures
        account.signal(op, outcome).covers(Readiness::spec_writable()) <==> op.kind is Send,
        op.kind is Send ==> account.dispatched(op, outcome).flush_result(op.socket)
            == match outcome {
            Outcome::Done => Ok::<(), ErrorKind>(()),
            Outcome::Failed(error) => Err::<(), ErrorKind>(error),
        },
        !(op.kind is Send) ==> account.dispatched(op, outcome).flush_result(op.socket) == Err::<
            (),
            ErrorKind,
        >(ErrorKind::WouldBlock),
{
    let send = Op { socket: op.socket, kind: OpKind::Send };
    assert(account.op_wf(send));
    assert(account.op_wf(op));
    lemma_directions();
}

/// A connect's completion is reported as writable: a stream that was registered
/// while it connects reports writable for the first time when its connect is
/// dispatched. If that is done the stream is connected and parked, and if it
/// failed the error is there to be taken.
pub proof fn law_writable_signals_connect(account: Account, op: Op, outcome: Outcome)
    requires
        account.wf(),
        account.ops.contains(op),
        account.held(op.socket),
        account.in_flight(op.socket, OpKind::Connect),
    ensures
        op.kind is Connect,
        account.signal(op, outcome).covers(Readiness::spec_writable()),
        outcome is Done ==> {
            &&& account.dispatched(op, outcome).sockets[op.socket as int].connected
            &&& account.dispatched(op, outcome).in_flight(op.socket, OpKind::Read)
        },
        outcome matches Outcome::Failed(error) ==> {
            &&& !account.dispatched(op, outcome).sockets[op.socket as int].connected
            &&& account.dispatched(op, outcome).sockets[op.socket as int].connect_error
                == Some(error)
        },
{
    let connect = Op { socket: op.socket, kind: OpKind::Connect };
    assert(account.op_wf(connect));
    assert(account.op_wf(op));
    lemma_directions();
}

/// What is reported of a completion is found by a loop that waits for it, in
/// whatever company it comes: a batch that holds an event of the socket's token
/// with it ends a wait for anything that it covers. Of a dropped socket nothing
/// is reported that would end a wait for anything at all.
pub proof fn law_signal_ends_wait(
    account: Account,
    op: Op,
    outcome: Outcome,
    token: Token,
    events: Seq<Event>,
    ready: Readiness,
    deadline: u64,
    now: u64,
)
    requires
        account.wf(),
        account.ops.contains(op),
        events.contains(Event { token, readiness: account.signal(op, outcome) }),
        account.signal(op, outcome).covers(ready),
    ensures
        wait_decision(Some(events), token, ready, deadline, now) is Found,
        !account.held(op.socket) ==> ready == Readiness::spec_empty(),
{
    let event = Event { token, readiness: account.signal(op, outcome) };
    let i = choose|i: int| 0 <= i < events.len() && events[i] == event;
    assert(events[i].token == token && events[i].readiness.covers(ready));
    let bits = ready.bits;
    assert(0usize & bits == bits ==> bits == 0) by (bit_vector);
}

/// Reading and writing are different bits.
proof fn lemma_directions()
    ensures
        !Readiness::spec_readable().covers(Readiness::spec_writable()),
        Readiness::spec_writable().covers(Readiness::spec_writable()),
        Readiness::spec_readable().spec_union(Readiness::spec_writable()).covers(
            Readiness::spec_writable(),
        ),
{
    assert(1usize & 2 == 0) by (bit_vector);
    assert(2usize & 2 == 2) by (bit_vector);
    assert((1usize | 2usize) & 2 == 2) by (bit_vector);
}

/// Settling leaves nothing in flight, and so every socket is gone.
pub proof fn law_settled(account: Account, outcome: Outcome)
    requires
        account.wf(),
        account.all_dropped(),
    ensures
        account.settled(outcome).wf(),
        account.settled(outcome).pending() == 0,
        forall|s: usize|
            account.known(s) ==> #[trigger] account.settled(outcome).released(s),
{
    let after = account.settled(outcome);
    assert forall|s: usize| account.known(s) implies #[trigger] after.released(s) by {
        assert(after.ops_of(s) =~= Set::<Op>::empty());
        assert(!account.sockets[s as int].open);
    }
    assert forall|i: int| 0 <= i < after.sockets.len() implies after.socket_wf(
        #[trigger] after.sockets[i],
    ) by {
        assert(account.socket_wf(account.sockets[i]));
    }
    assert forall|i: int| 0 <= i < after.bytes.len() implies after.bytes_wf(
        i,
        #[trigger] after.bytes[i],
    ) by {
        assert(account.bytes_wf(i, account.bytes[i]));
        assert(after.bytes[i].taken + after.bytes[i].in_transit =~= after.bytes[i].taken);
    }
}

/// Whatever is in flight when a socket is dropped, a write included, does not
/// keep it alive for good: it is gone as soon as the completions of its own
/// operations have been dispatched, and not before. What other sockets have in
/// flight makes no difference.
pub proof fn law_dropped_then_reaped(
    account: Account,
    socket: usize,
    completions: Seq<(Op, Outcome)>,
)
    requires
        account.wf(),
        account.held(socket),
        account.dropped(socket).can_reap(completions),
    ensures
        account.dropped(socket).reaped(completions).released(socket) <==> forall|kind: OpKind|
            !#[trigger] account.dropped(socket).reaped(completions).in_flight(socket, kind),
{
    let dropped = account.dropped(socket);
    law_dropped(account, socket);
    lemma_reaped(dropped, completions);
    let after = dropped.reaped(completions);
    assert(after.sockets[socket as int].open == dropped.sockets[socket as int].open);
    law_released(after, socket);
}

/// One more completion with the same outcome keeps an account on its way.
pub proof fn lemma_settling(before: Account, now: Account, op: Op, outcome: Outcome)
    requires
        before.wf(),
        before.all_dropped(),
        before.settling(now, outcome),
        now.ops.contains(op),
    ensures
        before.settling(now.dispatched(op, outcome), outcome),
{
    let after = now.dispatched(op, outcome);
    assert(!before.sockets[op.socket as int].open);
    assert(after.sockets =~= before.sockets);
    assert forall|i: int| 0 <= i < before.bytes.len() implies #[trigger] after.bytes[i]
        == before.settling_bytes(after, outcome, i) by {
        assert(now.bytes[i] == before.settling_bytes(now, outcome, i));
    }
}

/// What dispatching some of the completions leads to when all sockets are
/// dropped and every completion carries the same outcome.
proof fn lemma_reaped_alike(account: Account, completions: Seq<(Op, Outcome)>, outcome: Outcome)
    requires
        account.wf(),
        account.all_dropped(),
        account.can_reap(completions),
        forall|i: int| 0 <= i < completions.len() ==> (#[trigger] completions[i]).1 == outcome,
    ensures
        account.settling(account.reaped(completions), outcome),
    decreases completions.len(),
{
    if completions.len() > 0 {
        let rest = completions.drop_last();
        lemma_reaped_alike(account, rest, outcome);
        assert(completions.last().1 == outcome);
        lemma_settling(account, account.reaped(rest), completions.last().0, outcome);
    }
}

/// Settling is dispatching every completion, in whatever order: all orders lead
/// to the same account.
pub proof fn law_settled_in_any_order(
    account: Account,
    completions: Seq<(Op, Outcome)>,
    outcome: Outcome,
)
    requires
        account.wf(),
        account.all_dropped(),
        account.can_reap(completions),
        completions.len() == account.pending(),
        forall|i: int| 0 <= i < completions.len() ==> (#[trigger] completions[i]).1 == outcome,
    ensures
        account.reaped(completions) == account.settled(outcome),
{
    lemma_reaped_alike(account, completions, outcome);
    law_reaped(account, completions);
    let after = account.reaped(completions);
    after.ops.lemma_len0_is_empty();
    assert(after =~= account.settled(outcome));
}

/// A loop that polls until the operations in flight are reaped does not end
/// before the sockets that were dropped are really gone, and once all sockets are
/// dropped and gone it polls no more.
pub proof fn law_reaping_loop(account: Account, pending: usize, deadline: u64, now: u64)
    requires
        account.wf(),
        pending == account.pending(),
    ensures
        reap_decision(pending, deadline, now) is Done ==> forall|s: usize|
            account.known(s) && !account.held(s) ==> #[trigger] account.released(s),
        account.all_dropped() ==> (reap_decision(pending, deadline, now) is Done
            <==> forall|s: usize| account.known(s) ==> #[trigger] account.released(s)),
{
    law_zero_means_gone(account);
}

/// A send is parked exactly where a write issues one: the write then takes all of
/// the bytes and the flush has to wait. An empty write issues nothing, and finds a
/// send parked exactly where the flush had to wait before it.
pub proof fn law_parking(account: Account, socket: usize, data: Seq<u8>)
    requires
        account.wf(),
        account.can_send(socket),
        account.sockets[socket as int].kind is Stream,
        data.len() <= usize::MAX,
    ensures
        park_way(
            data.len() as usize,
            account.write_result(socket, data),
            account.written(socket, data).flush_result(socket),
        ).last() is Parked <==> account.issues(socket, data) || (data.len() == 0
            && account.flush_result(socket) == Err::<(), ErrorKind>(ErrorKind::WouldBlock)),
{
    law_park_way(
        data.len() as usize,
        account.write_result(socket, data),
        account.written(socket, data).flush_result(socket),
    );
}

/// An account of nothing counts nothing, and every kind of socket enters with the
/// one operation that waits for what the socket is there for: a listener with an
/// accept, a UDP socket with a recv, a stream with a connect. It belongs to its owner,
/// is not connected, keeps no error, and no byte went through it; what was in the
/// account before stays as it was.
pub proof fn law_first_operation(account: Account, kind: SocketKind)
    requires
        account.wf(),
        account.sockets.len() < usize::MAX,
    ensures
        Account::empty().wf(),
        Account::empty().pending() == 0,
        Account::empty().sockets.len() == 0,
        ({
            let new = account.sockets.len();
            let after = account.registered(kind);
            let issued = after.ops.difference(account.ops);
            &&& account.ops.subset_of(after.ops)
            &&& forall|op: Op| #[trigger]
                issued.contains(op) <==> op.socket == new && match kind {
                    SocketKind::Listener => op.kind == OpKind::Accept,
                    SocketKind::Udp => op.kind == OpKind::Recv,
                    SocketKind::Stream => op.kind == OpKind::Connect,
                }
            &&& after.pending() == account.pending() + 1
            &&& after.sockets.len() == new + 1
            &&& after.sockets.drop_last() == account.sockets
            &&& after.bytes.drop_last() == account.bytes
            &&& after.sockets[new as int].kind == kind
            &&& after.sockets[new as int].open
            &&& !after.sockets[new as int].connected
            &&& after.sockets[new as int].connect_error is None
            &&& after.sockets[new as int].send_error is None
            &&& after.bytes[new as int].sent.len() == 0
            &&& after.bytes[new as int].in_transit.len() == 0
            &&& after.bytes[new as int].taken.len() == 0
            &&& after.bytes[new as int].failed.len() == 0
        }),
{
    law_registered(account, kind);
    let after = account.registered(kind);
    let op = Op { socket: account.sockets.len() as usize, kind: first_op(kind) };
    assert(!account.ops.contains(op));
    assert(after.sockets.drop_last() =~= account.sockets);
    assert(after.bytes.drop_last() =~= account.bytes);
}

/// Who may send: a UDP socket from when it is registered on, a stream from when its
/// connect is done on and not before, a listener never, and none of them once it is
/// dropped.
pub proof fn law_who_sends(account: Account, socket: usize, kind: SocketKind)
    requires
        account.wf(),
        account.sockets.len() < usize::MAX,
    ensures
        account.registered(kind).held(account.sockets.len() as usize),
        account.registered(kind).can_send(account.sockets.len() as usize) <==> kind
            == SocketKind::Udp,
        account.connected().can_send(account.sockets.len() as usize),
        account.can_send(socket) <==> {
            &&& account.held(socket)
            &&& account.sockets[socket as int].connected || account.sockets[socket as int].kind
                == SocketKind::Udp
        },
        account.can_send(socket) ==> account.sockets[socket as int].kind != SocketKind::Listener,
        account.held(socket) <==> socket < account.sockets.len()
            && account.sockets[socket as int].open,
        account.held(socket) ==> !account.dropped(socket).held(socket) && !account.dropped(
            socket,
        ).can_send(socket),
{
    if account.can_send(socket) {
        assert(account.socket_wf(account.sockets[socket as int]));
    }
}

/// A write takes all of the bytes or none, whatever the kind of the socket: where it
/// succeeds it reports as many bytes as there are, and where it puts a send in flight
/// it succeeds. It has to wait exactly while a send is in flight, and fails otherwise
/// exactly with the error that an earlier send has left. Nothing holds up a write of
/// nothing to a stream.
pub proof fn law_write_takes_all(account: Account, socket: usize, data: Seq<u8>)
    requires
        account.wf(),
        account.can_send(socket),
        data.len() <= usize::MAX,
    ensures
        ({
            let send = Op { socket, kind: OpKind::Send };
            let kept = account.sockets[socket as int].send_error;
            let nothing = data.len() == 0 && account.sockets[socket as int].kind
                == SocketKind::Stream;
            let result = account.write_result(socket, data);
            let after = account.written(socket, data);
            &&& result matches Ok(n) ==> n == data.len()
            &&& account.issues(socket, data) ==> result == Ok::<usize, ErrorKind>(
                data.len() as usize,
            )
            &&& after.ops != account.ops ==> result == Ok::<usize, ErrorKind>(data.len() as usize)
            &&& result is Ok && !nothing ==> !account.ops.contains(send) && after.ops
                == account.ops.insert(send)
            &&& result is Err || nothing ==> after.ops == account.ops
            &&& nothing ==> result is Ok
            &&& !nothing && account.ops.contains(send) ==> result == Err::<usize, ErrorKind>(
                ErrorKind::WouldBlock,
            )
            &&& !nothing && !account.ops.contains(send) ==> match kept {
                Some(error) => result == Err::<usize, ErrorKind>(error),
                None => result is Ok,
            }
        }),
{
}

/// A write touches its own socket alone. The bytes that it takes follow those that
/// were sent before, and all of them are in transit; a write that takes none leaves
/// the bytes alone. Of the socket only the error that the write hands out changes,
/// which is then gone, and neither a write that succeeds nor one that has to wait
/// changes anything of it.
pub proof fn law_write_keeps(account: Account, socket: usize, data: Seq<u8>)
    requires
        account.wf(),
        account.can_send(socket),
        data.len() <= usize::MAX,
    ensures
        ({
            let result = account.write_result(socket, data);
            let after = account.written(socket, data);
            let (old_bytes, new_bytes) = (account.bytes[socket as int], after.bytes[socket as int]);
            let (old_socket, new_socket) = (
                account.sockets[socket as int],
                after.sockets[socket as int],
            );
            &&& after.sockets.len() == account.sockets.len()
            &&& after.bytes.len() == account.bytes.len()
            &&& forall|i: int|
                0 <= i < account.sockets.len() && i != socket ==> #[trigger] after.sockets[i]
                    == account.sockets[i]
            &&& forall|i: int|
                0 <= i < account.bytes.len() && i != socket ==> #[trigger] after.bytes[i]
                    == account.bytes[i]
            &&& new_bytes.taken == old_bytes.taken
            &&& new_bytes.failed == old_bytes.failed
            &&& result is Ok ==> new_bytes.sent == old_bytes.sent + data
            &&& result is Ok && data.len() > 0 ==> new_bytes.in_transit == data
            &&& result is Err ==> new_bytes == old_bytes
            &&& new_socket.kind == old_socket.kind
            &&& new_socket.open == old_socket.open
            &&& new_socket.connected == old_socket.connected
            &&& new_socket.connect_error == old_socket.connect_error
            &&& result is Ok || account.ops.contains(Op { socket, kind: OpKind::Send })
                ==> new_socket == old_socket
            &&& result is Err ==> new_socket.send_error is None
        }),
{
    let after = account.written(socket, data);
    if data.len() == 0 {
        assert(account.bytes[socket as int].sent + data =~= account.bytes[socket as int].sent);
    }
    if account.ops.contains(Op { socket, kind: OpKind::Send }) {
        assert(account.op_wf(Op { socket, kind: OpKind::Send }));
    }
}

/// A flush has to wait exactly while a send is in flight, fails otherwise exactly with
/// the error that a send has left, and succeeds otherwise. It touches nothing but that
/// error, which is then gone.
pub proof fn law_flush_tells(account: Account, socket: usize)
    requires
        account.wf(),
        account.held(socket),
    ensures
        ({
            let sending = account.ops.contains(Op { socket, kind: OpKind::Send });
            let kept = account.sockets[socket as int].send_error;
            let result = account.flush_result(socket);
            let after = account.flushed(socket);
            let (old_socket, new_socket) = (
                account.sockets[socket as int],
                after.sockets[socket as int],
            );
            &&& sending ==> result == Err::<(), ErrorKind>(ErrorKind::WouldBlock) && after
                == account
            &&& !sending && kept is None ==> result is Ok && after == account
            &&& !sending && kept is Some ==> result == Err::<(), ErrorKind>(kept->0)
                && new_socket.send_error is None
            &&& after.ops == account.ops
            &&& after.bytes == account.bytes
            &&& after.sockets.len() == account.sockets.len()
            &&& forall|i: int|
                0 <= i < account.sockets.len() && i != socket ==> #[trigger] after.sockets[i]
                    == account.sockets[i]
            &&& new_socket.kind == old_socket.kind
            &&& new_socket.open == old_socket.open
            &&& new_socket.connected == old_socket.connected
            &&& new_socket.connect_error == old_socket.connect_error
        }),
{
    if account.sockets[socket as int].send_error is None {
        assert(account.flushed(socket) =~= account);
    }
}

/// Taking a connect's error touches nothing but that error, and dropping a socket
/// nothing but who holds it.
pub proof fn law_owner_touches_own(account: Account, socket: usize)
    requires
        account.wf(),
        account.held(socket),
    ensures
        ({
            let before = account.sockets[socket as int];
            let taken = account.connect_error_taken(socket);
            let told = taken.sockets[socket as int];
            let dropped = account.dropped(socket);
            let left = dropped.sockets[socket as int];
            &&& taken.ops == account.ops && taken.bytes == account.bytes
            &&& dropped.ops == account.ops && dropped.bytes == account.bytes
            &&& taken.sockets.len() == account.sockets.len()
            &&& dropped.sockets.len() == account.sockets.len()
            &&& forall|i: int|
                0 <= i < account.sockets.len() && i != socket ==> #[trigger] taken.sockets[i]
                    == account.sockets[i]
            &&& forall|i: int|
                0 <= i < account.sockets.len() && i != socket ==> #[trigger] dropped.sockets[i]
                    == account.sockets[i]
            &&& told.connect_error is None
            &&& told.kind == before.kind && told.open && told.connected == before.connected
            &&& told.send_error == before.send_error
            &&& !left.open
            &&& left.kind == before.kind && left.connected == before.connected
            &&& left.connect_error == before.connect_error && left.send_error
                == before.send_error
        }),
{
}

/// Nothing but the completion of a connect can put an operation in flight: every other
/// completion, whatever it carries and whether the owner is gone or not, takes its own
/// operation off the count and leaves all others as they are. A connect does the same
/// unless it is done and its owner is still around, and then the one operation that it
/// puts in flight is the read of its stream.
pub proof fn law_only_connect_issues(account: Account, op: Op, outcome: Outcome)
    requires
        account.wf(),
        account.ops.contains(op),
    ensures
        ({
            let after = account.dispatched(op, outcome);
            let read = Op { socket: op.socket, kind: OpKind::Read };
            let replaced = op.kind == OpKind::Connect && outcome == Outcome::Done
                && account.sockets[op.socket as int].open;
            &&& op.kind != OpKind::Connect ==> after.ops == account.ops.remove(op)
                && after.pending() == account.pending() - 1
            &&& outcome != Outcome::Done ==> after.ops == account.ops.remove(op) && after.pending()
                == account.pending() - 1
            &&& !account.held(op.socket) ==> after.ops == account.ops.remove(op)
                && after.pending() == account.pending() - 1
            &&& replaced ==> !account.ops.contains(read) && after.ops == account.ops.remove(
                op,
            ).insert(read) && after.pending() == account.pending()
        }),
{
    law_dispatched(account, op, outcome);
    assert(account.op_wf(op));
}

/// What a completion does to the sockets. It touches the socket of its operation
/// alone, never changes what that is or who holds it, and tells an owner that is gone
/// nothing. A stream is connected by a connect that is done and by nothing else, a
/// connect's error is kept from a connect that failed and a send's error from a send
/// of a stream that failed; no other completion changes either of them.
pub proof fn law_completion_tells(account: Account, op: Op, outcome: Outcome)
    requires
        account.wf(),
        account.ops.contains(op),
    ensures
        ({
            let after = account.dispatched(op, outcome);
            let (old_socket, new_socket) = (
                account.sockets[op.socket as int],
                after.sockets[op.socket as int],
            );
            &&& after.sockets.len() == account.sockets.len()
            &&& forall|i: int|
                0 <= i < account.sockets.len() && i != op.socket ==> #[trigger] after.sockets[i]
                    == account.sockets[i]
            &&& new_socket.kind == old_socket.kind
            &&& new_socket.open == old_socket.open
            &&& !old_socket.open ==> new_socket == old_socket
            &&& old_socket.open ==> {
                &&& new_socket.connected <==> old_socket.connected || (op.kind == OpKind::Connect
                    && outcome == Outcome::Done)
                &&& op.kind == OpKind::Connect ==> new_socket.connect_error == match outcome {
                    Outcome::Done => old_socket.connect_error,
                    Outcome::Failed(error) => Some(error),
                }
                &&& op.kind != OpKind::Connect ==> new_socket.connect_error
                    == old_socket.connect_error
                &&& op.kind == OpKind::Send && old_socket.kind == SocketKind::Stream
                    ==> new_socket.send_error == match outcome {
                    Outcome::Done => None::<ErrorKind>,
                    Outcome::Failed(error) => Some(error),
                }
                &&& op.kind != OpKind::Send || old_socket.kind != SocketKind::Stream
                    ==> new_socket.send_error == old_socket.send_error
            }
        }),
{
    assert(account.op_wf(op));
}

/// What a completion does to the bytes. It touches none but those that its own send
/// carries, which are then in transit no more: they follow what the kernel has taken
/// over if the send is done, and what failed sends have carried if it failed. What
/// writes have reported stays.
pub proof fn law_completion_moves_bytes(account: Account, op: Op, outcome: Outcome)
    requires
        account.wf(),
        account.ops.contains(op),
    ensures
        ({
            let after = account.dispatched(op, outcome);
            let (old_bytes, new_bytes) = (
                account.bytes[op.socket as int],
                after.bytes[op.socket as int],
            );
            &&& after.bytes.len() == account.bytes.len()
            &&& forall|i: int|
                0 <= i < account.bytes.len() && i != op.socket ==> #[trigger] after.bytes[i]
                    == account.bytes[i]
            &&& op.kind != OpKind::Send ==> new_bytes == old_bytes
            &&& op.kind == OpKind::Send ==> {
                &&& new_bytes.sent == old_bytes.sent
                &&& new_bytes.in_transit.len() == 0
                &&& outcome == Outcome::Done ==> new_bytes.taken == old_bytes.taken
                    + old_bytes.in_transit && new_bytes.failed == old_bytes.failed
                &&& outcome != Outcome::Done ==> new_bytes.taken == old_bytes.taken
                    && new_bytes.failed == old_bytes.failed + old_bytes.in_transit
            }
        }),
{
}

/// What is reported of a completion, bit by bit: the second bit, writable, for a connect
/// and a send and for nothing else, and the lowest, readable, for everything else and for
/// a connect that failed. There are no other bits, and there is none for a socket that
/// was dropped.
pub proof fn law_signals(account: Account, op: Op, outcome: Outcome)
    requires
        account.wf(),
        account.ops.contains(op),
    ensures
        !account.held(op.socket) ==> account.signal(op, outcome).bits == 0,
        account.held(op.socket) ==> account.signal(op, outcome).bits == match op.kind {
            OpKind::Accept | OpKind::Recv | OpKind::Read => 1usize,
            OpKind::Send => 2usize,
            OpKind::Connect => if outcome == Outcome::Done {
                2usize
            } else {
                3usize
            },
        },
{
    assert(1usize | 2usize == 3) by (bit_vector);
}

/// Connecting a stream leaves one operation more in flight than before, the read of the
/// new stream, and a connected stream that keeps no error and that no byte went through.
pub proof fn law_connected_parks(account: Account)
    requires
        account.wf(),
        account.sockets.len() < usize::MAX,
    ensures
        ({
            let new = account.sockets.len();
            let after = account.connected();
            &&& after.wf()
            &&& after.ops == account.ops.insert(Op { socket: new as usize, kind: OpKind::Read })
            &&& after.pending() == account.pending() + 1
            &&& after.sockets.len() == new + 1
            &&& after.bytes.len() == new + 1
            &&& after.sockets.drop_last() == account.sockets
            &&& after.bytes.drop_last() == account.bytes
            &&& after.sockets[new as int].kind == SocketKind::Stream
            &&& after.sockets[new as int].open
            &&& after.sockets[new as int].connected
            &&& after.sockets[new as int].connect_error is None
            &&& after.sockets[new as int].send_error is None
            &&& after.bytes[new as int].sent.len() == 0
            &&& after.bytes[new as int].in_transit.len() == 0
            &&& after.bytes[new as int].taken.len() == 0
            &&& after.bytes[new as int].failed.len() == 0
        }),
{
    let registered = account.registered(SocketKind::Stream);
    let connect = Op { socket: account.sockets.len() as usize, kind: OpKind::Connect };
    let after = account.connected();
    law_first_operation(account, SocketKind::Stream);
    law_dispatched(registered, connect, Outcome::Done);
    assert(!account.ops.contains(connect));
    assert(after.ops =~= account.ops.insert(
        Op { socket: account.sockets.len() as usize, kind: OpKind::Read },
    ));
    assert(after.sockets.drop_last() =~= account.sockets);
    assert(after.bytes.drop_last() =~= account.bytes);
}

/// Settling tells no owner anything and moves the bytes of every send in flight the way
/// that its completion goes, and no others.
pub proof fn law_settled_moves_bytes(account: Account, outcome: Outcome)
    requires
        account.wf(),
        account.all_dropped(),
    ensures
        account.settled(outcome).ops.is_empty(),
        account.settled(outcome).sockets == account.sockets,
        account.settled(outcome).bytes.len() == account.bytes.len(),
        forall|i: int|
            0 <= i < account.bytes.len() ==> {
                let (old_bytes, new_bytes) = (
                    account.bytes[i],
                    #[trigger] account.settled(outcome).bytes[i],
                );
                &&& new_bytes.sent == old_bytes.sent
                &&& new_bytes.in_transit.len() == 0
                &&& outcome == Outcome::Done ==> new_bytes.taken == old_bytes.taken
                    + old_bytes.in_transit && new_bytes.failed == old_bytes.failed
                &&& outcome != Outcome::Done ==> new_bytes.taken == old_bytes.taken
                    && new_bytes.failed == old_bytes.failed + old_bytes.in_transit
            },
{
    let after = account.settled(outcome);
    assert forall|i: int| 0 <= i < account.bytes.len() implies {
        let (old_bytes, new_bytes) = (account.bytes[i], #[trigger] after.bytes[i]);
        &&& new_bytes.sent == old_bytes.sent
        &&& new_bytes.in_transit.len() == 0
        &&& outcome == Outcome::Done ==> new_bytes.taken == old_bytes.taken + old_bytes.in_transit
            && new_bytes.failed == old_bytes.failed
        &&& outcome != Outcome::Done ==> new_bytes.taken == old_bytes.taken && new_bytes.failed
            == old_bytes.failed + old_bytes.in_transit
    } by {
        let bytes = account.bytes[i];
        assert(account.bytes_wf(i, bytes));
        if bytes.in_transit.len() == 0 {
            assert(bytes.taken + bytes.in_transit =~= bytes.taken);
            assert(bytes.failed + bytes.in_transit =~= bytes.failed);
        }
    }
}

/// What keeps a socket alive is its owner and one loan for each of its operations in
/// flight: without any there is nothing but the owner, and each operation that is put
/// in flight or taken off counts for its own socket and for no other.
pub proof fn law_references(account: Account, op: Op, socket: usize)
    requires
        account.wf(),
        account.known(socket),
        !account.ops.contains(op),
    ensures
        ({
            let more = Account { ops: account.ops.insert(op), ..account };
            let none = Account { ops: Set::empty(), ..account };
            &&& more.pending() == account.pending() + 1
            &&& op.socket == socket ==> more.references(socket) == account.references(socket) + 1
            &&& op.socket != socket ==> more.references(socket) == account.references(socket)
            &&& none.pending() == 0
            &&& none.references(socket) == if account.sockets[socket as int].open {
                1nat
            } else {
                0nat
            }
            &&& account.released(socket) <==> account.references(socket) == 0
        }),
{
    let more = Account { ops: account.ops.insert(op), ..account };
    let none = Account { ops: Set::empty(), ..account };
    lemma_ops_of_finite(account, socket);
    assert(none.ops_of(socket) =~= Set::<Op>::empty());
    if op.socket == socket {
        assert(!account.ops_of(socket).contains(op));
        assert(more.ops_of(socket) =~= account.ops_of(socket).insert(op));
    } else {
        assert(more.ops_of(socket) =~= account.ops_of(socket));
    }
}

} // verus!
