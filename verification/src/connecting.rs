//! Connecting a stream to a blocking peer, step by step.

use vstd::prelude::*;

use crate::readiness::{Readiness, Registration, Token, Trigger};
use crate::wait::TIMEOUT;

verus! {

/// The receive buffer that a peer is pinned to, so that a large send cannot
/// complete while the peer is not reading: 64 KiB.
pub const PEER_BUFFER: usize = 65_536;

/// How a stream is to be connected.
#[derive(Clone, Copy, Debug)]
pub struct Plan {
    /// How the stream is registered.
    pub registration: Registration,
    /// The size of the peer's receive buffer, which fixes how much the kernel can
    /// accept without the peer reading anything.
    pub peer_buffer: usize,
    /// How long a read of the peer may take, in nanoseconds, if that is limited.
    pub peer_timeout: Option<u64>,
    /// What the stream is waited for with `wait_for`. With none it is waited for
    /// with `wait_writable`.
    pub waits_for: Option<Readiness>,
    /// The size that the stream's send buffer is set to; with `None` it is left as
    /// it is. At size zero the stream sends straight out of the caller's buffer.
    pub send_buffer: Option<usize>,
}

/// What has been done so far.
#[derive(Clone, Copy, Debug, PartialEq, Eq, Structural)]
pub enum Progress {
    /// Nothing.
    Start,
    /// The connect was started.
    Connected,
    /// The stream was registered, which issues the connect.
    Registered,
    /// The peer was accepted.
    Accepted,
    /// The peer's receive buffer has its size.
    PeerSized,
    /// The peer's reads are limited.
    PeerTimed,
    /// The stream has reported that it is writable: the connect was dispatched.
    Writable,
    /// The send buffer was set.
    SendSized,
    /// The send buffer has this size.
    SendBufferIs(usize),
}

/// What to do next.
#[derive(Clone, Copy, Debug, PartialEq, Eq, Structural)]
pub enum Next {
    /// Start the connect.
    Connect,
    /// Register the stream.
    Register(Registration),
    /// Accept the peer.
    Accept,
    /// Set the size of the peer's receive buffer.
    SetPeerBuffer(usize),
    /// Limit the peer's reads.
    SetPeerTimeout(u64),
    /// Wait until this token reports this.
    WaitFor(Token, Readiness),
    /// Wait until this token reports that it is writable.
    WaitWritable(Token),
    /// Set the size of the send buffer.
    SetSendBuffer(usize),
    /// Ask for the size of the send buffer.
    GetSendBuffer,
    /// Both ends are ready for use.
    Ready,
    /// The send buffer has this size instead of the one that was set.
    WrongSendBuffer(usize),
}

/// The plan of a stream that is to be parked: nothing is done to its send buffer,
/// and the peer may read for as long as it likes.
pub open spec fn parked_plan(registration: Registration) -> Plan {
    Plan {
        registration,
        peer_buffer: PEER_BUFFER,
        peer_timeout: None,
        waits_for: Some(Readiness::spec_writable()),
        send_buffer: None,
    }
}

/// The plan of a stream whose sends stay in flight until the peer has
/// acknowledged every byte. It is registered for writing, edge triggered.
pub open spec fn unbuffered_plan(token: Token, peer_buffer: usize) -> Plan {
    Plan {
        registration: Registration::spec_edge(token, Readiness::spec_writable()),
        peer_buffer,
        peer_timeout: Some(TIMEOUT),
        waits_for: None,
        send_buffer: Some(0),
    }
}

/// The plan of a stream that is to be parked and is registered for both
/// directions, edge triggered.
pub open spec fn both_ways_plan(token: Token) -> Plan {
    parked_plan(
        Registration::spec_edge(
            token,
            Readiness::spec_readable().spec_union(Readiness::spec_writable()),
        ),
    )
}

impl Plan {
    /// A stream on which a read is parked once it is connected.
    pub fn parked(registration: Registration) -> (plan: Plan)
        ensures
            plan == parked_plan(registration),
    {
        Plan {
            registration,
            peer_buffer: PEER_BUFFER,
            peer_timeout: None,
            waits_for: Some(Readiness::writable()),
            send_buffer: None,
        }
    }

    /// A stream on which a read is parked once it is connected, registered for
    /// both directions.
    pub fn both_ways(token: Token) -> (plan: Plan)
        ensures
            plan == both_ways_plan(token),
    {
        let interest = Readiness::readable().union(Readiness::writable());
        Plan::parked(Registration::edge(token, interest))
    }

    /// A stream without a send buffer, registered for writing.
    pub fn unbuffered(token: Token, peer_buffer: usize) -> (plan: Plan)
        ensures
            plan == unbuffered_plan(token, peer_buffer),
    {
        Plan {
            registration: Registration::edge(token, Readiness::writable()),
            peer_buffer,
            peer_timeout: Some(TIMEOUT),
            waits_for: None,
            send_buffer: Some(0),
        }
    }
}

/// The wait for the connect that a plan asks for.
pub open spec fn planned_wait(plan: Plan) -> Next {
    match plan.waits_for {
        Some(ready) => Next::WaitFor(plan.registration.token, ready),
        None => Next::WaitWritable(plan.registration.token),
    }
}

/// The decision of `connect`.
pub open spec fn connect_decision(plan: Plan, event: Progress) -> Next {
    match event {
        Progress::Start => Next::Connect,
        Progress::Connected => Next::Register(plan.registration),
        Progress::Registered => Next::Accept,
        Progress::Accepted => Next::SetPeerBuffer(plan.peer_buffer),
        Progress::PeerSized => match plan.peer_timeout {
            Some(timeout) => Next::SetPeerTimeout(timeout),
            None => planned_wait(plan),
        },
        Progress::PeerTimed => planned_wait(plan),
        Progress::Writable => match plan.send_buffer {
            Some(size) => Next::SetSendBuffer(size),
            None => Next::Ready,
        },
        Progress::SendSized => Next::GetSendBuffer,
        Progress::SendBufferIs(size) => if plan.send_buffer == Some(size) {
            Next::Ready
        } else {
            Next::WrongSendBuffer(size)
        },
    }
}

/// Waits for the connect as the plan says.
fn wait_step(plan: &Plan) -> (next: Next)
    ensures
        next == planned_wait(*plan),
{
    match plan.waits_for {
        Some(ready) => Next::WaitFor(plan.registration.token, ready),
        None => Next::WaitWritable(plan.registration.token),
    }
}

/// Connects a stream to a blocking peer. The peer's receive buffer is pinned
/// before the connect is waited for, and a send buffer that is set is asked for
/// again.
pub fn connect(plan: &Plan, event: Progress) -> (next: Next)
    ensures
        next == connect_decision(*plan, event),
{
    match event {
        Progress::Start => Next::Connect,
        Progress::Connected => Next::Register(plan.registration),
        Progress::Registered => Next::Accept,
        Progress::Accepted => Next::SetPeerBuffer(plan.peer_buffer),
        Progress::PeerSized => match plan.peer_timeout {
            Some(timeout) => Next::SetPeerTimeout(timeout),
            None => wait_step(plan),
        },
        Progress::PeerTimed => wait_step(plan),
        Progress::Writable => match plan.send_buffer {
            Some(size) => Next::SetSendBuffer(size),
            None => Next::Ready,
        },
        Progress::SendSized => Next::GetSendBuffer,
        Progress::SendBufferIs(size) => match plan.send_buffer {
            Some(set) => {
                if size == set {
                    Next::Ready
                } else {
                    Next::WrongSendBuffer(size)
                }
            },
            None => Next::WrongSendBuffer(size),
        },
    }
}

/// What a driver reports once it has done what it was told. The size of a send
/// buffer is for the kernel to say.
pub open spec fn report(next: Next, kernel: usize) -> Progress {
    match next {
        Next::Connect => Progress::Connected,
        Next::Register(_) => Progress::Registered,
        Next::Accept => Progress::Accepted,
        Next::SetPeerBuffer(_) => Progress::PeerSized,
        Next::SetPeerTimeout(_) => Progress::PeerTimed,
        Next::WaitFor(..) => Progress::Writable,
        Next::WaitWritable(_) => Progress::Writable,
        Next::SetSendBuffer(_) => Progress::SendSized,
        _ => Progress::SendBufferIs(kernel),
    }
}

/// What is done on the way from `event` to the end, the end included.
pub open spec fn way(plan: Plan, event: Progress, kernel: usize, fuel: nat) -> Seq<Next>
    decreases fuel,
{
    let next = connect_decision(plan, event);
    if fuel == 0 || next is Ready || next is WrongSendBuffer {
        seq![next]
    } else {
        seq![next] + way(plan, report(next, kernel), kernel, (fuel - 1) as nat)
    }
}

/// What is done to set up a stream that is registered for both directions: it is
/// ready as soon as its connect was dispatched.
pub open spec fn both_ways_way(token: Token) -> Seq<Next> {
    seq![
        Next::Connect,
        Next::Register(
            Registration::spec_edge(
                token,
                Readiness::spec_readable().spec_union(Readiness::spec_writable()),
            ),
        ),
        Next::Accept,
        Next::SetPeerBuffer(PEER_BUFFER),
        Next::WaitFor(token, Readiness::spec_writable()),
        Next::Ready,
    ]
}

/// What is done to set up a stream without a send buffer: it is ready exactly if
/// the kernel says that it has none, and its peer's reads are limited before the
/// connect is waited for.
pub open spec fn unbuffered_way(token: Token, peer_buffer: usize, kernel: usize) -> Seq<Next> {
    seq![
        Next::Connect,
        Next::Register(Registration::spec_edge(token, Readiness::spec_writable())),
        Next::Accept,
        Next::SetPeerBuffer(peer_buffer),
        Next::SetPeerTimeout(TIMEOUT),
        Next::WaitWritable(token),
        Next::SetSendBuffer(0),
        Next::GetSendBuffer,
        if kernel == 0 {
            Next::Ready
        } else {
            Next::WrongSendBuffer(kernel)
        },
    ]
}

/// The two ways are what `connect` asks for, step by step. Either registers the
/// stream once, edge triggered, and pins the peer's receive buffer before it waits
/// for the connect.
pub proof fn law_ways(token: Token, peer_buffer: usize, kernel: usize)
    ensures
        way(both_ways_plan(token), Progress::Start, kernel, 9) == both_ways_way(token),
        way(unbuffered_plan(token, peer_buffer), Progress::Start, kernel, 9) == unbuffered_way(
            token,
            peer_buffer,
            kernel,
        ),
{
    reveal_with_fuel(way, 10);
    assert(way(both_ways_plan(token), Progress::Start, kernel, 9) =~= both_ways_way(token));
    assert(way(unbuffered_plan(token, peer_buffer), Progress::Start, kernel, 9) =~= unbuffered_way(
        token,
        peer_buffer,
        kernel,
    ));
}

/// What any plan leads to, step by step. The stream is registered once, as the plan says,
/// before its peer is accepted; the peer's receive buffer is pinned and its reads are
/// limited, where the plan limits them, before the connect is waited for; and a send buffer
/// that the plan sets is set after it and asked for again. The stream is ready exactly if
/// nothing was set or the kernel says that it has the size that was set.
pub proof fn law_planned_way(plan: Plan, kernel: usize)
    ensures
        way(plan, Progress::Start, kernel, 9) == seq![
            Next::Connect,
            Next::Register(plan.registration),
            Next::Accept,
            Next::SetPeerBuffer(plan.peer_buffer),
        ] + match plan.peer_timeout {
            Some(timeout) => seq![Next::SetPeerTimeout(timeout)],
            None => seq![],
        } + match plan.waits_for {
            Some(ready) => seq![Next::WaitFor(plan.registration.token, ready)],
            None => seq![Next::WaitWritable(plan.registration.token)],
        } + match plan.send_buffer {
            Some(size) => seq![
                Next::SetSendBuffer(size),
                Next::GetSendBuffer,
                if kernel == size {
                    Next::Ready
                } else {
                    Next::WrongSendBuffer(kernel)
                },
            ],
            None => seq![Next::Ready],
        },
        connect_decision(plan, Progress::SendBufferIs(kernel)) is Ready <==> plan.send_buffer
            == Some(kernel),
        connect_decision(plan, Progress::SendBufferIs(kernel)) is WrongSendBuffer
            <==> plan.send_buffer != Some(kernel),
{
    reveal_with_fuel(way, 10);
    let end = match plan.send_buffer {
        Some(size) => seq![
            Next::SetSendBuffer(size),
            Next::GetSendBuffer,
            if kernel == size {
                Next::Ready
            } else {
                Next::WrongSendBuffer(kernel)
            },
        ],
        None => seq![Next::Ready],
    };
    assert(way(plan, Progress::Writable, kernel, 4) =~= end);
    assert(way(plan, Progress::Writable, kernel, 3) =~= end);
    let wait = match plan.waits_for {
        Some(ready) => Next::WaitFor(plan.registration.token, ready),
        None => Next::WaitWritable(plan.registration.token),
    };
    assert(way(plan, Progress::PeerTimed, kernel, 4) =~= seq![wait] + end);
}

/// What the plans ask for. A stream that is to be parked is registered as it is asked for,
/// its peer has a receive buffer of 64 KiB and reads for as long as it likes, it is waited
/// for until it is writable, and nothing is done to its send buffer; the one that is
/// registered for both directions is registered for reading and writing. A stream without
/// a send buffer is registered for writing alone, and its peer has the buffer that is asked
/// for and thirty seconds for a read.
pub proof fn law_plans(registration: Registration, token: Token, peer_buffer: usize)
    ensures
        ({
            let plan = parked_plan(registration);
            &&& plan.registration == registration
            &&& plan.peer_buffer == 64 * 1024
            &&& plan.peer_timeout is None
            &&& plan.waits_for matches Some(ready) && ready.bits == 2
            &&& plan.send_buffer is None
        }),
        ({
            let plan = both_ways_plan(token);
            &&& plan == parked_plan(plan.registration)
            &&& plan.registration.token == token
            &&& plan.registration.interest.bits == 3
            &&& plan.registration.trigger == Trigger::Edge
        }),
        ({
            let plan = unbuffered_plan(token, peer_buffer);
            &&& plan.registration.token == token
            &&& plan.registration.interest.bits == 2
            &&& plan.registration.trigger == Trigger::Edge
            &&& plan.peer_buffer == peer_buffer
            &&& plan.peer_timeout == Some(30_000_000_000u64)
            &&& plan.waits_for is None
            &&& plan.send_buffer == Some(0usize)
        }),
{
    assert(1usize | 2usize == 3) by (bit_vector);
}

} // verus!
