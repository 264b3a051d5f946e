//! Life cycle of a stream transport: whether a usage holds it, when the idle
//! reaper destroys it, and the keep-alive pings and pongs on it.
use crate::framer::lower;
use vstd::prelude::*;
use vstd::string::StringSliceAdditionalSpecFns;

verus! {

/// Default seconds that an unused stream transport lives before it is
/// destroyed; the runtime may configure another.
pub const STREAM_IDLE_TIMEOUT_SECS: u64 = 32;

/// Default seconds between two keep-alive pings; the runtime may configure
/// another.
pub const KEEP_ALIVE_INTERVAL_SECS: u64 = 10;

/// Whether a usage holds the transport.
#[derive(Debug, Clone, Copy, PartialEq, Eq, Structural)]
pub enum StreamState {
    /// Held by at least one usage.
    InUse,
    /// Held by none: the idle timer runs.
    Unused,
}

/// What the task that reads a stream transport observes.
#[derive(Debug, Clone, Copy, PartialEq, Eq, Structural)]
pub enum StreamEvent {
    /// The last usage let go of the transport.
    AllUsagesDropped,
    /// A usage took hold of the unused transport.
    Claimed,
    /// The channel that hands over the claim closed.
    ClaimChannelClosed,
    /// The keep-alive timer ticked.
    KeepAliveTick,
    /// The idle timer of an unused transport ran out.
    IdleTimeout,
    /// A double CRLF arrived.
    KeepAliveRequest,
    /// A single CRLF arrived.
    KeepAliveResponse,
    /// A SIP or STUN message arrived.
    Message,
    /// Reading failed or the bytes could not be framed.
    ReadError,
    /// The peer closed the connection.
    PeerClosed,
}

/// What the task does next.
#[derive(Debug, Clone, Copy, PartialEq, Eq, Structural)]
pub enum StreamAction {
    Nothing,
    /// Start the idle timer anew.
    StartIdleTimer,
    /// Write a double CRLF.
    SendPing,
    /// Write a single CRLF.
    SendPong,
    /// Hand the message to the endpoint.
    Deliver,
    /// Write a single CRLF, and start the idle timer anew: the unused
    /// transport carries traffic.
    SendPongAndRestartIdle,
    /// Hand the message to the endpoint, and start the idle timer anew.
    DeliverAndRestartIdle,
    /// Close the connection and remove the transport from the registry.
    Destroy,
}

pub open spec fn stream_next(s: StreamState, e: StreamEvent) -> (StreamState, StreamAction) {
    match e {
        StreamEvent::AllUsagesDropped => if s == StreamState::InUse {
            (StreamState::Unused, StreamAction::StartIdleTimer)
        } else {
            (s, StreamAction::Nothing)
        },
        StreamEvent::Claimed => (StreamState::InUse, StreamAction::Nothing),
        StreamEvent::ClaimChannelClosed => if s == StreamState::Unused {
            (s, StreamAction::Destroy)
        } else {
            (s, StreamAction::Nothing)
        },
        StreamEvent::KeepAliveTick => (s, StreamAction::SendPing),
        StreamEvent::IdleTimeout => if s == StreamState::Unused {
            (s, StreamAction::Destroy)
        } else {
            (s, StreamAction::Nothing)
        },
        StreamEvent::KeepAliveRequest => if s == StreamState::Unused {
            (s, StreamAction::SendPongAndRestartIdle)
        } else {
            (s, StreamAction::SendPong)
        },
        StreamEvent::KeepAliveResponse => (s, StreamAction::Nothing),
        StreamEvent::Message => if s == StreamState::Unused {
            (s, StreamAction::DeliverAndRestartIdle)
        } else {
            (s, StreamAction::Deliver)
        },
        StreamEvent::ReadError | StreamEvent::PeerClosed => (s, StreamAction::Destroy),
    }
}

/// One step of the task that reads a stream transport. The idle timer and
/// the claim channel only matter while the transport is unused, and a message
/// or a ping received on an unused transport starts its idle timer anew; a
/// ping goes out at every tick; a ping from the peer gets a pong; a pong is
/// discarded.
pub fn stream_step(s: StreamState, e: StreamEvent) -> (r: (StreamState, StreamAction))
    ensures
        r == stream_next(s, e),
{
    match e {
        StreamEvent::AllUsagesDropped => if s == StreamState::InUse {
            (StreamState::Unused, StreamAction::StartIdleTimer)
        } else {
            (s, StreamAction::Nothing)
        },
        StreamEvent::Claimed => (StreamState::InUse, StreamAction::Nothing),
        StreamEvent::ClaimChannelClosed => if s == StreamState::Unused {
            (s, StreamAction::Destroy)
        } else {
            (s, StreamAction::Nothing)
        },
        StreamEvent::KeepAliveTick => (s, StreamAction::SendPing),
        StreamEvent::IdleTimeout => if s == StreamState::Unused {
            (s, StreamAction::Destroy)
        } else {
            (s, StreamAction::Nothing)
        },
        StreamEvent::KeepAliveRequest => if s == StreamState::Unused {
            (s, StreamAction::SendPongAndRestartIdle)
        } else {
            (s, StreamAction::SendPong)
        },
        StreamEvent::KeepAliveResponse => (s, StreamAction::Nothing),
        StreamEvent::Message => if s == StreamState::Unused {
            (s, StreamAction::DeliverAndRestartIdle)
        } else {
            (s, StreamAction::Deliver)
        },
        StreamEvent::ReadError | StreamEvent::PeerClosed => (s, StreamAction::Destroy),
    }
}

/// The state in which the task of a transport starts: one we connected for
/// a usage starts in use, one we accepted starts unused.
pub fn initial_state(incoming: bool) -> (r: StreamState)
    ensures
        incoming <==> r == StreamState::Unused,
{
    if incoming {
        StreamState::Unused
    } else {
        StreamState::InUse
    }
}

/// The state after a run of events.
pub open spec fn stream_run(s: StreamState, es: Seq<StreamEvent>) -> StreamState
    decreases es.len(),
{
    if es.len() == 0 {
        s
    } else {
        stream_next(stream_run(s, es.drop_last()), es.last()).0
    }
}

/// While a usage holds a stream transport, only the peer's closing or a
/// failed read destroy it: the idle reaper never does.
pub proof fn lemma_in_use_not_destroyed(e: StreamEvent)
    requires
        e != StreamEvent::PeerClosed,
        e != StreamEvent::ReadError,
    ensures
        stream_next(StreamState::InUse, e).1 != StreamAction::Destroy,
        stream_next(StreamState::InUse, e).0 == StreamState::Unused ==> e
            == StreamEvent::AllUsagesDropped,
{
}

/// Every keep-alive tick sends a ping, whether or not a usage holds the
/// transport, and changes nothing else.
pub proof fn lemma_keep_alive_pings(s: StreamState)
    ensures
        stream_next(s, StreamEvent::KeepAliveTick) == (s, StreamAction::SendPing),
{
}

/// A transport stays in use across any run of events in which no usage
/// lets go of it; within such a run it is never destroyed but by the peer
/// or a failed read.
pub proof fn lemma_in_use_run(es: Seq<StreamEvent>)
    requires
        forall|i: int| 0 <= i < es.len() ==> #[trigger] es[i] != StreamEvent::AllUsagesDropped,
    ensures
        stream_run(StreamState::InUse, es) == StreamState::InUse,
        forall|i: int|
            0 <= i < es.len() && es[i] != StreamEvent::PeerClosed && es[i]
                != StreamEvent::ReadError ==> stream_next(
                stream_run(StreamState::InUse, es.subrange(0, i)),
                #[trigger] es[i],
            ).1 != StreamAction::Destroy,
    decreases es.len(),
{
    if es.len() > 0 {
        let p = es.drop_last();
        assert forall|i: int| 0 <= i < p.len() implies #[trigger] p[i]
            != StreamEvent::AllUsagesDropped by {
            assert(p[i] == es[i]);
        }
        lemma_in_use_run(p);
        assert(es[es.len() - 1] == es.last());
        assert forall|i: int|
            0 <= i < es.len() && es[i] != StreamEvent::PeerClosed && es[i]
                != StreamEvent::ReadError implies stream_next(
            stream_run(StreamState::InUse, es.subrange(0, i)),
            #[trigger] es[i],
        ).1 != StreamAction::Destroy by {
            if i < p.len() {
                assert(es.subrange(0, i) =~= p.subrange(0, i));
                assert(p[i] == es[i]);
            } else {
                assert(es.subrange(0, i) =~= p);
            }
        }
    }
}

/// Equal but for the case of ASCII letters.
pub open spec fn eq_ignore_ascii_case(a: Seq<u8>, b: Seq<u8>) -> bool {
    a.len() == b.len() && forall|i: int| 0 <= i < a.len() ==> lower(#[trigger] a[i]) == lower(b[i])
}

/// Whether a URI's `transport` parameter names this transport (`TCP`,
/// `tls`, ...): the names agree but for case.
pub fn matches_transport_param(param: &str, transport_name: &str) -> (r: bool)
    ensures
        r == eq_ignore_ascii_case(param.spec_bytes(), transport_name.spec_bytes()),
{
    let a = param.as_bytes();
    let b = transport_name.as_bytes();
    if a.len() != b.len() {
        return false;
    }
    let mut i: usize = 0;
    while i < a.len()
        invariant
            a@.len() == b@.len(),
            a@ == param.spec_bytes(),
            b@ == transport_name.spec_bytes(),
            i <= a@.len(),
            forall|j: int| 0 <= j < i ==> lower(#[trigger] a@[j]) == lower(b@[j]),
        decreases a@.len() - i,
    {
        if crate::framer::lower_exec(a[i]) != crate::framer::lower_exec(b[i]) {
            return false;
        }
        i = i + 1;
    }
    true
}

} // verus!
