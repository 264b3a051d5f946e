//! The transaction state machines of RFC 3261 section 17, with the
//! *Accepted* states of RFC 6026, and their timers.
use vstd::prelude::*;

verus! {

/// Default round-trip estimate T1, in milliseconds.
pub const T1_MS: u64 = 500;

/// Default cap T2 on the retransmission interval, in milliseconds.
pub const T2_MS: u64 = 4000;

/// Default time T4 that a message may stay in the network, in milliseconds.
pub const T4_MS: u64 = 5000;

/// Milliseconds that a server INVITE transaction waits for the owner's first
/// response before it sends `100 Trying` itself.
pub const TRYING_DELAY_MS: u64 = 200;

pub open spec fn pow2(n: nat) -> nat
    decreases n,
{
    if n == 0 {
        1
    } else {
        2 * pow2((n - 1) as nat)
    }
}

/// The interval before the retransmission that follows `n` earlier ones:
/// `min(t1 * 2^n, t2)`.
pub open spec fn retransmit_interval_spec(t1: nat, t2: nat, n: nat) -> nat {
    if t1 * pow2(n) < t2 {
        t1 * pow2(n)
    } else {
        t2
    }
}

/// The interval before the retransmission that follows `n` earlier ones.
pub fn retransmit_interval(t1: u64, t2: u64, n: u32) -> (r: u64)
    ensures
        r == retransmit_interval_spec(t1 as nat, t2 as nat, n as nat),
{
    let mut d: u64 = t1;
    let mut i: u32 = 0;
    assert(pow2(0) == 1) by {
        reveal_with_fuel(pow2, 1);
    }
    while i < n && d < t2
        invariant
            i <= n,
            d == t1 * pow2(i as nat),
        decreases n - i,
    {
        proof {
            assert(t1 * pow2((i + 1) as nat) == 2 * (t1 * pow2(i as nat))) by (nonlinear_arith)
                requires
                    pow2((i + 1) as nat) == 2 * pow2(i as nat),
            ;
        }
        if d > t2 - d {
            proof {
                lemma_interval_capped(t1 as nat, t2 as nat, (i + 1) as nat, n as nat);
            }
            return t2;
        }
        d = d * 2;
        i = i + 1;
    }
    if d < t2 {
        d
    } else {
        proof {
            lemma_interval_capped(t1 as nat, t2 as nat, i as nat, n as nat);
        }
        t2
    }
}

proof fn lemma_interval_capped(t1: nat, t2: nat, i: nat, n: nat)
    requires
        i <= n,
        t1 * pow2(i) >= t2,
    ensures
        t1 * pow2(n) >= t2,
    decreases n - i,
{
    if i < n {
        assert(t1 * pow2(i + 1) == 2 * (t1 * pow2(i))) by (nonlinear_arith)
            requires
                pow2(i + 1) == 2 * pow2(i),
        ;
        lemma_interval_capped(t1, t2, i + 1, n);
    }
}

/// States of a server INVITE transaction.
#[derive(Debug, Clone, Copy, PartialEq, Eq, Structural)]
pub enum ServerInvState {
    Proceeding,
    Completed,
    Confirmed,
    Accepted,
    Terminated,
}

/// A server INVITE transaction: its state, the last response it sent, and
/// the interval of the next retransmission of a final failure response.
pub struct ServerInvTsx {
    state: ServerInvState,
    last_response: Option<Vec<u8>>,
    reliable: bool,
    retransmissions: u32,
}

/// What the transaction asks of its task.
pub enum TsxAction {
    Nothing,
    /// Send these bytes to the peer.
    Send(Vec<u8>),
    /// The transaction has ended.
    Terminate,
}

/// What happens to a server INVITE transaction once it has answered.
#[derive(Debug, Clone, Copy, PartialEq, Eq, Structural)]
pub enum ServerInvEvent {
    InviteRetransmission,
    TimerG,
    Ack,
    FinalTimer,
}

/// The bytes that an action sends, if any.
pub open spec fn sent_bytes(a: TsxAction) -> Option<Seq<u8>> {
    match a {
        TsxAction::Send(b) => Some(b@),
        _ => None,
    }
}

/// The state after an event, and the bytes sent for it.
pub open spec fn server_inv_next(
    s: ServerInvState,
    last: Option<Seq<u8>>,
    reliable: bool,
    e: ServerInvEvent,
) -> (ServerInvState, Option<Seq<u8>>) {
    match e {
        ServerInvEvent::InviteRetransmission => (
            s,
            if s == ServerInvState::Proceeding || s == ServerInvState::Completed {
                last
            } else {
                None
            },
        ),
        ServerInvEvent::TimerG => (
            s,
            if s == ServerInvState::Completed && !reliable {
                last
            } else {
                None
            },
        ),
        ServerInvEvent::Ack => (
            if s == ServerInvState::Completed {
                ServerInvState::Confirmed
            } else {
                s
            },
            None,
        ),
        ServerInvEvent::FinalTimer => (
            if s == ServerInvState::Proceeding {
                s
            } else {
                ServerInvState::Terminated
            },
            None,
        ),
    }
}

/// The bytes sent over a run of events; the last response never changes on them.
pub open spec fn server_inv_sends(
    s: ServerInvState,
    last: Option<Seq<u8>>,
    reliable: bool,
    es: Seq<ServerInvEvent>,
) -> (ServerInvState, Seq<Seq<u8>>)
    decreases es.len(),
{
    if es.len() == 0 {
        (s, Seq::empty())
    } else {
        let (s1, sent) = server_inv_sends(s, last, reliable, es.drop_last());
        let (s2, now) = server_inv_next(s1, last, reliable, es.last());
        (s2, match now {
            Some(b) => sent.push(b),
            None => sent,
        })
    }
}

/// Once a final failure response has been sent, whatever INVITE
/// retransmissions, Timer G firings, ACK and timers follow, every response
/// that goes out again is byte for byte the first.
pub proof fn lemma_failure_retransmissions_identical(
    first: Seq<u8>,
    reliable: bool,
    es: Seq<ServerInvEvent>,
)
    ensures
        forall|i: int|
            0 <= i < server_inv_sends(ServerInvState::Completed, Some(first), reliable, es).1.len()
                ==> #[trigger] server_inv_sends(
                ServerInvState::Completed,
                Some(first),
                reliable,
                es,
            ).1[i] == first,
        server_inv_sends(ServerInvState::Completed, Some(first), reliable, es).0
            != ServerInvState::Proceeding,
    decreases es.len(),
{
    if es.len() > 0 {
        lemma_failure_retransmissions_identical(first, reliable, es.drop_last());
    }
}

impl ServerInvTsx {
    pub closed spec fn state(&self) -> ServerInvState {
        self.state
    }

    /// The bytes of the last response sent, if any.
    pub closed spec fn last_response(&self) -> Option<Seq<u8>> {
        match self.last_response {
            Some(b) => Some(b@),
            None => None,
        }
    }

    pub closed spec fn is_reliable(&self) -> bool {
        self.reliable
    }

    pub closed spec fn retransmissions(&self) -> u32 {
        self.retransmissions
    }

    /// A new transaction for a received INVITE.
    pub fn new(reliable: bool) -> (r: Self)
        ensures
            r.state() == ServerInvState::Proceeding,
            r.last_response() is None,
            r.is_reliable() == reliable,
    {
        ServerInvTsx {
            state: ServerInvState::Proceeding,
            last_response: None,
            reliable,
            retransmissions: 0,
        }
    }

    pub fn state_of(&self) -> (r: ServerInvState)
        ensures
            r == self.state(),
    {
        self.state
    }

    /// The transaction has sent nothing within `TRYING_DELAY_MS` of the
    /// INVITE: it answers `100 Trying` itself, with the given bytes.
    pub fn on_trying_timer(&mut self, trying: Vec<u8>) -> (r: TsxAction)
        ensures
            final(self).state() == old(self).state(),
            final(self).is_reliable() == old(self).is_reliable(),
            old(self).state() == ServerInvState::Proceeding && old(self).last_response() is None
                ==> final(self).last_response() == Some(trying@) && (r matches TsxAction::Send(b)
                && b@ == trying@),
            !(old(self).state() == ServerInvState::Proceeding && old(self).last_response() is None)
                ==> final(self).last_response() == old(self).last_response() && r is Nothing,
    {
        if self.state == ServerInvState::Proceeding && self.last_response.is_none() {
            self.last_response = Some(trying.clone());
            TsxAction::Send(trying)
        } else {
            TsxAction::Nothing
        }
    }

    /// Sends a provisional response.
    pub fn respond_provisional(&mut self, bytes: Vec<u8>) -> (r: TsxAction)
        requires
            old(self).state() == ServerInvState::Proceeding,
        ensures
            final(self).state() == ServerInvState::Proceeding,
            final(self).last_response() == Some(bytes@),
            final(self).is_reliable() == old(self).is_reliable(),
            r matches TsxAction::Send(b) && b@ == bytes@,
    {
        self.last_response = Some(bytes.clone());
        TsxAction::Send(bytes)
    }

    /// Sends a 2xx: the transaction moves to *Accepted*, where retransmissions
    /// of the 2xx are the dialog's work.
    pub fn respond_success(&mut self, bytes: Vec<u8>) -> (r: TsxAction)
        requires
            old(self).state() == ServerInvState::Proceeding,
        ensures
            final(self).state() == ServerInvState::Accepted,
            final(self).last_response() == Some(bytes@),
            final(self).is_reliable() == old(self).is_reliable(),
            r matches TsxAction::Send(b) && b@ == bytes@,
    {
        self.state = ServerInvState::Accepted;
        self.last_response = Some(bytes.clone());
        TsxAction::Send(bytes)
    }

    /// Sends a final failure response: the transaction moves to *Completed*
    /// and keeps the bytes for every retransmission.
    pub fn respond_failure(&mut self, bytes: Vec<u8>) -> (r: TsxAction)
        requires
            old(self).state() == ServerInvState::Proceeding,
        ensures
            final(self).state() == ServerInvState::Completed,
            final(self).last_response() == Some(bytes@),
            final(self).is_reliable() == old(self).is_reliable(),
            final(self).retransmissions() == 0,
            r matches TsxAction::Send(b) && b@ == bytes@,
    {
        self.state = ServerInvState::Completed;
        self.last_response = Some(bytes.clone());
        self.retransmissions = 0;
        TsxAction::Send(bytes)
    }

    /// The INVITE came again: the last response goes out again, except in
    /// *Accepted* and later.
    pub fn on_invite_retransmission(&mut self) -> (r: TsxAction)
        ensures
            (final(self).state(), sent_bytes(r)) == server_inv_next(
                old(self).state(),
                old(self).last_response(),
                old(self).is_reliable(),
                ServerInvEvent::InviteRetransmission,
            ),
            *final(self) == *old(self),
            (old(self).state() == ServerInvState::Proceeding || old(self).state()
                == ServerInvState::Completed) && old(self).last_response() is Some ==> (r matches TsxAction::Send(
                b,
            ) && Some(b@) == old(self).last_response()),
            !((old(self).state() == ServerInvState::Proceeding || old(self).state()
                == ServerInvState::Completed) && old(self).last_response() is Some) ==> r is Nothing,
    {
        match self.state {
            ServerInvState::Proceeding | ServerInvState::Completed => match &self.last_response {
                Some(b) => TsxAction::Send(b.clone()),
                None => TsxAction::Nothing,
            },
            _ => TsxAction::Nothing,
        }
    }

    /// Timer G: in *Completed* on an unreliable transport the final response
    /// goes out again, byte for byte.
    pub fn on_timer_g(&mut self) -> (r: TsxAction)
        ensures
            (final(self).state(), sent_bytes(r)) == server_inv_next(
                old(self).state(),
                old(self).last_response(),
                old(self).is_reliable(),
                ServerInvEvent::TimerG,
            ),
            final(self).state() == old(self).state(),
            final(self).last_response() == old(self).last_response(),
            final(self).is_reliable() == old(self).is_reliable(),
            old(self).state() == ServerInvState::Completed && !old(self).is_reliable()
                && old(self).last_response() is Some ==> (r matches TsxAction::Send(b) && Some(b@)
                == old(self).last_response()),
            !(old(self).state() == ServerInvState::Completed && !old(self).is_reliable()
                && old(self).last_response() is Some) ==> r is Nothing,
            r is Send ==> final(self).retransmissions() == if old(self).retransmissions() < u32::MAX {
                (old(self).retransmissions() + 1) as u32
            } else {
                old(self).retransmissions()
            },
            r is Nothing ==> final(self).retransmissions() == old(self).retransmissions(),
    {
        if self.state == ServerInvState::Completed && !self.reliable {
            match &self.last_response {
                Some(b) => {
                    let out = b.clone();
                    if self.retransmissions < u32::MAX {
                        self.retransmissions = self.retransmissions + 1;
                    }
                    TsxAction::Send(out)
                },
                None => TsxAction::Nothing,
            }
        } else {
            TsxAction::Nothing
        }
    }

    /// How long to wait before the next Timer G.
    pub fn timer_g_interval(&self, t1: u64, t2: u64) -> (r: u64)
        ensures
            r == retransmit_interval_spec(t1 as nat, t2 as nat, self.retransmissions() as nat),
    {
        retransmit_interval(t1, t2, self.retransmissions)
    }

    /// The ACK for a failure response arrived: *Completed* moves to *Confirmed*.
    pub fn on_ack(&mut self) -> (r: TsxAction)
        ensures
            (final(self).state(), sent_bytes(r)) == server_inv_next(
                old(self).state(),
                old(self).last_response(),
                old(self).is_reliable(),
                ServerInvEvent::Ack,
            ),
            final(self).last_response() == old(self).last_response(),
            final(self).is_reliable() == old(self).is_reliable(),
            old(self).state() == ServerInvState::Completed ==> final(self).state()
                == ServerInvState::Confirmed,
            old(self).state() != ServerInvState::Completed ==> final(self).state() == old(
                self,
            ).state(),
            r is Nothing,
    {
        if self.state == ServerInvState::Completed {
            self.state = ServerInvState::Confirmed;
        }
        TsxAction::Nothing
    }

    /// Timer H (no ACK in *Completed*), Timer I (linger in *Confirmed*) or
    /// Timer L (linger in *Accepted*) fired: the transaction ends.
    pub fn on_final_timer(&mut self) -> (r: TsxAction)
        ensures
            (final(self).state(), sent_bytes(r)) == server_inv_next(
                old(self).state(),
                old(self).last_response(),
                old(self).is_reliable(),
                ServerInvEvent::FinalTimer,
            ),
            final(self).last_response() == old(self).last_response(),
            final(self).is_reliable() == old(self).is_reliable(),
            old(self).state() != ServerInvState::Proceeding ==> final(self).state()
                == ServerInvState::Terminated && r is Terminate,
            old(self).state() == ServerInvState::Proceeding ==> final(self).state()
                == ServerInvState::Proceeding && r is Nothing,
    {
        if self.state == ServerInvState::Proceeding {
            TsxAction::Nothing
        } else {
            self.state = ServerInvState::Terminated;
            TsxAction::Terminate
        }
    }
}

/// Which response class arrived.
#[derive(Debug, Clone, Copy, PartialEq, Eq, Structural)]
pub enum ResponseClass {
    /// 1xx.
    Provisional,
    /// 2xx.
    Success,
    /// 3xx to 6xx.
    Failure,
}

pub open spec fn class_of_spec(code: u16) -> ResponseClass {
    if code < 200 {
        ResponseClass::Provisional
    } else if code < 300 {
        ResponseClass::Success
    } else {
        ResponseClass::Failure
    }
}

/// The class of a status code.
pub fn class_of(code: u16) -> (r: ResponseClass)
    requires
        100 <= code <= 699,
    ensures
        r == class_of_spec(code),
{
    if code < 200 {
        ResponseClass::Provisional
    } else if code < 300 {
        ResponseClass::Success
    } else {
        ResponseClass::Failure
    }
}

/// What a client transaction observes.
#[derive(Debug, Clone, Copy, PartialEq, Eq, Structural)]
pub enum ClientEvent {
    Response(ResponseClass),
    /// Timer A (INVITE) or Timer E (non-INVITE): retransmit.
    RetransmitTimer,
    /// Timer B (INVITE) or Timer F (non-INVITE): no final response in time.
    TimeoutTimer,
    /// Timer D, K or M: the lingering after the final response is over.
    LingerTimer,
    TransportError,
}

/// What a client transaction does.
#[derive(Debug, Clone, Copy, PartialEq, Eq, Structural)]
pub enum ClientAction {
    Nothing,
    /// Send the request again.
    Retransmit,
    /// Hand the response to the owner.
    PassUp,
    /// Hand the non-2xx final response to the owner and send the ACK for it.
    PassUpAndAck,
    /// Send the ACK for the non-2xx final response again.
    ResendAck,
    /// No final response came in time: the owner sees a timeout.
    Timeout,
    /// Writing failed: the owner sees a transport error.
    Failed,
    /// The transaction ends quietly.
    Terminate,
}

/// States of a client INVITE transaction.
#[derive(Debug, Clone, Copy, PartialEq, Eq, Structural)]
pub enum ClientInvState {
    Calling,
    Proceeding,
    Completed,
    Accepted,
    Terminated,
}

pub open spec fn client_inv_next(s: ClientInvState, e: ClientEvent, reliable: bool) -> (
    ClientInvState,
    ClientAction,
) {
    match (s, e) {
        (ClientInvState::Terminated, _) => (s, ClientAction::Nothing),
        (_, ClientEvent::TransportError) => (ClientInvState::Terminated, ClientAction::Failed),
        (ClientInvState::Calling, ClientEvent::RetransmitTimer) => if reliable {
            (s, ClientAction::Nothing)
        } else {
            (s, ClientAction::Retransmit)
        },
        (ClientInvState::Calling, ClientEvent::TimeoutTimer) => (
            ClientInvState::Terminated,
            ClientAction::Timeout,
        ),
        (ClientInvState::Calling, ClientEvent::Response(c))
        | (ClientInvState::Proceeding, ClientEvent::Response(c)) => match c {
            ResponseClass::Provisional => (ClientInvState::Proceeding, ClientAction::PassUp),
            ResponseClass::Success => (ClientInvState::Accepted, ClientAction::PassUp),
            ResponseClass::Failure => (ClientInvState::Completed, ClientAction::PassUpAndAck),
        },
        (ClientInvState::Completed, ClientEvent::Response(ResponseClass::Failure)) => (
            s,
            ClientAction::ResendAck,
        ),
        (ClientInvState::Accepted, ClientEvent::Response(ResponseClass::Success)) => (
            s,
            ClientAction::PassUp,
        ),
        (ClientInvState::Completed, ClientEvent::LingerTimer)
        | (ClientInvState::Accepted, ClientEvent::LingerTimer) => (
            ClientInvState::Terminated,
            ClientAction::Terminate,
        ),
        _ => (s, ClientAction::Nothing),
    }
}

/// One step of a client INVITE transaction. Provisional responses keep it
/// open; a non-2xx final response completes it and is acknowledged by the
/// transaction; a 2xx moves it to *Accepted*, where further 2xx still reach
/// the owner, whose dialog acknowledges them, until Timer M.
pub fn client_inv_step(s: ClientInvState, e: ClientEvent, reliable: bool) -> (r: (
    ClientInvState,
    ClientAction,
))
    ensures
        r == client_inv_next(s, e, reliable),
{
    match (s, e) {
        (ClientInvState::Terminated, _) => (s, ClientAction::Nothing),
        (_, ClientEvent::TransportError) => (ClientInvState::Terminated, ClientAction::Failed),
        (ClientInvState::Calling, ClientEvent::RetransmitTimer) => if reliable {
            (s, ClientAction::Nothing)
        } else {
            (s, ClientAction::Retransmit)
        },
        (ClientInvState::Calling, ClientEvent::TimeoutTimer) => (
            ClientInvState::Terminated,
            ClientAction::Timeout,
        ),
        (ClientInvState::Calling, ClientEvent::Response(c))
        | (ClientInvState::Proceeding, ClientEvent::Response(c)) => match c {
            ResponseClass::Provisional => (ClientInvState::Proceeding, ClientAction::PassUp),
            ResponseClass::Success => (ClientInvState::Accepted, ClientAction::PassUp),
            ResponseClass::Failure => (ClientInvState::Completed, ClientAction::PassUpAndAck),
        },
        (ClientInvState::Completed, ClientEvent::Response(ResponseClass::Failure)) => (
            s,
            ClientAction::ResendAck,
        ),
        (ClientInvState::Accepted, ClientEvent::Response(ResponseClass::Success)) => (
            s,
            ClientAction::PassUp,
        ),
        (ClientInvState::Completed, ClientEvent::LingerTimer)
        | (ClientInvState::Accepted, ClientEvent::LingerTimer) => (
            ClientInvState::Terminated,
            ClientAction::Terminate,
        ),
        _ => (s, ClientAction::Nothing),
    }
}

/// States of a client non-INVITE transaction.
#[derive(Debug, Clone, Copy, PartialEq, Eq, Structural)]
pub enum ClientState {
    Trying,
    Proceeding,
    Completed,
    Terminated,
}

pub open spec fn client_next(s: ClientState, e: ClientEvent, reliable: bool) -> (
    ClientState,
    ClientAction,
) {
    match (s, e) {
        (ClientState::Terminated, _) => (s, ClientAction::Nothing),
        (_, ClientEvent::TransportError) => (ClientState::Terminated, ClientAction::Failed),
        (ClientState::Trying, ClientEvent::RetransmitTimer)
        | (ClientState::Proceeding, ClientEvent::RetransmitTimer) => if reliable {
            (s, ClientAction::Nothing)
        } else {
            (s, ClientAction::Retransmit)
        },
        (ClientState::Trying, ClientEvent::TimeoutTimer)
        | (ClientState::Proceeding, ClientEvent::TimeoutTimer) => (
            ClientState::Terminated,
            ClientAction::Timeout,
        ),
        (ClientState::Trying, ClientEvent::Response(c))
        | (ClientState::Proceeding, ClientEvent::Response(c)) => match c {
            ResponseClass::Provisional => (ClientState::Proceeding, ClientAction::PassUp),
            _ => (ClientState::Completed, ClientAction::PassUp),
        },
        (ClientState::Completed, ClientEvent::LingerTimer) => (
            ClientState::Terminated,
            ClientAction::Terminate,
        ),
        _ => (s, ClientAction::Nothing),
    }
}

/// One step of a client non-INVITE transaction: Timer E retransmits until a
/// response comes (never on a reliable transport), Timer F gives up, a final
/// response completes it and Timer K ends it; responses in *Completed* are
/// absorbed.
pub fn client_step(s: ClientState, e: ClientEvent, reliable: bool) -> (r: (
    ClientState,
    ClientAction,
))
    ensures
        r == client_next(s, e, reliable),
{
    match (s, e) {
        (ClientState::Terminated, _) => (s, ClientAction::Nothing),
        (_, ClientEvent::TransportError) => (ClientState::Terminated, ClientAction::Failed),
        (ClientState::Trying, ClientEvent::RetransmitTimer)
        | (ClientState::Proceeding, ClientEvent::RetransmitTimer) => if reliable {
            (s, ClientAction::Nothing)
        } else {
            (s, ClientAction::Retransmit)
        },
        (ClientState::Trying, ClientEvent::TimeoutTimer)
        | (ClientState::Proceeding, ClientEvent::TimeoutTimer) => (
            ClientState::Terminated,
            ClientAction::Timeout,
        ),
        (ClientState::Trying, ClientEvent::Response(c))
        | (ClientState::Proceeding, ClientEvent::Response(c)) => match c {
            ResponseClass::Provisional => (ClientState::Proceeding, ClientAction::PassUp),
            _ => (ClientState::Completed, ClientAction::PassUp),
        },
        (ClientState::Completed, ClientEvent::LingerTimer) => (
            ClientState::Terminated,
            ClientAction::Terminate,
        ),
        _ => (s, ClientAction::Nothing),
    }
}

/// The timers of RFC 3261 section 17 that end a wait or a lingering.
#[derive(Debug, Clone, Copy, PartialEq, Eq, Structural)]
pub enum Timer {
    /// INVITE client: no final response.
    B,
    /// INVITE client: lingering after a non-2xx final response.
    D,
    /// Non-INVITE client: no final response.
    F,
    /// Server INVITE: no ACK for a non-2xx final response.
    H,
    /// Server INVITE: lingering after the ACK.
    I,
    /// Server non-INVITE: lingering after the final response.
    J,
    /// Non-INVITE client: lingering after the final response.
    K,
    /// Server INVITE: lingering in *Accepted*.
    L,
    /// INVITE client: lingering in *Accepted*.
    M,
}

pub open spec fn timer_ms_spec(timer: Timer, t1: nat, t4: nat, reliable: bool) -> nat {
    match timer {
        Timer::B | Timer::F | Timer::H | Timer::L | Timer::M => 64 * t1,
        Timer::D => if reliable {
            0
        } else if 64 * t1 > 32000 {
            64 * t1
        } else {
            32000
        },
        Timer::J => if reliable {
            0
        } else {
            64 * t1
        },
        Timer::I | Timer::K => if reliable {
            0
        } else {
            t4
        },
    }
}

/// Milliseconds until a timer fires: `64*T1` for the timeouts and the
/// *Accepted* lingering; at least 32 s for Timer D, `64*T1` for Timer J and
/// T4 for Timers I and K on an unreliable transport, none on a reliable one.
pub fn timer_ms(timer: Timer, t1: u64, t4: u64, reliable: bool) -> (r: u64)
    requires
        t1 <= u64::MAX / 64,
    ensures
        r == timer_ms_spec(timer, t1 as nat, t4 as nat, reliable),
{
    match timer {
        Timer::B | Timer::F | Timer::H | Timer::L | Timer::M => 64 * t1,
        Timer::D => if reliable {
            0
        } else if 64 * t1 > 32000 {
            64 * t1
        } else {
            32000
        },
        Timer::J => if reliable {
            0
        } else {
            64 * t1
        },
        Timer::I | Timer::K => if reliable {
            0
        } else {
            t4
        },
    }
}

/// States of a server non-INVITE transaction.
#[derive(Debug, Clone, Copy, PartialEq, Eq, Structural)]
pub enum ServerState {
    Trying,
    Proceeding,
    Completed,
    Terminated,
}

/// A server non-INVITE transaction and the last response it sent.
pub struct ServerTsx {
    state: ServerState,
    last_response: Option<Vec<u8>>,
}

impl ServerTsx {
    pub closed spec fn state(&self) -> ServerState {
        self.state
    }

    pub closed spec fn last_response(&self) -> Option<Seq<u8>> {
        match self.last_response {
            Some(b) => Some(b@),
            None => None,
        }
    }

    pub fn new() -> (r: Self)
        ensures
            r.state() == ServerState::Trying,
            r.last_response() is None,
    {
        ServerTsx { state: ServerState::Trying, last_response: None }
    }

    pub fn state_of(&self) -> (r: ServerState)
        ensures
            r == self.state(),
    {
        self.state
    }

    /// Sends a response: a provisional one keeps the transaction in
    /// *Proceeding*, a final one completes it.
    pub fn respond(&mut self, bytes: Vec<u8>, class: ResponseClass) -> (r: TsxAction)
        requires
            old(self).state() == ServerState::Trying || old(self).state() == ServerState::Proceeding,
        ensures
            final(self).last_response() == Some(bytes@),
            class == ResponseClass::Provisional ==> final(self).state() == ServerState::Proceeding,
            class != ResponseClass::Provisional ==> final(self).state() == ServerState::Completed,
            r matches TsxAction::Send(b) && b@ == bytes@,
    {
        self.state = if class == ResponseClass::Provisional {
            ServerState::Proceeding
        } else {
            ServerState::Completed
        };
        self.last_response = Some(bytes.clone());
        TsxAction::Send(bytes)
    }

    /// The request came again: in *Proceeding* and *Completed* the last
    /// response goes out again, byte for byte; in *Trying* it is absorbed.
    pub fn on_request_retransmission(&mut self) -> (r: TsxAction)
        ensures
            final(self).state() == old(self).state(),
            final(self).last_response() == old(self).last_response(),
            (old(self).state() == ServerState::Proceeding || old(self).state()
                == ServerState::Completed) && old(self).last_response() is Some ==> (r matches TsxAction::Send(
                b,
            ) && Some(b@) == old(self).last_response()),
            !((old(self).state() == ServerState::Proceeding || old(self).state()
                == ServerState::Completed) && old(self).last_response() is Some) ==> r is Nothing,
    {
        match self.state {
            ServerState::Proceeding | ServerState::Completed => match &self.last_response {
                Some(b) => TsxAction::Send(b.clone()),
                None => TsxAction::Nothing,
            },
            _ => TsxAction::Nothing,
        }
    }

    /// Timer J: *Completed* ends.
    pub fn on_timer_j(&mut self) -> (r: TsxAction)
        ensures
            final(self).last_response() == old(self).last_response(),
            old(self).state() == ServerState::Completed ==> final(self).state()
                == ServerState::Terminated && r is Terminate,
            old(self).state() != ServerState::Completed ==> final(self).state() == old(
                self,
            ).state() && r is Nothing,
    {
        if self.state == ServerState::Completed {
            self.state = ServerState::Terminated;
            TsxAction::Terminate
        } else {
            TsxAction::Nothing
        }
    }
}

} // verus!
