//! Decisions of an INVITE session: who refreshes the session, what a fired
//! session timer or an in-dialog event leads to, the session's own state,
//! and the ACK sent for each 2xx to a refreshing re-INVITE.
use crate::header::Method;
use vstd::prelude::*;

verus! {

/// Our part in the dialog.
#[derive(Debug, Clone, Copy, PartialEq, Eq, Structural)]
pub enum Role {
    Uac,
    Uas,
}

/// Who keeps the session alive with re-INVITEs (RFC 4028).
#[derive(Debug, Clone, Copy, PartialEq, Eq, Structural)]
pub enum Refresher {
    Unspecified,
    Uac,
    Uas,
}

/// Default session interval, in seconds.
pub const DEFAULT_SESSION_INTERVAL_SECS: u32 = 1800;

/// Default smallest session interval accepted, in seconds.
pub const DEFAULT_MIN_SE_SECS: u32 = 90;

pub open spec fn we_refresh(role: Role, refresher: Refresher) -> bool {
    (role == Role::Uac && refresher == Refresher::Uac) || (role == Role::Uas && refresher
        == Refresher::Uas)
}

/// The session-refresh timer: its interval and who refreshes.
#[derive(Debug, Clone, Copy, PartialEq, Eq, Structural)]
pub struct SessionTimer {
    pub interval_secs: u32,
    pub refresher: Refresher,
}

impl SessionTimer {
    /// Seconds from a reset until the timer fires for `role`: the refresher
    /// refreshes at half the interval; the other side waits the whole
    /// interval for the refresh.
    pub fn wait_secs(&self, role: Role) -> (r: u32)
        ensures
            we_refresh(role, self.refresher) ==> r == self.interval_secs / 2,
            !we_refresh(role, self.refresher) ==> r == self.interval_secs,
    {
        let ours = match (role, self.refresher) {
            (Role::Uac, Refresher::Uac) | (Role::Uas, Refresher::Uas) => true,
            _ => false,
        };
        if ours {
            self.interval_secs / 2
        } else {
            self.interval_secs
        }
    }
}

/// What to do when the session timer fires.
#[derive(Debug, Clone, Copy, PartialEq, Eq, Structural)]
pub enum TimerDecision {
    /// We refresh: reset the timer and send a re-INVITE.
    RefreshNeeded,
    /// The peer missed its refresh: send BYE and end the session.
    Terminate,
}

/// Decides what a fired session timer means. The refresher is known once
/// the session is established.
pub fn handle_session_timer(role: Role, refresher: Refresher) -> (r: TimerDecision)
    requires
        refresher != Refresher::Unspecified,
    ensures
        we_refresh(role, refresher) <==> r == TimerDecision::RefreshNeeded,
        !we_refresh(role, refresher) <==> r == TimerDecision::Terminate,
{
    match (role, refresher) {
        (Role::Uac, Refresher::Uac) | (Role::Uas, Refresher::Uas) => TimerDecision::RefreshNeeded,
        _ => TimerDecision::Terminate,
    }
}

/// An in-dialog request that a session's usage hands to the session.
pub enum UsageEvent<R> {
    ReInvite(R),
    Bye(R),
}

/// What `drive` reports for a usage event.
pub enum EventDecision<R> {
    /// A re-INVITE: reset the session timer and answer it in a server
    /// INVITE transaction.
    ReInviteReceived(R),
    /// A BYE: answer it in a server transaction.
    Bye(R),
    /// The event channel closed: the session has ended.
    Terminated,
}

/// Decides what a usage event, or the end of the event channel (`None`), means.
pub fn handle_usage_event<R>(evt: Option<UsageEvent<R>>) -> (r: EventDecision<R>)
    ensures
        match evt {
            None => r is Terminated,
            Some(UsageEvent::ReInvite(q)) => r == EventDecision::ReInviteReceived(q),
            Some(UsageEvent::Bye(q)) => r == EventDecision::Bye(q),
        },
{
    match evt {
        None => EventDecision::Terminated,
        Some(UsageEvent::ReInvite(q)) => EventDecision::ReInviteReceived(q),
        Some(UsageEvent::Bye(q)) => EventDecision::Bye(q),
    }
}

/// Life cycle of an INVITE session.
#[derive(Debug, Clone, Copy, PartialEq, Eq, Structural)]
pub enum SessionState {
    Confirmed,
    Terminating,
    Terminated,
}

/// What happens to a session.
#[derive(Debug, Clone, Copy, PartialEq, Eq, Structural)]
pub enum SessionEvent {
    /// A BYE is sent or received.
    Bye,
    /// The response to the BYE arrived.
    ByeResponse,
    /// The session is dropped.
    Dropped,
}

pub open spec fn session_next(s: SessionState, e: SessionEvent) -> SessionState {
    match (s, e) {
        (SessionState::Confirmed, SessionEvent::Bye) => SessionState::Terminating,
        (SessionState::Terminating, SessionEvent::Bye) => SessionState::Terminating,
        (_, SessionEvent::ByeResponse) => if s == SessionState::Confirmed {
            SessionState::Confirmed
        } else {
            SessionState::Terminated
        },
        (_, SessionEvent::Dropped) => SessionState::Terminated,
        (SessionState::Terminated, _) => SessionState::Terminated,
    }
}

/// Moves a session along: a BYE either way leads to *Terminating*, and the
/// BYE's response or a drop to *Terminated*, which is final.
pub fn session_step(s: SessionState, e: SessionEvent) -> (r: SessionState)
    ensures
        r == session_next(s, e),
        s == SessionState::Terminated ==> r == SessionState::Terminated,
{
    match (s, e) {
        (SessionState::Confirmed, SessionEvent::Bye) => SessionState::Terminating,
        (SessionState::Terminating, SessionEvent::Bye) => SessionState::Terminating,
        (_, SessionEvent::ByeResponse) => if s == SessionState::Confirmed {
            SessionState::Confirmed
        } else {
            SessionState::Terminated
        },
        (_, SessionEvent::Dropped) => SessionState::Terminated,
        (SessionState::Terminated, _) => SessionState::Terminated,
    }
}

/// Whether the session still takes in-dialog requests.
pub fn accepts_requests(s: SessionState) -> (r: bool)
    ensures
        r <==> s == SessionState::Confirmed,
{
    s == SessionState::Confirmed
}

/// What the INVITE session's usage does with an in-dialog request.
#[derive(Debug, Clone, Copy, PartialEq, Eq, Structural)]
pub enum UsageReceive {
    /// The ACK for the 2xx that the session sent: hand it to the waiting side.
    AwaitedAck,
    /// Hand the re-INVITE to the session as an event.
    ReInvite,
    /// Hand the BYE to the session as an event.
    Bye,
    /// Leave the request for the next usage.
    NotTaken,
}

/// The usage of an INVITE session offered an in-dialog request with method
/// `method` and CSeq `cseq`. `awaited_ack` is the CSeq of the 2xx whose ACK
/// the session waits for; it is cleared when that ACK comes. A session that
/// is ending takes no re-INVITE or BYE.
pub fn invite_usage_receive(
    state: SessionState,
    awaited_ack: &mut Option<u32>,
    method: Method,
    cseq: u32,
) -> (r: UsageReceive)
    ensures
        method == Method::Ack && *old(awaited_ack) == Some(cseq) ==> r == UsageReceive::AwaitedAck
            && *final(awaited_ack) == None::<u32>,
        !(method == Method::Ack && *old(awaited_ack) == Some(cseq)) ==> *final(awaited_ack) == *old(
            awaited_ack,
        ),
        method == Method::Ack && *old(awaited_ack) != Some(cseq) ==> r == UsageReceive::NotTaken,
        method == Method::Invite ==> r == if state == SessionState::Confirmed {
            UsageReceive::ReInvite
        } else {
            UsageReceive::NotTaken
        },
        method == Method::Bye ==> r == if state == SessionState::Confirmed {
            UsageReceive::Bye
        } else {
            UsageReceive::NotTaken
        },
        method != Method::Ack && method != Method::Invite && method != Method::Bye ==> r
            == UsageReceive::NotTaken,
{
    match method {
        Method::Ack => {
            if *awaited_ack == Some(cseq) {
                *awaited_ack = None;
                UsageReceive::AwaitedAck
            } else {
                UsageReceive::NotTaken
            }
        },
        Method::Invite => if accepts_requests(state) {
            UsageReceive::ReInvite
        } else {
            UsageReceive::NotTaken
        },
        Method::Bye => if accepts_requests(state) {
            UsageReceive::Bye
        } else {
            UsageReceive::NotTaken
        },
        _ => UsageReceive::NotTaken,
    }
}

pub open spec fn is_success(code: u16) -> bool {
    200 <= code <= 299
}

/// What to do with a response to a refreshing re-INVITE.
#[derive(Debug, Clone, Copy, PartialEq, Eq, Structural)]
pub enum AckAction {
    /// Not a 2xx: nothing to acknowledge.
    Ignore,
    /// First 2xx with this CSeq: build an ACK, keep it, send it.
    SendNew(u32),
    /// A retransmitted 2xx: send the kept ACK again.
    Resend(u32),
}

pub open spec fn ack_step(acked: Set<u32>, code: u16, cseq: u32) -> (Set<u32>, AckAction) {
    if !is_success(code) {
        (acked, AckAction::Ignore)
    } else if acked.contains(cseq) {
        (acked, AckAction::Resend(cseq))
    } else {
        (acked.insert(cseq), AckAction::SendNew(cseq))
    }
}

/// The CSeqs of the 2xx responses whose ACK has been built.
pub struct AckCache {
    acked: Vec<u32>,
}

impl AckCache {
    pub closed spec fn acked(&self) -> Set<u32> {
        self.acked@.to_set()
    }

    pub fn new() -> (r: Self)
        ensures
            r.acked() == Set::<u32>::empty(),
    {
        let r = AckCache { acked: Vec::new() };
        assert(r.acked@.to_set() =~= Set::<u32>::empty());
        r
    }

    /// Takes in a response with status `code` and CSeq `cseq`.
    pub fn on_response(&mut self, code: u16, cseq: u32) -> (r: AckAction)
        ensures
            (final(self).acked(), r) == ack_step(old(self).acked(), code, cseq),
    {
        if code < 200 || code > 299 {
            return AckAction::Ignore;
        }
        let mut i: usize = 0;
        while i < self.acked.len()
            invariant
                i <= self.acked@.len(),
                self.acked@ == old(self).acked@,
                is_success(code),
                forall|j: int| 0 <= j < i ==> self.acked@[j] != cseq,
            decreases self.acked@.len() - i,
        {
            if self.acked[i] == cseq {
                assert(self.acked@[i as int] == cseq);
                assert(self.acked@.contains(cseq));
                assert(self.acked@.to_set().contains(cseq));
                return AckAction::Resend(cseq);
            }
            i = i + 1;
        }
        let ghost before = self.acked@;
        self.acked.push(cseq);
        proof {
            assert(before.push(cseq).to_set() =~= before.to_set().insert(cseq)) by {
                before.lemma_push_to_set_commute(cseq);
            }
        }
        AckAction::SendNew(cseq)
    }
}

/// The set of acknowledged CSeqs after the responses `rs`.
pub open spec fn acked_after(s0: Set<u32>, rs: Seq<(u16, u32)>) -> Set<u32>
    decreases rs.len(),
{
    if rs.len() == 0 {
        s0
    } else {
        ack_step(acked_after(s0, rs.drop_last()), rs.last().0, rs.last().1).0
    }
}

/// The CSeqs for which an ACK was built, in order, over the responses `rs`.
pub open spec fn acks_built(s0: Set<u32>, rs: Seq<(u16, u32)>) -> Seq<u32>
    decreases rs.len(),
{
    if rs.len() == 0 {
        Seq::empty()
    } else {
        let prev = acks_built(s0, rs.drop_last());
        match ack_step(acked_after(s0, rs.drop_last()), rs.last().0, rs.last().1).1 {
            AckAction::SendNew(c) => prev.push(c),
            _ => prev,
        }
    }
}

/// The CSeqs of the 2xx responses among `rs`.
pub open spec fn success_cseqs(rs: Seq<(u16, u32)>) -> Set<u32> {
    Set::new(|c: u32| exists|i: int| 0 <= i < rs.len() && is_success(rs[i].0) && rs[i].1 == c)
}

proof fn lemma_acks_general(s0: Set<u32>, rs: Seq<(u16, u32)>)
    ensures
        acks_built(s0, rs).no_duplicates(),
        forall|c: u32| acks_built(s0, rs).contains(c) ==> !s0.contains(c),
        acked_after(s0, rs) == s0 + acks_built(s0, rs).to_set(),
        s0 + acks_built(s0, rs).to_set() == s0 + success_cseqs(rs),
    decreases rs.len(),
{
    if rs.len() == 0 {
        assert(acks_built(s0, rs).to_set() =~= Set::<u32>::empty());
        assert(success_cseqs(rs) =~= Set::<u32>::empty());
        assert(s0 + Set::<u32>::empty() =~= s0);
    } else {
        let p = rs.drop_last();
        lemma_acks_general(s0, p);
        let prev = acks_built(s0, p);
        let a = acked_after(s0, p);
        let (code, c) = rs.last();
        assert(success_cseqs(rs) =~= if is_success(code) {
            success_cseqs(p).insert(c)
        } else {
            success_cseqs(p)
        }) by {
            assert forall|x: u32| success_cseqs(rs).contains(x) implies (if is_success(code) {
                success_cseqs(p).insert(c)
            } else {
                success_cseqs(p)
            }).contains(x) by {
                let i = choose|i: int| 0 <= i < rs.len() && is_success(rs[i].0) && rs[i].1 == x;
                if i < p.len() {
                    assert(p[i] == rs[i]);
                }
            }
            assert forall|x: u32| success_cseqs(p).contains(x) implies success_cseqs(
                rs,
            ).contains(x) by {
                let i = choose|i: int| 0 <= i < p.len() && is_success(p[i].0) && p[i].1 == x;
                assert(rs[i] == p[i]);
            }
            if is_success(code) {
                assert(rs[rs.len() - 1] == rs.last());
                assert(success_cseqs(rs).contains(c));
            }
        }
        if is_success(code) && !a.contains(c) {
            prev.lemma_push_to_set_commute(c);
            assert(prev.push(c).to_set() =~= prev.to_set().insert(c));
            assert(!prev.contains(c)) by {
                if prev.contains(c) {
                    assert(prev.to_set().contains(c));
                }
            }
            assert(prev.push(c).no_duplicates()) by {
                assert forall|i: int, j: int|
                    0 <= i < prev.push(c).len() && 0 <= j < prev.push(c).len() && i != j
                        implies prev.push(c)[i] != prev.push(c)[j] by {
                    if i < prev.len() && j < prev.len() {
                    } else if i < prev.len() {
                        assert(prev.contains(prev[i]));
                    } else {
                        assert(prev.contains(prev[j]));
                    }
                }
            }
            assert(s0 + prev.push(c).to_set() =~= (s0 + prev.to_set()).insert(c));
            assert((s0 + success_cseqs(p)).insert(c) =~= s0 + success_cseqs(p).insert(c));
            assert(forall|x: u32| prev.push(c).contains(x) ==> x == c || prev.contains(x)) by {
                assert forall|x: u32| prev.push(c).contains(x) implies x == c || prev.contains(
                    x,
                ) by {
                    let k = choose|k: int| 0 <= k < prev.push(c).len() && prev.push(c)[k] == x;
                    if k < prev.len() {
                        assert(prev[k] == x);
                    }
                }
            }
        } else if is_success(code) {
            assert(a.contains(c));
            assert((s0 + success_cseqs(p)).contains(c));
            assert(s0 + success_cseqs(p).insert(c) =~= s0 + success_cseqs(p));
        }
    }
}

/// Over any run of responses to one refreshing re-INVITE, an ACK is built
/// exactly once for each distinct CSeq among the 2xx responses, however often
/// each 2xx is retransmitted; every other 2xx resends the kept ACK.
pub proof fn lemma_one_ack_per_success_cseq(rs: Seq<(u16, u32)>)
    ensures
        acks_built(Set::empty(), rs).no_duplicates(),
        acks_built(Set::empty(), rs).to_set() == success_cseqs(rs),
{
    lemma_acks_general(Set::empty(), rs);
    assert(Set::<u32>::empty() + acks_built(Set::empty(), rs).to_set() =~= acks_built(
        Set::empty(),
        rs,
    ).to_set());
    assert(Set::<u32>::empty() + success_cseqs(rs) =~= success_cseqs(rs));
}

} // verus!
