//! Rules of the endpoint's dispatcher: which transaction a message belongs
//! to, and the answer to a request that no layer took.
use crate::header::Method;
use vstd::prelude::*;

verus! {

/// The magic cookie that starts every RFC 3261 branch.
pub open spec fn branch_cookie() -> Seq<u8> {
    seq![122u8, 57u8, 104u8, 71u8, 52u8, 98u8, 75u8]
}

/// What identifies a transaction: the Via branch, the method, and the Via
/// sent-by of its request.
pub struct TsxKey {
    pub branch: Vec<u8>,
    pub method: Method,
    pub sent_by: Vec<u8>,
}

/// The Via branch, the method and the Via sent-by that a message carries;
/// for a response, the method is the one of its CSeq.
pub struct MessageKey {
    pub branch: Vec<u8>,
    pub method: Method,
    pub sent_by: Vec<u8>,
}

/// A request belongs to a server transaction when branch and sent-by agree
/// and the method agrees, an ACK belonging to the INVITE transaction
/// (RFC 3261 section 17.2.3).
pub open spec fn server_matches(key: TsxKey, m: MessageKey) -> bool {
    &&& key.branch@ == m.branch@
    &&& key.sent_by@ == m.sent_by@
    &&& (key.method == m.method || (key.method == Method::Invite && m.method == Method::Ack))
}

/// A response belongs to a client transaction when branch, CSeq method and
/// sent-by agree (RFC 3261 section 17.1.3).
pub open spec fn client_matches(key: TsxKey, m: MessageKey) -> bool {
    &&& key.branch@ == m.branch@
    &&& key.sent_by@ == m.sent_by@
    &&& key.method == m.method
}

fn bytes_eq(a: &Vec<u8>, b: &Vec<u8>) -> (r: bool)
    ensures
        r == (a@ == b@),
{
    if a.len() != b.len() {
        return false;
    }
    let mut i: usize = 0;
    while i < a.len()
        invariant
            a@.len() == b@.len(),
            i <= a@.len(),
            forall|j: int| 0 <= j < i ==> a@[j] == b@[j],
        decreases a@.len() - i,
    {
        if a[i] != b[i] {
            return false;
        }
        i = i + 1;
    }
    assert(a@ =~= b@);
    true
}

impl TsxKey {
    /// Whether a received request belongs to this server transaction.
    pub fn matches_request(&self, m: &MessageKey) -> (r: bool)
        ensures
            r == server_matches(*self, *m),
    {
        bytes_eq(&self.branch, &m.branch) && bytes_eq(&self.sent_by, &m.sent_by) && (
        self.method == m.method || (self.method == Method::Invite && m.method == Method::Ack))
    }

    /// Whether a received response belongs to this client transaction.
    pub fn matches_response(&self, m: &MessageKey) -> (r: bool)
        ensures
            r == client_matches(*self, *m),
    {
        bytes_eq(&self.branch, &m.branch) && bytes_eq(&self.sent_by, &m.sent_by) && self.method
            == m.method
    }
}

/// Whether a branch carries the RFC 3261 magic cookie `z9hG4bK`.
pub fn has_branch_cookie(branch: &Vec<u8>) -> (r: bool)
    ensures
        r == (branch@.len() >= 7 && branch@.subrange(0, 7) == branch_cookie()),
{
    if branch.len() < 7 {
        return false;
    }
    let ok = branch[0] == 122 && branch[1] == 57 && branch[2] == 104 && branch[3] == 71
        && branch[4] == 52 && branch[5] == 98 && branch[6] == 75;
    proof {
        if ok {
            assert(branch@.subrange(0, 7) =~= branch_cookie());
        } else {
            if branch@.subrange(0, 7) == branch_cookie() {
                assert(branch@.subrange(0, 7)[0] == branch@[0]);
                assert(branch@.subrange(0, 7)[1] == branch@[1]);
                assert(branch@.subrange(0, 7)[2] == branch@[2]);
                assert(branch@.subrange(0, 7)[3] == branch@[3]);
                assert(branch@.subrange(0, 7)[4] == branch@[4]);
                assert(branch@.subrange(0, 7)[5] == branch@[5]);
                assert(branch@.subrange(0, 7)[6] == branch@[6]);
            }
        }
    }
    ok
}

/// `405 Method Not Allowed`.
pub const METHOD_NOT_ALLOWED: u16 = 405;

/// `501 Not Implemented`.
pub const NOT_IMPLEMENTED: u16 = 501;

/// The answer to a request that no layer took: where the method is one
/// that this stack knows (`Some`), 405; an unknown method gets 501. An ACK
/// gets no answer.
pub fn default_response(method: Option<Method>) -> (r: Option<u16>)
    ensures
        method == Some(Method::Ack) ==> r is None,
        method is None ==> r == Some(NOT_IMPLEMENTED),
        method matches Some(m) && m != Method::Ack ==> r == Some(METHOD_NOT_ALLOWED),
{
    match method {
        Some(Method::Ack) => None,
        Some(_) => Some(METHOD_NOT_ALLOWED),
        None => Some(NOT_IMPLEMENTED),
    }
}

} // verus!
