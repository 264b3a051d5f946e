//! Per-dialog ordering of in-dialog requests by CSeq.
//!
//! Requests that arrive ahead of the expected CSeq wait in a backlog until
//! the gap before them is filled; then they are handed out in order.
use crate::client_builder::DialogKey;
use crate::header::Method;
use std::collections::BTreeMap;
use vstd::prelude::*;

verus! {

broadcast use vstd::laws_cmp::group_laws_cmp, vstd::std_specs::btree::group_btree_axioms;

/// The largest CSeq; a request carrying it is refused, since the next
/// expected CSeq would not fit.
pub const MAX_CSEQ: u32 = 0xFFFF_FFFF;

/// The first CSeq at or after `k` that the backlog does not hold.
pub open spec fn run_end(keys: Set<u32>, k: int) -> int
    decreases MAX_CSEQ - k,
{
    if k >= MAX_CSEQ || k < 0 || !keys.contains(k as u32) {
        k
    } else {
        run_end(keys, k + 1)
    }
}

/// The backlog entries from `from` up to, not including, `to`, in order.
pub open spec fn backlog_run<R>(b: Map<u32, R>, from: int, to: int) -> Seq<(u32, R)> {
    Seq::new((to - from) as nat, |i: int| ((from + i) as u32, b[(from + i) as u32]))
}

/// The consecutive CSeqs, each one more than the one before.
pub open spec fn consecutive<R>(s: Seq<(u32, R)>) -> bool {
    forall|i: int| 0 <= i < s.len() - 1 ==> (#[trigger] s[i + 1]).0 == s[i].0 + 1
}

/// What one `receive` does to an entry `o`, leaving `f` and returning `r`:
/// see `DialogEntry::receive`.
pub open spec fn receive_post<R, U>(
    o: DialogEntry<R, U>,
    f: DialogEntry<R, U>,
    cseq: u32,
    request: R,
    r: Received<R>,
) -> bool {
    &&& f.usages() == o.usages()
    &&& f.handles_issued() == o.handles_issued()
    &&& cseq < MAX_CSEQ && o.next() is Some ==> (
            f.backlog_map().dom(),
            f.next()->0,
            delivered_cseqs(r),
        ) == cseq_step(o.backlog_map().dom(), o.next()->0, cseq)
    &&& cseq == MAX_CSEQ ==> r is Rejected && f == o
    &&& cseq < MAX_CSEQ ==> {
            let b = o.backlog_map();
            let n = match o.next() {
                Some(n) => n,
                None => cseq,
            };
            if cseq < n {
                &&& f.backlog_map() == b
                &&& f.next() == o.next()
                &&& r matches Received::Deliver(v) && v@ == seq![(cseq, request)]
            } else if cseq == n {
                let e = run_end(b.dom(), cseq + 1);
                &&& f.next() == Some(e as u32)
                &&& f.backlog_map() == b.remove_keys(
                    Set::new(|k: u32| cseq < k < e),
                )
                &&& r matches Received::Deliver(v) && v@ == seq![(cseq, request)]
                    + backlog_run(b, cseq + 1, e)
            } else {
                &&& f.next() == Some(n)
                &&& f.backlog_map() == b.insert(cseq, request)
                &&& r is Buffered
            }
        }
}

/// The dialog layer's bookkeeping for one dialog: requests that wait for
/// their turn, the CSeq expected next, and the usages registered against the
/// dialog, each under a handle, in the order of registration.
pub struct DialogEntry<R, U> {
    backlog: BTreeMap<u32, R>,
    next_peer_cseq: Option<u32>,
    usages: Vec<(u64, U)>,
    next_handle: u64,
}

/// What became of a request offered to a dialog.
pub enum Received<R> {
    /// These requests go to the usages now, in this order, with their CSeqs.
    Deliver(Vec<(u32, R)>),
    /// The request is ahead of the expected CSeq and waits in the backlog.
    Buffered,
    /// The request carries the largest CSeq and is refused.
    Rejected(R),
}

impl<R, U> DialogEntry<R, U> {
    pub closed spec fn backlog_map(&self) -> Map<u32, R> {
        self.backlog@
    }

    pub closed spec fn next(&self) -> Option<u32> {
        self.next_peer_cseq
    }

    /// The registered usages with their handles, in the order of registration.
    pub closed spec fn usages(&self) -> Seq<(u64, U)> {
        self.usages@
    }

    /// How many handles have been given out.
    pub closed spec fn handles_issued(&self) -> u64 {
        self.next_handle
    }

    /// Every buffered CSeq is above the expected one and below the largest;
    /// nothing is buffered before the first request.
    pub closed spec fn wf(&self) -> bool {
        &&& forall|i: int, j: int|
            0 <= i < j < self.usages@.len() ==> #[trigger] self.usages@[i].0 < #[trigger] self.usages@[j].0
        &&& forall|i: int| 0 <= i < self.usages@.len() ==> #[trigger] self.usages@[i].0 < self.next_handle
        &&& self.next_peer_cseq is None ==> self.backlog@.dom().is_empty()
        &&& forall|k: u32| #[trigger]
            self.backlog@.contains_key(k) ==> k < MAX_CSEQ && (self.next_peer_cseq matches Some(
                n,
            ) && n < k)
    }

    /// An entry for a new dialog. `peer_cseq` is the CSeq of the request that
    /// created it, where the peer sent one.
    pub fn new(peer_cseq: Option<u32>) -> (r: Self)
        requires
            peer_cseq matches Some(c) ==> c < MAX_CSEQ,
        ensures
            r.wf(),
            r.backlog_map().is_empty(),
            r.usages().len() == 0,
            r.handles_issued() == 0,
            r.next() == match peer_cseq {
                Some(c) => Some((c + 1) as u32),
                None => None::<u32>,
            },
    {
        let next_peer_cseq = match peer_cseq {
            Some(c) => Some(c + 1),
            None => None,
        };
        DialogEntry { backlog: BTreeMap::new(), next_peer_cseq, usages: Vec::new(), next_handle: 0 }
    }

    /// The CSeq expected next from the peer.
    pub fn next_peer_cseq(&self) -> (r: Option<u32>)
        ensures
            r == self.next(),
    {
        self.next_peer_cseq
    }

    /// How many requests wait in the backlog.
    pub fn backlog_len(&self) -> (r: usize)
        ensures
            r == self.backlog_map().len(),
    {
        self.backlog.len()
    }

    /// What a well-formed entry keeps of its backlog: every buffered CSeq is
    /// below the largest and above the expected one.
    pub proof fn lemma_wf_backlog(&self)
        requires
            self.wf(),
        ensures
            forall|k: u32| #[trigger]
                self.backlog_map().contains_key(k) ==> k < MAX_CSEQ && (self.next() matches Some(
                    n,
                ) && n < k),
    {
    }

    /// Registers a usage; its handle is fresh. Once every handle has been
    /// given out, no more usages can be registered.
    pub fn register_usage(&mut self, usage: U) -> (r: Option<u64>)
        requires
            old(self).wf(),
        ensures
            final(self).wf(),
            final(self).next() == old(self).next(),
            final(self).backlog_map() == old(self).backlog_map(),
            old(self).handles_issued() == u64::MAX ==> r is None && final(self).usages() == old(
                self,
            ).usages(),
            old(self).handles_issued() < u64::MAX ==> (r matches Some(h) && final(self).usages()
                == old(self).usages().push((h, usage)) && forall|i: int|
                0 <= i < old(self).usages().len() ==> (#[trigger] old(self).usages()[i]).0 != h),
    {
        if self.next_handle == u64::MAX {
            return None;
        }
        let h = self.next_handle;
        self.usages.push((h, usage));
        self.next_handle = h + 1;
        Some(h)
    }

    /// Removes the usage with handle `h` and hands it back; the others keep
    /// their order.
    pub fn remove_usage(&mut self, h: u64) -> (r: Option<U>)
        requires
            old(self).wf(),
        ensures
            final(self).wf(),
            final(self).next() == old(self).next(),
            final(self).backlog_map() == old(self).backlog_map(),
            final(self).handles_issued() == old(self).handles_issued(),
            match r {
                Some(u) => exists|i: int|
                    0 <= i < old(self).usages().len() && old(self).usages()[i] == (h, u)
                        && final(self).usages() == old(self).usages().remove(i),
                None => final(self).usages() == old(self).usages() && forall|i: int|
                    0 <= i < old(self).usages().len() ==> (#[trigger] old(self).usages()[i]).0 != h,
            },
    {
        let mut i: usize = 0;
        while i < self.usages.len()
            invariant
                i <= self.usages@.len(),
                *self == *old(self),
                old(self).wf(),
                forall|j: int| 0 <= j < i ==> (#[trigger] self.usages@[j]).0 != h,
            decreases self.usages@.len() - i,
        {
            if self.usages[i].0 == h {
                let ghost before = self.usages@;
                let (_, u) = self.usages.remove(i);
                proof {
                    assert(self.usages@ == before.remove(i as int));
                    assert(before[i as int].0 == h);
                    assert(before[i as int] == (h, u));
                    assert(before == old(self).usages());
                    assert(old(self).usages()[i as int] == (h, u) && self.usages() == old(
                        self,
                    ).usages().remove(i as int));
                    assert forall|a: int, b: int|
                        0 <= a < b < self.usages@.len() implies #[trigger] self.usages@[a].0
                        < #[trigger] self.usages@[b].0 by {
                        let a0 = if a < i { a } else { a + 1 };
                        let b0 = if b < i { b } else { b + 1 };
                        assert(self.usages@[a] == before[a0]);
                        assert(self.usages@[b] == before[b0]);
                    }
                    assert forall|a: int| 0 <= a < self.usages@.len() implies #[trigger] self.usages@[a].0
                        < self.next_handle by {
                        let a0 = if a < i { a } else { a + 1 };
                        assert(self.usages@[a] == before[a0]);
                    }
                }
                return Some(u);
            }
            i = i + 1;
        }
        None
    }

    /// Offers an in-dialog request with CSeq `cseq`.
    ///
    /// The first request fixes the expected CSeq. A request below it is
    /// handed out at once (an ACK carries its INVITE's CSeq). The expected one
    /// is handed out with the backlog entries that follow it without a gap,
    /// and the expected CSeq moves past the last of them. One above it waits.
    pub fn receive(&mut self, cseq: u32, request: R) -> (r: Received<R>)
        requires
            old(self).wf(),
        ensures
            final(self).wf(),
            receive_post(*old(self), *final(self), cseq, request, r),
    {
        if cseq == MAX_CSEQ {
            return Received::Rejected(request);
        }
        let n = match self.next_peer_cseq {
            Some(n) => n,
            None => cseq,
        };
        if cseq < n {
            let v = vec![(cseq, request)];
            assert(v@ =~= seq![(cseq, request)]);
            let r = Received::Deliver(v);
            assert(delivered_cseqs(r) =~= seq![cseq]);
            assert(receive_post(*old(self), *self, cseq, request, r));
            return r;
        }
        if cseq > n {
            self.backlog.insert(cseq, request);
            assert(self.backlog@.dom() =~= old(self).backlog@.dom().insert(cseq));
            return Received::Buffered;
        }
        let ghost b = self.backlog@;
        let mut out: Vec<(u32, R)> = Vec::new();
        out.push((cseq, request));
        let mut k: u32 = cseq + 1;
        let mut done = false;
        while !done && k < MAX_CSEQ
            invariant
                cseq < k <= MAX_CSEQ,
                done ==> !b.contains_key(k),
                forall|j: u32| old(self).backlog@.contains_key(j) ==> cseq < j < MAX_CSEQ,
                b == old(self).backlog@,
                self.usages == old(self).usages,
                self.next_handle == old(self).next_handle,
                run_end(b.dom(), cseq + 1) == run_end(b.dom(), k as int),
                self.backlog@ == b.remove_keys(Set::new(|j: u32| cseq < j < k)),
                out@ == seq![(cseq, request)] + backlog_run(b, cseq + 1, k as int),
            decreases MAX_CSEQ - k + (if done { 0int } else { 1int }),
        {
            match self.backlog.remove(&k) {
                Some(r) => {
                    out.push((k, r));
                    k = k + 1;
                    proof {
                        assert(self.backlog@ =~= b.remove_keys(Set::new(|j: u32| cseq < j < k)));
                        assert(out@ =~= seq![(cseq, request)] + backlog_run(b, cseq + 1, k as int));
                    }
                },
                None => {
                    done = true;
                },
            }
        }
        self.next_peer_cseq = Some(k);
        proof {
            assert(run_end(b.dom(), k as int) == k);
            assert(forall|j: u32| #[trigger] self.backlog@.contains_key(j) ==> k < j);
        }
        let r = Received::Deliver(out);
        proof {
            let e = run_end(b.dom(), cseq + 1);
            assert(e == k);
            lemma_run_end_props(b.dom(), cseq + 1);
            assert(self.backlog@.dom() =~= b.dom().difference(Set::new(|j: u32| cseq < j < e)));
            assert(delivered_cseqs(r) =~= seq![cseq] + cseq_range(cseq + 1, e));
        }
        r
    }
}

/// What an in-order delivery hands out has consecutive CSeqs, starts at the
/// expected CSeq and leaves the next expected CSeq one past its last: so the
/// in-order requests that the usages of a dialog see climb by one each.
pub proof fn lemma_in_order_delivery<R>(b: Map<u32, R>, cseq: u32, request: R)
    requires
        cseq < MAX_CSEQ,
    ensures
        ({
            let v = seq![(cseq, request)] + backlog_run(b, cseq + 1, run_end(b.dom(), cseq + 1));
            &&& consecutive(v)
            &&& v[0].0 == cseq
            &&& v.last().0 + 1 == run_end(b.dom(), cseq + 1)
        }),
{
    lemma_run_end_props(b.dom(), cseq + 1);
    let e = run_end(b.dom(), cseq + 1);
    let v = seq![(cseq, request)] + backlog_run(b, cseq + 1, e);
    assert forall|i: int| 0 <= i < v.len() - 1 implies (#[trigger] v[i + 1]).0 == v[i].0 + 1 by {
        if i > 0 {
            assert(v[i] == backlog_run(b, cseq + 1, e)[i - 1]);
        }
    }
}

/// A consumer of in-dialog requests registered against a dialog, such as an
/// INVITE session or a subscription.
pub trait Usage<R> {
    /// Whether this usage takes the request when it is offered.
    spec fn takes(&self, request: R) -> bool;

    fn name(&self) -> &'static str;

    /// Takes the request, returning `None`, or hands it back for the next usage.
    fn receive(&self, request: R) -> (r: Option<R>)
        ensures
            r is None <==> self.takes(request),
            r matches Some(q) ==> q == request,
    ;
}

impl<R, U: Usage<R>> DialogEntry<R, U> {
    /// Offers a request to the usages in the order of registration until one
    /// takes it; hands it back where none does.
    pub fn offer_to_usages(&self, request: R) -> (r: Option<R>)
        ensures
            r is None <==> exists|i: int| 0 <= i < self.usages().len() && (#[trigger] self.usages()[i]).1.takes(request),
            r matches Some(q) ==> q == request,
    {
        let mut pending = request;
        let mut i: usize = 0;
        while i < self.usages.len()
            invariant
                i <= self.usages@.len(),
                pending == request,
                forall|j: int| 0 <= j < i ==> !(#[trigger] self.usages@[j]).1.takes(request),
            decreases self.usages@.len() - i,
        {
            match self.usages[i].1.receive(pending) {
                Some(q) => {
                    pending = q;
                },
                None => {
                    assert(self.usages()[i as int].1.takes(request));
                    return None;
                },
            }
            i = i + 1;
        }
        assert forall|k: int| 0 <= k < self.usages().len() implies !(
        #[trigger] self.usages()[k]).1.takes(request) by {
            assert(self.usages()[k] == self.usages@[k]);
        }
        Some(pending)
    }
}

/// How the dialog layer answers an in-dialog request that no usage took.
#[derive(Debug, Clone, Copy, PartialEq, Eq, Structural)]
pub enum UnwantedReply {
    /// An ACK gets no response.
    Drop,
    /// `404 Not Found` in a server INVITE transaction.
    NotFoundInvite,
    /// `404 Not Found` in a server transaction.
    NotFound,
}

/// Status code of the answer to an in-dialog request that nothing took.
pub const NOT_FOUND: u16 = 404;

pub fn handle_unwanted_request(method: Method) -> (r: UnwantedReply)
    ensures
        method == Method::Ack <==> r == UnwantedReply::Drop,
        method == Method::Invite <==> r == UnwantedReply::NotFoundInvite,
        method != Method::Ack && method != Method::Invite <==> r == UnwantedReply::NotFound,
{
    match method {
        Method::Ack => UnwantedReply::Drop,
        Method::Invite => UnwantedReply::NotFoundInvite,
        _ => UnwantedReply::NotFound,
    }
}

/// The CSeqs of what a `receive` hands out.
pub open spec fn delivered_cseqs<R>(r: Received<R>) -> Seq<u32> {
    match r {
        Received::Deliver(v) => v@.map_values(|p: (u32, R)| p.0),
        _ => Seq::empty(),
    }
}

/// The CSeqs from `a` up to, not including, `b`.
pub open spec fn cseq_range(a: int, b: int) -> Seq<u32> {
    Seq::new((b - a) as nat, |i: int| (a + i) as u32)
}

/// One `receive` as it acts on CSeqs, once the expected CSeq `next` is
/// set: the backlog's CSeqs, the next expected CSeq, and the CSeqs handed
/// out, as `receive` states them.
pub open spec fn cseq_step(keys: Set<u32>, next: u32, c: u32) -> (Set<u32>, u32, Seq<u32>) {
    if c < next {
        (keys, next, seq![c])
    } else if c == next {
        let e = run_end(keys, c + 1);
        (keys.difference(Set::new(|k: u32| c < k < e)), e as u32, seq![c] + cseq_range(c + 1, e))
    } else {
        (keys.insert(c), next, Seq::empty())
    }
}

/// A run of `receive` calls with CSeqs `cs`: the backlog's CSeqs, the next
/// expected CSeq, and all CSeqs handed out, in order.
pub open spec fn cseq_run(keys: Set<u32>, next: u32, cs: Seq<u32>) -> (Set<u32>, u32, Seq<u32>)
    decreases cs.len(),
{
    if cs.len() == 0 {
        (keys, next, Seq::empty())
    } else {
        let (k, n, d) = cseq_run(keys, next, cs.drop_last());
        let (k2, n2, d2) = cseq_step(k, n, cs.last());
        (k2, n2, d + d2)
    }
}

proof fn lemma_run_end_props(keys: Set<u32>, k: int)
    requires
        0 <= k <= MAX_CSEQ,
    ensures
        k <= run_end(keys, k) <= MAX_CSEQ,
        forall|j: u32| k <= j < run_end(keys, k) ==> #[trigger] keys.contains(j),
        run_end(keys, k) < MAX_CSEQ ==> !keys.contains(run_end(keys, k) as u32),
    decreases MAX_CSEQ - k,
{
    if k < MAX_CSEQ && keys.contains(k as u32) {
        lemma_run_end_props(keys, k + 1);
    }
}

proof fn lemma_run_end_agree(a: Set<u32>, b: Set<u32>, k: int)
    requires
        0 <= k <= MAX_CSEQ,
        forall|x: u32| x >= k ==> (a.contains(x) <==> b.contains(x)),
    ensures
        run_end(a, k) == run_end(b, k),
    decreases MAX_CSEQ - k,
{
    if k < MAX_CSEQ && a.contains(k as u32) {
        lemma_run_end_agree(a, b, k + 1);
    }
}

/// `k` distinct CSeqs cover at most `k` consecutive values.
proof fn lemma_covered_bound(pre: Seq<u32>, n: int, e: int)
    requires
        pre.no_duplicates(),
        0 <= n <= e <= MAX_CSEQ,
        forall|j: u32| n <= j < e ==> #[trigger] pre.to_set().contains(j),
    ensures
        e - n <= pre.len(),
{
    pre.unique_seq_to_set();
    lemma_range_set_len(n, e - n);
    let r = Set::new(|x: u32| n <= x < e);
    assert(r =~= Set::new(|x: u32| n <= x < n + (e - n)));
    assert(r.subset_of(pre.to_set()));
    vstd::set_lib::lemma_len_subset(r, pre.to_set());
}

proof fn lemma_range_set_len(a: int, k: int)
    requires
        0 <= a,
        0 <= k,
        a + k <= MAX_CSEQ,
    ensures
        Set::new(|x: u32| a <= x < a + k).finite(),
        Set::new(|x: u32| a <= x < a + k).len() == k,
    decreases k,
{
    let r = Set::new(|x: u32| a <= x < a + k);
    if k == 0 {
        assert(r =~= Set::<u32>::empty());
    } else {
        lemma_range_set_len(a, k - 1);
        let q = Set::new(|x: u32| a <= x < a + k - 1);
        assert(r =~= q.insert((a + k - 1) as u32));
    }
}

/// However the requests with CSeqs `n` to `n + k - 1` arrive, the dialog
/// hands them out exactly once each, in ascending order, and then expects
/// `n + k` with nothing left waiting.
pub proof fn lemma_any_arrival_order_delivers_in_order(n: u32, cs: Seq<u32>)
    requires
        cs.no_duplicates(),
        n + cs.len() <= MAX_CSEQ,
        forall|i: int| 0 <= i < cs.len() ==> n <= #[trigger] cs[i] < n + cs.len(),
    ensures
        cseq_run(Set::empty(), n, cs) == (Set::<u32>::empty(), (n + cs.len()) as u32, cseq_range(
            n as int,
            n + cs.len(),
        )),
{
    let k = cs.len() as int;
    lemma_run_invariant(n, cs, k);
    assert(cs.subrange(0, k) =~= cs);
    let (keys, m, d) = cseq_run(Set::empty(), n, cs);
    let p = cs.to_set();
    if m < n + k {
        // k distinct values in n..n+k are all of them
        cs.unique_seq_to_set();
        lemma_range_set_len(n as int, k);
        let r = Set::new(|x: u32| n <= x < n + k);
        assert(p.subset_of(r.remove(m))) by {
            assert forall|x: u32| p.contains(x) implies r.remove(m).contains(x) by {
                let i = choose|i: int| 0 <= i < cs.len() && cs[i] == x;
            }
        }
        vstd::set_lib::lemma_len_subset(p, r.remove(m));
        assert(r.contains(m));
    }
    assert(keys =~= Set::<u32>::empty()) by {
        assert forall|x: u32| !keys.contains(x) by {
            if keys.contains(x) {
                let i = choose|i: int| 0 <= i < cs.len() && cs[i] == x;
            }
        }
    }
}

/// After the first `p` arrivals: the CSeqs from `n` up to the next expected
/// one have all arrived and were handed out in order, the next expected one
/// has not arrived, and the backlog holds exactly the arrived ones above it.
proof fn lemma_run_invariant(n: u32, cs: Seq<u32>, p: int)
    requires
        0 <= p <= cs.len(),
        cs.no_duplicates(),
        n + cs.len() <= MAX_CSEQ,
        forall|i: int| 0 <= i < cs.len() ==> n <= #[trigger] cs[i] < n + cs.len(),
    ensures
        ({
            let (keys, m, d) = cseq_run(Set::empty(), n, cs.subrange(0, p));
            let arrived = cs.subrange(0, p).to_set();
            &&& n <= m <= n + p
            &&& forall|j: u32| n <= j < m ==> #[trigger] arrived.contains(j)
            &&& !arrived.contains(m)
            &&& d == cseq_range(n as int, m as int)
            &&& keys == Set::new(|x: u32| arrived.contains(x) && x > m)
        }),
    decreases p,
{
    let pre = cs.subrange(0, p);
    let arrived = pre.to_set();
    if p == 0 {
        assert(pre =~= Seq::<u32>::empty());
        assert(arrived =~= Set::<u32>::empty());
        assert(cseq_range(n as int, n as int) =~= Seq::<u32>::empty());
        assert(Set::new(|x: u32| arrived.contains(x) && x > n) =~= Set::<u32>::empty());
    } else {
        lemma_run_invariant(n, cs, p - 1);
        let prev = cs.subrange(0, p - 1);
        assert(pre.drop_last() =~= prev);
        let (keys, m, d) = cseq_run(Set::empty(), n, prev);
        let old_arrived = prev.to_set();
        let c = cs[p - 1];
        assert(pre.last() == c);
        assert(pre.no_duplicates()) by {
            assert forall|i: int, j: int| 0 <= i < pre.len() && 0 <= j < pre.len() && i != j
                implies pre[i] != pre[j] by {
                assert(pre[i] == cs[i] && pre[j] == cs[j]);
            }
        }
        assert(arrived =~= old_arrived.insert(c)) by {
            assert forall|x: u32| arrived.contains(x) <==> old_arrived.insert(c).contains(x) by {
                if arrived.contains(x) {
                    let i = choose|i: int| 0 <= i < pre.len() && pre[i] == x;
                    if i < p - 1 {
                        assert(prev[i] == x);
                    }
                }
                if old_arrived.contains(x) {
                    let i = choose|i: int| 0 <= i < prev.len() && prev[i] == x;
                    assert(pre[i] == x);
                }
                if x == c {
                    assert(pre[p - 1] == c);
                }
            }
        }
        assert(!old_arrived.contains(c)) by {
            if old_arrived.contains(c) {
                let i = choose|i: int| 0 <= i < prev.len() && prev[i] == c;
                assert(cs[i] == c && cs[p - 1] == c);
            }
        }
        assert(n <= c < n + cs.len());
        if c < m {
            assert(old_arrived.contains(c));
        } else if c == m {
            lemma_run_end_agree(keys, arrived, m + 1);
            lemma_run_end_props(arrived, m + 1);
            let e = run_end(arrived, m + 1);
            assert(!arrived.contains(e as u32)) by {
                if e == MAX_CSEQ && arrived.contains(e as u32) {
                    let i = choose|i: int| 0 <= i < pre.len() && pre[i] == e as u32;
                    assert(pre[i] == cs[i]);
                }
            }
            let (k2, m2, d2) = cseq_step(keys, m, c);
            assert(m2 == e);
            assert(d + d2 =~= cseq_range(n as int, e));
            assert(k2 =~= Set::new(|x: u32| arrived.contains(x) && x > e));
            assert forall|j: u32| n <= j < e implies #[trigger] arrived.contains(j) by {
                if j < m {
                    assert(old_arrived.contains(j));
                }
            }
            lemma_covered_bound(pre, n as int, e);
        } else {
            let (k2, m2, d2) = cseq_step(keys, m, c);
            assert(d + d2 =~= d);
            assert(k2 =~= Set::new(|x: u32| arrived.contains(x) && x > m));
            assert(old_arrived.contains(m) == false);
        }
    }
}

/// The dialogs of an endpoint, each under its key, with no key twice.
pub struct DialogTable<R, U> {
    entries: Vec<(DialogKey, DialogEntry<R, U>)>,
}

pub type KeyView = (Seq<char>, Option<Seq<char>>, Option<Seq<char>>);

impl<R, U> DialogTable<R, U> {
    pub closed spec fn contains(&self, k: KeyView) -> bool {
        exists|i: int| 0 <= i < self.entries@.len() && (#[trigger] self.entries@[i]).0@ == k
    }

    /// The entry under `k`, where there is one.
    pub closed spec fn get(&self, k: KeyView) -> DialogEntry<R, U> {
        self.entries@[choose|i: int| 0 <= i < self.entries@.len() && (#[trigger] self.entries@[i]).0@ == k].1
    }

    pub closed spec fn wf(&self) -> bool {
        &&& forall|i: int, j: int|
            0 <= i < j < self.entries@.len() ==> (#[trigger] self.entries@[i]).0@ != (
            #[trigger] self.entries@[j]).0@
        &&& forall|i: int| 0 <= i < self.entries@.len() ==> (#[trigger] self.entries@[i]).1.wf()
    }

    /// Everything but the entry under `k` is as in `o`.
    pub open spec fn others_unchanged(&self, o: &Self, k: KeyView) -> bool {
        forall|x: KeyView|
            x != k ==> (self.contains(x) == o.contains(x) && (o.contains(x) ==> #[trigger] self.get(x)
                == o.get(x)))
    }

    proof fn lemma_get_at(&self, i: int)
        requires
            self.wf(),
            0 <= i < self.entries@.len(),
        ensures
            self.contains(self.entries@[i].0@),
            self.get(self.entries@[i].0@) == self.entries@[i].1,
    {
        let k = self.entries@[i].0@;
        assert(self.contains(k));
        let j = choose|j: int| 0 <= j < self.entries@.len() && (#[trigger] self.entries@[j]).0@ == k;
        if i < j {
            assert(self.entries@[i].0@ != self.entries@[j].0@);
        } else if j < i {
            assert(self.entries@[j].0@ != self.entries@[i].0@);
        }
    }

    pub fn new() -> (r: Self)
        ensures
            r.wf(),
            forall|k: KeyView| !r.contains(k),
    {
        DialogTable { entries: Vec::new() }
    }

    /// Where the entry under `key` stands.
    fn find(&self, key: &DialogKey) -> (r: Option<usize>)
        requires
            self.wf(),
        ensures
            match r {
                Some(i) => i < self.entries@.len() && self.entries@[i as int].0@ == key@,
                None => !self.contains(key@),
            },
    {
        let mut i: usize = 0;
        while i < self.entries.len()
            invariant
                i <= self.entries@.len(),
                forall|j: int| 0 <= j < i ==> (#[trigger] self.entries@[j]).0@ != key@,
            decreases self.entries@.len() - i,
        {
            if self.entries[i].0.same(key) {
                return Some(i);
            }
            i = i + 1;
        }
        None
    }

    /// Puts `entry` under `key`, in place of any entry there was.
    pub fn insert(&mut self, key: DialogKey, entry: DialogEntry<R, U>)
        requires
            old(self).wf(),
            entry.wf(),
        ensures
            final(self).wf(),
            final(self).contains(key@),
            final(self).get(key@) == entry,
            final(self).others_unchanged(old(self), key@),
    {
        let ghost k = key@;
        match self.find(&key) {
            Some(i) => {
                let ghost before = self.entries@;
                self.entries.set(i, (key, entry));
                proof {
                    assert(self.entries@ == before.update(i as int, self.entries@[i as int]));
                    self.lemma_get_at(i as int);
                    self.lemma_others_after_update(old(self), i as int);
                }
            },
            None => {
                let ghost before = self.entries@;
                self.entries.push((key, entry));
                proof {
                    let n = before.len() as int;
                    assert forall|a: int, b: int|
                        0 <= a < b < self.entries@.len() implies (#[trigger] self.entries@[a]).0@
                        != (#[trigger] self.entries@[b]).0@ by {
                        if b == n {
                            assert(self.entries@[a] == before[a]);
                            assert(old(self).entries@[a].0@ != k);
                        } else {
                            assert(self.entries@[a] == before[a] && self.entries@[b] == before[b]);
                        }
                    }
                    assert forall|a: int| 0 <= a < self.entries@.len() implies (
                    #[trigger] self.entries@[a]).1.wf() by {
                        if a < n {
                            assert(self.entries@[a] == before[a]);
                        }
                    }
                    self.lemma_get_at(n);
                    assert forall|x: KeyView| x != k implies (self.contains(x) == old(self).contains(x)
                        && (old(self).contains(x) ==> #[trigger] self.get(x) == old(self).get(x))) by {
                        if old(self).contains(x) {
                            let j = choose|j: int| 0 <= j < before.len() && (#[trigger] before[j]).0@ == x;
                            old(self).lemma_get_at(j);
                            assert(self.entries@[j] == before[j]);
                            self.lemma_get_at(j);
                        }
                        if self.contains(x) {
                            let j = choose|j: int| 0 <= j < self.entries@.len() && (#[trigger] self.entries@[j]).0@ == x;
                            if j < n {
                                assert(self.entries@[j] == before[j]);
                                assert(old(self).contains(x));
                            }
                        }
                    }
                }
            },
        }
    }

    /// After the pair at `i` was replaced by one with the same key, the
    /// other keys keep their entries.
    proof fn lemma_others_after_update(&self, o: &Self, i: int)
        requires
            o.wf(),
            0 <= i < o.entries@.len(),
            self.entries@.len() == o.entries@.len(),
            self.entries@[i].0@ == o.entries@[i].0@,
            forall|j: int| 0 <= j < o.entries@.len() && j != i ==> self.entries@[j] == o.entries@[j],
            self.entries@[i].1.wf(),
        ensures
            self.wf(),
            self.others_unchanged(o, o.entries@[i].0@),
    {
        let k = o.entries@[i].0@;
        assert forall|a: int, b: int| 0 <= a < b < self.entries@.len() implies (
        #[trigger] self.entries@[a]).0@ != (#[trigger] self.entries@[b]).0@ by {
            assert(o.entries@[a].0@ != o.entries@[b].0@);
            if a != i {
                assert(self.entries@[a] == o.entries@[a]);
            }
            if b != i {
                assert(self.entries@[b] == o.entries@[b]);
            }
        }
        assert forall|a: int| 0 <= a < self.entries@.len() implies (
        #[trigger] self.entries@[a]).1.wf() by {
            if a != i {
                assert(self.entries@[a] == o.entries@[a]);
                assert(o.entries@[a].1.wf());
            }
        }
        assert forall|x: KeyView| x != k implies (self.contains(x) == o.contains(x) && (o.contains(x)
            ==> #[trigger] self.get(x) == o.get(x))) by {
            if o.contains(x) {
                let j = choose|j: int| 0 <= j < o.entries@.len() && (#[trigger] o.entries@[j]).0@ == x;
                o.lemma_get_at(j);
                assert(j != i);
                assert(self.entries@[j] == o.entries@[j]);
                self.lemma_get_at(j);
            }
            if self.contains(x) {
                let j = choose|j: int| 0 <= j < self.entries@.len() && (#[trigger] self.entries@[j]).0@ == x;
                assert(j != i);
                assert(self.entries@[j] == o.entries@[j]);
                assert(o.contains(x));
            }
        }
    }

    /// Hands an in-dialog request to the entry under `key`. Where there is
    /// none, the request is handed back (`Err`): the dialog layer passes it on.
    pub fn receive(&mut self, key: &DialogKey, cseq: u32, request: R) -> (r: Result<Received<R>, R>)
        requires
            old(self).wf(),
        ensures
            final(self).wf(),
            !old(self).contains(key@) ==> r == Err::<Received<R>, R>(request) && *final(self) == *old(self),
            old(self).contains(key@) ==> (r matches Ok(x) && final(self).contains(key@)
                && receive_post(old(self).get(key@), final(self).get(key@), cseq, request, x)
                && final(self).get(key@).wf()),
            final(self).others_unchanged(old(self), key@),
    {
        match self.find(key) {
            None => Err(request),
            Some(i) => {
                proof {
                    old(self).lemma_get_at(i as int);
                }
                let (k, mut e) = self.entries.remove(i);
                let x = e.receive(cseq, request);
                self.entries.insert(i, (k, e));
                proof {
                    assert forall|j: int| 0 <= j < old(self).entries@.len() && j != i implies self.entries@[j]
                        == old(self).entries@[j] by {
                        if j < i {
                        } else {
                        }
                    }
                    self.lemma_others_after_update(old(self), i as int);
                    self.lemma_get_at(i as int);
                }
                Ok(x)
            },
        }
    }

    /// Registers a usage with the dialog under `key`; `None` where there is
    /// no such dialog, or it can take no more usages.
    pub fn register_usage(&mut self, key: &DialogKey, usage: U) -> (r: Option<u64>)
        requires
            old(self).wf(),
        ensures
            final(self).wf(),
            final(self).others_unchanged(old(self), key@),
            final(self).contains(key@) == old(self).contains(key@),
            !old(self).contains(key@) ==> r is None,
            old(self).contains(key@) ==> {
                let o = old(self).get(key@);
                let f = final(self).get(key@);
                &&& f.next() == o.next()
                &&& f.backlog_map() == o.backlog_map()
                &&& o.handles_issued() == u64::MAX ==> r is None && f.usages() == o.usages()
                &&& o.handles_issued() < u64::MAX ==> (r matches Some(h) && f.usages()
                    == o.usages().push((h, usage)))
            },
    {
        match self.find(key) {
            None => None,
            Some(i) => {
                proof {
                    old(self).lemma_get_at(i as int);
                }
                let (k, mut e) = self.entries.remove(i);
                let h = e.register_usage(usage);
                self.entries.insert(i, (k, e));
                proof {
                    self.lemma_others_after_update(old(self), i as int);
                    self.lemma_get_at(i as int);
                }
                h
            },
        }
    }

    /// Removes the dialog under `key` and hands its entry back.
    pub fn remove(&mut self, key: &DialogKey) -> (r: Option<DialogEntry<R, U>>)
        requires
            old(self).wf(),
        ensures
            final(self).wf(),
            !final(self).contains(key@),
            old(self).contains(key@) ==> r == Some(old(self).get(key@)),
            !old(self).contains(key@) ==> r is None,
            final(self).others_unchanged(old(self), key@),
    {
        match self.find(key) {
            None => None,
            Some(i) => {
                proof {
                    old(self).lemma_get_at(i as int);
                }
                let ghost before = self.entries@;
                let (_, e) = self.entries.remove(i);
                proof {
                    let k = key@;
                    assert(self.entries@ == before.remove(i as int));
                    assert forall|a: int, b: int| 0 <= a < b < self.entries@.len() implies (
                    #[trigger] self.entries@[a]).0@ != (#[trigger] self.entries@[b]).0@ by {
                        let a0 = if a < i { a } else { a + 1 };
                        let b0 = if b < i { b } else { b + 1 };
                        assert(self.entries@[a] == before[a0] && self.entries@[b] == before[b0]);
                    }
                    assert forall|a: int| 0 <= a < self.entries@.len() implies (
                    #[trigger] self.entries@[a]).1.wf() by {
                        let a0 = if a < i { a } else { a + 1 };
                        assert(self.entries@[a] == before[a0]);
                    }
                    assert(!self.contains(k)) by {
                        if self.contains(k) {
                            let j = choose|j: int| 0 <= j < self.entries@.len() && (#[trigger] self.entries@[j]).0@ == k;
                            let j0 = if j < i { j } else { j + 1 };
                            assert(self.entries@[j] == before[j0]);
                            assert(before[j0].0@ != before[i as int].0@);
                        }
                    }
                    assert forall|x: KeyView| x != k implies (self.contains(x) == old(self).contains(x)
                        && (old(self).contains(x) ==> #[trigger] self.get(x) == old(self).get(x))) by {
                        if old(self).contains(x) {
                            let j = choose|j: int| 0 <= j < before.len() && (#[trigger] before[j]).0@ == x;
                            old(self).lemma_get_at(j);
                            assert(j != i);
                            let j1 = if j < i { j } else { j - 1 };
                            assert(self.entries@[j1] == before[j]);
                            self.lemma_get_at(j1);
                        }
                        if self.contains(x) {
                            let j = choose|j: int| 0 <= j < self.entries@.len() && (#[trigger] self.entries@[j]).0@ == x;
                            let j0 = if j < i { j } else { j + 1 };
                            assert(self.entries@[j] == before[j0]);
                            assert(old(self).contains(x));
                        }
                    }
                }
                Some(e)
            },
        }
    }
}

} // verus!
