//! Building a dialog from the client side: the initial request, then the
//! dialog once a response with a To tag has come.
use crate::dialog::DialogEntry;
use crate::header::{Contact, FromTo, MAX_FORWARDS, Method, NameAddr, Request, SipUri, opt_view};
use vstd::prelude::*;

verus! {

/// The state of a dialog that the client is about to create.
pub struct ClientDialogBuilder {
    pub local_cseq: u32,
    pub local_fromto: FromTo,
    pub peer_fromto: FromTo,
    pub local_contact: Contact,
    pub call_id: String,
    pub target: SipUri,
    pub secure: bool,
}

/// The parts of a response that a dialog is made of.
pub struct DialogResponse {
    pub to: FromTo,
    pub contact: Option<Contact>,
    pub record_route: Vec<NameAddr>,
}

/// A header that a dialog needs is missing.
#[derive(Debug, Clone, Copy, PartialEq, Eq, Structural)]
pub enum HeaderError {
    MissingContact,
}

/// What identifies a dialog: Call-ID, local tag, remote tag.
pub struct DialogKey {
    pub call_id: String,
    pub local_tag: Option<String>,
    pub peer_tag: Option<String>,
}

impl View for DialogKey {
    type V = (Seq<char>, Option<Seq<char>>, Option<Seq<char>>);

    open spec fn view(&self) -> (Seq<char>, Option<Seq<char>>, Option<Seq<char>>) {
        (self.call_id@, opt_view(self.local_tag), opt_view(self.peer_tag))
    }
}

fn opt_eq(a: &Option<String>, b: &Option<String>) -> (r: bool)
    ensures
        r == (opt_view(*a) == opt_view(*b)),
{
    match (a, b) {
        (Some(x), Some(y)) => x.eq(y),
        (None, None) => true,
        _ => false,
    }
}

impl DialogKey {
    /// Whether two keys name the same dialog.
    pub fn same(&self, other: &DialogKey) -> (r: bool)
        ensures
            r == (self@ == other@),
    {
        self.call_id.eq(&other.call_id) && opt_eq(&self.local_tag, &other.local_tag) && opt_eq(
            &self.peer_tag,
            &other.peer_tag,
        )
    }
}

/// An established dialog.
pub struct Dialog {
    pub local_cseq: u32,
    pub local_fromto: FromTo,
    pub peer_fromto: FromTo,
    pub local_contact: Contact,
    pub peer_contact: Contact,
    pub call_id: String,
    pub route_set: Vec<NameAddr>,
    pub secure: bool,
}

/// The key of the dialog that an incoming request belongs to: our tag is the
/// request's To tag, the peer's its From tag. A request without a To tag
/// starts no dialog of ours yet, and has no key.
pub fn key_from_incoming(call_id: &String, from_tag: &Option<String>, to_tag: &Option<String>) -> (r:
    Option<DialogKey>)
    ensures
        to_tag is None ==> r is None,
        to_tag is Some ==> (r matches Some(k) && k.call_id@ == call_id@ && opt_view(k.local_tag)
            == opt_view(*to_tag) && opt_view(k.peer_tag) == opt_view(*from_tag)),
{
    match to_tag {
        None => None,
        Some(t) => Some(
            DialogKey {
                call_id: call_id.clone(),
                local_tag: Some(t.clone()),
                peer_tag: match from_tag {
                    Some(f) => Some(f.clone()),
                    None => None,
                },
            },
        ),
    }
}

impl Dialog {
    /// A new in-dialog request: it takes the next local CSeq, goes to the
    /// peer's Contact, and carries the dialog's From, To and Call-ID.
    pub fn create_request(&mut self, method: Method) -> (r: Request)
        requires
            old(self).local_cseq < u32::MAX,
        ensures
            final(self).local_cseq == old(self).local_cseq + 1,
            r.cseq == final(self).local_cseq,
            r.method == method,
            r.uri@ == old(self).peer_contact.addr.uri@,
            r.max_forwards == MAX_FORWARDS,
            r.from@ == old(self).local_fromto@,
            r.to@ == old(self).peer_fromto@,
            r.call_id@ == old(self).call_id@,
            r.contact@ == old(self).local_contact@,
            r.body@.len() == 0,
    {
        self.local_cseq = self.local_cseq + 1;
        self.request_with_cseq(method, self.local_cseq)
    }

    /// The ACK for a 2xx to the INVITE with CSeq `cseq`: it carries that
    /// CSeq and leaves the local CSeq as it is.
    pub fn create_ack(&self, cseq: u32) -> (r: Request)
        ensures
            r.cseq == cseq,
            r.method == Method::Ack,
            r.uri@ == self.peer_contact.addr.uri@,
            r.max_forwards == MAX_FORWARDS,
            r.from@ == self.local_fromto@,
            r.to@ == self.peer_fromto@,
            r.call_id@ == self.call_id@,
            r.contact@ == self.local_contact@,
            r.body@.len() == 0,
    {
        self.request_with_cseq(Method::Ack, cseq)
    }

    fn request_with_cseq(&self, method: Method, cseq: u32) -> (r: Request)
        ensures
            r.cseq == cseq,
            r.method == method,
            r.uri@ == self.peer_contact.addr.uri@,
            r.max_forwards == MAX_FORWARDS,
            r.from@ == self.local_fromto@,
            r.to@ == self.peer_fromto@,
            r.call_id@ == self.call_id@,
            r.contact@ == self.local_contact@,
            r.body@.len() == 0,
    {
        Request {
            method,
            uri: self.peer_contact.addr.uri.duplicate(),
            max_forwards: MAX_FORWARDS,
            from: self.local_fromto.duplicate(),
            to: self.peer_fromto.duplicate(),
            call_id: self.call_id.clone(),
            cseq,
            contact: self.local_contact.duplicate(),
            body: Vec::new(),
        }
    }

    pub fn key(&self) -> (r: DialogKey)
        ensures
            r.call_id@ == self.call_id@,
            opt_view(r.local_tag) == opt_view(self.local_fromto.tag),
            opt_view(r.peer_tag) == opt_view(self.peer_fromto.tag),
    {
        DialogKey {
            call_id: self.call_id.clone(),
            local_tag: match &self.local_fromto.tag {
                Some(t) => Some(t.clone()),
                None => None,
            },
            peer_tag: match &self.peer_fromto.tag {
                Some(t) => Some(t.clone()),
                None => None,
            },
        }
    }
}

impl ClientDialogBuilder {
    /// A builder towards `target`. The first CSeq, the local tag and the
    /// Call-ID are the caller's fresh random values. The peer's address is the
    /// target, without a tag; the dialog is secure where the target is `sips`.
    pub fn new(
        local_addr: NameAddr,
        local_contact: Contact,
        target: SipUri,
        local_cseq: u32,
        local_tag: String,
        call_id: String,
    ) -> (r: Self)
        ensures
            r.local_cseq == local_cseq,
            r.local_fromto@ == (local_addr@, Some(local_tag@)),
            r.peer_fromto@ == ((None::<Seq<char>>, target@), None::<Seq<char>>),
            r.local_contact@ == local_contact@,
            r.call_id@ == call_id@,
            r.target@ == target@,
            r.secure == target.sips,
    {
        let peer = NameAddr::uri(target.duplicate());
        ClientDialogBuilder {
            local_cseq,
            local_fromto: FromTo::new(local_addr, Some(local_tag)),
            peer_fromto: FromTo::new(peer, None),
            local_contact,
            call_id,
            secure: target.sips,
            target,
        }
    }

    /// The request that opens the dialog: to the target, with the builder's
    /// From, To, Call-ID, CSeq and Contact, and an empty body.
    pub fn create_request(&mut self, method: Method) -> (r: Request)
        ensures
            *final(self) == *old(self),
            r.method == method,
            r.uri@ == old(self).target@,
            r.max_forwards == MAX_FORWARDS,
            r.from@ == old(self).local_fromto@,
            r.to@ == old(self).peer_fromto@,
            r.call_id@ == old(self).call_id@,
            r.cseq == old(self).local_cseq,
            r.contact@ == old(self).local_contact@,
            r.body@.len() == 0,
    {
        Request {
            method,
            uri: self.target.duplicate(),
            max_forwards: MAX_FORWARDS,
            from: self.local_fromto.duplicate(),
            to: self.peer_fromto.duplicate(),
            call_id: self.call_id.clone(),
            cseq: self.local_cseq,
            contact: self.local_contact.duplicate(),
            body: Vec::new(),
        }
    }

    /// The dialog that a response with a To tag creates, and the dialog
    /// layer's entry for it, which has seen no request from the peer yet.
    /// The peer's address and tag come from the response's To, its target
    /// from the response's Contact, the route set from its Record-Route.
    pub fn create_dialog_from_response<R, U>(&mut self, response: &DialogResponse) -> (r: Result<
        (Dialog, DialogEntry<R, U>),
        HeaderError,
    >)
        requires
            response.to.tag is Some,
        ensures
            *final(self) == *old(self),
            response.contact is None ==> r == Err::<(Dialog, DialogEntry<R, U>), HeaderError>(
                HeaderError::MissingContact,
            ),
            response.contact matches Some(c) ==> (r matches Ok((d, e)) && {
                &&& d.local_cseq == old(self).local_cseq
                &&& d.local_fromto@ == old(self).local_fromto@
                &&& d.peer_fromto@ == response.to@
                &&& d.local_contact@ == old(self).local_contact@
                &&& d.peer_contact@ == c@
                &&& d.call_id@ == old(self).call_id@
                &&& d.route_set@.map_values(|a: NameAddr| a@) == response.record_route@.map_values(
                    |a: NameAddr| a@,
                )
                &&& d.secure == old(self).secure
                &&& e.wf()
                &&& e.next() is None
                &&& e.backlog_map().is_empty()
                &&& e.usages().len() == 0
            }),
    {
        let peer_contact = match &response.contact {
            Some(c) => c.duplicate(),
            None => {
                return Err(HeaderError::MissingContact);
            },
        };
        let mut route_set: Vec<NameAddr> = Vec::new();
        let mut i: usize = 0;
        while i < response.record_route.len()
            invariant
                i <= response.record_route@.len(),
                route_set@.len() == i,
                forall|j: int| 0 <= j < i ==> (#[trigger] route_set@[j])@ == response.record_route@[j]@,
            decreases response.record_route@.len() - i,
        {
            let a = response.record_route[i].duplicate();
            route_set.push(a);
            i = i + 1;
        }
        assert(route_set@.map_values(|a: NameAddr| a@) =~= response.record_route@.map_values(
            |a: NameAddr| a@,
        ));
        let dialog = Dialog {
            local_cseq: self.local_cseq,
            local_fromto: self.local_fromto.duplicate(),
            peer_fromto: response.to.duplicate(),
            local_contact: self.local_contact.duplicate(),
            peer_contact,
            call_id: self.call_id.clone(),
            route_set,
            secure: self.secure,
        };
        Ok((dialog, DialogEntry::new(None)))
    }
}

} // verus!
