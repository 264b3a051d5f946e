//! The parts of SIP headers that dialogs are built from.
use vstd::prelude::*;

verus! {

pub open spec fn opt_view(o: Option<String>) -> Option<Seq<char>> {
    match o {
        Some(s) => Some(s@),
        None => None,
    }
}

fn clone_opt(o: &Option<String>) -> (r: Option<String>)
    ensures
        opt_view(r) == opt_view(*o),
{
    match o {
        Some(s) => Some(s.clone()),
        None => None,
    }
}

/// A `sip:` or `sips:` URI, kept as its text after the scheme.
pub struct SipUri {
    pub sips: bool,
    pub rest: String,
}

impl View for SipUri {
    type V = (bool, Seq<char>);

    open spec fn view(&self) -> (bool, Seq<char>) {
        (self.sips, self.rest@)
    }
}

impl SipUri {
    pub fn duplicate(&self) -> (r: SipUri)
        ensures
            r@ == self@,
    {
        SipUri { sips: self.sips, rest: self.rest.clone() }
    }
}

/// An address with an optional display name.
pub struct NameAddr {
    pub display: Option<String>,
    pub uri: SipUri,
}

impl View for NameAddr {
    type V = (Option<Seq<char>>, (bool, Seq<char>));

    open spec fn view(&self) -> (Option<Seq<char>>, (bool, Seq<char>)) {
        (opt_view(self.display), self.uri@)
    }
}

impl NameAddr {
    /// An address of a URI alone.
    pub fn uri(uri: SipUri) -> (r: NameAddr)
        ensures
            r@ == (None::<Seq<char>>, uri@),
    {
        NameAddr { display: None, uri }
    }

    pub fn duplicate(&self) -> (r: NameAddr)
        ensures
            r@ == self@,
    {
        NameAddr { display: clone_opt(&self.display), uri: self.uri.duplicate() }
    }
}

/// The value of a `From` or `To` header: an address and an optional tag.
pub struct FromTo {
    pub addr: NameAddr,
    pub tag: Option<String>,
}

impl View for FromTo {
    type V = ((Option<Seq<char>>, (bool, Seq<char>)), Option<Seq<char>>);

    open spec fn view(&self) -> ((Option<Seq<char>>, (bool, Seq<char>)), Option<Seq<char>>) {
        (self.addr@, opt_view(self.tag))
    }
}

impl FromTo {
    pub fn new(addr: NameAddr, tag: Option<String>) -> (r: FromTo)
        ensures
            r@ == (addr@, opt_view(tag)),
    {
        FromTo { addr, tag }
    }

    pub fn duplicate(&self) -> (r: FromTo)
        ensures
            r@ == self@,
    {
        FromTo { addr: self.addr.duplicate(), tag: clone_opt(&self.tag) }
    }
}

/// The value of a `Contact` header.
pub struct Contact {
    pub addr: NameAddr,
}

impl View for Contact {
    type V = (Option<Seq<char>>, (bool, Seq<char>));

    open spec fn view(&self) -> (Option<Seq<char>>, (bool, Seq<char>)) {
        self.addr@
    }
}

impl Contact {
    pub fn duplicate(&self) -> (r: Contact)
        ensures
            r@ == self@,
    {
        Contact { addr: self.addr.duplicate() }
    }
}

/// Request methods.
#[derive(Debug, Clone, Copy, PartialEq, Eq, Structural)]
pub enum Method {
    Invite,
    Ack,
    Bye,
    Cancel,
    Register,
    Options,
    Update,
    Info,
    Prack,
    Subscribe,
    Notify,
    Refer,
    Message,
    Publish,
}

/// Largest number of hops a new request may take.
pub const MAX_FORWARDS: u32 = 70;

/// An outgoing request as a dialog builds it; the body is empty.
pub struct Request {
    pub method: Method,
    pub uri: SipUri,
    pub max_forwards: u32,
    pub from: FromTo,
    pub to: FromTo,
    pub call_id: String,
    pub cseq: u32,
    pub contact: Contact,
    pub body: Vec<u8>,
}

} // verus!
