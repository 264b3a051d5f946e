//! Framing of SIP messages, STUN messages and keep-alive sentinels out of
//! received bytes: whole datagrams, or the front of a stream buffer.
use bytes::Bytes;
use vstd::prelude::*;
use vstd::utf8::valid_utf8;

verus! {

#[verifier::external_type_specification]
#[verifier::external_body]
pub struct ExBytes(Bytes);

/// The bytes that a shared buffer holds.
pub uninterp spec fn bytes_view(b: Bytes) -> Seq<u8>;

/// Relies on `bytes::Bytes::copy_from_slice`: a new buffer holding a copy of `s`.
#[verifier::external_body]
fn bytes_copy(s: &[u8]) -> (r: Bytes)
    ensures
        bytes_view(r) == s@,
{
    Bytes::copy_from_slice(s)
}

/// Relies on `bytes::Bytes::slice`: a handle on `b[start..end]` that shares
/// `b`'s memory; it panics unless `start <= end <= len`.
#[verifier::external_body]
fn bytes_slice(b: &Bytes, start: usize, end: usize) -> (r: Bytes)
    requires
        start <= end <= bytes_view(*b).len(),
    ensures
        bytes_view(r) == bytes_view(*b).subrange(start as int, end as int),
{
    b.slice(start..end)
}

/// Relies on `bytes::Bytes::new`: an empty buffer.
#[verifier::external_body]
fn bytes_empty() -> (r: Bytes)
    ensures
        bytes_view(r) == Seq::<u8>::empty(),
{
    Bytes::new()
}

/// Relies on `<bytes::Bytes as AsRef<[u8]>>::as_ref`: the bytes the buffer holds.
#[verifier::external_body]
pub(crate) fn bytes_as_slice(b: &Bytes) -> (r: &[u8])
    ensures
        r@ == bytes_view(*b),
{
    b.as_ref()
}

pub const CR: u8 = 13;

pub const LF: u8 = 10;

/// A field of a message head: its name and its value.
pub struct Header {
    pub name: Vec<u8>,
    pub value: Vec<u8>,
}

impl View for Header {
    type V = (Seq<u8>, Seq<u8>);

    open spec fn view(&self) -> (Seq<u8>, Seq<u8>) {
        (self.name@, self.value@)
    }
}

/// A framed SIP message: the start line, the header fields in order, and the
/// body, which shares the memory of the received bytes kept in `buffer`.
pub struct SipMessage {
    pub line: Vec<u8>,
    pub headers: Vec<Header>,
    pub body: Bytes,
    pub buffer: Bytes,
}

/// The mathematical value of a SIP message.
pub struct MessageView {
    pub line: Seq<u8>,
    pub headers: Seq<(Seq<u8>, Seq<u8>)>,
    pub body: Seq<u8>,
}

pub open spec fn headers_view(hs: Seq<Header>) -> Seq<(Seq<u8>, Seq<u8>)> {
    hs.map_values(|h: Header| h@)
}

impl View for SipMessage {
    type V = MessageView;

    open spec fn view(&self) -> MessageView {
        MessageView {
            line: self.line@,
            headers: headers_view(self.headers@),
            body: bytes_view(self.body),
        }
    }
}

/// What a complete datagram, or the front of a stream, holds.
pub enum CompleteItem {
    /// A double CRLF: the peer asks for a keep-alive answer.
    KeepAliveRequest,
    /// A single CRLF: the peer answers a keep-alive.
    KeepAliveResponse,
    /// The bytes of one STUN message.
    Stun(Vec<u8>),
    Sip(SipMessage),
}

pub enum ItemView {
    KeepAliveRequest,
    KeepAliveResponse,
    Stun(Seq<u8>),
    Sip(MessageView),
}

impl View for CompleteItem {
    type V = ItemView;

    open spec fn view(&self) -> ItemView {
        match self {
            CompleteItem::KeepAliveRequest => ItemView::KeepAliveRequest,
            CompleteItem::KeepAliveResponse => ItemView::KeepAliveResponse,
            CompleteItem::Stun(b) => ItemView::Stun(b@),
            CompleteItem::Sip(m) => ItemView::Sip(m@),
        }
    }
}

#[derive(Debug, Clone, Copy, PartialEq, Eq, Structural)]
pub enum ParseError {
    /// The input cannot be read as any message.
    FailedToParse,
}

pub open spec fn is_crlf_at(s: Seq<u8>, i: int) -> bool {
    0 <= i && i + 1 < s.len() && s[i] == CR && s[i + 1] == LF
}

/// The head terminator `CRLF CRLF` starts at `i`.
pub open spec fn is_term_at(s: Seq<u8>, i: int) -> bool {
    is_crlf_at(s, i) && is_crlf_at(s, i + 2)
}

/// The first head terminator at or after `i`.
pub open spec fn find_term_from(s: Seq<u8>, i: int) -> Option<int>
    decreases s.len() - i,
{
    if i < 0 || i + 4 > s.len() {
        None
    } else if is_term_at(s, i) {
        Some(i)
    } else {
        find_term_from(s, i + 1)
    }
}

/// The lines of `s[start..end]` split at each CRLF, scanning from `i`, where
/// the current line began at `start`.
pub open spec fn lines_scan(s: Seq<u8>, start: int, i: int, end: int) -> Seq<Seq<u8>>
    decreases end - i,
{
    if i + 2 > end {
        seq![s.subrange(start, end)]
    } else if is_crlf_at(s, i) {
        seq![s.subrange(start, i)] + lines_scan(s, i + 2, i + 2, end)
    } else {
        lines_scan(s, start, i + 1, end)
    }
}

pub open spec fn is_ws(b: u8) -> bool {
    b == 32 || b == 9
}

pub open spec fn colon_from(l: Seq<u8>, i: int) -> Option<int>
    decreases l.len() - i,
{
    if i < 0 || i >= l.len() {
        None
    } else if l[i] == 58 {
        Some(i)
    } else {
        colon_from(l, i + 1)
    }
}

pub open spec fn trim_end_ws(n: Seq<u8>) -> Seq<u8>
    decreases n.len(),
{
    if n.len() > 0 && is_ws(n.last()) {
        trim_end_ws(n.drop_last())
    } else {
        n
    }
}

pub open spec fn skip_ws(v: Seq<u8>) -> Seq<u8>
    decreases v.len(),
{
    if v.len() > 0 && is_ws(v[0]) {
        skip_ws(v.drop_first())
    } else {
        v
    }
}

/// A byte that may stand in a token (RFC 3261 section 25.1): letters,
/// digits and `-.!%*_+`'~`.
pub open spec fn is_token_char(b: u8) -> bool {
    (48 <= b <= 57) || (65 <= b <= 90) || (97 <= b <= 122) || b == 45 || b == 46 || b == 33 || b
        == 37 || b == 42 || b == 95 || b == 43 || b == 96 || b == 39 || b == 126
}

/// A non-empty run of token bytes.
pub open spec fn is_token(s: Seq<u8>) -> bool {
    s.len() > 0 && forall|i: int| 0 <= i < s.len() ==> is_token_char(#[trigger] s[i])
}

fn is_token_char_exec(b: u8) -> (r: bool)
    ensures
        r == is_token_char(b),
{
    (48 <= b && b <= 57) || (65 <= b && b <= 90) || (97 <= b && b <= 122) || b == 45 || b == 46
        || b == 33 || b == 37 || b == 42 || b == 95 || b == 43 || b == 96 || b == 39 || b == 126
}

/// Whether `l[a..b]` is a token.
fn is_token_range(l: &Vec<u8>, a: usize, b: usize) -> (r: bool)
    requires
        a <= b <= l@.len(),
    ensures
        r == is_token(l@.subrange(a as int, b as int)),
{
    if a == b {
        return false;
    }
    let mut i: usize = a;
    while i < b
        invariant
            a <= i <= b <= l@.len(),
            forall|j: int| a <= j < i ==> is_token_char(#[trigger] l@[j]),
        decreases b - i,
    {
        if !is_token_char_exec(l[i]) {
            assert(l@.subrange(a as int, b as int)[i - a] == l@[i as int]);
            return false;
        }
        i = i + 1;
    }
    assert forall|j: int| 0 <= j < b - a implies is_token_char(
        #[trigger] l@.subrange(a as int, b as int)[j],
    ) by {
        assert(l@.subrange(a as int, b as int)[j] == l@[a + j]);
    }
    true
}

/// A header line is `name ":" value`: the name, without trailing blanks,
/// must be a token; the value loses leading blanks.
pub open spec fn parse_header(l: Seq<u8>) -> Option<(Seq<u8>, Seq<u8>)> {
    match colon_from(l, 0) {
        None => None,
        Some(c) => {
            let name = trim_end_ws(l.subrange(0, c));
            if !is_token(name) {
                None
            } else {
                Some((name, skip_ws(l.subrange(c + 1, l.len() as int))))
            }
        },
    }
}

/// A line that begins with a blank continues the value of the field before
/// it (header folding).
pub open spec fn is_continuation(l: Seq<u8>) -> bool {
    l.len() > 0 && is_ws(l[0])
}

/// The value of a folded field: the folding becomes a single space.
pub open spec fn unfold(a: Seq<(Seq<u8>, Seq<u8>)>, l: Seq<u8>) -> Seq<(Seq<u8>, Seq<u8>)> {
    a.update(a.len() - 1, (a.last().0, a.last().1 + seq![32u8] + skip_ws(l)))
}

/// The header fields of the lines after the start line.
pub open spec fn parse_headers(ls: Seq<Seq<u8>>) -> Option<Seq<(Seq<u8>, Seq<u8>)>>
    decreases ls.len(),
{
    if ls.len() == 0 {
        Some(Seq::empty())
    } else if is_continuation(ls.last()) {
        match parse_headers(ls.drop_last()) {
            Some(a) => if a.len() > 0 {
                Some(unfold(a, ls.last()))
            } else {
                None
            },
            None => None,
        }
    } else {
        match (parse_headers(ls.drop_last()), parse_header(ls.last())) {
            (Some(a), Some(h)) => Some(a.push(h)),
            _ => None,
        }
    }
}

/// `SIP/2.0` stands at `k`.
pub open spec fn version_at(l: Seq<u8>, k: int) -> bool {
    0 <= k && k + 7 <= l.len() && l[k] == 83 && l[k + 1] == 73 && l[k + 2] == 80 && l[k + 3] == 47
        && l[k + 4] == 50 && l[k + 5] == 46 && l[k + 6] == 48
}

/// `SIP/2.0 SP 3DIGIT SP Reason-Phrase`.
pub open spec fn is_status_line(l: Seq<u8>) -> bool {
    &&& l.len() >= 12
    &&& version_at(l, 0)
    &&& l[7] == 32
    &&& is_digit(l[8]) && is_digit(l[9]) && is_digit(l[10])
    &&& l[11] == 32
}

/// The first space at or after `i`.
pub open spec fn space_from(l: Seq<u8>, i: int) -> Option<int>
    decreases l.len() - i,
{
    if i < 0 || i >= l.len() {
        None
    } else if l[i] == 32 {
        Some(i)
    } else {
        space_from(l, i + 1)
    }
}

/// `Method SP Request-URI SP SIP/2.0`: the method is a token, the URI is
/// not empty and holds no space.
pub open spec fn is_request_line(l: Seq<u8>) -> bool {
    match space_from(l, 0) {
        None => false,
        Some(a) => {
            let n = l.len() as int;
            &&& is_token(l.subrange(0, a))
            &&& n >= a + 10
            &&& l[n - 8] == 32
            &&& version_at(l, n - 7)
            &&& forall|j: int| a + 1 <= j < n - 8 ==> l[j] != 32
        },
    }
}

/// A Request-Line or a Status-Line (RFC 3261 section 7.1 and 7.2).
pub open spec fn valid_start_line(l: Seq<u8>) -> bool {
    is_request_line(l) || is_status_line(l)
}

fn find_head_term(s: &[u8]) -> (r: Option<usize>)
    ensures
        match r {
            Some(t) => find_term_from(s@, 0) == Some(t as int) && t + 4 <= s@.len(),
            None => find_term_from(s@, 0) is None,
        },
{
    let n = s.len();
    if n < 4 {
        return None;
    }
    let mut i: usize = 0;
    while i <= n - 4
        invariant
            n == s@.len(),
            n >= 4,
            find_term_from(s@, 0) == find_term_from(s@, i as int),
        decreases n - i,
    {
        if s[i] == CR && s[i + 1] == LF && s[i + 2] == CR && s[i + 3] == LF {
            return Some(i);
        }
        i = i + 1;
    }
    None
}

fn copy_range(s: &[u8], a: usize, b: usize) -> (r: Vec<u8>)
    requires
        a <= b <= s@.len(),
    ensures
        r@ == s@.subrange(a as int, b as int),
{
    let mut r: Vec<u8> = Vec::new();
    let mut i: usize = a;
    while i < b
        invariant
            a <= i <= b <= s@.len(),
            r@ == s@.subrange(a as int, i as int),
        decreases b - i,
    {
        r.push(s[i]);
        i = i + 1;
        assert(r@ =~= s@.subrange(a as int, i as int));
    }
    r
}

pub open spec fn lines_view(v: Seq<Vec<u8>>) -> Seq<Seq<u8>> {
    v.map_values(|x: Vec<u8>| x@)
}

/// The lines of `s[0..end]`.
fn split_lines(s: &[u8], end: usize) -> (r: Vec<Vec<u8>>)
    requires
        end <= s@.len(),
    ensures
        lines_view(r@) == lines_scan(s@, 0, 0, end as int),
        r@.len() >= 1,
{
    let mut r: Vec<Vec<u8>> = Vec::new();
    let mut start: usize = 0;
    let mut i: usize = 0;
    while end - i >= 2
        invariant
            end <= s@.len(),
            start <= i <= end,
            lines_scan(s@, 0, 0, end as int) == lines_view(r@) + lines_scan(
                s@,
                start as int,
                i as int,
                end as int,
            ),
        decreases end - i,
    {
        if s[i] == CR && s[i + 1] == LF {
            let line = copy_range(s, start, i);
            proof {
                let rest = lines_scan(s@, i + 2, i + 2, end as int);
                assert(lines_view(r@.push(line)) =~= lines_view(r@) + seq![line@]);
                assert(lines_view(r@) + (seq![line@] + rest) =~= lines_view(r@.push(line)) + rest);
            }
            r.push(line);
            i = i + 2;
            start = i;
        } else {
            i = i + 1;
        }
    }
    let last = copy_range(s, start, end);
    proof {
        assert(lines_view(r@.push(last)) =~= lines_view(r@) + seq![last@]);
    }
    r.push(last);
    r
}

fn version_at_exec(l: &Vec<u8>, k: usize) -> (r: bool)
    ensures
        r == version_at(l@, k as int),
{
    if l.len() < 7 || k > l.len() - 7 {
        return false;
    }
    l[k] == 83 && l[k + 1] == 73 && l[k + 2] == 80 && l[k + 3] == 47 && l[k + 4] == 50 && l[k + 5]
        == 46 && l[k + 6] == 48
}

fn valid_start_line_exec(l: &Vec<u8>) -> (r: bool)
    ensures
        r == valid_start_line(l@),
{
    let n = l.len();
    let status = n >= 12 && version_at_exec(l, 0) && l[7] == 32 && 48 <= l[8] && l[8] <= 57 && 48
        <= l[9] && l[9] <= 57 && 48 <= l[10] && l[10] <= 57 && l[11] == 32;
    if status {
        return true;
    }
    let mut a: usize = 0;
    while a < n && l[a] != 32
        invariant
            n == l@.len(),
            a <= n,
            space_from(l@, 0) == space_from(l@, a as int),
        decreases n - a,
    {
        a = a + 1;
    }
    if a == n {
        return false;
    }
    assert(space_from(l@, 0) == Some(a as int));
    if !is_token_range(l, 0, a) || n - a < 10 || l[n - 8] != 32 || !version_at_exec(l, n - 7) {
        return false;
    }
    let mut j: usize = a + 1;
    while j < n - 8
        invariant
            n == l@.len(),
            a + 10 <= n,
            a + 1 <= j <= n - 8,
            space_from(l@, 0) == Some(a as int),
            !is_status_line(l@),
            forall|k: int| a + 1 <= k < j ==> l@[k] != 32,
        decreases n - 8 - j,
    {
        if l[j] == 32 {
            return false;
        }
        j = j + 1;
    }
    true
}

fn parse_header_line(l: &Vec<u8>) -> (r: Option<Header>)
    ensures
        match r {
            Some(h) => parse_header(l@) == Some(h@),
            None => parse_header(l@) is None,
        },
{
    let n = l.len();
    let mut c: usize = 0;
    while c < n && l[c] != 58
        invariant
            n == l@.len(),
            c <= n,
            colon_from(l@, 0) == colon_from(l@, c as int),
        decreases n - c,
    {
        c = c + 1;
    }
    if c == n {
        return None;
    }
    let mut e: usize = c;
    while e > 0 && (l[e - 1] == 32 || l[e - 1] == 9)
        invariant
            e <= c < n == l@.len(),
            trim_end_ws(l@.subrange(0, c as int)) == trim_end_ws(l@.subrange(0, e as int)),
        decreases e,
    {
        assert(l@.subrange(0, e as int).drop_last() =~= l@.subrange(0, e - 1));
        e = e - 1;
    }
    assert(trim_end_ws(l@.subrange(0, e as int)) == l@.subrange(0, e as int));
    if !is_token_range(l, 0, e) {
        return None;
    }
    let mut v: usize = c + 1;
    while v < n && (l[v] == 32 || l[v] == 9)
        invariant
            c < v <= n == l@.len(),
            skip_ws(l@.subrange(c + 1, n as int)) == skip_ws(l@.subrange(v as int, n as int)),
        decreases n - v,
    {
        assert(l@.subrange(v as int, n as int).drop_first() =~= l@.subrange(v + 1, n as int));
        v = v + 1;
    }
    assert(skip_ws(l@.subrange(v as int, n as int)) == l@.subrange(v as int, n as int));
    let name = copy_range(l.as_slice(), 0, e);
    let value = copy_range(l.as_slice(), v, n);
    Some(Header { name, value })
}

pub open spec fn lower(b: u8) -> u8 {
    if 65 <= b <= 90 {
        (b + 32) as u8
    } else {
        b
    }
}

pub fn lower_exec(b: u8) -> (r: u8)
    ensures
        r == lower(b),
{
    if 65 <= b && b <= 90 {
        b + 32
    } else {
        b
    }
}

/// `Content-Length`, or its compact form `l`, in any case.
pub open spec fn is_content_length_name(n: Seq<u8>) -> bool {
    (n.len() == 1 && lower(n[0]) == 108) || (n.len() == 14 && lower(n[0]) == 99 && lower(n[1]) == 111 && lower(n[2]) == 110 && lower(n[3]) == 116 && lower(n[4]) == 101 && lower(n[5]) == 110 && lower(n[6]) == 116 && lower(n[7]) == 45 && lower(n[8]) == 108 && lower(n[9]) == 101 && lower(n[10]) == 110 && lower(n[11]) == 103 && lower(n[12]) == 116 && lower(n[13]) == 104)
}

fn is_content_length_name_exec(n: &Vec<u8>) -> (r: bool)
    ensures
        r == is_content_length_name(n@),
{
    (n.len() == 1 && lower_exec(n[0]) == 108) || (n.len() == 14 && lower_exec(n[0]) == 99 && lower_exec(n[1]) == 111 && lower_exec(n[2]) == 110 && lower_exec(n[3]) == 116 && lower_exec(n[4]) == 101 && lower_exec(n[5]) == 110 && lower_exec(n[6]) == 116 && lower_exec(n[7]) == 45 && lower_exec(n[8]) == 108 && lower_exec(n[9]) == 101 && lower_exec(n[10]) == 110 && lower_exec(n[11]) == 103 && lower_exec(n[12]) == 116 && lower_exec(n[13]) == 104)
}

pub open spec fn is_digit(b: u8) -> bool {
    48 <= b <= 57
}

/// A non-empty run of decimal digits.
pub open spec fn is_decimal(v: Seq<u8>) -> bool {
    v.len() > 0 && forall|i: int| 0 <= i < v.len() ==> is_digit(#[trigger] v[i])
}

/// The number that a run of decimal digits writes.
pub open spec fn decimal_value(v: Seq<u8>) -> nat
    decreases v.len(),
{
    if v.len() == 0 {
        0
    } else {
        decimal_value(v.drop_last()) * 10 + (v.last() - 48) as nat
    }
}

/// The body length that the first `Content-Length` field gives, if that field
/// holds a number; `None` where there is no such field or it holds something else.
pub open spec fn content_length(hs: Seq<(Seq<u8>, Seq<u8>)>) -> Option<nat>
    decreases hs.len(),
{
    if hs.len() == 0 {
        None
    } else if is_content_length_name(hs[0].0) {
        if is_decimal(hs[0].1) {
            Some(decimal_value(hs[0].1))
        } else {
            None
        }
    } else {
        content_length(hs.drop_first())
    }
}

/// Reads a run of digits, saturating at `cap + 1`.
fn decimal_capped(v: &Vec<u8>, cap: usize) -> (r: Option<usize>)
    requires
        cap < usize::MAX,
    ensures
        match r {
            Some(k) => is_decimal(v@) && (if decimal_value(v@) <= cap {
                k == decimal_value(v@)
            } else {
                k == cap + 1
            }),
            None => !is_decimal(v@),
        },
{
    if v.len() == 0 {
        return None;
    }
    let mut acc: usize = 0;
    let mut i: usize = 0;
    while i < v.len()
        invariant
            i <= v@.len(),
            cap < usize::MAX,
            forall|j: int| 0 <= j < i ==> is_digit(#[trigger] v@[j]),
            if decimal_value(v@.subrange(0, i as int)) <= cap {
                acc == decimal_value(v@.subrange(0, i as int))
            } else {
                acc == cap + 1
            },
        decreases v@.len() - i,
    {
        let d = v[i];
        if d < 48 || d > 57 {
            return None;
        }
        let ghost prev = decimal_value(v@.subrange(0, i as int));
        assert(v@.subrange(0, i + 1).drop_last() =~= v@.subrange(0, i as int));
        assert(decimal_value(v@.subrange(0, i + 1)) == prev * 10 + (d - 48) as nat);
        if acc <= cap {
            match acc.checked_mul(10) {
                Some(m) => match m.checked_add((d - 48) as usize) {
                    Some(k) => {
                        if k <= cap {
                            acc = k;
                        } else {
                            acc = cap + 1;
                        }
                    },
                    None => {
                        acc = cap + 1;
                    },
                },
                None => {
                    acc = cap + 1;
                },
            }
        }
        i = i + 1;
    }
    assert(v@.subrange(0, v@.len() as int) =~= v@);
    Some(acc)
}

fn find_content_length(hs: &Vec<Header>, cap: usize) -> (r: Option<usize>)
    requires
        cap < usize::MAX,
    ensures
        match r {
            Some(k) => content_length(headers_view(hs@)) is Some && (if content_length(
                headers_view(hs@),
            )->0 <= cap {
                k == content_length(headers_view(hs@))->0
            } else {
                k == cap + 1
            }),
            None => content_length(headers_view(hs@)) is None,
        },
{
    let ghost all = headers_view(hs@);
    assert(all.subrange(0, all.len() as int) =~= all);
    let mut i: usize = 0;
    while i < hs.len()
        invariant
            i <= hs@.len(),
            cap < usize::MAX,
            all == headers_view(hs@),
            content_length(all) == content_length(all.subrange(i as int, all.len() as int)),
        decreases hs@.len() - i,
    {
        let ghost rest = all.subrange(i as int, all.len() as int);
        assert(rest[0] == hs@[i as int]@);
        if is_content_length_name_exec(&hs[i].name) {
            return decimal_capped(&hs[i].value, cap);
        }
        assert(rest.drop_first() =~= all.subrange(i + 1, all.len() as int));
        i = i + 1;
    }
    None
}

/// Where the leading blanks of `l` end.
fn skip_ws_start(l: &Vec<u8>) -> (r: usize)
    ensures
        r <= l@.len(),
        skip_ws(l@) == l@.subrange(r as int, l@.len() as int),
{
    let n = l.len();
    let mut v: usize = 0;
    assert(l@.subrange(0, n as int) =~= l@);
    while v < n && (l[v] == 32 || l[v] == 9)
        invariant
            v <= n == l@.len(),
            skip_ws(l@) == skip_ws(l@.subrange(v as int, n as int)),
        decreases n - v,
    {
        assert(l@.subrange(v as int, n as int).drop_first() =~= l@.subrange(v + 1, n as int));
        v = v + 1;
    }
    v
}

fn extend_range(out: &mut Vec<u8>, s: &[u8], a: usize, b: usize)
    requires
        a <= b <= s@.len(),
    ensures
        final(out)@ == old(out)@ + s@.subrange(a as int, b as int),
{
    let mut i: usize = a;
    while i < b
        invariant
            a <= i <= b <= s@.len(),
            out@ == old(out)@ + s@.subrange(a as int, i as int),
        decreases b - i,
    {
        out.push(s[i]);
        i = i + 1;
        assert(out@ =~= old(out)@ + s@.subrange(a as int, i as int));
    }
}

fn parse_header_lines(ls: &Vec<Vec<u8>>) -> (r: Option<Vec<Header>>)
    requires
        ls@.len() >= 1,
    ensures
        match r {
            Some(hs) => parse_headers(lines_view(ls@).drop_first()) == Some(headers_view(hs@)),
            None => parse_headers(lines_view(ls@).drop_first()) is None,
        },
{
    let ghost all = lines_view(ls@);
    let mut hs: Vec<Header> = Vec::new();
    let mut i: usize = 1;
    while i < ls.len()
        invariant
            1 <= i <= ls@.len(),
            all == lines_view(ls@),
            parse_headers(all.subrange(1, i as int)) == Some(headers_view(hs@)),
        decreases ls@.len() - i,
    {
        assert(all.subrange(1, i + 1).drop_last() =~= all.subrange(1, i as int));
        assert(all.subrange(1, i + 1).last() == ls@[i as int]@);
        if ls[i].len() > 0 && (ls[i][0] == 32 || ls[i][0] == 9) {
            let ghost prev = headers_view(hs@);
            match hs.pop() {
                None => {
                    proof {
                        lemma_parse_headers_none(all, i as int);
                    }
                    return None;
                },
                Some(last) => {
                    let mut value = last.value;
                    value.push(32u8);
                    let v = skip_ws_start(&ls[i]);
                    extend_range(&mut value, ls[i].as_slice(), v, ls[i].len());
                    let ghost folded = value@;
                    assert(folded == last.value@ + seq![32u8] + skip_ws(ls@[i as int]@));
                    let ghost before_push = hs@;
                    hs.push(Header { name: last.name, value });
                    proof {
                        assert(prev.len() > 0);
                        assert(headers_view(before_push) =~= prev.drop_last());
                        assert(hs@ == before_push.push(hs@.last()));
                        assert(prev.last() == last@);
                        assert(headers_view(hs@) =~= unfold(prev, ls@[i as int]@));
                    }
                },
            }
            i = i + 1;
            continue;
        }
        match parse_header_line(&ls[i]) {
            Some(h) => {
                assert(headers_view(hs@.push(h)) =~= headers_view(hs@).push(h@));
                hs.push(h);
            },
            None => {
                proof {
                    lemma_parse_headers_none(all, i as int);
                }
                return None;
            },
        }
        i = i + 1;
    }
    assert(all.subrange(1, i as int) =~= all.drop_first());
    Some(hs)
}

proof fn lemma_parse_headers_none(all: Seq<Seq<u8>>, i: int)
    requires
        1 <= i < all.len(),
        parse_headers(all.subrange(1, i + 1)) is None,
    ensures
        parse_headers(all.drop_first()) is None,
    decreases all.len() - i,
{
    if i + 1 == all.len() {
        assert(all.subrange(1, i + 1) =~= all.drop_first());
    } else {
        assert(all.subrange(1, i + 2).drop_last() =~= all.subrange(1, i + 1));
        lemma_parse_headers_none(all, i + 1);
    }
}

/// Every line is UTF-8.
pub open spec fn all_utf8(ls: Seq<Seq<u8>>) -> bool {
    forall|i: int| 0 <= i < ls.len() ==> valid_utf8(#[trigger] ls[i])
}

/// Relies on `std::str::from_utf8`: `Ok` exactly when the bytes are
/// well-formed UTF-8.
#[verifier::external_body]
fn is_utf8(b: &[u8]) -> (r: bool)
    ensures
        r == valid_utf8(b@),
{
    std::str::from_utf8(b).is_ok()
}

/// The start line and the header fields of the head that ends at `t`.
/// Every line of the head must be UTF-8.
pub open spec fn parse_head(s: Seq<u8>, t: int) -> Option<(Seq<u8>, Seq<(Seq<u8>, Seq<u8>)>)> {
    let ls = lines_scan(s, 0, 0, t);
    if !valid_start_line(ls[0]) || !all_utf8(ls) {
        None
    } else {
        match parse_headers(ls.drop_first()) {
            None => None,
            Some(hs) => Some((ls[0], hs)),
        }
    }
}

/// A whole datagram read as a SIP message. Without a `Content-Length` the
/// body is the rest of the datagram; with one, exactly that many bytes must
/// follow the head, and any bytes after them are ignored.
pub open spec fn sip_datagram(s: Seq<u8>) -> Option<MessageView> {
    match find_term_from(s, 0) {
        None => None,
        Some(t) => match parse_head(s, t) {
            None => None,
            Some((line, hs)) => {
                let he = t + 4;
                match content_length(hs) {
                    Some(n) => if he + n <= s.len() {
                        Some(MessageView { line, headers: hs, body: s.subrange(he, he + n) })
                    } else {
                        None
                    },
                    None => Some(MessageView { line, headers: hs, body: s.subrange(he, s.len() as int) }),
                }
            },
        },
    }
}

/// The front of a stream read as a SIP message: `Ok(None)` while bytes are
/// missing, an error where the head is malformed or has no `Content-Length`,
/// else the message and the number of bytes it takes.
pub open spec fn sip_stream(s: Seq<u8>) -> Result<Option<(MessageView, int)>, ParseError> {
    match find_term_from(s, 0) {
        None => Ok(None),
        Some(t) => match parse_head(s, t) {
            None => Err(ParseError::FailedToParse),
            Some((line, hs)) => {
                let he = t + 4;
                match content_length(hs) {
                    Some(n) => if he + n <= s.len() {
                        Ok(Some((MessageView { line, headers: hs, body: s.subrange(he, he + n) }, he + n)))
                    } else {
                        Ok(None)
                    },
                    None => Err(ParseError::FailedToParse),
                }
            },
        },
    }
}

/// What the front of some bytes says of STUN.
#[derive(Debug, Clone, Copy, PartialEq, Eq, Structural)]
pub enum StunCheck {
    /// Fewer bytes than a STUN header.
    TooShort,
    /// A STUN header whose message is not all there.
    Incomplete,
    /// A STUN message of this many bytes.
    Complete(usize),
    /// Not STUN.
    NotStun,
}

/// A first byte with either of its two top bits set starts no STUN message,
/// however few bytes there are. A STUN header is 20 bytes: the two top bits
/// of the first are zero, bytes
/// 2 and 3 give the length of the attributes after the header, and bytes 4
/// to 7 hold the magic cookie `0x2112A442`.
pub open spec fn stun_check(s: Seq<u8>) -> StunCheck {
    if s.len() > 0 && s[0] >= 64 {
        StunCheck::NotStun
    } else if s.len() < 20 {
        StunCheck::TooShort
    } else if !(s[4] == 0x21 && s[5] == 0x12 && s[6] == 0xA4 && s[7] == 0x42) {
        StunCheck::NotStun
    } else if s.len() < s[2] * 256 + s[3] + 20 {
        StunCheck::Incomplete
    } else {
        StunCheck::Complete((s[2] * 256 + s[3] + 20) as usize)
    }
}

pub fn is_stun_message(s: &[u8]) -> (r: StunCheck)
    ensures
        r == stun_check(s@),
{
    if s.len() > 0 && s[0] >= 64 {
        return StunCheck::NotStun;
    }
    if s.len() < 20 {
        return StunCheck::TooShort;
    }
    if !(s[4] == 0x21 && s[5] == 0x12 && s[6] == 0xA4 && s[7] == 0x42) {
        return StunCheck::NotStun;
    }
    let len: usize = (s[2] as usize) * 256 + (s[3] as usize) + 20;
    if s.len() < len {
        StunCheck::Incomplete
    } else {
        StunCheck::Complete(len)
    }
}

fn parse_head_exec(s: &[u8], t: usize) -> (r: Option<(Vec<u8>, Vec<Header>)>)
    requires
        t <= s@.len(),
    ensures
        match r {
            Some((l, hs)) => parse_head(s@, t as int) == Some((l@, headers_view(hs@))),
            None => parse_head(s@, t as int) is None,
        },
{
    let mut lines = split_lines(s, t);
    let hs = match parse_header_lines(&lines) {
        Some(hs) => hs,
        None => {
            return None;
        },
    };
    assert(lines_view(lines@)[0] == lines@[0]@);
    if !valid_start_line_exec(&lines[0]) {
        return None;
    }
    let mut i: usize = 0;
    while i < lines.len()
        invariant
            i <= lines@.len(),
            t <= s@.len(),
            lines_view(lines@) == lines_scan(s@, 0, 0, t as int),
            forall|j: int| 0 <= j < i ==> valid_utf8(#[trigger] lines_view(lines@)[j]),
        decreases lines@.len() - i,
    {
        if !is_utf8(lines[i].as_slice()) {
            assert(lines_view(lines@)[i as int] == lines@[i as int]@);
            return None;
        }
        assert(lines_view(lines@)[i as int] == lines@[i as int]@);
        i = i + 1;
    }
    let line = lines.swap_remove(0);
    Some((line, hs))
}

/// Frames a whole datagram as a SIP message.
pub fn parse_complete_sip(s: &[u8]) -> (r: Result<SipMessage, ParseError>)
    ensures
        match r {
            Ok(m) => sip_datagram(s@) == Some(m@) && bytes_view(m.buffer) == s@,
            Err(_) => sip_datagram(s@) is None,
        },
{
    let t = match find_head_term(s) {
        Some(t) => t,
        None => {
            return Err(ParseError::FailedToParse);
        },
    };
    let (line, headers) = match parse_head_exec(s, t) {
        Some(p) => p,
        None => {
            return Err(ParseError::FailedToParse);
        },
    };
    let n = s.len();
    assert(t + 4 <= n);
    let he = t + 4;
    let cap = n - he;
    let buffer = bytes_copy(s);
    let body = match find_content_length(&headers, cap) {
        Some(len) => {
            if len == 0 {
                let b = bytes_empty();
                assert(bytes_view(b) =~= s@.subrange(he as int, he as int));
                b
            } else if len <= cap {
                bytes_slice(&buffer, he, he + len)
            } else {
                return Err(ParseError::FailedToParse);
            }
        },
        None => bytes_slice(&buffer, he, n),
    };
    let m = SipMessage { line, headers, body, buffer };
    assert(m@ =~= sip_datagram(s@)->0);
    Ok(m)
}

/// Frames one complete datagram: a keep-alive, a STUN message or a SIP message.
pub fn parse_complete(s: &[u8]) -> (r: Result<CompleteItem, ParseError>)
    ensures
        match r {
            Ok(item) => complete_spec(s@) == Ok::<ItemView, ParseError>(item@),
            Err(e) => complete_spec(s@) == Err::<ItemView, ParseError>(e),
        },
{
    if s.len() == 4 && s[0] == CR && s[1] == LF && s[2] == CR && s[3] == LF {
        assert(s@ =~= seq![CR, LF, CR, LF]);
        return Ok(CompleteItem::KeepAliveRequest);
    }
    if s.len() == 2 && s[0] == CR && s[1] == LF {
        assert(s@ =~= seq![CR, LF]);
        return Ok(CompleteItem::KeepAliveResponse);
    }
    assert(s@ != seq![CR, LF, CR, LF] && s@ != seq![CR, LF]) by {
        if s@ == seq![CR, LF, CR, LF] {
            assert(s@[0] == CR && s@[1] == LF && s@[2] == CR && s@[3] == LF);
        }
        if s@ == seq![CR, LF] {
            assert(s@[0] == CR && s@[1] == LF);
        }
    }
    match is_stun_message(s) {
        StunCheck::TooShort | StunCheck::Incomplete => Err(ParseError::FailedToParse),
        StunCheck::Complete(len) => Ok(CompleteItem::Stun(copy_range(s, 0, len))),
        StunCheck::NotStun => match parse_complete_sip(s) {
            Ok(m) => Ok(CompleteItem::Sip(m)),
            Err(e) => Err(e),
        },
    }
}

/// A complete datagram: exactly `CRLF CRLF` is a keep-alive request, exactly
/// `CRLF` a keep-alive response; a STUN header must come with its whole
/// message; anything else must be a SIP message.
pub open spec fn complete_spec(s: Seq<u8>) -> Result<ItemView, ParseError> {
    if s == seq![CR, LF, CR, LF] {
        Ok(ItemView::KeepAliveRequest)
    } else if s == seq![CR, LF] {
        Ok(ItemView::KeepAliveResponse)
    } else {
        match stun_check(s) {
            StunCheck::TooShort | StunCheck::Incomplete => Err(ParseError::FailedToParse),
            StunCheck::Complete(len) => Ok(ItemView::Stun(s.subrange(0, len as int))),
            StunCheck::NotStun => match sip_datagram(s) {
                Some(m) => Ok(ItemView::Sip(m)),
                None => Err(ParseError::FailedToParse),
            },
        }
    }
}

/// What the decoder finds at the front of a stream buffer.
pub enum Decoded {
    /// More bytes are needed.
    Incomplete,
    /// An item, and the number of bytes it takes from the front.
    Item(CompleteItem, usize),
}

pub enum DecodedView {
    Incomplete,
    Item(ItemView, int),
}

impl View for Decoded {
    type V = DecodedView;

    open spec fn view(&self) -> DecodedView {
        match self {
            Decoded::Incomplete => DecodedView::Incomplete,
            Decoded::Item(item, n) => DecodedView::Item(item@, *n as int),
        }
    }
}

/// The front of a stream buffer: `CRLF CRLF` is a keep-alive request, a lone
/// `CRLF` a keep-alive response; then a STUN message once it is all there;
/// else a SIP message, which a stream must frame with `Content-Length`.
pub open spec fn decode_spec(s: Seq<u8>) -> Result<DecodedView, ParseError> {
    if is_term_at(s, 0) {
        Ok(DecodedView::Item(ItemView::KeepAliveRequest, 4))
    } else if is_crlf_at(s, 0) {
        Ok(DecodedView::Item(ItemView::KeepAliveResponse, 2))
    } else {
        match stun_check(s) {
            StunCheck::TooShort | StunCheck::Incomplete => Ok(DecodedView::Incomplete),
            StunCheck::Complete(len) => Ok(
                DecodedView::Item(ItemView::Stun(s.subrange(0, len as int)), len as int),
            ),
            StunCheck::NotStun => match sip_stream(s) {
                Err(e) => Err(e),
                Ok(None) => Ok(DecodedView::Incomplete),
                Ok(Some((m, n))) => Ok(DecodedView::Item(ItemView::Sip(m), n)),
            },
        }
    }
}

/// Decodes the next item at the front of a stream buffer.
pub fn decode_stream(s: &[u8]) -> (r: Result<Decoded, ParseError>)
    ensures
        match r {
            Ok(d) => decode_spec(s@) == Ok::<DecodedView, ParseError>(d@),
            Err(e) => decode_spec(s@) == Err::<DecodedView, ParseError>(e),
        },
{
    let n = s.len();
    if n >= 4 && s[0] == CR && s[1] == LF && s[2] == CR && s[3] == LF {
        return Ok(Decoded::Item(CompleteItem::KeepAliveRequest, 4));
    }
    if n >= 2 && s[0] == CR && s[1] == LF {
        return Ok(Decoded::Item(CompleteItem::KeepAliveResponse, 2));
    }
    match is_stun_message(s) {
        StunCheck::TooShort | StunCheck::Incomplete => {
            return Ok(Decoded::Incomplete);
        },
        StunCheck::Complete(len) => {
            return Ok(Decoded::Item(CompleteItem::Stun(copy_range(s, 0, len)), len));
        },
        StunCheck::NotStun => {},
    }
    let t = match find_head_term(s) {
        Some(t) => t,
        None => {
            return Ok(Decoded::Incomplete);
        },
    };
    let (line, headers) = match parse_head_exec(s, t) {
        Some(p) => p,
        None => {
            return Err(ParseError::FailedToParse);
        },
    };
    assert(t + 4 <= n);
    let he = t + 4;
    let cap = n - he;
    match find_content_length(&headers, cap) {
        Some(len) => {
            if len <= cap {
                let buffer = bytes_copy(s);
                let body = bytes_slice(&buffer, he, he + len);
                let m = SipMessage { line, headers, body, buffer };
                assert(m@ =~= (sip_stream(s@)->Ok_0->0).0);
                Ok(Decoded::Item(CompleteItem::Sip(m), he + len))
            } else {
                Ok(Decoded::Incomplete)
            }
        },
        None => Err(ParseError::FailedToParse),
    }
}

/// A message whose `Content-Length` is zero has an empty body, on a datagram
/// and on a stream.
pub proof fn lemma_zero_content_length(s: Seq<u8>)
    ensures
        sip_datagram(s) matches Some(m) ==> (content_length(m.headers) == Some(0nat)
            ==> m.body.len() == 0),
        sip_stream(s) matches Ok(Some((m, _))) ==> (content_length(m.headers) == Some(0nat)
            ==> m.body.len() == 0),
{
}

/// A datagram whose head has no `Content-Length` carries as body all the bytes
/// after the head.
pub proof fn lemma_datagram_body_is_tail(s: Seq<u8>, t: int)
    requires
        find_term_from(s, 0) == Some(t),
        parse_head(s, t) is Some,
        content_length((parse_head(s, t)->0).1) is None,
    ensures
        sip_datagram(s) == Some(
            MessageView {
                line: (parse_head(s, t)->0).0,
                headers: (parse_head(s, t)->0).1,
                body: s.subrange(t + 4, s.len() as int),
            },
        ),
{
}

/// On a stream, a complete head without `Content-Length` is an error: the
/// message cannot be framed.
pub proof fn lemma_stream_needs_content_length(s: Seq<u8>, t: int)
    requires
        stun_check(s) == StunCheck::NotStun,
        !is_crlf_at(s, 0),
        find_term_from(s, 0) == Some(t),
        parse_head(s, t) is Some,
        content_length((parse_head(s, t)->0).1) is None,
    ensures
        decode_spec(s) == Err::<DecodedView, ParseError>(ParseError::FailedToParse),
{
}

} // verus!
