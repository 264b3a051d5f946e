//! Writing a SIP message out as bytes, and the proof that framing those
//! bytes gives the message back.
use crate::framer::{
    colon_from, complete_spec, content_length, decode_spec, find_term_from, headers_view,
    bytes_as_slice, is_crlf_at, is_term_at, lines_scan, parse_head, parse_header, parse_headers, skip_ws,
    sip_datagram, sip_stream, stun_check, trim_end_ws, valid_start_line, is_token, is_token_char,
    is_continuation, all_utf8, DecodedView, ItemView,
    MessageView, ParseError, SipMessage, StunCheck, CR, LF,
};
use vstd::prelude::*;
use vstd::utf8::{valid_utf8, valid_utf8_concat, pop_first_scalar};

verus! {

/// `name ": " value`.
pub open spec fn header_bytes(h: (Seq<u8>, Seq<u8>)) -> Seq<u8> {
    h.0 + seq![58u8, 32u8] + h.1
}

/// Each line followed by CRLF.
pub open spec fn join_lines(ls: Seq<Seq<u8>>) -> Seq<u8>
    decreases ls.len(),
{
    if ls.len() == 0 {
        Seq::empty()
    } else {
        join_lines(ls.drop_last()) + ls.last() + seq![CR, LF]
    }
}

/// The lines of a message head: the start line, then one per header field.
pub open spec fn head_lines(m: MessageView) -> Seq<Seq<u8>> {
    seq![m.line] + m.headers.map_values(|h: (Seq<u8>, Seq<u8>)| header_bytes(h))
}

/// The head lines, the empty line, the body.
pub open spec fn serialize_spec(m: MessageView) -> Seq<u8> {
    join_lines(head_lines(m)) + seq![CR, LF] + m.body
}

pub open spec fn no_cr(s: Seq<u8>) -> bool {
    forall|i: int| 0 <= i < s.len() ==> #[trigger] s[i] != CR
}

/// A message that its bytes can stand for: no CR in a line; a Request-Line
/// or Status-Line that begins with a byte that no STUN header begins with;
/// header names that are tokens; values not starting with a blank; a `Content-Length`, where there is one,
/// equal to the body's length.
pub open spec fn well_formed(m: MessageView) -> bool {
    &&& no_cr(m.line)
    &&& valid_utf8(m.line)
    &&& valid_start_line(m.line)
    &&& m.line[0] >= 64
    &&& forall|i: int|
        0 <= i < m.headers.len() ==> {
            let (n, v) = #[trigger] m.headers[i];
            &&& is_token(n)
            &&& no_cr(v)
            &&& valid_utf8(v)
            &&& skip_ws(v) == v
        }
    &&& (content_length(m.headers) is None || content_length(m.headers) == Some(m.body.len()))
}

/// Writes a message out as bytes.
pub fn serialize(m: &SipMessage) -> (r: Vec<u8>)
    ensures
        r@ == serialize_spec(m@),
{
    let ghost ls = head_lines(m@);
    let mut out: Vec<u8> = Vec::new();
    append(&mut out, m.line.as_slice());
    out.push(CR);
    out.push(LF);
    proof {
        assert(seq![m.line@].drop_last() =~= Seq::<Seq<u8>>::empty());
        assert(join_lines(Seq::<Seq<u8>>::empty()) == Seq::<u8>::empty());
        assert(seq![m.line@].last() == m.line@);
        assert(out@ =~= Seq::<u8>::empty() + m.line@ + seq![CR, LF]);
        assert(seq![m.line@] + headers_view(m.headers@).subrange(0, 0).map_values(
            |h: (Seq<u8>, Seq<u8>)| header_bytes(h),
        ) =~= seq![m.line@]);
    }
    let mut i: usize = 0;
    while i < m.headers.len()
        invariant
            i <= m.headers@.len(),
            out@ == join_lines(
                seq![m.line@] + headers_view(m.headers@).subrange(0, i as int).map_values(
                    |h: (Seq<u8>, Seq<u8>)| header_bytes(h),
                ),
            ),
        decreases m.headers@.len() - i,
    {
        let ghost before = out@;
        append(&mut out, m.headers[i].name.as_slice());
        out.push(58u8);
        out.push(32u8);
        append(&mut out, m.headers[i].value.as_slice());
        out.push(CR);
        out.push(LF);
        proof {
            let hv = headers_view(m.headers@);
            let f = |h: (Seq<u8>, Seq<u8>)| header_bytes(h);
            let next = seq![m.line@] + hv.subrange(0, i + 1).map_values(f);
            assert(next.drop_last() =~= seq![m.line@] + hv.subrange(0, i as int).map_values(f));
            assert(next.last() == header_bytes(hv[i as int]));
            assert(out@ =~= join_lines(next));
        }
        i = i + 1;
    }
    out.push(CR);
    out.push(LF);
    append(&mut out, bytes_as_slice(&m.body));
    proof {
        assert(headers_view(m.headers@).subrange(0, i as int) =~= headers_view(m.headers@));
        assert(out@ =~= serialize_spec(m@));
    }
    out
}

fn append(out: &mut Vec<u8>, b: &[u8])
    ensures
        final(out)@ == old(out)@ + b@,
{
    let mut i: usize = 0;
    while i < b.len()
        invariant
            i <= b@.len(),
            out@ == old(out)@ + b@.subrange(0, i as int),
        decreases b@.len() - i,
    {
        out.push(b[i]);
        i = i + 1;
        assert(out@ =~= old(out)@ + b@.subrange(0, i as int));
    }
    assert(b@.subrange(0, i as int) =~= b@);
}

/// The lines of a head that its bytes can stand for.
pub open spec fn lines_ok(ls: Seq<Seq<u8>>) -> bool {
    forall|k: int| 0 <= k < ls.len() ==> (#[trigger] ls[k]).len() > 0 && no_cr(ls[k])
}

proof fn lemma_join_front(ls: Seq<Seq<u8>>)
    requires
        ls.len() > 0,
    ensures
        join_lines(ls) == ls[0] + seq![CR, LF] + join_lines(ls.drop_first()),
    decreases ls.len(),
{
    if ls.len() == 1 {
        assert(ls.drop_last() =~= Seq::<Seq<u8>>::empty());
        assert(ls.drop_first() =~= Seq::<Seq<u8>>::empty());
        assert(join_lines(ls.drop_last()) == Seq::<u8>::empty());
        assert(join_lines(ls.drop_first()) == Seq::<u8>::empty());
        assert(ls.last() == ls[0]);
        assert(join_lines(ls) =~= ls[0] + seq![CR, LF] + Seq::<u8>::empty());
    } else {
        lemma_join_front(ls.drop_last());
        assert(ls.drop_last().drop_first() =~= ls.drop_first().drop_last());
        assert(ls.drop_first().last() == ls.last());
        assert(join_lines(ls) =~= ls[0] + seq![CR, LF] + join_lines(ls.drop_first()));
    }
}

proof fn lemma_join_len(ls: Seq<Seq<u8>>)
    requires
        ls.len() > 0,
        lines_ok(ls),
    ensures
        join_lines(ls).len() >= 3,
{
    lemma_join_front(ls);
    assert(ls[0].len() > 0);
}

/// Scanning for the head terminator passes over a line's bytes and its CRLF
/// when a non-empty line follows.
proof fn lemma_find_skip(s: Seq<u8>, i: int, b: int)
    requires
        0 <= i <= b,
        forall|j: int| i <= j < b ==> s[j] != CR,
        b + 2 < s.len(),
        s[b + 1] == LF,
        s[b + 2] != CR,
    ensures
        find_term_from(s, i) == find_term_from(s, b + 2),
    decreases b - i + 2,
{
    if i < b {
        assert(!is_term_at(s, i));
        lemma_find_skip(s, i + 1, b);
    } else {
        assert(!is_term_at(s, b));
        assert(!is_term_at(s, b + 1));
        assert(find_term_from(s, b) == find_term_from(s, b + 1));
    }
}

proof fn lemma_find_last(s: Seq<u8>, i: int, b: int)
    requires
        0 <= i <= b,
        forall|j: int| i <= j < b ==> s[j] != CR,
        b + 4 <= s.len(),
        is_term_at(s, b),
    ensures
        find_term_from(s, i) == Some(b),
    decreases b - i,
{
    if i < b {
        assert(!is_term_at(s, i));
        lemma_find_last(s, i + 1, b);
    }
}

proof fn lemma_scan_mid(s: Seq<u8>, a: int, i: int, b: int, t: int)
    requires
        a <= i <= b,
        0 <= a,
        forall|j: int| i <= j < b ==> s[j] != CR,
        is_crlf_at(s, b),
        b + 2 <= t,
    ensures
        lines_scan(s, a, i, t) == seq![s.subrange(a, b)] + lines_scan(s, b + 2, b + 2, t),
    decreases b - i,
{
    if i < b {
        assert(!is_crlf_at(s, i));
        lemma_scan_mid(s, a, i + 1, b, t);
    }
}

proof fn lemma_scan_last(s: Seq<u8>, a: int, i: int, t: int)
    requires
        a <= i <= t,
        0 <= a,
        forall|j: int| i <= j < t ==> s[j] != CR,
    ensures
        lines_scan(s, a, i, t) == seq![s.subrange(a, t)],
    decreases t - i,
{
    if i + 2 <= t {
        assert(!is_crlf_at(s, i));
        lemma_scan_last(s, a, i + 1, t);
    }
}

/// Where the joined lines and one more CRLF stand at `a` in `s`, the first
/// head terminator from `a` closes the last line, and the lines up to it are
/// the lines.
proof fn lemma_head(s: Seq<u8>, a: int, ls: Seq<Seq<u8>>)
    requires
        0 <= a,
        ls.len() > 0,
        lines_ok(ls),
        a + join_lines(ls).len() + 2 <= s.len(),
        s.subrange(a, a + join_lines(ls).len() + 2) == join_lines(ls) + seq![CR, LF],
    ensures
        find_term_from(s, a) == Some(a + join_lines(ls).len() - 2),
        lines_scan(s, a, a, a + join_lines(ls).len() - 2) == ls,
    decreases ls.len(),
{
    lemma_join_front(ls);
    let l = ls[0];
    let rest = ls.drop_first();
    let b = a + l.len();
    let n = join_lines(ls).len();
    let w = join_lines(ls) + seq![CR, LF];
    assert(ls[0].len() > 0 && no_cr(ls[0]));
    assert forall|j: int| a <= j < b implies s[j] != CR by {
        assert(s[j] == s.subrange(a, a + n + 2)[j - a]);
        assert(w[j - a] == l[j - a]);
    }
    assert(s[b] == w[l.len() as int]);
    assert(s[b + 1] == w[l.len() + 1int]);
    assert(s[b] == CR && s[b + 1] == LF);
    if ls.len() == 1 {
        assert(rest =~= Seq::<Seq<u8>>::empty());
        assert(n == l.len() + 2);
        assert(s[b + 2] == w[l.len() + 2int]);
        assert(s[b + 3] == w[l.len() + 3int]);
        lemma_find_last(s, a, b);
        lemma_scan_last(s, a, a, b);
    } else {
        assert(lines_ok(rest)) by {
            assert forall|k: int| 0 <= k < rest.len() implies (#[trigger] rest[k]).len() > 0
                && no_cr(rest[k]) by {
                assert(rest[k] == ls[k + 1]);
            }
        }
        lemma_join_len(rest);
        let m = join_lines(rest).len();
        assert(rest[0] == ls[1]);
        assert(ls[1].len() > 0 && no_cr(ls[1]));
        lemma_join_front(rest);
        assert(s[b + 2] == w[l.len() + 2int]);
        assert(w[l.len() + 2int] == join_lines(rest)[0]);
        assert(join_lines(rest)[0] == rest[0][0]);
        assert(s.subrange(b + 2, b + 2 + m + 2) =~= join_lines(rest) + seq![CR, LF]) by {
            assert forall|j: int| 0 <= j < m + 2 implies #[trigger] s.subrange(b + 2, b + 2 + m + 2)[j]
                == (join_lines(rest) + seq![CR, LF])[j] by {
                assert(s[b + 2 + j] == s.subrange(a, a + n + 2)[l.len() + 2 + j]);
            }
        }
        lemma_head(s, b + 2, rest);
        lemma_find_skip(s, a, b);
        lemma_scan_mid(s, a, a, b, a + n - 2);
    }
    assert(s.subrange(a, b) =~= l);
    assert(seq![l] + rest =~= ls);
}

proof fn lemma_header_round_trip(h: (Seq<u8>, Seq<u8>))
    requires
        is_token(h.0),
        skip_ws(h.1) == h.1,
    ensures
        parse_header(header_bytes(h)) == Some(h),
        !is_continuation(header_bytes(h)),
{
    assert(is_token_char(h.0[h.0.len() - 1]));
    assert(h.0.drop_last().len() < h.0.len());
    assert(trim_end_ws(h.0) == h.0);
    assert(header_bytes(h)[0] == h.0[0]);
    assert(is_token_char(h.0[0]));
    let x = header_bytes(h);
    let n = h.0.len() as int;
    assert forall|i: int| 0 <= i <= n implies colon_from(x, i) == Some(n) by {
        lemma_colon(x, i, n);
    }
    assert(x.subrange(0, n) =~= h.0);
    let tail = x.subrange(n + 1, x.len() as int);
    assert(tail.drop_first() =~= h.1);
    assert(tail[0] == 32);
}

proof fn lemma_colon(x: Seq<u8>, i: int, n: int)
    requires
        0 <= i <= n < x.len(),
        x[n] == 58,
        forall|j: int| i <= j < n ==> x[j] != 58,
    ensures
        colon_from(x, i) == Some(n),
    decreases n - i,
{
    if i < n {
        lemma_colon(x, i + 1, n);
    }
}

proof fn lemma_headers_round_trip(hs: Seq<(Seq<u8>, Seq<u8>)>)
    requires
        forall|i: int|
            0 <= i < hs.len() ==> {
                let (n, v) = #[trigger] hs[i];
                &&& is_token(n)
                &&& skip_ws(v) == v
            },
    ensures
        parse_headers(hs.map_values(|h: (Seq<u8>, Seq<u8>)| header_bytes(h))) == Some(hs),
    decreases hs.len(),
{
    let f = |h: (Seq<u8>, Seq<u8>)| header_bytes(h);
    let ls = hs.map_values(f);
    if hs.len() == 0 {
        assert(hs =~= Seq::<(Seq<u8>, Seq<u8>)>::empty());
    } else {
        let p = hs.drop_last();
        assert forall|i: int| 0 <= i < p.len() implies {
            let (n, v) = #[trigger] p[i];
            &&& is_token(n)
            &&& skip_ws(v) == v
        } by {
            assert(p[i] == hs[i]);
        }
        lemma_headers_round_trip(p);
        assert(ls.drop_last() =~= p.map_values(f));
        let last = hs[hs.len() - 1];
        assert(last == hs.last());
        lemma_header_round_trip(last);
        assert(p.push(last) =~= hs);
    }
}

/// Framing the bytes of a message as a datagram gives the message back.
pub proof fn lemma_datagram_round_trip(m: MessageView)
    requires
        well_formed(m),
    ensures
        complete_spec(serialize_spec(m)) == Ok::<ItemView, ParseError>(ItemView::Sip(m)),
{
    lemma_serialized_head(m);
}

/// Framing the bytes of a message that carries its `Content-Length` from the
/// front of a stream gives the message back, and takes exactly its bytes.
pub proof fn lemma_stream_round_trip(m: MessageView)
    requires
        well_formed(m),
        content_length(m.headers) == Some(m.body.len()),
    ensures
        decode_spec(serialize_spec(m)) == Ok::<DecodedView, ParseError>(
            DecodedView::Item(ItemView::Sip(m), serialize_spec(m).len() as int),
        ),
{
    lemma_serialized_head(m);
}

proof fn lemma_ascii_utf8(s: Seq<u8>)
    requires
        forall|i: int| 0 <= i < s.len() ==> #[trigger] s[i] < 128,
    ensures
        valid_utf8(s),
    decreases s.len(),
{
    if s.len() > 0 {
        let b = s[0];
        assert(b < 128);
        assert((b & 0x7Fu8) == b) by (bit_vector)
            requires
                b < 128u8,
        ;
        let rest = pop_first_scalar(s);
        assert(rest =~= s.subrange(1, s.len() as int));
        assert forall|i: int| 0 <= i < rest.len() implies #[trigger] rest[i] < 128 by {
            assert(rest[i] == s[i + 1]);
        }
        lemma_ascii_utf8(rest);
    }
}

proof fn lemma_header_utf8(h: (Seq<u8>, Seq<u8>))
    requires
        is_token(h.0),
        valid_utf8(h.1),
    ensures
        valid_utf8(header_bytes(h)),
{
    let a = h.0 + seq![58u8, 32u8];
    assert forall|i: int| 0 <= i < a.len() implies #[trigger] a[i] < 128 by {
        if i < h.0.len() {
            assert(a[i] == h.0[i]);
            assert(is_token_char(h.0[i]));
        }
    }
    lemma_ascii_utf8(a);
    valid_utf8_concat(a, h.1);
}

proof fn lemma_serialized_head(m: MessageView)
    requires
        well_formed(m),
    ensures
        ({
            let s = serialize_spec(m);
            let t = join_lines(head_lines(m)).len() - 2;
            &&& find_term_from(s, 0) == Some(t)
            &&& parse_head(s, t) == Some((m.line, m.headers))
            &&& stun_check(s) == StunCheck::NotStun
            &&& !is_crlf_at(s, 0)
            &&& !is_term_at(s, 0)
            &&& s != seq![CR, LF, CR, LF]
            &&& s != seq![CR, LF]
            &&& sip_datagram(s) == Some(m)
            &&& (content_length(m.headers) == Some(m.body.len()) ==> sip_stream(s) == Ok::<
                Option<(MessageView, int)>,
                ParseError,
            >(Some((m, s.len() as int))))
        }),
{
    let s = serialize_spec(m);
    let ls = head_lines(m);
    let f = |h: (Seq<u8>, Seq<u8>)| header_bytes(h);
    let j = join_lines(ls);
    assert(ls[0] == m.line);
    assert(m.line.len() > 0);
    assert(lines_ok(ls)) by {
        assert forall|k: int| 0 <= k < ls.len() implies (#[trigger] ls[k]).len() > 0 && no_cr(
            ls[k],
        ) by {
            if k > 0 {
                let h = m.headers[k - 1];
                assert(ls[k] == header_bytes(h));
                let x = header_bytes(h);
                assert forall|i: int| 0 <= i < x.len() implies #[trigger] x[i] != CR by {
                    if i < h.0.len() {
                        assert(x[i] == h.0[i]);
                    } else if i >= h.0.len() + 2 {
                        assert(x[i] == h.1[i - h.0.len() - 2]);
                    }
                }
            }
        }
    }
    lemma_join_len(ls);
    assert(s.subrange(0, j.len() + 2int) =~= j + seq![CR, LF]);
    lemma_head(s, 0, ls);
    assert(all_utf8(ls)) by {
        assert forall|k: int| 0 <= k < ls.len() implies valid_utf8(#[trigger] ls[k]) by {
            if k > 0 {
                let h = m.headers[k - 1];
                assert(ls[k] == header_bytes(h));
                lemma_header_utf8(h);
            }
        }
    }
    lemma_join_front(ls);
    assert(s[0] == m.line[0]);
    lemma_headers_round_trip(m.headers);
    assert(ls.drop_first() =~= m.headers.map_values(f));
    assert(s.subrange(j.len() + 2int, s.len() as int) =~= m.body);
    if s == seq![CR, LF, CR, LF] {
        assert(s[0] == CR);
    }
    if s == seq![CR, LF] {
        assert(s[0] == CR);
    }
}

} // verus!
