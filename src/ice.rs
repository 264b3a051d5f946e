//! ICE attributes carried in STUN messages: `PRIORITY`, `USE-CANDIDATE`,
//! `ICE-CONTROLLED` and `ICE-CONTROLLING`.
//!
//! Values are written in network byte order. Each attribute decodes from the
//! value bytes of its TLV and encodes by appending its value to a buffer.
use vstd::prelude::*;

verus! {

/// Why an attribute value could not be decoded.
#[derive(Debug, Clone, Copy, PartialEq, Eq, Structural)]
pub enum AttrError {
    /// The value has the wrong length for the attribute.
    InvalidData,
}

/// The four bytes of `x`, most significant first.
pub open spec fn be_bytes_u32(x: u32) -> Seq<u8> {
    seq![(x >> 24u32) as u8, (x >> 16u32) as u8, (x >> 8u32) as u8, x as u8]
}

/// The integer that four bytes hold, most significant first.
pub open spec fn be_value_u32(s: Seq<u8>) -> u32
    recommends
        s.len() == 4,
{
    ((s[0] as u32) << 24u32) | ((s[1] as u32) << 16u32) | ((s[2] as u32) << 8u32) | (s[3] as u32)
}

/// The eight bytes of `x`, most significant first.
pub open spec fn be_bytes_u64(x: u64) -> Seq<u8> {
    seq![
        (x >> 56u64) as u8,
        (x >> 48u64) as u8,
        (x >> 40u64) as u8,
        (x >> 32u64) as u8,
        (x >> 24u64) as u8,
        (x >> 16u64) as u8,
        (x >> 8u64) as u8,
        x as u8,
    ]
}

/// The integer that eight bytes hold, most significant first.
pub open spec fn be_value_u64(s: Seq<u8>) -> u64
    recommends
        s.len() == 8,
{
    ((s[0] as u64) << 56u64) | ((s[1] as u64) << 48u64) | ((s[2] as u64) << 40u64) | ((s[3] as u64)
        << 32u64) | ((s[4] as u64) << 24u64) | ((s[5] as u64) << 16u64) | ((s[6] as u64) << 8u64)
        | (s[7] as u64)
}

fn read_be_u32(v: &[u8]) -> (r: u32)
    requires
        v@.len() == 4,
    ensures
        r == be_value_u32(v@),
{
    ((v[0] as u32) << 24u32) | ((v[1] as u32) << 16u32) | ((v[2] as u32) << 8u32) | (v[3] as u32)
}

fn read_be_u64(v: &[u8]) -> (r: u64)
    requires
        v@.len() == 8,
    ensures
        r == be_value_u64(v@),
{
    ((v[0] as u64) << 56u64) | ((v[1] as u64) << 48u64) | ((v[2] as u64) << 40u64) | ((v[3] as u64)
        << 32u64) | ((v[4] as u64) << 24u64) | ((v[5] as u64) << 16u64) | ((v[6] as u64) << 8u64)
        | (v[7] as u64)
}

fn put_be_u32(buf: &mut Vec<u8>, x: u32)
    ensures
        final(buf)@ == old(buf)@ + be_bytes_u32(x),
{
    buf.push((x >> 24u32) as u8);
    buf.push((x >> 16u32) as u8);
    buf.push((x >> 8u32) as u8);
    buf.push(x as u8);
    assert(final(buf)@ =~= old(buf)@ + be_bytes_u32(x));
}

fn put_be_u64(buf: &mut Vec<u8>, x: u64)
    ensures
        final(buf)@ == old(buf)@ + be_bytes_u64(x),
{
    buf.push((x >> 56u64) as u8);
    buf.push((x >> 48u64) as u8);
    buf.push((x >> 40u64) as u8);
    buf.push((x >> 32u64) as u8);
    buf.push((x >> 24u64) as u8);
    buf.push((x >> 16u64) as u8);
    buf.push((x >> 8u64) as u8);
    buf.push(x as u8);
    assert(final(buf)@ =~= old(buf)@ + be_bytes_u64(x));
}

/// Reading back the four bytes written for `x` gives `x`.
pub proof fn lemma_be_u32_round_trip(x: u32)
    ensures
        be_value_u32(be_bytes_u32(x)) == x,
{
    let b = be_bytes_u32(x);
    let (b0, b1, b2, b3) = (b[0], b[1], b[2], b[3]);
    assert(b0 == (x >> 24u32) as u8 && b1 == (x >> 16u32) as u8 && b2 == (x >> 8u32) as u8 && b3
        == x as u8);
    assert(b0 == (x >> 24u32) as u8 && b1 == (x >> 16u32) as u8 && b2 == (x >> 8u32) as u8 && b3
        == x as u8 ==> ((b0 as u32) << 24u32) | ((b1 as u32) << 16u32) | ((b2 as u32) << 8u32) | (
    b3 as u32) == x) by (bit_vector);
}

/// Reading back the eight bytes written for `x` gives `x`.
pub proof fn lemma_be_u64_round_trip(x: u64)
    ensures
        be_value_u64(be_bytes_u64(x)) == x,
{
    let b = be_bytes_u64(x);
    let (b0, b1, b2, b3, b4, b5, b6, b7) = (b[0], b[1], b[2], b[3], b[4], b[5], b[6], b[7]);
    assert(b0 == (x >> 56u64) as u8 && b1 == (x >> 48u64) as u8 && b2 == (x >> 40u64) as u8 && b3
        == (x >> 32u64) as u8 && b4 == (x >> 24u64) as u8 && b5 == (x >> 16u64) as u8 && b6 == (x
        >> 8u64) as u8 && b7 == x as u8);
    assert(b0 == (x >> 56u64) as u8 && b1 == (x >> 48u64) as u8 && b2 == (x >> 40u64) as u8 && b3
        == (x >> 32u64) as u8 && b4 == (x >> 24u64) as u8 && b5 == (x >> 16u64) as u8 && b6 == (x
        >> 8u64) as u8 && b7 == x as u8 ==> ((b0 as u64) << 56u64) | ((b1 as u64) << 48u64) | ((
    b2 as u64) << 40u64) | ((b3 as u64) << 32u64) | ((b4 as u64) << 24u64) | ((b5 as u64)
        << 16u64) | ((b6 as u64) << 8u64) | (b7 as u64) == x) by (bit_vector);
}

/// `PRIORITY`: the priority of a candidate.
#[derive(Debug, Clone, Copy, PartialEq, Eq, Structural)]
pub struct Priority(pub u32);

impl Priority {
    /// Attribute type of `PRIORITY`.
    pub const TYPE: u16 = 0x0024;

    /// Decode from the attribute's value bytes, which must be exactly four.
    pub fn decode(value: &[u8]) -> (r: Result<Priority, AttrError>)
        ensures
            value@.len() == 4 ==> r == Ok::<Priority, AttrError>(Priority(be_value_u32(value@))),
            value@.len() != 4 ==> r == Err::<Priority, AttrError>(AttrError::InvalidData),
    {
        if value.len() != 4 {
            return Err(AttrError::InvalidData);
        }
        Ok(Priority(read_be_u32(value)))
    }

    /// Append the value bytes to `buf`.
    pub fn encode(&self, buf: &mut Vec<u8>)
        ensures
            final(buf)@ == old(buf)@ + be_bytes_u32(self.0),
    {
        put_be_u32(buf, self.0);
    }

    /// Length of the encoded value.
    pub fn encode_len(&self) -> (r: Result<u16, AttrError>)
        ensures
            r == Ok::<u16, AttrError>(4),
    {
        Ok(4)
    }
}

/// `USE-CANDIDATE`: a flag attribute with an empty value.
#[derive(Debug, Clone, Copy, PartialEq, Eq, Structural)]
pub struct UseCandidate;

impl UseCandidate {
    /// Attribute type of `USE-CANDIDATE`.
    pub const TYPE: u16 = 0x0025;

    /// Decode from the attribute's value bytes, whatever they hold.
    pub fn decode(value: &[u8]) -> (r: Result<UseCandidate, AttrError>)
        ensures
            r == Ok::<UseCandidate, AttrError>(UseCandidate),
    {
        Ok(UseCandidate)
    }

    /// Append the value bytes to `buf`: there are none.
    pub fn encode(&self, buf: &mut Vec<u8>)
        ensures
            final(buf)@ == old(buf)@,
    {
    }

    /// Length of the encoded value.
    pub fn encode_len(&self) -> (r: Result<u16, AttrError>)
        ensures
            r == Ok::<u16, AttrError>(0),
    {
        Ok(0)
    }
}

/// `ICE-CONTROLLED`: the tie-breaker of an agent in the controlled role.
#[derive(Debug, Clone, Copy, PartialEq, Eq, Structural)]
pub struct IceControlled(pub u64);

impl IceControlled {
    /// Attribute type of `ICE-CONTROLLED`.
    pub const TYPE: u16 = 0x8029;

    /// Decode from the attribute's value bytes, which must be exactly eight.
    pub fn decode(value: &[u8]) -> (r: Result<IceControlled, AttrError>)
        ensures
            value@.len() == 8 ==> r == Ok::<IceControlled, AttrError>(
                IceControlled(be_value_u64(value@)),
            ),
            value@.len() != 8 ==> r == Err::<IceControlled, AttrError>(AttrError::InvalidData),
    {
        if value.len() != 8 {
            return Err(AttrError::InvalidData);
        }
        Ok(IceControlled(read_be_u64(value)))
    }

    /// Append the value bytes to `buf`.
    pub fn encode(&self, buf: &mut Vec<u8>)
        ensures
            final(buf)@ == old(buf)@ + be_bytes_u64(self.0),
    {
        put_be_u64(buf, self.0);
    }

    /// Length of the encoded value.
    pub fn encode_len(&self) -> (r: Result<u16, AttrError>)
        ensures
            r == Ok::<u16, AttrError>(8),
    {
        Ok(8)
    }
}

/// `ICE-CONTROLLING`: the tie-breaker of an agent in the controlling role.
#[derive(Debug, Clone, Copy, PartialEq, Eq, Structural)]
pub struct IceControlling(pub u64);

impl IceControlling {
    /// Attribute type of `ICE-CONTROLLING`.
    pub const TYPE: u16 = 0x802A;

    /// Decode from the attribute's value bytes, which must be exactly eight.
    pub fn decode(value: &[u8]) -> (r: Result<IceControlling, AttrError>)
        ensures
            value@.len() == 8 ==> r == Ok::<IceControlling, AttrError>(
                IceControlling(be_value_u64(value@)),
            ),
            value@.len() != 8 ==> r == Err::<IceControlling, AttrError>(AttrError::InvalidData),
    {
        if value.len() != 8 {
            return Err(AttrError::InvalidData);
        }
        Ok(IceControlling(read_be_u64(value)))
    }

    /// Append the value bytes to `buf`.
    pub fn encode(&self, buf: &mut Vec<u8>)
        ensures
            final(buf)@ == old(buf)@ + be_bytes_u64(self.0),
    {
        put_be_u64(buf, self.0);
    }

    /// Length of the encoded value.
    pub fn encode_len(&self) -> (r: Result<u16, AttrError>)
        ensures
            r == Ok::<u16, AttrError>(8),
    {
        Ok(8)
    }
}

/// Decoding the bytes that `encode` writes for a `PRIORITY` gives it back,
/// and their number is what `encode_len` reports.
pub proof fn lemma_priority_round_trip(p: Priority)
    ensures
        Priority(be_value_u32(be_bytes_u32(p.0))) == p,
        be_bytes_u32(p.0).len() == 4,
{
    lemma_be_u32_round_trip(p.0);
}

/// Decoding the bytes that `encode` writes for an `ICE-CONTROLLED` gives it
/// back, and their number is what `encode_len` reports.
pub proof fn lemma_ice_controlled_round_trip(a: IceControlled)
    ensures
        IceControlled(be_value_u64(be_bytes_u64(a.0))) == a,
        be_bytes_u64(a.0).len() == 8,
{
    lemma_be_u64_round_trip(a.0);
}

/// Decoding the bytes that `encode` writes for an `ICE-CONTROLLING` gives it
/// back, and their number is what `encode_len` reports.
pub proof fn lemma_ice_controlling_round_trip(a: IceControlling)
    ensures
        IceControlling(be_value_u64(be_bytes_u64(a.0))) == a,
        be_bytes_u64(a.0).len() == 8,
{
    lemma_be_u64_round_trip(a.0);
}

} // verus!
