//! Big-endian binary codec: primitive scalars, length-prefixed strings and
//! vectors, read from a cursor over a byte slice and appended to a byte buffer.

use vstd::prelude::*;
use vstd::utf8::{
    decode_utf8, encode_utf8, encode_utf8_decode_utf8, encode_utf8_valid_utf8, valid_utf8,
};

verus! {

/// Why a byte sequence could not be decoded.
#[derive(Clone, Copy, Debug, PartialEq, Eq, Structural)]
pub enum DecodeError {
    /// The input ends before the value does.
    Truncated,
    /// A string or vector length prefix is negative.
    NegativeLength,
    /// String bytes are not valid UTF-8.
    InvalidUtf8,
    /// A packet type byte other than 0 or 1.
    UnknownPacketType,
    /// A frame whose declared size cannot hold a packet header.
    BadFrameSize,
}

/// The type tags of the schema language.
#[derive(Clone, Copy, Debug, PartialEq, Eq, Structural)]
pub enum Types {
    Boolean,
    Int8,
    Int16,
    Int32,
    Int64,
    VarInt,
    VarLong,
    Uint16,
    Uint32,
    Uint64,
    Float32,
    Float64,
    String,
    Bytes,
}

// ---------------------------------------------------------------------------
// Big-endian byte layouts
// ---------------------------------------------------------------------------

pub open spec fn be_u16(v: u16) -> Seq<u8> {
    seq![(v >> 8u16) as u8, v as u8]
}

pub open spec fn be_u32(v: u32) -> Seq<u8> {
    seq![(v >> 24u32) as u8, (v >> 16u32) as u8, (v >> 8u32) as u8, v as u8]
}

pub open spec fn be_u64(v: u64) -> Seq<u8> {
    seq![
        (v >> 56u64) as u8,
        (v >> 48u64) as u8,
        (v >> 40u64) as u8,
        (v >> 32u64) as u8,
        (v >> 24u64) as u8,
        (v >> 16u64) as u8,
        (v >> 8u64) as u8,
        v as u8,
    ]
}

/// The value of the first two bytes, most significant first.
pub open spec fn u16_of_be(b: Seq<u8>) -> u16 {
    ((b[0] as u16) << 8u16) | (b[1] as u16)
}

/// The value of the first four bytes, most significant first.
pub open spec fn u32_of_be(b: Seq<u8>) -> u32 {
    ((b[0] as u32) << 24u32) | ((b[1] as u32) << 16u32) | ((b[2] as u32) << 8u32) | (b[3] as u32)
}

/// The value of the first eight bytes, most significant first.
pub open spec fn u64_of_be(b: Seq<u8>) -> u64 {
    ((b[0] as u64) << 56u64) | ((b[1] as u64) << 48u64) | ((b[2] as u64) << 40u64) | ((b[3] as u64)
        << 32u64) | ((b[4] as u64) << 24u64) | ((b[5] as u64) << 16u64) | ((b[6] as u64) << 8u64)
        | (b[7] as u64)
}

pub open spec fn enc_u8(v: u8) -> Seq<u8> {
    seq![v]
}

pub open spec fn enc_i8(v: i8) -> Seq<u8> {
    seq![v as u8]
}

pub open spec fn enc_u16(v: u16) -> Seq<u8> {
    be_u16(v)
}

pub open spec fn enc_i16(v: i16) -> Seq<u8> {
    be_u16(v as u16)
}

pub open spec fn enc_u32(v: u32) -> Seq<u8> {
    be_u32(v)
}

pub open spec fn enc_i32(v: i32) -> Seq<u8> {
    be_u32(v as u32)
}

pub open spec fn enc_u64(v: u64) -> Seq<u8> {
    be_u64(v)
}

pub open spec fn enc_i64(v: i64) -> Seq<u8> {
    be_u64(v as u64)
}

// What a decoder reads from the front of `b`: the value and the bytes used.
pub open spec fn parse_u8(b: Seq<u8>) -> Result<(u8, nat), DecodeError> {
    if b.len() < 1 {
        Err(DecodeError::Truncated)
    } else {
        Ok((b[0], 1))
    }
}

pub open spec fn parse_i8(b: Seq<u8>) -> Result<(i8, nat), DecodeError> {
    if b.len() < 1 {
        Err(DecodeError::Truncated)
    } else {
        Ok((b[0] as i8, 1))
    }
}

pub open spec fn parse_u16(b: Seq<u8>) -> Result<(u16, nat), DecodeError> {
    if b.len() < 2 {
        Err(DecodeError::Truncated)
    } else {
        Ok((u16_of_be(b), 2))
    }
}

pub open spec fn parse_i16(b: Seq<u8>) -> Result<(i16, nat), DecodeError> {
    if b.len() < 2 {
        Err(DecodeError::Truncated)
    } else {
        Ok((u16_of_be(b) as i16, 2))
    }
}

pub open spec fn parse_u32(b: Seq<u8>) -> Result<(u32, nat), DecodeError> {
    if b.len() < 4 {
        Err(DecodeError::Truncated)
    } else {
        Ok((u32_of_be(b), 4))
    }
}

pub open spec fn parse_i32(b: Seq<u8>) -> Result<(i32, nat), DecodeError> {
    if b.len() < 4 {
        Err(DecodeError::Truncated)
    } else {
        Ok((u32_of_be(b) as i32, 4))
    }
}

pub open spec fn parse_u64(b: Seq<u8>) -> Result<(u64, nat), DecodeError> {
    if b.len() < 8 {
        Err(DecodeError::Truncated)
    } else {
        Ok((u64_of_be(b), 8))
    }
}

pub open spec fn parse_i64(b: Seq<u8>) -> Result<(i64, nat), DecodeError> {
    if b.len() < 8 {
        Err(DecodeError::Truncated)
    } else {
        Ok((u64_of_be(b) as i64, 8))
    }
}

// ---------------------------------------------------------------------------
// Decoder cursor
// ---------------------------------------------------------------------------

/// A read cursor over a byte slice.
pub struct ByteDecoder<'a> {
    offset: usize,
    buf: &'a [u8],
}

impl<'a> ByteDecoder<'a> {
    pub closed spec fn spec_offset(&self) -> nat {
        self.offset as nat
    }

    pub closed spec fn spec_buf(&self) -> Seq<u8> {
        self.buf@
    }

    pub open spec fn wf(&self) -> bool {
        self.spec_offset() <= self.spec_buf().len()
    }

    /// The bytes not read yet.
    pub open spec fn rest(&self) -> Seq<u8> {
        self.spec_buf().subrange(self.spec_offset() as int, self.spec_buf().len() as int)
    }

    /// `self` is `prev` moved forward by `n` bytes.
    pub open spec fn advanced(&self, prev: &ByteDecoder, n: nat) -> bool {
        &&& self.spec_buf() == prev.spec_buf()
        &&& self.spec_offset() == prev.spec_offset() + n
    }

    /// The outcome of a decode that `spec` describes: on success the cursor
    /// moved past what was read, on failure it did not move.
    pub open spec fn followed<T>(
        &self,
        prev: &ByteDecoder,
        r: Result<T, DecodeError>,
        spec: Result<(T, nat), DecodeError>,
    ) -> bool {
        match spec {
            Ok((v, n)) => r == Ok::<T, DecodeError>(v) && self.advanced(prev, n) && self.wf(),
            Err(e) => r == Err::<T, DecodeError>(e) && self == prev,
        }
    }

    pub fn new(src: &'a [u8]) -> (r: ByteDecoder<'a>)
        ensures
            r.spec_offset() == 0,
            r.spec_buf() == src@,
            r.wf(),
    {
        ByteDecoder { offset: 0, buf: src }
    }

    /// Takes the next `size` bytes.
    pub fn next(&mut self, size: usize) -> (r: &'a [u8])
        requires
            old(self).wf(),
            size <= old(self).rest().len(),
        ensures
            r@ == old(self).rest().subrange(0, size as int),
            final(self).advanced(old(self), size as nat),
            final(self).wf(),
    {
        let total = self.buf.len();
        assert(self.offset + size <= total);
        let result = &self.buf[self.offset..self.offset + size];
        self.offset = self.offset + size;
        result
    }

    /// Length of the whole underlying buffer, read or not.
    pub fn len(&self) -> (r: usize)
        ensures
            r == self.spec_buf().len(),
    {
        self.buf.len()
    }

    /// Number of bytes read so far.
    pub fn offset(&self) -> (r: usize)
        ensures
            r == self.spec_offset(),
    {
        self.offset
    }

    /// Number of bytes not read yet.
    pub fn remaining(&self) -> (r: usize)
        requires
            self.wf(),
        ensures
            r == self.rest().len(),
    {
        self.buf.len() - self.offset
    }
}

// ---------------------------------------------------------------------------
// Primitive decoders
// ---------------------------------------------------------------------------

pub fn decode_u8(d: &mut ByteDecoder) -> (r: Result<u8, DecodeError>)
    requires
        old(d).wf(),
    ensures
        final(d).followed(old(d), r, parse_u8(old(d).rest())),
{
    if d.remaining() < 1 {
        return Err(DecodeError::Truncated);
    }
    let b = d.next(1);
    Ok(b[0])
}

pub fn decode_i8(d: &mut ByteDecoder) -> (r: Result<i8, DecodeError>)
    requires
        old(d).wf(),
    ensures
        final(d).followed(old(d), r, parse_i8(old(d).rest())),
{
    if d.remaining() < 1 {
        return Err(DecodeError::Truncated);
    }
    let b = d.next(1);
    Ok(b[0] as i8)
}

pub fn decode_u16(d: &mut ByteDecoder) -> (r: Result<u16, DecodeError>)
    requires
        old(d).wf(),
    ensures
        final(d).followed(old(d), r, parse_u16(old(d).rest())),
{
    if d.remaining() < 2 {
        return Err(DecodeError::Truncated);
    }
    let b = d.next(2);
    Ok(((b[0] as u16) << 8u16) | (b[1] as u16))
}

pub fn decode_i16(d: &mut ByteDecoder) -> (r: Result<i16, DecodeError>)
    requires
        old(d).wf(),
    ensures
        final(d).followed(old(d), r, parse_i16(old(d).rest())),
{
    if d.remaining() < 2 {
        return Err(DecodeError::Truncated);
    }
    let b = d.next(2);
    Ok((((b[0] as u16) << 8u16) | (b[1] as u16)) as i16)
}

pub fn decode_u32(d: &mut ByteDecoder) -> (r: Result<u32, DecodeError>)
    requires
        old(d).wf(),
    ensures
        final(d).followed(old(d), r, parse_u32(old(d).rest())),
{
    if d.remaining() < 4 {
        return Err(DecodeError::Truncated);
    }
    let b = d.next(4);
    Ok(((b[0] as u32) << 24u32) | ((b[1] as u32) << 16u32) | ((b[2] as u32) << 8u32) | (
    b[3] as u32))
}

pub fn decode_i32(d: &mut ByteDecoder) -> (r: Result<i32, DecodeError>)
    requires
        old(d).wf(),
    ensures
        final(d).followed(old(d), r, parse_i32(old(d).rest())),
{
    match decode_u32(d) {
        Ok(v) => Ok(v as i32),
        Err(e) => Err(e),
    }
}

pub fn decode_u64(d: &mut ByteDecoder) -> (r: Result<u64, DecodeError>)
    requires
        old(d).wf(),
    ensures
        final(d).followed(old(d), r, parse_u64(old(d).rest())),
{
    if d.remaining() < 8 {
        return Err(DecodeError::Truncated);
    }
    let b = d.next(8);
    Ok(((b[0] as u64) << 56u64) | ((b[1] as u64) << 48u64) | ((b[2] as u64) << 40u64) | ((
    b[3] as u64) << 32u64) | ((b[4] as u64) << 24u64) | ((b[5] as u64) << 16u64) | ((
    b[6] as u64) << 8u64) | (b[7] as u64))
}

pub fn decode_i64(d: &mut ByteDecoder) -> (r: Result<i64, DecodeError>)
    requires
        old(d).wf(),
    ensures
        final(d).followed(old(d), r, parse_i64(old(d).rest())),
{
    match decode_u64(d) {
        Ok(v) => Ok(v as i64),
        Err(e) => Err(e),
    }
}

// ---------------------------------------------------------------------------
// Primitive encoders
// ---------------------------------------------------------------------------

pub fn encode_u8(v: u8, out: &mut Vec<u8>)
    ensures
        final(out)@ == old(out)@ + enc_u8(v),
{
    out.push(v);
}

pub fn encode_i8(v: i8, out: &mut Vec<u8>)
    ensures
        final(out)@ == old(out)@ + enc_i8(v),
{
    out.push(v as u8);
}

pub fn encode_u16(v: u16, out: &mut Vec<u8>)
    ensures
        final(out)@ == old(out)@ + enc_u16(v),
{
    out.push((v >> 8u16) as u8);
    out.push(v as u8);
}

pub fn encode_i16(v: i16, out: &mut Vec<u8>)
    ensures
        final(out)@ == old(out)@ + enc_i16(v),
{
    encode_u16(v as u16, out);
}

pub fn encode_u32(v: u32, out: &mut Vec<u8>)
    ensures
        final(out)@ == old(out)@ + enc_u32(v),
{
    out.push((v >> 24u32) as u8);
    out.push((v >> 16u32) as u8);
    out.push((v >> 8u32) as u8);
    out.push(v as u8);
}

pub fn encode_i32(v: i32, out: &mut Vec<u8>)
    ensures
        final(out)@ == old(out)@ + enc_i32(v),
{
    encode_u32(v as u32, out);
}

pub fn encode_u64(v: u64, out: &mut Vec<u8>)
    ensures
        final(out)@ == old(out)@ + enc_u64(v),
{
    out.push((v >> 56u64) as u8);
    out.push((v >> 48u64) as u8);
    out.push((v >> 40u64) as u8);
    out.push((v >> 32u64) as u8);
    out.push((v >> 24u64) as u8);
    out.push((v >> 16u64) as u8);
    out.push((v >> 8u64) as u8);
    out.push(v as u8);
}

pub fn encode_i64(v: i64, out: &mut Vec<u8>)
    ensures
        final(out)@ == old(out)@ + enc_i64(v),
{
    encode_u64(v as u64, out);
}


// ---------------------------------------------------------------------------
// Strings and vectors: an i64 length, then the items
// ---------------------------------------------------------------------------

/// Relies on std::str::from_utf8: it succeeds exactly on valid UTF-8, and
/// then holds the characters that the bytes encode.
#[verifier::external_body]
fn str_from_utf8(b: &[u8]) -> (r: Option<&str>)
    ensures
        r is Some <==> valid_utf8(b@),
        r is Some ==> r->0@ == decode_utf8(b@),
{
    std::str::from_utf8(b).ok()
}

/// Encoding of a string: its UTF-8 byte count as an i64, then the bytes.
pub open spec fn enc_string(s: Seq<char>) -> Seq<u8> {
    enc_i64(encode_utf8(s).len() as i64) + encode_utf8(s)
}

/// A length prefix: the i64 at the front of `b`, refused when negative.
pub open spec fn parse_len(b: Seq<u8>) -> Result<(nat, nat), DecodeError> {
    match parse_i64(b) {
        Err(e) => Err(e),
        Ok((n, k)) => if n < 0 {
            Err(DecodeError::NegativeLength)
        } else {
            Ok((n as nat, k))
        },
    }
}

pub open spec fn parse_string(b: Seq<u8>) -> Result<(Seq<char>, nat), DecodeError> {
    match parse_len(b) {
        Err(e) => Err(e),
        Ok((n, k)) => if b.len() - 8 < n {
            Err(DecodeError::Truncated)
        } else if !valid_utf8(b.subrange(8, 8 + n as int)) {
            Err(DecodeError::InvalidUtf8)
        } else {
            Ok((decode_utf8(b.subrange(8, 8 + n as int)), 8 + n))
        },
    }
}

/// Items of a vector of u32, each four bytes, in order.
pub open spec fn enc_u32_items(s: Seq<u32>) -> Seq<u8>
    decreases s.len(),
{
    if s.len() == 0 {
        Seq::empty()
    } else {
        enc_u32_items(s.drop_last()) + be_u32(s.last())
    }
}

pub open spec fn enc_u32_vec(s: Seq<u32>) -> Seq<u8> {
    enc_i64(s.len() as i64) + enc_u32_items(s)
}

/// The `i`th four-byte item after the eight-byte length prefix.
pub open spec fn u32_item(b: Seq<u8>, i: int) -> u32 {
    u32_of_be(b.subrange(8 + 4 * i, 8 + 4 * i + 4))
}

pub open spec fn parse_u32_vec(b: Seq<u8>) -> Result<(Seq<u32>, nat), DecodeError> {
    match parse_len(b) {
        Err(e) => Err(e),
        Ok((n, k)) => if n > (b.len() - 8) / 4 {
            Err(DecodeError::Truncated)
        } else {
            Ok((Seq::new(n, |i: int| u32_item(b, i)), 8 + 4 * n))
        },
    }
}

/// Items of a vector of i8, one byte each.
pub open spec fn enc_i8_items(s: Seq<i8>) -> Seq<u8> {
    Seq::new(s.len(), |i: int| s[i] as u8)
}

pub open spec fn enc_i8_vec(s: Seq<i8>) -> Seq<u8> {
    enc_i64(s.len() as i64) + enc_i8_items(s)
}

pub open spec fn parse_i8_vec(b: Seq<u8>) -> Result<(Seq<i8>, nat), DecodeError> {
    match parse_len(b) {
        Err(e) => Err(e),
        Ok((n, k)) => if b.len() - 8 < n {
            Err(DecodeError::Truncated)
        } else {
            Ok((Seq::new(n, |i: int| b[8 + i] as i8), 8 + n))
        },
    }
}

fn decode_len(d: &mut ByteDecoder) -> (r: Result<u64, DecodeError>)
    requires
        old(d).wf(),
    ensures
        match parse_len(old(d).rest()) {
            Ok((n, k)) => r == Ok::<u64, DecodeError>(n as u64) && final(d).advanced(old(d), k)
                && final(d).wf(),
            Err(e) => r == Err::<u64, DecodeError>(e),
        },
{
    match decode_i64(d) {
        Err(e) => Err(e),
        Ok(n) => if n < 0 {
            Err(DecodeError::NegativeLength)
        } else {
            Ok(n as u64)
        },
    }
}

pub fn decode_string(d: &mut ByteDecoder) -> (r: Result<String, DecodeError>)
    requires
        old(d).wf(),
    ensures
        match parse_string(old(d).rest()) {
            Ok((s, n)) => r is Ok && r->Ok_0@ == s && final(d).advanced(old(d), n) && final(d).wf(),
            Err(e) => r == Err::<String, DecodeError>(e),
        },
{
    let ghost start = *d;
    let n = match decode_len(d) {
        Ok(n) => n,
        Err(e) => return Err(e),
    };
    assert(d.rest() =~= start.rest().subrange(8, start.rest().len() as int));
    if n > d.remaining() as u64 {
        return Err(DecodeError::Truncated);
    }
    let bytes = d.next(n as usize);
    assert(bytes@ =~= start.rest().subrange(8, 8 + n as int));
    match str_from_utf8(bytes) {
        Some(s) => Ok(s.to_owned()),
        None => Err(DecodeError::InvalidUtf8),
    }
}

pub fn decode_u32_vec(d: &mut ByteDecoder) -> (r: Result<Vec<u32>, DecodeError>)
    requires
        old(d).wf(),
    ensures
        match parse_u32_vec(old(d).rest()) {
            Ok((s, n)) => r is Ok && r->Ok_0@ == s && final(d).advanced(old(d), n) && final(d).wf(),
            Err(e) => r == Err::<Vec<u32>, DecodeError>(e),
        },
{
    let ghost start = *d;
    let ghost b = start.rest();
    let n = match decode_len(d) {
        Ok(n) => n,
        Err(e) => return Err(e),
    };
    if n > (d.remaining() / 4) as u64 {
        return Err(DecodeError::Truncated);
    }
    let n = n as usize;
    let mut result: Vec<u32> = Vec::with_capacity(n);
    let mut i: usize = 0;
    while i < n
        invariant
            d.wf(),
            d.spec_buf() == start.spec_buf(),
            d.spec_offset() == start.spec_offset() + 8 + 4 * i,
            b == start.rest(),
            b.len() >= 8 + 4 * n,
            i <= n,
            result@ =~= Seq::new(i as nat, |j: int| u32_item(b, j)),
        decreases n - i,
    {
        assert(d.rest() =~= b.subrange(8 + 4 * i, b.len() as int));
        let v = match decode_u32(d) {
            Ok(v) => v,
            Err(_) => return Err(DecodeError::Truncated),
        };
        assert(b.subrange(8 + 4 * i, 8 + 4 * i + 4) =~= d.spec_buf().subrange(
            start.spec_offset() + 8 + 4 * i,
            start.spec_offset() + 8 + 4 * i + 4,
        ));
        assert(v == u32_item(b, i as int));
        result.push(v);
        i = i + 1;
    }
    Ok(result)
}

pub fn decode_i8_vec(d: &mut ByteDecoder) -> (r: Result<Vec<i8>, DecodeError>)
    requires
        old(d).wf(),
    ensures
        match parse_i8_vec(old(d).rest()) {
            Ok((s, n)) => r is Ok && r->Ok_0@ == s && final(d).advanced(old(d), n) && final(d).wf(),
            Err(e) => r == Err::<Vec<i8>, DecodeError>(e),
        },
{
    let ghost start = *d;
    let ghost b = start.rest();
    let n = match decode_len(d) {
        Ok(n) => n,
        Err(e) => return Err(e),
    };
    if n > d.remaining() as u64 {
        return Err(DecodeError::Truncated);
    }
    let n = n as usize;
    let mut result: Vec<i8> = Vec::with_capacity(n);
    let mut i: usize = 0;
    while i < n
        invariant
            d.wf(),
            d.spec_buf() == start.spec_buf(),
            d.spec_offset() == start.spec_offset() + 8 + i,
            b == start.rest(),
            b.len() >= 8 + n,
            i <= n,
            result@ =~= Seq::new(i as nat, |j: int| b[8 + j] as i8),
        decreases n - i,
    {
        assert(d.rest() =~= b.subrange(8 + i, b.len() as int));
        let v = match decode_i8(d) {
            Ok(v) => v,
            Err(_) => return Err(DecodeError::Truncated),
        };
        result.push(v);
        i = i + 1;
    }
    Ok(result)
}

pub fn encode_string(s: &String, out: &mut Vec<u8>)
    requires
        encode_utf8(s@).len() <= i64::MAX,
    ensures
        final(out)@ == old(out)@ + enc_string(s@),
{
    let bytes = s.as_str().as_bytes();
    encode_i64(bytes.len() as i64, out);
    let ghost mid = out@;
    let mut i: usize = 0;
    while i < bytes.len()
        invariant
            bytes@ == encode_utf8(s@),
            i <= bytes@.len(),
            out@ =~= mid + bytes@.subrange(0, i as int),
        decreases bytes@.len() - i,
    {
        out.push(bytes[i]);
        i = i + 1;
    }
    assert(bytes@.subrange(0, bytes@.len() as int) =~= bytes@);
    assert(out@ =~= old(out)@ + enc_string(s@));
}

pub fn encode_u32_vec(v: &Vec<u32>, out: &mut Vec<u8>)
    requires
        v@.len() <= i64::MAX,
    ensures
        final(out)@ == old(out)@ + enc_u32_vec(v@),
{
    encode_i64(v.len() as i64, out);
    let ghost mid = out@;
    let mut i: usize = 0;
    while i < v.len()
        invariant
            i <= v@.len(),
            out@ =~= mid + enc_u32_items(v@.subrange(0, i as int)),
        decreases v@.len() - i,
    {
        encode_u32(v[i], out);
        assert(v@.subrange(0, i + 1).drop_last() =~= v@.subrange(0, i as int));
        i = i + 1;
    }
    assert(v@.subrange(0, v@.len() as int) =~= v@);
    assert(out@ =~= old(out)@ + enc_u32_vec(v@));
}

pub fn encode_i8_vec(v: &Vec<i8>, out: &mut Vec<u8>)
    requires
        v@.len() <= i64::MAX,
    ensures
        final(out)@ == old(out)@ + enc_i8_vec(v@),
{
    encode_i64(v.len() as i64, out);
    let ghost mid = out@;
    let mut i: usize = 0;
    while i < v.len()
        invariant
            i <= v@.len(),
            out@ =~= mid + enc_i8_items(v@.subrange(0, i as int)),
        decreases v@.len() - i,
    {
        encode_i8(v[i], out);
        i = i + 1;
    }
    assert(v@.subrange(0, v@.len() as int) =~= v@);
    assert(out@ =~= old(out)@ + enc_i8_vec(v@));
}

/// Bytes that `encode_string` writes.
pub fn string_size(s: &String) -> (r: usize)
    requires
        encode_utf8(s@).len() + 8 <= usize::MAX,
    ensures
        r == enc_string(s@).len(),
{
    s.as_str().len() + 8
}

/// Bytes that `encode_u32_vec` writes.
pub fn u32_vec_size(v: &Vec<u32>) -> (r: usize)
    requires
        8 + 4 * v@.len() <= usize::MAX,
    ensures
        r == enc_u32_vec(v@).len(),
{
    proof {
        lemma_u32_items_len(v@);
    }
    8 + 4 * v.len()
}

/// Bytes that `encode_i8_vec` writes.
pub fn i8_vec_size(v: &Vec<i8>) -> (r: usize)
    requires
        8 + v@.len() <= usize::MAX,
    ensures
        r == enc_i8_vec(v@).len(),
{
    8 + v.len()
}

/// Each u32 item takes four bytes.
pub proof fn lemma_u32_items_len(s: Seq<u32>)
    ensures
        enc_u32_items(s).len() == 4 * s.len(),
    decreases s.len(),
{
    if s.len() > 0 {
        lemma_u32_items_len(s.drop_last());
    }
}

// ---------------------------------------------------------------------------
// Round trips: decoding what was encoded gives the value back and reads
// exactly the encoded bytes, whatever follows them. Each `decode_*` returns
// what its `parse_*` gives and each `encode_*` appends its `enc_*`, so these
// hold of the executable codec.
// ---------------------------------------------------------------------------

/// Decoding an encoded u8 gives it back.
pub proof fn lemma_round_trip_u8(v: u8, rest: Seq<u8>)
    ensures
        parse_u8(enc_u8(v) + rest) == Ok::<(u8, nat), DecodeError>((v, 1)),
{
    assert((enc_u8(v) + rest)[0] == v);
}

/// Decoding an encoded i8 gives it back.
pub proof fn lemma_round_trip_i8(v: i8, rest: Seq<u8>)
    ensures
        parse_i8(enc_i8(v) + rest) == Ok::<(i8, nat), DecodeError>((v, 1)),
{
    assert((enc_i8(v) + rest)[0] == v as u8);
    assert((v as u8) as i8 == v) by (bit_vector);
}

/// Decoding an encoded u16 gives it back.
pub proof fn lemma_round_trip_u16(v: u16, rest: Seq<u8>)
    ensures
        parse_u16(enc_u16(v) + rest) == Ok::<(u16, nat), DecodeError>((v, 2)),
{
    let b = enc_u16(v) + rest;
    assert(b[0] == (v >> 8u16) as u8 && b[1] == v as u8);
    assert(((((v >> 8u16) as u8) as u16) << 8u16) | ((v as u8) as u16) == v) by (bit_vector);
}

/// Decoding an encoded i16 gives it back.
pub proof fn lemma_round_trip_i16(v: i16, rest: Seq<u8>)
    ensures
        parse_i16(enc_i16(v) + rest) == Ok::<(i16, nat), DecodeError>((v, 2)),
{
    lemma_round_trip_u16(v as u16, rest);
    assert((v as u16) as i16 == v) by (bit_vector);
}

/// Decoding an encoded u32 gives it back.
pub proof fn lemma_round_trip_u32(v: u32, rest: Seq<u8>)
    ensures
        parse_u32(enc_u32(v) + rest) == Ok::<(u32, nat), DecodeError>((v, 4)),
{
    let b = enc_u32(v) + rest;
    assert(b[0] == (v >> 24u32) as u8 && b[1] == (v >> 16u32) as u8 && b[2] == (v >> 8u32) as u8
        && b[3] == v as u8);
    assert(((((v >> 24u32) as u8) as u32) << 24u32) | ((((v >> 16u32) as u8) as u32) << 16u32)
        | ((((v >> 8u32) as u8) as u32) << 8u32) | ((v as u8) as u32) == v) by (bit_vector);
}

/// Decoding an encoded i32 gives it back.
pub proof fn lemma_round_trip_i32(v: i32, rest: Seq<u8>)
    ensures
        parse_i32(enc_i32(v) + rest) == Ok::<(i32, nat), DecodeError>((v, 4)),
{
    lemma_round_trip_u32(v as u32, rest);
    assert((v as u32) as i32 == v) by (bit_vector);
}

/// Decoding an encoded u64 gives it back.
pub proof fn lemma_round_trip_u64(v: u64, rest: Seq<u8>)
    ensures
        parse_u64(enc_u64(v) + rest) == Ok::<(u64, nat), DecodeError>((v, 8)),
{
    let b = enc_u64(v) + rest;
    assert(b[0] == (v >> 56u64) as u8 && b[1] == (v >> 48u64) as u8 && b[2] == (v >> 40u64) as u8
        && b[3] == (v >> 32u64) as u8 && b[4] == (v >> 24u64) as u8 && b[5] == (v >> 16u64) as u8
        && b[6] == (v >> 8u64) as u8 && b[7] == v as u8);
    assert(((((v >> 56u64) as u8) as u64) << 56u64) | ((((v >> 48u64) as u8) as u64) << 48u64)
        | ((((v >> 40u64) as u8) as u64) << 40u64) | ((((v >> 32u64) as u8) as u64) << 32u64)
        | ((((v >> 24u64) as u8) as u64) << 24u64) | ((((v >> 16u64) as u8) as u64) << 16u64)
        | ((((v >> 8u64) as u8) as u64) << 8u64) | ((v as u8) as u64) == v) by (bit_vector);
}

/// Decoding an encoded i64 gives it back.
pub proof fn lemma_round_trip_i64(v: i64, rest: Seq<u8>)
    ensures
        parse_i64(enc_i64(v) + rest) == Ok::<(i64, nat), DecodeError>((v, 8)),
{
    lemma_round_trip_u64(v as u64, rest);
    assert((v as u64) as i64 == v) by (bit_vector);
}

/// A length prefix written for `n` reads back as `n`.
pub proof fn lemma_round_trip_len(n: nat, rest: Seq<u8>)
    requires
        n <= i64::MAX,
    ensures
        parse_len(enc_i64(n as i64) + rest) == Ok::<(nat, nat), DecodeError>((n, 8)),
{
    lemma_round_trip_i64(n as i64, rest);
}

/// Decoding an encoded string gives it back.
pub proof fn lemma_round_trip_string(s: Seq<char>, rest: Seq<u8>)
    requires
        encode_utf8(s).len() <= i64::MAX,
    ensures
        parse_string(enc_string(s) + rest) == Ok::<(Seq<char>, nat), DecodeError>(
            (s, enc_string(s).len()),
        ),
{
    let u = encode_utf8(s);
    let b = enc_string(s) + rest;
    assert(b =~= enc_i64(u.len() as i64) + (u + rest));
    lemma_round_trip_len(u.len(), u + rest);
    assert(b.subrange(8, 8 + u.len() as int) =~= u);
    encode_utf8_valid_utf8(s);
    encode_utf8_decode_utf8(s);
}

proof fn lemma_u32_items_chunk(s: Seq<u32>, i: int)
    requires
        0 <= i < s.len(),
    ensures
        enc_u32_items(s).subrange(4 * i, 4 * i + 4) == be_u32(s[i]),
    decreases s.len(),
{
    lemma_u32_items_len(s.drop_last());
    if i == s.len() - 1 {
        assert(enc_u32_items(s).subrange(4 * i, 4 * i + 4) =~= be_u32(s[i]));
    } else {
        lemma_u32_items_chunk(s.drop_last(), i);
        assert(enc_u32_items(s).subrange(4 * i, 4 * i + 4) =~= enc_u32_items(
            s.drop_last(),
        ).subrange(4 * i, 4 * i + 4));
    }
}

/// Decoding an encoded vector of u32 gives it back.
pub proof fn lemma_round_trip_u32_vec(s: Seq<u32>, rest: Seq<u8>)
    requires
        s.len() <= i64::MAX,
    ensures
        parse_u32_vec(enc_u32_vec(s) + rest) == Ok::<(Seq<u32>, nat), DecodeError>(
            (s, enc_u32_vec(s).len()),
        ),
{
    let items = enc_u32_items(s);
    let b = enc_u32_vec(s) + rest;
    lemma_u32_items_len(s);
    assert(b =~= enc_i64(s.len() as i64) + (items + rest));
    lemma_round_trip_len(s.len(), items + rest);
    assert((b.len() - 8) / 4 >= s.len());
    assert forall|i: int| 0 <= i < s.len() implies u32_item(b, i) == s[i] by {
        lemma_u32_items_chunk(s, i);
        assert(b.subrange(8 + 4 * i, 8 + 4 * i + 4) =~= items.subrange(4 * i, 4 * i + 4));
        lemma_round_trip_u32(s[i], Seq::empty());
        assert(be_u32(s[i]) + Seq::<u8>::empty() =~= be_u32(s[i]));
    }
    assert(Seq::new(s.len(), |i: int| u32_item(b, i)) =~= s);
}

/// Decoding an encoded vector of i8 gives it back.
pub proof fn lemma_round_trip_i8_vec(s: Seq<i8>, rest: Seq<u8>)
    requires
        s.len() <= i64::MAX,
    ensures
        parse_i8_vec(enc_i8_vec(s) + rest) == Ok::<(Seq<i8>, nat), DecodeError>(
            (s, enc_i8_vec(s).len()),
        ),
{
    let items = enc_i8_items(s);
    let b = enc_i8_vec(s) + rest;
    assert(b =~= enc_i64(s.len() as i64) + (items + rest));
    lemma_round_trip_len(s.len(), items + rest);
    assert forall|i: int| 0 <= i < s.len() implies b[8 + i] as i8 == s[i] by {
        let x = s[i];
        assert(b[8 + i] == x as u8);
        assert((x as u8) as i8 == x) by (bit_vector);
    }
    assert(Seq::new(s.len(), |i: int| b[8 + i] as i8) =~= s);
}

} // verus!
