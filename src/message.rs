//! The wire codec: how primitive values, strings and composites of them are
//! encoded to bytes and decoded back, and the hash-prefixed message form.
use vstd::prelude::*;
use vstd::utf8::{decode_utf8, encode_utf8, valid_utf8};

use crate::error::{DecodeError, EncodeError};
use crate::wire::{
    be_u16_at, be_u32_at, be_u64_at, lemma_u16_round_trip, lemma_u32_round_trip,
    lemma_u64_round_trip, read_u16, read_u32, read_u64, u16_bytes, u32_bytes, u64_bytes,
    write_u16, write_u32, write_u64,
};

verus! {

/// A value that can be encoded to and decoded from the LCM wire format.
///
/// The mathematical content of a value is its view; `wire` gives the bytes
/// that encode a view, and `parse` what decoding yields from the front of a
/// byte sequence: the view and the number of bytes taken, or the error.
pub trait Marshall: Sized + View {
    /// The bytes that encode `v`.
    spec fn wire(v: Self::V) -> Seq<u8>;

    /// Whether `v` fits the format's limits (a string's length prefix).
    spec fn encodable(v: Self::V) -> bool;

    /// The error that encoding `v` reports, if any.
    spec fn encode_error(v: Self::V) -> Option<EncodeError>;

    /// What decoding reads from the front of `bytes`.
    spec fn parse(bytes: Seq<u8>) -> Result<(Self::V, nat), DecodeError>;

    /// Decoding the encoding of a value, whatever follows it, gives the value back.
    proof fn lemma_round_trip(v: Self::V, rest: Seq<u8>)
        requires
            Self::encodable(v),
            Self::encode_error(v) is None,
        ensures
            Self::parse(Self::wire(v) + rest) == Ok::<(Self::V, nat), DecodeError>(
                (v, Self::wire(v).len()),
            ),
    ;

    /// Appends the encoding of `self` to `buffer`.
    fn encode(&self, buffer: &mut Vec<u8>) -> (r: Result<(), EncodeError>)
        requires
            Self::encodable(self@),
        ensures
            match Self::encode_error(self@) {
                None => r is Ok && final(buffer)@ == old(buffer)@ + Self::wire(self@),
                Some(e) => r == Err::<(), EncodeError>(e),
            },
    ;

    /// Decodes a value from `buffer` at `pos`; returns it and the position after it.
    fn decode(buffer: &[u8], pos: usize) -> (r: Result<(Self, usize), DecodeError>)
        requires
            pos <= buffer@.len(),
        ensures
            match Self::parse(buffer@.subrange(pos as int, buffer@.len() as int)) {
                Ok((v, n)) => r is Ok && r->Ok_0.0@ == v && r->Ok_0.1 == pos + n && r->Ok_0.1
                    <= buffer@.len(),
                Err(e) => r == Err::<(Self, usize), DecodeError>(e),
            },
    ;

    /// The number of bytes that the encoding of `self` takes.
    fn size(&self) -> (r: usize)
        requires
            Self::encodable(self@),
        ensures
            r == Self::wire(self@).len(),
    ;

    /// Whether `self` fits the format's limits, so that it can be encoded.
    fn is_encodable(&self) -> (r: bool)
        ensures
            r == Self::encodable(self@),
    ;
}

/// The error that decoding reports when the bytes run out.
pub open spec fn eof<V>() -> Result<(V, nat), DecodeError> {
    Err(DecodeError::IoError)
}

impl Marshall for u8 {
    open spec fn wire(v: u8) -> Seq<u8> {
        seq![v]
    }

    open spec fn encodable(v: u8) -> bool {
        true
    }

    open spec fn encode_error(v: u8) -> Option<EncodeError> {
        None
    }

    open spec fn parse(bytes: Seq<u8>) -> Result<(u8, nat), DecodeError> {
        if bytes.len() < 1 {
            eof()
        } else {
            Ok((bytes[0], 1))
        }
    }

    proof fn lemma_round_trip(v: u8, rest: Seq<u8>) {
    }

    fn encode(&self, buffer: &mut Vec<u8>) -> (r: Result<(), EncodeError>) {
        buffer.push(*self);
        assert(buffer@ =~= old(buffer)@ + seq![*self]);
        Ok(())
    }

    fn decode(buffer: &[u8], pos: usize) -> (r: Result<(u8, usize), DecodeError>) {
        if buffer.len() - pos < 1 {
            Err(DecodeError::IoError)
        } else {
            Ok((buffer[pos], pos + 1))
        }
    }

    fn size(&self) -> (r: usize) {
        1
    }

    fn is_encodable(&self) -> (r: bool) {
        true
    }
}

impl Marshall for i8 {
    open spec fn wire(v: i8) -> Seq<u8> {
        seq![v as u8]
    }

    open spec fn encodable(v: i8) -> bool {
        true
    }

    open spec fn encode_error(v: i8) -> Option<EncodeError> {
        None
    }

    open spec fn parse(bytes: Seq<u8>) -> Result<(i8, nat), DecodeError> {
        if bytes.len() < 1 {
            eof()
        } else {
            Ok((bytes[0] as i8, 1))
        }
    }

    proof fn lemma_round_trip(v: i8, rest: Seq<u8>) {
        assert((v as u8) as i8 == v) by (bit_vector);
    }

    fn encode(&self, buffer: &mut Vec<u8>) -> (r: Result<(), EncodeError>) {
        buffer.push(*self as u8);
        assert(buffer@ =~= old(buffer)@ + seq![*self as u8]);
        Ok(())
    }

    fn decode(buffer: &[u8], pos: usize) -> (r: Result<(i8, usize), DecodeError>) {
        if buffer.len() - pos < 1 {
            Err(DecodeError::IoError)
        } else {
            Ok((buffer[pos] as i8, pos + 1))
        }
    }

    fn size(&self) -> (r: usize) {
        1
    }

    fn is_encodable(&self) -> (r: bool) {
        true
    }
}

impl Marshall for i16 {
    open spec fn wire(v: i16) -> Seq<u8> {
        u16_bytes(v as u16)
    }

    open spec fn encodable(v: i16) -> bool {
        true
    }

    open spec fn encode_error(v: i16) -> Option<EncodeError> {
        None
    }

    open spec fn parse(bytes: Seq<u8>) -> Result<(i16, nat), DecodeError> {
        if bytes.len() < 2 {
            eof()
        } else {
            Ok((be_u16_at(bytes, 0) as i16, 2))
        }
    }

    proof fn lemma_round_trip(v: i16, rest: Seq<u8>) {
        lemma_u16_round_trip(v as u16);
        assert((v as u16) as i16 == v) by (bit_vector);
    }

    fn encode(&self, buffer: &mut Vec<u8>) -> (r: Result<(), EncodeError>) {
        write_u16(buffer, *self as u16);
        Ok(())
    }

    fn decode(buffer: &[u8], pos: usize) -> (r: Result<(i16, usize), DecodeError>) {
        if buffer.len() - pos < 2 {
            Err(DecodeError::IoError)
        } else {
            Ok((read_u16(buffer, pos) as i16, pos + 2))
        }
    }

    fn size(&self) -> (r: usize) {
        2
    }

    fn is_encodable(&self) -> (r: bool) {
        true
    }
}

impl Marshall for i32 {
    open spec fn wire(v: i32) -> Seq<u8> {
        u32_bytes(v as u32)
    }

    open spec fn encodable(v: i32) -> bool {
        true
    }

    open spec fn encode_error(v: i32) -> Option<EncodeError> {
        None
    }

    open spec fn parse(bytes: Seq<u8>) -> Result<(i32, nat), DecodeError> {
        if bytes.len() < 4 {
            eof()
        } else {
            Ok((be_u32_at(bytes, 0) as i32, 4))
        }
    }

    proof fn lemma_round_trip(v: i32, rest: Seq<u8>) {
        lemma_u32_round_trip(v as u32);
        assert((v as u32) as i32 == v) by (bit_vector);
    }

    fn encode(&self, buffer: &mut Vec<u8>) -> (r: Result<(), EncodeError>) {
        write_u32(buffer, *self as u32);
        Ok(())
    }

    fn decode(buffer: &[u8], pos: usize) -> (r: Result<(i32, usize), DecodeError>) {
        if buffer.len() - pos < 4 {
            Err(DecodeError::IoError)
        } else {
            Ok((read_u32(buffer, pos) as i32, pos + 4))
        }
    }

    fn size(&self) -> (r: usize) {
        4
    }

    fn is_encodable(&self) -> (r: bool) {
        true
    }
}

impl Marshall for u32 {
    open spec fn wire(v: u32) -> Seq<u8> {
        u32_bytes(v)
    }

    open spec fn encodable(v: u32) -> bool {
        true
    }

    open spec fn encode_error(v: u32) -> Option<EncodeError> {
        None
    }

    open spec fn parse(bytes: Seq<u8>) -> Result<(u32, nat), DecodeError> {
        if bytes.len() < 4 {
            eof()
        } else {
            Ok((be_u32_at(bytes, 0), 4))
        }
    }

    proof fn lemma_round_trip(v: u32, rest: Seq<u8>) {
        lemma_u32_round_trip(v);
    }

    fn encode(&self, buffer: &mut Vec<u8>) -> (r: Result<(), EncodeError>) {
        write_u32(buffer, *self);
        Ok(())
    }

    fn decode(buffer: &[u8], pos: usize) -> (r: Result<(u32, usize), DecodeError>) {
        if buffer.len() - pos < 4 {
            Err(DecodeError::IoError)
        } else {
            Ok((read_u32(buffer, pos), pos + 4))
        }
    }

    fn size(&self) -> (r: usize) {
        4
    }

    fn is_encodable(&self) -> (r: bool) {
        true
    }
}

impl Marshall for i64 {
    open spec fn wire(v: i64) -> Seq<u8> {
        u64_bytes(v as u64)
    }

    open spec fn encodable(v: i64) -> bool {
        true
    }

    open spec fn encode_error(v: i64) -> Option<EncodeError> {
        None
    }

    open spec fn parse(bytes: Seq<u8>) -> Result<(i64, nat), DecodeError> {
        if bytes.len() < 8 {
            eof()
        } else {
            Ok((be_u64_at(bytes, 0) as i64, 8))
        }
    }

    proof fn lemma_round_trip(v: i64, rest: Seq<u8>) {
        lemma_u64_round_trip(v as u64);
        assert((v as u64) as i64 == v) by (bit_vector);
    }

    fn encode(&self, buffer: &mut Vec<u8>) -> (r: Result<(), EncodeError>) {
        write_u64(buffer, *self as u64);
        Ok(())
    }

    fn decode(buffer: &[u8], pos: usize) -> (r: Result<(i64, usize), DecodeError>) {
        if buffer.len() - pos < 8 {
            Err(DecodeError::IoError)
        } else {
            Ok((read_u64(buffer, pos) as i64, pos + 8))
        }
    }

    fn size(&self) -> (r: usize) {
        8
    }

    fn is_encodable(&self) -> (r: bool) {
        true
    }
}

impl Marshall for u64 {
    open spec fn wire(v: u64) -> Seq<u8> {
        u64_bytes(v)
    }

    open spec fn encodable(v: u64) -> bool {
        true
    }

    open spec fn encode_error(v: u64) -> Option<EncodeError> {
        None
    }

    open spec fn parse(bytes: Seq<u8>) -> Result<(u64, nat), DecodeError> {
        if bytes.len() < 8 {
            eof()
        } else {
            Ok((be_u64_at(bytes, 0), 8))
        }
    }

    proof fn lemma_round_trip(v: u64, rest: Seq<u8>) {
        lemma_u64_round_trip(v);
    }

    fn encode(&self, buffer: &mut Vec<u8>) -> (r: Result<(), EncodeError>) {
        write_u64(buffer, *self);
        Ok(())
    }

    fn decode(buffer: &[u8], pos: usize) -> (r: Result<(u64, usize), DecodeError>) {
        if buffer.len() - pos < 8 {
            Err(DecodeError::IoError)
        } else {
            Ok((read_u64(buffer, pos), pos + 8))
        }
    }

    fn size(&self) -> (r: usize) {
        8
    }

    fn is_encodable(&self) -> (r: bool) {
        true
    }
}

impl Marshall for bool {
    open spec fn wire(v: bool) -> Seq<u8> {
        seq![if v { 1u8 } else { 0u8 }]
    }

    open spec fn encodable(v: bool) -> bool {
        true
    }

    open spec fn encode_error(v: bool) -> Option<EncodeError> {
        None
    }

    open spec fn parse(bytes: Seq<u8>) -> Result<(bool, nat), DecodeError> {
        if bytes.len() < 1 {
            eof()
        } else if bytes[0] == 0 {
            Ok((false, 1))
        } else if bytes[0] == 1 {
            Ok((true, 1))
        } else {
            Err(DecodeError::InvalidBoolean(bytes[0] as i8))
        }
    }

    proof fn lemma_round_trip(v: bool, rest: Seq<u8>) {
    }

    fn encode(&self, buffer: &mut Vec<u8>) -> (r: Result<(), EncodeError>) {
        let b: u8 = if *self { 1 } else { 0 };
        buffer.push(b);
        assert(buffer@ =~= old(buffer)@ + Self::wire(*self));
        Ok(())
    }

    fn decode(buffer: &[u8], pos: usize) -> (r: Result<(bool, usize), DecodeError>) {
        if buffer.len() - pos < 1 {
            return Err(DecodeError::IoError);
        }
        let b = buffer[pos];
        if b == 0 {
            Ok((false, pos + 1))
        } else if b == 1 {
            Ok((true, pos + 1))
        } else {
            Err(DecodeError::InvalidBoolean(b as i8))
        }
    }

    fn size(&self) -> (r: usize) {
        1
    }

    fn is_encodable(&self) -> (r: bool) {
        true
    }
}

/// The UTF-8 bytes of the characters `s`.
pub open spec fn utf8_of(s: Seq<char>) -> Seq<u8> {
    encode_utf8(s)
}

/// Relies on `String::from_utf8`: it returns the string whose UTF-8 bytes are
/// `v` when `v` is valid UTF-8, and an error otherwise.
#[verifier::external_body]
pub(crate) fn string_from_utf8(v: Vec<u8>) -> (r: Option<String>)
    ensures
        match r {
            Some(s) => valid_utf8(v@) && encode_utf8(s@) == v@,
            None => !valid_utf8(v@),
        },
{
    String::from_utf8(v).ok()
}

impl Marshall for String {
    open spec fn wire(v: Seq<char>) -> Seq<u8> {
        u32_bytes((utf8_of(v).len() + 1) as u32) + utf8_of(v) + seq![0u8]
    }

    open spec fn encodable(v: Seq<char>) -> bool {
        utf8_of(v).len() + 1 <= i32::MAX
    }

    open spec fn encode_error(v: Seq<char>) -> Option<EncodeError> {
        None
    }

    open spec fn parse(bytes: Seq<u8>) -> Result<(Seq<char>, nat), DecodeError> {
        if bytes.len() < 4 {
            eof()
        } else {
            let n = be_u32_at(bytes, 0) as i32;
            if n <= 0 {
                Err(DecodeError::InvalidSize(n as i64))
            } else if bytes.len() < 4 + (n - 1) {
                eof()
            } else if !valid_utf8(bytes.subrange(4, 4 + (n - 1))) {
                Err(DecodeError::Utf8Error)
            } else if bytes.len() < 4 + n {
                eof()
            } else if bytes[4 + (n - 1)] != 0 {
                Err(DecodeError::MissingNullTerminator)
            } else {
                Ok((decode_utf8(bytes.subrange(4, 4 + (n - 1))), (4 + n) as nat))
            }
        }
    }

    proof fn lemma_round_trip(v: Seq<char>, rest: Seq<u8>) {
        let b = utf8_of(v);
        let k = (b.len() + 1) as u32;
        let s = Self::wire(v) + rest;
        lemma_u32_round_trip(k);
        assert(s.subrange(0, 4) =~= u32_bytes(k));
        assert((k as i32) as int == b.len() + 1);
        assert(s.subrange(4, 4 + b.len() as int) =~= b);
        vstd::utf8::encode_utf8_valid_utf8(v);
        vstd::utf8::encode_utf8_decode_utf8(v);
        assert(s[4 + b.len() as int] == 0);
    }

    fn encode(&self, buffer: &mut Vec<u8>) -> (r: Result<(), EncodeError>) {
        let bytes = self.as_str().as_bytes();
        let len = bytes.len();
        write_u32(buffer, (len + 1) as u32);
        let ghost start = buffer@;
        let mut i: usize = 0;
        while i < len
            invariant
                len == bytes@.len(),
                bytes@ == utf8_of(self@),
                i <= len,
                buffer@ == start + bytes@.subrange(0, i as int),
            decreases len - i,
        {
            buffer.push(bytes[i]);
            assert(bytes@.subrange(0, i + 1) =~= bytes@.subrange(0, i as int).push(bytes@[i as int]));
            i = i + 1;
        }
        buffer.push(0u8);
        assert(bytes@.subrange(0, len as int) =~= bytes@);
        assert(buffer@ =~= old(buffer)@ + Self::wire(self@));
        Ok(())
    }

    fn decode(buffer: &[u8], pos: usize) -> (r: Result<(String, usize), DecodeError>) {
        let ghost s = buffer@.subrange(pos as int, buffer@.len() as int);
        if buffer.len() - pos < 4 {
            return Err(DecodeError::IoError);
        }
        let n = read_u32(buffer, pos) as i32;
        assert(be_u32_at(buffer@, pos as int) == be_u32_at(s, 0));
        if n <= 0 {
            return Err(DecodeError::InvalidSize(n as i64));
        }
        let k = (n - 1) as usize;
        if buffer.len() - pos - 4 < k {
            return Err(DecodeError::IoError);
        }
        let start = pos + 4;
        let mut bytes: Vec<u8> = Vec::new();
        let mut i: usize = 0;
        while i < k
            invariant
                start + k <= buffer@.len(),
                i <= k,
                bytes@ == buffer@.subrange(start as int, start + i),
            decreases k - i,
        {
            bytes.push(buffer[start + i]);
            assert(buffer@.subrange(start as int, start + i + 1) =~= buffer@.subrange(
                start as int,
                start + i,
            ).push(buffer@[start + i]));
            i = i + 1;
        }
        assert(bytes@ =~= s.subrange(4, 4 + k));
        let text = match string_from_utf8(bytes) {
            Some(t) => t,
            None => {
                return Err(DecodeError::Utf8Error);
            },
        };
        proof {
            vstd::utf8::decode_utf8_encode_utf8(s.subrange(4, 4 + k));
            vstd::utf8::encode_utf8_decode_utf8(text@);
        }
        if start + k >= buffer.len() {
            return Err(DecodeError::IoError);
        }
        if buffer[start + k] != 0 {
            return Err(DecodeError::MissingNullTerminator);
        }
        Ok((text, start + k + 1))
    }

    fn size(&self) -> (r: usize) {
        4 + self.as_str().as_bytes().len() + 1
    }

    fn is_encodable(&self) -> (r: bool) {
        self.as_str().as_bytes().len() < 0x7fff_ffff
    }
}

/// Two values encoded one after the other: the shape of a record's fields.
impl<A: Marshall, B: Marshall> Marshall for (A, B) {
    open spec fn wire(v: (A::V, B::V)) -> Seq<u8> {
        A::wire(v.0) + B::wire(v.1)
    }

    open spec fn encodable(v: (A::V, B::V)) -> bool {
        A::encodable(v.0) && B::encodable(v.1) && A::wire(v.0).len() + B::wire(v.1).len()
            <= usize::MAX
    }

    open spec fn encode_error(v: (A::V, B::V)) -> Option<EncodeError> {
        match A::encode_error(v.0) {
            Some(e) => Some(e),
            None => B::encode_error(v.1),
        }
    }

    open spec fn parse(bytes: Seq<u8>) -> Result<((A::V, B::V), nat), DecodeError> {
        match A::parse(bytes) {
            Err(e) => Err(e),
            Ok((a, n)) => match B::parse(bytes.subrange(n as int, bytes.len() as int)) {
                Err(e) => Err(e),
                Ok((b, m)) => Ok(((a, b), n + m)),
            },
        }
    }

    proof fn lemma_round_trip(v: (A::V, B::V), rest: Seq<u8>) {
        let wa = A::wire(v.0);
        let wb = B::wire(v.1);
        assert(Self::wire(v) + rest =~= wa + (wb + rest));
        A::lemma_round_trip(v.0, wb + rest);
        assert((wa + (wb + rest)).subrange(wa.len() as int, (wa + (wb + rest)).len() as int)
            =~= wb + rest);
        B::lemma_round_trip(v.1, rest);
    }

    fn encode(&self, buffer: &mut Vec<u8>) -> (r: Result<(), EncodeError>) {
        self.0.encode(buffer)?;
        self.1.encode(buffer)?;
        assert(buffer@ =~= old(buffer)@ + Self::wire(self@));
        Ok(())
    }

    fn decode(buffer: &[u8], pos: usize) -> (r: Result<((A, B), usize), DecodeError>) {
        let ghost s = buffer@.subrange(pos as int, buffer@.len() as int);
        let (a, p1) = A::decode(buffer, pos)?;
        assert(s.subrange(p1 - pos, s.len() as int) =~= buffer@.subrange(
            p1 as int,
            buffer@.len() as int,
        ));
        let (b, p2) = B::decode(buffer, p1)?;
        Ok(((a, b), p2))
    }

    fn size(&self) -> (r: usize) {
        self.0.size() + self.1.size()
    }

    fn is_encodable(&self) -> (r: bool) {
        if !self.0.is_encodable() || !self.1.is_encodable() {
            return false;
        }
        self.0.size() <= usize::MAX - self.1.size()
    }
}

/// A record type of the protocol: it carries the 64-bit hash of its schema,
/// which travels in front of its encoding.
pub trait Message: Marshall {
    /// The schema hash of this type.
    spec fn spec_hash() -> u64;

    /// Returns the schema hash of this type.
    fn hash() -> (r: u64)
        ensures
            r == Self::spec_hash(),
    ;
}

/// The payload form of a value: its type's hash, then its encoding.
pub open spec fn wire_with_hash<M: Marshall>(hash: u64, v: M::V) -> Seq<u8> {
    u64_bytes(hash) + M::wire(v)
}

/// What decoding a hash-prefixed payload yields when `hash` is expected.
pub open spec fn parse_with_hash<M: Marshall>(hash: u64, bytes: Seq<u8>) -> Result<
    M::V,
    DecodeError,
> {
    if bytes.len() < 8 {
        Err(DecodeError::IoError)
    } else if be_u64_at(bytes, 0) != hash {
        Err(DecodeError::HashMismatch { expected: hash, found: be_u64_at(bytes, 0) })
    } else {
        match M::parse(bytes.subrange(8, bytes.len() as int)) {
            Ok((v, _)) => Ok(v),
            Err(e) => Err(e),
        }
    }
}

/// Encodes `m` with the 8-byte `hash` of its type in front.
pub fn encode_with_hash<M: Marshall>(hash: u64, m: &M) -> (r: Result<Vec<u8>, EncodeError>)
    requires
        M::encodable(m@),
    ensures
        match M::encode_error(m@) {
            None => r is Ok && r->Ok_0@ == wire_with_hash::<M>(hash, m@),
            Some(e) => r == Err::<Vec<u8>, EncodeError>(e),
        },
{
    let mut buffer: Vec<u8> = Vec::new();
    write_u64(&mut buffer, hash);
    m.encode(&mut buffer)?;
    Ok(buffer)
}

/// Decodes a hash-prefixed payload, checking that its hash is `hash`.
pub fn decode_with_hash<M: Marshall>(hash: u64, buffer: &[u8]) -> (r: Result<M, DecodeError>)
    ensures
        match parse_with_hash::<M>(hash, buffer@) {
            Ok(v) => r is Ok && r->Ok_0@ == v,
            Err(e) => r == Err::<M, DecodeError>(e),
        },
{
    if buffer.len() < 8 {
        return Err(DecodeError::IoError);
    }
    let found = read_u64(buffer, 0);
    if found != hash {
        return Err(DecodeError::HashMismatch { expected: hash, found });
    }
    let (m, _) = M::decode(buffer, 8)?;
    Ok(m)
}

/// Decoding an encoded value gives it back.
pub proof fn lemma_decode_encode<M: Marshall>(v: M::V)
    requires
        M::encodable(v),
        M::encode_error(v) is None,
    ensures
        M::parse(M::wire(v)) == Ok::<(M::V, nat), DecodeError>((v, M::wire(v).len())),
{
    M::lemma_round_trip(v, Seq::empty());
    assert(M::wire(v) + Seq::empty() =~= M::wire(v));
}

/// Decoding a hash-prefixed payload with the hash it was encoded with gives
/// the value back.
pub proof fn lemma_decode_encode_with_hash<M: Marshall>(hash: u64, v: M::V)
    requires
        M::encodable(v),
        M::encode_error(v) is None,
    ensures
        parse_with_hash::<M>(hash, wire_with_hash::<M>(hash, v)) == Ok::<M::V, DecodeError>(v),
{
    let w = wire_with_hash::<M>(hash, v);
    lemma_u64_round_trip(hash);
    assert(w.subrange(8, w.len() as int) =~= M::wire(v));
    lemma_decode_encode::<M>(v);
}

/// The encodings of `vs`, one after the other: an array has no length prefix.
pub open spec fn wire_all<T: Marshall>(vs: Seq<T::V>) -> Seq<u8>
    decreases vs.len(),
{
    if vs.len() == 0 {
        Seq::empty()
    } else {
        T::wire(vs[0]) + wire_all::<T>(vs.drop_first())
    }
}

/// Whether each of `vs` encodes without error.
pub open spec fn all_encodable<T: Marshall>(vs: Seq<T::V>) -> bool {
    forall|i: int|
        0 <= i < vs.len() ==> T::encodable(#[trigger] vs[i]) && T::encode_error(vs[i]) is None
}

/// `r` with `vs` put in front of its values and `m` added to its length.
pub open spec fn prepend<V>(vs: Seq<V>, m: nat, r: Result<(Seq<V>, nat), DecodeError>) -> Result<
    (Seq<V>, nat),
    DecodeError,
> {
    match r {
        Ok((ws, k)) => Ok((vs + ws, m + k)),
        Err(e) => Err(e),
    }
}

/// What decoding `n` values one after the other reads from the front of `bytes`.
pub open spec fn parse_all<T: Marshall>(bytes: Seq<u8>, n: nat) -> Result<
    (Seq<T::V>, nat),
    DecodeError,
>
    decreases n,
{
    if n == 0 {
        Ok((Seq::empty(), 0))
    } else {
        match T::parse(bytes) {
            Err(e) => Err(e),
            Ok((v, k)) => prepend(
                seq![v],
                k,
                parse_all::<T>(bytes.subrange(k as int, bytes.len() as int), (n - 1) as nat),
            ),
        }
    }
}

/// The values of the items of `v`.
pub open spec fn views<T: View>(v: Seq<T>) -> Seq<T::V> {
    v.map_values(|x: T| x@)
}

proof fn lemma_wire_all_push<T: Marshall>(vs: Seq<T::V>, x: T::V)
    ensures
        wire_all::<T>(vs.push(x)) == wire_all::<T>(vs) + T::wire(x),
    decreases vs.len(),
{
    if vs.len() == 0 {
        assert(vs.push(x).drop_first() =~= Seq::<T::V>::empty());
        assert(wire_all::<T>(vs.push(x).drop_first()) == Seq::<u8>::empty());
        assert(vs.push(x)[0] == x);
        assert(wire_all::<T>(vs.push(x)) =~= T::wire(x));
    } else {
        assert(vs.push(x).drop_first() =~= vs.drop_first().push(x));
        lemma_wire_all_push::<T>(vs.drop_first(), x);
        assert(wire_all::<T>(vs.push(x)) =~= wire_all::<T>(vs) + T::wire(x));
    }
}

/// Whether an array of `found` items disagrees with its size field `expected`.
pub open spec fn size_mismatch(expected: i64, found: nat) -> bool {
    expected < 0 || expected as int != found as int
}

/// Encodes the items of an array whose length the field named `size_var`
/// holds as `expected`; fails with `SizeMismatch` when the two disagree.
pub fn encode_array<T: Marshall>(size_var: &str, expected: i64, items: &Vec<T>, buffer: &mut Vec<u8>) -> (r:
    Result<(), EncodeError>)
    requires
        all_encodable::<T>(views(items@)),
    ensures
        size_mismatch(expected, items@.len()) ==> final(buffer)@ == old(buffer)@ && match r {
            Err(EncodeError::SizeMismatch { size_var: v, expected: e, found: f }) => v@
                == size_var@ && e == expected && f == items@.len(),
            _ => false,
        },
        !size_mismatch(expected, items@.len()) ==> r is Ok && final(buffer)@ == old(buffer)@
            + wire_all::<T>(views(items@)),
{
    let found = items.len();
    if expected < 0 || expected as u64 != found as u64 {
        return Err(
            EncodeError::SizeMismatch { size_var: size_var.to_owned(), expected, found },
        );
    }
    let ghost start = buffer@;
    let mut i: usize = 0;
    while i < found
        invariant
            found == items@.len(),
            i <= found,
            all_encodable::<T>(views(items@)),
            buffer@ == start + wire_all::<T>(views(items@.subrange(0, i as int))),
        decreases found - i,
    {
        let ghost prefix = views(items@.subrange(0, i as int));
        assert(T::encodable(views(items@)[i as int]));
        let r = items[i].encode(buffer);
        assert(views(items@.subrange(0, i + 1)) =~= prefix.push(items@[i as int]@));
        proof {
            lemma_wire_all_push::<T>(prefix, items@[i as int]@);
        }
        i = i + 1;
    }
    assert(items@.subrange(0, found as int) =~= items@);
    Ok(())
}

/// Decodes an array of `count` items at `pos`; a negative count is an
/// `InvalidSize`.
pub fn decode_array<T: Marshall>(buffer: &[u8], pos: usize, count: i64) -> (r: Result<
    (Vec<T>, usize),
    DecodeError,
>)
    requires
        pos <= buffer@.len(),
    ensures
        count < 0 ==> r == Err::<(Vec<T>, usize), DecodeError>(DecodeError::InvalidSize(count)),
        count >= 0 ==> match parse_all::<T>(
            buffer@.subrange(pos as int, buffer@.len() as int),
            count as nat,
        ) {
            Ok((vs, n)) => r is Ok && views(r->Ok_0.0@) == vs && r->Ok_0.1 == pos + n,
            Err(e) => r == Err::<(Vec<T>, usize), DecodeError>(e),
        },
{
    if count < 0 {
        return Err(DecodeError::InvalidSize(count));
    }
    let ghost whole = buffer@.subrange(pos as int, buffer@.len() as int);
    let mut items: Vec<T> = Vec::new();
    let mut p = pos;
    let mut i: u64 = 0;
    let n = count as u64;
    while i < n
        invariant
            count >= 0,
            whole == buffer@.subrange(pos as int, buffer@.len() as int),
            n == count as u64,
            i <= n,
            pos <= p <= buffer@.len(),
            parse_all::<T>(whole, n as nat) == prepend(
                views(items@),
                (p - pos) as nat,
                parse_all::<T>(
                    buffer@.subrange(p as int, buffer@.len() as int),
                    (n - i) as nat,
                ),
            ),
        decreases n - i,
    {
        let ghost here = buffer@.subrange(p as int, buffer@.len() as int);
        let ghost before = views(items@);
        let decoded = T::decode(buffer, p);
        let (v, p2) = match decoded {
            Ok(x) => x,
            Err(e) => {
                assert(parse_all::<T>(here, (n - i) as nat) == Err::<(Seq<T::V>, nat), DecodeError>(
                    e,
                ));
                return Err(e);
            },
        };
        assert(here.subrange(p2 - p, here.len() as int) =~= buffer@.subrange(
            p2 as int,
            buffer@.len() as int,
        ));
        items.push(v);
        assert(views(items@) =~= before + seq![v@]);
        let ghost rest = parse_all::<T>(
            buffer@.subrange(p2 as int, buffer@.len() as int),
            (n - i - 1) as nat,
        );
        assert(prepend(before, (p - pos) as nat, prepend(seq![v@], (p2 - p) as nat, rest))
            == prepend(views(items@), (p2 - pos) as nat, rest)) by {
            match rest {
                Ok((ws, k)) => {
                    assert(before + (seq![v@] + ws) =~= views(items@) + ws);
                },
                Err(_) => {},
            }
        }
        p = p2;
        i = i + 1;
    }
    assert(views(items@) + Seq::<T::V>::empty() =~= views(items@));
    Ok((items, p))
}

/// Decoding the encoding of an array, whatever follows it, gives the array back.
pub proof fn lemma_array_round_trip<T: Marshall>(vs: Seq<T::V>, rest: Seq<u8>)
    requires
        all_encodable::<T>(vs),
    ensures
        parse_all::<T>(wire_all::<T>(vs) + rest, vs.len()) == Ok::<(Seq<T::V>, nat), DecodeError>(
            (vs, wire_all::<T>(vs).len()),
        ),
    decreases vs.len(),
{
    if vs.len() > 0 {
        let w0 = T::wire(vs[0]);
        let tail = vs.drop_first();
        assert(all_encodable::<T>(tail)) by {
            assert forall|i: int| 0 <= i < tail.len() implies T::encodable(#[trigger] tail[i])
                && T::encode_error(tail[i]) is None by {
                assert(tail[i] == vs[i + 1]);
            }
        }
        assert(T::encodable(vs[0]));
        let all = wire_all::<T>(vs) + rest;
        assert(all =~= w0 + (wire_all::<T>(tail) + rest));
        T::lemma_round_trip(vs[0], wire_all::<T>(tail) + rest);
        assert(all.subrange(w0.len() as int, all.len() as int) =~= wire_all::<T>(tail) + rest);
        lemma_array_round_trip::<T>(tail, rest);
        assert(seq![vs[0]] + tail =~= vs);
        assert(tail.len() == (vs.len() - 1) as nat);
        assert(wire_all::<T>(vs) == w0 + wire_all::<T>(tail));
        assert(T::parse(all) == Ok::<(T::V, nat), DecodeError>((vs[0], w0.len())));
        assert(parse_all::<T>(all, vs.len()) == prepend(
            seq![vs[0]],
            w0.len(),
            parse_all::<T>(all.subrange(w0.len() as int, all.len() as int), tail.len()),
        ));
    } else {
        assert(vs =~= Seq::<T::V>::empty());
    }
}

/// A string whose length prefix and bytes are well formed but whose
/// terminating byte is not `0x00` fails to decode with
/// `MissingNullTerminator`.
pub proof fn lemma_missing_terminator(b: Seq<u8>, t: u8)
    requires
        valid_utf8(b),
        b.len() + 1 <= i32::MAX,
        t != 0,
    ensures
        <String as Marshall>::parse(u32_bytes((b.len() + 1) as u32) + b + seq![t]) == Err::<
            (Seq<char>, nat),
            DecodeError,
        >(DecodeError::MissingNullTerminator),
{
    let k = (b.len() + 1) as u32;
    let s = u32_bytes(k) + b + seq![t];
    lemma_u32_round_trip(k);
    assert(s.subrange(0, 4) =~= u32_bytes(k));
    assert((k as i32) as int == b.len() + 1);
    assert(s.subrange(4, 4 + b.len() as int) =~= b);
    assert(s[4 + b.len() as int] == t);
}

} // verus!
