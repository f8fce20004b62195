//! Encoding values as bytes and decoding them again.
//!
//! Integers are written in little-endian order. A collection is written as
//! its eight-byte prefix and nothing else, so decoding one only binds the
//! prefix again and reads none of its items.
use vstd::prelude::*;
use vstd::bytes::*;
use crate::store::ContractStateLL;

verus! {

/// The failure to decode a value: the bytes were malformed or too few.
#[derive(Debug, Clone, Copy, PartialEq, Eq, Structural)]
pub struct ParseError {}

/// The result of decoding a value.
pub type ParseResult<A> = Result<A, ParseError>;

/// `concordium_contracts_common::to_bytes` on a `u16`: its two bytes, the
/// least significant first.
#[verifier::external_body]
fn u16_to_bytes(x: u16) -> (out: Vec<u8>)
    ensures
        out@ == spec_u16_to_le_bytes(x),
{
    concordium_contracts_common::to_bytes(&x)
}

/// `concordium_contracts_common::to_bytes` on a `u32`: its four bytes,
/// the least significant first.
#[verifier::external_body]
fn u32_to_bytes(x: u32) -> (out: Vec<u8>)
    ensures
        out@ == spec_u32_to_le_bytes(x),
{
    concordium_contracts_common::to_bytes(&x)
}

/// `concordium_contracts_common::to_bytes` on a `u64`: its eight bytes,
/// the least significant first.
#[verifier::external_body]
fn u64_to_bytes(x: u64) -> (out: Vec<u8>)
    ensures
        out@ == spec_u64_to_le_bytes(x),
{
    concordium_contracts_common::to_bytes(&x)
}

/// `concordium_contracts_common::from_bytes` for a `u16`: the number that
/// the first two bytes of `source` hold in little-endian order, and
/// nothing where it fails, which is where there are fewer.
#[verifier::external_body]
fn u16_from_bytes(source: &[u8]) -> (r: Option<u16>)
    ensures
        source@.len() >= 2 ==> r == Some(spec_u16_from_le_bytes(source@.subrange(0, 2))),
        source@.len() < 2 ==> r is None,
{
    concordium_contracts_common::from_bytes(source).ok()
}

/// `concordium_contracts_common::from_bytes` for a `u32`: the number that
/// the first four bytes of `source` hold in little-endian order, and
/// nothing where it fails, which is where there are fewer.
#[verifier::external_body]
fn u32_from_bytes(source: &[u8]) -> (r: Option<u32>)
    ensures
        source@.len() >= 4 ==> r == Some(spec_u32_from_le_bytes(source@.subrange(0, 4))),
        source@.len() < 4 ==> r is None,
{
    concordium_contracts_common::from_bytes(source).ok()
}

/// `concordium_contracts_common::from_bytes` for a `u64`: the number that
/// the first eight bytes of `source` hold in little-endian order, and
/// nothing where it fails, which is where there are fewer.
#[verifier::external_body]
fn u64_from_bytes(source: &[u8]) -> (r: Option<u64>)
    ensures
        source@.len() >= 8 ==> r == Some(spec_u64_from_le_bytes(source@.subrange(0, 8))),
        source@.len() < 8 ==> r is None,
{
    concordium_contracts_common::from_bytes(source).ok()
}

/// A byte string with the offset of the next byte to read.
pub struct Cursor {
    pub offset: usize,
    pub data: Vec<u8>,
}

impl Cursor {
    /// The bytes not yet read.
    pub open spec fn remaining(&self) -> Seq<u8> {
        if self.offset <= self.data@.len() {
            self.data@.subrange(self.offset as int, self.data@.len() as int)
        } else {
            Seq::empty()
        }
    }

    /// A cursor at the start of `data`.
    pub fn new(data: Vec<u8>) -> (c: Cursor)
        ensures
            c.offset == 0,
            c.data == data,
            c.remaining() == data@,
    {
        let c = Cursor { offset: 0, data };
        assert(c.remaining() =~= c.data@);
        c
    }

    /// The bytes not yet read, as a slice.
    pub fn rest(&self) -> (s: &[u8])
        ensures
            s@ == self.remaining(),
    {
        let len = self.data.len();
        if self.offset <= len {
            vstd::slice::slice_subrange(self.data.as_slice(), self.offset, len)
        } else {
            vstd::slice::slice_subrange(self.data.as_slice(), len, len)
        }
    }

    /// Moves the offset `n` bytes on.
    pub fn advance(&mut self, n: usize)
        requires
            n <= old(self).remaining().len(),
        ensures
            final(self).data == old(self).data,
            final(self).offset == old(self).offset + n,
            final(self).remaining() == old(self).remaining().skip(n as int),
    {
        let len = self.data.len();
        assert(self.offset + n <= len || n == 0);
        self.offset = self.offset + n;
        assert(self.remaining() =~= old(self).remaining().skip(n as int));
    }
}

/// What `bytes` decode to where a value takes exactly the first `n` of them.
pub open spec fn fixed_width<T>(bytes: Seq<u8>, n: int, value: T) -> Option<(T, int)> {
    if bytes.len() >= n {
        Some((value, n))
    } else {
        None
    }
}

/// A value that can be written as bytes.
pub trait Serial {
    /// The bytes that stand for the value.
    spec fn encoding(&self) -> Seq<u8>;

    /// Appends the value's encoding to `out`.
    fn serial(&self, out: &mut Vec<u8>)
        ensures
            final(out)@ == old(out)@ + self.encoding(),
    ;
}

/// A value that can be read from bytes without any context.
pub trait Deserial: Sized {
    /// The value that `bytes` begin with and the number of bytes it takes,
    /// or nothing where they begin with none.
    spec fn parse(bytes: Seq<u8>) -> Option<(Self, int)>;

    /// Reads one value at the cursor and moves the cursor past it. On
    /// failure the cursor stays where it was.
    fn deserial(source: &mut Cursor) -> (r: ParseResult<Self>)
        ensures
            final(source).data == old(source).data,
            match Self::parse(old(source).remaining()) {
                Some((v, n)) => r == Ok::<Self, ParseError>(v) && final(source).offset
                    == old(source).offset + n,
                None => r is Err && final(source).offset == old(source).offset,
            },
    ;
}

/// A value with a working codec: what was written is read back unchanged,
/// whatever follows it.
pub trait Serialize: Serial + Deserial {
    /// Decoding the encoding of `v` gives `v`, and takes exactly the bytes
    /// of the encoding.
    proof fn lemma_round_trip(v: Self, rest: Seq<u8>)
        ensures
            Self::parse(v.encoding() + rest) == Some((v, v.encoding().len() as int)),
    ;
}

/// The encoding of `x` in a vector of its own.
pub fn to_bytes<S: Serial>(x: &S) -> (out: Vec<u8>)
    ensures
        out@ == x.encoding(),
{
    let mut out: Vec<u8> = Vec::new();
    x.serial(&mut out);
    assert(out@ =~= x.encoding());
    out
}

/// The value that `bytes` decode to from their start, whatever follows it.
pub open spec fn decoded<D: Deserial>(bytes: Seq<u8>) -> ParseResult<D> {
    match D::parse(bytes) {
        Some((v, _)) => Ok(v),
        None => Err(ParseError {  }),
    }
}

/// Decodes a value from the start of `source`.
pub fn from_bytes<D: Deserial>(source: &[u8]) -> (r: ParseResult<D>)
    ensures
        r == decoded::<D>(source@),
{
    let mut data: Vec<u8> = Vec::new();
    data.extend_from_slice(source);
    assert(data@ =~= source@);
    let mut cursor = Cursor::new(data);
    match D::deserial(&mut cursor) {
        Ok(v) => Ok(v),
        Err(_) => Err(ParseError {  }),
    }
}

/// A value that can be read from bytes where a store is at hand. A plain
/// value ignores the store. A collection reads only its prefix and is
/// bound to the store that the caller holds: none of its items is read.
pub trait DeserialStateCtx: Sized {
    /// The value that `bytes` begin with and the number of bytes it takes,
    /// or nothing where they begin with none.
    spec fn parse_ctx(bytes: Seq<u8>) -> Option<(Self, int)>;

    /// Reads one value at the cursor and moves the cursor past it. On
    /// failure the cursor stays where it was.
    fn deserial_state_ctx(state: &ContractStateLL, source: &mut Cursor) -> (r: ParseResult<Self>)
        ensures
            final(source).data == old(source).data,
            match Self::parse_ctx(old(source).remaining()) {
                Some((v, n)) => r == Ok::<Self, ParseError>(v) && final(source).offset
                    == old(source).offset + n,
                None => r is Err && final(source).offset == old(source).offset,
            },
    ;
}

impl<D: Deserial> DeserialStateCtx for D {
    open spec fn parse_ctx(bytes: Seq<u8>) -> Option<(Self, int)> {
        D::parse(bytes)
    }

    fn deserial_state_ctx(state: &ContractStateLL, source: &mut Cursor) -> (r: ParseResult<Self>) {
        D::deserial(source)
    }
}

/// The value that `bytes` decode to from their start where a store is at
/// hand, whatever follows it.
pub open spec fn decoded_ctx<D: DeserialStateCtx>(bytes: Seq<u8>) -> ParseResult<D> {
    match D::parse_ctx(bytes) {
        Some((v, _)) => Ok(v),
        None => Err(ParseError {  }),
    }
}

/// The codec of `v` works: its encoding decodes to `v` again, and takes
/// exactly the bytes of the encoding, whatever follows them.
pub open spec fn round_trips<T: Serial + DeserialStateCtx>(v: T) -> bool {
    forall|rest: Seq<u8>| #[trigger]
        T::parse_ctx(v.encoding() + rest) == Some((v, v.encoding().len() as int))
}

/// Decodes a value from the start of `data`, with a store at hand.
pub fn from_bytes_ctx<D: DeserialStateCtx>(state: &ContractStateLL, data: Vec<u8>) -> (r:
    ParseResult<D>)
    ensures
        r == decoded_ctx::<D>(data@),
{
    let mut cursor = Cursor::new(data);
    match D::deserial_state_ctx(state, &mut cursor) {
        Ok(v) => Ok(v),
        Err(_) => Err(ParseError {  }),
    }
}

impl Serial for u8 {
    open spec fn encoding(&self) -> Seq<u8> {
        seq![*self]
    }

    fn serial(&self, out: &mut Vec<u8>) {
        out.push(*self);
        assert(out@ =~= old(out)@ + seq![*self]);
    }
}

impl Deserial for u8 {
    open spec fn parse(bytes: Seq<u8>) -> Option<(Self, int)> {
        fixed_width(bytes, 1, bytes[0])
    }

    fn deserial(source: &mut Cursor) -> (r: ParseResult<Self>) {
        let rest = source.rest();
        if rest.len() >= 1 {
            let v = rest[0];
            source.advance(1);
            Ok(v)
        } else {
            Err(ParseError {  })
        }
    }
}

impl Serialize for u8 {
    proof fn lemma_round_trip(v: Self, rest: Seq<u8>) {
    }
}

impl Serial for u16 {
    open spec fn encoding(&self) -> Seq<u8> {
        spec_u16_to_le_bytes(*self)
    }

    fn serial(&self, out: &mut Vec<u8>) {
        let mut bytes = u16_to_bytes(*self);
        out.append(&mut bytes);
    }
}

impl Deserial for u16 {
    open spec fn parse(bytes: Seq<u8>) -> Option<(Self, int)> {
        fixed_width(bytes, 2, spec_u16_from_le_bytes(bytes.subrange(0, 2)))
    }

    fn deserial(source: &mut Cursor) -> (r: ParseResult<Self>) {
        match u16_from_bytes(source.rest()) {
            Some(v) => {
                source.advance(2);
                Ok(v)
            },
            None => Err(ParseError {  }),
        }
    }
}

impl Serialize for u16 {
    proof fn lemma_round_trip(v: Self, rest: Seq<u8>) {
        lemma_auto_spec_u16_to_from_le_bytes();
        assert((v.encoding() + rest).subrange(0, 2) =~= v.encoding());
    }
}

impl Serial for u32 {
    open spec fn encoding(&self) -> Seq<u8> {
        spec_u32_to_le_bytes(*self)
    }

    fn serial(&self, out: &mut Vec<u8>) {
        let mut bytes = u32_to_bytes(*self);
        out.append(&mut bytes);
    }
}

impl Deserial for u32 {
    open spec fn parse(bytes: Seq<u8>) -> Option<(Self, int)> {
        fixed_width(bytes, 4, spec_u32_from_le_bytes(bytes.subrange(0, 4)))
    }

    fn deserial(source: &mut Cursor) -> (r: ParseResult<Self>) {
        match u32_from_bytes(source.rest()) {
            Some(v) => {
                source.advance(4);
                Ok(v)
            },
            None => Err(ParseError {  }),
        }
    }
}

impl Serialize for u32 {
    proof fn lemma_round_trip(v: Self, rest: Seq<u8>) {
        lemma_auto_spec_u32_to_from_le_bytes();
        assert((v.encoding() + rest).subrange(0, 4) =~= v.encoding());
    }
}

impl Serial for u64 {
    open spec fn encoding(&self) -> Seq<u8> {
        spec_u64_to_le_bytes(*self)
    }

    fn serial(&self, out: &mut Vec<u8>) {
        let mut bytes = u64_to_bytes(*self);
        out.append(&mut bytes);
    }
}

impl Deserial for u64 {
    open spec fn parse(bytes: Seq<u8>) -> Option<(Self, int)> {
        fixed_width(bytes, 8, spec_u64_from_le_bytes(bytes.subrange(0, 8)))
    }

    fn deserial(source: &mut Cursor) -> (r: ParseResult<Self>) {
        match u64_from_bytes(source.rest()) {
            Some(v) => {
                source.advance(8);
                Ok(v)
            },
            None => Err(ParseError {  }),
        }
    }
}

impl Serialize for u64 {
    proof fn lemma_round_trip(v: Self, rest: Seq<u8>) {
        lemma_auto_spec_u64_to_from_le_bytes();
        assert((v.encoding() + rest).subrange(0, 8) =~= v.encoding());
    }
}

} // verus!
