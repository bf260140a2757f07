//! Byte strings of fixed and of any length, and 256-bit numbers.

use crate::rlp::{
    be_value, decode_array, decode_payload, encode_string, lemma_head_bounds, parse_fixed,
    parse_payload, parse_u256, string_rlp, uint_rlp, Decodable, Encodable, Parsed, RlpValue,
};
use alloy_rlp::Error;
use vstd::prelude::*;

verus! {

/// A byte string of `N` bytes.
#[derive(Clone, Copy, Debug, PartialEq, Eq)]
pub struct FixedBytes<const N: usize>(pub [u8; N]);

/// An account address.
pub type Address = FixedBytes<20>;

/// A 256-bit hash.
pub type B256 = FixedBytes<32>;

/// A logs bloom filter.
pub type Bloom = FixedBytes<256>;

/// A proof-of-work nonce.
pub type B64 = FixedBytes<8>;

impl<const N: usize> View for FixedBytes<N> {
    type V = Seq<u8>;

    open spec fn view(&self) -> Seq<u8> {
        self.0@
    }
}

impl<const N: usize> FixedBytes<N> {
    /// The string whose bytes are all zero.
    pub fn zero() -> (res: Self)
        ensures
            res@ == Seq::new(N as nat, |i: int| 0u8),
    {
        let res = FixedBytes([0u8;N]);
        assert(res@ =~= Seq::new(N as nat, |i: int| 0u8));
        res
    }

    /// The string that `bytes` lists.
    pub open spec fn of(bytes: Seq<u8>) -> Self {
        choose|x: FixedBytes<N>| x@ == bytes
    }

    /// Strings with the same bytes are equal.
    pub proof fn lemma_of(self)
        ensures
            Self::of(self@) == self,
    {
        let other = Self::of(self@);
        assert(other@ == self@);
        assert(other.0 =~= self.0);
    }
}

impl<const N: usize> RlpValue for FixedBytes<N> {
    type Value = FixedBytes<N>;

    open spec fn value(&self) -> FixedBytes<N> {
        *self
    }
}

impl<const N: usize> Encodable for FixedBytes<N> {
    open spec fn rlp(v: FixedBytes<N>) -> Seq<u8> {
        string_rlp(v@)
    }

    fn encode(&self, out: &mut Vec<u8>) {
        encode_string(self.0.as_slice(), out);
    }
}

impl<const N: usize> Decodable for FixedBytes<N> {
    open spec fn parse(buf: Seq<u8>) -> Parsed<FixedBytes<N>> {
        match parse_fixed(buf, N as nat) {
            (Ok(bytes), rest) => (Ok(FixedBytes::of(bytes)), rest),
            (Err(e), rest) => (Err(e), rest),
        }
    }

    proof fn parse_consumes(buf: Seq<u8>) {
        lemma_head_bounds(buf);
    }

    fn decode(buf: &mut &[u8]) -> (res: Result<FixedBytes<N>, Error>) {
        match decode_array::<N>(buf) {
            Ok(bytes) => {
                let res = FixedBytes(bytes);
                proof {
                    res.lemma_of();
                }
                Ok(res)
            },
            Err(e) => Err(e),
        }
    }
}

/// A byte string of any length.
#[derive(Debug, PartialEq, Eq)]
pub struct Bytes(pub Vec<u8>);

impl Clone for Bytes {
    fn clone(&self) -> (res: Self)
        ensures
            res@ == self@,
    {
        let mut copy: Vec<u8> = Vec::new();
        copy.extend_from_slice(self.0.as_slice());
        assert(copy@ =~= self.0@);
        Bytes(copy)
    }
}

impl View for Bytes {
    type V = Seq<u8>;

    open spec fn view(&self) -> Seq<u8> {
        self.0@
    }
}

impl Bytes {
    /// The empty string.
    pub fn new() -> (res: Self)
        ensures
            res@ == Seq::<u8>::empty(),
    {
        Bytes(Vec::new())
    }

    /// Whether there are no bytes.
    pub fn is_empty(&self) -> (res: bool)
        ensures
            res == (self@.len() == 0),
    {
        self.0.is_empty()
    }

    /// The bytes.
    pub fn as_slice(&self) -> (res: &[u8])
        ensures
            res@ == self@,
    {
        self.0.as_slice()
    }
}

impl From<Vec<u8>> for Bytes {
    fn from(bytes: Vec<u8>) -> (res: Self) {
        Bytes(bytes)
    }
}

impl vstd::std_specs::convert::FromSpecImpl<Vec<u8>> for Bytes {
    open spec fn obeys_from_spec() -> bool {
        true
    }

    open spec fn from_spec(bytes: Vec<u8>) -> Self {
        Bytes(bytes)
    }
}

impl RlpValue for Bytes {
    type Value = Seq<u8>;

    open spec fn value(&self) -> Seq<u8> {
        self@
    }
}

impl Encodable for Bytes {
    open spec fn rlp(v: Seq<u8>) -> Seq<u8> {
        string_rlp(v)
    }

    fn encode(&self, out: &mut Vec<u8>) {
        encode_string(self.as_slice(), out);
    }
}

impl Decodable for Bytes {
    open spec fn parse(buf: Seq<u8>) -> Parsed<Seq<u8>> {
        parse_payload(buf, false)
    }

    proof fn parse_consumes(buf: Seq<u8>) {
        lemma_head_bounds(buf);
    }

    fn decode(buf: &mut &[u8]) -> (res: Result<Bytes, Error>) {
        match decode_payload(buf, false) {
            Ok(bytes) => {
                let mut copy: Vec<u8> = Vec::new();
                copy.extend_from_slice(bytes);
                assert(copy@ =~= bytes@);
                Ok(Bytes(copy))
            },
            Err(e) => Err(e),
        }
    }
}

/// A 256-bit number, as its 32 bytes in big-endian order.
#[derive(Clone, Copy, Debug, PartialEq, Eq)]
pub struct U256(pub [u8; 32]);

impl U256 {
    /// The number.
    pub open spec fn number(&self) -> nat {
        be_value(self.0@)
    }

    /// The value with the given number.
    pub open spec fn of(n: nat) -> Self {
        choose|x: U256| x.number() == n
    }

    /// Zero.
    pub fn zero() -> (res: Self)
        ensures
            res.0@ == Seq::new(32, |i: int| 0u8),
    {
        let res = U256([0u8;32]);
        assert(res.0@ =~= Seq::new(32, |i: int| 0u8));
        res
    }
}

/// `alloy_rlp::Encodable::encode` for `alloy_primitives::U256`: appends the
/// number.
#[verifier::external_body]
fn encode_u256(bytes: [u8; 32], out: &mut Vec<u8>)
    ensures
        final(out)@ == old(out)@ + uint_rlp(be_value(bytes@)),
{
    alloy_rlp::Encodable::encode(&alloy_primitives::U256::from_be_bytes::<32>(bytes), out)
}

/// `alloy_rlp::Decodable::decode` for `alloy_primitives::U256`: reads a number
/// of at most 32 bytes, which is handed out as 32 big-endian bytes.
#[verifier::external_body]
fn decode_u256(buf: &mut &[u8]) -> (res: Result<[u8; 32], Error>)
    ensures
        final(buf)@ == parse_u256(old(buf)@).1,
        parse_u256(old(buf)@).0 == (match res {
            Ok(bytes) => Ok::<nat, Error>(be_value(bytes@)),
            Err(e) => Err(e),
        }),
{
    let number: alloy_primitives::U256 = alloy_rlp::Decodable::decode(buf)?;
    Ok(number.to_be_bytes::<32>())
}

/// Big-endian numerals of the same length that stand for the same number are
/// the same.
pub proof fn lemma_be_value_injective(a: Seq<u8>, b: Seq<u8>)
    requires
        a.len() == b.len(),
        be_value(a) == be_value(b),
    ensures
        a == b,
    decreases a.len(),
{
    if a.len() > 0 {
        lemma_be_value_injective(a.drop_last(), b.drop_last());
        assert(a =~= a.drop_last().push(a.last()));
        assert(b =~= b.drop_last().push(b.last()));
    } else {
        assert(a =~= b);
    }
}

impl U256 {
    /// Values with the same number are equal.
    pub proof fn lemma_of(self)
        ensures
            Self::of(self.number()) == self,
    {
        let other = Self::of(self.number());
        lemma_be_value_injective(other.0@, self.0@);
        assert(other.0 =~= self.0);
    }
}

impl RlpValue for U256 {
    type Value = U256;

    open spec fn value(&self) -> U256 {
        *self
    }
}

impl Encodable for U256 {
    open spec fn rlp(v: U256) -> Seq<u8> {
        uint_rlp(v.number())
    }

    fn encode(&self, out: &mut Vec<u8>) {
        encode_u256(self.0, out);
    }
}

impl Decodable for U256 {
    open spec fn parse(buf: Seq<u8>) -> Parsed<U256> {
        match parse_u256(buf) {
            (Ok(n), rest) => (Ok(U256::of(n)), rest),
            (Err(e), rest) => (Err(e), rest),
        }
    }

    proof fn parse_consumes(buf: Seq<u8>) {
        lemma_head_bounds(buf);
    }

    fn decode(buf: &mut &[u8]) -> (res: Result<U256, Error>) {
        let bytes = decode_u256(buf)?;
        let res = U256(bytes);
        proof {
            res.lemma_of();
        }
        Ok(res)
    }
}

} // verus!
