//! The Recursive Length Prefix encoding: its grammar as specification
//! functions, the codec traits that values of a block implement, and the
//! operations that come from `alloy_rlp`.

use alloy_rlp::Error;
use vstd::prelude::*;

verus! {

/// Makes the variants of `alloy_rlp::Error` known to the verifier.
#[verifier::external_type_specification]
pub struct ExRlpError(alloy_rlp::Error);

/// The prefix of an item.
pub struct RlpHead {
    /// Whether the item is a list.
    pub list: bool,
    /// Length of the payload in bytes.
    pub payload_length: usize,
}

// ---------------------------------------------------------------------------
// Big-endian numbers
// ---------------------------------------------------------------------------

/// The bytes of `n` in big-endian order, without leading zeros; zero has none.
pub open spec fn be_bytes(n: nat) -> Seq<u8>
    decreases n,
{
    if n == 0 {
        Seq::empty()
    } else {
        be_bytes(n / 256).push((n % 256) as u8)
    }
}

/// The number that `s` stands for in big-endian order.
pub open spec fn be_value(s: Seq<u8>) -> nat
    decreases s.len(),
{
    if s.len() == 0 {
        0
    } else {
        256 * be_value(s.drop_last()) + s.last() as nat
    }
}

// ---------------------------------------------------------------------------
// Writing
// ---------------------------------------------------------------------------

/// The prefix of an item whose payload has `n` bytes.
pub open spec fn head_rlp(list: bool, n: nat) -> Seq<u8> {
    if n < 56 {
        seq![((if list { 0xc0int } else { 0x80int }) + n) as u8]
    } else {
        seq![((if list { 0xf7int } else { 0xb7int }) + be_bytes(n).len()) as u8] + be_bytes(n)
    }
}

/// The item that holds the byte string `s`.
pub open spec fn string_rlp(s: Seq<u8>) -> Seq<u8> {
    if s.len() == 1 && s[0] < 0x80 {
        s
    } else {
        head_rlp(false, s.len()) + s
    }
}

/// The item that holds the number `n`.
pub open spec fn uint_rlp(n: nat) -> Seq<u8> {
    string_rlp(be_bytes(n))
}

/// The list whose items, written one after the other, are `payload`.
pub open spec fn list_rlp(payload: Seq<u8>) -> Seq<u8> {
    head_rlp(true, payload.len()) + payload
}

/// The code of the empty string.
pub const EMPTY_STRING_CODE: u8 = 0x80;

// ---------------------------------------------------------------------------
// Reading
//
// A reader maps its input to an outcome and to what is left of the input. The
// latter is told for failures too.
// ---------------------------------------------------------------------------

/// The outcome of a reader: what it found, and what is left of its input.
pub type Parsed<V> = (Result<V, Error>, Seq<u8>);

/// The head of an item with `n` bytes of payload, provided that `rest` has so many.
pub open spec fn head_before(list: bool, n: nat, rest: Seq<u8>) -> Parsed<RlpHead> {
    if rest.len() < n {
        (Err(Error::InputTooShort), rest)
    } else {
        (Ok(RlpHead { list, payload_length: n as usize }), rest)
    }
}

/// Reads the prefix of an item. A byte below `0x80` is its own payload, so
/// nothing is taken from the input in that case.
pub open spec fn parse_head(buf: Seq<u8>) -> Parsed<RlpHead> {
    if buf.len() == 0 {
        (Err(Error::InputTooShort), buf)
    } else {
        let code = buf[0];
        let rest = buf.skip(1);
        if code < 0x80 {
            head_before(false, 1, buf)
        } else if code <= 0xb7 {
            let n = (code - 0x80) as nat;
            if n == 1 && rest.len() == 0 {
                (Err(Error::InputTooShort), rest)
            } else if n == 1 && rest[0] < 0x80 {
                (Err(Error::NonCanonicalSingleByte), rest)
            } else {
                head_before(false, n, rest)
            }
        } else if code <= 0xbf || code >= 0xf8 {
            let list = code >= 0xf8;
            let k = if list { code - 0xf7 } else { code - 0xb7 };
            if rest.len() < k {
                (Err(Error::InputTooShort), rest)
            } else {
                let n = be_value(rest.take(k));
                if rest[0] == 0 {
                    (Err(Error::LeadingZero), rest.skip(k))
                } else if n > usize::MAX {
                    (Err(Error::Custom("Input too big")), rest.skip(k))
                } else if n < 56 {
                    (Err(Error::NonCanonicalSize), rest.skip(k))
                } else {
                    head_before(list, n, rest.skip(k))
                }
            }
        } else {
            head_before(true, (code - 0xc0) as nat, rest)
        }
    }
}

/// Reads a whole item, which has to be a list or a string as `list` says, and
/// yields its payload.
pub open spec fn parse_payload(buf: Seq<u8>, list: bool) -> Parsed<Seq<u8>> {
    match parse_head(buf) {
        (Err(e), rest) => (Err(e), rest),
        (Ok(head), rest) => {
            if head.list != list {
                (Err(if list { Error::UnexpectedString } else { Error::UnexpectedList }), rest)
            } else {
                (
                    Ok(rest.take(head.payload_length as int)),
                    rest.skip(head.payload_length as int),
                )
            }
        },
    }
}

/// Reads a number of at most eight bytes. A number that is not written in the
/// shortest way is left in the input.
pub open spec fn parse_u64(buf: Seq<u8>) -> Parsed<u64> {
    match parse_payload(buf, false) {
        (Ok(digits), rest) => {
            if digits.len() > 8 {
                (Err(Error::Overflow), rest)
            } else if digits.len() > 0 && digits[0] == 0 {
                (Err(Error::LeadingZero), buf)
            } else {
                (Ok(be_value(digits) as u64), rest)
            }
        },
        (Err(Error::NonCanonicalSingleByte), _) => (Err(Error::NonCanonicalSingleByte), buf),
        (Err(e), rest) => (Err(e), rest),
    }
}

/// Reads a string of exactly `n` bytes.
pub open spec fn parse_fixed(buf: Seq<u8>, n: nat) -> Parsed<Seq<u8>> {
    match parse_payload(buf, false) {
        (Ok(bytes), rest) => {
            if bytes.len() == n {
                (Ok(bytes), rest)
            } else {
                (Err(Error::UnexpectedLength), rest)
            }
        },
        (Err(e), rest) => (Err(e), rest),
    }
}

/// Reads a number of at most 32 bytes.
pub open spec fn parse_u256(buf: Seq<u8>) -> Parsed<nat> {
    match parse_payload(buf, false) {
        (Ok(digits), rest) => {
            if digits.len() > 0 && digits[0] == 0 {
                (Err(Error::LeadingZero), rest)
            } else if digits.len() > 32 {
                (Err(Error::Overflow), rest)
            } else {
                (Ok(be_value(digits)), rest)
            }
        },
        (Err(e), rest) => (Err(e), rest),
    }
}

/// Reads the prefix of a list and yields the length of its payload.
pub open spec fn open_list(buf: Seq<u8>) -> Parsed<usize> {
    match parse_head(buf) {
        (Ok(head), rest) => {
            if head.list {
                (Ok(head.payload_length), rest)
            } else {
                (Err(Error::UnexpectedString), rest)
            }
        },
        (Err(e), rest) => (Err(e), rest),
    }
}

/// Closes the reading of a list with `n` bytes of payload: `start` is the
/// input behind its prefix, `rest` what its fields have left of it.
pub open spec fn close_list<V>(v: V, n: usize, start: Seq<u8>, rest: Seq<u8>) -> Parsed<V> {
    let got = start.len() - rest.len();
    if got == n {
        (Ok(v), rest)
    } else {
        (Err(Error::ListLengthMismatch { expected: n, got: got as usize }), rest)
    }
}

// ---------------------------------------------------------------------------
// Codecs
// ---------------------------------------------------------------------------

/// A value with a mathematical counterpart, which its encoding depends on.
pub trait RlpValue {
    /// The counterpart's type.
    type Value;

    /// The counterpart.
    spec fn value(&self) -> Self::Value;
}

/// A value that can be written as RLP.
pub trait Encodable: RlpValue {
    /// The encoding.
    spec fn rlp(v: Self::Value) -> Seq<u8>;

    /// Appends the encoding to `out`.
    fn encode(&self, out: &mut Vec<u8>)
        ensures
            final(out)@ == old(out)@ + Self::rlp(self.value()),
    ;

    /// The length of the encoding. Without an implementation of its own a type
    /// finds it by encoding.
    fn length(&self) -> (n: usize)
        requires
            Self::rlp(self.value()).len() <= usize::MAX,
        ensures
            n == Self::rlp(self.value()).len(),
    {
        let mut out: Vec<u8> = Vec::new();
        self.encode(&mut out);
        out.len()
    }
}

/// A value that can be read from RLP.
pub trait Decodable: RlpValue + Sized {
    /// What is read from the input `buf`, and what is left of it.
    spec fn parse(buf: Seq<u8>) -> Parsed<Self::Value>;

    /// A value that is read takes up at least one byte.
    proof fn parse_consumes(buf: Seq<u8>)
        ensures
            Self::parse(buf).0 is Ok ==> Self::parse(buf).1.len() < buf.len(),
    ;

    /// Reads a value from the front of `buf`, which is advanced past it.
    fn decode(buf: &mut &[u8]) -> (res: Result<Self, Error>)
        ensures
            final(buf)@ == Self::parse(old(buf)@).1,
            Self::parse(old(buf)@).0 == result_value(res),
            match res {
                Ok(x) => Self::parse(old(buf)@).0 == Ok::<Self::Value, Error>(x.value()),
                Err(e) => Self::parse(old(buf)@).0 == Err::<Self::Value, Error>(e),
            },
    ;
}

/// A decoder's result with the mathematical counterpart of the value.
pub open spec fn result_value<T: RlpValue>(res: Result<T, Error>) -> Result<T::Value, Error> {
    match res {
        Ok(x) => Ok(x.value()),
        Err(e) => Err(e),
    }
}

/// The counterparts of a sequence of values.
pub open spec fn values<T: RlpValue>(s: Seq<T>) -> Seq<T::Value> {
    Seq::new(s.len(), |i: int| s[i].value())
}

/// The counterpart of a value that may be missing.
pub open spec fn opt_value<T: RlpValue>(x: Option<T>) -> Option<T::Value> {
    match x {
        Some(v) => Some(v.value()),
        None => None,
    }
}

/// Reads a `T` behind what `p` has read; a failure of `p` stands.
pub open spec fn and<V, T: Decodable>(p: Parsed<V>) -> Parsed<(V, T::Value)> {
    match p {
        (Ok(v), rest) => match T::parse(rest) {
            (Ok(w), tail) => (Ok((v, w)), tail),
            (Err(e), tail) => (Err(e), tail),
        },
        (Err(e), rest) => (Err(e), rest),
    }
}

/// Reading one more value uses up more of the input.
pub proof fn lemma_and_consumes<V, T: Decodable>(p: Parsed<V>)
    ensures
        and::<V, T>(p).0 is Ok ==> p.0 is Ok && and::<V, T>(p).1.len() < p.1.len(),
{
    T::parse_consumes(p.1);
}

/// Whether an encoded `v` is read back as `v`, whatever follows it.
pub open spec fn restores<T: Encodable + Decodable>(v: T::Value) -> bool {
    &&& T::rlp(v).len() > 0
    &&& forall|rest: Seq<u8>|
        T::parse(#[trigger] (T::rlp(v) + rest)) == (Ok::<T::Value, Error>(v), rest)
}

// ---------------------------------------------------------------------------
// Operations of alloy_rlp
// ---------------------------------------------------------------------------

/// `alloy_rlp::length_of_length`: the number of bytes that `Header::encode`
/// writes in front of a payload of the given length.
pub assume_specification[ alloy_rlp::length_of_length ](payload_length: usize) -> (n: usize)
    ensures
        n == head_rlp(true, payload_length as nat).len(),
;

/// `alloy_rlp::Header::decode`: reads the prefix of an item as `parse_head`
/// describes, and leaves the input where that says, also when it fails.
#[verifier::external_body]
pub(crate) fn decode_head(buf: &mut &[u8]) -> (res: Result<RlpHead, Error>)
    ensures
        (res, final(buf)@) == parse_head(old(buf)@),
{
    let head = alloy_rlp::Header::decode(buf)?;
    Ok(RlpHead { list: head.list, payload_length: head.payload_length })
}

/// `alloy_rlp::Header::decode_bytes`: reads an item and yields its payload, or
/// fails where the item is not of the kind asked for.
#[verifier::external_body]
pub(crate) fn decode_payload<'a>(buf: &mut &'a [u8], list: bool) -> (res: Result<&'a [u8], Error>)
    ensures
        final(buf)@ == parse_payload(old(buf)@, list).1,
        parse_payload(old(buf)@, list).0 == (match res {
            Ok(bytes) => Ok::<Seq<u8>, Error>(bytes@),
            Err(e) => Err(e),
        }),
{
    alloy_rlp::Header::decode_bytes(buf, list)
}

/// `alloy_rlp::Header::encode`: appends the prefix of an item.
#[verifier::external_body]
pub(crate) fn encode_head(list: bool, payload_length: usize, out: &mut Vec<u8>)
    ensures
        final(out)@ == old(out)@ + head_rlp(list, payload_length as nat),
{
    alloy_rlp::Header { list, payload_length }.encode(out)
}

/// `alloy_rlp::Encodable::encode` for a byte slice: appends it as a string.
#[verifier::external_body]
pub(crate) fn encode_string(bytes: &[u8], out: &mut Vec<u8>)
    ensures
        final(out)@ == old(out)@ + string_rlp(bytes@),
{
    alloy_rlp::Encodable::encode(bytes, out)
}

/// `alloy_rlp::Encodable::encode` for `u64`: appends the number.
#[verifier::external_body]
pub(crate) fn encode_u64(n: u64, out: &mut Vec<u8>)
    ensures
        final(out)@ == old(out)@ + uint_rlp(n as nat),
{
    alloy_rlp::Encodable::encode(&n, out)
}

/// `alloy_rlp::Decodable::decode` for `u64`: reads a number of at most eight
/// bytes. Where the digits start with a zero, or where a single digit below
/// `0x80` has a prefix, the input stays as it was.
#[verifier::external_body]
pub(crate) fn decode_u64(buf: &mut &[u8]) -> (res: Result<u64, Error>)
    ensures
        (res, final(buf)@) == parse_u64(old(buf)@),
{
    alloy_rlp::Decodable::decode(buf)
}

/// `alloy_rlp::Decodable::decode` for a byte array: reads a string of exactly
/// that length.
#[verifier::external_body]
pub(crate) fn decode_array<const N: usize>(buf: &mut &[u8]) -> (res: Result<[u8; N], Error>)
    ensures
        final(buf)@ == parse_fixed(old(buf)@, N as nat).1,
        parse_fixed(old(buf)@, N as nat).0 == (match res {
            Ok(bytes) => Ok::<Seq<u8>, Error>(bytes@),
            Err(e) => Err(e),
        }),
{
    alloy_rlp::Decodable::decode(buf)
}

// ---------------------------------------------------------------------------
// Numbers and lists
// ---------------------------------------------------------------------------

/// Reads the prefix of a list and yields the length of its payload.
pub(crate) fn decode_list_head(buf: &mut &[u8]) -> (res: Result<usize, Error>)
    ensures
        (res, final(buf)@) == open_list(old(buf)@),
{
    let head = decode_head(buf)?;
    if !head.list {
        return Err(Error::UnexpectedString);
    }
    Ok(head.payload_length)
}

/// Closes the reading of a list with `n` bytes of payload: `started` bytes were
/// there behind its prefix, and its fields have left `remaining` of them.
pub(crate) fn finish_list(n: usize, started: usize, remaining: usize) -> (res: Result<(), Error>)
    requires
        remaining <= started,
    ensures
        res == (if started - remaining == n {
            Ok::<(), Error>(())
        } else {
            Err(Error::ListLengthMismatch { expected: n, got: (started - remaining) as usize })
        }),
{
    let consumed: usize = started - remaining;
    if consumed != n {
        return Err(Error::ListLengthMismatch { expected: n, got: consumed });
    }
    Ok(())
}

/// A head that was read leaves its whole payload in the input, and head and
/// payload together are not empty.
pub proof fn lemma_head_bounds(buf: Seq<u8>)
    ensures
        parse_head(buf) matches (Ok(head), rest) ==> {
            &&& head.payload_length <= rest.len() <= buf.len()
            &&& rest.len() - head.payload_length < buf.len()
        },
{
}

impl RlpValue for u64 {
    type Value = u64;

    open spec fn value(&self) -> u64 {
        *self
    }
}

impl Encodable for u64 {
    open spec fn rlp(v: u64) -> Seq<u8> {
        uint_rlp(v as nat)
    }

    fn encode(&self, out: &mut Vec<u8>) {
        encode_u64(*self, out);
    }
}

impl Decodable for u64 {
    open spec fn parse(buf: Seq<u8>) -> Parsed<u64> {
        parse_u64(buf)
    }

    proof fn parse_consumes(buf: Seq<u8>) {
        lemma_head_bounds(buf);
    }

    fn decode(buf: &mut &[u8]) -> (res: Result<u64, Error>) {
        decode_u64(buf)
    }
}

/// The encodings of `vs`, one after the other.
pub open spec fn items_rlp<T: Encodable>(vs: Seq<T::Value>) -> Seq<u8>
    decreases vs.len(),
{
    if vs.len() == 0 {
        Seq::empty()
    } else {
        T::rlp(vs[0]) + items_rlp::<T>(vs.skip(1))
    }
}

/// Reads values until the input is used up. A value always takes up some of
/// the input (`Decodable::parse_consumes`), so the inner branch that stops
/// without progress is never taken.
pub open spec fn parse_items<T: Decodable>(payload: Seq<u8>) -> Result<Seq<T::Value>, Error>
    decreases payload.len(),
{
    if payload.len() == 0 {
        Ok(Seq::empty())
    } else {
        match T::parse(payload) {
            (Ok(v), rest) => {
                if rest.len() < payload.len() {
                    prepend(seq![v], parse_items::<T>(rest))
                } else {
                    Err(Error::InputTooShort)
                }
            },
            (Err(e), _) => Err(e),
        }
    }
}

/// What was read, with `vs` in front.
pub open spec fn prepend<V>(vs: Seq<V>, more: Result<Seq<V>, Error>) -> Result<Seq<V>, Error> {
    match more {
        Ok(ws) => Ok(vs + ws),
        Err(e) => Err(e),
    }
}

impl<T: RlpValue> RlpValue for Vec<T> {
    type Value = Seq<T::Value>;

    open spec fn value(&self) -> Seq<T::Value> {
        values(self@)
    }
}

impl<T: Encodable> Encodable for Vec<T> {
    open spec fn rlp(vs: Seq<T::Value>) -> Seq<u8> {
        list_rlp(items_rlp::<T>(vs))
    }

    fn encode(&self, out: &mut Vec<u8>) {
        let mut payload: Vec<u8> = Vec::new();
        let ghost vs = values(self@);
        assert(vs.skip(0) =~= vs);
        for i in 0..self.len()
            invariant
                vs == values(self@),
                payload@ + items_rlp::<T>(vs.skip(i as int)) == items_rlp::<T>(vs),
        {
            let ghost before = payload@;
            self[i].encode(&mut payload);
            proof {
                assert(vs.skip(i as int).skip(1) =~= vs.skip(i + 1));
                assert(payload@ + items_rlp::<T>(vs.skip(i + 1)) =~= before + items_rlp::<T>(
                    vs.skip(i as int),
                ));
            }
        }
        assert(payload@ =~= items_rlp::<T>(vs));
        encode_head(true, payload.len(), out);
        out.append(&mut payload);
    }

    fn length(&self) -> (n: usize) {
        let mut payload_length: usize = 0;
        let ghost vs = values(self@);
        assert(vs.skip(0) =~= vs);
        for i in 0..self.len()
            invariant
                vs == values(self@),
                items_rlp::<T>(vs).len() <= usize::MAX,
                payload_length + items_rlp::<T>(vs.skip(i as int)).len() == items_rlp::<T>(
                    vs,
                ).len(),
        {
            assert(vs.skip(i as int).skip(1) =~= vs.skip(i + 1));
            let item_length: usize = self[i].length();
            payload_length = payload_length + item_length;
        }
        payload_length + alloy_rlp::length_of_length(payload_length)
    }
}

impl<T: Decodable> Decodable for Vec<T> {
    open spec fn parse(buf: Seq<u8>) -> Parsed<Seq<T::Value>> {
        match parse_payload(buf, true) {
            (Ok(payload), rest) => (parse_items::<T>(payload), rest),
            (Err(e), rest) => (Err(e), rest),
        }
    }

    proof fn parse_consumes(buf: Seq<u8>) {
        lemma_head_bounds(buf);
    }

    fn decode(buf: &mut &[u8]) -> (res: Result<Vec<T>, Error>) {
        let mut payload: &[u8] = match decode_payload(buf, true) {
            Ok(payload) => payload,
            Err(e) => return Err(e),
        };
        let ghost all = payload@;
        let mut items: Vec<T> = Vec::new();
        proof {
            if parse_items::<T>(all) is Ok {
                let read = parse_items::<T>(all)->Ok_0;
                assert(Seq::<T::Value>::empty() + read =~= read);
            }
            assert(values(items@) =~= Seq::empty());
        }
        while payload.len() > 0
            invariant
                parse_payload(old(buf)@, true) == (Ok::<Seq<u8>, Error>(all), buf@),
                parse_items::<T>(all) == prepend(values(items@), parse_items::<T>(payload@)),
            decreases payload@.len(),
        {
            let ghost before = payload@;
            let ghost read = values(items@);
            proof {
                T::parse_consumes(before);
            }
            match T::decode(&mut payload) {
                Ok(item) => {
                    items.push(item);
                    proof {
                        assert(values(items@) =~= read.push(item.value()));
                        if let Ok(more) = parse_items::<T>(payload@) {
                            assert(read + (seq![item.value()] + more) =~= values(items@) + more);
                        }
                    }
                },
                Err(e) => return Err(e),
            }
        }
        proof {
            assert(values(items@) + Seq::<T::Value>::empty() =~= values(items@));
        }
        Ok(items)
    }
}

} // verus!
