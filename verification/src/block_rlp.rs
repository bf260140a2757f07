//! The RLP form of blocks and block bodies.
//!
//! A body is the list of its transactions, its ommers and three trailing
//! fields that may be missing. A missing field is left out where nothing
//! follows it, and is written as a placeholder, the empty string, where a
//! later field is there. A block is the same list with the header in front.

use crate::block::{Block, BlockBody};
use crate::bytes::Bytes;
use crate::rlp::{
    close_list, decode_list_head, encode_head, finish_list, lemma_head_bounds, list_rlp,
    open_list, opt_value, result_value, values, Decodable, Encodable, Parsed, RlpValue,
    EMPTY_STRING_CODE,
};
use crate::seal::{keccak256, keccak256_digest, Sealed};
use crate::withdrawal::{Withdrawal, Withdrawals};
use alloy_rlp::Error;
use vstd::prelude::*;

verus! {

// ---------------------------------------------------------------------------
// Values
// ---------------------------------------------------------------------------

/// The contents of a block body.
#[verifier::ext_equal]
pub struct BodyValue<A, B> {
    /// Transactions in this block.
    pub transactions: Seq<A>,
    /// Ommers/uncles header.
    pub ommers: Seq<B>,
    /// Block withdrawals.
    pub withdrawals: Option<Seq<Withdrawal>>,
    /// Slashed validator entries.
    pub slashed: Option<Seq<Withdrawal>>,
    /// Bridge requests blob.
    pub bridge_requests: Option<Seq<u8>>,
}

/// The contents of a block.
#[verifier::ext_equal]
pub struct BlockValue<A, B> {
    /// Block header.
    pub header: B,
    /// Block body.
    pub body: BodyValue<A, B>,
}

/// A bridge requests blob without bytes counts as missing.
pub open spec fn nonempty(bridge_requests: Option<Seq<u8>>) -> Option<Seq<u8>> {
    match bridge_requests {
        Some(blob) => if blob.len() == 0 {
            None
        } else {
            Some(blob)
        },
        None => None,
    }
}

impl<A, B> BodyValue<A, B> {
    /// The body without a bridge requests blob that has no bytes.
    pub open spec fn normalized(self) -> Self {
        BodyValue { bridge_requests: nonempty(self.bridge_requests), ..self }
    }
}

impl<A, B> BlockValue<A, B> {
    /// The block without a bridge requests blob that has no bytes.
    pub open spec fn normalized(self) -> Self {
        BlockValue { body: self.body.normalized(), ..self }
    }
}

impl<T: RlpValue, H: RlpValue> RlpValue for BlockBody<T, H> {
    type Value = BodyValue<T::Value, H::Value>;

    open spec fn value(&self) -> BodyValue<T::Value, H::Value> {
        BodyValue {
            transactions: values(self.transactions@),
            ommers: values(self.ommers@),
            withdrawals: opt_value(self.withdrawals),
            slashed: opt_value(self.slashed),
            bridge_requests: opt_value(self.bridge_requests),
        }
    }
}

impl<T: RlpValue, H: RlpValue> RlpValue for Block<T, H> {
    type Value = BlockValue<T::Value, H::Value>;

    open spec fn value(&self) -> BlockValue<T::Value, H::Value> {
        BlockValue { header: self.header.value(), body: self.body.value() }
    }
}

// ---------------------------------------------------------------------------
// Writing
// ---------------------------------------------------------------------------

/// A trailing field that may be missing; `later` says whether a later field is
/// there.
pub open spec fn trailing_rlp<F: Encodable>(field: Option<F::Value>, later: bool) -> Seq<u8> {
    match field {
        Some(v) => F::rlp(v),
        None => if later {
            seq![EMPTY_STRING_CODE]
        } else {
            Seq::empty()
        },
    }
}

/// The fields of a body.
pub open spec fn fields_rlp<T: Encodable, H: Encodable>(
    body: BodyValue<T::Value, H::Value>,
) -> Seq<u8> {
    Vec::<T>::rlp(body.transactions) + (Vec::<H>::rlp(body.ommers) + (trailing_rlp::<Withdrawals>(
        body.withdrawals,
        body.slashed is Some || body.bridge_requests is Some,
    ) + (trailing_rlp::<Withdrawals>(body.slashed, body.bridge_requests is Some)
        + trailing_rlp::<Bytes>(body.bridge_requests, false))))
}

/// The parts of a block that its encoding is made from, with the fields of the
/// body side by side with the header.
pub(crate) struct HelperRef<'a, T, H> {
    pub(crate) header: &'a H,
    pub(crate) transactions: &'a Vec<T>,
    pub(crate) ommers: &'a Vec<H>,
    pub(crate) withdrawals: Option<&'a Withdrawals>,
    pub(crate) slashed: Option<&'a Withdrawals>,
    pub(crate) bridge_requests: Option<&'a Bytes>,
}

/// The blob, unless it has no bytes.
fn filter_nonempty(bridge_requests: &Option<Bytes>) -> (res: Option<&Bytes>)
    ensures
        res == (match *bridge_requests {
            Some(blob) => if blob@.len() == 0 {
                None::<&Bytes>
            } else {
                Some(&blob)
            },
            None => None,
        }),
{
    match bridge_requests {
        Some(blob) => if blob.is_empty() {
            None
        } else {
            Some(blob)
        },
        None => None,
    }
}

impl<'a, T, H> HelperRef<'a, T, H> {
    /// The parts of the block with the given header and body. A bridge requests
    /// blob without bytes is taken for a missing one: its item is the same as
    /// the placeholder of a missing field, so it could not be read back.
    pub(crate) open spec fn of_parts(header: H, body: BlockBody<T, H>) -> Self {
        HelperRef {
            header: &header,
            transactions: &body.transactions,
            ommers: &body.ommers,
            withdrawals: (match body.withdrawals {
                Some(withdrawals) => Some(&withdrawals),
                None => None,
            }),
            slashed: (match body.slashed {
                Some(slashed) => Some(&slashed),
                None => None,
            }),
            bridge_requests: (match body.bridge_requests {
                Some(blob) => if blob@.len() == 0 {
                    None
                } else {
                    Some(&blob)
                },
                None => None,
            }),
        }
    }

    pub(crate) fn from_parts(header: &'a H, body: &'a BlockBody<T, H>) -> (res: Self)
        ensures
            res == Self::of_parts(*header, *body),
    {
        HelperRef {
            header,
            transactions: &body.transactions,
            ommers: &body.ommers,
            withdrawals: body.withdrawals.as_ref(),
            slashed: body.slashed.as_ref(),
            bridge_requests: filter_nonempty(&body.bridge_requests),
        }
    }
}

impl<'a, T, H> From<&'a Block<T, H>> for HelperRef<'a, T, H> {
    fn from(block: &'a Block<T, H>) -> (res: Self) {
        let Block {
            header,
            body: BlockBody { transactions, ommers, withdrawals, slashed, bridge_requests },
        } = block;
        HelperRef {
            header,
            transactions,
            ommers,
            withdrawals: withdrawals.as_ref(),
            slashed: slashed.as_ref(),
            bridge_requests: filter_nonempty(bridge_requests),
        }
    }
}

impl<'a, T, H> vstd::std_specs::convert::FromSpecImpl<&'a Block<T, H>> for HelperRef<'a, T, H> {
    open spec fn obeys_from_spec() -> bool {
        true
    }

    closed spec fn from_spec(block: &'a Block<T, H>) -> Self {
        HelperRef::of_parts(block.header, block.body)
    }
}

/// `HelperRef::from` gives what `HelperRef::from_parts` gives for the header and
/// the body of the block: the same six parts, without a bridge requests blob that
/// has no bytes.
pub(crate) proof fn helper_of_block_is_of_its_parts<'a, T, H>(block: &'a Block<T, H>)
    ensures
        <HelperRef<'a, T, H> as vstd::std_specs::convert::FromSpec<&'a Block<T, H>>>::from_spec(
            block,
        ) == HelperRef::<'a, T, H>::of_parts(block.header, block.body),
        block.body.bridge_requests matches Some(blob) && blob@.len() == 0
            ==> HelperRef::<'a, T, H>::of_parts(
            block.header,
            block.body,
        ).bridge_requests is None,
{
}

/// The counterpart of a value behind a reference that may be missing.
pub open spec fn opt_ref_value<F: RlpValue>(field: Option<&F>) -> Option<F::Value> {
    match field {
        Some(v) => Some(v.value()),
        None => None,
    }
}

/// Appends a trailing field; `later` says whether a later field is there.
fn encode_trailing<F: Encodable>(field: Option<&F>, later: bool, out: &mut Vec<u8>)
    ensures
        final(out)@ == old(out)@ + trailing_rlp::<F>(opt_ref_value(field), later),
{
    match field {
        Some(v) => v.encode(out),
        None => if later {
            out.push(EMPTY_STRING_CODE);
        },
    }
}

/// The length of a trailing field.
fn trailing_length<F: Encodable>(field: Option<&F>, later: bool) -> (n: usize)
    requires
        trailing_rlp::<F>(opt_ref_value(field), later).len() <= usize::MAX,
    ensures
        n == trailing_rlp::<F>(opt_ref_value(field), later).len(),
{
    match field {
        Some(v) => v.length(),
        None => if later {
            1
        } else {
            0
        },
    }
}

/// Appends the fields of a body.
fn encode_fields<T: Encodable, H: Encodable>(
    transactions: &Vec<T>,
    ommers: &Vec<H>,
    withdrawals: Option<&Withdrawals>,
    slashed: Option<&Withdrawals>,
    bridge_requests: Option<&Bytes>,
    out: &mut Vec<u8>,
)
    ensures
        final(out)@ == old(out)@ + fields_rlp::<T, H>(
            BodyValue {
                transactions: values(transactions@),
                ommers: values(ommers@),
                withdrawals: opt_ref_value(withdrawals),
                slashed: opt_ref_value(slashed),
                bridge_requests: opt_ref_value(bridge_requests),
            },
        ),
{
    transactions.encode(out);
    ommers.encode(out);
    encode_trailing(withdrawals, slashed.is_some() || bridge_requests.is_some(), out);
    encode_trailing(slashed, bridge_requests.is_some(), out);
    encode_trailing(bridge_requests, false, out);
    assert(out@ =~= old(out)@ + fields_rlp::<T, H>(
        BodyValue {
            transactions: values(transactions@),
            ommers: values(ommers@),
            withdrawals: opt_ref_value(withdrawals),
            slashed: opt_ref_value(slashed),
            bridge_requests: opt_ref_value(bridge_requests),
        },
    ));
}

/// The length of the fields of a body.
fn fields_length<T: Encodable, H: Encodable>(
    transactions: &Vec<T>,
    ommers: &Vec<H>,
    withdrawals: Option<&Withdrawals>,
    slashed: Option<&Withdrawals>,
    bridge_requests: Option<&Bytes>,
) -> (n: usize)
    requires
        fields_rlp::<T, H>(
            BodyValue {
                transactions: values(transactions@),
                ommers: values(ommers@),
                withdrawals: opt_ref_value(withdrawals),
                slashed: opt_ref_value(slashed),
                bridge_requests: opt_ref_value(bridge_requests),
            },
        ).len() <= usize::MAX,
    ensures
        n == fields_rlp::<T, H>(
            BodyValue {
                transactions: values(transactions@),
                ommers: values(ommers@),
                withdrawals: opt_ref_value(withdrawals),
                slashed: opt_ref_value(slashed),
                bridge_requests: opt_ref_value(bridge_requests),
            },
        ).len(),
{
    transactions.length() + ommers.length() + trailing_length(
        withdrawals,
        slashed.is_some() || bridge_requests.is_some(),
    ) + trailing_length(slashed, bridge_requests.is_some()) + trailing_length(
        bridge_requests,
        false,
    )
}

impl<'a, T: RlpValue, H: RlpValue> RlpValue for HelperRef<'a, T, H> {
    type Value = BlockValue<T::Value, H::Value>;

    closed spec fn value(&self) -> BlockValue<T::Value, H::Value> {
        BlockValue {
            header: self.header.value(),
            body: BodyValue {
                transactions: values(self.transactions@),
                ommers: values(self.ommers@),
                withdrawals: opt_ref_value(self.withdrawals),
                slashed: opt_ref_value(self.slashed),
                bridge_requests: opt_ref_value(self.bridge_requests),
            },
        }
    }
}

impl<'a, T: Encodable, H: Encodable> Encodable for HelperRef<'a, T, H> {
    open spec fn rlp(v: BlockValue<T::Value, H::Value>) -> Seq<u8> {
        list_rlp(H::rlp(v.header) + fields_rlp::<T, H>(v.body))
    }

    fn encode(&self, out: &mut Vec<u8>) {
        let mut payload: Vec<u8> = Vec::new();
        self.header.encode(&mut payload);
        encode_fields(
            self.transactions,
            self.ommers,
            self.withdrawals,
            self.slashed,
            self.bridge_requests,
            &mut payload,
        );
        assert(payload@ =~= H::rlp(self.value().header) + fields_rlp::<T, H>(self.value().body));
        encode_head(true, payload.len(), out);
        out.append(&mut payload);
    }

    fn length(&self) -> (n: usize) {
        let payload_length: usize = self.header.length() + fields_length(
            self.transactions,
            self.ommers,
            self.withdrawals,
            self.slashed,
            self.bridge_requests,
        );
        payload_length + alloy_rlp::length_of_length(payload_length)
    }
}

impl<T: Encodable, H: Encodable> Encodable for Block<T, H> {
    open spec fn rlp(v: BlockValue<T::Value, H::Value>) -> Seq<u8> {
        list_rlp(H::rlp(v.header) + fields_rlp::<T, H>(v.body.normalized()))
    }

    fn encode(&self, out: &mut Vec<u8>) {
        let helper: HelperRef<'_, T, H> = HelperRef::from(self);
        assert(helper.value() == self.value().normalized());
        helper.encode(out)
    }

    fn length(&self) -> (n: usize) {
        let helper: HelperRef<'_, T, H> = HelperRef::from(self);
        assert(helper.value() == self.value().normalized());
        helper.length()
    }
}

impl<T: Encodable, H: Encodable> Encodable for BlockBody<T, H> {
    open spec fn rlp(v: BodyValue<T::Value, H::Value>) -> Seq<u8> {
        list_rlp(fields_rlp::<T, H>(v))
    }

    fn encode(&self, out: &mut Vec<u8>) {
        let mut payload: Vec<u8> = Vec::new();
        encode_fields(
            &self.transactions,
            &self.ommers,
            self.withdrawals.as_ref(),
            self.slashed.as_ref(),
            self.bridge_requests.as_ref(),
            &mut payload,
        );
        assert(payload@ =~= fields_rlp::<T, H>(self.value()));
        encode_head(true, payload.len(), out);
        out.append(&mut payload);
    }

    fn length(&self) -> (n: usize) {
        let payload_length: usize = fields_length(
            &self.transactions,
            &self.ommers,
            self.withdrawals.as_ref(),
            self.slashed.as_ref(),
            self.bridge_requests.as_ref(),
        );
        payload_length + alloy_rlp::length_of_length(payload_length)
    }
}

impl<T: Encodable, H: Encodable> Block<T, H> {
    /// Encodes the block given header and block body.
    ///
    /// This is equivalent to `block.encode`.
    pub fn rlp_encode_from_parts(header: &H, body: &BlockBody<T, H>, out: &mut Vec<u8>)
        ensures
            final(out)@ == old(out)@ + Block::<T, H>::rlp(
                BlockValue { header: header.value(), body: body.value() },
            ),
    {
        let helper: HelperRef<'_, T, H> = HelperRef::from_parts(header, body);
        assert(helper.value() == BlockValue {
            header: header.value(),
            body: body.value(),
        }.normalized());
        helper.encode(out)
    }

    /// Encodes the block given header and block body.
    ///
    /// Returns the rlp encoded block. This is equivalent to `block.encode`.
    pub fn rlp_encoded_from_parts(header: &H, body: &BlockBody<T, H>) -> (res: Vec<u8>)
        ensures
            res@ == Block::<T, H>::rlp(BlockValue { header: header.value(), body: body.value() }),
    {
        let mut buf: Vec<u8> = Vec::new();
        Self::rlp_encode_from_parts(header, body, &mut buf);
        assert(buf@ =~= Block::<T, H>::rlp(
            BlockValue { header: header.value(), body: body.value() },
        ));
        buf
    }

    /// Returns the RLP encoded length of the block's header and body.
    pub fn rlp_length_for(header: &H, body: &BlockBody<T, H>) -> (n: usize)
        requires
            Block::<T, H>::rlp(BlockValue { header: header.value(), body: body.value() }).len()
                <= usize::MAX,
        ensures
            n == Block::<T, H>::rlp(
                BlockValue { header: header.value(), body: body.value() },
            ).len(),
    {
        let helper: HelperRef<'_, T, H> = HelperRef::from_parts(header, body);
        assert(helper.value() == BlockValue {
            header: header.value(),
            body: body.value(),
        }.normalized());
        helper.length()
    }
}

// ---------------------------------------------------------------------------
// Reading
//
// `after` is the number of bytes of the input that lie behind the list whose
// fields are read.
// ---------------------------------------------------------------------------

/// Reads the trailing withdrawals. An empty string stands for missing ones only
/// where more of the enclosing list follows; a placeholder in front of nothing
/// is not written, so there it is not the list that is asked for.
pub open spec fn parse_trailing_withdrawals(buf: Seq<u8>, after: nat) -> Parsed<
    Option<Seq<Withdrawal>>,
> {
    if buf.len() - after == 1 && buf[0] == EMPTY_STRING_CODE {
        (Err(Error::UnexpectedString), buf.skip(1))
    } else {
        parse_trailing_field::<Withdrawals>(buf, after)
    }
}

/// Reads a trailing field for which an empty string stands where it is missing.
pub open spec fn parse_trailing_field<F: Decodable>(buf: Seq<u8>, after: nat) -> Parsed<
    Option<F::Value>,
> {
    if buf.len() <= after {
        (Ok(None), buf)
    } else if buf[0] == EMPTY_STRING_CODE {
        (Ok(None), buf.skip(1))
    } else {
        match F::parse(buf) {
            (Ok(v), rest) => (Ok(Some(v)), rest),
            (Err(e), rest) => (Err(e), rest),
        }
    }
}

/// Reads the three trailing fields of a body.
pub open spec fn parse_trailing(buf: Seq<u8>, after: nat) -> Parsed<
    (Option<Seq<Withdrawal>>, Option<Seq<Withdrawal>>, Option<Seq<u8>>),
> {
    match parse_trailing_withdrawals(buf, after) {
        (Err(e), rest) => (Err(e), rest),
        (Ok(withdrawals), rest) => match parse_trailing_field::<Withdrawals>(rest, after) {
            (Err(e), rest) => (Err(e), rest),
            (Ok(slashed), rest) => match parse_trailing_field::<Bytes>(rest, after) {
                (Err(e), rest) => (Err(e), rest),
                (Ok(bridge_requests), rest) => (Ok((withdrawals, slashed, bridge_requests)), rest),
            },
        },
    }
}

/// Reads the fields of a body.
pub open spec fn parse_fields<T: Decodable, H: Decodable>(buf: Seq<u8>, after: nat) -> Parsed<
    BodyValue<T::Value, H::Value>,
> {
    match Vec::<T>::parse(buf) {
        (Err(e), rest) => (Err(e), rest),
        (Ok(transactions), rest) => match Vec::<H>::parse(rest) {
            (Err(e), rest) => (Err(e), rest),
            (Ok(ommers), rest) => match parse_trailing(rest, after) {
                (Err(e), rest) => (Err(e), rest),
                (Ok((withdrawals, slashed, bridge_requests)), rest) => (
                    Ok(BodyValue { transactions, ommers, withdrawals, slashed, bridge_requests }),
                    rest,
                ),
            },
        },
    }
}

/// Reads a block, and the bytes that its header takes up.
pub open spec fn parse_block_fields<T: Decodable, H: Decodable>(
    buf: Seq<u8>,
    after: nat,
) -> Parsed<(BlockValue<T::Value, H::Value>, Seq<u8>)> {
    match H::parse(buf) {
        (Err(e), rest) => (Err(e), rest),
        (Ok(header), rest) => match parse_fields::<T, H>(rest, after) {
            (Err(e), tail) => (Err(e), tail),
            (Ok(body), tail) => (
                Ok((BlockValue { header, body }, buf.take(buf.len() - rest.len()))),
                tail,
            ),
        },
    }
}

/// What the trailing fields leave is no longer than what they had.
proof fn lemma_trailing_consume(buf: Seq<u8>, after: nat)
    ensures
        parse_trailing(buf, after).0 is Ok ==> parse_trailing(buf, after).1.len() <= buf.len(),
{
    let (withdrawals, rest) = parse_trailing_withdrawals(buf, after);
    Withdrawals::parse_consumes(buf);
    let (slashed, rest2) = parse_trailing_field::<Withdrawals>(rest, after);
    Withdrawals::parse_consumes(rest);
    Bytes::parse_consumes(rest2);
}

/// The fields of a body take up some of the input.
proof fn lemma_fields_consume<T: Decodable, H: Decodable>(buf: Seq<u8>, after: nat)
    ensures
        parse_fields::<T, H>(buf, after).0 is Ok ==> parse_fields::<T, H>(buf, after).1.len()
            < buf.len(),
{
    let (transactions, rest) = Vec::<T>::parse(buf);
    Vec::<T>::parse_consumes(buf);
    let (ommers, rest2) = Vec::<H>::parse(rest);
    Vec::<H>::parse_consumes(rest);
    lemma_trailing_consume(rest2, after);
}

/// The fields of a block take up some of the input.
proof fn lemma_block_fields_consume<T: Decodable, H: Decodable>(buf: Seq<u8>, after: nat)
    ensures
        H::parse(buf).0 is Ok ==> H::parse(buf).1.len() < buf.len(),
        parse_block_fields::<T, H>(buf, after).0 is Ok ==> parse_block_fields::<T, H>(
            buf,
            after,
        ).1.len() < buf.len(),
{
    H::parse_consumes(buf);
    lemma_fields_consume::<T, H>(H::parse(buf).1, after);
}

/// Advances `buf` by one byte.
fn skip_byte(buf: &mut &[u8])
    requires
        old(buf)@.len() > 0,
    ensures
        final(buf)@ == old(buf)@.skip(1),
{
    let all: &[u8] = *buf;
    *buf = vstd::slice::slice_subrange(all, 1, all.len());
}

/// Reads the trailing withdrawals.
fn decode_trailing_withdrawals(buf: &mut &[u8], after: usize) -> (res: Result<
    Option<Withdrawals>,
    Error,
>)
    ensures
        final(buf)@ == parse_trailing_withdrawals(old(buf)@, after as nat).1,
        parse_trailing_withdrawals(old(buf)@, after as nat).0 == (match res {
            Ok(field) => Ok::<Option<Seq<Withdrawal>>, Error>(opt_value(field)),
            Err(e) => Err(e),
        }),
{
    if buf.len() > after && buf.len() - after == 1 && buf[0] == EMPTY_STRING_CODE {
        let withdrawals = Withdrawals::decode(buf)?;
        Ok(Some(withdrawals))
    } else {
        decode_trailing_field(buf, after)
    }
}

/// Reads a trailing field.
fn decode_trailing_field<F: Decodable>(buf: &mut &[u8], after: usize) -> (res: Result<
    Option<F>,
    Error,
>)
    ensures
        final(buf)@ == parse_trailing_field::<F>(old(buf)@, after as nat).1,
        parse_trailing_field::<F>(old(buf)@, after as nat).0 == (match res {
            Ok(field) => Ok::<Option<F::Value>, Error>(opt_value(field)),
            Err(e) => Err(e),
        }),
{
    if buf.len() <= after {
        Ok(None)
    } else if buf[0] == EMPTY_STRING_CODE {
        skip_byte(buf);
        Ok(None)
    } else {
        let v = F::decode(buf)?;
        Ok(Some(v))
    }
}

/// Reads the fields of a body.
fn decode_fields<T: Decodable, H: Decodable>(buf: &mut &[u8], after: usize) -> (res: Result<
    BlockBody<T, H>,
    Error,
>)
    ensures
        final(buf)@ == parse_fields::<T, H>(old(buf)@, after as nat).1,
        parse_fields::<T, H>(old(buf)@, after as nat).0 == result_value(res),
{
    let transactions: Vec<T> = Vec::<T>::decode(buf)?;
    let ommers: Vec<H> = Vec::<H>::decode(buf)?;
    let withdrawals = decode_trailing_withdrawals(buf, after)?;
    let slashed: Option<Withdrawals> = decode_trailing_field(buf, after)?;
    let bridge_requests: Option<Bytes> = decode_trailing_field(buf, after)?;
    Ok(BlockBody { transactions, ommers, withdrawals, slashed, bridge_requests })
}

impl<T: Decodable, H: Decodable> Decodable for BlockBody<T, H> {
    open spec fn parse(buf: Seq<u8>) -> Parsed<BodyValue<T::Value, H::Value>> {
        match open_list(buf) {
            (Err(e), rest) => (Err(e), rest),
            (Ok(n), start) => match parse_fields::<T, H>(start, (start.len() - n) as nat) {
                (Err(e), rest) => (Err(e), rest),
                (Ok(body), rest) => close_list(body, n, start, rest),
            },
        }
    }

    proof fn parse_consumes(buf: Seq<u8>) {
        lemma_head_bounds(buf);
        let (n, start) = open_list(buf);
        lemma_fields_consume::<T, H>(start, (start.len() - n->Ok_0) as nat);
    }

    fn decode(buf: &mut &[u8]) -> (res: Result<BlockBody<T, H>, Error>) {
        proof {
            lemma_head_bounds(buf@);
        }
        let payload_length: usize = decode_list_head(buf)?;
        let started_len: usize = buf.len();
        let after: usize = started_len - payload_length;
        proof {
            lemma_fields_consume::<T, H>(buf@, after as nat);
        }
        let body: BlockBody<T, H> = decode_fields(buf, after)?;
        finish_list(payload_length, started_len, buf.len())?;
        Ok(body)
    }
}

impl<T: Decodable, H: Decodable> Decodable for Block<T, H> {
    open spec fn parse(buf: Seq<u8>) -> Parsed<BlockValue<T::Value, H::Value>> {
        match open_list(buf) {
            (Err(e), rest) => (Err(e), rest),
            (Ok(n), start) => match parse_block_fields::<T, H>(start, (start.len() - n) as nat) {
                (Err(e), rest) => (Err(e), rest),
                (Ok((block, _)), rest) => close_list(block, n, start, rest),
            },
        }
    }

    proof fn parse_consumes(buf: Seq<u8>) {
        lemma_head_bounds(buf);
        let (n, start) = open_list(buf);
        lemma_block_fields_consume::<T, H>(start, (start.len() - n->Ok_0) as nat);
    }

    fn decode(buf: &mut &[u8]) -> (res: Result<Block<T, H>, Error>) {
        proof {
            lemma_head_bounds(buf@);
        }
        let payload_length: usize = decode_list_head(buf)?;
        let started_len: usize = buf.len();
        let after: usize = started_len - payload_length;
        proof {
            lemma_block_fields_consume::<T, H>(buf@, after as nat);
        }
        let header = H::decode(buf)?;
        let body: BlockBody<T, H> = decode_fields(buf, after)?;
        finish_list(payload_length, started_len, buf.len())?;
        Ok(Block { header, body })
    }
}

/// Reads a block and the hash of its header.
pub open spec fn parse_sealed<T: Decodable, H: Decodable>(buf: Seq<u8>) -> Parsed<
    (BlockValue<T::Value, H::Value>, Seq<u8>),
> {
    match open_list(buf) {
        (Err(e), rest) => (Err(e), rest),
        (Ok(n), start) => match parse_block_fields::<T, H>(start, (start.len() - n) as nat) {
            (Err(e), rest) => (Err(e), rest),
            (Ok((block, header)), rest) => close_list(
                (block, keccak256_digest(header)),
                n,
                start,
                rest,
            ),
        },
    }
}

impl<T: Decodable, H: Decodable> Block<T, H> {
    /// Decodes the block from RLP, computing the header hash directly from the RLP bytes.
    ///
    /// This is more efficient than decoding the block and then sealing it, as the header
    /// hash is computed from the raw RLP bytes without re-encoding.
    pub fn decode_sealed(buf: &mut &[u8]) -> (res: Result<Sealed<Self>, Error>)
        ensures
            final(buf)@ == parse_sealed::<T, H>(old(buf)@).1,
            parse_sealed::<T, H>(old(buf)@).0 == (match res {
                Ok(sealed) => Ok::<(BlockValue<T::Value, H::Value>, Seq<u8>), Error>(
                    (sealed.sealed_inner().value(), sealed.sealed_hash()@),
                ),
                Err(e) => Err(e),
            }),
    {
        proof {
            lemma_head_bounds(buf@);
        }
        // Decode the outer block list header
        let payload_length: usize = decode_list_head(buf)?;
        let started_len: usize = buf.len();
        let after: usize = started_len - payload_length;
        proof {
            lemma_block_fields_consume::<T, H>(buf@, after as nat);
        }

        // Decode header and compute hash from raw RLP bytes
        let header_start: &[u8] = *buf;
        let header = H::decode(buf)?;
        let header_rlp: &[u8] = vstd::slice::slice_subrange(
            header_start,
            0,
            header_start.len() - buf.len(),
        );
        assert(header_rlp@ =~= header_start@.take(header_start@.len() - buf@.len()));
        let header_hash = keccak256(header_rlp);

        // Decode remaining body fields
        let body: BlockBody<T, H> = decode_fields(buf, after)?;
        finish_list(payload_length, started_len, buf.len())?;
        Ok(Sealed::new_unchecked(Block { header, body }, header_hash))
    }
}

} // verus!
