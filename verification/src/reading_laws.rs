//! What is read from where: how the decoders take their input apart.

use crate::block::{Block, BlockBody};
use crate::block_rlp::{
    fields_rlp, parse_fields, parse_sealed, parse_trailing_field, parse_trailing_withdrawals,
    BlockValue, BodyValue,
};
use crate::bytes::{Address, Bloom, Bytes, FixedBytes, B256, B64, U256};
use crate::header::{parse_added, parse_required, Header, HeaderValue};
use crate::laws::{block_restores, body_restores, decoders_agree};
use crate::rlp::{
    be_value, lemma_head_bounds, list_rlp, parse_head, parse_items, parse_payload, parse_u64,
    restores, string_rlp, Decodable, Encodable, EMPTY_STRING_CODE,
};
use crate::seal::keccak256_digest;
use crate::transaction::{TxEnvelope, TxValue};
use crate::withdrawal::{Withdrawal, Withdrawals};
use alloy_rlp::Error;
use vstd::prelude::*;

verus! {

// ---------------------------------------------------------------------------
// Trailing fields
// ---------------------------------------------------------------------------

/// Whether `s`, of which `end` bytes lie behind the list, starts with an empty
/// string that stands for a missing field. Where `strict` is set it does not do
/// so at the end of the list.
pub open spec fn is_placeholder(s: Seq<u8>, end: nat, strict: bool) -> bool {
    s[0] == EMPTY_STRING_CODE && !(strict && s.len() == end + 1)
}

/// Whether the trailing field at `s` is `v`.
pub open spec fn field_is<F: Decodable>(
    s: Seq<u8>,
    end: nat,
    strict: bool,
    v: Option<F::Value>,
) -> bool {
    if s.len() <= end || is_placeholder(s, end, strict) {
        v is None
    } else {
        v is Some && F::parse(s).0 == Ok::<F::Value, Error>(v->0)
    }
}

/// What the trailing field at `s` leaves.
pub open spec fn behind_field<F: Decodable>(s: Seq<u8>, end: nat, strict: bool) -> Seq<u8> {
    if s.len() <= end {
        s
    } else if is_placeholder(s, end, strict) {
        s.skip(1)
    } else {
        F::parse(s).1
    }
}

/// Whether the trailing field at `s` cannot be read, which fails with `e`.
pub open spec fn field_fails<F: Decodable>(
    s: Seq<u8>,
    end: nat,
    strict: bool,
    e: Error,
) -> bool {
    &&& s.len() > end
    &&& !is_placeholder(s, end, strict)
    &&& F::parse(s).0 == Err::<F::Value, Error>(e)
}

/// Whether the fields of a body at `start`, of which `end` bytes lie behind the
/// list, are those of `body`, and leave `rest`: transactions, ommers,
/// withdrawals, slashed entries and bridge requests, in this order.
pub open spec fn body_stands_at<T: Decodable, H: Decodable>(
    start: Seq<u8>,
    end: nat,
    body: BodyValue<T::Value, H::Value>,
    rest: Seq<u8>,
) -> bool {
    let (transactions, second) = Vec::<T>::parse(start);
    let (ommers, third) = Vec::<H>::parse(second);
    let fourth = behind_field::<Withdrawals>(third, end, true);
    let fifth = behind_field::<Withdrawals>(fourth, end, false);
    &&& transactions == Ok::<Seq<T::Value>, Error>(body.transactions)
    &&& ommers == Ok::<Seq<H::Value>, Error>(body.ommers)
    &&& field_is::<Withdrawals>(third, end, true, body.withdrawals)
    &&& field_is::<Withdrawals>(fourth, end, false, body.slashed)
    &&& field_is::<Bytes>(fifth, end, false, body.bridge_requests)
    &&& rest == behind_field::<Bytes>(fifth, end, false)
}

/// Whether the first field of a body at `start` that cannot be read fails with
/// `e` and leaves `rest`.
pub open spec fn body_fails_at<T: Decodable, H: Decodable>(
    start: Seq<u8>,
    end: nat,
    e: Error,
    rest: Seq<u8>,
) -> bool {
    let (transactions, second) = Vec::<T>::parse(start);
    let (ommers, third) = Vec::<H>::parse(second);
    let fourth = behind_field::<Withdrawals>(third, end, true);
    let fifth = behind_field::<Withdrawals>(fourth, end, false);
    if transactions is Err {
        transactions == Err::<Seq<T::Value>, Error>(e) && rest == second
    } else if ommers is Err {
        ommers == Err::<Seq<H::Value>, Error>(e) && rest == third
    } else {
        ||| field_fails::<Withdrawals>(third, end, true, e) && rest == fourth
        ||| {
            &&& exists|w: Option<Seq<Withdrawal>>| field_is::<Withdrawals>(third, end, true, w)
            &&& field_fails::<Withdrawals>(fourth, end, false, e)
            &&& rest == fifth
        }
        ||| {
            &&& exists|w: Option<Seq<Withdrawal>>| field_is::<Withdrawals>(third, end, true, w)
            &&& exists|w: Option<Seq<Withdrawal>>| field_is::<Withdrawals>(fourth, end, false, w)
            &&& field_fails::<Bytes>(fifth, end, false, e)
            &&& rest == behind_field::<Bytes>(fifth, end, false)
        }
    }
}

/// A trailing field is read in one of these ways.
proof fn lemma_field<F: Decodable>(s: Seq<u8>, end: nat)
    ensures
        parse_trailing_field::<F>(s, end).1 == behind_field::<F>(s, end, false),
        parse_trailing_field::<F>(s, end).0 matches Ok(v) ==> field_is::<F>(s, end, false, v),
        parse_trailing_field::<F>(s, end).0 matches Err(e) ==> field_fails::<F>(s, end, false, e),
{
}

/// The trailing withdrawals are read in one of these ways.
proof fn lemma_withdrawals_field(s: Seq<u8>, end: nat)
    ensures
        parse_trailing_withdrawals(s, end).1 == behind_field::<Withdrawals>(s, end, true),
        parse_trailing_withdrawals(s, end).0 matches Ok(v) ==> field_is::<Withdrawals>(
            s,
            end,
            true,
            v,
        ),
        parse_trailing_withdrawals(s, end).0 matches Err(e) ==> field_fails::<Withdrawals>(
            s,
            end,
            true,
            e,
        ),
{
}

/// The fields of a body are read in one of these ways.
proof fn lemma_fields<T: Decodable, H: Decodable>(start: Seq<u8>, end: nat)
    ensures
        parse_fields::<T, H>(start, end) matches (Ok(body), rest) ==> body_stands_at::<T, H>(
            start,
            end,
            body,
            rest,
        ),
        parse_fields::<T, H>(start, end) matches (Err(e), rest) ==> body_fails_at::<T, H>(
            start,
            end,
            e,
            rest,
        ),
{
    let (transactions, second) = Vec::<T>::parse(start);
    let (ommers, third) = Vec::<H>::parse(second);
    if transactions is Ok && ommers is Ok {
        let (withdrawals, fourth) = parse_trailing_withdrawals(third, end);
        lemma_withdrawals_field(third, end);
        if withdrawals is Ok {
            let (slashed, fifth) = parse_trailing_field::<Withdrawals>(fourth, end);
            lemma_field::<Withdrawals>(fourth, end);
            assert(field_is::<Withdrawals>(third, end, true, withdrawals->Ok_0));
            if slashed is Ok {
                assert(field_is::<Withdrawals>(fourth, end, false, slashed->Ok_0));
                lemma_field::<Bytes>(fifth, end);
            }
        }
    }
}

/// The fields of a body are read in one way only.
proof fn lemma_fields_determined<T: Decodable, H: Decodable>(
    start: Seq<u8>,
    end: nat,
    body: BodyValue<T::Value, H::Value>,
    rest: Seq<u8>,
)
    requires
        body_stands_at::<T, H>(start, end, body, rest),
    ensures
        parse_fields::<T, H>(start, end) == (
            Ok::<BodyValue<T::Value, H::Value>, Error>(body),
            rest,
        ),
{
    lemma_fields::<T, H>(start, end);
    let (transactions, second) = Vec::<T>::parse(start);
    let (ommers, third) = Vec::<H>::parse(second);
    let fourth = behind_field::<Withdrawals>(third, end, true);
    let fifth = behind_field::<Withdrawals>(fourth, end, false);
    lemma_withdrawals_field(third, end);
    lemma_field::<Withdrawals>(fourth, end);
    lemma_field::<Bytes>(fifth, end);
    match parse_fields::<T, H>(start, end) {
        (Ok(found), left) => {
            assert(found.withdrawals == body.withdrawals);
            assert(found.slashed == body.slashed);
            assert(found.bridge_requests == body.bridge_requests);
        },
        (Err(e), left) => {
            assert(false);
        },
    }
}

// ---------------------------------------------------------------------------
// Bodies and blocks
// ---------------------------------------------------------------------------

/// `BlockBody::decode` gives a body exactly where the input starts with a list
/// that the fields of the body use up.
pub proof fn body_is_read_where_it_stands<T: Decodable, H: Decodable>(
    buf: Seq<u8>,
    body: BodyValue<T::Value, H::Value>,
    rest: Seq<u8>,
)
    ensures
        BlockBody::<T, H>::parse(buf) == (
            Ok::<BodyValue<T::Value, H::Value>, Error>(body),
            rest,
        ) <==> {
            let (head, start) = parse_head(buf);
            &&& head matches Ok(head)
            &&& head.list
            &&& body_stands_at::<T, H>(
                start,
                (start.len() - head.payload_length) as nat,
                body,
                rest,
            )
            &&& start.len() - rest.len() == head.payload_length
        },
{
    let (head, start) = parse_head(buf);
    if head is Ok && head->Ok_0.list {
        let end = (start.len() - head->Ok_0.payload_length) as nat;
        lemma_fields::<T, H>(start, end);
        if body_stands_at::<T, H>(start, end, body, rest) {
            lemma_fields_determined::<T, H>(start, end, body, rest);
        }
    }
}

/// Where `BlockBody::decode` fails, it fails for the first of these reasons: the
/// prefix, a string in place of the list, the first field that cannot be read,
/// and a list that the fields do not use up.
pub proof fn body_failure_is_the_first<T: Decodable, H: Decodable>(buf: Seq<u8>)
    ensures
        BlockBody::<T, H>::parse(buf) matches (Err(e), rest) ==> {
            let (head, start) = parse_head(buf);
            match head {
                Err(f) => e == f && rest == start,
                Ok(head) => if !head.list {
                    e == Error::UnexpectedString && rest == start
                } else {
                    let end = (start.len() - head.payload_length) as nat;
                    ||| body_fails_at::<T, H>(start, end, e, rest)
                    ||| exists|body: BodyValue<T::Value, H::Value>|
                        {
                            &&& body_stands_at::<T, H>(start, end, body, rest)
                            &&& start.len() - rest.len() != head.payload_length
                            &&& e == Error::ListLengthMismatch {
                                expected: head.payload_length,
                                got: (start.len() - rest.len()) as usize,
                            }
                        }
                },
            }
        },
{
    let (head, start) = parse_head(buf);
    if head is Ok && head->Ok_0.list {
        let end = (start.len() - head->Ok_0.payload_length) as nat;
        lemma_fields::<T, H>(start, end);
        if let (Ok(body), rest) = parse_fields::<T, H>(start, end) {
            assert(body_stands_at::<T, H>(start, end, body, rest));
        }
    }
}

/// `Block::decode` gives a block exactly where the input starts with a list that
/// its header and the fields of its body use up.
pub proof fn block_is_read_where_it_stands<T: Decodable, H: Decodable>(
    buf: Seq<u8>,
    block: BlockValue<T::Value, H::Value>,
    rest: Seq<u8>,
)
    ensures
        Block::<T, H>::parse(buf) == (
            Ok::<BlockValue<T::Value, H::Value>, Error>(block),
            rest,
        ) <==> {
            let (head, start) = parse_head(buf);
            let (header, from_body) = H::parse(start);
            &&& head matches Ok(head)
            &&& head.list
            &&& header == Ok::<H::Value, Error>(block.header)
            &&& body_stands_at::<T, H>(
                from_body,
                (start.len() - head.payload_length) as nat,
                block.body,
                rest,
            )
            &&& start.len() - rest.len() == head.payload_length
        },
{
    let (head, start) = parse_head(buf);
    if head is Ok && head->Ok_0.list {
        let end = (start.len() - head->Ok_0.payload_length) as nat;
        let (header, from_body) = H::parse(start);
        lemma_fields::<T, H>(from_body, end);
        if body_stands_at::<T, H>(from_body, end, block.body, rest) {
            lemma_fields_determined::<T, H>(from_body, end, block.body, rest);
        }
    }
}

/// Where `Block::decode` fails, it fails for the first of these reasons: the
/// prefix, a string in place of the list, the header, the first field of the
/// body that cannot be read, and a list that is not used up.
pub proof fn block_failure_is_the_first<T: Decodable, H: Decodable>(buf: Seq<u8>)
    ensures
        Block::<T, H>::parse(buf) matches (Err(e), rest) ==> {
            let (head, start) = parse_head(buf);
            let (header, from_body) = H::parse(start);
            match head {
                Err(f) => e == f && rest == start,
                Ok(head) => if !head.list {
                    e == Error::UnexpectedString && rest == start
                } else if header is Err {
                    header == Err::<H::Value, Error>(e) && rest == from_body
                } else {
                    let end = (start.len() - head.payload_length) as nat;
                    ||| body_fails_at::<T, H>(from_body, end, e, rest)
                    ||| exists|body: BodyValue<T::Value, H::Value>|
                        {
                            &&& body_stands_at::<T, H>(from_body, end, body, rest)
                            &&& start.len() - rest.len() != head.payload_length
                            &&& e == Error::ListLengthMismatch {
                                expected: head.payload_length,
                                got: (start.len() - rest.len()) as usize,
                            }
                        }
                },
            }
        },
{
    let (head, start) = parse_head(buf);
    if head is Ok && head->Ok_0.list {
        let end = (start.len() - head->Ok_0.payload_length) as nat;
        let (header, from_body) = H::parse(start);
        lemma_fields::<T, H>(from_body, end);
        if let (Ok(body), rest) = parse_fields::<T, H>(from_body, end) {
            assert(body_stands_at::<T, H>(from_body, end, body, rest));
        }
    }
}

/// `decode_sealed` reads what `decode` reads, and the hash is that of the bytes
/// between the prefix of the block and its transactions.
pub proof fn sealed_block_is_read_like_the_block<T: Decodable, H: Decodable>(buf: Seq<u8>)
    ensures
        parse_sealed::<T, H>(buf).1 == Block::<T, H>::parse(buf).1,
        match (parse_sealed::<T, H>(buf).0, Block::<T, H>::parse(buf).0) {
            (Ok((sealed, hash)), Ok(block)) => {
                let start = parse_head(buf).1;
                &&& sealed == block
                &&& hash == keccak256_digest(start.take(start.len() - H::parse(start).1.len()))
            },
            (Err(e), Err(f)) => e == f,
            _ => false,
        },
{
    decoders_agree::<T, H>(buf);
}

/// A list of transactions, ommers, withdrawals, slashed entries and a blob is
/// read as the body with these: the third item is the withdrawals, and the
/// fourth the slashed entries.
pub proof fn five_items_are_a_body<T: Encodable + Decodable, H: Encodable + Decodable>(
    transactions: Seq<T::Value>,
    ommers: Seq<H::Value>,
    withdrawals: Option<Seq<Withdrawal>>,
    slashed: Option<Seq<Withdrawal>>,
    blob: Seq<u8>,
    rest: Seq<u8>,
)
    requires
        forall|i: int| 0 <= i < transactions.len() ==> restores::<T>(#[trigger] transactions[i]),
        forall|i: int| 0 <= i < ommers.len() ==> restores::<H>(#[trigger] ommers[i]),
        blob.len() > 0,
        list_rlp(five_items::<T, H>(transactions, ommers, withdrawals, slashed, blob)).len()
            <= usize::MAX,
    ensures
        BlockBody::<T, H>::parse(
            list_rlp(five_items::<T, H>(transactions, ommers, withdrawals, slashed, blob)) + rest,
        ) == (
            Ok::<BodyValue<T::Value, H::Value>, Error>(
                BodyValue {
                    transactions,
                    ommers,
                    withdrawals,
                    slashed,
                    bridge_requests: Some(blob),
                },
            ),
            rest,
        ),
{
    let body = BodyValue {
        transactions,
        ommers,
        withdrawals,
        slashed,
        bridge_requests: Some(blob),
    };
    lemma_five_items::<T, H>(body, blob);
    body_restores::<T, H>(body);
    assert(BlockBody::<T, H>::parse(BlockBody::<T, H>::rlp(body) + rest) == (
        Ok::<BodyValue<T::Value, H::Value>, Error>(body),
        rest,
    ));
}

/// A list of a header and these items is read as the block with them.
pub proof fn six_items_are_a_block<T: Encodable + Decodable, H: Encodable + Decodable>(
    header: H::Value,
    transactions: Seq<T::Value>,
    ommers: Seq<H::Value>,
    withdrawals: Option<Seq<Withdrawal>>,
    slashed: Option<Seq<Withdrawal>>,
    blob: Seq<u8>,
    rest: Seq<u8>,
)
    requires
        restores::<H>(header),
        forall|i: int| 0 <= i < transactions.len() ==> restores::<T>(#[trigger] transactions[i]),
        forall|i: int| 0 <= i < ommers.len() ==> restores::<H>(#[trigger] ommers[i]),
        blob.len() > 0,
        list_rlp(
            H::rlp(header) + five_items::<T, H>(transactions, ommers, withdrawals, slashed, blob),
        ).len() <= usize::MAX,
    ensures
        Block::<T, H>::parse(
            list_rlp(
                H::rlp(header) + five_items::<T, H>(
                    transactions,
                    ommers,
                    withdrawals,
                    slashed,
                    blob,
                ),
            ) + rest,
        ) == (
            Ok::<BlockValue<T::Value, H::Value>, Error>(
                BlockValue {
                    header,
                    body: BodyValue {
                        transactions,
                        ommers,
                        withdrawals,
                        slashed,
                        bridge_requests: Some(blob),
                    },
                },
            ),
            rest,
        ),
{
    let body = BodyValue {
        transactions,
        ommers,
        withdrawals,
        slashed,
        bridge_requests: Some(blob),
    };
    let block = BlockValue { header, body };
    lemma_five_items::<T, H>(body, blob);
    assert(body.normalized() == body);
    block_restores::<T, H>(block);
    assert(Block::<T, H>::parse(Block::<T, H>::rlp(block) + rest) == (
        Ok::<BlockValue<T::Value, H::Value>, Error>(block),
        rest,
    ));
}

/// Transactions, ommers, withdrawals, slashed entries and a blob, one after the
/// other, with an empty string for missing withdrawals and slashed entries.
pub open spec fn five_items<T: Encodable, H: Encodable>(
    transactions: Seq<T::Value>,
    ommers: Seq<H::Value>,
    withdrawals: Option<Seq<Withdrawal>>,
    slashed: Option<Seq<Withdrawal>>,
    blob: Seq<u8>,
) -> Seq<u8> {
    let third = match withdrawals {
        Some(list) => Withdrawals::rlp(list),
        None => seq![EMPTY_STRING_CODE],
    };
    let fourth = match slashed {
        Some(list) => Withdrawals::rlp(list),
        None => seq![EMPTY_STRING_CODE],
    };
    Vec::<T>::rlp(transactions) + Vec::<H>::rlp(ommers) + third + fourth + string_rlp(blob)
}

/// The fields of a body with a blob are the five items.
proof fn lemma_five_items<T: Encodable, H: Encodable>(
    body: BodyValue<T::Value, H::Value>,
    blob: Seq<u8>,
)
    requires
        body.bridge_requests == Some(blob),
    ensures
        fields_rlp::<T, H>(body) == five_items::<T, H>(
            body.transactions,
            body.ommers,
            body.withdrawals,
            body.slashed,
            blob,
        ),
{
    assert(fields_rlp::<T, H>(body) =~= five_items::<T, H>(
        body.transactions,
        body.ommers,
        body.withdrawals,
        body.slashed,
        blob,
    ));
}

// ---------------------------------------------------------------------------
// Lists
// ---------------------------------------------------------------------------

/// Whether `steps` are the inputs on which the values of `vs` are read one after
/// the other: each value is read from its step and leaves the next one.
pub open spec fn read_in_steps<T: Decodable>(vs: Seq<T::Value>, steps: Seq<Seq<u8>>) -> bool {
    &&& steps.len() == vs.len() + 1
    &&& forall|i: int|
        #![trigger vs[i]]
        0 <= i < vs.len() ==> is_read::<T>(steps[i], vs[i], steps[i + 1])
}

/// Whether `v` is read from `from`, which is not empty, and leaves `to`.
pub open spec fn is_read<T: Decodable>(from: Seq<u8>, v: T::Value, to: Seq<u8>) -> bool {
    from.len() > 0 && T::parse(from) == (Ok::<T::Value, Error>(v), to)
}

/// A list is read as the values that stand in its payload, in order, and fails
/// with the first that cannot be read. `steps` are what is left in front of each.
pub proof fn list_is_read_in_order<T: Decodable>(buf: Seq<u8>) -> (res: (
    Seq<T::Value>,
    Seq<Seq<u8>>,
))
    ensures
        Vec::<T>::parse(buf).1 == parse_payload(buf, true).1,
        parse_payload(buf, true).0 matches Err(e) ==> Vec::<T>::parse(buf).0 == Err::<
            Seq<T::Value>,
            Error,
        >(e),
        parse_payload(buf, true).0 matches Ok(payload) ==> {
            let (vs, steps) = res;
            &&& read_in_steps::<T>(vs, steps)
            &&& steps[0] == payload
            &&& match Vec::<T>::parse(buf).0 {
                Ok(found) => found == vs && steps.last().len() == 0,
                Err(e) => steps.last().len() > 0 && T::parse(steps.last()).0 == Err::<
                    T::Value,
                    Error,
                >(e),
            }
        },
{
    match parse_payload(buf, true).0 {
        Ok(payload) => lemma_steps::<T>(payload),
        Err(_) => (Seq::empty(), Seq::empty()),
    }
}

/// The steps in which the payload of a list is read.
proof fn lemma_steps<T: Decodable>(payload: Seq<u8>) -> (res: (Seq<T::Value>, Seq<Seq<u8>>))
    ensures
        read_in_steps::<T>(res.0, res.1),
        res.1[0] == payload,
        match parse_items::<T>(payload) {
            Ok(found) => found == res.0 && res.1.last().len() == 0,
            Err(e) => res.1.last().len() > 0 && T::parse(res.1.last()).0 == Err::<T::Value, Error>(
                e,
            ),
        },
    decreases payload.len(),
{
    if payload.len() == 0 {
        (Seq::empty(), seq![payload])
    } else {
        T::parse_consumes(payload);
        match T::parse(payload) {
            (Ok(v), rest) => {
                let (vs, steps) = lemma_steps::<T>(rest);
                let all = seq![v] + vs;
                let whole = seq![payload] + steps;
                assert forall|i: int| #![trigger all[i]] 0 <= i < all.len() implies is_read::<T>(
                    whole[i],
                    all[i],
                    whole[i + 1],
                ) by {
                    if i > 0 {
                        assert(all[i] == vs[i - 1]);
                        assert(whole[i] == steps[i - 1]);
                        assert(whole[i + 1] == steps[i]);
                    }
                }
                assert(whole.last() == steps.last());
                (all, whole)
            },
            (Err(e), rest) => (Seq::empty(), seq![payload]),
        }
    }
}

/// Withdrawals are read as a list of withdrawals.
pub proof fn withdrawals_are_a_list(buf: Seq<u8>)
    ensures
        Withdrawals::parse(buf) == Vec::<Withdrawal>::parse(buf),
{
}

// ---------------------------------------------------------------------------
// Strings and numbers
// ---------------------------------------------------------------------------

/// A number is what `parse_u64` reads, a byte string the payload of a string, a
/// byte string of fixed length a payload of that length, and a large number the
/// digits of a string of at most 32 without a leading zero.
pub proof fn scalars_are_read<const N: usize>(buf: Seq<u8>)
    ensures
        u64::parse(buf) == parse_u64(buf),
        Bytes::parse(buf) == parse_payload(buf, false),
        FixedBytes::<N>::parse(buf).1 == parse_payload(buf, false).1,
        FixedBytes::<N>::parse(buf).0 matches Err(e) ==> match parse_payload(buf, false).0 {
            Ok(bytes) => bytes.len() != N && e == Error::UnexpectedLength,
            Err(f) => e == f,
        },
        U256::parse(buf).1 == parse_payload(buf, false).1,
        U256::parse(buf).0 matches Err(e) ==> match parse_payload(buf, false).0 {
            Ok(digits) => if digits.len() > 0 && digits[0] == 0 {
                e == Error::LeadingZero
            } else {
                digits.len() > 32 && e == Error::Overflow
            },
            Err(f) => e == f,
        },
{
}

/// A byte string of fixed length that a string holds is read from it.
pub proof fn fixed_bytes_are_read<const N: usize>(buf: Seq<u8>, x: FixedBytes<N>)
    requires
        parse_payload(buf, false).0 == Ok::<Seq<u8>, Error>(x.0@),
    ensures
        FixedBytes::<N>::parse(buf).0 == Ok::<FixedBytes<N>, Error>(x),
{
    x.lemma_of();
}

/// A large number whose digits a string holds is read from it.
pub proof fn large_numbers_are_read(buf: Seq<u8>, digits: Seq<u8>, x: U256)
    requires
        parse_payload(buf, false).0 == Ok::<Seq<u8>, Error>(digits),
        digits.len() <= 32,
        digits.len() > 0 ==> digits[0] != 0,
        be_value(x.0@) == be_value(digits),
    ensures
        U256::parse(buf).0 == Ok::<U256, Error>(x),
{
    x.lemma_of();
}

// ---------------------------------------------------------------------------
// Withdrawals and transactions
// ---------------------------------------------------------------------------

/// A withdrawal is read exactly where the input starts with a list that its
/// index, the index of its validator, its address and its amount use up.
pub proof fn withdrawal_is_read_where_it_stands(buf: Seq<u8>, v: Withdrawal, rest: Seq<u8>)
    ensures
        Withdrawal::parse(buf) == (Ok::<Withdrawal, Error>(v), rest) <==> {
            let (head, start) = parse_head(buf);
            let (index, second) = u64::parse(start);
            let (validator_index, third) = u64::parse(second);
            let (address, fourth) = Address::parse(third);
            let (amount, last) = u64::parse(fourth);
            &&& head matches Ok(head)
            &&& head.list
            &&& index == Ok::<u64, Error>(v.index)
            &&& validator_index == Ok::<u64, Error>(v.validator_index)
            &&& address == Ok::<Address, Error>(v.address)
            &&& amount == Ok::<u64, Error>(v.amount)
            &&& rest == last
            &&& start.len() - rest.len() == head.payload_length
        },
{
}

/// Where a withdrawal cannot be read, it is for the first of these reasons: the
/// prefix, a string in place of the list, the first field that cannot be read,
/// and a list that the fields do not use up.
pub proof fn withdrawal_failure_is_the_first(buf: Seq<u8>)
    ensures
        Withdrawal::parse(buf) matches (Err(e), rest) ==> {
            let (head, start) = parse_head(buf);
            let (index, second) = u64::parse(start);
            let (validator_index, third) = u64::parse(second);
            let (address, fourth) = Address::parse(third);
            let (amount, last) = u64::parse(fourth);
            match head {
                Err(f) => e == f && rest == start,
                Ok(head) => if !head.list {
                    e == Error::UnexpectedString && rest == start
                } else if index is Err {
                    index == Err::<u64, Error>(e) && rest == second
                } else if validator_index is Err {
                    validator_index == Err::<u64, Error>(e) && rest == third
                } else if address is Err {
                    address == Err::<Address, Error>(e) && rest == fourth
                } else if amount is Err {
                    amount == Err::<u64, Error>(e) && rest == last
                } else {
                    &&& rest == last
                    &&& e == Error::ListLengthMismatch {
                        expected: head.payload_length,
                        got: (start.len() - last.len()) as usize,
                    }
                },
            }
        },
{
}

/// A list is read as a legacy transaction with the list as its body, and a
/// string as a transaction of the type that its first byte tells, with the other
/// bytes as its body. A string without bytes, and one whose first byte is no type
/// of a transaction with a flag, are refused.
pub proof fn transaction_is_read(buf: Seq<u8>)
    ensures
        ({
            let (head, payload) = parse_head(buf);
            let got = TxEnvelope::parse(buf);
            match head {
                Err(e) => got == (Err::<TxValue, Error>(e), buf),
                Ok(head) => {
                    let n = head.payload_length as int;
                    let bytes = payload.take(n);
                    let rest = payload.skip(n);
                    &&& got.1 == rest
                    &&& if head.list {
                        got.0 == Ok::<TxValue, Error>(
                            TxValue { ty: 0, body: buf.take(buf.len() - rest.len()) },
                        )
                    } else if n == 0 {
                        got.0 == Err::<TxValue, Error>(Error::InputTooShort)
                    } else if bytes[0] == 0 || bytes[0] > 0x7f {
                        got.0 == Err::<TxValue, Error>(
                            Error::Custom("unexpected transaction type"),
                        )
                    } else {
                        got.0 == Ok::<TxValue, Error>(
                            TxValue { ty: bytes[0], body: bytes.skip(1) },
                        )
                    }
                },
            }
        }),
{
    lemma_head_bounds(buf);
}

// ---------------------------------------------------------------------------
// Headers
// ---------------------------------------------------------------------------

/// Whether the fields that every header has stand at `start`, in the order of
/// the wire, and leave `rest`.
pub open spec fn required_stand_at(start: Seq<u8>, h: HeaderValue, rest: Seq<u8>) -> bool {
    let (parent_hash, rest1) = B256::parse(start);
    let (ommers_hash, rest2) = B256::parse(rest1);
    let (beneficiary, rest3) = Address::parse(rest2);
    let (state_root, rest4) = B256::parse(rest3);
    let (transactions_root, rest5) = B256::parse(rest4);
    let (receipts_root, rest6) = B256::parse(rest5);
    let (logs_bloom, rest7) = Bloom::parse(rest6);
    let (difficulty, rest8) = U256::parse(rest7);
    let (number, rest9) = u64::parse(rest8);
    let (gas_limit, rest10) = u64::parse(rest9);
    let (gas_used, rest11) = u64::parse(rest10);
    let (timestamp, rest12) = u64::parse(rest11);
    let (extra_data, rest13) = Bytes::parse(rest12);
    let (mix_hash, rest14) = B256::parse(rest13);
    let (nonce, rest15) = B64::parse(rest14);
    &&& parent_hash == Ok::<B256, Error>(h.parent_hash)
    &&& ommers_hash == Ok::<B256, Error>(h.ommers_hash)
    &&& beneficiary == Ok::<Address, Error>(h.beneficiary)
    &&& state_root == Ok::<B256, Error>(h.state_root)
    &&& transactions_root == Ok::<B256, Error>(h.transactions_root)
    &&& receipts_root == Ok::<B256, Error>(h.receipts_root)
    &&& logs_bloom == Ok::<Bloom, Error>(h.logs_bloom)
    &&& difficulty == Ok::<U256, Error>(h.difficulty)
    &&& number == Ok::<u64, Error>(h.number)
    &&& gas_limit == Ok::<u64, Error>(h.gas_limit)
    &&& gas_used == Ok::<u64, Error>(h.gas_used)
    &&& timestamp == Ok::<u64, Error>(h.timestamp)
    &&& extra_data == Ok::<Seq<u8>, Error>(h.extra_data)
    &&& mix_hash == Ok::<B256, Error>(h.mix_hash)
    &&& nonce == Ok::<B64, Error>(h.nonce)
    &&& rest == rest15
}

/// Whether the first of the fields that every header has that cannot be read at
/// `start` fails with `e` and leaves `rest`.
pub open spec fn required_fail_at(start: Seq<u8>, e: Error, rest: Seq<u8>) -> bool {
    let (parent_hash, rest1) = B256::parse(start);
    let (ommers_hash, rest2) = B256::parse(rest1);
    let (beneficiary, rest3) = Address::parse(rest2);
    let (state_root, rest4) = B256::parse(rest3);
    let (transactions_root, rest5) = B256::parse(rest4);
    let (receipts_root, rest6) = B256::parse(rest5);
    let (logs_bloom, rest7) = Bloom::parse(rest6);
    let (difficulty, rest8) = U256::parse(rest7);
    let (number, rest9) = u64::parse(rest8);
    let (gas_limit, rest10) = u64::parse(rest9);
    let (gas_used, rest11) = u64::parse(rest10);
    let (timestamp, rest12) = u64::parse(rest11);
    let (extra_data, rest13) = Bytes::parse(rest12);
    let (mix_hash, rest14) = B256::parse(rest13);
    let (nonce, rest15) = B64::parse(rest14);
    if parent_hash is Err {
        parent_hash == Err::<B256, Error>(e) && rest == rest1
    } else if ommers_hash is Err {
        ommers_hash == Err::<B256, Error>(e) && rest == rest2
    } else if beneficiary is Err {
        beneficiary == Err::<Address, Error>(e) && rest == rest3
    } else if state_root is Err {
        state_root == Err::<B256, Error>(e) && rest == rest4
    } else if transactions_root is Err {
        transactions_root == Err::<B256, Error>(e) && rest == rest5
    } else if receipts_root is Err {
        receipts_root == Err::<B256, Error>(e) && rest == rest6
    } else if logs_bloom is Err {
        logs_bloom == Err::<Bloom, Error>(e) && rest == rest7
    } else if difficulty is Err {
        difficulty == Err::<U256, Error>(e) && rest == rest8
    } else if number is Err {
        number == Err::<u64, Error>(e) && rest == rest9
    } else if gas_limit is Err {
        gas_limit == Err::<u64, Error>(e) && rest == rest10
    } else if gas_used is Err {
        gas_used == Err::<u64, Error>(e) && rest == rest11
    } else if timestamp is Err {
        timestamp == Err::<u64, Error>(e) && rest == rest12
    } else if extra_data is Err {
        extra_data == Err::<Seq<u8>, Error>(e) && rest == rest13
    } else if mix_hash is Err {
        mix_hash == Err::<B256, Error>(e) && rest == rest14
    } else if nonce is Err {
        nonce == Err::<B64, Error>(e) && rest == rest15
    } else {
        false
    }
}

/// Whether the field of a later fork at `s`, of which `end` bytes lie behind the
/// list, is `v`.
pub open spec fn added_is<F: Decodable>(s: Seq<u8>, end: nat, v: Option<F::Value>) -> bool {
    if s.len() <= end {
        v is None
    } else {
        v is Some && F::parse(s).0 == Ok::<F::Value, Error>(v->0)
    }
}

/// What the field of a later fork at `s` leaves.
pub open spec fn behind_added<F: Decodable>(s: Seq<u8>, end: nat) -> Seq<u8> {
    if s.len() <= end {
        s
    } else {
        F::parse(s).1
    }
}

/// Whether the field of a later fork at `s` is there and cannot be read.
pub open spec fn added_fails<F: Decodable>(s: Seq<u8>, end: nat) -> bool {
    s.len() > end && F::parse(s).0 is Err
}

/// Whether the fields of later forks stand at `s`, in the order of the wire, up
/// to the end of the list, and leave `rest`.
pub open spec fn added_stand_at(s: Seq<u8>, end: nat, h: HeaderValue, rest: Seq<u8>) -> bool {
    let rest1 = behind_added::<u64>(s, end);
    let rest2 = behind_added::<B256>(rest1, end);
    let rest3 = behind_added::<u64>(rest2, end);
    let rest4 = behind_added::<u64>(rest3, end);
    let rest5 = behind_added::<B256>(rest4, end);
    let rest6 = behind_added::<B256>(rest5, end);
    &&& added_is::<u64>(s, end, h.base_fee_per_gas)
    &&& added_is::<B256>(rest1, end, h.withdrawals_root)
    &&& added_is::<u64>(rest2, end, h.blob_gas_used)
    &&& added_is::<u64>(rest3, end, h.excess_blob_gas)
    &&& added_is::<B256>(rest4, end, h.parent_beacon_block_root)
    &&& added_is::<B256>(rest5, end, h.requests_hash)
    &&& rest == rest6
}

/// Whether the first of the fields of later forks that cannot be read fails with
/// `e` and leaves `rest`.
pub open spec fn added_fail_at(s: Seq<u8>, end: nat, e: Error, rest: Seq<u8>) -> bool {
    let rest1 = behind_added::<u64>(s, end);
    let rest2 = behind_added::<B256>(rest1, end);
    let rest3 = behind_added::<u64>(rest2, end);
    let rest4 = behind_added::<u64>(rest3, end);
    let rest5 = behind_added::<B256>(rest4, end);
    let rest6 = behind_added::<B256>(rest5, end);
    if added_fails::<u64>(s, end) {
        u64::parse(s) == (Err::<u64, Error>(e), rest)
    } else if added_fails::<B256>(rest1, end) {
        B256::parse(rest1) == (Err::<B256, Error>(e), rest)
    } else if added_fails::<u64>(rest2, end) {
        u64::parse(rest2) == (Err::<u64, Error>(e), rest)
    } else if added_fails::<u64>(rest3, end) {
        u64::parse(rest3) == (Err::<u64, Error>(e), rest)
    } else if added_fails::<B256>(rest4, end) {
        B256::parse(rest4) == (Err::<B256, Error>(e), rest)
    } else if added_fails::<B256>(rest5, end) {
        B256::parse(rest5) == (Err::<B256, Error>(e), rest)
    } else {
        false
    }
}

/// Whether no field of a later fork is there.
spec fn nothing_added(h: HeaderValue) -> bool {
    &&& h.base_fee_per_gas is None
    &&& h.withdrawals_root is None
    &&& h.blob_gas_used is None
    &&& h.excess_blob_gas is None
    &&& h.parent_beacon_block_root is None
    &&& h.requests_hash is None
}

/// The fields that every header has are read in one of these ways.
#[verifier::rlimit(60)]
proof fn lemma_required(start: Seq<u8>)
    ensures
        parse_required(start) matches (Ok(h), rest) ==> required_stand_at(start, h, rest)
            && nothing_added(h),
        parse_required(start) matches (Err(e), rest) ==> required_fail_at(start, e, rest),
{
}

/// The fields of later forks are read in one of these ways.
#[verifier::rlimit(60)]
proof fn lemma_added(h: HeaderValue, s: Seq<u8>, end: nat)
    ensures
        parse_added((Ok(h), s), end) matches (Ok(found), rest) ==> {
            &&& added_stand_at(s, end, found, rest)
            &&& found == (HeaderValue {
                base_fee_per_gas: found.base_fee_per_gas,
                withdrawals_root: found.withdrawals_root,
                blob_gas_used: found.blob_gas_used,
                excess_blob_gas: found.excess_blob_gas,
                parent_beacon_block_root: found.parent_beacon_block_root,
                requests_hash: found.requests_hash,
                ..h
            })
        },
        parse_added((Ok(h), s), end) matches (Err(e), rest) ==> added_fail_at(s, end, e, rest),
{
}

/// A failure among the first fields stands.
proof fn lemma_added_failure(e: Error, s: Seq<u8>, end: nat)
    ensures
        parse_added((Err(e), s), end) == (Err::<HeaderValue, Error>(e), s),
{
}

/// What `Header::decode` gives stands in the input, which starts with a list that
/// the fields of the header use up, in the order of the wire.
#[verifier::rlimit(60)]
pub proof fn header_is_read_where_it_stands(buf: Seq<u8>, h: HeaderValue, rest: Seq<u8>)
    ensures
        Header::parse(buf) == (Ok::<HeaderValue, Error>(h), rest) ==> {
            let (head, start) = parse_head(buf);
            &&& head matches Ok(head)
            &&& head.list
            &&& exists|middle: Seq<u8>|
                #[trigger] required_stand_at(start, h, middle) && added_stand_at(
                    middle,
                    (start.len() - head.payload_length) as nat,
                    h,
                    rest,
                )
            &&& start.len() - rest.len() == head.payload_length
        },
{
    let (head, start) = parse_head(buf);
    if Header::parse(buf) == (Ok::<HeaderValue, Error>(h), rest) {
        let end = (start.len() - head->Ok_0.payload_length) as nat;
        lemma_required(start);
        match parse_required(start) {
            (Ok(found), middle) => {
                lemma_added(found, middle, end);
                assert(required_stand_at(start, h, middle));
            },
            (Err(e), middle) => {
                lemma_added_failure(e, middle, end);
            },
        }
    }
}

/// Where `Header::decode` fails, it fails for the first of these reasons: the
/// prefix, a string in place of the list, the first field that cannot be read,
/// and a list that the fields do not use up.
#[verifier::rlimit(60)]
pub proof fn header_failure_is_the_first(buf: Seq<u8>)
    ensures
        Header::parse(buf) matches (Err(e), rest) ==> {
            let (head, start) = parse_head(buf);
            match head {
                Err(f) => e == f && rest == start,
                Ok(head) => if !head.list {
                    e == Error::UnexpectedString && rest == start
                } else {
                    let end = (start.len() - head.payload_length) as nat;
                    ||| required_fail_at(start, e, rest)
                    ||| exists|h: HeaderValue, middle: Seq<u8>| #[trigger]
                        required_stand_at(start, h, middle) && added_fail_at(middle, end, e, rest)
                    ||| exists|h: HeaderValue, middle: Seq<u8>|
                        {
                            &&& #[trigger] required_stand_at(start, h, middle)
                            &&& added_stand_at(middle, end, h, rest)
                            &&& start.len() - rest.len() != head.payload_length
                            &&& e == Error::ListLengthMismatch {
                                expected: head.payload_length,
                                got: (start.len() - rest.len()) as usize,
                            }
                        }
                },
            }
        },
{
    let (head, start) = parse_head(buf);
    if head is Ok && head->Ok_0.list {
        let end = (start.len() - head->Ok_0.payload_length) as nat;
        lemma_required(start);
        match parse_required(start) {
            (Ok(found), middle) => {
                lemma_added(found, middle, end);
                assert(required_stand_at(start, found, middle));
                if let (Ok(h), rest) = parse_added((Ok(found), middle), end) {
                    assert(required_stand_at(start, h, middle));
                }
            },
            (Err(e), middle) => {
                lemma_added_failure(e, middle, end);
            },
        }
    }
}

} // verus!
