//! What holds of blocks and their encodings as a whole.

use crate::block::{applies, blob_hashes_of, failed_after, mapped, Block, BlockBody};
use crate::block_rlp::{
    fields_rlp, nonempty, parse_block_fields, parse_fields, parse_sealed, parse_trailing,
    parse_trailing_field, parse_trailing_withdrawals, trailing_rlp, BlockValue, BodyValue,
};
use crate::bytes::Bytes;
use crate::rlp::{
    items_rlp, list_rlp, open_list, restores, Decodable, Encodable, EMPTY_STRING_CODE,
};
use crate::rlp_laws::{
    lemma_assoc, lemma_be_bytes_u64, lemma_bytes_restores, lemma_head_restores,
    lemma_vec_restores,
};
use crate::seal::keccak256_digest;
use crate::transaction::{Transaction, Typed2718, EIP4844_TX_TYPE_ID};
use crate::withdrawal::{lemma_withdrawals_restore, Withdrawal, Withdrawals};
use alloy_rlp::Error;
use vstd::prelude::*;

verus! {

// ---------------------------------------------------------------------------
// Trailing fields
// ---------------------------------------------------------------------------

/// A list does not start like an empty string.
proof fn lemma_list_first(payload: Seq<u8>)
    requires
        payload.len() <= usize::MAX,
    ensures
        list_rlp(payload).len() > 0,
        list_rlp(payload)[0] >= 0xc0,
{
    lemma_be_bytes_u64(payload.len());
}

/// A string with bytes does not start like an empty one.
proof fn lemma_string_first(s: Seq<u8>)
    requires
        0 < s.len() <= usize::MAX,
    ensures
        Bytes::rlp(s).len() > 0,
        Bytes::rlp(s)[0] != EMPTY_STRING_CODE,
{
    lemma_be_bytes_u64(s.len());
}

/// A trailing field is read back. `rest` is what follows it, of which `after`
/// bytes lie behind the enclosing list.
proof fn lemma_trailing_field<F: Encodable + Decodable>(
    field: Option<F::Value>,
    later: bool,
    rest: Seq<u8>,
    after: nat,
)
    requires
        field matches Some(v) ==> restores::<F>(v) && F::rlp(v)[0] != EMPTY_STRING_CODE,
        if later {
            rest.len() > after
        } else {
            rest.len() == after
        },
    ensures
        parse_trailing_field::<F>(trailing_rlp::<F>(field, later) + rest, after) == (
            Ok::<Option<F::Value>, Error>(field),
            rest,
        ),
{
    let buf = trailing_rlp::<F>(field, later) + rest;
    match field {
        Some(v) => {
            assert(F::parse(F::rlp(v) + rest) == (Ok::<F::Value, Error>(v), rest));
        },
        None => {
            if later {
                assert(buf.skip(1) =~= rest);
            } else {
                assert(buf =~= rest);
            }
        },
    }
}

/// A list of withdrawals is read back, and does not start like an empty string.
proof fn lemma_withdrawals_item(field: Option<Seq<Withdrawal>>)
    requires
        trailing_rlp::<Withdrawals>(field, false).len() <= usize::MAX,
    ensures
        field matches Some(v) ==> restores::<Withdrawals>(v) && Withdrawals::rlp(v)[0]
            != EMPTY_STRING_CODE,
{
    if let Some(v) = field {
        lemma_withdrawals_restore(v);
        lemma_list_first(items_rlp::<Withdrawal>(v));
    }
}

/// The trailing withdrawals are read back.
proof fn lemma_trailing_withdrawals(
    field: Option<Seq<Withdrawal>>,
    later: bool,
    rest: Seq<u8>,
    after: nat,
)
    requires
        trailing_rlp::<Withdrawals>(field, later).len() <= usize::MAX,
        if later {
            rest.len() > after
        } else {
            rest.len() == after
        },
    ensures
        parse_trailing_withdrawals(trailing_rlp::<Withdrawals>(field, later) + rest, after) == (
            Ok::<Option<Seq<Withdrawal>>, Error>(field),
            rest,
        ),
{
    lemma_withdrawals_item(field);
    lemma_trailing_field::<Withdrawals>(field, later, rest, after);
}

/// A trailing blob is read back, unless it has no bytes: then it is taken for a
/// missing one.
proof fn lemma_trailing_blob(field: Option<Seq<u8>>, rest: Seq<u8>)
    requires
        trailing_rlp::<Bytes>(field, false).len() <= usize::MAX,
    ensures
        parse_trailing_field::<Bytes>(trailing_rlp::<Bytes>(field, false) + rest, rest.len()) == (
            Ok::<Option<Seq<u8>>, Error>(nonempty(field)),
            rest,
        ),
{
    let buf = trailing_rlp::<Bytes>(field, false) + rest;
    match field {
        Some(blob) => {
            if blob.len() == 0 {
                assert(Bytes::rlp(blob) =~= seq![EMPTY_STRING_CODE]);
                assert(buf.skip(1) =~= rest);
            } else {
                lemma_bytes_restores(blob);
                lemma_string_first(blob);
                assert(Bytes::parse(Bytes::rlp(blob) + rest) == (
                    Ok::<Seq<u8>, Error>(blob),
                    rest,
                ));
            }
        },
        None => {
            assert(buf =~= rest);
        },
    }
}

/// A trailing field takes up some bytes where it or a later one is there.
proof fn lemma_trailing_present(
    slashed: Option<Seq<Withdrawal>>,
    bridge_requests: Option<Seq<u8>>,
)
    ensures
        bridge_requests is Some ==> trailing_rlp::<Bytes>(bridge_requests, false).len() > 0,
        slashed is Some || bridge_requests is Some ==> trailing_rlp::<Withdrawals>(
            slashed,
            bridge_requests is Some,
        ).len() > 0,
{
}

/// The trailing fields are read one after the other.
proof fn lemma_trailing_steps(
    buf: Seq<u8>,
    from_second: Seq<u8>,
    from_third: Seq<u8>,
    rest: Seq<u8>,
    after: nat,
    withdrawals: Option<Seq<Withdrawal>>,
    slashed: Option<Seq<Withdrawal>>,
    bridge_requests: Option<Seq<u8>>,
)
    requires
        parse_trailing_withdrawals(buf, after) == (
            Ok::<Option<Seq<Withdrawal>>, Error>(withdrawals),
            from_second,
        ),
        parse_trailing_field::<Withdrawals>(from_second, after) == (
            Ok::<Option<Seq<Withdrawal>>, Error>(slashed),
            from_third,
        ),
        parse_trailing_field::<Bytes>(from_third, after) == (
            Ok::<Option<Seq<u8>>, Error>(bridge_requests),
            rest,
        ),
    ensures
        parse_trailing(buf, after) == (
            Ok::<(Option<Seq<Withdrawal>>, Option<Seq<Withdrawal>>, Option<Seq<u8>>), Error>(
                (withdrawals, slashed, bridge_requests),
            ),
            rest,
        ),
{
}

/// The three trailing fields as they are written.
spec fn trailing_fields_rlp(
    withdrawals: Option<Seq<Withdrawal>>,
    slashed: Option<Seq<Withdrawal>>,
    bridge_requests: Option<Seq<u8>>,
) -> Seq<u8> {
    trailing_rlp::<Withdrawals>(withdrawals, slashed is Some || bridge_requests is Some) + (
    trailing_rlp::<Withdrawals>(slashed, bridge_requests is Some) + trailing_rlp::<Bytes>(
        bridge_requests,
        false,
    ))
}

/// The trailing fields are read back.
proof fn lemma_trailing_fields(
    withdrawals: Option<Seq<Withdrawal>>,
    slashed: Option<Seq<Withdrawal>>,
    bridge_requests: Option<Seq<u8>>,
    rest: Seq<u8>,
)
    requires
        trailing_fields_rlp(withdrawals, slashed, bridge_requests).len() <= usize::MAX,
    ensures
        parse_trailing(
            trailing_fields_rlp(withdrawals, slashed, bridge_requests) + rest,
            rest.len(),
        ) == (
            Ok::<(Option<Seq<Withdrawal>>, Option<Seq<Withdrawal>>, Option<Seq<u8>>), Error>(
                (withdrawals, slashed, nonempty(bridge_requests)),
            ),
            rest,
        ),
{
    let early = slashed is Some || bridge_requests is Some;
    let late = bridge_requests is Some;
    let after = rest.len();
    let first = trailing_rlp::<Withdrawals>(withdrawals, early);
    let second = trailing_rlp::<Withdrawals>(slashed, late);
    let third = trailing_rlp::<Bytes>(bridge_requests, false);
    let from_third = third + rest;
    let from_second = second + from_third;
    assert((first + (second + third)) + rest == first + from_second) by {
        lemma_assoc(first, second + third, rest);
        lemma_assoc(second, third, rest);
    }
    assert(early ==> from_second.len() > after) by {
        lemma_trailing_present(slashed, bridge_requests);
    }
    assert(late ==> from_third.len() > after) by {
        lemma_trailing_present(slashed, bridge_requests);
    }
    assert(!late ==> from_third.len() == after);
    assert(!early ==> from_second.len() == after);
    assert(parse_trailing_withdrawals(first + from_second, after) == (
        Ok::<Option<Seq<Withdrawal>>, Error>(withdrawals),
        from_second,
    )) by {
        lemma_trailing_withdrawals(withdrawals, early, from_second, after);
    }
    assert(parse_trailing_field::<Withdrawals>(from_second, after) == (
        Ok::<Option<Seq<Withdrawal>>, Error>(slashed),
        from_third,
    )) by {
        lemma_withdrawals_item(slashed);
        lemma_trailing_field::<Withdrawals>(slashed, late, from_third, after);
    }
    assert(parse_trailing_field::<Bytes>(from_third, after) == (
        Ok::<Option<Seq<u8>>, Error>(nonempty(bridge_requests)),
        rest,
    )) by {
        lemma_trailing_blob(bridge_requests, rest);
    }
    lemma_trailing_steps(
        first + from_second,
        from_second,
        from_third,
        rest,
        after,
        withdrawals,
        slashed,
        nonempty(bridge_requests),
    );
}

// ---------------------------------------------------------------------------
// What is written is read back
// ---------------------------------------------------------------------------

/// Whether the transactions and the ommers of a body are such that each of them
/// is read back as it was written.
pub open spec fn items_restore<T: Encodable + Decodable, H: Encodable + Decodable>(
    body: BodyValue<T::Value, H::Value>,
) -> bool {
    &&& forall|i: int|
        0 <= i < body.transactions.len() ==> restores::<T>(#[trigger] body.transactions[i])
    &&& forall|i: int| 0 <= i < body.ommers.len() ==> restores::<H>(#[trigger] body.ommers[i])
}

/// The fields of a body are read back.
proof fn lemma_fields_restore<T: Encodable + Decodable, H: Encodable + Decodable>(
    body: BodyValue<T::Value, H::Value>,
    rest: Seq<u8>,
)
    requires
        items_restore::<T, H>(body),
        fields_rlp::<T, H>(body).len() <= usize::MAX,
    ensures
        parse_fields::<T, H>(fields_rlp::<T, H>(body) + rest, rest.len()) == (
            Ok::<BodyValue<T::Value, H::Value>, Error>(body.normalized()),
            rest,
        ),
{
    let transactions = Vec::<T>::rlp(body.transactions);
    let ommers = Vec::<H>::rlp(body.ommers);
    let trailing = trailing_fields_rlp(body.withdrawals, body.slashed, body.bridge_requests);
    let from_trailing = trailing + rest;
    let from_ommers = ommers + from_trailing;
    assert(fields_rlp::<T, H>(body) == transactions + (ommers + trailing));
    assert(fields_rlp::<T, H>(body) + rest == transactions + from_ommers) by {
        lemma_assoc(transactions, ommers + trailing, rest);
        lemma_assoc(ommers, trailing, rest);
    }
    assert(Vec::<T>::parse(transactions + from_ommers) == (
        Ok::<Seq<T::Value>, Error>(body.transactions),
        from_ommers,
    )) by {
        lemma_vec_restores::<T>(body.transactions);
    }
    assert(Vec::<H>::parse(from_ommers) == (
        Ok::<Seq<H::Value>, Error>(body.ommers),
        from_trailing,
    )) by {
        lemma_vec_restores::<H>(body.ommers);
    }
    lemma_trailing_fields(body.withdrawals, body.slashed, body.bridge_requests, rest);
}

/// A body that was written is read back, whatever follows it. Only a bridge
/// requests blob without bytes comes back as a missing one.
pub proof fn body_reads_back<T: Encodable + Decodable, H: Encodable + Decodable>(
    body: BodyValue<T::Value, H::Value>,
    rest: Seq<u8>,
)
    requires
        items_restore::<T, H>(body),
        BlockBody::<T, H>::rlp(body).len() <= usize::MAX,
    ensures
        BlockBody::<T, H>::parse(BlockBody::<T, H>::rlp(body) + rest) == (
            Ok::<BodyValue<T::Value, H::Value>, Error>(body.normalized()),
            rest,
        ),
{
    let payload = fields_rlp::<T, H>(body);
    lemma_head_restores(true, payload, rest);
    lemma_fields_restore::<T, H>(body, rest);
}

/// A body is read back as it was written, whatever follows it, unless it has a
/// bridge requests blob without bytes.
pub proof fn body_restores<T: Encodable + Decodable, H: Encodable + Decodable>(
    body: BodyValue<T::Value, H::Value>,
)
    requires
        items_restore::<T, H>(body),
        body.bridge_requests matches Some(blob) ==> blob.len() > 0,
        BlockBody::<T, H>::rlp(body).len() <= usize::MAX,
    ensures
        restores::<BlockBody<T, H>>(body),
{
    assert(body.normalized() == body);
    assert forall|rest: Seq<u8>|
        BlockBody::<T, H>::parse(#[trigger] (BlockBody::<T, H>::rlp(body) + rest)) == (
            Ok::<BodyValue<T::Value, H::Value>, Error>(body),
            rest,
        ) by {
        body_reads_back::<T, H>(body, rest);
    }
}

/// The fields of a block are read back, along with the bytes of its header.
proof fn lemma_block_fields_restore<T: Encodable + Decodable, H: Encodable + Decodable>(
    block: BlockValue<T::Value, H::Value>,
    rest: Seq<u8>,
)
    requires
        restores::<H>(block.header),
        items_restore::<T, H>(block.body),
        fields_rlp::<T, H>(block.body).len() <= usize::MAX,
    ensures
        parse_block_fields::<T, H>(
            (H::rlp(block.header) + fields_rlp::<T, H>(block.body)) + rest,
            rest.len(),
        ) == (
            Ok::<(BlockValue<T::Value, H::Value>, Seq<u8>), Error>(
                (block.normalized(), H::rlp(block.header)),
            ),
            rest,
        ),
{
    let header = H::rlp(block.header);
    let from_body = fields_rlp::<T, H>(block.body) + rest;
    let buf = header + from_body;
    lemma_assoc(header, fields_rlp::<T, H>(block.body), rest);
    assert(H::parse(header + from_body) == (Ok::<H::Value, Error>(block.header), from_body));
    assert(buf.take(buf.len() - from_body.len()) =~= header);
    lemma_fields_restore::<T, H>(block.body, rest);
}

/// A block that was written is read back, whatever follows it. Only a bridge
/// requests blob without bytes comes back as a missing one.
pub proof fn block_reads_back<T: Encodable + Decodable, H: Encodable + Decodable>(
    block: BlockValue<T::Value, H::Value>,
    rest: Seq<u8>,
)
    requires
        restores::<H>(block.header),
        items_restore::<T, H>(block.body),
        Block::<T, H>::rlp(block).len() <= usize::MAX,
    ensures
        Block::<T, H>::parse(Block::<T, H>::rlp(block) + rest) == (
            Ok::<BlockValue<T::Value, H::Value>, Error>(block.normalized()),
            rest,
        ),
{
    let payload = H::rlp(block.header) + fields_rlp::<T, H>(block.normalized().body);
    assert(block.normalized().normalized() == block.normalized());
    lemma_head_restores(true, payload, rest);
    lemma_block_fields_restore::<T, H>(block.normalized(), rest);
}

/// A block is read back as it was written, whatever follows it, unless it has a
/// bridge requests blob without bytes.
pub proof fn block_restores<T: Encodable + Decodable, H: Encodable + Decodable>(
    block: BlockValue<T::Value, H::Value>,
)
    requires
        restores::<H>(block.header),
        items_restore::<T, H>(block.body),
        block.body.bridge_requests matches Some(blob) ==> blob.len() > 0,
        Block::<T, H>::rlp(block).len() <= usize::MAX,
    ensures
        restores::<Block<T, H>>(block),
{
    assert(block.normalized() == block);
    assert forall|rest: Seq<u8>|
        Block::<T, H>::parse(#[trigger] (Block::<T, H>::rlp(block) + rest)) == (
            Ok::<BlockValue<T::Value, H::Value>, Error>(block),
            rest,
        ) by {
        block_reads_back::<T, H>(block, rest);
    }
}

/// Blocks with the same encoding are the same, up to a bridge requests blob
/// without bytes.
pub proof fn block_encoding_is_unique<T: Encodable + Decodable, H: Encodable + Decodable>(
    a: BlockValue<T::Value, H::Value>,
    b: BlockValue<T::Value, H::Value>,
)
    requires
        restores::<H>(a.header),
        restores::<H>(b.header),
        items_restore::<T, H>(a.body),
        items_restore::<T, H>(b.body),
        Block::<T, H>::rlp(a).len() <= usize::MAX,
        Block::<T, H>::rlp(a) == Block::<T, H>::rlp(b),
    ensures
        a.normalized() == b.normalized(),
{
    block_reads_back::<T, H>(a, Seq::empty());
    block_reads_back::<T, H>(b, Seq::empty());
}

/// From the encoding of a block `decode_sealed` reads the block, up to a bridge
/// requests blob without bytes, and the hash of its header, whatever follows it.
pub proof fn sealed_block_reads_back<T: Encodable + Decodable, H: Encodable + Decodable>(
    block: BlockValue<T::Value, H::Value>,
    rest: Seq<u8>,
)
    requires
        restores::<H>(block.header),
        items_restore::<T, H>(block.body),
        Block::<T, H>::rlp(block).len() <= usize::MAX,
    ensures
        parse_sealed::<T, H>(Block::<T, H>::rlp(block) + rest) == (
            Ok::<(BlockValue<T::Value, H::Value>, Seq<u8>), Error>(
                (block.normalized(), keccak256_digest(H::rlp(block.header))),
            ),
            rest,
        ),
{
    let payload = H::rlp(block.header) + fields_rlp::<T, H>(block.normalized().body);
    assert(block.normalized().normalized() == block.normalized());
    lemma_head_restores(true, payload, rest);
    lemma_block_fields_restore::<T, H>(block.normalized(), rest);
}

/// `decode_sealed` reads the block that `decode` reads, leaves the same input
/// and fails with the same error. The hash is that of the bytes of the header.
pub proof fn decoders_agree<T: Decodable, H: Decodable>(buf: Seq<u8>)
    ensures
        match parse_sealed::<T, H>(buf) {
            (Ok((block, hash)), rest) => {
                let start = open_list(buf).1;
                let behind = H::parse(start).1;
                &&& hash == keccak256_digest(start.take(start.len() - behind.len()))
                &&& Block::<T, H>::parse(buf) == (
                    Ok::<BlockValue<T::Value, H::Value>, Error>(block),
                    rest,
                )
            },
            (Err(e), rest) => Block::<T, H>::parse(buf) == (
                Err::<BlockValue<T::Value, H::Value>, Error>(e),
                rest,
            ),
        },
{
}

/// The hash that `decode_sealed` finds in the encoding of a block is that of the
/// header.
proof fn lemma_sealed_hash<T: Encodable + Decodable, H: Encodable + Decodable>(
    block: BlockValue<T::Value, H::Value>,
    rest: Seq<u8>,
)
    requires
        restores::<H>(block.header),
        Block::<T, H>::rlp(block).len() <= usize::MAX,
    ensures
        parse_sealed::<T, H>(Block::<T, H>::rlp(block) + rest).0 matches Ok((_, hash)) ==> hash
            == keccak256_digest(H::rlp(block.header)),
{
    let header = H::rlp(block.header);
    let fields = fields_rlp::<T, H>(block.normalized().body);
    let start = (header + fields) + rest;
    let from_body = fields + rest;
    lemma_head_restores(true, header + fields, rest);
    lemma_assoc(header, fields, rest);
    assert(H::parse(header + from_body) == (Ok::<H::Value, Error>(block.header), from_body));
    assert(start.take(start.len() - from_body.len()) =~= header);
}

/// The body is not part of the hash: blocks with the same header seal to the
/// same hash, whatever their transactions, ommers, withdrawals, slashed entries
/// and bridge requests are.
pub proof fn hash_is_that_of_the_header<T: Encodable + Decodable, H: Encodable + Decodable>(
    a: BlockValue<T::Value, H::Value>,
    b: BlockValue<T::Value, H::Value>,
)
    requires
        a.header == b.header,
        restores::<H>(a.header),
        Block::<T, H>::rlp(a).len() <= usize::MAX,
        Block::<T, H>::rlp(b).len() <= usize::MAX,
    ensures
        match (
            parse_sealed::<T, H>(Block::<T, H>::rlp(a)).0,
            parse_sealed::<T, H>(Block::<T, H>::rlp(b)).0,
        ) {
            (Ok((_, hash_a)), Ok((_, hash_b))) => {
                &&& hash_a == hash_b
                &&& hash_a == keccak256_digest(H::rlp(a.header))
            },
            _ => true,
        },
        items_restore::<T, H>(a.body) ==> parse_sealed::<T, H>(Block::<T, H>::rlp(a)).0 is Ok,
        items_restore::<T, H>(b.body) ==> parse_sealed::<T, H>(Block::<T, H>::rlp(b)).0 is Ok,
{
    let nothing = Seq::<u8>::empty();
    assert(Block::<T, H>::rlp(a) + nothing =~= Block::<T, H>::rlp(a));
    assert(Block::<T, H>::rlp(b) + nothing =~= Block::<T, H>::rlp(b));
    lemma_sealed_hash::<T, H>(a, nothing);
    lemma_sealed_hash::<T, H>(b, nothing);
    if items_restore::<T, H>(a.body) {
        sealed_block_reads_back::<T, H>(a, nothing);
    }
    if items_restore::<T, H>(b.body) {
        sealed_block_reads_back::<T, H>(b, nothing);
    }
}

// ---------------------------------------------------------------------------
// Bridge requests
// ---------------------------------------------------------------------------

/// A block whose bridge requests blob has no bytes is written like the same
/// block without a blob.
pub proof fn empty_blob_is_written_as_none<T: Encodable, H: Encodable>(
    block: BlockValue<T::Value, H::Value>,
)
    requires
        block.body.bridge_requests == Some(Seq::<u8>::empty()),
    ensures
        Block::<T, H>::rlp(block) == Block::<T, H>::rlp(
            BlockValue { body: BodyValue { bridge_requests: None, ..block.body }, ..block },
        ),
{
}

/// No input is read as a blob without bytes.
proof fn lemma_blob_has_bytes(buf: Seq<u8>, after: nat)
    ensures
        parse_trailing_field::<Bytes>(buf, after).0 matches Ok(Some(blob)) ==> blob.len() > 0,
{
}

/// No input is read as trailing fields with a blob without bytes.
proof fn lemma_trailing_has_bytes(buf: Seq<u8>, after: nat)
    ensures
        parse_trailing(buf, after).0 matches Ok((_, _, Some(blob))) ==> blob.len() > 0,
{
    let (_, rest) = parse_trailing_withdrawals(buf, after);
    let (_, rest) = parse_trailing_field::<Withdrawals>(rest, after);
    lemma_blob_has_bytes(rest, after);
}

/// No input is read as the fields of a body with a blob without bytes.
proof fn lemma_fields_have_bytes<T: Decodable, H: Decodable>(buf: Seq<u8>, after: nat)
    ensures
        parse_fields::<T, H>(buf, after).0 matches Ok(body) ==> (
        body.bridge_requests matches Some(blob) ==> blob.len() > 0),
{
    let (_, rest) = Vec::<T>::parse(buf);
    let (_, rest) = Vec::<H>::parse(rest);
    lemma_trailing_has_bytes(rest, after);
}

/// No input is read as a body whose bridge requests blob has no bytes.
pub proof fn body_blob_has_bytes<T: Decodable, H: Decodable>(buf: Seq<u8>)
    ensures
        BlockBody::<T, H>::parse(buf).0 matches Ok(body) ==> (body.bridge_requests matches Some(
            blob,
        ) ==> blob.len() > 0),
{
    let (n, start) = open_list(buf);
    lemma_fields_have_bytes::<T, H>(start, (start.len() - n->Ok_0) as nat);
}

/// No input is read as a block whose bridge requests blob has no bytes, neither
/// by `decode` nor by `decode_sealed`.
pub proof fn block_blob_has_bytes<T: Decodable, H: Decodable>(buf: Seq<u8>)
    ensures
        Block::<T, H>::parse(buf).0 matches Ok(block) ==> (
        block.body.bridge_requests matches Some(blob) ==> blob.len() > 0),
        parse_sealed::<T, H>(buf).0 matches Ok((block, _)) ==> (
        block.body.bridge_requests matches Some(blob) ==> blob.len() > 0),
{
    let (n, start) = open_list(buf);
    let (_, rest) = H::parse(start);
    lemma_fields_have_bytes::<T, H>(rest, (start.len() - n->Ok_0) as nat);
}

/// The fields of a body as they were before there were bridge requests.
pub open spec fn pre_bridge_fields_rlp<T: Encodable, H: Encodable>(
    transactions: Seq<T::Value>,
    ommers: Seq<H::Value>,
    withdrawals: Option<Seq<Withdrawal>>,
    slashed: Option<Seq<Withdrawal>>,
) -> Seq<u8> {
    Vec::<T>::rlp(transactions) + Vec::<H>::rlp(ommers) + trailing_rlp::<Withdrawals>(
        withdrawals,
        slashed is Some,
    ) + trailing_rlp::<Withdrawals>(slashed, false)
}

/// A body without bridge requests is written as it was before there were any.
pub proof fn pre_bridge_body_is_unchanged<T: Encodable, H: Encodable>(
    body: BodyValue<T::Value, H::Value>,
)
    requires
        body.bridge_requests is None,
    ensures
        BlockBody::<T, H>::rlp(body) == list_rlp(
            pre_bridge_fields_rlp::<T, H>(
                body.transactions,
                body.ommers,
                body.withdrawals,
                body.slashed,
            ),
        ),
{
    assert(fields_rlp::<T, H>(body) =~= pre_bridge_fields_rlp::<T, H>(
        body.transactions,
        body.ommers,
        body.withdrawals,
        body.slashed,
    ));
}

/// A block without bridge requests is written as it was before there were any.
pub proof fn pre_bridge_block_is_unchanged<T: Encodable, H: Encodable>(
    block: BlockValue<T::Value, H::Value>,
)
    requires
        block.body.bridge_requests is None,
    ensures
        Block::<T, H>::rlp(block) == list_rlp(
            H::rlp(block.header) + pre_bridge_fields_rlp::<T, H>(
                block.body.transactions,
                block.body.ommers,
                block.body.withdrawals,
                block.body.slashed,
            ),
        ),
{
    assert(fields_rlp::<T, H>(block.body) =~= pre_bridge_fields_rlp::<T, H>(
        block.body.transactions,
        block.body.ommers,
        block.body.withdrawals,
        block.body.slashed,
    ));
}

/// What was written before there were bridge requests is read as a body without
/// any.
pub proof fn pre_bridge_body_reads_back<T: Encodable + Decodable, H: Encodable + Decodable>(
    body: BodyValue<T::Value, H::Value>,
    rest: Seq<u8>,
)
    requires
        items_restore::<T, H>(body),
        body.bridge_requests is None,
        BlockBody::<T, H>::rlp(body).len() <= usize::MAX,
    ensures
        BlockBody::<T, H>::parse(
            list_rlp(
                pre_bridge_fields_rlp::<T, H>(
                    body.transactions,
                    body.ommers,
                    body.withdrawals,
                    body.slashed,
                ),
            ) + rest,
        ) == (Ok::<BodyValue<T::Value, H::Value>, Error>(body), rest),
{
    pre_bridge_body_is_unchanged::<T, H>(body);
    body_reads_back::<T, H>(body, rest);
    assert(body.normalized() == body);
}

/// What was written before there were bridge requests is read as a block without
/// any.
pub proof fn pre_bridge_block_reads_back<T: Encodable + Decodable, H: Encodable + Decodable>(
    block: BlockValue<T::Value, H::Value>,
    rest: Seq<u8>,
)
    requires
        restores::<H>(block.header),
        items_restore::<T, H>(block.body),
        block.body.bridge_requests is None,
        Block::<T, H>::rlp(block).len() <= usize::MAX,
    ensures
        Block::<T, H>::parse(
            list_rlp(
                H::rlp(block.header) + pre_bridge_fields_rlp::<T, H>(
                    block.body.transactions,
                    block.body.ommers,
                    block.body.withdrawals,
                    block.body.slashed,
                ),
            ) + rest,
        ) == (Ok::<BlockValue<T::Value, H::Value>, Error>(block), rest),
{
    pre_bridge_block_is_unchanged::<T, H>(block);
    block_reads_back::<T, H>(block, rest);
    assert(block.normalized() == block);
}

// ---------------------------------------------------------------------------
// A string in the place of withdrawals
// ---------------------------------------------------------------------------

/// Fields that end with an empty string in the place of the withdrawals are
/// refused.
proof fn lemma_fields_refuse_string<T: Encodable + Decodable, H: Encodable + Decodable>(
    transactions: Seq<T::Value>,
    ommers: Seq<H::Value>,
    rest: Seq<u8>,
)
    requires
        forall|i: int| 0 <= i < transactions.len() ==> restores::<T>(#[trigger] transactions[i]),
        forall|i: int| 0 <= i < ommers.len() ==> restores::<H>(#[trigger] ommers[i]),
        (Vec::<T>::rlp(transactions) + Vec::<H>::rlp(ommers)).len() <= usize::MAX,
    ensures
        parse_fields::<T, H>(
            (Vec::<T>::rlp(transactions) + Vec::<H>::rlp(ommers) + seq![EMPTY_STRING_CODE]) + rest,
            rest.len(),
        ) == (
            Err::<BodyValue<T::Value, H::Value>, Error>(Error::UnexpectedString),
            rest,
        ),
{
    let from_string = seq![EMPTY_STRING_CODE] + rest;
    let from_ommers = Vec::<H>::rlp(ommers) + from_string;
    lemma_assoc(
        Vec::<T>::rlp(transactions) + Vec::<H>::rlp(ommers),
        seq![EMPTY_STRING_CODE],
        rest,
    );
    lemma_assoc(Vec::<T>::rlp(transactions), Vec::<H>::rlp(ommers), from_string);
    assert(Vec::<T>::parse(Vec::<T>::rlp(transactions) + from_ommers) == (
        Ok::<Seq<T::Value>, Error>(transactions),
        from_ommers,
    )) by {
        lemma_vec_restores::<T>(transactions);
    }
    assert(Vec::<H>::parse(from_ommers) == (Ok::<Seq<H::Value>, Error>(ommers), from_string)) by {
        lemma_vec_restores::<H>(ommers);
    }
    assert(from_string.skip(1) =~= rest);
}

/// A body whose list ends with an empty string in the place of the withdrawals
/// is refused, whatever follows it.
pub proof fn body_refuses_present_string<T: Encodable + Decodable, H: Encodable + Decodable>(
    transactions: Seq<T::Value>,
    ommers: Seq<H::Value>,
    rest: Seq<u8>,
)
    requires
        forall|i: int| 0 <= i < transactions.len() ==> restores::<T>(#[trigger] transactions[i]),
        forall|i: int| 0 <= i < ommers.len() ==> restores::<H>(#[trigger] ommers[i]),
        (Vec::<T>::rlp(transactions) + Vec::<H>::rlp(ommers)).len() < usize::MAX,
    ensures
        BlockBody::<T, H>::parse(
            list_rlp(
                Vec::<T>::rlp(transactions) + Vec::<H>::rlp(ommers) + seq![EMPTY_STRING_CODE],
            ) + rest,
        ) == (
            Err::<BodyValue<T::Value, H::Value>, Error>(Error::UnexpectedString),
            rest,
        ),
{
    lemma_head_restores(
        true,
        Vec::<T>::rlp(transactions) + Vec::<H>::rlp(ommers) + seq![EMPTY_STRING_CODE],
        rest,
    );
    lemma_fields_refuse_string::<T, H>(transactions, ommers, rest);
}

/// The fields of a block that end with such an empty string are refused.
proof fn lemma_block_fields_refuse_string<T: Encodable + Decodable, H: Encodable + Decodable>(
    header: H::Value,
    transactions: Seq<T::Value>,
    ommers: Seq<H::Value>,
    rest: Seq<u8>,
)
    requires
        restores::<H>(header),
        forall|i: int| 0 <= i < transactions.len() ==> restores::<T>(#[trigger] transactions[i]),
        forall|i: int| 0 <= i < ommers.len() ==> restores::<H>(#[trigger] ommers[i]),
        (Vec::<T>::rlp(transactions) + Vec::<H>::rlp(ommers)).len() <= usize::MAX,
    ensures
        parse_block_fields::<T, H>(
            (H::rlp(header) + (Vec::<T>::rlp(transactions) + Vec::<H>::rlp(ommers)
                + seq![EMPTY_STRING_CODE])) + rest,
            rest.len(),
        ) == (
            Err::<(BlockValue<T::Value, H::Value>, Seq<u8>), Error>(Error::UnexpectedString),
            rest,
        ),
{
    let fields = Vec::<T>::rlp(transactions) + Vec::<H>::rlp(ommers) + seq![EMPTY_STRING_CODE];
    lemma_assoc(H::rlp(header), fields, rest);
    assert(H::parse(H::rlp(header) + (fields + rest)) == (
        Ok::<H::Value, Error>(header),
        fields + rest,
    ));
    lemma_fields_refuse_string::<T, H>(transactions, ommers, rest);
}

/// A block whose list ends with an empty string in the place of the withdrawals
/// is refused by `decode` and by `decode_sealed`, whatever follows it.
pub proof fn block_refuses_present_string<T: Encodable + Decodable, H: Encodable + Decodable>(
    header: H::Value,
    transactions: Seq<T::Value>,
    ommers: Seq<H::Value>,
    rest: Seq<u8>,
)
    requires
        restores::<H>(header),
        forall|i: int| 0 <= i < transactions.len() ==> restores::<T>(#[trigger] transactions[i]),
        forall|i: int| 0 <= i < ommers.len() ==> restores::<H>(#[trigger] ommers[i]),
        (H::rlp(header) + Vec::<T>::rlp(transactions) + Vec::<H>::rlp(ommers)).len() < usize::MAX,
    ensures
        ({
            let buf = list_rlp(
                H::rlp(header) + (Vec::<T>::rlp(transactions) + Vec::<H>::rlp(ommers)
                    + seq![EMPTY_STRING_CODE]),
            );
            &&& Block::<T, H>::parse(buf + rest) == (
                Err::<BlockValue<T::Value, H::Value>, Error>(Error::UnexpectedString),
                rest,
            )
            &&& parse_sealed::<T, H>(buf + rest) == (
                Err::<(BlockValue<T::Value, H::Value>, Seq<u8>), Error>(Error::UnexpectedString),
                rest,
            )
        }),
{
    let payload = H::rlp(header) + (Vec::<T>::rlp(transactions) + Vec::<H>::rlp(ommers)
        + seq![EMPTY_STRING_CODE]);
    lemma_head_restores(true, payload, rest);
    lemma_block_fields_refuse_string::<T, H>(header, transactions, ommers, rest);
}

// ---------------------------------------------------------------------------
// Blob transactions
// ---------------------------------------------------------------------------

/// `has_eip4844_transactions` says whether `eip4844_transactions_iter` gives
/// any.
pub proof fn blob_transactions_are_listed<T: Typed2718>(transactions: Seq<T>)
    ensures
        (exists|i: int|
            0 <= i < transactions.len() && (#[trigger] transactions[i]).tx_type()
                == EIP4844_TX_TYPE_ID) <==> transactions.filter(
            |tx: T| tx.tx_type() == EIP4844_TX_TYPE_ID,
        ).len() > 0,
    decreases transactions.len(),
{
    let is_blob = |tx: T| tx.tx_type() == EIP4844_TX_TYPE_ID;
    reveal(Seq::filter);
    if transactions.len() > 0 {
        let front = transactions.drop_last();
        blob_transactions_are_listed(front);
        if exists|i: int|
            0 <= i < transactions.len() && (#[trigger] transactions[i]).tx_type()
                == EIP4844_TX_TYPE_ID {
            let i = choose|i: int|
                0 <= i < transactions.len() && (#[trigger] transactions[i]).tx_type()
                    == EIP4844_TX_TYPE_ID;
            if i < front.len() {
                assert(front[i].tx_type() == EIP4844_TX_TYPE_ID);
            }
        }
        if front.filter(is_blob).len() > 0 {
            let i = choose|i: int|
                0 <= i < front.len() && (#[trigger] front[i]).tx_type() == EIP4844_TX_TYPE_ID;
            assert(transactions[i].tx_type() == EIP4844_TX_TYPE_ID);
        }
    }
}

/// `blob_versioned_hashes_iter` gives the hashes of the transactions that
/// `eip4844_transactions_iter` gives.
pub proof fn blob_hashes_are_those_of_blob_transactions<T: Transaction>(transactions: Seq<T>)
    ensures
        blob_hashes_of(transactions) == blob_hashes_of(
            transactions.filter(|tx: T| tx.tx_type() == EIP4844_TX_TYPE_ID),
        ),
    decreases transactions.len(),
{
    let is_blob = |tx: T| tx.tx_type() == EIP4844_TX_TYPE_ID;
    reveal(Seq::filter);
    if transactions.len() > 0 {
        let front = transactions.drop_last();
        blob_hashes_are_those_of_blob_transactions(front);
        if is_blob(transactions.last()) {
            let listed = transactions.filter(is_blob);
            assert(listed.drop_last() =~= front.filter(is_blob));
        }
    }
}

// ---------------------------------------------------------------------------
// Conversion of transactions
// ---------------------------------------------------------------------------

/// What is made of each transaction, where it is determined, decides what
/// `try_map_transactions` and `try_convert_transactions` return: the block with
/// what was made where nothing fails, and otherwise the first failure.
pub proof fn first_failure_decides<T, U, E, H, F: FnMut(T) -> Result<U, E>>(
    block: Block<T, H>,
    f: F,
    outcomes: Seq<Result<U, E>>,
    tried: Result<Block<U, H>, E>,
)
    requires
        outcomes.len() == block.body.transactions@.len(),
        forall|i: int, r: Result<U, E>|
            0 <= i < outcomes.len() && #[trigger] call_ensures(
                f,
                (block.body.transactions@[i],),
                r,
            ) ==> r == outcomes[i],
        block.tries_to(f, tried),
    ensures
        tried is Ok <==> (forall|i: int|
            0 <= i < outcomes.len() ==> (#[trigger] outcomes[i]) is Ok),
        tried matches Ok(b) ==> {
            &&& block.same_rest(b)
            &&& b.body.transactions@.len() == outcomes.len()
            &&& forall|i: int|
                0 <= i < outcomes.len() ==> outcomes[i] == Ok::<U, E>(
                    #[trigger] b.body.transactions@[i],
                )
        },
        tried matches Err(e) ==> exists|k: int|
            {
                &&& 0 <= k < outcomes.len()
                &&& #[trigger] outcomes[k] == Err::<U, E>(e)
                &&& forall|i: int| 0 <= i < k ==> (#[trigger] outcomes[i]) is Ok
            },
{
    let xs = block.body.transactions@;
    match tried {
        Ok(b) => {
            assert forall|i: int| 0 <= i < outcomes.len() implies outcomes[i] == Ok::<U, E>(
                #[trigger] b.body.transactions@[i],
            ) by {
                assert(call_ensures(f, (xs[i],), Ok::<U, E>(b.body.transactions@[i])));
            }
            assert forall|i: int| 0 <= i < outcomes.len() implies (
            #[trigger] outcomes[i]) is Ok by {
                assert(outcomes[i] == Ok::<U, E>(b.body.transactions@[i]));
            }
        },
        Err(e) => {
            let done = choose|done: Seq<U>| failed_after(f, xs, done, e);
            let k = done.len() as int;
            assert(call_ensures(f, (xs[k],), Err::<U, E>(e)));
            assert(outcomes[k] == Err::<U, E>(e));
            assert forall|i: int| 0 <= i < k implies (#[trigger] outcomes[i]) is Ok by {
                assert(call_ensures(f, (xs.take(k)[i],), Ok::<U, E>(done[i])));
                assert(xs.take(k)[i] == xs[i]);
            }
        },
    }
}

/// Whether `g` can make only one thing of each item.
pub open spec fn single_valued<A, B, G: FnMut(A) -> B>(g: G, xs: Seq<A>) -> bool {
    forall|i: int, y: B, z: B|
        0 <= i < xs.len() && #[trigger] call_ensures(g, (xs[i],), y) && #[trigger] call_ensures(
            g,
            (xs[i],),
            z,
        ) ==> y == z
}

/// A function that can make only one thing of each item makes only one sequence.
proof fn lemma_single_valued<A, B, G: FnMut(A) -> B>(g: G, xs: Seq<A>, ys: Seq<B>, zs: Seq<B>)
    requires
        single_valued(g, xs),
        mapped(g, xs, ys),
        mapped(g, xs, zs),
    ensures
        ys == zs,
{
    assert forall|i: int| 0 <= i < xs.len() implies ys[i] == zs[i] by {
        assert(call_ensures(g, (xs[i],), ys[i]));
        assert(call_ensures(g, (xs[i],), zs[i]));
    }
    assert(ys =~= zs);
}

/// Where `f` never fails and makes what `g` makes, `try_map_transactions` gives
/// `Ok` of a block that `map_transactions` may give, and of the one that it does
/// give where `g` leaves it no choice.
pub proof fn try_map_without_failure_is_map<
    T,
    U,
    E,
    H,
    F: FnMut(T) -> Result<U, E>,
    G: FnMut(T) -> U,
>(block: Block<T, H>, f: F, g: G, tried: Result<Block<U, H>, E>, plain: Block<U, H>)
    requires
        forall|i: int, r: Result<U, E>|
            0 <= i < block.body.transactions@.len() && #[trigger] call_ensures(
                f,
                (block.body.transactions@[i],),
                r,
            ) ==> r is Ok && call_ensures(g, (block.body.transactions@[i],), r->Ok_0),
        block.tries_to(f, tried),
        block.maps_to(g, plain),
    ensures
        tried is Ok,
        block.maps_to(g, tried->Ok_0),
        single_valued(g, block.body.transactions@) ==> {
            &&& tried->Ok_0.body.transactions@ == plain.body.transactions@
            &&& plain.same_rest(tried->Ok_0)
        },
{
    let xs = block.body.transactions@;
    if let Err(e) = tried {
        let done = choose|done: Seq<U>| failed_after(f, xs, done, e);
        let k = done.len() as int;
        assert(call_ensures(f, (xs[k],), Err::<U, E>(e)));
        assert(false);
    }
    let ys = tried->Ok_0.body.transactions@;
    assert forall|i: int| #![trigger ys[i]] 0 <= i < xs.len() implies call_ensures(
        g,
        (xs[i],),
        ys[i],
    ) by {
        assert(call_ensures(f, (xs[i],), Ok::<U, E>(ys[i])));
    }
    if single_valued(g, xs) {
        lemma_single_valued(g, xs, ys, plain.body.transactions@);
    }
}

/// Without transactions `try_map_transactions` succeeds, whatever the function
/// is.
pub proof fn try_map_of_no_transactions_succeeds<T, U, E, H, F: FnMut(T) -> Result<U, E>>(
    block: Block<T, H>,
    f: F,
    tried: Result<Block<U, H>, E>,
)
    requires
        block.body.transactions@.len() == 0,
        block.tries_to(f, tried),
    ensures
        applies(f, block.body.transactions@),
        tried is Ok,
        tried->Ok_0.body.transactions@.len() == 0,
        block.same_rest(tried->Ok_0),
{
}

/// Where transactions convert by `From`, which cannot fail,
/// `try_convert_transactions` gives `Ok` of a block that `convert_transactions`
/// may give, and of the one that it does give where the conversion leaves it no
/// choice.
pub proof fn try_convert_by_from_is_convert<T, U: From<T>, H>(
    block: Block<T, H>,
    tried: Result<Block<U, H>, <U as TryFrom<T>>::Error>,
    plain: Block<U, H>,
)
    requires
        block.tries_to(<U as TryFrom<T>>::try_from, tried),
        block.maps_to(<U as From<T>>::from, plain),
    ensures
        tried is Ok,
        block.maps_to(<U as From<T>>::from, tried->Ok_0),
        single_valued(<U as From<T>>::from, block.body.transactions@) ==> {
            &&& tried->Ok_0.body.transactions@ == plain.body.transactions@
            &&& plain.same_rest(tried->Ok_0)
        },
        <U as vstd::std_specs::convert::FromSpec<T>>::obeys_from_spec() ==> {
            &&& tried->Ok_0.body.transactions@ == plain.body.transactions@
            &&& plain.same_rest(tried->Ok_0)
        },
{
    try_map_without_failure_is_map(
        block,
        <U as TryFrom<T>>::try_from,
        <U as From<T>>::from,
        tried,
        plain,
    );
}

} // verus!
