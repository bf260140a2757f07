//! What holds of blocks that are made of [`TxEnvelope`] and [`Header`].

use crate::block::{Block, BlockBody};
use crate::block_rlp::{parse_sealed, BlockValue};
use crate::draw::{draw_items, draw_payload, draw_upto, Arbitrary};
use crate::header::{lemma_header_restores, Header, HeaderValue};
use crate::laws::{block_reads_back, items_restore, sealed_block_reads_back};
use crate::rlp::{items_rlp, list_rlp, restores, Decodable, Encodable};
use crate::seal::keccak256_digest;
use crate::transaction::{
    lemma_tx_restores, TxEnvelope, TxValue, EIP7702_TX_TYPE_ID, LEGACY_TX_TYPE_ID,
};
use alloy_rlp::Error;
use vstd::prelude::*;

verus! {

/// Whether the items of a block are such that they can be read back: each
/// transaction has a body that can stand behind its type, and no header has a
/// field of a later fork without those before it.
pub open spec fn well_formed(block: BlockValue<TxValue, HeaderValue>) -> bool {
    &&& block.header.gapless()
    &&& forall|i: int|
        0 <= i < block.body.transactions.len() ==> (
        #[trigger] block.body.transactions[i]).well_formed()
    &&& forall|i: int|
        0 <= i < block.body.ommers.len() ==> (#[trigger] block.body.ommers[i]).gapless()
}

/// An item is no longer than the list that holds it.
proof fn lemma_item_len<T: Encodable>(vs: Seq<T::Value>, i: int)
    requires
        0 <= i < vs.len(),
    ensures
        T::rlp(vs[i]).len() <= items_rlp::<T>(vs).len(),
    decreases vs.len(),
{
    if i > 0 {
        lemma_item_len::<T>(vs.skip(1), i - 1);
    }
}

/// The items of a well-formed block are read back.
proof fn lemma_well_formed_restores(block: BlockValue<TxValue, HeaderValue>)
    requires
        well_formed(block),
        Block::<TxEnvelope, Header>::rlp(block).len() <= usize::MAX,
    ensures
        restores::<Header>(block.header),
        items_restore::<TxEnvelope, Header>(block.body),
{
    let transactions = block.body.transactions;
    let ommers = block.body.ommers;
    assert(Header::rlp(block.header).len() <= usize::MAX);
    assert(items_rlp::<TxEnvelope>(transactions).len() <= usize::MAX);
    assert(items_rlp::<Header>(ommers).len() <= usize::MAX);
    lemma_header_restores(block.header);
    assert forall|i: int| 0 <= i < transactions.len() implies restores::<TxEnvelope>(
        #[trigger] transactions[i],
    ) by {
        lemma_item_len::<TxEnvelope>(transactions, i);
        lemma_tx_restores(transactions[i]);
    }
    assert forall|i: int| 0 <= i < ommers.len() implies restores::<Header>(
        #[trigger] ommers[i],
    ) by {
        lemma_item_len::<Header>(ommers, i);
        lemma_header_restores(ommers[i]);
    }
}

/// A well-formed block that was written is read back by `decode`, and by
/// `decode_sealed` with the hash of its header, whatever follows it. Only a
/// bridge requests blob without bytes comes back as a missing one.
pub proof fn ethereum_block_reads_back(block: BlockValue<TxValue, HeaderValue>, rest: Seq<u8>)
    requires
        well_formed(block),
        Block::<TxEnvelope, Header>::rlp(block).len() <= usize::MAX,
    ensures
        Block::<TxEnvelope, Header>::parse(Block::<TxEnvelope, Header>::rlp(block) + rest) == (
            Ok::<BlockValue<TxValue, HeaderValue>, Error>(block.normalized()),
            rest,
        ),
        parse_sealed::<TxEnvelope, Header>(Block::<TxEnvelope, Header>::rlp(block) + rest) == (
            Ok::<(BlockValue<TxValue, HeaderValue>, Seq<u8>), Error>(
                (block.normalized(), keccak256_digest(Header::rlp(block.header))),
            ),
            rest,
        ),
{
    lemma_well_formed_restores(block);
    block_reads_back::<TxEnvelope, Header>(block, rest);
    sealed_block_reads_back::<TxEnvelope, Header>(block, rest);
}

/// A header that was written is read back, and the bytes that it is read from,
/// which `Header::decode_sealed` hashes, are its encoding, which
/// `Header::hash_slow` hashes.
pub proof fn header_reads_back(header: HeaderValue, rest: Seq<u8>)
    requires
        header.gapless(),
        Header::rlp(header).len() <= usize::MAX,
    ensures
        ({
            let buf = Header::rlp(header) + rest;
            &&& Header::parse(buf) == (Ok::<HeaderValue, Error>(header), rest)
            &&& buf.take(buf.len() - rest.len()) == Header::rlp(header)
        }),
{
    let buf = Header::rlp(header) + rest;
    lemma_header_restores(header);
    assert(Header::parse(Header::rlp(header) + rest) == (Ok::<HeaderValue, Error>(header), rest));
    assert(buf.take(buf.len() - rest.len()) =~= Header::rlp(header));
}

// ---------------------------------------------------------------------------
// Blocks from unstructured data
// ---------------------------------------------------------------------------

/// There are as many values as were asked for.
proof fn lemma_draw_items_len<T: Arbitrary>(data: Seq<u8>, n: nat)
    ensures
        draw_items::<T>(data, n).0 matches Ok(items) ==> items.len() == n,
    decreases n,
{
    if n > 0 {
        lemma_draw_items_len::<T>(data, (n - 1) as nat);
    }
}

/// A body that is made from unstructured data has at most 100 transactions and
/// at most one ommer, and never a bridge requests blob without bytes.
pub proof fn drawn_body_is_bounded<T: Arbitrary, H: Arbitrary>(data: Seq<u8>)
    ensures
        BlockBody::<T, H>::draw(data).0 matches Ok(body) ==> {
            &&& body.transactions.len() <= 100
            &&& body.ommers.len() <= 1
            &&& body.bridge_requests matches Some(blob) ==> blob.len() > 0
        },
{
    let (n, rest) = draw_upto(data, 100);
    lemma_draw_items_len::<T>(rest, n);
    let (_, rest) = draw_items::<T>(rest, n);
    let (n, rest) = draw_upto(rest, 1);
    lemma_draw_items_len::<H>(rest, n);
}

/// A transaction that is made from unstructured data is well-formed.
proof fn lemma_drawn_tx(data: Seq<u8>)
    ensures
        TxEnvelope::draw(data).0 is Ok,
        TxEnvelope::draw(data).0->Ok_0.well_formed(),
{
    let v = TxEnvelope::draw(data).0->Ok_0;
    let (payload, _) = draw_payload(draw_upto(data, EIP7702_TX_TYPE_ID as nat).1);
    if v.ty == LEGACY_TX_TYPE_ID {
        assert(v.body == list_rlp(payload));
    }
}

/// A header that is made from unstructured data is gapless.
proof fn lemma_drawn_header(data: Seq<u8>)
    ensures
        Header::draw(data).0 is Ok,
        Header::draw(data).0->Ok_0.gapless(),
{
}

/// The transactions that are made from unstructured data are well-formed.
proof fn lemma_drawn_txs(data: Seq<u8>, n: nat)
    ensures
        draw_items::<TxEnvelope>(data, n).0 is Ok,
        forall|i: int|
            0 <= i < draw_items::<TxEnvelope>(data, n).0->Ok_0.len() ==> (
            #[trigger] draw_items::<TxEnvelope>(data, n).0->Ok_0[i]).well_formed(),
    decreases n,
{
    if n > 0 {
        lemma_drawn_txs(data, (n - 1) as nat);
        lemma_drawn_tx(draw_items::<TxEnvelope>(data, (n - 1) as nat).1);
    }
}

/// The headers that are made from unstructured data are gapless.
proof fn lemma_drawn_headers(data: Seq<u8>, n: nat)
    ensures
        draw_items::<Header>(data, n).0 is Ok,
        forall|i: int|
            0 <= i < draw_items::<Header>(data, n).0->Ok_0.len() ==> (
            #[trigger] draw_items::<Header>(data, n).0->Ok_0[i]).gapless(),
    decreases n,
{
    if n > 0 {
        lemma_drawn_headers(data, (n - 1) as nat);
        lemma_drawn_header(draw_items::<Header>(data, (n - 1) as nat).1);
    }
}

/// From any data a block can be made, and what is made is written and read back
/// unchanged by `decode` and by `decode_sealed`, the latter with the hash of its
/// header.
pub proof fn drawn_block_reads_back(data: Seq<u8>, rest: Seq<u8>)
    ensures
        Block::<TxEnvelope, Header>::draw(data).0 matches Ok(block) && (Block::<
            TxEnvelope,
            Header,
        >::rlp(block).len() <= usize::MAX ==> {
            let encoded = Block::<TxEnvelope, Header>::rlp(block);
            &&& Block::<TxEnvelope, Header>::parse(encoded + rest) == (
                Ok::<BlockValue<TxValue, HeaderValue>, Error>(block),
                rest,
            )
            &&& parse_sealed::<TxEnvelope, Header>(encoded + rest) == (
                Ok::<(BlockValue<TxValue, HeaderValue>, Seq<u8>), Error>(
                    (block, keccak256_digest(Header::rlp(block.header))),
                ),
                rest,
            )
        }),
{
    lemma_drawn_header(data);
    let (_, from_body) = Header::draw(data);
    let (n, from_txs) = draw_upto(from_body, 100);
    lemma_drawn_txs(from_txs, n);
    let (_, from_count) = draw_items::<TxEnvelope>(from_txs, n);
    let (m, from_ommers) = draw_upto(from_count, 1);
    lemma_drawn_headers(from_ommers, m);
    drawn_body_is_bounded::<TxEnvelope, Header>(from_body);
    let block = Block::<TxEnvelope, Header>::draw(data).0->Ok_0;
    assert(block.normalized() == block);
    if Block::<TxEnvelope, Header>::rlp(block).len() <= usize::MAX {
        ethereum_block_reads_back(block, rest);
    }
}

} // verus!
