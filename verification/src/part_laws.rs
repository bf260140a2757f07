//! What values stand for, and what the operations on the parts of a block and
//! on unstructured data do, item by item.

use crate::block::{
    blob_hashes_of, failed_after, map_failed, mapped, try_mapped, Block, BlockBody,
};
use crate::bytes::{Bytes, FixedBytes, B256, U256};
use crate::draw::{
    draw_blob, draw_bytes, draw_items, draw_u64, draw_upto, draw_withdrawals, withdrawal_of,
    Arbitrary,
};
use crate::header::Header;
use crate::layout_laws::behind_first;
use crate::rlp::{be_value, list_rlp, parse_head, values, Decodable, Encodable, RlpValue};
use crate::seal::{keccak256_digest, Sealable};
use crate::transaction::{behind_items, Transaction, TxEnvelope, TxValue, Typed2718};
use crate::withdrawal::{Withdrawal, Withdrawals};
use vstd::prelude::*;

verus! {

// ---------------------------------------------------------------------------
// Values
// ---------------------------------------------------------------------------

/// Numbers and byte strings of fixed length stand for themselves, and byte
/// strings and withdrawals for their contents in order.
pub proof fn scalar_values<const N: usize>(
    n: u64,
    large: U256,
    fixed: FixedBytes<N>,
    bytes: Bytes,
    withdrawal: Withdrawal,
    withdrawals: Withdrawals,
)
    ensures
        n.value() == n,
        large.value() == large,
        large.number() == be_value(large.0@),
        fixed.value() == fixed,
        fixed@ == fixed.0@,
        bytes.value() == bytes.0@,
        bytes@ == bytes.0@,
        withdrawal.value() == withdrawal,
        withdrawals.value() == withdrawals.0@,
        withdrawals@ == withdrawals.0@,
{
}

/// A list stands for what its items stand for, in order.
pub proof fn list_value<T: RlpValue>(list: Vec<T>)
    ensures
        list.value().len() == list@.len(),
        values(list@) == list.value(),
        forall|i: int|
            #![trigger list@[i]]
            0 <= i < list@.len() ==> list.value()[i] == list@[i].value(),
{
}

/// A body stands for what its fields stand for.
pub proof fn body_value<T: RlpValue, H: RlpValue>(body: BlockBody<T, H>)
    ensures
        body.value().transactions == body.transactions.value(),
        body.value().ommers == body.ommers.value(),
        body.value().withdrawals == (match body.withdrawals {
            Some(withdrawals) => Some(withdrawals.0@),
            None => None,
        }),
        body.value().slashed == (match body.slashed {
            Some(slashed) => Some(slashed.0@),
            None => None,
        }),
        body.value().bridge_requests == (match body.bridge_requests {
            Some(blob) => Some(blob.0@),
            None => None,
        }),
{
}

/// A block stands for what its header and its body stand for.
pub proof fn block_value<T: RlpValue, H: RlpValue>(block: Block<T, H>)
    ensures
        block.value().header == block.header.value(),
        block.value().body == block.body.value(),
{
}

/// A header stands for its fields.
pub proof fn header_value(header: Header)
    ensures
        header.value().parent_hash == header.parent_hash,
        header.value().ommers_hash == header.ommers_hash,
        header.value().beneficiary == header.beneficiary,
        header.value().state_root == header.state_root,
        header.value().transactions_root == header.transactions_root,
        header.value().receipts_root == header.receipts_root,
        header.value().logs_bloom == header.logs_bloom,
        header.value().difficulty == header.difficulty,
        header.value().number == header.number,
        header.value().gas_limit == header.gas_limit,
        header.value().gas_used == header.gas_used,
        header.value().timestamp == header.timestamp,
        header.value().extra_data == header.extra_data.0@,
        header.value().mix_hash == header.mix_hash,
        header.value().nonce == header.nonce,
        header.value().base_fee_per_gas == header.base_fee_per_gas,
        header.value().withdrawals_root == header.withdrawals_root,
        header.value().blob_gas_used == header.blob_gas_used,
        header.value().excess_blob_gas == header.excess_blob_gas,
        header.value().parent_beacon_block_root == header.parent_beacon_block_root,
        header.value().requests_hash == header.requests_hash,
{
}

/// The hash of a header is that of its encoding.
pub proof fn header_hash(header: Header)
    ensures
        header.seal_hash() == keccak256_digest(Header::rlp(header.value())),
{
}

/// A transaction stands for its type and its body.
pub proof fn transaction_value(tx: TxEnvelope)
    ensures
        tx.value().ty == tx.ty,
        tx.value().body == tx.body.0@,
{
}

// ---------------------------------------------------------------------------
// Items that are mapped
// ---------------------------------------------------------------------------

/// What a function has made of items is one thing for each, in their order.
pub proof fn mapped_items<A, B, F: FnMut(A) -> B>(f: F, xs: Seq<A>, ys: Seq<B>)
    requires
        mapped(f, xs, ys),
    ensures
        ys.len() == xs.len(),
        forall|i: int|
            #![trigger ys[i]]
            0 <= i < xs.len() ==> call_ensures(f, (xs[i],), ys[i]),
{
}

/// What a function that may fail has made of items, without a failure, is one
/// thing for each, in their order.
pub proof fn try_mapped_items<A, B, E, F: FnMut(A) -> Result<B, E>>(f: F, xs: Seq<A>, ys: Seq<B>)
    requires
        try_mapped(f, xs, ys),
    ensures
        ys.len() == xs.len(),
        forall|i: int|
            #![trigger ys[i]]
            0 <= i < xs.len() ==> call_ensures(f, (xs[i],), Ok::<B, E>(ys[i])),
{
}

/// A failure is that of an item, and the function has succeeded on those in
/// front of it.
pub proof fn failed_item<A, B, E, F: FnMut(A) -> Result<B, E>>(f: F, xs: Seq<A>, e: E) -> (res: (
    int,
    Seq<B>,
))
    requires
        map_failed(f, xs, e),
    ensures
        0 <= res.0 < xs.len(),
        call_ensures(f, (xs[res.0],), Err::<B, E>(e)),
        res.1.len() == res.0,
        forall|i: int|
            #![trigger xs[i]]
            0 <= i < res.0 ==> call_ensures(f, (xs[i],), Ok::<B, E>(res.1[i])),
{
    let done = choose|done: Seq<B>| failed_after(f, xs, done, e);
    let k = done.len() as int;
    assert forall|i: int| #![trigger xs[i]] 0 <= i < k implies call_ensures(
        f,
        (xs[i],),
        Ok::<B, E>(done[i]),
    ) by {
        assert(xs.take(k)[i] == xs[i]);
        assert(call_ensures(f, (xs.take(k)[i],), Ok::<B, E>(done[i])));
    }
    (k, done)
}

/// Mapping the transactions of a block keeps everything else.
pub proof fn mapped_block<T, U, H, F: FnMut(T) -> U>(block: Block<T, H>, f: F, res: Block<U, H>)
    requires
        block.maps_to(f, res),
    ensures
        res.header == block.header,
        res.body.ommers == block.body.ommers,
        res.body.withdrawals == block.body.withdrawals,
        res.body.slashed == block.body.slashed,
        res.body.bridge_requests == block.body.bridge_requests,
        res.body.transactions@.len() == block.body.transactions@.len(),
        forall|i: int|
            #![trigger res.body.transactions@[i]]
            0 <= i < block.body.transactions@.len() ==> call_ensures(
                f,
                (block.body.transactions@[i],),
                res.body.transactions@[i],
            ),
{
}

/// Mapping the transactions of a block with a function that may fail keeps
/// everything else, or gives the failure.
pub proof fn try_mapped_block<T, U, E, H, F: FnMut(T) -> Result<U, E>>(
    block: Block<T, H>,
    f: F,
    res: Result<Block<U, H>, E>,
)
    requires
        block.tries_to(f, res),
    ensures
        match res {
            Ok(b) => {
                &&& b.header == block.header
                &&& b.body.ommers == block.body.ommers
                &&& b.body.withdrawals == block.body.withdrawals
                &&& b.body.slashed == block.body.slashed
                &&& b.body.bridge_requests == block.body.bridge_requests
                &&& b.body.transactions@.len() == block.body.transactions@.len()
                &&& forall|i: int|
                    #![trigger b.body.transactions@[i]]
                    0 <= i < block.body.transactions@.len() ==> call_ensures(
                        f,
                        (block.body.transactions@[i],),
                        Ok::<U, E>(b.body.transactions@[i]),
                    )
            },
            Err(e) => exists|k: int, done: Seq<U>|
                {
                    &&& #[trigger] done.len() == k < block.body.transactions@.len()
                    &&& #[trigger] call_ensures(
                        f,
                        (block.body.transactions@[k],),
                        Err::<U, E>(e),
                    )
                    &&& forall|i: int|
                        #![trigger done[i]]
                        0 <= i < k ==> call_ensures(
                            f,
                            (block.body.transactions@[i],),
                            Ok::<U, E>(done[i]),
                        )
                },
        },
{
    if let Err(e) = res {
        let (k, done) = failed_item::<T, U, E, F>(f, block.body.transactions@, e);
        assert(done.len() == k);
        assert(call_ensures(f, (block.body.transactions@[k],), Err::<U, E>(e)));
        assert forall|i: int| #![trigger done[i]] 0 <= i < k implies call_ensures(
            f,
            (block.body.transactions@[i],),
            Ok::<U, E>(done[i]),
        ) by {
            let x = block.body.transactions@[i];
        }
    }
}

// ---------------------------------------------------------------------------
// Blob hashes
// ---------------------------------------------------------------------------

/// Without transactions there are no blob hashes, and one transaction has all of
/// its own, if it is an EIP-4844 transaction.
pub proof fn blob_hashes_of_one<T: Transaction>(tx: T)
    ensures
        blob_hashes_of(Seq::<T>::empty()) == Seq::<B256>::empty(),
        blob_hashes_of(seq![tx]) == (if tx.tx_type() == 3 {
            match tx.blob_hashes() {
                Some(hashes) => hashes,
                None => Seq::empty(),
            }
        } else {
            Seq::empty()
        }),
{
    let none = Seq::<T>::empty();
    assert(blob_hashes_of(none) =~= Seq::<B256>::empty());
    assert(seq![tx].drop_last() =~= none);
    assert(seq![tx].last() == tx);
    if let Some(hashes) = tx.blob_hashes() {
        assert(Seq::<B256>::empty() + hashes =~= hashes);
    }
}

/// The blob hashes of some transactions and of those behind them follow each
/// other, and there are as many as both have.
pub proof fn blob_hashes_of_both<T: Transaction>(a: Seq<T>, b: Seq<T>)
    ensures
        blob_hashes_of(a + b) == blob_hashes_of(a) + blob_hashes_of(b),
        blob_hashes_of(a + b).len() == blob_hashes_of(a).len() + blob_hashes_of(b).len(),
    decreases b.len(),
{
    if b.len() == 0 {
        assert(a + b =~= a);
        assert(blob_hashes_of(a) + blob_hashes_of(b) =~= blob_hashes_of(a));
    } else {
        let front = b.drop_last();
        blob_hashes_of_both(a, front);
        assert((a + b).drop_last() =~= a + front);
        assert((a + b).last() == b.last());
        assert(blob_hashes_of(a + b) =~= blob_hashes_of(a) + blob_hashes_of(b));
    }
}

/// Two ways to skip items agree.
proof fn lemma_behind_items(buf: Seq<u8>, k: nat)
    ensures
        behind_items(buf, k) == behind_first(buf, k),
    decreases k,
{
    if k > 0 {
        if let (Ok(head), payload) = parse_head(buf) {
            lemma_behind_items(payload.skip(head.payload_length as int), (k - 1) as nat);
        }
    }
}

/// The blob hashes of an EIP-4844 transaction are the list behind the first ten
/// items of the list that its body is. A transaction of another type has none.
pub proof fn blob_hashes_stand_behind_ten_items(tx: TxEnvelope)
    ensures
        tx.ty != 3 ==> tx.blob_hashes() is None,
        tx.ty == 3 ==> match parse_head(tx.body.0@) {
            (Ok(head), fields) => if !head.list {
                tx.blob_hashes() is None
            } else {
                match behind_first(fields, 10) {
                    Some(rest) => match Vec::<B256>::parse(rest).0 {
                        Ok(hashes) => tx.blob_hashes() == Some(hashes),
                        Err(_) => tx.blob_hashes() is None,
                    },
                    None => tx.blob_hashes() is None,
                }
            },
            (Err(_), _) => tx.blob_hashes() is None,
        },
{
    let (head, fields) = parse_head(tx.body.0@);
    lemma_behind_items(fields, 10);
}

// ---------------------------------------------------------------------------
// Unstructured data
// ---------------------------------------------------------------------------

/// Whether `steps` are the data from which the values of `vs` are made one after
/// the other.
pub open spec fn made_in_steps<T: Arbitrary>(vs: Seq<T::Value>, steps: Seq<Seq<u8>>) -> bool {
    &&& steps.len() == vs.len() + 1
    &&& forall|i: int|
        #![trigger vs[i]]
        0 <= i < vs.len() ==> is_made::<T>(steps[i], vs[i], steps[i + 1])
}

/// Whether `v` is made from `from` and leaves `to`.
pub open spec fn is_made<T: Arbitrary>(from: Seq<u8>, v: T::Value, to: Seq<u8>) -> bool {
    T::draw(from) == (Ok::<T::Value, arbitrary::Error>(v), to)
}

/// The fields of a withdrawal that is made are its index, the index of its
/// validator, its address and its amount.
pub proof fn withdrawal_is_made(index: u64, validator_index: u64, address: [u8; 20], amount: u64)
    ensures
        withdrawal_of((index, validator_index, address, amount)) == (Withdrawal {
            index,
            validator_index,
            address: FixedBytes(address),
            amount,
        }),
{
}

/// So many values are made as were asked for, one after the other, or fewer up
/// to the first failure.
pub proof fn items_are_made_in_order<T: Arbitrary>(data: Seq<u8>, n: nat) -> (res: (
    Seq<T::Value>,
    Seq<Seq<u8>>,
))
    ensures
        made_in_steps::<T>(res.0, res.1),
        res.1[0] == data,
        match draw_items::<T>(data, n) {
            (Ok(items), rest) => items == res.0 && items.len() == n && rest == res.1.last(),
            (Err(e), rest) => res.0.len() < n && T::draw(res.1.last()) == (
                Err::<T::Value, arbitrary::Error>(e),
                rest,
            ),
        },
    decreases n,
{
    if n == 0 {
        (Seq::empty(), seq![data])
    } else {
        let (vs, steps) = items_are_made_in_order::<T>(data, (n - 1) as nat);
        match draw_items::<T>(data, (n - 1) as nat) {
            (Ok(items), rest) => match T::draw(rest) {
                (Ok(v), left) => {
                    let all = vs.push(v);
                    let whole = steps.push(left);
                    assert forall|i: int| #![trigger all[i]] 0 <= i < all.len() implies is_made::<
                        T,
                    >(whole[i], all[i], whole[i + 1]) by {
                        if i < vs.len() {
                            assert(all[i] == vs[i]);
                            assert(whole[i] == steps[i]);
                            assert(whole[i + 1] == steps[i + 1]);
                        }
                    }
                    (all, whole)
                },
                (Err(e), left) => (vs, steps),
            },
            (Err(e), rest) => (vs, steps),
        }
    }
}

/// A number up to a bound is the first byte modulo the size of the range.
proof fn lemma_draw_upto(data: Seq<u8>, most: nat)
    ensures
        draw_upto(data, most) == (if data.len() == 0 {
            (0nat, data)
        } else {
            (data[0] as nat % (most + 1), data.skip(1))
        }),
{
    let (bytes, rest) = draw_bytes(data, 1);
    if data.len() == 0 {
        assert(bytes[0] == 0);
        assert(rest =~= data);
        assert(0nat % (most + 1) == 0) by (nonlinear_arith);
    } else {
        assert(bytes[0] == data[0]);
    }
}

/// A body is made of up to 100 transactions, at most one ommer, a blob,
/// withdrawals and slashed entries, which are taken from the data in this order.
/// A blob without bytes is dropped.
pub proof fn body_is_made_in_order<T: Arbitrary, H: Arbitrary>(data: Seq<u8>)
    ensures
        ({
            let n: nat = if data.len() == 0 {
                0
            } else {
                data[0] as nat % 101
            };
            let (transactions, second) = draw_items::<T>(
                if data.len() == 0 {
                    data
                } else {
                    data.skip(1)
                },
                n,
            );
            let m: nat = if second.len() == 0 {
                0
            } else {
                second[0] as nat % 2
            };
            let (ommers, third) = draw_items::<H>(
                if second.len() == 0 {
                    second
                } else {
                    second.skip(1)
                },
                m,
            );
            let (blob, fourth) = draw_blob(third);
            let (withdrawals, fifth) = draw_withdrawals(fourth);
            let (slashed, rest) = draw_withdrawals(fifth);
            match BlockBody::<T, H>::draw(data) {
                (Ok(body), left) => {
                    &&& transactions == Ok::<Seq<T::Value>, arbitrary::Error>(body.transactions)
                    &&& ommers == Ok::<Seq<H::Value>, arbitrary::Error>(body.ommers)
                    &&& body.withdrawals == withdrawals
                    &&& body.slashed == slashed
                    &&& if blob is Some && blob->0.len() > 0 {
                        body.bridge_requests == blob
                    } else {
                        body.bridge_requests is None
                    }
                    &&& left == rest
                },
                (Err(e), left) => {
                    ||| transactions == Err::<Seq<T::Value>, arbitrary::Error>(e) && left == second
                    ||| {
                        &&& transactions is Ok
                        &&& ommers == Err::<Seq<H::Value>, arbitrary::Error>(e)
                        &&& left == third
                    }
                },
            }
        }),
{
    lemma_draw_upto(data, 100);
    let (n, first) = draw_upto(data, 100);
    let (_, second) = draw_items::<T>(first, n);
    lemma_draw_upto(second, 1);
}

/// A block is made of a header and a body, in this order.
pub proof fn block_is_made_in_order<T: Arbitrary, H: Arbitrary>(data: Seq<u8>)
    ensures
        ({
            let (header, second) = H::draw(data);
            let (body, rest) = BlockBody::<T, H>::draw(second);
            match Block::<T, H>::draw(data) {
                (Ok(block), left) => {
                    &&& header == Ok::<H::Value, arbitrary::Error>(block.header)
                    &&& body is Ok
                    &&& body->Ok_0 == block.body
                    &&& left == rest
                },
                (Err(e), left) => {
                    ||| header == Err::<H::Value, arbitrary::Error>(e) && left == second
                    ||| header is Ok && body is Err && body->Err_0 == e && left == rest
                },
            }
        }),
{
}

/// A transaction is made of a type up to 4 and a list of bytes: a legacy
/// transaction has the list with them as its payload, another one the bytes.
pub proof fn transaction_is_made(data: Seq<u8>)
    ensures
        ({
            let (ty, second) = draw_upto(data, 4);
            let (blob, rest) = draw_blob(second);
            let bytes = match blob {
                Some(bytes) => bytes,
                None => Seq::empty(),
            };
            TxEnvelope::draw(data) == (
                Ok::<TxValue, arbitrary::Error>(
                    TxValue {
                        ty: ty as u8,
                        body: if ty == 0 {
                            list_rlp(bytes)
                        } else {
                            bytes
                        },
                    },
                ),
                rest,
            )
        }),
{
}

/// A header is made of its fields, which are taken from the data in order, and of
/// the first few of the fields of later forks, as a number up to 6 tells.
pub proof fn header_is_made_in_order(data: Seq<u8>)
    ensures
        ({
            let (parent_hash, rest) = draw_bytes(data, 32);
            let (ommers_hash, rest) = draw_bytes(rest, 32);
            let (beneficiary, rest) = draw_bytes(rest, 20);
            let (state_root, rest) = draw_bytes(rest, 32);
            let (transactions_root, rest) = draw_bytes(rest, 32);
            let (receipts_root, rest) = draw_bytes(rest, 32);
            let (logs_bloom, rest) = draw_bytes(rest, 256);
            let (difficulty, rest) = draw_bytes(rest, 32);
            let (number, rest) = draw_u64(rest);
            let (gas_limit, rest) = draw_u64(rest);
            let (gas_used, rest) = draw_u64(rest);
            let (timestamp, rest) = draw_u64(rest);
            let (extra_data, rest) = draw_blob(rest);
            let (mix_hash, rest) = draw_bytes(rest, 32);
            let (nonce, rest) = draw_bytes(rest, 8);
            let (added, rest) = draw_upto(rest, 6);
            let (base_fee, after1) = draw_u64(rest);
            let rest = if added > 0 { after1 } else { rest };
            let (withdrawals_root, after2) = draw_bytes(rest, 32);
            let rest = if added > 1 { after2 } else { rest };
            let (blob_gas, after3) = draw_u64(rest);
            let rest = if added > 2 { after3 } else { rest };
            let (excess, after4) = draw_u64(rest);
            let rest = if added > 3 { after4 } else { rest };
            let (beacon_root, after5) = draw_bytes(rest, 32);
            let rest = if added > 4 { after5 } else { rest };
            let (requests_hash, after6) = draw_bytes(rest, 32);
            let rest = if added > 5 { after6 } else { rest };
            let (header, left) = Header::draw(data);
            &&& left == rest
            &&& header matches Ok(h)
            &&& h.parent_hash == FixedBytes::<32>::of(parent_hash)
            &&& h.ommers_hash == FixedBytes::<32>::of(ommers_hash)
            &&& h.beneficiary == FixedBytes::<20>::of(beneficiary)
            &&& h.state_root == FixedBytes::<32>::of(state_root)
            &&& h.transactions_root == FixedBytes::<32>::of(transactions_root)
            &&& h.receipts_root == FixedBytes::<32>::of(receipts_root)
            &&& h.logs_bloom == FixedBytes::<256>::of(logs_bloom)
            &&& h.difficulty.0 == FixedBytes::<32>::of(difficulty).0
            &&& h.number == number
            &&& h.gas_limit == gas_limit
            &&& h.gas_used == gas_used
            &&& h.timestamp == timestamp
            &&& h.extra_data == (match extra_data {
                Some(bytes) => bytes,
                None => Seq::empty(),
            })
            &&& h.mix_hash == FixedBytes::<32>::of(mix_hash)
            &&& h.nonce == FixedBytes::<8>::of(nonce)
            &&& h.base_fee_per_gas == (if added > 0 { Some(base_fee) } else { None })
            &&& h.withdrawals_root == (if added > 1 {
                Some(FixedBytes::<32>::of(withdrawals_root))
            } else {
                None
            })
            &&& h.blob_gas_used == (if added > 2 { Some(blob_gas) } else { None })
            &&& h.excess_blob_gas == (if added > 3 { Some(excess) } else { None })
            &&& h.parent_beacon_block_root == (if added > 4 {
                Some(FixedBytes::<32>::of(beacon_root))
            } else {
                None
            })
            &&& h.requests_hash == (if added > 5 {
                Some(FixedBytes::<32>::of(requests_hash))
            } else {
                None
            })
        }),
{
}

} // verus!
