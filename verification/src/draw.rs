//! Values made from unstructured data, such as a fuzzer supplies.
//!
//! What is made is a function of the data, told by specification functions
//! that map the data to a value and to the data that is left.

use crate::block::{Block, BlockBody};
use crate::block_rlp::{nonempty, BlockValue, BodyValue};
use crate::bytes::{Address, Bloom, Bytes, FixedBytes, B256, B64, U256};
use crate::header::{Header, HeaderValue};
use crate::rlp::{be_value, encode_head, list_rlp, opt_value, values, RlpValue};
use crate::transaction::{TxEnvelope, TxValue, EIP7702_TX_TYPE_ID, LEGACY_TX_TYPE_ID};
use crate::withdrawal::{Withdrawal, Withdrawals};
use vstd::prelude::*;

verus! {

/// `arbitrary::Unstructured`: a source of data. It is known by what is left of
/// its data, [`unread`].
#[verifier::external_type_specification]
#[verifier::external_body]
pub struct ExUnstructured<'a>(arbitrary::Unstructured<'a>);

/// `arbitrary::Error`: why a value could not be made.
#[verifier::external_type_specification]
#[verifier::external_body]
pub struct ExDrawError(arbitrary::Error);

/// The bytes that a source of data has left.
pub uninterp spec fn unread(u: arbitrary::Unstructured<'_>) -> Seq<u8>;

/// The outcome of making a value: the value, and the data that is left.
pub type Drawn<V> = (Result<V, arbitrary::Error>, Seq<u8>);

// ---------------------------------------------------------------------------
// Numbers and byte strings
// ---------------------------------------------------------------------------

/// The data behind the first `n` bytes.
pub open spec fn behind(data: Seq<u8>, n: nat) -> Seq<u8> {
    if n <= data.len() {
        data.skip(n as int)
    } else {
        Seq::empty()
    }
}

/// The first `n` bytes; zeros stand for those that the data lacks.
pub open spec fn draw_bytes(data: Seq<u8>, n: nat) -> (Seq<u8>, Seq<u8>) {
    (Seq::new(n, |i: int| if i < data.len() { data[i] } else { 0 }), behind(data, n))
}

/// The first eight bytes as a little-endian number.
pub open spec fn draw_u64(data: Seq<u8>) -> (u64, Seq<u8>) {
    let (bytes, rest) = draw_bytes(data, 8);
    (be_value(bytes.reverse()) as u64, rest)
}

/// A choice, made by the lowest bit of the first byte.
pub open spec fn draw_bool(data: Seq<u8>) -> (bool, Seq<u8>) {
    let (bytes, rest) = draw_bytes(data, 1);
    (bytes[0] % 2 == 1, rest)
}

/// A number from zero up to `most`, which is below 256, by the first byte.
pub open spec fn draw_upto(data: Seq<u8>, most: nat) -> (nat, Seq<u8>) {
    let (bytes, rest) = draw_bytes(data, 1);
    (bytes[0] as nat % (most + 1), rest)
}

/// A list of bytes: in front of each stands a choice to go on.
pub open spec fn draw_list(data: Seq<u8>) -> (Seq<u8>, Seq<u8>)
    decreases data.len(),
{
    let (more, rest) = draw_bool(data);
    if more && rest.len() < data.len() {
        let (bytes, rest) = draw_bytes(rest, 1);
        let (tail, rest) = draw_list(rest);
        (bytes + tail, rest)
    } else {
        (Seq::empty(), rest)
    }
}

/// A list of bytes, if a first choice asks for one.
pub open spec fn draw_blob(data: Seq<u8>) -> (Option<Seq<u8>>, Seq<u8>) {
    let (some, rest) = draw_bool(data);
    if some {
        let (bytes, rest) = draw_list(rest);
        (Some(bytes), rest)
    } else {
        (None, rest)
    }
}

/// A withdrawal, field by field.
pub open spec fn draw_withdrawal(data: Seq<u8>) -> (Withdrawal, Seq<u8>) {
    let (index, rest) = draw_u64(data);
    let (validator_index, rest) = draw_u64(rest);
    let (address, rest) = draw_bytes(rest, 20);
    let (amount, rest) = draw_u64(rest);
    (Withdrawal { index, validator_index, address: FixedBytes::of(address), amount }, rest)
}

/// A list of withdrawals: in front of each stands a choice to go on.
pub open spec fn draw_withdrawal_list(data: Seq<u8>) -> (Seq<Withdrawal>, Seq<u8>)
    decreases data.len(),
{
    let (more, rest) = draw_bool(data);
    if more && rest.len() < data.len() {
        let (withdrawal, rest) = draw_withdrawal(rest);
        let (tail, rest) = draw_withdrawal_list(rest);
        (seq![withdrawal] + tail, rest)
    } else {
        (Seq::empty(), rest)
    }
}

/// A list of withdrawals, if a first choice asks for one.
pub open spec fn draw_withdrawals(data: Seq<u8>) -> (Option<Seq<Withdrawal>>, Seq<u8>) {
    let (some, rest) = draw_bool(data);
    if some {
        let (withdrawals, rest) = draw_withdrawal_list(rest);
        (Some(withdrawals), rest)
    } else {
        (None, rest)
    }
}

/// `arbitrary::Unstructured::int_in_range` on a range that starts with zero and
/// has at most 256 numbers: one byte of the data, if it has any, is taken
/// modulo the size of the range. Only a range of one number takes no data,
/// which is left out here.
#[verifier::external_body]
fn int_upto(u: &mut arbitrary::Unstructured<'_>, most: i32) -> (res: Result<
    i32,
    arbitrary::Error,
>)
    requires
        0 < most < 256,
    ensures
        res is Ok,
        res->Ok_0 == draw_upto(unread(*old(u)), most as nat).0,
        unread(*final(u)) == draw_upto(unread(*old(u)), most as nat).1,
{
    u.int_in_range(0..=most)
}

/// `arbitrary::Arbitrary::arbitrary` for `u64`: eight bytes in little-endian
/// order, with zeros for those that the data lacks.
#[verifier::external_body]
fn any_u64(u: &mut arbitrary::Unstructured<'_>) -> (res: Result<u64, arbitrary::Error>)
    ensures
        res is Ok,
        res->Ok_0 == draw_u64(unread(*old(u))).0,
        unread(*final(u)) == draw_u64(unread(*old(u))).1,
{
    u.arbitrary()
}

/// `arbitrary::Arbitrary::arbitrary` for `[u8; N]`: the next `N` bytes, with
/// zeros for those that the data lacks.
#[verifier::external_body]
fn any_array<const N: usize>(u: &mut arbitrary::Unstructured<'_>) -> (res: Result<
    [u8; N],
    arbitrary::Error,
>)
    ensures
        res is Ok,
        res->Ok_0@ == draw_bytes(unread(*old(u)), N as nat).0,
        unread(*final(u)) == draw_bytes(unread(*old(u)), N as nat).1,
{
    u.arbitrary()
}

/// `arbitrary::Arbitrary::arbitrary` for `Option<Vec<u8>>`: a choice whether
/// there is a list, then for each of its bytes a choice to go on and the byte.
/// A choice is the lowest bit of a byte, and the data is followed by zeros.
#[verifier::external_body]
fn any_blob(u: &mut arbitrary::Unstructured<'_>) -> (res: Result<
    Option<Vec<u8>>,
    arbitrary::Error,
>)
    ensures
        res is Ok,
        draw_blob(unread(*old(u))).0 == (match res->Ok_0 {
            Some(bytes) => Some(bytes@),
            None => None,
        }),
        unread(*final(u)) == draw_blob(unread(*old(u))).1,
{
    u.arbitrary()
}

/// The withdrawal with the given fields.
pub open spec fn withdrawal_of(fields: (u64, u64, [u8; 20], u64)) -> Withdrawal {
    Withdrawal {
        index: fields.0,
        validator_index: fields.1,
        address: FixedBytes(fields.2),
        amount: fields.3,
    }
}

/// `arbitrary::Arbitrary::arbitrary` for `Option<Vec<(u64, u64, [u8; 20], u64)>>`:
/// a choice whether there is a list, then for each of its items a choice to go
/// on and the fields one after the other.
#[verifier::external_body]
fn any_withdrawal_fields(u: &mut arbitrary::Unstructured<'_>) -> (res: Result<
    Option<Vec<(u64, u64, [u8; 20], u64)>>,
    arbitrary::Error,
>)
    ensures
        res is Ok,
        draw_withdrawals(unread(*old(u))).0 == (match res->Ok_0 {
            Some(list) => Some(
                list@.map_values(|fields: (u64, u64, [u8; 20], u64)| withdrawal_of(fields)),
            ),
            None => None,
        }),
        unread(*final(u)) == draw_withdrawals(unread(*old(u))).1,
{
    u.arbitrary()
}

/// Makes a list of withdrawals, if a first choice asks for one.
fn any_withdrawals(u: &mut arbitrary::Unstructured<'_>) -> (res: Result<
    Option<Withdrawals>,
    arbitrary::Error,
>)
    ensures
        res is Ok,
        opt_value(res->Ok_0) == draw_withdrawals(unread(*old(u))).0,
        unread(*final(u)) == draw_withdrawals(unread(*old(u))).1,
{
    let list = match any_withdrawal_fields(u)? {
        Some(list) => list,
        None => return Ok(None),
    };
    let mut withdrawals: Vec<Withdrawal> = Vec::new();
    for i in 0..list.len()
        invariant
            withdrawals@.len() == i,
            forall|j: int| 0 <= j < i ==> withdrawals@[j] == withdrawal_of(#[trigger] list@[j]),
    {
        let (index, validator_index, address, amount): (u64, u64, [u8; 20], u64) = list[i];
        withdrawals.push(
            Withdrawal { index, validator_index, address: FixedBytes(address), amount },
        );
    }
    assert(withdrawals@ =~= list@.map_values(
        |fields: (u64, u64, [u8; 20], u64)| withdrawal_of(fields),
    ));
    Ok(Some(Withdrawals::new(withdrawals)))
}

// ---------------------------------------------------------------------------
// Blocks
// ---------------------------------------------------------------------------

/// A value that can be made from unstructured data.
pub trait Arbitrary: RlpValue + Sized {
    /// What is made from `data`, and what is left of it.
    spec fn draw(data: Seq<u8>) -> Drawn<Self::Value>;

    /// Makes a value from the data of `u`.
    fn arbitrary(u: &mut arbitrary::Unstructured<'_>) -> (res: Result<Self, arbitrary::Error>)
        ensures
            unread(*final(u)) == Self::draw(unread(*old(u))).1,
            Self::draw(unread(*old(u))).0 == (match res {
                Ok(x) => Ok::<Self::Value, arbitrary::Error>(x.value()),
                Err(e) => Err(e),
            }),
    ;
}

/// The values that are made one after the other, `n` in all, up to the first
/// failure.
pub open spec fn draw_items<T: Arbitrary>(data: Seq<u8>, n: nat) -> Drawn<Seq<T::Value>>
    decreases n,
{
    if n == 0 {
        (Ok(Seq::empty()), data)
    } else {
        match draw_items::<T>(data, (n - 1) as nat) {
            (Ok(items), rest) => match T::draw(rest) {
                (Ok(item), rest) => (Ok(items.push(item)), rest),
                (Err(e), rest) => (Err(e), rest),
            },
            (Err(e), rest) => (Err(e), rest),
        }
    }
}

/// A failure among the first values is the failure of more of them.
proof fn lemma_draw_items_fail<T: Arbitrary>(data: Seq<u8>, k: nat, n: nat)
    requires
        k <= n,
        draw_items::<T>(data, k).0 is Err,
    ensures
        draw_items::<T>(data, n) == draw_items::<T>(data, k),
    decreases n,
{
    if k < n {
        lemma_draw_items_fail::<T>(data, k, (n - 1) as nat);
    }
}

/// Makes up to `most` values.
fn any_items<T: Arbitrary>(u: &mut arbitrary::Unstructured<'_>, most: i32) -> (res: Result<
    Vec<T>,
    arbitrary::Error,
>)
    requires
        0 < most < 256,
    ensures
        ({
            let (n, rest) = draw_upto(unread(*old(u)), most as nat);
            let drawn = draw_items::<T>(rest, n);
            &&& unread(*final(u)) == drawn.1
            &&& drawn.0 == (match res {
                Ok(items) => Ok::<Seq<T::Value>, arbitrary::Error>(values(items@)),
                Err(e) => Err(e),
            })
        }),
{
    let n: i32 = int_upto(u, most)?;
    let ghost data = unread(*u);
    let mut items: Vec<T> = Vec::new();
    assert(values(items@) =~= Seq::<T::Value>::empty());
    for i in 0..n
        invariant
            0 <= n,
            n == draw_upto(unread(*old(u)), most as nat).0,
            data == draw_upto(unread(*old(u)), most as nat).1,
            draw_items::<T>(data, i as nat) == (
                Ok::<Seq<T::Value>, arbitrary::Error>(values(items@)),
                unread(*u),
            ),
    {
        let ghost before = items@;
        match T::arbitrary(u) {
            Ok(item) => {
                items.push(item);
                assert(values(items@) =~= values(before).push(item.value()));
            },
            Err(e) => {
                proof {
                    lemma_draw_items_fail::<T>(data, (i + 1) as nat, n as nat);
                }
                return Err(e);
            },
        }
    }
    Ok(items)
}

impl<T: Arbitrary, H: Arbitrary> Arbitrary for BlockBody<T, H> {
    open spec fn draw(data: Seq<u8>) -> Drawn<BodyValue<T::Value, H::Value>> {
        let (n, rest) = draw_upto(data, 100);
        match draw_items::<T>(rest, n) {
            (Err(e), rest) => (Err(e), rest),
            (Ok(transactions), rest) => {
                let (n, rest) = draw_upto(rest, 1);
                match draw_items::<H>(rest, n) {
                    (Err(e), rest) => (Err(e), rest),
                    (Ok(ommers), rest) => {
                        let (blob, rest) = draw_blob(rest);
                        let (withdrawals, rest) = draw_withdrawals(rest);
                        let (slashed, rest) = draw_withdrawals(rest);
                        (
                            Ok(
                                BodyValue {
                                    transactions,
                                    ommers,
                                    withdrawals,
                                    slashed,
                                    bridge_requests: nonempty(blob),
                                },
                            ),
                            rest,
                        )
                    },
                }
            },
        }
    }

    fn arbitrary(u: &mut arbitrary::Unstructured<'_>) -> (res: Result<Self, arbitrary::Error>) {
        // first generate up to 100 txs
        let transactions: Vec<T> = any_items(u, 100)?;

        // then generate at most one ommer
        let ommers: Vec<H> = any_items(u, 1)?;

        // a blob without bytes could not be read back, so it is left out
        let bridge_requests = match any_blob(u)? {
            Some(blob) => if blob.is_empty() {
                None
            } else {
                Some(Bytes::from(blob))
            },
            None => None,
        };

        let withdrawals = any_withdrawals(u)?;
        let slashed = any_withdrawals(u)?;
        Ok(BlockBody { transactions, ommers, withdrawals, slashed, bridge_requests })
    }
}

impl<T: Arbitrary, H: Arbitrary> Arbitrary for Block<T, H> {
    open spec fn draw(data: Seq<u8>) -> Drawn<BlockValue<T::Value, H::Value>> {
        match H::draw(data) {
            (Err(e), rest) => (Err(e), rest),
            (Ok(header), rest) => match BlockBody::<T, H>::draw(rest) {
                (Err(e), rest) => (Err(e), rest),
                (Ok(body), rest) => (Ok(BlockValue { header, body }), rest),
            },
        }
    }

    fn arbitrary(u: &mut arbitrary::Unstructured<'_>) -> (res: Result<Self, arbitrary::Error>) {
        let header = H::arbitrary(u)?;
        let body = BlockBody::<T, H>::arbitrary(u)?;
        Ok(Block { header, body })
    }
}

// ---------------------------------------------------------------------------
// Transactions
// ---------------------------------------------------------------------------

/// A list of bytes that may be empty.
pub open spec fn draw_payload(data: Seq<u8>) -> (Seq<u8>, Seq<u8>) {
    match draw_blob(data) {
        (Some(bytes), rest) => (bytes, rest),
        (None, rest) => (Seq::empty(), rest),
    }
}

/// Makes a list of bytes that may be empty.
fn any_payload(u: &mut arbitrary::Unstructured<'_>) -> (res: Result<Vec<u8>, arbitrary::Error>)
    ensures
        res is Ok,
        res->Ok_0@ == draw_payload(unread(*old(u))).0,
        unread(*final(u)) == draw_payload(unread(*old(u))).1,
{
    match any_blob(u)? {
        Some(bytes) => Ok(bytes),
        None => Ok(Vec::new()),
    }
}

impl Arbitrary for TxEnvelope {
    open spec fn draw(data: Seq<u8>) -> Drawn<TxValue> {
        let (ty, rest) = draw_upto(data, EIP7702_TX_TYPE_ID as nat);
        let (payload, rest) = draw_payload(rest);
        (
            Ok(
                TxValue {
                    ty: ty as u8,
                    body: if ty == LEGACY_TX_TYPE_ID {
                        list_rlp(payload)
                    } else {
                        payload
                    },
                },
            ),
            rest,
        )
    }

    fn arbitrary(u: &mut arbitrary::Unstructured<'_>) -> (res: Result<Self, arbitrary::Error>) {
        let ty: u8 = int_upto(u, EIP7702_TX_TYPE_ID as i32)? as u8;
        let mut payload: Vec<u8> = any_payload(u)?;
        if ty == LEGACY_TX_TYPE_ID {
            let mut body: Vec<u8> = Vec::new();
            encode_head(true, payload.len(), &mut body);
            let ghost fields = payload@;
            body.append(&mut payload);
            assert(body@ =~= list_rlp(fields));
            Ok(TxEnvelope { ty, body: Bytes(body) })
        } else {
            Ok(TxEnvelope { ty, body: Bytes(payload) })
        }
    }
}

// ---------------------------------------------------------------------------
// Headers
// ---------------------------------------------------------------------------

/// A byte string of fixed length.
pub open spec fn draw_fixed<const N: usize>(data: Seq<u8>) -> (FixedBytes<N>, Seq<u8>) {
    let (bytes, rest) = draw_bytes(data, N as nat);
    (FixedBytes::of(bytes), rest)
}

/// A byte string of fixed length, if it is asked for.
pub open spec fn draw_fixed_if<const N: usize>(data: Seq<u8>, wanted: bool) -> (
    Option<FixedBytes<N>>,
    Seq<u8>,
) {
    if wanted {
        let (x, rest) = draw_fixed::<N>(data);
        (Some(x), rest)
    } else {
        (None, data)
    }
}

/// A number, if it is asked for.
pub open spec fn draw_u64_if(data: Seq<u8>, wanted: bool) -> (Option<u64>, Seq<u8>) {
    if wanted {
        let (x, rest) = draw_u64(data);
        (Some(x), rest)
    } else {
        (None, data)
    }
}

/// Makes a byte string of fixed length.
fn any_fixed<const N: usize>(u: &mut arbitrary::Unstructured<'_>) -> (res: Result<
    FixedBytes<N>,
    arbitrary::Error,
>)
    ensures
        res is Ok,
        res->Ok_0 == draw_fixed::<N>(unread(*old(u))).0,
        unread(*final(u)) == draw_fixed::<N>(unread(*old(u))).1,
{
    let res = FixedBytes(any_array::<N>(u)?);
    proof {
        res.lemma_of();
    }
    Ok(res)
}

/// Makes a byte string of fixed length, if it is asked for.
fn any_fixed_if<const N: usize>(u: &mut arbitrary::Unstructured<'_>, wanted: bool) -> (res: Result<
    Option<FixedBytes<N>>,
    arbitrary::Error,
>)
    ensures
        res is Ok,
        res->Ok_0 == draw_fixed_if::<N>(unread(*old(u)), wanted).0,
        unread(*final(u)) == draw_fixed_if::<N>(unread(*old(u)), wanted).1,
{
    if wanted {
        Ok(Some(any_fixed(u)?))
    } else {
        Ok(None)
    }
}

/// Makes a number, if it is asked for.
fn any_u64_if(u: &mut arbitrary::Unstructured<'_>, wanted: bool) -> (res: Result<
    Option<u64>,
    arbitrary::Error,
>)
    ensures
        res is Ok,
        res->Ok_0 == draw_u64_if(unread(*old(u)), wanted).0,
        unread(*final(u)) == draw_u64_if(unread(*old(u)), wanted).1,
{
    if wanted {
        Ok(Some(any_u64(u)?))
    } else {
        Ok(None)
    }
}

impl Arbitrary for Header {
    /// The fields one after the other. Of the fields that later forks have
    /// added there are the first few.
    open spec fn draw(data: Seq<u8>) -> Drawn<HeaderValue> {
        let (parent_hash, rest) = draw_fixed::<32>(data);
        let (ommers_hash, rest) = draw_fixed::<32>(rest);
        let (beneficiary, rest) = draw_fixed::<20>(rest);
        let (state_root, rest) = draw_fixed::<32>(rest);
        let (transactions_root, rest) = draw_fixed::<32>(rest);
        let (receipts_root, rest) = draw_fixed::<32>(rest);
        let (logs_bloom, rest) = draw_fixed::<256>(rest);
        let (difficulty, rest) = draw_fixed::<32>(rest);
        let (number, rest) = draw_u64(rest);
        let (gas_limit, rest) = draw_u64(rest);
        let (gas_used, rest) = draw_u64(rest);
        let (timestamp, rest) = draw_u64(rest);
        let (extra_data, rest) = draw_payload(rest);
        let (mix_hash, rest) = draw_fixed::<32>(rest);
        let (nonce, rest) = draw_fixed::<8>(rest);
        let (added, rest) = draw_upto(rest, 6);
        let (base_fee_per_gas, rest) = draw_u64_if(rest, added > 0);
        let (withdrawals_root, rest) = draw_fixed_if::<32>(rest, added > 1);
        let (blob_gas_used, rest) = draw_u64_if(rest, added > 2);
        let (excess_blob_gas, rest) = draw_u64_if(rest, added > 3);
        let (parent_beacon_block_root, rest) = draw_fixed_if::<32>(rest, added > 4);
        let (requests_hash, rest) = draw_fixed_if::<32>(rest, added > 5);
        (
            Ok(
                HeaderValue {
                    parent_hash,
                    ommers_hash,
                    beneficiary,
                    state_root,
                    transactions_root,
                    receipts_root,
                    logs_bloom,
                    difficulty: U256(difficulty.0),
                    number,
                    gas_limit,
                    gas_used,
                    timestamp,
                    extra_data,
                    mix_hash,
                    nonce,
                    base_fee_per_gas,
                    withdrawals_root,
                    blob_gas_used,
                    excess_blob_gas,
                    parent_beacon_block_root,
                    requests_hash,
                },
            ),
            rest,
        )
    }

    fn arbitrary(u: &mut arbitrary::Unstructured<'_>) -> (res: Result<Self, arbitrary::Error>) {
        let parent_hash: B256 = any_fixed(u)?;
        let ommers_hash: B256 = any_fixed(u)?;
        let beneficiary: Address = any_fixed(u)?;
        let state_root: B256 = any_fixed(u)?;
        let transactions_root: B256 = any_fixed(u)?;
        let receipts_root: B256 = any_fixed(u)?;
        let logs_bloom: Bloom = any_fixed(u)?;
        let difficulty: B256 = any_fixed(u)?;
        let number: u64 = any_u64(u)?;
        let gas_limit: u64 = any_u64(u)?;
        let gas_used: u64 = any_u64(u)?;
        let timestamp: u64 = any_u64(u)?;
        let extra_data: Vec<u8> = any_payload(u)?;
        let mix_hash: B256 = any_fixed(u)?;
        let nonce: B64 = any_fixed(u)?;
        let added: i32 = int_upto(u, 6)?;
        let base_fee_per_gas: Option<u64> = any_u64_if(u, added > 0)?;
        let withdrawals_root: Option<B256> = any_fixed_if(u, added > 1)?;
        let blob_gas_used: Option<u64> = any_u64_if(u, added > 2)?;
        let excess_blob_gas: Option<u64> = any_u64_if(u, added > 3)?;
        let parent_beacon_block_root: Option<B256> = any_fixed_if(u, added > 4)?;
        let requests_hash: Option<B256> = any_fixed_if(u, added > 5)?;
        Ok(
            Header {
                parent_hash,
                ommers_hash,
                beneficiary,
                state_root,
                transactions_root,
                receipts_root,
                logs_bloom,
                difficulty: U256(difficulty.0),
                number,
                gas_limit,
                gas_used,
                timestamp,
                extra_data: Bytes(extra_data),
                mix_hash,
                nonce,
                base_fee_per_gas,
                withdrawals_root,
                blob_gas_used,
                excess_blob_gas,
                parent_beacon_block_root,
                requests_hash,
            },
        )
    }
}

} // verus!
