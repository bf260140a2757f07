//! The roots by which a header commits to the parts of a body.

use crate::bytes::{FixedBytes, B256};
use crate::header::{EMPTY_OMMER_ROOT_HASH, EMPTY_ROOT_HASH};
use crate::rlp::{values, Encodable, RlpValue};
use crate::seal::{keccak256, keccak256_digest};
use crate::transaction::Encodable2718;
use crate::withdrawal::{Withdrawal, Withdrawals};
use vstd::prelude::*;

verus! {

/// The root of the Merkle-Patricia trie that maps the RLP of each index to the
/// item at that index.
pub uninterp spec fn ordered_trie_root(items: Seq<Seq<u8>>) -> Seq<u8>;

/// The contents of a sequence of byte vectors.
pub open spec fn byte_views(items: Seq<Vec<u8>>) -> Seq<Seq<u8>> {
    Seq::new(items.len(), |i: int| items[i]@)
}

/// `alloy_trie::root::ordered_trie_root_encoded`: the trie root of the items,
/// which depends on their bytes and their order alone. Without items it is the
/// root of the empty trie.
#[verifier::external_body]
fn trie_root(items: &Vec<Vec<u8>>) -> (res: B256)
    ensures
        res@ == ordered_trie_root(byte_views(items@)),
        items@.len() == 0 ==> res@ == EMPTY_ROOT_HASH@,
{
    FixedBytes(alloy_trie::root::ordered_trie_root_encoded(items).0)
}

/// The root over the transactions with the given envelopes.
pub open spec fn transactions_root<T: Encodable2718>(transactions: Seq<T>) -> Seq<u8> {
    ordered_trie_root(Seq::new(transactions.len(), |i: int| transactions[i].envelope()))
}

/// The root over the ommers: the hash of their list.
pub open spec fn ommers_root<H: Encodable>(ommers: Seq<H::Value>) -> Seq<u8> {
    if ommers.len() == 0 {
        EMPTY_OMMER_ROOT_HASH@
    } else {
        keccak256_digest(Vec::<H>::rlp(ommers))
    }
}

/// The root over the withdrawals.
pub open spec fn withdrawals_root(withdrawals: Seq<Withdrawal>) -> Seq<u8> {
    ordered_trie_root(Seq::new(withdrawals.len(), |i: int| Withdrawal::rlp(withdrawals[i])))
}

/// The transactions root is the root over the whole envelopes of the
/// transactions, of whatever types, in their order.
pub proof fn transactions_root_is_over_envelopes<T: Encodable2718>(
    transactions: Seq<T>,
    items: Seq<Seq<u8>>,
)
    requires
        items.len() == transactions.len(),
        forall|i: int| 0 <= i < items.len() ==> #[trigger] items[i] == transactions[i].envelope(),
    ensures
        transactions_root(transactions) == ordered_trie_root(items),
{
    assert(items =~= Seq::new(transactions.len(), |i: int| transactions[i].envelope()));
}

/// The withdrawals root is the root over the encodings of the withdrawals in
/// their order.
pub proof fn withdrawals_root_is_over_encodings(
    withdrawals: Seq<Withdrawal>,
    items: Seq<Seq<u8>>,
)
    requires
        items.len() == withdrawals.len(),
        forall|i: int|
            0 <= i < items.len() ==> #[trigger] items[i] == Withdrawal::rlp(withdrawals[i]),
    ensures
        withdrawals_root(withdrawals) == ordered_trie_root(items),
{
    assert(items =~= Seq::new(withdrawals.len(), |i: int| Withdrawal::rlp(withdrawals[i])));
}

/// The ommers root is the hash of the list of the ommers, and a constant where
/// there are none.
pub proof fn ommers_root_is_of_the_list<H: Encodable>(ommers: Vec<H>)
    ensures
        ommers@.len() == 0 ==> ommers_root::<H>(ommers.value()) == EMPTY_OMMER_ROOT_HASH@,
        ommers@.len() > 0 ==> ommers_root::<H>(ommers.value()) == keccak256_digest(
            Vec::<H>::rlp(ommers.value()),
        ),
{
}

/// Calculates the transactions root.
pub fn calculate_transaction_root<T: Encodable2718>(transactions: &Vec<T>) -> (res: B256)
    ensures
        res@ == transactions_root(transactions@),
        exists|items: Seq<Seq<u8>>|
            {
                &&& items.len() == transactions@.len()
                &&& forall|i: int|
                    0 <= i < items.len() ==> #[trigger] items[i] == transactions@[i].envelope()
                &&& res@ == #[trigger] ordered_trie_root(items)
            },
        transactions@.len() == 0 ==> res@ == EMPTY_ROOT_HASH@,
{
    let mut items: Vec<Vec<u8>> = Vec::new();
    for i in 0..transactions.len()
        invariant
            items@.len() == i,
            forall|j: int| 0 <= j < i ==> (#[trigger] items@[j])@ == transactions@[j].envelope(),
    {
        items.push(transactions[i].encoded_2718());
    }
    assert(byte_views(items@) =~= Seq::new(
        transactions@.len(),
        |i: int| transactions@[i].envelope(),
    ));
    trie_root(&items)
}

/// Calculates the ommers root.
pub fn calculate_ommers_root<H: Encodable>(ommers: &Vec<H>) -> (res: B256)
    ensures
        res@ == ommers_root::<H>(values(ommers@)),
        ommers@.len() == 0 ==> res@ == EMPTY_OMMER_ROOT_HASH@,
        ommers@.len() > 0 ==> res@ == keccak256_digest(Vec::<H>::rlp(ommers.value())),
{
    // Check if `ommers` list is empty
    if ommers.is_empty() {
        return FixedBytes(EMPTY_OMMER_ROOT_HASH);
    }
    // RLP Encode

    let mut ommers_rlp: Vec<u8> = Vec::new();
    ommers.encode(&mut ommers_rlp);
    assert(ommers_rlp@ =~= Vec::<H>::rlp(values(ommers@)));
    keccak256(ommers_rlp.as_slice())
}

/// Calculates the withdrawals root.
pub fn calculate_withdrawals_root(withdrawals: &Withdrawals) -> (res: B256)
    ensures
        res@ == withdrawals_root(withdrawals@),
        exists|items: Seq<Seq<u8>>|
            {
                &&& items.len() == withdrawals@.len()
                &&& forall|i: int|
                    0 <= i < items.len() ==> #[trigger] items[i] == Withdrawal::rlp(withdrawals@[i])
                &&& res@ == #[trigger] ordered_trie_root(items)
            },
        withdrawals@.len() == 0 ==> res@ == EMPTY_ROOT_HASH@,
{
    let mut items: Vec<Vec<u8>> = Vec::new();
    for i in 0..withdrawals.0.len()
        invariant
            items@.len() == i,
            forall|j: int|
                0 <= j < i ==> (#[trigger] items@[j])@ == Withdrawal::rlp(withdrawals@[j]),
    {
        let mut item: Vec<u8> = Vec::new();
        withdrawals.0[i].encode(&mut item);
        assert(item@ =~= Withdrawal::rlp(withdrawals@[i as int]));
        items.push(item);
    }
    assert(byte_views(items@) =~= Seq::new(
        withdrawals@.len(),
        |i: int| Withdrawal::rlp(withdrawals@[i]),
    ));
    trie_root(&items)
}

} // verus!
