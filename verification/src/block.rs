//! Blocks and block bodies.

use crate::bytes::{Bytes, FixedBytes, B256};
use crate::header::{Header, EMPTY_OMMER_ROOT_HASH, EMPTY_ROOT_HASH};
use crate::rlp::{values, Encodable, RlpValue};
use crate::roots::{
    calculate_ommers_root, calculate_transaction_root, calculate_withdrawals_root, ommers_root,
    ordered_trie_root, transactions_root, withdrawals_root,
};
use crate::seal::{keccak256_digest, Sealable};
use crate::transaction::{
    Encodable2718, Transaction, Typed2718, WithEncoded, EIP4844_TX_TYPE_ID, EIP7702_TX_TYPE_ID,
};
use crate::withdrawal::{Withdrawal, Withdrawals};
use vstd::prelude::*;

verus! {

/// Ethereum full block.
///
/// Withdrawals can be optionally included at the end of the RLP encoded message.
#[derive(Clone, Debug, PartialEq, Eq)]
pub struct Block<T, H = Header> {
    /// Block header.
    pub header: H,
    /// Block body.
    pub body: BlockBody<T, H>,
}

/// A response to `GetBlockBodies`, containing bodies if any bodies were found.
///
/// Withdrawals can be optionally included at the end of the RLP encoded message.
#[derive(Clone, Debug, PartialEq, Eq)]
pub struct BlockBody<T, H = Header> {
    /// Transactions in this block.
    pub transactions: Vec<T>,
    /// Ommers/uncles header.
    pub ommers: Vec<H>,
    /// Block withdrawals.
    pub withdrawals: Option<Withdrawals>,
    /// Slashed validator entries, not part of the block hash.
    pub slashed: Option<Withdrawals>,
    /// The bridge requests blob that the consensus layer determines, carried
    /// verbatim (the data of the type `0xf0` requests entry, without the type
    /// byte). It is there, with at least 4 bytes, in the blocks from the bridge
    /// fork on, and missing in all blocks before it, which keeps their
    /// encoding as it was. It is not hashed into the body roots: the block
    /// hash commits to these bytes through the header's `requests_hash`.
    ///
    /// It must never be present with no bytes: that item (`0x80`) is the same
    /// as the placeholder of a missing field in front of one that is there.
    pub bridge_requests: Option<Bytes>,
}

// ---------------------------------------------------------------------------
// Applying a function to each item
// ---------------------------------------------------------------------------

/// Whether `f` can be applied to each of `xs`.
pub open spec fn applies<A, B, F: FnMut(A) -> B>(f: F, xs: Seq<A>) -> bool {
    forall|i: int| 0 <= i < xs.len() ==> call_requires(f, (#[trigger] xs[i],))
}

/// Whether `ys` is what `f` has made of `xs`, item by item.
pub open spec fn mapped<A, B, F: FnMut(A) -> B>(f: F, xs: Seq<A>, ys: Seq<B>) -> bool {
    &&& ys.len() == xs.len()
    &&& forall|i: int|
        #![trigger ys[i]]
        0 <= i < xs.len() ==> call_ensures(f, (xs[i],), ys[i])
}

/// Whether `ys` is what `f` has made of `xs`, item by item, without a failure.
pub open spec fn try_mapped<A, B, E, F: FnMut(A) -> Result<B, E>>(
    f: F,
    xs: Seq<A>,
    ys: Seq<B>,
) -> bool {
    &&& ys.len() == xs.len()
    &&& forall|i: int|
        #![trigger ys[i]]
        0 <= i < xs.len() ==> call_ensures(f, (xs[i],), Ok::<B, E>(ys[i]))
}

/// Whether `f` has made `done` of the first items of `xs` and has failed with
/// `e` on the next one.
pub open spec fn failed_after<A, B, E, F: FnMut(A) -> Result<B, E>>(
    f: F,
    xs: Seq<A>,
    done: Seq<B>,
    e: E,
) -> bool {
    &&& done.len() < xs.len()
    &&& try_mapped(f, xs.take(done.len() as int), done)
    &&& call_ensures(f, (xs[done.len() as int],), Err::<B, E>(e))
}

/// Whether `f` has failed with `e` on an item of `xs`, after it has succeeded on
/// those in front of it.
pub open spec fn map_failed<A, B, E, F: FnMut(A) -> Result<B, E>>(
    f: F,
    xs: Seq<A>,
    e: E,
) -> bool {
    exists|done: Seq<B>| failed_after(f, xs, done, e)
}

/// Applies `f` to each item in turn.
fn map_items<A, B>(xs: Vec<A>, f: impl FnMut(A) -> B) -> (ys: Vec<B>)
    requires
        applies(f, xs@),
    ensures
        mapped(f, xs@, ys@),
{
    let mut apply = f;
    let mut ys: Vec<B> = Vec::new();
    for x in it: xs
        invariant
            it.seq() == xs@,
            apply == f,
            applies(f, xs@),
            ys@.len() == it.index(),
            forall|i: int|
                #![trigger ys@[i]]
                0 <= i < it.index() ==> call_ensures(f, (xs@[i],), ys@[i]),
    {
        ys.push(apply(x));
    }
    ys
}

/// Applies `f` to each item in turn, up to the first failure.
fn try_map_items<A, B, E>(xs: Vec<A>, f: impl FnMut(A) -> Result<B, E>) -> (res: Result<
    Vec<B>,
    E,
>)
    requires
        applies(f, xs@),
    ensures
        match res {
            Ok(ys) => try_mapped(f, xs@, ys@),
            Err(e) => map_failed(f, xs@, e),
        },
{
    let mut apply = f;
    let mut ys: Vec<B> = Vec::new();
    for x in it: xs
        invariant
            it.seq() == xs@,
            apply == f,
            applies(f, xs@),
            ys@.len() == it.index(),
            forall|i: int|
                #![trigger ys@[i]]
                0 <= i < it.index() ==> call_ensures(f, (xs@[i],), Ok::<B, E>(ys@[i])),
    {
        match apply(x) {
            Ok(y) => ys.push(y),
            Err(e) => {
                assert(failed_after(f, xs@, ys@, e));
                return Err(e);
            },
        }
    }
    Ok(ys)
}

// ---------------------------------------------------------------------------
// Blocks
// ---------------------------------------------------------------------------

impl<T, H> Block<T, H> {
    /// Whether `other` is the same block but for its transactions.
    pub open spec fn same_rest<U>(self, other: Block<U, H>) -> bool {
        &&& other.header == self.header
        &&& other.body.ommers == self.body.ommers
        &&& other.body.withdrawals == self.body.withdrawals
        &&& other.body.slashed == self.body.slashed
        &&& other.body.bridge_requests == self.body.bridge_requests
    }

    /// Whether `res` is the block with the transactions that `f` has made of
    /// those of this one.
    pub open spec fn maps_to<U, F: FnMut(T) -> U>(self, f: F, res: Block<U, H>) -> bool {
        &&& mapped(f, self.body.transactions@, res.body.transactions@)
        &&& self.same_rest(res)
    }

    /// Whether `res` is the block with the transactions that `f` has made of
    /// those of this one or, where `f` has failed on one of them after it has
    /// succeeded on those in front of it, that failure.
    pub open spec fn tries_to<U, E, F: FnMut(T) -> Result<U, E>>(
        self,
        f: F,
        res: Result<Block<U, H>, E>,
    ) -> bool {
        match res {
            Ok(block) => {
                &&& try_mapped(f, self.body.transactions@, block.body.transactions@)
                &&& self.same_rest(block)
            },
            Err(e) => map_failed(f, self.body.transactions@, e),
        }
    }

    /// Creates a new block with the given header and body.
    pub fn new(header: H, body: BlockBody<T, H>) -> (res: Self)
        ensures
            res == (Block { header, body }),
    {
        Block { header, body }
    }

    /// Creates a new empty uncle block.
    pub fn uncle(header: H) -> (res: Self)
        ensures
            res.header == header,
            res.body.is_blank(),
            res.body.transactions@.len() == 0,
            res.body.ommers@.len() == 0,
            res.body.withdrawals is None,
            res.body.slashed is None,
            res.body.bridge_requests is None,
    {
        Block { header, body: BlockBody::default() }
    }

    /// Consumes the block and returns the header.
    pub fn into_header(self) -> (res: H)
        ensures
            res == self.header,
    {
        self.header
    }

    /// Consumes the block and returns the body.
    pub fn into_body(self) -> (res: BlockBody<T, H>)
        ensures
            res == self.body,
    {
        self.body
    }

    /// Converts the block's header type by applying a function to it.
    pub fn map_header<U>(self, mut f: impl FnMut(H) -> U) -> (res: Block<T, U>)
        requires
            call_requires(f, (self.header,)),
            applies(f, self.body.ommers@),
        ensures
            call_ensures(f, (self.header,), res.header),
            mapped(f, self.body.ommers@, res.body.ommers@),
            res.body.transactions == self.body.transactions,
            res.body.withdrawals == self.body.withdrawals,
            res.body.slashed == self.body.slashed,
            res.body.bridge_requests == self.body.bridge_requests,
    {
        Block { header: f(self.header), body: self.body.map_ommers(f) }
    }

    /// Converts the block's header type by applying a fallible function to it.
    pub fn try_map_header<U, E>(self, mut f: impl FnMut(H) -> Result<U, E>) -> (res: Result<
        Block<T, U>,
        E,
    >)
        requires
            call_requires(f, (self.header,)),
            applies(f, self.body.ommers@),
        ensures
            match res {
                Ok(block) => {
                    &&& call_ensures(f, (self.header,), Ok::<U, E>(block.header))
                    &&& try_mapped(f, self.body.ommers@, block.body.ommers@)
                    &&& block.body.transactions == self.body.transactions
                    &&& block.body.withdrawals == self.body.withdrawals
                    &&& block.body.slashed == self.body.slashed
                    &&& block.body.bridge_requests == self.body.bridge_requests
                },
                Err(e) => {
                    ||| call_ensures(f, (self.header,), Err::<U, E>(e))
                    ||| {
                        &&& exists|header: U|
                            #[trigger] call_ensures(f, (self.header,), Ok::<U, E>(header))
                        &&& map_failed(f, self.body.ommers@, e)
                    }
                },
            },
    {
        let header = match f(self.header) {
            Ok(header) => header,
            Err(e) => return Err(e),
        };
        let body = match self.body.try_map_ommers(f) {
            Ok(body) => body,
            Err(e) => return Err(e),
        };
        Ok(Block { header, body })
    }

    /// Converts the block's transaction type to the given alternative that is `From<T>`
    pub fn convert_transactions<U>(self) -> (res: Block<U, H>) where U: From<T>
        ensures
            self.maps_to(U::from, res),
    {
        self.map_transactions(U::from)
    }

    /// Converts the block's transaction to the given alternative that is `TryFrom<T>`
    ///
    /// Returns the block with the new transaction type if all conversions were successful.
    pub fn try_convert_transactions<U>(self) -> (res: Result<Block<U, H>, U::Error>) where
        U: TryFrom<T>,

        ensures
            self.tries_to(U::try_from, res),
    {
        self.try_map_transactions(U::try_from)
    }

    /// Converts the block's transaction type by applying a function to each transaction.
    ///
    /// Returns the block with the new transaction type.
    pub fn map_transactions<U>(self, f: impl FnMut(T) -> U) -> (res: Block<U, H>)
        requires
            applies(f, self.body.transactions@),
        ensures
            self.maps_to(f, res),
    {
        Block {
            header: self.header,
            body: BlockBody {
                transactions: map_items(self.body.transactions, f),
                ommers: self.body.ommers,
                withdrawals: self.body.withdrawals,
                slashed: self.body.slashed,
                bridge_requests: self.body.bridge_requests,
            },
        }
    }

    /// Converts the block's transaction type by applying a fallible function to each transaction.
    ///
    /// Returns the block with the new transaction type if all transactions were successfully.
    pub fn try_map_transactions<U, E>(self, f: impl FnMut(T) -> Result<U, E>) -> (res: Result<
        Block<U, H>,
        E,
    >)
        requires
            applies(f, self.body.transactions@),
        ensures
            self.tries_to(f, res),
    {
        let transactions = match try_map_items(self.body.transactions, f) {
            Ok(transactions) => transactions,
            Err(e) => return Err(e),
        };
        Ok(
            Block {
                header: self.header,
                body: BlockBody {
                    transactions,
                    ommers: self.body.ommers,
                    withdrawals: self.body.withdrawals,
                    slashed: self.body.slashed,
                    bridge_requests: self.body.bridge_requests,
                },
            },
        )
    }

    /// Replaces the header of the block.
    ///
    /// Note: This method only replaces the main block header. If you need to transform
    /// the ommer headers as well, use [`map_header`](Self::map_header) instead.
    pub fn with_header(self, header: H) -> (res: Self)
        ensures
            res.header == header,
            res.body == self.body,
    {
        let mut block = self;
        block.header = header;
        block
    }
}

impl<T: Encodable2718, H> Block<T, H> {
    /// Converts the transactions in the block's body to `WithEncoded<T>` by encoding them via
    /// [`Encodable2718`]
    pub fn into_with_encoded2718(self) -> (res: Block<WithEncoded<T>, H>)
        ensures
            res.body.transactions@.len() == self.body.transactions@.len(),
            forall|i: int|
                0 <= i < self.body.transactions@.len() ==> {
                    &&& (#[trigger] res.body.transactions@[i]).1 == self.body.transactions@[i]
                    &&& res.body.transactions@[i].0@ == self.body.transactions@[i].envelope()
                },
            self.same_rest(res),
    {
        let f = |tx: T| -> (pair: WithEncoded<T>)
            ensures
                pair.1 == tx,
                pair.0@ == tx.envelope(),
            { tx.into_encoded() };
        self.map_transactions(f)
    }
}

impl<T, H> core::ops::Deref for Block<T, H> {
    type Target = H;

    fn deref(&self) -> (res: &H)
        ensures
            *res == self.header,
    {
        &self.header
    }
}

impl<T> Block<T, Header> {
    /// Creates a new block from a header, its transactions and the root over
    /// them, which is set on the header. `ommers_hash` is set to the hash of no
    /// ommers.
    pub fn with_transactions_root(
        header: Header,
        transactions: Vec<T>,
        transactions_root: B256,
    ) -> (res: Self)
        ensures
            res.header == (Header {
                transactions_root,
                ommers_hash: FixedBytes(EMPTY_OMMER_ROOT_HASH),
                ..header
            }),
            res.body.transactions == transactions,
            res.body.ommers@.len() == 0,
            res.body.withdrawals is None,
            res.body.slashed is None,
            res.body.bridge_requests is None,
    {
        let mut header = header;
        header.transactions_root = transactions_root;
        header.ommers_hash = FixedBytes(EMPTY_OMMER_ROOT_HASH);
        Self::new(
            header,
            BlockBody {
                transactions,
                ommers: Vec::new(),
                withdrawals: None,
                slashed: None,
                bridge_requests: None,
            },
        )
    }
}

impl<T: Encodable2718> Block<T, Header> {
    /// Creates a new block from a header and its transactions.
    ///
    /// Computes and sets the `transactions_root` on the header automatically.
    /// `ommers_hash` is set to [`EMPTY_OMMER_ROOT_HASH`].
    pub fn from_transactions(header: Header, transactions: Vec<T>) -> (res: Self)
        ensures
            res.header.transactions_root@ == transactions_root(transactions@),
            exists|items: Seq<Seq<u8>>|
                {
                    &&& items.len() == transactions@.len()
                    &&& forall|i: int|
                        0 <= i < items.len() ==> #[trigger] items[i] == transactions@[i].envelope()
                    &&& res.header.transactions_root@ == #[trigger] ordered_trie_root(items)
                },
            transactions@.len() == 0 ==> res.header.transactions_root@ == EMPTY_ROOT_HASH@,
            res.header == (Header {
                transactions_root: res.header.transactions_root,
                ommers_hash: FixedBytes(EMPTY_OMMER_ROOT_HASH),
                ..header
            }),
            res.body.transactions == transactions,
            res.body.ommers@.len() == 0,
            res.body.withdrawals is None,
            res.body.slashed is None,
            res.body.bridge_requests is None,
    {
        let root = calculate_transaction_root(&transactions);
        Self::with_transactions_root(header, transactions, root)
    }
}

impl<T, H> Default for Block<T, H> where H: Default {
    fn default() -> (res: Self)
        ensures
            call_ensures(H::default, (), res.header),
            res.body.is_blank(),
            res.body.transactions@.len() == 0,
            res.body.ommers@.len() == 0,
            res.body.withdrawals is None,
            res.body.slashed is None,
            res.body.bridge_requests is None,
    {
        Block { header: H::default(), body: BlockBody::default() }
    }
}

impl<T, H> From<Block<T, H>> for BlockBody<T, H> {
    fn from(block: Block<T, H>) -> (res: Self)
        ensures
            res == block.body,
    {
        block.into_body()
    }
}

impl<T, H> vstd::std_specs::convert::FromSpecImpl<Block<T, H>> for BlockBody<T, H> {
    open spec fn obeys_from_spec() -> bool {
        true
    }

    open spec fn from_spec(block: Block<T, H>) -> Self {
        block.body
    }
}

// ---------------------------------------------------------------------------
// Block bodies
// ---------------------------------------------------------------------------

impl<T, H> Default for BlockBody<T, H> {
    fn default() -> (res: Self)
        ensures
            res.is_blank(),
            res.transactions@.len() == 0,
            res.ommers@.len() == 0,
            res.withdrawals is None,
            res.slashed is None,
            res.bridge_requests is None,
    {
        BlockBody {
            transactions: Vec::new(),
            ommers: Vec::new(),
            withdrawals: None,
            slashed: None,
            bridge_requests: None,
        }
    }
}

impl<T, H> BlockBody<T, H> {
    /// Whether the body has nothing in it.
    pub open spec fn is_blank(&self) -> bool {
        &&& self.transactions@.len() == 0
        &&& self.ommers@.len() == 0
        &&& self.withdrawals is None
        &&& self.slashed is None
        &&& self.bridge_requests is None
    }

    /// Returns an iterator over all transactions.
    #[inline]
    pub fn transactions(&self) -> (res: core::slice::Iter<'_, T>)
        ensures
            vstd::std_specs::iter::IteratorSpec::remaining(&res) == self.transactions@.as_ref(),
    {
        self.transactions.iter()
    }

    /// Create a [`Block`] from the body and its header.
    pub fn into_block(self, header: H) -> (res: Block<T, H>)
        ensures
            res == (Block { header, body: self }),
    {
        Block { header, body: self }
    }

    /// Calculate the withdrawals root for the block body, if withdrawals exist. If there are no
    /// withdrawals, this will return `None`.
    pub fn calculate_withdrawals_root(&self) -> (res: Option<B256>)
        ensures
            match self.withdrawals {
                Some(withdrawals) => {
                    &&& res is Some
                    &&& res->0@ == withdrawals_root(withdrawals@)
                    &&& exists|items: Seq<Seq<u8>>|
                        {
                            &&& items.len() == withdrawals@.len()
                            &&& forall|i: int|
                                0 <= i < items.len() ==> #[trigger] items[i] == Withdrawal::rlp(
                                    withdrawals@[i],
                                )
                            &&& res->0@ == #[trigger] ordered_trie_root(items)
                        }
                    &&& withdrawals@.len() == 0 ==> res->0@ == EMPTY_ROOT_HASH@
                },
                None => res is None,
            },
    {
        match &self.withdrawals {
            Some(withdrawals) => Some(calculate_withdrawals_root(withdrawals)),
            None => None,
        }
    }

    /// Converts the body's ommers type by applying a function to it.
    pub fn map_ommers<U>(self, f: impl FnMut(H) -> U) -> (res: BlockBody<T, U>)
        requires
            applies(f, self.ommers@),
        ensures
            mapped(f, self.ommers@, res.ommers@),
            res.transactions == self.transactions,
            res.withdrawals == self.withdrawals,
            res.slashed == self.slashed,
            res.bridge_requests == self.bridge_requests,
    {
        BlockBody {
            transactions: self.transactions,
            ommers: map_items(self.ommers, f),
            withdrawals: self.withdrawals,
            slashed: self.slashed,
            bridge_requests: self.bridge_requests,
        }
    }

    /// Converts the body's ommers type by applying a fallible function to it.
    pub fn try_map_ommers<U, E>(self, f: impl FnMut(H) -> Result<U, E>) -> (res: Result<
        BlockBody<T, U>,
        E,
    >)
        requires
            applies(f, self.ommers@),
        ensures
            match res {
                Ok(body) => {
                    &&& try_mapped(f, self.ommers@, body.ommers@)
                    &&& body.transactions == self.transactions
                    &&& body.withdrawals == self.withdrawals
                    &&& body.slashed == self.slashed
                    &&& body.bridge_requests == self.bridge_requests
                },
                Err(e) => map_failed(f, self.ommers@, e),
            },
    {
        let ommers = match try_map_items(self.ommers, f) {
            Ok(ommers) => ommers,
            Err(e) => return Err(e),
        };
        Ok(
            BlockBody {
                transactions: self.transactions,
                ommers,
                withdrawals: self.withdrawals,
                slashed: self.slashed,
                bridge_requests: self.bridge_requests,
            },
        )
    }
}

impl<T, H: Encodable> BlockBody<T, H> {
    /// Calculate the ommers root for the block body.
    pub fn calculate_ommers_root(&self) -> (res: B256)
        ensures
            res@ == ommers_root::<H>(values(self.ommers@)),
            self.ommers@.len() == 0 ==> res@ == EMPTY_OMMER_ROOT_HASH@,
            self.ommers@.len() > 0 ==> res@ == keccak256_digest(
                Vec::<H>::rlp(self.ommers.value()),
            ),
    {
        calculate_ommers_root(&self.ommers)
    }
}

impl<T, H: Sealable> BlockBody<T, H> {
    /// Returns the hashes of the ommers in the block body.
    pub fn ommers_hashes(&self) -> (res: Vec<B256>)
        ensures
            res@.len() == self.ommers@.len(),
            forall|i: int|
                0 <= i < self.ommers@.len() ==> (#[trigger] res@[i])@
                    == self.ommers@[i].seal_hash(),
    {
        let mut hashes: Vec<B256> = Vec::new();
        for i in 0..self.ommers.len()
            invariant
                hashes@.len() == i,
                forall|j: int|
                    0 <= j < i ==> (#[trigger] hashes@[j])@ == self.ommers@[j].seal_hash(),
        {
            hashes.push(self.ommers[i].hash_slow());
        }
        hashes
    }
}

/// The blob versioned hashes of the EIP-4844 transactions among the given ones.
pub open spec fn blob_hashes_of<T: Transaction>(transactions: Seq<T>) -> Seq<B256>
    decreases transactions.len(),
{
    if transactions.len() == 0 {
        Seq::empty()
    } else {
        let tx = transactions.last();
        let front = blob_hashes_of(transactions.drop_last());
        if tx.tx_type() == EIP4844_TX_TYPE_ID && tx.blob_hashes() is Some {
            front + tx.blob_hashes()->0
        } else {
            front
        }
    }
}

impl<T: Transaction, H> BlockBody<T, H> {
    /// Returns all blob versioned hashes from the block body.
    #[inline]
    pub fn blob_versioned_hashes_iter(&self) -> (res: Vec<B256>)
        ensures
            res@ == blob_hashes_of(self.transactions@),
    {
        let mut all: Vec<B256> = Vec::new();
        for i in 0..self.transactions.len()
            invariant
                all@ == blob_hashes_of(self.transactions@.take(i as int)),
        {
            assert(self.transactions@.take(i + 1).drop_last() =~= self.transactions@.take(
                i as int,
            ));
            if self.transactions[i].is_eip4844() {
                match self.transactions[i].blob_versioned_hashes() {
                    Some(hashes) => {
                        let mut hashes: Vec<B256> = hashes;
                        all.append(&mut hashes);
                    },
                    None => {},
                }
            }
        }
        assert(self.transactions@.take(self.transactions@.len() as int) =~= self.transactions@);
        all
    }
}

impl<T: Typed2718, H> BlockBody<T, H> {
    /// Returns whether or not the block body contains any blob transactions.
    #[inline]
    pub fn has_eip4844_transactions(&self) -> (res: bool)
        ensures
            res == exists|i: int|
                0 <= i < self.transactions@.len() && (#[trigger] self.transactions@[i]).tx_type()
                    == EIP4844_TX_TYPE_ID,
    {
        for i in 0..self.transactions.len()
            invariant
                forall|j: int|
                    0 <= j < i ==> (#[trigger] self.transactions@[j]).tx_type()
                        != EIP4844_TX_TYPE_ID,
        {
            if self.transactions[i].is_eip4844() {
                return true;
            }
        }
        false
    }

    /// Returns whether or not the block body contains any EIP-7702 transactions.
    #[inline]
    pub fn has_eip7702_transactions(&self) -> (res: bool)
        ensures
            res == exists|i: int|
                0 <= i < self.transactions@.len() && (#[trigger] self.transactions@[i]).tx_type()
                    == EIP7702_TX_TYPE_ID,
    {
        for i in 0..self.transactions.len()
            invariant
                forall|j: int|
                    0 <= j < i ==> (#[trigger] self.transactions@[j]).tx_type()
                        != EIP7702_TX_TYPE_ID,
        {
            if self.transactions[i].is_eip7702() {
                return true;
            }
        }
        false
    }

    /// Returns all blob transactions of the block.
    #[inline]
    pub fn eip4844_transactions_iter(&self) -> (res: Vec<&T>)
        ensures
            res@.unref() == self.transactions@.filter(|tx: T| tx.tx_type() == EIP4844_TX_TYPE_ID),
    {
        let ghost is_blob = |tx: T| tx.tx_type() == EIP4844_TX_TYPE_ID;
        let mut txs: Vec<&T> = Vec::new();
        assert(txs@.unref() =~= self.transactions@.take(0).filter(is_blob)) by {
            reveal(Seq::filter);
        }
        for i in 0..self.transactions.len()
            invariant
                is_blob == (|tx: T| tx.tx_type() == EIP4844_TX_TYPE_ID),
                txs@.unref() == self.transactions@.take(i as int).filter(is_blob),
        {
            let ghost before = txs@.unref();
            proof {
                reveal(Seq::filter);
                assert(self.transactions@.take(i + 1).drop_last() =~= self.transactions@.take(
                    i as int,
                ));
            }
            if self.transactions[i].is_eip4844() {
                txs.push(&self.transactions[i]);
                assert(txs@.unref() =~= before.push(self.transactions@[i as int]));
            }
        }
        assert(self.transactions@.take(self.transactions@.len() as int) =~= self.transactions@);
        txs
    }
}

} // verus!
