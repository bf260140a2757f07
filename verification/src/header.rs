//! Block headers.

use crate::bytes::{Address, Bloom, Bytes, FixedBytes, B256, B64, U256};
use crate::rlp::{
    be_value, close_list, decode_list_head, encode_head, finish_list, lemma_head_bounds, list_rlp,
    open_list, opt_value, restores, result_value, Decodable, Encodable, Parsed, RlpValue,
};
use crate::rlp_laws::{
    lemma_assoc, lemma_bytes_restores, lemma_fixed_restores, lemma_head_restores,
    lemma_u256_restores, lemma_u64_restores,
};
use crate::seal::{keccak256, keccak256_digest, Sealable, Sealed};
use alloy_rlp::Error;
use vstd::prelude::*;

verus! {

/// The hash of the empty list of ommers.
pub const EMPTY_OMMER_ROOT_HASH: [u8; 32] = [
    0x1d, 0xcc, 0x4d, 0xe8, 0xde, 0xc7, 0x5d, 0x7a, 0xab, 0x85, 0xb5, 0x67, 0xb6, 0xcc, 0xd4,
    0x1a, 0xd3, 0x12, 0x45, 0x1b, 0x94, 0x8a, 0x74, 0x13, 0xf0, 0xa1, 0x42, 0xfd, 0x40, 0xd4,
    0x93, 0x47,
];

/// The root of the empty trie.
pub const EMPTY_ROOT_HASH: [u8; 32] = [
    0x56, 0xe8, 0x1f, 0x17, 0x1b, 0xcc, 0x55, 0xa6, 0xff, 0x83, 0x45, 0xe6, 0x92, 0xc0, 0xf8,
    0x6e, 0x5b, 0x48, 0xe0, 0x1b, 0x99, 0x6c, 0xad, 0xc0, 0x01, 0x62, 0x2f, 0xb5, 0xe3, 0x63,
    0xb4, 0x21,
];

/// Ethereum block header. `X` is the type of the extra data.
#[derive(Clone, Debug, PartialEq, Eq)]
pub struct Header<X = Bytes> {
    /// Hash of the parent block's header.
    pub parent_hash: B256,
    /// Hash of the ommers list of this block.
    pub ommers_hash: B256,
    /// Address to which the fees of this block go.
    pub beneficiary: Address,
    /// Root of the state trie after all transactions.
    pub state_root: B256,
    /// Root of the trie of the transactions of this block.
    pub transactions_root: B256,
    /// Root of the trie of the receipts of this block.
    pub receipts_root: B256,
    /// Bloom filter over the logs of this block.
    pub logs_bloom: Bloom,
    /// Difficulty of this block.
    pub difficulty: U256,
    /// Number of ancestor blocks.
    pub number: u64,
    /// Limit of gas expenditure per block.
    pub gas_limit: u64,
    /// Gas used by the transactions of this block.
    pub gas_used: u64,
    /// Unix time at the inception of this block.
    pub timestamp: u64,
    /// Data relevant to this block.
    pub extra_data: X,
    /// Proof-of-work mix hash, or the randomness of the beacon chain.
    pub mix_hash: B256,
    /// Proof-of-work nonce.
    pub nonce: B64,
    /// Base fee per unit of gas.
    pub base_fee_per_gas: Option<u64>,
    /// Root of the trie of the withdrawals of this block.
    pub withdrawals_root: Option<B256>,
    /// Blob gas used by the transactions of this block.
    pub blob_gas_used: Option<u64>,
    /// Running total of blob gas consumed above the target.
    pub excess_blob_gas: Option<u64>,
    /// Root of the parent beacon block.
    pub parent_beacon_block_root: Option<B256>,
    /// Commitment to the requests of this block.
    pub requests_hash: Option<B256>,
}

/// The contents of a header.
pub type HeaderValue = Header<Seq<u8>>;

impl Default for Header {
    fn default() -> (res: Self)
        ensures
            res.value() == (HeaderValue {
                parent_hash: FixedBytes::of(Seq::new(32, |i: int| 0u8)),
                ommers_hash: FixedBytes(EMPTY_OMMER_ROOT_HASH),
                beneficiary: FixedBytes::of(Seq::new(20, |i: int| 0u8)),
                state_root: FixedBytes(EMPTY_ROOT_HASH),
                transactions_root: FixedBytes(EMPTY_ROOT_HASH),
                receipts_root: FixedBytes(EMPTY_ROOT_HASH),
                logs_bloom: FixedBytes::of(Seq::new(256, |i: int| 0u8)),
                difficulty: U256::of(0),
                number: 0,
                gas_limit: 0,
                gas_used: 0,
                timestamp: 0,
                extra_data: Seq::empty(),
                mix_hash: FixedBytes::of(Seq::new(32, |i: int| 0u8)),
                nonce: FixedBytes::of(Seq::new(8, |i: int| 0u8)),
                base_fee_per_gas: None,
                withdrawals_root: None,
                blob_gas_used: None,
                excess_blob_gas: None,
                parent_beacon_block_root: None,
                requests_hash: None,
            }),
    {
        let res = Header {
            parent_hash: B256::zero(),
            ommers_hash: FixedBytes(EMPTY_OMMER_ROOT_HASH),
            beneficiary: Address::zero(),
            state_root: FixedBytes(EMPTY_ROOT_HASH),
            transactions_root: FixedBytes(EMPTY_ROOT_HASH),
            receipts_root: FixedBytes(EMPTY_ROOT_HASH),
            logs_bloom: Bloom::zero(),
            difficulty: U256::zero(),
            number: 0,
            gas_limit: 0,
            gas_used: 0,
            timestamp: 0,
            extra_data: Bytes::new(),
            mix_hash: B256::zero(),
            nonce: B64::zero(),
            base_fee_per_gas: None,
            withdrawals_root: None,
            blob_gas_used: None,
            excess_blob_gas: None,
            parent_beacon_block_root: None,
            requests_hash: None,
        };
        proof {
            res.parent_hash.lemma_of();
            res.beneficiary.lemma_of();
            res.logs_bloom.lemma_of();
            res.mix_hash.lemma_of();
            res.nonce.lemma_of();
            lemma_zero_value(res.difficulty.0@);
            res.difficulty.lemma_of();
        }
        res
    }
}

/// Zero digits stand for zero.
proof fn lemma_zero_value(s: Seq<u8>)
    requires
        forall|i: int| 0 <= i < s.len() ==> s[i] == 0,
    ensures
        be_value(s) == 0,
    decreases s.len(),
{
    if s.len() > 0 {
        lemma_zero_value(s.drop_last());
    }
}

// ---------------------------------------------------------------------------
// Writing
// ---------------------------------------------------------------------------

/// A field that is left out where it is missing.
pub open spec fn present_rlp<F: Encodable>(field: Option<F::Value>) -> Seq<u8> {
    match field {
        Some(v) => F::rlp(v),
        None => Seq::empty(),
    }
}

/// Appends a field, unless it is missing.
fn encode_present<F: Encodable>(field: &Option<F>, out: &mut Vec<u8>)
    ensures
        final(out)@ == old(out)@ + present_rlp::<F>(opt_value(*field)),
{
    match field {
        Some(v) => v.encode(out),
        None => {
            assert(out@ + Seq::<u8>::empty() =~= out@);
        },
    }
}

impl<X> Header<X> {
    /// Whether no field of a later fork is there without those before it.
    pub open spec fn gapless(&self) -> bool {
        &&& self.withdrawals_root is Some ==> self.base_fee_per_gas is Some
        &&& self.blob_gas_used is Some ==> self.withdrawals_root is Some
        &&& self.excess_blob_gas is Some ==> self.blob_gas_used is Some
        &&& self.parent_beacon_block_root is Some ==> self.excess_blob_gas is Some
        &&& self.requests_hash is Some ==> self.parent_beacon_block_root is Some
    }
}

impl HeaderValue {
    /// The fields that every header has.
    pub open spec fn required_rlp(&self) -> Seq<u8> {
        B256::rlp(self.parent_hash)
            + B256::rlp(self.ommers_hash)
            + Address::rlp(self.beneficiary)
            + B256::rlp(self.state_root)
            + B256::rlp(self.transactions_root)
            + B256::rlp(self.receipts_root)
            + Bloom::rlp(self.logs_bloom)
            + U256::rlp(self.difficulty)
            + u64::rlp(self.number)
            + u64::rlp(self.gas_limit)
            + u64::rlp(self.gas_used)
            + u64::rlp(self.timestamp)
            + Bytes::rlp(self.extra_data)
            + B256::rlp(self.mix_hash)
            + B64::rlp(self.nonce)
    }

    /// The fields that later forks have added.
    pub open spec fn added_rlp(&self) -> Seq<u8> {
        present_rlp::<u64>(self.base_fee_per_gas)
            + present_rlp::<B256>(self.withdrawals_root)
            + present_rlp::<u64>(self.blob_gas_used)
            + present_rlp::<u64>(self.excess_blob_gas)
            + present_rlp::<B256>(self.parent_beacon_block_root)
            + present_rlp::<B256>(self.requests_hash)
    }

    /// All fields.
    pub open spec fn fields_rlp(&self) -> Seq<u8> {
        self.required_rlp() + self.added_rlp()
    }
}

impl RlpValue for Header {
    type Value = HeaderValue;

    open spec fn value(&self) -> HeaderValue {
        HeaderValue {
            parent_hash: self.parent_hash,
            ommers_hash: self.ommers_hash,
            beneficiary: self.beneficiary,
            state_root: self.state_root,
            transactions_root: self.transactions_root,
            receipts_root: self.receipts_root,
            logs_bloom: self.logs_bloom,
            difficulty: self.difficulty,
            number: self.number,
            gas_limit: self.gas_limit,
            gas_used: self.gas_used,
            timestamp: self.timestamp,
            extra_data: self.extra_data@,
            mix_hash: self.mix_hash,
            nonce: self.nonce,
            base_fee_per_gas: self.base_fee_per_gas,
            withdrawals_root: self.withdrawals_root,
            blob_gas_used: self.blob_gas_used,
            excess_blob_gas: self.excess_blob_gas,
            parent_beacon_block_root: self.parent_beacon_block_root,
            requests_hash: self.requests_hash,
        }
    }
}

impl Header {
    /// Appends the fields that every header has.
    fn encode_required(&self, out: &mut Vec<u8>)
        requires
            old(out)@.len() == 0,
        ensures
            final(out)@ == self.value().required_rlp(),
    {
        self.parent_hash.encode(out);
        assert(out@ =~= B256::rlp(self.parent_hash));
        self.ommers_hash.encode(out);
        self.beneficiary.encode(out);
        self.state_root.encode(out);
        self.transactions_root.encode(out);
        self.receipts_root.encode(out);
        self.logs_bloom.encode(out);
        self.difficulty.encode(out);
        self.number.encode(out);
        self.gas_limit.encode(out);
        self.gas_used.encode(out);
        self.timestamp.encode(out);
        self.extra_data.encode(out);
        self.mix_hash.encode(out);
        self.nonce.encode(out);
    }

    /// Appends the fields that later forks have added.
    fn encode_added(&self, out: &mut Vec<u8>)
        requires
            old(out)@.len() == 0,
        ensures
            final(out)@ == self.value().added_rlp(),
    {
        encode_present(&self.base_fee_per_gas, out);
        assert(out@ =~= present_rlp::<u64>(self.base_fee_per_gas));
        encode_present(&self.withdrawals_root, out);
        encode_present(&self.blob_gas_used, out);
        encode_present(&self.excess_blob_gas, out);
        encode_present(&self.parent_beacon_block_root, out);
        encode_present(&self.requests_hash, out);
    }
}

impl Encodable for Header {
    open spec fn rlp(v: HeaderValue) -> Seq<u8> {
        list_rlp(v.fields_rlp())
    }

    fn encode(&self, out: &mut Vec<u8>) {
        let mut payload: Vec<u8> = Vec::new();
        self.encode_required(&mut payload);
        let mut added: Vec<u8> = Vec::new();
        self.encode_added(&mut added);
        payload.append(&mut added);
        encode_head(true, payload.len(), out);
        out.append(&mut payload);
    }
}

// ---------------------------------------------------------------------------
// Reading
// ---------------------------------------------------------------------------

/// Reads a field behind what `p` has read and enters it with `set`.
pub open spec fn field<F: Decodable>(
    p: Parsed<HeaderValue>,
    set: spec_fn(HeaderValue, F::Value) -> HeaderValue,
) -> Parsed<HeaderValue> {
    match p {
        (Ok(h), rest) => match F::parse(rest) {
            (Ok(v), tail) => (Ok(set(h, v)), tail),
            (Err(e), tail) => (Err(e), tail),
        },
        (Err(e), rest) => (Err(e), rest),
    }
}

/// Reads a field that a later fork has added, unless the list, behind which
/// `after` bytes of the input lie, has ended.
pub open spec fn added<F: Decodable>(
    p: Parsed<HeaderValue>,
    after: nat,
    set: spec_fn(HeaderValue, Option<F::Value>) -> HeaderValue,
) -> Parsed<HeaderValue> {
    match p {
        (Ok(h), rest) => if rest.len() > after {
            match F::parse(rest) {
                (Ok(v), tail) => (Ok(set(h, Some(v))), tail),
                (Err(e), tail) => (Err(e), tail),
            }
        } else {
            (Ok(set(h, None)), rest)
        },
        (Err(e), rest) => (Err(e), rest),
    }
}

/// Reads the fields that every header has.
pub open spec fn parse_required(buf: Seq<u8>) -> Parsed<HeaderValue> {
    let blank: HeaderValue = HeaderValue {
        base_fee_per_gas: None,
        withdrawals_root: None,
        blob_gas_used: None,
        excess_blob_gas: None,
        parent_beacon_block_root: None,
        requests_hash: None,
        ..arbitrary()
    };
    let p: Parsed<HeaderValue> = (Ok(blank), buf);
    let p = field::<B256>(p, |h: HeaderValue, v: B256| HeaderValue { parent_hash: v, ..h });
    let p = field::<B256>(p, |h: HeaderValue, v: B256| HeaderValue { ommers_hash: v, ..h });
    let p = field::<Address>(p, |h: HeaderValue, v: Address| HeaderValue { beneficiary: v, ..h });
    let p = field::<B256>(p, |h: HeaderValue, v: B256| HeaderValue { state_root: v, ..h });
    let p = field::<B256>(p, |h: HeaderValue, v: B256| HeaderValue { transactions_root: v, ..h });
    let p = field::<B256>(p, |h: HeaderValue, v: B256| HeaderValue { receipts_root: v, ..h });
    let p = field::<Bloom>(p, |h: HeaderValue, v: Bloom| HeaderValue { logs_bloom: v, ..h });
    let p = field::<U256>(p, |h: HeaderValue, v: U256| HeaderValue { difficulty: v, ..h });
    let p = field::<u64>(p, |h: HeaderValue, v: u64| HeaderValue { number: v, ..h });
    let p = field::<u64>(p, |h: HeaderValue, v: u64| HeaderValue { gas_limit: v, ..h });
    let p = field::<u64>(p, |h: HeaderValue, v: u64| HeaderValue { gas_used: v, ..h });
    let p = field::<u64>(p, |h: HeaderValue, v: u64| HeaderValue { timestamp: v, ..h });
    let p = field::<Bytes>(p, |h: HeaderValue, v: Seq<u8>| HeaderValue { extra_data: v, ..h });
    let p = field::<B256>(p, |h: HeaderValue, v: B256| HeaderValue { mix_hash: v, ..h });
    let p = field::<B64>(p, |h: HeaderValue, v: B64| HeaderValue { nonce: v, ..h });
    p
}

/// Reads the fields that later forks have added.
pub open spec fn parse_added(p: Parsed<HeaderValue>, after: nat) -> Parsed<HeaderValue> {
    let p = added::<u64>(
        p,
        after,
        |h: HeaderValue, v: Option<u64>| HeaderValue { base_fee_per_gas: v, ..h },
    );
    let p = added::<B256>(
        p,
        after,
        |h: HeaderValue, v: Option<B256>| HeaderValue { withdrawals_root: v, ..h },
    );
    let p = added::<u64>(
        p,
        after,
        |h: HeaderValue, v: Option<u64>| HeaderValue { blob_gas_used: v, ..h },
    );
    let p = added::<u64>(
        p,
        after,
        |h: HeaderValue, v: Option<u64>| HeaderValue { excess_blob_gas: v, ..h },
    );
    let p = added::<B256>(
        p,
        after,
        |h: HeaderValue, v: Option<B256>| HeaderValue { parent_beacon_block_root: v, ..h },
    );
    let p = added::<B256>(
        p,
        after,
        |h: HeaderValue, v: Option<B256>| HeaderValue { requests_hash: v, ..h },
    );
    p
}

impl Header {
    /// Reads the fields that every header has.
    fn decode_required(buf: &mut &[u8]) -> (res: Result<Header, Error>)
        ensures
            final(buf)@ == parse_required(old(buf)@).1,
            parse_required(old(buf)@).0 == result_value(res),
    {
        let parent_hash = B256::decode(buf)?;
        let ommers_hash = B256::decode(buf)?;
        let beneficiary = Address::decode(buf)?;
        let state_root = B256::decode(buf)?;
        let transactions_root = B256::decode(buf)?;
        let receipts_root = B256::decode(buf)?;
        let logs_bloom = Bloom::decode(buf)?;
        let difficulty = U256::decode(buf)?;
        let number: u64 = u64::decode(buf)?;
        let gas_limit: u64 = u64::decode(buf)?;
        let gas_used: u64 = u64::decode(buf)?;
        let timestamp: u64 = u64::decode(buf)?;
        let extra_data = Bytes::decode(buf)?;
        let mix_hash = B256::decode(buf)?;
        let nonce = B64::decode(buf)?;
        Ok(
            Header {
                parent_hash,
                ommers_hash,
                beneficiary,
                state_root,
                transactions_root,
                receipts_root,
                logs_bloom,
                difficulty,
                number,
                gas_limit,
                gas_used,
                timestamp,
                extra_data,
                mix_hash,
                nonce,
                base_fee_per_gas: None,
                withdrawals_root: None,
                blob_gas_used: None,
                excess_blob_gas: None,
                parent_beacon_block_root: None,
                requests_hash: None,
            },
        )
    }
}

/// Reads a field that a later fork has added, unless the list has ended.
fn decode_added<F: Decodable>(buf: &mut &[u8], after: usize) -> (res: Result<Option<F>, Error>)
    ensures
        old(buf)@.len() > after ==> {
            &&& final(buf)@ == F::parse(old(buf)@).1
            &&& match res {
                Ok(field) => field is Some && F::parse(old(buf)@).0 == Ok::<F::Value, Error>(
                    field->0.value(),
                ),
                Err(e) => F::parse(old(buf)@).0 == Err::<F::Value, Error>(e),
            }
        },
        old(buf)@.len() <= after ==> {
            &&& final(buf)@ == old(buf)@
            &&& res == Ok::<Option<F>, Error>(None)
        },
{
    if buf.len() > after {
        let v = F::decode(buf)?;
        Ok(Some(v))
    } else {
        Ok(None)
    }
}

/// What the fields of a header leave is no longer than what they had.
proof fn lemma_field_consumes<F: Decodable>(
    p: Parsed<HeaderValue>,
    set: spec_fn(HeaderValue, F::Value) -> HeaderValue,
)
    ensures
        field::<F>(p, set).0 is Ok ==> p.0 is Ok && field::<F>(p, set).1.len() < p.1.len(),
{
    F::parse_consumes(p.1);
}

/// What the fields of a header leave is no longer than what they had.
proof fn lemma_added_consumes<F: Decodable>(
    p: Parsed<HeaderValue>,
    after: nat,
    set: spec_fn(HeaderValue, Option<F::Value>) -> HeaderValue,
)
    ensures
        added::<F>(p, after, set).0 is Ok ==> p.0 is Ok && added::<F>(p, after, set).1.len()
            <= p.1.len(),
{
    F::parse_consumes(p.1);
}

/// The fields that every header has take up some of the input.
proof fn lemma_required_consume(buf: Seq<u8>)
    ensures
        parse_required(buf).0 is Ok ==> parse_required(buf).1.len() < buf.len(),
{
    let blank: HeaderValue = HeaderValue {
        base_fee_per_gas: None,
        withdrawals_root: None,
        blob_gas_used: None,
        excess_blob_gas: None,
        parent_beacon_block_root: None,
        requests_hash: None,
        ..arbitrary()
    };
    let p: Parsed<HeaderValue> = (Ok(blank), buf);
    let set = |h: HeaderValue, v: B256| HeaderValue { parent_hash: v, ..h };
    lemma_field_consumes::<B256>(p, set);
    let p = field::<B256>(p, set);
    let set = |h: HeaderValue, v: B256| HeaderValue { ommers_hash: v, ..h };
    lemma_field_consumes::<B256>(p, set);
    let p = field::<B256>(p, set);
    let set = |h: HeaderValue, v: Address| HeaderValue { beneficiary: v, ..h };
    lemma_field_consumes::<Address>(p, set);
    let p = field::<Address>(p, set);
    let set = |h: HeaderValue, v: B256| HeaderValue { state_root: v, ..h };
    lemma_field_consumes::<B256>(p, set);
    let p = field::<B256>(p, set);
    let set = |h: HeaderValue, v: B256| HeaderValue { transactions_root: v, ..h };
    lemma_field_consumes::<B256>(p, set);
    let p = field::<B256>(p, set);
    let set = |h: HeaderValue, v: B256| HeaderValue { receipts_root: v, ..h };
    lemma_field_consumes::<B256>(p, set);
    let p = field::<B256>(p, set);
    let set = |h: HeaderValue, v: Bloom| HeaderValue { logs_bloom: v, ..h };
    lemma_field_consumes::<Bloom>(p, set);
    let p = field::<Bloom>(p, set);
    let set = |h: HeaderValue, v: U256| HeaderValue { difficulty: v, ..h };
    lemma_field_consumes::<U256>(p, set);
    let p = field::<U256>(p, set);
    let set = |h: HeaderValue, v: u64| HeaderValue { number: v, ..h };
    lemma_field_consumes::<u64>(p, set);
    let p = field::<u64>(p, set);
    let set = |h: HeaderValue, v: u64| HeaderValue { gas_limit: v, ..h };
    lemma_field_consumes::<u64>(p, set);
    let p = field::<u64>(p, set);
    let set = |h: HeaderValue, v: u64| HeaderValue { gas_used: v, ..h };
    lemma_field_consumes::<u64>(p, set);
    let p = field::<u64>(p, set);
    let set = |h: HeaderValue, v: u64| HeaderValue { timestamp: v, ..h };
    lemma_field_consumes::<u64>(p, set);
    let p = field::<u64>(p, set);
    let set = |h: HeaderValue, v: Seq<u8>| HeaderValue { extra_data: v, ..h };
    lemma_field_consumes::<Bytes>(p, set);
    let p = field::<Bytes>(p, set);
    let set = |h: HeaderValue, v: B256| HeaderValue { mix_hash: v, ..h };
    lemma_field_consumes::<B256>(p, set);
    let p = field::<B256>(p, set);
    let set = |h: HeaderValue, v: B64| HeaderValue { nonce: v, ..h };
    lemma_field_consumes::<B64>(p, set);
    let p = field::<B64>(p, set);
}

/// What the added fields leave is no longer than what they had.
proof fn lemma_added_all_consume(p: Parsed<HeaderValue>, after: nat)
    ensures
        parse_added(p, after).0 is Ok ==> p.0 is Ok && parse_added(p, after).1.len() <= p.1.len(),
{
    let set = |h: HeaderValue, v: Option<u64>| HeaderValue { base_fee_per_gas: v, ..h };
    lemma_added_consumes::<u64>(p, after, set);
    let p = added::<u64>(p, after, set);
    let set = |h: HeaderValue, v: Option<B256>| HeaderValue { withdrawals_root: v, ..h };
    lemma_added_consumes::<B256>(p, after, set);
    let p = added::<B256>(p, after, set);
    let set = |h: HeaderValue, v: Option<u64>| HeaderValue { blob_gas_used: v, ..h };
    lemma_added_consumes::<u64>(p, after, set);
    let p = added::<u64>(p, after, set);
    let set = |h: HeaderValue, v: Option<u64>| HeaderValue { excess_blob_gas: v, ..h };
    lemma_added_consumes::<u64>(p, after, set);
    let p = added::<u64>(p, after, set);
    let set = |h: HeaderValue, v: Option<B256>| HeaderValue { parent_beacon_block_root: v, ..h };
    lemma_added_consumes::<B256>(p, after, set);
    let p = added::<B256>(p, after, set);
    let set = |h: HeaderValue, v: Option<B256>| HeaderValue { requests_hash: v, ..h };
    lemma_added_consumes::<B256>(p, after, set);
    let p = added::<B256>(p, after, set);
}

impl Decodable for Header {
    open spec fn parse(buf: Seq<u8>) -> Parsed<HeaderValue> {
        match open_list(buf) {
            (Err(e), rest) => (Err(e), rest),
            (Ok(n), start) => match parse_added(parse_required(start), (start.len() - n) as nat) {
                (Err(e), rest) => (Err(e), rest),
                (Ok(header), rest) => close_list(header, n, start, rest),
            },
        }
    }

    proof fn parse_consumes(buf: Seq<u8>) {
        lemma_head_bounds(buf);
        let (n, start) = open_list(buf);
        lemma_required_consume(start);
        lemma_added_all_consume(parse_required(start), (start.len() - n->Ok_0) as nat);
    }

    fn decode(buf: &mut &[u8]) -> (res: Result<Header, Error>) {
        proof {
            lemma_head_bounds(buf@);
        }
        let payload_length: usize = decode_list_head(buf)?;
        let started_len: usize = buf.len();
        let after: usize = started_len - payload_length;
        proof {
            lemma_required_consume(buf@);
            lemma_added_all_consume(parse_required(buf@), after as nat);
        }
        let header = Header::decode_required(buf)?;
        let base_fee_per_gas: Option<u64> = decode_added(buf, after)?;
        let withdrawals_root: Option<B256> = decode_added(buf, after)?;
        let blob_gas_used: Option<u64> = decode_added(buf, after)?;
        let excess_blob_gas: Option<u64> = decode_added(buf, after)?;
        let parent_beacon_block_root: Option<B256> = decode_added(buf, after)?;
        let requests_hash: Option<B256> = decode_added(buf, after)?;
        finish_list(payload_length, started_len, buf.len())?;
        Ok(
            Header {
                base_fee_per_gas,
                withdrawals_root,
                blob_gas_used,
                excess_blob_gas,
                parent_beacon_block_root,
                requests_hash,
                ..header
            },
        )
    }
}

// ---------------------------------------------------------------------------
// What is written is read back
// ---------------------------------------------------------------------------

/// A field is read back.
proof fn lemma_field_restores<F: Encodable + Decodable>(
    h: HeaderValue,
    v: F::Value,
    rest: Seq<u8>,
    set: spec_fn(HeaderValue, F::Value) -> HeaderValue,
)
    requires
        restores::<F>(v),
    ensures
        field::<F>((Ok(h), F::rlp(v) + rest), set) == (Ok::<HeaderValue, Error>(set(h, v)), rest),
{
    assert(F::parse(F::rlp(v) + rest) == (Ok::<F::Value, Error>(v), rest));
}

/// An added field is read back, where nothing but what lies behind the list
/// follows a missing one.
proof fn lemma_added_restores<F: Encodable + Decodable>(
    h: HeaderValue,
    v: Option<F::Value>,
    rest: Seq<u8>,
    after: nat,
    set: spec_fn(HeaderValue, Option<F::Value>) -> HeaderValue,
)
    requires
        v is Some ==> restores::<F>(v->0) && rest.len() >= after,
        v is None ==> rest.len() == after,
    ensures
        added::<F>((Ok(h), present_rlp::<F>(v) + rest), after, set) == (
            Ok::<HeaderValue, Error>(set(h, v)),
            rest,
        ),
{
    if let Some(x) = v {
        assert(F::parse(F::rlp(x) + rest) == (Ok::<F::Value, Error>(x), rest));
    } else {
        assert(present_rlp::<F>(v) + rest =~= rest);
    }
}

/// The fields that every header has, followed by `rest`, from the first on.
spec fn required_before(v: HeaderValue, rest: Seq<u8>) -> Seq<u8> {
    let rest = B64::rlp(v.nonce) + rest;
    let rest = B256::rlp(v.mix_hash) + rest;
    let rest = Bytes::rlp(v.extra_data) + rest;
    let rest = u64::rlp(v.timestamp) + rest;
    let rest = u64::rlp(v.gas_used) + rest;
    let rest = u64::rlp(v.gas_limit) + rest;
    let rest = u64::rlp(v.number) + rest;
    let rest = U256::rlp(v.difficulty) + rest;
    let rest = Bloom::rlp(v.logs_bloom) + rest;
    let rest = B256::rlp(v.receipts_root) + rest;
    let rest = B256::rlp(v.transactions_root) + rest;
    let rest = B256::rlp(v.state_root) + rest;
    let rest = Address::rlp(v.beneficiary) + rest;
    let rest = B256::rlp(v.ommers_hash) + rest;
    B256::rlp(v.parent_hash) + rest
}

/// The fields that every header has are written one after the other.
proof fn lemma_required_before(v: HeaderValue, rest: Seq<u8>)
    ensures
        v.required_rlp() + rest == required_before(v, rest),
        v.extra_data.len() <= v.required_rlp().len(),
{
    let parent_hash = B256::rlp(v.parent_hash);
    let ommers_hash = B256::rlp(v.ommers_hash);
    let beneficiary = Address::rlp(v.beneficiary);
    let state_root = B256::rlp(v.state_root);
    let transactions_root = B256::rlp(v.transactions_root);
    let receipts_root = B256::rlp(v.receipts_root);
    let logs_bloom = Bloom::rlp(v.logs_bloom);
    let difficulty = U256::rlp(v.difficulty);
    let number = u64::rlp(v.number);
    let gas_limit = u64::rlp(v.gas_limit);
    let gas_used = u64::rlp(v.gas_used);
    let timestamp = u64::rlp(v.timestamp);
    let extra_data = Bytes::rlp(v.extra_data);
    let mix_hash = B256::rlp(v.mix_hash);
    let nonce = B64::rlp(v.nonce);
    assert(v.extra_data.len() <= extra_data.len());
    let upto = parent_hash;
    let from_nonce = nonce + rest;
    let from_mix_hash = mix_hash + from_nonce;
    let from_extra_data = extra_data + from_mix_hash;
    let from_timestamp = timestamp + from_extra_data;
    let from_gas_used = gas_used + from_timestamp;
    let from_gas_limit = gas_limit + from_gas_used;
    let from_number = number + from_gas_limit;
    let from_difficulty = difficulty + from_number;
    let from_logs_bloom = logs_bloom + from_difficulty;
    let from_receipts_root = receipts_root + from_logs_bloom;
    let from_transactions_root = transactions_root + from_receipts_root;
    let from_state_root = state_root + from_transactions_root;
    let from_beneficiary = beneficiary + from_state_root;
    let from_ommers_hash = ommers_hash + from_beneficiary;
    lemma_assoc(upto, ommers_hash, from_beneficiary);
    let upto = upto + ommers_hash;
    lemma_assoc(upto, beneficiary, from_state_root);
    let upto = upto + beneficiary;
    lemma_assoc(upto, state_root, from_transactions_root);
    let upto = upto + state_root;
    lemma_assoc(upto, transactions_root, from_receipts_root);
    let upto = upto + transactions_root;
    lemma_assoc(upto, receipts_root, from_logs_bloom);
    let upto = upto + receipts_root;
    lemma_assoc(upto, logs_bloom, from_difficulty);
    let upto = upto + logs_bloom;
    lemma_assoc(upto, difficulty, from_number);
    let upto = upto + difficulty;
    lemma_assoc(upto, number, from_gas_limit);
    let upto = upto + number;
    lemma_assoc(upto, gas_limit, from_gas_used);
    let upto = upto + gas_limit;
    lemma_assoc(upto, gas_used, from_timestamp);
    let upto = upto + gas_used;
    lemma_assoc(upto, timestamp, from_extra_data);
    let upto = upto + timestamp;
    lemma_assoc(upto, extra_data, from_mix_hash);
    let upto = upto + extra_data;
    lemma_assoc(upto, mix_hash, from_nonce);
    let upto = upto + mix_hash;
    lemma_assoc(upto, nonce, rest);
}

/// The fields that every header has are read back.
#[verifier::rlimit(30)]
proof fn lemma_required_restore(v: HeaderValue, rest: Seq<u8>)
    requires
        v.extra_data.len() <= usize::MAX,
    ensures
        parse_required(v.required_rlp() + rest) == (
            Ok::<HeaderValue, Error>(
                HeaderValue {
                    base_fee_per_gas: None,
                    withdrawals_root: None,
                    blob_gas_used: None,
                    excess_blob_gas: None,
                    parent_beacon_block_root: None,
                    requests_hash: None,
                    ..v
                },
            ),
            rest,
        ),
{
    lemma_required_before(v, rest);
    let from_nonce = B64::rlp(v.nonce) + rest;
    let from_mix_hash = B256::rlp(v.mix_hash) + from_nonce;
    let from_extra_data = Bytes::rlp(v.extra_data) + from_mix_hash;
    let from_timestamp = u64::rlp(v.timestamp) + from_extra_data;
    let from_gas_used = u64::rlp(v.gas_used) + from_timestamp;
    let from_gas_limit = u64::rlp(v.gas_limit) + from_gas_used;
    let from_number = u64::rlp(v.number) + from_gas_limit;
    let from_difficulty = U256::rlp(v.difficulty) + from_number;
    let from_logs_bloom = Bloom::rlp(v.logs_bloom) + from_difficulty;
    let from_receipts_root = B256::rlp(v.receipts_root) + from_logs_bloom;
    let from_transactions_root = B256::rlp(v.transactions_root) + from_receipts_root;
    let from_state_root = B256::rlp(v.state_root) + from_transactions_root;
    let from_beneficiary = Address::rlp(v.beneficiary) + from_state_root;
    let from_ommers_hash = B256::rlp(v.ommers_hash) + from_beneficiary;
    let from_parent_hash = B256::rlp(v.parent_hash) + from_ommers_hash;
    let h: HeaderValue = HeaderValue {
        base_fee_per_gas: None,
        withdrawals_root: None,
        blob_gas_used: None,
        excess_blob_gas: None,
        parent_beacon_block_root: None,
        requests_hash: None,
        ..arbitrary()
    };
    let set = |h: HeaderValue, v: B256| HeaderValue { parent_hash: v, ..h };
    assert(field::<B256>((Ok(h), from_parent_hash), set) == (
        Ok::<HeaderValue, Error>(set(h, v.parent_hash)),
        from_ommers_hash,
    )) by {
        lemma_fixed_restores(v.parent_hash);
        lemma_field_restores::<B256>(h, v.parent_hash, from_ommers_hash, set);
    }
    let h = set(h, v.parent_hash);
    let set = |h: HeaderValue, v: B256| HeaderValue { ommers_hash: v, ..h };
    assert(field::<B256>((Ok(h), from_ommers_hash), set) == (
        Ok::<HeaderValue, Error>(set(h, v.ommers_hash)),
        from_beneficiary,
    )) by {
        lemma_fixed_restores(v.ommers_hash);
        lemma_field_restores::<B256>(h, v.ommers_hash, from_beneficiary, set);
    }
    let h = set(h, v.ommers_hash);
    let set = |h: HeaderValue, v: Address| HeaderValue { beneficiary: v, ..h };
    assert(field::<Address>((Ok(h), from_beneficiary), set) == (
        Ok::<HeaderValue, Error>(set(h, v.beneficiary)),
        from_state_root,
    )) by {
        lemma_fixed_restores(v.beneficiary);
        lemma_field_restores::<Address>(h, v.beneficiary, from_state_root, set);
    }
    let h = set(h, v.beneficiary);
    let set = |h: HeaderValue, v: B256| HeaderValue { state_root: v, ..h };
    assert(field::<B256>((Ok(h), from_state_root), set) == (
        Ok::<HeaderValue, Error>(set(h, v.state_root)),
        from_transactions_root,
    )) by {
        lemma_fixed_restores(v.state_root);
        lemma_field_restores::<B256>(h, v.state_root, from_transactions_root, set);
    }
    let h = set(h, v.state_root);
    let set = |h: HeaderValue, v: B256| HeaderValue { transactions_root: v, ..h };
    assert(field::<B256>((Ok(h), from_transactions_root), set) == (
        Ok::<HeaderValue, Error>(set(h, v.transactions_root)),
        from_receipts_root,
    )) by {
        lemma_fixed_restores(v.transactions_root);
        lemma_field_restores::<B256>(h, v.transactions_root, from_receipts_root, set);
    }
    let h = set(h, v.transactions_root);
    let set = |h: HeaderValue, v: B256| HeaderValue { receipts_root: v, ..h };
    assert(field::<B256>((Ok(h), from_receipts_root), set) == (
        Ok::<HeaderValue, Error>(set(h, v.receipts_root)),
        from_logs_bloom,
    )) by {
        lemma_fixed_restores(v.receipts_root);
        lemma_field_restores::<B256>(h, v.receipts_root, from_logs_bloom, set);
    }
    let h = set(h, v.receipts_root);
    let set = |h: HeaderValue, v: Bloom| HeaderValue { logs_bloom: v, ..h };
    assert(field::<Bloom>((Ok(h), from_logs_bloom), set) == (
        Ok::<HeaderValue, Error>(set(h, v.logs_bloom)),
        from_difficulty,
    )) by {
        lemma_fixed_restores(v.logs_bloom);
        lemma_field_restores::<Bloom>(h, v.logs_bloom, from_difficulty, set);
    }
    let h = set(h, v.logs_bloom);
    let set = |h: HeaderValue, v: U256| HeaderValue { difficulty: v, ..h };
    assert(field::<U256>((Ok(h), from_difficulty), set) == (
        Ok::<HeaderValue, Error>(set(h, v.difficulty)),
        from_number,
    )) by {
        lemma_u256_restores(v.difficulty);
        lemma_field_restores::<U256>(h, v.difficulty, from_number, set);
    }
    let h = set(h, v.difficulty);
    let set = |h: HeaderValue, v: u64| HeaderValue { number: v, ..h };
    assert(field::<u64>((Ok(h), from_number), set) == (
        Ok::<HeaderValue, Error>(set(h, v.number)),
        from_gas_limit,
    )) by {
        lemma_u64_restores(v.number);
        lemma_field_restores::<u64>(h, v.number, from_gas_limit, set);
    }
    let h = set(h, v.number);
    let set = |h: HeaderValue, v: u64| HeaderValue { gas_limit: v, ..h };
    assert(field::<u64>((Ok(h), from_gas_limit), set) == (
        Ok::<HeaderValue, Error>(set(h, v.gas_limit)),
        from_gas_used,
    )) by {
        lemma_u64_restores(v.gas_limit);
        lemma_field_restores::<u64>(h, v.gas_limit, from_gas_used, set);
    }
    let h = set(h, v.gas_limit);
    let set = |h: HeaderValue, v: u64| HeaderValue { gas_used: v, ..h };
    assert(field::<u64>((Ok(h), from_gas_used), set) == (
        Ok::<HeaderValue, Error>(set(h, v.gas_used)),
        from_timestamp,
    )) by {
        lemma_u64_restores(v.gas_used);
        lemma_field_restores::<u64>(h, v.gas_used, from_timestamp, set);
    }
    let h = set(h, v.gas_used);
    let set = |h: HeaderValue, v: u64| HeaderValue { timestamp: v, ..h };
    assert(field::<u64>((Ok(h), from_timestamp), set) == (
        Ok::<HeaderValue, Error>(set(h, v.timestamp)),
        from_extra_data,
    )) by {
        lemma_u64_restores(v.timestamp);
        lemma_field_restores::<u64>(h, v.timestamp, from_extra_data, set);
    }
    let h = set(h, v.timestamp);
    let set = |h: HeaderValue, v: Seq<u8>| HeaderValue { extra_data: v, ..h };
    assert(field::<Bytes>((Ok(h), from_extra_data), set) == (
        Ok::<HeaderValue, Error>(set(h, v.extra_data)),
        from_mix_hash,
    )) by {
        lemma_bytes_restores(v.extra_data);
        lemma_field_restores::<Bytes>(h, v.extra_data, from_mix_hash, set);
    }
    let h = set(h, v.extra_data);
    let set = |h: HeaderValue, v: B256| HeaderValue { mix_hash: v, ..h };
    assert(field::<B256>((Ok(h), from_mix_hash), set) == (
        Ok::<HeaderValue, Error>(set(h, v.mix_hash)),
        from_nonce,
    )) by {
        lemma_fixed_restores(v.mix_hash);
        lemma_field_restores::<B256>(h, v.mix_hash, from_nonce, set);
    }
    let h = set(h, v.mix_hash);
    let set = |h: HeaderValue, v: B64| HeaderValue { nonce: v, ..h };
    assert(field::<B64>((Ok(h), from_nonce), set) == (
        Ok::<HeaderValue, Error>(set(h, v.nonce)),
        rest,
    )) by {
        lemma_fixed_restores(v.nonce);
        lemma_field_restores::<B64>(h, v.nonce, rest, set);
    }
    let h = set(h, v.nonce);
}

/// The fields that later forks have added, followed by `rest`, from the first
/// on.
spec fn added_before(v: HeaderValue, rest: Seq<u8>) -> Seq<u8> {
    let rest = present_rlp::<B256>(v.requests_hash) + rest;
    let rest = present_rlp::<B256>(v.parent_beacon_block_root) + rest;
    let rest = present_rlp::<u64>(v.excess_blob_gas) + rest;
    let rest = present_rlp::<u64>(v.blob_gas_used) + rest;
    let rest = present_rlp::<B256>(v.withdrawals_root) + rest;
    present_rlp::<u64>(v.base_fee_per_gas) + rest
}

/// The fields that later forks have added are written one after the other.
proof fn lemma_added_before(v: HeaderValue, rest: Seq<u8>)
    ensures
        v.added_rlp() + rest == added_before(v, rest),
{
    let base_fee_per_gas = present_rlp::<u64>(v.base_fee_per_gas);
    let withdrawals_root = present_rlp::<B256>(v.withdrawals_root);
    let blob_gas_used = present_rlp::<u64>(v.blob_gas_used);
    let excess_blob_gas = present_rlp::<u64>(v.excess_blob_gas);
    let parent_beacon_block_root = present_rlp::<B256>(v.parent_beacon_block_root);
    let requests_hash = present_rlp::<B256>(v.requests_hash);
    let from_requests_hash = requests_hash + rest;
    let from_parent_beacon_block_root = parent_beacon_block_root + from_requests_hash;
    let from_excess_blob_gas = excess_blob_gas + from_parent_beacon_block_root;
    let from_blob_gas_used = blob_gas_used + from_excess_blob_gas;
    let from_withdrawals_root = withdrawals_root + from_blob_gas_used;
    let upto = base_fee_per_gas;
    lemma_assoc(upto, withdrawals_root, from_blob_gas_used);
    let upto = upto + withdrawals_root;
    lemma_assoc(upto, blob_gas_used, from_excess_blob_gas);
    let upto = upto + blob_gas_used;
    lemma_assoc(upto, excess_blob_gas, from_parent_beacon_block_root);
    let upto = upto + excess_blob_gas;
    lemma_assoc(upto, parent_beacon_block_root, from_requests_hash);
    let upto = upto + parent_beacon_block_root;
    lemma_assoc(upto, requests_hash, rest);
}

/// The fields that later forks have added are read back.
#[verifier::rlimit(30)]
proof fn lemma_added_all_restore(v: HeaderValue, h: HeaderValue, rest: Seq<u8>)
    requires
        v.gapless(),
    ensures
        parse_added((Ok(h), v.added_rlp() + rest), rest.len()) == (
            Ok::<HeaderValue, Error>(
                HeaderValue {
                    base_fee_per_gas: v.base_fee_per_gas,
                    withdrawals_root: v.withdrawals_root,
                    blob_gas_used: v.blob_gas_used,
                    excess_blob_gas: v.excess_blob_gas,
                    parent_beacon_block_root: v.parent_beacon_block_root,
                    requests_hash: v.requests_hash,
                    ..h
                },
            ),
            rest,
        ),
{
    lemma_added_before(v, rest);
    let after = rest.len();
    let from_requests_hash = present_rlp::<B256>(v.requests_hash) + rest;
    assert(from_requests_hash.len() >= after);
    assert(v.requests_hash is None ==> from_requests_hash.len() == after);
    let from_parent_beacon_block_root = present_rlp::<B256>(v.parent_beacon_block_root)
        + from_requests_hash;
    assert(from_parent_beacon_block_root.len() >= after);
    assert(v.parent_beacon_block_root is None ==> from_parent_beacon_block_root.len() == after);
    let from_excess_blob_gas = present_rlp::<u64>(v.excess_blob_gas)
        + from_parent_beacon_block_root;
    assert(from_excess_blob_gas.len() >= after);
    assert(v.excess_blob_gas is None ==> from_excess_blob_gas.len() == after);
    let from_blob_gas_used = present_rlp::<u64>(v.blob_gas_used) + from_excess_blob_gas;
    assert(from_blob_gas_used.len() >= after);
    assert(v.blob_gas_used is None ==> from_blob_gas_used.len() == after);
    let from_withdrawals_root = present_rlp::<B256>(v.withdrawals_root) + from_blob_gas_used;
    assert(from_withdrawals_root.len() >= after);
    assert(v.withdrawals_root is None ==> from_withdrawals_root.len() == after);
    let from_base_fee_per_gas = present_rlp::<u64>(v.base_fee_per_gas) + from_withdrawals_root;
    assert(from_base_fee_per_gas.len() >= after);
    assert(v.base_fee_per_gas is None ==> from_base_fee_per_gas.len() == after);
    let set = |h: HeaderValue, v: Option<u64>| HeaderValue { base_fee_per_gas: v, ..h };
    assert(added::<u64>((Ok(h), from_base_fee_per_gas), after, set) == (
        Ok::<HeaderValue, Error>(set(h, v.base_fee_per_gas)),
        from_withdrawals_root,
    )) by {
        if let Some(x) = v.base_fee_per_gas {
            lemma_u64_restores(x);
        }
        lemma_added_restores::<u64>(h, v.base_fee_per_gas, from_withdrawals_root, after, set);
    }
    let h = set(h, v.base_fee_per_gas);
    let set = |h: HeaderValue, v: Option<B256>| HeaderValue { withdrawals_root: v, ..h };
    assert(added::<B256>((Ok(h), from_withdrawals_root), after, set) == (
        Ok::<HeaderValue, Error>(set(h, v.withdrawals_root)),
        from_blob_gas_used,
    )) by {
        if let Some(x) = v.withdrawals_root {
            lemma_fixed_restores(x);
        }
        lemma_added_restores::<B256>(h, v.withdrawals_root, from_blob_gas_used, after, set);
    }
    let h = set(h, v.withdrawals_root);
    let set = |h: HeaderValue, v: Option<u64>| HeaderValue { blob_gas_used: v, ..h };
    assert(added::<u64>((Ok(h), from_blob_gas_used), after, set) == (
        Ok::<HeaderValue, Error>(set(h, v.blob_gas_used)),
        from_excess_blob_gas,
    )) by {
        if let Some(x) = v.blob_gas_used {
            lemma_u64_restores(x);
        }
        lemma_added_restores::<u64>(h, v.blob_gas_used, from_excess_blob_gas, after, set);
    }
    let h = set(h, v.blob_gas_used);
    let set = |h: HeaderValue, v: Option<u64>| HeaderValue { excess_blob_gas: v, ..h };
    assert(added::<u64>((Ok(h), from_excess_blob_gas), after, set) == (
        Ok::<HeaderValue, Error>(set(h, v.excess_blob_gas)),
        from_parent_beacon_block_root,
    )) by {
        if let Some(x) = v.excess_blob_gas {
            lemma_u64_restores(x);
        }
        lemma_added_restores::<u64>(
            h,
            v.excess_blob_gas,
            from_parent_beacon_block_root,
            after,
            set,
        );
    }
    let h = set(h, v.excess_blob_gas);
    let set = |h: HeaderValue, v: Option<B256>| HeaderValue { parent_beacon_block_root: v, ..h };
    assert(added::<B256>((Ok(h), from_parent_beacon_block_root), after, set) == (
        Ok::<HeaderValue, Error>(set(h, v.parent_beacon_block_root)),
        from_requests_hash,
    )) by {
        if let Some(x) = v.parent_beacon_block_root {
            lemma_fixed_restores(x);
        }
        lemma_added_restores::<B256>(h, v.parent_beacon_block_root, from_requests_hash, after, set);
    }
    let h = set(h, v.parent_beacon_block_root);
    let set = |h: HeaderValue, v: Option<B256>| HeaderValue { requests_hash: v, ..h };
    assert(added::<B256>((Ok(h), from_requests_hash), after, set) == (
        Ok::<HeaderValue, Error>(set(h, v.requests_hash)),
        rest,
    )) by {
        if let Some(x) = v.requests_hash {
            lemma_fixed_restores(x);
        }
        lemma_added_restores::<B256>(h, v.requests_hash, rest, after, set);
    }
    let h = set(h, v.requests_hash);
}

/// The fields of a header are read back.
proof fn lemma_fields_restore(v: HeaderValue, rest: Seq<u8>)
    requires
        v.gapless(),
        v.extra_data.len() <= usize::MAX,
    ensures
        parse_added(parse_required(v.fields_rlp() + rest), rest.len()) == (
            Ok::<HeaderValue, Error>(v),
            rest,
        ),
{
    let added = v.added_rlp() + rest;
    lemma_assoc(v.required_rlp(), v.added_rlp(), rest);
    lemma_required_restore(v, added);
    lemma_added_all_restore(v, parse_required(v.required_rlp() + added).0->Ok_0, rest);
}

/// A header whose fields are read back is so in its list.
proof fn lemma_in_list(v: HeaderValue, payload: Seq<u8>, rest: Seq<u8>)
    requires
        payload.len() <= usize::MAX,
        parse_added(parse_required(payload + rest), rest.len()) == (
            Ok::<HeaderValue, Error>(v),
            rest,
        ),
    ensures
        Header::parse(list_rlp(payload) + rest) == (Ok::<HeaderValue, Error>(v), rest),
{
    lemma_head_restores(true, payload, rest);
}

/// What a header writes it reads back, where no field of a later fork is there
/// without those before it.
pub proof fn lemma_header_restores(v: HeaderValue)
    requires
        v.gapless(),
        Header::rlp(v).len() <= usize::MAX,
    ensures
        restores::<Header>(v),
{
    assert forall|rest: Seq<u8>|
        Header::parse(#[trigger] (Header::rlp(v) + rest)) == (
            Ok::<HeaderValue, Error>(v),
            rest,
        ) by {
        lemma_required_before(v, rest);
        lemma_fields_restore(v, rest);
        lemma_in_list(v, v.fields_rlp(), rest);
    }
}

// ---------------------------------------------------------------------------
// Hashing
// ---------------------------------------------------------------------------

impl Sealable for Header {
    open spec fn seal_hash(&self) -> Seq<u8> {
        keccak256_digest(Header::rlp(self.value()))
    }

    fn hash_slow(&self) -> (res: B256)
        ensures
            res@ == keccak256_digest(Header::rlp(self.value())),
    {
        let mut out: Vec<u8> = Vec::new();
        self.encode(&mut out);
        assert(out@ =~= Header::rlp(self.value()));
        keccak256(out.as_slice())
    }
}

impl Header {
    /// Decodes the header from RLP, computing its hash directly from the RLP bytes.
    pub fn decode_sealed(buf: &mut &[u8]) -> (res: Result<Sealed<Self>, Error>)
        ensures
            final(buf)@ == Header::parse(old(buf)@).1,
            match res {
                Ok(sealed) => {
                    &&& Header::parse(old(buf)@).0 == Ok::<HeaderValue, Error>(
                        sealed.sealed_inner().value(),
                    )
                    &&& sealed.sealed_hash()@ == keccak256_digest(
                        old(buf)@.take(old(buf)@.len() - final(buf)@.len()),
                    )
                },
                Err(e) => Header::parse(old(buf)@).0 == Err::<HeaderValue, Error>(e),
            },
    {
        let start: &[u8] = *buf;
        proof {
            Header::parse_consumes(buf@);
        }
        let header = Header::decode(buf)?;
        let header_rlp: &[u8] = vstd::slice::slice_subrange(start, 0, start.len() - buf.len());
        assert(header_rlp@ =~= start@.take(start@.len() - buf@.len()));
        Ok(Sealed::new_unchecked(header, keccak256(header_rlp)))
    }
}

} // verus!
