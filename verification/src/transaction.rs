//! Transactions in their EIP-2718 envelopes.

use crate::bytes::{Bytes, B256};
use crate::rlp::{
    decode_head, decode_list_head, decode_payload, encode_string, lemma_head_bounds, list_rlp,
    open_list, parse_head, parse_payload, restores, string_rlp, Decodable, Encodable, Parsed,
    RlpValue,
};
use crate::rlp_laws::{lemma_head_restores, lemma_string_restores};
use alloy_rlp::Error;
use vstd::prelude::*;

verus! {

/// The type of a legacy transaction, which has no type byte.
pub const LEGACY_TX_TYPE_ID: u8 = 0;

/// The type of an EIP-4844 blob transaction.
pub const EIP4844_TX_TYPE_ID: u8 = 3;

/// The type of an EIP-7702 transaction.
pub const EIP7702_TX_TYPE_ID: u8 = 4;

/// The largest type that a transaction can have.
pub const MAX_TX_TYPE_ID: u8 = 0x7f;

/// A value with an EIP-2718 type.
pub trait Typed2718 {
    /// The type.
    spec fn tx_type(&self) -> u8;

    /// Returns the EIP-2718 type flag.
    fn ty(&self) -> (res: u8)
        ensures
            res == self.tx_type(),
    ;

    /// Returns true if the type is an EIP-4844 transaction.
    fn is_eip4844(&self) -> (res: bool)
        ensures
            res == (self.tx_type() == EIP4844_TX_TYPE_ID),
    {
        self.ty() == EIP4844_TX_TYPE_ID
    }

    /// Returns true if the type is an EIP-7702 transaction.
    fn is_eip7702(&self) -> (res: bool)
        ensures
            res == (self.tx_type() == EIP7702_TX_TYPE_ID),
    {
        self.ty() == EIP7702_TX_TYPE_ID
    }
}

/// A value with an EIP-2718 envelope.
pub trait Encodable2718: Typed2718 + Sized {
    /// The envelope: the type flag, unless there is none, and the body.
    spec fn envelope(&self) -> Seq<u8>;

    /// Appends the envelope to `out`.
    fn encode_2718(&self, out: &mut Vec<u8>)
        ensures
            final(out)@ == old(out)@ + self.envelope(),
    ;

    /// Returns the envelope.
    fn encoded_2718(&self) -> (res: Vec<u8>)
        ensures
            res@ == self.envelope(),
    {
        let mut out: Vec<u8> = Vec::new();
        self.encode_2718(&mut out);
        assert(out@ =~= self.envelope());
        out
    }

    /// Encodes the value and pairs it with its envelope.
    fn into_encoded(self) -> (res: WithEncoded<Self>)
        ensures
            res.1 == self,
            res.0@ == self.envelope(),
    {
        let bytes: Vec<u8> = self.encoded_2718();
        WithEncoded(Bytes(bytes), self)
    }
}

/// A value paired with its EIP-2718 envelope.
#[derive(Clone, Debug, PartialEq, Eq)]
pub struct WithEncoded<T>(pub Bytes, pub T);

/// A transaction.
pub trait Transaction: Typed2718 {
    /// The versioned hashes of the blobs, where the transaction carries any.
    spec fn blob_hashes(&self) -> Option<Seq<B256>>;

    /// Returns the versioned hashes of the blobs, where the transaction carries any.
    fn blob_versioned_hashes(&self) -> (res: Option<Vec<B256>>)
        ensures
            self.blob_hashes() == (match res {
                Some(hashes) => Some(hashes@),
                None => None,
            }),
    ;
}

/// A transaction in its envelope, with contents that stay encoded.
#[derive(Clone, Debug, PartialEq, Eq)]
pub struct TxEnvelope {
    /// The type of the transaction.
    pub ty: u8,
    /// The body behind the type flag. A legacy transaction has no flag: its
    /// body is the RLP list of its fields.
    pub body: Bytes,
}

/// The contents of a transaction in its envelope.
#[verifier::ext_equal]
pub struct TxValue {
    /// The type of the transaction.
    pub ty: u8,
    /// The body behind the type flag.
    pub body: Seq<u8>,
}

impl TxValue {
    /// Whether the body is one that can stand behind the type: a list in a
    /// legacy transaction, anything in another one.
    pub open spec fn well_formed(self) -> bool {
        if self.ty == LEGACY_TX_TYPE_ID {
            exists|fields: Seq<u8>| self.body == #[trigger] list_rlp(fields)
        } else {
            self.ty <= MAX_TX_TYPE_ID
        }
    }

    /// The envelope.
    pub open spec fn envelope(self) -> Seq<u8> {
        if self.ty == LEGACY_TX_TYPE_ID {
            self.body
        } else {
            seq![self.ty] + self.body
        }
    }
}

impl RlpValue for TxEnvelope {
    type Value = TxValue;

    open spec fn value(&self) -> TxValue {
        TxValue { ty: self.ty, body: self.body@ }
    }
}

impl Typed2718 for TxEnvelope {
    open spec fn tx_type(&self) -> u8 {
        self.ty
    }

    fn ty(&self) -> (res: u8) {
        self.ty
    }
}

impl Encodable2718 for TxEnvelope {
    open spec fn envelope(&self) -> Seq<u8> {
        self.value().envelope()
    }

    fn encode_2718(&self, out: &mut Vec<u8>) {
        if self.ty != LEGACY_TX_TYPE_ID {
            out.push(self.ty);
        }
        out.extend_from_slice(self.body.as_slice());
        assert(out@ =~= old(out)@ + self.envelope());
    }
}

/// What is left behind the first `k` items of `buf`.
pub open spec fn behind_items(buf: Seq<u8>, k: nat) -> Option<Seq<u8>>
    decreases k,
{
    if k == 0 {
        Some(buf)
    } else {
        match parse_head(buf) {
            (Ok(head), rest) => behind_items(
                rest.skip(head.payload_length as int),
                (k - 1) as nat,
            ),
            (Err(_), _) => None,
        }
    }
}

/// The blob versioned hashes in the body of an EIP-4844 transaction, a list
/// that has them behind ten other fields.
pub open spec fn body_blob_hashes(body: Seq<u8>) -> Option<Seq<B256>> {
    match open_list(body) {
        (Ok(_), fields) => match behind_items(fields, 10) {
            Some(rest) => Vec::<B256>::parse(rest).0.ok(),
            None => None,
        },
        (Err(_), _) => None,
    }
}

/// Reads the blob versioned hashes in the body of an EIP-4844 transaction.
fn decode_blob_hashes(body: &[u8]) -> (res: Option<Vec<B256>>)
    ensures
        body_blob_hashes(body@) == (match res {
            Some(hashes) => Some(hashes@),
            None => None,
        }),
{
    let mut buf: &[u8] = body;
    match decode_list_head(&mut buf) {
        Ok(_) => {},
        Err(_) => return None,
    }
    let ghost fields = buf@;
    let mut left: u8 = 10;
    while left > 0
        invariant
            left <= 10,
            open_list(body@).0 is Ok,
            open_list(body@).1 == fields,
            behind_items(buf@, left as nat) == behind_items(fields, 10),
        decreases left,
    {
        proof {
            lemma_head_bounds(buf@);
        }
        match decode_head(&mut buf) {
            Ok(head) => {
                buf = vstd::slice::slice_subrange(buf, head.payload_length, buf.len());
            },
            Err(_) => return None,
        }
        left = left - 1;
    }
    match Vec::<B256>::decode(&mut buf) {
        Ok(hashes) => {
            assert(hashes.value() =~= hashes@);
            Some(hashes)
        },
        Err(_) => None,
    }
}

impl Transaction for TxEnvelope {
    open spec fn blob_hashes(&self) -> Option<Seq<B256>> {
        if self.ty == EIP4844_TX_TYPE_ID {
            body_blob_hashes(self.body@)
        } else {
            None
        }
    }

    fn blob_versioned_hashes(&self) -> (res: Option<Vec<B256>>) {
        if self.ty == EIP4844_TX_TYPE_ID {
            decode_blob_hashes(self.body.as_slice())
        } else {
            None
        }
    }
}

impl Encodable for TxEnvelope {
    open spec fn rlp(v: TxValue) -> Seq<u8> {
        if v.ty == LEGACY_TX_TYPE_ID {
            v.body
        } else {
            string_rlp(v.envelope())
        }
    }

    fn encode(&self, out: &mut Vec<u8>) {
        if self.ty == LEGACY_TX_TYPE_ID {
            out.extend_from_slice(self.body.as_slice());
            assert(out@ =~= old(out)@ + self.body@);
        } else {
            let envelope: Vec<u8> = self.encoded_2718();
            encode_string(envelope.as_slice(), out);
        }
    }
}

/// Reads an envelope: a list is a legacy transaction, and a string holds the
/// type flag and the body of another one.
pub open spec fn parse_envelope(buf: Seq<u8>) -> Parsed<TxValue> {
    match parse_head(buf) {
        (Err(e), _) => (Err(e), buf),
        (Ok(head), rest) => if head.list {
            let tail = rest.skip(head.payload_length as int);
            (Ok(TxValue { ty: LEGACY_TX_TYPE_ID, body: buf.take(buf.len() - tail.len()) }), tail)
        } else {
            let (bytes, tail) = parse_payload(buf, false);
            if bytes->Ok_0.len() == 0 {
                (Err(Error::InputTooShort), tail)
            } else if bytes->Ok_0[0] == LEGACY_TX_TYPE_ID || bytes->Ok_0[0] > MAX_TX_TYPE_ID {
                (Err(Error::Custom("unexpected transaction type")), tail)
            } else {
                (Ok(TxValue { ty: bytes->Ok_0[0], body: bytes->Ok_0.skip(1) }), tail)
            }
        },
    }
}

/// A copy of `bytes`.
fn copy_bytes(bytes: &[u8]) -> (res: Bytes)
    ensures
        res@ == bytes@,
{
    let mut copy: Vec<u8> = Vec::new();
    copy.extend_from_slice(bytes);
    assert(copy@ =~= bytes@);
    Bytes(copy)
}

impl Decodable for TxEnvelope {
    open spec fn parse(buf: Seq<u8>) -> Parsed<TxValue> {
        parse_envelope(buf)
    }

    proof fn parse_consumes(buf: Seq<u8>) {
        lemma_head_bounds(buf);
    }

    fn decode(buf: &mut &[u8]) -> (res: Result<TxEnvelope, Error>) {
        let start: &[u8] = *buf;
        let mut ahead: &[u8] = start;
        proof {
            lemma_head_bounds(start@);
        }
        let head = decode_head(&mut ahead)?;
        if head.list {
            let tail: &[u8] = vstd::slice::slice_subrange(ahead, head.payload_length, ahead.len());
            let item: &[u8] = vstd::slice::slice_subrange(start, 0, start.len() - tail.len());
            assert(item@ =~= start@.take(start@.len() - tail@.len()));
            *buf = tail;
            Ok(TxEnvelope { ty: LEGACY_TX_TYPE_ID, body: copy_bytes(item) })
        } else {
            let bytes: &[u8] = decode_payload(buf, false)?;
            if bytes.len() == 0 {
                return Err(Error::InputTooShort);
            }
            let ty: u8 = bytes[0];
            if ty == LEGACY_TX_TYPE_ID || ty > MAX_TX_TYPE_ID {
                return Err(Error::Custom("unexpected transaction type"));
            }
            let body = copy_bytes(vstd::slice::slice_subrange(bytes, 1, bytes.len()));
            assert(body@ =~= bytes@.skip(1));
            Ok(TxEnvelope { ty, body })
        }
    }
}

/// What a transaction writes it reads back, where its body can stand behind its
/// type.
pub proof fn lemma_tx_restores(v: TxValue)
    requires
        v.well_formed(),
        TxEnvelope::rlp(v).len() <= usize::MAX,
    ensures
        restores::<TxEnvelope>(v),
{
    assert forall|rest: Seq<u8>|
        TxEnvelope::parse(#[trigger] (TxEnvelope::rlp(v) + rest)) == (
            Ok::<TxValue, Error>(v),
            rest,
        ) by {
        let buf = TxEnvelope::rlp(v) + rest;
        if v.ty == LEGACY_TX_TYPE_ID {
            let fields = choose|fields: Seq<u8>| v.body == #[trigger] list_rlp(fields);
            lemma_head_restores(true, fields, rest);
            assert((fields + rest).skip(fields.len() as int) =~= rest);
            assert(buf.take(buf.len() - rest.len()) =~= v.body);
        } else {
            lemma_string_restores(v.envelope(), rest);
            assert(v.envelope().skip(1) =~= v.body);
        }
    }
}

} // verus!
