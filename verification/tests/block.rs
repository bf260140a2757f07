//! Blocks and bodies: conversion, encoding and decoding.

use eth_block::{
    Address, Block, BlockBody, Bytes, Decodable, Encodable, FixedBytes, Header, Sealable,
    TxEnvelope, Withdrawal, Withdrawals,
};

/// A signed legacy transaction, as the RLP list of its fields.
struct SignedLegacy(Vec<u8>);

impl From<SignedLegacy> for TxEnvelope {
    fn from(tx: SignedLegacy) -> Self {
        TxEnvelope { ty: 0, body: Bytes(tx.0) }
    }
}

fn put_bytes(bytes: &[u8], out: &mut Vec<u8>) {
    alloy_rlp::Encodable::encode(bytes, out);
}

/// Transfers 1000 wei to the zero address on chain 1; the signature is
/// `r = 1`, `s = 2` with an even `y`.
fn signed_legacy() -> SignedLegacy {
    let mut fields = Vec::new();
    1u64.encode(&mut fields);
    100u64.encode(&mut fields);
    21000u64.encode(&mut fields);
    put_bytes(&[0; 20], &mut fields);
    1000u64.encode(&mut fields);
    put_bytes(&[], &mut fields);
    37u64.encode(&mut fields);
    1u64.encode(&mut fields);
    2u64.encode(&mut fields);

    let mut list = Vec::new();
    alloy_rlp::Header { list: true, payload_length: fields.len() }.encode(&mut list);
    list.extend_from_slice(&fields);
    SignedLegacy(list)
}

fn address(last: u8) -> Address {
    let mut bytes = [0; 20];
    bytes[19] = last;
    FixedBytes(bytes)
}

fn sample_withdrawals() -> Withdrawals {
    Withdrawals::new(vec![Withdrawal {
        index: 7,
        validator_index: u64::MAX,
        address: address(0xaa),
        amount: 123_456,
    }])
}

/// SSZ encoding of an empty `BridgeRequests { messages: [] }` container: a single 4-byte
/// offset.
const EMPTY_BRIDGE_SSZ: [u8; 4] = [0x04, 0x00, 0x00, 0x00];

fn encoded<E: Encodable>(value: &E) -> Vec<u8> {
    let mut out = Vec::new();
    value.encode(&mut out);
    out
}

/// Appends the fields that a body had before there were bridge requests.
fn put_pre_bridge_fields(
    transactions: &Vec<TxEnvelope>,
    ommers: &Vec<Header>,
    withdrawals: Option<&Withdrawals>,
    slashed: Option<&Withdrawals>,
    out: &mut Vec<u8>,
) {
    transactions.encode(out);
    ommers.encode(out);
    match (withdrawals, slashed) {
        (Some(w), _) => w.encode(out),
        (None, Some(_)) => out.push(0x80),
        (None, None) => {}
    }
    if let Some(s) = slashed {
        s.encode(out);
    }
}

fn in_list(payload: &[u8]) -> Vec<u8> {
    let mut out = Vec::new();
    alloy_rlp::Header { list: true, payload_length: payload.len() }.encode(&mut out);
    out.extend_from_slice(payload);
    out
}

#[test]
fn can_convert_block() {
    let block: Block<SignedLegacy> = Block::default();
    let _: Block<TxEnvelope> = block.convert_transactions();
}

#[test]
fn decode_sealed_produces_correct_hash() {
    let block: Block<TxEnvelope> = Block::default();
    let expected_hash = block.header.hash_slow();

    let mut encoded = Vec::new();
    block.encode(&mut encoded);

    let mut buf = encoded.as_slice();
    let sealed = Block::<TxEnvelope>::decode_sealed(&mut buf).unwrap();

    assert_eq!(sealed.hash(), expected_hash);
    assert_eq!(*sealed.inner(), block);
}

#[test]
fn header_decode_sealed_produces_correct_hash() {
    let header = Header::default();
    let expected_hash = header.hash_slow();

    let mut encoded = Vec::new();
    header.encode(&mut encoded);

    let mut buf = encoded.as_slice();
    let sealed = Header::decode_sealed(&mut buf).unwrap();

    assert_eq!(sealed.hash(), expected_hash);
    assert_eq!(*sealed.inner(), header);
    assert!(buf.is_empty());
}

#[test]
fn decode_sealed_roundtrip_with_transactions() {
    let envelope: TxEnvelope = signed_legacy().into();

    let block = Block {
        header: Header { number: 42, gas_limit: 30_000_000, ..Default::default() },
        body: BlockBody {
            transactions: vec![envelope],
            ommers: vec![],
            withdrawals: None,
            slashed: None,
            bridge_requests: None,
        },
    };

    let expected_hash = block.header.hash_slow();

    let mut encoded = Vec::new();
    block.encode(&mut encoded);

    let mut buf = encoded.as_slice();
    let sealed = Block::<TxEnvelope>::decode_sealed(&mut buf).unwrap();

    assert_eq!(sealed.hash(), expected_hash);
    assert_eq!(sealed.header.number, 42);
    assert_eq!(sealed.body.transactions.len(), 1);
    assert!(buf.is_empty());
    assert_eq!(*sealed.inner(), block);
}

#[test]
fn block_body_rejects_present_string_withdrawals() {
    let mut omitted: &[u8] = &[0xc2, 0xc0, 0xc0];
    let body = BlockBody::<TxEnvelope>::decode(&mut omitted).unwrap();
    assert!(body.withdrawals.is_none());
    assert!(omitted.is_empty());

    let mut present_empty: &[u8] = &[0xc3, 0xc0, 0xc0, 0xc0];
    let body = BlockBody::<TxEnvelope>::decode(&mut present_empty).unwrap();
    assert!(body.withdrawals.as_ref().is_some_and(|w| w.is_empty()));
    assert!(present_empty.is_empty());

    let mut present_string: &[u8] = &[0xc3, 0xc0, 0xc0, 0x80];
    assert!(BlockBody::<TxEnvelope>::decode(&mut present_string).is_err());
}

#[test]
fn block_decoders_reject_present_string_withdrawals() {
    fn block_rlp_with_body_fields(body_fields: &[u8]) -> Vec<u8> {
        let mut header = Vec::new();
        Header::default().encode(&mut header);

        let block_header =
            alloy_rlp::Header { list: true, payload_length: header.len() + body_fields.len() };
        let mut out = Vec::with_capacity(block_header.length_with_payload());
        block_header.encode(&mut out);
        out.extend_from_slice(&header);
        out.extend_from_slice(body_fields);
        out
    }

    let omitted = block_rlp_with_body_fields(&[0xc0, 0xc0]);
    assert!(Block::<TxEnvelope>::decode(&mut omitted.as_slice()).is_ok());
    assert!(Block::<TxEnvelope>::decode_sealed(&mut omitted.as_slice()).is_ok());

    let present_empty = block_rlp_with_body_fields(&[0xc0, 0xc0, 0xc0]);
    assert!(Block::<TxEnvelope>::decode(&mut present_empty.as_slice()).is_ok());
    assert!(Block::<TxEnvelope>::decode_sealed(&mut present_empty.as_slice()).is_ok());

    let present_string = block_rlp_with_body_fields(&[0xc0, 0xc0, 0x80]);
    assert!(Block::<TxEnvelope>::decode(&mut present_string.as_slice()).is_err());
    assert!(Block::<TxEnvelope>::decode_sealed(&mut present_string.as_slice()).is_err());
}

#[test]
fn block_body_slashed_rlp_roundtrip() {
    let body = BlockBody::<TxEnvelope, Header> {
        transactions: vec![],
        ommers: vec![],
        withdrawals: Some(Withdrawals::default()),
        slashed: Some(Withdrawals::new(vec![Withdrawal {
            index: 0,
            validator_index: 42,
            address: address(0x01),
            amount: 1_000_000_000,
        }])),
        bridge_requests: None,
    };

    let mut encoded = Vec::new();
    body.encode(&mut encoded);

    let decoded = BlockBody::<TxEnvelope, Header>::decode(&mut encoded.as_slice()).unwrap();
    assert_eq!(body, decoded);
}

/// A body with `bridge_requests: None` must encode byte-identically to the shape without that
/// field, so pre-Bridge blocks keep their historical encoding.
#[test]
fn block_body_pre_bridge_encoding_byte_identical() {
    let cases: Vec<(Option<Withdrawals>, Option<Withdrawals>)> = vec![
        (None, None),
        (Some(Withdrawals::default()), None),
        (Some(sample_withdrawals()), None),
        (Some(sample_withdrawals()), Some(sample_withdrawals())),
        (None, Some(sample_withdrawals())),
    ];
    for (withdrawals, slashed) in cases {
        let mut payload = Vec::new();
        put_pre_bridge_fields(
            &vec![],
            &vec![],
            withdrawals.as_ref(),
            slashed.as_ref(),
            &mut payload,
        );
        let old_encoded = in_list(&payload);
        let new = BlockBody::<TxEnvelope, Header> {
            transactions: vec![],
            ommers: vec![],
            withdrawals,
            slashed,
            bridge_requests: None,
        };

        let mut new_encoded = Vec::new();
        new.encode(&mut new_encoded);
        assert_eq!(old_encoded, new_encoded, "pre-Bridge encoding changed");

        // Old bytes decode into the new struct with bridge_requests = None.
        let decoded = BlockBody::<TxEnvelope, Header>::decode(&mut old_encoded.as_slice()).unwrap();
        assert_eq!(decoded, new);
    }
}

/// `slashed: None` + `bridge_requests: Some` exercises the placeholder (`0x80`) that is written
/// for the interior `None`; it must round-trip.
#[test]
fn block_body_bridge_placeholder_roundtrip() {
    let bodies = vec![
        // withdrawals Some, slashed None, bridge Some: the common post-fork shape
        BlockBody::<TxEnvelope, Header> {
            transactions: vec![],
            ommers: vec![],
            withdrawals: Some(sample_withdrawals()),
            slashed: None,
            bridge_requests: Some(Bytes::from(EMPTY_BRIDGE_SSZ.to_vec())),
        },
        // both interior options None, bridge Some: two placeholders
        BlockBody::<TxEnvelope, Header> {
            transactions: vec![],
            ommers: vec![],
            withdrawals: None,
            slashed: None,
            bridge_requests: Some(Bytes::from(vec![0xde, 0xad, 0xbe, 0xef, 0x01])),
        },
        // everything Some
        BlockBody::<TxEnvelope, Header> {
            transactions: vec![],
            ommers: vec![],
            withdrawals: Some(sample_withdrawals()),
            slashed: Some(sample_withdrawals()),
            bridge_requests: Some(Bytes::from(vec![0x04, 0x00, 0x00, 0x00, 0xff, 0x11])),
        },
    ];
    for body in bodies {
        let mut encoded = Vec::new();
        body.encode(&mut encoded);
        let decoded = BlockBody::<TxEnvelope, Header>::decode(&mut encoded.as_slice()).unwrap();
        assert_eq!(body, decoded);
    }
}

/// A block whose body carries `Some(empty)` must (a) encode byte-identically to the same block
/// with `None`, and (b) decode back with `bridge_requests == None`.
#[test]
fn block_bridge_some_empty_normalizes_to_none() {
    let some_empty = Block::<TxEnvelope, Header> {
        header: Header::default(),
        body: BlockBody {
            transactions: vec![],
            ommers: vec![],
            withdrawals: Some(sample_withdrawals()),
            slashed: None,
            bridge_requests: Some(Bytes::new()),
        },
    };
    let none = Block::<TxEnvelope, Header> {
        body: BlockBody { bridge_requests: None, ..some_empty.body.clone() },
        ..some_empty.clone()
    };

    let mut enc_some_empty = Vec::new();
    some_empty.encode(&mut enc_some_empty);
    let mut enc_none = Vec::new();
    none.encode(&mut enc_none);
    assert_eq!(enc_some_empty, enc_none, "Some(empty) must encode identically to None");

    let decoded = Block::<TxEnvelope, Header>::decode(&mut enc_some_empty.as_slice()).unwrap();
    assert_eq!(decoded.body.bridge_requests, None, "Some(empty) must decode back as None");
}

/// Same guarantees at the whole-`Block` level.
#[test]
fn block_rlp_pre_bridge_identity_and_bridge_roundtrip() {
    // pre-Bridge block: byte identity with the old encoding
    let block = Block::<TxEnvelope, Header> {
        header: Header::default(),
        body: BlockBody {
            transactions: vec![],
            ommers: vec![],
            withdrawals: Some(sample_withdrawals()),
            slashed: None,
            bridge_requests: None,
        },
    };
    let mut payload = Vec::new();
    block.header.encode(&mut payload);
    put_pre_bridge_fields(
        &block.body.transactions,
        &block.body.ommers,
        block.body.withdrawals.as_ref(),
        block.body.slashed.as_ref(),
        &mut payload,
    );
    let old_encoded = in_list(&payload);
    let mut new_encoded = Vec::new();
    block.encode(&mut new_encoded);
    assert_eq!(old_encoded, new_encoded, "pre-Bridge Block encoding changed");
    let decoded = Block::<TxEnvelope, Header>::decode(&mut old_encoded.as_slice()).unwrap();
    assert_eq!(decoded, block);

    // post-Bridge block: placeholder + blob round-trip
    let block = Block::<TxEnvelope, Header> {
        header: Header::default(),
        body: BlockBody {
            transactions: vec![],
            ommers: vec![],
            withdrawals: Some(sample_withdrawals()),
            slashed: None,
            bridge_requests: Some(Bytes::from(EMPTY_BRIDGE_SSZ.to_vec())),
        },
    };
    let mut encoded = Vec::new();
    block.encode(&mut encoded);
    let decoded = Block::<TxEnvelope, Header>::decode(&mut encoded.as_slice()).unwrap();
    assert_eq!(decoded, block);
}

/// A block with everything in it.
fn full_block() -> Block<TxEnvelope> {
    Block {
        header: Header { number: 42, gas_limit: 30_000_000, ..Default::default() },
        body: BlockBody {
            transactions: vec![
                signed_legacy().into(),
                TxEnvelope { ty: 2, body: Bytes(vec![0xc0]) },
            ],
            ommers: vec![Header::default()],
            withdrawals: Some(sample_withdrawals()),
            slashed: Some(Withdrawals::default()),
            bridge_requests: Some(Bytes::from(EMPTY_BRIDGE_SSZ.to_vec())),
        },
    }
}

#[test]
fn full_block_is_read_back_in_front_of_anything() {
    let block = full_block();
    let mut bytes = encoded(&block);
    bytes.extend_from_slice(&[1, 2, 3]);
    let mut buf = bytes.as_slice();
    assert_eq!(Block::<TxEnvelope>::decode(&mut buf).unwrap(), block);
    assert_eq!(buf, &[1, 2, 3]);

    let mut bytes = encoded(&block.body);
    bytes.push(0x80);
    let mut buf = bytes.as_slice();
    assert_eq!(BlockBody::<TxEnvelope>::decode(&mut buf).unwrap(), block.body);
    assert_eq!(buf, &[0x80]);
}

#[test]
fn encodings_from_parts_are_those_of_the_block() {
    let block = full_block();
    let expected = encoded(&block);
    assert_eq!(Block::rlp_encoded_from_parts(&block.header, &block.body), expected);
    let mut out = vec![9];
    Block::rlp_encode_from_parts(&block.header, &block.body, &mut out);
    assert_eq!(out[0], 9);
    assert_eq!(&out[1..], expected.as_slice());
    assert_eq!(Block::rlp_length_for(&block.header, &block.body), expected.len());
    assert_eq!(block.length(), expected.len());
    assert_eq!(block.body.length(), encoded(&block.body).len());
}

#[test]
fn empty_blob_is_left_out_of_every_block_encoding() {
    let mut block = full_block();
    block.body.bridge_requests = None;
    let expected = encoded(&block);
    block.body.bridge_requests = Some(Bytes::new());
    assert_eq!(encoded(&block), expected);
    assert_eq!(Block::rlp_encoded_from_parts(&block.header, &block.body), expected);
    assert_eq!(Block::rlp_length_for(&block.header, &block.body), expected.len());
    let sealed = Block::<TxEnvelope>::decode_sealed(&mut expected.as_slice()).unwrap();
    assert_eq!(sealed.body.bridge_requests, None);
}

#[test]
fn empty_blob_of_a_body_is_read_as_a_missing_one() {
    let body = BlockBody::<TxEnvelope> { bridge_requests: Some(Bytes::new()), ..Default::default() };
    let bytes = encoded(&body);
    assert_eq!(bytes, [0xc5, 0xc0, 0xc0, 0x80, 0x80, 0x80]);
    let decoded = BlockBody::<TxEnvelope>::decode(&mut bytes.as_slice()).unwrap();
    assert_eq!(decoded, BlockBody::default());
}

#[test]
fn body_encodings_are_exact() {
    let mut body = BlockBody::<TxEnvelope>::default();
    assert_eq!(encoded(&body), [0xc2, 0xc0, 0xc0]);
    body.withdrawals = Some(Withdrawals::default());
    assert_eq!(encoded(&body), [0xc3, 0xc0, 0xc0, 0xc0]);
    body.bridge_requests = Some(Bytes(vec![4, 0, 0, 0]));
    assert_eq!(
        encoded(&body),
        [0xc9, 0xc0, 0xc0, 0xc0, 0x80, 0x84, 4, 0, 0, 0]
    );
    body.withdrawals = None;
    body.transactions = vec![TxEnvelope { ty: 2, body: Bytes(vec![0xc0]) }];
    assert_eq!(
        encoded(&body),
        [0xcc, 0xc3, 0x82, 2, 0xc0, 0xc0, 0x80, 0x80, 0x84, 4, 0, 0, 0]
    );
}

#[test]
fn decode_sealed_agrees_with_decode() {
    let block = full_block();
    let bytes = encoded(&block);
    let mut buf = bytes.as_slice();
    let sealed = Block::<TxEnvelope>::decode_sealed(&mut buf).unwrap();
    assert!(buf.is_empty());
    assert_eq!(*sealed.inner(), Block::<TxEnvelope>::decode(&mut bytes.as_slice()).unwrap());
    assert_eq!(sealed.hash(), block.header.hash_slow());

    // A list that ends in the middle of a field fails in the same way in both.
    let short = &bytes[..bytes.len() - 1];
    let one = Block::<TxEnvelope>::decode(&mut &short[..]).unwrap_err();
    let other = Block::<TxEnvelope>::decode_sealed(&mut &short[..]).unwrap_err();
    assert_eq!(one, other);
    assert_eq!(one, alloy_rlp::Error::InputTooShort);
}

#[test]
fn decode_sealed_stops_where_the_block_ends() {
    let block = Block::<TxEnvelope>::default();
    for follows in [0xc0, 0x80, 0x01] {
        let mut bytes = encoded(&block);
        bytes.push(follows);

        let mut buf = bytes.as_slice();
        assert_eq!(Block::<TxEnvelope>::decode(&mut buf).unwrap(), block);
        assert_eq!(buf, &[follows]);

        let mut buf = bytes.as_slice();
        let sealed = Block::<TxEnvelope>::decode_sealed(&mut buf).unwrap();
        assert_eq!(*sealed.inner(), block);
        assert_eq!(sealed.hash(), block.header.hash_slow());
        assert_eq!(buf, &[follows]);
    }
}

#[test]
fn decode_sealed_leaves_what_follows_a_small_block() {
    let bytes = [0xc3, 0x01, 0xc0, 0xc0, 0xc0];
    let mut buf = &bytes[..];
    let sealed = Block::<u64, u64>::decode_sealed(&mut buf).unwrap();
    assert_eq!(sealed.header, 1);
    assert_eq!(sealed.body, BlockBody::default());
    assert_eq!(sealed.hash().0, alloy_primitives::keccak256([0x01]).0);
    assert_eq!(buf, &[0xc0]);
}

#[test]
fn decode_sealed_refuses_a_present_string_in_front_of_anything() {
    let mut payload = encoded(&Header::default());
    payload.extend_from_slice(&[0xc0, 0xc0, 0x80]);
    let mut bytes = in_list(&payload);
    bytes.push(0xc0);
    let mut buf = bytes.as_slice();
    assert_eq!(
        Block::<TxEnvelope>::decode_sealed(&mut buf),
        Err(alloy_rlp::Error::UnexpectedString)
    );
    assert_eq!(buf, &[0xc0]);
}

#[test]
fn the_body_is_not_part_of_the_hash() {
    let full = full_block();
    let bare = Block::<TxEnvelope> { header: full.header.clone(), body: BlockBody::default() };
    let one = Block::<TxEnvelope>::decode_sealed(&mut encoded(&full).as_slice()).unwrap();
    let other = Block::<TxEnvelope>::decode_sealed(&mut encoded(&bare).as_slice()).unwrap();
    assert_ne!(one.inner(), other.inner());
    assert_eq!(one.hash(), other.hash());
}

#[test]
fn placeholders_are_read_as_missing_fields() {
    let mut slashed_string: &[u8] = &[0xc4, 0xc0, 0xc0, 0xc0, 0x80];
    let body = BlockBody::<TxEnvelope>::decode(&mut slashed_string).unwrap();
    assert_eq!(body.withdrawals, Some(Withdrawals::default()));
    assert_eq!(body.slashed, None);

    let mut both_strings: &[u8] = &[0xc4, 0xc0, 0xc0, 0x80, 0x80];
    let body = BlockBody::<TxEnvelope>::decode(&mut both_strings).unwrap();
    assert_eq!(body, BlockBody::default());

    let mut slashed_only: &[u8] = &[0xc4, 0xc0, 0xc0, 0x80, 0xc0];
    let body = BlockBody::<TxEnvelope>::decode(&mut slashed_only).unwrap();
    assert_eq!(body.withdrawals, None);
    assert_eq!(body.slashed, Some(Withdrawals::default()));
}

#[test]
fn body_errors() {
    let fail = |mut bytes: &[u8]| BlockBody::<TxEnvelope>::decode(&mut bytes).unwrap_err();
    assert_eq!(fail(&[]), alloy_rlp::Error::InputTooShort);
    assert_eq!(fail(&[0xc3, 0xc0, 0xc0]), alloy_rlp::Error::InputTooShort);
    assert_eq!(fail(&[0x82, 0xc0, 0xc0]), alloy_rlp::Error::UnexpectedString);
    assert_eq!(fail(&[0xc3, 0xc0, 0xc0, 0x80]), alloy_rlp::Error::UnexpectedString);
    assert_eq!(fail(&[0xc2, 0x01, 0xc0]), alloy_rlp::Error::UnexpectedString);
    // a list in the place of the blob
    assert_eq!(fail(&[0xc5, 0xc0, 0xc0, 0xc0, 0xc0, 0xc0]), alloy_rlp::Error::UnexpectedList);
    // a field behind the last one
    assert_eq!(
        fail(&[0xc6, 0xc0, 0xc0, 0xc0, 0xc0, 0x01, 0x01]),
        alloy_rlp::Error::ListLengthMismatch { expected: 6, got: 5 }
    );
    // the list ends before its fields do
    assert_eq!(
        fail(&[0xc1, 0xc0, 0xc0]),
        alloy_rlp::Error::ListLengthMismatch { expected: 1, got: 2 }
    );
}

#[test]
fn sealed_block_errors() {
    let fail = |mut bytes: &[u8]| Block::<TxEnvelope>::decode_sealed(&mut bytes).unwrap_err();
    assert_eq!(fail(&[]), alloy_rlp::Error::InputTooShort);
    assert_eq!(fail(&[0x80]), alloy_rlp::Error::UnexpectedString);
    assert_eq!(fail(&[0xc1, 0x80]), alloy_rlp::Error::UnexpectedString);
}

#[test]
fn different_blocks_have_different_encodings() {
    let block = full_block();
    let mut others = vec![block.clone(); 6];
    others[0].header.number = 43;
    others[1].body.transactions.pop();
    others[2].body.ommers.clear();
    others[3].body.withdrawals = None;
    others[4].body.slashed = None;
    others[5].body.bridge_requests = None;
    for other in others {
        assert_ne!(other, block);
        assert_ne!(encoded(&other), encoded(&block));
    }
}

#[test]
fn a_field_behind_the_last_one_is_refused() {
    let mut payload = encoded(&Header::default());
    payload.extend_from_slice(&[0xc0, 0xc0, 0xc0, 0xc0, 0x01, 0x02]);
    let bytes = in_list(&payload);
    let mismatch = alloy_rlp::Error::ListLengthMismatch {
        expected: payload.len(),
        got: payload.len() - 1,
    };
    let mut buf = bytes.as_slice();
    assert_eq!(Block::<TxEnvelope>::decode(&mut buf), Err(mismatch));
    assert_eq!(buf, &[2]);
    let mut buf = bytes.as_slice();
    assert_eq!(Block::<TxEnvelope>::decode_sealed(&mut buf), Err(mismatch));
    assert_eq!(buf, &[2]);
}
