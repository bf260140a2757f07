//! Encodings of the parts of a block, to the byte, and what is refused.

use alloy_rlp::Error;
use eth_block::{
    Bytes, Decodable, Encodable, Encodable2718, FixedBytes, Header, Sealable, Transaction,
    TxEnvelope, Typed2718, Withdrawal, Withdrawals, B256, B64, EMPTY_OMMER_ROOT_HASH,
    EMPTY_ROOT_HASH, U256,
};

fn encoded<E: Encodable>(value: &E) -> Vec<u8> {
    let mut out = Vec::new();
    value.encode(&mut out);
    assert_eq!(value.length(), out.len());
    out
}

fn hex(digits: &str) -> Vec<u8> {
    (0..digits.len())
        .step_by(2)
        .map(|i| u8::from_str_radix(&digits[i..i + 2], 16).unwrap())
        .collect()
}

fn b256(digits: &str) -> B256 {
    FixedBytes(hex(digits).try_into().unwrap())
}

#[test]
fn numbers() {
    let cases: [(u64, &[u8]); 6] = [
        (0, &[0x80]),
        (1, &[1]),
        (0x7f, &[0x7f]),
        (0x80, &[0x81, 0x80]),
        (0x400, &[0x82, 4, 0]),
        (u64::MAX, &[0x88, 255, 255, 255, 255, 255, 255, 255, 255]),
    ];
    for (n, bytes) in cases {
        assert_eq!(encoded(&n), bytes);
        let mut buf = bytes;
        assert_eq!(u64::decode(&mut buf), Ok(n));
        assert!(buf.is_empty());
    }
}

#[test]
fn number_errors() {
    let fail = |bytes: &[u8], left: usize| {
        let mut buf = bytes;
        let e = u64::decode(&mut buf).unwrap_err();
        assert_eq!(buf.len(), left);
        e
    };
    assert_eq!(fail(&[], 0), Error::InputTooShort);
    assert_eq!(fail(&[0x82, 1], 1), Error::InputTooShort);
    assert_eq!(fail(&[0], 1), Error::LeadingZero);
    assert_eq!(fail(&[0x82, 0, 1], 3), Error::LeadingZero);
    assert_eq!(fail(&[0x81, 1], 2), Error::NonCanonicalSingleByte);
    assert_eq!(fail(&[0x89, 1, 1, 1, 1, 1, 1, 1, 1, 1], 0), Error::Overflow);
    assert_eq!(fail(&[0xc0], 0), Error::UnexpectedList);
    assert_eq!(fail(&[0xb8, 5, 1, 1, 1, 1, 1], 5), Error::NonCanonicalSize);
    assert_eq!(fail(&[0xb9, 0, 60], 0), Error::LeadingZero);
}

#[test]
fn strings() {
    assert_eq!(encoded(&Bytes(vec![])), [0x80]);
    assert_eq!(encoded(&Bytes(vec![0x7f])), [0x7f]);
    assert_eq!(encoded(&Bytes(vec![0x80])), [0x81, 0x80]);
    let long = vec![7; 56];
    let bytes = encoded(&Bytes(long.clone()));
    assert_eq!(&bytes[..2], &[0xb8, 56]);
    assert_eq!(&bytes[2..], long.as_slice());
    assert_eq!(Bytes::decode(&mut bytes.as_slice()), Ok(Bytes(long)));
    assert_eq!(Bytes::decode(&mut &[0xc0][..]), Err(Error::UnexpectedList));
}

#[test]
fn large_numbers() {
    let mut digits = [0; 32];
    assert_eq!(encoded(&U256(digits)), [0x80]);
    digits[30] = 4;
    assert_eq!(encoded(&U256(digits)), [0x82, 4, 0]);
    assert_eq!(U256::decode(&mut &[0x82, 4, 0][..]), Ok(U256(digits)));
    assert_eq!(U256::decode(&mut &[0x82, 0, 4][..]), Err(Error::LeadingZero));
    let mut too_long = vec![0xa1];
    too_long.extend_from_slice(&[1; 33]);
    assert_eq!(U256::decode(&mut too_long.as_slice()), Err(Error::Overflow));
}

#[test]
fn fixed_strings() {
    let nonce: B64 = FixedBytes([1, 2, 3, 4, 5, 6, 7, 8]);
    assert_eq!(encoded(&nonce), [0x88, 1, 2, 3, 4, 5, 6, 7, 8]);
    assert_eq!(B64::decode(&mut &[0x88, 1, 2, 3, 4, 5, 6, 7, 8][..]), Ok(nonce));
    assert_eq!(B64::decode(&mut &[0x82, 1, 2][..]), Err(Error::UnexpectedLength));
}

fn sample() -> Withdrawal {
    let mut address = [0; 20];
    address[19] = 0xaa;
    Withdrawal {
        index: 7,
        validator_index: u64::MAX,
        address: FixedBytes(address),
        amount: 123_456,
    }
}

#[test]
fn withdrawals() {
    let bytes = hex("e30788ffffffffffffffff9400000000000000000000000000000000000000aa8301e240");
    assert_eq!(encoded(&sample()), bytes);
    assert_eq!(Withdrawal::decode(&mut bytes.as_slice()), Ok(sample()));

    let list = Withdrawals::new(vec![sample(), sample()]);
    let listed = encoded(&list);
    assert_eq!(&listed[..2], &[0xf8, 72]);
    assert_eq!(&listed[2..38], bytes.as_slice());
    assert_eq!(&listed[38..], bytes.as_slice());
    assert_eq!(Withdrawals::decode(&mut listed.as_slice()), Ok(list));
    assert_eq!(Withdrawals::decode(&mut &[0x80][..]), Err(Error::UnexpectedString));
}

#[test]
fn withdrawal_errors() {
    let mut long = hex("e40788ffffffffffffffff9400000000000000000000000000000000000000aa8301e24001");
    assert_eq!(
        Withdrawal::decode(&mut long.as_slice()),
        Err(Error::ListLengthMismatch { expected: 36, got: 35 })
    );
    long[0] = 0x80;
    assert_eq!(Withdrawal::decode(&mut long.as_slice()), Err(Error::UnexpectedString));
    let short_address = hex("c407018101");
    assert_eq!(
        Withdrawal::decode(&mut short_address.as_slice()),
        Err(Error::NonCanonicalSingleByte)
    );
}

#[test]
fn default_header_hash() {
    let header = Header::default();
    let bytes = encoded(&header);
    assert_eq!(bytes.len(), 496);
    assert_eq!(&bytes[..3], &[0xf9, 0x01, 0xed]);
    assert_eq!(
        header.hash_slow(),
        b256("78dec18c6d7da925bbe773c315653cdc70f6444ed6c1de9ac30bdb36cff74c3b")
    );
    assert_eq!(header.ommers_hash.0, EMPTY_OMMER_ROOT_HASH);
    assert_eq!(header.transactions_root.0, EMPTY_ROOT_HASH);
}

#[test]
fn mainnet_genesis_hash() {
    let mut difficulty = [0; 32];
    difficulty[27] = 4;
    let header = Header {
        state_root: b256("d7f8974fb5ac78d9ac099b9ad5018bedc2ce0a72dad1827a1709da30580f0544"),
        difficulty: U256(difficulty),
        gas_limit: 5000,
        extra_data: Bytes(hex("11bbe8db4e347b4e8c937c1c8370e4b5ed33adb3db69cbdb7a38e1e50b1b82fa")),
        nonce: FixedBytes([0, 0, 0, 0, 0, 0, 0, 0x42]),
        ..Header::default()
    };
    let expected = b256("d4e56740f876aef8c010b86a40d5f56745a118d0906a34e69aec8c0db1cb8fa3");
    assert_eq!(header.hash_slow(), expected);
    let bytes = encoded(&header);
    let sealed = Header::decode_sealed(&mut bytes.as_slice()).unwrap();
    assert_eq!(sealed.hash(), expected);
    assert_eq!(*sealed.inner(), header);
}

fn header_with_added(added: usize) -> Header {
    Header {
        base_fee_per_gas: if added > 0 { Some(7) } else { None },
        withdrawals_root: if added > 1 { Some(FixedBytes([0x11; 32])) } else { None },
        blob_gas_used: if added > 2 { Some(0) } else { None },
        excess_blob_gas: if added > 3 { Some(0x20000) } else { None },
        parent_beacon_block_root: if added > 4 { Some(FixedBytes([0x22; 32])) } else { None },
        requests_hash: if added > 5 { Some(FixedBytes([0x33; 32])) } else { None },
        ..Header::default()
    }
}

#[test]
fn headers_of_every_fork_are_read_back() {
    for added in 0..=6 {
        let header = header_with_added(added);
        let mut bytes = encoded(&header);
        bytes.push(0x80);
        let mut buf = bytes.as_slice();
        let sealed = Header::decode_sealed(&mut buf).unwrap();
        assert_eq!(*sealed.inner(), header);
        assert_eq!(sealed.hash(), header.hash_slow());
        assert_eq!(buf, &[0x80]);
    }
    assert_eq!(encoded(&header_with_added(6)).len(), 601);
    assert_eq!(
        header_with_added(6).hash_slow(),
        b256("abef4eb7443e3eaca3c96aac0f5f566253dd05803bb824c6eaeed41d8ec02187")
    );
}

#[test]
fn header_errors() {
    assert_eq!(Header::decode(&mut &[0x80][..]), Err(Error::UnexpectedString));
    assert_eq!(Header::decode(&mut &[0xc1, 0x80][..]), Err(Error::UnexpectedLength));
    // a field behind the last one
    let header = encoded(&header_with_added(6));
    let mut fields = header[3..].to_vec();
    fields.push(1);
    let mut bytes = Vec::new();
    alloy_rlp::Header { list: true, payload_length: fields.len() }.encode(&mut bytes);
    bytes.extend_from_slice(&fields);
    assert_eq!(
        Header::decode(&mut bytes.as_slice()),
        Err(Error::ListLengthMismatch { expected: 599, got: 598 })
    );
}

#[test]
fn envelopes() {
    let legacy = TxEnvelope { ty: 0, body: Bytes(vec![0xc2, 1, 2]) };
    assert_eq!(legacy.encoded_2718(), [0xc2, 1, 2]);
    assert_eq!(encoded(&legacy), [0xc2, 1, 2]);
    assert_eq!(TxEnvelope::decode(&mut &[0xc2, 1, 2][..]), Ok(legacy));

    let typed = TxEnvelope { ty: 2, body: Bytes(vec![0xc2, 1, 2]) };
    assert_eq!(typed.encoded_2718(), [2, 0xc2, 1, 2]);
    assert_eq!(encoded(&typed), [0x84, 2, 0xc2, 1, 2]);
    assert_eq!(TxEnvelope::decode(&mut &[0x84, 2, 0xc2, 1, 2][..]), Ok(typed));
}

#[test]
fn envelope_errors() {
    assert_eq!(TxEnvelope::decode(&mut &[0x80][..]), Err(Error::InputTooShort));
    let unexpected = Err(Error::Custom("unexpected transaction type"));
    assert_eq!(TxEnvelope::decode(&mut &[0x82, 0, 0xc0][..]), unexpected);
    assert_eq!(TxEnvelope::decode(&mut &[0x82, 0x80, 0xc0][..]), unexpected);
    assert_eq!(TxEnvelope::decode(&mut &[0xc2, 1][..]), Err(Error::InputTooShort));
}

#[test]
fn types_of_transactions() {
    for ty in 0..=5 {
        let tx = TxEnvelope { ty, body: Bytes(vec![0xc0]) };
        assert_eq!(tx.ty(), ty);
        assert_eq!(tx.is_eip4844(), ty == 3);
        assert_eq!(tx.is_eip7702(), ty == 4);
        assert_eq!(tx.blob_versioned_hashes(), None);
    }
}
