//! Blocks from unstructured data.

use arbitrary::Unstructured;
use eth_block::{
    Arbitrary, Block, BlockBody, Bytes, Decodable, Encodable, FixedBytes, Header, Sealable,
    TxEnvelope, Withdrawal, Withdrawals,
};

/// Fills `bytes` with numbers of the splitmix sequence that `state` starts.
fn fill(state: &mut u64, bytes: &mut [u8]) {
    for chunk in bytes.chunks_mut(8) {
        *state = state.wrapping_add(0x9e37_79b9_7f4a_7c15);
        let mut z = *state;
        z = (z ^ (z >> 30)).wrapping_mul(0xbf58_476d_1ce4_e5b9);
        z = (z ^ (z >> 27)).wrapping_mul(0x94d0_49bb_1331_11eb);
        z ^= z >> 31;
        chunk.copy_from_slice(&z.to_le_bytes()[..chunk.len()]);
    }
}

#[test]
fn fuzz_decode_sealed_block_roundtrip() {
    let mut state = 1;
    for _ in 0..10 {
        let mut bytes = vec![0u8; 1024 * 1024];
        fill(&mut state, &mut bytes);
        let mut u = Unstructured::new(&bytes);

        let block = Block::<TxEnvelope>::arbitrary(&mut u).unwrap();
        let expected_hash = block.header.hash_slow();

        let mut encoded = Vec::new();
        block.encode(&mut encoded);

        let sealed = Block::<TxEnvelope>::decode_sealed(&mut encoded.as_slice()).unwrap();
        assert_eq!(sealed.hash(), expected_hash);
        assert_eq!(*sealed.inner(), block);
    }
}

#[test]
fn fuzz_header_decode_sealed_roundtrip() {
    let mut state = 2;
    for _ in 0..200 {
        let mut bytes = [0u8; 1024];
        fill(&mut state, &mut bytes);
        let mut u = Unstructured::new(&bytes);

        let header = Header::arbitrary(&mut u).unwrap();
        let expected_hash = header.hash_slow();

        let mut encoded = Vec::new();
        header.encode(&mut encoded);

        let mut buf = encoded.as_slice();
        let sealed = Header::decode_sealed(&mut buf).unwrap();

        assert_eq!(sealed.hash(), expected_hash);
        assert_eq!(*sealed.inner(), header);
    }
}

#[test]
fn drawn_bodies_are_bounded_and_read_back() {
    let mut state = 3;
    let mut most = 0;
    for _ in 0..100 {
        let mut bytes = [0u8; 16 * 1024];
        fill(&mut state, &mut bytes);
        let mut u = Unstructured::new(&bytes);
        let body = BlockBody::<TxEnvelope>::arbitrary(&mut u).unwrap();
        assert!(body.transactions.len() <= 100);
        assert!(body.ommers.len() <= 1);
        assert_ne!(body.bridge_requests, Some(Bytes::new()));
        most = most.max(body.transactions.len());

        let mut encoded = Vec::new();
        body.encode(&mut encoded);
        assert_eq!(BlockBody::decode(&mut encoded.as_slice()), Ok(body));
    }
    assert!(most > 50);
}

#[test]
fn body_from_chosen_data() {
    // 102 stands for one transaction in a range of 101 numbers
    let mut data = vec![102];
    // type 2, with a payload of two bytes
    data.extend_from_slice(&[7, 1, 1, 0xaa, 3, 0xbb, 0]);
    // no ommers
    data.push(4);
    // a blob of one byte
    data.extend_from_slice(&[1, 1, 0xcc, 2]);
    // withdrawals: one
    data.extend_from_slice(&[1, 1]);
    data.extend_from_slice(&[1, 2, 0, 0, 0, 0, 0, 0]);
    data.extend_from_slice(&[3, 0, 0, 0, 0, 0, 0, 4]);
    data.extend_from_slice(&[5; 20]);
    data.extend_from_slice(&[6, 0, 0, 0, 0, 0, 0, 0]);
    data.push(0);
    // slashed entries: an empty list
    data.extend_from_slice(&[1, 0]);
    // left over
    data.extend_from_slice(&[9, 9]);

    let mut u = Unstructured::new(&data);
    let body = BlockBody::<TxEnvelope>::arbitrary(&mut u).unwrap();
    assert_eq!(
        body,
        BlockBody {
            transactions: vec![TxEnvelope { ty: 2, body: Bytes(vec![0xaa, 0xbb]) }],
            ommers: vec![],
            withdrawals: Some(Withdrawals::new(vec![Withdrawal {
                index: 0x0201,
                validator_index: 0x0400_0000_0000_0003,
                address: FixedBytes([5; 20]),
                amount: 6,
            }])),
            slashed: Some(Withdrawals::default()),
            bridge_requests: Some(Bytes(vec![0xcc])),
        }
    );
    assert_eq!(u.len(), 2);
}

#[test]
fn empty_blobs_are_left_out() {
    // no transactions, no ommers, an empty blob, no withdrawals
    let data = [0, 0, 1, 0, 0, 0];
    let mut u = Unstructured::new(&data);
    let body = BlockBody::<TxEnvelope>::arbitrary(&mut u).unwrap();
    assert_eq!(body, BlockBody::default());
    assert!(u.is_empty());
}

#[test]
fn legacy_transactions_hold_a_list() {
    let mut u = Unstructured::new(&[5, 1, 1, 0xaa, 0]);
    let tx = TxEnvelope::arbitrary(&mut u).unwrap();
    assert_eq!(tx, TxEnvelope { ty: 0, body: Bytes(vec![0xc1, 0xaa]) });
}

#[test]
fn block_without_data() {
    let mut u = Unstructured::new(&[]);
    let block = Block::<TxEnvelope>::arbitrary(&mut u).unwrap();
    let zeros = FixedBytes([0; 32]);
    assert_eq!(
        block.header,
        Header {
            ommers_hash: zeros,
            state_root: zeros,
            transactions_root: zeros,
            receipts_root: zeros,
            ..Header::default()
        }
    );
    assert_eq!(block.body, BlockBody::default());
}

#[test]
fn header_from_chosen_data() {
    let mut data = vec![1; 32];
    data.extend_from_slice(&[2; 32]);
    data.extend_from_slice(&[3; 20]);
    data.extend_from_slice(&[4; 32]);
    data.extend_from_slice(&[5; 32]);
    data.extend_from_slice(&[6; 32]);
    data.extend_from_slice(&[7; 256]);
    data.extend_from_slice(&[8; 32]);
    data.extend_from_slice(&[9, 0, 0, 0, 0, 0, 0, 0]);
    data.extend_from_slice(&[10, 0, 0, 0, 0, 0, 0, 0]);
    data.extend_from_slice(&[11, 0, 0, 0, 0, 0, 0, 0]);
    data.extend_from_slice(&[12, 0, 0, 0, 0, 0, 0, 0]);
    data.extend_from_slice(&[1, 1, 13, 0]);
    data.extend_from_slice(&[14; 32]);
    data.extend_from_slice(&[15; 8]);
    // two of the added fields
    data.push(9);
    data.extend_from_slice(&[16, 0, 0, 0, 0, 0, 0, 0]);
    data.extend_from_slice(&[17; 32]);

    let mut u = Unstructured::new(&data);
    let header = Header::arbitrary(&mut u).unwrap();
    assert_eq!(
        header,
        Header {
            parent_hash: FixedBytes([1; 32]),
            ommers_hash: FixedBytes([2; 32]),
            beneficiary: FixedBytes([3; 20]),
            state_root: FixedBytes([4; 32]),
            transactions_root: FixedBytes([5; 32]),
            receipts_root: FixedBytes([6; 32]),
            logs_bloom: FixedBytes([7; 256]),
            difficulty: eth_block::U256([8; 32]),
            number: 9,
            gas_limit: 10,
            gas_used: 11,
            timestamp: 12,
            extra_data: Bytes(vec![13]),
            mix_hash: FixedBytes([14; 32]),
            nonce: FixedBytes([15; 8]),
            base_fee_per_gas: Some(16),
            withdrawals_root: Some(FixedBytes([17; 32])),
            blob_gas_used: None,
            excess_blob_gas: None,
            parent_beacon_block_root: None,
            requests_hash: None,
        }
    );
    assert!(u.is_empty());
}
