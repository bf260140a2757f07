//! The roots that a header commits to.

use eth_block::{
    Block, BlockBody, Bytes, FixedBytes, Header, Sealable, TxEnvelope, Withdrawal, Withdrawals,
    B256, EMPTY_OMMER_ROOT_HASH, EMPTY_ROOT_HASH,
};

fn hex(digits: &str) -> Vec<u8> {
    (0..digits.len())
        .step_by(2)
        .map(|i| u8::from_str_radix(&digits[i..i + 2], 16).unwrap())
        .collect()
}

fn b256(digits: &str) -> B256 {
    FixedBytes(hex(digits).try_into().unwrap())
}

fn legacy() -> TxEnvelope {
    let body = hex("e101648252089400000000000000000000000000000000000000008203e880250102");
    TxEnvelope { ty: 0, body: Bytes(body) }
}

#[test]
fn transactions_root_is_set_on_the_header() {
    let header = Header {
        number: 42,
        transactions_root: FixedBytes([9; 32]),
        ommers_hash: FixedBytes([8; 32]),
        ..Header::default()
    };
    let block = Block::from_transactions(header.clone(), vec![legacy()]);
    let root = b256("ccd6150018c65d05cb1236f0a1da7a6ff004427695b97f8ead1ada54dc0fc4f5");
    assert_eq!(
        block.header,
        Header {
            transactions_root: root,
            ommers_hash: FixedBytes(EMPTY_OMMER_ROOT_HASH),
            ..header.clone()
        }
    );
    assert_eq!(
        block.body,
        BlockBody { transactions: vec![legacy()], ..BlockBody::default() }
    );
    assert_eq!(Block::with_transactions_root(header, vec![legacy()], root), block);
}

#[test]
fn transactions_root_of_many() {
    let transactions: Vec<TxEnvelope> =
        (0..130).map(|i| TxEnvelope { ty: 2, body: Bytes(vec![i, i, i]) }).collect();
    let block = Block::from_transactions(Header::default(), transactions);
    assert_eq!(
        block.header.transactions_root,
        b256("d896a9e06b2f1bdad195b639c8bc13e7634409f939a35db1b4a33b0f58193195")
    );
}

#[test]
fn transactions_root_of_none() {
    let block = Block::<TxEnvelope>::from_transactions(Header::default(), vec![]);
    assert_eq!(block.header.transactions_root.0, EMPTY_ROOT_HASH);
    assert_eq!(block, Block::default());
}

#[test]
fn withdrawals_root() {
    let mut address = [0; 20];
    address[19] = 0xaa;
    let withdrawal = Withdrawal {
        index: 7,
        validator_index: u64::MAX,
        address: FixedBytes(address),
        amount: 123_456,
    };
    let mut body: BlockBody<TxEnvelope> = BlockBody::default();
    assert_eq!(body.calculate_withdrawals_root(), None);
    body.withdrawals = Some(Withdrawals::default());
    assert_eq!(body.calculate_withdrawals_root(), Some(FixedBytes(EMPTY_ROOT_HASH)));
    body.withdrawals = Some(Withdrawals::new(vec![withdrawal]));
    assert_eq!(
        body.calculate_withdrawals_root(),
        Some(b256("57d8df224ebc212def2a7e1c44f9f79893147656b2eb6dd083533d03ff68a206"))
    );
    body.withdrawals = Some(Withdrawals::new(vec![withdrawal, withdrawal]));
    assert_eq!(
        body.calculate_withdrawals_root(),
        Some(b256("90c869eec68a6e1e70930d4613c272f955b524ce4c9c41f135f14739b13194a8"))
    );
}

#[test]
fn ommers_root() {
    let mut body: BlockBody<TxEnvelope> = BlockBody::default();
    assert_eq!(body.calculate_ommers_root().0, EMPTY_OMMER_ROOT_HASH);
    body.ommers.push(Header::default());
    assert_eq!(
        body.calculate_ommers_root(),
        b256("6f42227c0375662e84409147fc0fe032b4175f3c90e4a33649394c97bd9bd2bf")
    );
    body.ommers.push(Header { number: 42, gas_limit: 30_000_000, ..Header::default() });
    assert_eq!(
        body.calculate_ommers_root(),
        b256("e9d79d1090a5309f2b05619876775b3df7ad7b152664368f102a99eb8bd552b8")
    );
    assert_eq!(
        body.ommers[1].hash_slow(),
        b256("f86da80519fab3947187fba8db21194e32ee701c1fa9910bedd1a8bb5b55de33")
    );
}
