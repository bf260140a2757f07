//! What is done with the parts of blocks.

use eth_block::{
    Block, BlockBody, Bytes, Encodable2718, EthBlock, FixedBytes, Header, Sealable, TxEnvelope,
    WithEncoded, Withdrawal, Withdrawals, B256,
};

fn some_withdrawals(index: u64) -> Option<Withdrawals> {
    Some(Withdrawals::new(vec![Withdrawal {
        index,
        validator_index: 1,
        address: FixedBytes([2; 20]),
        amount: 3,
    }]))
}

fn numbers() -> Block<u8, u64> {
    Block {
        header: 10,
        body: BlockBody {
            transactions: vec![1, 2, 3],
            ommers: vec![20, 30],
            withdrawals: some_withdrawals(5),
            slashed: some_withdrawals(6),
            bridge_requests: Some(Bytes(vec![7])),
        },
    }
}

#[test]
fn blocks_are_put_together_and_taken_apart() {
    let block = numbers();
    assert_eq!(Block::new(block.header, block.body.clone()), block);
    assert_eq!(block.clone().into_header(), 10);
    assert_eq!(block.clone().into_body(), block.body);
    assert_eq!(BlockBody::from(block.clone()), block.body);
    assert_eq!(block.clone().into_body().into_block(10), block);
    assert_eq!(*block, 10);
    let replaced = block.clone().with_header(11);
    assert_eq!(replaced.header, 11);
    assert_eq!(replaced.body, block.body);
}

#[test]
fn empty_blocks() {
    let blank: BlockBody<u8, u64> = BlockBody {
        transactions: vec![],
        ommers: vec![],
        withdrawals: None,
        slashed: None,
        bridge_requests: None,
    };
    assert_eq!(BlockBody::default(), blank);
    assert_eq!(Block::uncle(9), Block { header: 9, body: blank.clone() });
    let default: Block<TxEnvelope> = Block::default();
    assert_eq!(default.header, Header::default());
    assert_eq!(default.body, BlockBody::default());
}

#[test]
fn headers_are_mapped_along_with_ommers() {
    let block = numbers().map_header(|h| format!("{h}"));
    assert_eq!(block.header, "10");
    assert_eq!(block.body.ommers, ["20", "30"]);
    assert_eq!(block.body.transactions, [1, 2, 3]);
    assert_eq!(block.body.withdrawals, some_withdrawals(5));
    assert_eq!(block.body.slashed, some_withdrawals(6));
    assert_eq!(block.body.bridge_requests, Some(Bytes(vec![7])));
}

#[test]
fn headers_are_mapped_up_to_a_failure() {
    let below = |limit: u64| move |h: u64| if h < limit { Ok(h + 1) } else { Err(h) };
    let block = numbers().try_map_header(below(100)).unwrap();
    assert_eq!((block.header, block.body.ommers.clone()), (11, vec![21, 31]));
    assert_eq!(block.body.transactions, [1, 2, 3]);
    assert_eq!(numbers().try_map_header(below(30)), Err(30));
    assert_eq!(numbers().try_map_header(below(20)), Err(20));
    assert_eq!(numbers().try_map_header(below(10)), Err(10));
}

#[test]
fn transactions_are_mapped_in_order() {
    let mut seen = Vec::new();
    let block = numbers().map_transactions(|tx| {
        seen.push(tx);
        u16::from(tx) * 100
    });
    assert_eq!(seen, [1, 2, 3]);
    assert_eq!(block.body.transactions, [100, 200, 300]);
    assert_eq!(block.header, 10);
    assert_eq!(block.body.ommers, [20, 30]);
    assert_eq!(block.body.withdrawals, some_withdrawals(5));
    assert_eq!(block.body.slashed, some_withdrawals(6));
    assert_eq!(block.body.bridge_requests, Some(Bytes(vec![7])));
}

#[test]
fn transactions_are_mapped_up_to_a_failure() {
    let mut seen = Vec::new();
    let failed: Result<Block<u8, u64>, &str> = numbers().try_map_transactions(|tx| {
        seen.push(tx);
        if tx == 2 {
            Err("two")
        } else {
            Ok(tx)
        }
    });
    assert_eq!(failed, Err("two"));
    assert_eq!(seen, [1, 2]);
    let mapped: Result<Block<u8, u64>, &str> = numbers().try_map_transactions(|tx| Ok(tx + 1));
    let mut expected = numbers();
    expected.body.transactions = vec![2, 3, 4];
    assert_eq!(mapped, Ok(expected));
}

#[test]
fn transactions_are_converted() {
    let block: Block<u32, u64> = numbers().convert_transactions();
    assert_eq!(block.body.transactions, [1, 2, 3]);
    let block: Block<i8, u64> = numbers().try_convert_transactions().unwrap();
    assert_eq!(block.body.transactions, [1, 2, 3]);
    let mut large = numbers();
    large.body.transactions.push(200);
    assert!(large.try_convert_transactions::<i8>().is_err());
}

#[test]
fn fallible_conversions_that_never_fail_are_plain_ones() {
    let tried: Result<Block<u16, u64>, ()> = numbers().try_map_transactions(|tx| Ok(tx.into()));
    assert_eq!(tried, Ok(numbers().map_transactions(u16::from)));
    assert_eq!(
        numbers().try_convert_transactions::<u32>(),
        Ok(numbers().convert_transactions::<u32>())
    );

    let blank: Block<u8, u64> = Block::uncle(4);
    let tried: Result<Block<u8, u64>, &str> = blank.clone().try_map_transactions(|_| Err("called"));
    assert_eq!(tried, Ok(blank));
}

#[test]
fn the_first_failure_is_returned() {
    let mut block = numbers();
    block.body.transactions = vec![1, 200, 3, 201];
    let tried: Result<Block<u8, u64>, u8> =
        block.try_map_transactions(|tx| if tx < 100 { Ok(tx) } else { Err(tx) });
    assert_eq!(tried, Err(200));
}

#[test]
fn ommers_are_mapped() {
    let body = numbers().body.map_ommers(|h| h * 2);
    assert_eq!(body.ommers, [40, 60]);
    assert_eq!(body.transactions, [1, 2, 3]);
    assert_eq!(body.withdrawals, some_withdrawals(5));
    let doubled: Result<BlockBody<u8, u64>, u64> = numbers().body.try_map_ommers(|h| Ok(h * 2));
    assert_eq!(doubled, Ok(body));
    let failed: Result<BlockBody<u8, u64>, u64> = numbers().body.try_map_ommers(Err);
    assert_eq!(failed, Err(20));
}

#[test]
fn transactions_are_walked_in_order() {
    let block = numbers();
    let seen: Vec<&u8> = block.body.transactions().collect();
    assert_eq!(seen, [&1, &2, &3]);
}

fn tx(ty: u8, body: Vec<u8>) -> TxEnvelope {
    TxEnvelope { ty, body: Bytes(body) }
}

fn with_transactions(transactions: Vec<TxEnvelope>) -> Block<TxEnvelope> {
    let body = BlockBody { transactions, ..BlockBody::default() };
    Block::new(Header { number: 3, ..Header::default() }, body)
}

#[test]
fn transactions_are_paired_with_their_envelopes() {
    let block = with_transactions(vec![tx(0, vec![0xc1, 5]), tx(2, vec![0xc1, 6])]);
    let paired = block.clone().into_with_encoded2718();
    assert_eq!(
        paired.body.transactions,
        [
            WithEncoded(Bytes(vec![0xc1, 5]), tx(0, vec![0xc1, 5])),
            WithEncoded(Bytes(vec![2, 0xc1, 6]), tx(2, vec![0xc1, 6])),
        ]
    );
    assert_eq!(paired.header, block.header);
    assert_eq!(block.body.transactions[1].clone().into_encoded(), paired.body.transactions[1]);
}

/// A blob transaction with the given hashes behind ten other fields.
fn blob_tx(hashes: &[B256]) -> TxEnvelope {
    let mut fields = vec![1, 2, 3, 4, 5];
    fields.extend_from_slice(&[0x82, 0x0a, 0x0b]);
    fields.extend_from_slice(&[0xc2, 1, 1]);
    fields.extend_from_slice(&[8, 9, 10]);
    let mut list = Vec::new();
    for hash in hashes {
        eth_block::Encodable::encode(hash, &mut list);
    }
    alloy_rlp::Header { list: true, payload_length: list.len() }.encode(&mut fields);
    fields.extend_from_slice(&list);
    fields.extend_from_slice(&[1, 2, 3]);
    let mut body = Vec::new();
    alloy_rlp::Header { list: true, payload_length: fields.len() }.encode(&mut body);
    body.extend_from_slice(&fields);
    tx(3, body)
}

#[test]
fn blob_transactions_are_found() {
    let first = blob_tx(&[FixedBytes([1; 32]), FixedBytes([2; 32])]);
    let second = blob_tx(&[FixedBytes([3; 32])]);
    let block = with_transactions(vec![
        tx(0, vec![0xc0]),
        first.clone(),
        tx(2, vec![0xc0]),
        second.clone(),
    ]);
    assert!(block.body.has_eip4844_transactions());
    assert!(!block.body.has_eip7702_transactions());
    assert_eq!(block.body.eip4844_transactions_iter(), [&first, &second]);
    assert_eq!(
        block.body.blob_versioned_hashes_iter(),
        [FixedBytes([1; 32]), FixedBytes([2; 32]), FixedBytes([3; 32])]
    );
}

#[test]
fn blocks_without_blob_transactions() {
    let block = with_transactions(vec![tx(0, vec![0xc0]), tx(4, vec![0xc0])]);
    assert!(!block.body.has_eip4844_transactions());
    assert!(block.body.has_eip7702_transactions());
    assert!(block.body.eip4844_transactions_iter().is_empty());
    assert!(block.body.blob_versioned_hashes_iter().is_empty());
    // a blob transaction whose body cannot be read has no hashes
    let block = with_transactions(vec![tx(3, vec![0xc0])]);
    assert_eq!(block.body.eip4844_transactions_iter().len(), 1);
    assert!(block.body.blob_versioned_hashes_iter().is_empty());
}

#[test]
fn ommers_are_hashed() {
    let ommers = vec![Header::default(), Header { number: 1, ..Header::default() }];
    let body: BlockBody<TxEnvelope> = BlockBody { ommers: ommers.clone(), ..BlockBody::default() };
    assert_eq!(body.ommers_hashes(), [ommers[0].hash_slow(), ommers[1].hash_slow()]);
    assert_ne!(body.ommers_hashes()[0], body.ommers_hashes()[1]);
}

#[test]
fn ethereum_blocks_show_their_trailing_fields() {
    let block = numbers();
    assert_eq!(block.withdrawals(), some_withdrawals(5).as_ref());
    assert_eq!(block.slashed(), some_withdrawals(6).as_ref());
    assert_eq!(block.bridge_requests(), Some(&Bytes(vec![7])));
    let blank: Block<u8, u64> = Block::uncle(0);
    assert_eq!(blank.withdrawals(), None);
    assert_eq!(blank.slashed(), None);
    assert_eq!(blank.bridge_requests(), None);
}

/// A block that has withdrawals only.
struct Plain(Withdrawals);

impl EthBlock for Plain {
    fn withdrawals(&self) -> Option<&Withdrawals> {
        Some(&self.0)
    }
}

#[test]
fn ethereum_blocks_lack_later_fields_by_default() {
    let block = Plain(Withdrawals::default());
    assert_eq!(block.withdrawals(), Some(&Withdrawals::default()));
    assert_eq!(block.slashed(), None);
    assert_eq!(block.bridge_requests(), None);
}
