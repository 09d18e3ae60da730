use ethcall::records::{BlockRecord, BlockTxs, Receipt, TxRecord};
use ethcall::value::Value;

fn tx_sample() -> TxRecord {
    TxRecord {
        input: vec![0xde, 0xad],
        gas: vec![1u8; 32],
        gas_price: vec![2u8; 32],
        value: vec![3u8; 32],
        nonce: vec![4u8; 32],
        from: Some(vec![5u8; 20]),
        to: None,
        v: Some(vec![6u8; 8]),
        r: None,
        s: None,
        block_hash: Some(vec![7u8; 32]),
        block_number: Some(9),
    }
}

#[test]
fn receipt_table_shape() {
    let receipt = Receipt {
        transaction_hash: vec![0x11; 32],
        transaction_index: 0,
        block_hash: Some(vec![0x22; 32]),
        block_number: None,
        gas_used: Some(vec![0x33; 32]),
        status: None,
    };
    match receipt.to_var() {
        Value::Table(es) => {
            let keys: Vec<&str> = es.iter().map(|(k, _)| k.as_str()).collect();
            assert_eq!(
                keys,
                vec!["transaction_hash", "transaction_index", "block_hash", "gas_used"]
            );
        }
        _ => panic!("expected a table"),
    }
}

#[test]
fn transaction_table_shape() {
    match tx_sample().to_var() {
        Value::Table(es) => {
            let keys: Vec<&str> = es.iter().map(|(k, _)| k.as_str()).collect();
            assert_eq!(
                keys,
                vec!["input", "gas", "gas_price", "value", "nonce", "from", "v", "block_hash",
                    "block_number"]
            );
            assert!(matches!(&es[0].1, Value::Bytes(b) if *b == vec![0xde, 0xad]));
            assert!(matches!(es[8].1, Value::Int(9)));
        }
        _ => panic!("expected a table"),
    }
}

#[test]
fn block_table_with_transaction_hashes() {
    let block = BlockRecord {
        parent_hash: vec![1u8; 32],
        uncles_hash: vec![2u8; 32],
        author: vec![3u8; 20],
        state_root: vec![4u8; 32],
        transactions_root: vec![5u8; 32],
        receipts_root: vec![6u8; 32],
        gas_used: vec![7u8; 32],
        gas_limit: vec![8u8; 32],
        timestamp: vec![9u8; 32],
        difficulty: vec![10u8; 32],
        transactions: BlockTxs::Hashes(vec![vec![0xaa; 32], vec![0xbb; 32]]),
    };
    match block.to_var() {
        Value::Table(es) => {
            assert_eq!(es.len(), 11);
            assert_eq!(es[10].0, "transactions");
            match &es[10].1 {
                Value::List(ts) => {
                    assert_eq!(ts.len(), 2);
                    assert!(matches!(&ts[0], Value::Bytes(b) if *b == vec![0xaa; 32]));
                }
                _ => panic!("expected a sequence of hashes"),
            }
        }
        _ => panic!("expected a table"),
    }
}

#[test]
fn block_table_with_full_transactions() {
    let block = BlockRecord {
        parent_hash: vec![1u8; 32],
        uncles_hash: vec![2u8; 32],
        author: vec![3u8; 20],
        state_root: vec![4u8; 32],
        transactions_root: vec![5u8; 32],
        receipts_root: vec![6u8; 32],
        gas_used: vec![7u8; 32],
        gas_limit: vec![8u8; 32],
        timestamp: vec![9u8; 32],
        difficulty: vec![10u8; 32],
        transactions: BlockTxs::Full(vec![tx_sample()]),
    };
    match block.to_var() {
        Value::Table(es) => match &es[10].1 {
            Value::List(ts) => {
                assert_eq!(ts.len(), 1);
                assert!(matches!(&ts[0], Value::Table(_)));
            }
            _ => panic!("expected a sequence of records"),
        },
        _ => panic!("expected a table"),
    }
}
