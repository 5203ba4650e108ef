use hash_ledger::block::{calculate_hash, is_block_valid, Block};
use hash_ledger::shared::{init_blockchain, SharedLedger};

fn assert_linked_chain(blocks: &[Block]) {
    assert!(!blocks.is_empty());
    assert_eq!(blocks[0].index, 0);
    assert_eq!(blocks[0].prev_hash, "");
    for (i, b) in blocks.iter().enumerate() {
        assert_eq!(b.index, i as u64);
        assert_eq!(b.hash, calculate_hash(b));
        if i > 0 {
            assert!(is_block_valid(b, &blocks[i - 1]));
        }
    }
}

#[test]
fn init_blockchain_holds_one_genesis_block() {
    let ledger = init_blockchain();
    let blocks = ledger.snapshot();
    assert_eq!(blocks.len(), 1);
    assert_eq!(blocks[0].index, 0);
    assert_eq!(blocks[0].payload, 0);
    assert_eq!(blocks[0].prev_hash, "");
    assert!(!blocks[0].timestamp.is_empty());
    assert_eq!(blocks[0].hash, calculate_hash(&blocks[0]));
}

#[test]
fn shared_ledger_new_at_uses_the_timestamp() {
    let ledger = SharedLedger::new_at("2024-01-01 00:00:00 UTC".to_string());
    let blocks = ledger.snapshot();
    assert_eq!(blocks.len(), 1);
    assert_eq!(blocks[0].timestamp, "2024-01-01 00:00:00 UTC");
    assert_eq!(
        blocks[0].hash,
        "9bae91e5a0d1057931342297eb1eefdb81e505a4a28f5ae861b16fec98d71e1f"
    );
}

#[test]
fn shared_append_returns_the_committed_block() {
    let ledger = SharedLedger::new_at("t0".to_string());
    let genesis_hash = ledger.snapshot()[0].hash.clone();
    let b1 = ledger.append_at(60, "t1".to_string());
    assert_eq!(b1.index, 1);
    assert_eq!(b1.payload, 60);
    assert_eq!(b1.timestamp, "t1");
    assert_eq!(b1.prev_hash, genesis_hash);
    let b2 = ledger.append(75);
    assert_eq!(b2.index, 2);
    assert_eq!(b2.payload, 75);
    assert_eq!(b2.prev_hash, b1.hash);
    let blocks = ledger.snapshot();
    assert_eq!(blocks.len(), 3);
    assert_linked_chain(&blocks);
    assert_eq!(blocks[2].hash, b2.hash);
}

#[test]
fn handles_share_one_ledger() {
    let first = SharedLedger::new_at("t0".to_string());
    let second = first.share();
    first.append_at(1, "t1".to_string());
    second.append_at(2, "t2".to_string());
    let seen_by_first = first.snapshot();
    let seen_by_second = second.snapshot();
    assert_eq!(seen_by_first.len(), 3);
    assert_eq!(seen_by_second.len(), 3);
    assert_eq!(seen_by_first[2].hash, seen_by_second[2].hash);
    assert_eq!(seen_by_first[1].payload, 1);
    assert_eq!(seen_by_first[2].payload, 2);
}

#[test]
fn lock_is_free_again_after_each_call() {
    let ledger = SharedLedger::new_at("t0".to_string());
    for n in 0..10u64 {
        ledger.append_at(n, format!("t{}", n + 1));
        assert_eq!(ledger.snapshot().len() as u64, n + 2);
    }
    assert_linked_chain(&ledger.snapshot());
}

#[test]
fn interleaved_writers_keep_the_chain_linked() {
    let ledger = SharedLedger::new_at("t0".to_string());
    let writers: Vec<SharedLedger> = (0..4).map(|_| ledger.share()).collect();
    let mut indices: Vec<u64> = Vec::new();
    for n in 0..25u64 {
        for (w, handle) in writers.iter().enumerate() {
            let payload = w as u64 * 1000 + n;
            let b = handle.append(payload);
            assert_eq!(b.payload, payload);
            indices.push(b.index);
            assert_linked_chain(&handle.snapshot());
        }
    }
    let expected: Vec<u64> = (1..=100).collect();
    assert_eq!(indices, expected);
    let blocks = ledger.snapshot();
    assert_eq!(blocks.len(), 101);
    assert_linked_chain(&blocks);
}
