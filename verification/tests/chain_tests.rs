use hash_ledger::block::{calculate_hash, generate_block_at, is_block_valid, Block};
use hash_ledger::chain::Blockchain;

const GENESIS_TIME: &str = "2024-01-01 00:00:00 UTC";
const GENESIS_HASH: &str = "9bae91e5a0d1057931342297eb1eefdb81e505a4a28f5ae861b16fec98d71e1f";
const FIRST_HASH: &str = "64e8f9a8d5e1fa9ab144dbe4bbb6935947eabc8c4f9143d524abee1a23f715d9";
const SECOND_HASH: &str = "3c524663882bf195f4e9c95d55b8452fb1b4cb5c5a4662949a426dbab4c8ac60";

fn assert_linked_chain(blocks: &[Block]) {
    assert!(!blocks.is_empty());
    assert_eq!(blocks[0].index, 0);
    assert_eq!(blocks[0].prev_hash, "");
    for (i, b) in blocks.iter().enumerate() {
        assert_eq!(b.index, i as u64);
        assert_eq!(b.hash, calculate_hash(b));
        if i > 0 {
            assert_eq!(b.prev_hash, blocks[i - 1].hash);
            assert!(is_block_valid(b, &blocks[i - 1]));
        }
    }
}

#[test]
fn new_ledger_holds_one_genesis_block() {
    let chain = Blockchain::new_at(GENESIS_TIME.to_string());
    assert_eq!(chain.len(), 1);
    let blocks = chain.snapshot();
    assert_eq!(blocks.len(), 1);
    assert_eq!(blocks[0].index, 0);
    assert_eq!(blocks[0].timestamp, GENESIS_TIME);
    assert_eq!(blocks[0].payload, 0);
    assert_eq!(blocks[0].prev_hash, "");
    assert_eq!(blocks[0].hash, GENESIS_HASH);
    assert_eq!(blocks[0].hash, calculate_hash(&blocks[0]));
}

#[test]
fn new_ledger_stamped_by_the_clock() {
    let chain = Blockchain::new();
    assert_eq!(chain.len(), 1);
    let g = chain.tail();
    assert_eq!(g.index, 0);
    assert_eq!(g.payload, 0);
    assert_eq!(g.prev_hash, "");
    assert!(!g.timestamp.is_empty());
    assert_eq!(g.hash, calculate_hash(g));
}

#[test]
fn end_to_end_scenario() {
    let mut chain = Blockchain::new_at(GENESIS_TIME.to_string());
    assert_eq!(chain.tail().index, 0);

    let b1 = chain.append_at(60, "2024-01-01 00:00:01 UTC".to_string());
    assert_eq!(b1.index, 1);
    assert_eq!(b1.payload, 60);
    assert_eq!(b1.prev_hash, GENESIS_HASH);
    assert_eq!(b1.hash, FIRST_HASH);
    assert_eq!(b1.hash, calculate_hash(&b1));

    let b2 = chain.append_at(75, "2024-01-01 00:00:02 UTC".to_string());
    assert_eq!(b2.index, 2);
    assert_eq!(b2.payload, 75);
    assert_eq!(b2.prev_hash, FIRST_HASH);
    assert_eq!(b2.hash, SECOND_HASH);

    let blocks = chain.snapshot();
    assert_eq!(blocks.len(), 3);
    assert_linked_chain(&blocks);
    assert_eq!(blocks[1].hash, b1.hash);
    assert_eq!(blocks[2].hash, b2.hash);
}

#[test]
fn end_to_end_scenario_with_the_clock() {
    let mut chain = Blockchain::new();
    let genesis_hash = chain.tail().hash.clone();
    let b1 = chain.append(60);
    assert_eq!(b1.index, 1);
    assert_eq!(b1.payload, 60);
    assert_eq!(b1.prev_hash, genesis_hash);
    assert_eq!(b1.hash, calculate_hash(&b1));
    let b2 = chain.append(75);
    assert_eq!(b2.index, 2);
    assert_eq!(b2.prev_hash, b1.hash);
    let blocks = chain.snapshot();
    assert_eq!(blocks.len(), 3);
    assert_linked_chain(&blocks);
}

#[test]
fn appends_grow_the_chain_one_by_one() {
    let mut chain = Blockchain::new_at("t0".to_string());
    for n in 1..=25u64 {
        let b = chain.append_at(n * 3, format!("t{}", n));
        assert_eq!(b.index, n);
        assert_eq!(chain.len() as u64, n + 1);
        assert_eq!(chain.tail().hash, b.hash);
    }
    let blocks = chain.snapshot();
    assert_eq!(blocks.len(), 26);
    assert_linked_chain(&blocks);
    for (i, b) in blocks.iter().enumerate().skip(1) {
        assert_eq!(b.payload, i as u64 * 3);
        assert_eq!(b.timestamp, format!("t{}", i));
    }
}

#[test]
fn append_keeps_earlier_blocks() {
    let mut chain = Blockchain::new_at("t0".to_string());
    chain.append_at(1, "t1".to_string());
    let before = chain.snapshot();
    chain.append_at(2, "t2".to_string());
    let after = chain.snapshot();
    assert_eq!(after.len(), before.len() + 1);
    for (old, new) in before.iter().zip(after.iter()) {
        assert_eq!(old.index, new.index);
        assert_eq!(old.timestamp, new.timestamp);
        assert_eq!(old.payload, new.payload);
        assert_eq!(old.hash, new.hash);
        assert_eq!(old.prev_hash, new.prev_hash);
    }
}

#[test]
fn snapshot_is_a_copy() {
    let mut chain = Blockchain::new_at("t0".to_string());
    let mut copy = chain.snapshot();
    copy[0].payload = 99;
    copy.clear();
    assert_eq!(chain.len(), 1);
    assert_eq!(chain.tail().payload, 0);
    chain.append_at(5, "t1".to_string());
    assert_eq!(copy.len(), 0);
    assert_eq!(chain.snapshot().len(), 2);
}

#[test]
fn commit_accepts_a_valid_successor() {
    let mut chain = Blockchain::new_at("t0".to_string());
    let candidate = generate_block_at(chain.tail(), 60, "t1".to_string());
    assert!(chain.commit(&candidate));
    assert_eq!(chain.len(), 2);
    assert_eq!(chain.tail().hash, candidate.hash);
    assert_eq!(chain.tail().payload, 60);
}

#[test]
fn commit_rejects_a_tampered_candidate_and_leaves_the_ledger() {
    let mut chain = Blockchain::new_at("t0".to_string());
    chain.append_at(1, "t1".to_string());
    let tail_hash = chain.tail().hash.clone();
    let good = generate_block_at(chain.tail(), 60, "t2".to_string());

    let mut t = good.clone();
    t.payload = 61;
    assert!(!chain.commit(&t));
    let mut t = good.clone();
    t.timestamp = "t3".to_string();
    assert!(!chain.commit(&t));
    let mut t = good.clone();
    t.index = 3;
    assert!(!chain.commit(&t));
    let mut t = good.clone();
    t.prev_hash = "0".repeat(64);
    assert!(!chain.commit(&t));
    let mut t = good.clone();
    t.hash = "0".repeat(64);
    assert!(!chain.commit(&t));

    assert_eq!(chain.len(), 2);
    assert_eq!(chain.tail().hash, tail_hash);
    assert_linked_chain(&chain.snapshot());
}

#[test]
fn commit_rejects_a_block_built_on_an_older_tail() {
    let mut chain = Blockchain::new_at("t0".to_string());
    let stale = generate_block_at(chain.tail(), 60, "t1".to_string());
    chain.append_at(75, "t1".to_string());
    assert!(!chain.commit(&stale));
    assert_eq!(chain.len(), 2);
    assert_eq!(chain.tail().payload, 75);
}

#[test]
fn commit_rejects_the_same_block_twice() {
    let mut chain = Blockchain::new_at("t0".to_string());
    let b = chain.append_at(60, "t1".to_string());
    assert!(!chain.commit(&b));
    assert_eq!(chain.len(), 2);
}
