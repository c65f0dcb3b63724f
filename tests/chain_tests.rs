use hashchain::block::Block;
use hashchain::blockchain::Blockchain;
use hashchain::error::ChainError;

fn record(ts: u128, data: &str, prev: &str, hash: &str, nonce: i32) -> Vec<u8> {
    bincode::serialize(&(ts, data.to_string(), prev.to_string(), hash.to_string(), nonce)).unwrap()
}

fn temporary_store() -> sled::Db {
    sled::Config::new().temporary(true).open().unwrap()
}

/// A store holding a chain of `n` blocks named `h0` (genesis) to `h{n-1}` (tip).
fn store_with_chain(n: usize) -> sled::Db {
    let db = temporary_store();
    for i in 0..n {
        let prev = if i == 0 { String::new() } else { format!("h{}", i - 1) };
        let data = if i == 0 { "Genesis Block".to_string() } else { format!("block {}", i) };
        let hash = format!("h{}", i);
        db.insert(hash.as_bytes(), record(1000 + i as u128, &data, &prev, &hash, i as i32))
            .unwrap();
    }
    db.insert("LAST", format!("h{}", n - 1).as_bytes()).unwrap();
    db
}

#[test]
fn existing_tip_is_taken_from_the_store() {
    let bc = Blockchain::from_store(store_with_chain(3)).unwrap();
    assert_eq!(bc.get_tip(), "h2");
}

#[test]
fn opening_an_initialized_store_adds_no_block() {
    let db = store_with_chain(1);
    let before = db.len();
    let first = Blockchain::from_store(db).unwrap();
    assert_eq!(first.get_tip(), "h0");
    let second = Blockchain::from_store(first.into_store()).unwrap();
    assert_eq!(second.get_tip(), "h0");
    assert_eq!(second.blocks().len(), 1);
    assert_eq!(second.into_store().len(), before);
}

#[test]
fn lookup_of_text_becomes_the_tip() {
    let bc = Blockchain::from_lookup(store_with_chain(2), Some(b"h1".to_vec())).unwrap();
    assert_eq!(bc.get_tip(), "h1");
    assert_eq!(bc.blocks().len(), 2);
}

#[test]
fn lookup_of_non_text_is_a_utf8_error() {
    let r = Blockchain::from_lookup(temporary_store(), Some(vec![0xc3u8, 0x28]));
    assert!(matches!(r, Err(ChainError::Utf8)));
}

#[test]
fn adding_after_non_text_tip_changes_nothing() {
    let mut bc = Blockchain::from_store(store_with_chain(2)).unwrap();
    let r = bc.add_block_after(vec![0xffu8], "data".to_string());
    assert!(matches!(r, Err(ChainError::Utf8)));
    assert_eq!(bc.get_tip(), "h1");
    assert_eq!(bc.blocks().len(), 2);
    assert_eq!(bc.into_store().len(), 3);
}

#[test]
fn traversal_goes_from_tip_to_genesis() {
    let db = temporary_store();
    db.insert("g", record(1, "Genesis Block", "", "g", 0)).unwrap();
    db.insert("a", record(2, "A", "g", "a", 0)).unwrap();
    db.insert("b", record(3, "B", "a", "b", 0)).unwrap();
    db.insert("LAST", "b").unwrap();
    let bc = Blockchain::from_store(db).unwrap();
    let blocks = bc.blocks();
    let data: Vec<String> = blocks.iter().map(|b| b.get_data()).collect();
    assert_eq!(data, vec!["B", "A", "Genesis Block"]);
    assert_eq!(blocks[0].get_prev_hash(), blocks[1].get_hash());
    assert_eq!(blocks[1].get_prev_hash(), blocks[2].get_hash());
    assert_eq!(blocks[2].get_prev_hash(), "");
}

#[test]
fn traversal_yields_exactly_the_chain_length() {
    for n in 1..6 {
        let bc = Blockchain::from_store(store_with_chain(n)).unwrap();
        assert_eq!(bc.blocks().len(), n);
    }
}

#[test]
fn traversal_can_be_restarted() {
    let bc = Blockchain::from_store(store_with_chain(4)).unwrap();
    let first: Vec<String> = bc.blocks().iter().map(|b| b.get_hash()).collect();
    let second: Vec<String> = bc.blocks().iter().map(|b| b.get_hash()).collect();
    assert_eq!(first, vec!["h3", "h2", "h1", "h0"]);
    assert_eq!(first, second);
}

#[test]
fn iterator_stops_after_genesis_and_stays_there() {
    let bc = Blockchain::from_store(store_with_chain(2)).unwrap();
    let mut it = bc.iter();
    assert_eq!(it.next().unwrap().get_hash(), "h1");
    assert_eq!(it.next().unwrap().get_hash(), "h0");
    assert!(it.next().is_none());
    assert!(it.next().is_none());
}

#[test]
fn traversal_from_a_chosen_hash() {
    let bc = Blockchain::from_store(store_with_chain(4)).unwrap();
    let mut it = bc.iter_from("h1".to_string());
    assert_eq!(it.next().unwrap().get_data(), "block 1");
    assert_eq!(it.next().unwrap().get_data(), "Genesis Block");
    assert!(it.next().is_none());
}

#[test]
fn traversal_ends_early_at_a_missing_block() {
    let db = store_with_chain(3);
    db.remove("h1").unwrap();
    let bc = Blockchain::from_store(db).unwrap();
    let hashes: Vec<String> = bc.blocks().iter().map(|b| b.get_hash()).collect();
    assert_eq!(hashes, vec!["h2"]);
}

#[test]
fn traversal_ends_early_at_an_undecodable_block() {
    let db = store_with_chain(3);
    db.insert("h1", vec![1u8, 2, 3]).unwrap();
    let bc = Blockchain::from_store(db).unwrap();
    assert_eq!(bc.blocks().len(), 1);
}

#[test]
fn advance_decodes_the_given_record() {
    let bc = Blockchain::from_store(store_with_chain(1)).unwrap();
    let mut it = bc.iter_from("x".to_string());
    assert!(it.advance(None).is_none());
    assert!(it.advance(Some(vec![9, 9])).is_none());
    let b = it.advance(Some(record(7, "D", "h0", "x", 1))).unwrap();
    assert_eq!(b.get_data(), "D");
    assert_eq!(it.next().unwrap().get_hash(), "h0");
    assert!(it.next().is_none());
}

#[test]
fn tip_that_is_not_text_is_a_utf8_error() {
    let db = temporary_store();
    db.insert("LAST", vec![0xffu8, 0xfe]).unwrap();
    assert!(matches!(Blockchain::from_store(db), Err(ChainError::Utf8)));
}

#[test]
fn stored_block_does_not_validate_without_work() {
    let bc = Blockchain::from_store(store_with_chain(2)).unwrap();
    let blocks: Vec<Block> = bc.blocks();
    assert_eq!(blocks[0].validate().unwrap(), false);
}

#[test]
fn try_blocks_reads_the_whole_chain() {
    let bc = Blockchain::from_store(store_with_chain(3)).unwrap();
    let hashes: Vec<String> = bc.try_blocks().unwrap().iter().map(|b| b.get_hash()).collect();
    assert_eq!(hashes, vec!["h2", "h1", "h0"]);
}

#[test]
fn try_next_ends_with_ok_none() {
    let bc = Blockchain::from_store(store_with_chain(1)).unwrap();
    let mut it = bc.iter();
    assert_eq!(it.try_next().unwrap().unwrap().get_hash(), "h0");
    assert!(it.try_next().unwrap().is_none());
}

#[test]
fn empty_start_yields_nothing() {
    let bc = Blockchain::from_store(store_with_chain(2)).unwrap();
    let mut it = bc.iter_from(String::new());
    assert!(it.next().is_none());
    assert!(it.advance(Some(record(1, "x", "", "y", 0))).is_none());
}
