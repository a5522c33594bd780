use blockstore::block::Block;
use blockstore::blockstore::{FSStore, StoreError, DEFAULT_CHARS_PER_LEVEL};
use blockstore::memstore::{Blockstore, MemStore};
use rand::RngCore;
use std::cmp::min;

fn make_random_block(size: usize) -> Block {
    let mut data = vec![0u8; size];
    rand::rng().fill_bytes(&mut data);
    Block::new(data)
}

#[test]
fn should_compute_correct_block_path() {
    let block = make_random_block(1_000);
    let cid_str = block.cid.render();
    let cpl = DEFAULT_CHARS_PER_LEVEL;
    let block_path = FSStore::block_path_raw(cpl, &block.cid);

    for (i, component) in block_path.iter().enumerate() {
        assert_eq!(
            &cid_str[i * cpl..min(cid_str.len(), (i + 1) * cpl)],
            component.as_str()
        );
    }
}

#[test]
fn should_put_block() {
    let mut store = MemStore::new();
    let block = make_random_block(1_000);

    store.put_block(&block).unwrap();

    let stored = store.get_block(&block.cid).unwrap().unwrap();
    assert_eq!(stored.data, block.data);
}

#[test]
fn should_get_block() {
    let mut store = MemStore::new();
    let stored = make_random_block(1_000);

    store.put_block(&stored).unwrap();
    let retrieved = store.get_block(&stored.cid).unwrap().unwrap();
    assert_eq!(stored, retrieved);
}

#[test]
fn should_contain_stored_blocks() {
    let mut store = MemStore::new();
    let block = make_random_block(1_000);

    assert!(!store.has_block(&block.cid));
    store.put_block(&block).unwrap();
    assert!(store.has_block(&block.cid));
}

#[test]
fn should_delete_block() {
    let mut store = MemStore::new();
    let block = make_random_block(1_000);

    store.put_block(&block).unwrap();
    assert!(store.has_block(&block.cid));
    store.del_block(&block.cid).unwrap();
    assert!(!store.has_block(&block.cid));
}

#[test]
fn round_trip_preserves_bytes_and_identifier() {
    let mut store = MemStore::new();
    let block = make_random_block(1_000);

    store.put_block(&block).unwrap();
    let retrieved = store.get_block(&block.cid).unwrap().unwrap();
    assert_eq!(retrieved.data, block.data);
    // The identifier is re-derived from the stored bytes, not trusted.
    assert_eq!(retrieved.cid.codec, block.cid.codec);
    assert_eq!(retrieved.cid.hash_code, block.cid.hash_code);
    assert_eq!(retrieved.cid.digest, block.cid.digest);
}

#[test]
fn get_of_absent_block_is_ok_none() {
    let store = MemStore::new();
    let block = make_random_block(64);

    let got = store.get_block(&block.cid).unwrap();
    assert!(got.is_none());
}

#[test]
fn delete_of_absent_block_is_an_error() {
    let mut store = MemStore::new();
    let block = make_random_block(64);

    assert_eq!(store.del_block(&block.cid), Err(StoreError::NotFound));

    store.put_block(&block).unwrap();
    store.del_block(&block.cid).unwrap();
    assert_eq!(store.del_block(&block.cid), Err(StoreError::NotFound));
}

#[test]
fn putting_twice_is_idempotent() {
    let mut store = MemStore::new();
    let block = make_random_block(32);

    store.put_block(&block).unwrap();
    store.put_block(&block).unwrap();
    let retrieved = store.get_block(&block.cid).unwrap().unwrap();
    assert_eq!(retrieved.data, block.data);
    store.del_block(&block.cid).unwrap();
    assert!(!store.has_block(&block.cid));
}

#[test]
fn sharded_path_has_ceil_length_components() {
    // Shard width 15 over a 1000-byte random block.
    let block = make_random_block(1_000);
    let cid_str = block.cid.render();
    let len = cid_str.len();
    let parts = FSStore::block_path_raw(15, &block.cid);

    assert_eq!(parts.len(), (len + 14) / 15);
    let mut rebuilt = String::new();
    for (i, part) in parts.iter().enumerate() {
        assert!(!part.is_empty());
        if i + 1 < parts.len() {
            assert_eq!(part.len(), 15);
        }
        rebuilt.push_str(part);
    }
    assert_eq!(rebuilt, cid_str);
}

#[test]
fn store_path_starts_at_the_root() {
    let store = FSStore::create(String::from("blocks-root"));
    assert_eq!(store.chars_per_level, DEFAULT_CHARS_PER_LEVEL);

    let block = make_random_block(100);
    let path = store.block_path(&block.cid);
    assert_eq!(path[0], "blocks-root");
    let raw = FSStore::block_path_raw(store.chars_per_level, &block.cid);
    assert_eq!(&path[1..], raw.as_slice());
}

#[test]
fn reopened_store_resolves_the_same_paths() {
    let block = make_random_block(200);
    let first = FSStore::create(String::from("same-root"));
    let second = FSStore::create(String::from("same-root"));

    assert_eq!(first.block_path(&block.cid), second.block_path(&block.cid));
}

#[test]
fn interpret_read_translates_only_not_found() {
    let bytes = b"read back from disk".to_vec();
    let got = FSStore::interpret_read(Ok(bytes.clone())).unwrap().unwrap();
    assert_eq!(got.data, bytes);
    let readdressed = Block::new(bytes);
    assert_eq!(got, readdressed);

    assert_eq!(FSStore::interpret_read(Err(StoreError::NotFound)), Ok(None));
    assert_eq!(
        FSStore::interpret_read(Err(StoreError::PermissionDenied)),
        Err(StoreError::PermissionDenied)
    );
    assert_eq!(
        FSStore::interpret_read(Err(StoreError::Encoding)),
        Err(StoreError::Encoding)
    );
    assert_eq!(
        FSStore::interpret_read(Err(StoreError::Other)),
        Err(StoreError::Other)
    );
}
