use blockstore::block::Block;
use rand::RngCore;
use sha2::{Digest, Sha256};

fn make_random_block(size: usize) -> Block {
    let mut data = vec![0u8; size];
    rand::rng().fill_bytes(&mut data);
    Block::new(data)
}

#[test]
fn should_evaluate_equal_blocks_as_equal() {
    let block1 = make_random_block(10);
    let block2 = Block::new(block1.data.clone());

    assert_eq!(block1, block2);
}

#[test]
fn should_not_evaluate_different_blocks_as_not_equal() {
    let block1 = make_random_block(10);
    let block2 = make_random_block(10);

    assert_ne!(block1, block2);
}

#[test]
fn addressing_is_deterministic() {
    let data = b"some block payload".to_vec();
    let block1 = Block::new(data.clone());
    let block2 = Block::new(data.clone());

    assert_eq!(block1.cid.codec, block2.cid.codec);
    assert_eq!(block1.cid.hash_code, block2.cid.hash_code);
    assert_eq!(block1.cid.digest, block2.cid.digest);

    // Equals an independently computed SHA-256 digest of the same bytes,
    // wrapped with the SHA2-256 code as both hash id and codec.
    let independent = Sha256::digest(&data);
    assert_eq!(block1.cid.digest.as_slice(), independent.as_slice());
    assert_eq!(block1.cid.codec, 0x12);
    assert_eq!(block1.cid.hash_code, 0x12);
}

#[test]
fn digest_matches_known_sha256_vector() {
    // SHA-256 of "abc", a published test vector.
    let block = Block::new(b"abc".to_vec());
    let expected: [u8; 32] = [
        0xba, 0x78, 0x16, 0xbf, 0x8f, 0x01, 0xcf, 0xea, 0x41, 0x41, 0x40, 0xde, 0x5d, 0xae,
        0x22, 0x23, 0xb0, 0x03, 0x61, 0xa3, 0x96, 0x17, 0x7a, 0x9c, 0xb4, 0x10, 0xff, 0x61,
        0xf2, 0x00, 0x15, 0xad,
    ];
    assert_eq!(block.cid.digest.as_slice(), &expected);
}

#[test]
fn rendering_matches_the_cid_crate() {
    let block = make_random_block(100);
    let rendered = block.cid.render();

    // Independently assemble the same identifier through the cid crate.
    let mh = multihash::Multihash::<64>::wrap(block.cid.hash_code, &block.cid.digest).unwrap();
    let cid = cid::Cid::new_v1(block.cid.codec, mh);
    assert_eq!(rendered, cid.to_string());

    assert!(!rendered.is_empty());
    assert!(rendered
        .chars()
        .all(|c| c.is_ascii_lowercase() || ('2'..='7').contains(&c)));
}
