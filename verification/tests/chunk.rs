use aggregator::chunk::{u64_to_be_bytes, ChunkHash};
use aggregator::hash::keccak256;
use sha3::{Digest, Keccak256};

fn reference_keccak(bytes: &[u8]) -> [u8; 32] {
    let mut hasher = Keccak256::new();
    hasher.update(bytes);
    hasher.finalize().into()
}

#[test]
fn keccak_of_empty_message() {
    let expected: [u8; 32] = [
        0xc5, 0xd2, 0x46, 0x01, 0x86, 0xf7, 0x23, 0x3c, 0x92, 0x7e, 0x7d, 0xb2, 0xdc, 0xc7, 0x03,
        0xc0, 0xe5, 0x00, 0xb6, 0x53, 0xca, 0x82, 0x27, 0x3b, 0x7b, 0xfa, 0xd8, 0x04, 0x5d, 0x85,
        0xa4, 0x70,
    ];
    assert_eq!(keccak256(&[]), expected);
    assert_eq!(reference_keccak(&[]), expected);
}

#[test]
fn chain_id_is_encoded_big_endian() {
    assert_eq!(u64_to_be_bytes(1), [0, 0, 0, 0, 0, 0, 0, 1]);
    assert_eq!(
        u64_to_be_bytes(0x0102030405060708),
        [1, 2, 3, 4, 5, 6, 7, 8]
    );
    assert_eq!(u64_to_be_bytes(u64::MAX), [0xff; 8]);
}

#[test]
fn chunk_preimage_layout() {
    let chunk = ChunkHash {
        chain_id: 0x0102,
        prev_state_root: [0x11; 32],
        post_state_root: [0x22; 32],
        withdraw_root: [0x33; 32],
        data_hash: [0x44; 32],
    };
    let preimage = chunk.extract_hash_preimage();
    assert_eq!(preimage.len(), 136);
    assert_eq!(&preimage[0..8], &[0, 0, 0, 0, 0, 0, 1, 2]);
    assert_eq!(&preimage[8..40], &[0x11; 32]);
    assert_eq!(&preimage[40..72], &[0x22; 32]);
    assert_eq!(&preimage[72..104], &[0x33; 32]);
    assert_eq!(&preimage[104..136], &[0x44; 32]);
    assert_eq!(chunk.public_input_hash(), reference_keccak(&preimage));
}

#[test]
fn a_padding_chunk_rests_on_the_chunk_before_it() {
    let chunk = ChunkHash {
        chain_id: 5,
        prev_state_root: [0x11; 32],
        post_state_root: [0x22; 32],
        withdraw_root: [0x33; 32],
        data_hash: [0x44; 32],
    };
    assert!(!chunk.is_padding());
    let padding = ChunkHash::padded_chunk_hash(&chunk);
    assert_eq!(padding.chain_id, 5);
    assert_eq!(padding.prev_state_root, [0x22; 32]);
    assert_eq!(padding.post_state_root, [0x22; 32]);
    assert_eq!(padding.withdraw_root, [0x33; 32]);
    assert_eq!(padding.data_hash, [0; 32]);
    assert!(padding.is_padding());
}

#[test]
fn padding_needs_both_conditions() {
    let mut chunk = ChunkHash::default();
    assert_eq!(chunk.chain_id, 0);
    assert!(chunk.is_padding());
    chunk.data_hash[31] = 1;
    assert!(!chunk.is_padding());
    chunk.data_hash[31] = 0;
    chunk.post_state_root[0] = 1;
    assert!(!chunk.is_padding());
    chunk.prev_state_root[0] = 1;
    assert!(chunk.is_padding());
}

#[test]
fn hashes_of_different_chunks_differ() {
    let chunk = ChunkHash {
        chain_id: 5,
        prev_state_root: [0x11; 32],
        post_state_root: [0x22; 32],
        withdraw_root: [0x33; 32],
        data_hash: [0x44; 32],
    };
    let mut other = chunk;
    other.chain_id = 6;
    assert_ne!(chunk.public_input_hash(), other.public_input_hash());
    assert_ne!(chunk.public_input_hash(), chunk.data_hash);
}
