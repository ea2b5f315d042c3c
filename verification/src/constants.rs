//! Sizes and offsets shared by every module.
use vstd::prelude::*;

verus! {

/// Largest number of chunk proofs that the production batch aggregates.
pub const MAX_AGG_SNARKS: usize = 10;

/// Number of bytes in a Keccak-256 digest.
pub const DIGEST_LEN: usize = 32;

/// Number of bytes that encode a chain identifier.
pub const CHAIN_ID_LEN: usize = 8;

/// Number of bytes that one Keccak absorption round takes in.
pub const ROUND_LEN: usize = 136;

/// Length of a chunk's, and of the batch's, public input hash preimage.
pub const PI_PREIMAGE_LEN: usize = 136;

/// Offset of the previous state root in a public input hash preimage.
pub const PREV_STATE_ROOT_INDEX: usize = 8;

/// Offset of the post state root in a public input hash preimage.
pub const POST_STATE_ROOT_INDEX: usize = 40;

/// Offset of the withdraw root in a public input hash preimage.
pub const WITHDRAW_ROOT_INDEX: usize = 72;

/// Offset of the data hash in a public input hash preimage.
pub const CHUNK_DATA_HASH_INDEX: usize = 104;

/// Number of limbs that hold one coordinate of a curve point.
pub const LIMBS: usize = 3;

/// Number of bits in one limb of a coordinate.
pub const BITS: usize = 88;

/// Number of instance elements that hold an accumulator: two points, two
/// coordinates each, `LIMBS` limbs per coordinate.
pub const ACC_LEN: usize = 12;

/// Number of permutation rounds of Keccak-f\[1600\].
pub const NUM_ROUNDS: usize = 24;

/// Rows that the Keccak table spends on one permutation round by default.
pub const DEFAULT_KECCAK_ROWS: usize = 12;

/// Rows that the Keccak table spends on one absorption round: one group of
/// `DEFAULT_KECCAK_ROWS` rows for each permutation round and one more to absorb.
pub const ROWS_PER_ABSORB: usize = 300;

/// First row, within an absorption round, of the rows that hold input bytes.
pub const INPUT_ROW_OFFSET: usize = 12;

/// First row, within an absorption round, of the rows that hold digest bytes.
pub const DIGEST_ROW_OFFSET: usize = 252;

} // verus!
