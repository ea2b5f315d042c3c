//! Aggregation of the chunk proofs of a batch.
//!
//! A batch is a fixed number of chunk slots: the real chunks, each starting
//! at the state root at which the one before it ends, and padding after them.
//! This library builds the batch and its hashes (`chunk`, `batch`), states and
//! checks the rules that tie the hashes together as a Keccak table holds them
//! (`linker`, with the table's layout in `util`), folds the accumulators of
//! the chunk proofs into one and lays out the public instance of the
//! aggregate (`aggregation`). Field elements and points are plain integers
//! here (`field`); Keccak, the field arithmetic and the folding itself are
//! done by the libraries that the proofs are made with.
pub mod aggregation;
pub mod batch;
pub mod chunk;
pub mod constants;
pub mod field;
pub mod hash;
pub mod linker;
pub mod padded_chunk_circuit;
pub mod public_input_aggregation;
pub mod util;
