//! The circuit that stands in for a chunk proof in a padding slot: its only
//! public input is the padding chunk's public input hash.
use crate::chunk::ChunkHash;
use crate::constants::DIGEST_LEN;
use crate::field::Fr;
use crate::hash::keccak256_digest;
use crate::linker::{byte_values, bytes_to_scalars};
use crate::util::values_of;
use vstd::prelude::*;

verus! {

/// A circuit whose public input is the public input hash of one chunk.
#[derive(Clone, Copy, Debug)]
pub struct PaddedChunkHashCircuit {
    padded_chunk: ChunkHash,
}

impl PaddedChunkHashCircuit {
    /// The chunk whose hash is the public input.
    pub closed spec fn chunk(&self) -> ChunkHash {
        self.padded_chunk
    }

    /// The circuit for the given chunk.
    pub fn new(padded_chunk: ChunkHash) -> (res: Self)
        ensures
            res.chunk() == padded_chunk,
    {
        Self { padded_chunk }
    }

    /// The public input: the 32 bytes of the chunk's public input hash, one
    /// field element each.
    pub fn instance(&self) -> (res: Vec<Fr>)
        ensures
            res@.len() == 32,
            values_of(res@) == byte_values(keccak256_digest(self.chunk().spec_preimage())),
    {
        let hash = self.padded_chunk.public_input_hash();
        bytes_to_scalars(hash.as_slice())
    }

    /// Number of elements in each instance column.
    pub fn num_instance(&self) -> (res: Vec<usize>)
        ensures
            res@ == seq![32usize],
    {
        let mut res: Vec<usize> = Vec::new();
        res.push(DIGEST_LEN);
        res
    }

    /// The instance columns: one, which holds the public input.
    pub fn instances(&self) -> (res: Vec<Vec<Fr>>)
        ensures
            res@.len() == 1,
            values_of(res@[0]@) == byte_values(keccak256_digest(self.chunk().spec_preimage())),
    {
        let mut res: Vec<Vec<Fr>> = Vec::new();
        res.push(self.instance());
        res
    }

    /// The instance holds no accumulator.
    pub fn accumulator_indices() -> (res: Option<Vec<(usize, usize)>>)
        ensures
            res.is_none(),
    {
        None
    }
}

} // verus!
