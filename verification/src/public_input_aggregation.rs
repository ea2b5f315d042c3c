//! The circuit that hashes a batch: what it is built from, its public input,
//! and the cells of the Keccak table that its instance is tied to.
use crate::batch::{BatchHash, BatchHashView, ConstructionError};
use crate::chunk::{chain_id_bytes, push_hash, u64_to_be_bytes, ChunkHash};
use crate::linker::{
    cell_byte, flip_words, holds_messages_of, lemma_pi_preimage_fields, CellRef, HashCellsView,
};
use vstd::prelude::*;

verus! {

/// Public input to a batch circuit, in raw format: before it is turned into
/// field elements.
#[derive(Clone, Copy, Debug)]
pub struct BatchHashCircuitPublicInput {
    /// The chain of the batch.
    pub chain_id: u64,
    /// The state root before the first chunk.
    pub first_chunk_prev_state_root: [u8; 32],
    /// The state root after the last chunk.
    pub last_chunk_post_state_root: [u8; 32],
    /// The withdraw root after the last chunk.
    pub last_chunk_withdraw_root: [u8; 32],
    /// The batch's public input hash.
    pub batch_public_input_hash: [u8; 32],
}

impl BatchHashCircuitPublicInput {
    /// The 136 bytes of the instance: the three roots, the public input hash
    /// and the chain identifier, big-endian.
    pub open spec fn spec_instance(&self) -> Seq<u8> {
        self.first_chunk_prev_state_root@ + self.last_chunk_post_state_root@
            + self.last_chunk_withdraw_root@ + self.batch_public_input_hash@ + chain_id_bytes(
            self.chain_id,
        )
    }

    /// The bytes of the instance, in the order of its rows.
    pub fn instance(&self) -> (res: Vec<u8>)
        ensures
            res@ == self.spec_instance(),
            res@.len() == 136,
    {
        let mut res: Vec<u8> = Vec::new();
        push_hash(&mut res, &self.first_chunk_prev_state_root);
        push_hash(&mut res, &self.last_chunk_post_state_root);
        push_hash(&mut res, &self.last_chunk_withdraw_root);
        push_hash(&mut res, &self.batch_public_input_hash);
        let id = u64_to_be_bytes(self.chain_id);
        let ghost before = res@;
        let mut i: usize = 0;
        while i < 8
            invariant
                i <= 8,
                res@ == before + id@.subrange(0, i as int),
            decreases 8 - i,
        {
            res.push(id[i]);
            assert(id@.subrange(0, i + 1) =~= id@.subrange(0, i as int).push(id@[i as int]));
            i = i + 1;
        }
        assert(id@.subrange(0, 8) =~= id@);
        res
    }
}

/// The cell of the Keccak table that row `row` of the instance is tied to, in
/// a batch of `n` slots: the first chunk's previous state root, the last
/// slot's post state root and withdraw root, the digest of the batch's public
/// input hash with its words put back in order, and the chain identifier.
pub open spec fn instance_cell(n: nat, row: int) -> CellRef {
    if row < 32 {
        CellRef::Input { message: 2, offset: (8 + row) as usize }
    } else if row < 64 {
        CellRef::Input { message: (n + 1) as usize, offset: (8 + row) as usize }
    } else if row < 96 {
        CellRef::Input { message: (n + 1) as usize, offset: (8 + row) as usize }
    } else if row < 128 {
        CellRef::Digest { message: 0, offset: ((3 - (row - 96) / 8) * 8 + (row - 96) % 8) as usize }
    } else {
        CellRef::Input { message: 0, offset: (row - 128) as usize }
    }
}

/// The cells of the Keccak table that the 136 rows of the instance are tied
/// to, row by row, in a batch of `n` slots.
pub fn instance_cells(n: usize) -> (res: Vec<CellRef>)
    requires
        n < usize::MAX,
    ensures
        res@.len() == 136,
        forall|row: int| 0 <= row < 136 ==> res@[row] == instance_cell(n as nat, row),
{
    let mut res: Vec<CellRef> = Vec::new();
    let mut row: usize = 0;
    while row < 136
        invariant
            row <= 136,
            n < usize::MAX,
            res@.len() == row,
            forall|r: int| 0 <= r < row ==> res@[r] == instance_cell(n as nat, r),
        decreases 136 - row,
    {
        let cell = if row < 32 {
            CellRef::Input { message: 2, offset: 8 + row }
        } else if row < 96 {
            CellRef::Input { message: n + 1, offset: 8 + row }
        } else if row < 128 {
            CellRef::Digest { message: 0, offset: (3 - (row - 96) / 8) * 8 + (row - 96) % 8 }
        } else {
            CellRef::Input { message: 0, offset: row - 128 }
        };
        res.push(cell);
        row = row + 1;
    }
    res
}

/// The circuit of a batch: the chunks that were given, and the batch built
/// from them.
#[derive(Debug)]
pub struct BatchHashCircuit<const N: usize> {
    chain_id: u64,
    chunks: Vec<ChunkHash>,
    batch: BatchHash<N>,
}

/// The mathematical content of a batch circuit.
pub struct BatchHashCircuitView {
    /// The chain of the batch.
    pub chain_id: u64,
    /// The real chunks.
    pub chunks: Seq<ChunkHash>,
    /// The batch.
    pub batch: BatchHashView,
}

impl BatchHashCircuitView {
    /// What holds of every batch circuit of `n` slots.
    pub open spec fn wf(self, n: nat) -> bool {
        &&& self.batch.wf(n)
        &&& self.chunks == self.batch.real_chunks()
        &&& self.chain_id == self.batch.chain_id
    }
}

impl<const N: usize> View for BatchHashCircuit<N> {
    type V = BatchHashCircuitView;

    closed spec fn view(&self) -> BatchHashCircuitView {
        BatchHashCircuitView { chain_id: self.chain_id, chunks: self.chunks@, batch: self.batch@ }
    }
}

impl<const N: usize> BatchHashCircuit<N> {
    #[verifier::type_invariant]
    spec fn well_formed(self) -> bool {
        self@.wf(N as nat)
    }

    /// Builds the batch circuit from a list of chunks, which must make a batch.
    pub fn construct(chunk_hashes: &[ChunkHash]) -> (res: Result<Self, ConstructionError>)
        ensures
            res.is_ok() <==> crate::batch::construction_error(chunk_hashes@, N as nat).is_none(),
            res matches Ok(circuit) ==> circuit@.wf(N as nat) && circuit@.chunks == chunk_hashes@,
            res matches Err(e) ==> crate::batch::construction_error(chunk_hashes@, N as nat)
                == Some(e),
    {
        let batch = match BatchHash::<N>::construct(chunk_hashes) {
            Ok(batch) => batch,
            Err(e) => {
                return Err(e);
            },
        };
        let chain_id = batch.chain_id();
        let k = batch.number_of_valid_chunks();
        let mut chunks: Vec<ChunkHash> = Vec::new();
        let mut i: usize = 0;
        while i < k
            invariant
                i <= k,
                k == chunk_hashes@.len(),
                chunks@ == chunk_hashes@.subrange(0, i as int),
            decreases k - i,
        {
            chunks.push(chunk_hashes[i]);
            assert(chunk_hashes@.subrange(0, i + 1) =~= chunk_hashes@.subrange(0, i as int).push(
                chunk_hashes@[i as int],
            ));
            i = i + 1;
        }
        assert(chunk_hashes@.subrange(0, k as int) =~= chunk_hashes@);
        Ok(BatchHashCircuit { chain_id, chunks, batch })
    }

    /// The batch of this circuit.
    pub fn batch(&self) -> (res: &BatchHash<N>)
        ensures
            res@ == self@.batch,
            self@.wf(N as nat),
    {
        proof {
            use_type_invariant(self);
        }
        &self.batch
    }

    /// The public input to the circuit: the chain, the state root before the
    /// first chunk, the state root and the withdraw root after the last real
    /// chunk, and the batch's public input hash.
    pub fn public_input(&self) -> (res: BatchHashCircuitPublicInput)
        ensures
            self@.wf(N as nat),
            res.chain_id == self@.chain_id,
            res.first_chunk_prev_state_root == self@.chunks[0].prev_state_root,
            res.last_chunk_post_state_root == self@.chunks.last().post_state_root,
            res.last_chunk_withdraw_root == self@.chunks.last().withdraw_root,
            res.batch_public_input_hash@ == self@.batch.public_input_hash,
    {
        proof {
            use_type_invariant(self);
        }
        let k = self.batch.number_of_valid_chunks();
        assert(self.chunks@.len() == k);
        BatchHashCircuitPublicInput {
            chain_id: self.chain_id,
            first_chunk_prev_state_root: self.chunks[0].prev_state_root,
            last_chunk_post_state_root: self.chunks[k - 1].post_state_root,
            last_chunk_withdraw_root: self.chunks[k - 1].withdraw_root,
            batch_public_input_hash: self.batch.public_input_hash(),
        }
    }

    /// All the messages that are hashed for the batch: see
    /// `BatchHash::extract_hash_preimages`.
    pub fn extract_hash_preimages(&self) -> (res: Vec<Vec<u8>>)
        ensures
            res@.len() == N + 2,
            res@[0]@ == crate::batch::batch_pi_preimage(
                self@.batch.chain_id,
                self@.batch.chunks_with_padding,
                self@.batch.number_of_valid_chunks,
                self@.batch.data_hash,
            ),
            res@[1]@ == crate::batch::data_hash_preimage(self@.batch.chunks_with_padding),
            forall|i: int|
                0 <= i < N ==> (#[trigger] res@[i + 2])@
                    == self@.batch.chunks_with_padding[i].spec_preimage(),
    {
        self.batch.extract_hash_preimages()
    }
}

/// The bytes that the cells of the instance hold, row by row.
pub open spec fn instance_bytes(cells: HashCellsView, n: nat) -> Seq<u8> {
    Seq::new(136, |row: int| cell_byte(cells, instance_cell(n, row)))
}

/// The public input of a batch.
pub open spec fn public_input_of(batch: BatchHashView) -> Seq<u8> {
    batch.chunks_with_padding[0].prev_state_root@ + batch.chunks_with_padding[
        batch.number_of_valid_chunks - 1
    ].post_state_root@ + batch.chunks_with_padding[batch.number_of_valid_chunks
        - 1].withdraw_root@ + batch.public_input_hash + chain_id_bytes(batch.chain_id)
}

/// Where the table holds the messages of a batch, and the digest that it
/// squeezed for the first of them is the batch's public input hash with its
/// words in reverse order, the cells of the instance hold the public input
/// of the batch.
pub proof fn lemma_instance_cells_hold_the_public_input(
    cells: HashCellsView,
    batch: BatchHashView,
    n: nat,
)
    requires
        n + 2 <= usize::MAX,
        batch.wf(n),
        cells.well_shaped(n),
        holds_messages_of(cells, batch, n),
        flip_words(cells.digests[0]) == batch.public_input_hash,
    ensures
        instance_bytes(cells, n) == public_input_of(batch),
{
    let chunks = batch.chunks_with_padding;
    let k = batch.number_of_valid_chunks as int;
    let given = batch.real_chunks();
    assert(given[k - 1] == chunks[k - 1]);
    if k <= n - 1 {
        assert(chunks[n - 1].pads(&given[k - 1]));
    }
    lemma_pi_preimage_fields(
        batch.chain_id,
        chunks[0].prev_state_root@,
        chunks[k - 1].post_state_root@,
        chunks[k - 1].withdraw_root@,
        batch.data_hash,
    );
    assert(cells.preimages[0int + 2] == chunks[0].spec_preimage());
    lemma_pi_preimage_fields(
        chunks[0].chain_id,
        chunks[0].prev_state_root@,
        chunks[0].post_state_root@,
        chunks[0].withdraw_root@,
        chunks[0].data_hash@,
    );
    assert(cells.preimages[(n - 1) + 2] == chunks[n - 1].spec_preimage());
    lemma_pi_preimage_fields(
        chunks[n - 1].chain_id,
        chunks[n - 1].prev_state_root@,
        chunks[n - 1].post_state_root@,
        chunks[n - 1].withdraw_root@,
        chunks[n - 1].data_hash@,
    );
    let got = instance_bytes(cells, n);
    let want = public_input_of(batch);
    assert(want.len() == 136);
    assert forall|row: int| 0 <= row < 136 implies got[row] == want[row] by {
        let first = cells.preimages[2];
        let last = cells.preimages[n as int + 1];
        let head = cells.preimages[0];
        if row < 32 {
            assert(first[8 + row] == crate::linker::field_at(first, 8)[row]);
        } else if row < 64 {
            assert(last[8 + row] == crate::linker::field_at(last, 40)[row - 32]);
        } else if row < 96 {
            assert(last[8 + row] == crate::linker::field_at(last, 72)[row - 64]);
        } else if row < 128 {
            let j = row - 96;
            assert(flip_words(cells.digests[0])[j] == cells.digests[0][(3 - j / 8) * 8 + j % 8]);
        } else {
            assert(head[row - 128] == head.subrange(0, 8)[row - 128]);
        }
    }
    assert(got =~= want);
}

} // verus!
