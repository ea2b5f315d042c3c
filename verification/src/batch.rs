//! A batch: a fixed number of chunk slots, the real chunks first and padding
//! after them, with the two hashes that commit to it.
use crate::chunk::{build_pi_preimage, hash_eq, pi_preimage, push_hash, zero_hash, ChunkHash};
use crate::field::Fr;
use crate::hash::{keccak256, keccak256_digest};
use crate::linker::{byte_values, bytes_to_scalars};
use crate::util::values_of;
use vstd::prelude::*;

verus! {

/// Why a list of chunks cannot be made into a batch.
#[derive(Clone, Copy, Debug, PartialEq, Eq)]
pub enum ConstructionError {
    /// There is no chunk, or there are more chunks than the batch has slots.
    InvalidChunkCount,
    /// The chunk at `index` is the first whose chain differs from the first chunk's.
    ChainIdMismatch { index: usize },
    /// The chunk at `index` is the first that does not start at the state
    /// root at which the chunk before it ends.
    BrokenChunkLinkage { index: usize },
}

/// A slot of a batch, told apart by what it holds.
#[derive(Clone, Copy, Debug)]
pub enum ChunkSlot {
    /// A chunk that was given.
    Real(ChunkHash),
    /// A chunk that fills the batch up.
    Padding(ChunkHash),
}

/// Whether every chunk is on the chain of the first.
pub open spec fn chain_ids_uniform(chunks: Seq<ChunkHash>) -> bool {
    forall|i: int| 0 <= i < chunks.len() ==> (#[trigger] chunks[i]).chain_id == chunks[0].chain_id
}

/// Whether chunk `i` starts where chunk `i - 1` ends.
pub open spec fn link_holds(chunks: Seq<ChunkHash>, i: int) -> bool {
    chunks[i].prev_state_root@ == chunks[i - 1].post_state_root@
}

/// Whether every chunk starts at the state root at which the one before it ends.
pub open spec fn chunks_linked(chunks: Seq<ChunkHash>) -> bool {
    forall|i: int| 1 <= i < chunks.len() ==> #[trigger] link_holds(chunks, i)
}

/// Whether `padded` holds the `given` chunks followed by padding chunks that
/// all rest on the last real chunk.
pub open spec fn is_padding_of(padded: Seq<ChunkHash>, given: Seq<ChunkHash>) -> bool {
    &&& 1 <= given.len() <= padded.len()
    &&& forall|i: int| 0 <= i < given.len() ==> #[trigger] padded[i] == given[i]
    &&& forall|i: int|
        given.len() <= i < padded.len() ==> (#[trigger] padded[i]).pads(&given[given.len() - 1])
}

/// The data hashes of all slots, one after the other.
pub open spec fn data_hash_preimage(chunks: Seq<ChunkHash>) -> Seq<u8> {
    Seq::new(32 * chunks.len(), |t: int| chunks[t / 32].data_hash@[t % 32])
}

/// The preimage of a batch's public input hash: the chain, the state root
/// before the first chunk, the state root and the withdraw root after the last
/// real chunk, and the batch's data hash.
pub open spec fn batch_pi_preimage(
    chain_id: u64,
    chunks: Seq<ChunkHash>,
    valid: nat,
    data_hash: Seq<u8>,
) -> Seq<u8> {
    pi_preimage(
        chain_id,
        chunks[0].prev_state_root@,
        chunks[valid - 1].post_state_root@,
        chunks[valid - 1].withdraw_root@,
        data_hash,
    )
}

/// What `BatchHash::construct` answers to the given chunks when the batch has
/// `n` slots: the first failed validation, if any.
pub open spec fn construction_error(chunks: Seq<ChunkHash>, n: nat) -> Option<ConstructionError> {
    if !chain_ids_uniform(chunks) {
        Some(ConstructionError::ChainIdMismatch { index: first_mismatch_index(chunks) as usize })
    } else if !chunks_linked(chunks) {
        Some(ConstructionError::BrokenChunkLinkage { index: first_broken_index(chunks) as usize })
    } else if chunks.len() == 0 || chunks.len() > n {
        Some(ConstructionError::InvalidChunkCount)
    } else {
        None
    }
}

/// The first chunk whose chain differs from the first chunk's, if there is one.
pub open spec fn first_mismatch_index(chunks: Seq<ChunkHash>) -> int {
    choose|i: int| first_chain_mismatch(chunks, i)
}

/// The first chunk that does not start where the one before it ends, if there is one.
pub open spec fn first_broken_index(chunks: Seq<ChunkHash>) -> int {
    choose|i: int| first_broken_link(chunks, i)
}

/// Whether `i` is the first chunk whose chain differs from the first chunk's.
pub open spec fn first_chain_mismatch(chunks: Seq<ChunkHash>, i: int) -> bool {
    &&& 0 <= i < chunks.len()
    &&& chunks[i].chain_id != chunks[0].chain_id
    &&& forall|j: int| 0 <= j < i ==> (#[trigger] chunks[j]).chain_id == chunks[0].chain_id
}

/// Whether `i` is the first chunk that does not start where the one before it ends.
pub open spec fn first_broken_link(chunks: Seq<ChunkHash>, i: int) -> bool {
    &&& 1 <= i < chunks.len()
    &&& !link_holds(chunks, i)
    &&& forall|j: int| 1 <= j < i ==> #[trigger] link_holds(chunks, j)
}

/// The mathematical content of a batch.
pub struct BatchHashView {
    /// The chain of every chunk.
    pub chain_id: u64,
    /// All slots: the real chunks, then the padding.
    pub chunks_with_padding: Seq<ChunkHash>,
    /// Keccak digest of the data hashes of all slots.
    pub data_hash: Seq<u8>,
    /// Keccak digest of the batch's public input hash preimage.
    pub public_input_hash: Seq<u8>,
    /// How many of the slots hold real chunks.
    pub number_of_valid_chunks: nat,
}

impl BatchHashView {
    /// The real chunks of the batch.
    pub open spec fn real_chunks(self) -> Seq<ChunkHash> {
        self.chunks_with_padding.subrange(0, self.number_of_valid_chunks as int)
    }

    /// What holds of every batch with `n` slots.
    pub open spec fn wf(self, n: nat) -> bool {
        &&& self.chunks_with_padding.len() == n
        &&& 1 <= self.number_of_valid_chunks <= n
        &&& chain_ids_uniform(self.chunks_with_padding)
        &&& self.chain_id == self.chunks_with_padding[0].chain_id
        &&& chunks_linked(self.chunks_with_padding)
        &&& is_padding_of(self.chunks_with_padding, self.real_chunks())
        &&& self.data_hash.len() == 32
        &&& self.public_input_hash.len() == 32
        &&& self.data_hash == keccak256_digest(data_hash_preimage(self.chunks_with_padding))
        &&& self.public_input_hash == keccak256_digest(
            batch_pi_preimage(
                self.chain_id,
                self.chunks_with_padding,
                self.number_of_valid_chunks,
                self.data_hash,
            ),
        )
    }
}

/// A batch of `N` chunk slots. The first `number_of_valid_chunks` slots hold
/// real chunks, each starting where the one before it ends; the others hold
/// padding chunks that rest on the last real chunk. It is built once and not
/// changed afterwards.
#[derive(Debug)]
pub struct BatchHash<const N: usize> {
    chain_id: u64,
    chunks_with_padding: Vec<ChunkHash>,
    data_hash: [u8; 32],
    public_input_hash: [u8; 32],
    number_of_valid_chunks: usize,
}

impl<const N: usize> View for BatchHash<N> {
    type V = BatchHashView;

    closed spec fn view(&self) -> BatchHashView {
        BatchHashView {
            chain_id: self.chain_id,
            chunks_with_padding: self.chunks_with_padding@,
            data_hash: self.data_hash@,
            public_input_hash: self.public_input_hash@,
            number_of_valid_chunks: self.number_of_valid_chunks as nat,
        }
    }
}

impl<const N: usize> Clone for BatchHash<N> {
    fn clone(&self) -> (res: Self)
        ensures
            res@ == self@,
    {
        proof {
            use_type_invariant(self);
        }
        let mut chunks: Vec<ChunkHash> = Vec::new();
        let mut i: usize = 0;
        while i < self.chunks_with_padding.len()
            invariant
                i <= self.chunks_with_padding@.len(),
                chunks@ == self.chunks_with_padding@.subrange(0, i as int),
            decreases self.chunks_with_padding@.len() - i,
        {
            chunks.push(self.chunks_with_padding[i]);
            assert(self.chunks_with_padding@.subrange(0, i + 1)
                =~= self.chunks_with_padding@.subrange(0, i as int).push(
                self.chunks_with_padding@[i as int],
            ));
            i = i + 1;
        }
        assert(self.chunks_with_padding@.subrange(0, self.chunks_with_padding@.len() as int)
            =~= self.chunks_with_padding@);
        BatchHash {
            chain_id: self.chain_id,
            chunks_with_padding: chunks,
            data_hash: self.data_hash,
            public_input_hash: self.public_input_hash,
            number_of_valid_chunks: self.number_of_valid_chunks,
        }
    }
}

/// Checks that every chunk is on the chain of the first.
pub fn check_chain_ids(chunks: &[ChunkHash]) -> (res: Option<usize>)
    ensures
        res.is_none() <==> chain_ids_uniform(chunks@),
        res matches Some(i) ==> first_chain_mismatch(chunks@, i as int),
{
    let mut i: usize = 0;
    while i < chunks.len()
        invariant
            i <= chunks.len(),
            forall|j: int| 0 <= j < i ==> (#[trigger] chunks@[j]).chain_id == chunks@[0].chain_id,
        decreases chunks.len() - i,
    {
        if chunks[i].chain_id != chunks[0].chain_id {
            return Some(i);
        }
        i = i + 1;
    }
    None
}

/// Checks that every chunk starts where the one before it ends.
pub fn check_linkage(chunks: &[ChunkHash]) -> (res: Option<usize>)
    ensures
        res.is_none() <==> chunks_linked(chunks@),
        res matches Some(i) ==> first_broken_link(chunks@, i as int),
{
    let mut i: usize = 1;
    while i < chunks.len()
        invariant
            1 <= i,
            forall|j: int| 1 <= j < i && j < chunks.len() ==> #[trigger] link_holds(chunks@, j),
        decreases chunks.len() - i,
    {
        if !hash_eq(&chunks[i].prev_state_root, &chunks[i - 1].post_state_root) {
            assert(!link_holds(chunks@, i as int));
            return Some(i);
        }
        assert(link_holds(chunks@, i as int));
        i = i + 1;
    }
    None
}

/// Fills the `n` slots of a batch: the real chunks, then padding chunks that
/// rest on the last of them. There must be at least one real chunk and no more
/// than `n`.
pub fn pad(real_chunks: &[ChunkHash], n: usize) -> (res: Result<Vec<ChunkHash>, ConstructionError>)
    ensures
        res.is_ok() <==> 1 <= real_chunks@.len() <= n,
        res matches Ok(padded) ==> padded@.len() == n && is_padding_of(padded@, real_chunks@),
        res matches Err(e) ==> e == ConstructionError::InvalidChunkCount,
{
    let k = real_chunks.len();
    if k == 0 || k > n {
        return Err(ConstructionError::InvalidChunkCount);
    }
    let mut padded: Vec<ChunkHash> = Vec::new();
    let mut i: usize = 0;
    while i < k
        invariant
            i <= k,
            k == real_chunks@.len(),
            padded@.len() == i,
            forall|j: int| 0 <= j < i ==> #[trigger] padded@[j] == real_chunks@[j],
        decreases k - i,
    {
        padded.push(real_chunks[i]);
        i = i + 1;
    }
    let padding = ChunkHash::padded_chunk_hash(&real_chunks[k - 1]);
    while i < n
        invariant
            k <= i <= n,
            1 <= k,
            k == real_chunks@.len(),
            padded@.len() == i,
            padding.pads(&real_chunks@[k - 1]),
            forall|j: int| 0 <= j < k ==> #[trigger] padded@[j] == real_chunks@[j],
            forall|j: int| k <= j < i ==> (#[trigger] padded@[j]).pads(&real_chunks@[k - 1]),
        decreases n - i,
    {
        padded.push(padding);
        i = i + 1;
    }
    Ok(padded)
}

/// Collects the data hashes of all the given chunks, one after the other.
pub fn concat_data_hashes(chunks: &[ChunkHash]) -> (res: Vec<u8>)
    ensures
        res@ == data_hash_preimage(chunks@),
{
    let mut out: Vec<u8> = Vec::new();
    let mut i: usize = 0;
    while i < chunks.len()
        invariant
            i <= chunks.len(),
            out@ == data_hash_preimage(chunks@.subrange(0, i as int)),
        decreases chunks.len() - i,
    {
        let ghost before = out@;
        push_hash(&mut out, &chunks[i].data_hash);
        proof {
            let s0 = chunks@.subrange(0, i as int);
            let s1 = chunks@.subrange(0, i + 1);
            assert(out@ =~= data_hash_preimage(s1)) by {
                assert(out@.len() == 32 * (i + 1));
                assert forall|t: int| 0 <= t < 32 * (i + 1) implies out@[t] == data_hash_preimage(
                    s1,
                )[t] by {
                    if t < 32 * i {
                        assert(out@[t] == before[t]);
                        assert(s0[t / 32] == s1[t / 32]);
                    } else {
                        assert(t / 32 == i && t % 32 == t - 32 * i);
                    }
                }
            }
        }
        i = i + 1;
    }
    assert(chunks@.subrange(0, chunks@.len() as int) =~= chunks@);
    out
}

/// A link that holds among the real chunks and the padding holds in the batch.
pub proof fn lemma_padding_keeps_links(padded: Seq<ChunkHash>, given: Seq<ChunkHash>)
    requires
        is_padding_of(padded, given),
        chunks_linked(given),
        chain_ids_uniform(given),
    ensures
        chunks_linked(padded),
        chain_ids_uniform(padded),
        forall|i: int| given.len() <= i < padded.len() ==> (#[trigger] padded[i]).spec_is_padding(),
{
    let k = given.len() as int;
    assert forall|i: int| 1 <= i < padded.len() implies #[trigger] link_holds(padded, i) by {
        if i < k {
            assert(padded[i] == given[i]);
            assert(padded[i - 1] == given[i - 1]);
            assert(link_holds(given, i));
        } else if i == k {
            assert(padded[i].pads(&given[k - 1]));
            assert(padded[i - 1] == given[k - 1]);
        } else {
            assert(padded[i].pads(&given[k - 1]));
            assert(padded[i - 1].pads(&given[k - 1]));
        }
    }
    assert forall|i: int| 0 <= i < padded.len() implies (#[trigger] padded[i]).chain_id
        == padded[0].chain_id by {
        assert(padded[0] == given[0]);
        if i < k {
            assert(padded[i] == given[i]);
        } else {
            assert(padded[i].pads(&given[k - 1]));
            assert(given[k - 1].chain_id == given[0].chain_id);
        }
    }
    assert forall|i: int| k <= i < padded.len() implies (#[trigger] padded[i]).spec_is_padding() by {
        assert(padded[i].pads(&given[k - 1]));
    }
}

impl<const N: usize> BatchHash<N> {
    #[verifier::type_invariant]
    spec fn well_formed(self) -> bool {
        self@.wf(N as nat)
    }

    /// Builds the batch of the given real chunks.
    ///
    /// The chunks must all be on one chain, and each must start at the state
    /// root at which the one before it ends; there must be at least one and
    /// no more than `N`. Otherwise the first of these that fails is reported.
    /// The batch holds the chunks followed by padding, the Keccak digest of
    /// all slots' data hashes, and the Keccak digest of the batch's public
    /// input hash preimage.
    pub fn construct(chunk_hashes: &[ChunkHash]) -> (res: Result<Self, ConstructionError>)
        ensures
            res.is_ok() <==> construction_error(chunk_hashes@, N as nat).is_none(),
            res matches Ok(batch) ==> {
                &&& batch@.wf(N as nat)
                &&& batch@.number_of_valid_chunks == chunk_hashes@.len()
                &&& batch@.real_chunks() == chunk_hashes@
                &&& forall|i: int|
                    chunk_hashes@.len() <= i < N ==> (
                    #[trigger] batch@.chunks_with_padding[i]).spec_is_padding()
            },
            res matches Err(e) ==> construction_error(chunk_hashes@, N as nat) == Some(e),
            res matches Err(ConstructionError::ChainIdMismatch { index }) ==> first_chain_mismatch(
                chunk_hashes@,
                index as int,
            ),
            res matches Err(ConstructionError::BrokenChunkLinkage { index }) ==> first_broken_link(
                chunk_hashes@,
                index as int,
            ),
    {
        match check_chain_ids(chunk_hashes) {
            Some(index) => {
                proof {
                    lemma_first_chain_mismatch_unique(chunk_hashes@, index as int);
                }
                return Err(ConstructionError::ChainIdMismatch { index });
            },
            None => {},
        }
        match check_linkage(chunk_hashes) {
            Some(index) => {
                proof {
                    lemma_first_broken_link_unique(chunk_hashes@, index as int);
                }
                return Err(ConstructionError::BrokenChunkLinkage { index });
            },
            None => {},
        }
        let chunks_with_padding = match pad(chunk_hashes, N) {
            Ok(padded) => padded,
            Err(e) => {
                return Err(e);
            },
        };
        let k = chunk_hashes.len();
        proof {
            lemma_padding_keeps_links(chunks_with_padding@, chunk_hashes@);
            assert(chunks_with_padding@.subrange(0, k as int) =~= chunk_hashes@);
        }
        let chain_id = chunks_with_padding[0].chain_id;
        let data_preimage = concat_data_hashes(chunks_with_padding.as_slice());
        let data_hash = keccak256(data_preimage.as_slice());
        let pi_bytes = build_pi_preimage(
            chain_id,
            &chunks_with_padding[0].prev_state_root,
            &chunks_with_padding[k - 1].post_state_root,
            &chunks_with_padding[k - 1].withdraw_root,
            &data_hash,
        );
        let public_input_hash = keccak256(pi_bytes.as_slice());
        Ok(
            BatchHash {
                chain_id,
                chunks_with_padding,
                data_hash,
                public_input_hash,
                number_of_valid_chunks: k,
            },
        )
    }

    /// The chain of every chunk of the batch.
    pub fn chain_id(&self) -> (res: u64)
        ensures
            res == self@.chain_id,
    {
        self.chain_id
    }

    /// All `N` slots: the real chunks, then the padding.
    pub fn chunks_with_padding(&self) -> (res: &[ChunkHash])
        ensures
            res@ == self@.chunks_with_padding,
            res@.len() == N,
            self@.wf(N as nat),
    {
        proof {
            use_type_invariant(self);
        }
        self.chunks_with_padding.as_slice()
    }

    /// The Keccak digest of the data hashes of all slots.
    pub fn data_hash(&self) -> (res: [u8; 32])
        ensures
            res@ == self@.data_hash,
    {
        self.data_hash
    }

    /// The Keccak digest of the batch's public input hash preimage.
    pub fn public_input_hash(&self) -> (res: [u8; 32])
        ensures
            res@ == self@.public_input_hash,
    {
        self.public_input_hash
    }

    /// How many of the slots hold real chunks.
    pub fn number_of_valid_chunks(&self) -> (res: usize)
        ensures
            res == self@.number_of_valid_chunks,
            1 <= res <= N,
            self@.wf(N as nat),
    {
        proof {
            use_type_invariant(self);
        }
        self.number_of_valid_chunks
    }

    /// The instance columns of the batch without an accumulator: one column,
    /// which holds the 32 bytes of the public input hash, one element each.
    pub fn instances_exclude_acc(&self) -> (res: Vec<Vec<Fr>>)
        ensures
            res@.len() == 1,
            res@[0]@.len() == 32,
            values_of(res@[0]@) == byte_values(self@.public_input_hash),
    {
        let mut res: Vec<Vec<Fr>> = Vec::new();
        res.push(bytes_to_scalars(self.public_input_hash.as_slice()));
        res
    }

    /// Slot `i` of the batch: a real chunk if it is among the first
    /// `number_of_valid_chunks`, a padding chunk else.
    pub fn slot(&self, i: usize) -> (res: ChunkSlot)
        requires
            i < N,
        ensures
            i < self@.number_of_valid_chunks ==> res == ChunkSlot::Real(
                self@.chunks_with_padding[i as int],
            ),
            i >= self@.number_of_valid_chunks ==> res == ChunkSlot::Padding(
                self@.chunks_with_padding[i as int],
            ) && self@.chunks_with_padding[i as int].spec_is_padding(),
    {
        proof {
            use_type_invariant(self);
            if i >= self.number_of_valid_chunks {
                assert(self@.chunks_with_padding[i as int].pads(
                    &self@.real_chunks()[self@.number_of_valid_chunks - 1],
                ));
            }
        }
        if i < self.number_of_valid_chunks {
            ChunkSlot::Real(self.chunks_with_padding[i])
        } else {
            ChunkSlot::Padding(self.chunks_with_padding[i])
        }
    }

    /// All the messages that are hashed for this batch, `N + 2` of them:
    /// first the preimage of the batch's public input hash, then the data
    /// hashes of all slots, then the preimage of each slot's chunk hash.
    pub fn extract_hash_preimages(&self) -> (res: Vec<Vec<u8>>)
        ensures
            self@.wf(N as nat),
            res@.len() == N + 2,
            res@[0]@ == batch_pi_preimage(
                self@.chain_id,
                self@.chunks_with_padding,
                self@.number_of_valid_chunks,
                self@.data_hash,
            ),
            res@[0]@.len() == 136,
            res@[1]@ == data_hash_preimage(self@.chunks_with_padding),
            res@[1]@.len() == 32 * N,
            forall|i: int|
                0 <= i < N ==> (#[trigger] res@[i + 2])@
                    == self@.chunks_with_padding[i].spec_preimage(),
            forall|i: int| 0 <= i < N ==> (#[trigger] res@[i + 2])@.len() == 136,
    {
        proof {
            use_type_invariant(self);
        }
        let k = self.number_of_valid_chunks;
        let mut res: Vec<Vec<u8>> = Vec::new();
        res.push(
            build_pi_preimage(
                self.chain_id,
                &self.chunks_with_padding[0].prev_state_root,
                &self.chunks_with_padding[k - 1].post_state_root,
                &self.chunks_with_padding[k - 1].withdraw_root,
                &self.data_hash,
            ),
        );
        res.push(concat_data_hashes(self.chunks_with_padding.as_slice()));
        let mut i: usize = 0;
        while i < N
            invariant
                i <= N,
                self.chunks_with_padding@.len() == N,
                res@.len() == i + 2,
                res@[0]@ == batch_pi_preimage(
                    self@.chain_id,
                    self@.chunks_with_padding,
                    self@.number_of_valid_chunks,
                    self@.data_hash,
                ),
                res@[0]@.len() == 136,
                res@[1]@ == data_hash_preimage(self@.chunks_with_padding),
                forall|j: int|
                    0 <= j < i ==> (#[trigger] res@[j + 2])@
                        == self@.chunks_with_padding[j].spec_preimage(),
                forall|j: int| 0 <= j < i ==> (#[trigger] res@[j + 2])@.len() == 136,
            decreases N - i,
        {
            res.push(self.chunks_with_padding[i].extract_hash_preimage());
            i = i + 1;
        }
        res
    }
}

/// There is one first chunk on another chain, if any.
pub proof fn lemma_first_chain_mismatch_unique(chunks: Seq<ChunkHash>, i: int)
    requires
        first_chain_mismatch(chunks, i),
    ensures
        !chain_ids_uniform(chunks),
        first_mismatch_index(chunks) == i,
{
    let c = choose|j: int| first_chain_mismatch(chunks, j);
    assert(first_chain_mismatch(chunks, c));
    if c < i {
        assert(chunks[c].chain_id == chunks[0].chain_id);
    } else if i < c {
        assert(chunks[i].chain_id == chunks[0].chain_id);
    }
}

/// There is one first broken link, if any.
pub proof fn lemma_first_broken_link_unique(chunks: Seq<ChunkHash>, i: int)
    requires
        first_broken_link(chunks, i),
    ensures
        !chunks_linked(chunks),
        first_broken_index(chunks) == i,
{
    let c = choose|j: int| first_broken_link(chunks, j);
    assert(first_broken_link(chunks, c));
    if c < i {
        assert(link_holds(chunks, c));
    } else if i < c {
        assert(link_holds(chunks, i));
    }
}

/// Between 1 and `n` chunks on one chain, each starting where the one before
/// it ends, always make a batch of `n` slots.
pub proof fn lemma_linked_chunks_make_a_batch(chunks: Seq<ChunkHash>, n: nat)
    requires
        1 <= chunks.len() <= n,
        chain_ids_uniform(chunks),
        chunks_linked(chunks),
    ensures
        construction_error(chunks, n).is_none(),
{
}

/// The chunk with another state root before it.
pub open spec fn with_prev_state_root(chunk: ChunkHash, root: [u8; 32]) -> ChunkHash {
    ChunkHash {
        chain_id: chunk.chain_id,
        prev_state_root: root,
        post_state_root: chunk.post_state_root,
        withdraw_root: chunk.withdraw_root,
        data_hash: chunk.data_hash,
    }
}

/// If, in a list of chunks that makes a batch, one chunk after the first is
/// given a previous state root other than the post state root of the chunk
/// before it, the list is rejected for its broken linkage at that chunk.
pub proof fn lemma_corrupted_link_is_rejected(
    chunks: Seq<ChunkHash>,
    n: nat,
    i: int,
    root: [u8; 32],
)
    requires
        construction_error(chunks, n).is_none(),
        1 <= i < chunks.len(),
        chunks.len() <= usize::MAX,
        root@ != chunks[i - 1].post_state_root@,
    ensures
        construction_error(chunks.update(i, with_prev_state_root(chunks[i], root)), n) == Some(
            ConstructionError::BrokenChunkLinkage { index: i as usize },
        ),
{
    let corrupted = chunks.update(i, with_prev_state_root(chunks[i], root));
    assert forall|j: int| 0 <= j < corrupted.len() implies (#[trigger] corrupted[j]).chain_id
        == corrupted[0].chain_id by {
        assert(chunks[j].chain_id == chunks[0].chain_id);
    }
    assert(!link_holds(corrupted, i));
    assert forall|j: int| 1 <= j < i implies #[trigger] link_holds(corrupted, j) by {
        assert(link_holds(chunks, j));
    }
    assert(first_broken_link(corrupted, i));
    lemma_first_broken_link_unique(corrupted, i);
}

/// The message that a batch's data hash is taken of holds the data hashes of
/// the real chunks, and zero bytes after them.
pub proof fn lemma_data_hash_preimage_of_batch(batch: BatchHashView, n: nat)
    requires
        batch.wf(n),
    ensures
        data_hash_preimage(batch.chunks_with_padding).len() == 32 * n,
        data_hash_preimage(batch.chunks_with_padding).subrange(
            0,
            32 * batch.number_of_valid_chunks as int,
        ) == data_hash_preimage(batch.real_chunks()),
        forall|t: int|
            32 * batch.number_of_valid_chunks <= t < 32 * n ==> data_hash_preimage(
                batch.chunks_with_padding,
            )[t] == 0,
{
    let chunks = batch.chunks_with_padding;
    let k = batch.number_of_valid_chunks as int;
    let given = batch.real_chunks();
    let all = data_hash_preimage(chunks);
    assert(all.subrange(0, 32 * k) =~= data_hash_preimage(given)) by {
        assert forall|t: int| 0 <= t < 32 * k implies all[t] == data_hash_preimage(given)[t] by {
            assert(given[t / 32] == chunks[t / 32]);
        }
    }
    assert forall|t: int| 32 * k <= t < 32 * n implies all[t] == 0 by {
        let i = t / 32;
        assert(chunks[i].pads(&given[k - 1]));
        assert(zero_hash()[t % 32] == 0);
    }
}

} // verus!
