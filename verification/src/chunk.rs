//! A chunk of blocks, summarised by the commitments that it changes.
use crate::hash::{keccak256, keccak256_digest};
use vstd::prelude::*;

verus! {

/// Byte `i` of the big-endian encoding of `x` in eight bytes.
pub open spec fn be_byte(x: u64, i: int) -> u8 {
    if i == 0 {
        ((x as nat / 0x100_0000_0000_0000) % 256) as u8
    } else if i == 1 {
        ((x as nat / 0x1_0000_0000_0000) % 256) as u8
    } else if i == 2 {
        ((x as nat / 0x100_0000_0000) % 256) as u8
    } else if i == 3 {
        ((x as nat / 0x1_0000_0000) % 256) as u8
    } else if i == 4 {
        ((x as nat / 0x100_0000) % 256) as u8
    } else if i == 5 {
        ((x as nat / 0x1_0000) % 256) as u8
    } else if i == 6 {
        ((x as nat / 0x100) % 256) as u8
    } else {
        (x as nat % 256) as u8
    }
}

/// The big-endian encoding of a chain identifier in eight bytes.
pub open spec fn chain_id_bytes(chain_id: u64) -> Seq<u8> {
    Seq::new(8, |i: int| be_byte(chain_id, i))
}

/// Thirty-two zero bytes.
pub open spec fn zero_hash() -> Seq<u8> {
    Seq::new(32, |i: int| 0u8)
}

/// The preimage of a public input hash: the chain identifier, big-endian, and
/// four 32-byte commitments, 136 bytes in all.
pub open spec fn pi_preimage(
    chain_id: u64,
    prev_state_root: Seq<u8>,
    post_state_root: Seq<u8>,
    withdraw_root: Seq<u8>,
    data_hash: Seq<u8>,
) -> Seq<u8> {
    chain_id_bytes(chain_id) + prev_state_root + post_state_root + withdraw_root + data_hash
}

/// The big-endian encoding of `x` in eight bytes.
pub fn u64_to_be_bytes(x: u64) -> (out: [u8; 8])
    ensures
        out@ == chain_id_bytes(x),
{
    let out: [u8; 8] = [
        (x >> 56) as u8,
        ((x >> 48) & 0xff) as u8,
        ((x >> 40) & 0xff) as u8,
        ((x >> 32) & 0xff) as u8,
        ((x >> 24) & 0xff) as u8,
        ((x >> 16) & 0xff) as u8,
        ((x >> 8) & 0xff) as u8,
        (x & 0xff) as u8,
    ];
    proof {
        assert((x >> 56) == (x / 0x100_0000_0000_0000) % 256) by (bit_vector);
        assert(((x >> 48) & 0xff) == (x / 0x1_0000_0000_0000) % 256) by (bit_vector);
        assert(((x >> 40) & 0xff) == (x / 0x100_0000_0000) % 256) by (bit_vector);
        assert(((x >> 32) & 0xff) == (x / 0x1_0000_0000) % 256) by (bit_vector);
        assert(((x >> 24) & 0xff) == (x / 0x100_0000) % 256) by (bit_vector);
        assert(((x >> 16) & 0xff) == (x / 0x1_0000) % 256) by (bit_vector);
        assert(((x >> 8) & 0xff) == (x / 0x100) % 256) by (bit_vector);
        assert((x & 0xff) == x % 256) by (bit_vector);
        assert(out@ =~= chain_id_bytes(x));
    }
    out
}

/// Whether the two hashes hold the same bytes.
pub fn hash_eq(a: &[u8; 32], b: &[u8; 32]) -> (res: bool)
    ensures
        res == (a@ == b@),
{
    let mut i: usize = 0;
    while i < 32
        invariant
            i <= 32,
            forall|j: int| 0 <= j < i ==> a[j] == b[j],
        decreases 32 - i,
    {
        if a[i] != b[i] {
            return false;
        }
        i = i + 1;
    }
    assert(a@ =~= b@);
    true
}

/// Whether all 32 bytes are zero.
pub fn hash_is_zero(a: &[u8; 32]) -> (res: bool)
    ensures
        res == (a@ == zero_hash()),
{
    let mut i: usize = 0;
    while i < 32
        invariant
            i <= 32,
            forall|j: int| 0 <= j < i ==> a[j] == 0,
        decreases 32 - i,
    {
        if a[i] != 0 {
            assert(zero_hash()[i as int] == 0);
            return false;
        }
        i = i + 1;
    }
    assert(a@ =~= zero_hash());
    true
}

/// Appends the 32 bytes of `hash` to `out`.
pub fn push_hash(out: &mut Vec<u8>, hash: &[u8; 32])
    ensures
        final(out)@ == old(out)@ + hash@,
{
    let ghost start = out@;
    let mut i: usize = 0;
    while i < 32
        invariant
            i <= 32,
            out@ == start + hash@.subrange(0, i as int),
        decreases 32 - i,
    {
        out.push(hash[i]);
        assert(hash@.subrange(0, i + 1) =~= hash@.subrange(0, i as int).push(hash@[i as int]));
        i = i + 1;
    }
    assert(hash@.subrange(0, 32) =~= hash@);
}

/// Builds the 136 bytes of a public input hash preimage.
pub fn build_pi_preimage(
    chain_id: u64,
    prev_state_root: &[u8; 32],
    post_state_root: &[u8; 32],
    withdraw_root: &[u8; 32],
    data_hash: &[u8; 32],
) -> (out: Vec<u8>)
    ensures
        out@ == pi_preimage(
            chain_id,
            prev_state_root@,
            post_state_root@,
            withdraw_root@,
            data_hash@,
        ),
        out@.len() == 136,
{
    let id = u64_to_be_bytes(chain_id);
    let mut out: Vec<u8> = Vec::new();
    let mut i: usize = 0;
    while i < 8
        invariant
            i <= 8,
            out@ == id@.subrange(0, i as int),
        decreases 8 - i,
    {
        out.push(id[i]);
        assert(id@.subrange(0, i + 1) =~= id@.subrange(0, i as int).push(id@[i as int]));
        i = i + 1;
    }
    assert(id@.subrange(0, 8) =~= id@);
    push_hash(&mut out, prev_state_root);
    push_hash(&mut out, post_state_root);
    push_hash(&mut out, withdraw_root);
    push_hash(&mut out, data_hash);
    out
}

/// A chunk is a run of consecutive blocks. Its hash commits to the chain, to
/// the state root before and after the chunk, to the withdraw root and to the
/// hash of the chunk's data.
#[derive(Clone, Copy, Debug)]
pub struct ChunkHash {
    /// Chain identifier.
    pub chain_id: u64,
    /// State root before this chunk.
    pub prev_state_root: [u8; 32],
    /// State root after this chunk.
    pub post_state_root: [u8; 32],
    /// The withdraw root of this chunk.
    pub withdraw_root: [u8; 32],
    /// The data hash of this chunk.
    pub data_hash: [u8; 32],
}

impl Default for ChunkHash {
    fn default() -> (res: ChunkHash)
        ensures
            res.chain_id == 0,
            res.prev_state_root@ == zero_hash(),
            res.post_state_root@ == zero_hash(),
            res.withdraw_root@ == zero_hash(),
            res.data_hash@ == zero_hash(),
    {
        let res = ChunkHash {
            chain_id: 0,
            prev_state_root: [0u8; 32],
            post_state_root: [0u8; 32],
            withdraw_root: [0u8; 32],
            data_hash: [0u8; 32],
        };
        assert(res.prev_state_root@ =~= zero_hash());
        assert(res.post_state_root@ =~= zero_hash());
        assert(res.withdraw_root@ =~= zero_hash());
        assert(res.data_hash@ =~= zero_hash());
        res
    }
}

impl ChunkHash {
    /// Whether this chunk fills a slot after the last real chunk: its state
    /// root does not move and it has no data.
    pub open spec fn spec_is_padding(&self) -> bool {
        self.prev_state_root@ == self.post_state_root@ && self.data_hash@ == zero_hash()
    }

    /// Whether `self` is the padding chunk that follows `previous`.
    pub open spec fn pads(&self, previous: &ChunkHash) -> bool {
        &&& self.chain_id == previous.chain_id
        &&& self.prev_state_root@ == previous.post_state_root@
        &&& self.post_state_root@ == previous.post_state_root@
        &&& self.withdraw_root@ == previous.withdraw_root@
        &&& self.data_hash@ == zero_hash()
    }

    /// The preimage of this chunk's public input hash.
    pub open spec fn spec_preimage(&self) -> Seq<u8> {
        pi_preimage(
            self.chain_id,
            self.prev_state_root@,
            self.post_state_root@,
            self.withdraw_root@,
            self.data_hash@,
        )
    }

    /// Builds the padding chunk that follows `previous_chunk`: it starts and
    /// ends at that chunk's post state, keeps its withdraw root and chain, and
    /// has the zero data hash.
    pub fn padded_chunk_hash(previous_chunk: &ChunkHash) -> (res: ChunkHash)
        ensures
            res.pads(previous_chunk),
            res.spec_is_padding(),
    {
        let res = ChunkHash {
            chain_id: previous_chunk.chain_id,
            prev_state_root: previous_chunk.post_state_root,
            post_state_root: previous_chunk.post_state_root,
            withdraw_root: previous_chunk.withdraw_root,
            data_hash: [0u8; 32],
        };
        assert(res.data_hash@ =~= zero_hash());
        res
    }

    /// A chunk is a padding if its previous state root equals its post state
    /// root and its data hash is all zeros.
    pub fn is_padding(&self) -> (res: bool)
        ensures
            res == self.spec_is_padding(),
    {
        hash_eq(&self.prev_state_root, &self.post_state_root) && hash_is_zero(&self.data_hash)
    }

    /// The public input hash of this chunk:
    /// keccak(chain id || prev state root || post state root || withdraw root || data hash).
    pub fn public_input_hash(&self) -> (res: [u8; 32])
        ensures
            res@ == keccak256_digest(self.spec_preimage()),
    {
        let preimage = self.extract_hash_preimage();
        keccak256(preimage.as_slice())
    }

    /// The preimage of the public input hash:
    /// chain id || prev state root || post state root || withdraw root || data hash.
    pub fn extract_hash_preimage(&self) -> (res: Vec<u8>)
        ensures
            res@ == self.spec_preimage(),
            res@.len() == 136,
    {
        build_pi_preimage(
            self.chain_id,
            &self.prev_state_root,
            &self.post_state_root,
            &self.withdraw_root,
            &self.data_hash,
        )
    }
}

} // verus!
