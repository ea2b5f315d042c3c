//! The rules that tie the hashes of a batch together.
//!
//! The Keccak table absorbs `N + 2` messages for a batch of `N` chunk slots:
//! the preimage of the batch's public input hash, the data hashes of all
//! slots, and the preimage of each slot's chunk hash. Seven rules say when the
//! bytes that it absorbed, the digests that it squeezed and the number of
//! valid chunks fit together.
use crate::batch::{batch_pi_preimage, data_hash_preimage, link_holds, BatchHashView};
use crate::chunk::{chain_id_bytes, pi_preimage, zero_hash};
use crate::field::Fr;
use crate::util::{
    checked_total_rounds, data_hash_rounds, digest_round, digest_row, get_indices, input_row,
    leading_count, lemma_rounds_before_monotonic, lengths_of, parse_hash_digest_cells,
    parse_hash_preimage_cells, rlc, spec_rlc, total_rounds,
};
use vstd::prelude::*;

verus! {

/// The first rule that a batch's hashes break, and the chunk slot at which
/// they break it (slot 0 where the rule is about the batch as a whole).
#[derive(Clone, Copy, Debug, PartialEq, Eq)]
pub struct BatchConsistencyViolation {
    /// Number of the rule, from 1 to 7.
    pub rule_id: u8,
    /// The chunk slot at which the rule fails.
    pub chunk_index: usize,
}

/// A cell of the Keccak table, by the message that it belongs to.
#[derive(Clone, Copy, Debug, PartialEq, Eq)]
pub enum CellRef {
    /// Byte `offset` of the input of message `message`.
    Input { message: usize, offset: usize },
    /// Byte `offset` of the digest of message `message`, in the table's order.
    Digest { message: usize, offset: usize },
    /// Byte `offset` of the digest squeezed in round `round` of the data
    /// hashes, in the table's order.
    RoundDigest { round: usize, offset: usize },
    /// The rolling checksum at the end of round `round` of the data hashes.
    Checksum { round: usize },
}

/// The digest of the data hashes is the data hash of the batch.
pub const RULE_DIGEST_REUSE: u8 = 1;

/// The batch starts at the first chunk's root and ends at the last slot's roots.
pub const RULE_ROOT_SHARING: u8 = 2;

/// The rolling checksum of the data hashes covers the valid chunks exactly.
pub const RULE_DATA_HASH_REUSE: u8 = 3;

/// Each valid chunk starts where the one before it ends.
pub const RULE_CONTINUITY: u8 = 4;

/// Every slot is on the batch's chain.
pub const RULE_CHAIN_ID: u8 = 5;

/// A padding slot does not move the state root.
pub const RULE_PADDING_SHAPE: u8 = 6;

/// A padding slot has no data.
pub const RULE_PADDING_DATA: u8 = 7;

/// The 32 bytes of `message` that start at `offset`.
pub open spec fn field_at(message: Seq<u8>, offset: int) -> Seq<u8> {
    message.subrange(offset, offset + 32)
}

/// A digest as the table holds it, read in the order of a hash that is used
/// as input: the four words of eight bytes are in reverse order.
pub open spec fn flip_words(digest: Seq<u8>) -> Seq<u8> {
    Seq::new(32, |t: int| digest[(3 - t / 8) * 8 + t % 8])
}

/// The bytes as integers.
pub open spec fn byte_values(bytes: Seq<u8>) -> Seq<nat> {
    Seq::new(bytes.len(), |i: int| bytes[i] as nat)
}

/// Number of absorption rounds after which the data hashes of `valid` chunks
/// have been taken in: 32 bytes per chunk over rounds of 136 bytes, rounded up.
pub open spec fn data_hash_boundary(valid: nat) -> nat {
    (32 * valid + 135) / 136
}

/// The mathematical content of what the Keccak table hands back for a batch.
pub struct HashCellsView {
    /// The bytes absorbed for each message.
    pub preimages: Seq<Seq<u8>>,
    /// The digest squeezed for each message, in the table's byte order.
    pub digests: Seq<Seq<u8>>,
    /// The rolling checksum of the second message after each of its rounds.
    pub checkpoints: Seq<nat>,
    /// The challenge with which the rolling checksum is taken.
    pub challenge: nat,
    /// Number of valid chunks of the batch.
    pub valid: nat,
}

impl HashCellsView {
    /// Whether the messages, digests and checksums are those of a batch of
    /// `n` slots with between 1 and `n` valid chunks.
    pub open spec fn well_shaped(self, n: nat) -> bool {
        &&& 1 <= self.valid <= n
        &&& self.preimages.len() == n + 2
        &&& self.preimages[0].len() == 136
        &&& self.preimages[1].len() == 32 * n
        &&& forall|i: int| 2 <= i < n + 2 ==> (#[trigger] self.preimages[i]).len() == 136
        &&& self.digests.len() == n + 2
        &&& forall|i: int| 0 <= i < n + 2 ==> (#[trigger] self.digests[i]).len() == 32
        &&& self.checkpoints.len() == data_hash_rounds(n)
    }

    /// The preimage of the batch's public input hash.
    pub open spec fn batch(self) -> Seq<u8> {
        self.preimages[0]
    }

    /// The preimage of the chunk hash of slot `i`.
    pub open spec fn chunk(self, i: int) -> Seq<u8> {
        self.preimages[i + 2]
    }

    /// The rolling checksum over the data hashes of the valid chunks.
    pub open spec fn valid_data_rlc(self) -> nat {
        spec_rlc(byte_values(self.preimages[1].subrange(0, 32 * (self.valid as int))), self.challenge)
    }

    /// Whether the given rule fails at slot `i` of a batch of `n` slots.
    pub open spec fn violates(self, n: nat, rule: int, i: int) -> bool {
        if rule == 1 {
            i == 0 && field_at(self.batch(), 104) != flip_words(self.digests[1])
        } else if rule == 2 {
            ||| i == 0 && field_at(self.batch(), 8) != field_at(self.chunk(0), 8)
            ||| i == n - 1 && field_at(self.batch(), 40) != field_at(self.chunk(n - 1), 40)
            ||| i == n - 1 && field_at(self.batch(), 72) != field_at(self.chunk(n - 1), 72)
        } else if rule == 3 {
            i == 0 && self.checkpoints[data_hash_boundary(self.valid) - 1] != self.valid_data_rlc()
        } else if rule == 4 {
            1 <= i < self.valid && field_at(self.chunk(i), 8) != field_at(self.chunk(i - 1), 40)
        } else if rule == 5 {
            0 <= i < n && self.chunk(i).subrange(0, 8) != self.batch().subrange(0, 8)
        } else if rule == 6 {
            self.valid <= i < n && field_at(self.chunk(i), 8) != field_at(self.chunk(i), 40)
        } else if rule == 7 {
            self.valid <= i < n && field_at(self.chunk(i), 104) != zero_hash()
        } else {
            false
        }
    }

    /// Whether all seven rules hold at every slot.
    pub open spec fn consistent(self, n: nat) -> bool {
        forall|rule: int, i: int|
            1 <= rule <= 7 && 0 <= i < n ==> !#[trigger] self.violates(n, rule, i)
    }

    /// Whether no rule before `rule` fails, and `rule` fails at no slot before `i`.
    pub open spec fn holds_before(self, n: nat, rule: int, i: int) -> bool {
        forall|r: int, j: int|
            1 <= r <= 7 && 0 <= j < n && (r < rule || (r == rule && j < i)) ==> !#[trigger] self.violates(
                n,
                r,
                j,
            )
    }
}

/// What the Keccak table hands back for a batch of `N` chunk slots, with the
/// number of valid chunks: the bytes of the `N + 2` messages as it absorbed
/// them, the digest of each in its own byte order, and the rolling checksum
/// of the second message, the data hashes, after each absorption round.
#[derive(Debug)]
pub struct HashCells<const N: usize> {
    preimages: Vec<Vec<u8>>,
    digests: Vec<[u8; 32]>,
    checkpoints: Vec<Fr>,
    challenge: Fr,
    number_of_valid_chunks: usize,
}

impl<const N: usize> View for HashCells<N> {
    type V = HashCellsView;

    closed spec fn view(&self) -> HashCellsView {
        HashCellsView {
            preimages: Seq::new(self.preimages@.len(), |i: int| self.preimages@[i]@),
            digests: Seq::new(self.digests@.len(), |i: int| self.digests@[i]@),
            checkpoints: Seq::new(self.checkpoints@.len(), |i: int| self.checkpoints@[i].value()),
            challenge: self.challenge.value(),
            valid: self.number_of_valid_chunks as nat,
        }
    }
}

/// Whether `a[a_start..a_start + len]` and `b[b_start..b_start + len]` hold the same bytes.
pub fn ranges_equal(a: &[u8], a_start: usize, b: &[u8], b_start: usize, len: usize) -> (res: bool)
    requires
        a_start + len <= a@.len(),
        b_start + len <= b@.len(),
    ensures
        res == (a@.subrange(a_start as int, a_start + len) == b@.subrange(
            b_start as int,
            b_start + len,
        )),
{
    let ghost x = a@.subrange(a_start as int, a_start + len);
    let ghost y = b@.subrange(b_start as int, b_start + len);
    let a_len = a.len();
    let b_len = b.len();
    let mut t: usize = 0;
    while t < len
        invariant
            t <= len,
            a_start + len <= a_len == a@.len(),
            b_start + len <= b_len == b@.len(),
            x == a@.subrange(a_start as int, a_start + len),
            y == b@.subrange(b_start as int, b_start + len),
            forall|u: int| 0 <= u < t ==> x[u] == y[u],
        decreases len - t,
    {
        if a[a_start + t] != b[b_start + t] {
            assert(x[t as int] != y[t as int]);
            return false;
        }
        t = t + 1;
    }
    assert(x =~= y);
    true
}

/// Whether `a[start..start + len]` holds zero bytes only.
pub fn range_is_zero(a: &[u8], start: usize, len: usize) -> (res: bool)
    requires
        start + len <= a@.len(),
    ensures
        res == (a@.subrange(start as int, start + len) == Seq::new(len as nat, |i: int| 0u8)),
{
    let ghost x = a@.subrange(start as int, start + len);
    let ghost zeros = Seq::new(len as nat, |i: int| 0u8);
    let a_len = a.len();
    let mut t: usize = 0;
    while t < len
        invariant
            t <= len,
            start + len <= a_len == a@.len(),
            x == a@.subrange(start as int, start + len),
            zeros == Seq::new(len as nat, |i: int| 0u8),
            forall|u: int| 0 <= u < t ==> x[u] == 0,
        decreases len - t,
    {
        if a[start + t] != 0 {
            assert(x[t as int] != zeros[t as int]);
            return false;
        }
        t = t + 1;
    }
    assert(x =~= zeros);
    true
}

/// Whether `hash`, 32 bytes of a message, is `digest` with its four words of
/// eight bytes in reverse order.
pub fn equals_flipped_digest(message: &[u8], start: usize, digest: &[u8; 32]) -> (res: bool)
    requires
        start + 32 <= message@.len(),
    ensures
        res == (field_at(message@, start as int) == flip_words(digest@)),
{
    let ghost x = field_at(message@, start as int);
    let ghost y = flip_words(digest@);
    let message_len = message.len();
    let mut t: usize = 0;
    while t < 32
        invariant
            t <= 32,
            start + 32 <= message_len == message@.len(),
            x == field_at(message@, start as int),
            y == flip_words(digest@),
            forall|u: int| 0 <= u < t ==> x[u] == y[u],
        decreases 32 - t,
    {
        if message[start + t] != digest[(3 - t / 8) * 8 + t % 8] {
            assert(x[t as int] != y[t as int]);
            return false;
        }
        t = t + 1;
    }
    assert(x =~= y);
    true
}

/// The bytes as elements of the scalar field.
pub fn bytes_to_scalars(bytes: &[u8]) -> (res: Vec<Fr>)
    ensures
        res@.len() == bytes@.len(),
        crate::util::values_of(res@) == byte_values(bytes@),
{
    let mut res: Vec<Fr> = Vec::new();
    let mut i: usize = 0;
    while i < bytes.len()
        invariant
            i <= bytes@.len(),
            res@.len() == i,
            forall|j: int| 0 <= j < i ==> (#[trigger] res@[j]).value() == bytes@[j] as nat,
        decreases bytes@.len() - i,
    {
        res.push(Fr::from_u64(bytes[i] as u64));
        i = i + 1;
    }
    assert(crate::util::values_of(res@) =~= byte_values(bytes@));
    res
}

/// For each of the `n` slots of a batch, whether it holds a valid chunk.
pub fn chunk_is_valid(num_of_valid_chunks: usize, n: usize) -> (res: Vec<bool>)
    ensures
        res@.len() == n,
        forall|i: int| 0 <= i < n ==> res@[i] == (i < num_of_valid_chunks),
{
    let mut res: Vec<bool> = Vec::new();
    let mut i: usize = 0;
    while i < n
        invariant
            i <= n,
            res@.len() == i,
            forall|j: int| 0 <= j < i ==> res@[j] == (j < num_of_valid_chunks),
        decreases n - i,
    {
        res.push(i < num_of_valid_chunks);
        i = i + 1;
    }
    res
}

/// Number of absorption rounds after which the data hashes of
/// `num_of_valid_chunks` chunks have been taken in.
pub fn data_hash_round_count(num_of_valid_chunks: usize) -> (res: usize)
    requires
        32 * num_of_valid_chunks <= usize::MAX,
    ensures
        res == data_hash_boundary(num_of_valid_chunks as nat),
{
    if num_of_valid_chunks == 0 {
        0
    } else {
        (32 * num_of_valid_chunks - 1) / 136 + 1
    }
}

/// For each round that the data hash of a batch of `n` slots may take,
/// whether the data hashes of the valid chunks end in it.
pub fn data_hash_flags(num_of_valid_chunks: usize, n: usize) -> (res: Vec<bool>)
    requires
        32 * n < usize::MAX,
        num_of_valid_chunks <= n,
    ensures
        res@.len() == data_hash_rounds(n as nat),
        forall|b: int|
            0 <= b < res@.len() ==> res@[b] == (b + 1 == data_hash_boundary(
                num_of_valid_chunks as nat,
            )),
        1 <= num_of_valid_chunks ==> 1 <= data_hash_boundary(num_of_valid_chunks as nat)
            <= res@.len(),
{
    let rounds: usize = 1 + (32 * n) / 136;
    let boundary = data_hash_round_count(num_of_valid_chunks);
    let mut res: Vec<bool> = Vec::new();
    let mut b: usize = 0;
    while b < rounds
        invariant
            b <= rounds,
            res@.len() == b,
            forall|c: int| 0 <= c < b ==> res@[c] == (c + 1 == boundary),
        decreases rounds - b,
    {
        res.push(b + 1 == boundary);
        b = b + 1;
    }
    res
}

/// The content of the given cells.
pub open spec fn cells_view(
    preimages: Seq<Vec<u8>>,
    digests: Seq<[u8; 32]>,
    checkpoints: Seq<Fr>,
    challenge: Fr,
    number_of_valid_chunks: usize,
) -> HashCellsView {
    HashCellsView {
        preimages: Seq::new(preimages.len(), |i: int| preimages[i]@),
        digests: Seq::new(digests.len(), |i: int| digests[i]@),
        checkpoints: Seq::new(checkpoints.len(), |i: int| checkpoints[i].value()),
        challenge: challenge.value(),
        valid: number_of_valid_chunks as nat,
    }
}

impl<const N: usize> HashCells<N> {
    #[verifier::type_invariant]
    spec fn well_formed(self) -> bool {
        self@.well_shaped(N as nat)
    }

    /// Takes what the table handed back for a batch of `N` slots, if it has
    /// the shape of such a batch: `N + 2` messages of 136, `32 * N` and then
    /// 136 bytes each, as many digests, a checksum for each round that the
    /// data hashes may take, and between 1 and `N` valid chunks.
    pub fn new(
        preimages: Vec<Vec<u8>>,
        digests: Vec<[u8; 32]>,
        checkpoints: Vec<Fr>,
        challenge: Fr,
        number_of_valid_chunks: usize,
    ) -> (res: Option<Self>)
        ensures
            res.is_some() <==> cells_view(
                preimages@,
                digests@,
                checkpoints@,
                challenge,
                number_of_valid_chunks,
            ).well_shaped(N as nat),
            res matches Some(cells) ==> cells@ == cells_view(
                preimages@,
                digests@,
                checkpoints@,
                challenge,
                number_of_valid_chunks,
            ),
    {
        let ghost view = cells_view(
            preimages@,
            digests@,
            checkpoints@,
            challenge,
            number_of_valid_chunks,
        );
        let message_count = preimages.len();
        let digest_count = digests.len();
        let checkpoint_count = checkpoints.len();
        assert(view.preimages.len() == message_count);
        assert(view.digests.len() == digest_count);
        assert(view.checkpoints.len() == checkpoint_count);
        if number_of_valid_chunks < 1 || number_of_valid_chunks > N {
            return None;
        }
        if N > usize::MAX - 2 || message_count != N + 2 || digest_count != N + 2 {
            return None;
        }
        let batch_width = preimages[0].len();
        let data_width = preimages[1].len();
        assert(view.preimages[0] == preimages@[0]@);
        assert(view.preimages[1] == preimages@[1]@);
        if N > usize::MAX / 32 {
            return None;
        }
        if batch_width != 136 || data_width != 32 * N {
            return None;
        }
        let mut i: usize = 2;
        while i < N + 2
            invariant
                2 <= i <= N + 2,
                N + 2 <= usize::MAX,
                preimages@.len() == N + 2,
                view == cells_view(
                    preimages@,
                    digests@,
                    checkpoints@,
                    challenge,
                    number_of_valid_chunks,
                ),
                view.preimages.len() == N + 2,
                forall|j: int| 0 <= j < N + 2 ==> view.preimages[j] == (#[trigger] preimages@[j])@,
                forall|j: int| 2 <= j < i ==> (#[trigger] view.preimages[j]).len() == 136,
            decreases N + 2 - i,
        {
            if preimages[i].len() != 136 {
                assert(view.preimages[i as int] == preimages@[i as int]@);
                return None;
            }
            assert(view.preimages[i as int] == preimages@[i as int]@);
            i = i + 1;
        }
        if checkpoint_count != 1 + (32 * N) / 136 {
            return None;
        }
        assert forall|j: int| 0 <= j < N + 2 implies (#[trigger] view.digests[j]).len() == 32 by {
            assert(view.digests[j] == digests@[j]@);
        }
        Some(HashCells { preimages, digests, checkpoints, challenge, number_of_valid_chunks })
    }

    /// Number of valid chunks of the batch.
    pub fn number_of_valid_chunks(&self) -> (res: usize)
        ensures
            res == self@.valid,
            1 <= res <= N,
    {
        proof {
            use_type_invariant(self);
        }
        self.number_of_valid_chunks
    }

    /// The bytes absorbed for message `i`.
    pub fn preimage(&self, i: usize) -> (res: &[u8])
        requires
            i < N + 2,
        ensures
            res@ == self@.preimages[i as int],
            self@.well_shaped(N as nat),
    {
        proof {
            use_type_invariant(self);
        }
        self.preimages[i].as_slice()
    }

    /// The digest squeezed for message `i`, in the table's byte order.
    pub fn digest(&self, i: usize) -> (res: &[u8; 32])
        requires
            i < N + 2,
        ensures
            res@ == self@.digests[i as int],
    {
        proof {
            use_type_invariant(self);
        }
        &self.digests[i]
    }

    /// The shape of the cells fits in the machine's integers.
    fn shape(&self)
        ensures
            self@.well_shaped(N as nat),
            N + 2 <= usize::MAX,
            32 * N <= usize::MAX,
            self.number_of_valid_chunks == self@.valid,
    {
        proof {
            use_type_invariant(self);
        }
        let count = self.preimages.len();
        let width = self.preimages[1].len();
        assert(self@.preimages[1] == self.preimages@[1]@);
    }

    /// Rules 1 and 2: the batch's preimage holds the digest of the data
    /// hashes, the first chunk's previous root and the last slot's roots.
    fn check_batch_fields(&self, rule: u8) -> (res: Option<usize>)
        requires
            rule == 1 || rule == 2,
        ensures
            res.is_none() <==> forall|i: int|
                0 <= i < N ==> !#[trigger] self@.violates(N as nat, rule as int, i),
            res matches Some(i) ==> {
                &&& i < N
                &&& self@.violates(N as nat, rule as int, i as int)
                &&& forall|j: int|
                    0 <= j < i ==> !#[trigger] self@.violates(N as nat, rule as int, j)
            },
    {
        self.shape();
        let batch = self.preimage(0);
        if rule == RULE_DIGEST_REUSE {
            if equals_flipped_digest(batch, 104, self.digest(1)) {
                None
            } else {
                assert(self@.violates(N as nat, 1, 0));
                Some(0)
            }
        } else {
            let first = self.preimage(2);
            let last = self.preimage(N + 1);
            if !ranges_equal(batch, 8, first, 8, 32) {
                assert(self@.violates(N as nat, 2, 0));
                Some(0)
            } else if !ranges_equal(batch, 40, last, 40, 32) || !ranges_equal(
                batch,
                72,
                last,
                72,
                32,
            ) {
                assert(self@.violates(N as nat, 2, N - 1));
                Some(N - 1)
            } else {
                None
            }
        }
    }

    /// Rule 3: the rolling checksum of the data hashes, taken where the data
    /// hashes of the valid chunks end, covers exactly those.
    fn check_data_hash_reuse(&self) -> (res: Option<usize>)
        ensures
            res.is_none() <==> forall|i: int|
                0 <= i < N ==> !#[trigger] self@.violates(N as nat, 3, i),
            res matches Some(i) ==> {
                &&& i < N
                &&& self@.violates(N as nat, 3, i as int)
                &&& forall|j: int| 0 <= j < i ==> !#[trigger] self@.violates(N as nat, 3, j)
            },
    {
        self.shape();
        let k = self.number_of_valid_chunks;
        let data = self.preimage(1);
        let valid_bytes = vstd::slice::slice_subrange(data, 0, 32 * k);
        let scalars = bytes_to_scalars(valid_bytes);
        let checksum = rlc(scalars.as_slice(), &self.challenge);
        let boundary = (32 * k - 1) / 136 + 1;
        assert(boundary == data_hash_boundary(k as nat));
        let checkpoint = &self.checkpoints[boundary - 1];
        assert(checksum.value() == self@.valid_data_rlc());
        assert(checkpoint.value() == self@.checkpoints[boundary - 1]);
        if checksum.is_equal(checkpoint) {
            None
        } else {
            assert(self@.violates(N as nat, 3, 0));
            Some(0)
        }
    }

    /// Rules 4 to 7: what holds of each chunk slot by itself or with the one
    /// before it.
    fn check_slots(&self, rule: u8) -> (res: Option<usize>)
        requires
            4 <= rule <= 7,
        ensures
            res.is_none() <==> forall|i: int|
                0 <= i < N ==> !#[trigger] self@.violates(N as nat, rule as int, i),
            res matches Some(i) ==> {
                &&& i < N
                &&& self@.violates(N as nat, rule as int, i as int)
                &&& forall|j: int|
                    0 <= j < i ==> !#[trigger] self@.violates(N as nat, rule as int, j)
            },
    {
        self.shape();
        let k = self.number_of_valid_chunks;
        let batch = self.preimage(0);
        let mut i: usize = 0;
        while i < N
            invariant
                i <= N,
                N + 2 <= usize::MAX,
                4 <= rule <= 7,
                1 <= k <= N,
                k == self@.valid,
                batch@ == self@.preimages[0],
                self@.well_shaped(N as nat),
                forall|j: int| 0 <= j < i ==> !#[trigger] self@.violates(N as nat, rule as int, j),
            decreases N - i,
        {
            let chunk = self.preimage(i + 2);
            let holds = if rule == RULE_CONTINUITY {
                i < 1 || i >= k || ranges_equal(chunk, 8, self.preimage(i + 1), 40, 32)
            } else if rule == RULE_CHAIN_ID {
                ranges_equal(chunk, 0, batch, 0, 8)
            } else if rule == RULE_PADDING_SHAPE {
                i < k || ranges_equal(chunk, 8, chunk, 40, 32)
            } else {
                assert(zero_hash() =~= Seq::new(32, |t: int| 0u8));
                i < k || range_is_zero(chunk, 104, 32)
            };
            assert(holds == !self@.violates(N as nat, rule as int, i as int));
            if !holds {
                return Some(i);
            }
            i = i + 1;
        }
        None
    }

    /// The first slot at which the given rule fails, if there is one.
    pub fn check_rule(&self, rule: u8) -> (res: Option<usize>)
        requires
            1 <= rule <= 7,
        ensures
            res.is_none() <==> forall|i: int|
                0 <= i < N ==> !#[trigger] self@.violates(N as nat, rule as int, i),
            res matches Some(i) ==> {
                &&& i < N
                &&& self@.violates(N as nat, rule as int, i as int)
                &&& forall|j: int|
                    0 <= j < i ==> !#[trigger] self@.violates(N as nat, rule as int, j)
            },
    {
        if rule <= RULE_ROOT_SHARING {
            self.check_batch_fields(rule)
        } else if rule == RULE_DATA_HASH_REUSE {
            self.check_data_hash_reuse()
        } else {
            self.check_slots(rule)
        }
    }

    /// Checks the seven rules in their order, each from the first slot to the
    /// last, and reports the first failure.
    pub fn check_consistency(&self) -> (res: Result<(), BatchConsistencyViolation>)
        ensures
            res.is_ok() <==> self@.consistent(N as nat),
            res matches Err(v) ==> {
                &&& 1 <= v.rule_id <= 7
                &&& v.chunk_index < N
                &&& self@.violates(N as nat, v.rule_id as int, v.chunk_index as int)
                &&& self@.holds_before(N as nat, v.rule_id as int, v.chunk_index as int)
            },
    {
        let mut rule: u8 = 1;
        while rule <= 7
            invariant
                1 <= rule <= 8,
                forall|r: int, j: int|
                    1 <= r < rule && 0 <= j < N ==> !#[trigger] self@.violates(N as nat, r, j),
            decreases 8 - rule,
        {
            match self.check_rule(rule) {
                Some(chunk_index) => {
                    return Err(BatchConsistencyViolation { rule_id: rule, chunk_index });
                },
                None => {},
            }
            rule = rule + 1;
        }
        Ok(())
    }
}

/// Each digest is squeezed in one of the rounds that are laid out.
pub proof fn lemma_digest_round_bound(lens: Seq<nat>, n: nat, d: int)
    requires
        0 <= d < leading_count(lens.len(), n) + data_hash_rounds(n),
    ensures
        0 <= digest_round(lens, leading_count(lens.len(), n), d) < total_rounds(lens, n),
{
    let m = leading_count(lens.len(), n);
    if d < m {
        lemma_rounds_before_monotonic(lens, (d + 1) as nat, m);
        lemma_rounds_before_monotonic(lens, 0, (d + 1) as nat);
    }
}

/// The input cells of a batch of `n` slots in the table's input column.
pub open spec fn picked_inputs(column: Seq<u8>, lens: Seq<nat>, n: nat) -> Seq<u8> {
    Seq::new(136 * total_rounds(lens, n), |idx: int| column[input_row(idx)])
}

/// The digest cells of a batch of `n` slots in the table's digest column.
pub open spec fn picked_digests(column: Seq<u8>, lens: Seq<nat>, n: nat) -> Seq<u8> {
    Seq::new(
        32 * (leading_count(lens.len(), n) + data_hash_rounds(n)),
        |idx: int|
            column[digest_row(digest_round(lens, leading_count(lens.len(), n), idx / 32), idx % 32)],
    )
}

/// The checksum cells of a batch of `n` slots in the table's checksum column:
/// that of the first row of every round and of the round after the last.
pub open spec fn picked_checksums(column: Seq<Fr>, lens: Seq<nat>, n: nat) -> Seq<Fr> {
    Seq::new(total_rounds(lens, n) + 1, |b: int| column[300 * b])
}

/// Whether the table has three columns of one length that hold one round
/// more than the messages take.
pub open spec fn table_fits(inputs: nat, digests: nat, checksums: nat, lens: Seq<nat>, n: nat) -> bool {
    &&& inputs == digests
    &&& inputs == checksums
    &&& (total_rounds(lens, n) + 1) * 300 <= inputs
}

/// Picks out of the columns of the Keccak table the cells that hold the input
/// bytes and the digest bytes of a batch of `N` slots, in the order of
/// `get_indices`, and the rolling checksum at the first row of every round
/// and of the round after the last. The three columns must have one length,
/// and the table must hold one round more than the messages take.
pub fn extract_hash_cells<const N: usize>(
    input_column: &[u8],
    digest_column: &[u8],
    data_rlc_column: &[Fr],
    preimages: &[Vec<u8>],
) -> (res: Option<(Vec<u8>, Vec<u8>, Vec<Fr>)>)
    ensures
        res.is_some() <==> table_fits(
            input_column@.len(),
            digest_column@.len(),
            data_rlc_column@.len(),
            lengths_of(preimages@),
            N as nat,
        ),
        res matches Some((inputs, digests, checksums)) ==> {
            let lens = lengths_of(preimages@);
            &&& inputs@ == picked_inputs(input_column@, lens, N as nat)
            &&& digests@ == picked_digests(digest_column@, lens, N as nat)
            &&& checksums@ == picked_checksums(data_rlc_column@, lens, N as nat)
        },
{
    let ghost lens = lengths_of(preimages@);
    let ghost m = leading_count(preimages@.len(), N as nat);
    let rows = input_column.len();
    if digest_column.len() != rows || data_rlc_column.len() != rows {
        return None;
    }
    let total = match checked_total_rounds::<N>(preimages) {
        Some(total) => total,
        None => {
            return None;
        },
    };
    if (total + 1) * 300 > rows {
        return None;
    }
    let (preimage_indices, digest_indices) = get_indices::<N>(preimages);
    let mut inputs: Vec<u8> = Vec::new();
    let mut idx: usize = 0;
    while idx < preimage_indices.len()
        invariant
            idx <= preimage_indices@.len(),
            preimage_indices@.len() == 136 * total,
            (total + 1) * 300 <= rows == input_column@.len(),
            forall|i: int|
                0 <= i < preimage_indices@.len() ==> preimage_indices@[i] == input_row(i),
            inputs@.len() == idx,
            forall|i: int| 0 <= i < idx ==> inputs@[i] == input_column@[input_row(i)],
        decreases preimage_indices@.len() - idx,
    {
        let row = preimage_indices[idx];
        assert(row < 300 * total) by (nonlinear_arith)
            requires
                row == input_row(idx as int),
                0 <= idx < 136 * total,
                input_row(idx as int) == (idx as int / 136) * 300 + ((idx as int % 136) / 8) * 12
                    + idx as int % 8 + 12,
        ;
        inputs.push(input_column[row]);
        idx = idx + 1;
    }
    let mut digests: Vec<u8> = Vec::new();
    let mut idx: usize = 0;
    while idx < digest_indices.len()
        invariant
            idx <= digest_indices@.len(),
            lens == lengths_of(preimages@),
            m == leading_count(preimages@.len(), N as nat),
            total == total_rounds(lens, N as nat),
            digest_indices@.len() == 32 * (m + data_hash_rounds(N as nat)),
            (total + 1) * 300 <= rows == digest_column@.len(),
            forall|i: int|
                0 <= i < digest_indices@.len() ==> digest_indices@[i] == digest_row(
                    digest_round(lens, m, i / 32),
                    i % 32,
                ),
            digests@.len() == idx,
            forall|i: int|
                0 <= i < idx ==> digests@[i] == digest_column@[digest_row(
                    digest_round(lens, m, i / 32),
                    i % 32,
                )],
        decreases digest_indices@.len() - idx,
    {
        let row = digest_indices[idx];
        proof {
            lemma_digest_round_bound(lens, N as nat, idx as int / 32);
            let round = digest_round(lens, m, idx as int / 32);
            assert(row < 300 * total) by (nonlinear_arith)
                requires
                    row == round * 300 + ((idx as int % 32) / 8) * 12 + (idx as int % 32) % 8 + 252,
                    0 <= round < total,
            ;
        }
        digests.push(digest_column[row]);
        idx = idx + 1;
    }
    let mut checksums: Vec<Fr> = Vec::new();
    let mut b: usize = 0;
    while b <= total
        invariant
            b <= total + 1,
            (total + 1) * 300 <= rows == data_rlc_column@.len(),
            checksums@.len() == b,
            forall|c: int| 0 <= c < b ==> #[trigger] checksums@[c] == data_rlc_column@[300 * c],
        decreases total + 1 - b,
    {
        checksums.push(data_rlc_column[300 * b]);
        b = b + 1;
    }
    proof {
        assert(inputs@ =~= picked_inputs(input_column@, lens, N as nat));
        assert(digests@ =~= picked_digests(digest_column@, lens, N as nat));
        assert(checksums@ =~= picked_checksums(data_rlc_column@, lens, N as nat));
    }
    Some((inputs, digests, checksums))
}

/// A copy of `len` bytes of `source` from `start` on.
pub fn copy_range(source: &[u8], start: usize, len: usize) -> (res: Vec<u8>)
    requires
        start + len <= source@.len(),
    ensures
        res@ == source@.subrange(start as int, start + len),
{
    let total = source.len();
    let mut res: Vec<u8> = Vec::new();
    let mut t: usize = 0;
    while t < len
        invariant
            t <= len,
            start + len <= total == source@.len(),
            res@ == source@.subrange(start as int, start + t),
        decreases len - t,
    {
        res.push(source[start + t]);
        assert(source@.subrange(start as int, start + t + 1) =~= source@.subrange(
            start as int,
            start + t,
        ).push(source@[start + t]));
        t = t + 1;
    }
    res
}

/// A copy of the 32 bytes of `source` from `start` on.
pub fn copy_digest(source: &[u8], start: usize) -> (res: [u8; 32])
    requires
        start + 32 <= source@.len(),
    ensures
        res@ == source@.subrange(start as int, start + 32),
{
    let total = source.len();
    let mut res: [u8; 32] = [0u8; 32];
    let mut t: usize = 0;
    while t < 32
        invariant
            t <= 32,
            start + 32 <= total == source@.len(),
            forall|u: int| 0 <= u < t ==> res@[u] == source@[start + u],
        decreases 32 - t,
    {
        res[t] = source[start + t];
        t = t + 1;
    }
    assert(res@ =~= source@.subrange(start as int, start + 32));
    res
}

/// Whether the cells picked out of the table are those of a batch of `n`
/// slots with `valid` valid chunks: two rounds of input cells for the batch's
/// public input hash and for each chunk hash, then the rounds of the data
/// hash; a digest for each of these messages and for each round of the data
/// hash; and a checksum for the start of every round and of the one after
/// the last.
pub open spec fn table_cells_shaped(
    inputs: nat,
    digests: nat,
    checksums: nat,
    valid: nat,
    n: nat,
) -> bool {
    &&& 1 <= valid <= n
    &&& inputs == 136 * (2 * (n + 1) + data_hash_rounds(n))
    &&& digests == 32 * (n + 1 + data_hash_rounds(n))
    &&& checksums == 2 * (n + 1) + data_hash_rounds(n) + 1
}

/// The messages, digests and checksums of a batch of `n` slots, read from the
/// cells picked out of the table.
///
/// The table absorbs the messages of the batch as `extract_hash_preimages`
/// hands them out, but for their order: the data hashes of all `n` slots, 32
/// bytes each and zero for padding, come last, after the preimage of the
/// batch's public input hash and those of the chunk hashes. Of the rounds
/// that the data hashes take, the one in which the data hashes of the valid
/// chunks end is read: its digest stands for the digest of the data hashes,
/// and the checksums are those at the end of each round.
pub open spec fn cells_from_table(
    inputs: Seq<u8>,
    digests: Seq<u8>,
    checksums: Seq<Fr>,
    challenge: Fr,
    valid: nat,
    n: nat,
) -> HashCellsView {
    HashCellsView {
        preimages: Seq::new(
            n + 2,
            |i: int|
                if i == 0 {
                    inputs.subrange(0, 136)
                } else if i == 1 {
                    inputs.subrange(272 * (n + 1) as int, 272 * (n + 1) + 32 * n as int)
                } else {
                    inputs.subrange(272 * (i - 1), 272 * (i - 1) + 136)
                },
        ),
        digests: Seq::new(
            n + 2,
            |i: int|
                if i == 0 {
                    digests.subrange(0, 32)
                } else if i == 1 {
                    digests.subrange(
                        32 * (n + data_hash_boundary(valid)) as int,
                        32 * (n + data_hash_boundary(valid)) + 32 as int,
                    )
                } else {
                    digests.subrange(32 * (i - 1), 32 * (i - 1) + 32)
                },
        ),
        checkpoints: Seq::new(
            data_hash_rounds(n),
            |j: int| checksums[2 * (n + 1) + 1 + j].value(),
        ),
        challenge: challenge.value(),
        valid: valid,
    }
}

/// Number of input cells of a batch of `n` slots, if the machine's integers
/// can hold it.
pub fn expected_input_cells(n: usize) -> (res: Option<usize>)
    ensures
        res.is_some() <==> 136 * (2 * (n + 1) + data_hash_rounds(n as nat)) <= usize::MAX,
        res matches Some(cells) ==> cells == 136 * (2 * (n + 1) + data_hash_rounds(n as nat)),
{
    if n > usize::MAX / 304 {
        return None;
    }
    let rounds: usize = 2 * (n + 1) + (1 + (32 * n) / 136);
    if rounds > usize::MAX / 136 {
        return None;
    }
    Some(136 * rounds)
}

impl<const N: usize> HashCells<N> {
    /// Reads the messages, digests and checksums of a batch out of the cells
    /// that were picked out of the table, if they have the shape of a batch
    /// of `N` slots.
    pub fn from_cells(
        hash_input_cells: &[u8],
        hash_output_cells: &[u8],
        data_rlc_cells: &[Fr],
        challenge: Fr,
        number_of_valid_chunks: usize,
    ) -> (res: Option<Self>)
        ensures
            res.is_some() <==> table_cells_shaped(
                hash_input_cells@.len(),
                hash_output_cells@.len(),
                data_rlc_cells@.len(),
                number_of_valid_chunks as nat,
                N as nat,
            ),
            res matches Some(cells) ==> cells@ == cells_from_table(
                hash_input_cells@,
                hash_output_cells@,
                data_rlc_cells@,
                challenge,
                number_of_valid_chunks as nat,
                N as nat,
            ),
    {
        let k = number_of_valid_chunks;
        let input_len = hash_input_cells.len();
        let output_len = hash_output_cells.len();
        let checksum_len = data_rlc_cells.len();
        if k < 1 || k > N {
            return None;
        }
        let expected_inputs = match expected_input_cells(N) {
            Some(expected) => expected,
            None => {
                return None;
            },
        };
        let data_rounds: usize = 1 + (32 * N) / 136;
        if input_len != expected_inputs || output_len != 32 * (N + 1 + data_rounds)
            || checksum_len != 2 * (N + 1) + data_rounds + 1 {
            return None;
        }
        let ghost view = cells_from_table(
            hash_input_cells@,
            hash_output_cells@,
            data_rlc_cells@,
            challenge,
            k as nat,
            N as nat,
        );
        let (batch_input, chunk_inputs, data_input) = parse_hash_preimage_cells(
            hash_input_cells,
            N,
        );
        let (batch_digest, chunk_digests, data_digests) = parse_hash_digest_cells(
            hash_output_cells,
            N,
        );
        let boundary = (32 * k - 1) / 136 + 1;
        assert(boundary == data_hash_boundary(k as nat));
        let mut preimages: Vec<Vec<u8>> = Vec::new();
        let mut digests: Vec<[u8; 32]> = Vec::new();
        preimages.push(copy_range(batch_input, 0, 136));
        preimages.push(copy_range(data_input, 0, 32 * N));
        digests.push(copy_digest(batch_digest, 0));
        digests.push(copy_digest(data_digests, 32 * (boundary - 1)));
        assert(preimages@[0]@ =~= view.preimages[0]);
        assert(preimages@[1]@ =~= view.preimages[1]);
        assert(digests@[0]@ =~= view.digests[0]);
        assert(digests@[1]@ =~= view.digests[1]);
        let mut i: usize = 0;
        while i < N
            invariant
                i <= N,
                136 * (2 * (N + 1) + data_hash_rounds(N as nat)) <= usize::MAX,
                chunk_inputs@.len() == N,
                chunk_digests@.len() == N,
                forall|j: int|
                    0 <= j < N ==> (#[trigger] chunk_inputs@[j])@ == hash_input_cells@.subrange(
                        272 * (j + 1),
                        272 * (j + 2),
                    ),
                forall|j: int|
                    0 <= j < N ==> (#[trigger] chunk_digests@[j])@ == hash_output_cells@.subrange(
                        32 * (j + 1),
                        32 * (j + 2),
                    ),
                272 * (N + 1) <= hash_input_cells@.len(),
                32 * (N + 1) <= hash_output_cells@.len(),
                view == cells_from_table(
                    hash_input_cells@,
                    hash_output_cells@,
                    data_rlc_cells@,
                    challenge,
                    k as nat,
                    N as nat,
                ),
                preimages@.len() == i + 2,
                digests@.len() == i + 2,
                forall|j: int| 0 <= j < i + 2 ==> (#[trigger] preimages@[j])@ == view.preimages[j],
                forall|j: int| 0 <= j < i + 2 ==> (#[trigger] digests@[j])@ == view.digests[j],
            decreases N - i,
        {
            let input = copy_range(chunk_inputs[i], 0, 136);
            let digest = copy_digest(chunk_digests[i], 0);
            assert(input@ =~= view.preimages[i + 2]);
            assert(digest@ =~= view.digests[i + 2]);
            preimages.push(input);
            digests.push(digest);
            i = i + 1;
        }
        let mut checkpoints: Vec<Fr> = Vec::new();
        let mut j: usize = 0;
        while j < data_rounds
            invariant
                j <= data_rounds,
                data_rounds == data_hash_rounds(N as nat),
                136 * (2 * (N + 1) + data_hash_rounds(N as nat)) <= usize::MAX,
                data_rlc_cells@.len() == 2 * (N + 1) + data_rounds + 1,
                checkpoints@.len() == j,
                forall|c: int|
                    0 <= c < j ==> (#[trigger] checkpoints@[c]).value() == data_rlc_cells@[2 * (N
                        + 1) + 1 + c].value(),
            decreases data_rounds - j,
        {
            checkpoints.push(data_rlc_cells[2 * (N + 1) + 1 + j]);
            j = j + 1;
        }
        proof {
            let built = cells_view(preimages@, digests@, checkpoints@, challenge, k);
            assert(built.preimages =~= view.preimages);
            assert(built.digests =~= view.digests);
            assert(built.checkpoints =~= view.checkpoints);
            assert(built == view);
            assert(view.well_shaped(N as nat));
        }
        HashCells::new(preimages, digests, checkpoints, challenge, k)
    }
}

/// Why the hashes of a batch cannot be accepted.
#[derive(Clone, Copy, Debug, PartialEq, Eq)]
pub enum AssignmentError {
    /// The table has not the rows, or its cells not the shape, of the batch.
    MalformedTable,
    /// The hashes break a rule.
    Inconsistent(BatchConsistencyViolation),
}

/// The messages, digests and checksums of a batch of `n` slots as they stand
/// in the columns of the table.
pub open spec fn table_view(
    input_column: Seq<u8>,
    digest_column: Seq<u8>,
    data_rlc_column: Seq<Fr>,
    challenge: Fr,
    lens: Seq<nat>,
    valid: nat,
    n: nat,
) -> HashCellsView {
    cells_from_table(
        picked_inputs(input_column, lens, n),
        picked_digests(digest_column, lens, n),
        picked_checksums(data_rlc_column, lens, n),
        challenge,
        valid,
        n,
    )
}

/// Whether the table holds a batch of `n` slots with `valid` valid chunks.
pub open spec fn table_holds_batch(
    inputs: nat,
    digests: nat,
    checksums: nat,
    lens: Seq<nat>,
    valid: nat,
    n: nat,
) -> bool {
    &&& table_fits(inputs, digests, checksums, lens, n)
    &&& table_cells_shaped(
        136 * total_rounds(lens, n),
        32 * (leading_count(lens.len(), n) + data_hash_rounds(n)),
        total_rounds(lens, n) + 1,
        valid,
        n,
    )
}

/// Takes the hashes of a batch of `N` slots out of the columns of the Keccak
/// table that absorbed `preimages`, and checks the seven rules on them. The
/// digest cells are handed back when all rules hold.
pub fn assign_batch_hashes<const N: usize>(
    input_column: &[u8],
    digest_column: &[u8],
    data_rlc_column: &[Fr],
    challenge: Fr,
    preimages: &[Vec<u8>],
    num_of_valid_chunks: usize,
) -> (res: Result<Vec<u8>, AssignmentError>)
    ensures
        res == Err::<Vec<u8>, AssignmentError>(AssignmentError::MalformedTable)
            <==> !table_holds_batch(
            input_column@.len(),
            digest_column@.len(),
            data_rlc_column@.len(),
            lengths_of(preimages@),
            num_of_valid_chunks as nat,
            N as nat,
        ),
        res matches Ok(cells) ==> {
            &&& cells@ == picked_digests(digest_column@, lengths_of(preimages@), N as nat)
            &&& table_view(
                input_column@,
                digest_column@,
                data_rlc_column@,
                challenge,
                lengths_of(preimages@),
                num_of_valid_chunks as nat,
                N as nat,
            ).consistent(N as nat)
        },
        res matches Err(AssignmentError::Inconsistent(v)) ==> {
            let view = table_view(
                input_column@,
                digest_column@,
                data_rlc_column@,
                challenge,
                lengths_of(preimages@),
                num_of_valid_chunks as nat,
                N as nat,
            );
            &&& 1 <= v.rule_id <= 7
            &&& v.chunk_index < N
            &&& view.violates(N as nat, v.rule_id as int, v.chunk_index as int)
            &&& view.holds_before(N as nat, v.rule_id as int, v.chunk_index as int)
        },
{
    let (hash_input_cells, hash_output_cells, data_rlc_cells) = match extract_hash_cells::<N>(
        input_column,
        digest_column,
        data_rlc_column,
        preimages,
    ) {
        Some(cells) => cells,
        None => {
            return Err(AssignmentError::MalformedTable);
        },
    };
    let cells = match HashCells::<N>::from_cells(
        hash_input_cells.as_slice(),
        hash_output_cells.as_slice(),
        data_rlc_cells.as_slice(),
        challenge,
        num_of_valid_chunks,
    ) {
        Some(cells) => cells,
        None => {
            return Err(AssignmentError::MalformedTable);
        },
    };
    match cells.check_consistency() {
        Ok(()) => Ok(hash_output_cells),
        Err(v) => Err(AssignmentError::Inconsistent(v)),
    }
}

/// Whether a rule is one of those that tie cells together as they are: root
/// sharing, continuity and chain-id uniformity. The others depend on the
/// number of valid chunks.
pub open spec fn is_copy_rule(rule: int) -> bool {
    rule == 2 || rule == 4 || rule == 5
}

impl HashCellsView {
    /// Whether no rule of the group before `rule` fails, and `rule` fails at
    /// no slot before `i`.
    pub open spec fn group_holds_before(self, n: nat, copy: bool, rule: int, i: int) -> bool {
        forall|r: int, j: int|
            1 <= r <= 7 && is_copy_rule(r) == copy && 0 <= j < n && (r < rule || (r == rule && j
                < i)) ==> !#[trigger] self.violates(n, r, j)
    }

    /// Whether every rule of the group holds at every slot.
    pub open spec fn group_consistent(self, n: nat, copy: bool) -> bool {
        forall|r: int, j: int|
            1 <= r <= 7 && is_copy_rule(r) == copy && 0 <= j < n ==> !#[trigger] self.violates(
                n,
                r,
                j,
            )
    }
}

impl<const N: usize> HashCells<N> {
    /// Checks the rules of one group in their order and reports the first failure.
    fn check_group(&self, copy: bool) -> (res: Result<(), BatchConsistencyViolation>)
        ensures
            res.is_ok() <==> self@.group_consistent(N as nat, copy),
            res matches Err(v) ==> {
                &&& 1 <= v.rule_id <= 7
                &&& is_copy_rule(v.rule_id as int) == copy
                &&& v.chunk_index < N
                &&& self@.violates(N as nat, v.rule_id as int, v.chunk_index as int)
                &&& self@.group_holds_before(
                    N as nat,
                    copy,
                    v.rule_id as int,
                    v.chunk_index as int,
                )
            },
    {
        let mut rule: u8 = 1;
        while rule <= 7
            invariant
                1 <= rule <= 8,
                forall|r: int, j: int|
                    1 <= r < rule && is_copy_rule(r) == copy && 0 <= j < N
                        ==> !#[trigger] self@.violates(N as nat, r, j),
            decreases 8 - rule,
        {
            let in_group = (rule == 2 || rule == 4 || rule == 5) == copy;
            if in_group {
                match self.check_rule(rule) {
                    Some(chunk_index) => {
                        return Err(BatchConsistencyViolation { rule_id: rule, chunk_index });
                    },
                    None => {},
                }
            }
            rule = rule + 1;
        }
        Ok(())
    }

    /// Checks the rules that tie cells together as they are: that the batch
    /// shares its roots with the first chunk and the last slot, that the valid
    /// chunks are continuous, and that all slots are on the batch's chain.
    pub fn copy_constraints(&self) -> (res: Result<(), BatchConsistencyViolation>)
        ensures
            res.is_ok() <==> self@.group_consistent(N as nat, true),
            res matches Err(v) ==> {
                &&& is_copy_rule(v.rule_id as int)
                &&& v.chunk_index < N
                &&& self@.violates(N as nat, v.rule_id as int, v.chunk_index as int)
                &&& self@.group_holds_before(
                    N as nat,
                    true,
                    v.rule_id as int,
                    v.chunk_index as int,
                )
            },
    {
        self.check_group(true)
    }

    /// Checks the rules that depend on the number of valid chunks: that the
    /// batch holds the digest of the data hashes, that the rolling checksum
    /// covers the valid chunks' data hashes, and that the padding slots keep
    /// their state root and have no data. Gives back the number of valid chunks.
    pub fn conditional_constraints(&self) -> (res: Result<usize, BatchConsistencyViolation>)
        ensures
            res.is_ok() <==> self@.group_consistent(N as nat, false),
            res matches Ok(valid) ==> valid == self@.valid,
            res matches Err(v) ==> {
                &&& 1 <= v.rule_id <= 7
                &&& !is_copy_rule(v.rule_id as int)
                &&& v.chunk_index < N
                &&& self@.violates(N as nat, v.rule_id as int, v.chunk_index as int)
                &&& self@.group_holds_before(
                    N as nat,
                    false,
                    v.rule_id as int,
                    v.chunk_index as int,
                )
            },
    {
        match self.check_group(false) {
            Ok(()) => Ok(self.number_of_valid_chunks()),
            Err(v) => Err(v),
        }
    }
}

/// The two cells of the `idx`-th equality that a proof of the batch's hashes
/// has to show between input cells, in a batch of `n` slots: that the batch
/// shares its roots with the first chunk and the last slot, that each slot
/// starts where the one before it ends, and that every slot is on the batch's
/// chain. There are `copy_pair_count(n)` of them.
pub open spec fn copy_pair(n: nat, idx: int) -> (CellRef, CellRef) {
    if idx < 32 {
        (
            CellRef::Input { message: 0, offset: (8 + idx) as usize },
            CellRef::Input { message: 2, offset: (8 + idx) as usize },
        )
    } else if idx < 96 {
        (
            CellRef::Input { message: 0, offset: (8 + idx) as usize },
            CellRef::Input { message: (n + 1) as usize, offset: (8 + idx) as usize },
        )
    } else if idx < 96 + 32 * (n - 1) {
        (
            CellRef::Input {
                message: ((idx - 96) / 32 + 3) as usize,
                offset: (8 + (idx - 96) % 32) as usize,
            },
            CellRef::Input {
                message: ((idx - 96) / 32 + 2) as usize,
                offset: (40 + (idx - 96) % 32) as usize,
            },
        )
    } else {
        (
            CellRef::Input { message: 0, offset: ((idx - 96 - 32 * (n - 1)) % 8) as usize },
            CellRef::Input {
                message: ((idx - 96 - 32 * (n - 1)) / 8 + 2) as usize,
                offset: ((idx - 96 - 32 * (n - 1)) % 8) as usize,
            },
        )
    }
}

/// Number of equalities between input cells in a batch of `n` slots.
pub open spec fn copy_pair_count(n: nat) -> nat {
    (96 + 32 * (n - 1) + 8 * n) as nat
}

/// The equalities between input cells that a proof of the batch's hashes has
/// to show, in a batch of `n` slots: see `copy_pair`.
pub fn copy_constraint_cells(n: usize) -> (res: Vec<(CellRef, CellRef)>)
    requires
        1 <= n,
        96 + 40 * n <= usize::MAX,
    ensures
        res@.len() == copy_pair_count(n as nat),
        forall|idx: int| 0 <= idx < res@.len() ==> res@[idx] == copy_pair(n as nat, idx),
{
    let mut res: Vec<(CellRef, CellRef)> = Vec::new();
    let mut j: usize = 0;
    while j < 96
        invariant
            j <= 96,
            1 <= n,
            96 + 40 * n <= usize::MAX,
            res@.len() == j,
            forall|idx: int| 0 <= idx < j ==> res@[idx] == copy_pair(n as nat, idx),
        decreases 96 - j,
    {
        let other = if j < 32 {
            2
        } else {
            n + 1
        };
        res.push(
            (
                CellRef::Input { message: 0, offset: 8 + j },
                CellRef::Input { message: other, offset: 8 + j },
            ),
        );
        j = j + 1;
    }
    let mut t: usize = 0;
    while t < 32 * (n - 1)
        invariant
            t <= 32 * (n - 1),
            1 <= n,
            96 + 40 * n <= usize::MAX,
            res@.len() == 96 + t,
            forall|idx: int| 0 <= idx < 96 + t ==> res@[idx] == copy_pair(n as nat, idx),
        decreases 32 * (n - 1) - t,
    {
        res.push(
            (
                CellRef::Input { message: t / 32 + 3, offset: 8 + t % 32 },
                CellRef::Input { message: t / 32 + 2, offset: 40 + t % 32 },
            ),
        );
        t = t + 1;
    }
    let mut t: usize = 0;
    while t < 8 * n
        invariant
            t <= 8 * n,
            1 <= n,
            96 + 40 * n <= usize::MAX,
            res@.len() == 96 + 32 * (n - 1) + t,
            forall|idx: int|
                0 <= idx < 96 + 32 * (n - 1) + t ==> res@[idx] == copy_pair(n as nat, idx),
        decreases 8 * n - t,
    {
        res.push(
            (
                CellRef::Input { message: 0, offset: t % 8 },
                CellRef::Input { message: t / 8 + 2, offset: t % 8 },
            ),
        );
        t = t + 1;
    }
    res
}

/// Where the parts of a public input hash preimage stand in it.
pub proof fn lemma_pi_preimage_fields(
    chain_id: u64,
    prev_state_root: Seq<u8>,
    post_state_root: Seq<u8>,
    withdraw_root: Seq<u8>,
    data_hash: Seq<u8>,
)
    requires
        prev_state_root.len() == 32,
        post_state_root.len() == 32,
        withdraw_root.len() == 32,
        data_hash.len() == 32,
    ensures
        ({
            let p = pi_preimage(
                chain_id,
                prev_state_root,
                post_state_root,
                withdraw_root,
                data_hash,
            );
            &&& p.len() == 136
            &&& p.subrange(0, 8) == chain_id_bytes(chain_id)
            &&& field_at(p, 8) == prev_state_root
            &&& field_at(p, 40) == post_state_root
            &&& field_at(p, 72) == withdraw_root
            &&& field_at(p, 104) == data_hash
        }),
{
    let p = pi_preimage(chain_id, prev_state_root, post_state_root, withdraw_root, data_hash);
    assert(p.subrange(0, 8) =~= chain_id_bytes(chain_id));
    assert(field_at(p, 8) =~= prev_state_root);
    assert(field_at(p, 40) =~= post_state_root);
    assert(field_at(p, 72) =~= withdraw_root);
    assert(field_at(p, 104) =~= data_hash);
}

/// Whether the cells hold the messages of the batch, as
/// `BatchHash::extract_hash_preimages` hands them out.
pub open spec fn holds_messages_of(cells: HashCellsView, batch: BatchHashView, n: nat) -> bool {
    &&& cells.valid == batch.number_of_valid_chunks
    &&& cells.preimages[0] == batch_pi_preimage(
        batch.chain_id,
        batch.chunks_with_padding,
        batch.number_of_valid_chunks,
        batch.data_hash,
    )
    &&& cells.preimages[1] == data_hash_preimage(batch.chunks_with_padding)
    &&& forall|i: int|
        0 <= i < n ==> #[trigger] cells.preimages[i + 2]
            == batch.chunks_with_padding[i].spec_preimage()
}

/// The messages of a batch keep every rule that does not read a digest or a
/// checksum: the batch shares its roots with the first chunk and the last
/// slot, the chunks are continuous, all slots are on the batch's chain, and
/// the padding slots keep their state root and have no data. They keep the
/// first rule too where the digest of the data hashes, with its words put
/// back in order, is the batch's data hash.
pub proof fn lemma_batch_messages_keep_the_rules(
    cells: HashCellsView,
    batch: BatchHashView,
    n: nat,
)
    requires
        batch.wf(n),
        cells.well_shaped(n),
        holds_messages_of(cells, batch, n),
    ensures
        forall|rule: int, i: int|
            (rule == 2 || 4 <= rule <= 7) && 0 <= i < n ==> !#[trigger] cells.violates(
                n,
                rule,
                i,
            ),
        flip_words(cells.digests[1]) == batch.data_hash ==> !cells.violates(n, 1, 0),
{
    let chunks = batch.chunks_with_padding;
    let k = batch.number_of_valid_chunks as int;
    let given = batch.real_chunks();
    assert(given.len() == k);
    assert(given[k - 1] == chunks[k - 1]);
    lemma_pi_preimage_fields(
        batch.chain_id,
        chunks[0].prev_state_root@,
        chunks[k - 1].post_state_root@,
        chunks[k - 1].withdraw_root@,
        batch.data_hash,
    );
    assert forall|i: int| 0 <= i < n implies {
        let c = #[trigger] cells.chunk(i);
        &&& c.subrange(0, 8) == chain_id_bytes(chunks[i].chain_id)
        &&& field_at(c, 8) == chunks[i].prev_state_root@
        &&& field_at(c, 40) == chunks[i].post_state_root@
        &&& field_at(c, 72) == chunks[i].withdraw_root@
        &&& field_at(c, 104) == chunks[i].data_hash@
    } by {
        assert(cells.preimages[i + 2] == chunks[i].spec_preimage());
        lemma_pi_preimage_fields(
            chunks[i].chain_id,
            chunks[i].prev_state_root@,
            chunks[i].post_state_root@,
            chunks[i].withdraw_root@,
            chunks[i].data_hash@,
        );
    }
    assert forall|i: int| k <= i < n implies (#[trigger] chunks[i]).post_state_root@ == chunks[k
        - 1].post_state_root@ && chunks[i].withdraw_root@ == chunks[k - 1].withdraw_root@
        && chunks[i].spec_is_padding() by {
        assert(chunks[i].pads(&given[k - 1]));
    }
    assert forall|rule: int, i: int| (rule == 2 || 4 <= rule <= 7) && 0 <= i < n implies !#[trigger] cells.violates(
        n,
        rule,
        i,
    ) by {
        assert(chunks[i].chain_id == chunks[0].chain_id);
        if rule == 2 {
            if k <= n - 1 {
                assert(chunks[n - 1].post_state_root@ == chunks[k - 1].post_state_root@);
            }
        } else if rule == 4 {
            if 1 <= i < k {
                assert(link_holds(chunks, i));
            }
        }
    }
}

/// The byte that the named cell of the table holds. Of the rounds of the data
/// hashes the cells hold the digest of one only, that in which the data
/// hashes of the valid chunks end; a checksum is no byte.
pub open spec fn cell_byte(cells: HashCellsView, cell: CellRef) -> u8
    recommends
        cell is Input || cell is Digest || (cell matches CellRef::RoundDigest { round, .. }
            && round + 1 == data_hash_boundary(cells.valid)),
{
    match cell {
        CellRef::Input { message, offset } => cells.preimages[message as int][offset as int],
        CellRef::Digest { message, offset } => cells.digests[message as int][offset as int],
        CellRef::RoundDigest { round, offset } => cells.digests[1][offset as int],
        CellRef::Checksum { round } => 0,
    }
}

/// Whether the two cells of the `idx`-th equality hold the same byte.
pub open spec fn copy_pair_holds(cells: HashCellsView, n: nat, idx: int) -> bool {
    cell_byte(cells, copy_pair(n, idx).0) == cell_byte(cells, copy_pair(n, idx).1)
}

/// Whether all the equalities between input cells hold.
pub open spec fn copy_pairs_hold(cells: HashCellsView, n: nat) -> bool {
    forall|idx: int| 0 <= idx < copy_pair_count(n) ==> #[trigger] copy_pair_holds(cells, n, idx)
}

/// Where the equalities between input cells hold, the batch shares its roots
/// with the first chunk and the last slot, all slots are continuous, and all
/// are on the batch's chain: rules 2, 4 and 5 hold at every slot.
pub proof fn lemma_copy_pairs_give_the_rules(cells: HashCellsView, n: nat)
    requires
        1 <= n,
        96 + 40 * n <= usize::MAX,
        cells.well_shaped(n),
        copy_pairs_hold(cells, n),
    ensures
        forall|rule: int, i: int|
            is_copy_rule(rule) && 0 <= i < n ==> !#[trigger] cells.violates(n, rule, i),
{
    let batch = cells.batch();
    assert(field_at(batch, 8) =~= field_at(cells.chunk(0), 8)) by {
        assert forall|t: int| 0 <= t < 32 implies #[trigger] field_at(batch, 8)[t] == field_at(
            cells.chunk(0),
            8,
        )[t] by {
            assert(copy_pair_holds(cells, n, t));
        }
    }
    assert(field_at(batch, 40) =~= field_at(cells.chunk(n - 1), 40)) by {
        assert forall|t: int| 0 <= t < 32 implies #[trigger] field_at(batch, 40)[t] == field_at(
            cells.chunk(n - 1),
            40,
        )[t] by {
            assert(copy_pair_holds(cells, n, 32 + t));
        }
    }
    assert(field_at(batch, 72) =~= field_at(cells.chunk(n - 1), 72)) by {
        assert forall|t: int| 0 <= t < 32 implies #[trigger] field_at(batch, 72)[t] == field_at(
            cells.chunk(n - 1),
            72,
        )[t] by {
            assert(copy_pair_holds(cells, n, 64 + t));
        }
    }
    assert forall|i: int| 1 <= i < n implies field_at(#[trigger] cells.chunk(i), 8) == field_at(
        cells.chunk(i - 1),
        40,
    ) by {
        assert forall|t: int| 0 <= t < 32 implies #[trigger] field_at(cells.chunk(i), 8)[t]
            == field_at(cells.chunk(i - 1), 40)[t] by {
            let idx = 96 + 32 * (i - 1) + t;
            assert(copy_pair_holds(cells, n, idx));
            assert((idx - 96) / 32 == i - 1 && (idx - 96) % 32 == t);
        }
        assert(field_at(cells.chunk(i), 8) =~= field_at(cells.chunk(i - 1), 40));
    }
    assert forall|i: int| 0 <= i < n implies (#[trigger] cells.chunk(i)).subrange(0, 8)
        == batch.subrange(0, 8) by {
        assert forall|t: int| 0 <= t < 8 implies #[trigger] cells.chunk(i).subrange(0, 8)[t]
            == batch.subrange(0, 8)[t] by {
            let idx = 96 + 32 * (n - 1) + 8 * i + t;
            assert(copy_pair_holds(cells, n, idx));
            assert((idx - 96 - 32 * (n - 1)) / 8 == i && (idx - 96 - 32 * (n - 1)) % 8 == t);
        }
        assert(cells.chunk(i).subrange(0, 8) =~= batch.subrange(0, 8));
    }
    assert forall|rule: int, i: int| is_copy_rule(rule) && 0 <= i < n implies !#[trigger] cells.violates(
        n,
        rule,
        i,
    ) by {
        if rule == 4 && 1 <= i {
            assert(field_at(cells.chunk(i), 8) == field_at(cells.chunk(i - 1), 40));
        }
    }
}

/// The `idx`-th of the equalities by which the batch takes the digest of the
/// data hashes: the round of the data hashes that it belongs to, the cell of
/// the batch's data hash, and the cell of that round's digest, whose words
/// are in reverse order. The equality is owed in the round in which the data
/// hashes of the valid chunks end.
pub open spec fn digest_reuse_cell(idx: int) -> (usize, CellRef, CellRef) {
    (
        (idx / 32) as usize,
        CellRef::Input { message: 0, offset: (104 + idx % 32) as usize },
        CellRef::RoundDigest {
            round: (idx / 32) as usize,
            offset: ((3 - (idx % 32) / 8) * 8 + idx % 8) as usize,
        },
    )
}

/// The equalities by which the batch takes the digest of the data hashes, for
/// every round that the data hashes of a batch of `n` slots may take: see
/// `digest_reuse_cell`. Of these a proof has to show those of the round whose
/// flag `data_hash_flags` sets.
pub fn digest_reuse_cells(n: usize) -> (res: Vec<(usize, CellRef, CellRef)>)
    requires
        32 * n + 136 <= usize::MAX,
    ensures
        res@.len() == 32 * data_hash_rounds(n as nat),
        forall|idx: int| 0 <= idx < res@.len() ==> res@[idx] == digest_reuse_cell(idx),
{
    let rounds: usize = 1 + (32 * n) / 136;
    let mut res: Vec<(usize, CellRef, CellRef)> = Vec::new();
    let mut idx: usize = 0;
    while idx < 32 * rounds
        invariant
            idx <= 32 * rounds,
            32 * rounds <= usize::MAX,
            res@.len() == idx,
            forall|i: int| 0 <= i < idx ==> res@[i] == digest_reuse_cell(i),
        decreases 32 * rounds - idx,
    {
        let t = idx % 32;
        assert(t % 8 == idx % 8) by (nonlinear_arith)
            requires
                t == idx % 32,
        ;
        res.push(
            (
                idx / 32,
                CellRef::Input { message: 0, offset: 104 + t },
                CellRef::RoundDigest { round: idx / 32, offset: (3 - t / 8) * 8 + t % 8 },
            ),
        );
        idx = idx + 1;
    }
    res
}

/// Where the equalities of the round in which the data hashes of the valid
/// chunks end hold, the batch holds the digest of the data hashes: rule 1.
pub proof fn lemma_digest_reuse_cells_give_the_rule(cells: HashCellsView, n: nat)
    requires
        cells.well_shaped(n),
        forall|idx: int|
            0 <= idx < 32 * data_hash_rounds(n) && idx / 32 + 1 == data_hash_boundary(cells.valid)
                ==> cell_byte(cells, (#[trigger] digest_reuse_cell(idx)).1) == cell_byte(
                cells,
                digest_reuse_cell(idx).2,
            ),
    ensures
        !cells.violates(n, 1, 0),
{
    let b = data_hash_boundary(cells.valid) as int;
    assert(1 <= b <= data_hash_rounds(n));
    let field = field_at(cells.batch(), 104);
    let flipped = flip_words(cells.digests[1]);
    assert forall|t: int| 0 <= t < 32 implies field[t] == flipped[t] by {
        let idx = 32 * (b - 1) + t;
        assert(idx / 32 == b - 1 && idx % 32 == t);
        assert(idx % 8 == t % 8) by (nonlinear_arith)
            requires
                idx == 32 * (b - 1) + t,
                0 <= t,
                1 <= b,
        ;
        let cell = digest_reuse_cell(idx);
        assert(cell_byte(cells, cell.1) == cell_byte(cells, cell.2));
    }
    assert(field =~= flipped);
}

/// The `idx`-th cell of the data hashes, with the slot whose data hash it
/// belongs to: the rolling checksum of rule 3 runs over the cells of the
/// slots that hold valid chunks.
pub open spec fn data_hash_cell(idx: int) -> (usize, CellRef) {
    ((idx / 32) as usize, CellRef::Input { message: 1, offset: idx as usize })
}

/// The cells of the data hashes of a batch of `n` slots, each with its slot:
/// see `data_hash_cell`. A proof has to show that the rolling checksum over
/// the cells of the valid slots, in this order, is the checksum that
/// `checksum_cells` names for the round whose flag `data_hash_flags` sets.
pub fn data_hash_cells(n: usize) -> (res: Vec<(usize, CellRef)>)
    requires
        32 * n <= usize::MAX,
    ensures
        res@.len() == 32 * n,
        forall|idx: int| 0 <= idx < res@.len() ==> res@[idx] == data_hash_cell(idx),
{
    let mut res: Vec<(usize, CellRef)> = Vec::new();
    let mut idx: usize = 0;
    while idx < 32 * n
        invariant
            idx <= 32 * n,
            32 * n <= usize::MAX,
            res@.len() == idx,
            forall|i: int| 0 <= i < idx ==> res@[i] == data_hash_cell(i),
        decreases 32 * n - idx,
    {
        res.push((idx / 32, CellRef::Input { message: 1, offset: idx }));
        idx = idx + 1;
    }
    res
}

/// The cell of the rolling checksum at the end of each round that the data
/// hashes of a batch of `n` slots may take, with its round.
pub fn checksum_cells(n: usize) -> (res: Vec<(usize, CellRef)>)
    requires
        32 * n <= usize::MAX,
    ensures
        res@.len() == data_hash_rounds(n as nat),
        forall|b: int|
            0 <= b < res@.len() ==> res@[b] == (b as usize, CellRef::Checksum { round: b as usize }),
{
    let rounds: usize = 1 + (32 * n) / 136;
    let mut res: Vec<(usize, CellRef)> = Vec::new();
    let mut b: usize = 0;
    while b < rounds
        invariant
            b <= rounds,
            res@.len() == b,
            forall|c: int|
                0 <= c < b ==> res@[c] == (c as usize, CellRef::Checksum { round: c as usize }),
        decreases rounds - b,
    {
        res.push((b, CellRef::Checksum { round: b }));
        b = b + 1;
    }
    res
}

/// The `idx`-th of the equalities that a padding slot owes for its shape: the
/// slot, the cell of its previous state root and the cell of its post state
/// root.
pub open spec fn padding_shape_cell(idx: int) -> (usize, CellRef, CellRef) {
    (
        (idx / 32) as usize,
        CellRef::Input { message: (idx / 32 + 2) as usize, offset: (8 + idx % 32) as usize },
        CellRef::Input { message: (idx / 32 + 2) as usize, offset: (40 + idx % 32) as usize },
    )
}

/// The equalities that the slots of a batch of `n` slots owe for their shape
/// when they hold padding: see `padding_shape_cell`. Of these a proof has to
/// show those of the slots that `chunk_is_valid` does not mark.
pub fn padding_shape_cells(n: usize) -> (res: Vec<(usize, CellRef, CellRef)>)
    requires
        1 <= n,
        32 * n + 2 <= usize::MAX,
    ensures
        res@.len() == 32 * n,
        forall|idx: int| 0 <= idx < res@.len() ==> res@[idx] == padding_shape_cell(idx),
{
    let mut res: Vec<(usize, CellRef, CellRef)> = Vec::new();
    let mut idx: usize = 0;
    while idx < 32 * n
        invariant
            idx <= 32 * n,
            32 * n + 2 <= usize::MAX,
            res@.len() == idx,
            forall|i: int| 0 <= i < idx ==> res@[i] == padding_shape_cell(i),
        decreases 32 * n - idx,
    {
        res.push(
            (
                idx / 32,
                CellRef::Input { message: idx / 32 + 2, offset: 8 + idx % 32 },
                CellRef::Input { message: idx / 32 + 2, offset: 40 + idx % 32 },
            ),
        );
        idx = idx + 1;
    }
    res
}

/// The `idx`-th cell that a padding slot owes to be zero: the slot and the
/// cell of its data hash.
pub open spec fn padding_data_cell(idx: int) -> (usize, CellRef) {
    (
        (idx / 32) as usize,
        CellRef::Input { message: (idx / 32 + 2) as usize, offset: (104 + idx % 32) as usize },
    )
}

/// The cells that the slots of a batch of `n` slots owe to be zero when they
/// hold padding: see `padding_data_cell`. Of these a proof has to show those
/// of the slots that `chunk_is_valid` does not mark.
pub fn padding_data_cells(n: usize) -> (res: Vec<(usize, CellRef)>)
    requires
        1 <= n,
        32 * n + 2 <= usize::MAX,
    ensures
        res@.len() == 32 * n,
        forall|idx: int| 0 <= idx < res@.len() ==> res@[idx] == padding_data_cell(idx),
{
    let mut res: Vec<(usize, CellRef)> = Vec::new();
    let mut idx: usize = 0;
    while idx < 32 * n
        invariant
            idx <= 32 * n,
            32 * n + 2 <= usize::MAX,
            res@.len() == idx,
            forall|i: int| 0 <= i < idx ==> res@[i] == padding_data_cell(i),
        decreases 32 * n - idx,
    {
        res.push((idx / 32, CellRef::Input { message: idx / 32 + 2, offset: 104 + idx % 32 }));
        idx = idx + 1;
    }
    res
}

/// Where the equalities of shape hold in every slot that holds no valid
/// chunk, and the cells of data are zero there, the padding slots keep their
/// state root and have no data: rules 6 and 7 hold at every slot.
pub proof fn lemma_padding_cells_give_the_rules(cells: HashCellsView, n: nat)
    requires
        1 <= n,
        32 * n + 2 <= usize::MAX,
        cells.well_shaped(n),
        forall|idx: int|
            0 <= idx < 32 * n && idx / 32 >= cells.valid ==> cell_byte(
                cells,
                (#[trigger] padding_shape_cell(idx)).1,
            ) == cell_byte(cells, padding_shape_cell(idx).2),
        forall|idx: int|
            0 <= idx < 32 * n && idx / 32 >= cells.valid ==> cell_byte(
                cells,
                (#[trigger] padding_data_cell(idx)).1,
            ) == 0,
    ensures
        forall|rule: int, i: int|
            6 <= rule <= 7 && 0 <= i < n ==> !#[trigger] cells.violates(n, rule, i),
{
    assert forall|rule: int, i: int| 6 <= rule <= 7 && 0 <= i < n implies !#[trigger] cells.violates(
        n,
        rule,
        i,
    ) by {
        if cells.valid <= i {
            let chunk = cells.chunk(i);
            assert forall|t: int| 0 <= t < 32 implies #[trigger] field_at(chunk, 8)[t] == field_at(
                chunk,
                40,
            )[t] by {
                let idx = 32 * i + t;
                assert(idx / 32 == i && idx % 32 == t);
                let cell = padding_shape_cell(idx);
                assert(cell_byte(cells, cell.1) == cell_byte(cells, cell.2));
            }
            assert(field_at(chunk, 8) =~= field_at(chunk, 40));
            assert forall|t: int| 0 <= t < 32 implies #[trigger] field_at(chunk, 104)[t] == 0 by {
                let idx = 32 * i + t;
                assert(idx / 32 == i && idx % 32 == t);
                let cell = padding_data_cell(idx);
                assert(cell_byte(cells, cell.1) == 0);
            }
            assert(field_at(chunk, 104) =~= zero_hash());
        }
    }
}

} // verus!
