//! Row layout of the Keccak table and small helpers on slices.
use crate::constants::{
    DIGEST_LEN, DIGEST_ROW_OFFSET, INPUT_ROW_OFFSET, NUM_ROUNDS, ROUND_LEN, ROWS_PER_ABSORB,
};
use crate::field::{fr_modulus, Fr};
use vstd::arithmetic::div_mod::{lemma_add_mod_noop, lemma_small_mod};
use vstd::prelude::*;
use vstd::slice::slice_subrange;

verus! {

/// Number of absorption rounds that Keccak spends on a message of `len` bytes:
/// the padding always needs room, so a full last block costs one more round.
pub open spec fn rounds_of(len: nat) -> nat {
    1 + len / 136
}

/// Number of absorption rounds that the data hash of a batch of `n` slots may take.
pub open spec fn data_hash_rounds(n: nat) -> nat {
    rounds_of(32 * n)
}

/// Rounds spent on the first `n` of the messages whose lengths are `lens`.
pub open spec fn rounds_before(lens: Seq<nat>, n: nat) -> nat
    decreases n,
{
    if n == 0 {
        0
    } else {
        rounds_before(lens, (n - 1) as nat) + rounds_of(lens[n - 1])
    }
}

/// The lengths of the given messages.
pub open spec fn lengths_of(preimages: Seq<Vec<u8>>) -> Seq<nat> {
    Seq::new(preimages.len(), |i: int| preimages[i]@.len())
}

/// Row of the table that holds input byte `idx`, counted over all rounds.
pub open spec fn input_row(idx: int) -> int {
    (idx / 136) * 300 + ((idx % 136) / 8) * 12 + idx % 8 + 12
}

/// Row of the table that holds byte `t` of the digest squeezed in `round`.
pub open spec fn digest_row(round: int, t: int) -> int {
    round * 300 + (t / 8) * 12 + t % 8 + 252
}

/// Number of leading messages that are laid out by their own length.
pub open spec fn leading_count(len: nat, n: nat) -> nat {
    if len <= n + 1 {
        len
    } else {
        n + 1
    }
}

/// Round in which digest number `d` is squeezed: the last round of message `d`
/// for the `m` leading messages, then every round of the data hash.
pub open spec fn digest_round(lens: Seq<nat>, m: nat, d: int) -> int {
    if d < m {
        rounds_before(lens, (d + 1) as nat) - 1
    } else {
        rounds_before(lens, m) + (d - m)
    }
}

/// Total number of rounds laid out for a batch of `n` slots.
pub open spec fn total_rounds(lens: Seq<nat>, n: nat) -> nat {
    rounds_before(lens, leading_count(lens.len(), n)) + data_hash_rounds(n)
}

/// Whether no element is smaller than the one before it.
pub open spec fn ascending(a: Seq<usize>) -> bool {
    forall|i: int| 0 <= i && i + 1 < a.len() ==> a[i] <= #[trigger] a[i + 1]
}

/// Whether the slice is in ascending order.
pub fn is_ascending(a: &[usize]) -> (res: bool)
    ensures
        res == ascending(a@),
{
    if a.len() < 2 {
        return true;
    }
    let mut i: usize = 0;
    while i + 1 < a.len()
        invariant
            a.len() >= 2,
            i + 1 <= a.len(),
            forall|j: int| 0 <= j < i ==> a[j] <= #[trigger] a[j + 1],
        decreases a.len() - i,
    {
        if a[i] > a[i + 1] {
            return false;
        }
        i = i + 1;
    }
    true
}

/// Appends the rows that hold the 136 input bytes of absorption round `round`.
fn push_input_rows(rows: &mut Vec<usize>, round: usize)
    requires
        old(rows)@.len() == 136 * round,
        (round + 1) * 300 <= usize::MAX,
        forall|idx: int| 0 <= idx < old(rows)@.len() ==> old(rows)@[idx] == input_row(idx),
    ensures
        final(rows)@.len() == 136 * (round + 1),
        forall|idx: int| 0 <= idx < final(rows)@.len() ==> final(rows)@[idx] == input_row(idx),
{
    let base: usize = round * ROWS_PER_ABSORB;
    let mut t: usize = 0;
    while t < 136
        invariant
            t <= 136,
            base == round * 300,
            (round + 1) * 300 <= usize::MAX,
            rows@.len() == 136 * round + t,
            forall|idx: int| 0 <= idx < rows@.len() ==> rows@[idx] == input_row(idx),
        decreases 136 - t,
    {
        let row: usize = base + (t / 8) * 12 + t % 8 + INPUT_ROW_OFFSET;
        proof {
            let idx = 136 * round + t;
            assert(idx / 136 == round && idx % 136 == t) by (nonlinear_arith)
                requires
                    idx == 136 * round + t,
                    0 <= t < 136,
            ;
            assert(idx % 8 == t % 8) by (nonlinear_arith)
                requires
                    idx == 136 * round + t,
                    0 <= t,
                    0 <= round,
            ;
            assert(row == input_row(idx as int));
        }
        rows.push(row);
        t = t + 1;
    }
}

/// Appends the rows that hold the 32 bytes of the digest squeezed in `round`.
fn push_digest_rows(rows: &mut Vec<usize>, round: usize)
    requires
        (round + 1) * 300 <= usize::MAX,
    ensures
        final(rows)@.len() == old(rows)@.len() + 32,
        forall|idx: int| 0 <= idx < old(rows)@.len() ==> final(rows)@[idx] == old(rows)@[idx],
        forall|t: int|
            0 <= t < 32 ==> #[trigger] final(rows)@[old(rows)@.len() + t] == digest_row(
                round as int,
                t,
            ),
{
    let base: usize = round * ROWS_PER_ABSORB;
    let ghost start = rows@;
    let mut t: usize = 0;
    while t < 32
        invariant
            t <= 32,
            base == round * 300,
            (round + 1) * 300 <= usize::MAX,
            rows@.len() == start.len() + t,
            forall|idx: int| 0 <= idx < start.len() ==> rows@[idx] == start[idx],
            forall|u: int|
                0 <= u < t ==> #[trigger] rows@[start.len() + u] == digest_row(round as int, u),
        decreases 32 - t,
    {
        let row: usize = base + (t / 8) * 12 + t % 8 + DIGEST_ROW_OFFSET;
        rows.push(row);
        t = t + 1;
    }
}

/// `rounds_before` grows with the number of messages counted.
pub proof fn lemma_rounds_before_monotonic(lens: Seq<nat>, a: nat, b: nat)
    requires
        a <= b,
    ensures
        rounds_before(lens, a) <= rounds_before(lens, b),
        rounds_before(lens, a) + (b - a) <= rounds_before(lens, b),
    decreases b,
{
    if a < b {
        lemma_rounds_before_monotonic(lens, a, (b - 1) as nat);
    }
}

/// The rows of the Keccak table that hold the input bytes and the digest bytes
/// of a batch of `N` chunk slots.
///
/// The first `N + 1` messages (fewer, if fewer are given) are laid out one
/// after the other, each over `rounds_of` its length; the rows of all their
/// input bytes are listed, and the rows of the digest squeezed in the last
/// round of each. After them stands the data hash, whose length varies with
/// the number of valid chunks: every round that it may take is listed, with a
/// digest for each.
///
/// Input byte `idx`, counted over all rounds, stands in row `input_row(idx)`;
/// both lists are in ascending order.
pub fn get_indices<const N: usize>(preimages: &[Vec<u8>]) -> (res: (Vec<usize>, Vec<usize>))
    requires
        total_rounds(lengths_of(preimages@), N as nat) * 300 <= usize::MAX,
    ensures
        res.0@.len() == 136 * total_rounds(lengths_of(preimages@), N as nat),
        forall|idx: int| 0 <= idx < res.0@.len() ==> res.0@[idx] == input_row(idx),
        res.1@.len() == 32 * (leading_count(preimages@.len(), N as nat) + data_hash_rounds(
            N as nat,
        )),
        forall|idx: int|
            0 <= idx < res.1@.len() ==> res.1@[idx] == digest_row(
                digest_round(
                    lengths_of(preimages@),
                    leading_count(preimages@.len(), N as nat),
                    idx / 32,
                ),
                idx % 32,
            ),
        ascending(res.0@),
        ascending(res.1@),
{
    let ghost lens = lengths_of(preimages@);
    let ghost m = leading_count(preimages@.len(), N as nat);
    let ghost total = total_rounds(lens, N as nat);
    let leading: usize = if preimages.len() <= N {
        preimages.len()
    } else {
        N + 1
    };
    let mut preimage_indices: Vec<usize> = Vec::new();
    let mut digest_indices: Vec<usize> = Vec::new();
    let mut round_ctr: usize = 0;
    let mut p: usize = 0;
    while p < leading
        invariant
            p <= leading,
            leading == m,
            m == leading_count(preimages@.len(), N as nat),
            lens == lengths_of(preimages@),
            total == total_rounds(lens, N as nat),
            total * 300 <= usize::MAX,
            round_ctr == rounds_before(lens, p as nat),
            preimage_indices@.len() == 136 * round_ctr,
            forall|idx: int|
                0 <= idx < preimage_indices@.len() ==> preimage_indices@[idx] == input_row(idx),
            digest_indices@.len() == 32 * p,
            forall|idx: int|
                0 <= idx < digest_indices@.len() ==> digest_indices@[idx] == digest_row(
                    digest_round(lens, m, idx / 32),
                    idx % 32,
                ),
        decreases leading - p,
    {
        proof {
            lemma_rounds_before_monotonic(lens, (p + 1) as nat, m);
            assert(rounds_before(lens, (p + 1) as nat) == round_ctr + rounds_of(lens[p as int]));
        }
        let num_rounds: usize = 1 + preimages[p].len() / 136;
        let mut i: usize = 0;
        while i < num_rounds
            invariant
                i <= num_rounds,
                p < leading,
                leading == m,
                m <= lens.len(),
                num_rounds == rounds_of(lens[p as int]),
                total * 300 <= usize::MAX,
                rounds_before(lens, p as nat) + num_rounds <= total,
                round_ctr == rounds_before(lens, p as nat) + i,
                preimage_indices@.len() == 136 * round_ctr,
                forall|idx: int|
                    0 <= idx < preimage_indices@.len() ==> preimage_indices@[idx] == input_row(
                        idx,
                    ),
                digest_indices@.len() == 32 * p,
                forall|idx: int|
                    0 <= idx < digest_indices@.len() ==> digest_indices@[idx] == digest_row(
                        digest_round(lens, m, idx / 32),
                        idx % 32,
                    ),
            decreases num_rounds - i,
        {
            assert((round_ctr + 1) * 300 <= usize::MAX) by (nonlinear_arith)
                requires
                    round_ctr + 1 <= total,
                    total * 300 <= usize::MAX,
            ;
            push_input_rows(&mut preimage_indices, round_ctr);
            round_ctr = round_ctr + 1;
            i = i + 1;
        }
        proof {
            assert(round_ctr == rounds_before(lens, (p + 1) as nat));
            assert(round_ctr * 300 <= usize::MAX) by (nonlinear_arith)
                requires
                    round_ctr <= total,
                    total * 300 <= usize::MAX,
            ;
        }
        let ghost before = digest_indices@;
        push_digest_rows(&mut digest_indices, (round_ctr - 1) as usize);
        proof {
            assert forall|idx: int| 0 <= idx < digest_indices@.len() implies digest_indices@[idx]
                == digest_row(digest_round(lens, m, idx / 32), idx % 32) by {
                if idx < before.len() {
                    assert(digest_indices@[idx] == before[idx]);
                } else {
                    let t = idx - before.len();
                    assert(digest_indices@[before.len() + t] == digest_row(round_ctr - 1, t));
                    assert(idx / 32 == p && idx % 32 == t);
                }
            }
        }
        p = p + 1;
    }
    let data_rounds: usize = 1 + (32 * N) / 136;
    let mut d: usize = 0;
    while d < data_rounds
        invariant
            d <= data_rounds,
            data_rounds == data_hash_rounds(N as nat),
            leading == m,
            total == rounds_before(lens, m) + data_rounds,
            total * 300 <= usize::MAX,
            round_ctr == rounds_before(lens, m) + d,
            preimage_indices@.len() == 136 * round_ctr,
            forall|idx: int|
                0 <= idx < preimage_indices@.len() ==> preimage_indices@[idx] == input_row(idx),
            digest_indices@.len() == 32 * (m + d),
            forall|idx: int|
                0 <= idx < digest_indices@.len() ==> digest_indices@[idx] == digest_row(
                    digest_round(lens, m, idx / 32),
                    idx % 32,
                ),
        decreases data_rounds - d,
    {
        assert((round_ctr + 1) * 300 <= usize::MAX) by (nonlinear_arith)
            requires
                round_ctr + 1 <= total,
                total * 300 <= usize::MAX,
        ;
        push_input_rows(&mut preimage_indices, round_ctr);
        let ghost before = digest_indices@;
        push_digest_rows(&mut digest_indices, round_ctr);
        proof {
            assert forall|idx: int| 0 <= idx < digest_indices@.len() implies digest_indices@[idx]
                == digest_row(digest_round(lens, m, idx / 32), idx % 32) by {
                if idx < before.len() {
                    assert(digest_indices@[idx] == before[idx]);
                } else {
                    let t = idx - before.len();
                    assert(digest_indices@[before.len() + t] == digest_row(round_ctr as int, t));
                    assert(idx / 32 == m + d && idx % 32 == t);
                }
            }
        }
        round_ctr = round_ctr + 1;
        d = d + 1;
    }
    proof {
        lemma_input_rows_ascending(preimage_indices@);
        lemma_digest_rows_ascending(digest_indices@, lens, m);
    }
    (preimage_indices, digest_indices)
}

/// Rows listed by `input_row` are in ascending order.
pub proof fn lemma_input_rows_ascending(rows: Seq<usize>)
    requires
        forall|idx: int| 0 <= idx < rows.len() ==> rows[idx] == input_row(idx),
    ensures
        ascending(rows),
{
    assert forall|i: int| 0 <= i && i + 1 < rows.len() implies rows[i] <= #[trigger] rows[i + 1] by {
        lemma_input_row_step(i);
    }
}

/// `input_row` is strictly increasing from one byte to the next.
pub proof fn lemma_input_row_step(i: int)
    requires
        0 <= i,
    ensures
        input_row(i) < input_row(i + 1),
{
    let q = i / 136;
    let r = i % 136;
    if r < 135 {
        assert((i + 1) / 136 == q && (i + 1) % 136 == r + 1) by (nonlinear_arith)
            requires
                q == i / 136,
                r == i % 136,
                0 <= r < 135,
        ;
        assert(i % 8 == r % 8 && (i + 1) % 8 == (r + 1) % 8) by (nonlinear_arith)
            requires
                q == i / 136,
                r == i % 136,
                0 <= i,
        ;
    } else {
        assert((i + 1) / 136 == q + 1 && (i + 1) % 136 == 0) by (nonlinear_arith)
            requires
                q == i / 136,
                r == i % 136,
                r == 135,
        ;
        assert(i % 8 == 7 && (i + 1) % 8 == 0) by (nonlinear_arith)
            requires
                q == i / 136,
                r == i % 136,
                r == 135,
                0 <= i,
        ;
    }
}

/// Rows listed by `digest_row` over `digest_round` are in ascending order.
pub proof fn lemma_digest_rows_ascending(rows: Seq<usize>, lens: Seq<nat>, m: nat)
    requires
        forall|idx: int|
            0 <= idx < rows.len() ==> rows[idx] == digest_row(
                digest_round(lens, m, idx / 32),
                idx % 32,
            ),
    ensures
        ascending(rows),
{
    assert forall|i: int| 0 <= i && i + 1 < rows.len() implies rows[i] <= #[trigger] rows[i + 1] by {
        let d = i / 32;
        let t = i % 32;
        if t < 31 {
            assert((i + 1) / 32 == d && (i + 1) % 32 == t + 1);
        } else {
            assert((i + 1) / 32 == d + 1 && (i + 1) % 32 == 0);
            lemma_digest_round_step(lens, m, d);
        }
    }
}

/// Each digest is squeezed in a later round than the one before it.
pub proof fn lemma_digest_round_step(lens: Seq<nat>, m: nat, d: int)
    requires
        0 <= d,
    ensures
        digest_round(lens, m, d) < digest_round(lens, m, d + 1),
{
    if d + 1 < m {
        assert(rounds_before(lens, (d + 2) as nat) == rounds_before(lens, (d + 1) as nat)
            + rounds_of(lens[d + 1]));
    } else if d + 1 == m {
    } else {
    }
}

/// Number of messages of one absorption round that a Keccak table of
/// `num_rows` rows has room for, when each permutation round takes
/// `rows_per_round` rows; two rows of the table cannot be used. There is no
/// answer for a table without rows.
pub fn capacity(num_rows: usize, rows_per_round: usize) -> (res: Option<usize>)
    requires
        num_rows > 0 ==> rows_per_round > 0,
        num_rows > 0 ==> 25 * rows_per_round <= usize::MAX,
        num_rows > 0 ==> num_rows as int / (25 * rows_per_round) >= 2,
    ensures
        num_rows == 0 ==> res.is_none(),
        num_rows > 0 ==> (res matches Some(messages) && messages + 2 == num_rows as int / (25
            * rows_per_round)),
{
    if num_rows > 0 {
        Some(num_rows / ((NUM_ROUNDS + 1) * rows_per_round) - 2)
    } else {
        None
    }
}

/// The values of the given field elements.
pub open spec fn values_of(elements: Seq<Fr>) -> Seq<nat> {
    Seq::new(elements.len(), |i: int| elements[i].value())
}

/// The random linear combination of `values` with `r` in the scalar field,
/// the first value with the highest power: Horner's rule from the left.
pub open spec fn spec_rlc(values: Seq<nat>, r: nat) -> nat
    decreases values.len(),
{
    if values.len() == 0 {
        0
    } else {
        (spec_rlc(values.drop_last(), r) * r + values.last()) % fr_modulus()
    }
}

/// The random linear combination of `inputs` with `randomness`:
/// `inputs[0] * r^(n-1) + ... + inputs[n-1]` in the scalar field.
pub fn rlc(inputs: &[Fr], randomness: &Fr) -> (res: Fr)
    requires
        inputs@.len() > 0,
    ensures
        res.value() == spec_rlc(values_of(inputs@), randomness.value()),
{
    let ghost values = values_of(inputs@);
    let ghost r = randomness.value();
    let mut acc: Fr = inputs[0];
    proof {
        use_type_invariant(&acc);
        let first = values.subrange(0, 1);
        assert(first.drop_last().len() == 0);
        assert(spec_rlc(first.drop_last(), r) == 0);
        assert(first.last() == acc.value());
        assert(spec_rlc(first, r) == (0 * r + acc.value()) % fr_modulus());
        lemma_small_mod(acc.value(), fr_modulus());
    }
    let mut i: usize = 1;
    while i < inputs.len()
        invariant
            1 <= i <= inputs@.len(),
            values == values_of(inputs@),
            r == randomness.value(),
            acc.value() == spec_rlc(values.subrange(0, i as int), r),
        decreases inputs@.len() - i,
    {
        let scaled = acc.times(randomness);
        let input = &inputs[i];
        let next = scaled.plus(input);
        proof {
            use_type_invariant(input);
            let prefix = values.subrange(0, i + 1);
            assert(prefix.drop_last() =~= values.subrange(0, i as int));
            assert(prefix.last() == inputs@[i as int].value());
            let m = fr_modulus() as int;
            lemma_add_mod_noop((acc.value() * r) as int, inputs@[i as int].value() as int, m);
            lemma_small_mod(inputs@[i as int].value(), fr_modulus());
        }
        acc = next;
        i = i + 1;
    }
    assert(values.subrange(0, inputs@.len() as int) =~= values);
    acc
}

/// Splits the input cells of the table into the cells of the batch's public
/// input hash, of each of the `n` chunk hashes (two absorption rounds each),
/// and, after them, of the data hash.
pub fn parse_hash_preimage_cells<T>(hash_input_cells: &[T], n: usize) -> (res: (
    &[T],
    Vec<&[T]>,
    &[T],
))
    requires
        272 * (n + 1) <= hash_input_cells@.len(),
    ensures
        res.0@ == hash_input_cells@.subrange(0, 272),
        res.1@.len() == n,
        forall|i: int|
            0 <= i < n ==> (#[trigger] res.1@[i])@ == hash_input_cells@.subrange(
                272 * (i + 1),
                272 * (i + 2),
            ),
        res.2@ == hash_input_cells@.subrange(272 * (n + 1), hash_input_cells@.len() as int),
{
    let total = hash_input_cells.len();
    let batch_pi_hash_preimage = slice_subrange(hash_input_cells, 0, ROUND_LEN * 2);
    let mut chunk_pi_hash_preimages: Vec<&[T]> = Vec::new();
    let mut i: usize = 0;
    while i < n
        invariant
            i <= n,
            272 * (n + 1) <= hash_input_cells@.len(),
            total == hash_input_cells@.len(),
            chunk_pi_hash_preimages@.len() == i,
            forall|j: int|
                0 <= j < i ==> (#[trigger] chunk_pi_hash_preimages@[j])@
                    == hash_input_cells@.subrange(272 * (j + 1), 272 * (j + 2)),
        decreases n - i,
    {
        let width: usize = ROUND_LEN * 2;
        assert(width == 272);
        chunk_pi_hash_preimages.push(
            slice_subrange(hash_input_cells, width * (i + 1), width * (i + 2)),
        );
        i = i + 1;
    }
    let width: usize = ROUND_LEN * 2;
    assert(width == 272);
    let potential_batch_data_hash_preimage = slice_subrange(
        hash_input_cells,
        width * (n + 1),
        total,
    );
    (batch_pi_hash_preimage, chunk_pi_hash_preimages, potential_batch_data_hash_preimage)
}

/// Splits the digest cells of the table into the digest of the batch's public
/// input hash, of each of the `n` chunk hashes, and, after them, the digests
/// that the data hash may end in.
pub fn parse_hash_digest_cells<T>(hash_output_cells: &[T], n: usize) -> (res: (
    &[T],
    Vec<&[T]>,
    &[T],
))
    requires
        32 * (n + 1) <= hash_output_cells@.len(),
    ensures
        res.0@ == hash_output_cells@.subrange(0, 32),
        res.1@.len() == n,
        forall|i: int|
            0 <= i < n ==> (#[trigger] res.1@[i])@ == hash_output_cells@.subrange(
                32 * (i + 1),
                32 * (i + 2),
            ),
        res.2@ == hash_output_cells@.subrange(32 * (n + 1), hash_output_cells@.len() as int),
{
    let total = hash_output_cells.len();
    let batch_pi_hash_digest = slice_subrange(hash_output_cells, 0, DIGEST_LEN);
    let mut chunk_pi_hash_digests: Vec<&[T]> = Vec::new();
    let mut i: usize = 0;
    while i < n
        invariant
            i <= n,
            32 * (n + 1) <= hash_output_cells@.len(),
            total == hash_output_cells@.len(),
            chunk_pi_hash_digests@.len() == i,
            forall|j: int|
                0 <= j < i ==> (#[trigger] chunk_pi_hash_digests@[j])@
                    == hash_output_cells@.subrange(32 * (j + 1), 32 * (j + 2)),
        decreases n - i,
    {
        chunk_pi_hash_digests.push(
            slice_subrange(hash_output_cells, DIGEST_LEN * (i + 1), DIGEST_LEN * (i + 2)),
        );
        i = i + 1;
    }
    let potential_batch_data_hash_digest = slice_subrange(
        hash_output_cells,
        DIGEST_LEN * (n + 1),
        total,
    );
    (batch_pi_hash_digest, chunk_pi_hash_digests, potential_batch_data_hash_digest)
}

/// The number of rounds laid out for a batch of `N` slots, if the rows of
/// that many rounds and one more can be counted in the machine's integers.
pub fn checked_total_rounds<const N: usize>(preimages: &[Vec<u8>]) -> (res: Option<usize>)
    ensures
        res.is_some() <==> (total_rounds(lengths_of(preimages@), N as nat) + 1) * 300
            <= usize::MAX,
        res matches Some(total) ==> total == total_rounds(lengths_of(preimages@), N as nat),
{
    let ghost lens = lengths_of(preimages@);
    let ghost m = leading_count(preimages@.len(), N as nat);
    let leading: usize = if preimages.len() <= N {
        preimages.len()
    } else {
        N + 1
    };
    let limit: usize = usize::MAX / 300 - 1;
    let mut rounds: usize = 0;
    let mut p: usize = 0;
    while p < leading
        invariant
            p <= leading,
            leading == m,
            m == leading_count(preimages@.len(), N as nat),
            lens == lengths_of(preimages@),
            limit == usize::MAX / 300 - 1,
            rounds == rounds_before(lens, p as nat),
            rounds <= limit,
        decreases leading - p,
    {
        let num_rounds: usize = 1 + preimages[p].len() / 136;
        assert(rounds_before(lens, (p + 1) as nat) == rounds + rounds_of(lens[p as int]));
        if num_rounds > limit - rounds {
            proof {
                lemma_rounds_before_monotonic(lens, (p + 1) as nat, m);
                assert(total_rounds(lens, N as nat) >= rounds_before(lens, m) + 1);
            }
            return None;
        }
        rounds = rounds + num_rounds;
        p = p + 1;
    }
    if N > usize::MAX / 32 {
        return None;
    }
    let data_rounds: usize = 1 + (32 * N) / 136;
    if data_rounds > limit - rounds {
        return None;
    }
    Some(rounds + data_rounds)
}

} // verus!
