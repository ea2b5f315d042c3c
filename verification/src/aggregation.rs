//! The aggregate of a batch of chunk proofs: the accumulator folded from the
//! proofs' accumulators, and the public instance that a verifier reads.
use crate::batch::{BatchHash, BatchHashView};
use crate::constants::{ACC_LEN, DIGEST_LEN};
use crate::field::{fq_modulus, lemma_limbs_round_trip, limb_base, limb_of, limbs_to_nat, Fq, Fr};
use crate::hash::keccak256_digest;
use crate::util::values_of;
use snark_verifier::halo2_base::halo2_proofs::halo2curves::bn256;
use rand::rngs::OsRng;
use snark_verifier::loader::native::NativeLoader;
use snark_verifier::pcs::kzg;
use snark_verifier::pcs::AccumulationSchemeProver;
use snark_verifier::util::arithmetic::CurveAffine;
use snark_verifier_sdk::halo2::{PoseidonTranscript, POSEIDON_SPEC};
use snark_verifier_sdk::SHPLONK;
use vstd::prelude::*;

verus! {

/// A point of the curve in affine coordinates.
#[derive(Clone, Copy, Debug)]
pub struct G1Point {
    /// The first coordinate.
    pub x: Fq,
    /// The second coordinate.
    pub y: Fq,
}

/// A pairing check put off: the two points that are its left and right side.
#[derive(Clone, Copy, Debug)]
pub struct KzgAccumulator {
    /// Left-hand side of the pairing.
    pub lhs: G1Point,
    /// Right-hand side of the pairing.
    pub rhs: G1Point,
}

/// Why the proofs of a batch cannot be aggregated.
#[derive(Clone, Copy, Debug, PartialEq, Eq)]
pub enum AccumulationError {
    /// The instance of the proof in slot `index` has not the shape of an
    /// accumulator followed by a hash; or the accumulator at position
    /// `index` of those handed in has a side off the curve; or, with index
    /// 0, there is no accumulator at all.
    MalformedChildProof { index: usize },
    /// The instance of the proof at `index` does not end in the public input
    /// hash of the chunk in its slot.
    InstanceMismatch { index: usize },
}

impl KzgAccumulator {
    /// The four coordinates in the order of the instance: `lhs.x`, `lhs.y`,
    /// `rhs.x`, `rhs.y`.
    pub open spec fn coordinates(&self) -> Seq<nat> {
        seq![self.lhs.x.value(), self.lhs.y.value(), self.rhs.x.value(), self.rhs.y.value()]
    }
}

/// The public instance of an aggregate: three limbs for each of the four
/// coordinates of the accumulator, least significant limb first, then the 32
/// bytes of the batch's public input hash, one element each, then the number
/// of valid chunks.
pub open spec fn assembled(coordinates: Seq<nat>, hash: Seq<u8>, valid: nat) -> Seq<nat> {
    Seq::new(
        45,
        |i: int|
            if i < 12 {
                limb_of(coordinates[i / 3], (i % 3) as nat)
            } else if i < 44 {
                hash[i - 12] as nat
            } else {
                valid
            },
    )
}

/// The coordinate that the instance holds in limbs `3 * c` to `3 * c + 2`.
pub open spec fn reconstruct_coordinate(instance: Seq<nat>, c: int) -> nat {
    limbs_to_nat(instance[3 * c], instance[3 * c + 1], instance[3 * c + 2])
}

/// The hash that the instance holds in elements 12 to 43.
pub open spec fn instance_hash(instance: Seq<nat>) -> Seq<u8> {
    Seq::new(32, |j: int| instance[12 + j] as u8)
}

/// Reading an assembled instance gives back what it was assembled from: each
/// coordinate from its limbs, every byte of the hash, and the number of valid
/// chunks.
pub proof fn lemma_assemble_round_trip(coordinates: Seq<nat>, hash: Seq<u8>, valid: nat)
    requires
        coordinates.len() == 4,
        forall|c: int| 0 <= c < 4 ==> coordinates[c] < fq_modulus(),
        hash.len() == 32,
    ensures
        assembled(coordinates, hash, valid).len() == 45,
        forall|c: int|
            0 <= c < 4 ==> #[trigger] reconstruct_coordinate(
                assembled(coordinates, hash, valid),
                c,
            ) == coordinates[c],
        instance_hash(assembled(coordinates, hash, valid)) == hash,
        assembled(coordinates, hash, valid)[44] == valid,
{
    let instance = assembled(coordinates, hash, valid);
    assert(fq_modulus() < limb_base() * limb_base() * limb_base()) by {
        assert(limb_base() * limb_base() * limb_base()
            == 0x1_0000_0000_0000_0000_0000_0000_0000_0000_0000_0000_0000_0000_0000_0000_0000_0000_00nat);
    }
    assert forall|c: int| 0 <= c < 4 implies #[trigger] reconstruct_coordinate(instance, c)
        == coordinates[c] by {
        lemma_limbs_round_trip(coordinates[c]);
        assert(instance[3 * c] == limb_of(coordinates[(3 * c) / 3], ((3 * c) % 3) as nat));
        assert(instance[3 * c + 1] == limb_of(
            coordinates[(3 * c + 1) / 3],
            ((3 * c + 1) % 3) as nat,
        ));
        assert(instance[3 * c + 2] == limb_of(
            coordinates[(3 * c + 2) / 3],
            ((3 * c + 2) % 3) as nat,
        ));
    }
    assert(instance_hash(instance) =~= hash);
}

/// Appends the three limbs of a coordinate to the instance.
fn push_limbs(instance: &mut Vec<Fr>, coordinate: &Fq)
    ensures
        final(instance)@.len() == old(instance)@.len() + 3,
        forall|i: int| 0 <= i < old(instance)@.len() ==> final(instance)@[i] == old(instance)@[i],
        forall|i: int|
            0 <= i < 3 ==> (#[trigger] final(instance)@[old(instance)@.len() + i]).value()
                == limb_of(coordinate.value(), i as nat),
{
    let limbs = coordinate.to_limbs_88();
    instance.push(limbs[0]);
    instance.push(limbs[1]);
    instance.push(limbs[2]);
}

/// Lays out the public instance of an aggregate: the folded accumulator in
/// limbs, the batch's public input hash byte by byte, and the number of valid
/// chunks.
pub fn assemble(
    accumulator: &KzgAccumulator,
    public_input_hash: &[u8; 32],
    number_of_valid_chunks: usize,
) -> (res: Vec<Fr>)
    ensures
        values_of(res@) == assembled(
            accumulator.coordinates(),
            public_input_hash@,
            number_of_valid_chunks as nat,
        ),
        res@.len() == 45,
{
    let ghost coordinates = accumulator.coordinates();
    let mut res: Vec<Fr> = Vec::new();
    push_limbs(&mut res, &accumulator.lhs.x);
    push_limbs(&mut res, &accumulator.lhs.y);
    push_limbs(&mut res, &accumulator.rhs.x);
    push_limbs(&mut res, &accumulator.rhs.y);
    assert forall|i: int| 0 <= i < 12 implies (#[trigger] res@[i]).value() == limb_of(
        coordinates[i / 3],
        (i % 3) as nat,
    ) by {
        let c = i / 3;
        let l = i % 3;
        assert(i == 3 * c + l);
        if c == 0 {
            assert(res@[0 + l].value() == limb_of(coordinates[0], l as nat));
        } else if c == 1 {
            assert(res@[3 + l].value() == limb_of(coordinates[1], l as nat));
        } else if c == 2 {
            assert(res@[6 + l].value() == limb_of(coordinates[2], l as nat));
        } else {
            assert(res@[9 + l].value() == limb_of(coordinates[3], l as nat));
        }
    }
    let mut j: usize = 0;
    while j < 32
        invariant
            j <= 32,
            res@.len() == 12 + j,
            coordinates == accumulator.coordinates(),
            forall|i: int|
                0 <= i < 12 ==> (#[trigger] res@[i]).value() == limb_of(
                    coordinates[i / 3],
                    (i % 3) as nat,
                ),
            forall|i: int|
                12 <= i < 12 + j ==> (#[trigger] res@[i]).value() == public_input_hash@[i - 12],
        decreases 32 - j,
    {
        res.push(Fr::from_u64(public_input_hash[j] as u64));
        j = j + 1;
    }
    res.push(Fr::from_u64(number_of_valid_chunks as u64));
    assert(values_of(res@) =~= assembled(
        coordinates,
        public_input_hash@,
        number_of_valid_chunks as nat,
    ));
    res
}

/// Whether the instance has the shape of an accumulator followed by a hash.
pub open spec fn instance_well_shaped(instance: Seq<nat>) -> bool {
    instance.len() == 44
}

/// Whether the instance ends in the given hash, one element for each byte.
pub open spec fn instance_carries_hash(instance: Seq<nat>, hash: Seq<u8>) -> bool {
    forall|i: int| 0 <= i < 32 ==> instance[12 + i] == #[trigger] hash[i] as nat
}

/// What is wrong with the instance of one proof.
#[derive(Clone, Copy, Debug, PartialEq, Eq)]
pub enum InstanceFault {
    /// The instance has not 44 elements.
    WrongLength,
    /// The instance does not end in the expected hash.
    WrongHash,
}

/// Checks the instance of a chunk proof against the public input hash of the
/// chunk in its slot: 12 elements for the proof's accumulator, then the 32
/// bytes of the hash.
pub fn check_instance(instance: &[Fr], chunk_hash: &[u8; 32]) -> (res: Result<(), InstanceFault>)
    ensures
        res.is_ok() <==> instance_well_shaped(values_of(instance@)) && instance_carries_hash(
            values_of(instance@),
            chunk_hash@,
        ),
        res == Err::<(), InstanceFault>(InstanceFault::WrongLength) <==> !instance_well_shaped(
            values_of(instance@),
        ),
{
    if instance.len() != ACC_LEN + DIGEST_LEN {
        return Err(InstanceFault::WrongLength);
    }
    let ghost values = values_of(instance@);
    let mut i: usize = 0;
    while i < 32
        invariant
            i <= 32,
            instance@.len() == 44,
            values == values_of(instance@),
            forall|j: int| 0 <= j < i ==> values[12 + j] == #[trigger] chunk_hash@[j] as nat,
        decreases 32 - i,
    {
        let expected = Fr::from_u64(chunk_hash[i] as u64);
        if !expected.is_equal(&instance[i + ACC_LEN]) {
            assert(values[12 + i] != chunk_hash@[i as int] as nat);
            return Err(InstanceFault::WrongHash);
        }
        i = i + 1;
    }
    Ok(())
}

/// The integer that the four limbs of a coordinate stand for.
pub open spec fn coordinate_value(limbs: [u64; 4]) -> nat {
    crate::field::limbs_value(limbs[0], limbs[1], limbs[2], limbs[3])
}

/// Whether `(x, y)` is a point of the curve `y^2 = x^3 + 3` over the base
/// field, or the pair of zeros that stands for the point at infinity.
pub open spec fn is_curve_point(x: nat, y: nat) -> bool {
    (y * y) % fq_modulus() == (x * x * x + 3) % fq_modulus() || (x == 0 && y == 0)
}

impl G1Point {
    /// Whether the coordinates are those of a point of the curve.
    pub open spec fn spec_on_curve(&self) -> bool {
        is_curve_point(self.x.value(), self.y.value())
    }

    /// Whether the coordinates are those of a point of the curve.
    pub fn is_on_curve(&self) -> (res: bool)
        ensures
            res == self.spec_on_curve(),
    {
        g1_is_on_curve(self)
    }
}

impl KzgAccumulator {
    /// The accumulator with the given points `lhs` and `rhs`, each given by
    /// its coordinates `x` and `y`, each of these in four limbs, least
    /// significant first, if every coordinate is in canonical form.
    pub fn from_limbs(limbs: [[[u64; 4]; 2]; 2]) -> (res: Option<KzgAccumulator>)
        ensures
            res.is_some() <==> forall|p: int, c: int|
                0 <= p < 2 && 0 <= c < 2 ==> #[trigger] coordinate_value(limbs[p][c])
                    < fq_modulus(),
            res matches Some(acc) ==> acc.lhs.x.value() == coordinate_value(limbs[0][0])
                && acc.lhs.y.value() == coordinate_value(limbs[0][1]) && acc.rhs.x.value()
                == coordinate_value(limbs[1][0]) && acc.rhs.y.value() == coordinate_value(
                limbs[1][1],
            ),
    {
        let lhs_x = Fq::from_limbs(limbs[0][0]);
        let lhs_y = Fq::from_limbs(limbs[0][1]);
        let rhs_x = Fq::from_limbs(limbs[1][0]);
        let rhs_y = Fq::from_limbs(limbs[1][1]);
        proof {
            if lhs_x.is_none() {
                assert(!(coordinate_value(limbs[0][0]) < fq_modulus()));
            }
            if lhs_y.is_none() {
                assert(!(coordinate_value(limbs[0][1]) < fq_modulus()));
            }
            if rhs_x.is_none() {
                assert(!(coordinate_value(limbs[1][0]) < fq_modulus()));
            }
            if rhs_y.is_none() {
                assert(!(coordinate_value(limbs[1][1]) < fq_modulus()));
            }
        }
        match (lhs_x, lhs_y, rhs_x, rhs_y) {
            (Some(a), Some(b), Some(c), Some(d)) => Some(
                KzgAccumulator { lhs: G1Point { x: a, y: b }, rhs: G1Point { x: c, y: d } },
            ),
            _ => None,
        }
    }

    /// The points `lhs` and `rhs`, each as its coordinates `x` and `y`, each
    /// of these in four limbs, least significant first.
    pub fn to_limbs(&self) -> (res: [[[u64; 4]; 2]; 2])
        ensures
            self.lhs.x.value() == coordinate_value(res[0][0]),
            self.lhs.y.value() == coordinate_value(res[0][1]),
            self.rhs.x.value() == coordinate_value(res[1][0]),
            self.rhs.y.value() == coordinate_value(res[1][1]),
    {
        [[self.lhs.x.to_limbs(), self.lhs.y.to_limbs()], [self.rhs.x.to_limbs(), self.rhs.y.to_limbs()]]
    }

    /// Whether both sides are points of the curve.
    pub open spec fn spec_on_curve(&self) -> bool {
        self.lhs.spec_on_curve() && self.rhs.spec_on_curve()
    }
}

/// Tests the coordinates with `CurveAffine::is_on_curve` of `bn256::G1Affine`:
/// it holds of the points that satisfy the curve's equation in the base field
/// and of the pair of zeros.
#[verifier::external_body]
fn g1_is_on_curve(point: &G1Point) -> (res: bool)
    ensures
        res == is_curve_point(point.x.value(), point.y.value()),
{
    bn256::G1Affine { x: point.x.limbs.into(), y: point.y.limbs.into() }.is_on_curve().into()
}

/// Whether both sides of every accumulator of the list are points of the curve.
pub open spec fn all_on_curve(accumulators: Seq<KzgAccumulator>) -> bool {
    forall|i: int| 0 <= i < accumulators.len() ==> (#[trigger] accumulators[i]).spec_on_curve()
}

/// The coordinates of each accumulator of a list.
pub open spec fn coordinates_of(accumulators: Seq<KzgAccumulator>) -> Seq<Seq<nat>> {
    Seq::new(accumulators.len(), |i: int| accumulators[i].coordinates())
}

/// The four coordinates that the limbs of an accumulator stand for: `lhs.x`,
/// `lhs.y`, `rhs.x`, `rhs.y`.
pub open spec fn limb_coordinates(limbs: [[[u64; 4]; 2]; 2]) -> Seq<nat> {
    seq![
        coordinate_value(limbs[0][0]),
        coordinate_value(limbs[0][1]),
        coordinate_value(limbs[1][0]),
        coordinate_value(limbs[1][1]),
    ]
}

/// Whether the limbs are those of an accumulator: every coordinate in
/// canonical form, and both sides on the curve.
pub open spec fn limbs_of_accumulator(limbs: [[[u64; 4]; 2]; 2]) -> bool {
    &&& forall|c: int| 0 <= c < 4 ==> #[trigger] limb_coordinates(limbs)[c] < fq_modulus()
    &&& is_curve_point(limb_coordinates(limbs)[0], limb_coordinates(limbs)[1])
    &&& is_curve_point(limb_coordinates(limbs)[2], limb_coordinates(limbs)[3])
}

/// The coordinates that each accumulator of the list stands for.
pub open spec fn limb_coordinates_of(accumulators: Seq<[[[u64; 4]; 2]; 2]>) -> Seq<Seq<nat>> {
    Seq::new(accumulators.len(), |i: int| limb_coordinates(accumulators[i]))
}

/// The coordinates of the accumulator into which the KZG accumulation scheme
/// folds the given accumulators, without blinding: a combination of them with
/// the powers of a challenge that is squeezed from their encodings.
pub uninterp spec fn kzg_folded(accumulators: Seq<Seq<nat>>) -> Seq<nat>;

/// Folds the accumulators with `KzgAs::create_proof` of the SHPLONK scheme over
/// a fresh Poseidon transcript and a proving key without blinding. Each
/// accumulator is given by its two points, each point by its two coordinates,
/// each coordinate by four limbs. The result depends on the accumulators
/// alone and comes in canonical limbs; nothing is written to the proof, since
/// only the blinding would be, and the random numbers are not drawn.
#[verifier::external_body]
fn kzg_create_proof(accumulators: &[[[[u64; 4]; 2]; 2]]) -> (res: ([[[u64; 4]; 2]; 2], Vec<u8>))
    requires
        accumulators@.len() > 0,
        forall|i: int| 0 <= i < accumulators@.len() ==> limbs_of_accumulator(#[trigger] accumulators@[i]),
    ensures
        forall|c: int| 0 <= c < 4 ==> #[trigger] limb_coordinates(res.0)[c] < fq_modulus(),
        limb_coordinates(res.0) == kzg_folded(limb_coordinates_of(accumulators@)),
        res.1@.len() == 0,
{
    let mut transcript = PoseidonTranscript::<NativeLoader, _>::from_spec(vec![], POSEIDON_SPEC.clone());
    let given: Vec<_> = accumulators.iter().map(
        |a| {
            let [l, r] = a.map(|[x, y]| bn256::G1Affine { x: x.into(), y: y.into() });
            kzg::KzgAccumulator::new(l, r)
        },
    ).collect();
    let folded = SHPLONK::create_proof(&Default::default(), &given, &mut transcript, OsRng).unwrap();
    ([folded.lhs, folded.rhs].map(|p| [p.x.into(), p.y.into()]), transcript.finalize())
}

/// The first accumulator of the list that has a side off the curve, if there is one.
pub fn first_off_curve(accumulators: &[KzgAccumulator]) -> (res: Option<usize>)
    ensures
        res.is_none() <==> forall|i: int|
            0 <= i < accumulators@.len() ==> (#[trigger] accumulators@[i]).spec_on_curve(),
        res matches Some(i) ==> {
            &&& i < accumulators@.len()
            &&& !accumulators@[i as int].spec_on_curve()
            &&& forall|j: int| 0 <= j < i ==> (#[trigger] accumulators@[j]).spec_on_curve()
        },
{
    let mut i: usize = 0;
    while i < accumulators.len()
        invariant
            i <= accumulators@.len(),
            forall|j: int| 0 <= j < i ==> (#[trigger] accumulators@[j]).spec_on_curve(),
        decreases accumulators@.len() - i,
    {
        if !accumulators[i].lhs.is_on_curve() || !accumulators[i].rhs.is_on_curve() {
            return Some(i);
        }
        i = i + 1;
    }
    None
}

/// Folds the accumulators of the chunk proofs into one, by the KZG
/// accumulation scheme without blinding, and gives the proof of the folding
/// with it, which is empty. There must be an accumulator, and all must be on
/// the curve: otherwise the first that is not is reported, or position 0
/// where there is none at all.
pub fn fold_accumulators(accumulators: &[KzgAccumulator]) -> (res: Result<
    (KzgAccumulator, Vec<u8>),
    AccumulationError,
>)
    ensures
        res.is_ok() <==> accumulators@.len() > 0 && forall|i: int|
            0 <= i < accumulators@.len() ==> (#[trigger] accumulators@[i]).spec_on_curve(),
        res matches Ok((folded, proof)) ==> folded.coordinates() == kzg_folded(
            coordinates_of(accumulators@),
        ) && proof@.len() == 0,
        res matches Err(e) ==> e matches AccumulationError::MalformedChildProof { index }
            && if accumulators@.len() == 0 {
            index == 0
        } else {
            &&& index < accumulators@.len()
            &&& !accumulators@[index as int].spec_on_curve()
            &&& forall|j: int| 0 <= j < index ==> (#[trigger] accumulators@[j]).spec_on_curve()
        },
{
    if accumulators.len() == 0 {
        return Err(AccumulationError::MalformedChildProof { index: 0 });
    }
    match first_off_curve(accumulators) {
        Some(index) => {
            return Err(AccumulationError::MalformedChildProof { index });
        },
        None => {},
    }
    let mut limbs: Vec<[[[u64; 4]; 2]; 2]> = Vec::new();
    let mut i: usize = 0;
    while i < accumulators.len()
        invariant
            i <= accumulators@.len(),
            all_on_curve(accumulators@),
            limbs@.len() == i,
            forall|j: int|
                0 <= j < i ==> limb_coordinates(#[trigger] limbs@[j])
                    == accumulators@[j].coordinates(),
            forall|j: int| 0 <= j < i ==> limbs_of_accumulator(#[trigger] limbs@[j]),
        decreases accumulators@.len() - i,
    {
        let accumulator = &accumulators[i];
        let next = accumulator.to_limbs();
        proof {
            use_type_invariant(&accumulator.lhs.x);
            use_type_invariant(&accumulator.lhs.y);
            use_type_invariant(&accumulator.rhs.x);
            use_type_invariant(&accumulator.rhs.y);
            assert(accumulators@[i as int].spec_on_curve());
            assert(limb_coordinates(next) =~= accumulator.coordinates());
        }
        limbs.push(next);
        i = i + 1;
    }
    proof {
        assert(limb_coordinates_of(limbs@) =~= coordinates_of(accumulators@));
    }
    let (folded_limbs, proof_bytes) = kzg_create_proof(limbs.as_slice());
    proof {
        assert(coordinate_value(folded_limbs[0][0]) == limb_coordinates(folded_limbs)[0]);
        assert(coordinate_value(folded_limbs[0][1]) == limb_coordinates(folded_limbs)[1]);
        assert(coordinate_value(folded_limbs[1][0]) == limb_coordinates(folded_limbs)[2]);
        assert(coordinate_value(folded_limbs[1][1]) == limb_coordinates(folded_limbs)[3]);
    }
    let folded = KzgAccumulator::from_limbs(folded_limbs);
    assert(folded.is_some());
    let folded = folded.unwrap();
    assert(folded.coordinates() =~= limb_coordinates(folded_limbs));
    Ok((folded, proof_bytes))
}

/// The public input hash that the proof in slot `i` of the batch must carry.
pub open spec fn expected_hash(batch: BatchHashView, i: int) -> Seq<u8> {
    keccak256_digest(batch.chunks_with_padding[i].spec_preimage())
}

/// What is wrong with the instance of the proof in slot `i`, if anything: its
/// length is looked at first.
pub open spec fn instance_fault(instance: Seq<nat>, hash: Seq<u8>) -> Option<InstanceFault> {
    if !instance_well_shaped(instance) {
        Some(InstanceFault::WrongLength)
    } else if !instance_carries_hash(instance, hash) {
        Some(InstanceFault::WrongHash)
    } else {
        None
    }
}

/// The values of the instance of each proof.
pub open spec fn instance_values(instances: Seq<Vec<Fr>>) -> Seq<Seq<nat>> {
    Seq::new(instances.len(), |i: int| values_of(instances[i]@))
}

/// Number of slots that have a proof to look at.
pub open spec fn checked_slots(count: nat, n: nat) -> nat {
    if count <= n {
        count
    } else {
        n
    }
}

/// Whether no instance among the first `slots` has a fault.
pub open spec fn instances_match(instances: Seq<Seq<nat>>, batch: BatchHashView, slots: nat) -> bool {
    forall|i: int|
        0 <= i < slots ==> (#[trigger] instance_fault(
            instances[i],
            expected_hash(batch, i),
        )).is_none()
}

/// Checks the instance of each chunk proof, slot by slot, against the public
/// input hash of the chunk in its slot, as far as there is a proof for the
/// slot. The first fault is reported with its slot.
pub fn check_instances<const N: usize>(instances: &[Vec<Fr>], batch_hash: &BatchHash<N>) -> (res:
    Result<(), AccumulationError>)
    ensures
        res.is_ok() <==> instances_match(
            instance_values(instances@),
            batch_hash@,
            checked_slots(instances@.len(), N as nat),
        ),
        res matches Err(e) ==> {
            let index = match e {
                AccumulationError::MalformedChildProof { index } => index,
                AccumulationError::InstanceMismatch { index } => index,
            };
            let fault = instance_fault(
                instance_values(instances@)[index as int],
                expected_hash(batch_hash@, index as int),
            );
            &&& index < checked_slots(instances@.len(), N as nat)
            &&& instances_match(instance_values(instances@), batch_hash@, index as nat)
            &&& e matches AccumulationError::MalformedChildProof { .. } ==> fault == Some(
                InstanceFault::WrongLength,
            )
            &&& e matches AccumulationError::InstanceMismatch { .. } ==> fault == Some(
                InstanceFault::WrongHash,
            )
        },
{
    let chunks = batch_hash.chunks_with_padding();
    let ghost values = instance_values(instances@);
    let slots = if instances.len() <= N {
        instances.len()
    } else {
        N
    };
    let mut i: usize = 0;
    while i < slots
        invariant
            i <= slots,
            slots == checked_slots(instances@.len(), N as nat),
            chunks@ == batch_hash@.chunks_with_padding,
            chunks@.len() == N,
            values == instance_values(instances@),
            instances_match(values, batch_hash@, i as nat),
        decreases slots - i,
    {
        let hash = chunks[i].public_input_hash();
        assert(values[i as int] == values_of(instances@[i as int]@));
        match check_instance(instances[i].as_slice(), &hash) {
            Ok(()) => {},
            Err(InstanceFault::WrongLength) => {
                return Err(AccumulationError::MalformedChildProof { index: i });
            },
            Err(InstanceFault::WrongHash) => {
                return Err(AccumulationError::InstanceMismatch { index: i });
            },
        }
        i = i + 1;
    }
    Ok(())
}

/// What an aggregate attests: the folded accumulator, the batch's public
/// input hash, the number of valid chunks, and the proof of the folding.
#[derive(Clone, Debug)]
pub struct AggregateAttestation {
    /// The accumulator folded from the accumulators of the chunk proofs.
    pub folded_accumulator: KzgAccumulator,
    /// The public input hash of the batch.
    pub public_input_hash: [u8; 32],
    /// Number of valid chunks of the batch.
    pub number_of_valid_chunks: usize,
    /// The proof of the folding.
    pub proof_bytes: Vec<u8>,
}

impl AggregateAttestation {
    /// The public instance that a verifier reads: see `assemble`.
    pub fn instance(&self) -> (res: Vec<Fr>)
        ensures
            values_of(res@) == assembled(
                self.folded_accumulator.coordinates(),
                self.public_input_hash@,
                self.number_of_valid_chunks as nat,
            ),
            res@.len() == 45,
    {
        assemble(&self.folded_accumulator, &self.public_input_hash, self.number_of_valid_chunks)
    }
}

/// The aggregate of the chunk proofs of a batch: the accumulator folded from
/// the proofs' accumulators, the public instance, and the batch.
#[derive(Debug)]
pub struct AggregationCircuit<const N: usize> {
    svk: G1Point,
    accumulator: KzgAccumulator,
    flattened_instances: Vec<Fr>,
    as_proof: Vec<u8>,
    batch_hash: BatchHash<N>,
}

/// The mathematical content of an aggregate.
pub struct AggregationCircuitView {
    /// The generator that the proofs are verified with.
    pub svk: G1Point,
    /// The folded accumulator.
    pub accumulator: KzgAccumulator,
    /// The values of the public instance.
    pub flattened_instances: Seq<nat>,
    /// The proof of the folding.
    pub as_proof: Seq<u8>,
    /// The batch.
    pub batch_hash: BatchHashView,
}

impl AggregationCircuitView {
    /// What holds of every aggregate of a batch of `n` slots: the instance is
    /// the folded accumulator, the batch's public input hash and the number
    /// of valid chunks, laid out in this order.
    pub open spec fn wf(self, n: nat) -> bool {
        &&& self.batch_hash.wf(n)
        &&& self.flattened_instances == assembled(
            self.accumulator.coordinates(),
            self.batch_hash.public_input_hash,
            self.batch_hash.number_of_valid_chunks,
        )
    }
}

impl<const N: usize> View for AggregationCircuit<N> {
    type V = AggregationCircuitView;

    closed spec fn view(&self) -> AggregationCircuitView {
        AggregationCircuitView {
            svk: self.svk,
            accumulator: self.accumulator,
            flattened_instances: values_of(self.flattened_instances@),
            as_proof: self.as_proof@,
            batch_hash: self.batch_hash@,
        }
    }
}

impl<const N: usize> AggregationCircuit<N> {
    #[verifier::type_invariant]
    spec fn well_formed(self) -> bool {
        self@.wf(N as nat)
    }

    /// Builds the aggregate of a batch from what its chunk proofs hold: the
    /// public instance of each proof, slot by slot, and the accumulators that
    /// the proofs' succinct verification gave.
    ///
    /// Each instance must be an accumulator followed by the public input hash
    /// of the chunk in its slot; there must be an accumulator, and all must be
    /// on the curve. The first instance at fault is reported, else the first
    /// accumulator. The accumulators are folded into one, and the public
    /// instance is laid out from it, the batch's public input hash and the
    /// number of valid chunks.
    pub fn new(
        svk: G1Point,
        instances: &[Vec<Fr>],
        accumulators: &[KzgAccumulator],
        batch_hash: BatchHash<N>,
    ) -> (res: Result<Self, AccumulationError>)
        ensures
            res.is_ok() <==> {
                &&& instances_match(
                    instance_values(instances@),
                    batch_hash@,
                    checked_slots(instances@.len(), N as nat),
                )
                &&& accumulators@.len() > 0
                &&& all_on_curve(accumulators@)
            },
            res matches Ok(circuit) ==> {
                &&& circuit@.wf(N as nat)
                &&& circuit@.svk == svk
                &&& circuit@.batch_hash == batch_hash@
                &&& circuit@.accumulator.coordinates() == kzg_folded(
                    coordinates_of(accumulators@),
                )
                &&& circuit@.as_proof.len() == 0
            },
            res matches Err(AccumulationError::InstanceMismatch { index }) ==> {
                &&& index < checked_slots(instances@.len(), N as nat)
                &&& instances_match(instance_values(instances@), batch_hash@, index as nat)
                &&& instance_fault(
                    instance_values(instances@)[index as int],
                    expected_hash(batch_hash@, index as int),
                ) == Some(InstanceFault::WrongHash)
            },
            res matches Err(AccumulationError::MalformedChildProof { index }) ==> {
                ||| {
                    &&& index < checked_slots(instances@.len(), N as nat)
                    &&& instances_match(instance_values(instances@), batch_hash@, index as nat)
                    &&& instance_fault(
                        instance_values(instances@)[index as int],
                        expected_hash(batch_hash@, index as int),
                    ) == Some(InstanceFault::WrongLength)
                }
                ||| {
                    &&& instances_match(
                        instance_values(instances@),
                        batch_hash@,
                        checked_slots(instances@.len(), N as nat),
                    )
                    &&& accumulators@.len() == 0
                    &&& index == 0
                }
                ||| {
                    &&& instances_match(
                        instance_values(instances@),
                        batch_hash@,
                        checked_slots(instances@.len(), N as nat),
                    )
                    &&& index < accumulators@.len()
                    &&& !accumulators@[index as int].spec_on_curve()
                    &&& forall|j: int|
                        0 <= j < index ==> (#[trigger] accumulators@[j]).spec_on_curve()
                }
            },
    {
        match check_instances(instances, &batch_hash) {
            Ok(()) => {},
            Err(e) => {
                return Err(e);
            },
        }
        let (accumulator, as_proof) = match fold_accumulators(accumulators) {
            Ok(folded) => folded,
            Err(e) => {
                return Err(e);
            },
        };
        let public_input_hash = batch_hash.public_input_hash();
        let flattened_instances = assemble(
            &accumulator,
            &public_input_hash,
            batch_hash.number_of_valid_chunks(),
        );
        Ok(AggregationCircuit { svk, accumulator, flattened_instances, as_proof, batch_hash })
    }

    /// What this aggregate attests.
    pub fn attestation(&self) -> (res: AggregateAttestation)
        ensures
            res.folded_accumulator == self@.accumulator,
            res.public_input_hash@ == self@.batch_hash.public_input_hash,
            res.number_of_valid_chunks == self@.batch_hash.number_of_valid_chunks,
            res.proof_bytes@ == self@.as_proof,
            assembled(
                res.folded_accumulator.coordinates(),
                res.public_input_hash@,
                res.number_of_valid_chunks as nat,
            ) == self@.flattened_instances,
    {
        proof {
            use_type_invariant(self);
        }
        let mut proof_bytes: Vec<u8> = Vec::new();
        let mut i: usize = 0;
        while i < self.as_proof.len()
            invariant
                i <= self.as_proof@.len(),
                proof_bytes@ == self.as_proof@.subrange(0, i as int),
            decreases self.as_proof@.len() - i,
        {
            proof_bytes.push(self.as_proof[i]);
            assert(self.as_proof@.subrange(0, i + 1) =~= self.as_proof@.subrange(0, i as int).push(
                self.as_proof@[i as int],
            ));
            i = i + 1;
        }
        assert(self.as_proof@.subrange(0, self.as_proof@.len() as int) =~= self.as_proof@);
        AggregateAttestation {
            folded_accumulator: self.accumulator,
            public_input_hash: self.batch_hash.public_input_hash(),
            number_of_valid_chunks: self.batch_hash.number_of_valid_chunks(),
            proof_bytes,
        }
    }

    /// The generator that the proofs are verified with.
    pub fn svk(&self) -> (res: G1Point)
        ensures
            res == self@.svk,
    {
        self.svk
    }

    /// The folded accumulator.
    pub fn accumulator(&self) -> (res: KzgAccumulator)
        ensures
            res == self@.accumulator,
    {
        self.accumulator
    }

    /// The proof of the folding.
    pub fn as_proof(&self) -> (res: &[u8])
        ensures
            res@ == self@.as_proof,
    {
        self.as_proof.as_slice()
    }

    /// The batch that is aggregated.
    pub fn batch_hash(&self) -> (res: &BatchHash<N>)
        ensures
            res@ == self@.batch_hash,
    {
        &self.batch_hash
    }

    /// The public instance: the folded accumulator in 12 limbs, the 32 bytes
    /// of the batch's public input hash, and the number of valid chunks.
    pub fn flattened_instances(&self) -> (res: &[Fr])
        ensures
            values_of(res@) == self@.flattened_instances,
            self@.wf(N as nat),
            res@.len() == 45,
    {
        proof {
            use_type_invariant(self);
            assert(values_of(self.flattened_instances@).len() == self.flattened_instances@.len());
        }
        self.flattened_instances.as_slice()
    }

    /// Number of elements in each instance column: the one column holds the
    /// accumulator, the batch's public input hash and the number of valid chunks.
    pub fn num_instance(&self) -> (res: Vec<usize>)
        ensures
            res@ == seq![45usize],
            res@[0] == self@.flattened_instances.len(),
    {
        proof {
            use_type_invariant(self);
        }
        let mut res: Vec<usize> = Vec::new();
        res.push(ACC_LEN + DIGEST_LEN + 1);
        res
    }

    /// Where the accumulator stands in the instance: in the first `ACC_LEN`
    /// rows of column 0.
    pub fn accumulator_indices() -> (res: Option<Vec<(usize, usize)>>)
        ensures
            res matches Some(indices) && indices@.len() == 12 && forall|i: int|
                0 <= i < 12 ==> indices@[i] == (0usize, i as usize),
    {
        let mut indices: Vec<(usize, usize)> = Vec::new();
        let mut idx: usize = 0;
        while idx < ACC_LEN
            invariant
                idx <= 12,
                indices@.len() == idx,
                forall|i: int| 0 <= i < idx ==> indices@[i] == (0usize, i as usize),
            decreases 12 - idx,
        {
            indices.push((0, idx));
            idx = idx + 1;
        }
        Some(indices)
    }
}

} // verus!
