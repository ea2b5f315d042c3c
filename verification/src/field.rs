//! Elements of the two prime fields of the BN254 curve, held as integers.
//!
//! A field element is kept in canonical form: four 64-bit limbs, least
//! significant first, whose value is below the field's modulus. The
//! arithmetic itself is done by the curve library.
use snark_verifier::halo2_base::halo2_proofs::halo2curves::bn256;
use snark_verifier::util::arithmetic::fe_to_limbs;
use vstd::prelude::*;

verus! {

/// Order of the scalar field of BN254.
pub open spec fn fr_modulus() -> nat {
    0x30644e72e131a029b85045b68181585d2833e84879b9709143e1f593f0000001nat
}

/// Order of the base field of BN254.
pub open spec fn fq_modulus() -> nat {
    0x30644e72e131a029b85045b68181585d97816a916871ca8d3c208c16d87cfd47nat
}

/// The integer that four limbs stand for, least significant limb first.
pub open spec fn limbs_value(l0: u64, l1: u64, l2: u64, l3: u64) -> nat {
    (l0 as nat) + (l1 as nat) * 0x1_0000_0000_0000_0000nat + (l2 as nat)
        * 0x1_0000_0000_0000_0000_0000_0000_0000_0000nat + (l3 as nat)
        * 0x1_0000_0000_0000_0000_0000_0000_0000_0000_0000_0000_0000_0000nat
}

/// Different limbs stand for different integers.
pub proof fn lemma_limbs_value_injective(
    a0: u64,
    a1: u64,
    a2: u64,
    a3: u64,
    b0: u64,
    b1: u64,
    b2: u64,
    b3: u64,
)
    ensures
        limbs_value(a0, a1, a2, a3) == limbs_value(b0, b1, b2, b3) <==> (a0 == b0 && a1 == b1 && a2
            == b2 && a3 == b3),
{
    if limbs_value(a0, a1, a2, a3) == limbs_value(b0, b1, b2, b3) {
        let c: int = 0x1_0000_0000_0000_0000;
        let d0: int = a0 - b0;
        let d1: int = a1 - b1;
        let d2: int = a2 - b2;
        let d3: int = a3 - b3;
        let m2: int = d2 + c * d3;
        let m1: int = d1 + c * m2;
        assert(0x1_0000_0000_0000_0000_0000_0000_0000_0000int == c * c);
        assert(0x1_0000_0000_0000_0000_0000_0000_0000_0000_0000_0000_0000_0000int == c * (c * c));
        assert(d0 + c * m1 == 0) by (nonlinear_arith)
            requires
                a0 + a1 * c + a2 * (c * c) + a3 * (c * (c * c)) == b0 + b1 * c + b2 * (c * c) + b3 * (
                c * (c * c)),
                d0 == a0 - b0,
                d1 == a1 - b1,
                d2 == a2 - b2,
                d3 == a3 - b3,
                m2 == d2 + c * d3,
                m1 == d1 + c * m2,
        ;
        assert(m1 == 0 && d0 == 0) by (nonlinear_arith)
            requires
                d0 + c * m1 == 0,
                -c < d0 < c,
                c > 0,
        ;
        assert(m2 == 0 && d1 == 0) by (nonlinear_arith)
            requires
                d1 + c * m2 == 0,
                -c < d1 < c,
                c > 0,
        ;
        assert(d3 == 0 && d2 == 0) by (nonlinear_arith)
            requires
                d2 + c * d3 == 0,
                -c < d2 < c,
                c > 0,
        ;
    }
}

/// Whether the first four limbs come before the second four when the most
/// significant limbs are compared first.
pub open spec fn limbs_below(
    a0: u64,
    a1: u64,
    a2: u64,
    a3: u64,
    b0: u64,
    b1: u64,
    b2: u64,
    b3: u64,
) -> bool {
    a3 < b3 || (a3 == b3 && (a2 < b2 || (a2 == b2 && (a1 < b1 || (a1 == b1 && a0 < b0)))))
}

/// Limbs are ordered as the integers that they stand for.
pub proof fn lemma_limbs_value_order(
    a0: u64,
    a1: u64,
    a2: u64,
    a3: u64,
    b0: u64,
    b1: u64,
    b2: u64,
    b3: u64,
)
    ensures
        limbs_value(a0, a1, a2, a3) < limbs_value(b0, b1, b2, b3) <==> limbs_below(
            a0,
            a1,
            a2,
            a3,
            b0,
            b1,
            b2,
            b3,
        ),
{
    let c: int = 0x1_0000_0000_0000_0000;
    assert(0x1_0000_0000_0000_0000_0000_0000_0000_0000int == c * c);
    assert(0x1_0000_0000_0000_0000_0000_0000_0000_0000_0000_0000_0000_0000int == c * (c * c));
    // what the limbs below each position stand for is less than the weight of the position
    let la1: int = a0 + a1 * c;
    let lb1: int = b0 + b1 * c;
    let la2: int = la1 + a2 * (c * c);
    let lb2: int = lb1 + b2 * (c * c);
    assert(0 <= la1 < c * c && 0 <= lb1 < c * c) by (nonlinear_arith)
        requires
            la1 == a0 + a1 * c,
            lb1 == b0 + b1 * c,
            0 <= a0 < c,
            0 <= a1 < c,
            0 <= b0 < c,
            0 <= b1 < c,
    ;
    assert(0 <= la2 < c * (c * c) && 0 <= lb2 < c * (c * c)) by (nonlinear_arith)
        requires
            la2 == la1 + a2 * (c * c),
            lb2 == lb1 + b2 * (c * c),
            0 <= la1 < c * c,
            0 <= lb1 < c * c,
            0 <= a2 < c,
            0 <= b2 < c,
    ;
    let va: int = la2 + a3 * (c * (c * c));
    let vb: int = lb2 + b3 * (c * (c * c));
    assert(va == limbs_value(a0, a1, a2, a3) && vb == limbs_value(b0, b1, b2, b3));
    assert((va < vb) == (a3 < b3 || (a3 == b3 && la2 < lb2))) by (nonlinear_arith)
        requires
            va == la2 + a3 * (c * (c * c)),
            vb == lb2 + b3 * (c * (c * c)),
            0 <= la2 < c * (c * c),
            0 <= lb2 < c * (c * c),
    ;
    assert((la2 < lb2) == (a2 < b2 || (a2 == b2 && la1 < lb1))) by (nonlinear_arith)
        requires
            la2 == la1 + a2 * (c * c),
            lb2 == lb1 + b2 * (c * c),
            0 <= la1 < c * c,
            0 <= lb1 < c * c,
    ;
    assert((la1 < lb1) == (a1 < b1 || (a1 == b1 && a0 < b0))) by (nonlinear_arith)
        requires
            la1 == a0 + a1 * c,
            lb1 == b0 + b1 * c,
            0 <= a0 < c,
            0 <= b0 < c,
    ;
}

/// An element of the scalar field, in canonical form.
#[derive(Clone, Copy, Debug)]
pub struct Fr {
    pub(crate) limbs: [u64; 4],
}

/// An element of the base field, in canonical form.
#[derive(Clone, Copy, Debug)]
pub struct Fq {
    pub(crate) limbs: [u64; 4],
}

impl Fr {
    /// The integer in `[0, fr_modulus())` that this element stands for.
    pub closed spec fn value(&self) -> nat {
        limbs_value(self.limbs[0], self.limbs[1], self.limbs[2], self.limbs[3])
    }

    /// Every element is held in canonical form.
    #[verifier::type_invariant]
    pub open spec fn canonical(self) -> bool {
        self.value() < fr_modulus()
    }

    /// The element that stands for `v`.
    pub fn from_u64(v: u64) -> (res: Fr)
        ensures
            res.value() == v,
    {
        Fr { limbs: [v, 0, 0, 0] }
    }

    /// The element with the given limbs, least significant first, if they are
    /// in canonical form.
    pub fn from_limbs(limbs: [u64; 4]) -> (res: Option<Fr>)
        ensures
            res.is_some() <==> limbs_value(limbs[0], limbs[1], limbs[2], limbs[3]) < fr_modulus(),
            res.is_some() ==> res.unwrap().value() == limbs_value(
                limbs[0],
                limbs[1],
                limbs[2],
                limbs[3],
            ),
    {
        let below = limbs[3] < 0x30644e72e131a029 || (limbs[3] == 0x30644e72e131a029 && (limbs[2]
            < 0xb85045b68181585d || (limbs[2] == 0xb85045b68181585d && (limbs[1]
            < 0x2833e84879b97091 || (limbs[1] == 0x2833e84879b97091 && limbs[0]
            < 0x43e1f593f0000001)))));
        proof {
            lemma_limbs_value_order(
                limbs[0],
                limbs[1],
                limbs[2],
                limbs[3],
                0x43e1f593f0000001,
                0x2833e84879b97091,
                0xb85045b68181585d,
                0x30644e72e131a029,
            );
            assert(limbs_value(
                0x43e1f593f0000001,
                0x2833e84879b97091,
                0xb85045b68181585d,
                0x30644e72e131a029,
            ) == fr_modulus());
        }
        if below {
            Some(Fr { limbs })
        } else {
            None
        }
    }

    /// The limbs of this element, least significant first.
    pub fn to_limbs(&self) -> (res: [u64; 4])
        ensures
            limbs_value(res[0], res[1], res[2], res[3]) == self.value(),
    {
        self.limbs
    }


    /// Whether the two elements are the same element of the field.
    pub fn is_equal(&self, other: &Fr) -> (res: bool)
        ensures
            res == (self.value() == other.value()),
    {
        proof {
            lemma_limbs_value_injective(
                self.limbs[0],
                self.limbs[1],
                self.limbs[2],
                self.limbs[3],
                other.limbs[0],
                other.limbs[1],
                other.limbs[2],
                other.limbs[3],
            );
        }
        self.limbs[0] == other.limbs[0] && self.limbs[1] == other.limbs[1] && self.limbs[2]
            == other.limbs[2] && self.limbs[3] == other.limbs[3]
    }

    /// The sum of the two elements in the field.
    pub fn plus(&self, other: &Fr) -> (res: Fr)
        ensures
            res.value() == (self.value() + other.value()) % fr_modulus(),
    {
        fr_add(self, other)
    }

    /// The product of the two elements in the field.
    pub fn times(&self, other: &Fr) -> (res: Fr)
        ensures
            res.value() == (self.value() * other.value()) % fr_modulus(),
    {
        fr_mul(self, other)
    }
}

/// Adds two scalars with `bn256::Fr`'s `+`: the result is the canonical form
/// of the sum modulo the order of the scalar field.
#[verifier::external_body]
fn fr_add(a: &Fr, b: &Fr) -> (res: Fr)
    ensures
        res.value() == (a.value() + b.value()) % fr_modulus(),
{
    Fr { limbs: (bn256::Fr::from_raw(a.limbs) + bn256::Fr::from_raw(b.limbs)).into() }
}

/// Multiplies two scalars with `bn256::Fr`'s `*`: the result is the canonical
/// form of the product modulo the order of the scalar field.
#[verifier::external_body]
fn fr_mul(a: &Fr, b: &Fr) -> (res: Fr)
    ensures
        res.value() == (a.value() * b.value()) % fr_modulus(),
{
    Fr { limbs: (bn256::Fr::from_raw(a.limbs) * bn256::Fr::from_raw(b.limbs)).into() }
}

impl Fq {
    /// The integer in `[0, fq_modulus())` that this element stands for.
    pub closed spec fn value(&self) -> nat {
        limbs_value(self.limbs[0], self.limbs[1], self.limbs[2], self.limbs[3])
    }

    /// Every element is held in canonical form.
    #[verifier::type_invariant]
    pub open spec fn canonical(self) -> bool {
        self.value() < fq_modulus()
    }

    /// The element that stands for `v`.
    pub fn from_u64(v: u64) -> (res: Fq)
        ensures
            res.value() == v,
    {
        Fq { limbs: [v, 0, 0, 0] }
    }

    /// The element with the given limbs, least significant first, if they are
    /// in canonical form.
    pub fn from_limbs(limbs: [u64; 4]) -> (res: Option<Fq>)
        ensures
            res.is_some() <==> limbs_value(limbs[0], limbs[1], limbs[2], limbs[3]) < fq_modulus(),
            res.is_some() ==> res.unwrap().value() == limbs_value(
                limbs[0],
                limbs[1],
                limbs[2],
                limbs[3],
            ),
    {
        let below = limbs[3] < 0x30644e72e131a029 || (limbs[3] == 0x30644e72e131a029 && (limbs[2]
            < 0xb85045b68181585d || (limbs[2] == 0xb85045b68181585d && (limbs[1]
            < 0x97816a916871ca8d || (limbs[1] == 0x97816a916871ca8d && limbs[0]
            < 0x3c208c16d87cfd47)))));
        proof {
            lemma_limbs_value_order(
                limbs[0],
                limbs[1],
                limbs[2],
                limbs[3],
                0x3c208c16d87cfd47,
                0x97816a916871ca8d,
                0xb85045b68181585d,
                0x30644e72e131a029,
            );
            assert(limbs_value(
                0x3c208c16d87cfd47,
                0x97816a916871ca8d,
                0xb85045b68181585d,
                0x30644e72e131a029,
            ) == fq_modulus());
        }
        if below {
            Some(Fq { limbs })
        } else {
            None
        }
    }

    /// The limbs of this element, least significant first.
    pub fn to_limbs(&self) -> (res: [u64; 4])
        ensures
            limbs_value(res[0], res[1], res[2], res[3]) == self.value(),
    {
        self.limbs
    }

    /// Whether the two elements are the same element of the field.
    pub fn is_equal(&self, other: &Fq) -> (res: bool)
        ensures
            res == (self.value() == other.value()),
    {
        proof {
            lemma_limbs_value_injective(
                self.limbs[0],
                self.limbs[1],
                self.limbs[2],
                self.limbs[3],
                other.limbs[0],
                other.limbs[1],
                other.limbs[2],
                other.limbs[3],
            );
        }
        self.limbs[0] == other.limbs[0] && self.limbs[1] == other.limbs[1] && self.limbs[2]
            == other.limbs[2] && self.limbs[3] == other.limbs[3]
    }
}

/// Two to the power 88, the size of one limb of a coordinate.
pub open spec fn limb_base() -> nat {
    0x100_0000_0000_0000_0000_0000nat
}

/// Limb `i` of `v` in base two to the 88, least significant limb first.
pub open spec fn limb_of(v: nat, i: nat) -> nat {
    if i == 0 {
        v % limb_base()
    } else if i == 1 {
        (v / limb_base()) % limb_base()
    } else {
        (v / (limb_base() * limb_base())) % limb_base()
    }
}

/// The integer that three limbs in base two to the 88 stand for.
pub open spec fn limbs_to_nat(l0: nat, l1: nat, l2: nat) -> nat {
    l0 + l1 * limb_base() + l2 * (limb_base() * limb_base())
}

/// Splits an element of the base field with
/// `snark_verifier::util::arithmetic::fe_to_limbs` into three limbs of 88
/// bits, least significant first, each an element of the scalar field: limb
/// `i` is the element's integer shifted right by `88 * i` bits and cut to 88 bits.
#[verifier::external_body]
fn fq_to_limbs(fe: &Fq) -> (res: [Fr; 3])
    ensures
        res[0].value() == limb_of(fe.value(), 0),
        res[1].value() == limb_of(fe.value(), 1),
        res[2].value() == limb_of(fe.value(), 2),
{
    fe_to_limbs::<bn256::Fq, bn256::Fr, 3, 88>(bn256::Fq::from_raw(fe.limbs)).map(
        |limb| Fr { limbs: limb.into() },
    )
}

/// Three limbs of 88 bits hold every integer below two to the 264, and
/// putting them together again gives the integer back.
pub proof fn lemma_limbs_round_trip(v: nat)
    requires
        v < limb_base() * limb_base() * limb_base(),
    ensures
        limbs_to_nat(limb_of(v, 0), limb_of(v, 1), limb_of(v, 2)) == v,
        limb_of(v, 0) < limb_base(),
        limb_of(v, 1) < limb_base(),
        limb_of(v, 2) < limb_base(),
{
    let b = limb_base() as int;
    let q = v as int / b;
    vstd::arithmetic::div_mod::lemma_fundamental_div_mod(v as int, b);
    vstd::arithmetic::div_mod::lemma_fundamental_div_mod(q, b);
    vstd::arithmetic::div_mod::lemma_div_denominator(v as int, b, b);
    assert(q / b == v as int / (b * b));
    assert(q / b < b) by (nonlinear_arith)
        requires
            q == b * (q / b) + q % b,
            0 <= q % b,
            v == b * q + (v as int) % b,
            0 <= (v as int) % b,
            v < b * b * b,
            b > 0,
    ;
    assert(0 <= q / b) by (nonlinear_arith)
        requires
            q >= 0,
            b > 0,
    ;
    vstd::arithmetic::div_mod::lemma_small_mod((q / b) as nat, b as nat);
    assert(limbs_to_nat(limb_of(v, 0), limb_of(v, 1), limb_of(v, 2)) == v) by (nonlinear_arith)
        requires
            limb_of(v, 0) == (v as int) % b,
            limb_of(v, 1) == q % b,
            limb_of(v, 2) == q / b,
            q == b * (q / b) + q % b,
            v == b * q + (v as int) % b,
            limbs_to_nat(limb_of(v, 0), limb_of(v, 1), limb_of(v, 2)) == limb_of(v, 0) + limb_of(
                v,
                1,
            ) * b + limb_of(v, 2) * (b * b),
    ;
}

impl Fq {
    /// The three limbs of 88 bits of this element, least significant first,
    /// as elements of the scalar field. Together they give the element back.
    pub fn to_limbs_88(&self) -> (res: [Fr; 3])
        ensures
            res[0].value() == limb_of(self.value(), 0),
            res[1].value() == limb_of(self.value(), 1),
            res[2].value() == limb_of(self.value(), 2),
            limbs_to_nat(res[0].value(), res[1].value(), res[2].value()) == self.value(),
    {
        proof {
            use_type_invariant(self);
            lemma_limbs_round_trip(self.value());
        }
        fq_to_limbs(self)
    }
}

} // verus!
