//! Elements of the Jubjub base field and of its scalar field.
//!
//! An element of either field is held as four little-endian 64-bit limbs
//! of its least non-negative residue. The arithmetic itself is `ark_ff`'s; each
//! operation used by this crate is reached through one function below
//! whose contract states the operation over the residues.

use vstd::prelude::*;
use ark_ff::{AdditiveGroup, BigInt, Field, PrimeField};
use ark_ec::twisted_edwards::TECurveConfig;
use crate::bytes::{le_bytes, le_value, limbs_from_le, limbs_to_le};
use crate::modular::{lemma_congruent_mul, lemma_remainder_small};

verus! {

/// The order of the base field.
pub open spec fn base_modulus() -> nat {
    52435875175126190479447740508185965837690552500527637822603658699938581184513nat
}

/// The order of the scalar field, which is the order of the prime-order
/// subgroup of the curve.
pub open spec fn scalar_modulus() -> nat {
    6554484396890773809930967563523245729705921265872317281365359162392183254199nat
}

/// The coefficient `d` of the curve equation `-x^2 + y^2 = 1 + d x^2 y^2`.
pub open spec fn curve_d() -> nat {
    19257038036680949359750312669786877991949435402254120286184196891950884077233nat
}

/// The number that four little-endian 64-bit limbs stand for.
pub open spec fn limbs_value(l: [u64; 4]) -> nat {
    (l[0] as nat) + (l[1] as nat) * 0x1_0000_0000_0000_0000nat + (l[2] as nat)
        * 0x1_0000_0000_0000_0000_0000_0000_0000_0000nat + (l[3] as nat)
        * 0x1_0000_0000_0000_0000_0000_0000_0000_0000_0000_0000_0000_0000nat
}

/// Limbs that stand for one number are the same limbs.
pub proof fn lemma_limbs_value_injective(l: [u64; 4], m: [u64; 4])
    requires
        limbs_value(l) == limbs_value(m),
    ensures
        l == m,
{
    let k = 0x1_0000_0000_0000_0000int;
    let (l0, l1, l2, l3) = (l[0] as int, l[1] as int, l[2] as int, l[3] as int);
    let (m0, m1, m2, m3) = (m[0] as int, m[1] as int, m[2] as int, m[3] as int);
    let lr2 = l2 + k * l3;
    let mr2 = m2 + k * m3;
    let lr1 = l1 + k * lr2;
    let mr1 = m1 + k * mr2;
    assert(limbs_value(l) == l0 + k * lr1);
    assert(limbs_value(m) == m0 + k * mr1);
    assert(l0 == m0 && lr1 == mr1);
    assert(l1 == m1 && lr2 == mr2);
    assert(l2 == m2 && l3 == m3);
    assert(l =~= m);
}

/// Whether `a` is the square of some residue of the base field.
pub open spec fn is_base_square(a: nat) -> bool {
    exists|x: nat| x < base_modulus() && #[trigger] ((x * x) % base_modulus()) == a
}

/// The inverse of `a` in the base field, where `a` has one: the residue
/// whose product with `a` is congruent to one.
pub open spec fn base_inverse_model(a: nat) -> nat {
    choose|i: nat| i < base_modulus() && #[trigger] ((a * i) % base_modulus()) == 1
}

/// A residue has at most one inverse.
pub proof fn lemma_inverse_unique(a: nat, i: nat, j: nat)
    requires
        i < base_modulus(),
        j < base_modulus(),
        (a * i) % base_modulus() == 1,
        (a * j) % base_modulus() == 1,
    ensures
        i == j,
{
    let m = base_modulus() as int;
    let (a, i, j) = (a as int, i as int, j as int);
    lemma_remainder_small(1, m);
    lemma_remainder_small(i, m);
    lemma_remainder_small(j, m);
    lemma_congruent_mul(i, i, a * j, 1, m);
    lemma_congruent_mul(a * i, 1, j, j, m);
    assert(i * (a * j) == (a * i) * j) by (nonlinear_arith);
    assert(i * 1 == i && 1 * j == j);
}

/// Any inverse of `a` is the inverse of `a`.
pub proof fn lemma_inverse_model(a: nat, i: nat)
    requires
        i < base_modulus(),
        (a * i) % base_modulus() == 1,
    ensures
        base_inverse_model(a) == i,
{
    let c = base_inverse_model(a);
    lemma_inverse_unique(a, c, i);
}

/// The square root of `a` that `Fq::sqrt` returns, if `a` has one.
pub uninterp spec fn base_sqrt(a: nat) -> Option<nat>;

/// The limbs of the base field's order.
pub const BASE_MODULUS_LIMBS: [u64; 4] = [
    0xffffffff00000001,
    0x53bda402fffe5bfe,
    0x3339d80809a1d805,
    0x73eda753299d7d48,
];

/// The limbs of the scalar field's order.
pub const SCALAR_MODULUS_LIMBS: [u64; 4] = [
    0xd0970e5ed6f72cb7,
    0xa6682093ccc81082,
    0x06673b0101343b00,
    0x0e7db4ea6533afa9,
];

/// Whether the number in `l` is below the number in `m`.
fn limbs_less(l: &[u64; 4], m: &[u64; 4]) -> (b: bool)
    ensures
        b == (limbs_value(*l) < limbs_value(*m)),
{
    if l[3] != m[3] {
        l[3] < m[3]
    } else if l[2] != m[2] {
        l[2] < m[2]
    } else if l[1] != m[1] {
        l[1] < m[1]
    } else {
        l[0] < m[0]
    }
}

/// An element of the base field.
#[derive(Clone, Copy, Debug, PartialEq, Eq)]
pub struct Fq {
    limbs: [u64; 4],
}

impl View for Fq {
    type V = nat;

    closed spec fn view(&self) -> nat {
        limbs_value(self.limbs)
    }
}

impl Fq {
    /// Every element is held as a residue below the field's order.
    #[verifier::type_invariant]
    pub open spec fn reduced(self) -> bool {
        self@ < base_modulus()
    }

    /// The element whose residue the limbs hold, where that number is
    /// below the field's order.
    pub fn from_limbs(limbs: [u64; 4]) -> (r: Option<Fq>)
        ensures
            match r {
                Some(e) => e@ == limbs_value(limbs) && e@ < base_modulus(),
                None => limbs_value(limbs) >= base_modulus(),
            },
    {
        if limbs_less(&limbs, &BASE_MODULUS_LIMBS) {
            Some(Fq { limbs })
        } else {
            None
        }
    }

    /// The limbs of the residue, least significant first.
    pub fn to_limbs(&self) -> (l: [u64; 4])
        ensures
            limbs_value(l) == self@,
            self@ < base_modulus(),
    {
        proof {
            use_type_invariant(self);
        }
        self.limbs
    }

    pub fn zero() -> (r: Fq)
        ensures
            r@ == 0,
    {
        Fq { limbs: [0, 0, 0, 0] }
    }

    pub fn one() -> (r: Fq)
        ensures
            r@ == 1,
    {
        Fq { limbs: [1, 0, 0, 0] }
    }

    pub fn is_zero(&self) -> (b: bool)
        ensures
            b == (self@ == 0),
    {
        self.limbs[0] == 0 && self.limbs[1] == 0 && self.limbs[2] == 0 && self.limbs[3] == 0
    }

    /// Whether the residue is an odd number.
    pub fn is_odd(&self) -> (b: bool)
        ensures
            b == (self@ % 2 == 1),
    {
        self.limbs[0] % 2 == 1
    }

    /// Whether two elements are the same element.
    pub fn same(&self, other: &Fq) -> (b: bool)
        ensures
            b == (self@ == other@),
    {
        self.limbs[0] == other.limbs[0] && self.limbs[1] == other.limbs[1] && self.limbs[2]
            == other.limbs[2] && self.limbs[3] == other.limbs[3]
    }

    /// The 32 bytes of the residue, least significant first.
    pub fn to_bytes(&self) -> (out: [u8; 32])
        ensures
            out@ == le_bytes(self@, 32),
    {
        limbs_to_le(&self.limbs)
    }

    /// Two elements with one residue are one element.
    pub proof fn lemma_view_injective(self, other: Fq)
        requires
            self@ == other@,
        ensures
            self == other,
    {
        lemma_limbs_value_injective(self.limbs, other.limbs);
    }
}

/// An element of the scalar field.
#[derive(Clone, Copy, Debug, PartialEq, Eq)]
pub struct Fr {
    limbs: [u64; 4],
}

impl View for Fr {
    type V = nat;

    closed spec fn view(&self) -> nat {
        limbs_value(self.limbs)
    }
}

impl Fr {
    /// Every element is held as a residue below the field's order.
    #[verifier::type_invariant]
    pub open spec fn reduced(self) -> bool {
        self@ < scalar_modulus()
    }

    /// The element whose residue the limbs hold, where that number is
    /// below the field's order.
    pub fn from_limbs(limbs: [u64; 4]) -> (r: Option<Fr>)
        ensures
            match r {
                Some(e) => e@ == limbs_value(limbs) && e@ < scalar_modulus(),
                None => limbs_value(limbs) >= scalar_modulus(),
            },
    {
        if limbs_less(&limbs, &SCALAR_MODULUS_LIMBS) {
            Some(Fr { limbs })
        } else {
            None
        }
    }

    /// The limbs of the residue, least significant first.
    pub fn to_limbs(&self) -> (l: [u64; 4])
        ensures
            limbs_value(l) == self@,
            self@ < scalar_modulus(),
    {
        proof {
            use_type_invariant(self);
        }
        self.limbs
    }

    pub fn zero() -> (r: Fr)
        ensures
            r@ == 0,
    {
        Fr { limbs: [0, 0, 0, 0] }
    }

    pub fn one() -> (r: Fr)
        ensures
            r@ == 1,
    {
        Fr { limbs: [1, 0, 0, 0] }
    }

    /// The element whose residue the first 32 bytes hold, least
    /// significant first, where there are 32 bytes and their number is
    /// below the field's order.
    pub fn from_bytes(bytes: &[u8]) -> (r: Option<Fr>)
        ensures
            match r {
                Some(e) => bytes@.len() >= 32 && e@ == le_value(bytes@.take(32)) && e@
                    < scalar_modulus(),
                None => bytes@.len() < 32 || le_value(bytes@.take(32)) >= scalar_modulus(),
            },
    {
        if bytes.len() < 32 {
            None
        } else {
            Fr::from_limbs(limbs_from_le(bytes))
        }
    }

    /// The 32 bytes of the residue, least significant first.
    pub fn to_bytes(&self) -> (out: [u8; 32])
        ensures
            out@ == le_bytes(self@, 32),
    {
        limbs_to_le(&self.limbs)
    }

    /// Two elements with one residue are one element.
    pub proof fn lemma_view_injective(self, other: Fr)
        requires
            self@ == other@,
        ensures
            self == other,
    {
        lemma_limbs_value_injective(self.limbs, other.limbs);
    }
}

/// `Fq + Fq` of `ark_ff`: the sum of the residues, reduced.
#[verifier::external_body]
pub(crate) fn base_add(a: &Fq, b: &Fq) -> (r: Fq)
    ensures
        r@ == (a@ + b@) % base_modulus(),
{
    let x = ark_ed_on_bls12_381::Fq::from_bigint(BigInt::new(a.limbs)).unwrap();
    let y = ark_ed_on_bls12_381::Fq::from_bigint(BigInt::new(b.limbs)).unwrap();
    Fq { limbs: (x + y).into_bigint().0 }
}

/// `Fq - Fq` of `ark_ff`: the difference of the residues, reduced to the
/// range from zero up to the order.
#[verifier::external_body]
pub(crate) fn base_sub(a: &Fq, b: &Fq) -> (r: Fq)
    ensures
        r@ == (a@ - b@) % (base_modulus() as int),
{
    let x = ark_ed_on_bls12_381::Fq::from_bigint(BigInt::new(a.limbs)).unwrap();
    let y = ark_ed_on_bls12_381::Fq::from_bigint(BigInt::new(b.limbs)).unwrap();
    Fq { limbs: (x - y).into_bigint().0 }
}

/// `Fq * Fq` of `ark_ff`: the product of the residues, reduced.
#[verifier::external_body]
pub(crate) fn base_mul(a: &Fq, b: &Fq) -> (r: Fq)
    ensures
        r@ == (a@ * b@) % base_modulus(),
{
    let x = ark_ed_on_bls12_381::Fq::from_bigint(BigInt::new(a.limbs)).unwrap();
    let y = ark_ed_on_bls12_381::Fq::from_bigint(BigInt::new(b.limbs)).unwrap();
    Fq { limbs: (x * y).into_bigint().0 }
}

/// `Field::square` of `ark_ff`: the residue times itself, reduced.
#[verifier::external_body]
pub(crate) fn base_square(a: &Fq) -> (r: Fq)
    ensures
        r@ == (a@ * a@) % base_modulus(),
{
    let x = ark_ed_on_bls12_381::Fq::from_bigint(BigInt::new(a.limbs)).unwrap();
    Fq { limbs: x.square().into_bigint().0 }
}

/// `AdditiveGroup::double` of `ark_ff`: twice the residue, reduced.
#[verifier::external_body]
pub(crate) fn base_double(a: &Fq) -> (r: Fq)
    ensures
        r@ == (2 * a@) % base_modulus(),
{
    let x = ark_ed_on_bls12_381::Fq::from_bigint(BigInt::new(a.limbs)).unwrap();
    Fq { limbs: x.double().into_bigint().0 }
}

/// `-Fq` of `ark_ff`: the additive inverse, as a residue.
#[verifier::external_body]
pub(crate) fn base_neg(a: &Fq) -> (r: Fq)
    ensures
        r@ == (0 - a@) % (base_modulus() as int),
{
    let x = ark_ed_on_bls12_381::Fq::from_bigint(BigInt::new(a.limbs)).unwrap();
    Fq { limbs: (-x).into_bigint().0 }
}

/// `Field::inverse` of `ark_ff`: nothing for zero; for any other element
/// the element whose product with it is one.
#[verifier::external_body]
pub(crate) fn base_inverse(a: &Fq) -> (r: Option<Fq>)
    ensures
        r is None <==> a@ == 0,
        r matches Some(i) ==> (a@ * i@) % base_modulus() == 1,
{
    let x = ark_ed_on_bls12_381::Fq::from_bigint(BigInt::new(a.limbs)).unwrap();
    x.inverse().map(|i| Fq { limbs: i.into_bigint().0 })
}

/// `Field::sqrt` of `ark_ff`: nothing where the element is no square;
/// otherwise one of its square roots, the same one for the same element.
#[verifier::external_body]
pub(crate) fn base_sqrt_of(a: &Fq) -> (r: Option<Fq>)
    ensures
        r is Some <==> is_base_square(a@),
        r matches Some(s) ==> base_sqrt(a@) == Some(s@) && (s@ * s@) % base_modulus() == a@,
        r is None ==> base_sqrt(a@) is None,
{
    let x = ark_ed_on_bls12_381::Fq::from_bigint(BigInt::new(a.limbs)).unwrap();
    x.sqrt().map(|s| Fq { limbs: s.into_bigint().0 })
}

/// `TECurveConfig::COEFF_D` of `ark_ed_on_bls12_381`'s `JubjubConfig`: the
/// coefficient `d` of the curve.
#[verifier::external_body]
pub(crate) fn base_coeff_d() -> (r: Fq)
    ensures
        r@ == curve_d(),
{
    Fq { limbs: ark_ed_on_bls12_381::JubjubConfig::COEFF_D.into_bigint().0 }
}

/// `Fr + Fr` of `ark_ff`: the sum of the residues, reduced.
#[verifier::external_body]
pub(crate) fn scalar_add(a: &Fr, b: &Fr) -> (r: Fr)
    ensures
        r@ == (a@ + b@) % scalar_modulus(),
{
    let x = ark_ed_on_bls12_381::Fr::from_bigint(BigInt::new(a.limbs)).unwrap();
    let y = ark_ed_on_bls12_381::Fr::from_bigint(BigInt::new(b.limbs)).unwrap();
    Fr { limbs: (x + y).into_bigint().0 }
}

/// `Fr * Fr` of `ark_ff`: the product of the residues, reduced.
#[verifier::external_body]
pub(crate) fn scalar_mul(a: &Fr, b: &Fr) -> (r: Fr)
    ensures
        r@ == (a@ * b@) % scalar_modulus(),
{
    let x = ark_ed_on_bls12_381::Fr::from_bigint(BigInt::new(a.limbs)).unwrap();
    let y = ark_ed_on_bls12_381::Fr::from_bigint(BigInt::new(b.limbs)).unwrap();
    Fr { limbs: (x * y).into_bigint().0 }
}

/// `AdditiveGroup::double` of `ark_ff`: twice the residue, reduced.
#[verifier::external_body]
pub(crate) fn scalar_double(a: &Fr) -> (r: Fr)
    ensures
        r@ == (2 * a@) % scalar_modulus(),
{
    let x = ark_ed_on_bls12_381::Fr::from_bigint(BigInt::new(a.limbs)).unwrap();
    Fr { limbs: x.double().into_bigint().0 }
}

} // verus!
