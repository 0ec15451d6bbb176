//! The group law of the curve: addition, negation, multiplication by a
//! scalar, and equality of the points that coordinates stand for.

use vstd::prelude::*;
use crate::closure::{lemma_add_on_curve, lemma_neg_on_curve, lemma_scalar_mul_on_curve};
use crate::bytes::{
    be_bits_value,
    bits_from_top,
    lemma_le_value_of_bytes,
    lemma_pow256_values,
};
use crate::field::{
    base_add,
    base_coeff_d,
    base_mul,
    base_neg,
    base_sub,
    curve_d,
    Fr,
};
use crate::modular::{
    congruent,
    lemma_congruent_mul,
    lemma_congruent_shift,
    lemma_remainder_congruent,
    lemma_remainder_small,
};
use crate::point::{
    double,
    double_model,
    identity_model,
    identity_negated,
    is_identity,
    lemma_double_of_identity,
    on_curve,
    q,
    residue,
    Extended,
    Point,
};

verus! {

/// The sum of two points, by the unified addition formulas of Hisil, Wong,
/// Carter and Dawson for `a = -1`:
/// `E = X1 Y2 + Y1 X2`, `H = Y1 Y2 + X1 X2`, `F = Z1 Z2 - d T1 T2`,
/// `G = Z1 Z2 + d T1 T2`, and the result is `(EF, GH, EH, FG)`.
pub open spec fn add_model(p: Extended, o: Extended) -> Extended {
    let (x1, y1, t1, z1) = (p.x as int, p.y as int, p.t as int, p.z as int);
    let (x2, y2, t2, z2) = (o.x as int, o.y as int, o.t as int, o.z as int);
    let e = x1 * y2 + y1 * x2;
    let h = y1 * y2 + x1 * x2;
    let f = z1 * z2 - curve_d() * (t1 * t2);
    let g = z1 * z2 + curve_d() * (t1 * t2);
    Extended { x: residue(e * f), y: residue(g * h), t: residue(e * h), z: residue(f * g) }
}

/// The negative of a point: `(-X, Y, -T, Z)`.
pub open spec fn neg_model(p: Extended) -> Extended {
    Extended { x: residue(0 - p.x), y: p.y, t: residue(0 - p.t), z: p.z }
}

/// `k` times a point by double-and-add over the bits of `k` from its
/// highest set bit down, starting from the neutral element.
pub open spec fn scalar_mul_model(p: Extended, k: nat) -> Extended
    decreases k,
{
    if k == 0 {
        identity_model()
    } else {
        let doubled = double_model(scalar_mul_model(p, k / 2));
        if k % 2 == 1 {
            add_model(doubled, p)
        } else {
            doubled
        }
    }
}

/// Whether two sets of coordinates stand for one point: both for the
/// neutral element, or neither and `X1/Z1 = X2/Z2` and `Y1/Z1 = Y2/Z2`.
pub open spec fn same_point(p: Extended, o: Extended) -> bool {
    if is_identity(p) {
        is_identity(o)
    } else if is_identity(o) {
        false
    } else {
        residue((p.x * o.z) as int) == residue((o.x * p.z) as int) && residue((p.y * o.z) as int)
            == residue((o.y * p.z) as int)
    }
}

/// Any multiple of the neutral element is the neutral element.
pub proof fn lemma_scalar_mul_identity(k: nat)
    ensures
        is_identity(scalar_mul_model(identity_model(), k)),
        scalar_mul_model(identity_model(), k) == identity_model() || scalar_mul_model(
            identity_model(),
            k,
        ) == identity_negated(),
    decreases k,
{
    let o = identity_model();
    let n = identity_negated();
    let m = q() - 1;
    assert(residue(-1) == m);
    lemma_double_of_identity();
    lemma_remainder_small(0, q());
    lemma_remainder_small(1, q());
    assert(congruent(m * m, 1, q())) by {
        lemma_congruent_shift(-1, 1, q());
        lemma_congruent_mul(m, -1, m, -1, q());
    }
    assert(add_model(n, o) == o) by {
        let d = curve_d() as int;
        let e = 0int * 1int + m * 0int;
        let h = m * 1int + 0int * 0int;
        let f = m * 1int - d * (0int * 0int);
        let g = m * 1int + d * (0int * 0int);
        assert(e == 0 && h == m && f == m && g == m);
        assert(e * f == 0 && e * h == 0);
    }
    if k > 0 {
        lemma_scalar_mul_identity(k / 2);
    }
}

proof fn lemma_product(r: nat, a: nat, b: nat, a2: int, b2: int)
    requires
        r == (a * b) % (q() as nat),
        congruent(a as int, a2, q()),
        congruent(b as int, b2, q()),
    ensures
        congruent(r as int, a2 * b2, q()),
{
    lemma_remainder_congruent((a * b) as int, q());
    lemma_congruent_mul(a as int, a2, b as int, b2, q());
}

proof fn lemma_sum(r: nat, a: nat, b: nat, a2: int, b2: int)
    requires
        r == (a + b) % (q() as nat),
        congruent(a as int, a2, q()),
        congruent(b as int, b2, q()),
    ensures
        congruent(r as int, a2 + b2, q()),
{
    lemma_remainder_congruent((a + b) as int, q());
    crate::modular::lemma_congruent_add(a as int, a2, b as int, b2, q());
}

proof fn lemma_difference(r: nat, a: nat, b: nat, a2: int, b2: int)
    requires
        r == (a - b) % q(),
        congruent(a as int, a2, q()),
        congruent(b as int, b2, q()),
    ensures
        congruent(r as int, a2 - b2, q()),
{
    lemma_remainder_congruent(a - b, q());
    crate::modular::lemma_congruent_sub(a as int, a2, b as int, b2, q());
}

impl Point {
    /// The sum of two points.
    pub fn add(&self, other: &Point) -> (r: Point)
        ensures
            r@ == add_model(self@, other@),
            on_curve(self@) && on_curve(other@) ==> on_curve(r@),
    {
        // A = x1 * x2
        let a = base_mul(&self.x, &other.x);
        // B = y1 * y2
        let b = base_mul(&self.y, &other.y);
        // C = d * t1 * t2
        let dt = base_mul(&base_coeff_d(), &self.t);
        let c = base_mul(&dt, &other.t);
        // D = z1 * z2
        let d = base_mul(&self.z, &other.z);
        // H = B - aA = B + A
        let na = base_neg(&a);
        let h = base_sub(&b, &na);
        // E = (x1 + y1) * (x2 + y2) - A - B
        let s1 = base_add(&self.x, &self.y);
        let s2 = base_add(&other.x, &other.y);
        let ss = base_mul(&s1, &s2);
        let sa = base_sub(&ss, &a);
        let e = base_sub(&sa, &b);
        // F = D - C
        let f = base_sub(&d, &c);
        // G = D + C
        let g = base_add(&d, &c);
        // x3 = E * F
        let x3 = base_mul(&e, &f);
        // y3 = G * H
        let y3 = base_mul(&g, &h);
        // t3 = E * H
        let t3 = base_mul(&e, &h);
        // z3 = F * G
        let z3 = base_mul(&f, &g);
        proof {
            let (x1, y1, t1, z1) = (
                self.x@ as int,
                self.y@ as int,
                self.t@ as int,
                self.z@ as int,
            );
            let (x2, y2, t2, z2) = (
                other.x@ as int,
                other.y@ as int,
                other.t@ as int,
                other.z@ as int,
            );
            let dc = curve_d() as int;
            lemma_product(a@, self.x@, other.x@, x1, x2);
            lemma_product(b@, self.y@, other.y@, y1, y2);
            lemma_product(dt@, curve_d(), self.t@, dc, t1);
            lemma_product(c@, dt@, other.t@, dc * t1, t2);
            assert((dc * t1) * t2 == dc * (t1 * t2)) by (nonlinear_arith);
            lemma_product(d@, self.z@, other.z@, z1, z2);
            lemma_difference(na@, 0, a@, 0, x1 * x2);
            lemma_difference(h@, b@, na@, y1 * y2, 0 - x1 * x2);
            lemma_sum(s1@, self.x@, self.y@, x1, y1);
            lemma_sum(s2@, other.x@, other.y@, x2, y2);
            lemma_product(ss@, s1@, s2@, x1 + y1, x2 + y2);
            lemma_difference(sa@, ss@, a@, (x1 + y1) * (x2 + y2), x1 * x2);
            lemma_difference(e@, sa@, b@, (x1 + y1) * (x2 + y2) - x1 * x2, y1 * y2);
            assert((x1 + y1) * (x2 + y2) - x1 * x2 - y1 * y2 == x1 * y2 + y1 * x2)
                by (nonlinear_arith);
            lemma_difference(f@, d@, c@, z1 * z2, dc * (t1 * t2));
            lemma_sum(g@, d@, c@, z1 * z2, dc * (t1 * t2));
            let me = x1 * y2 + y1 * x2;
            let mh = y1 * y2 + x1 * x2;
            let mf = z1 * z2 - dc * (t1 * t2);
            let mg = z1 * z2 + dc * (t1 * t2);
            assert(y1 * y2 - (0 - x1 * x2) == mh);
            lemma_product(x3@, e@, f@, me, mf);
            lemma_product(y3@, g@, h@, mg, mh);
            lemma_product(t3@, e@, h@, me, mh);
            lemma_product(z3@, f@, g@, mf, mg);
            use_type_invariant(&x3);
            use_type_invariant(&y3);
            use_type_invariant(&t3);
            use_type_invariant(&z3);
            lemma_remainder_small(x3@ as int, q());
            lemma_remainder_small(y3@ as int, q());
            lemma_remainder_small(t3@ as int, q());
            lemma_remainder_small(z3@ as int, q());
            if on_curve(self@) && on_curve(other@) {
                lemma_add_on_curve(self@, other@);
            }
        }
        Point { x: x3, y: y3, t: t3, z: z3 }
    }

    /// The negative of a point.
    pub fn neg(&self) -> (r: Point)
        ensures
            r@ == neg_model(self@),
            on_curve(self@) ==> on_curve(r@),
    {
        proof {
            if on_curve(self@) {
                lemma_neg_on_curve(self@);
            }
        }
        Point { x: base_neg(&self.x), y: self.y, t: base_neg(&self.t), z: self.z }
    }

    /// The point times a scalar.
    pub fn mul(&self, scalar: &Fr) -> (r: Point)
        ensures
            r@ == scalar_mul_model(self@, scalar@),
            on_curve(self@) ==> on_curve(r@),
    {
        let bytes = scalar.to_bytes();
        let bits = bits_from_top(bytes.as_slice());
        proof {
            use_type_invariant(scalar);
            lemma_pow256_values();
            lemma_le_value_of_bytes(scalar@, 32);
            assert(bits@.take(bits@.len() as int) =~= bits@);
            assert(bits@.take(0) =~= Seq::<bool>::empty());
        }
        let mut res = Point::zero();
        let mut started = false;
        let mut i: usize = 0;
        while i < bits.len()
            invariant
                i <= bits@.len(),
                started == (be_bits_value(bits@.take(i as int)) != 0),
                res@ == scalar_mul_model(self@, be_bits_value(bits@.take(i as int))),
            decreases bits@.len() - i,
        {
            let bit = bits[i];
            proof {
                let next = bits@.take(i + 1);
                assert(next.drop_last() =~= bits@.take(i as int));
                assert(next.last() == bit);
            }
            if started || bit {
                res = double(&res);
                if bit {
                    res = res.add(self);
                }
                started = true;
            }
            i += 1;
        }
        proof {
            if on_curve(self@) {
                lemma_scalar_mul_on_curve(self@, scalar@);
            }
        }
        res
    }
}

impl PartialEq for Point {
    fn eq(&self, other: &Point) -> (b: bool) {
        if self.is_zero() {
            return other.is_zero();
        }
        if other.is_zero() {
            return false;
        }
        // x1/z1 == x2/z2  <==> x1 * z2 == x2 * z1
        let same_x = base_mul(&self.x, &other.z).same(&base_mul(&other.x, &self.z));
        let same_y = base_mul(&self.y, &other.z).same(&base_mul(&other.y, &self.z));
        same_x && same_y
    }
}

impl vstd::std_specs::cmp::PartialEqSpecImpl for Point {
    open spec fn obeys_eq_spec() -> bool {
        true
    }

    open spec fn eq_spec(&self, other: &Point) -> bool {
        same_point(self@, other@)
    }
}

} // verus!
