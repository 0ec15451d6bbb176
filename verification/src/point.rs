//! Points of the Jubjub curve in extended twisted Edwards coordinates.
//!
//! A point `(X, Y, T, Z)` stands for the affine point `(X/Z, Y/Z)`, with
//! `T = XY/Z`. The curve is `-x^2 + y^2 = 1 + d x^2 y^2` over the base
//! field.

use vstd::prelude::*;
use crate::bytes::{
    le_bytes,
    le_value,
    lemma_le_bytes_len,
    lemma_le_bytes_of_value,
    lemma_le_value_of_bytes,
    lemma_pow256_values,
    limbs_from_le,
    limbs_to_le,
};
use crate::field::{
    base_add,
    base_coeff_d,
    base_double,
    base_inverse,
    base_inverse_model,
    base_modulus,
    base_mul,
    base_neg,
    base_sqrt,
    base_sqrt_of,
    base_square,
    base_sub,
    curve_d,
    is_base_square,
    lemma_inverse_model,
    Fq,
};
use crate::modular::{
    congruent,
    lemma_congruent_add,
    lemma_congruent_mul,
    lemma_congruent_sub,
    lemma_congruent_zero_multiple,
    lemma_congruent_difference,
    lemma_remainder_congruent,
    lemma_remainder_small,
};

verus! {

/// The coordinates of a point, each a residue of the base field.
pub struct Extended {
    pub x: nat,
    pub y: nat,
    pub t: nat,
    pub z: nat,
}

/// The order of the base field, as an integer.
pub open spec fn q() -> int {
    base_modulus() as int
}

/// The residue of an integer in the base field.
pub open spec fn residue(a: int) -> nat {
    (a % q()) as nat
}

/// Whether the coordinates satisfy the curve equation in its projective
/// form, `-X^2 + Y^2 = Z^2 + d T^2` with `X Y = Z T`.
pub open spec fn on_curve(p: Extended) -> bool {
    let (x, y, t, z) = (p.x as int, p.y as int, p.t as int, p.z as int);
    &&& congruent(y * y - x * x, z * z + curve_d() * (t * t), q())
    &&& congruent(x * y, z * t, q())
}

/// The neutral element, `(0, 1, 0, 1)`.
pub open spec fn identity_model() -> Extended {
    Extended { x: 0, y: 1, t: 0, z: 1 }
}

/// The coordinates `(0, -1, 0, -1)`, which also stand for the neutral
/// element.
pub open spec fn identity_negated() -> Extended {
    Extended { x: 0, y: residue(-1), t: 0, z: residue(-1) }
}

/// Whether the coordinates stand for the neutral element: the affine point
/// `(0, 1)`.
pub open spec fn is_identity(p: Extended) -> bool {
    p.x == 0 && p.y == p.z && p.y != 0 && p.t == 0
}

/// The double of a point, by the doubling formulas of Hisil, Wong, Carter
/// and Dawson for `a = -1`:
/// `E = 2XY`, `G = Y^2 - X^2`, `F = G - 2Z^2`, `H = -X^2 - Y^2`, and the
/// result is `(EF, GH, EH, FG)`.
pub open spec fn double_model(p: Extended) -> Extended {
    let (x, y, z) = (p.x as int, p.y as int, p.z as int);
    let e = 2 * (x * y);
    let g = y * y - x * x;
    let f = g - 2 * (z * z);
    let h = -(x * x) - y * y;
    Extended { x: residue(e * f), y: residue(g * h), t: residue(e * h), z: residue(f * g) }
}

/// Eight times a point: three doublings.
pub open spec fn cofactor_model(p: Extended) -> Extended {
    double_model(double_model(double_model(p)))
}

/// The weight of the bit that holds the sign of `x` in an encoded point:
/// two to the power 255.
pub open spec fn sign_weight() -> nat {
    0x8000_0000_0000_0000_0000_0000_0000_0000_0000_0000_0000_0000_0000_0000_0000_0000nat
}

/// The denominator `d y^2 + 1` of the square of `x` at a given `y`.
pub open spec fn lift_denominator(y: nat) -> nat {
    residue((curve_d() * (y * y) + 1) as int)
}

/// The square of `x` at a given `y`: `(y^2 - 1) / (d y^2 + 1)`.
pub open spec fn lift_square(y: nat) -> nat {
    residue((residue(y * y - 1) * base_inverse_model(lift_denominator(y))) as int)
}

/// The point with the given `y` whose `x` is odd exactly when `sign` is
/// set, with `Z = 1`; none where the denominator has no inverse or `x^2`
/// is no square. A root of zero is taken whatever `sign` is.
pub open spec fn lift_model(y: nat, sign: bool) -> Option<Extended> {
    if lift_denominator(y) == 0 {
        None
    } else {
        match base_sqrt(lift_square(y)) {
            None => None,
            Some(r) => {
                let x = if (r % 2 == 1) != sign {
                    residue(0 - r)
                } else {
                    r
                };
                Some(Extended { x, y, t: residue((x * y) as int), z: 1 })
            },
        }
    }
}

/// Whether the top bit of the number in the first 32 bytes is set: the
/// sign of `x` in an encoded point.
pub open spec fn encoded_sign(bytes: Seq<u8>) -> bool {
    le_value(bytes.take(32)) >= sign_weight()
}

/// The number in the first 32 bytes without its top bit: the `y` of an
/// encoded point.
pub open spec fn encoded_y(bytes: Seq<u8>) -> nat {
    let v = le_value(bytes.take(32));
    if v >= sign_weight() {
        (v - sign_weight()) as nat
    } else {
        v
    }
}

/// The point that the first 32 bytes encode: the little-endian number
/// holds `y` in its low 255 bits and the sign of `x` in its top bit. None
/// where there are fewer than 32 bytes, `y` is no residue, no point has
/// that `y`, or eight times the point is the neutral element.
pub open spec fn decode_model(bytes: Seq<u8>) -> Option<Extended> {
    if bytes.len() < 32 || encoded_y(bytes) >= base_modulus() {
        None
    } else {
        match lift_model(encoded_y(bytes), encoded_sign(bytes)) {
            None => None,
            Some(p) => if is_identity(cofactor_model(p)) {
                None
            } else {
                Some(p)
            },
        }
    }
}

/// The affine `x` of a point, `X/Z`.
pub open spec fn affine_x(p: Extended) -> nat {
    residue((p.x * base_inverse_model(p.z)) as int)
}

/// The affine `y` of a point, `Y/Z`.
pub open spec fn affine_y(p: Extended) -> nat {
    residue((p.y * base_inverse_model(p.z)) as int)
}

/// The 32 bytes that encode a point: the affine `y` as a little-endian
/// number, with the top bit set where the affine `x` is odd. None where
/// `Z` is zero.
pub open spec fn encode_model(p: Extended) -> Option<Seq<u8>> {
    if p.z == 0 {
        None
    } else {
        Some(
            le_bytes(
                if affine_x(p) % 2 == 1 {
                    affine_y(p) + sign_weight()
                } else {
                    affine_y(p)
                },
                32,
            ),
        )
    }
}

/// The coordinates of a point that may be absent.
pub open spec fn model_of(r: Option<Point>) -> Option<Extended> {
    match r {
        Some(p) => Some(p@),
        None => None,
    }
}

/// A point of the curve.
#[derive(Clone, Copy, Debug)]
pub struct Point {
    pub x: Fq,
    pub y: Fq,
    pub t: Fq,
    pub z: Fq,
}

impl View for Point {
    type V = Extended;

    open spec fn view(&self) -> Extended {
        Extended { x: self.x@, y: self.y@, t: self.t@, z: self.z@ }
    }
}

impl Point {
    /// The neutral element.
    pub fn zero() -> (r: Point)
        ensures
            r@ == identity_model(),
    {
        Point { x: Fq::zero(), y: Fq::one(), t: Fq::zero(), z: Fq::one() }
    }

    /// Whether the point is the neutral element.
    pub fn is_zero(&self) -> (b: bool)
        ensures
            b == is_identity(self@),
    {
        self.x.is_zero() && self.y.same(&self.z) && !self.y.is_zero() && self.t.is_zero()
    }

    /// Two points with the same coordinates are one value.
    pub proof fn lemma_view_injective(self, other: Point)
        requires
            self@ == other@,
        ensures
            self == other,
    {
        self.x.lemma_view_injective(other.x);
        self.y.lemma_view_injective(other.y);
        self.t.lemma_view_injective(other.t);
        self.z.lemma_view_injective(other.z);
    }
}

proof fn lemma_step_add(r: int, a: int, b: int, a2: int, b2: int)
    requires
        r == (a + b) % q(),
        congruent(a, a2, q()),
        congruent(b, b2, q()),
    ensures
        congruent(r, a2 + b2, q()),
{
    lemma_remainder_congruent(a + b, q());
    lemma_congruent_add(a, a2, b, b2, q());
}

proof fn lemma_step_sub(r: int, a: int, b: int, a2: int, b2: int)
    requires
        r == (a - b) % q(),
        congruent(a, a2, q()),
        congruent(b, b2, q()),
    ensures
        congruent(r, a2 - b2, q()),
{
    lemma_remainder_congruent(a - b, q());
    lemma_congruent_sub(a, a2, b, b2, q());
}

proof fn lemma_step_mul(r: int, a: int, b: int, a2: int, b2: int)
    requires
        r == (a * b) % q(),
        congruent(a, a2, q()),
        congruent(b, b2, q()),
    ensures
        congruent(r, a2 * b2, q()),
{
    lemma_remainder_congruent(a * b, q());
    lemma_congruent_mul(a, a2, b, b2, q());
}

/// The double of a point.
pub fn double(point: &Point) -> (r: Point)
    ensures
        r@ == double_model(point@),
        on_curve(point@) ==> on_curve(r@),
{
    // A = X1^2
    let a = base_square(&point.x);
    // B = Y1^2
    let b = base_square(&point.y);
    // C = 2*Z1^2
    let zz = base_square(&point.z);
    let c = base_double(&zz);
    // D = a*A = -A
    let d = base_neg(&a);
    // E = (X1+Y1)^2 - A - B
    let s = base_add(&point.x, &point.y);
    let ss = base_square(&s);
    let sa = base_add(&ss, &d);
    let e = base_sub(&sa, &b);
    // G = D+B
    let g = base_add(&d, &b);
    // F = G-C
    let f = base_sub(&g, &c);
    // H = D-B
    let h = base_sub(&d, &b);
    // X3 = E*F
    let x3 = base_mul(&e, &f);
    // Y3 = G*H
    let y3 = base_mul(&g, &h);
    // T3 = E*H
    let t3 = base_mul(&e, &h);
    // Z3 = F*G
    let z3 = base_mul(&f, &g);
    proof {
        let (x, y, z) = (point.x@ as int, point.y@ as int, point.z@ as int);
        let me = 2 * (x * y);
        let mg = y * y - x * x;
        let mf = mg - 2 * (z * z);
        let mh = -(x * x) - y * y;
        lemma_remainder_congruent(x * x, q());
        lemma_remainder_congruent(y * y, q());
        lemma_remainder_congruent(z * z, q());
        lemma_remainder_congruent(2 * (zz@ as int), q());
        lemma_congruent_mul(2, 2, zz@ as int, z * z, q());
        lemma_step_sub(d@ as int, 0, a@ as int, 0, x * x);
        lemma_step_add(s@ as int, x, y, x, y);
        lemma_step_mul(ss@ as int, s@ as int, s@ as int, x + y, x + y);
        lemma_step_add(sa@ as int, ss@ as int, d@ as int, (x + y) * (x + y), 0 - x * x);
        lemma_step_sub(e@ as int, sa@ as int, b@ as int, (x + y) * (x + y) + (0 - x * x), y * y);
        assert((x + y) * (x + y) + (0 - x * x) - y * y == 2 * (x * y)) by (nonlinear_arith);
        lemma_step_add(g@ as int, d@ as int, b@ as int, 0 - x * x, y * y);
        assert(0 - x * x + y * y == mg);
        lemma_step_sub(f@ as int, g@ as int, c@ as int, mg, 2 * (z * z));
        lemma_step_sub(h@ as int, d@ as int, b@ as int, 0 - x * x, y * y);
        assert(0 - x * x - y * y == mh);
        lemma_step_mul(x3@ as int, e@ as int, f@ as int, me, mf);
        lemma_step_mul(y3@ as int, g@ as int, h@ as int, mg, mh);
        lemma_step_mul(t3@ as int, e@ as int, h@ as int, me, mh);
        lemma_step_mul(z3@ as int, f@ as int, g@ as int, mf, mg);
        lemma_remainder_congruent(x3@ as int, q());
        use_type_invariant(&x3);
        use_type_invariant(&y3);
        use_type_invariant(&t3);
        use_type_invariant(&z3);
        lemma_remainder_small(x3@ as int, q());
        lemma_remainder_small(y3@ as int, q());
        lemma_remainder_small(t3@ as int, q());
        lemma_remainder_small(z3@ as int, q());
        if on_curve(point@) {
            lemma_double_on_curve(point@);
        }
    }
    Point { x: x3, y: y3, t: t3, z: z3 }
}

/// Eight times a point: the cofactor of the curve is 8.
pub fn mul_by_cofactor(p: &Point) -> (r: Point)
    ensures
        r@ == cofactor_model(p@),
        on_curve(p@) ==> on_curve(r@),
{
    double(&double(&double(p)))
}

/// The polynomial identity behind `lemma_double_on_curve`: for the doubled
/// coordinates, the curve equation's two sides differ by a combination of
/// the two equations that hold of the point doubled.
proof fn lemma_double_identity(x: int, y: int, t: int, z: int, d: int)
    ensures
        ({
            let e = 2 * (x * y);
            let g = y * y - x * x;
            let f = g - 2 * (z * z);
            let h = -(x * x) - y * y;
            let c1 = y * y - x * x - (z * z + d * (t * t));
            let c2 = x * y - z * t;
            (g * h) * (g * h) - (e * f) * (e * f) - ((f * g) * (f * g) + d * ((e * h) * (e * h)))
                == (4 * (h * h) * (z * z)) * c1 + (-4 * d * (h * h) * (x * y + z * t)) * c2
        }),
{
    let e = 2 * (x * y);
    let g = y * y - x * x;
    let f = g - 2 * (z * z);
    let h = -(x * x) - y * y;
    let c1 = y * y - x * x - (z * z + d * (t * t));
    let c2 = x * y - z * t;
    let (e2, f2, g2, h2) = (e * e, f * f, g * g, h * h);
    let (zz, tt, xy, zt) = (z * z, t * t, x * y, z * t);
    let sum = xy + zt;
    let sq = xy * xy;
    assert((g * h) * (g * h) == (g * g) * (h * h)) by (nonlinear_arith);
    assert((e * f) * (e * f) == (e * e) * (f * f)) by (nonlinear_arith);
    assert((f * g) * (f * g) == (f * f) * (g * g)) by (nonlinear_arith);
    assert((e * h) * (e * h) == (e * e) * (h * h)) by (nonlinear_arith);
    assert((2 * (x * y)) * (2 * (x * y)) + (y * y - x * x) * (y * y - x * x) == (-(x * x) - y
        * y) * (-(x * x) - y * y)) by (nonlinear_arith);
    assert(h2 == e2 + g2);
    assert(g2 * (e2 + g2) - e2 * f2 - f2 * g2 - d * (e2 * (e2 + g2)) == (e2 + g2) * (g2 - f2 - d
        * e2)) by (nonlinear_arith);
    let w = g2 - f2 - d * e2;
    assert((g * h) * (g * h) - (e * f) * (e * f) - ((f * g) * (f * g) + d * ((e * h) * (e * h)))
        == h2 * w);
    assert(g * g - (g - 2 * zz) * (g - 2 * zz) == 4 * zz * (g - zz)) by (nonlinear_arith);
    assert(d * ((2 * xy) * (2 * xy)) == 4 * d * (xy * xy)) by (nonlinear_arith);
    assert((x * y) * (x * y) - (z * z) * (t * t) == (x * y - z * t) * (x * y + z * t))
        by (nonlinear_arith);
    assert(g - zz == c1 + d * tt);
    assert(sq - zz * tt == c2 * sum);
    assert(4 * zz * (c1 + d * tt) - 4 * d * sq == 4 * zz * c1 - 4 * d * (sq - zz * tt))
        by (nonlinear_arith);
    assert(w == 4 * zz * c1 - 4 * d * (c2 * sum));
    lemma_spread(h2, zz, c1, d, c2, sum);
}

proof fn lemma_spread(h: int, z: int, a: int, d: int, b: int, s: int)
    ensures
        h * (4 * z * a - 4 * d * (b * s)) == (4 * h * z) * a + (-4 * d * h * s) * b,
{
    let p = 4 * z * a;
    let q = 4 * d * (b * s);
    assert(h * (p - q) == h * p - h * q) by (nonlinear_arith);
    assert(h * (4 * z * a) == (4 * h * z) * a) by (nonlinear_arith);
    let ds = d * s;
    assert(4 * d * (b * s) == 4 * (ds * b)) by (nonlinear_arith)
        requires
            ds == d * s,
    ;
    assert(h * (4 * (ds * b)) == (4 * (h * ds)) * b) by (nonlinear_arith);
    assert(-4 * d * h * s == -(4 * (h * ds))) by (nonlinear_arith)
        requires
            ds == d * s,
    ;
    let k = 4 * (h * ds);
    assert((-k) * b == -(k * b)) by (nonlinear_arith);
}

/// Doubling keeps a point on the curve.
pub proof fn lemma_double_on_curve(p: Extended)
    requires
        on_curve(p),
    ensures
        on_curve(double_model(p)),
{
    let (x, y, t, z) = (p.x as int, p.y as int, p.t as int, p.z as int);
    let d = curve_d() as int;
    let e = 2 * (x * y);
    let g = y * y - x * x;
    let f = g - 2 * (z * z);
    let h = -(x * x) - y * y;
    let r = double_model(p);
    let (x3, y3, t3, z3) = (r.x as int, r.y as int, r.t as int, r.z as int);
    lemma_remainder_congruent(e * f, q());
    lemma_remainder_congruent(g * h, q());
    lemma_remainder_congruent(e * h, q());
    lemma_remainder_congruent(f * g, q());
    // X3 Y3 = Z3 T3
    lemma_congruent_mul(x3, e * f, y3, g * h, q());
    lemma_congruent_mul(z3, f * g, t3, e * h, q());
    assert((e * f) * (g * h) == (f * g) * (e * h)) by (nonlinear_arith);
    // -X3^2 + Y3^2 = Z3^2 + d T3^2
    lemma_congruent_mul(x3, e * f, x3, e * f, q());
    lemma_congruent_mul(y3, g * h, y3, g * h, q());
    lemma_congruent_mul(z3, f * g, z3, f * g, q());
    lemma_congruent_mul(t3, e * h, t3, e * h, q());
    lemma_congruent_mul(d, d, t3 * t3, (e * h) * (e * h), q());
    lemma_congruent_sub(y3 * y3, (g * h) * (g * h), x3 * x3, (e * f) * (e * f), q());
    lemma_congruent_add(
        z3 * z3,
        (f * g) * (f * g),
        d * (t3 * t3),
        d * ((e * h) * (e * h)),
        q(),
    );
    let left = (g * h) * (g * h) - (e * f) * (e * f);
    let right = (f * g) * (f * g) + d * ((e * h) * (e * h));
    let c1 = y * y - x * x - (z * z + d * (t * t));
    let c2 = x * y - z * t;
    let k1 = 4 * (h * h) * (z * z);
    let k2 = -4 * d * (h * h) * (x * y + z * t);
    assert(left - right == k1 * c1 + k2 * c2) by {
        lemma_double_identity(x, y, t, z, d);
    }
    lemma_congruent_difference(y * y - x * x, z * z + d * (t * t), q());
    lemma_congruent_difference(x * y, z * t, q());
    lemma_congruent_zero_multiple(c1, k1, q());
    lemma_congruent_zero_multiple(c2, k2, q());
    lemma_congruent_add(k1 * c1, 0, k2 * c2, 0, q());
    lemma_congruent_difference(left, right, q());
}

/// Multiplying by the cofactor keeps a point on the curve.
pub proof fn lemma_cofactor_on_curve(p: Extended)
    requires
        on_curve(p),
    ensures
        on_curve(cofactor_model(p)),
{
    lemma_double_on_curve(p);
    lemma_double_on_curve(double_model(p));
    lemma_double_on_curve(double_model(double_model(p)));
}

/// The double of the neutral element, in either of its two sets of
/// coordinates, is `(0, -1, 0, -1)`, which stands for the neutral element.
pub proof fn lemma_double_of_identity()
    ensures
        double_model(identity_model()) == identity_negated(),
        double_model(identity_negated()) == identity_negated(),
        is_identity(identity_negated()),
{
    let n = identity_negated();
    let m = q() - 1;
    assert(residue(-1) == m);
    lemma_remainder_small(0, q());
    lemma_remainder_small(1, q());
    assert(congruent(m * m, 1, q())) by {
        crate::modular::lemma_congruent_shift(-1, 1, q());
        lemma_congruent_mul(m, -1, m, -1, q());
    }
    assert(double_model(identity_model()) == n) by {
        let (x, y, z) = (0int, 1int, 1int);
        let e = 2 * (x * y);
        let g = y * y - x * x;
        let f = g - 2 * (z * z);
        let h = -(x * x) - y * y;
        assert(e == 0 && g == 1 && f == -1 && h == -1);
        assert(e * f == 0 && g * h == -1 && e * h == 0 && f * g == -1);
    }
    assert(double_model(n) == n) by {
        let mm = m * m;
        let e = 2 * (0int * m);
        let g = m * m - 0int * 0int;
        let f = g - 2 * (m * m);
        let h = -(0int * 0int) - m * m;
        assert(e == 0 && g == mm && f == -mm && h == -mm);
        assert(e * f == 0 && e * h == 0);
        lemma_congruent_mul(-1, -1, mm, 1, q());
        assert(-1 * mm == -mm && -1 * 1 == -1);
        lemma_congruent_mul(mm, 1, -mm, -1, q());
        lemma_congruent_mul(-mm, -1, mm, 1, q());
        assert(1 * -1 == -1);
    }
}

/// Eight times a point of the curve with `x = 0` is the neutral element.
pub proof fn lemma_zero_x_has_small_order(p: Extended)
    requires
        on_curve(p),
        p.x == 0,
        p.z == 1,
        p.t < base_modulus(),
    ensures
        is_identity(cofactor_model(p)),
{
    let (y, t) = (p.y as int, p.t as int);
    let yy = y * y;
    lemma_remainder_small(0, q());
    lemma_remainder_small(1, q());
    lemma_remainder_small(t, q());
    assert(0int * y == 0 && 1int * t == t);
    assert(t == 0);
    assert(yy - 0int * 0int == yy && 1int * 1int + curve_d() * (0int * 0int) == 1);
    assert(congruent(yy, 1, q()));
    let e = 2 * (0int * y);
    let g = yy - 0int * 0int;
    let f = g - 2 * (1int * 1int);
    let h = -(0int * 0int) - yy;
    assert(e == 0 && g == yy && f == yy - 2 && h == 0 - yy);
    assert(e * f == 0 && e * h == 0);
    lemma_congruent_sub(0, 0, yy, 1, q());
    lemma_congruent_mul(yy, 1, 0 - yy, -1, q());
    lemma_congruent_sub(yy, 1, 2, 2, q());
    lemma_congruent_mul(yy - 2, -1, yy, 1, q());
    assert(1 * -1 == -1 && -1 * 1 == -1 && 0 - 1 == -1 && 1 - 2 == -1);
    assert(double_model(p) == identity_negated());
    lemma_double_of_identity();
}

/// A residue congruent to an integer is that integer's residue.
proof fn lemma_residue_of(r: nat, a: int)
    requires
        r < base_modulus(),
        congruent(r as int, a, q()),
    ensures
        r == residue(a),
{
    lemma_remainder_small(r as int, q());
}

/// The negative of a residue other than zero is the order less the
/// residue, and is odd exactly when the residue is even.
proof fn lemma_negation(r: nat)
    requires
        r < base_modulus(),
    ensures
        r == 0 ==> residue(0 - r) == 0,
        r != 0 ==> residue(0 - r) == base_modulus() - r,
        r != 0 ==> (residue(0 - r) % 2 == 1) != (r % 2 == 1),
{
    if r == 0 {
        lemma_remainder_small(0, q());
    } else {
        lemma_remainder_small(q() - r, q());
        crate::modular::lemma_congruent_shift(0 - r, 1, q());
        assert(0 - r + 1 * q() == q() - r);
    }
}

/// The lifted coordinates satisfy the curve equation.
proof fn lemma_lift_on_curve(x: int, y: int, t: int, num: int, den: int, inv: int, x2: int)
    requires
        x >= 0,
        y >= 0,
        t >= 0,
        congruent(num, y * y - 1, q()),
        congruent(den, curve_d() * (y * y) + 1, q()),
        congruent(den * inv, 1, q()),
        congruent(x2, num * inv, q()),
        congruent(x * x, x2, q()),
        congruent(t, x * y, q()),
    ensures
        on_curve(Extended { x: x as nat, y: y as nat, t: t as nat, z: 1 }),
{
    let d = curve_d() as int;
    let (xx, yy) = (x * x, y * y);
    // x^2 (d y^2 + 1) = num
    lemma_congruent_mul(xx, num * inv, den, den, q());
    assert((num * inv) * den == num * (den * inv)) by (nonlinear_arith);
    lemma_congruent_mul(num, num, den * inv, 1, q());
    assert(num * 1 == num);
    lemma_congruent_mul(xx, xx, den, d * yy + 1, q());
    assert(congruent(xx * (d * yy + 1), yy - 1, q()));
    // t^2 = x^2 y^2
    lemma_congruent_mul(t, x * y, t, x * y, q());
    assert((x * y) * (x * y) == xx * yy) by (nonlinear_arith)
        requires
            xx == x * x,
            yy == y * y,
    ;
    lemma_congruent_mul(d, d, t * t, xx * yy, q());
    lemma_congruent_add(1, 1, d * (t * t), d * (xx * yy), q());
    assert(xx * (d * yy + 1) == d * (xx * yy) + xx) by (nonlinear_arith);
    lemma_congruent_sub(yy - 1, xx * (d * yy + 1), xx, xx, q());
    assert(yy - 1 - xx == yy - xx - 1);
    lemma_congruent_difference(yy - xx - 1, d * (xx * yy), q());
    lemma_congruent_difference(yy - xx, 1 + d * (xx * yy), q());
    assert(yy - 1 - xx - (xx * (d * yy + 1) - xx) == yy - xx - 1 - d * (xx * yy));
    lemma_congruent_difference(yy - 1 - xx, xx * (d * yy + 1) - xx, q());
}

/// The point with the given `y` and the given oddness of `x`.
///
/// Given a `y` on the curve, `x^2 = (y^2 - 1) / (d y^2 + 1)`.
pub fn get_for_y(y: Fq, sign: bool) -> (r: Option<Point>)
    ensures
        model_of(r) == lift_model(y@, sign),
        r is None <==> lift_denominator(y@) == 0 || !is_base_square(lift_square(y@)),
        r matches Some(p) ==> on_curve(p@) && p.y@ == y@ && p.z@ == 1 && (p.x@ == 0 || (p.x@ % 2
            == 1) == sign),
{
    let one = Fq::one();
    // tmp1 = y^2
    let yy = base_square(&y);
    // tmp2 = (y^2 * d) + 1
    let dyy = base_mul(&yy, &base_coeff_d());
    let den = base_add(&dyy, &one);
    // tmp1 = y^2 - 1
    let num = base_sub(&yy, &one);
    proof {
        use_type_invariant(&y);
        use_type_invariant(&den);
        use_type_invariant(&num);
        let yi = y@ as int;
        lemma_remainder_congruent(yi * yi, q());
        lemma_remainder_small(1, q());
        lemma_step_mul(dyy@ as int, yy@ as int, curve_d() as int, yi * yi, curve_d() as int);
        assert((yi * yi) * curve_d() == curve_d() * (yi * yi)) by (nonlinear_arith);
        lemma_step_add(den@ as int, dyy@ as int, 1, curve_d() * (yi * yi), 1);
        lemma_step_sub(num@ as int, yy@ as int, 1, yi * yi, 1);
        lemma_residue_of(den@, curve_d() * (yi * yi) + 1);
        lemma_residue_of(num@, yi * yi - 1);
    }
    match base_inverse(&den) {
        Some(inv) => {
            // tmp1 = (y^2 - 1) / (dy^2 + 1)
            let x2 = base_mul(&num, &inv);
            proof {
                use_type_invariant(&inv);
                use_type_invariant(&x2);
                lemma_inverse_model(den@, inv@);
            }
            match base_sqrt_of(&x2) {
                Some(root) => {
                    let flip = root.is_odd() != sign;
                    let x = if flip {
                        base_neg(&root)
                    } else {
                        root
                    };
                    let t = base_mul(&x, &y);
                    proof {
                        use_type_invariant(&x);
                        use_type_invariant(&t);
                        use_type_invariant(&root);
                        let (xi, yi, ri) = (x@ as int, y@ as int, root@ as int);
                        lemma_remainder_congruent((num@ * inv@) as int, q());
                        lemma_remainder_congruent(ri * ri, q());
                        lemma_remainder_congruent(xi * yi, q());
                        lemma_remainder_small(x2@ as int, q());
                        lemma_remainder_small(1, q());
                        if flip {
                            lemma_negation(root@);
                            lemma_step_sub(xi, 0, ri, 0, ri);
                            lemma_congruent_mul(xi, 0 - ri, xi, 0 - ri, q());
                            assert((0 - ri) * (0 - ri) == ri * ri) by (nonlinear_arith);
                        }
                        assert(den@ * inv@ == (den@ as int) * (inv@ as int));
                        lemma_lift_on_curve(
                            xi,
                            yi,
                            t@ as int,
                            num@ as int,
                            den@ as int,
                            inv@ as int,
                            x2@ as int,
                        );
                    }
                    Some(Point { x, y, t, z: one })
                },
                None => None,
            }
        },
        None => None,
    }
}

/// The point that the first 32 bytes of `bytes` encode.
pub fn read_point(bytes: &[u8]) -> (r: Option<Point>)
    ensures
        model_of(r) == decode_model(bytes@),
        r is Some <==> bytes@.len() >= 32 && encoded_y(bytes@) < base_modulus()
            && lift_denominator(encoded_y(bytes@)) != 0 && is_base_square(
            lift_square(encoded_y(bytes@)),
        ) && (lift_model(encoded_y(bytes@), encoded_sign(bytes@)) matches Some(p) && !is_identity(
            cofactor_model(p),
        )),
        r matches Some(p) ==> on_curve(p@) && !is_identity(cofactor_model(p@)) && p.z@ == 1 && p.y@
            == encoded_y(bytes@) && (p.x@ % 2 == 1) == encoded_sign(bytes@) && encode_model(p@)
            == Some(bytes@.take(32)) && decode_model(bytes@.take(32)) == Some(p@),
{
    if bytes.len() < 32 {
        return None;
    }
    let mut limbs = limbs_from_le(bytes);
    let x_sign = limbs[3] >= 0x8000_0000_0000_0000;
    if x_sign {
        limbs[3] = limbs[3] - 0x8000_0000_0000_0000;
    }
    match Fq::from_limbs(limbs) {
        Some(y) => {
            match get_for_y(y, x_sign) {
                Some(p) => {
                    let cleared = mul_by_cofactor(&p);
                    if !cleared.is_zero() {
                        proof {
                            use_type_invariant(&p.x);
                            use_type_invariant(&p.y);
                            use_type_invariant(&p.t);
                            lemma_decode_of_own_encoding(p@, bytes@);
                            if p.x@ == 0 {
                                lemma_zero_x_has_small_order(p@);
                            }
                        }
                        Some(p)
                    } else {
                        None
                    }
                },
                None => None,
            }
        },
        None => None,
    }
}

/// The 32 bytes that encode a point, where its `Z` is not zero.
pub fn write_point(point: &Point) -> (r: Option<[u8; 32]>)
    ensures
        match r {
            Some(out) => encode_model(point@) == Some(out@),
            None => encode_model(point@) is None,
        },
{
    match base_inverse(&point.z) {
        Some(inv) => {
            let x = base_mul(&point.x, &inv);
            let y = base_mul(&point.y, &inv);
            let mut y_repr = y.to_limbs();
            proof {
                use_type_invariant(&inv);
                lemma_inverse_model(point.z@, inv@);
            }
            if x.is_odd() {
                y_repr[3] = y_repr[3] + 0x8000_0000_0000_0000;
            }
            Some(limbs_to_le(&y_repr))
        },
        None => None,
    }
}

/// Encoding a decoded point gives back the 32 bytes that it was decoded
/// from: only one string of 32 bytes encodes a point.
pub proof fn lemma_encode_of_decoded(p: Extended, bytes: Seq<u8>)
    requires
        bytes.len() >= 32,
        p.x < base_modulus(),
        p.y < base_modulus(),
        p.t < base_modulus(),
        p.z == 1,
        p.y == encoded_y(bytes),
        p.x == 0 || (p.x % 2 == 1) == encoded_sign(bytes),
        on_curve(p),
        !is_identity(cofactor_model(p)),
    ensures
        encode_model(p) == Some(bytes.take(32)),
{
    if p.x == 0 {
        lemma_zero_x_has_small_order(p);
    }
    lemma_remainder_small(1, q());
    lemma_inverse_model(1, 1);
    assert(p.x * 1 == p.x && p.y * 1 == p.y);
    lemma_remainder_small(p.x as int, q());
    lemma_remainder_small(p.y as int, q());
    lemma_le_bytes_of_value(bytes.take(32));
}

/// A point that decoding gives is decoded again from its own encoding.
pub proof fn lemma_decode_of_own_encoding(p: Extended, bytes: Seq<u8>)
    requires
        decode_model(bytes) == Some(p),
        p.x < base_modulus(),
        p.y < base_modulus(),
        p.t < base_modulus(),
        p.z == 1,
        p.y == encoded_y(bytes),
        p.x == 0 || (p.x % 2 == 1) == encoded_sign(bytes),
        on_curve(p),
    ensures
        encode_model(p) matches Some(e) && e == bytes.take(32) && decode_model(e) == Some(p),
{
    lemma_encode_of_decoded(p, bytes);
    assert(bytes.take(32).take(32) =~= bytes.take(32));
}

/// Decoding the encoding of a point reads back its affine `y` and the
/// oddness of its affine `x`, and lifts that `y` under that oddness.
pub proof fn lemma_decode_of_encoding(p: Extended)
    requires
        p.z != 0,
    ensures
        encode_model(p) matches Some(bytes) && bytes.len() == 32 && encoded_y(bytes) == affine_y(p)
            && encoded_sign(bytes) == (affine_x(p) % 2 == 1) && decode_model(bytes) == (
        match lift_model(affine_y(p), affine_x(p) % 2 == 1) {
            None => None,
            Some(l) => if is_identity(cofactor_model(l)) {
                None
            } else {
                Some(l)
            },
        }),
{
    let y = affine_y(p);
    let v = if affine_x(p) % 2 == 1 {
        y + sign_weight()
    } else {
        y
    };
    let bytes = le_bytes(v, 32);
    lemma_remainder_congruent((p.y * base_inverse_model(p.z)) as int, q());
    lemma_pow256_values();
    lemma_le_bytes_len(v, 32);
    lemma_le_value_of_bytes(v, 32);
    assert(bytes.take(32) =~= bytes);
}

} // verus!
