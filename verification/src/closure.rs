//! The sum of two points of the curve is a point of the curve.

use vstd::prelude::*;
use crate::field::curve_d;
use crate::group::{add_model, neg_model, scalar_mul_model};
use crate::modular::{
    congruent,
    lemma_congruent_add,
    lemma_congruent_difference,
    lemma_congruent_mul,
    lemma_congruent_sub,
    lemma_congruent_zero_multiple,
    lemma_remainder_congruent,
    lemma_remainder_small,
};
use crate::point::{double_model, identity_model, lemma_double_on_curve, on_curve, q, Extended};

verus! {

/// `(a + b)(c + d) = a c + a d + b c + b d`.
proof fn lemma_expand(a: int, b: int, c: int, d: int)
    ensures
        (a + b) * (c + d) == a * c + a * d + b * c + b * d,
{
    assert((a + b) * (c + d) == a * c + a * d + b * c + b * d) by (nonlinear_arith);
}

/// `(a - b)(c - d) = a c - a d - b c + b d`.
proof fn lemma_expand_differences(a: int, b: int, c: int, d: int)
    ensures
        (a - b) * (c - d) == a * c - a * d - b * c + b * d,
{
    assert((a - b) * (c - d) == a * c - a * d - b * c + b * d) by (nonlinear_arith);
}

/// `(a + b)^2 = a^2 + 2 a b + b^2`.
proof fn lemma_square_sum(a: int, b: int)
    ensures
        (a + b) * (a + b) == a * a + 2 * (a * b) + b * b,
{
    assert((a + b) * (a + b) == a * a + 2 * (a * b) + b * b) by (nonlinear_arith);
}

/// `(a - b)^2 = a^2 - 2 a b + b^2`.
proof fn lemma_square_difference(a: int, b: int)
    ensures
        (a - b) * (a - b) == a * a - 2 * (a * b) + b * b,
{
    assert((a - b) * (a - b) == a * a - 2 * (a * b) + b * b) by (nonlinear_arith);
}

/// With `F = D - C` and `G = D + C`, the difference of the two sides of the
/// curve equation at `(EF, GH, EH, FG)`, in the squares and products of
/// `C`, `D`, `E` and `H`.
proof fn lemma_sides(e: int, h: int, c: int, d: int, k: int)
    ensures
        ({
            let f = d - c;
            let g = d + c;
            (g * h) * (g * h) - (e * f) * (e * f) - ((f * g) * (f * g) + k * ((e * h) * (e * h)))
                == (h * h - e * e) * (d * d + c * c) + 2 * (c * d) * (h * h + e * e) - (d * d - c
                * c) * (d * d - c * c) - k * ((e * h) * (e * h))
        }),
{
    let f = d - c;
    let g = d + c;
    let (e2, h2, c2, d2, cd) = (e * e, h * h, c * c, d * d, c * d);
    assert((g * h) * (g * h) == (g * g) * (h * h)) by (nonlinear_arith);
    assert((e * f) * (e * f) == (e * e) * (f * f)) by (nonlinear_arith);
    assert((d + c) * (d + c) == d * d + 2 * (c * d) + c * c) by (nonlinear_arith);
    assert((d - c) * (d - c) == d * d - 2 * (c * d) + c * c) by (nonlinear_arith);
    assert((d - c) * (d + c) == d * d - c * c) by (nonlinear_arith);
    assert(f * g == d2 - c2);
    assert((d2 + 2 * cd + c2) * h2 - e2 * (d2 - 2 * cd + c2) == (h2 - e2) * (d2 + c2) + 2 * cd
        * (h2 + e2)) by (nonlinear_arith);
}

/// `H^2 - E^2`, `H^2 + E^2` and `E H` for `E = x1 y2 + y1 x2` and
/// `H = y1 y2 + x1 x2`.
proof fn lemma_cross_terms(x1: int, y1: int, x2: int, y2: int)
    ensures
        ({
            let e = x1 * y2 + y1 * x2;
            let h = y1 * y2 + x1 * x2;
            &&& h * h - e * e == (y1 * y1 - x1 * x1) * (y2 * y2 - x2 * x2)
            &&& h * h + e * e == (x1 * x1 + y1 * y1) * (x2 * x2 + y2 * y2) + 4 * ((x1 * y1) * (x2
                * y2))
            &&& e * h == (x2 * y2) * (x1 * x1 + y1 * y1) + (x1 * y1) * (x2 * x2 + y2 * y2)
        }),
{
    let (ma, mb, mp, mq) = (x1 * x2, y1 * y2, x1 * y2, y1 * x2);
    let (a1, b1, a2, b2) = (x1 * x1, y1 * y1, x2 * x2, y2 * y2);
    let (m1, m2) = (x1 * y1, x2 * y2);
    let mm = m1 * m2;
    lemma_square_sum(mb, ma);
    lemma_square_sum(mp, mq);
    assert((x1 * x2) * (x1 * x2) == (x1 * x1) * (x2 * x2)) by (nonlinear_arith);
    assert((y1 * y2) * (y1 * y2) == (y1 * y1) * (y2 * y2)) by (nonlinear_arith);
    assert((x1 * y2) * (x1 * y2) == (x1 * x1) * (y2 * y2)) by (nonlinear_arith);
    assert((y1 * x2) * (y1 * x2) == (y1 * y1) * (x2 * x2)) by (nonlinear_arith);
    assert((y1 * y2) * (x1 * x2) == (x1 * y1) * (x2 * y2)) by (nonlinear_arith);
    assert((x1 * y2) * (y1 * x2) == (x1 * y1) * (x2 * y2)) by (nonlinear_arith);
    assert(ma * ma == a1 * a2 && mb * mb == b1 * b2 && mp * mp == a1 * b2 && mq * mq == b1 * a2);
    assert(mb * ma == mm && mp * mq == mm);
    lemma_expand_differences(b1, a1, b2, a2);
    lemma_expand(a1, b1, a2, b2);
    // E H
    lemma_expand(mp, mq, mb, ma);
    assert((x1 * y2) * (y1 * y2) == (x1 * y1) * (y2 * y2)) by (nonlinear_arith);
    assert((x1 * y2) * (x1 * x2) == (x2 * y2) * (x1 * x1)) by (nonlinear_arith);
    assert((y1 * x2) * (y1 * y2) == (x2 * y2) * (y1 * y1)) by (nonlinear_arith);
    assert((y1 * x2) * (x1 * x2) == (x1 * y1) * (x2 * x2)) by (nonlinear_arith);
    assert(mp * mb == m1 * b2 && mp * ma == m2 * a1 && mq * mb == m2 * b1 && mq * ma == m1 * a2);
    assert(m2 * (a1 + b1) == m2 * a1 + m2 * b1) by (nonlinear_arith);
    assert(m1 * (a2 + b2) == m1 * a2 + m1 * b2) by (nonlinear_arith);
}

/// `(x^2 + y^2)^2 = (y^2 - x^2)^2 + 4 (x y)^2`.
proof fn lemma_sum_of_squares(x: int, y: int)
    ensures
        (x * x + y * y) * (x * x + y * y) == (y * y - x * x) * (y * y - x * x) + 4 * ((x * y) * (x
            * y)),
{
    let (a, b) = (x * x, y * y);
    lemma_square_sum(a, b);
    lemma_square_difference(b, a);
    assert((x * x) * (y * y) == (x * y) * (x * y)) by (nonlinear_arith);
    assert((y * y) * (x * x) == (x * y) * (x * y)) by (nonlinear_arith);
}

/// The square of `m2 v1 + m1 v2`.
proof fn lemma_square_of_sum(m1: int, m2: int, v1: int, v2: int)
    ensures
        (m2 * v1 + m1 * v2) * (m2 * v1 + m1 * v2) == (m2 * m2) * (v1 * v1) + 2 * ((m1 * m2) * (v1
            * v2)) + (m1 * m1) * (v2 * v2),
{
    lemma_square_sum(m2 * v1, m1 * v2);
    assert((m2 * v1) * (m2 * v1) == (m2 * m2) * (v1 * v1)) by (nonlinear_arith);
    assert((m1 * v2) * (m1 * v2) == (m1 * m1) * (v2 * v2)) by (nonlinear_arith);
    assert((m2 * v1) * (m1 * v2) == (m1 * m2) * (v1 * v2)) by (nonlinear_arith);
}

/// The identity that remains once the equations of both points are used:
/// with `s = Z^2` and `w = d T^2`,
/// `(s1 + w1)(s2 + w2)(s1 s2 + w1 w2) = (s1 s2 - w1 w2)^2 + s2 w2 (s1 + w1)^2 + s1 w1 (s2 + w2)^2`.
proof fn lemma_core(s1: int, w1: int, s2: int, w2: int)
    ensures
        ((s1 + w1) * (s2 + w2)) * (s1 * s2 + w1 * w2) - (s1 * s2 - w1 * w2) * (s1 * s2 - w1 * w2)
            - (s2 * w2) * ((s1 + w1) * (s1 + w1)) - (s1 * w1) * ((s2 + w2) * (s2 + w2)) == 0,
{
    let (u, v, r, t) = (s1 * s2, w1 * w2, s1 * w2, w1 * s2);
    lemma_expand(s1, w1, s2, w2);
    assert((s1 + w1) * (s2 + w2) == (u + v) + (r + t));
    lemma_expand(u + v, r + t, u, v);
    lemma_square_sum(u, v);
    assert((u + v) * u + (u + v) * v == (u + v) * (u + v)) by (nonlinear_arith);
    assert((r + t) * u == r * u + t * u) by (nonlinear_arith);
    assert((r + t) * v == r * v + t * v) by (nonlinear_arith);
    lemma_square_difference(u, v);
    lemma_square_sum(s1, w1);
    lemma_square_sum(s2, w2);
    let (x, y) = (s2 * w2, s1 * w1);
    assert(x * (s1 * s1 + 2 * (s1 * w1) + w1 * w1) == x * (s1 * s1) + 2 * (x * (s1 * w1)) + x * (w1
        * w1)) by (nonlinear_arith);
    assert(y * (s2 * s2 + 2 * (s2 * w2) + w2 * w2) == y * (s2 * s2) + 2 * (y * (s2 * w2)) + y * (w2
        * w2)) by (nonlinear_arith);
    assert((s1 * w2) * (s1 * s2) == (s2 * w2) * (s1 * s1)) by (nonlinear_arith);
    assert((s1 * w2) * (w1 * w2) == (s1 * w1) * (w2 * w2)) by (nonlinear_arith);
    assert((w1 * s2) * (s1 * s2) == (s1 * w1) * (s2 * s2)) by (nonlinear_arith);
    assert((w1 * s2) * (w1 * w2) == (s2 * w2) * (w1 * w1)) by (nonlinear_arith);
    assert((s2 * w2) * (s1 * w1) == (s1 * s2) * (w1 * w2)) by (nonlinear_arith);
    assert((s1 * w1) * (s2 * w2) == (s1 * s2) * (w1 * w2)) by (nonlinear_arith);
    assert(r * u == x * (s1 * s1) && r * v == y * (w2 * w2) && t * u == y * (s2 * s2) && t * v == x
        * (w1 * w1));
    assert(x * y == u * v && y * x == u * v);
}

/// The difference of the two sides, sorted: two multiples of
/// `C D - k m1 m2` and a rest in the squares.
proof fn lemma_sorted(
    bb: int,
    s: int,
    cd: int,
    vv: int,
    mm: int,
    x: int,
    k: int,
    m1s: int,
    m2s: int,
    n1: int,
    n2: int,
)
    requires
        mm * mm == m1s * m2s,
    ensures
        bb * s + 2 * cd * (vv + 4 * mm) - x - k * (m2s * (n1 + 4 * m1s) + 2 * (mm * vv) + m1s * (n2
            + 4 * m2s)) == 2 * vv * (cd - k * mm) + 8 * mm * (cd - k * mm) + (bb * s - x - (k * m2s)
            * n1 - (k * m1s) * n2),
{
    assert(2 * cd * (vv + 4 * mm) == 2 * (cd * vv) + 8 * (cd * mm)) by (nonlinear_arith);
    let inner = m2s * (n1 + 4 * m1s) + 2 * (mm * vv) + m1s * (n2 + 4 * m2s);
    assert(m2s * (n1 + 4 * m1s) == m2s * n1 + 4 * (m1s * m2s)) by (nonlinear_arith);
    assert(m1s * (n2 + 4 * m2s) == m1s * n2 + 4 * (m1s * m2s)) by (nonlinear_arith);
    let (m1, m2, m3, m4) = (m2s * n1, m1s * m2s, mm * vv, m1s * n2);
    assert(inner == m1 + 8 * m2 + 2 * m3 + m4);
    assert(k * (m1 + 8 * m2 + 2 * m3 + m4) == k * m1 + 8 * (k * m2) + 2 * (k * m3) + k * m4)
        by (nonlinear_arith);
    assert(2 * vv * (cd - k * mm) == 2 * (cd * vv) - 2 * (k * (mm * vv))) by (nonlinear_arith);
    assert(8 * mm * (cd - k * mm) == 8 * (cd * mm) - 8 * (k * (mm * mm))) by (nonlinear_arith);
    assert((k * m2s) * n1 == k * (m2s * n1)) by (nonlinear_arith);
    assert((k * m1s) * n2 == k * (m1s * n2)) by (nonlinear_arith);
}

/// The sum of two points of the curve is on the curve.
pub proof fn lemma_add_on_curve(p: Extended, o: Extended)
    requires
        on_curve(p),
        on_curve(o),
    ensures
        on_curve(add_model(p, o)),
{
    let (x1, y1, t1, z1) = (p.x as int, p.y as int, p.t as int, p.z as int);
    let (x2, y2, t2, z2) = (o.x as int, o.y as int, o.t as int, o.z as int);
    let k = curve_d() as int;
    let e = x1 * y2 + y1 * x2;
    let h = y1 * y2 + x1 * x2;
    let c = k * (t1 * t2);
    let dd = z1 * z2;
    let f = dd - c;
    let g = dd + c;
    let r = add_model(p, o);
    let (x3, y3, t3, z3) = (r.x as int, r.y as int, r.t as int, r.z as int);
    lemma_remainder_congruent(e * f, q());
    lemma_remainder_congruent(g * h, q());
    lemma_remainder_congruent(e * h, q());
    lemma_remainder_congruent(f * g, q());
    // X3 Y3 = Z3 T3
    lemma_congruent_mul(x3, e * f, y3, g * h, q());
    lemma_congruent_mul(z3, f * g, t3, e * h, q());
    assert((e * f) * (g * h) == (f * g) * (e * h)) by (nonlinear_arith);
    // -X3^2 + Y3^2 = Z3^2 + d T3^2
    lemma_congruent_mul(x3, e * f, x3, e * f, q());
    lemma_congruent_mul(y3, g * h, y3, g * h, q());
    lemma_congruent_mul(z3, f * g, z3, f * g, q());
    lemma_congruent_mul(t3, e * h, t3, e * h, q());
    lemma_congruent_mul(k, k, t3 * t3, (e * h) * (e * h), q());
    lemma_congruent_sub(y3 * y3, (g * h) * (g * h), x3 * x3, (e * f) * (e * f), q());
    lemma_congruent_add(z3 * z3, (f * g) * (f * g), k * (t3 * t3), k * ((e * h) * (e * h)), q());
    let left = (g * h) * (g * h) - (e * f) * (e * f);
    let right = (f * g) * (f * g) + k * ((e * h) * (e * h));
    lemma_sides_differ_by_zero(x1, y1, t1, z1, x2, y2, t2, z2, k);
    lemma_congruent_difference(left, right, q());
}

/// For two points of the curve, the two sides of the curve equation at the
/// coordinates of their sum are congruent.
proof fn lemma_sides_differ_by_zero(
    x1: int,
    y1: int,
    t1: int,
    z1: int,
    x2: int,
    y2: int,
    t2: int,
    z2: int,
    k: int,
)
    requires
        congruent(y1 * y1 - x1 * x1, z1 * z1 + k * (t1 * t1), q()),
        congruent(x1 * y1, z1 * t1, q()),
        congruent(y2 * y2 - x2 * x2, z2 * z2 + k * (t2 * t2), q()),
        congruent(x2 * y2, z2 * t2, q()),
    ensures
        ({
            let e = x1 * y2 + y1 * x2;
            let h = y1 * y2 + x1 * x2;
            let c = k * (t1 * t2);
            let dd = z1 * z2;
            let f = dd - c;
            let g = dd + c;
            congruent(
                (g * h) * (g * h) - (e * f) * (e * f) - ((f * g) * (f * g) + k * ((e * h) * (e
                    * h))),
                0,
                q(),
            )
        }),
{
    let e = x1 * y2 + y1 * x2;
    let h = y1 * y2 + x1 * x2;
    let c = k * (t1 * t2);
    let dd = z1 * z2;
    let (m1, m2) = (x1 * y1, x2 * y2);
    let (v1, v2) = (x1 * x1 + y1 * y1, x2 * x2 + y2 * y2);
    let (n1, n2) = (y1 * y1 - x1 * x1, y2 * y2 - x2 * x2);
    let (s1, s2) = (z1 * z1, z2 * z2);
    let (w1, w2) = (k * (t1 * t1), k * (t2 * t2));
    let (u1, u2) = (s1 + w1, s2 + w2);
    let (zt1, zt2) = (z1 * t1, z2 * t2);
    let bb = n1 * n2;
    let s = dd * dd + c * c;
    let cd = c * dd;
    let vv = v1 * v2;
    let mm = m1 * m2;
    let x = (dd * dd - c * c) * (dd * dd - c * c);
    let (m1s, m2s) = (m1 * m1, m2 * m2);
    let m = cd - k * mm;
    let rest = bb * s - x - (k * m2s) * (n1 * n1) - (k * m1s) * (n2 * n2);
    // The difference, sorted.
    lemma_sides(e, h, c, dd, k);
    lemma_cross_terms(x1, y1, x2, y2);
    lemma_square_of_sum(m1, m2, v1, v2);
    lemma_sum_of_squares(x1, y1);
    lemma_sum_of_squares(x2, y2);
    assert((m1 * m2) * (m1 * m2) == (m1 * m1) * (m2 * m2)) by (nonlinear_arith);
    lemma_sorted(bb, s, cd, vv, mm, x, k, m1s, m2s, n1 * n1, n2 * n2);
    // C D is congruent to d m1 m2.
    lemma_remainder_small(0, q());
    lemma_congruent_mul(m1, zt1, m2, zt2, q());
    lemma_congruent_mul(k, k, mm, zt1 * zt2, q());
    assert((k * (t1 * t2)) * (z1 * z2) == k * ((z1 * t1) * (z2 * t2))) by (nonlinear_arith);
    lemma_congruent_sub(cd, cd, k * mm, cd, q());
    assert(cd - cd == 0);
    lemma_congruent_zero_multiple(m, 2 * vv, q());
    lemma_congruent_zero_multiple(m, 8 * mm, q());
    // The rest is congruent to zero.
    lemma_congruent_mul(n1, u1, n2, u2, q());
    lemma_congruent_mul(n1, u1, n1, u1, q());
    lemma_congruent_mul(n2, u2, n2, u2, q());
    assert((z1 * z2) * (z1 * z2) == (z1 * z1) * (z2 * z2)) by (nonlinear_arith);
    assert((k * (t1 * t2)) * (k * (t1 * t2)) == (k * (t1 * t1)) * (k * (t2 * t2)))
        by (nonlinear_arith);
    assert(s == s1 * s2 + w1 * w2);
    assert(x == (s1 * s2 - w1 * w2) * (s1 * s2 - w1 * w2));
    lemma_congruent_mul(m1, zt1, m1, zt1, q());
    lemma_congruent_mul(m2, zt2, m2, zt2, q());
    lemma_congruent_mul(k, k, m1s, zt1 * zt1, q());
    lemma_congruent_mul(k, k, m2s, zt2 * zt2, q());
    assert(k * ((z1 * t1) * (z1 * t1)) == (z1 * z1) * (k * (t1 * t1))) by (nonlinear_arith);
    assert(k * ((z2 * t2) * (z2 * t2)) == (z2 * z2) * (k * (t2 * t2))) by (nonlinear_arith);
    lemma_congruent_mul(bb, u1 * u2, s, s, q());
    lemma_congruent_mul(k * m2s, s2 * w2, n1 * n1, u1 * u1, q());
    lemma_congruent_mul(k * m1s, s1 * w1, n2 * n2, u2 * u2, q());
    lemma_congruent_sub(bb * s, (u1 * u2) * s, x, x, q());
    lemma_congruent_sub(
        bb * s - x,
        (u1 * u2) * s - x,
        (k * m2s) * (n1 * n1),
        (s2 * w2) * (u1 * u1),
        q(),
    );
    lemma_congruent_sub(
        bb * s - x - (k * m2s) * (n1 * n1),
        (u1 * u2) * s - x - (s2 * w2) * (u1 * u1),
        (k * m1s) * (n2 * n2),
        (s1 * w1) * (u2 * u2),
        q(),
    );
    lemma_core(s1, w1, s2, w2);
    assert(congruent(rest, 0, q()));
    lemma_congruent_add(2 * vv * m, 0, 8 * mm * m, 0, q());
    lemma_congruent_add(2 * vv * m + 8 * mm * m, 0, rest, 0, q());
}

/// The negative of a point of the curve is on the curve.
pub proof fn lemma_neg_on_curve(p: Extended)
    requires
        on_curve(p),
    ensures
        on_curve(neg_model(p)),
{
    let (x, y, t, z) = (p.x as int, p.y as int, p.t as int, p.z as int);
    let r = neg_model(p);
    let (nx, nt) = (r.x as int, r.t as int);
    lemma_remainder_congruent(0 - x, q());
    lemma_remainder_congruent(0 - t, q());
    lemma_congruent_mul(nx, 0 - x, nx, 0 - x, q());
    assert((0 - x) * (0 - x) == x * x) by (nonlinear_arith);
    lemma_congruent_mul(nt, 0 - t, nt, 0 - t, q());
    assert((0 - t) * (0 - t) == t * t) by (nonlinear_arith);
    lemma_congruent_sub(y * y, y * y, nx * nx, x * x, q());
    lemma_congruent_mul(curve_d() as int, curve_d() as int, nt * nt, t * t, q());
    lemma_congruent_add(z * z, z * z, curve_d() * (nt * nt), curve_d() * (t * t), q());
    lemma_congruent_mul(nx, 0 - x, y, y, q());
    lemma_congruent_mul(z, z, nt, 0 - t, q());
    assert((0 - x) * y == 0 - x * y) by (nonlinear_arith);
    assert(z * (0 - t) == 0 - z * t) by (nonlinear_arith);
    lemma_congruent_sub(0, 0, x * y, z * t, q());
}

/// Any multiple of a point of the curve is on the curve.
pub proof fn lemma_scalar_mul_on_curve(p: Extended, k: nat)
    requires
        on_curve(p),
    ensures
        on_curve(scalar_mul_model(p, k)),
    decreases k,
{
    if k == 0 {
        let o = identity_model();
        let (x, y, t, z) = (o.x as int, o.y as int, o.t as int, o.z as int);
        assert(y * y - x * x == 1 && z * z + curve_d() * (t * t) == 1);
        assert(x * y == 0 && z * t == 0);
    } else {
        lemma_scalar_mul_on_curve(p, k / 2);
        let half = scalar_mul_model(p, k / 2);
        lemma_double_on_curve(half);
        if k % 2 == 1 {
            lemma_add_on_curve(double_model(half), p);
        }
    }
}

} // verus!
