//! Congruence of integers modulo a positive number.

use vstd::prelude::*;
use vstd::arithmetic::div_mod::{
    lemma_add_mod_noop,
    lemma_mod_multiples_vanish,
    lemma_mod_twice,
    lemma_mul_mod_noop,
    lemma_small_mod,
    lemma_sub_mod_noop,
};

verus! {

/// Whether `a` and `b` leave the same remainder on division by `m`.
pub open spec fn congruent(a: int, b: int, m: int) -> bool {
    a % m == b % m
}

/// A remainder is congruent to the number it was taken of.
pub proof fn lemma_remainder_congruent(a: int, m: int)
    requires
        m > 0,
    ensures
        congruent(a % m, a, m),
        0 <= a % m < m,
{
    lemma_mod_twice(a, m);
    assert(0 <= a % m < m) by (nonlinear_arith)
        requires
            m > 0,
    ;
}

/// A number from zero up to `m` is its own remainder.
pub proof fn lemma_remainder_small(a: int, m: int)
    requires
        0 <= a < m,
    ensures
        a % m == a,
{
    lemma_small_mod(a as nat, m as nat);
}

pub proof fn lemma_congruent_add(a: int, a2: int, b: int, b2: int, m: int)
    requires
        m > 0,
        congruent(a, a2, m),
        congruent(b, b2, m),
    ensures
        congruent(a + b, a2 + b2, m),
{
    lemma_add_mod_noop(a, b, m);
    lemma_add_mod_noop(a2, b2, m);
}

pub proof fn lemma_congruent_sub(a: int, a2: int, b: int, b2: int, m: int)
    requires
        m > 0,
        congruent(a, a2, m),
        congruent(b, b2, m),
    ensures
        congruent(a - b, a2 - b2, m),
{
    lemma_sub_mod_noop(a, b, m);
    lemma_sub_mod_noop(a2, b2, m);
}

pub proof fn lemma_congruent_mul(a: int, a2: int, b: int, b2: int, m: int)
    requires
        m > 0,
        congruent(a, a2, m),
        congruent(b, b2, m),
    ensures
        congruent(a * b, a2 * b2, m),
{
    lemma_mul_mod_noop(a, b, m);
    lemma_mul_mod_noop(a2, b2, m);
}

/// A multiple of a number congruent to zero is congruent to zero.
pub proof fn lemma_congruent_zero_multiple(a: int, k: int, m: int)
    requires
        m > 0,
        congruent(a, 0, m),
    ensures
        congruent(a * k, 0, m),
        congruent(k * a, 0, m),
{
    lemma_remainder_small(0, m);
    lemma_congruent_mul(a, 0, k, k, m);
    assert(0 * k == 0);
    assert(a * k == k * a) by (nonlinear_arith);
}

/// Two numbers are congruent exactly when their difference is congruent
/// to zero.
pub proof fn lemma_congruent_difference(a: int, b: int, m: int)
    requires
        m > 0,
    ensures
        congruent(a, b, m) <==> congruent(a - b, 0, m),
{
    lemma_remainder_small(0, m);
    if congruent(a, b, m) {
        lemma_congruent_sub(a, b, b, b, m);
        assert(b - b == 0);
    }
    if congruent(a - b, 0, m) {
        lemma_congruent_add(a - b, 0, b, b, m);
        assert(a - b + b == a);
    }
}

/// Adding a multiple of `m` changes no remainder.
pub proof fn lemma_congruent_shift(a: int, k: int, m: int)
    requires
        m > 0,
    ensures
        congruent(a + k * m, a, m),
{
    lemma_mod_multiples_vanish(k, a, m);
    assert(m * k + a == a + k * m) by (nonlinear_arith);
}

} // verus!
