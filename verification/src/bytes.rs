//! Little-endian byte strings as numbers, and their bits from the top down.

use vstd::prelude::*;
use crate::field::limbs_value;

verus! {

/// The number that a little-endian byte string stands for.
pub open spec fn le_value(s: Seq<u8>) -> nat
    decreases s.len(),
{
    if s.len() == 0 {
        0
    } else {
        (s[0] as nat) + 256 * le_value(s.skip(1))
    }
}

/// The `n` low bytes of `v`, least significant first.
pub open spec fn le_bytes(v: nat, n: nat) -> Seq<u8>
    decreases n,
{
    if n == 0 {
        Seq::empty()
    } else {
        seq![(v % 256) as u8] + le_bytes(v / 256, (n - 1) as nat)
    }
}

/// 256 to the power `n`.
pub open spec fn pow256(n: nat) -> nat
    decreases n,
{
    if n == 0 {
        1
    } else {
        256 * pow256((n - 1) as nat)
    }
}

/// The number that a bit string stands for, its first bit the most
/// significant.
pub open spec fn be_bits_value(bits: Seq<bool>) -> nat
    decreases bits.len(),
{
    if bits.len() == 0 {
        0
    } else {
        2 * be_bits_value(bits.drop_last()) + (if bits.last() {
            1nat
        } else {
            0nat
        })
    }
}

pub proof fn lemma_le_bytes_len(v: nat, n: nat)
    ensures
        le_bytes(v, n).len() == n,
    decreases n,
{
    if n > 0 {
        lemma_le_bytes_len(v / 256, (n - 1) as nat);
    }
}

/// A byte string is the bytes of its own number.
pub proof fn lemma_le_bytes_of_value(s: Seq<u8>)
    ensures
        le_bytes(le_value(s), s.len()) == s,
    decreases s.len(),
{
    if s.len() > 0 {
        let rest = s.skip(1);
        lemma_le_bytes_of_value(rest);
        let v = le_value(s);
        assert(v % 256 == s[0] as nat && v / 256 == le_value(rest)) by {
            let r = le_value(rest);
            let b = s[0] as nat;
            assert(v == b + 256 * r);
            assert(b < 256);
            assert((b + 256 * r) % 256 == b && (b + 256 * r) / 256 == r) by (nonlinear_arith)
                requires
                    b < 256,
            ;
        }
        assert((s.len() - 1) as nat == rest.len());
        assert(le_bytes(v, s.len()) =~= seq![s[0]] + rest);
        assert(seq![s[0]] + rest =~= s);
    } else {
        assert(le_bytes(le_value(s), s.len()) =~= s);
    }
}

/// The number of the `n` low bytes of `v` is `v`, where `v` fits in them.
pub proof fn lemma_le_value_of_bytes(v: nat, n: nat)
    requires
        v < pow256(n),
    ensures
        le_value(le_bytes(v, n)) == v,
    decreases n,
{
    if n > 0 {
        let s = le_bytes(v, n);
        let rest = le_bytes(v / 256, (n - 1) as nat);
        assert(v / 256 < pow256((n - 1) as nat)) by (nonlinear_arith)
            requires
                v < 256 * pow256((n - 1) as nat),
        ;
        lemma_le_value_of_bytes(v / 256, (n - 1) as nat);
        assert(s.skip(1) =~= rest);
        assert(s[0] == (v % 256) as u8);
        assert(v == v % 256 + 256 * (v / 256)) by (nonlinear_arith);
    }
}

/// The number of two strings joined is that of the first plus that of the
/// second, moved up by the first one's length.
pub proof fn lemma_le_value_concat(a: Seq<u8>, b: Seq<u8>)
    ensures
        le_value(a + b) == le_value(a) + pow256(a.len()) * le_value(b),
    decreases a.len(),
{
    if a.len() == 0 {
        assert(a + b =~= b);
    } else {
        let ra = a.skip(1);
        lemma_le_value_concat(ra, b);
        assert((a + b).skip(1) =~= ra + b);
        assert((a + b)[0] == a[0]);
        let p = pow256(ra.len());
        let vb = le_value(b);
        assert(pow256(a.len()) == 256 * p);
        assert(256 * (p * vb) == (256 * p) * vb) by (nonlinear_arith);
    }
}

/// The number of a string of eight bytes, written out.
pub proof fn lemma_le_value_eight(s: Seq<u8>)
    requires
        s.len() == 8,
    ensures
        le_value(s) == s[0] + 0x100 * s[1] + 0x1_0000 * s[2] + 0x100_0000 * s[3] + 0x1_0000_0000
            * s[4] + 0x100_0000_0000 * s[5] + 0x1_0000_0000_0000 * s[6] + 0x100_0000_0000_0000
            * s[7],
{
    let s1 = s.skip(1);
    let s2 = s1.skip(1);
    let s3 = s2.skip(1);
    let s4 = s3.skip(1);
    let s5 = s4.skip(1);
    let s6 = s5.skip(1);
    let s7 = s6.skip(1);
    let s8 = s7.skip(1);
    assert(le_value(s8) == 0);
    assert(le_value(s7) == s[7]);
    assert(le_value(s6) == s[6] + 256 * le_value(s7));
    assert(le_value(s5) == s[5] + 256 * le_value(s6));
    assert(le_value(s4) == s[4] + 256 * le_value(s5));
    assert(le_value(s3) == s[3] + 256 * le_value(s4));
    assert(le_value(s2) == s[2] + 256 * le_value(s3));
    assert(le_value(s1) == s[1] + 256 * le_value(s2));
    assert(le_value(s) == s[0] + 256 * le_value(s1));
}

/// The number of a string of four bytes, written out.
pub proof fn lemma_le_value_four(s: Seq<u8>)
    requires
        s.len() == 4,
    ensures
        le_value(s) == s[0] + 0x100 * s[1] + 0x1_0000 * s[2] + 0x100_0000 * s[3],
{
    let s1 = s.skip(1);
    let s2 = s1.skip(1);
    let s3 = s2.skip(1);
    let s4 = s3.skip(1);
    assert(le_value(s4) == 0);
    assert(le_value(s3) == s[3]);
    assert(le_value(s2) == s[2] + 256 * le_value(s3));
    assert(le_value(s1) == s[1] + 256 * le_value(s2));
    assert(le_value(s) == s[0] + 256 * le_value(s1));
}

pub proof fn lemma_pow256_values()
    ensures
        pow256(8) == 0x1_0000_0000_0000_0000nat,
        pow256(16) == 0x1_0000_0000_0000_0000_0000_0000_0000_0000nat,
        pow256(24) == 0x1_0000_0000_0000_0000_0000_0000_0000_0000_0000_0000_0000_0000nat,
        pow256(31)
            == 0x100_0000_0000_0000_0000_0000_0000_0000_0000_0000_0000_0000_0000_0000_0000_0000nat,
        pow256(32)
            == 0x1_0000_0000_0000_0000_0000_0000_0000_0000_0000_0000_0000_0000_0000_0000_0000_0000nat,
{
    reveal_with_fuel(pow256, 9);
    assert(pow256(8) == 0x1_0000_0000_0000_0000nat);
    assert(pow256(16) == 0x1_0000_0000_0000_0000nat * pow256(8));
    assert(pow256(24) == 0x1_0000_0000_0000_0000nat * pow256(16));
    assert(pow256(31) == 0x100_0000_0000_0000nat * pow256(24));
    assert(pow256(32) == 256 * pow256(31));
}

/// The number held by the four bytes of `bytes` from `at` on.
pub fn half_word_from_le(bytes: &[u8], at: usize) -> (w: u32)
    requires
        at + 4 <= bytes@.len(),
    ensures
        w == le_value(bytes@.subrange(at as int, at + 4)),
{
    proof {
        lemma_le_value_four(bytes@.subrange(at as int, at + 4));
    }
    (bytes[at] as u32) + 0x100 * (bytes[at + 1] as u32) + 0x1_0000 * (bytes[at + 2] as u32)
        + 0x100_0000 * (bytes[at + 3] as u32)
}

/// The number held by the eight bytes of `bytes` from `at` on.
pub fn word_from_le(bytes: &[u8], at: usize) -> (w: u64)
    requires
        at + 8 <= bytes@.len(),
    ensures
        w == le_value(bytes@.subrange(at as int, at + 8)),
{
    proof {
        lemma_le_value_eight(bytes@.subrange(at as int, at + 8));
    }
    (bytes[at] as u64) + 0x100 * (bytes[at + 1] as u64) + 0x1_0000 * (bytes[at + 2] as u64)
        + 0x100_0000 * (bytes[at + 3] as u64) + 0x1_0000_0000 * (bytes[at + 4] as u64)
        + 0x100_0000_0000 * (bytes[at + 5] as u64) + 0x1_0000_0000_0000 * (bytes[at + 6] as u64)
        + 0x100_0000_0000_0000 * (bytes[at + 7] as u64)
}

/// The four limbs held by the first 32 bytes of `bytes`.
pub fn limbs_from_le(bytes: &[u8]) -> (l: [u64; 4])
    requires
        bytes@.len() >= 32,
    ensures
        limbs_value(l) == le_value(bytes@.take(32)),
{
    let l = [
        word_from_le(bytes, 0),
        word_from_le(bytes, 8),
        word_from_le(bytes, 16),
        word_from_le(bytes, 24),
    ];
    proof {
        let s = bytes@.take(32);
        let a = bytes@.subrange(0, 8);
        let b = bytes@.subrange(8, 16);
        let c = bytes@.subrange(16, 24);
        let d = bytes@.subrange(24, 32);
        assert(s =~= a + (b + (c + d)));
        lemma_le_value_concat(a, b + (c + d));
        lemma_le_value_concat(b, c + d);
        lemma_le_value_concat(c, d);
        lemma_pow256_values();
        let (va, vb, vc, vd) = (le_value(a), le_value(b), le_value(c), le_value(d));
        let k = 0x1_0000_0000_0000_0000nat;
        assert(le_value(s) == va + k * (vb + k * (vc + k * vd)));
        assert(va + k * (vb + k * (vc + k * vd)) == va + vb * k + vc * (k * k) + vd * (k * k
            * k)) by (nonlinear_arith);
    }
    l
}

/// Appends the eight bytes of `w`, least significant first.
pub fn push_word_le(out: &mut Vec<u8>, w: u64)
    ensures
        final(out)@.len() == old(out)@.len() + 8,
        final(out)@.take(old(out)@.len() as int) == old(out)@,
        le_value(final(out)@.skip(old(out)@.len() as int)) == w,
{
    let ghost before = out@;
    let b0: u8 = (w % 256) as u8;
    let w1: u64 = w / 256;
    let b1: u8 = (w1 % 256) as u8;
    let w2: u64 = w1 / 256;
    let b2: u8 = (w2 % 256) as u8;
    let w3: u64 = w2 / 256;
    let b3: u8 = (w3 % 256) as u8;
    let w4: u64 = w3 / 256;
    let b4: u8 = (w4 % 256) as u8;
    let w5: u64 = w4 / 256;
    let b5: u8 = (w5 % 256) as u8;
    let w6: u64 = w5 / 256;
    let b6: u8 = (w6 % 256) as u8;
    let b7: u8 = (w6 / 256) as u8;
    out.push(b0);
    out.push(b1);
    out.push(b2);
    out.push(b3);
    out.push(b4);
    out.push(b5);
    out.push(b6);
    out.push(b7);
    proof {
        let tail = out@.skip(before.len() as int);
        assert(tail =~= seq![b0, b1, b2, b3, b4, b5, b6, b7]);
        lemma_le_value_eight(tail);
        assert(out@.take(before.len() as int) =~= before);
    }
}

/// The 32 bytes of the number in four limbs, least significant first.
pub fn limbs_to_le(l: &[u64; 4]) -> (out: [u8; 32])
    ensures
        out@ == le_bytes(limbs_value(*l), 32),
{
    let mut v: Vec<u8> = Vec::new();
    push_word_le(&mut v, l[0]);
    let ghost a = v@;
    push_word_le(&mut v, l[1]);
    let ghost ab = v@;
    push_word_le(&mut v, l[2]);
    let ghost abc = v@;
    push_word_le(&mut v, l[3]);
    let mut out = [0u8; 32];
    let mut i: usize = 0;
    while i < 32
        invariant
            i <= 32,
            v@.len() == 32,
            forall|j: int| 0 <= j < i ==> out@[j] == v@[j],
        decreases 32 - i,
    {
        out[i] = v[i];
        i += 1;
    }
    proof {
        assert(out@ =~= v@);
        let b = ab.skip(8);
        let c = abc.skip(16);
        let d = v@.skip(24);
        assert(a =~= v@.take(8));
        assert(ab =~= a + b);
        assert(abc =~= ab + c);
        assert(v@ =~= abc + d);
        assert(le_value(a.skip(0)) == l[0]);
        assert(a.skip(0) =~= a);
        lemma_le_value_concat(a, b);
        lemma_le_value_concat(ab, c);
        lemma_le_value_concat(abc, d);
        lemma_pow256_values();
        lemma_le_bytes_of_value(v@);
    }
    out
}

/// Appends a byte string.
pub fn append_bytes(out: &mut Vec<u8>, s: &[u8])
    requires
        old(out)@.len() + s@.len() <= usize::MAX,
    ensures
        final(out)@ == old(out)@ + s@,
{
    let ghost before = out@;
    let mut i: usize = 0;
    while i < s.len()
        invariant
            i <= s@.len(),
            before.len() + s@.len() <= usize::MAX,
            out@ == before + s@.take(i as int),
        decreases s@.len() - i,
    {
        out.push(s[i]);
        proof {
            assert(s@.take(i + 1) =~= s@.take(i as int).push(s@[i as int]));
            assert(out@ =~= before + s@.take(i + 1));
        }
        i += 1;
    }
    proof {
        assert(s@.take(s@.len() as int) =~= s@);
    }
}

/// The bits of a little-endian byte string from the most significant
/// bit of its last byte down to the least significant bit of its first.
pub fn bits_from_top(bytes: &[u8]) -> (bits: Vec<bool>)
    requires
        bytes@.len() * 8 <= usize::MAX,
    ensures
        bits@.len() == 8 * bytes@.len(),
        be_bits_value(bits@) == le_value(bytes@),
{
    let n: usize = bytes.len();
    let mut bits: Vec<bool> = Vec::new();
    let mut i: usize = n;
    proof {
        assert(bytes@.subrange(n as int, n as int) =~= Seq::<u8>::empty());
    }
    while i > 0
        invariant
            i <= n,
            n == bytes@.len(),
            bits@.len() == 8 * (n - i),
            be_bits_value(bits@) == le_value(bytes@.subrange(i as int, n as int)),
        decreases i,
    {
        i -= 1;
        let b: u8 = bytes[i];
        let ghost high = be_bits_value(bits@);
        let mut low: u8 = b;
        let mut weight: u16 = 256;
        let mut j: usize = 0;
        while j < 8
            invariant
                j <= 8,
                bits@.len() == 8 * (n - i - 1) + j,
                low < weight,
                weight == (if j == 0 {
                    256int
                } else if j == 1 {
                    128
                } else if j == 2 {
                    64
                } else if j == 3 {
                    32
                } else if j == 4 {
                    16
                } else if j == 5 {
                    8
                } else if j == 6 {
                    4
                } else if j == 7 {
                    2
                } else {
                    1
                }),
                be_bits_value(bits@) * weight + low == 256 * high + b,
            decreases 8 - j,
        {
            let half: u16 = weight / 2;
            let bit = (low as u16) >= half;
            let ghost before = bits@;
            let ghost value = be_bits_value(before);
            bits.push(bit);
            proof {
                assert(bits@.drop_last() =~= before);
                assert(bits@.last() == bit);
                let add = if bit {
                    1nat
                } else {
                    0nat
                };
                assert(be_bits_value(bits@) == 2 * value + add);
                assert((2 * value + add) * half == value * (2 * half) + add * half)
                    by (nonlinear_arith);
            }
            if bit {
                low = low - (half as u8);
            }
            weight = half;
            j += 1;
        }
        proof {
            let s = bytes@.subrange(i as int, n as int);
            assert(s.skip(1) =~= bytes@.subrange(i + 1, n as int));
            assert(s[0] == b);
        }
    }
    proof {
        assert(bytes@.subrange(0, n as int) =~= bytes@);
    }
    bits
}

} // verus!
