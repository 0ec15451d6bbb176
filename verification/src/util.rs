//! Hashing to the scalar field.

use vstd::prelude::*;
use blake2_rfc::blake2b::Blake2b;
use crate::bytes::{append_bytes, be_bits_value, bits_from_top, le_value, word_from_le};
use crate::constants::SIGNATURE_HASH_PERSONALIZATION;
use crate::field::{scalar_add, scalar_double, scalar_modulus, Fr};
use crate::modular::{
    lemma_congruent_add,
    lemma_congruent_mul,
    lemma_remainder_congruent,
    lemma_remainder_small,
};

verus! {

/// The BLAKE2b digest of `data` under the eight words of a parameter
/// block.
pub uninterp spec fn blake2b_digest(params: Seq<u64>, data: Seq<u8>) -> Seq<u8>;

/// `Blake2b::with_parameter_block`, `update` and `finalize` of
/// `blake2_rfc`: the digest of `data` under the parameter block, as long
/// as the block's first byte says. The block's first byte is the digest
/// length, from 1 to 64, and its second the key length, at most 64.
#[verifier::external_body]
fn blake2b_hash(params: &[u64; 8], data: &[u8]) -> (r: Vec<u8>)
    requires
        1 <= params[0] % 256 <= 64,
        (params[0] / 256) % 256 <= 64,
    ensures
        r@ == blake2b_digest(params@, data@),
        r@.len() == params[0] % 256,
{
    let mut state = Blake2b::with_parameter_block(params);
    state.update(data);
    state.finalize().as_bytes().to_vec()
}

/// A personalization filled up with zero bytes to 16 bytes.
pub open spec fn padded_persona(persona: Seq<u8>) -> Seq<u8> {
    persona + Seq::new((16 - persona.len()) as nat, |i: int| 0u8)
}

/// The parameter block of a hash to a scalar: a digest of 64 bytes, no
/// key, fanout and depth 1, no salt, and the 16 bytes of the padded
/// personalization in the last two words.
pub open spec fn scalar_hash_params(persona: Seq<u8>) -> Seq<u64> {
    seq![
        0x0101_0040u64,
        0u64,
        0u64,
        0u64,
        0u64,
        0u64,
        le_value(padded_persona(persona).subrange(0, 8)) as u64,
        le_value(padded_persona(persona).subrange(8, 16)) as u64,
    ]
}

/// The scalar that `a` followed by `b` hashes to under a personalization:
/// the 64 bytes of the digest as a little-endian number, reduced.
pub open spec fn hash_to_scalar_model(persona: Seq<u8>, a: Seq<u8>, b: Seq<u8>) -> nat {
    le_value(blake2b_digest(scalar_hash_params(persona), a + b)) % scalar_modulus()
}

/// The scalar that `a` followed by `b` hashes to under the
/// personalization of signatures.
pub open spec fn h_star_model(a: Seq<u8>, b: Seq<u8>) -> nat {
    hash_to_scalar_model(SIGNATURE_HASH_PERSONALIZATION@, a, b)
}

/// The scalar that `a` followed by `b` hashes to under a personalization
/// of at most 16 bytes.
pub fn hash_to_scalar(persona: &[u8], a: &[u8], b: &[u8]) -> (r: Fr)
    requires
        persona@.len() <= 16,
        a@.len() + b@.len() <= usize::MAX,
    ensures
        r@ == hash_to_scalar_model(persona@, a@, b@),
{
    let mut padded: Vec<u8> = Vec::new();
    append_bytes(&mut padded, persona);
    while padded.len() < 16
        invariant
            persona@.len() <= padded@.len() <= 16,
            padded@ == persona@ + Seq::new(
                (padded@.len() - persona@.len()) as nat,
                |i: int| 0u8,
            ),
        decreases 16 - padded@.len(),
    {
        let ghost before = padded@;
        padded.push(0u8);
        proof {
            assert(padded@ =~= persona@ + Seq::new(
                (padded@.len() - persona@.len()) as nat,
                |i: int| 0u8,
            ));
        }
    }
    let params: [u64; 8] = [
        0x0101_0040,
        0,
        0,
        0,
        0,
        0,
        word_from_le(padded.as_slice(), 0),
        word_from_le(padded.as_slice(), 8),
    ];
    let mut data: Vec<u8> = Vec::new();
    append_bytes(&mut data, a);
    append_bytes(&mut data, b);
    proof {
        assert(params@ =~= scalar_hash_params(persona@));
    }
    let digest = blake2b_hash(&params, data.as_slice());
    let bits = bits_from_top(digest.as_slice());
    let one = Fr::one();
    let mut res = Fr::zero();
    let ghost m = scalar_modulus() as int;
    proof {
        assert(bits@.take(0) =~= Seq::<bool>::empty());
        lemma_remainder_small(0, m);
    }
    let mut i: usize = 0;
    while i < bits.len()
        invariant
            i <= bits@.len(),
            m == scalar_modulus(),
            one@ == 1,
            res@ == be_bits_value(bits@.take(i as int)) % scalar_modulus(),
        decreases bits@.len() - i,
    {
        let bit = bits[i];
        let ghost before = be_bits_value(bits@.take(i as int)) as int;
        let ghost old_res = res@ as int;
        res = scalar_double(&res);
        let ghost doubled = res@ as int;
        if bit {
            res = scalar_add(&res, &one);
        }
        proof {
            let next = bits@.take(i + 1);
            assert(next.drop_last() =~= bits@.take(i as int));
            assert(next.last() == bit);
            lemma_remainder_congruent(before, m);
            lemma_remainder_congruent(2 * old_res, m);
            lemma_congruent_mul(2, 2, old_res, before, m);
            if bit {
                lemma_remainder_congruent(doubled + 1, m);
                lemma_congruent_add(doubled, 2 * before, 1, 1, m);
            }
        }
        i += 1;
    }
    proof {
        assert(bits@.take(bits@.len() as int) =~= bits@);
    }
    res
}

/// The scalar that `a` followed by `b` hashes to under the
/// personalization of signatures.
pub fn h_star(a: &[u8], b: &[u8]) -> (r: Fr)
    requires
        a@.len() + b@.len() <= usize::MAX,
    ensures
        r@ == h_star_model(a@, b@),
{
    hash_to_scalar(SIGNATURE_HASH_PERSONALIZATION.as_slice(), a, b)
}

/// The hash gives the same scalar for the same inputs: two results that
/// meet its contract for one personalization, one `a` and one `b` are
/// equal.
pub proof fn lemma_hash_to_scalar_deterministic(
    first: Fr,
    second: Fr,
    persona: Seq<u8>,
    a: Seq<u8>,
    b: Seq<u8>,
)
    requires
        first@ == hash_to_scalar_model(persona, a, b),
        second@ == hash_to_scalar_model(persona, a, b),
    ensures
        first == second,
{
    first.lemma_view_injective(second);
}

} // verus!
