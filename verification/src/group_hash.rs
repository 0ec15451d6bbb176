//! Hashing to the curve: from a tag and a personalization to a point of
//! the prime-order subgroup.

use vstd::prelude::*;
use blake2_rfc::blake2s::Blake2s;
use crate::bytes::{append_bytes, half_word_from_le, le_value};
use crate::constants::GH_FIRST_BLOCK;
use crate::point::{
    cofactor_model,
    decode_model,
    is_identity,
    lemma_cofactor_on_curve,
    model_of,
    mul_by_cofactor,
    on_curve,
    read_point,
    Extended,
    Point,
};

verus! {

/// The BLAKE2s digest of `data` under the eight words of a parameter
/// block.
pub uninterp spec fn blake2s_digest(params: Seq<u32>, data: Seq<u8>) -> Seq<u8>;

/// `Blake2s::with_parameter_block`, `update` and `finalize` of
/// `blake2_rfc`: the digest of `data` under the parameter block, as long
/// as the block's first byte says. The block's first byte is the digest
/// length, from 1 to 32, and its second the key length, at most 32.
#[verifier::external_body]
fn blake2s_hash(params: &[u32; 8], data: &[u8]) -> (r: Vec<u8>)
    requires
        1 <= params[0] % 256 <= 32,
        (params[0] / 256) % 256 <= 32,
    ensures
        r@ == blake2s_digest(params@, data@),
        r@.len() == params[0] % 256,
{
    let mut state = Blake2s::with_parameter_block(params);
    state.update(data);
    state.finalize().as_bytes().to_vec()
}

/// The parameter block of a group hash: a digest of 32 bytes, no key,
/// fanout and depth 1, no salt, and the eight bytes of the
/// personalization in the last two words.
pub open spec fn group_hash_params(personalization: Seq<u8>) -> Seq<u32> {
    seq![
        0x0101_0020u32,
        0u32,
        0u32,
        0u32,
        0u32,
        0u32,
        le_value(personalization.subrange(0, 4)) as u32,
        le_value(personalization.subrange(4, 8)) as u32,
    ]
}

/// The point that a tag hashes to under a personalization: eight times the
/// point that the digest of the first block and the tag encodes. None
/// where the digest encodes no point.
pub open spec fn group_hash_model(tag: Seq<u8>, personalization: Seq<u8>) -> Option<Extended> {
    let digest = blake2s_digest(group_hash_params(personalization), GH_FIRST_BLOCK@ + tag);
    match decode_model(digest) {
        None => None,
        Some(p) => if is_identity(cofactor_model(p)) {
            None
        } else {
            Some(cofactor_model(p))
        },
    }
}

/// The first point that `m` followed by a counter byte hashes to, for the
/// counter from `counter` up to 255.
pub open spec fn find_group_hash_from(
    m: Seq<u8>,
    personalization: Seq<u8>,
    counter: nat,
) -> Option<Extended>
    decreases 256 - counter,
{
    if counter >= 256 {
        None
    } else {
        match group_hash_model(m.push(counter as u8), personalization) {
            Some(p) => Some(p),
            None => find_group_hash_from(m, personalization, counter + 1),
        }
    }
}

/// The first point that `m` followed by a counter byte hashes to, the
/// counter running from 0 to 255.
pub open spec fn find_group_hash_model(m: Seq<u8>, personalization: Seq<u8>) -> Option<
    Extended,
> {
    find_group_hash_from(m, personalization, 0)
}

/// One step of the search: the point for this counter where there is one,
/// else what the search finds from the next counter on.
proof fn lemma_find_step(m: Seq<u8>, personalization: Seq<u8>, counter: u8)
    ensures
        find_group_hash_from(m, personalization, counter as nat) == (match group_hash_model(
            m.push(counter),
            personalization,
        ) {
            Some(p) => Some(p),
            None => if counter == 255 {
                None
            } else {
                find_group_hash_from(m, personalization, (counter + 1) as nat)
            },
        }),
{
    assert((counter as nat) as u8 == counter);
    if counter == 255 {
        assert(find_group_hash_from(m, personalization, 256) is None);
    }
}

/// A point of the prime-order subgroup for a tag, or none: the point is on
/// the curve and is not the neutral element.
pub fn group_hash(tag: &[u8], personalization: &[u8; 8]) -> (r: Option<Point>)
    requires
        tag@.len() + 64 <= usize::MAX,
    ensures
        model_of(r) == group_hash_model(tag@, personalization@),
        r matches Some(p) ==> on_curve(p@) && !is_identity(p@),
{
    let params: [u32; 8] = [
        0x0101_0020,
        0,
        0,
        0,
        0,
        0,
        half_word_from_le(personalization.as_slice(), 0),
        half_word_from_le(personalization.as_slice(), 4),
    ];
    let mut data: Vec<u8> = Vec::new();
    append_bytes(&mut data, GH_FIRST_BLOCK.as_slice());
    append_bytes(&mut data, tag);
    proof {
        assert(params@ =~= group_hash_params(personalization@));
        assert(data@ =~= GH_FIRST_BLOCK@ + tag@);
    }
    let h = blake2s_hash(&params, data.as_slice());
    match read_point(h.as_slice()) {
        Some(p) => {
            let cleared = mul_by_cofactor(&p);
            proof {
                lemma_cofactor_on_curve(p@);
            }
            if !cleared.is_zero() {
                Some(cleared)
            } else {
                None
            }
        },
        None => None,
    }
}

/// The first point that `m` followed by a counter byte hashes to, the
/// counter running from 0 to 255; none where no counter gives a point.
pub fn find_group_hash(m: &[u8], personalization: &[u8; 8]) -> (r: Option<Point>)
    requires
        m@.len() + 65 <= usize::MAX,
    ensures
        model_of(r) == find_group_hash_model(m@, personalization@),
        r matches Some(p) ==> on_curve(p@) && !is_identity(p@),
{
    let mut tag: Vec<u8> = Vec::new();
    append_bytes(&mut tag, m);
    let i: usize = tag.len();
    tag.push(0u8);
    let mut counter: u8 = 0;
    loop
        invariant
            i == m@.len(),
            m@.len() + 65 <= usize::MAX,
            tag@ == m@.push(counter),
            find_group_hash_model(m@, personalization@) == find_group_hash_from(
                m@,
                personalization@,
                counter as nat,
            ),
        decreases 255 - counter,
    {
        proof {
            lemma_find_step(m@, personalization@, counter);
        }
        match group_hash(tag.as_slice(), personalization) {
            Some(p) => {
                return Some(p);
            },
            None => {},
        }
        if counter == 255 {
            return None;
        }
        counter = counter + 1;
        tag.set(i, counter);
        proof {
            assert(tag@ =~= m@.push(counter));
        }
    }
}

/// The search gives the same point for the same inputs: two results
/// that meet its contract for one `m` and one personalization are equal.
pub proof fn lemma_find_group_hash_deterministic(
    first: Option<Point>,
    second: Option<Point>,
    m: Seq<u8>,
    personalization: Seq<u8>,
)
    requires
        model_of(first) == find_group_hash_model(m, personalization),
        model_of(second) == find_group_hash_model(m, personalization),
    ensures
        first == second,
{
    if let Some(p) = first {
        p.lemma_view_injective(second->0);
    }
}

} // verus!
