//! RedJubjub: Schnorr-style signatures over the Jubjub twisted Edwards curve.
//!
//! A private key is a scalar, a public key the product of a fixed generator
//! with it. A signature is the encoding of a nonce point `R` and a scalar
//! `S = r + H*(Rbar || M) sk`; it verifies where
//! `8 (H*(Rbar || M) vk + R - S G)` is the neutral element.

use vstd::prelude::*;
use rand::Rng;

pub mod bytes;
pub mod closure;
pub mod constants;
pub mod field;
pub mod generator;
pub mod group;
pub mod group_hash;
pub mod modular;
pub mod point;
pub mod util;

pub use crate::field::{Fq, Fr};
pub use crate::generator::FixedGenerators;
pub use crate::point::{mul_by_cofactor, read_point, write_point, Point};
pub use crate::util::h_star;

use crate::bytes::{le_bytes, le_value};
use crate::field::{scalar_add, scalar_modulus, scalar_mul};
use crate::group::{add_model, neg_model, scalar_mul_model};
use crate::point::{
    cofactor_model,
    decode_model,
    encode_model,
    is_identity,
    on_curve,
    Extended,
};
use crate::util::h_star_model;

verus! {

/// A private key: a scalar.
#[derive(Clone, Copy, Debug)]
pub struct PrivateKey {
    pub field: Fr,
}

/// A public key: a point.
#[derive(Clone, Copy, Debug)]
pub struct PublicKey {
    pub point: Point,
}

/// A signature: the encoding of the nonce point and the 32 little-endian
/// bytes of the response scalar.
#[derive(Clone, Copy, Debug, PartialEq, Eq)]
pub struct Signature {
    pub rbar: [u8; 32],
    pub sbar: [u8; 32],
}

/// The two halves of the signature of a message under a private key, for
/// given random bytes `t`: with `r = H*(t || M)` and `R = r G`, the
/// encoding of `R` and the bytes of `r + H*(Rbar || M) sk`. None where the
/// generator is not defined or `R` has no encoding.
pub open spec fn sign_model(sk: nat, msg: Seq<u8>, t: Seq<u8>, generator: FixedGenerators) -> Option<
    (Seq<u8>, Seq<u8>),
> {
    match generator.point_model() {
        None => None,
        Some(base) => {
            let r = h_star_model(t, msg);
            match encode_model(scalar_mul_model(base, r)) {
                None => None,
                Some(rbar) => {
                    let s = (h_star_model(rbar, msg) * sk + r) % scalar_modulus();
                    Some((rbar, le_bytes(s, 32)))
                },
            }
        },
    }
}

/// Whether a signature is valid for a message under a public key: `rbar`
/// encodes a point `R`, `sbar` is a scalar `S` below the order, the
/// generator `G` is defined, and with `c = H*(Rbar || M)` eight times
/// `c vk + R - S G` is the neutral element.
pub open spec fn verify_model(
    vk: Extended,
    msg: Seq<u8>,
    rbar: Seq<u8>,
    sbar: Seq<u8>,
    generator: FixedGenerators,
) -> bool {
    let c = h_star_model(rbar, msg);
    match decode_model(rbar) {
        None => false,
        Some(r) => {
            let s = le_value(sbar);
            if s >= scalar_modulus() {
                false
            } else {
                match generator.point_model() {
                    None => false,
                    Some(base) => is_identity(
                        cofactor_model(
                            add_model(
                                add_model(scalar_mul_model(vk, c), r),
                                neg_model(scalar_mul_model(base, s)),
                            ),
                        ),
                    ),
                }
            }
        },
    }
}

/// The two halves of a signature that may be absent.
pub open spec fn halves_of(sig: Option<Signature>) -> Option<(Seq<u8>, Seq<u8>)> {
    match sig {
        Some(s) => Some((s.rbar@, s.sbar@)),
        None => None,
    }
}

/// `RngCore::fill_bytes` of `rand`: 80 bytes drawn from the generator.
#[verifier::external_body]
fn random_bytes<R: Rng>(rng: &mut R) -> (t: [u8; 80]) {
    let mut t = [0u8; 80];
    rng.fill_bytes(&mut t[..]);
    t
}

impl PrivateKey {
    /// The signature of a message for the random bytes `t`.
    pub fn sign_with_randomness(
        &self,
        msg: &[u8],
        t: &[u8; 80],
        generator: FixedGenerators,
    ) -> (sig: Option<Signature>)
        requires
            msg@.len() + 80 <= usize::MAX,
        ensures
            halves_of(sig) == sign_model(self.field@, msg@, t@, generator),
    {
        // r = H*(T || M)
        let r = h_star(t.as_slice(), msg);
        // R = r . P_G
        let base = match generator.point() {
            Some(base) => base,
            None => {
                return None;
            },
        };
        let r_g = base.mul(&r);
        let rbar = match write_point(&r_g) {
            Some(rbar) => rbar,
            None => {
                return None;
            },
        };
        // S = r + H*(Rbar || M) . sk
        let mut s = h_star(rbar.as_slice(), msg);
        let ghost c = s@;
        s = scalar_mul(&s, &self.field);
        s = scalar_add(&s, &r);
        proof {
            let m = scalar_modulus() as int;
            crate::modular::lemma_remainder_congruent((c * self.field@) as int, m);
            crate::modular::lemma_congruent_add(
                ((c * self.field@) % scalar_modulus()) as int,
                (c * self.field@) as int,
                r@ as int,
                r@ as int,
                m,
            );
        }
        let sbar = s.to_bytes();
        Some(Signature { rbar, sbar })
    }

    /// The signature of a message, with 80 random bytes drawn from `rng`.
    pub fn sign<R: Rng>(&self, msg: &[u8], rng: &mut R, generator: FixedGenerators) -> (sig:
        Option<Signature>)
        requires
            msg@.len() + 80 <= usize::MAX,
        ensures
            exists|t: Seq<u8>|
                t.len() == 80 && halves_of(sig) == #[trigger] sign_model(
                    self.field@,
                    msg@,
                    t,
                    generator,
                ),
    {
        // T = (l_H + 128) bits of randomness
        // For H*, l_H = 512 bits
        let t = random_bytes(rng);
        let sig = self.sign_with_randomness(msg, &t, generator);
        proof {
            assert(t@.len() == 80);
            assert(halves_of(sig) == sign_model(self.field@, msg@, t@, generator));
        }
        sig
    }
}

impl PublicKey {
    pub fn new(point: Point) -> (r: Self)
        ensures
            r.point == point,
    {
        PublicKey { point }
    }

    /// The public key of a private key: the generator times the scalar.
    /// None where the generator is not defined.
    pub fn from_private(privkey: &PrivateKey, generator: FixedGenerators) -> (r: Option<Self>)
        ensures
            match r {
                Some(key) => generator.point_model() matches Some(base) && key.point@
                    == scalar_mul_model(base, privkey.field@) && on_curve(key.point@),
                None => generator.point_model() is None,
            },
    {
        match generator.point() {
            Some(base) => Some(PublicKey { point: base.mul(&privkey.field) }),
            None => None,
        }
    }

    /// The public key that the first 32 bytes encode.
    pub fn read(bytes: &[u8]) -> (r: Option<Self>)
        ensures
            match r {
                Some(key) => decode_model(bytes@) == Some(key.point@) && on_curve(key.point@),
                None => decode_model(bytes@) is None,
            },
    {
        match read_point(bytes) {
            Some(point) => Some(PublicKey { point }),
            None => None,
        }
    }

    /// Whether `sig` is a valid signature of `msg` under this key.
    pub fn verify(&self, msg: &[u8], sig: &Signature, generator: FixedGenerators) -> (b: bool)
        requires
            msg@.len() + 32 <= usize::MAX,
        ensures
            b == verify_model(self.point@, msg@, sig.rbar@, sig.sbar@, generator),
    {
        // c = H*(Rbar || M)
        let c = h_star(sig.rbar.as_slice(), msg);
        // Signature checks:
        // R != invalid
        let r = match read_point(sig.rbar.as_slice()) {
            Some(r) => r,
            None => {
                return false;
            },
        };
        // S < order(G)
        let s = match Fr::from_bytes(sig.sbar.as_slice()) {
            Some(s) => s,
            None => {
                proof {
                    assert(sig.sbar@.take(32) =~= sig.sbar@);
                }
                return false;
            },
        };
        proof {
            assert(sig.sbar@.take(32) =~= sig.sbar@);
        }
        let base = match generator.point() {
            Some(base) => base,
            None => {
                return false;
            },
        };
        // 0 = h_G(-S . P_G + R + c . vk)
        let p = self.point.mul(&c).add(&r).add(&base.mul(&s).neg());
        mul_by_cofactor(&p).is_zero()
    }
}

impl Signature {
    /// The signature that the first 64 bytes hold: `rbar`, then `sbar`.
    pub fn read(bytes: &[u8]) -> (r: Option<Signature>)
        ensures
            match r {
                Some(sig) => bytes@.len() >= 64 && sig.rbar@ == bytes@.subrange(0, 32) && sig.sbar@
                    == bytes@.subrange(32, 64),
                None => bytes@.len() < 64,
            },
    {
        if bytes.len() < 64 {
            return None;
        }
        let mut rbar = [0u8; 32];
        let mut sbar = [0u8; 32];
        let mut i: usize = 0;
        while i < 32
            invariant
                i <= 32,
                bytes@.len() >= 64,
                forall|j: int| 0 <= j < i ==> rbar@[j] == bytes@[j] && sbar@[j] == bytes@[32 + j],
            decreases 32 - i,
        {
            rbar[i] = bytes[i];
            sbar[i] = bytes[32 + i];
            i += 1;
        }
        proof {
            assert(rbar@ =~= bytes@.subrange(0, 32));
            assert(sbar@ =~= bytes@.subrange(32, 64));
        }
        Some(Signature { rbar, sbar })
    }

    /// The 64 bytes of the signature: `rbar`, then `sbar`.
    pub fn to_bytes(&self) -> (out: [u8; 64])
        ensures
            out@ == self.rbar@ + self.sbar@,
    {
        let mut out = [0u8; 64];
        let mut i: usize = 0;
        while i < 32
            invariant
                i <= 32,
                forall|j: int| 0 <= j < i ==> out@[j] == self.rbar@[j] && out@[32 + j] == self.sbar@[j],
            decreases 32 - i,
        {
            out[i] = self.rbar[i];
            out[32 + i] = self.sbar[i];
            i += 1;
        }
        proof {
            assert(out@ =~= self.rbar@ + self.sbar@);
        }
        out
    }
}

} // verus!
