//! The fixed base points of the protocol.

use vstd::prelude::*;
use crate::constants::{
    NULLIFIER_POSITION_IN_TREE_GENERATOR_PERSONALIZATION,
    PEDERSEN_HASH_GENERATORS_PERSONALIZATION,
    PROOF_GENERATION_KEY_BASE_GENERATOR_PERSONALIZATION,
    SPENDING_KEY_GENERATOR_PERSONALIZATION,
    VALUE_COMMITMENT_GENERATOR_PERSONALIZATION,
};
use crate::group_hash::{find_group_hash, find_group_hash_model};
use crate::point::{is_identity, model_of, on_curve, Extended, Point};

verus! {

/// Fixed generators of the Jubjub curve of unknown
/// exponent.
#[derive(Copy, Clone, Debug, PartialEq, Eq)]
pub enum FixedGenerators {
    /// The prover will demonstrate knowledge of discrete log
    /// with respect to this base when they are constructing
    /// a proof, in order to authorize proof construction.
    ProofGenerationKey,
    /// The note commitment is randomized over this generator.
    NoteCommitmentRandomness,
    /// The node commitment is randomized again by the position
    /// in order to supply the nullifier computation with a
    /// unique input w.r.t. the note being spent, to prevent
    /// Faerie gold attacks.
    NullifierPosition,
    /// The value commitment is used to check balance between
    /// inputs and outputs. The value is placed over this
    /// generator.
    ValueCommitmentValue,
    /// The value commitment is randomized over this generator,
    /// for privacy.
    ValueCommitmentRandomness,
    /// The spender proves discrete log with respect to this
    /// base at spend time.
    SpendingKeyGenerator,
}

impl FixedGenerators {
    /// The tag that the generator is hashed from: empty, `r` or `v`.
    pub open spec fn tag(self) -> Seq<u8> {
        match self {
            FixedGenerators::ProofGenerationKey => seq![],
            FixedGenerators::NoteCommitmentRandomness => seq![0x72u8],
            FixedGenerators::NullifierPosition => seq![],
            FixedGenerators::ValueCommitmentValue => seq![0x76u8],
            FixedGenerators::ValueCommitmentRandomness => seq![0x72u8],
            FixedGenerators::SpendingKeyGenerator => seq![],
        }
    }

    /// The personalization that the generator is hashed under.
    pub open spec fn personalization(self) -> Seq<u8> {
        match self {
            FixedGenerators::ProofGenerationKey => {
                PROOF_GENERATION_KEY_BASE_GENERATOR_PERSONALIZATION@
            },
            FixedGenerators::NoteCommitmentRandomness => PEDERSEN_HASH_GENERATORS_PERSONALIZATION@,
            FixedGenerators::NullifierPosition => {
                NULLIFIER_POSITION_IN_TREE_GENERATOR_PERSONALIZATION@
            },
            FixedGenerators::ValueCommitmentValue => VALUE_COMMITMENT_GENERATOR_PERSONALIZATION@,
            FixedGenerators::ValueCommitmentRandomness => {
                VALUE_COMMITMENT_GENERATOR_PERSONALIZATION@
            },
            FixedGenerators::SpendingKeyGenerator => SPENDING_KEY_GENERATOR_PERSONALIZATION@,
        }
    }

    /// The generator: the first point that its tag hashes to under its
    /// personalization.
    pub open spec fn point_model(self) -> Option<Extended> {
        find_group_hash_model(self.tag(), self.personalization())
    }

    /// The generator, computed anew at each call; none where the search
    /// for it finds no point.
    pub fn point(&self) -> (r: Option<Point>)
        ensures
            model_of(r) == self.point_model(),
            r matches Some(p) ==> on_curve(p@) && !is_identity(p@),
    {
        let empty: [u8; 0] = [];
        let letter_r: [u8; 1] = [0x72];
        let letter_v: [u8; 1] = [0x76];
        proof {
            assert(empty@ =~= seq![]);
            assert(letter_r@ =~= seq![0x72u8]);
            assert(letter_v@ =~= seq![0x76u8]);
        }
        match *self {
            FixedGenerators::ProofGenerationKey => find_group_hash(
                empty.as_slice(),
                &PROOF_GENERATION_KEY_BASE_GENERATOR_PERSONALIZATION,
            ),
            FixedGenerators::NoteCommitmentRandomness => find_group_hash(
                letter_r.as_slice(),
                &PEDERSEN_HASH_GENERATORS_PERSONALIZATION,
            ),
            FixedGenerators::NullifierPosition => find_group_hash(
                empty.as_slice(),
                &NULLIFIER_POSITION_IN_TREE_GENERATOR_PERSONALIZATION,
            ),
            FixedGenerators::ValueCommitmentValue => find_group_hash(
                letter_v.as_slice(),
                &VALUE_COMMITMENT_GENERATOR_PERSONALIZATION,
            ),
            FixedGenerators::ValueCommitmentRandomness => find_group_hash(
                letter_r.as_slice(),
                &VALUE_COMMITMENT_GENERATOR_PERSONALIZATION,
            ),
            FixedGenerators::SpendingKeyGenerator => find_group_hash(
                empty.as_slice(),
                &SPENDING_KEY_GENERATOR_PERSONALIZATION,
            ),
        }
    }
}

} // verus!
