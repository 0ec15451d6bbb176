//! The byte strings that separate the uses of the hash functions.

use vstd::prelude::*;

verus! {

/// The first 64 bytes of the input of every group hash: the hexadecimal
/// digits of a string that nobody chose for its properties.
pub const GH_FIRST_BLOCK: [u8; 64] = [
    0x30, 0x39, 0x36, 0x62, 0x33, 0x36, 0x61, 0x35,
    0x38, 0x30, 0x34, 0x62, 0x66, 0x61, 0x63, 0x65,
    0x66, 0x31, 0x36, 0x39, 0x31, 0x65, 0x31, 0x37,
    0x33, 0x63, 0x33, 0x36, 0x36, 0x61, 0x34, 0x37,
    0x66, 0x66, 0x35, 0x62, 0x61, 0x38, 0x34, 0x61,
    0x34, 0x34, 0x66, 0x32, 0x36, 0x64, 0x64, 0x64,
    0x37, 0x65, 0x38, 0x64, 0x39, 0x66, 0x37, 0x39,
    0x64, 0x35, 0x62, 0x34, 0x32, 0x64, 0x66, 0x30,
];

/// The personalization of the generators of the Pedersen hash, `Zcash_PH`.
pub const PEDERSEN_HASH_GENERATORS_PERSONALIZATION: [u8; 8] = [
    0x5a, 0x63, 0x61, 0x73, 0x68, 0x5f, 0x50, 0x48,
];

/// The personalization of the spending key base point, `Zcash_G_`.
pub const SPENDING_KEY_GENERATOR_PERSONALIZATION: [u8; 8] = [
    0x5a, 0x63, 0x61, 0x73, 0x68, 0x5f, 0x47, 0x5f,
];

/// The personalization of the proof generation key base point, `Zcash_H_`.
pub const PROOF_GENERATION_KEY_BASE_GENERATOR_PERSONALIZATION: [u8; 8] = [
    0x5a, 0x63, 0x61, 0x73, 0x68, 0x5f, 0x48, 0x5f,
];

/// The personalization of the value commitment generators, `Zcash_cv`.
pub const VALUE_COMMITMENT_GENERATOR_PERSONALIZATION: [u8; 8] = [
    0x5a, 0x63, 0x61, 0x73, 0x68, 0x5f, 0x63, 0x76,
];

/// The personalization of the nullifier position generator, `Zcash_J_`.
pub const NULLIFIER_POSITION_IN_TREE_GENERATOR_PERSONALIZATION: [u8; 8] = [
    0x5a, 0x63, 0x61, 0x73, 0x68, 0x5f, 0x4a, 0x5f,
];

/// The personalization of the hash to a scalar that signatures use,
/// `Zcash_RedJubjubH`.
pub const SIGNATURE_HASH_PERSONALIZATION: [u8; 16] = [
    0x5a, 0x63, 0x61, 0x73, 0x68, 0x5f, 0x52, 0x65,
    0x64, 0x4a, 0x75, 0x62, 0x6a, 0x75, 0x62, 0x48,
];

} // verus!
