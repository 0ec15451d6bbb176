use ark_ff::{BigInt, PrimeField};
use redjubjub::util::{h_star, hash_to_scalar};
use redjubjub::Fr;

/// The scalar whose Montgomery representation the limbs hold.
fn fr_from_montgomery(limbs: [u64; 4]) -> Fr {
    let e = ark_ed_on_bls12_381::Fr::new_unchecked(BigInt::new(limbs));
    Fr::from_limbs(e.into_bigint().0).unwrap()
}

#[test]
fn test_h_start_empty() {
    let a = h_star(b"", b"");
    let expected = fr_from_montgomery([
        0x19fe572ca31d6630,
        0xd10a239b34282920,
        0x5205644c4cd0968f,
        0x06804dcb18325f7c,
    ]);

    assert_eq!(a, expected);
}

#[test]
fn test_h_start_with_params() {
    let a = h_star(b"ab", b"cde");
    let expected = fr_from_montgomery([
        0x39caf2bba0b7ad6c,
        0x2176ca4852d69ccf,
        0xafb704c4c93bd0db,
        0x0a322f2d738215b2,
    ]);

    assert_eq!(a, expected);
}

#[test]
fn h_star_is_hash_to_scalar_under_its_persona() {
    assert_eq!(h_star(b"ab", b"cde"), hash_to_scalar(b"Zcash_RedJubjubH", b"ab", b"cde"));
    assert_eq!(h_star(b"ab", b"cde"), hash_to_scalar(b"Zcash_RedJubjubH", b"abc", b"de"));
    assert_ne!(h_star(b"ab", b"cde"), hash_to_scalar(b"Zcash_RedJubjub", b"ab", b"cde"));
}

#[test]
fn hash_to_scalar_pads_a_short_persona_with_zeros() {
    let short = hash_to_scalar(b"abc", b"x", b"yz");
    assert_eq!(
        short.to_limbs(),
        [0x61838b7789b6c1a8, 0xc6d18d0231c2b20a, 0x2cfad52f4f85bd8a, 0x095fa7c2488fd5ff]
    );
    assert_eq!(short, hash_to_scalar(b"abc\x00\x00", b"xy", b"z"));
    let empty = hash_to_scalar(b"", b"", b"");
    assert_eq!(
        empty.to_limbs(),
        [0xd1ae89639d337dbc, 0xb90ccf6cd5d42302, 0x2f4478c44bbc6d00, 0x0784ef89f7cc8681]
    );
    assert_eq!(empty, hash_to_scalar(&[0u8; 16], b"", b""));
}

#[test]
fn h_star_reduces_the_digest() {
    assert_eq!(
        h_star(b"ab", b"cde").to_limbs(),
        [0x1439c38ef29fc249, 0x37d5b12ceffd3be6, 0x82b722573661de0d, 0x0953c664c05bc8ab]
    );
}

#[test]
fn h_star_gives_the_same_scalar_each_time() {
    assert_eq!(h_star(b"", b""), h_star(b"", b""));
    assert_eq!(h_star(b"ab", b"cde"), h_star(b"ab", b"cde"));
    assert_ne!(h_star(b"ab", b"cde"), h_star(b"ab", b"cdf"));
}
