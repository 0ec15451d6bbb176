use ark_ff::PrimeField;
use rand::rngs::mock::StepRng;
use rand::Rng;
use redjubjub::{write_point, FixedGenerators, Fr, PrivateKey, PublicKey, Signature};

fn unhex(s: &str) -> Vec<u8> {
    (0..s.len() / 2).map(|i| u8::from_str_radix(&s[2 * i..2 * i + 2], 16).unwrap()).collect()
}

fn test_key() -> PrivateKey {
    PrivateKey { field: Fr::from_limbs([0xab54a98ceb1f0ad2, 0, 0, 0]).unwrap() }
}

fn counting_bytes() -> [u8; 80] {
    let mut t = [0u8; 80];
    for i in 0..80 {
        t[i] = i as u8;
    }
    t
}

#[test]
fn sign_and_verify() {
    let mut rng = StepRng::new(0, 1);
    let generator = FixedGenerators::SpendingKeyGenerator;
    let field: ark_ed_on_bls12_381::Fr = rng.gen();
    let privkey = PrivateKey { field: Fr::from_limbs(field.into_bigint().0).unwrap() };

    let msg1 = b"Foo bar";
    let sig1 = privkey.sign(msg1, &mut rng, generator).unwrap();

    let expected = Signature {
        rbar: *b"\
            \xfc\x2a\xea\x10\xcf\xd3\x3d\x75\xbb\x09\x05\xf4\xa7\x08\xb6\x82\
            \xa6\xa0\x33\x80\x18\x53\x0f\x95\x84\xad\x59\x66\x30\x41\x81\x0a\
        ",
        sbar: *b"\
            \xd1\xed\xf2\xf6\xd3\x22\x7b\x49\x83\xe5\x77\x94\x92\x79\x33\x34\
            \x84\xa9\x3a\x35\x58\x7f\xbd\x78\xa5\xe1\x95\x41\x75\x55\x67\x0e\
        ",
    };

    assert_eq!(expected, sig1);
    let pubkey = PublicKey::from_private(&privkey, generator).unwrap();
    assert!(pubkey.verify(msg1, &sig1, generator));
}

#[test]
fn sign_draws_80_bytes_and_signs_with_them() {
    let mut rng = StepRng::new(4, 1);
    let mut t = [0u8; 80];
    for i in 0..10 {
        t[8 * i..8 * i + 8].copy_from_slice(&(4 + i as u64).to_le_bytes());
    }
    let key = test_key();
    let g = FixedGenerators::SpendingKeyGenerator;
    assert_eq!(key.sign(b"Foo bar", &mut rng, g), key.sign_with_randomness(b"Foo bar", &t, g));
    // The next signature draws the next 80 bytes.
    assert_eq!(rng.gen::<u64>(), 14);
}

#[test]
fn signatures_for_given_random_bytes() {
    let key = test_key();
    let t = counting_bytes();
    let cases = [
        (
            FixedGenerators::ProofGenerationKey,
            "3034f6412ab9e51db20fe982932ac38d327eb8b8358a3bdca6280c7a526d7ee1\
             e7c3f14cca8c7868dee42336e741d37c91137cf81d3fa5fc2355a72dcd13df09",
            "18fb239acf97f7fbf91ba4f169f6e9094a8493661c623b9b058e18d2f57a2ac2",
        ),
        (
            FixedGenerators::NoteCommitmentRandomness,
            "e4a3f8df4ea6dd7ed86e67e896872e7297257bb17437ab8f2df8bdfcbca48f1d\
             97d0a35c396dec296ba622091a4ed6ec5846f7b44ec471fbf474928338642300",
            "e941ff6355d5fba69108f8f01c7b3b88a2d89fe1aad7f4544b29b562f8995dce",
        ),
    ];
    for (g, sig_hex, vk_hex) in cases {
        let sig = key.sign_with_randomness(b"message", &t, g).unwrap();
        assert_eq!(sig.to_bytes().to_vec(), unhex(sig_hex));
        let vk = PublicKey::from_private(&key, g).unwrap();
        assert_eq!(write_point(&vk.point).unwrap().to_vec(), unhex(vk_hex));
        assert!(vk.verify(b"message", &sig, g));
        let read = PublicKey::read(&unhex(vk_hex)).unwrap();
        assert!(read.point == vk.point);
        assert!(read.verify(b"message", &sig, g));
    }
}

#[test]
fn every_generator_signs_and_verifies() {
    let key = test_key();
    let t = counting_bytes();
    let all = [
        FixedGenerators::ProofGenerationKey,
        FixedGenerators::NoteCommitmentRandomness,
        FixedGenerators::NullifierPosition,
        FixedGenerators::ValueCommitmentValue,
        FixedGenerators::ValueCommitmentRandomness,
        FixedGenerators::SpendingKeyGenerator,
    ];
    for (i, g) in all.iter().enumerate() {
        let vk = PublicKey::from_private(&key, *g).unwrap();
        for msg in [&b""[..], &b"m"[..], &[0xffu8; 200][..]] {
            let sig = key.sign_with_randomness(msg, &t, *g).unwrap();
            assert!(vk.verify(msg, &sig, *g));
            // Another generator, with its own key, refuses it.
            let other = all[(i + 1) % 6];
            assert!(!vk.verify(msg, &sig, other));
            assert!(!PublicKey::from_private(&key, other).unwrap().verify(msg, &sig, other));
        }
    }
}

#[test]
fn keys_zero_and_one_sign_and_verify() {
    let g = FixedGenerators::SpendingKeyGenerator;
    let t = counting_bytes();
    for field in [Fr::zero(), Fr::one()] {
        let key = PrivateKey { field };
        let sig = key.sign_with_randomness(b"abc", &t, g).unwrap();
        let vk = PublicKey::from_private(&key, g).unwrap();
        assert!(vk.verify(b"abc", &sig, g));
    }
    let one = PublicKey::from_private(&PrivateKey { field: Fr::one() }, g).unwrap();
    assert!(one.point == g.point().unwrap());
    assert!(PublicKey::from_private(&PrivateKey { field: Fr::zero() }, g).unwrap().point.is_zero());
}

#[test]
fn a_flipped_bit_of_the_signature_is_refused() {
    let key = test_key();
    let g = FixedGenerators::SpendingKeyGenerator;
    let sig = key.sign_with_randomness(b"Foo bar", &counting_bytes(), g).unwrap();
    let vk = PublicKey::from_private(&key, g).unwrap();
    assert!(vk.verify(b"Foo bar", &sig, g));
    for byte in 0..32 {
        for bit in 0..8 {
            let mut bad = sig;
            bad.rbar[byte] ^= 1 << bit;
            assert!(!vk.verify(b"Foo bar", &bad, g));
            let mut bad = sig;
            bad.sbar[byte] ^= 1 << bit;
            assert!(!vk.verify(b"Foo bar", &bad, g));
        }
    }
}

#[test]
fn a_flipped_bit_of_the_message_is_refused() {
    let key = test_key();
    let g = FixedGenerators::ValueCommitmentValue;
    let msg = *b"Foo bar";
    let sig = key.sign_with_randomness(&msg, &counting_bytes(), g).unwrap();
    let vk = PublicKey::from_private(&key, g).unwrap();
    for byte in 0..msg.len() {
        for bit in 0..8 {
            let mut bad = msg;
            bad[byte] ^= 1 << bit;
            assert!(!vk.verify(&bad, &sig, g));
        }
    }
    assert!(!vk.verify(b"Foo ba", &sig, g));
    assert!(!vk.verify(b"Foo bar\x00", &sig, g));
    assert!(vk.verify(&msg, &sig, g));
}

#[test]
fn another_key_refuses_the_signature() {
    let g = FixedGenerators::SpendingKeyGenerator;
    let sig = test_key().sign_with_randomness(b"Foo bar", &counting_bytes(), g).unwrap();
    let other = PrivateKey { field: Fr::from_limbs([0xab54a98ceb1f0ad3, 0, 0, 0]).unwrap() };
    assert!(!PublicKey::from_private(&other, g).unwrap().verify(b"Foo bar", &sig, g));
}

#[test]
fn a_scalar_that_is_no_residue_is_refused() {
    let key = test_key();
    let g = FixedGenerators::SpendingKeyGenerator;
    let sig = key.sign_with_randomness(b"Foo bar", &counting_bytes(), g).unwrap();
    let vk = PublicKey::from_private(&key, g).unwrap();
    // sbar plus the order of the scalar field stands for the same scalar.
    let order = unhex("b72cf7d65e0e97d08210c8cc932068a6003b3401013b6706a9af33654eb47d0e");
    let mut bad = sig;
    let mut carry = 0u16;
    for i in 0..32 {
        let sum = bad.sbar[i] as u16 + order[i] as u16 + carry;
        bad.sbar[i] = sum as u8;
        carry = sum >> 8;
    }
    assert_eq!(carry, 0);
    assert!(!vk.verify(b"Foo bar", &bad, g));
    assert!(vk.verify(b"Foo bar", &sig, g));
}

#[test]
fn a_nonce_point_that_does_not_decode_is_refused() {
    let key = test_key();
    let g = FixedGenerators::SpendingKeyGenerator;
    let sig = key.sign_with_randomness(b"Foo bar", &counting_bytes(), g).unwrap();
    let vk = PublicKey::from_private(&key, g).unwrap();
    let mut neutral = [0u8; 32];
    neutral[0] = 1;
    let mut off_curve = [0u8; 32];
    off_curve[0] = 2;
    for rbar in [neutral, off_curve, [0u8; 32], [0xffu8; 32]] {
        assert!(!vk.verify(b"Foo bar", &Signature { rbar, sbar: sig.sbar }, g));
    }
}

#[test]
fn signature_read_splits_64_bytes() {
    let mut bytes = [0u8; 70];
    for i in 0..70 {
        bytes[i] = i as u8;
    }
    let sig = Signature::read(&bytes).unwrap();
    assert_eq!(sig.rbar.to_vec(), (0u8..32).collect::<Vec<u8>>());
    assert_eq!(sig.sbar.to_vec(), (32u8..64).collect::<Vec<u8>>());
    assert_eq!(sig.to_bytes().to_vec(), bytes[..64].to_vec());
    assert_eq!(Signature::read(&bytes[..64]), Some(sig));
    assert_eq!(Signature::read(&bytes[..63]), None);
    assert_eq!(Signature::read(&[]), None);
}

#[test]
fn public_key_read_wants_a_point() {
    assert!(PublicKey::read(&[0u8; 32]).is_none());
    assert!(PublicKey::read(&[3u8; 31]).is_none());
    let enc = unhex("30b5f2aaad325630bcdddbce4d67656d05fd1cc2d037bb5375b6e96d9e01a1d7");
    let key = PublicKey::read(&enc).unwrap();
    assert!(key.point == FixedGenerators::SpendingKeyGenerator.point().unwrap());
    assert!(PublicKey::new(key.point).point == key.point);
}
