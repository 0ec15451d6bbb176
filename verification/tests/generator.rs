use ark_ec::AffineRepr;
use ark_ff::{BigInt, PrimeField};
use redjubjub::group_hash::{find_group_hash, group_hash};
use redjubjub::{write_point, FixedGenerators, Fq, Point};

const ALL: [FixedGenerators; 6] = [
    FixedGenerators::ProofGenerationKey,
    FixedGenerators::NoteCommitmentRandomness,
    FixedGenerators::NullifierPosition,
    FixedGenerators::ValueCommitmentValue,
    FixedGenerators::ValueCommitmentRandomness,
    FixedGenerators::SpendingKeyGenerator,
];

fn bytes_of(s: &str) -> Vec<u8> {
    (0..s.len() / 2).map(|i| u8::from_str_radix(&s[2 * i..2 * i + 2], 16).unwrap()).collect()
}

fn affine_of(p: &Point) -> ark_ed_on_bls12_381::EdwardsAffine {
    let enc = write_point(p).unwrap();
    let q = redjubjub::read_point(&enc).unwrap();
    let f = |e: &Fq| ark_ed_on_bls12_381::Fq::from_bigint(BigInt::new(e.to_limbs())).unwrap();
    ark_ed_on_bls12_381::EdwardsAffine::new_unchecked(f(&q.x), f(&q.y))
}

#[test]
fn the_generators_are_these_points() {
    let expected = [
        "e7e85de0f7f97a46d249a1f5ea51df50cc48490f8401c9de7a2adf1807d1b6d4",
        "ac776c796563fcd44cc49cfaea8bb796952c266e47779d94574c10ad01754b11",
        "65002bc736faf7a3422effffe8b855e18fba96a0158a9efca584bf40549d36e1",
        "d7c86706f5817aa718cd1cfad03233bcd64a7789fd9422d3b17af6823a7e6ac6",
        "8b6a0b38b9faae3c3b803b47b0f146ad50ab221e6e2afbe6dbde45cba9d381ed",
        "30b5f2aaad325630bcdddbce4d67656d05fd1cc2d037bb5375b6e96d9e01a1d7",
    ];
    for (g, e) in ALL.iter().zip(expected) {
        let p = g.point().unwrap();
        assert_eq!(write_point(&p).unwrap().to_vec(), bytes_of(e));
    }
}

#[test]
fn the_generators_are_hashed_from_their_tags() {
    let inputs: [(&[u8], &[u8; 8], u8); 6] = [
        (b"", b"Zcash_H_", 1),
        (b"r", b"Zcash_PH", 4),
        (b"", b"Zcash_J_", 1),
        (b"v", b"Zcash_cv", 0),
        (b"r", b"Zcash_cv", 0),
        (b"", b"Zcash_G_", 2),
    ];
    for (g, (tag, personalization, counter)) in ALL.iter().zip(inputs) {
        let p = g.point().unwrap();
        let found = find_group_hash(tag, personalization).unwrap();
        assert_eq!((p.x, p.y, p.t, p.z), (found.x, found.y, found.t, found.z));
        // The search stops at the first counter that gives a point.
        for c in 0..counter {
            let mut m = tag.to_vec();
            m.push(c);
            assert!(group_hash(&m, personalization).is_none());
        }
        let mut m = tag.to_vec();
        m.push(counter);
        let direct = group_hash(&m, personalization).unwrap();
        assert_eq!((p.x, p.y, p.t, p.z), (direct.x, direct.y, direct.t, direct.z));
    }
}

#[test]
fn the_generators_are_computed_alike_each_time() {
    for g in ALL {
        let (a, b) = (g.point().unwrap(), g.point().unwrap());
        assert_eq!((a.x, a.y, a.t, a.z), (b.x, b.y, b.t, b.z));
    }
}

#[test]
fn the_generators_lie_in_the_prime_order_subgroup() {
    for g in ALL {
        let p = g.point().unwrap();
        assert!(!p.is_zero());
        let a = affine_of(&p);
        assert!(a.is_on_curve());
        assert!(a.is_in_correct_subgroup_assuming_on_curve());
        assert!(!a.is_zero());
    }
}

#[test]
fn the_generators_differ() {
    for (i, g) in ALL.iter().enumerate() {
        for h in &ALL[i + 1..] {
            assert!(g.point().unwrap() != h.point().unwrap());
        }
    }
}

#[test]
fn group_hash_points_are_on_the_curve_and_not_neutral() {
    let mut some = 0;
    for i in 0u8..24 {
        if let Some(p) = group_hash(&[b'a', b'b', b'c', i], b"01234567") {
            some += 1;
            assert!(!p.is_zero());
            let a = affine_of(&p);
            assert!(a.is_on_curve());
            assert!(a.is_in_correct_subgroup_assuming_on_curve());
        }
    }
    assert!(some > 0);
    assert!(group_hash(b"abc\x00", b"01234567").is_some());
    assert!(group_hash(b"abc\x02", b"01234567").is_none());
    assert!(group_hash(b"abc\x04", b"01234567").is_none());
}

#[test]
fn group_hash_separates_by_personalization_and_tag() {
    let a = group_hash(b"abc", b"01234567").unwrap();
    let b = group_hash(b"abc", b"01234568").unwrap_or(Point::zero());
    let c = group_hash(b"abd", b"01234567").unwrap_or(Point::zero());
    assert!(a != b);
    assert!(a != c);
}
