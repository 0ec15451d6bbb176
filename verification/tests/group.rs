use ark_ff::{BigInt, PrimeField};
use redjubjub::group_hash::find_group_hash;
use redjubjub::point::double;
use redjubjub::{Fq, Fr, Point};

fn point_of(limbs: [[u64; 4]; 4]) -> Point {
    Point {
        x: Fq::from_limbs(limbs[0]).unwrap(),
        y: Fq::from_limbs(limbs[1]).unwrap(),
        t: Fq::from_limbs(limbs[2]).unwrap(),
        z: Fq::from_limbs(limbs[3]).unwrap(),
    }
}

fn assert_coordinates(a: &Point, b: &Point) {
    assert_eq!((a.x, a.y, a.t, a.z), (b.x, b.y, b.t, b.z));
}

fn base_g() -> Point {
    find_group_hash(b"", b"Zcash_G_").unwrap()
}

fn base_h() -> Point {
    find_group_hash(b"", b"Zcash_H_").unwrap()
}

fn ark_point(p: &Point) -> ark_ed_on_bls12_381::EdwardsProjective {
    let f = |e: &Fq| ark_ed_on_bls12_381::Fq::from_bigint(BigInt::new(e.to_limbs())).unwrap();
    ark_ed_on_bls12_381::EdwardsProjective::new_unchecked(f(&p.x), f(&p.y), f(&p.t), f(&p.z))
}

fn ark_scalar(k: &Fr) -> ark_ed_on_bls12_381::Fr {
    ark_ed_on_bls12_381::Fr::from_bigint(BigInt::new(k.to_limbs())).unwrap()
}

fn assert_as_ark(ours: &Point, theirs: &ark_ed_on_bls12_381::EdwardsProjective) {
    let o = ark_point(ours);
    assert_eq!((o.x, o.y, o.t, o.z), (theirs.x, theirs.y, theirs.t, theirs.z));
}

#[test]
fn addition_follows_the_formulas() {
    let sum = base_g().add(&base_h());
    let expected = point_of([
        [0x9e48cee58836bb78, 0x40bb3ebb409808f7, 0x8262b1d004441369, 0x6e3c211f1905c68c],
        [0x85fed27ff6f005e5, 0x3a3e4e1beba355c7, 0xcb2dd28bf6c06e11, 0x08ed4a9865f6ab69],
        [0xb5f733c75cb7f2fb, 0x95d802bf47a7d096, 0x1f87f12d890149fa, 0x51c0f661ebd06a41],
        [0xfdf140032ba16d89, 0xacf00acd38fc4b93, 0xa584bf2ff0ba55b1, 0x433e38c026948789],
    ]);
    assert_coordinates(&sum, &expected);
}

#[test]
fn addition_agrees_with_the_curve_library() {
    let (g, h) = (base_g(), base_h());
    assert_as_ark(&g.add(&h), &(ark_point(&g) + ark_point(&h)));
    assert_as_ark(&g.add(&g), &(ark_point(&g) + ark_point(&g)));
    assert_as_ark(&g.add(&Point::zero()), &(ark_point(&g) + ark_point(&Point::zero())));
}

#[test]
fn addition_is_the_group_law() {
    let (g, h) = (base_g(), base_h());
    assert!(g.add(&h) == h.add(&g));
    assert!(g.add(&Point::zero()) == g);
    assert!(Point::zero().add(&g) == g);
    assert!(g.add(&g) == double(&g));
    assert!(g.add(&g.neg()).is_zero());
    assert!(g.add(&h).add(&h.neg()) == g);
}

#[test]
fn negation_negates_x_and_t() {
    let expected = point_of([
        [0x283f198f96272d26, 0x57b1f47bee1fbd4f, 0xab54bbcbaf976f01, 0x6e8e882e38ad2c25],
        [0x588f406278214ed7, 0x2842e78ffb376897, 0x132a5007d80a0465, 0x566178b2505fdd52],
        [0x4a1be31d824a4165, 0x1fce7b7eec99e634, 0x3d4988a949ed2035, 0x6102ccbf68e5a7b2],
        [0xffae096741ceddfe, 0x888f3b37838ba6bd, 0x3b2007c14d652375, 0x0141fafa1f11088a],
    ]);
    assert_coordinates(&base_g().neg(), &expected);
    assert_coordinates(&base_g().neg().neg(), &base_g());
    assert_coordinates(&Point::zero().neg(), &Point::zero());
    assert_as_ark(&base_g().neg(), &(-ark_point(&base_g())));
}

#[test]
fn scalar_multiplication_is_double_and_add() {
    let g = base_g();
    let five = g.mul(&Fr::from_limbs([5, 0, 0, 0]).unwrap());
    let expected = point_of([
        [0x0f5a0ec8c7441329, 0xa0d56ca0586598ad, 0xa61e951d552dc183, 0x6ca71f929b4c2333],
        [0xd878291255ee8307, 0x0e3a55654c41ce6b, 0x62cf81f9ac2e027c, 0x3ae042fd5f95a897],
        [0xe2762e465627e87f, 0x6c55cdefcfa52a41, 0xfb2952c0b6bb5cf3, 0x69578bea9495c7c3],
        [0x29f9e2ea34017520, 0x976cb871c8031060, 0x09b766897e844e7b, 0x34319dfa6028f061],
    ]);
    assert_coordinates(&five, &expected);
    // 5 = 101b: double, add; double; double, add.
    let by_hand = double(&double(&double(&Point::zero()).add(&g))).add(&g);
    assert_coordinates(&five, &by_hand);
    assert!(five == g.add(&g).add(&g).add(&g).add(&g));
}

#[test]
fn scalar_multiplication_by_a_long_scalar() {
    let k = Fr::from_limbs([
        0x0fedcba987654321,
        0x0123456789abcdef,
        0x0fedcba987654321,
        0x0123456789abcdef,
    ])
    .unwrap();
    let expected = point_of([
        [0xf95dfcadce6b07bc, 0x9970fad1c1892c3c, 0x17865433b0d2f9a5, 0x0f2fd3d05cd9db4f],
        [0x777741c5d52d0e20, 0xc6841111385bac34, 0xfa949ee78e54930d, 0x09fb7c237d434338],
        [0x0bd2f946546a2c68, 0xefaacfba1c7ba72c, 0xfbb46a504e2b7ec7, 0x03cf31adb6343f33],
        [0x3ffa6b03497ab09d, 0x8464e3bcc98959af, 0x3d5b37db58ca67c3, 0x16dd8a206e264ec4],
    ]);
    assert_coordinates(&base_g().mul(&k), &expected);
    assert_as_ark(&base_g().mul(&k), &(ark_point(&base_g()) * ark_scalar(&k)));
}

#[test]
fn scalar_multiplication_by_zero_and_one() {
    let g = base_g();
    assert_coordinates(&g.mul(&Fr::zero()), &Point::zero());
    assert!(g.mul(&Fr::one()) == g);
    assert_as_ark(&g.mul(&Fr::one()), &(ark_point(&g) * ark_scalar(&Fr::one())));
}

#[test]
fn multiples_of_the_neutral_element_are_neutral() {
    let scalars = [
        [0, 0, 0, 0],
        [1, 0, 0, 0],
        [2, 0, 0, 0],
        [0xffffffffffffffff, 0, 0, 0],
        [0x0fedcba987654321, 0x0123456789abcdef, 0x0fedcba987654321, 0x0123456789abcdef],
        [0xd0970e5ed6f72cb6, 0xa6682093ccc81082, 0x06673b0101343b00, 0x0e7db4ea6533afa9],
    ];
    for limbs in scalars {
        let k = Fr::from_limbs(limbs).unwrap();
        assert!(Point::zero().mul(&k).is_zero());
        assert!(Point::zero().mul(&k) == Point::zero());
    }
}

#[test]
fn the_generators_have_the_order_of_the_scalar_field() {
    let order_minus_one = Fr::from_limbs([
        0xd0970e5ed6f72cb6,
        0xa6682093ccc81082,
        0x06673b0101343b00,
        0x0e7db4ea6533afa9,
    ])
    .unwrap();
    let g = base_g();
    assert!(g.mul(&order_minus_one) == g.neg());
    assert!(g.mul(&order_minus_one).add(&g).is_zero());
}

#[test]
fn equality_is_of_the_points_not_of_the_coordinates() {
    let g = base_g();
    let two = Fq::from_limbs([2, 0, 0, 0]).unwrap();
    let scaled = g.add(&Point { x: Fq::zero(), y: two, t: Fq::zero(), z: two });
    assert_ne!((scaled.x, scaled.z), (g.x, g.z));
    assert!(scaled == g);
    assert!(g != g.neg());
    assert!(g != base_h());
    assert!(Point::zero() == double(&Point::zero()));
    assert!(Point::zero() != g);
    assert!(g != Point::zero());
}
