use redjubjub::field::{BASE_MODULUS_LIMBS, SCALAR_MODULUS_LIMBS};
use redjubjub::{Fq, Fr};

#[test]
fn base_from_limbs_takes_what_is_below_the_order() {
    let mut below = BASE_MODULUS_LIMBS;
    below[0] -= 1;
    assert_eq!(Fq::from_limbs(below).unwrap().to_limbs(), below);
    assert_eq!(Fq::from_limbs([0, 0, 0, 0]), Some(Fq::zero()));
    assert_eq!(Fq::from_limbs([1, 0, 0, 0]), Some(Fq::one()));
}

#[test]
fn base_from_limbs_refuses_the_order_and_above() {
    assert_eq!(Fq::from_limbs(BASE_MODULUS_LIMBS), None);
    let mut above = BASE_MODULUS_LIMBS;
    above[0] += 1;
    assert_eq!(Fq::from_limbs(above), None);
    assert_eq!(Fq::from_limbs([0, 0, 0, 0x73eda753299d7d49]), None);
    assert_eq!(Fq::from_limbs([u64::MAX; 4]), None);
}

#[test]
fn scalar_from_limbs_takes_what_is_below_the_order() {
    let mut below = SCALAR_MODULUS_LIMBS;
    below[0] -= 1;
    assert_eq!(Fr::from_limbs(below).unwrap().to_limbs(), below);
    assert_eq!(Fr::from_limbs(SCALAR_MODULUS_LIMBS), None);
    assert_eq!(Fr::from_limbs([0, 0, 0, 0x0e7db4ea6533afaa]), None);
}

#[test]
fn limbs_order_goes_by_the_highest_limb_that_differs() {
    // Lower limbs above those of the order, a higher limb below.
    assert!(Fq::from_limbs([u64::MAX, u64::MAX, u64::MAX, 0x73eda753299d7d47]).is_some());
    assert!(Fq::from_limbs([u64::MAX, u64::MAX, 0x3339d80809a1d804, 0x73eda753299d7d48]).is_some());
    assert!(Fq::from_limbs([u64::MAX, 0x53bda402fffe5bfd, 0x3339d80809a1d805, 0x73eda753299d7d48]).is_some());
    assert!(Fq::from_limbs([0, 0x53bda402fffe5bff, 0x3339d80809a1d805, 0x73eda753299d7d48]).is_none());
}

#[test]
fn base_element_predicates() {
    assert!(Fq::zero().is_zero());
    assert!(!Fq::one().is_zero());
    assert!(!Fq::from_limbs([0, 1, 0, 0]).unwrap().is_zero());
    assert!(Fq::one().is_odd());
    assert!(!Fq::zero().is_odd());
    assert!(!Fq::from_limbs([2, 1, 1, 1]).unwrap().is_odd());
    assert!(Fq::from_limbs([3, 0, 0, 1]).unwrap().is_odd());
    assert!(Fq::one().same(&Fq::from_limbs([1, 0, 0, 0]).unwrap()));
    assert!(!Fq::one().same(&Fq::from_limbs([1, 0, 0, 1]).unwrap()));
}

#[test]
fn to_bytes_is_little_endian() {
    let e = Fr::from_limbs([
        0x0807060504030201,
        0x100f0e0d0c0b0a09,
        0x1817161514131211,
        0x0e1f1e1d1c1b1a19,
    ])
    .unwrap();
    let mut expected = [0u8; 32];
    for i in 0..32 {
        expected[i] = i as u8 + 1;
    }
    expected[31] = 0x0e;
    assert_eq!(e.to_bytes(), expected);
    assert_eq!(Fr::from_bytes(&expected), Some(e));

    let q = Fq::from_limbs([0x1122334455667788, 0, 0, 0x7000000000000001]).unwrap();
    let bytes = q.to_bytes();
    assert_eq!(&bytes[..8], &[0x88, 0x77, 0x66, 0x55, 0x44, 0x33, 0x22, 0x11]);
    assert_eq!(&bytes[8..24], &[0u8; 16]);
    assert_eq!(&bytes[24..], &[0x01, 0, 0, 0, 0, 0, 0, 0x70]);
}

#[test]
fn scalar_from_bytes_wants_32_bytes_of_a_residue() {
    assert_eq!(Fr::from_bytes(&[]), None);
    assert_eq!(Fr::from_bytes(&[1u8; 31]), None);
    assert_eq!(Fr::from_bytes(&[0u8; 32]), Some(Fr::zero()));
    // Only the first 32 bytes count.
    let mut long = [0u8; 40];
    long[0] = 1;
    long[35] = 9;
    assert_eq!(Fr::from_bytes(&long), Some(Fr::one()));
    // The order itself, and all ones, are no residues.
    let mut order = [0u8; 32];
    for i in 0..4 {
        order[8 * i..8 * i + 8].copy_from_slice(&SCALAR_MODULUS_LIMBS[i].to_le_bytes());
    }
    assert_eq!(Fr::from_bytes(&order), None);
    assert_eq!(Fr::from_bytes(&[0xffu8; 32]), None);
    order[0] -= 1;
    assert!(Fr::from_bytes(&order).is_some());
}
