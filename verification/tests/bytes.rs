use redjubjub::bytes::{
    append_bytes, bits_from_top, half_word_from_le, limbs_from_le, limbs_to_le, push_word_le,
    word_from_le,
};

#[test]
fn words_are_read_least_significant_byte_first() {
    let bytes = [0x01, 0x02, 0x03, 0x04, 0x05, 0x06, 0x07, 0x08, 0x09, 0x0a];
    assert_eq!(word_from_le(&bytes, 0), 0x0807060504030201);
    assert_eq!(word_from_le(&bytes, 2), 0x0a09080706050403);
    assert_eq!(half_word_from_le(&bytes, 0), 0x04030201);
    assert_eq!(half_word_from_le(&bytes, 6), 0x0a090807);
    assert_eq!(word_from_le(&[0xff; 8], 0), u64::MAX);
    assert_eq!(half_word_from_le(&[0xff; 4], 0), u32::MAX);
}

#[test]
fn words_are_written_least_significant_byte_first() {
    let mut out = vec![0xaa];
    push_word_le(&mut out, 0x0807060504030201);
    assert_eq!(out, vec![0xaa, 1, 2, 3, 4, 5, 6, 7, 8]);
    push_word_le(&mut out, u64::MAX);
    assert_eq!(out.len(), 17);
    assert_eq!(&out[9..], &[0xff; 8]);
}

#[test]
fn limbs_and_bytes_convert_both_ways() {
    let mut bytes = [0u8; 32];
    for i in 0..32 {
        bytes[i] = (i as u8) * 7 + 3;
    }
    let limbs = limbs_from_le(&bytes);
    for i in 0..4 {
        let mut w = [0u8; 8];
        w.copy_from_slice(&bytes[8 * i..8 * i + 8]);
        assert_eq!(limbs[i], u64::from_le_bytes(w));
    }
    assert_eq!(limbs_to_le(&limbs), bytes);
    assert_eq!(limbs_to_le(&[1, 0, 0, 0x8000000000000000])[0], 1);
    assert_eq!(limbs_to_le(&[1, 0, 0, 0x8000000000000000])[31], 0x80);
}

#[test]
fn limbs_come_from_the_first_32_bytes() {
    let mut bytes = [0u8; 48];
    bytes[0] = 5;
    bytes[31] = 6;
    bytes[32] = 7;
    assert_eq!(limbs_from_le(&bytes), [5, 0, 0, 0x0600000000000000]);
}

#[test]
fn bits_run_from_the_top_of_the_last_byte() {
    assert_eq!(bits_from_top(&[]), Vec::<bool>::new());
    let bits = bits_from_top(&[0x01, 0x80]);
    let mut expected = vec![false; 16];
    expected[0] = true;
    expected[15] = true;
    assert_eq!(bits, expected);
    let bits = bits_from_top(&[0xa5]);
    assert_eq!(bits, vec![true, false, true, false, false, true, false, true]);
}

#[test]
fn bytes_are_appended_in_order() {
    let mut out = vec![1u8, 2];
    append_bytes(&mut out, &[3, 4, 5]);
    append_bytes(&mut out, &[]);
    assert_eq!(out, vec![1, 2, 3, 4, 5]);
}
