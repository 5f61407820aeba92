use gumbel_estimation::{hash_value, register_count, unit_float_bits, GumbelError};

#[test]
fn hash_value_splits_low_word() {
    let (index, rest) = hash_value(0xDEAD_BEEF_1234_5678, 4);
    assert_eq!(index, 0x1);
    assert_eq!(rest, 0x2345_6780);

    let (index, rest) = hash_value(0xFFFF_FFFF, 16);
    assert_eq!(index, 0xFFFF);
    assert_eq!(rest, 0xFFFF_0000);

    let (index, rest) = hash_value(0x8000_0001, 1);
    assert_eq!(index, 1);
    assert_eq!(rest, 2);
}

#[test]
fn hash_value_index_in_range_and_lossless() {
    let hashes = [0u64, 1, 0xFFFF_FFFF_FFFF_FFFF, 0x0123_4567_89AB_CDEF, 0xF0F0_F0F0];
    for &h in hashes.iter() {
        for p in 1u8..32 {
            let (index, rest) = hash_value(h, p);
            assert!((index as u64) < (1u64 << p));
            let low = h as u32 as u64;
            let rebuilt = ((index as u64) << (32 - p)) + ((rest as u64) >> p);
            assert_eq!(rebuilt, low);
        }
    }
}

#[test]
fn register_count_accepts_4_to_16() {
    assert_eq!(register_count(4), Ok(16));
    assert_eq!(register_count(8), Ok(256));
    assert_eq!(register_count(16), Ok(65536));
    assert_eq!(register_count(0), Err(GumbelError::InvalidPrecision));
    assert_eq!(register_count(3), Err(GumbelError::InvalidPrecision));
    assert_eq!(register_count(17), Err(GumbelError::InvalidPrecision));
    assert_eq!(register_count(255), Err(GumbelError::InvalidPrecision));
}

#[test]
fn unit_float_bits_in_one_to_two() {
    assert_eq!(unit_float_bits(0), 0x3F80_0000);
    assert_eq!(unit_float_bits(0xFFFF_FFFF), 0x3FFF_FFFF);
    assert_eq!(unit_float_bits(0x8000_0000), 0x3FC0_0000);
    assert_eq!(unit_float_bits(0x1FF), 0x3F80_0000);
    for &b in [0u32, 1, 0x200, 0x8000_0000, 0xFFFF_FFFF, 0x1234_5678].iter() {
        let x = f32::from_bits(unit_float_bits(b));
        assert!(x >= 1.0 && x < 2.0);
    }
    assert_eq!(f32::from_bits(unit_float_bits(0x8000_0000)) - 1.0, 0.5);
}
