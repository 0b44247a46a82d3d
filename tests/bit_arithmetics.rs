use des::bit_arithmetics::{
    bit_higher_mask, bit_lower_mask, bit_mask, bit_range_mask, drop_bits, extract_bit_range,
    filter_bit, filter_bit_range, get_bit, is_bit_set, rotate_range_to_high, rotate_range_to_low,
    split_by_bit, swap_ranges, BITS_IN_INPUT,
};

#[test]
fn bit_arithmetics_test_bit_mask_operations() {
    assert_eq!(bit_mask(5), 0b_10_0000, "5th bit = 2**5");
    assert_eq!(bit_mask(0), 0b_00_0001, "1st bit = 1");
    assert_eq!(bit_mask(63), 0x80_00_00_00_00_00_00_00, "63th bit = 2**63");

    assert_eq!(bit_lower_mask(5), 0b_01_1111, "mask of 5 first bits");
    assert_eq!(bit_lower_mask(0), 0b_00_0000, "mask of 0 first bits");
    assert_eq!(bit_lower_mask(63), 0x7F_FF_FF_FF_FF_FF_FF_FF, "mask of 63 first bits");
    assert_eq!(bit_lower_mask(64), std::u64::MAX, "mask of all bits");

    assert_eq!(bit_range_mask(3, 5), Some(0b_0001_1000), "simple mask 2 bits wide");
    assert_eq!(bit_range_mask(2, 6), Some(0b_0011_1100), "simple mask 4 bits wide");
    assert_eq!(bit_range_mask(0, 1), Some(0b_0000_0001), "lowest bit mask");
    assert_eq!(bit_range_mask(0, 0), Some(0b_0000_0000), "empty mask in the beginning of the number");
    assert_eq!(bit_range_mask(3, 3), Some(0b_0000_0000), "empty mask in the middle of the number");
    assert_eq!(bit_range_mask(64, 64), Some(0), "empty mask in the end of number");
    assert_eq!(bit_range_mask(63, 65), Some(0x80_00_00_00_00_00_00_00), "empty mask exceeding type's size");
    assert_eq!(bit_range_mask(7, 3), None, "begin_bit is not lower than end_bit");

    assert_eq!(split_by_bit(0b1010_1111, 4, BITS_IN_INPUT), Some((0b1010, 0b1111)), "normal split");
}

#[test]
fn bit_arithmetics_test_bit_rotate() {
    assert_eq!(rotate_range_to_high(1, 0, 23, 3, BITS_IN_INPUT), Some(0b1000), "normal shift");
    assert_eq!(
        rotate_range_to_high(0b10101, 0, 2, 3, BITS_IN_INPUT),
        Some(0b10110),
        "only 2 value bits, others are stationary"
    );
    assert_eq!(rotate_range_to_high(0b00101, 0, 5, 3, BITS_IN_INPUT), Some(0b01001), "rotation");
    assert_eq!(rotate_range_to_high(0b00101, 0, 5, 0, BITS_IN_INPUT), Some(0b00101), "no shift at all");
    assert_eq!(rotate_range_to_high(0b00101, 0, 5, 5, BITS_IN_INPUT), Some(0b00101), "identity shift");
    assert_eq!(
        rotate_range_to_high(0b00101, 0, 0, 5, BITS_IN_INPUT),
        None,
        "end bit is zero, then last bit is what?"
    );

    let big_val = std::u64::MAX - 7;
    assert_eq!(
        rotate_range_to_high(big_val, 0, 64, 5, BITS_IN_INPUT),
        Some(big_val.rotate_left(5)),
        "shifts over type boundaries"
    );
    assert_eq!(
        rotate_range_to_high(big_val, 0, 65, 5, BITS_IN_INPUT),
        Some(big_val.rotate_left(5)),
        "end bit is over type boundaries"
    );
    assert_eq!(rotate_range_to_high(0b00100000, 5, 8, 4, BITS_IN_INPUT), Some(0b01000000), "non-zero begin bit");
    assert_eq!(
        rotate_range_to_high(0b110101, 3, 5, 2, BITS_IN_INPUT),
        Some(0b110101),
        "non-zero begin bit, with outer contents"
    );
}

#[test]
fn bit_arithmetics_test_drop_bits() {
    assert_eq!(drop_bits(0b_0101_0111_0110, &[1, 2], BITS_IN_INPUT), (0b_0001_0101_1100, 62), "Non tricky usage");
    assert_eq!(drop_bits(0b_0101_0111_0110, &[0], BITS_IN_INPUT), (0b_0101_0111_011, 63), "Dropping one lowest bit");
    assert_eq!(
        drop_bits(0b_0101_0111_0110, &[0, 1, 2, 3, 5, 60, 61, 62, 63, 64], BITS_IN_INPUT),
        (0b_0000_0010_1011, 55),
        "Dropping many bits from beginning and end"
    );
    let all: Vec<u32> = (0..100).collect();
    assert_eq!(drop_bits(std::u64::MAX, &all, BITS_IN_INPUT), (0, 0), "Drop all bits");
}

#[test]
fn higher_mask_covers_bits_above() {
    assert_eq!(bit_higher_mask(0), std::u64::MAX - 1);
    assert_eq!(bit_higher_mask(62), 0x80_00_00_00_00_00_00_00);
    assert_eq!(bit_higher_mask(63), 0);
    assert_eq!(bit_higher_mask(100), 0);
}

#[test]
fn masks_past_the_word_are_empty() {
    assert_eq!(bit_mask(64), 0);
    assert_eq!(bit_mask(65), 0);
    assert_eq!(bit_lower_mask(1000), std::u64::MAX);
}

#[test]
fn single_bits_respect_the_width() {
    assert_eq!(filter_bit(0b1010, 3, 4), 0b1000);
    assert_eq!(filter_bit(0b1010, 3, 3), 0);
    assert_eq!(filter_bit(0b1010, 2, 64), 0);
    assert!(is_bit_set(0b1010, 1, 64));
    assert!(!is_bit_set(0b1010, 1, 1));
    assert!(!is_bit_set(u64::MAX, 64, 100));
    assert_eq!(get_bit(0b1010, 3, 64), 1);
    assert_eq!(get_bit(0b1010, 2, 64), 0);
    assert_eq!(get_bit(0b1010, 3, 3), 0);
    assert_eq!(get_bit(u64::MAX, 70, 100), 0);
}

#[test]
fn ranges_filter_and_extract() {
    assert_eq!(filter_bit_range(0b1111_0110, 1, 5, 8), Some(0b0001_0110));
    assert_eq!(filter_bit_range(0b1111_0110, 8, 9, 8), None);
    assert_eq!(filter_bit_range(0b1111_0110, 5, 1, 8), None);
    assert_eq!(extract_bit_range(0b1111_0110, 1, 5, 8), Some(0b1011));
    assert_eq!(extract_bit_range(0b1111_0110, 4, 4, 8), Some(0));
    assert_eq!(extract_bit_range(0b1111_0110, 9, 12, 8), None);
}

#[test]
fn split_past_the_width_is_refused() {
    assert_eq!(split_by_bit(0xFF, 10, 8), None);
    assert_eq!(split_by_bit(0xABCD, 0, 16), Some((0xABCD, 0)));
    assert_eq!(split_by_bit(0xABCD, 16, 16), Some((0, 0xABCD)));
}

#[test]
fn rotation_to_low_moves_bits_down() {
    assert_eq!(rotate_range_to_low(0b1000, 0, 23, 3, BITS_IN_INPUT), Some(1));
    assert_eq!(rotate_range_to_low(0b00001, 0, 5, 1, BITS_IN_INPUT), Some(0b10000));
    let big_val = std::u64::MAX - 7;
    assert_eq!(rotate_range_to_low(big_val, 0, 64, 5, BITS_IN_INPUT), Some(big_val.rotate_right(5)));
    assert_eq!(rotate_range_to_low(0b101, 3, 3, 1, BITS_IN_INPUT), None);
    assert_eq!(rotate_range_to_low(0b101, 10, 20, 1, 8), None);
}

#[test]
fn rotations_undo_each_other() {
    let v = 0x0123_4567_89AB_CDEF;
    let up = rotate_range_to_high(v, 0, 28, 2, 56).unwrap();
    assert_ne!(up, v);
    assert_eq!(rotate_range_to_low(up, 0, 28, 2, 56), Some(v));
}

#[test]
fn swapping_ranges_exchanges_halves() {
    assert_eq!(swap_ranges(0x1111_2222_3333_4444, 32, 64), Some(0x3333_4444_1111_2222));
    assert_eq!(swap_ranges(0b110_01, 2, 5), Some(0b01_110));
    assert_eq!(swap_ranges(0xFF, 9, 8), None);
    assert_eq!(swap_ranges(0xFF, 4, 65), None);
}

#[test]
fn dropping_nothing_keeps_the_width() {
    assert_eq!(drop_bits(0xABCD, &[], 16), (0xABCD, 16));
    assert_eq!(drop_bits(0b1011, &[2, 0], 4), (0b11, 2));
    assert_eq!(drop_bits(0b1111_0000, &[0, 0, 1], 8), (0b11_1100, 6));
}

#[test]
fn bits_above_the_width_are_kept() {
    assert_eq!(drop_bits(1024, &[], 0), (1024, 0));
    // bit 1 is dropped; bits 2 and 3 move down, and so does bit 4, above the width
    assert_eq!(drop_bits(0b1_0110, &[1], 4), (0b1010, 3));
    // a named position at or above the width drops nothing
    assert_eq!(drop_bits(0b1_0000, &[4], 4), (0b1_0000, 4));
}
