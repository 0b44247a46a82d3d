use des::key_scheduling::{KeyScheduler, Key};

#[test]
fn test_key_encrypting_scheduler() {
    let mut s = KeyScheduler::new_encrypting(
        0b_00010011_00110100_01010111_01111001_10011011_10111100_11011111_11110001,
    );
    assert_eq!(s.next().unwrap().value, 0b_000110_110000_001011_101111_111111_000111_000001_110010, "k1");
    assert_eq!(s.next().unwrap().value, 0b_011110_011010_111011_011001_110110_111100_100111_100101, "k2");
    assert_eq!(s.next().unwrap().value, 0b_010101_011111_110010_001010_010000_101100_111110_011001, "k3");
    assert_eq!(s.next().unwrap().value, 0b_011100_101010_110111_010110_110110_110011_010100_011101, "k4");
    assert_eq!(s.next().unwrap().value, 0b_011111_001110_110000_000111_111010_110101_001110_101000, "k5");
    assert_eq!(s.next().unwrap().value, 0b_011000_111010_010100_111110_010100_000111_101100_101111, "k6");
    assert_eq!(s.next().unwrap().value, 0b_111011_001000_010010_110111_111101_100001_100010_111100, "k7");
    assert_eq!(s.next().unwrap().value, 0b_111101_111000_101000_111010_110000_010011_101111_111011, "k8");
    assert_eq!(s.next().unwrap().value, 0b_111000_001101_101111_101011_111011_011110_011110_000001, "k9");
    assert_eq!(s.next().unwrap().value, 0b_101100_011111_001101_000111_101110_100100_011001_001111, "k10");
    assert_eq!(s.next().unwrap().value, 0b_001000_010101_111111_010011_110111_101101_001110_000110, "k11");
    assert_eq!(s.next().unwrap().value, 0b_011101_010111_000111_110101_100101_000110_011111_101001, "k12");
    assert_eq!(s.next().unwrap().value, 0b_100101_111100_010111_010001_111110_101011_101001_000001, "k13");
    assert_eq!(s.next().unwrap().value, 0b_010111_110100_001110_110111_111100_101110_011100_111010, "k14");
    assert_eq!(s.next().unwrap().value, 0b_101111_111001_000110_001101_001111_010011_111100_001010, "k15");
    assert_eq!(s.next().unwrap().value, 0b_110010_110011_110110_001011_000011_100001_011111_110101, "k16");
    assert_eq!(s.next().unwrap().value, 0b_000110_110000_001011_101111_111111_000111_000001_110010, "k1_cache");
    assert_eq!(s.next().unwrap().value, 0b_011110_011010_111011_011001_110110_111100_100111_100101, "k2_cache");
    assert_eq!(s.next().unwrap().value, 0b_010101_011111_110010_001010_010000_101100_111110_011001, "k3_cache");
    assert_eq!(s.next().unwrap().value, 0b_011100_101010_110111_010110_110110_110011_010100_011101, "k4_cache");
    assert_eq!(s.next().unwrap().value, 0b_011111_001110_110000_000111_111010_110101_001110_101000, "k5_cache");
    assert_eq!(s.next().unwrap().value, 0b_011000_111010_010100_111110_010100_000111_101100_101111, "k6_cache");
    assert_eq!(s.next().unwrap().value, 0b_111011_001000_010010_110111_111101_100001_100010_111100, "k7_cache");
    assert_eq!(s.next().unwrap().value, 0b_111101_111000_101000_111010_110000_010011_101111_111011, "k8_cache");
    assert_eq!(s.next().unwrap().value, 0b_111000_001101_101111_101011_111011_011110_011110_000001, "k9_cache");
    assert_eq!(s.next().unwrap().value, 0b_101100_011111_001101_000111_101110_100100_011001_001111, "k10_cache");
    assert_eq!(s.next().unwrap().value, 0b_001000_010101_111111_010011_110111_101101_001110_000110, "k11_cache");
    assert_eq!(s.next().unwrap().value, 0b_011101_010111_000111_110101_100101_000110_011111_101001, "k12_cache");
    assert_eq!(s.next().unwrap().value, 0b_100101_111100_010111_010001_111110_101011_101001_000001, "k13_cache");
    assert_eq!(s.next().unwrap().value, 0b_010111_110100_001110_110111_111100_101110_011100_111010, "k14_cache");
    assert_eq!(s.next().unwrap().value, 0b_101111_111001_000110_001101_001111_010011_111100_001010, "k15_cache");
    assert_eq!(s.next().unwrap().value, 0b_110010_110011_110110_001011_000011_100001_011111_110101, "k16_cache");
    assert_eq!(s.next().unwrap().value, 0b_000110_110000_001011_101111_111111_000111_000001_110010, "k1_move");
    assert_eq!(s.next().unwrap().value, 0b_011110_011010_111011_011001_110110_111100_100111_100101, "k2_move");
}

#[test]
fn test_key_decrypting_scheduler() {
    let mut s = KeyScheduler::new_decrypting(
        0b_00010011_00110100_01010111_01111001_10011011_10111100_11011111_11110001,
    );
    assert_eq!(s.next().unwrap().value, 0b_110010_110011_110110_001011_000011_100001_011111_110101, "k16");
    assert_eq!(s.next().unwrap().value, 0b_101111_111001_000110_001101_001111_010011_111100_001010, "k15");
    assert_eq!(s.next().unwrap().value, 0b_010111_110100_001110_110111_111100_101110_011100_111010, "k14");
    assert_eq!(s.next().unwrap().value, 0b_100101_111100_010111_010001_111110_101011_101001_000001, "k13");
    assert_eq!(s.next().unwrap().value, 0b_011101_010111_000111_110101_100101_000110_011111_101001, "k12");
    assert_eq!(s.next().unwrap().value, 0b_001000_010101_111111_010011_110111_101101_001110_000110, "k11");
    assert_eq!(s.next().unwrap().value, 0b_101100_011111_001101_000111_101110_100100_011001_001111, "k10");
    assert_eq!(s.next().unwrap().value, 0b_111000_001101_101111_101011_111011_011110_011110_000001, "k9");
    assert_eq!(s.next().unwrap().value, 0b_111101_111000_101000_111010_110000_010011_101111_111011, "k8");
    assert_eq!(s.next().unwrap().value, 0b_111011_001000_010010_110111_111101_100001_100010_111100, "k7");
    assert_eq!(s.next().unwrap().value, 0b_011000_111010_010100_111110_010100_000111_101100_101111, "k6");
    assert_eq!(s.next().unwrap().value, 0b_011111_001110_110000_000111_111010_110101_001110_101000, "k5");
    assert_eq!(s.next().unwrap().value, 0b_011100_101010_110111_010110_110110_110011_010100_011101, "k4");
    assert_eq!(s.next().unwrap().value, 0b_010101_011111_110010_001010_010000_101100_111110_011001, "k3");
    assert_eq!(s.next().unwrap().value, 0b_011110_011010_111011_011001_110110_111100_100111_100101, "k2");
    assert_eq!(s.next().unwrap().value, 0b_000110_110000_001011_101111_111111_000111_000001_110010, "k1");
    assert_eq!(s.next().unwrap().value, 0b_110010_110011_110110_001011_000011_100001_011111_110101, "k16_cache");
    assert_eq!(s.next().unwrap().value, 0b_101111_111001_000110_001101_001111_010011_111100_001010, "k15_cache");
    assert_eq!(s.next().unwrap().value, 0b_010111_110100_001110_110111_111100_101110_011100_111010, "k14_cache");
    assert_eq!(s.next().unwrap().value, 0b_100101_111100_010111_010001_111110_101011_101001_000001, "k13_cache");
    assert_eq!(s.next().unwrap().value, 0b_011101_010111_000111_110101_100101_000110_011111_101001, "k12_cache");
    assert_eq!(s.next().unwrap().value, 0b_001000_010101_111111_010011_110111_101101_001110_000110, "k11_cache");
    assert_eq!(s.next().unwrap().value, 0b_101100_011111_001101_000111_101110_100100_011001_001111, "k10_cache");
    assert_eq!(s.next().unwrap().value, 0b_111000_001101_101111_101011_111011_011110_011110_000001, "k9_cache");
    assert_eq!(s.next().unwrap().value, 0b_111101_111000_101000_111010_110000_010011_101111_111011, "k8_cache");
    assert_eq!(s.next().unwrap().value, 0b_111011_001000_010010_110111_111101_100001_100010_111100, "k7_cache");
    assert_eq!(s.next().unwrap().value, 0b_011000_111010_010100_111110_010100_000111_101100_101111, "k6_cache");
    assert_eq!(s.next().unwrap().value, 0b_011111_001110_110000_000111_111010_110101_001110_101000, "k5_cache");
    assert_eq!(s.next().unwrap().value, 0b_011100_101010_110111_010110_110110_110011_010100_011101, "k4_cache");
    assert_eq!(s.next().unwrap().value, 0b_010101_011111_110010_001010_010000_101100_111110_011001, "k3_cache");
    assert_eq!(s.next().unwrap().value, 0b_011110_011010_111011_011001_110110_111100_100111_100101, "k2_cache");
    assert_eq!(s.next().unwrap().value, 0b_000110_110000_001011_101111_111111_000111_000001_110010, "k1_cache");
    assert_eq!(s.next().unwrap().value, 0b_110010_110011_110110_001011_000011_100001_011111_110101, "k16_move");
    assert_eq!(s.next().unwrap().value, 0b_101111_111001_000110_001101_001111_010011_111100_001010, "k15_move");
}

#[test]
fn test_key_scheduler() {
    let mut s = KeyScheduler::new(
        0b_00010011_00110100_01010111_01111001_10011011_10111100_11011111_11110001,
        true,
    );
    assert_eq!(s.next().unwrap().value, 0b_000110_110000_001011_101111_111111_000111_000001_110010, "k1");
    assert_eq!(s.next().unwrap().value, 0b_011110_011010_111011_011001_110110_111100_100111_100101, "k2");
    assert_eq!(s.next().unwrap().value, 0b_010101_011111_110010_001010_010000_101100_111110_011001, "k3");
    assert_eq!(s.next().unwrap().value, 0b_011100_101010_110111_010110_110110_110011_010100_011101, "k4");
    assert_eq!(s.next().unwrap().value, 0b_011111_001110_110000_000111_111010_110101_001110_101000, "k5");
    assert_eq!(s.next().unwrap().value, 0b_011000_111010_010100_111110_010100_000111_101100_101111, "k6");
    assert_eq!(s.next().unwrap().value, 0b_111011_001000_010010_110111_111101_100001_100010_111100, "k7");
    assert_eq!(s.next().unwrap().value, 0b_111101_111000_101000_111010_110000_010011_101111_111011, "k8");
    assert_eq!(s.next().unwrap().value, 0b_111000_001101_101111_101011_111011_011110_011110_000001, "k9");
    assert_eq!(s.next().unwrap().value, 0b_101100_011111_001101_000111_101110_100100_011001_001111, "k10");
    assert_eq!(s.next().unwrap().value, 0b_001000_010101_111111_010011_110111_101101_001110_000110, "k11");
    assert_eq!(s.next().unwrap().value, 0b_011101_010111_000111_110101_100101_000110_011111_101001, "k12");
    assert_eq!(s.next().unwrap().value, 0b_100101_111100_010111_010001_111110_101011_101001_000001, "k13");
    assert_eq!(s.next().unwrap().value, 0b_010111_110100_001110_110111_111100_101110_011100_111010, "k14");
    assert_eq!(s.next().unwrap().value, 0b_101111_111001_000110_001101_001111_010011_111100_001010, "k15");
    assert_eq!(s.next().unwrap().value, 0b_110010_110011_110110_001011_000011_100001_011111_110101, "k16");
}

#[test]
fn decrypting_keys_are_encrypting_keys_reversed() {
    for key in [0x133457799BBCDFF1u64, 0x0E329232EA6D0D73, 0, u64::MAX, 0xAABB09182736CCDD] {
        let mut e = KeyScheduler::new_encrypting(key);
        let mut d = KeyScheduler::new_decrypting(key);
        let forward: Vec<u64> = (0..16).map(|_| e.next().unwrap().value).collect();
        let backward: Vec<u64> = (0..16).map(|_| d.next().unwrap().value).collect();
        let mut reversed = forward.clone();
        reversed.reverse();
        assert_eq!(backward, reversed);
    }
}

#[test]
fn round_keys_are_48_bits() {
    let mut s = KeyScheduler::new_encrypting(u64::MAX);
    for _ in 0..16 {
        let k = s.next().unwrap();
        assert_eq!(k.size_bits, 48);
        assert!(k.value < (1u64 << 48));
    }
}

#[test]
fn parity_bits_do_not_change_the_keys() {
    let mut a = KeyScheduler::new_encrypting(0x133457799BBCDFF1);
    let mut b = KeyScheduler::new_encrypting(0x133457799BBCDFF1 ^ 0x0101_0101_0101_0101);
    for _ in 0..16 {
        assert_eq!(a.next().unwrap().value, b.next().unwrap().value);
    }
}

#[test]
fn compression_of_an_inner_key() {
    // the inner key of the first round of the standard's worked example
    let inner = Key { value: 0b_1110000110011001010101011111_1010101011001100111100011110, size_bits: 56 };
    let k = KeyScheduler::des_key(inner);
    assert_eq!(k.value, 0b_000110_110000_001011_101111_111111_000111_000001_110010);
    assert_eq!(k.size_bits, 48);
}
