use des::key_scheduling::{Key, KeyScheduler};
use des::round::{decrypt_round, encrypt_last_round, encrypt_round, feilstel_function};

#[test]
fn test_feilstel_function() {
    assert_eq!(
        feilstel_function(
            0b1111_0000_1010_1010_1111_0000_1010_1010,
            Key { value: 0b000110_110000_001011_101111_111111_000111_000001_110010, size_bits: 48 }
        ),
        0b0010_0011_0100_1010_1010_1001_1011_1011
    );
}

#[test]
fn test_encrypt_round() {
    let mut scheduler = KeyScheduler::new_encrypting(0x133457799BBCDFF1);
    assert_eq!(
        encrypt_round(
            0b1100_1100_0000_0000_1100_1100_1111_1111_1111_0000_1010_1010_1111_0000_1010_1010,
            scheduler.next().unwrap()
        ),
        0b1111_0000_1010_1010_1111_0000_1010_1010__1110_1111_0100_1010_0110_0101_0100_0100,
    )
}

// Undoing round 1 takes round 1's key, k1: the first key that an
// encrypting scheduler serves (a decrypting one serves k16 first).
#[test]
fn test_decrypt_round() {
    let mut scheduler = KeyScheduler::new_encrypting(0x133457799BBCDFF1);
    assert_eq!(
        decrypt_round(
            0b1111_0000_1010_1010_1111_0000_1010_1010__1110_1111_0100_1010_0110_0101_0100_0100,
            scheduler.next().unwrap()
        ),
        0b1100_1100_0000_0000_1100_1100_1111_1111_1111_0000_1010_1010_1111_0000_1010_1010
    )
}

#[test]
fn decrypt_round_undoes_encrypt_round() {
    let key = Key { value: 0x0000_A5A5_5A5A_0F0F, size_bits: 48 };
    for data in [0u64, u64::MAX, 0x0123_4567_89AB_CDEF, 0xDEAD_BEEF_0000_0001] {
        let once = encrypt_round(data, key);
        assert_ne!(once, data);
        assert_eq!(decrypt_round(once, key), data);
    }
}

#[test]
fn last_round_keeps_the_halves_in_place() {
    let key = Key { value: 0b000110_110000_001011_101111_111111_000111_000001_110010, size_bits: 48 };
    let data: u64 = 0x0000_0000_F0AA_F0AA;
    // the low half stays, the high half is mixed with the Feistel function
    assert_eq!(encrypt_last_round(data, key), (0x234A_A9BBu64 << 32) | 0xF0AA_F0AA);
    // the last round undoes itself
    assert_eq!(encrypt_last_round(encrypt_last_round(data, key), key), data);
}
