use des::stream::{decrypt, encrypt, pad_to_blocks, transform_chunk};
use des::key_scheduling::KeyScheduler;

const PLAIN: [u8; 38] = [
    0x59, 0x6F, 0x75, 0x72, 0x20, 0x6C, 0x69, 0x70, 0x73, 0x20, 0x61, 0x72, 0x65, 0x20, 0x73, 0x6D,
    0x6F, 0x6F, 0x74, 0x68, 0x65, 0x72, 0x20, 0x74, 0x68, 0x61, 0x6E, 0x20, 0x76, 0x61, 0x73, 0x65,
    0x6C, 0x69, 0x6E, 0x65, 0x0D, 0x0A,
];

const CIPHER: [u8; 40] = [
    0xC0, 0x99, 0x9F, 0xDD, 0xE3, 0x78, 0xD7, 0xED, 0x72, 0x7D, 0xA0, 0x0B, 0xCA, 0x5A, 0x84, 0xEE,
    0x47, 0xF2, 0x69, 0xA4, 0xD6, 0x43, 0x81, 0x90, 0xD9, 0xD5, 0x2F, 0x78, 0xF5, 0x35, 0x84, 0x99,
    0x82, 0x8A, 0xC9, 0xB4, 0x53, 0xE0, 0xE6, 0x53,
];

#[test]
fn test_encrypt() {
    let data = PLAIN.to_vec();
    let output_test = CIPHER.to_vec();
    let output = encrypt(&data[..], 0x0E329232EA6D0D73);
    assert!(
        output.iter().zip(output_test.iter()).all(|(&a, &b)| a == b),
        "Basic DES encryption of a stream is wrong"
    );
}

#[test]
fn test_decrypt() {
    let output_test = PLAIN.to_vec();
    let data = CIPHER.to_vec();
    let output = decrypt(&data[..], 0x0E329232EA6D0D73);
    assert!(
        output.iter().zip(output_test.iter()).all(|(&a, &b)| a == b),
        "Basic DES decryption of a stream is wrong"
    );
}

#[test]
fn ciphertext_is_the_padded_length() {
    assert_eq!(encrypt(&PLAIN, 0x0E329232EA6D0D73), CIPHER.to_vec());
    assert_eq!(encrypt(&[], 1).len(), 0);
    assert_eq!(encrypt(&[1], 1).len(), 8);
    assert_eq!(encrypt(&[0; 16], 1).len(), 16);
}

#[test]
fn round_trip_of_whole_blocks_is_exact() {
    let data: Vec<u8> = (0..64u8).collect();
    let key = 0x133457799BBCDFF1;
    assert_eq!(decrypt(&encrypt(&data, key), key), data);
}

#[test]
fn round_trip_of_a_partial_block_adds_zeros() {
    let key = 0x0E329232EA6D0D73;
    let back = decrypt(&encrypt(&PLAIN, key), key);
    let mut expected = PLAIN.to_vec();
    expected.extend_from_slice(&[0, 0]);
    assert_eq!(back, expected);
}

#[test]
fn blocks_are_big_endian_words() {
    let bytes = [0x01, 0x23, 0x45, 0x67, 0x89, 0xAB, 0xCD, 0xEF];
    assert_eq!(encrypt(&bytes, 0x133457799BBCDFF1), vec![0x85, 0xE8, 0x13, 0x54, 0x0F, 0x0A, 0xB4, 0x05]);
}

#[test]
fn padding_fills_the_last_block_with_zeros() {
    assert_eq!(pad_to_blocks(&[1, 2, 3]), vec![1, 2, 3, 0, 0, 0, 0, 0]);
    assert_eq!(pad_to_blocks(&[7; 8]), vec![7; 8]);
    assert_eq!(pad_to_blocks(&[]), Vec::<u8>::new());
}

#[test]
fn chunks_share_one_scheduler() {
    let key = 0x0E329232EA6D0D73;
    let mut scheduler = KeyScheduler::new_encrypting(key);
    let mut out = transform_chunk(&PLAIN[..16], &mut scheduler);
    out.extend(transform_chunk(&PLAIN[16..], &mut scheduler));
    assert_eq!(out, CIPHER.to_vec());
}
