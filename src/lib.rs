//! The Data Encryption Standard block cipher, built from bit-level
//! primitives up: permutation and substitution tables, the 16-round key
//! schedule, the Feistel round, single-block encryption and decryption, a
//! transform of byte buffers in 8-byte big-endian blocks, and the reading of
//! keys from hexadecimal text.
pub mod bit_arithmetics;
pub mod bit_permutation;
pub mod bit_encoding;
pub mod tables;
pub mod key_scheduling;
pub mod round;
pub mod algorithm;
pub mod stream;
pub mod key_parsing;
