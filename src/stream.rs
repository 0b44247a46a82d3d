//! The cipher over byte buffers: the bytes are zero-padded to a multiple of
//! 8, read as big-endian 64-bit blocks, and each block goes through the
//! block cipher on its own (electronic codebook mode). The padding is not
//! recorded, so a round trip returns the bytes followed by the zeros that
//! filled the last block.
use vstd::prelude::*;

use crate::algorithm::{des_block, encrypt_block, lemma_decrypt_inverts_encrypt};
use crate::key_scheduling::{decrypting_keys, encrypting_keys, master_inner_key, KeyScheduler};

verus! {

/// Bytes in a block.
pub const BYTES_IN_BLOCK: usize = 8;

/// Bytes that the caller of the transform reads and writes at a time: a
/// multiple of the block size, chosen for I/O efficiency only.
pub const IO_BUF_SIZE: usize = 32768;

/// The 64-bit word whose big-endian bytes are the first 8 of `b`.
pub open spec fn word_from_be(b: Seq<u8>) -> u64 {
    ((b[0] as u64) << 56u64) | ((b[1] as u64) << 48u64) | ((b[2] as u64) << 40u64) | ((b[3] as u64)
        << 32u64) | ((b[4] as u64) << 24u64) | ((b[5] as u64) << 16u64) | ((b[6] as u64) << 8u64) | (
    b[7] as u64)
}

/// The 8 big-endian bytes of `w`.
pub open spec fn word_to_be(w: u64) -> Seq<u8> {
    seq![
        (w >> 56u64) as u8,
        (w >> 48u64) as u8,
        (w >> 40u64) as u8,
        (w >> 32u64) as u8,
        (w >> 24u64) as u8,
        (w >> 16u64) as u8,
        (w >> 8u64) as u8,
        w as u8,
    ]
}

/// Number of zero bytes that bring `n` bytes to a multiple of 8.
pub open spec fn padding_len(n: nat) -> nat {
    if n % 8 == 0 {
        0
    } else {
        (8 - n % 8) as nat
    }
}

/// `bytes` followed by the zeros that bring it to a multiple of 8.
pub open spec fn padded(bytes: Seq<u8>) -> Seq<u8> {
    bytes + Seq::new(padding_len(bytes.len()), |i: int| 0u8)
}

/// Each whole 8-byte block of `bytes` through the block cipher with the
/// round keys `keys`, in order.
pub open spec fn transform_blocks(bytes: Seq<u8>, keys: Seq<u64>) -> Seq<u8>
    decreases bytes.len(),
{
    if bytes.len() < 8 {
        seq![]
    } else {
        word_to_be(des_block(word_from_be(bytes.take(8)), keys)) + transform_blocks(
            bytes.skip(8),
            keys,
        )
    }
}

/// The encryption of `bytes` under the master key `key`.
pub open spec fn encrypt_stream_spec(bytes: Seq<u8>, key: u64) -> Seq<u8> {
    transform_blocks(padded(bytes), encrypting_keys(master_inner_key(key)))
}

/// The decryption of `bytes` under the master key `key`.
pub open spec fn decrypt_stream_spec(bytes: Seq<u8>, key: u64) -> Seq<u8> {
    transform_blocks(padded(bytes), decrypting_keys(master_inner_key(key)))
}

proof fn lemma_be_round_trip(w: u64)
    ensures
        word_from_be(word_to_be(w)) == w,
{
    assert(((((w >> 56u64) as u8) as u64) << 56u64) | ((((w >> 48u64) as u8) as u64) << 48u64) | ((((w
        >> 40u64) as u8) as u64) << 40u64) | ((((w >> 32u64) as u8) as u64) << 32u64) | ((((w
        >> 24u64) as u8) as u64) << 24u64) | ((((w >> 16u64) as u8) as u64) << 16u64) | ((((w
        >> 8u64) as u8) as u64) << 8u64) | ((w as u8) as u64) == w) by (bit_vector);
}

proof fn lemma_be_bytes_round_trip(b: Seq<u8>)
    requires
        b.len() == 8,
    ensures
        word_to_be(word_from_be(b)) == b,
{
    let (b0, b1, b2, b3, b4, b5, b6, b7) = (b[0], b[1], b[2], b[3], b[4], b[5], b[6], b[7]);
    let w = word_from_be(b);
    assert(w == ((b0 as u64) << 56u64) | ((b1 as u64) << 48u64) | ((b2 as u64) << 40u64) | ((b3 as u64)
        << 32u64) | ((b4 as u64) << 24u64) | ((b5 as u64) << 16u64) | ((b6 as u64) << 8u64) | (
    b7 as u64));
    assert((w >> 56u64) as u8 == b0 && (w >> 48u64) as u8 == b1 && (w >> 40u64) as u8 == b2 && (w
        >> 32u64) as u8 == b3 && (w >> 24u64) as u8 == b4 && (w >> 16u64) as u8 == b5 && (w
        >> 8u64) as u8 == b6 && w as u8 == b7) by (bit_vector)
        requires
            w == ((b0 as u64) << 56u64) | ((b1 as u64) << 48u64) | ((b2 as u64) << 40u64) | ((
            b3 as u64) << 32u64) | ((b4 as u64) << 24u64) | ((b5 as u64) << 16u64) | ((b6 as u64)
                << 8u64) | (b7 as u64),
    ;
    assert(word_to_be(w) =~= b);
}

/// The transform of a buffer of whole blocks is a buffer of as many blocks.
pub proof fn lemma_transform_length(bytes: Seq<u8>, keys: Seq<u64>)
    requires
        bytes.len() % 8 == 0,
    ensures
        transform_blocks(bytes, keys).len() == bytes.len(),
    decreases bytes.len(),
{
    if bytes.len() >= 8 {
        lemma_transform_length(bytes.skip(8), keys);
    }
}

proof fn lemma_blocks_round_trip(bytes: Seq<u8>, key: u64)
    requires
        bytes.len() % 8 == 0,
    ensures
        transform_blocks(
            transform_blocks(bytes, encrypting_keys(master_inner_key(key))),
            decrypting_keys(master_inner_key(key)),
        ) == bytes,
    decreases bytes.len(),
{
    let eks = encrypting_keys(master_inner_key(key));
    let dks = decrypting_keys(master_inner_key(key));
    if bytes.len() >= 8 {
        let w = word_from_be(bytes.take(8));
        let head = word_to_be(des_block(w, eks));
        let tail = transform_blocks(bytes.skip(8), eks);
        let enc = head + tail;
        assert(enc.take(8) =~= head);
        assert(enc.skip(8) =~= tail);
        lemma_be_round_trip(des_block(w, eks));
        lemma_decrypt_inverts_encrypt(w, key);
        assert(des_block(word_from_be(enc.take(8)), dks) == w);
        lemma_be_bytes_round_trip(bytes.take(8));
        lemma_blocks_round_trip(bytes.skip(8), key);
        assert(bytes =~= bytes.take(8) + bytes.skip(8));
    } else {
        assert(bytes =~= seq![]);
    }
}

/// Decrypting an encrypted buffer with the same master key gives back the
/// buffer followed by the zeros that padded its last block; a buffer whose
/// length is a multiple of 8 comes back exactly.
pub proof fn lemma_stream_round_trip(bytes: Seq<u8>, key: u64)
    ensures
        decrypt_stream_spec(encrypt_stream_spec(bytes, key), key) == padded(bytes),
        bytes.len() % 8 == 0 ==> padded(bytes) == bytes,
{
    let p = padded(bytes);
    assert(p.len() % 8 == 0) by (nonlinear_arith)
        requires
            p.len() == bytes.len() + padding_len(bytes.len()),
            padding_len(bytes.len()) == (if bytes.len() % 8 == 0 {
                0
            } else {
                (8 - bytes.len() % 8) as nat
            }),
    ;
    let enc = encrypt_stream_spec(bytes, key);
    lemma_transform_length(p, encrypting_keys(master_inner_key(key)));
    assert(padded(enc) =~= enc);
    lemma_blocks_round_trip(p, key);
    if bytes.len() % 8 == 0 {
        assert(padded(bytes) =~= bytes);
    }
}

/// `bytes` followed by the zeros that bring it to a multiple of 8.
pub fn pad_to_blocks(bytes: &[u8]) -> (r: Vec<u8>)
    ensures
        r@ == padded(bytes@),
{
    let mut out: Vec<u8> = Vec::new();
    let mut i: usize = 0;
    while i < bytes.len()
        invariant
            i <= bytes@.len(),
            out@ == bytes@.take(i as int),
        decreases bytes@.len() - i,
    {
        out.push(bytes[i]);
        assert(out@ =~= bytes@.take(i + 1));
        i += 1;
    }
    assert(out@ =~= bytes@);
    let tail_size = bytes.len() % BYTES_IN_BLOCK;
    let padding = if tail_size == 0 {
        0
    } else {
        BYTES_IN_BLOCK - tail_size
    };
    let mut j: usize = 0;
    while j < padding
        invariant
            j <= padding,
            padding == padding_len(bytes@.len()),
            out@ == bytes@ + Seq::new(j as nat, |k: int| 0u8),
        decreases padding - j,
    {
        out.push(0);
        assert(out@ =~= bytes@ + Seq::new((j + 1) as nat, |k: int| 0u8));
        j += 1;
    }
    out
}

/// Encrypts or decrypts (as the scheduler's direction says) `src`,
/// zero-padded to a multiple of 8 bytes, block by block, each block read and
/// written as a big-endian word. The scheduler serves the same 16 keys to
/// every block and ends where it started.
pub fn transform_chunk(src: &[u8], key_iterator: &mut KeyScheduler) -> (r: Vec<u8>)
    requires
        old(key_iterator).wf(),
    ensures
        r@ == transform_blocks(padded(src@), old(key_iterator).upcoming_keys()),
        final(key_iterator).wf(),
        final(key_iterator).keys() == old(key_iterator).keys(),
        final(key_iterator).position() == old(key_iterator).position(),
        final(key_iterator).is_encrypting() == old(key_iterator).is_encrypting(),
        final(key_iterator).inner_key0() == old(key_iterator).inner_key0(),
{
    let bytes = pad_to_blocks(src);
    let ghost keys = key_iterator.upcoming_keys();
    proof {
        let n = src@.len();
        assert(bytes@.len() % 8 == 0) by (nonlinear_arith)
            requires
                bytes@.len() == n + padding_len(n),
                padding_len(n) == (if n % 8 == 0 {
                    0
                } else {
                    (8 - n % 8) as nat
                }),
        ;
    }
    let mut out: Vec<u8> = Vec::new();
    let mut pos: usize = 0;
    assert(out@ + transform_blocks(bytes@.skip(0), keys) =~= transform_blocks(bytes@, keys)) by {
        assert(bytes@.skip(0) =~= bytes@);
    }
    while pos < bytes.len()
        invariant
            pos <= bytes@.len(),
            bytes@.len() % 8 == 0,
            pos % 8 == 0,
            key_iterator.wf(),
            key_iterator.keys() == old(key_iterator).keys(),
            key_iterator.position() == old(key_iterator).position(),
            key_iterator.is_encrypting() == old(key_iterator).is_encrypting(),
            key_iterator.inner_key0() == old(key_iterator).inner_key0(),
            keys == key_iterator.upcoming_keys(),
            out@ + transform_blocks(bytes@.skip(pos as int), keys) == transform_blocks(bytes@, keys),
        decreases bytes@.len() - pos,
    {
        let ghost rest = bytes@.skip(pos as int);
        let block: u64 = ((bytes[pos] as u64) << 56u64) | ((bytes[pos + 1] as u64) << 48u64) | ((
        bytes[pos + 2] as u64) << 40u64) | ((bytes[pos + 3] as u64) << 32u64) | ((bytes[pos + 4] as u64)
            << 24u64) | ((bytes[pos + 5] as u64) << 16u64) | ((bytes[pos + 6] as u64) << 8u64) | (
        bytes[pos + 7] as u64);
        assert(block == word_from_be(rest.take(8)));
        let transformed = encrypt_block(block, key_iterator);
        let ghost before = out@;
        out.push(#[verifier::truncate] ((transformed >> 56u64) as u8));
        out.push(#[verifier::truncate] ((transformed >> 48u64) as u8));
        out.push(#[verifier::truncate] ((transformed >> 40u64) as u8));
        out.push(#[verifier::truncate] ((transformed >> 32u64) as u8));
        out.push(#[verifier::truncate] ((transformed >> 24u64) as u8));
        out.push(#[verifier::truncate] ((transformed >> 16u64) as u8));
        out.push(#[verifier::truncate] ((transformed >> 8u64) as u8));
        out.push(#[verifier::truncate] (transformed as u8));
        proof {
            assert(out@ =~= before + word_to_be(transformed));
            assert(rest.skip(8) =~= bytes@.skip(pos + 8));
            assert(transform_blocks(rest, keys) == word_to_be(transformed) + transform_blocks(
                rest.skip(8),
                keys,
            ));
            assert(before + (word_to_be(transformed) + transform_blocks(rest.skip(8), keys)) =~= out@
                + transform_blocks(rest.skip(8), keys));
        }
        pos += 8;
    }
    assert(bytes@.skip(pos as int) =~= seq![]);
    assert(out@ + seq![] =~= out@);
    out
}

/// Encrypts `src` under the master key `key`: zero-padded to a multiple of
/// 8 bytes, each big-endian 8-byte block encrypted on its own.
pub fn encrypt(src: &[u8], key: u64) -> (r: Vec<u8>)
    ensures
        r@ == encrypt_stream_spec(src@, key),
{
    let mut scheduler = KeyScheduler::new_encrypting(key);
    assert(scheduler.upcoming_keys() =~= scheduler.keys());
    transform_chunk(src, &mut scheduler)
}

/// Decrypts `src` under the master key `key`: zero-padded to a multiple of
/// 8 bytes, each big-endian 8-byte block decrypted on its own.
pub fn decrypt(src: &[u8], key: u64) -> (r: Vec<u8>)
    ensures
        r@ == decrypt_stream_spec(src@, key),
{
    let mut scheduler = KeyScheduler::new_decrypting(key);
    assert(scheduler.upcoming_keys() =~= scheduler.keys());
    transform_chunk(src, &mut scheduler)
}

} // verus!
