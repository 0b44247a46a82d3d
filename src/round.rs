//! The Feistel round: expansion, key mixing, eight S-boxes and a final
//! permutation, applied to one half of a 64-bit block.
use vstd::prelude::*;

use crate::bit_arithmetics::{extract_bit_range, low_mask, range_mask, shl, shr, split_by_bit, swap_ranges};
use crate::bit_encoding::{substitute_spec, EncodingTable};
use crate::bit_permutation::{lemma_permute_bits, permute, PermutationTable};
use crate::key_scheduling::Key;
use crate::tables::{
    expansion,
    expansion_sources,
    round_permutation,
    round_permutation_sources,
    sbox_table,
    sboxes,
};

verus! {

/// Width of one half of a block.
pub const BITS_IN_LOW_HALF: u32 = 32;

/// Width of a block.
pub const BITS_IN_BLOCK: u32 = 64;

/// Mask of the low half of a block.
pub const LOW_HALF_MASK: u64 = 0xFFFF_FFFF;

/// The `g`-th 6-bit chunk (0 to 7, most significant first) of a 48-bit
/// value.
pub open spec fn chunk(x: u64, g: nat) -> u64 {
    (x >> ((42 - 6 * g) as u64)) & 63
}

/// The S-box outputs of the first `n` chunks of `x`, concatenated, the
/// first one most significant.
pub open spec fn substitution(x: u64, n: nat) -> u64
    decreases n,
{
    if n == 0 {
        0
    } else {
        (substitution(x, (n - 1) as nat) << 4u64) | substitute_spec(
            sbox_table((n - 1) as int),
            chunk(x, (n - 1) as nat),
        )
    }
}

/// The Feistel function of a 32-bit half and a 48-bit round key.
pub open spec fn feistel_spec(half: u64, key: u64) -> u64 {
    permute(
        round_permutation_sources(),
        substitution(permute(expansion_sources(), half, 48) ^ key, 8),
        32,
    )
}

/// One round: the low half moves up, and the new low half is the old high
/// half mixed with the Feistel function of the old low half.
pub open spec fn round_spec(data: u64, key: u64) -> u64 {
    ((data & LOW_HALF_MASK) << 32u64) | ((data >> 32u64) ^ feistel_spec(data & LOW_HALF_MASK, key))
}

/// The last round: the high half is mixed and the halves stay in place.
pub open spec fn last_round_spec(data: u64, key: u64) -> u64 {
    (((data >> 32u64) ^ feistel_spec(data & LOW_HALF_MASK, key)) << 32u64) | (data & LOW_HALF_MASK)
}

/// The two 32-bit halves of a block exchanged.
pub open spec fn swap_halves(data: u64) -> u64 {
    (data << 32u64) | (data >> 32u64)
}

/// A round run backwards: halves swapped, a forward round, halves swapped.
pub open spec fn decrypt_round_spec(data: u64, key: u64) -> u64 {
    swap_halves(round_spec(swap_halves(data), key))
}

/// The Feistel function's output fits in 32 bits.
pub proof fn lemma_feistel_fits(half: u64, key: u64)
    ensures
        feistel_spec(half, key) >> 32u64 == 0,
        feistel_spec(half, key) <= LOW_HALF_MASK,
{
    let x = substitution(permute(expansion_sources(), half, 48) ^ key, 8);
    assert forall|i: int| 0 <= i < 32 implies #[trigger] round_permutation_sources()[i] < 64 by {
    }
    lemma_permute_bits(round_permutation_sources(), x, 32);
    let f = feistel_spec(half, key);
    assert(f >> 32u64 == 0 ==> f <= 0xFFFF_FFFFu64) by (bit_vector);
}

/// A forward round is a last round followed by a swap of the halves.
pub proof fn lemma_round_is_swapped_last_round(data: u64, key: u64)
    ensures
        round_spec(data, key) == swap_halves(last_round_spec(data, key)),
{
    lemma_feistel_fits(data & LOW_HALF_MASK, key);
    let f = feistel_spec(data & LOW_HALF_MASK, key);
    assert(((data & 0xFFFF_FFFF) << 32u64) | ((data >> 32u64) ^ f) == ((((((data >> 32u64) ^ f)
        << 32u64) | (data & 0xFFFF_FFFF)) << 32u64) | (((((data >> 32u64) ^ f) << 32u64) | (data
        & 0xFFFF_FFFF)) >> 32u64))) by (bit_vector)
        requires
            f >> 32u64 == 0,
    ;
}

/// The last round undoes itself.
pub proof fn lemma_last_round_involution(data: u64, key: u64)
    ensures
        last_round_spec(last_round_spec(data, key), key) == data,
{
    let f = feistel_spec(data & LOW_HALF_MASK, key);
    lemma_feistel_fits(data & LOW_HALF_MASK, key);
    let once = last_round_spec(data, key);
    assert(once & LOW_HALF_MASK == data & LOW_HALF_MASK && (once >> 32u64) ^ f == data >> 32u64)
        by (bit_vector)
        requires
            once == (((data >> 32u64) ^ f) << 32u64) | (data & 0xFFFF_FFFF),
            f >> 32u64 == 0,
    ;
    assert(((((once >> 32u64) ^ f) << 32u64) | (once & 0xFFFF_FFFF)) == data) by (bit_vector)
        requires
            once & 0xFFFF_FFFF == data & 0xFFFF_FFFF,
            (once >> 32u64) ^ f == data >> 32u64,
    ;
}

/// Swapping the halves twice restores the block.
pub proof fn lemma_swap_halves_involution(data: u64)
    ensures
        swap_halves(swap_halves(data)) == data,
{
    assert((((data << 32u64) | (data >> 32u64)) << 32u64) | (((data << 32u64) | (data >> 32u64))
        >> 32u64) == data) by (bit_vector);
}

/// A round run backwards with the same key undoes the forward round.
pub proof fn lemma_decrypt_round_inverts(data: u64, key: u64)
    ensures
        decrypt_round_spec(round_spec(data, key), key) == data,
{
    lemma_round_is_swapped_last_round(data, key);
    lemma_swap_halves_involution(last_round_spec(data, key));
    lemma_round_is_swapped_last_round(last_round_spec(data, key), key);
    lemma_last_round_involution(data, key);
    lemma_swap_halves_involution(data);
}

proof fn lemma_chunk_extract(x: u64, g: nat)
    requires
        g < 8,
    ensures
        shr(
            x & range_mask((42 - 6 * g) as u64, (48 - 6 * g) as u64),
            (42 - 6 * g) as u64,
        ) == chunk(x, g),
{
    let s = (42 - 6 * g) as u64;
    let e = (48 - 6 * g) as u64;
    assert(range_mask(s, e) == ((((1u64 << e) - 1) as u64) & !(((1u64 << s) - 1) as u64)));
    assert((x & ((((1u64 << e) - 1) as u64) & !(((1u64 << s) - 1) as u64))) >> s == (x >> s) & 63)
        by (bit_vector)
        requires
            s <= 42,
            e == s + 6,
    ;
}

proof fn lemma_split_halves(data: u64)
    ensures
        shr(data & range_mask(32, 64), 32) == data >> 32u64,
        data & low_mask(32) == data & LOW_HALF_MASK,
        shr(data & range_mask(32, 64), 32) | shl(data & low_mask(32), 32) == swap_halves(data),
        data & LOW_HALF_MASK <= 0xFFFF_FFFFu64,
        ((data & LOW_HALF_MASK) as u32) as u64 == data & LOW_HALF_MASK,
{
    assert(low_mask(32) == 0xFFFF_FFFFu64) by {
        assert(((1u64 << 32u64) - 1) as u64 == 0xFFFF_FFFFu64) by (bit_vector);
    }
    assert(range_mask(32, 64) == 0xFFFF_FFFF_FFFF_FFFFu64 & !0xFFFF_FFFFu64);
    assert((data & (0xFFFF_FFFF_FFFF_FFFFu64 & !0xFFFF_FFFFu64)) >> 32u64 == data >> 32u64 && ((data
        >> 32u64) | ((data & 0xFFFF_FFFFu64) << 32u64)) == (data << 32u64) | (data >> 32u64) && data
        & 0xFFFF_FFFFu64 <= 0xFFFF_FFFFu64 && ((data & 0xFFFF_FFFFu64) as u32) as u64 == data
        & 0xFFFF_FFFFu64) by (bit_vector);
}

/// The tables that a round reads: the expansion, the eight S-boxes and the
/// final permutation.
pub struct RoundTables {
    expansion: PermutationTable,
    final_permutation: PermutationTable,
    granulations: Vec<EncodingTable>,
}

impl RoundTables {
    /// The tables are the standard's.
    pub closed spec fn wf(&self) -> bool {
        &&& self.expansion.wf()
        &&& self.expansion.input_width() == 32
        &&& self.expansion.output_width() == 48
        &&& self.expansion.sources() == expansion_sources()
        &&& self.final_permutation.wf()
        &&& self.final_permutation.input_width() == 32
        &&& self.final_permutation.output_width() == 32
        &&& self.final_permutation.sources() == round_permutation_sources()
        &&& self.granulations@.len() == 8
        &&& forall|i: int|
            0 <= i < 8 ==> (#[trigger] self.granulations@[i]).wf() && self.granulations@[i].rules()
                == sbox_table(i)
    }

    /// Builds the standard's round tables.
    pub fn new() -> (r: Self)
        ensures
            r.wf(),
    {
        RoundTables {
            expansion: expansion(),
            final_permutation: round_permutation(),
            granulations: sboxes(),
        }
    }

    /// The Feistel function of the 32-bit half `data` and the round key
    /// `key`.
    pub fn feistel(&self, data: u32, key: u64) -> (r: u32)
        requires
            self.wf(),
        ensures
            r as u64 == feistel_spec(data as u64, key),
    {
        let expanded_data = self.expansion.apply(data as u64);
        let encrypted_data = expanded_data ^ key;
        let mut merged_data: u64 = 0;
        let mut g: usize = 0;
        while g < 8
            invariant
                self.wf(),
                g <= 8,
                merged_data == substitution(encrypted_data, g as nat),
            decreases 8 - g,
        {
            let begin = 42 - 6 * (g as u32);
            let block = extract_bit_range(encrypted_data, begin, begin + 6, 48).unwrap();
            proof {
                lemma_chunk_extract(encrypted_data, g as nat);
            }
            let encoded_data = self.granulations[g].apply(block);
            merged_data = (merged_data << 4u64) | encoded_data;
            g += 1;
        }
        let out = self.final_permutation.apply(merged_data);
        proof {
            lemma_feistel_fits(data as u64, key);
            assert(out <= 0xFFFF_FFFFu64 ==> (out as u32) as u64 == out) by (bit_vector);
        }
        out as u32
    }

    /// One forward round of `data` with the round key `key`.
    pub fn round(&self, data: u64, key: u64) -> (r: u64)
        requires
            self.wf(),
        ensures
            r == round_spec(data, key),
    {
        let (high_half, low_half) = split_by_bit(data, BITS_IN_LOW_HALF, BITS_IN_BLOCK).unwrap();
        proof {
            lemma_split_halves(data);
        }
        let f = self.feistel(low_half as u32, key);
        (low_half << 32u64) | (high_half ^ (f as u64))
    }

    /// The last round of `data` with the round key `key`: the halves are
    /// not swapped.
    pub fn last_round(&self, data: u64, key: u64) -> (r: u64)
        requires
            self.wf(),
        ensures
            r == last_round_spec(data, key),
    {
        let (high_half, low_half) = split_by_bit(data, BITS_IN_LOW_HALF, BITS_IN_BLOCK).unwrap();
        proof {
            lemma_split_halves(data);
        }
        let f = self.feistel(low_half as u32, key);
        ((high_half ^ (f as u64)) << 32u64) | low_half
    }
}

/// The Feistel function of the 32-bit half `data` and the round key `key`.
pub fn feilstel_function(data: u32, key: Key) -> (r: u32)
    ensures
        r as u64 == feistel_spec(data as u64, key.value),
{
    let tables = RoundTables::new();
    tables.feistel(data, key.value)
}

/// One forward round of the block `data` with `key`: the new high half is
/// the old low half, the new low half the old high half mixed with the
/// Feistel function of the old low half.
pub fn encrypt_round(data: u64, key: Key) -> (r: u64)
    ensures
        r == round_spec(data, key.value),
{
    let tables = RoundTables::new();
    tables.round(data, key.value)
}

/// The last round of the block `data` with `key`, which mixes the high half
/// and does not swap the halves.
pub fn encrypt_last_round(data: u64, key: Key) -> (r: u64)
    ensures
        r == last_round_spec(data, key.value),
{
    let tables = RoundTables::new();
    tables.last_round(data, key.value)
}

/// Undoes `encrypt_round` with the same key: the halves are swapped before
/// and after a forward round.
pub fn decrypt_round(data: u64, key: Key) -> (r: u64)
    ensures
        r == decrypt_round_spec(data, key.value),
{
    let swapped_halfs = swap_ranges(data, BITS_IN_LOW_HALF, BITS_IN_BLOCK).unwrap();
    proof {
        lemma_split_halves(data);
    }
    let decrypted_data = encrypt_round(swapped_halfs, key);
    let end = swap_ranges(decrypted_data, BITS_IN_LOW_HALF, BITS_IN_BLOCK).unwrap();
    proof {
        lemma_split_halves(decrypted_data);
    }
    end
}

} // verus!
