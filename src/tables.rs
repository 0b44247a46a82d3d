//! The constant tables of the standard, as published: entries are numbered
//! from 1 and count input bits from the most significant one.
use vstd::prelude::*;

use crate::bit_encoding::{column_index, row_index, substitute_spec, EncodingTable};
use crate::bit_permutation::{sources_from_table, table_entries_valid, PermutationTable};

verus! {

/// The numbering origin of the published tables.
pub const BIT_COUNT_FROM: u32 = 1;

/// The permutation applied to a data block before the rounds (64 to 64 bits).
pub open spec fn ip_table() -> Seq<u32> {
    seq![
        58u32, 50, 42, 34, 26, 18, 10, 2, 60, 52, 44, 36, 28, 20, 12, 4,
        62, 54, 46, 38, 30, 22, 14, 6, 64, 56, 48, 40, 32, 24, 16, 8,
        57, 49, 41, 33, 25, 17, 9, 1, 59, 51, 43, 35, 27, 19, 11, 3,
        61, 53, 45, 37, 29, 21, 13, 5, 63, 55, 47, 39, 31, 23, 15, 7,
    ]
}

/// Bit sources of `ip_table`, counted from the least significant bit.
pub open spec fn ip_sources() -> Seq<u32> {
    sources_from_table(ip_table(), BIT_COUNT_FROM, 64)
}

/// Builds the initial permutation of a data block.
pub fn initial_permutation() -> (r: PermutationTable)
    ensures
        r.wf(),
        r.input_width() == 64,
        r.output_width() == 64,
        r.sources() == ip_sources(),
{
    let v: Vec<u32> = vec![
        58, 50, 42, 34, 26, 18, 10, 2, 60, 52, 44, 36, 28, 20, 12, 4,
        62, 54, 46, 38, 30, 22, 14, 6, 64, 56, 48, 40, 32, 24, 16, 8,
        57, 49, 41, 33, 25, 17, 9, 1, 59, 51, 43, 35, 27, 19, 11, 3,
        61, 53, 45, 37, 29, 21, 13, 5, 63, 55, 47, 39, 31, 23, 15, 7,
    ];
    assert(v@ == ip_table());
    assert(table_entries_valid(v@, BIT_COUNT_FROM, 64));
    PermutationTable::new(v, BIT_COUNT_FROM, 64)
}

/// The permutation applied to a data block after the rounds, the inverse of
/// the initial one (64 to 64 bits).
pub open spec fn fp_table() -> Seq<u32> {
    seq![
        40u32, 8, 48, 16, 56, 24, 64, 32, 39, 7, 47, 15, 55, 23, 63, 31,
        38, 6, 46, 14, 54, 22, 62, 30, 37, 5, 45, 13, 53, 21, 61, 29,
        36, 4, 44, 12, 52, 20, 60, 28, 35, 3, 43, 11, 51, 19, 59, 27,
        34, 2, 42, 10, 50, 18, 58, 26, 33, 1, 41, 9, 49, 17, 57, 25,
    ]
}

/// Bit sources of `fp_table`, counted from the least significant bit.
pub open spec fn fp_sources() -> Seq<u32> {
    sources_from_table(fp_table(), BIT_COUNT_FROM, 64)
}

/// Builds the inverse initial permutation of a data block.
pub fn reverse_permutation() -> (r: PermutationTable)
    ensures
        r.wf(),
        r.input_width() == 64,
        r.output_width() == 64,
        r.sources() == fp_sources(),
{
    let v: Vec<u32> = vec![
        40, 8, 48, 16, 56, 24, 64, 32, 39, 7, 47, 15, 55, 23, 63, 31,
        38, 6, 46, 14, 54, 22, 62, 30, 37, 5, 45, 13, 53, 21, 61, 29,
        36, 4, 44, 12, 52, 20, 60, 28, 35, 3, 43, 11, 51, 19, 59, 27,
        34, 2, 42, 10, 50, 18, 58, 26, 33, 1, 41, 9, 49, 17, 57, 25,
    ];
    assert(v@ == fp_table());
    assert(table_entries_valid(v@, BIT_COUNT_FROM, 64));
    PermutationTable::new(v, BIT_COUNT_FROM, 64)
}

/// The key's initial permutation, which drops the 8 parity bits (64 to 56 bits).
pub open spec fn pc1_table() -> Seq<u32> {
    seq![
        57u32, 49, 41, 33, 25, 17, 9, 1, 58, 50, 42, 34, 26, 18, 10, 2,
        59, 51, 43, 35, 27, 19, 11, 3, 60, 52, 44, 36, 63, 55, 47, 39,
        31, 23, 15, 7, 62, 54, 46, 38, 30, 22, 14, 6, 61, 53, 45, 37,
        29, 21, 13, 5, 28, 20, 12, 4,
    ]
}

/// Bit sources of `pc1_table`, counted from the least significant bit.
pub open spec fn pc1_sources() -> Seq<u32> {
    sources_from_table(pc1_table(), BIT_COUNT_FROM, 64)
}

/// Builds the key's initial permutation (64 to 56 bits).
pub fn key_initial_permutation() -> (r: PermutationTable)
    ensures
        r.wf(),
        r.input_width() == 64,
        r.output_width() == 56,
        r.sources() == pc1_sources(),
{
    let v: Vec<u32> = vec![
        57, 49, 41, 33, 25, 17, 9, 1, 58, 50, 42, 34, 26, 18, 10, 2,
        59, 51, 43, 35, 27, 19, 11, 3, 60, 52, 44, 36, 63, 55, 47, 39,
        31, 23, 15, 7, 62, 54, 46, 38, 30, 22, 14, 6, 61, 53, 45, 37,
        29, 21, 13, 5, 28, 20, 12, 4,
    ];
    assert(v@ == pc1_table());
    assert(table_entries_valid(v@, BIT_COUNT_FROM, 64));
    PermutationTable::new(v, BIT_COUNT_FROM, 64)
}

/// The compression of a 56-bit inner key into a 48-bit round key.
pub open spec fn pc2_table() -> Seq<u32> {
    seq![
        14u32, 17, 11, 24, 1, 5, 3, 28, 15, 6, 21, 10, 23, 19, 12, 4,
        26, 8, 16, 7, 27, 20, 13, 2, 41, 52, 31, 37, 47, 55, 30, 40,
        51, 45, 33, 48, 44, 49, 39, 56, 34, 53, 46, 42, 50, 36, 29, 32,
    ]
}

/// Bit sources of `pc2_table`, counted from the least significant bit.
pub open spec fn pc2_sources() -> Seq<u32> {
    sources_from_table(pc2_table(), BIT_COUNT_FROM, 56)
}

/// Builds the compression of an inner key into a round key (56 to 48 bits).
pub fn key_compression() -> (r: PermutationTable)
    ensures
        r.wf(),
        r.input_width() == 56,
        r.output_width() == 48,
        r.sources() == pc2_sources(),
{
    let v: Vec<u32> = vec![
        14, 17, 11, 24, 1, 5, 3, 28, 15, 6, 21, 10, 23, 19, 12, 4,
        26, 8, 16, 7, 27, 20, 13, 2, 41, 52, 31, 37, 47, 55, 30, 40,
        51, 45, 33, 48, 44, 49, 39, 56, 34, 53, 46, 42, 50, 36, 29, 32,
    ];
    assert(v@ == pc2_table());
    assert(table_entries_valid(v@, BIT_COUNT_FROM, 56));
    PermutationTable::new(v, BIT_COUNT_FROM, 56)
}

/// The expansion of a 32-bit half block to 48 bits; each bit at the border
/// of a 4-bit group is used twice.
pub open spec fn expansion_table() -> Seq<u32> {
    seq![
        32u32, 1, 2, 3, 4, 5, 4, 5, 6, 7, 8, 9, 8, 9, 10, 11,
        12, 13, 12, 13, 14, 15, 16, 17, 16, 17, 18, 19, 20, 21, 20, 21,
        22, 23, 24, 25, 24, 25, 26, 27, 28, 29, 28, 29, 30, 31, 32, 1,
    ]
}

/// Bit sources of `expansion_table`, counted from the least significant bit.
pub open spec fn expansion_sources() -> Seq<u32> {
    sources_from_table(expansion_table(), BIT_COUNT_FROM, 32)
}

/// Builds the expansion of a half block (32 to 48 bits).
pub fn expansion() -> (r: PermutationTable)
    ensures
        r.wf(),
        r.input_width() == 32,
        r.output_width() == 48,
        r.sources() == expansion_sources(),
{
    let v: Vec<u32> = vec![
        32, 1, 2, 3, 4, 5, 4, 5, 6, 7, 8, 9, 8, 9, 10, 11,
        12, 13, 12, 13, 14, 15, 16, 17, 16, 17, 18, 19, 20, 21, 20, 21,
        22, 23, 24, 25, 24, 25, 26, 27, 28, 29, 28, 29, 30, 31, 32, 1,
    ];
    assert(v@ == expansion_table());
    assert(table_entries_valid(v@, BIT_COUNT_FROM, 32));
    PermutationTable::new(v, BIT_COUNT_FROM, 32)
}

/// The permutation of the 32 bits that the substitution step produces.
pub open spec fn round_permutation_table() -> Seq<u32> {
    seq![
        16u32, 7, 20, 21, 29, 12, 28, 17, 1, 15, 23, 26, 5, 18, 31, 10,
        2, 8, 24, 14, 32, 27, 3, 9, 19, 13, 30, 6, 22, 11, 4, 25,
    ]
}

/// Bit sources of `round_permutation_table`, counted from the least significant bit.
pub open spec fn round_permutation_sources() -> Seq<u32> {
    sources_from_table(round_permutation_table(), BIT_COUNT_FROM, 32)
}

/// Builds the permutation of the substitution step's output (32 to 32 bits).
pub fn round_permutation() -> (r: PermutationTable)
    ensures
        r.wf(),
        r.input_width() == 32,
        r.output_width() == 32,
        r.sources() == round_permutation_sources(),
{
    let v: Vec<u32> = vec![
        16, 7, 20, 21, 29, 12, 28, 17, 1, 15, 23, 26, 5, 18, 31, 10,
        2, 8, 24, 14, 32, 27, 3, 9, 19, 13, 30, 6, 22, 11, 4, 25,
    ];
    assert(v@ == round_permutation_table());
    assert(table_entries_valid(v@, BIT_COUNT_FROM, 32));
    PermutationTable::new(v, BIT_COUNT_FROM, 32)
}

/// The lookup of S-box `i` (0 to 7), row by row: entry `row * 16 + column`.
pub open spec fn sbox_table(i: int) -> Seq<u64> {
    if i == 0 {
        seq![
            14u64, 4, 13, 1, 2, 15, 11, 8, 3, 10, 6, 12, 5, 9, 0, 7,
            0, 15, 7, 4, 14, 2, 13, 1, 10, 6, 12, 11, 9, 5, 3, 8,
            4, 1, 14, 8, 13, 6, 2, 11, 15, 12, 9, 7, 3, 10, 5, 0,
            15, 12, 8, 2, 4, 9, 1, 7, 5, 11, 3, 14, 10, 0, 6, 13,
        ]
    } else if i == 1 {
        seq![
            15u64, 1, 8, 14, 6, 11, 3, 4, 9, 7, 2, 13, 12, 0, 5, 10,
            3, 13, 4, 7, 15, 2, 8, 14, 12, 0, 1, 10, 6, 9, 11, 5,
            0, 14, 7, 11, 10, 4, 13, 1, 5, 8, 12, 6, 9, 3, 2, 15,
            13, 8, 10, 1, 3, 15, 4, 2, 11, 6, 7, 12, 0, 5, 14, 9,
        ]
    } else if i == 2 {
        seq![
            10u64, 0, 9, 14, 6, 3, 15, 5, 1, 13, 12, 7, 11, 4, 2, 8,
            13, 7, 0, 9, 3, 4, 6, 10, 2, 8, 5, 14, 12, 11, 15, 1,
            13, 6, 4, 9, 8, 15, 3, 0, 11, 1, 2, 12, 5, 10, 14, 7,
            1, 10, 13, 0, 6, 9, 8, 7, 4, 15, 14, 3, 11, 5, 2, 12,
        ]
    } else if i == 3 {
        seq![
            7u64, 13, 14, 3, 0, 6, 9, 10, 1, 2, 8, 5, 11, 12, 4, 15,
            13, 8, 11, 5, 6, 15, 0, 3, 4, 7, 2, 12, 1, 10, 14, 9,
            10, 6, 9, 0, 12, 11, 7, 13, 15, 1, 3, 14, 5, 2, 8, 4,
            3, 15, 0, 6, 10, 1, 13, 8, 9, 4, 5, 11, 12, 7, 2, 14,
        ]
    } else if i == 4 {
        seq![
            2u64, 12, 4, 1, 7, 10, 11, 6, 8, 5, 3, 15, 13, 0, 14, 9,
            14, 11, 2, 12, 4, 7, 13, 1, 5, 0, 15, 10, 3, 9, 8, 6,
            4, 2, 1, 11, 10, 13, 7, 8, 15, 9, 12, 5, 6, 3, 0, 14,
            11, 8, 12, 7, 1, 14, 2, 13, 6, 15, 0, 9, 10, 4, 5, 3,
        ]
    } else if i == 5 {
        seq![
            12u64, 1, 10, 15, 9, 2, 6, 8, 0, 13, 3, 4, 14, 7, 5, 11,
            10, 15, 4, 2, 7, 12, 9, 5, 6, 1, 13, 14, 0, 11, 3, 8,
            9, 14, 15, 5, 2, 8, 12, 3, 7, 0, 4, 10, 1, 13, 11, 6,
            4, 3, 2, 12, 9, 5, 15, 10, 11, 14, 1, 7, 6, 0, 8, 13,
        ]
    } else if i == 6 {
        seq![
            4u64, 11, 2, 14, 15, 0, 8, 13, 3, 12, 9, 7, 5, 10, 6, 1,
            13, 0, 11, 7, 4, 9, 1, 10, 14, 3, 5, 12, 2, 15, 8, 6,
            1, 4, 11, 13, 12, 3, 7, 14, 10, 15, 6, 8, 0, 5, 9, 2,
            6, 11, 13, 8, 1, 4, 10, 7, 9, 5, 0, 15, 14, 2, 3, 12,
        ]
    } else {
        seq![
            13u64, 2, 8, 4, 6, 15, 11, 1, 10, 9, 3, 14, 5, 0, 12, 7,
            1, 15, 13, 8, 10, 3, 7, 4, 12, 5, 6, 11, 0, 14, 9, 2,
            7, 11, 4, 1, 9, 12, 14, 2, 0, 6, 10, 13, 15, 3, 5, 8,
            2, 1, 14, 7, 4, 10, 8, 13, 15, 12, 9, 0, 3, 5, 6, 11,
        ]
    }
}

/// Every entry of S-box `i` fits in 4 bits.
pub proof fn lemma_sbox_entries(i: int)
    requires
        0 <= i < 8,
    ensures
        sbox_table(i).len() == 64,
        forall|j: int| 0 <= j < 64 ==> #[trigger] sbox_table(i)[j] < 16,
{
}

/// Every S-box gives a 4-bit output for every input: the outer bits select
/// one of 4 rows and the inner bits one of 16 columns, and every entry fits
/// in 4 bits.
pub proof fn lemma_sbox_output_width(i: int, x: u64)
    requires
        0 <= i < 8,
    ensures
        substitute_spec(sbox_table(i), x) < 16,
{
    lemma_sbox_entries(i);
    assert((x >> 5u64) & 1 <= 1 && x & 1 <= 1 && (x >> 0u64) & 1 == x & 1 && (x >> 1u64) & 15 < 16)
        by (bit_vector);
    assert(0 <= row_index(x) * 16 + (column_index(x) as int) < 64);
}

/// The lookup data of S-box `i`.
fn sbox_rules(i: usize) -> (r: Vec<u64>)
    requires
        i < 8,
    ensures
        r@ == sbox_table(i as int),
{
    if i == 0 {
        let v: Vec<u64> = vec![
            14, 4, 13, 1, 2, 15, 11, 8, 3, 10, 6, 12, 5, 9, 0, 7,
            0, 15, 7, 4, 14, 2, 13, 1, 10, 6, 12, 11, 9, 5, 3, 8,
            4, 1, 14, 8, 13, 6, 2, 11, 15, 12, 9, 7, 3, 10, 5, 0,
            15, 12, 8, 2, 4, 9, 1, 7, 5, 11, 3, 14, 10, 0, 6, 13,
        ];
        assert(v@ == sbox_table(0));
        v
    } else if i == 1 {
        let v: Vec<u64> = vec![
            15, 1, 8, 14, 6, 11, 3, 4, 9, 7, 2, 13, 12, 0, 5, 10,
            3, 13, 4, 7, 15, 2, 8, 14, 12, 0, 1, 10, 6, 9, 11, 5,
            0, 14, 7, 11, 10, 4, 13, 1, 5, 8, 12, 6, 9, 3, 2, 15,
            13, 8, 10, 1, 3, 15, 4, 2, 11, 6, 7, 12, 0, 5, 14, 9,
        ];
        assert(v@ == sbox_table(1));
        v
    } else if i == 2 {
        let v: Vec<u64> = vec![
            10, 0, 9, 14, 6, 3, 15, 5, 1, 13, 12, 7, 11, 4, 2, 8,
            13, 7, 0, 9, 3, 4, 6, 10, 2, 8, 5, 14, 12, 11, 15, 1,
            13, 6, 4, 9, 8, 15, 3, 0, 11, 1, 2, 12, 5, 10, 14, 7,
            1, 10, 13, 0, 6, 9, 8, 7, 4, 15, 14, 3, 11, 5, 2, 12,
        ];
        assert(v@ == sbox_table(2));
        v
    } else if i == 3 {
        let v: Vec<u64> = vec![
            7, 13, 14, 3, 0, 6, 9, 10, 1, 2, 8, 5, 11, 12, 4, 15,
            13, 8, 11, 5, 6, 15, 0, 3, 4, 7, 2, 12, 1, 10, 14, 9,
            10, 6, 9, 0, 12, 11, 7, 13, 15, 1, 3, 14, 5, 2, 8, 4,
            3, 15, 0, 6, 10, 1, 13, 8, 9, 4, 5, 11, 12, 7, 2, 14,
        ];
        assert(v@ == sbox_table(3));
        v
    } else if i == 4 {
        let v: Vec<u64> = vec![
            2, 12, 4, 1, 7, 10, 11, 6, 8, 5, 3, 15, 13, 0, 14, 9,
            14, 11, 2, 12, 4, 7, 13, 1, 5, 0, 15, 10, 3, 9, 8, 6,
            4, 2, 1, 11, 10, 13, 7, 8, 15, 9, 12, 5, 6, 3, 0, 14,
            11, 8, 12, 7, 1, 14, 2, 13, 6, 15, 0, 9, 10, 4, 5, 3,
        ];
        assert(v@ == sbox_table(4));
        v
    } else if i == 5 {
        let v: Vec<u64> = vec![
            12, 1, 10, 15, 9, 2, 6, 8, 0, 13, 3, 4, 14, 7, 5, 11,
            10, 15, 4, 2, 7, 12, 9, 5, 6, 1, 13, 14, 0, 11, 3, 8,
            9, 14, 15, 5, 2, 8, 12, 3, 7, 0, 4, 10, 1, 13, 11, 6,
            4, 3, 2, 12, 9, 5, 15, 10, 11, 14, 1, 7, 6, 0, 8, 13,
        ];
        assert(v@ == sbox_table(5));
        v
    } else if i == 6 {
        let v: Vec<u64> = vec![
            4, 11, 2, 14, 15, 0, 8, 13, 3, 12, 9, 7, 5, 10, 6, 1,
            13, 0, 11, 7, 4, 9, 1, 10, 14, 3, 5, 12, 2, 15, 8, 6,
            1, 4, 11, 13, 12, 3, 7, 14, 10, 15, 6, 8, 0, 5, 9, 2,
            6, 11, 13, 8, 1, 4, 10, 7, 9, 5, 0, 15, 14, 2, 3, 12,
        ];
        assert(v@ == sbox_table(6));
        v
    } else {
        let v: Vec<u64> = vec![
            13, 2, 8, 4, 6, 15, 11, 1, 10, 9, 3, 14, 5, 0, 12, 7,
            1, 15, 13, 8, 10, 3, 7, 4, 12, 5, 6, 11, 0, 14, 9, 2,
            7, 11, 4, 1, 9, 12, 14, 2, 0, 6, 10, 13, 15, 3, 5, 8,
            2, 1, 14, 7, 4, 10, 8, 13, 15, 12, 9, 0, 3, 5, 6, 11,
        ];
        assert(v@ == sbox_table(7));
        v
    }
}

/// Row-selecting bit positions of every S-box: the two outer bits of the
/// 6-bit input, counted from its most significant bit.
pub open spec fn sbox_row_bits() -> Seq<u32> {
    seq![0u32, 5]
}

/// Builds S-box `i` (0 to 7).
pub fn sbox(i: usize) -> (r: EncodingTable)
    requires
        i < 8,
    ensures
        r.wf(),
        r.rules() == sbox_table(i as int),
{
    proof {
        lemma_sbox_entries(i as int);
    }
    let rules = sbox_rules(i);
    let row_bits: Vec<u32> = vec![0, 5];
    assert(row_bits@ == sbox_row_bits());
    EncodingTable::new(rules, row_bits.as_slice(), 6, 4)
}

/// Builds the eight S-boxes, in order.
pub fn sboxes() -> (r: Vec<EncodingTable>)
    ensures
        r@.len() == 8,
        forall|i: int| 0 <= i < 8 ==> (#[trigger] r@[i]).wf() && r@[i].rules() == sbox_table(i),
{
    let mut r: Vec<EncodingTable> = Vec::new();
    let mut i: usize = 0;
    while i < 8
        invariant
            i <= 8,
            r@.len() == i,
            forall|j: int| 0 <= j < i ==> (#[trigger] r@[j]).wf() && r@[j].rules() == sbox_table(j),
        decreases 8 - i,
    {
        r.push(sbox(i));
        i += 1;
    }
    r
}

} // verus!
