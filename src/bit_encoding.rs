//! Substitution tables (S-boxes): a fixed lookup from a 6-bit input to a
//! 4-bit output. The two outer bits of the input select the row and the four
//! inner bits the column.
use vstd::prelude::*;

use crate::bit_arithmetics::{bit_of, extract_bit_range, get_bit, range_mask, shr};

verus! {

/// Row of a 6-bit input: its bit 5 followed by its bit 0.
pub open spec fn row_index(x: u64) -> int {
    2 * bit_of(x, 5) + bit_of(x, 0)
}

/// Column of a 6-bit input: its bits 1 to 4.
pub open spec fn column_index(x: u64) -> u64 {
    (x >> 1u64) & 15
}

/// The entry of `rules` that a substitution selects for `x`.
pub open spec fn substitute_spec(rules: Seq<u64>, x: u64) -> u64 {
    rules[row_index(x) * 16 + column_index(x) as int]
}

/// An S-box: 4 rows of 16 columns, addressed by a 6-bit input.
pub struct EncodingTable {
    encoding_rules: Vec<u64>,
    input_size: u32,
    output_size: u32,
    row_bits: Vec<u32>,
}

impl EncodingTable {
    /// The lookup, row by row.
    pub closed spec fn rules(&self) -> Seq<u64> {
        self.encoding_rules@
    }

    /// The table's invariant: a 6-bit input selects among 64 entries of 4
    /// bits each, rows chosen by the outer bits.
    pub open spec fn wf(&self) -> bool {
        &&& self.rules().len() == 64
        &&& forall|i: int| 0 <= i < 64 ==> #[trigger] self.rules()[i] < 16
        &&& self.spec_input_size() == 6
        &&& self.spec_output_size() == 4
        &&& self.row_select_bits() == seq![0u32, 5]
    }

    /// Input bits that select the row, counted from the most significant
    /// input bit.
    pub closed spec fn row_select_bits(&self) -> Seq<u32> {
        self.row_bits@
    }

    /// Width of the input.
    pub closed spec fn spec_input_size(&self) -> u32 {
        self.input_size
    }

    /// Width of the output.
    pub closed spec fn spec_output_size(&self) -> u32 {
        self.output_size
    }

    /// Builds an S-box from its 64 entries, row by row. The row is selected
    /// by the input bits that `row_bits` names, counted from the most
    /// significant of the `input_size` bits: the two outer bits.
    pub fn new(encoding_rules: Vec<u64>, row_bits: &[u32], input_size: u32, output_size: u32) -> (r:
        Self)
        requires
            encoding_rules@.len() == 64,
            forall|i: int| 0 <= i < 64 ==> #[trigger] encoding_rules@[i] < 16,
            row_bits@ == seq![0u32, 5],
            input_size == 6,
            output_size == 4,
        ensures
            r.wf(),
            r.rules() == encoding_rules@,
    {
        let mut bits: Vec<u32> = Vec::new();
        bits.push(row_bits[0]);
        bits.push(row_bits[1]);
        assert(bits@ =~= seq![0u32, 5]);
        EncodingTable { encoding_rules, input_size, output_size, row_bits: bits }
    }

    /// Looks up `number`, a 6-bit input: row from bits 5 and 0, column from
    /// bits 1 to 4. Bits above the input's width are ignored.
    pub fn apply(&self, number: u64) -> (r: u64)
        requires
            self.wf(),
        ensures
            r == substitute_spec(self.rules(), number),
            r < 16,
    {
        let outer_high = get_bit(number, self.input_size - 1 - self.row_bits[0], self.input_size);
        let outer_low = get_bit(number, self.input_size - 1 - self.row_bits[1], self.input_size);
        let row = outer_high * 2 + outer_low;
        let column = extract_bit_range(number, 1, 5, self.input_size).unwrap();
        proof {
            assert(range_mask(1, 5) == 30) by {
                assert(((((1u64 << 5u64) - 1) as u64) & !(((1u64 << 1u64) - 1) as u64)) == 30)
                    by (bit_vector);
            }
            assert((number & 30) >> 1u64 == (number >> 1u64) & 15 && (number >> 1u64) & 15 < 16)
                by (bit_vector);
        }
        self.encoding_rules[(row * 16 + column) as usize]
    }

    /// Width of the input.
    pub fn input_size(&self) -> (r: u32)
        ensures
            r == self.spec_input_size(),
    {
        self.input_size
    }

    /// Width of the output.
    pub fn output_size(&self) -> (r: u32)
        ensures
            r == self.spec_output_size(),
    {
        self.output_size
    }

    /// The lookup, row by row.
    pub fn encoding_rules(&self) -> (r: &Vec<u64>)
        ensures
            r@ == self.rules(),
    {
        &self.encoding_rules
    }
}

} // verus!
