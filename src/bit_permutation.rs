//! Declarative bit reordering: a table names, for each output bit, the input
//! bit that it copies.
use vstd::prelude::*;

use crate::bit_arithmetics::{bit_of, get_bit};

verus! {

/// The value whose bits, most significant first, are the bits of `v` that
/// the first `n` entries of `sources` name.
pub open spec fn permute(sources: Seq<u32>, v: u64, n: nat) -> u64
    decreases n,
{
    if n == 0 {
        0
    } else {
        (permute(sources, v, (n - 1) as nat) << 1u64) | bit_of(v, sources[n - 1] as u64)
    }
}

/// Table entries as written in a published table (numbered from
/// `numbering_from`, most significant input bit first) turned into bit
/// positions counted from the least significant bit.
pub open spec fn sources_from_table(table: Seq<u32>, numbering_from: u32, input_size: u32) -> Seq<
    u32,
> {
    table.map_values(|e: u32| (input_size - 1 - (e - numbering_from)) as u32)
}

/// Table entries as written in a published table, less the numbering origin:
/// zero-based input bit positions, counted from the most significant bit.
pub open spec fn destinations_from_table(table: Seq<u32>, numbering_from: u32) -> Seq<u32> {
    table.map_values(|e: u32| (e - numbering_from) as u32)
}

/// Every entry of a published table is within the input's numbering.
pub open spec fn table_entries_valid(table: Seq<u32>, numbering_from: u32, input_size: u32) -> bool {
    forall|i: int|
        0 <= i < table.len() ==> numbering_from <= #[trigger] table[i] && table[i] - numbering_from
            < input_size
}

/// A bit permutation (or selection, or expansion) from an `input_size`-bit
/// value to an `output_size`-bit one.
pub struct PermutationTable {
    input_size: u32,
    output_size: u32,
    bit_destinations: Vec<u32>,
    sources: Vec<u32>,
}

impl PermutationTable {
    /// Width of the input.
    pub closed spec fn input_width(&self) -> u32 {
        self.input_size
    }

    /// Width of the output.
    pub closed spec fn output_width(&self) -> u32 {
        self.output_size
    }

    /// For each output bit, most significant first, the input bit it copies,
    /// counted from the least significant bit.
    pub closed spec fn sources(&self) -> Seq<u32> {
        self.sources@
    }

    /// For each output bit, most significant first, the input bit it copies,
    /// zero-based and counted from the most significant input bit.
    pub closed spec fn destinations(&self) -> Seq<u32> {
        self.bit_destinations@
    }

    /// The table's invariant: one source per output bit, each within the
    /// input, and both widths within a word.
    pub open spec fn wf(&self) -> bool {
        &&& self.input_width() <= 64
        &&& self.output_width() <= 64
        &&& self.sources().len() == self.output_width()
        &&& forall|i: int|
            0 <= i < self.sources().len() ==> #[trigger] self.sources()[i] < self.input_width()
        &&& self.destinations().len() == self.sources().len()
        &&& forall|i: int|
            0 <= i < self.sources().len() ==> #[trigger] self.destinations()[i] + self.sources()[i]
                == self.input_width() - 1
    }

    /// What `apply` returns for `value`.
    pub open spec fn apply_spec(&self, value: u64) -> u64 {
        permute(self.sources(), value, self.output_width() as nat)
    }

    /// Builds a table from its published form: `bit_destinations[i]` names
    /// the input bit that becomes output bit `i`, counting the input's bits
    /// from the most significant one and starting at `numbering_from`.
    pub fn new(bit_destinations: Vec<u32>, numbering_from: u32, input_size_bits: u32) -> (r: Self)
        requires
            input_size_bits <= 64,
            bit_destinations@.len() <= 64,
            table_entries_valid(bit_destinations@, numbering_from, input_size_bits),
        ensures
            r.wf(),
            r.input_width() == input_size_bits,
            r.output_width() == bit_destinations@.len(),
            r.sources() == sources_from_table(bit_destinations@, numbering_from, input_size_bits),
            r.destinations() == destinations_from_table(bit_destinations@, numbering_from),
    {
        let mut sources: Vec<u32> = Vec::new();
        let mut destinations: Vec<u32> = Vec::new();
        let mut i: usize = 0;
        while i < bit_destinations.len()
            invariant
                i <= bit_destinations@.len() <= 64,
                input_size_bits <= 64,
                table_entries_valid(bit_destinations@, numbering_from, input_size_bits),
                sources@ == sources_from_table(bit_destinations@, numbering_from, input_size_bits).take(i as int),
                destinations@ == destinations_from_table(bit_destinations@, numbering_from).take(i as int),
            decreases bit_destinations@.len() - i,
        {
            let e = bit_destinations[i];
            assert(numbering_from <= bit_destinations@[i as int]);
            sources.push(input_size_bits - 1 - (e - numbering_from));
            destinations.push(e - numbering_from);
            assert(sources@ =~= sources_from_table(bit_destinations@, numbering_from, input_size_bits).take(i + 1));
            assert(destinations@ =~= destinations_from_table(bit_destinations@, numbering_from).take(i + 1));
            i += 1;
        }
        assert(sources@ =~= sources_from_table(bit_destinations@, numbering_from, input_size_bits));
        assert(destinations@ =~= destinations_from_table(bit_destinations@, numbering_from));
        let output_size = sources.len() as u32;
        PermutationTable { input_size: input_size_bits, output_size, bit_destinations: destinations, sources }
    }

    /// Reorders the bits of `value`: output bit `output_size - 1 - i` is the
    /// input bit that entry `i` names.
    pub fn apply(&self, value: u64) -> (r: u64)
        requires
            self.wf(),
        ensures
            r == self.apply_spec(value),
    {
        let mut result: u64 = 0;
        let mut i: usize = 0;
        while i < self.sources.len()
            invariant
                self.wf(),
                i <= self.sources@.len(),
                result == permute(self.sources@, value, i as nat),
            decreases self.sources@.len() - i,
        {
            let src = self.sources[i];
            let b = get_bit(value, src, self.input_size);
            result = (result << 1u64) | b;
            i += 1;
        }
        result
    }

    /// Width of the input.
    pub fn input_size(&self) -> (r: u32)
        ensures
            r == self.input_width(),
    {
        self.input_size
    }

    /// Width of the output.
    pub fn output_size(&self) -> (r: u32)
        ensures
            r == self.output_width(),
    {
        self.output_size
    }

    /// The table's entries less the numbering origin: for each output bit,
    /// most significant first, the input bit it copies, zero-based and
    /// counted from the most significant input bit.
    pub fn bit_destinations(&self) -> (r: &Vec<u32>)
        ensures
            r@ == self.destinations(),
    {
        &self.bit_destinations
    }
}

proof fn lemma_shift_in_bit(p: u64, b: u64, n: u64)
    requires
        b <= 1,
        n < 64,
        p >> n == 0,
    ensures
        bit_of((p << 1u64) | b, 0) == b,
        forall|k: u64| k < 63 ==> #[trigger] bit_of((p << 1u64) | b, (k + 1) as u64) == bit_of(p, k),
        ((p << 1u64) | b) >> ((n + 1) as u64) == 0,
{
    let q = (p << 1u64) | b;
    assert forall|k: u64| k < 63 implies #[trigger] bit_of(q, (k + 1) as u64) == bit_of(p, k) by {
        assert((q >> ((k + 1) as u64)) & 1 == (p >> k) & 1) by (bit_vector)
            requires
                b <= 1,
                k < 63,
                q == (p << 1u64) | b,
        ;
    }
    assert((q >> 0u64) & 1 == b && q >> ((n + 1) as u64) == 0) by (bit_vector)
        requires
            b <= 1,
            n < 64,
            p >> n == 0,
            q == (p << 1u64) | b,
    ;
}

/// Output bit `n - 1 - j` of a permutation is the input bit that entry `j`
/// names, and the output has no bits at or above `n`.
pub proof fn lemma_permute_bits(sources: Seq<u32>, v: u64, n: nat)
    requires
        n <= 64,
        n <= sources.len(),
        forall|i: int| 0 <= i < n ==> #[trigger] sources[i] < 64,
    ensures
        forall|j: int|
            0 <= j < n ==> #[trigger] bit_of(permute(sources, v, n), (n - 1 - j) as u64) == bit_of(
                v,
                sources[j] as u64,
            ),
        n < 64 ==> permute(sources, v, n) >> (n as u64) == 0,
        forall|k: u64| n <= k < 64 ==> #[trigger] bit_of(permute(sources, v, n), k) == 0,
    decreases n,
{
    if n == 0 {
        assert(0u64 >> 0u64 == 0) by (bit_vector);
        assert forall|k: u64| k < 64 implies #[trigger] bit_of(0u64, k) == 0 by {
            assert((0u64 >> k) & 1 == 0) by (bit_vector);
        }
    } else {
        let m = (n - 1) as nat;
        lemma_permute_bits(sources, v, m);
        let p = permute(sources, v, m);
        let src = sources[m as int] as u64;
        let b = bit_of(v, src);
        assert(b <= 1) by (bit_vector)
            requires
                b == (v >> src) & 1,
        ;
        lemma_shift_in_bit(p, b, m as u64);
        let q = permute(sources, v, n);
        assert(q == (p << 1u64) | b);
        assert forall|j: int| 0 <= j < n implies #[trigger] bit_of(q, (n - 1 - j) as u64) == bit_of(
            v,
            sources[j] as u64,
        ) by {
            if j < m {
                let k = (m - 1 - j) as u64;
                assert(bit_of(q, (k + 1) as u64) == bit_of(p, k));
                assert((k + 1) as u64 == (n - 1 - j) as u64);
            }
        }
        assert forall|k: u64| n <= k < 64 implies #[trigger] bit_of(q, k) == 0 by {
            let nn = n as u64;
            assert((q >> k) & 1 == 0) by (bit_vector)
                requires
                    nn <= k < 64,
                    q >> nn == 0,
            ;
        }
    }
}

} // verus!
