//! The key schedule: 16 round keys of 48 bits derived from a 64-bit master
//! key, served in encrypting or decrypting order.
use vstd::prelude::*;

use crate::bit_arithmetics::{rotate_range_to_high, rotate_range_to_low, rotated_to_high, rotated_to_low};
use crate::algorithm::CipherTables;
use crate::bit_permutation::permute;
use crate::tables::{key_compression, key_initial_permutation, pc1_sources, pc2_sources};

verus! {

/// Number of round keys; serving wraps around after this many.
pub const ROTATIONS_TO_WRAPPING: usize = 16;

/// Width of the inner key that the rotations act on.
pub const INNER_KEY_SIZE_BITS: u32 = 56;

/// The inner key is rotated as two halves that meet at this bit.
pub const INNER_KEY_SPLIT_BIT: u32 = 28;

/// Width of a round key.
pub const ROUND_KEY_SIZE_BITS: u32 = 48;

/// A key: a value of which only the low `size_bits` bits are meaningful.
#[derive(Debug, Clone, Copy, Default)]
pub struct Key {
    pub value: u64,
    pub size_bits: u32,
}

/// How far both halves of the inner key rotate before round `r` (1 to 16).
pub open spec fn rotation_for_round(r: nat) -> u32 {
    if r == 1 || r == 2 || r == 9 || r == 16 {
        1
    } else {
        2
    }
}

/// Both 28-bit halves of a 56-bit inner key rotated by `s` towards their
/// high ends (a left rotation in the standard's notation).
pub open spec fn rotate_halves_left(k: u64, s: u32) -> u64 {
    rotated_to_high(rotated_to_high(k, 0, 28, s, 56), 28, 56, s, 56)
}

/// Both 28-bit halves of a 56-bit inner key rotated by `s` towards their
/// low ends.
pub open spec fn rotate_halves_right(k: u64, s: u32) -> u64 {
    rotated_to_low(rotated_to_low(k, 0, 28, s, 56), 28, 56, s, 56)
}

/// The inner key after the rotations of rounds 1 to `r`.
pub open spec fn inner_key(inner0: u64, r: nat) -> u64
    decreases r,
{
    if r == 0 {
        inner0
    } else {
        rotate_halves_left(inner_key(inner0, (r - 1) as nat), rotation_for_round(r))
    }
}

/// Starting from `top`, the inner key of round 16, the key `j` rounds back,
/// each step undoing one round's rotation.
pub open spec fn inner_key_back(top: u64, j: nat) -> u64
    decreases j,
{
    if j == 0 {
        top
    } else {
        rotate_halves_right(inner_key_back(top, (j - 1) as nat), rotation_for_round((17 - j) as nat))
    }
}

/// The inner key of a master key: its 56 non-parity bits, reordered.
pub open spec fn master_inner_key(master: u64) -> u64 {
    permute(pc1_sources(), master, 56)
}

/// The 48-bit round key compressed from an inner key.
pub open spec fn compress(inner: u64) -> u64 {
    permute(pc2_sources(), inner, 48)
}

/// The round keys k1 to k16, computed by rotating forwards from the inner
/// key.
pub open spec fn encrypting_keys(inner0: u64) -> Seq<u64> {
    Seq::new(16, |i: int| compress(inner_key(inner0, (i + 1) as nat)))
}

/// The round keys k16 to k1, computed by rotating backwards from the inner
/// key of round 16.
pub open spec fn decrypting_keys(inner0: u64) -> Seq<u64> {
    Seq::new(16, |j: int| compress(inner_key_back(inner_key(inner0, 16), j as nat)))
}

/// Undoing a round's rotation restores the inner key.
pub proof fn lemma_rotation_inverse(k: u64, s: u32)
    requires
        s == 1 || s == 2,
    ensures
        rotate_halves_right(rotate_halves_left(k, s), s) == k,
{
    assert(rotate_halves_right(rotate_halves_left(k, 1), 1) == k && rotate_halves_right(
        rotate_halves_left(k, 2),
        2,
    ) == k) by (bit_vector);
}

proof fn lemma_walk_back(inner0: u64, j: nat)
    requires
        j <= 16,
    ensures
        inner_key_back(inner_key(inner0, 16), j) == inner_key(inner0, (16 - j) as nat),
    decreases j,
{
    if j > 0 {
        lemma_walk_back(inner0, (j - 1) as nat);
        let r = (17 - j) as nat;
        assert(inner_key(inner0, r) == rotate_halves_left(
            inner_key(inner0, (r - 1) as nat),
            rotation_for_round(r),
        ));
        lemma_rotation_inverse(inner_key(inner0, (r - 1) as nat), rotation_for_round(r));
    }
}

/// The decrypting round keys are the encrypting ones in reverse order,
/// although they are computed by rotating the other way.
pub proof fn lemma_decrypting_keys_reverse(inner0: u64)
    ensures
        decrypting_keys(inner0) == encrypting_keys(inner0).reverse(),
{
    assert forall|j: int| 0 <= j < 16 implies #[trigger] decrypting_keys(inner0)[j]
        == encrypting_keys(inner0).reverse()[j] by {
        lemma_walk_back(inner0, j as nat);
    }
    assert(decrypting_keys(inner0) =~= encrypting_keys(inner0).reverse());
}

/// Serves the 16 round keys of one master key, cyclically, in encrypting or
/// decrypting order. All keys are computed when the scheduler is built.
pub struct KeyScheduler {
    encrypting: bool,
    current_key_index: usize,
    cache: Vec<Key>,
    initial_key: Key,
    tables: CipherTables,
}

impl KeyScheduler {
    /// Whether the keys are served in encrypting order.
    pub closed spec fn is_encrypting(&self) -> bool {
        self.encrypting
    }

    /// The 16 round keys, in the order they are served.
    pub closed spec fn keys(&self) -> Seq<u64> {
        self.cache@.map_values(|k: Key| k.value)
    }

    /// Index of the key that `next` serves next.
    pub closed spec fn position(&self) -> nat {
        self.current_key_index as nat
    }

    /// The 56-bit inner key of the master key.
    pub closed spec fn inner_key0(&self) -> u64 {
        self.initial_key.value
    }

    /// The 16 keys that the next 16 draws serve.
    pub open spec fn upcoming_keys(&self) -> Seq<u64> {
        Seq::new(16, |i: int| self.keys()[(self.position() + i) % 16])
    }

    /// The cache holds 16 round keys of 48 bits and the position is among them.
    pub closed spec fn cache_wf(&self) -> bool {
        &&& self.cache@.len() == 16
        &&& self.current_key_index < 16
        &&& forall|i: int| 0 <= i < 16 ==> (#[trigger] self.cache@[i]).size_bits == 48
        &&& self.tables.wf()
    }

    /// The scheduler's invariant: 16 keys of 48 bits, in the order that the
    /// direction asks for, and a position among them.
    pub open spec fn wf(&self) -> bool {
        &&& self.cache_wf()
        &&& self.position() < 16
        &&& self.keys().len() == 16
        &&& self.keys() == if self.is_encrypting() {
            encrypting_keys(self.inner_key0())
        } else {
            decrypting_keys(self.inner_key0())
        }
    }

    /// Builds the scheduler of `initial_key`, serving in encrypting order if
    /// `do_encrypt`, else in decrypting order, starting at the first key.
    pub fn new(initial_key: u64, do_encrypt: bool) -> (r: KeyScheduler)
        ensures
            r.wf(),
            r.is_encrypting() == do_encrypt,
            r.position() == 0,
            r.inner_key0() == master_inner_key(initial_key),
    {
        let pc1 = key_initial_permutation();
        let pc2 = key_compression();
        let inner0 = pc1.apply(initial_key);
        let mut cache: Vec<Key> = Vec::new();
        let mut inner = inner0;
        let mut r: u32 = 1;
        if do_encrypt {
            while r <= 16
                invariant
                    1 <= r <= 17,
                    pc2.wf(),
                    pc2.input_width() == 56,
                    pc2.output_width() == 48,
                    pc2.sources() == pc2_sources(),
                    inner == inner_key(inner0, (r - 1) as nat),
                    cache@.len() == r - 1,
                    forall|i: int|
                        0 <= i < r - 1 ==> (#[trigger] cache@[i]).size_bits == 48 && cache@[i].value
                            == encrypting_keys(inner0)[i],
                decreases 17 - r,
            {
                inner = Self::rotate_key(inner, r, true);
                cache.push(Key { value: pc2.apply(inner), size_bits: ROUND_KEY_SIZE_BITS });
                r += 1;
            }
        } else {
            while r <= 16
                invariant
                    1 <= r <= 17,
                    inner == inner_key(inner0, (r - 1) as nat),
                decreases 17 - r,
            {
                inner = Self::rotate_key(inner, r, true);
                r += 1;
            }
            let mut j: u32 = 0;
            while j < 16
                invariant
                    j <= 16,
                    pc2.wf(),
                    pc2.input_width() == 56,
                    pc2.output_width() == 48,
                    pc2.sources() == pc2_sources(),
                    inner == inner_key_back(inner_key(inner0, 16), j as nat),
                    cache@.len() == j,
                    forall|i: int|
                        0 <= i < j ==> (#[trigger] cache@[i]).size_bits == 48 && cache@[i].value
                            == decrypting_keys(inner0)[i],
                decreases 16 - j,
            {
                cache.push(Key { value: pc2.apply(inner), size_bits: ROUND_KEY_SIZE_BITS });
                inner = Self::rotate_key(inner, 16 - j, false);
                j += 1;
            }
        }
        let s = KeyScheduler {
            encrypting: do_encrypt,
            current_key_index: 0,
            cache,
            initial_key: Key { value: inner0, size_bits: INNER_KEY_SIZE_BITS },
            tables: CipherTables::new(),
        };
        assert(s.keys() =~= if do_encrypt {
            encrypting_keys(inner0)
        } else {
            decrypting_keys(inner0)
        });
        s
    }

    /// Builds a scheduler that serves k1 to k16 of `initial_key`.
    pub fn new_encrypting(initial_key: u64) -> (r: KeyScheduler)
        ensures
            r.wf(),
            r.is_encrypting(),
            r.position() == 0,
            r.inner_key0() == master_inner_key(initial_key),
            r.keys() == encrypting_keys(master_inner_key(initial_key)),
    {
        Self::new(initial_key, true)
    }

    /// Builds a scheduler that serves k16 to k1 of `initial_key`.
    pub fn new_decrypting(initial_key: u64) -> (r: KeyScheduler)
        ensures
            r.wf(),
            !r.is_encrypting(),
            r.position() == 0,
            r.inner_key0() == master_inner_key(initial_key),
            r.keys() == decrypting_keys(master_inner_key(initial_key)),
    {
        Self::new(initial_key, false)
    }

    /// Rotates both halves of the inner key `key` by the amount of round
    /// `round`, towards their high ends if `to_high`, else towards their low
    /// ends.
    fn rotate_key(key: u64, round: u32, to_high: bool) -> (r: u64)
        requires
            1 <= round <= 16,
        ensures
            r == if to_high {
                rotate_halves_left(key, rotation_for_round(round as nat))
            } else {
                rotate_halves_right(key, rotation_for_round(round as nat))
            },
    {
        let shift_for: u32 = if round == 1 || round == 2 || round == 9 || round == 16 {
            1
        } else {
            2
        };
        if to_high {
            let low = rotate_range_to_high(key, 0, INNER_KEY_SPLIT_BIT, shift_for, INNER_KEY_SIZE_BITS).unwrap();
            rotate_range_to_high(
                low,
                INNER_KEY_SPLIT_BIT,
                INNER_KEY_SIZE_BITS,
                shift_for,
                INNER_KEY_SIZE_BITS,
            ).unwrap()
        } else {
            let low = rotate_range_to_low(key, 0, INNER_KEY_SPLIT_BIT, shift_for, INNER_KEY_SIZE_BITS).unwrap();
            rotate_range_to_low(
                low,
                INNER_KEY_SPLIT_BIT,
                INNER_KEY_SIZE_BITS,
                shift_for,
                INNER_KEY_SIZE_BITS,
            ).unwrap()
        }
    }

    /// The round key compressed from the inner key `key`.
    pub fn des_key(key: Key) -> (r: Key)
        ensures
            r.value == compress(key.value),
            r.size_bits == ROUND_KEY_SIZE_BITS,
    {
        let pc2 = key_compression();
        Key { value: pc2.apply(key.value), size_bits: ROUND_KEY_SIZE_BITS }
    }

    /// The cipher's tables, built with the schedule.
    pub fn tables(&self) -> (r: &CipherTables)
        requires
            self.wf(),
        ensures
            r.wf(),
    {
        &self.tables
    }

    /// Serves the key at the current position and moves on, wrapping from
    /// the 16th key back to the first. Never `None`.
    pub fn next(&mut self) -> (r: Option<Key>)
        requires
            old(self).wf(),
        ensures
            final(self).wf(),
            final(self).keys() == old(self).keys(),
            final(self).is_encrypting() == old(self).is_encrypting(),
            final(self).inner_key0() == old(self).inner_key0(),
            final(self).position() == (old(self).position() + 1) % 16,
            r.is_some(),
            r.unwrap().value == old(self).keys()[old(self).position() as int],
            r.unwrap().size_bits == ROUND_KEY_SIZE_BITS,
    {
        let key = self.cache[self.current_key_index];
        if self.current_key_index + 1 == ROTATIONS_TO_WRAPPING {
            self.current_key_index = 0;
        } else {
            self.current_key_index = self.current_key_index + 1;
        }
        Some(key)
    }
}

} // verus!
