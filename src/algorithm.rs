//! The block cipher: initial permutation, 16 rounds and the inverse initial
//! permutation over one 64-bit block.
use vstd::prelude::*;

use crate::bit_arithmetics::{bit_of, lemma_bits_determine_word};
use crate::bit_permutation::{lemma_permute_bits, permute, PermutationTable};
use crate::key_scheduling::{
    decrypting_keys,
    encrypting_keys,
    lemma_decrypting_keys_reverse,
    master_inner_key,
    KeyScheduler,
};
use crate::round::{
    last_round_spec,
    lemma_last_round_involution,
    lemma_round_is_swapped_last_round,
    lemma_swap_halves_involution,
    swap_halves,
    RoundTables,
};
use crate::tables::{fp_sources, initial_permutation, ip_sources, reverse_permutation};

verus! {

/// Number of rounds of one block.
pub const ROUNDS_NUMBER: usize = 16;

/// The rounds with the keys `keys`, in order: each but the last is followed
/// by a swap of the halves.
pub open spec fn feistel_rounds(data: u64, keys: Seq<u64>) -> u64
    decreases keys.len(),
{
    if keys.len() <= 1 {
        last_round_spec(data, keys[0])
    } else {
        last_round_spec(swap_halves(feistel_rounds(data, keys.drop_last())), keys.last())
    }
}

/// One block through the cipher with the round keys `keys`.
pub open spec fn des_block(data: u64, keys: Seq<u64>) -> u64 {
    permute(fp_sources(), feistel_rounds(permute(ip_sources(), data, 64), keys), 64)
}

/// The encryption of the block `data` under the master key `key`.
pub open spec fn encrypt_block_spec(data: u64, key: u64) -> u64 {
    des_block(data, encrypting_keys(master_inner_key(key)))
}

/// The decryption of the block `data` under the master key `key`.
pub open spec fn decrypt_block_spec(data: u64, key: u64) -> u64 {
    des_block(data, decrypting_keys(master_inner_key(key)))
}

proof fn lemma_permutations_compose(outer: Seq<u32>, inner: Seq<u32>, x: u64)
    requires
        outer.len() == 64,
        inner.len() == 64,
        forall|i: int| 0 <= i < 64 ==> #[trigger] outer[i] < 64,
        forall|i: int| 0 <= i < 64 ==> #[trigger] inner[i] < 64,
        forall|p: int| 0 <= p < 64 ==> inner[63 - #[trigger] outer[63 - p]] == p,
    ensures
        permute(outer, permute(inner, x, 64), 64) == x,
{
    let y = permute(inner, x, 64);
    let z = permute(outer, y, 64);
    lemma_permute_bits(inner, x, 64);
    lemma_permute_bits(outer, y, 64);
    assert forall|p: u64| p < 64 implies #[trigger] bit_of(z, p) == bit_of(x, p) by {
        let j = 63 - p;
        assert(bit_of(z, (64 - 1 - j) as u64) == bit_of(y, outer[j] as u64));
        let m = outer[j] as int;
        assert(inner[63 - outer[63 - p]] == p);
        assert(bit_of(y, (64 - 1 - (63 - m)) as u64) == bit_of(x, inner[63 - m] as u64));
    }
    lemma_bits_determine_word(z, x);
}

/// The inverse initial permutation undoes the initial permutation.
pub proof fn lemma_initial_permutation_inverse(x: u64)
    ensures
        permute(fp_sources(), permute(ip_sources(), x, 64), 64) == x,
{
    assert(forall|i: int| 0 <= i < 64 ==> #[trigger] fp_sources()[i] < 64);
    assert(forall|i: int| 0 <= i < 64 ==> #[trigger] ip_sources()[i] < 64);
    assert(forall|p: int| 0 <= p < 64 ==> ip_sources()[63 - #[trigger] fp_sources()[63 - p]] == p);
    lemma_permutations_compose(fp_sources(), ip_sources(), x);
}

/// The initial permutation undoes the inverse initial permutation.
pub proof fn lemma_reverse_permutation_inverse(x: u64)
    ensures
        permute(ip_sources(), permute(fp_sources(), x, 64), 64) == x,
{
    assert(forall|i: int| 0 <= i < 64 ==> #[trigger] fp_sources()[i] < 64);
    assert(forall|i: int| 0 <= i < 64 ==> #[trigger] ip_sources()[i] < 64);
    assert(forall|p: int| 0 <= p < 64 ==> fp_sources()[63 - #[trigger] ip_sources()[63 - p]] == p);
    lemma_permutations_compose(ip_sources(), fp_sources(), x);
}

proof fn lemma_peel_first_round(x: u64, k: u64, ms: Seq<u64>)
    requires
        ms.len() >= 1,
    ensures
        feistel_rounds(x, seq![k] + ms) == feistel_rounds(swap_halves(last_round_spec(x, k)), ms),
    decreases ms.len(),
{
    let ks = seq![k] + ms;
    if ms.len() == 1 {
        assert(ks.drop_last() =~= seq![k]);
        assert(feistel_rounds(x, seq![k]) == last_round_spec(x, k));
    } else {
        lemma_peel_first_round(x, k, ms.drop_last());
        assert(ks.drop_last() =~= seq![k] + ms.drop_last());
    }
}

/// Running the rounds again with the keys in reverse order undoes them.
pub proof fn lemma_feistel_rounds_inverse(data: u64, keys: Seq<u64>)
    requires
        keys.len() >= 1,
    ensures
        feistel_rounds(feistel_rounds(data, keys), keys.reverse()) == data,
    decreases keys.len(),
{
    if keys.len() == 1 {
        assert(keys.reverse() =~= keys);
        lemma_last_round_involution(data, keys[0]);
    } else {
        let rest = keys.drop_last();
        let k = keys.last();
        let a = feistel_rounds(data, rest);
        assert(keys.reverse() =~= seq![k] + rest.reverse());
        lemma_peel_first_round(last_round_spec(swap_halves(a), k), k, rest.reverse());
        lemma_last_round_involution(swap_halves(a), k);
        lemma_swap_halves_involution(a);
        lemma_feistel_rounds_inverse(data, rest);
    }
}

/// Decrypting with the same master key recovers every encrypted block.
pub proof fn lemma_decrypt_inverts_encrypt(data: u64, key: u64)
    ensures
        decrypt_block_spec(encrypt_block_spec(data, key), key) == data,
{
    let inner0 = master_inner_key(key);
    let ks = encrypting_keys(inner0);
    lemma_decrypting_keys_reverse(inner0);
    let d0 = permute(ip_sources(), data, 64);
    let mid = feistel_rounds(d0, ks);
    lemma_reverse_permutation_inverse(mid);
    lemma_feistel_rounds_inverse(d0, ks);
    lemma_initial_permutation_inverse(data);
}

/// The tables that one block reads: the initial permutation, its inverse
/// and the round tables. They are built once, with the key schedule, and
/// carried by it.
pub struct CipherTables {
    initial: PermutationTable,
    reverse: PermutationTable,
    rounds: RoundTables,
}

impl CipherTables {
    /// The tables are the standard's.
    pub closed spec fn wf(&self) -> bool {
        &&& self.initial.wf()
        &&& self.initial.input_width() == 64
        &&& self.initial.output_width() == 64
        &&& self.initial.sources() == ip_sources()
        &&& self.reverse.wf()
        &&& self.reverse.input_width() == 64
        &&& self.reverse.output_width() == 64
        &&& self.reverse.sources() == fp_sources()
        &&& self.rounds.wf()
    }

    /// Builds the standard's tables.
    pub fn new() -> (r: Self)
        ensures
            r.wf(),
    {
        CipherTables {
            initial: initial_permutation(),
            reverse: reverse_permutation(),
            rounds: RoundTables::new(),
        }
    }
}

/// Runs `data` through the cipher with the next 16 keys of `key_iterator`,
/// which comes back to the position where it started.
fn act_on_block(data: u64, key_iterator: &mut KeyScheduler) -> (r: u64)
    requires
        old(key_iterator).wf(),
    ensures
        r == des_block(data, old(key_iterator).upcoming_keys()),
        final(key_iterator).wf(),
        final(key_iterator).keys() == old(key_iterator).keys(),
        final(key_iterator).position() == old(key_iterator).position(),
        final(key_iterator).is_encrypting() == old(key_iterator).is_encrypting(),
        final(key_iterator).inner_key0() == old(key_iterator).inner_key0(),
{
    let ghost keys = key_iterator.upcoming_keys();
    let ghost start = key_iterator.position();
    let mut round_keys: Vec<u64> = Vec::new();
    let mut k: usize = 0;
    while k < ROUNDS_NUMBER
        invariant
            k <= 16,
            key_iterator.wf(),
            key_iterator.keys() == old(key_iterator).keys(),
            key_iterator.is_encrypting() == old(key_iterator).is_encrypting(),
            key_iterator.inner_key0() == old(key_iterator).inner_key0(),
            key_iterator.position() == (start + k) % 16,
            keys == old(key_iterator).upcoming_keys(),
            start == old(key_iterator).position(),
            round_keys@ == keys.take(k as int),
        decreases 16 - k,
    {
        let round_key = key_iterator.next().unwrap();
        round_keys.push(round_key.value);
        assert(round_keys@ =~= keys.take(k + 1));
        k += 1;
    }
    assert(round_keys@ =~= keys);
    assert(keys.len() == 16);
    let tables = key_iterator.tables();
    let mut block = tables.initial.apply(data);
    let ghost d0 = block;
    let mut i: usize = 0;
    while i < ROUNDS_NUMBER - 1
        invariant
            i <= 15,
            tables.wf(),
            round_keys@ == keys,
            keys.len() == 16,
            i == 0 ==> block == d0,
            i > 0 ==> block == swap_halves(feistel_rounds(d0, keys.take(i as int))),
        decreases 15 - i,
    {
        let ghost before = block;
        block = tables.rounds.round(block, round_keys[i]);
        proof {
            lemma_round_is_swapped_last_round(before, keys[i as int]);
            assert(keys.take(i + 1).drop_last() =~= keys.take(i as int));
            if i == 0 {
                assert(feistel_rounds(d0, keys.take(1)) == last_round_spec(d0, keys[0]));
            } else {
                assert(feistel_rounds(d0, keys.take(i + 1)) == last_round_spec(
                    swap_halves(feistel_rounds(d0, keys.take(i as int))),
                    keys[i as int],
                ));
            }
        }
        i += 1;
    }
    block = tables.rounds.last_round(block, round_keys[15]);
    proof {
        assert(keys.take(16) =~= keys);
        assert(keys.drop_last() =~= keys.take(15));
    }
    tables.reverse.apply(block)
}

/// Encrypts the block `data` with the next 16 keys of `scheduler` (k1 to
/// k16 for a fresh encrypting scheduler).
pub fn encrypt_block(data: u64, scheduler: &mut KeyScheduler) -> (r: u64)
    requires
        old(scheduler).wf(),
    ensures
        r == des_block(data, old(scheduler).upcoming_keys()),
        final(scheduler).wf(),
        final(scheduler).keys() == old(scheduler).keys(),
        final(scheduler).position() == old(scheduler).position(),
        final(scheduler).is_encrypting() == old(scheduler).is_encrypting(),
        final(scheduler).inner_key0() == old(scheduler).inner_key0(),
{
    act_on_block(data, scheduler)
}

/// Decrypts the block `data` with the next 16 keys of `scheduler` (k16 to
/// k1 for a fresh decrypting scheduler).
pub fn decrypt_block(data: u64, scheduler: &mut KeyScheduler) -> (r: u64)
    requires
        old(scheduler).wf(),
    ensures
        r == des_block(data, old(scheduler).upcoming_keys()),
        final(scheduler).wf(),
        final(scheduler).keys() == old(scheduler).keys(),
        final(scheduler).position() == old(scheduler).position(),
        final(scheduler).is_encrypting() == old(scheduler).is_encrypting(),
        final(scheduler).inner_key0() == old(scheduler).inner_key0(),
{
    act_on_block(data, scheduler)
}

/// Encrypts the block `data` under the master key `key`, building the key
/// schedule for it.
pub fn encrypt_block_separately(data: u64, key: u64) -> (r: u64)
    ensures
        r == encrypt_block_spec(data, key),
{
    let mut scheduler = KeyScheduler::new_encrypting(key);
    assert(scheduler.upcoming_keys() =~= scheduler.keys());
    act_on_block(data, &mut scheduler)
}

/// Decrypts the block `data` under the master key `key`, building the key
/// schedule for it.
pub fn decrypt_block_separately(data: u64, key: u64) -> (r: u64)
    ensures
        r == decrypt_block_spec(data, key),
{
    let mut scheduler = KeyScheduler::new_decrypting(key);
    assert(scheduler.upcoming_keys() =~= scheduler.keys());
    act_on_block(data, &mut scheduler)
}

} // verus!
