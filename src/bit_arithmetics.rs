//! Bit-field utilities on a 64-bit word.
//!
//! Bits are numbered from the least significant one, starting at 0. Most
//! operations take the significant width of the value as an argument, so the
//! same primitives serve 64-, 56-, 48-, 32- and 6-bit quantities. Shifting by
//! the full word width or more reads as 0 everywhere.
use vstd::prelude::*;

verus! {

/// Width of the machine word that every operation works on.
pub const BITS_IN_INPUT: u32 = 64;

/// Bit `i` of `v`, as 0 or 1.
pub open spec fn bit_of(v: u64, i: u64) -> u64 {
    (v >> i) & 1
}

/// `v` shifted towards the low end by `n` places; 0 once `n` reaches 64.
pub open spec fn shr(v: u64, n: u64) -> u64 {
    if n < 64 {
        v >> n
    } else {
        0
    }
}

/// `v` shifted towards the high end by `n` places; 0 once `n` reaches 64.
pub open spec fn shl(v: u64, n: u64) -> u64 {
    if n < 64 {
        v << n
    } else {
        0
    }
}

/// The mask with bits `[0, n)` set.
pub open spec fn low_mask(n: u64) -> u64 {
    if n >= 64 {
        0xFFFF_FFFF_FFFF_FFFFu64
    } else {
        ((1u64 << n) - 1) as u64
    }
}

/// The mask with bits `[begin, end)` set.
pub open spec fn range_mask(begin: u64, end: u64) -> u64 {
    low_mask(end) & !low_mask(begin)
}

/// The smaller of `a` and `b`.
pub open spec fn min_u32(a: u32, b: u32) -> u32 {
    if a < b {
        a
    } else {
        b
    }
}

/// The low `len` bits of `f` rotated by `s` places towards the high end.
pub open spec fn rotl_field(f: u64, len: u64, s: u64) -> u64 {
    if s == 0 {
        f & low_mask(len)
    } else {
        (shl(f & low_mask(len), s) | shr(f & low_mask(len), (len - s) as u64)) & low_mask(len)
    }
}

/// `number` with the field `[begin, begin + len)` replaced by that field
/// rotated by `s` places towards the high end.
pub open spec fn rotate_field_left(number: u64, begin: u64, len: u64, s: u64) -> u64 {
    (number & !range_mask(begin, (begin + len) as u64)) | shl(
        rotl_field(shr(number, begin), len, s),
        begin,
    )
}

/// The end of the range that a rotation really acts on: `end`, clipped to
/// the declared width and to the word.
pub open spec fn rotation_end(end: u32, size_bits: u32) -> u32 {
    min_u32(min_u32(end, size_bits), BITS_IN_INPUT)
}

/// Whether a range rotation with these bounds is refused.
pub open spec fn rotation_refused(begin_bit: u32, end_bit: u32, size_bits: u32) -> bool {
    end_bit == 0 || begin_bit >= end_bit || begin_bit >= rotation_end(end_bit, size_bits)
}

/// What `rotate_range_to_high` returns for an accepted range.
pub open spec fn rotated_to_high(
    number: u64,
    begin_bit: u32,
    end_bit: u32,
    shift_for: u32,
    size_bits: u32,
) -> u64 {
    let len = (rotation_end(end_bit, size_bits) - begin_bit) as u64;
    rotate_field_left(number, begin_bit as u64, len, (shift_for as u64) % len)
}

/// What `rotate_range_to_low` returns for an accepted range: a rotation by
/// `s` towards the low end is one by `len - s` towards the high end.
pub open spec fn rotated_to_low(
    number: u64,
    begin_bit: u32,
    end_bit: u32,
    shift_for: u32,
    size_bits: u32,
) -> u64 {
    let len = (rotation_end(end_bit, size_bits) - begin_bit) as u64;
    let s = (shift_for as u64) % len;
    rotate_field_left(number, begin_bit as u64, len, if s == 0 { 0 } else { (len - s) as u64 })
}

/// Whether position `p` is dropped: `drops` names it and it lies below the
/// width `w`. Positions at or above the width are never dropped.
pub open spec fn is_dropped(drops: Seq<u32>, w: u32, p: u32) -> bool {
    p < w && drops.contains(p)
}

/// Number of positions in `[0, n)` that are not dropped.
pub open spec fn kept_count(drops: Seq<u32>, w: u32, n: nat) -> nat
    decreases n,
{
    if n == 0 {
        0
    } else if is_dropped(drops, w, (n - 1) as u32) {
        kept_count(drops, w, (n - 1) as nat)
    } else {
        kept_count(drops, w, (n - 1) as nat) + 1
    }
}

/// The bits of `v` in `[0, n)` that are not dropped, packed from bit 0
/// upwards, keeping their order.
pub open spec fn squeeze(v: u64, drops: Seq<u32>, w: u32, n: nat) -> u64
    decreases n,
{
    if n == 0 {
        0
    } else if is_dropped(drops, w, (n - 1) as u32) {
        squeeze(v, drops, w, (n - 1) as nat)
    } else {
        squeeze(v, drops, w, (n - 1) as nat) | shl(
            bit_of(v, (n - 1) as u64),
            kept_count(drops, w, (n - 1) as nat) as u64,
        )
    }
}

/// Two words that agree on every bit are equal.
pub proof fn lemma_bits_determine_word(a: u64, b: u64)
    requires
        forall|i: u64| i < 64 ==> #[trigger] bit_of(a, i) == bit_of(b, i),
    ensures
        a == b,
{
    assert(bit_of(a, 63) == bit_of(b, 63));
    assert(bit_of(a, 63) == a >> 63u64 && bit_of(b, 63) == b >> 63u64) by (bit_vector);
    lemma_bits_determine_from(a, b, 63);
}

proof fn lemma_bits_determine_from(a: u64, b: u64, n: u64)
    requires
        n <= 63,
        a >> n == b >> n,
        forall|i: u64| i < n ==> #[trigger] bit_of(a, i) == bit_of(b, i),
    ensures
        a == b,
    decreases n,
{
    if n == 0 {
        assert(a >> 0u64 == a && b >> 0u64 == b) by (bit_vector);
    } else {
        let m = (n - 1) as u64;
        assert(bit_of(a, m) == bit_of(b, m));
        assert(a >> m == b >> m) by (bit_vector)
            requires
                m < 63,
                n == m + 1,
                a >> n == b >> n,
                (a >> m) & 1 == (b >> m) & 1,
        ;
        lemma_bits_determine_from(a, b, m);
    }
}

proof fn lemma_bit_of_or_and(a: u64, b: u64, j: u64)
    requires
        j < 64,
    ensures
        bit_of(a | b, j) == if bit_of(a, j) == 1 || bit_of(b, j) == 1 {
            1u64
        } else {
            0u64
        },
        bit_of(a & b, j) == if bit_of(a, j) == 1 && bit_of(b, j) == 1 {
            1u64
        } else {
            0u64
        },
        bit_of(a & !b, j) == if bit_of(a, j) == 1 && bit_of(b, j) == 0 {
            1u64
        } else {
            0u64
        },
        bit_of(a, j) <= 1,
        bit_of(b, j) <= 1,
{
    assert(((a | b) >> j) & 1 == (if (a >> j) & 1 == 1 || (b >> j) & 1 == 1 {
        1u64
    } else {
        0u64
    }) && ((a & b) >> j) & 1 == (if (a >> j) & 1 == 1 && (b >> j) & 1 == 1 {
        1u64
    } else {
        0u64
    }) && ((a & !b) >> j) & 1 == (if (a >> j) & 1 == 1 && (b >> j) & 1 == 0 {
        1u64
    } else {
        0u64
    }) && (a >> j) & 1 <= 1 && (b >> j) & 1 <= 1) by (bit_vector);
}

proof fn lemma_bit_of_shl(x: u64, s: u64, j: u64)
    requires
        s < 64,
        j < 64,
    ensures
        bit_of(x << s, j) == if j >= s {
            bit_of(x, (j - s) as u64)
        } else {
            0
        },
{
    if j >= s {
        let d = (j - s) as u64;
        assert(((x << s) >> j) & 1 == (x >> d) & 1) by (bit_vector)
            requires
                s < 64,
                j < 64,
                d == j - s,
        ;
    } else {
        assert(((x << s) >> j) & 1 == 0) by (bit_vector)
            requires
                j < s,
                s < 64,
        ;
    }
}

proof fn lemma_bit_of_shr(x: u64, t: u64, j: u64)
    requires
        t < 64,
        j < 64,
    ensures
        bit_of(x >> t, j) == if j + t < 64 {
            bit_of(x, (j + t) as u64)
        } else {
            0
        },
{
    if j + t < 64 {
        let d = (j + t) as u64;
        assert(((x >> t) >> j) & 1 == (x >> d) & 1) by (bit_vector)
            requires
                d == j + t,
                d < 64,
        ;
    } else {
        assert(((x >> t) >> j) & 1 == 0) by (bit_vector)
            requires
                t < 64,
                j < 64,
                j + t >= 64,
        ;
    }
}

proof fn lemma_bit_of_low_mask(n: u64, j: u64)
    requires
        j < 64,
    ensures
        bit_of(low_mask(n), j) == if j < n {
            1u64
        } else {
            0u64
        },
{
    if n >= 64 {
        assert((0xFFFF_FFFF_FFFF_FFFFu64 >> j) & 1 == 1) by (bit_vector)
            requires
                j < 64,
        ;
    } else {
        let m = low_mask(n);
        assert((m >> j) & 1 == if j < n {
            1u64
        } else {
            0u64
        }) by (bit_vector)
            requires
                n < 64,
                j < 64,
                m == ((1u64 << n) - 1) as u64,
        ;
    }
}

/// Bit by bit, a field rotation: bit `i` of the field `[begin, begin + len)`
/// comes from the field bit `s` places below it, wrapping round within the
/// field, and every bit outside the field is kept.
pub proof fn lemma_rotate_field_left_bits(number: u64, begin: u64, len: u64, s: u64, i: u64)
    requires
        1 <= len,
        begin + len <= 64,
        s < len,
        i < 64,
    ensures
        bit_of(rotate_field_left(number, begin, len, s), i) == if begin <= i < begin + len {
            if i - begin >= s {
                bit_of(number, (i - s) as u64)
            } else {
                bit_of(number, (i + len - s) as u64)
            }
        } else {
            bit_of(number, i)
        },
{
    let e = (begin + len) as u64;
    let lm = low_mask(len);
    let f = (number >> begin) & lm;
    let g = rotl_field(number >> begin, len, s);
    let outer = number & !range_mask(begin, e);
    let r = rotate_field_left(number, begin, len, s);
    assert(f & lm == f) by (bit_vector)
        requires
            f == (number >> begin) & lm,
    ;
    assert(r == outer | (g << begin));
    lemma_bit_of_or_and(outer, g << begin, i);
    lemma_bit_of_or_and(number, range_mask(begin, e), i);
    lemma_bit_of_or_and(low_mask(e), !low_mask(begin), i);
    lemma_bit_of_or_and(low_mask(e), low_mask(begin), i);
    lemma_bit_of_low_mask(e, i);
    lemma_bit_of_low_mask(begin, i);
    lemma_bit_of_shl(g, begin, i);
    // the field bits of `number`, moved down to bit 0
    assert forall|k: u64| k < 64 implies #[trigger] bit_of(f, k) == if k < len {
        bit_of(number, (begin + k) as u64)
    } else {
        0
    } by {
        lemma_bit_of_or_and(number >> begin, lm, k);
        lemma_bit_of_low_mask(len, k);
        lemma_bit_of_shr(number, begin, k);
    }
    if begin <= i < e {
        let j = (i - begin) as u64;
        assert(bit_of(r, i) == bit_of(g, j));
        lemma_bit_of_low_mask(len, j);
        lemma_bit_of_or_and(number >> begin, lm, j);
        if s == 0 {
            assert(g == f);
            assert(bit_of(f, j) == bit_of(number, (begin + j) as u64));
            assert((begin + j) as u64 == (i - s) as u64);
        } else {
            let t = (len - s) as u64;
            assert(g == ((f << s) | (f >> t)) & lm);
            lemma_bit_of_or_and((f << s) | (f >> t), lm, j);
            lemma_bit_of_or_and(f << s, f >> t, j);
            lemma_bit_of_shl(f, s, j);
            lemma_bit_of_shr(f, t, j);
            assert(bit_of(lm, j) == 1);
            assert(bit_of(g, j) == bit_of((f << s) | (f >> t), j));
            if j >= s {
                let a = (j - s) as u64;
                assert(bit_of(f, a) == bit_of(number, (i - s) as u64));
                assert(bit_of(f >> t, j) == 0) by {
                    if j + t < 64 {
                        assert(bit_of(f, (j + t) as u64) == 0);
                    }
                }
                assert(bit_of(f << s, j) == bit_of(f, a));
                assert(bit_of(g, j) == bit_of(f, a));
            } else {
                let a = (j + t) as u64;
                assert(bit_of(f, a) == bit_of(number, (i + len - s) as u64));
                assert(bit_of(f << s, j) == 0);
                assert(bit_of(f >> t, j) == bit_of(f, a));
                assert(bit_of(g, j) == bit_of(f, a));
            }
        }
    } else {
        assert(bit_of(range_mask(begin, e), i) == 0);
        assert(bit_of(outer, i) == bit_of(number, i));
        assert(bit_of(g << begin, i) == 0) by {
            if i >= begin {
                assert(bit_of(g, (i - begin) as u64) == 0) by {
                    let j = (i - begin) as u64;
                    assert(j >= len);
                    if s == 0 {
                        assert(g == f);
                    } else {
                        let t = (len - s) as u64;
                        assert(g == ((f << s) | (f >> t)) & lm);
                        lemma_bit_of_or_and((f << s) | (f >> t), lm, j);
                        lemma_bit_of_low_mask(len, j);
                    }
                }
            }
        }
    }
}

/// Creates a mask with the single bit `bit` set; 0 when `bit` is past the
/// word.
pub fn bit_mask(bit: u32) -> (r: u64)
    ensures
        r == shl(1, bit as u64),
{
    if bit < BITS_IN_INPUT {
        1u64 << bit
    } else {
        0
    }
}

/// Creates the mask of bits `[0, bit)`; every bit when `bit >= 64`.
pub fn bit_lower_mask(bit: u32) -> (r: u64)
    ensures
        r == low_mask(bit as u64),
{
    if bit < BITS_IN_INPUT {
        let b = bit as u64;
        assert(1u64 << b >= 1) by (bit_vector)
            requires
                b < 64,
        ;
        bit_mask(bit) - 1
    } else {
        u64::MAX
    }
}

/// Creates the mask of the bits above `bit`: `(bit, 63]`.
pub fn bit_higher_mask(bit: u32) -> (r: u64)
    ensures
        r == !low_mask(((bit as u64) + 1) as u64),
{
    if bit >= BITS_IN_INPUT - 1 {
        assert(!0xFFFF_FFFF_FFFF_FFFFu64 == 0) by (bit_vector);
        0
    } else {
        let m = bit_lower_mask(bit + 1);
        assert(u64::MAX - m == !m) by (bit_vector);
        u64::MAX - m
    }
}

proof fn lemma_low_mask_ordered(a: u64, b: u64)
    requires
        a <= b,
    ensures
        low_mask(a) <= low_mask(b),
        (low_mask(b) - low_mask(a)) as u64 == range_mask(a, b),
{
    if b >= 64 {
        if a >= 64 {
            assert(0xFFFF_FFFF_FFFF_FFFFu64 & !0xFFFF_FFFF_FFFF_FFFFu64 == 0) by (bit_vector);
        } else {
            let ma = low_mask(a);
            assert(ma == ((1u64 << a) - 1) as u64);
            assert(ma <= 0xFFFF_FFFF_FFFF_FFFFu64 && (0xFFFF_FFFF_FFFF_FFFFu64 - ma) as u64
                == 0xFFFF_FFFF_FFFF_FFFFu64 & !ma) by (bit_vector)
                requires
                    a < 64,
                    ma == ((1u64 << a) - 1) as u64,
            ;
        }
    } else {
        let ma = low_mask(a);
        let mb = low_mask(b);
        assert(ma <= mb && (mb - ma) as u64 == mb & !ma) by (bit_vector)
            requires
                a <= b < 64,
                ma == ((1u64 << a) - 1) as u64,
                mb == ((1u64 << b) - 1) as u64,
        ;
    }
}

/// Creates the mask of bits `[begin_bit, end_bit)`; `None` when `end_bit`
/// is below `begin_bit`.
pub fn bit_range_mask(begin_bit: u32, end_bit: u32) -> (r: Option<u64>)
    ensures
        r == (if end_bit >= begin_bit {
            Some(range_mask(begin_bit as u64, end_bit as u64))
        } else {
            None
        }),
{
    if end_bit >= begin_bit {
        proof {
            lemma_low_mask_ordered(begin_bit as u64, end_bit as u64);
        }
        Some(bit_lower_mask(end_bit) - bit_lower_mask(begin_bit))
    } else {
        None
    }
}

/// Keeps only bit `bit` of `number`, a value `size_bits` wide: a bit at or
/// above that width reads as 0.
pub fn filter_bit(number: u64, bit: u32, size_bits: u32) -> (r: u64)
    ensures
        r == (if bit < size_bits {
            number & shl(1, bit as u64)
        } else {
            0
        }),
{
    if bit < size_bits {
        number & bit_mask(bit)
    } else {
        0
    }
}

/// Whether bit `bit` of `number`, a value `size_bits` wide, is set.
pub fn is_bit_set(number: u64, bit: u32, size_bits: u32) -> (r: bool)
    ensures
        r == (bit < size_bits && bit < 64 && bit_of(number, bit as u64) == 1),
{
    let f = filter_bit(number, bit, size_bits);
    assert(number & 0 == 0) by (bit_vector);
    if bit < size_bits && bit < BITS_IN_INPUT {
        let b = bit as u64;
        assert((number & (1u64 << b) != 0) == ((number >> b) & 1 == 1)) by (bit_vector)
            requires
                b < 64,
        ;
    }
    f != 0
}

/// Bit `bit_idx` of `number`, a value `size_bits` wide, as 0 or 1; a bit at
/// or above that width reads as 0.
pub fn get_bit(number: u64, bit_idx: u32, size_bits: u32) -> (r: u64)
    ensures
        r == (if bit_idx < size_bits && bit_idx < 64 {
            bit_of(number, bit_idx as u64)
        } else {
            0
        }),
        r <= 1,
{
    if bit_idx < size_bits && bit_idx < BITS_IN_INPUT {
        let b = bit_idx as u64;
        assert((number >> b) & 1 <= 1) by (bit_vector);
        (number >> b) & 1
    } else {
        0
    }
}

/// Keeps only the bits `[begin_bit, end_bit)` of `number`, a value
/// `size_bits` wide. `None` when `begin_bit` is not below the width or
/// `end_bit` is below `begin_bit`.
pub fn filter_bit_range(number: u64, begin_bit: u32, end_bit: u32, size_bits: u32) -> (r: Option<
    u64,
>)
    ensures
        r == (if begin_bit < size_bits && begin_bit <= end_bit {
            Some(number & range_mask(begin_bit as u64, end_bit as u64))
        } else {
            None
        }),
{
    if begin_bit < size_bits {
        match bit_range_mask(begin_bit, end_bit) {
            Some(mask) => Some(number & mask),
            None => None,
        }
    } else {
        None
    }
}

/// The bits `[begin_bit, end_bit)` of `number`, a value `size_bits` wide,
/// moved down to start at bit 0. `None` exactly when `filter_bit_range`
/// refuses the range.
pub fn extract_bit_range(number: u64, begin_bit: u32, end_bit: u32, size_bits: u32) -> (r: Option<
    u64,
>)
    ensures
        r == (if begin_bit < size_bits && begin_bit <= end_bit {
            Some(shr(number & range_mask(begin_bit as u64, end_bit as u64), begin_bit as u64))
        } else {
            None
        }),
{
    match filter_bit_range(number, begin_bit, end_bit, size_bits) {
        Some(filtered) => {
            if begin_bit < BITS_IN_INPUT {
                Some(filtered >> begin_bit)
            } else {
                Some(0)
            }
        },
        None => None,
    }
}

/// Splits `number`, a value `size_bits` wide, at `split_bit`: the bits
/// `[split_bit, size_bits)` moved down to bit 0, and the bits
/// `[0, split_bit)`. `None` when the width is below `split_bit`.
pub fn split_by_bit(number: u64, split_bit: u32, size_bits: u32) -> (r: Option<(u64, u64)>)
    ensures
        r == (if split_bit <= size_bits {
            Some(
                (
                    shr(number & range_mask(split_bit as u64, size_bits as u64), split_bit as u64),
                    number & low_mask(split_bit as u64),
                ),
            )
        } else {
            None
        }),
{
    match bit_range_mask(split_bit, size_bits) {
        Some(high_mask) => {
            let lower = bit_lower_mask(split_bit);
            let high = if split_bit < BITS_IN_INPUT {
                (number & high_mask) >> split_bit
            } else {
                0
            };
            proof {
                assert(range_mask(0, split_bit as u64) == low_mask(split_bit as u64)) by {
                    let m = low_mask(split_bit as u64);
                    assert(low_mask(0) == 0) by {
                        assert(((1u64 << 0u64) - 1) as u64 == 0) by (bit_vector);
                    }
                    assert(m & !0u64 == m) by (bit_vector);
                }
            }
            Some((high, number & lower))
        },
        None => None,
    }
}

/// Rotates the low `len` bits of `field` (whose other bits are clear) by
/// `s` places towards the high end.
fn rotate_field(field: u64, len: u32, s: u32) -> (r: u64)
    requires
        1 <= len <= 64,
        s < len,
        field & !low_mask(len as u64) == 0,
    ensures
        r == rotl_field(field, len as u64, s as u64),
{
    let mask = bit_lower_mask(len);
    proof {
        let l = len as u64;
        assert(field & mask == field) by (bit_vector)
            requires
                field & !mask == 0,
        ;
    }
    if s == 0 {
        field
    } else {
        let r = ((field << s) | (field >> (len - s))) & mask;
        r
    }
}

/// Rotates the bits `[begin_bit, end_bit)` of `number`, a value `size_bits`
/// wide, by `shift_for` places towards the high end; bits that leave the
/// top of the range come back in at its bottom. The range is clipped to the
/// width, the shift is taken modulo the range's length, and the other bits
/// are left as they are. `None` when `end_bit` is 0 or the clipped range is
/// empty.
pub fn rotate_range_to_high(
    number: u64,
    begin_bit: u32,
    end_bit: u32,
    shift_for: u32,
    size_bits: u32,
) -> (r: Option<u64>)
    ensures
        r == (if rotation_refused(begin_bit, end_bit, size_bits) {
            None
        } else {
            Some(rotated_to_high(number, begin_bit, end_bit, shift_for, size_bits))
        }),
{
    if end_bit == 0 || begin_bit >= end_bit {
        return None;
    }
    let mut end = end_bit;
    if end > size_bits {
        end = size_bits;
    }
    if end > BITS_IN_INPUT {
        end = BITS_IN_INPUT;
    }
    if begin_bit >= end {
        return None;
    }
    let len = end - begin_bit;
    let s = shift_for % len;
    Some(rotate_field_in(number, begin_bit, len, s))
}

/// Rotates the bits `[begin_bit, end_bit)` of `number`, a value `size_bits`
/// wide, by `shift_for` places towards the low end; bits that leave the
/// bottom of the range come back in at its top. Same clipping and refusals
/// as `rotate_range_to_high`.
pub fn rotate_range_to_low(
    number: u64,
    begin_bit: u32,
    end_bit: u32,
    shift_for: u32,
    size_bits: u32,
) -> (r: Option<u64>)
    ensures
        r == (if rotation_refused(begin_bit, end_bit, size_bits) {
            None
        } else {
            Some(rotated_to_low(number, begin_bit, end_bit, shift_for, size_bits))
        }),
{
    if end_bit == 0 || begin_bit >= end_bit {
        return None;
    }
    let mut end = end_bit;
    if end > size_bits {
        end = size_bits;
    }
    if end > BITS_IN_INPUT {
        end = BITS_IN_INPUT;
    }
    if begin_bit >= end {
        return None;
    }
    let len = end - begin_bit;
    let s = shift_for % len;
    let to_high = if s == 0 {
        0
    } else {
        len - s
    };
    Some(rotate_field_in(number, begin_bit, len, to_high))
}

/// `number` with its field `[begin, begin + len)` rotated by `s` places
/// towards the high end.
fn rotate_field_in(number: u64, begin: u32, len: u32, s: u32) -> (r: u64)
    requires
        1 <= len,
        begin + len <= 64,
        s < len,
    ensures
        r == rotate_field_left(number, begin as u64, len as u64, s as u64),
{
    let field = (number >> begin) & bit_lower_mask(len);
    let lm = bit_lower_mask(len);
    proof {
        assert(field & !lm == 0) by (bit_vector)
            requires
                field == (number >> begin) & lm,
        ;
    }
    let rotated = rotate_field(field, len, s);
    proof {
        let b = begin as u64;
        let l = len as u64;
        let sh = s as u64;
        assert(rotl_field(field, l, sh) == rotl_field(number >> b, l, sh)) by {
            assert(field & lm == (number >> b) & lm) by (bit_vector)
                requires
                    field == (number >> b) & lm,
            ;
        }
    }
    let outer = number & !(bit_range_mask(begin, begin + len).unwrap());
    outer | (rotated << begin)
}

/// Swaps the two ranges of `number`, a value `size_bits` wide, that meet at
/// `split_bit`: the bits `[split_bit, size_bits)` move down to start at bit
/// 0 and the bits `[0, split_bit)` move up above them. Bits at or above the
/// width are not kept. `None` when `split_bit` is past the width or the
/// width is past the word.
pub fn swap_ranges(number: u64, split_bit: u32, size_bits: u32) -> (r: Option<u64>)
    ensures
        r == (if split_bit <= size_bits && size_bits <= 64 {
            Some(
                shr(number & range_mask(split_bit as u64, size_bits as u64), split_bit as u64)
                    | shl(number & low_mask(split_bit as u64), (size_bits - split_bit) as u64),
            )
        } else {
            None
        }),
{
    if size_bits > BITS_IN_INPUT {
        return None;
    }
    match split_by_bit(number, split_bit, size_bits) {
        Some((high, low)) => {
            let up = size_bits - split_bit;
            let moved = if up < BITS_IN_INPUT {
                low << up
            } else {
                0
            };
            Some(high | moved)
        },
        None => None,
    }
}

/// Whether `v` occurs in `items`.
fn contains_u32(items: &[u32], v: u32) -> (r: bool)
    ensures
        r == items@.contains(v),
{
    let mut i: usize = 0;
    while i < items.len()
        invariant
            i <= items@.len(),
            forall|j: int| 0 <= j < i ==> items@[j] != v,
        decreases items@.len() - i,
    {
        if items[i] == v {
            assert(items@[i as int] == v);
            return true;
        }
        i += 1;
    }
    false
}

/// Removes from `number`, a value `size_bits` wide, the bits that
/// `ordered_drop_indices` names below the width and closes the gaps, keeping
/// the order of the other bits; the bits at or above the width are kept too,
/// moved down by the number of dropped positions. Returns the squeezed value
/// and its width: the width (at most 64) less the number of dropped
/// positions. Named positions at or above the width drop nothing.
pub fn drop_bits(number: u64, ordered_drop_indices: &[u32], size_bits: u32) -> (r: (u64, u32))
    ensures
        r.0 == squeeze(number, ordered_drop_indices@, size_bits, 64),
        r.1 as nat == kept_count(ordered_drop_indices@, size_bits, min_u32(size_bits, 64) as nat),
{
    let width = if size_bits < BITS_IN_INPUT {
        size_bits
    } else {
        BITS_IN_INPUT
    };
    let mut result: u64 = 0;
    let mut kept: u32 = 0;
    let mut p: u32 = 0;
    while p < BITS_IN_INPUT
        invariant
            p <= 64,
            width <= 64,
            width == min_u32(size_bits, 64),
            kept <= p,
            kept as nat == kept_count(ordered_drop_indices@, size_bits, p as nat),
            p >= width ==> kept_count(ordered_drop_indices@, size_bits, p as nat) == kept_count(
                ordered_drop_indices@,
                size_bits,
                width as nat,
            ) + (p - width),
            result == squeeze(number, ordered_drop_indices@, size_bits, p as nat),
        decreases 64 - p,
    {
        let dropped = p < size_bits && contains_u32(ordered_drop_indices, p);
        if !dropped {
            let b = (number >> (p as u64)) & 1;
            result = result | (b << (kept as u64));
            kept += 1;
        }
        proof {
            let n = (p + 1) as nat;
            assert(((n - 1) as u32) == p);
        }
        p += 1;
    }
    (result, kept - (BITS_IN_INPUT - width))
}

} // verus!
