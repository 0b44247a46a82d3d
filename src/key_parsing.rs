//! Reading a 64-bit key from its text form: 16 hexadecimal digits in either
//! case, with any number of `-` separators and surrounding white space.
use vstd::prelude::*;
use vstd::string::*;

verus! {

/// Number of hex digits in a key.
pub const KEY_HEX_DIGITS: usize = 16;

/// Why a key's text was refused.
#[derive(Debug, Clone, Copy, PartialEq, Eq)]
pub enum ParseKeyError {
    /// Not the right number of digits; holds the number expected.
    BadLength(usize),
    /// A character that is neither a hex digit nor a separator.
    NotHexFormat,
}

/// White space that is trimmed from the ends of a key: the characters with
/// Unicode's White_Space property.
pub open spec fn is_space(c: char) -> bool {
    ('\u{9}' <= c && c <= '\u{D}') || c == ' ' || c == '\u{85}' || c == '\u{A0}' || c == '\u{1680}'
        || ('\u{2000}' <= c && c <= '\u{200A}') || c == '\u{2028}' || c == '\u{2029}' || c
        == '\u{202F}' || c == '\u{205F}' || c == '\u{3000}'
}

/// Whether `c` is a hexadecimal digit.
pub open spec fn is_hex_digit(c: char) -> bool {
    ('0' <= c && c <= '9') || ('a' <= c && c <= 'f') || ('A' <= c && c <= 'F')
}

/// The value of the hexadecimal digit `c`.
pub open spec fn hex_digit_value(c: char) -> u64 {
    if '0' <= c && c <= '9' {
        (c as u32 - '0' as u32) as u64
    } else if 'a' <= c && c <= 'f' {
        (c as u32 - 'a' as u32 + 10) as u64
    } else {
        (c as u32 - 'A' as u32 + 10) as u64
    }
}

/// `s` without its `-` characters.
pub open spec fn without_dashes(s: Seq<char>) -> Seq<char>
    decreases s.len(),
{
    if s.len() == 0 {
        seq![]
    } else if s.last() == '-' {
        without_dashes(s.drop_last())
    } else {
        without_dashes(s.drop_last()).push(s.last())
    }
}

/// `s` without its leading white space.
pub open spec fn trim_start(s: Seq<char>) -> Seq<char>
    decreases s.len(),
{
    if s.len() > 0 && is_space(s[0]) {
        trim_start(s.drop_first())
    } else {
        s
    }
}

/// `s` without its trailing white space.
pub open spec fn trim_end(s: Seq<char>) -> Seq<char>
    decreases s.len(),
{
    if s.len() > 0 && is_space(s.last()) {
        trim_end(s.drop_last())
    } else {
        s
    }
}

/// The digits of a key's text: separators removed, then white space
/// trimmed from both ends.
pub open spec fn key_digits(s: Seq<char>) -> Seq<char> {
    trim_end(trim_start(without_dashes(s)))
}

/// The number that the hex digits `s` write, most significant first.
pub open spec fn hex_number(s: Seq<char>) -> u64
    decreases s.len(),
{
    if s.len() == 0 {
        0
    } else {
        (hex_number(s.drop_last()) << 4u64) | hex_digit_value(s.last())
    }
}

/// What `key_from_str` returns for the text `s`.
pub open spec fn key_from_str_spec(s: Seq<char>) -> Result<u64, ParseKeyError> {
    let digits = key_digits(s);
    if digits.len() != 16 {
        Err(ParseKeyError::BadLength(16))
    } else if exists|i: int| 0 <= i < 16 && !is_hex_digit(#[trigger] digits[i]) {
        Err(ParseKeyError::NotHexFormat)
    } else {
        Ok(hex_number(digits))
    }
}

fn is_space_char(c: char) -> (r: bool)
    ensures
        r == is_space(c),
{
    ('\u{9}' <= c && c <= '\u{D}') || c == ' ' || c == '\u{85}' || c == '\u{A0}' || c == '\u{1680}'
        || ('\u{2000}' <= c && c <= '\u{200A}') || c == '\u{2028}' || c == '\u{2029}' || c
        == '\u{202F}' || c == '\u{205F}' || c == '\u{3000}'
}

proof fn lemma_trim_start_skip(s: Seq<char>, a: int)
    requires
        0 <= a <= s.len(),
        forall|i: int| 0 <= i < a ==> is_space(#[trigger] s[i]),
    ensures
        trim_start(s) == trim_start(s.skip(a)),
    decreases a,
{
    if a > 0 {
        assert(s.drop_first() =~= s.skip(1));
        lemma_trim_start_skip(s.drop_first(), a - 1);
        assert(s.drop_first().skip(a - 1) =~= s.skip(a));
    } else {
        assert(s.skip(0) =~= s);
    }
}

proof fn lemma_trim_end_take(s: Seq<char>, b: int)
    requires
        0 <= b <= s.len(),
        forall|i: int| b <= i < s.len() ==> is_space(#[trigger] s[i]),
    ensures
        trim_end(s) == trim_end(s.take(b)),
    decreases s.len() - b,
{
    if b < s.len() {
        lemma_trim_end_take(s.drop_last(), b);
        assert(s.drop_last().take(b) =~= s.take(b));
    } else {
        assert(s.take(b) =~= s);
    }
}

/// Reads a 64-bit key from hexadecimal text: `-` separators are removed and
/// white space at both ends is trimmed, after which exactly 16 hex digits
/// (either case) must remain, the most significant first.
pub fn key_from_str(hex_str: &str) -> (r: Result<u64, ParseKeyError>)
    ensures
        r == key_from_str_spec(hex_str@),
{
    let n = hex_str.unicode_len();
    let mut clean: Vec<char> = Vec::new();
    let mut i: usize = 0;
    while i < n
        invariant
            n == hex_str@.len(),
            i <= n,
            clean@ == without_dashes(hex_str@.take(i as int)),
        decreases n - i,
    {
        let c = hex_str.get_char(i);
        proof {
            assert(hex_str@.take(i + 1).drop_last() =~= hex_str@.take(i as int));
        }
        if c != '-' {
            clean.push(c);
        }
        i += 1;
    }
    assert(hex_str@.take(n as int) =~= hex_str@);
    let mut begin: usize = 0;
    while begin < clean.len() && is_space_char(clean[begin])
        invariant
            begin <= clean@.len(),
            forall|j: int| 0 <= j < begin ==> is_space(#[trigger] clean@[j]),
        decreases clean@.len() - begin,
    {
        begin += 1;
    }
    let ghost started = clean@.skip(begin as int);
    proof {
        lemma_trim_start_skip(clean@, begin as int);
        assert(trim_start(started) == started);
    }
    let mut end: usize = clean.len();
    while end > begin && is_space_char(clean[end - 1])
        invariant
            begin <= end <= clean@.len(),
            started == clean@.skip(begin as int),
            forall|j: int| end <= j < clean@.len() ==> is_space(#[trigger] clean@[j]),
        decreases end - begin,
    {
        end -= 1;
    }
    let ghost digits = started.take(end - begin);
    proof {
        assert forall|j: int| end - begin <= j < started.len() implies is_space(#[trigger] started[j]) by {
            assert(started[j] == clean@[j + begin]);
        }
        lemma_trim_end_take(started, end - begin);
        assert(digits.len() == 0 || !is_space(digits.last()));
        assert(trim_end(digits) == digits);
        assert(digits == key_digits(hex_str@));
    }
    if end - begin != KEY_HEX_DIGITS {
        return Err(ParseKeyError::BadLength(KEY_HEX_DIGITS));
    }
    let mut value: u64 = 0;
    let mut k: usize = 0;
    while k < KEY_HEX_DIGITS
        invariant
            k <= 16,
            end - begin == 16,
            begin + 16 <= clean@.len(),
            digits == clean@.subrange(begin as int, begin + 16),
            digits == key_digits(hex_str@),
            forall|j: int| 0 <= j < k ==> is_hex_digit(#[trigger] digits[j]),
            value == hex_number(digits.take(k as int)),
        decreases 16 - k,
    {
        let c = clean[begin + k];
        assert(c == digits[k as int]);
        let d: u64 = if '0' <= c && c <= '9' {
            (c as u32 - '0' as u32) as u64
        } else if 'a' <= c && c <= 'f' {
            (c as u32 - 'a' as u32 + 10) as u64
        } else if 'A' <= c && c <= 'F' {
            (c as u32 - 'A' as u32 + 10) as u64
        } else {
            assert(!is_hex_digit(digits[k as int]));
            return Err(ParseKeyError::NotHexFormat);
        };
        proof {
            assert(digits.take(k + 1).drop_last() =~= digits.take(k as int));
        }
        value = (value << 4u64) | d;
        k += 1;
    }
    assert(digits.take(16) =~= digits);
    Ok(value)
}

} // verus!
