//! Shared functions: bytes, decimal numbers, and the times of entries.

use vstd::prelude::*;

verus! {

/// The byte `NUL`, which ends a path in the output of `git diff -z`.
pub const NUL: u8 = 0;

/// The byte `TAB`.
pub const TAB: u8 = 9;

/// The byte `+`.
pub const PLUS: u8 = 43;

/// The byte `-`.
pub const DASH: u8 = 45;

/// The byte `.`.
pub const DOT: u8 = 46;

/// The byte `/`, which separates the components of a path.
pub const SLASH: u8 = 47;

/// The byte `0`.
pub const DIGIT_0: u8 = 48;

/// The byte `9`.
pub const DIGIT_9: u8 = 57;

/// The value of a run of decimal digits.
pub open spec fn decimal_value(digits: Seq<u8>) -> nat
    decreases digits.len(),
{
    if digits.len() == 0 {
        0
    } else {
        decimal_value(digits.drop_last()) * 10 + (digits.last() - DIGIT_0) as nat
    }
}

/// Whether a byte is a decimal digit.
pub open spec fn is_digit(byte: u8) -> bool {
    DIGIT_0 <= byte <= DIGIT_9
}

/// Whether all the bytes are decimal digits.
pub open spec fn all_digits(bytes: Seq<u8>) -> bool {
    forall|i: int| 0 <= i < bytes.len() ==> is_digit(#[trigger] bytes[i])
}

/// The value of the digits of a number is at least the value of any prefix
/// of them.
pub proof fn lemma_decimal_value_prefix(digits: Seq<u8>, n: int)
    requires
        0 <= n <= digits.len(),
        all_digits(digits),
    ensures
        decimal_value(digits.take(n)) <= decimal_value(digits),
    decreases digits.len() - n,
{
    if n < digits.len() {
        lemma_decimal_value_prefix(digits, n + 1);
        let longer = digits.take(n + 1);
        assert(longer.drop_last() =~= digits.take(n));
        assert(is_digit(digits[n]));
    } else {
        assert(digits.take(n) =~= digits);
    }
}

/// The number that a text spells: decimal digits, with an optional `+` in
/// front, whose value is no more than `max`. `None` for any other text.
pub open spec fn decimal_number(text: Seq<u8>, max: u64) -> Option<u64> {
    let digits = if text.len() > 0 && text[0] == PLUS {
        text.skip(1)
    } else {
        text
    };
    if digits.len() == 0 || !all_digits(digits) || decimal_value(digits) > max {
        None
    } else {
        Some(decimal_value(digits) as u64)
    }
}

/// Reads a decimal number that is no more than `max`.
pub fn parse_decimal(text: &[u8], max: u64) -> (r: Option<u64>)
    ensures
        r == decimal_number(text@, max),
{
    let start: usize = if text.len() > 0 && text[0] == PLUS {
        1
    } else {
        0
    };
    let ghost digits = text@.skip(start as int);
    assert(text@.skip(0) =~= text@);
    if start == text.len() {
        return None;
    }
    let mut value: u64 = 0;
    let mut i: usize = start;
    while i < text.len()
        invariant
            start <= i <= text@.len(),
            start < text@.len(),
            digits == text@.skip(start as int),
            decimal_number(text@, max) == if !all_digits(digits) || decimal_value(digits) > max {
                None
            } else {
                Some(decimal_value(digits) as u64)
            },
            all_digits(digits.take(i - start)),
            value == decimal_value(digits.take(i - start)),
            value <= max,
        decreases text@.len() - i,
    {
        let byte = text[i];
        let ghost longer = digits.take(i - start + 1);
        proof {
            assert(longer.drop_last() =~= digits.take(i - start));
            assert(longer.last() == byte);
        }
        if byte < DIGIT_0 || byte > DIGIT_9 {
            assert(!is_digit(digits[i - start]));
            return None;
        }
        let next = match value.checked_mul(10) {
            Some(v) => v.checked_add((byte - DIGIT_0) as u64),
            None => None,
        };
        proof {
            if all_digits(digits) {
                lemma_decimal_value_prefix(digits, i - start + 1);
            }
        }
        match next {
            Some(v) => {
                if v > max {
                    return None;
                }
                value = v;
            },
            None => {
                assert(decimal_value(longer) > u64::MAX);
                return None;
            },
        }
        assert forall|k: int| 0 <= k < longer.len() implies is_digit(#[trigger] longer[k]) by {
            if k < longer.len() - 1 {
                assert(longer[k] == digits.take(i - start)[k]);
            }
        }
        i += 1;
    }
    assert(digits.take(i - start) =~= digits);
    Some(value)
}

/// The character that stands for a digit.
pub open spec fn digit_char(digit: nat) -> char {
    (DIGIT_0 + digit) as char
}

/// A number written in decimal digits.
pub open spec fn decimal_text(n: nat) -> Seq<char>
    decreases n,
{
    if n < 10 {
        seq![digit_char(n)]
    } else {
        decimal_text(n / 10).push(digit_char(n % 10))
    }
}

/// Appends a character to a text.
///
/// Trusted: this is `String::push`, which appends the character to the end
/// of the text.
pub assume_specification[ String::push ](text: &mut String, ch: char)
    ensures
        final(text)@ == old(text)@.push(ch),
;

/// Appends `n`, written in decimal digits, to `out`.
pub fn push_decimal(out: &mut String, n: u64)
    ensures
        final(out)@ == old(out)@ + decimal_text(n as nat),
    decreases n,
{
    if n >= 10 {
        push_decimal(out, n / 10);
    }
    let digit: u8 = (n % 10) as u8;
    out.push((DIGIT_0 + digit) as char);
    assert(out@ =~= old(out)@ + decimal_text(n as nat));
}

/// `n` written in decimal digits.
pub fn decimal(n: u64) -> (text: String)
    ensures
        text@ == decimal_text(n as nat),
{
    let mut text = String::new();
    push_decimal(&mut text, n);
    assert(text@ =~= decimal_text(n as nat));
    text
}

/// The error of `core::str::from_utf8`.
#[verifier::external_type_specification]
#[verifier::external_body]
pub struct ExUtf8Error(core::str::Utf8Error);

/// The text that `v` holds, where `v` is valid UTF-8.
///
/// Trusted: this is `core::str::from_utf8`, which succeeds exactly on the
/// byte strings that are valid UTF-8 and then gives the text that those bytes
/// encode.
pub assume_specification[ core::str::from_utf8 ](v: &[u8]) -> (r: Result<
    &str,
    core::str::Utf8Error,
>)
    ensures
        r is Ok <==> vstd::utf8::valid_utf8(v@),
        r matches Ok(text) ==> text@ == vstd::utf8::decode_utf8(v@),
;

/// Position of the first occurrence of `needle` in `haystack`.
///
/// Trusted: this is `memchr::memchr`, whose documentation promises the index
/// of the first occurrence of the byte, or `None` when the byte is absent.
pub assume_specification[ memchr::memchr ](needle: u8, haystack: &[u8]) -> (r: Option<usize>)
    ensures
        match r {
            Some(i) => {
                &&& i < haystack@.len()
                &&& haystack@[i as int] == needle
                &&& forall|j: int| 0 <= j < i ==> haystack@[j] != needle
            },
            None => forall|j: int| 0 <= j < haystack@.len() ==> haystack@[j] != needle,
        },
;

/// Returns the modification time of the entry.
pub fn mtime(metadata: &crate::summarizer::Metadata) -> (time: u64)
    ensures
        time == metadata.mtime,
{
    metadata.mtime
}

/// Position of the first occurrence of `needle` in `haystack[from..]`,
/// counted from the start of `haystack`.
pub fn find_byte(haystack: &[u8], from: usize, needle: u8) -> (r: Option<usize>)
    requires
        from <= haystack@.len(),
    ensures
        match r {
            Some(i) => from <= i < haystack@.len() && haystack@.skip(from as int).index_of_first(
                needle,
            ) == Some(i - from),
            None => haystack@.skip(from as int).index_of_first(needle) is None,
        },
{
    let tail = vstd::slice::slice_subrange(haystack, from, haystack.len());
    let found = memchr::memchr(needle, tail);
    proof {
        assert(tail@ == haystack@.skip(from as int));
        tail@.index_of_first_ensures(needle);
    }
    match found {
        Some(i) => Some(from + i),
        None => None,
    }
}

/// Whether two byte strings hold the same bytes.
pub fn bytes_eq(a: &[u8], b: &[u8]) -> (r: bool)
    ensures
        r == (a@ == b@),
{
    if a.len() != b.len() {
        return false;
    }
    let mut i: usize = 0;
    while i < a.len()
        invariant
            i <= a@.len(),
            a@.len() == b@.len(),
            forall|j: int| 0 <= j < i ==> a@[j] == b@[j],
        decreases a@.len() - i,
    {
        if a[i] != b[i] {
            return false;
        }
        i += 1;
    }
    assert(a@ =~= b@);
    true
}

/// A copy of `bytes[from..to]`.
pub fn copy_range(bytes: &[u8], from: usize, to: usize) -> (r: Vec<u8>)
    requires
        from <= to <= bytes@.len(),
    ensures
        r@ == bytes@.subrange(from as int, to as int),
{
    vstd::slice::slice_to_vec(vstd::slice::slice_subrange(bytes, from, to))
}

} // verus!
