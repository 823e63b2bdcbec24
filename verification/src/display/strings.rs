//! This module implements the [`QuotedString`] type, which can be used to print
//! names that may contain non-printable characters.
//!
//! The final string can be limited to a maximum width.

use unicode_width::{UnicodeWidthChar, UnicodeWidthStr};
use vstd::prelude::*;

verus! {

/// The number of columns that a terminal shows a character in, or `None`
/// for a control character.
pub uninterp spec fn char_width(ch: char) -> Option<usize>;

/// The number of columns that a terminal shows a text in.
pub uninterp spec fn text_width(text: Seq<char>) -> usize;

/// The displayed width of a character.
///
/// Trusted: this is `unicode_width::UnicodeWidthChar::width`. The contract
/// gives its result a name: it depends on the character alone. It also says
/// what the tables of the crate start with: a printable ASCII character
/// takes one column.
#[verifier::external_body]
pub(crate) fn width_of_char(ch: char) -> (width: Option<usize>)
    ensures
        width == char_width(ch),
        0x20 <= ch as int <= 0x7E ==> width == Some(1usize),
{
    ch.width()
}

/// The displayed width of a text.
///
/// Trusted: this is `unicode_width::UnicodeWidthStr::width`. The contract
/// gives its result a name: it depends on the text alone.
#[verifier::external_body]
pub(crate) fn str_width(text: &str) -> (width: usize)
    ensures
        width == text_width(text@),
{
    text.width()
}

/// The character with the code `code`, where there is one.
///
/// Trusted: this is `char::from_u32`, which gives the character for every
/// code that is a Unicode scalar value, and `None` for the other numbers.
pub assume_specification[ char::from_u32 ](code: u32) -> (r: Option<char>)
    ensures
        match r {
            Some(ch) => ch as int == code as int,
            None => !(code <= 0xD7FF || 0xE000 <= code <= 0x10FFFF),
        },
;

/// A text that was made fit to be shown: control characters and bytes that
/// are no text are written as escapes, and the text is cut where it would
/// get wider than the maximum.
pub ghost struct Quoted {
    pub text: Seq<char>,
    pub truncated: bool,
}

/// Whether the byte goes on within a character of several bytes.
pub open spec fn is_continuation(byte: u8) -> bool {
    0x80 <= byte <= 0xBF
}

/// The number of bytes of the character that is encoded at `at`, or zero
/// where no well-formed character starts there.
pub open spec fn scalar_len(bytes: Seq<u8>, at: int) -> int {
    if at < 0 || at >= bytes.len() {
        0
    } else {
        let b0 = bytes[at];
        if b0 < 0x80 {
            1
        } else if at + 1 < bytes.len() && 0xC2 <= b0 <= 0xDF && is_continuation(bytes[at + 1]) {
            2
        } else if at + 2 < bytes.len() && is_continuation(bytes[at + 2]) && ({
            ||| b0 == 0xE0 && 0xA0 <= bytes[at + 1] <= 0xBF
            ||| (0xE1 <= b0 <= 0xEC || 0xEE <= b0 <= 0xEF) && is_continuation(bytes[at + 1])
            ||| b0 == 0xED && 0x80 <= bytes[at + 1] <= 0x9F
        }) {
            3
        } else if at + 3 < bytes.len() && is_continuation(bytes[at + 2]) && is_continuation(
            bytes[at + 3],
        ) && ({
            ||| b0 == 0xF0 && 0x90 <= bytes[at + 1] <= 0xBF
            ||| 0xF1 <= b0 <= 0xF3 && is_continuation(bytes[at + 1])
            ||| b0 == 0xF4 && 0x80 <= bytes[at + 1] <= 0x8F
        }) {
            4
        } else {
            0
        }
    }
}

/// The code of the character that is encoded at `at`, where one is.
pub open spec fn scalar_code(bytes: Seq<u8>, at: int) -> int {
    let n = scalar_len(bytes, at);
    if n == 1 {
        bytes[at] as int
    } else if n == 2 {
        (bytes[at] - 0xC0) * 0x40 + (bytes[at + 1] - 0x80)
    } else if n == 3 {
        (bytes[at] - 0xE0) * 0x1000 + (bytes[at + 1] - 0x80) * 0x40 + (bytes[at + 2] - 0x80)
    } else {
        (bytes[at] - 0xF0) * 0x40000 + (bytes[at + 1] - 0x80) * 0x1000 + (bytes[at + 2] - 0x80)
            * 0x40 + (bytes[at + 3] - 0x80)
    }
}

/// The digit of a number below sixteen, in capitals.
pub open spec fn hex_digit(n: int) -> char {
    if n < 10 {
        (48 + n) as char
    } else {
        (55 + n) as char
    }
}

/// The escape of a byte: `\x` and the two hexadecimal digits of the byte.
pub open spec fn escape(byte: u8) -> Seq<char> {
    seq!['\\', 'x', hex_digit(byte as int / 16), hex_digit(byte as int % 16)]
}

/// The width of an escape.
pub const ESCAPE_WIDTH: usize = 4;

/// Whether a code is that of a control character.
pub open spec fn is_control(code: int) -> bool {
    code < 0x20 || 0x7F <= code <= 0x9F
}

/// Whether the piece of the name that starts at `at` is written as an
/// escape: it is where no character starts there, or a control character.
pub open spec fn is_escaped(bytes: Seq<u8>, at: int) -> bool {
    scalar_len(bytes, at) == 0 || is_control(scalar_code(bytes, at))
}

/// What is shown for the piece of the name that starts at `at`: the escape
/// of a byte that starts no character, the escape of the code of a control
/// character, or the character itself.
pub open spec fn piece_text(bytes: Seq<u8>, at: int) -> Seq<char> {
    if scalar_len(bytes, at) == 0 {
        escape(bytes[at])
    } else if is_control(scalar_code(bytes, at)) {
        escape(scalar_code(bytes, at) as u8)
    } else {
        seq![scalar_code(bytes, at) as char]
    }
}

/// The number of columns of the piece that starts at `at`: four for an
/// escape, one for a printable ASCII character, and for any other character
/// what the terminal takes for it.
pub open spec fn piece_width(bytes: Seq<u8>, at: int) -> usize {
    if is_escaped(bytes, at) {
        ESCAPE_WIDTH
    } else if scalar_code(bytes, at) < 0x7F {
        1
    } else {
        match char_width(scalar_code(bytes, at) as char) {
            Some(width) => width,
            None => 0,
        }
    }
}

/// The number of bytes of the piece that starts at `at`.
pub open spec fn piece_len(bytes: Seq<u8>, at: int) -> int {
    if scalar_len(bytes, at) == 0 {
        1
    } else {
        scalar_len(bytes, at)
    }
}

/// The number of columns of all the pieces of the name from `at` on.
pub open spec fn width_from(bytes: Seq<u8>, at: int) -> nat
    decreases bytes.len() - at,
{
    if at < 0 || at >= bytes.len() {
        0
    } else {
        piece_width(bytes, at) as nat + width_from(bytes, at + piece_len(bytes, at))
    }
}

/// The name from `at` on, piece by piece, added to `shown`, with `left`
/// columns left (`None`: as many as are needed). Where the columns are
/// counted, a piece is shown only where a column stays free behind it, for
/// the ellipsis; the first piece that is not ends the text, which is then
/// truncated.
pub open spec fn quoted_from(bytes: Seq<u8>, at: int, left: Option<usize>, shown: Seq<char>) -> Quoted
    decreases bytes.len() - at,
{
    if at < 0 || at >= bytes.len() {
        Quoted { text: shown, truncated: false }
    } else if left is Some && left.unwrap() <= piece_width(bytes, at) {
        Quoted { text: shown, truncated: true }
    } else {
        quoted_from(
            bytes,
            at + piece_len(bytes, at),
            match left {
                Some(columns) => Some((columns - piece_width(bytes, at)) as usize),
                None => None,
            },
            shown + piece_text(bytes, at),
        )
    }
}

/// Whether all the bytes are printable ASCII characters.
pub open spec fn is_plain_ascii(bytes: Seq<u8>) -> bool {
    forall|i: int| 0 <= i < bytes.len() ==> 0x20 <= #[trigger] bytes[i] < 0x7F
}

/// The text of bytes that are ASCII characters.
pub open spec fn ascii_text(bytes: Seq<u8>) -> Seq<char> {
    Seq::new(bytes.len(), |i: int| bytes[i] as char)
}

/// The maximum that is in force: a maximum of zero is no maximum.
pub open spec fn limit_of(max_width: Option<usize>) -> Option<usize> {
    match max_width {
        Some(0) => None,
        other => other,
    }
}

/// Whether a name fits in `max_width` columns as a whole: it does where
/// there is no maximum, or where all its pieces together take no more
/// columns than the maximum.
pub open spec fn fits(bytes: Seq<u8>, max_width: Option<usize>) -> bool {
    match limit_of(max_width) {
        Some(max) => width_from(bytes, 0) <= max,
        None => true,
    }
}

/// A name, made fit to be shown in at most `max_width` columns.
///
/// A name that fits as a whole is shown as a whole, piece by piece. A name
/// that is wider than the maximum is truncated: its pieces are shown as long
/// as a column stays free for the ellipsis.
pub open spec fn quoted(bytes: Seq<u8>, max_width: Option<usize>) -> Quoted {
    if fits(bytes, max_width) {
        quoted_from(bytes, 0, None, Seq::empty())
    } else {
        quoted_from(bytes, 0, limit_of(max_width), Seq::empty())
    }
}

/// The byte at which the piece number `k` of a name starts.
pub open spec fn piece_start(bytes: Seq<u8>, k: nat) -> int
    decreases k,
{
    if k == 0 {
        0
    } else {
        let before = piece_start(bytes, (k - 1) as nat);
        before + piece_len(bytes, before)
    }
}

/// What is shown for the first `k` pieces of a name.
pub open spec fn pieces_text(bytes: Seq<u8>, k: nat) -> Seq<char>
    decreases k,
{
    if k == 0 {
        Seq::empty()
    } else {
        pieces_text(bytes, (k - 1) as nat) + piece_text(
            bytes,
            piece_start(bytes, (k - 1) as nat),
        )
    }
}

/// The number of columns of the first `k` pieces of a name.
pub open spec fn pieces_width(bytes: Seq<u8>, k: nat) -> nat
    decreases k,
{
    if k == 0 {
        0
    } else {
        pieces_width(bytes, (k - 1) as nat) + piece_width(
            bytes,
            piece_start(bytes, (k - 1) as nat),
        ) as nat
    }
}

/// What a name that is cut comes to, from its piece number `k` on: the
/// number of the pieces that are shown.
proof fn lemma_quoted_from_cut(bytes: Seq<u8>, k: nat, max: usize) -> (n: nat)
    requires
        0 <= piece_start(bytes, k),
        pieces_width(bytes, k) < max,
    ensures
        ({
            let q = quoted_from(
                bytes,
                piece_start(bytes, k),
                Some((max - pieces_width(bytes, k)) as usize),
                pieces_text(bytes, k),
            );
            &&& pieces_text(bytes, n) == q.text
            &&& pieces_width(bytes, n) + (if q.truncated {
                1nat
            } else {
                0nat
            }) <= max
            &&& q.truncated <==> piece_start(bytes, n) < bytes.len()
            &&& 0 <= piece_start(bytes, n)
            &&& pieces_width(bytes, n) + width_from(bytes, piece_start(bytes, n)) == pieces_width(
                bytes,
                k,
            ) + width_from(bytes, piece_start(bytes, k))
        }),
    decreases bytes.len() - piece_start(bytes, k),
{
    let at = piece_start(bytes, k);
    let left = (max - pieces_width(bytes, k)) as usize;
    if at >= bytes.len() {
        k
    } else if left <= piece_width(bytes, at) {
        k
    } else {
        assert(piece_start(bytes, k + 1) == at + piece_len(bytes, at));
        assert(pieces_width(bytes, k + 1) == pieces_width(bytes, k) + piece_width(bytes, at));
        assert(pieces_text(bytes, k + 1) == pieces_text(bytes, k) + piece_text(bytes, at));
        lemma_quoted_from_cut(bytes, k + 1, max)
    }
}

/// What a name that is shown as a whole comes to, from its piece number
/// `k` on: the number of its pieces.
proof fn lemma_quoted_from_whole(bytes: Seq<u8>, k: nat) -> (n: nat)
    requires
        0 <= piece_start(bytes, k),
    ensures
        ({
            let q = quoted_from(bytes, piece_start(bytes, k), None, pieces_text(bytes, k));
            &&& pieces_text(bytes, n) == q.text
            &&& !q.truncated
            &&& piece_start(bytes, n) >= bytes.len()
            &&& pieces_width(bytes, n) == pieces_width(bytes, k) + width_from(
                bytes,
                piece_start(bytes, k),
            )
        }),
    decreases bytes.len() - piece_start(bytes, k),
{
    let at = piece_start(bytes, k);
    if at >= bytes.len() {
        k
    } else {
        assert(piece_start(bytes, k + 1) == at + piece_len(bytes, at));
        assert(pieces_width(bytes, k + 1) == pieces_width(bytes, k) + piece_width(bytes, at));
        assert(pieces_text(bytes, k + 1) == pieces_text(bytes, k) + piece_text(bytes, at));
        lemma_quoted_from_whole(bytes, k + 1)
    }
}

/// A name is truncated exactly where it is wider than the maximum. It is
/// never cut within a character or an escape, and what is shown fits with
/// the ellipsis: the text is what is shown for some of the first pieces of
/// the name; the columns of these pieces, and one more for the ellipsis
/// where the name was cut, are no more than the maximum; and pieces are left
/// exactly where the name was cut.
pub proof fn lemma_quoted_fits(bytes: Seq<u8>, max_width: usize)
    requires
        max_width > 0,
    ensures
        quoted(bytes, Some(max_width)).truncated <==> width_from(bytes, 0) > max_width,
        ({
            let q = quoted(bytes, Some(max_width));
            exists|n: nat|
                {
                    &&& #[trigger] pieces_text(bytes, n) == q.text
                    &&& pieces_width(bytes, n) + (if q.truncated {
                        1nat
                    } else {
                        0nat
                    }) <= max_width
                    &&& q.truncated <==> piece_start(bytes, n) < bytes.len()
                }
        }),
{
    let q = quoted(bytes, Some(max_width));
    if fits(bytes, Some(max_width)) {
        let n = lemma_quoted_from_whole(bytes, 0);
        assert(pieces_text(bytes, n) == q.text);
    } else {
        let n = lemma_quoted_from_cut(bytes, 0, max_width);
        assert(pieces_text(bytes, n) == q.text);
    }
}

/// A name that fits as a whole is shown as a whole, whatever the maximum:
/// the text is the one that is shown without a maximum, and it is not
/// truncated.
pub proof fn lemma_quoted_whole(bytes: Seq<u8>, max_width: Option<usize>)
    requires
        fits(bytes, max_width),
    ensures
        quoted(bytes, max_width) == quoted(bytes, None),
        !quoted(bytes, max_width).truncated,
{
    let n = lemma_quoted_from_whole(bytes, 0);
}

proof fn lemma_plain_ascii_width(bytes: Seq<u8>, at: int)
    requires
        is_plain_ascii(bytes),
        0 <= at <= bytes.len(),
    ensures
        width_from(bytes, at) == bytes.len() - at,
    decreases bytes.len() - at,
{
    if at < bytes.len() {
        assert(0x20 <= bytes[at] < 0x7F);
        lemma_plain_ascii_width(bytes, at + 1);
    }
}

proof fn lemma_quoted_from_plain_ascii_cut(bytes: Seq<u8>, at: int, max: usize)
    requires
        is_plain_ascii(bytes),
        0 <= at < max < bytes.len(),
    ensures
        quoted_from(bytes, at, Some((max - at) as usize), ascii_text(bytes.take(at))) == (Quoted {
            text: ascii_text(bytes.take(max - 1)),
            truncated: true,
        }),
    decreases max - at,
{
    assert(0x20 <= bytes[at] < 0x7F);
    if at < max - 1 {
        assert(ascii_text(bytes.take(at)) + piece_text(bytes, at) =~= ascii_text(
            bytes.take(at + 1),
        ));
        lemma_quoted_from_plain_ascii_cut(bytes, at + 1, max);
    }
}

/// A name of printable ASCII characters is shown as it is where it has no
/// more characters than the maximum, and is cut to one character less than
/// the maximum where it has more.
pub proof fn lemma_quoted_plain_ascii(bytes: Seq<u8>, max_width: Option<usize>)
    requires
        is_plain_ascii(bytes),
    ensures
        quoted(bytes, max_width) == if limit_of(max_width) is Some && limit_of(
            max_width,
        ).unwrap() < bytes.len() {
            Quoted {
                text: ascii_text(bytes.take(limit_of(max_width).unwrap() - 1)),
                truncated: true,
            }
        } else {
            Quoted { text: ascii_text(bytes), truncated: false }
        },
{
    lemma_plain_ascii_width(bytes, 0);
    assert(ascii_text(bytes.take(0)) =~= Seq::<char>::empty());
    if fits(bytes, max_width) {
        lemma_quoted_from_plain_ascii(bytes, 0);
    } else {
        lemma_quoted_from_plain_ascii_cut(bytes, 0, limit_of(max_width).unwrap());
    }
}

/// The data bits of the bytes of a character, read as numbers.
proof fn lemma_data_bits(byte: u8)
    ensures
        byte <= 0x7F ==> (byte & 0x7F) == byte,
        0x80 <= byte <= 0xBF ==> (byte & 0x3F) == byte - 0x80,
        0xC0 <= byte <= 0xDF ==> (byte & 0x1F) == byte - 0xC0,
        0xE0 <= byte <= 0xEF ==> (byte & 0x0F) == byte - 0xE0,
        0xF0 <= byte <= 0xF7 ==> (byte & 0x07) == byte - 0xF0,
{
    assert(byte <= 0x7F ==> (byte & 0x7F) == byte) by (bit_vector);
    assert(0x80 <= byte <= 0xBF ==> (byte & 0x3F) == byte - 0x80) by (bit_vector);
    assert(0xC0 <= byte <= 0xDF ==> (byte & 0x1F) == byte - 0xC0) by (bit_vector);
    assert(0xE0 <= byte <= 0xEF ==> (byte & 0x0F) == byte - 0xE0) by (bit_vector);
    assert(0xF0 <= byte <= 0xF7 ==> (byte & 0x07) == byte - 0xF0) by (bit_vector);
}

/// The data bits of a character of several bytes, put together.
proof fn lemma_joined_bits(w: u32, x: u32, y: u32, z: u32)
    requires
        w < 8,
        x < 64,
        y < 64,
        z < 64,
    ensures
        ((y << 6) | z) == y * 64 + z,
        ((x << 12) | (y << 6) | z) == x * 4096 + y * 64 + z,
        ((w << 18) | (x << 12) | (y << 6) | z) == w * 262144 + x * 4096 + y * 64 + z,
{
    assert(y < 64 && z < 64 ==> ((y << 6) | z) == y * 64 + z) by (bit_vector);
    assert(x < 64 && y < 64 && z < 64 ==> ((x << 12) | (y << 6) | z) == x * 4096 + y * 64 + z)
        by (bit_vector);
    assert(w < 8 && x < 64 && y < 64 && z < 64 ==> ((w << 18) | (x << 12) | (y << 6) | z) == w
        * 262144 + x * 4096 + y * 64 + z) by (bit_vector);
}

/// A character is well formed at a place of a name exactly where the name
/// from there on starts with a character in UTF-8; its length and its code
/// are then those of that character.
pub proof fn lemma_scalar_is_utf8(bytes: Seq<u8>, at: int)
    requires
        0 <= at <= bytes.len(),
    ensures
        scalar_len(bytes, at) > 0 <==> bytes.len() > at && vstd::utf8::valid_first_scalar(
            bytes.skip(at),
        ),
        scalar_len(bytes, at) > 0 ==> {
            &&& scalar_len(bytes, at) == vstd::utf8::length_of_first_scalar(bytes.skip(at))
            &&& scalar_code(bytes, at) == vstd::utf8::decode_first_scalar(bytes.skip(at))
        },
{
    let tail = bytes.skip(at);
    if at < bytes.len() {
        let b0 = bytes[at];
        assert(tail[0] == b0);
        lemma_data_bits(b0);
        if at + 1 < bytes.len() {
            assert(tail[1] == bytes[at + 1]);
            lemma_data_bits(bytes[at + 1]);
        }
        if at + 2 < bytes.len() {
            assert(tail[2] == bytes[at + 2]);
            lemma_data_bits(bytes[at + 2]);
        }
        if at + 3 < bytes.len() {
            assert(tail[3] == bytes[at + 3]);
            lemma_data_bits(bytes[at + 3]);
        }
        if 0xC0 <= b0 <= 0xDF && at + 1 < bytes.len() && is_continuation(bytes[at + 1]) {
            lemma_joined_bits(0, 0, (b0 & 0x1F) as u32, (bytes[at + 1] & 0x3F) as u32);
        }
        if 0xE0 <= b0 <= 0xEF && at + 2 < bytes.len() && is_continuation(bytes[at + 1])
            && is_continuation(bytes[at + 2]) {
            lemma_joined_bits(
                0,
                (b0 & 0x0F) as u32,
                (bytes[at + 1] & 0x3F) as u32,
                (bytes[at + 2] & 0x3F) as u32,
            );
        }
        if 0xF0 <= b0 <= 0xF7 && at + 3 < bytes.len() && is_continuation(bytes[at + 1])
            && is_continuation(bytes[at + 2]) && is_continuation(bytes[at + 3]) {
            lemma_joined_bits(
                (b0 & 0x07) as u32,
                (bytes[at + 1] & 0x3F) as u32,
                (bytes[at + 2] & 0x3F) as u32,
                (bytes[at + 3] & 0x3F) as u32,
            );
        }
    }
}

/// What is shown for a character: its escape where it is a control
/// character, and the character itself otherwise.
pub open spec fn shown_char(ch: char) -> Seq<char> {
    if is_control(ch as int) {
        escape(ch as u8)
    } else {
        seq![ch]
    }
}

/// What is shown for a text, character by character.
pub open spec fn shown_chars(text: Seq<char>) -> Seq<char>
    decreases text.len(),
{
    if text.len() == 0 {
        Seq::empty()
    } else {
        shown_char(text[0]) + shown_chars(text.skip(1))
    }
}

proof fn lemma_quoted_from_valid_text(bytes: Seq<u8>, at: int, shown: Seq<char>)
    requires
        0 <= at <= bytes.len(),
        vstd::utf8::valid_utf8(bytes.skip(at)),
    ensures
        quoted_from(bytes, at, None, shown) == (Quoted {
            text: shown + shown_chars(vstd::utf8::decode_utf8(bytes.skip(at))),
            truncated: false,
        }),
    decreases bytes.len() - at,
{
    let tail = bytes.skip(at);
    if at < bytes.len() {
        lemma_scalar_is_utf8(bytes, at);
        let n = scalar_len(bytes, at);
        let rest = vstd::utf8::pop_first_scalar(tail);
        assert(rest =~= bytes.skip(at + n));
        let first = vstd::utf8::decode_first_scalar(tail) as char;
        let decoded = vstd::utf8::decode_utf8(tail);
        assert(decoded == seq![first] + vstd::utf8::decode_utf8(rest));
        assert(decoded[0] == first);
        assert(decoded.skip(1) =~= vstd::utf8::decode_utf8(rest));
        assert(first as int == scalar_code(bytes, at));
        assert(piece_text(bytes, at) == shown_char(first));
        lemma_quoted_from_valid_text(bytes, at + n, shown + piece_text(bytes, at));
        assert(shown + piece_text(bytes, at) + shown_chars(vstd::utf8::decode_utf8(rest)) =~= shown
            + shown_chars(decoded));
    } else {
        assert(tail.len() == 0);
        assert(shown + shown_chars(vstd::utf8::decode_utf8(tail)) =~= shown);
    }
}

proof fn lemma_quoted_from_plain_ascii(bytes: Seq<u8>, at: int)
    requires
        0 <= at <= bytes.len(),
        is_plain_ascii(bytes),
    ensures
        quoted_from(bytes, at, None, ascii_text(bytes.take(at))) == (Quoted {
            text: ascii_text(bytes),
            truncated: false,
        }),
    decreases bytes.len() - at,
{
    if at < bytes.len() {
        assert(0x20 <= bytes[at] < 0x7F);
        assert(ascii_text(bytes.take(at)) + piece_text(bytes, at) =~= ascii_text(
            bytes.take(at + 1),
        ));
        lemma_quoted_from_plain_ascii(bytes, at + 1);
    } else {
        assert(bytes.take(at) =~= bytes);
    }
}

/// A name that is text is shown as that text, with its control characters
/// written as escapes, where there is no maximum.
pub proof fn lemma_quoted_text(bytes: Seq<u8>)
    requires
        vstd::utf8::valid_utf8(bytes),
    ensures
        quoted(bytes, None) == (Quoted {
            text: shown_chars(vstd::utf8::decode_utf8(bytes)),
            truncated: false,
        }),
{
    assert(bytes.skip(0) =~= bytes);
    lemma_quoted_from_valid_text(bytes, 0, Seq::empty());
    assert(Seq::<char>::empty() + shown_chars(vstd::utf8::decode_utf8(bytes)) =~= shown_chars(
        vstd::utf8::decode_utf8(bytes),
    ));
}

/// Contains a name that can be shown as a Unicode string.
///
/// Optionally, the string has a maximum width. If the name is wider than
/// this limit, the string is cut and `is_truncated()` returns `true`.
pub struct QuotedString {
    pub text: String,
    pub truncated: bool,
}

fn hex_digit_of(n: u8) -> (ch: char)
    requires
        n < 16,
    ensures
        ch == hex_digit(n as int),
{
    if n < 10 {
        (48 + n) as char
    } else {
        (55 + n) as char
    }
}

fn push_escape(out: &mut String, byte: u8)
    ensures
        final(out)@ == old(out)@ + escape(byte),
{
    out.push('\\');
    out.push('x');
    out.push(hex_digit_of(byte / 16));
    out.push(hex_digit_of(byte % 16));
    assert(out@ =~= old(out)@ + escape(byte));
}

fn is_control_char(ch: char) -> (r: bool)
    ensures
        r == is_control(ch as int),
{
    ch < ' ' || ('\u{7F}' <= ch && ch <= '\u{9F}')
}

fn is_cont(byte: u8) -> (r: bool)
    ensures
        r == is_continuation(byte),
{
    0x80 <= byte && byte <= 0xBF
}

/// The character that is encoded at `at`, with the number of its bytes.
fn scalar_at(bytes: &[u8], at: usize) -> (r: Option<(char, usize)>)
    requires
        at < bytes@.len(),
    ensures
        match r {
            Some((ch, n)) => {
                &&& n == scalar_len(bytes@, at as int)
                &&& n > 0
                &&& ch as int == scalar_code(bytes@, at as int)
                &&& ch == scalar_code(bytes@, at as int) as char
            },
            None => scalar_len(bytes@, at as int) == 0,
        },
{
    let len = bytes.len();
    let b0 = bytes[at];
    if b0 < 0x80 {
        return Some((b0 as char, 1));
    }
    if len - at < 2 {
        return None;
    }
    let b1 = bytes[at + 1];
    if 0xC2 <= b0 && b0 <= 0xDF {
        if !is_cont(b1) {
            return None;
        }
        let code: u32 = (b0 as u32 - 0xC0) * 0x40 + (b1 as u32 - 0x80);
        return match char::from_u32(code) {
            Some(ch) => Some((ch, 2)),
            None => None,
        };
    }
    if len - at < 3 {
        return None;
    }
    let b2 = bytes[at + 2];
    if 0xE0 <= b0 && b0 <= 0xEF {
        let second_fits = if b0 == 0xE0 {
            0xA0 <= b1 && b1 <= 0xBF
        } else if b0 == 0xED {
            0x80 <= b1 && b1 <= 0x9F
        } else {
            is_cont(b1)
        };
        if !second_fits || !is_cont(b2) {
            return None;
        }
        let code: u32 = (b0 as u32 - 0xE0) * 0x1000 + (b1 as u32 - 0x80) * 0x40 + (b2 as u32
            - 0x80);
        return match char::from_u32(code) {
            Some(ch) => Some((ch, 3)),
            None => None,
        };
    }
    if len - at < 4 {
        return None;
    }
    let b3 = bytes[at + 3];
    if 0xF0 <= b0 && b0 <= 0xF4 {
        let second_fits = if b0 == 0xF0 {
            0x90 <= b1 && b1 <= 0xBF
        } else if b0 == 0xF4 {
            0x80 <= b1 && b1 <= 0x8F
        } else {
            is_cont(b1)
        };
        if !second_fits || !is_cont(b2) || !is_cont(b3) {
            return None;
        }
        let code: u32 = (b0 as u32 - 0xF0) * 0x40000 + (b1 as u32 - 0x80) * 0x1000 + (b2 as u32
            - 0x80) * 0x40 + (b3 as u32 - 0x80);
        return match char::from_u32(code) {
            Some(ch) => Some((ch, 4)),
            None => None,
        };
    }
    None
}

/// A piece of a name, as it is shown.
struct Piece {
    /// The character that is shown, or `None` for an escape.
    shown: Option<char>,
    /// The byte that the escape is of, where the piece is an escape.
    escaped: u8,
    /// The number of columns of the piece.
    width: usize,
    /// The number of bytes of the piece.
    len: usize,
}

/// The piece of the name that starts at `at`.
fn piece_at(bytes: &[u8], at: usize) -> (piece: Piece)
    requires
        at < bytes@.len(),
    ensures
        piece.width == piece_width(bytes@, at as int),
        piece.len == piece_len(bytes@, at as int),
        1 <= piece.len,
        at + piece.len <= bytes@.len(),
        piece_text(bytes@, at as int) == match piece.shown {
            Some(ch) => seq![ch],
            None => escape(piece.escaped),
        },
{
    match scalar_at(bytes, at) {
        Some((ch, n)) => {
            if is_control_char(ch) {
                Piece { shown: None, escaped: ch as u8, width: ESCAPE_WIDTH, len: n }
            } else {
                let width = match width_of_char(ch) {
                    Some(w) => w,
                    None => 0,
                };
                Piece { shown: Some(ch), escaped: 0, width, len: n }
            }
        },
        None => Piece { shown: None, escaped: bytes[at], width: ESCAPE_WIDTH, len: 1 },
    }
}

/// Whether all the pieces of the name together take no more than `max`
/// columns.
fn name_fits(bytes: &[u8], max: usize) -> (r: bool)
    ensures
        r == (width_from(bytes@, 0) <= max),
{
    let mut used: usize = 0;
    let mut at: usize = 0;
    while at < bytes.len()
        invariant
            at <= bytes@.len(),
            used <= max,
            used + width_from(bytes@, at as int) == width_from(bytes@, 0),
        decreases bytes@.len() - at,
    {
        let piece = piece_at(bytes, at);
        if piece.width > max - used {
            return false;
        }
        used += piece.width;
        at += piece.len;
    }
    true
}

impl QuotedString {
    /// Makes a name fit to be shown in at most `max_width` columns. A
    /// maximum of zero is no maximum.
    ///
    /// The name is measured first. Only a name that is wider than the
    /// maximum is truncated.
    pub fn new(string: &[u8], max_width: Option<usize>) -> (quoted_string: QuotedString)
        ensures
            quoted_string.text@ == quoted(string@, max_width).text,
            quoted_string.truncated == quoted(string@, max_width).truncated,
    {
        let mut left = match max_width {
            Some(max) => {
                if max == 0 || name_fits(string, max) {
                    None
                } else {
                    Some(max)
                }
            },
            None => None,
        };
        let mut text = String::new();
        let mut at: usize = 0;
        assert(text@ =~= Seq::<char>::empty());
        while at < string.len()
            invariant
                at <= string@.len(),
                quoted(string@, max_width) == quoted_from(string@, at as int, left, text@),
            decreases string@.len() - at,
        {
            let ghost shown = text@;
            let piece = piece_at(string, at);
            match left {
                Some(columns) => {
                    if columns <= piece.width {
                        return QuotedString { text, truncated: true };
                    }
                    left = Some(columns - piece.width);
                },
                None => {},
            }
            match piece.shown {
                Some(ch) => {
                    text.push(ch);
                    assert(text@ =~= shown + piece_text(string@, at as int));
                },
                None => {
                    push_escape(&mut text, piece.escaped);
                },
            }
            at += piece.len;
        }
        QuotedString { text, truncated: false }
    }

    /// Returns `true` is the string was truncated.
    pub fn is_truncated(&self) -> (r: bool)
        ensures
            r == self.truncated,
    {
        self.truncated
    }

    /// The text to show.
    pub fn as_str(&self) -> (text: &str)
        ensures
            text@ == self.text@,
    {
        self.text.as_str()
    }

    /// A copy of the text to show.
    pub fn to_string(&self) -> (text: String)
        ensures
            text@ == self.text@,
    {
        self.text.clone()
    }
}

} // verus!
