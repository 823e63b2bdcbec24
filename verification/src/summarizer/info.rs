//! This module provides the [`parse`] function, which takes a formatting string
//! for the info boxes, and returns the [tokens] in it. A token can be plain
//! text, or a specifier.
//!
//! [tokens]: Token
//!
//! # Specifiers
//!
//! The formatting string can contain any of the following specifiers:
//!
//! ```notrust
//! %%      literal '%'
//! %P      path
//! %p      path, where '$HOME' is replaced with '~'.
//! %S      disk usage
//! %+      added lines (git)
//! %-      deleted lines (git)
//! %C{…}   color
//! %V{…}   variable
//! ```

use vstd::prelude::*;
use vstd::string::StrSliceExecFns;

use crate::display::styles::{described_style, parse_style, Style};

verus! {

/// Tokens extracted from a formatting string.
#[derive(Debug, PartialEq)]
pub enum Token {
    Text(String),
    Variable(String),
    Style(Style),
    StyleReset,
    Path,
    PathHome,
    DiskUsage,
    AddedLines,
    DeletedLines,
}

/// What a token holds.
pub ghost enum TokenView {
    Text(Seq<char>),
    Variable(Seq<char>),
    Style(Style),
    StyleReset,
    Path,
    PathHome,
    DiskUsage,
    AddedLines,
    DeletedLines,
}

impl View for Token {
    type V = TokenView;

    open spec fn view(&self) -> TokenView {
        match self {
            Token::Text(text) => TokenView::Text(text@),
            Token::Variable(name) => TokenView::Variable(name@),
            Token::Style(style) => TokenView::Style(*style),
            Token::StyleReset => TokenView::StyleReset,
            Token::Path => TokenView::Path,
            Token::PathHome => TokenView::PathHome,
            Token::DiskUsage => TokenView::DiskUsage,
            Token::AddedLines => TokenView::AddedLines,
            Token::DeletedLines => TokenView::DeletedLines,
        }
    }
}

/// The views of a list of tokens.
pub open spec fn token_views(tokens: Seq<Token>) -> Seq<TokenView> {
    Seq::new(tokens.len(), |i: int| tokens[i]@)
}

/// The position of the first `ch` at or behind `from`, or the length of
/// the text where there is none.
pub open spec fn find_char(text: Seq<char>, from: int, ch: char) -> int
    decreases text.len() - from,
{
    if from < 0 || from >= text.len() {
        text.len() as int
    } else if text[from] == ch {
        from
    } else {
        find_char(text, from + 1, ch)
    }
}

/// Whether a character is white space.
pub open spec fn is_space(ch: char) -> bool {
    let code = ch as int;
    ||| 0x09 <= code <= 0x0D
    ||| code == 0x20
    ||| code == 0x85
    ||| code == 0xA0
    ||| code == 0x1680
    ||| 0x2000 <= code <= 0x200A
    ||| code == 0x2028
    ||| code == 0x2029
    ||| code == 0x202F
    ||| code == 0x205F
    ||| code == 0x3000
}

/// Where the text from `from` to `to` starts once the white space before it
/// is left out.
pub open spec fn trim_start(text: Seq<char>, from: int, to: int) -> int
    decreases to - from,
{
    if from < to && 0 <= from < text.len() && is_space(text[from]) {
        trim_start(text, from + 1, to)
    } else {
        from
    }
}

/// Where the text from `from` to `to` ends once the white space behind it
/// is left out.
pub open spec fn trim_end(text: Seq<char>, from: int, to: int) -> int
    decreases to - from,
{
    if from < to && 0 < to <= text.len() && is_space(text[to - 1]) {
        trim_end(text, from, to - 1)
    } else {
        to
    }
}

/// The text from `from` to `to` without the white space around it.
pub open spec fn trimmed(text: Seq<char>, from: int, to: int) -> Seq<char> {
    let start = trim_start(text, from, to);
    text.subrange(start, trim_end(text, start, to))
}

/// The word that takes the style back to the style of the box.
pub open spec fn reset_word() -> Seq<char> {
    seq!['r', 'e', 's', 'e', 't']
}

/// The specifier `%C{..}` at `at`, and where it ends: between the braces
/// stands `reset`, or the description of a style. `None` where the braces
/// are missing or the description is malformed.
pub open spec fn color_at(format: Seq<char>, at: int) -> Option<(TokenView, int)> {
    let end = find_char(format, at + 1, '}');
    if end < format.len() && at + 3 <= end && format[at + 2] == '{' {
        let body = trimmed(format, at + 3, end);
        if body == reset_word() {
            Some((TokenView::StyleReset, end + 1))
        } else {
            match described_style(body) {
                Some(style) => Some((TokenView::Style(style), end + 1)),
                None => None,
            }
        }
    } else {
        None
    }
}

/// The specifier `%V{..}` at `at`, and where it ends: between the braces
/// stands the name of a variable. `None` where the braces are missing.
pub open spec fn variable_at(format: Seq<char>, at: int) -> Option<(TokenView, int)> {
    let end = find_char(format, at + 1, '}');
    if end < format.len() && at + 3 <= end && format[at + 2] == '{' {
        Some((TokenView::Variable(format.subrange(at + 3, end)), end + 1))
    } else {
        None
    }
}

/// The text that `%%` stands for.
pub open spec fn percent() -> Seq<char> {
    seq!['%']
}

/// The specifier that starts at `at`, and where it ends. `None` where no
/// specifier starts there.
pub open spec fn specifier_at(format: Seq<char>, at: int) -> Option<(TokenView, int)> {
    if 0 <= at && at + 1 < format.len() && format[at] == '%' {
        let ch = format[at + 1];
        if ch == 'P' {
            Some((TokenView::Path, at + 2))
        } else if ch == 'p' {
            Some((TokenView::PathHome, at + 2))
        } else if ch == 'S' {
            Some((TokenView::DiskUsage, at + 2))
        } else if ch == '+' {
            Some((TokenView::AddedLines, at + 2))
        } else if ch == '-' {
            Some((TokenView::DeletedLines, at + 2))
        } else if ch == 'C' {
            color_at(format, at)
        } else if ch == 'V' {
            variable_at(format, at)
        } else if ch == '%' {
            Some((TokenView::Text(percent()), at + 2))
        } else {
            None
        }
    } else {
        None
    }
}

/// The token that starts at `at`, and where it ends: a specifier, or the
/// text up to the next `%`. A `%` that is the last character of the format
/// belongs to the text before it.
pub open spec fn token_at(format: Seq<char>, at: int) -> (TokenView, int) {
    match specifier_at(format, at) {
        Some(found) => found,
        None => {
            let next = find_char(format, at + 1, '%');
            if next >= format.len() - 1 {
                (TokenView::Text(format.subrange(at, format.len() as int)), format.len() as int)
            } else {
                (TokenView::Text(format.subrange(at, next)), next)
            }
        },
    }
}

/// The tokens of a format from `at` on.
pub open spec fn tokens_from(format: Seq<char>, at: int) -> Seq<TokenView>
    decreases format.len() - at,
{
    if at < 0 || at >= format.len() {
        Seq::empty()
    } else {
        proof {
            lemma_token_at_advances(format, at);
        }
        seq![token_at(format, at).0] + tokens_from(format, token_at(format, at).1)
    }
}

/// The tokens of a format.
pub open spec fn tokens_of(format: Seq<char>) -> Seq<TokenView> {
    tokens_from(format, 0)
}

/// A token ends behind the place where it starts.
pub proof fn lemma_token_at_advances(format: Seq<char>, at: int)
    requires
        0 <= at < format.len(),
    ensures
        at < token_at(format, at).1 <= format.len(),
{
    lemma_find_char(format, at + 1, '}');
    lemma_find_char(format, at + 1, '%');
}

/// The position that `find_char` gives holds the character, where it is
/// within the text, and no position between `from` and it does.
pub proof fn lemma_find_char(text: Seq<char>, from: int, ch: char)
    requires
        0 <= from,
    ensures
        from <= find_char(text, from, ch) || find_char(text, from, ch) == text.len(),
        find_char(text, from, ch) <= text.len(),
        find_char(text, from, ch) < text.len() ==> text[find_char(text, from, ch)] == ch,
        forall|k: int| from <= k < find_char(text, from, ch) ==> text[k] != ch,
    decreases text.len() - from,
{
    if from < text.len() && text[from] != ch {
        lemma_find_char(text, from + 1, ch);
    }
}

/// A format without `%` is one piece of text.
pub proof fn lemma_plain_format(format: Seq<char>)
    requires
        format.len() > 0,
        forall|i: int| 0 <= i < format.len() ==> format[i] != '%',
    ensures
        tokens_of(format) == seq![TokenView::Text(format)],
{
    lemma_find_char(format, 1, '%');
    assert(find_char(format, 1, '%') == format.len());
    assert(format.subrange(0, format.len() as int) =~= format);
    assert(token_at(format, 0) == (TokenView::Text(format), format.len() as int));
    assert(tokens_from(format, format.len() as int) =~= Seq::<TokenView>::empty());
    assert(tokens_of(format) =~= seq![TokenView::Text(format)]);
}

/// The characters of a text.
pub fn chars_of(text: &str) -> (chars: Vec<char>)
    ensures
        chars@ == text@,
{
    let len = text.unicode_len();
    let mut chars: Vec<char> = Vec::new();
    let mut i: usize = 0;
    while i < len
        invariant
            i <= len,
            len == text@.len(),
            chars@ == text@.take(i as int),
        decreases len - i,
    {
        chars.push(text.get_char(i));
        assert(chars@ =~= text@.take(i + 1));
        i += 1;
    }
    assert(text@.take(len as int) =~= text@);
    chars
}

/// The text of the characters from `from` to `to`.
pub fn text_of(chars: &Vec<char>, from: usize, to: usize) -> (text: String)
    requires
        from <= to <= chars@.len(),
    ensures
        text@ == chars@.subrange(from as int, to as int),
{
    let mut text = String::new();
    let mut i: usize = from;
    while i < to
        invariant
            from <= i <= to <= chars@.len(),
            text@ == chars@.subrange(from as int, i as int),
        decreases to - i,
    {
        text.push(chars[i]);
        assert(text@ =~= chars@.subrange(from as int, i + 1));
        i += 1;
    }
    text
}

/// The position of the first `ch` at or behind `from`.
pub fn position_of_char(chars: &Vec<char>, from: usize, ch: char) -> (at: usize)
    ensures
        at == find_char(chars@, from as int, ch),
        at <= chars@.len(),
{
    let mut i: usize = from;
    if from >= chars.len() {
        return chars.len();
    }
    while i < chars.len() && chars[i] != ch
        invariant
            from <= i <= chars@.len(),
            find_char(chars@, from as int, ch) == find_char(chars@, i as int, ch),
        decreases chars@.len() - i,
    {
        i += 1;
    }
    i
}

fn is_space_char(ch: char) -> (r: bool)
    ensures
        r == is_space(ch),
{
    ('\t' <= ch && ch <= '\r') || ch == ' ' || ch == '\u{85}' || ch == '\u{A0}' || ch == '\u{1680}'
        || ('\u{2000}' <= ch && ch <= '\u{200A}') || ch == '\u{2028}' || ch == '\u{2029}' || ch
        == '\u{202F}' || ch == '\u{205F}' || ch == '\u{3000}'
}

/// The bounds of the text from `from` to `to` without the white space
/// around it.
fn trim(chars: &Vec<char>, from: usize, to: usize) -> (r: (usize, usize))
    requires
        from <= to <= chars@.len(),
    ensures
        from <= r.0 <= r.1 <= to,
        chars@.subrange(r.0 as int, r.1 as int) == trimmed(chars@, from as int, to as int),
{
    let mut start = from;
    while start < to && is_space_char(chars[start])
        invariant
            from <= start <= to <= chars@.len(),
            trim_start(chars@, from as int, to as int) == trim_start(
                chars@,
                start as int,
                to as int,
            ),
        decreases to - start,
    {
        start += 1;
    }
    let mut end = to;
    while start < end && is_space_char(chars[end - 1])
        invariant
            start <= end <= to <= chars@.len(),
            trim_end(chars@, start as int, to as int) == trim_end(
                chars@,
                start as int,
                end as int,
            ),
        decreases end - start,
    {
        end -= 1;
    }
    (start, end)
}

fn is_reset(chars: &Vec<char>, from: usize, to: usize) -> (r: bool)
    requires
        from <= to <= chars@.len(),
    ensures
        r == (chars@.subrange(from as int, to as int) == reset_word()),
{
    let ghost body = chars@.subrange(from as int, to as int);
    if to - from != 5 {
        assert(body.len() != reset_word().len());
        return false;
    }
    let r = chars[from] == 'r' && chars[from + 1] == 'e' && chars[from + 2] == 's' && chars[from
        + 3] == 'e' && chars[from + 4] == 't';
    proof {
        assert(body[0] == chars@[from as int]);
        assert(body[1] == chars@[from + 1]);
        assert(body[2] == chars@[from + 2]);
        assert(body[3] == chars@[from + 3]);
        assert(body[4] == chars@[from + 4]);
        if r {
            assert(body =~= reset_word());
        }
    }
    r
}

/// Parse `%C{..}` specifiers.
fn parse_color(format: &Vec<char>, at: usize) -> (r: Option<(Token, usize)>)
    requires
        at + 1 < format@.len(),
    ensures
        match r {
            Some((token, next)) => color_at(format@, at as int) == Some((token@, next as int)),
            None => color_at(format@, at as int) is None,
        },
{
    let len = format.len();
    let end = position_of_char(format, at + 1, '}');
    proof {
        lemma_find_char(format@, at + 1, '}');
    }
    if end < len && end - at >= 3 && format[at + 2] == '{' {
        let (from, to) = trim(format, at + 3, end);
        if is_reset(format, from, to) {
            Some((Token::StyleReset, end + 1))
        } else {
            let body = text_of(format, from, to);
            match parse_style(body.as_str()) {
                Some(style) => Some((Token::Style(style), end + 1)),
                None => None,
            }
        }
    } else {
        None
    }
}

/// Parse `%V{..}` specifiers.
fn parse_variable(format: &Vec<char>, at: usize) -> (r: Option<(Token, usize)>)
    requires
        at + 1 < format@.len(),
    ensures
        match r {
            Some((token, next)) => variable_at(format@, at as int) == Some(
                (token@, next as int),
            ),
            None => variable_at(format@, at as int) is None,
        },
{
    let len = format.len();
    let end = position_of_char(format, at + 1, '}');
    proof {
        lemma_find_char(format@, at + 1, '}');
    }
    if end < len && end - at >= 3 && format[at + 2] == '{' {
        Some((Token::Variable(text_of(format, at + 3, end)), end + 1))
    } else {
        None
    }
}

/// Parse the specifier at `at`.
///
/// If no specifier starts there, returns `None`.
fn parse_specifier(format: &Vec<char>, at: usize) -> (r: Option<(Token, usize)>)
    requires
        at < format@.len(),
    ensures
        match r {
            Some((token, next)) => specifier_at(format@, at as int) == Some(
                (token@, next as int),
            ),
            None => specifier_at(format@, at as int) is None,
        },
{
    if format.len() - at < 2 || format[at] != '%' {
        return None;
    }
    let ch = format[at + 1];
    if ch == 'P' {
        Some((Token::Path, at + 2))
    } else if ch == 'p' {
        Some((Token::PathHome, at + 2))
    } else if ch == 'S' {
        Some((Token::DiskUsage, at + 2))
    } else if ch == '+' {
        Some((Token::AddedLines, at + 2))
    } else if ch == '-' {
        Some((Token::DeletedLines, at + 2))
    } else if ch == 'C' {
        parse_color(format, at)
    } else if ch == 'V' {
        parse_variable(format, at)
    } else if ch == '%' {
        let mut text = String::new();
        text.push('%');
        assert(text@ =~= percent());
        Some((Token::Text(text), at + 2))
    } else {
        None
    }
}

/// The token at `at`, and where the next one starts.
fn next(format: &Vec<char>, at: usize) -> (r: (Token, usize))
    requires
        at < format@.len(),
    ensures
        (r.0@, r.1 as int) == token_at(format@, at as int),
        at < r.1 <= format@.len(),
{
    proof {
        lemma_token_at_advances(format@, at as int);
    }
    match parse_specifier(format, at) {
        Some(found) => found,
        None => {
            // Split the format string at the next '%'.
            let len = format.len();
            let spec_idx = position_of_char(format, at + 1, '%');
            if spec_idx >= format.len() - 1 {
                // No more specifiers, or '%' is at the end of the line.
                (Token::Text(text_of(format, at, format.len())), format.len())
            } else {
                (Token::Text(text_of(format, at, spec_idx)), spec_idx)
            }
        },
    }
}

/// Parse a formatting string, and returns the tokens in it.
pub fn parse(format: &str) -> (tokens: Vec<Token>)
    ensures
        token_views(tokens@) == tokens_of(format@),
{
    let chars = chars_of(format);
    let mut tokens: Vec<Token> = Vec::new();
    let mut at: usize = 0;
    assert(token_views(tokens@) =~= Seq::<TokenView>::empty());
    while at < chars.len()
        invariant
            at <= chars@.len(),
            chars@ == format@,
            tokens_of(format@) == token_views(tokens@) + tokens_from(chars@, at as int),
        decreases chars@.len() - at,
    {
        let ghost before = token_views(tokens@);
        let (token, after) = next(&chars, at);
        tokens.push(token);
        assert(token_views(tokens@) =~= before + seq![token@]);
        assert(before + (seq![token@] + tokens_from(chars@, after as int)) =~= before + seq![
            token@,
        ] + tokens_from(chars@, after as int));
        at = after;
    }
    assert(token_views(tokens@) + Seq::<TokenView>::empty() =~= token_views(tokens@));
    tokens
}

} // verus!
