//! Text styles, and how they combine.

use vstd::prelude::*;
use vstd::string::StringSliceAdditionalSpecFns;

verus! {

/// A colour of `ansi_term`. The library carries colours around and never
/// looks inside one.
#[verifier::external_type_specification]
#[verifier::external_body]
pub struct ExColour(ansi_term::Colour);

/// The properties that format a piece of text on a terminal.
#[derive(Clone, Copy, Debug, PartialEq)]
pub struct Style {
    /// The style's foreground colour, if it has one.
    pub foreground: Option<ansi_term::Colour>,
    /// The style's background colour, if it has one.
    pub background: Option<ansi_term::Colour>,
    pub is_bold: bool,
    pub is_dimmed: bool,
    pub is_italic: bool,
    pub is_underline: bool,
    pub is_blink: bool,
    pub is_reverse: bool,
    pub is_hidden: bool,
    pub is_strikethrough: bool,
}

/// The style with no property set.
pub open spec fn plain() -> Style {
    Style {
        foreground: None,
        background: None,
        is_bold: false,
        is_dimmed: false,
        is_italic: false,
        is_underline: false,
        is_blink: false,
        is_reverse: false,
        is_hidden: false,
        is_strikethrough: false,
    }
}

/// `new` laid over `old`: a colour of `new` replaces the one of `old`, a
/// colour that `new` lacks is taken from `old`, and a flag is set where
/// either sets it.
pub open spec fn combined(old: Style, new: Style) -> Style {
    Style {
        foreground: if new.foreground is Some {
            new.foreground
        } else {
            old.foreground
        },
        background: if new.background is Some {
            new.background
        } else {
            old.background
        },
        is_bold: new.is_bold || old.is_bold,
        is_dimmed: new.is_dimmed || old.is_dimmed,
        is_italic: new.is_italic || old.is_italic,
        is_underline: new.is_underline || old.is_underline,
        is_blink: new.is_blink || old.is_blink,
        is_reverse: new.is_reverse || old.is_reverse,
        is_hidden: new.is_hidden || old.is_hidden,
        is_strikethrough: new.is_strikethrough || old.is_strikethrough,
    }
}

/// Like [`combined`], for styles that may be absent.
pub open spec fn combined_opt(old: Option<Style>, new: Option<Style>) -> Option<Style> {
    match (old, new) {
        (Some(a), Some(b)) => Some(combined(a, b)),
        (a, None) => a,
        (None, b) => b,
    }
}

/// The style that a description in the syntax of Git's colour settings
/// stands for, or `None` where the description is malformed.
pub uninterp spec fn color_spec(text: Seq<char>) -> Option<Style>;

/// The byte `#`, which starts a colour that is written by its code.
pub const HASH: u8 = 0x23;

/// Whether a description can be handed to the parser. The parser cuts the
/// words that start with `#` at fixed byte positions, which is only safe
/// where every character is one byte: so a description can be handed on
/// where it is ASCII text, or where it holds no `#` at all.
pub open spec fn is_safe_description(text: Seq<char>) -> bool {
    vstd::utf8::is_ascii_chars(text) || forall|i: int|
        0 <= i < vstd::utf8::encode_utf8(text).len() ==> vstd::utf8::encode_utf8(text)[i] != HASH
}

/// Reads a style from its description.
///
/// Trusted: this is `colorparse::parse`, whose result depends on the
/// description alone; the contract gives it a name. The fields of the style
/// of `ansi_term` that it returns are moved into a style of this library.
/// The parser slices the words that start with `#` by byte positions, and
/// panics where such a position lies within a character: the precondition
/// leaves out the descriptions on which that can happen.
#[verifier::external_body]
fn parse_safe_style(text: &str) -> (style: Option<Style>)
    requires
        is_safe_description(text@),
    ensures
        style == color_spec(text@),
{
    let parsed = colorparse::parse(text).ok()?;
    Some(
        Style {
            foreground: parsed.foreground,
            background: parsed.background,
            is_bold: parsed.is_bold,
            is_dimmed: parsed.is_dimmed,
            is_italic: parsed.is_italic,
            is_underline: parsed.is_underline,
            is_blink: parsed.is_blink,
            is_reverse: parsed.is_reverse,
            is_hidden: parsed.is_hidden,
            is_strikethrough: parsed.is_strikethrough,
        },
    )
}

/// The style that a description stands for. A description that can't be
/// handed to the parser stands for none.
pub open spec fn described_style(text: Seq<char>) -> Option<Style> {
    if is_safe_description(text) {
        color_spec(text)
    } else {
        None
    }
}

/// Reads a style from a description in the syntax of Git's colour
/// settings, such as `bold red blue`.
pub fn parse_style(text: &str) -> (style: Option<Style>)
    ensures
        style == described_style(text@),
{
    if text.is_ascii() {
        parse_safe_style(text)
    } else {
        match memchr::memchr(HASH, text.as_bytes()) {
            Some(at) => {
                assert(vstd::utf8::encode_utf8(text@)[at as int] == HASH);
                None
            },
            None => parse_safe_style(text),
        }
    }
}

/// The codes that tell a terminal to write in a style.
pub uninterp spec fn prefix_text(style: Style) -> Seq<char>;

/// The code that takes a terminal back to its normal style.
pub open spec fn reset_code() -> Seq<char> {
    seq!['\u{1b}', '[', '0', 'm']
}

/// The codes that tell a terminal to leave a style: nothing for the plain
/// style, which was never entered, and the reset code for any other.
pub open spec fn suffix_text(style: Style) -> Seq<char> {
    if style == plain() {
        Seq::empty()
    } else {
        reset_code()
    }
}

/// The codes that tell a terminal to write in a style.
///
/// Trusted: this is `ansi_term::Style::prefix`, written out as text, on the
/// style of `ansi_term` that has the same fields. The contract gives the
/// text a name: it depends on the style alone. It also says that nothing is
/// written for a style without any property.
#[verifier::external_body]
pub(crate) fn prefix_of(style: &Style) -> (text: String)
    ensures
        text@ == prefix_text(*style),
        *style == plain() ==> text@ == Seq::<char>::empty(),
{
    let ansi = ansi_term::Style {
        foreground: style.foreground,
        background: style.background,
        is_bold: style.is_bold,
        is_dimmed: style.is_dimmed,
        is_italic: style.is_italic,
        is_underline: style.is_underline,
        is_blink: style.is_blink,
        is_reverse: style.is_reverse,
        is_hidden: style.is_hidden,
        is_strikethrough: style.is_strikethrough,
    };
    ansi.prefix().to_string()
}

/// The codes that tell a terminal to leave a style.
///
/// Trusted: this is `ansi_term::Style::suffix`, written out as text, on the
/// style of `ansi_term` that has the same fields. It writes nothing for a
/// style without any property, and the reset code for any other style.
#[verifier::external_body]
pub(crate) fn suffix_of(style: &Style) -> (text: String)
    ensures
        text@ == suffix_text(*style),
{
    let ansi = ansi_term::Style {
        foreground: style.foreground,
        background: style.background,
        is_bold: style.is_bold,
        is_dimmed: style.is_dimmed,
        is_italic: style.is_italic,
        is_underline: style.is_underline,
        is_blink: style.is_blink,
        is_reverse: style.is_reverse,
        is_hidden: style.is_hidden,
        is_strikethrough: style.is_strikethrough,
    };
    ansi.suffix().to_string()
}

impl Style {
    /// Creates a style with no properties set.
    pub fn new() -> (style: Style)
        ensures
            style == plain(),
    {
        Style {
            foreground: None,
            background: None,
            is_bold: false,
            is_dimmed: false,
            is_italic: false,
            is_underline: false,
            is_blink: false,
            is_reverse: false,
            is_hidden: false,
            is_strikethrough: false,
        }
    }

    /// Whether no property is set.
    pub fn is_plain(&self) -> (r: bool)
        ensures
            r == (*self == plain()),
    {
        self.foreground.is_none() && self.background.is_none() && !self.is_bold && !self.is_dimmed
            && !self.is_italic && !self.is_underline && !self.is_blink && !self.is_reverse
            && !self.is_hidden && !self.is_strikethrough
    }
}

/// Combine two styles.
pub fn combine(old: Style, new: Style) -> (style: Style)
    ensures
        style == combined(old, new),
{
    Style {
        foreground: if new.foreground.is_some() {
            new.foreground
        } else {
            old.foreground
        },
        background: if new.background.is_some() {
            new.background
        } else {
            old.background
        },
        is_bold: new.is_bold || old.is_bold,
        is_dimmed: new.is_dimmed || old.is_dimmed,
        is_italic: new.is_italic || old.is_italic,
        is_underline: new.is_underline || old.is_underline,
        is_blink: new.is_blink || old.is_blink,
        is_reverse: new.is_reverse || old.is_reverse,
        is_hidden: new.is_hidden || old.is_hidden,
        is_strikethrough: new.is_strikethrough || old.is_strikethrough,
    }
}

/// Like [`combine`], but for `Option` values.
pub fn combine_opt(old: Option<Style>, new: Option<Style>) -> (style: Option<Style>)
    ensures
        style == combined_opt(old, new),
{
    match (old, new) {
        (Some(a), Some(b)) => Some(combine(a, b)),
        (a, None) => a,
        (None, b) => b,
    }
}

/// A plain style stays what it is laid over, and laying a style over a plain
/// one gives that style.
pub proof fn lemma_combine_plain(style: Style)
    ensures
        combined(style, plain()) == style,
        combined(plain(), style) == style,
{
}

/// Combining is associative: rules can be applied one after the other.
pub proof fn lemma_combine_assoc(a: Style, b: Style, c: Style)
    ensures
        combined(combined(a, b), c) == combined(a, combined(b, c)),
{
}

} // verus!
