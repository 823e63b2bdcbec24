use ansi_term::Colour;
use summer::display::styles::{combine, combine_opt, parse_style, Style};

fn fg(colour: Colour) -> Style {
    let mut style = Style::new();
    style.foreground = Some(colour);
    style
}

#[test]
fn new_style_is_plain() {
    assert!(Style::new().is_plain());
    assert!(!fg(Colour::Red).is_plain());
    let mut bold = Style::new();
    bold.is_bold = true;
    assert!(!bold.is_plain());
    let mut hidden = Style::new();
    hidden.is_hidden = true;
    assert!(!hidden.is_plain());
}

#[test]
fn combine_overrides_or_inherits() {
    let mut old = fg(Colour::Red);
    old.background = Some(Colour::White);
    old.is_bold = true;
    let mut new = fg(Colour::Blue);
    new.is_italic = true;

    let combined = combine(old, new);
    // A colour of the new style replaces the old one.
    assert_eq!(combined.foreground, Some(Colour::Blue));
    // A colour that the new style lacks is inherited.
    assert_eq!(combined.background, Some(Colour::White));
    // Flags add up.
    assert!(combined.is_bold);
    assert!(combined.is_italic);
    assert!(!combined.is_underline);

    assert_eq!(combine(old, Style::new()), old);
    assert_eq!(combine(Style::new(), new), new);
}

#[test]
fn combine_optional_styles() {
    let red = fg(Colour::Red);
    let mut bold = Style::new();
    bold.is_bold = true;
    assert_eq!(combine_opt(None, None), None);
    assert_eq!(combine_opt(Some(red), None), Some(red));
    assert_eq!(combine_opt(None, Some(bold)), Some(bold));
    assert_eq!(combine_opt(Some(red), Some(bold)), Some(combine(red, bold)));
}

#[test]
fn parse_style_reads_descriptions() {
    assert_eq!(parse_style("green"), Some(fg(Colour::Green)));
    assert_eq!(parse_style("red"), Some(fg(Colour::Red)));
    let mut expected = fg(Colour::Yellow);
    expected.background = Some(Colour::Blue);
    assert_eq!(parse_style("yellow blue"), Some(expected));
    let mut bold_blue = fg(Colour::Blue);
    bold_blue.is_bold = true;
    assert_eq!(parse_style("blue bold"), Some(bold_blue));
    assert_eq!(parse_style(""), Some(Style::new()));
    assert_eq!(parse_style("#204060"), Some(fg(Colour::RGB(0x20, 0x40, 0x60))));
    assert_eq!(parse_style("17"), Some(fg(Colour::Fixed(17))));
}

#[test]
fn parse_style_refuses_malformed_descriptions() {
    assert_eq!(parse_style("nocolor"), None);
    assert_eq!(parse_style("red green blue"), None);
    // Text that is not ASCII is no description.
    assert_eq!(parse_style("rojo\u{301}"), None);
    assert_eq!(parse_style("#a\u{e9}aaa"), None);
}

#[test]
fn parse_style_reads_descriptions_that_are_not_ascii() {
    // Words can be parted by any white space.
    let mut expected = fg(Colour::Red);
    expected.background = Some(Colour::Blue);
    assert_eq!(parse_style("red\u{2003}blue"), Some(expected));
    // A word is read in lower case: the Kelvin sign is a `k` then.
    let mut blink = Style::new();
    blink.is_blink = true;
    assert_eq!(parse_style("blin\u{212A}"), Some(blink));
    // A colour that is written by its code is only read in ASCII text.
    assert_eq!(parse_style("#204060\u{2003}bold"), None);
    assert_eq!(parse_style("#204060 bold"), parse_style("bold #204060"));
}
