use summer::display::styles::Style;
use summer::summarizer::info::{parse, Token};

fn text(s: &str) -> Token {
    Token::Text(s.to_string())
}

#[test]
fn parse_format_string() {
    let mut blue_bold = Style::new();
    blue_bold.foreground = Some(ansi_term::Colour::Blue);
    blue_bold.is_bold = true;
    let mut red = Style::new();
    red.foreground = Some(ansi_term::Colour::Red);

    // A string with all specifiers.
    assert_eq!(
        parse("%C{blue bold} %P %p : %S%+%-%C{reset}%C{red}%V{dirs} %%dirs"),
        vec![
            Token::Style(blue_bold),
            text(" "),
            Token::Path,
            text(" "),
            Token::PathHome,
            text(" : "),
            Token::DiskUsage,
            Token::AddedLines,
            Token::DeletedLines,
            Token::StyleReset,
            Token::Style(red),
            Token::Variable("dirs".to_string()),
            text(" "),
            text("%"),
            text("dirs"),
        ]
    );

    // % at the end.
    assert_eq!(parse("aaa%"), vec![text("aaa%")]);
    assert_eq!(parse("%P%"), vec![Token::Path, text("%")]);

    // No specifiers
    assert_eq!(parse("aaa"), vec![text("aaa")]);

    // Multi-byte specifiers.
    assert_eq!(parse("x%α"), vec![text("x"), text("%α")]);
}
