use summer::config::{Changes, FileType, Glob, Matcher, MimeType, Regex};
use summer::summarizer::gitdiff::Change;
use std::path::Path;

use summer::summarizer::matchers::{extension, is_hidden_file, is_match};
use summer::summarizer::{Entry, FileKind, Metadata};

fn entry(name: &[u8], kind: FileKind, mode: u32) -> Entry {
    Entry {
        file_name: name.to_vec(),
        metadata: Metadata { kind, mode, len: 10, mtime: 100, modified: Some(100_000_000_000) },
        mime_type: None,
        ls_style: None,
    }
}

fn file(name: &str) -> Entry {
    entry(name.as_bytes(), FileKind::File, 0o644)
}

fn glob(pattern: &str) -> Matcher {
    Matcher::Glob(Glob::new(vec![pattern.to_string()]).unwrap())
}

fn regex(pattern: &str) -> Matcher {
    Matcher::Regex(Regex(regex::Regex::new(pattern).unwrap()))
}

fn matches(e: &Entry, matchers: Vec<Matcher>) -> bool {
    is_match(e, None, true, &matchers, Some(100_000_000_000))
}

#[test]
fn empty_list_matches_nothing() {
    assert!(!matches(&file("a"), vec![]));
    assert!(!is_match(&file(".a"), Some(&Change::new(1, 1)), false, &vec![], None));
}

#[test]
fn any_matches_wherever_it_stands() {
    assert!(matches(&file("a"), vec![Matcher::Any]));
    assert!(matches(&file("a"), vec![glob("*.txt"), Matcher::Any]));
    assert!(matches(&file("a"), vec![Matcher::Any, glob("*.txt")]));
    assert!(matches(
        &file("a"),
        vec![Matcher::Type(FileType::Directory), Matcher::Any, regex("^z")]
    ));
}

#[test]
fn hidden_files_are_left_out_before_any_matcher() {
    let hidden = file(".git");
    assert!(!is_match(&hidden, None, false, &vec![Matcher::Any], None));
    assert!(is_match(&hidden, None, true, &vec![Matcher::Any], None));
    assert!(is_match(&file("git"), None, false, &vec![Matcher::Any], None));
    assert!(is_hidden_file(b".a"));
    assert!(!is_hidden_file(b"a.b"));
    assert!(!is_hidden_file(b""));
}

#[test]
fn list_is_a_disjunction() {
    let e = file("notes.txt");
    assert!(matches(&e, vec![glob("*.rs"), glob("*.txt")]));
    assert!(!matches(&e, vec![glob("*.rs"), glob("*.md")]));
}

#[test]
fn all_matches_where_both_match() {
    let e = file("notes.txt");
    let both = |a: Matcher, b: Matcher| Matcher::All(vec![a, b]);
    assert!(matches(&e, vec![both(glob("*.txt"), regex("^n"))]));
    assert!(!matches(&e, vec![both(glob("*.txt"), regex("^x"))]));
    assert!(!matches(&e, vec![both(glob("*.rs"), regex("^n"))]));
    assert!(!matches(&e, vec![both(glob("*.rs"), regex("^x"))]));
    // All of nothing matches everything.
    assert!(matches(&e, vec![Matcher::All(vec![])]));
}

#[test]
fn not_matches_the_rest() {
    let e = file("notes.txt");
    assert!(matches(&e, vec![glob("*.txt")]));
    assert!(!matches(&e, vec![Matcher::Not(Box::new(glob("*.txt")))]));
    assert!(!matches(&e, vec![glob("*.rs")]));
    assert!(matches(&e, vec![Matcher::Not(Box::new(glob("*.rs")))]));
    assert!(!matches(&e, vec![Matcher::Not(Box::new(Matcher::Any))]));
    assert!(matches(&e, vec![Matcher::Not(Box::new(Matcher::Not(Box::new(Matcher::Any))))]));
}

#[test]
fn changes_in_the_repository() {
    let e = file("a");
    let change = Change::new(0, 0);
    let matchers = vec![Matcher::Changes(Changes::Git)];
    assert!(is_match(&e, Some(&change), true, &matchers, None));
    assert!(!is_match(&e, None, true, &matchers, None));
}

#[test]
fn changes_within_a_duration() {
    let mut e = file("a");
    e.metadata.modified = Some(1_000);
    let within = |limit: u64, now: Option<u64>, e: &Entry| {
        is_match(e, None, true, &vec![Matcher::Changes(Changes::Duration(limit))], now)
    };
    assert!(within(500, Some(1_499), &e));
    assert!(!within(500, Some(1_500), &e));
    assert!(within(1, Some(1_000), &e));
    assert!(!within(0, Some(1_000), &e));
    // The clock can't be read.
    assert!(!within(500, None, &e));
    // The file is from the future.
    assert!(!within(500, Some(999), &e));
    // The time of modification can't be read.
    e.metadata.modified = None;
    assert!(!within(500, Some(1_100), &e));
}

#[test]
fn globs() {
    assert!(matches(&file("a.txt"), vec![glob("*.txt")]));
    assert!(!matches(&file("a.txt.bak"), vec![glob("*.txt")]));
    assert!(matches(&file("abc"), vec![glob("a?c")]));
    assert!(!matches(&file("abbc"), vec![glob("a?c")]));
    assert!(matches(&file("b1"), vec![glob("[a-c][0-9]")]));
    assert!(!matches(&file("d1"), vec![glob("[a-c][0-9]")]));
    let set = Matcher::Glob(Glob::new(vec!["*.rs".to_string(), "*.toml".to_string()]).unwrap());
    assert!(matches(&file("Cargo.toml"), vec![set]));
    // A name that is no text.
    assert!(matches(&entry(b"\xff.txt", FileKind::File, 0), vec![glob("*.txt")]));
}

#[test]
fn regular_expressions() {
    assert!(matches(&file("README"), vec![regex("^[A-Z0-9]+$")]));
    assert!(!matches(&file("Readme"), vec![regex("^[A-Z0-9]+$")]));
    assert!(matches(&file("x-Readme"), vec![regex("Read")]));
    // A name that is no text matches no expression.
    assert!(!matches(&entry(b"\xffREADME", FileKind::File, 0), vec![regex("README")]));
    assert!(!matches(&entry(b"\xff", FileKind::File, 0), vec![regex("")]));
}

#[test]
fn mime_types() {
    let mut e = file("a.txt");
    assert!(!matches(&e, vec![Matcher::Mime(MimeType::Text)]));
    e.mime_type = Some(MimeType::Text);
    assert!(matches(&e, vec![Matcher::Mime(MimeType::Text)]));
    assert!(!matches(&e, vec![Matcher::Mime(MimeType::Image)]));
}

#[test]
fn file_types() {
    let is = |e: &Entry, t: FileType| matches(e, vec![Matcher::Type(t)]);
    let d = entry(b"d", FileKind::Directory, 0o755);
    assert!(is(&d, FileType::Directory));
    assert!(!is(&d, FileType::File));
    // A directory is no executable, whatever its mode.
    assert!(!is(&d, FileType::Executable));

    let f = entry(b"f", FileKind::File, 0o644);
    assert!(is(&f, FileType::File));
    assert!(!is(&f, FileType::Executable));
    assert!(!is(&f, FileType::Directory));
    for mode in [0o100, 0o010, 0o001, 0o755] {
        let x = entry(b"x", FileKind::File, mode);
        assert!(is(&x, FileType::Executable));
        assert!(is(&x, FileType::File));
    }

    assert!(is(&entry(b"l", FileKind::SymLink, 0o777), FileType::SymLink));
    assert!(!is(&entry(b"l", FileKind::SymLink, 0o777), FileType::Executable));
    assert!(is(&entry(b"b", FileKind::BlockDev, 0), FileType::BlockDev));
    assert!(is(&entry(b"c", FileKind::CharDev, 0), FileType::CharDev));
    assert!(is(&entry(b"p", FileKind::Fifo, 0), FileType::Fifo));
    assert!(is(&entry(b"s", FileKind::Socket, 0), FileType::Socket));
    assert!(!is(&entry(b"o", FileKind::Other, 0), FileType::File));
}

#[test]
fn extensions() {
    use_extension(b"a.txt", Some(b"txt"));
    use_extension(b"a.tar.gz", Some(b"gz"));
    use_extension(b"a.", Some(b""));
    use_extension(b"a", None);
    use_extension(b"", None);
    use_extension(b".bashrc", None);
    use_extension(b".a.b", Some(b"b"));
    use_extension(b"..", None);
    use_extension(b"...", Some(b""));
    use_extension(b"a..b", Some(b"b"));
    use_extension(b".", None);
}

fn use_extension(name: &[u8], expected: Option<&[u8]>) {
    assert_eq!(extension(name), expected.map(|e| e.to_vec()));
    let path = Path::new(std::str::from_utf8(name).unwrap());
    assert_eq!(
        path.extension().map(|e| e.to_str().unwrap().as_bytes().to_vec()),
        expected.map(|e| e.to_vec())
    );
}
