//! This module implements the logic for the file matchers.

use vstd::prelude::*;

use crate::config::{
    glob_set_accepts, glob_set_is_match, regex_accepts, regex_is_match, Changes, FileType,
    Matcher, Regex,
};
use crate::summarizer::exts::DOT;
use crate::summarizer::gitdiff::Change;
use crate::summarizer::{Entry, FileKind, Metadata};

verus! {

/// The bits of the mode that let someone execute the file.
pub const EXECUTE_BITS: u32 = 0o111;

/// A hidden file is one whose name starts with a dot.
pub open spec fn is_hidden(name: Seq<u8>) -> bool {
    name.len() > 0 && name[0] == DOT
}

/// The position of the last dot before `upto`, or -1 where there is none.
pub open spec fn last_dot(name: Seq<u8>, upto: int) -> int
    decreases upto,
{
    if upto <= 0 || upto > name.len() {
        -1
    } else if name[upto - 1] == DOT {
        upto - 1
    } else {
        last_dot(name, upto - 1)
    }
}

/// The extension of a file name: what follows its last dot. A name without
/// a dot has no extension, nor has a name whose only dot is its first
/// character, nor the name `..`.
pub open spec fn extension_of(name: Seq<u8>) -> Option<Seq<u8>> {
    let dot = last_dot(name, name.len() as int);
    if dot <= 0 || name =~= seq![DOT, DOT] {
        None
    } else {
        Some(name.skip(dot + 1))
    }
}

/// The extension of a file name, by which the class of its contents is
/// looked up.
pub fn extension(name: &[u8]) -> (r: Option<Vec<u8>>)
    ensures
        match r {
            Some(ext) => extension_of(name@) == Some(ext@),
            None => extension_of(name@) is None,
        },
{
    if name.len() == 2 && name[0] == DOT && name[1] == DOT {
        assert(name@ =~= seq![DOT, DOT]);
        return None;
    }
    assert(!(name@ =~= seq![DOT, DOT])) by {
        if name@ =~= seq![DOT, DOT] {
            assert(name@.len() == 2 && name@[0] == DOT && name@[1] == DOT);
        }
    }
    let mut upto: usize = name.len();
    while upto > 0 && name[upto - 1] != DOT
        invariant
            upto <= name@.len(),
            last_dot(name@, name@.len() as int) == last_dot(name@, upto as int),
        decreases upto,
    {
        upto -= 1;
    }
    if upto <= 1 {
        None
    } else {
        assert(name@.subrange(upto as int, name@.len() as int) =~= name@.skip(upto as int));
        Some(crate::summarizer::exts::copy_range(name, upto, name.len()))
    }
}

/// Whether an entry is of the kind that a `type` matcher asks for.
pub open spec fn type_accepts(file_type: FileType, metadata: Metadata) -> bool {
    match file_type {
        FileType::BlockDev => metadata.kind == FileKind::BlockDev,
        FileType::CharDev => metadata.kind == FileKind::CharDev,
        FileType::Directory => metadata.kind == FileKind::Directory,
        FileType::Executable => metadata.kind == FileKind::File && metadata.mode & EXECUTE_BITS
            != 0,
        FileType::File => metadata.kind == FileKind::File,
        FileType::Fifo => metadata.kind == FileKind::Fifo,
        FileType::Socket => metadata.kind == FileKind::Socket,
        FileType::SymLink => metadata.kind == FileKind::SymLink,
    }
}

/// Whether the entry was modified less than `limit` nanoseconds before
/// `now`. It was not where either time is unknown, or where the entry was
/// modified after `now`.
pub open spec fn changed_within(limit: u64, modified: Option<u64>, now: Option<u64>) -> bool {
    match (modified, now) {
        (Some(m), Some(n)) => n >= m && n - m < limit,
        _ => false,
    }
}

/// Whether the name is valid text that the expression matches.
pub open spec fn regex_accepts_name(regex: Regex, name: Seq<u8>) -> bool {
    vstd::utf8::valid_utf8(name) && regex_accepts(regex, vstd::utf8::decode_utf8(name))
}

/// The stats behind a reference, if there are any.
pub open spec fn copied(change: Option<&Change>) -> Option<Change> {
    match change {
        Some(c) => Some(*c),
        None => None,
    }
}

/// Whether a single matcher accepts an entry.
pub open spec fn accepts(
    matcher: Matcher,
    entry: Entry,
    change: Option<Change>,
    now: Option<u64>,
) -> bool
    decreases matcher,
{
    match matcher {
        Matcher::Any => true,
        Matcher::All(list) => forall|i: int|
            0 <= i < list@.len() ==> accepts(#[trigger] list@[i], entry, change, now),
        Matcher::Changes(Changes::Git) => change is Some,
        Matcher::Changes(Changes::Duration(limit)) => changed_within(
            limit,
            entry.metadata.modified,
            now,
        ),
        Matcher::Glob(glob) => glob_set_accepts(glob.globs, entry.file_name@),
        Matcher::Mime(mime_type) => entry.mime_type == Some(mime_type),
        Matcher::Not(inner) => !accepts(*inner, entry, change, now),
        Matcher::Regex(regex) => regex_accepts_name(regex, entry.file_name@),
        Matcher::Type(file_type) => type_accepts(file_type, entry.metadata),
    }
}

/// Whether any matcher of the list accepts the entry.
pub open spec fn any_accepts(
    matchers: Seq<Matcher>,
    entry: Entry,
    change: Option<Change>,
    now: Option<u64>,
) -> bool {
    exists|i: int| 0 <= i < matchers.len() && accepts(#[trigger] matchers[i], entry, change, now)
}

/// Whether the entry matches the list: it is not a hidden file that is to be
/// left out, and a matcher of the list accepts it.
pub open spec fn matched(
    entry: Entry,
    change: Option<Change>,
    include_hidden: bool,
    matchers: Seq<Matcher>,
    now: Option<u64>,
) -> bool {
    (include_hidden || !is_hidden(entry.file_name@)) && any_accepts(matchers, entry, change, now)
}

/// An empty list of matchers matches no entry.
pub proof fn lemma_empty_list_matches_nothing(
    entry: Entry,
    change: Option<Change>,
    include_hidden: bool,
    now: Option<u64>,
)
    ensures
        !matched(entry, change, include_hidden, Seq::empty(), now),
{
}

/// A list that holds `Any` matches every entry that is not left out as
/// hidden, wherever in the list `Any` stands and whatever else the list
/// holds.
pub proof fn lemma_any_matches_everything(
    entry: Entry,
    change: Option<Change>,
    include_hidden: bool,
    matchers: Seq<Matcher>,
    now: Option<u64>,
)
    requires
        exists|i: int| 0 <= i < matchers.len() && #[trigger] matchers[i] is Any,
        include_hidden || !is_hidden(entry.file_name@),
    ensures
        matched(entry, change, include_hidden, matchers, now),
{
    let i = choose|i: int| 0 <= i < matchers.len() && #[trigger] matchers[i] is Any;
    assert(accepts(matchers[i], entry, change, now));
}

/// `All` of two matchers matches an entry exactly where each of the two
/// matches it on its own.
pub proof fn lemma_all_matches_where_both_match(
    entry: Entry,
    change: Option<Change>,
    include_hidden: bool,
    a: Matcher,
    b: Matcher,
    both: Vec<Matcher>,
    now: Option<u64>,
)
    requires
        both@ == seq![a, b],
    ensures
        matched(entry, change, include_hidden, seq![Matcher::All(both)], now) <==> (matched(
            entry,
            change,
            include_hidden,
            seq![a],
            now,
        ) && matched(entry, change, include_hidden, seq![b], now)),
{
    let all = Matcher::All(both);
    assert(both@[0] == a && both@[1] == b);
    assert(accepts(all, entry, change, now) <==> (accepts(a, entry, change, now) && accepts(
        b,
        entry,
        change,
        now,
    ))) by {
        if accepts(a, entry, change, now) && accepts(b, entry, change, now) {
            assert forall|i: int| 0 <= i < both@.len() implies accepts(
                #[trigger] both@[i],
                entry,
                change,
                now,
            ) by {}
        }
        if accepts(all, entry, change, now) {
            assert(all matches Matcher::All(list) && list@ == both@);
            assert(forall|i: int|
                0 <= i < both@.len() ==> accepts(#[trigger] both@[i], entry, change, now));
            assert(accepts(both@[0], entry, change, now));
            assert(accepts(both@[1], entry, change, now));
        }
    }
    lemma_single(all, entry, change, now);
    lemma_single(a, entry, change, now);
    lemma_single(b, entry, change, now);
}

/// A list of one matcher accepts what that matcher accepts.
pub proof fn lemma_single(matcher: Matcher, entry: Entry, change: Option<Change>, now: Option<u64>)
    ensures
        any_accepts(seq![matcher], entry, change, now) <==> accepts(matcher, entry, change, now),
{
    let list = seq![matcher];
    assert(list[0] == matcher);
    if accepts(matcher, entry, change, now) {
        assert(accepts(list[0], entry, change, now));
    }
}

/// `Not` of a matcher never matches an entry that the matcher matches, nor
/// the other way round; of the entries that are not left out as hidden, it
/// matches exactly those that the matcher does not match.
pub proof fn lemma_not_matches_the_rest(
    entry: Entry,
    change: Option<Change>,
    include_hidden: bool,
    matcher: Matcher,
    now: Option<u64>,
)
    ensures
        !(matched(entry, change, include_hidden, seq![Matcher::Not(Box::new(matcher))], now)
            && matched(entry, change, include_hidden, seq![matcher], now)),
        include_hidden || !is_hidden(entry.file_name@) ==> (matched(
            entry,
            change,
            include_hidden,
            seq![Matcher::Not(Box::new(matcher))],
            now,
        ) <==> !matched(entry, change, include_hidden, seq![matcher], now)),
{
    lemma_single(Matcher::Not(Box::new(matcher)), entry, change, now);
    lemma_single(matcher, entry, change, now);
}

fn type_is(file_type: &FileType, metadata: &Metadata) -> (r: bool)
    ensures
        r == type_accepts(*file_type, *metadata),
{
    match file_type {
        FileType::BlockDev => metadata.kind == FileKind::BlockDev,
        FileType::CharDev => metadata.kind == FileKind::CharDev,
        FileType::Directory => metadata.kind == FileKind::Directory,
        FileType::Executable => metadata.kind == FileKind::File && metadata.mode & EXECUTE_BITS
            != 0,
        FileType::File => metadata.kind == FileKind::File,
        FileType::Fifo => metadata.kind == FileKind::Fifo,
        FileType::Socket => metadata.kind == FileKind::Socket,
        FileType::SymLink => metadata.kind == FileKind::SymLink,
    }
}

fn matcher_accepts(matcher: &Matcher, entry: &Entry, change: Option<&Change>, now: Option<u64>) -> (r:
    bool)
    ensures
        r == accepts(
            *matcher,
            *entry,
            copied(change),
            now,
        ),
    decreases matcher,
{
    match matcher {
        Matcher::Any => true,
        Matcher::All(list) => {
            let mut i: usize = 0;
            while i < list.len()
                invariant
                    i <= list@.len(),
                    matcher matches Matcher::All(l) && l@ == list@,
                    forall|j: int|
                        0 <= j < i ==> accepts(
                            #[trigger] list@[j],
                            *entry,
                            copied(change),
                            now,
                        ),
                decreases list@.len() - i,
            {
                if !matcher_accepts(&list[i], entry, change, now) {
                    return false;
                }
                i += 1;
            }
            true
        },
        Matcher::Changes(Changes::Git) => change.is_some(),
        Matcher::Changes(Changes::Duration(limit)) => match (entry.metadata.modified, now) {
            (Some(m), Some(n)) => n >= m && n - m < *limit,
            _ => false,
        },
        Matcher::Glob(glob) => glob_set_is_match(&glob.globs, entry.file_name.as_slice()),
        Matcher::Mime(mime_type) => match entry.mime_type {
            Some(mt) => mt == *mime_type,
            None => false,
        },
        Matcher::Not(inner) => !matcher_accepts(inner, entry, change, now),
        Matcher::Regex(regex) => match core::str::from_utf8(entry.file_name.as_slice()) {
            Ok(name) => regex_is_match(regex, name),
            Err(_) => false,
        },
        Matcher::Type(file_type) => type_is(file_type, &entry.metadata),
    }
}

/// Returns `true` if the entry matches any of the items in `matchers`.
///
/// If `include_hidden` is `false`, the entry is ignored if its name starts
/// with a `.`.
pub fn is_match(
    entry: &Entry,
    change: Option<&Change>,
    include_hidden: bool,
    matchers: &Vec<Matcher>,
    now: Option<u64>,
) -> (r: bool)
    ensures
        r == matched(
            *entry,
            copied(change),
            include_hidden,
            matchers@,
            now,
        ),
{
    if !include_hidden && is_hidden_file(entry.file_name.as_slice()) {
        return false;
    }
    let mut i: usize = 0;
    while i < matchers.len()
        invariant
            i <= matchers@.len(),
            include_hidden || !is_hidden(entry.file_name@),
            forall|j: int|
                0 <= j < i ==> !accepts(
                    #[trigger] matchers@[j],
                    *entry,
                    copied(change),
                    now,
                ),
        decreases matchers@.len() - i,
    {
        if matcher_accepts(&matchers[i], entry, change, now) {
            return true;
        }
        i += 1;
    }
    false
}

/// Whether the name is that of a hidden file.
pub fn is_hidden_file(name: &[u8]) -> (r: bool)
    ensures
        r == is_hidden(name@),
{
    name.len() > 0 && name[0] == DOT
}

} // verus!
