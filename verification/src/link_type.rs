//! What a link asks for, and how its arguments are written.
use vstd::prelude::*;

use crate::path;
use crate::range;
use crate::range::{RangeOrAnchor, RangeOrAnchorView};
use crate::text;

verus! {

/// What a link asks for.
#[derive(PartialEq, Debug, Clone)]
pub enum LinkType<'a> {
    /// Nothing: the link stands for its own text.
    Escaped,
    /// A file, or a part of it.
    Include(String, RangeOrAnchor),
    /// A file to be run, and the properties of the code block that it comes in.
    Playground(String, Vec<&'a str>),
    /// A Rust file, with a part of it to be shown.
    RustdocInclude(String, RangeOrAnchor),
    /// A title for the chapter.
    Title(&'a str),
    /// Nothing that can be understood, with the reason.
    Invalid(String),
}

/// What a [`LinkType`] stands for.
#[verifier::ext_equal]
pub enum LinkTypeView {
    Escaped,
    Include(Seq<char>, RangeOrAnchorView),
    Playground(Seq<char>, Seq<Seq<char>>),
    RustdocInclude(Seq<char>, RangeOrAnchorView),
    Title(Seq<char>),
    Invalid(Seq<char>),
}

impl<'a> View for LinkType<'a> {
    type V = LinkTypeView;

    open spec fn view(&self) -> LinkTypeView {
        match self {
            LinkType::Escaped => LinkTypeView::Escaped,
            LinkType::Include(path, part) => LinkTypeView::Include(path@, part@),
            LinkType::Playground(path, props) => LinkTypeView::Playground(
                path@,
                text::texts(props@),
            ),
            LinkType::RustdocInclude(path, part) => LinkTypeView::RustdocInclude(path@, part@),
            LinkType::Title(title) => LinkTypeView::Title(title@),
            LinkType::Invalid(message) => LinkTypeView::Invalid(message@),
        }
    }
}

/// The link type that was read, if any.
pub open spec fn link_type_view(link_type: Option<LinkType>) -> Option<LinkTypeView> {
    match link_type {
        Some(link_type) => Some(link_type@),
        None => None,
    }
}

/// What a character stands for behind a backslash: only `\"` and `\\` are escape sequences.
pub open spec fn unescaped(c: char) -> Seq<char> {
    if c == '"' || c == '\\' {
        seq![c]
    } else {
        seq!['\\', c]
    }
}

/// A path with something put before it, beside the text that follows it.
pub open spec fn prepended(
    start: Seq<char>,
    quoted: Option<(Seq<char>, Seq<char>)>,
) -> Option<(Seq<char>, Seq<char>)> {
    match quoted {
        Some((path, rest)) => Some((start + path, rest)),
        None => None,
    }
}

/// The path that the text up to the first unescaped quote denotes, and what follows that quote.
pub open spec fn quoted_of(s: Seq<char>) -> Option<(Seq<char>, Seq<char>)>
    decreases s.len(),
{
    if s.len() == 0 {
        None
    } else if s[0] == '"' {
        Some((Seq::empty(), s.skip(1)))
    } else if s[0] != '\\' {
        prepended(seq![s[0]], quoted_of(s.skip(1)))
    } else if s.len() == 1 {
        None
    } else {
        prepended(unescaped(s[1]), quoted_of(s.skip(2)))
    }
}

/// The path between the quotes that a text begins with, and what follows them, or what is wrong.
pub open spec fn quoted_path_of(s: Seq<char>) -> Result<(Seq<char>, Seq<char>), Seq<char>> {
    if s.len() == 0 || s[0] != '"' {
        Err("expected opening quote"@)
    } else {
        match quoted_of(s.skip(1)) {
            Some(quoted) => Ok(quoted),
            None => Err("unclosed quote in path"@),
        }
    }
}

/// The file that the argument of an include names and the part of it, if there is an argument, or
/// what is wrong with it.
pub open spec fn file_and_part_of(
    raw: Seq<char>,
) -> Option<Result<(Seq<char>, RangeOrAnchorView), Seq<char>>> {
    let trimmed = text::trim_of(raw);
    if trimmed.len() > 0 && trimmed[0] == '"' {
        match quoted_path_of(trimmed) {
            Ok((path, rest)) => {
                let after = text::trim_start_of(rest);
                let part = if after.len() > 0 && after[0] == ':' {
                    after.skip(1)
                } else {
                    Seq::empty()
                };
                Some(Ok((path, range::range_or_anchor_of(part))))
            },
            Err(message) => Some(Err(message)),
        }
    } else {
        let words = text::words_of(trimmed);
        if words.len() == 0 {
            None
        } else {
            let part = match range::after_colon(words[0]) {
                Some(part) => part,
                None => Seq::empty(),
            };
            Some(Ok((range::before_colon(words[0]), range::range_or_anchor_of(part))))
        }
    }
}

/// The link that the argument of an `include` makes.
pub open spec fn include_of(raw: Seq<char>) -> Option<LinkTypeView> {
    match file_and_part_of(raw) {
        Some(Ok((path, part))) => Some(LinkTypeView::Include(path, part)),
        Some(Err(message)) => Some(LinkTypeView::Invalid(message)),
        None => None,
    }
}

/// The link that the argument of a `rustdoc_include` makes.
pub open spec fn rustdoc_include_of(raw: Seq<char>) -> Option<LinkTypeView> {
    match file_and_part_of(raw) {
        Some(Ok((path, part))) => Some(LinkTypeView::RustdocInclude(path, part)),
        Some(Err(message)) => Some(LinkTypeView::Invalid(message)),
        None => None,
    }
}

/// The link that the arguments of a `playground` make.
pub open spec fn playground_of(raw: Seq<char>) -> Option<LinkTypeView> {
    let trimmed = text::trim_start_of(raw);
    if trimmed.len() > 0 && trimmed[0] == '"' {
        match quoted_path_of(trimmed) {
            Ok((path, rest)) => Some(LinkTypeView::Playground(path, text::words_of(rest))),
            Err(message) => Some(LinkTypeView::Invalid(message)),
        }
    } else {
        let words = text::words_of(trimmed);
        if words.len() == 0 {
            None
        } else {
            Some(LinkTypeView::Playground(words[0], words.skip(1)))
        }
    }
}

/// The file that a link asks for.
pub open spec fn file_of(link_type: LinkTypeView) -> Option<Seq<char>> {
    match link_type {
        LinkTypeView::Include(path, _) => Some(path),
        LinkTypeView::Playground(path, _) => Some(path),
        LinkTypeView::RustdocInclude(path, _) => Some(path),
        _ => None,
    }
}

/// Reads the path between the quotes that a string begins with, and returns it with what follows
/// the closing quote.
///
/// Only `\"` and `\\` are escape sequences. Any other backslash is a character of the path.
pub fn parse_quoted_path<'a>(input: &'a str) -> (res: Result<(String, &'a str), &'static str>)
    ensures
        quoted_path_of(input@) == (match res {
            Ok((path, rest)) => Ok((path@, rest@)),
            Err(message) => Err(message@),
        }),
{
    if !text::starts_with(input, '"') {
        return Err("expected opening quote");
    }
    let chars = text::to_chars(input);
    let ghost quoted = input@.skip(1);
    let mut path = String::new();
    let mut i: usize = 1;
    assert(prepended(path@, quoted_of(quoted)) == quoted_of(quoted));
    while i < chars.len()
        invariant
            chars@ == input@,
            input@.len() > 0,
            input@[0] == '"',
            quoted == input@.skip(1),
            1 <= i <= chars.len(),
            prepended(path@, quoted_of(input@.skip(i as int))) == quoted_of(quoted),
        decreases chars.len() - i,
    {
        let ghost rest = input@.skip(i as int);
        let ghost before = path@;
        let c = chars[i];
        assert(rest[0] == c);
        if c == '"' {
            assert(before + Seq::<char>::empty() == before);
            assert(rest.skip(1) == input@.skip(i + 1));
            return Ok((path, text::skip_chars(input, i + 1)));
        } else if c == '\\' {
            if i + 1 == chars.len() {
                return Err("unclosed quote in path");
            }
            let other = chars[i + 1];
            assert(rest[1] == other);
            if other != '"' && other != '\\' {
                path.push('\\');
            }
            path.push(other);
            assert(path@ == before + unescaped(other));
            assert(rest.skip(2) == input@.skip(i + 2));
            proof {
                lemma_prepended_twice(before, unescaped(other), quoted_of(input@.skip(i + 2)));
            }
            i = i + 2;
        } else {
            path.push(c);
            assert(path@ == before + seq![c]);
            assert(rest.skip(1) == input@.skip(i + 1));
            proof {
                lemma_prepended_twice(before, seq![c], quoted_of(input@.skip(i + 1)));
            }
            i = i + 1;
        }
    }
    Err("unclosed quote in path")
}

proof fn lemma_prepended_twice(
    a: Seq<char>,
    b: Seq<char>,
    quoted: Option<(Seq<char>, Seq<char>)>,
)
    ensures
        prepended(a, prepended(b, quoted)) == prepended(a + b, quoted),
{
    if let Some((path, rest)) = quoted {
        assert(a + (b + path) == (a + b) + path);
    }
}

/// Reads a path that may be quoted (for paths with spaces) or unquoted, and the part of the file
/// that is asked for, and hands them to the constructor.
pub fn parse_quoted_or_plain<F>(raw: &str, constructor: F) -> (res: Option<LinkType<'static>>)
    where F: FnOnce(String, RangeOrAnchor) -> LinkType<'static>
    requires
        forall|path: String, part: RangeOrAnchor| call_requires(constructor, (path, part)),
    ensures
        match file_and_part_of(raw@) {
            Some(Ok((path, part))) => exists|p: String, r: RangeOrAnchor|
                p@ == path && r@ == part && res is Some && #[trigger] call_ensures(
                    constructor,
                    (p, r),
                    res->0,
                ),
            Some(Err(message)) => link_type_view(res) == Some(LinkTypeView::Invalid(message)),
            None => res is None,
        },
{
    let trimmed = text::trim(raw);
    if text::starts_with(trimmed, '"') {
        match parse_quoted_path(trimmed) {
            Ok((path, rest)) => {
                let after = text::trim_start(rest);
                let part = if text::starts_with(after, ':') {
                    Some(text::skip_chars(after, 1))
                } else {
                    None
                };
                let range_or_anchor = range::parse_range_or_anchor(part);
                Some(constructor(path, range_or_anchor))
            },
            Err(message) => Some(LinkType::Invalid(message.to_owned())),
        }
    } else {
        let words = text::split_whitespace(trimmed);
        if words.len() == 0 {
            return None;
        }
        assert(text::texts(words@)[0] == words[0]@);
        let (path, part) = range::split_colon(words[0]);
        let range_or_anchor = range::parse_range_or_anchor(part);
        Some(constructor(path.to_owned(), range_or_anchor))
    }
}

/// Reads the argument of an `include`: `file`, `file:start:end` or `file:anchor`.
pub fn parse_include_path(path: &str) -> (res: Option<LinkType<'static>>)
    ensures
        link_type_view(res) == include_of(path@),
{
    let constructor = |file: String, part: RangeOrAnchor| -> (link_type: LinkType<'static>)
        ensures
            link_type@ == LinkTypeView::Include(file@, part@),
    {
        LinkType::Include(file, part)
    };
    parse_quoted_or_plain(path, constructor)
}

/// Reads the argument of a `rustdoc_include`, which is written like that of an `include`.
pub fn parse_rustdoc_include_path(path: &str) -> (res: Option<LinkType<'static>>)
    ensures
        link_type_view(res) == rustdoc_include_of(path@),
{
    let constructor = |file: String, part: RangeOrAnchor| -> (link_type: LinkType<'static>)
        ensures
            link_type@ == LinkTypeView::RustdocInclude(file@, part@),
    {
        LinkType::RustdocInclude(file, part)
    };
    parse_quoted_or_plain(path, constructor)
}

/// Reads the arguments of a `playground`: a file, and the properties of its code block.
pub fn parse_playground_args<'a>(rest: &'a str) -> (res: Option<LinkType<'a>>)
    ensures
        link_type_view(res) == playground_of(rest@),
{
    let trimmed = text::trim_start(rest);
    if text::starts_with(trimmed, '"') {
        match parse_quoted_path(trimmed) {
            Ok((path, after)) => Some(LinkType::Playground(path, text::split_whitespace(after))),
            Err(message) => Some(LinkType::Invalid(message.to_owned())),
        }
    } else {
        let mut props = text::split_whitespace(trimmed);
        if props.len() == 0 {
            return None;
        }
        let ghost words = props@;
        let file = props.remove(0);
        assert(file@ == text::texts(words)[0]);
        assert(text::texts(props@) == text::texts(words).skip(1));
        Some(LinkType::Playground(file.to_owned(), props))
    }
}

impl<'a> LinkType<'a> {
    /// The directory that the links in the file are relative to, of a link that asks for a file
    /// and where `base` is what the link itself is relative to. Where the file lies in no
    /// directory, its path is the error.
    pub fn relative_path(self, base: &str) -> (res: Result<Option<String>, String>)
        ensures
            match file_of(self@) {
                None => res matches Ok(None),
                Some(file) => {
                    let target = path::joined_path(base@, file);
                    match path::parent_path(target) {
                        Some(dir) => res matches Ok(Some(d)) && d@ == dir,
                        None => res matches Err(t) && t@ == target,
                    }
                },
            },
    {
        self.directory(base)
    }

    /// The same as [`LinkType::relative_path`], of a link type that is kept.
    pub(crate) fn directory(&self, base: &str) -> (res: Result<Option<String>, String>)
        ensures
            match file_of(self@) {
                None => res matches Ok(None),
                Some(file) => {
                    let target = path::joined_path(base@, file);
                    match path::parent_path(target) {
                        Some(dir) => res matches Ok(Some(d)) && d@ == dir,
                        None => res matches Err(t) && t@ == target,
                    }
                },
            },
    {
        let file = match self {
            LinkType::Escaped => return Ok(None),
            LinkType::Invalid(_) => return Ok(None),
            LinkType::Title(_) => return Ok(None),
            LinkType::Include(file, _) => file,
            LinkType::Playground(file, _) => file,
            LinkType::RustdocInclude(file, _) => file,
        };
        let target = path::join_paths(base, file.as_str());
        match path::parent(target.as_str()) {
            Some(_) => Ok(Some(path::return_relative_path(base, file.as_str()))),
            None => Err(target),
        }
    }
}

} // verus!
