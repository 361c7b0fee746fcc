//! The links of a text: where they stand and what they ask for.
use vstd::prelude::*;

use crate::link_type;
use crate::link_type::{LinkType, LinkTypeView};
use crate::text;

use regex::Regex;

verus! {

/// The escape character: a link behind it stands for its own text.
pub const ESCAPE_CHAR: char = '\\';

/// The pattern of a link. The first group is the kind of the link, the second one its arguments.
/// An escaped link has neither.
pub const LINK: &'static str = r"(?x)              # insignificant whitespace mode
        \\\{\{\#.*\}\}      # match escaped link
        |                   # or
        \{\{\s*             # link opening parens and whitespace
        \#([a-zA-Z0-9_]+)   # link type
        \s+                 # separating whitespace
        ([^}]+)             # link target path and space separated properties
        \}\}                # link closing parens";

/// A link of a text, with the byte offsets of its start and end.
#[derive(PartialEq, Debug, Clone)]
pub struct Link<'a> {
    pub start_index: usize,
    pub end_index: usize,
    pub link_type: LinkType<'a>,
    pub link_text: &'a str,
}

/// What a [`Link`] stands for.
#[verifier::ext_equal]
pub struct LinkView {
    pub start_index: usize,
    pub end_index: usize,
    pub link_type: LinkTypeView,
    pub link_text: Seq<char>,
}

impl<'a> View for Link<'a> {
    type V = LinkView;

    open spec fn view(&self) -> LinkView {
        LinkView {
            start_index: self.start_index,
            end_index: self.end_index,
            link_type: self.link_type@,
            link_text: self.link_text@,
        }
    }
}

/// What several links stand for.
pub open spec fn link_views(links: Seq<Link>) -> Seq<LinkView> {
    Seq::new(links.len(), |i: int| links[i]@)
}

/// Whether two byte offsets mark off a part of a text.
pub open spec fn is_span(s: Seq<char>, span: (usize, usize)) -> bool {
    &&& span.0 <= span.1
    &&& text::is_boundary(s, span.0 as int)
    &&& text::is_boundary(s, span.1 as int)
}

/// The part of a text that two byte offsets mark off.
pub open spec fn span_text(s: Seq<char>, span: (usize, usize)) -> Seq<char> {
    text::between(s, span.0 as int, span.1 as int)
}

/// Whether every group that took part in a match marks off a part of the text.
pub open spec fn has_valid_spans(s: Seq<char>, capture: Seq<Option<(usize, usize)>>) -> bool {
    forall|i: int|
        0 <= i < capture.len() && capture[i] is Some ==> is_span(s, (#[trigger] capture[i])->0)
}

/// A group of a match, if there is such a group and it took part in the match.
pub open spec fn group_of(capture: Seq<Option<(usize, usize)>>, i: int) -> Option<(usize, usize)> {
    if 0 <= i < capture.len() {
        capture[i]
    } else {
        None
    }
}

/// Where a match starts.
pub open spec fn match_start(capture: Seq<Option<(usize, usize)>>) -> usize {
    (capture[0]->0).0
}

/// Where a match ends.
pub open spec fn match_end(capture: Seq<Option<(usize, usize)>>) -> usize {
    (capture[0]->0).1
}

/// Whether a text holds two opening braces in a row.
pub open spec fn has_opening(s: Seq<char>) -> bool {
    exists|i: int| #![trigger s[i]] 0 <= i && i + 1 < s.len() && s[i] == '{' && s[i + 1] == '{'
}

/// How a link begins and ends: in double braces, with a backslash before them where it is escaped.
/// The braces of an escaped link hold a `#` at once, and it stays on one line.
pub open spec fn is_delimited(s: Seq<char>) -> bool {
    &&& s.len() >= 4
    &&& s[s.len() - 2] == '}'
    &&& s[s.len() - 1] == '}'
    &&& {
        ||| s[0] == '{' && s[1] == '{'
        ||| is_escaped_text(s)
    }
}

/// Whether a text is that of an escaped link.
pub open spec fn is_escaped_text(s: Seq<char>) -> bool {
    &&& s.len() >= 6
    &&& s[0] == ESCAPE_CHAR
    &&& s[1] == '{'
    &&& s[2] == '{'
    &&& s[3] == '#'
    &&& s[s.len() - 2] == '}'
    &&& s[s.len() - 1] == '}'
    &&& !s.contains('\n')
}

/// Whether a text is what stands before the kind of a link: two braces, white space or none, and a
/// `#`.
pub open spec fn is_opening(s: Seq<char>) -> bool {
    &&& s.len() >= 3
    &&& s[0] == '{'
    &&& s[1] == '{'
    &&& text::is_blank(s.subrange(2, s.len() - 1))
    &&& s[s.len() - 1] == '#'
}

/// Whether a character may stand in the kind of a link.
pub open spec fn is_kind_char(c: char) -> bool {
    'a' <= c <= 'z' || 'A' <= c <= 'Z' || '0' <= c <= '9' || c == '_'
}

/// Whether a text can be the kind of a link.
pub open spec fn is_kind(s: Seq<char>) -> bool {
    &&& s.len() > 0
    &&& forall|i: int| 0 <= i < s.len() ==> is_kind_char(#[trigger] s[i])
}

/// Whether the text of a link that is not escaped is made of these parts: what stands before its
/// kind, the kind, white space, the arguments, and two braces.
pub open spec fn is_made_of(
    s: Seq<char>,
    opening: Seq<char>,
    kind: Seq<char>,
    gap: Seq<char>,
    arguments: Seq<char>,
) -> bool {
    &&& s == opening + kind + gap + arguments + seq!['}', '}']
    &&& is_opening(opening)
    &&& is_kind(kind)
    &&& gap.len() > 0 && text::is_blank(gap)
    &&& arguments.len() > 0 && !arguments.contains('}')
}

/// The matches of a regular expression in a text, from left to right. Each one gives the byte
/// offsets of its groups, where a group took part in the match. The first group is the match
/// itself.
pub uninterp spec fn regex_captures(pattern: Seq<char>, text: Seq<char>) -> Seq<
    Seq<Option<(usize, usize)>>,
>;

/// The groups of several matches.
pub open spec fn groups_of(captures: Seq<Vec<Option<(usize, usize)>>>) -> Seq<
    Seq<Option<(usize, usize)>>,
> {
    Seq::new(captures.len(), |i: int| captures[i]@)
}

/// Whether a match is one of [`LINK`]: that of an escaped link, which has no groups, or one that
/// has the kind of the link and its arguments for groups, where they stand in it.
pub open spec fn is_link_match(s: Seq<char>, capture: Seq<Option<(usize, usize)>>) -> bool {
    &&& capture.len() == 3
    &&& capture[0] is Some
    &&& {
        let whole = capture[0]->0;
        match (capture[1], capture[2]) {
            (None, None) => is_escaped_text(span_text(s, whole)),
            (Some(kind), Some(arguments)) => {
                &&& whole.0 <= kind.0 <= kind.1 <= arguments.0 <= arguments.1 <= whole.1
                &&& is_made_of(
                    span_text(s, whole),
                    span_text(s, (whole.0, kind.0)),
                    span_text(s, kind),
                    span_text(s, (kind.1, arguments.0)),
                    span_text(s, arguments),
                )
            },
            _ => false,
        }
    }
}

/// What holds of the matches of [`LINK`]: each one is as the pattern says, the offsets fall
/// between characters, and a match ends before the next one starts.
pub open spec fn are_link_captures(
    s: Seq<char>,
    captures: Seq<Seq<Option<(usize, usize)>>>,
) -> bool {
    &&& forall|i: int|
        0 <= i < captures.len() ==> is_link_match(s, #[trigger] captures[i]) && has_valid_spans(
            s,
            captures[i],
        )
    &&& forall|i: int, j: int|
        0 <= i < j < captures.len() ==> match_end(#[trigger] captures[i]) <= match_start(
            #[trigger] captures[j],
        )
}

/// What a link of a kind asks for, if there is such a kind and the arguments are not blank.
pub open spec fn link_type_of_kind(kind: Seq<char>, arguments: Seq<char>) -> Option<LinkTypeView> {
    if kind == "title"@ {
        Some(LinkTypeView::Title(arguments))
    } else if kind == "include"@ {
        link_type::include_of(arguments)
    } else if kind == "rustdoc_include"@ {
        link_type::rustdoc_include_of(arguments)
    } else if kind == "playground"@ || kind == "playpen"@ {
        link_type::playground_of(arguments)
    } else {
        None
    }
}

/// What a match of [`LINK`] asks for, if it is a link.
pub open spec fn link_type_of(
    s: Seq<char>,
    capture: Seq<Option<(usize, usize)>>,
) -> Option<LinkTypeView> {
    match (group_of(capture, 0), group_of(capture, 1), group_of(capture, 2)) {
        (_, Some(kind), Some(rest)) => link_type_of_kind(span_text(s, kind), span_text(s, rest)),
        (Some(whole), None, None) => {
            let link_text = span_text(s, whole);
            if link_text.len() > 0 && link_text[0] == ESCAPE_CHAR {
                Some(LinkTypeView::Escaped)
            } else {
                None
            }
        },
        _ => None,
    }
}

/// The link that a match of [`LINK`] makes, if it is one.
pub open spec fn link_of(s: Seq<char>, capture: Seq<Option<(usize, usize)>>) -> Option<LinkView> {
    match (group_of(capture, 0), link_type_of(s, capture)) {
        (Some(whole), Some(link_type)) => Some(
            LinkView {
                start_index: whole.0,
                end_index: whole.1,
                link_type,
                link_text: span_text(s, whole),
            },
        ),
        _ => None,
    }
}

/// The links that matches of [`LINK`] make, in the order of the matches.
pub open spec fn links_of_captures(
    s: Seq<char>,
    captures: Seq<Seq<Option<(usize, usize)>>>,
) -> Seq<LinkView>
    decreases captures.len(),
{
    if captures.len() == 0 {
        Seq::empty()
    } else {
        let rest = links_of_captures(s, captures.skip(1));
        match link_of(s, captures[0]) {
            Some(link) => seq![link] + rest,
            None => rest,
        }
    }
}

/// The links of a text, from left to right.
pub open spec fn links_of(s: Seq<char>) -> Seq<LinkView> {
    links_of_captures(s, regex_captures(LINK@, s))
}

/// A match that has the former name of a playground for its kind, with the byte offset of its
/// start. It need not be a link: its arguments may be blank.
#[derive(PartialEq, Debug, Clone)]
pub struct Renamed<'a> {
    pub start_index: usize,
    pub link_text: &'a str,
}

/// What a [`Renamed`] stands for.
#[verifier::ext_equal]
pub struct RenamedView {
    pub start_index: usize,
    pub link_text: Seq<char>,
}

impl<'a> View for Renamed<'a> {
    type V = RenamedView;

    open spec fn view(&self) -> RenamedView {
        RenamedView { start_index: self.start_index, link_text: self.link_text@ }
    }
}

/// What several matches by a former name stand for.
pub open spec fn renamed_views(renamed: Seq<Renamed>) -> Seq<RenamedView> {
    Seq::new(renamed.len(), |i: int| renamed[i]@)
}

/// The matches of [`LINK`] that have the former name of a playground for their kind.
pub open spec fn renamed_in_captures(
    s: Seq<char>,
    captures: Seq<Seq<Option<(usize, usize)>>>,
) -> Seq<RenamedView>
    decreases captures.len(),
{
    if captures.len() == 0 {
        Seq::empty()
    } else {
        let others = renamed_in_captures(s, captures.drop_last());
        match (
            group_of(captures.last(), 0),
            group_of(captures.last(), 1),
            group_of(captures.last(), 2),
        ) {
            (Some(whole), Some(kind), Some(_)) => if span_text(s, kind) == "playpen"@ {
                others.push(RenamedView { start_index: whole.0, link_text: span_text(s, whole) })
            } else {
                others
            },
            _ => others,
        }
    }
}

/// The matches in a text that have the former name of a playground for their kind, from left to
/// right.
pub open spec fn renamed_of(s: Seq<char>) -> Seq<RenamedView> {
    renamed_in_captures(s, regex_captures(LINK@, s))
}

/// Whether a link asks for what its text says: an escaped one for nothing, any other one for what
/// its kind and its arguments ask for.
pub open spec fn is_written(link_text: Seq<char>, link_type: LinkTypeView) -> bool {
    if link_type is Escaped {
        is_escaped_text(link_text)
    } else {
        exists|opening: Seq<char>, kind: Seq<char>, gap: Seq<char>, arguments: Seq<char>|
            #[trigger] is_made_of(link_text, opening, kind, gap, arguments) && link_type_of_kind(
                kind,
                arguments,
            ) == Some(link_type)
    }
}

/// Whether a link stands in a text where it says, begins and ends as a link does (with a backslash
/// exactly where it is escaped), and asks for what its text says.
pub open spec fn is_link_in(s: Seq<char>, link: LinkView) -> bool {
    &&& link.start_index < link.end_index
    &&& is_span(s, (link.start_index, link.end_index))
    &&& link.link_text == span_text(s, (link.start_index, link.end_index))
    &&& is_delimited(link.link_text)
    &&& link.link_type is Escaped <==> link.link_text[0] == ESCAPE_CHAR
    &&& is_written(link.link_text, link.link_type)
}

/// Whether links stand in a text from left to right, without overlap.
pub open spec fn are_links_in(s: Seq<char>, links: Seq<LinkView>) -> bool {
    &&& forall|i: int| 0 <= i < links.len() ==> is_link_in(s, #[trigger] links[i])
    &&& forall|i: int, j: int|
        0 <= i < j < links.len() ==> (#[trigger] links[i]).end_index <= (
        #[trigger] links[j]).start_index
}

/// `regex::Regex::captures_iter`: the successive non-overlapping matches of a pattern in a text,
/// with the offsets that `regex::Captures::iter` gives of their groups.
///
/// The pattern has to be [`LINK`]: one that is not a valid regular expression would make
/// `regex::Regex::new` fail.
///
/// The contract gives the result a name, and so claims that it depends on the pattern and the text
/// alone. It adds what the `regex` crate documents: the first group is in every match, offsets
/// fall on the boundaries of characters, and matches do not overlap. And it adds what [`LINK`]
/// says of a match: the parts that it is made of, and which of them are its groups. That every
/// part of a text which could match is found is left unsaid.
#[verifier::external_body]
fn captures_iter(pattern: &str, text: &str) -> (res: Vec<Vec<Option<(usize, usize)>>>)
    requires
        pattern@ == LINK@,
    ensures
        groups_of(res@) == regex_captures(pattern@, text@),
        are_link_captures(text@, groups_of(res@)),
{
    let regex = Regex::new(pattern).unwrap();
    let captures = regex.captures_iter(text);
    captures.map(|c| c.iter().map(|m| m.map(|m| (m.start(), m.end()))).collect()).collect()
}

/// A group of a match.
fn group(capture: &Vec<Option<(usize, usize)>>, i: usize) -> (res: Option<(usize, usize)>)
    ensures
        res == group_of(capture@, i as int),
{
    if i < capture.len() {
        capture[i]
    } else {
        None
    }
}

impl<'a> Link<'a> {
    /// The link that a match of [`LINK`] makes, if it is one.
    pub fn from_capture(contents: &'a str, capture: &Vec<Option<(usize, usize)>>) -> (res: Option<
        Link<'a>,
    >)
        requires
            has_valid_spans(contents@, capture@),
        ensures
            link_of(contents@, capture@) == (match res {
                Some(link) => Some(link@),
                None => None,
            }),
    {
        let whole = match group(capture, 0) {
            Some(whole) => whole,
            None => return None,
        };
        let link_text = text::slice(contents, whole.0, whole.1);
        let link_type = match (group(capture, 1), group(capture, 2)) {
            (Some(kind), Some(rest)) => {
                let link_kind = text::slice(contents, kind.0, kind.1);
                let rest = text::slice(contents, rest.0, rest.1);
                if text::same_text(link_kind, "title") {
                    Some(LinkType::Title(rest))
                } else if text::same_text(link_kind, "include") {
                    link_type::parse_include_path(rest)
                } else if text::same_text(link_kind, "rustdoc_include") {
                    link_type::parse_rustdoc_include_path(rest)
                } else if text::same_text(link_kind, "playground") {
                    link_type::parse_playground_args(rest)
                } else if text::same_text(link_kind, "playpen") {
                    // the former name of a playground
                    link_type::parse_playground_args(rest)
                } else {
                    None
                }
            },
            (None, None) => if text::starts_with(link_text, ESCAPE_CHAR) {
                Some(LinkType::Escaped)
            } else {
                None
            },
            _ => None,
        };
        match link_type {
            Some(link_type) => Some(
                Link { start_index: whole.0, end_index: whole.1, link_type, link_text },
            ),
            None => None,
        }
    }
}

/// The links of a text that are still to come, from left to right.
pub struct LinkIter<'a> {
    contents: &'a str,
    captures: Vec<Vec<Option<(usize, usize)>>>,
    position: usize,
}

impl<'a> LinkIter<'a> {
    /// Whether the matches that are still to come lie within the text.
    pub closed spec fn well_formed(&self) -> bool {
        &&& self.position <= self.captures.len()
        &&& forall|i: int|
            0 <= i < self.captures.len() ==> has_valid_spans(
                self.contents@,
                #[trigger] self.captures@[i]@,
            )
    }

    /// The links that are still to come.
    pub closed spec fn remaining(&self) -> Seq<LinkView> {
        links_of_captures(self.contents@, groups_of(self.captures@).skip(self.position as int))
    }

    /// All the matches that have the former name of a playground for their kind, with those before
    /// the links that are still to come.
    pub closed spec fn all_renamed(&self) -> Seq<RenamedView> {
        renamed_in_captures(self.contents@, groups_of(self.captures@))
    }

    /// How many matches are still to be looked at.
    pub closed spec fn measure(&self) -> nat {
        (self.captures.len() - self.position) as nat
    }

    /// The next link, if there is one.
    pub fn next(&mut self) -> (res: Option<Link<'a>>)
        requires
            old(self).well_formed(),
        ensures
            final(self).well_formed(),
            final(self).all_renamed() == old(self).all_renamed(),
            match res {
                Some(link) => {
                    &&& old(self).remaining().len() > 0
                    &&& link@ == old(self).remaining()[0]
                    &&& final(self).remaining() == old(self).remaining().skip(1)
                    &&& final(self).measure() < old(self).measure()
                },
                None => old(self).remaining().len() == 0 && final(self).remaining().len() == 0,
            },
    {
        let ghost all = groups_of(self.captures@);
        while self.position < self.captures.len()
            invariant
                self.well_formed(),
                self.contents == old(self).contents,
                self.captures == old(self).captures,
                self.position >= old(self).position,
                all == groups_of(self.captures@),
                self.remaining() == old(self).remaining(),
            decreases self.captures.len() - self.position,
        {
            let ghost rest = all.skip(self.position as int);
            let ghost before = self.remaining();
            let capture = &self.captures[self.position];
            assert(rest[0] == capture@);
            assert(rest.skip(1) == all.skip(self.position + 1));
            let link = Link::from_capture(self.contents, capture);
            self.position = self.position + 1;
            if let Some(link) = link {
                assert(before == seq![link@] + self.remaining());
                assert(before.skip(1) == self.remaining());
                return Some(link);
            }
        }
        None
    }

    /// All the matches that have the former name of a playground for their kind, with those before
    /// the links that are still to come.
    pub fn renamed(&self) -> (res: Vec<Renamed<'a>>)
        requires
            self.well_formed(),
        ensures
            renamed_views(res@) == self.all_renamed(),
    {
        let mut res: Vec<Renamed<'a>> = Vec::new();
        let ghost all = groups_of(self.captures@);
        let mut i: usize = 0;
        assert(renamed_views(res@) == Seq::<RenamedView>::empty());
        while i < self.captures.len()
            invariant
                self.well_formed(),
                all == groups_of(self.captures@),
                i <= self.captures.len(),
                renamed_views(res@) == renamed_in_captures(self.contents@, all.take(i as int)),
            decreases self.captures.len() - i,
        {
            let capture = &self.captures[i];
            assert(has_valid_spans(self.contents@, capture@));
            assert(all.take(i + 1).last() == capture@);
            assert(all.take(i + 1).drop_last() == all.take(i as int));
            if let (Some(whole), Some(kind), Some(_)) = (
                group(capture, 0),
                group(capture, 1),
                group(capture, 2),
            ) {
                if text::same_text(text::slice(self.contents, kind.0, kind.1), "playpen") {
                    let link_text = text::slice(self.contents, whole.0, whole.1);
                    let found = Renamed { start_index: whole.0, link_text };
                    assert(renamed_views(res@.push(found)) == renamed_views(res@).push(found@));
                    res.push(found);
                }
            }
            i = i + 1;
        }
        assert(all.take(i as int) == all);
        res
    }

    /// All the links that are still to come.
    pub fn collect(self) -> (res: Vec<Link<'a>>)
        requires
            self.well_formed(),
        ensures
            link_views(res@) == self.remaining(),
    {
        let mut iter = self;
        let mut links: Vec<Link<'a>> = Vec::new();
        let ghost all = self.remaining();
        assert(link_views(links@) + iter.remaining() == all);
        loop
            invariant
                iter.well_formed(),
                link_views(links@) + iter.remaining() == all,
            ensures
                link_views(links@) == all,
            decreases iter.measure(),
        {
            let ghost before = iter.remaining();
            match iter.next() {
                Some(link) => {
                    assert(link_views(links@.push(link)) == link_views(links@).push(link@));
                    assert(link_views(links@) + before == link_views(links@).push(link@)
                        + iter.remaining());
                    links.push(link);
                },
                None => {
                    assert(link_views(links@) + before == link_views(links@));
                    break ;
                },
            }
        }
        links
    }
}

/// A part of a text that is not empty ends behind its start.
proof fn lemma_span_not_empty(s: Seq<char>, span: (usize, usize))
    requires
        is_span(s, span),
        span_text(s, span).len() > 0,
    ensures
        span.0 < span.1,
{
    if span.0 == span.1 {
        text::lemma_boundary(s, span.0 as int);
        text::lemma_between_empty(s, span.0 as int);
    }
}

/// The text of a match is delimited, and begins with a backslash exactly where it has no groups.
proof fn lemma_match_is_delimited(s: Seq<char>, capture: Seq<Option<(usize, usize)>>)
    requires
        is_link_match(s, capture),
    ensures
        is_delimited(span_text(s, capture[0]->0)),
        capture[1] is None <==> span_text(s, capture[0]->0)[0] == ESCAPE_CHAR,
{
    if let (Some(kind), Some(arguments)) = (capture[1], capture[2]) {
        let whole = capture[0]->0;
        let link_text = span_text(s, whole);
        let opening = span_text(s, (whole.0, kind.0));
        assert(link_text[0] == opening[0]);
        assert(link_text[1] == opening[1]);
    }
}

proof fn lemma_links_of_captures(s: Seq<char>, captures: Seq<Seq<Option<(usize, usize)>>>)
    requires
        are_link_captures(s, captures),
    ensures
        are_links_in(s, links_of_captures(s, captures)),
        forall|i: int|
            0 <= i < links_of_captures(s, captures).len() ==> match_start(captures[0]) <= (
            #[trigger] links_of_captures(s, captures)[i]).start_index,
    decreases captures.len(),
{
    if captures.len() > 0 {
        let tail = captures.skip(1);
        let links = links_of_captures(s, captures);
        let rest = links_of_captures(s, tail);
        assert forall|i: int| 0 <= i < tail.len() implies (#[trigger] tail[i]) == captures[
        i + 1] by {}
        assert(are_link_captures(s, tail));
        lemma_links_of_captures(s, tail);
        if rest.len() > 0 {
            assert(tail.len() > 0);
            assert(tail[0] == captures[1]);
            assert(match_end(captures[0]) <= match_start(captures[1]));
        }
        assert(is_link_match(s, captures[0]));
        assert(is_span(s, captures[0][0]->0));
        lemma_match_is_delimited(s, captures[0]);
        match link_of(s, captures[0]) {
            Some(link) => {
                assert(links == seq![link] + rest);
                if let (Some(kind), Some(arguments)) = (captures[0][1], captures[0][2]) {
                    let whole = captures[0][0]->0;
                    assert(is_made_of(
                        link.link_text,
                        span_text(s, (whole.0, kind.0)),
                        span_text(s, kind),
                        span_text(s, (kind.1, arguments.0)),
                        span_text(s, arguments),
                    ));
                }
                lemma_span_not_empty(s, captures[0][0]->0);
                assert(is_link_in(s, link));
                assert forall|i: int| 0 <= i < links.len() implies is_link_in(
                    s,
                    #[trigger] links[i],
                ) && match_start(captures[0]) <= links[i].start_index by {
                    if i > 0 {
                        assert(links[i] == rest[i - 1]);
                    }
                }
                assert forall|i: int, j: int| 0 <= i < j < links.len() implies (
                #[trigger] links[i]).end_index <= (#[trigger] links[j]).start_index by {
                    assert(links[j] == rest[j - 1]);
                    if i > 0 {
                        assert(links[i] == rest[i - 1]);
                    }
                }
            },
            None => {},
        }
    }
}

/// A text in which a part begins as a link does holds two opening braces in a row.
proof fn lemma_opens(s: Seq<char>, span: (usize, usize))
    requires
        is_span(s, span),
        is_delimited(span_text(s, span)),
    ensures
        has_opening(s),
{
    let start = span.0 as int;
    let end = span.1 as int;
    let link_text = span_text(s, span);
    let last = vstd::utf8::encode_utf8(s).len() as int;
    let before = text::between(s, 0, start);
    text::lemma_between_ends(s);
    text::lemma_boundary(s, start);
    text::lemma_boundary(s, end);
    text::lemma_between_add(s, 0, start, end);
    text::lemma_between_add(s, 0, end, last);
    assert(s == before + link_text + text::from_offset(s, end));
    let i: int = if link_text[0] == '{' {
        0
    } else {
        1
    };
    assert(s[before.len() + i] == '{');
    assert(s[before.len() + i + 1] == '{');
}

/// The links of a text, from left to right. A text without two opening braces in a row has none.
pub fn find_links<'a>(contents: &'a str) -> (res: LinkIter<'a>)
    ensures
        res.well_formed(),
        res.remaining() == links_of(contents@),
        are_links_in(contents@, res.remaining()),
        res.all_renamed() == renamed_of(contents@),
        !has_opening(contents@) ==> res.remaining().len() == 0 && res.all_renamed().len() == 0,
{
    let captures = captures_iter(LINK, contents);
    let iter = LinkIter { contents, captures, position: 0 };
    proof {
        let groups = groups_of(captures@);
        assert(groups.skip(0) == groups);
        lemma_links_of_captures(contents@, groups);
        assert forall|i: int| 0 <= i < captures@.len() implies has_valid_spans(
            contents@,
            #[trigger] captures@[i]@,
        ) by {
            assert(groups[i] == captures@[i]@);
        }
        if groups.len() > 0 {
            assert(is_link_match(contents@, groups[0]));
            lemma_match_is_delimited(contents@, groups[0]);
            lemma_opens(contents@, groups[0][0]->0);
        }
    }
    iter
}

} // verus!
