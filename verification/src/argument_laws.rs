//! What holds of the arguments of links in general.
use vstd::prelude::*;

use crate::link_type;
use crate::link_type::LinkTypeView;
use crate::range;
use crate::range::{LineRange, RangeOrAnchorView};
use crate::text;
use crate::text_laws;

use std::ops::{Range, RangeFrom, RangeFull, RangeTo};

verus! {

/// A path as it is written between quotes.
pub open spec fn escaped(path: Seq<char>) -> Seq<char>
    decreases path.len(),
{
    if path.len() == 0 {
        Seq::empty()
    } else if path[0] == '"' || path[0] == '\\' {
        seq!['\\', path[0]] + escaped(path.skip(1))
    } else {
        seq![path[0]] + escaped(path.skip(1))
    }
}

/// A text between quotes, with something behind it.
pub open spec fn in_quotes(inner: Seq<char>, rest: Seq<char>) -> Seq<char> {
    seq!['"'] + inner + seq!['"'] + rest
}

proof fn lemma_quoted_escaped(path: Seq<char>, rest: Seq<char>)
    ensures
        link_type::quoted_of(escaped(path) + seq!['"'] + rest) == Some((path, rest)),
    decreases path.len(),
{
    let quoted = escaped(path) + seq!['"'] + rest;
    if path.len() == 0 {
        assert(quoted[0] == '"');
        assert(quoted.skip(1) == rest);
    } else {
        let tail = escaped(path.skip(1)) + seq!['"'] + rest;
        lemma_quoted_escaped(path.skip(1), rest);
        assert(seq![path[0]] + path.skip(1) == path);
        if path[0] == '"' || path[0] == '\\' {
            assert(quoted == seq!['\\', path[0]] + tail);
            assert(quoted[0] == '\\' && quoted[1] == path[0]);
            assert(quoted.skip(2) == tail);
        } else {
            assert(quoted == seq![path[0]] + tail);
            assert(quoted[0] == path[0]);
            assert(quoted.skip(1) == tail);
        }
    }
}

/// Every path can be written between quotes: with a backslash before each quote and each
/// backslash, it is read back as it is, up to the closing quote.
pub proof fn law_quoted_path_round_trip(path: Seq<char>, rest: Seq<char>)
    ensures
        link_type::quoted_path_of(in_quotes(escaped(path), rest)) == Ok::<
            (Seq<char>, Seq<char>),
            Seq<char>,
        >((path, rest)),
{
    let input = in_quotes(escaped(path), rest);
    lemma_quoted_escaped(path, rest);
    assert(input.skip(1) == escaped(path) + seq!['"'] + rest);
}

/// Whether a path has no quote, no two backslashes in a row, and none at its end.
pub open spec fn is_plain(path: Seq<char>) -> bool {
    forall|i: int|
        0 <= i < path.len() ==> {
            &&& #[trigger] path[i] != '"'
            &&& path[i] == '\\' ==> i + 1 < path.len() && path[i + 1] != '\\'
        }
}

proof fn lemma_quoted_plain(path: Seq<char>, rest: Seq<char>)
    requires
        is_plain(path),
    ensures
        link_type::quoted_of(path + seq!['"'] + rest) == Some((path, rest)),
    decreases path.len(),
{
    let quoted = path + seq!['"'] + rest;
    if path.len() == 0 {
        assert(quoted[0] == '"');
        assert(quoted.skip(1) == rest);
    } else {
        assert(quoted[0] == path[0]);
        let n: int = if path[0] == '\\' {
            2
        } else {
            1
        };
        let tail = path.skip(n);
        assert forall|i: int| 0 <= i < tail.len() implies {
            &&& #[trigger] tail[i] != '"'
            &&& tail[i] == '\\' ==> i + 1 < tail.len() && tail[i + 1] != '\\'
        } by {
            assert(tail[i] == path[i + n]);
        }
        lemma_quoted_plain(tail, rest);
        assert(quoted.skip(n) == tail + seq!['"'] + rest);
        if n == 2 {
            assert(path[1] != '\\' && path[1] != '"');
            assert(quoted[1] == path[1]);
            assert(seq!['\\', path[1]] + tail == path);
        } else {
            assert(seq![path[0]] + tail == path);
        }
    }
}

/// Between quotes, backslashes that come one by one are characters of the path, so that a path
/// such as `C:\Users\name` is read as it is written.
pub proof fn law_single_backslashes_are_kept(path: Seq<char>, rest: Seq<char>)
    requires
        is_plain(path),
    ensures
        link_type::quoted_path_of(in_quotes(path, rest)) == Ok::<
            (Seq<char>, Seq<char>),
            Seq<char>,
        >((path, rest)),
{
    lemma_quoted_plain(path, rest);
    assert(in_quotes(path, rest).skip(1) == path + seq!['"'] + rest);
}

proof fn lemma_quoted_needs_quote(s: Seq<char>)
    requires
        !s.contains('"'),
    ensures
        link_type::quoted_of(s) is None,
    decreases s.len(),
{
    if s.len() > 0 {
        assert(s[0] != '"') by {
            assert(s.contains(s[0]));
        }
        if s[0] != '\\' {
            lemma_contains_skip(s, 1);
            lemma_quoted_needs_quote(s.skip(1));
        } else if s.len() > 1 {
            lemma_contains_skip(s, 2);
            lemma_quoted_needs_quote(s.skip(2));
        }
    }
}

proof fn lemma_contains_skip(s: Seq<char>, n: int)
    requires
        0 <= n <= s.len(),
        !s.contains('"'),
    ensures
        !s.skip(n).contains('"'),
{
    assert forall|i: int| 0 <= i < s.len() - n implies s.skip(n)[i] != '"' by {
        assert(s.contains(s[i + n]));
    }
}

/// Both ways of trimming leave the words as they are. A text that starts with a quote behind its
/// leading white space does so either way.
proof fn lemma_trimmed(raw: Seq<char>) -> (blank: Seq<char>)
    ensures
        text::is_blank(blank),
        text::trim_start_of(raw) == text::trim_of(raw) + blank,
        text::words_of(text::trim_of(raw)) == text::words_of(raw),
        text::words_of(text::trim_start_of(raw)) == text::words_of(raw),
        starts_quoted(text::trim_of(raw)) == starts_quoted(text::trim_start_of(raw)),
{
    let start = text::trim_start_of(raw);
    let before = text_laws::lemma_trim_start(raw);
    let blank = text_laws::lemma_trim_end(start);
    text_laws::lemma_words_behind_blank(before, start);
    text_laws::lemma_words_before_blank(text::trim_of(raw), blank);
    if text::trim_of(raw).len() == 0 && start.len() > 0 {
        assert(start[0] == blank[0]);
    }
    blank
}

proof fn lemma_quoted_extends(s: Seq<char>, more: Seq<char>)
    ensures
        link_type::quoted_of(s) matches Some((path, rest)) ==> link_type::quoted_of(s + more)
            == Some((path, rest + more)),
        link_type::quoted_of(s) is None && text::is_blank(more) ==> link_type::quoted_of(s + more)
            is None,
    decreases s.len(),
{
    let both = s + more;
    if s.len() == 0 {
        assert(both == more);
        if text::is_blank(more) {
            lemma_quoted_needs_quote(more);
        }
    } else if s[0] == '"' {
        assert(both.skip(1) == s.skip(1) + more);
    } else if s[0] != '\\' {
        lemma_quoted_extends(s.skip(1), more);
        assert(both.skip(1) == s.skip(1) + more);
    } else if s.len() == 1 {
        if text::is_blank(more) && more.len() > 0 {
            assert(both.skip(2) == more.skip(1));
            text_laws::lemma_blank_skip(more, 1);
            lemma_quoted_needs_quote(more.skip(1));
        }
    } else {
        lemma_quoted_extends(s.skip(2), more);
        assert(both.skip(2) == s.skip(2) + more);
    }
}

/// A text is what stands up to the closing quote, and what follows it.
proof fn lemma_up_to_quote(s: Seq<char>, other: Seq<char>) -> (head: Seq<char>)
    requires
        link_type::quoted_of(s) is Some,
    ensures
        s == head + (link_type::quoted_of(s)->0).1,
        link_type::quoted_of(head + other) == Some(((link_type::quoted_of(s)->0).0, other)),
    decreases s.len(),
{
    if s[0] == '"' {
        let head = seq!['"'];
        assert(s == head + s.skip(1));
        assert((head + other).skip(1) == other);
        head
    } else {
        let n: int = if s[0] == '\\' {
            2
        } else {
            1
        };
        let rest = lemma_up_to_quote(s.skip(n), other);
        let head = s.take(n) + rest;
        assert(s == s.take(n) + s.skip(n));
        assert(s == head + (link_type::quoted_of(s)->0).1);
        assert((head + other).skip(n) == rest + other);
        head
    }
}

/// What follows the closing quote has no influence on the path, and comes back untouched: with
/// something else in its place, the same path is read, and that comes back.
pub proof fn law_text_behind_quote_is_untouched(s: Seq<char>, other: Seq<char>) -> (head: Seq<char>)
    requires
        link_type::quoted_path_of(s) is Ok,
    ensures
        ({
            let (path, rest) = link_type::quoted_path_of(s)->Ok_0;
            &&& s == head + rest
            &&& link_type::quoted_path_of(head + other) == Ok::<(Seq<char>, Seq<char>), Seq<char>>(
                (path, other),
            )
        }),
{
    let inner = lemma_up_to_quote(s.skip(1), other);
    let head = seq!['"'] + inner;
    assert(s == seq!['"'] + s.skip(1));
    assert(s == head + (link_type::quoted_path_of(s)->Ok_0).1);
    assert((head + other).skip(1) == inner + other);
    head
}

/// Whether a text starts with a quote.
pub open spec fn starts_quoted(s: Seq<char>) -> bool {
    s.len() > 0 && s[0] == '"'
}

/// The same link as an `include`, for a link that is a `rustdoc_include`.
pub open spec fn as_include(link_type: LinkTypeView) -> LinkTypeView {
    match link_type {
        LinkTypeView::RustdocInclude(file, part) => LinkTypeView::Include(file, part),
        _ => link_type,
    }
}

/// An `include` and a `rustdoc_include` with the same argument ask for the same part of the same
/// file, or fail with the same message.
pub proof fn law_includes_agree(raw: Seq<char>)
    ensures
        link_type::include_of(raw) is Some <==> link_type::rustdoc_include_of(raw) is Some,
        link_type::rustdoc_include_of(raw) matches Some(link_type) ==> link_type::include_of(raw)
            == Some(as_include(link_type)),
{
}

/// All of the links read a quoted path in the same way: they find the same file, or fail with the
/// same message.
pub proof fn law_links_share_quoted_path(raw: Seq<char>)
    requires
        starts_quoted(text::trim_start_of(raw)),
    ensures
        match link_type::quoted_path_of(text::trim_start_of(raw)) {
            Ok((path, _)) => {
                &&& link_type::include_of(raw) is Some
                &&& link_type::rustdoc_include_of(raw) is Some
                &&& link_type::playground_of(raw) is Some
                &&& link_type::file_of(link_type::include_of(raw)->0) == Some(path)
                &&& link_type::file_of(link_type::rustdoc_include_of(raw)->0) == Some(path)
                &&& link_type::file_of(link_type::playground_of(raw)->0) == Some(path)
            },
            Err(message) => {
                &&& message == "unclosed quote in path"@
                &&& link_type::include_of(raw) == Some(LinkTypeView::Invalid(message))
                &&& link_type::rustdoc_include_of(raw) == Some(LinkTypeView::Invalid(message))
                &&& link_type::playground_of(raw) == Some(LinkTypeView::Invalid(message))
            },
        },
{
    let blank = lemma_trimmed(raw);
    let trimmed = text::trim_of(raw);
    lemma_quoted_extends(trimmed.skip(1), blank);
    assert(text::trim_start_of(raw).skip(1) == trimmed.skip(1) + blank);
}

/// A quote that is never closed makes a link invalid, whichever it is.
pub proof fn law_unclosed_quote_is_invalid(raw: Seq<char>)
    requires
        starts_quoted(text::trim_start_of(raw)),
        !text::trim_start_of(raw).skip(1).contains('"'),
    ensures
        ({
            let invalid = Some(LinkTypeView::Invalid("unclosed quote in path"@));
            &&& link_type::include_of(raw) == invalid
            &&& link_type::rustdoc_include_of(raw) == invalid
            &&& link_type::playground_of(raw) == invalid
        }),
{
    lemma_quoted_needs_quote(text::trim_start_of(raw).skip(1));
    law_links_share_quoted_path(raw);
}

/// There is no link exactly where there is nothing but white space for an argument.
pub proof fn law_blank_argument_is_no_link(raw: Seq<char>)
    ensures
        link_type::include_of(raw) is None <==> text::is_blank(raw),
        link_type::rustdoc_include_of(raw) is None <==> text::is_blank(raw),
        link_type::playground_of(raw) is None <==> text::is_blank(raw),
{
    let blank = lemma_trimmed(raw);
    text_laws::lemma_no_words(raw);
    if starts_quoted(text::trim_of(raw)) {
        let before = text_laws::lemma_trim_start(raw);
        assert(raw[before.len() as int] == '"');
    }
}

/// All of the links find the same file for an argument without quotes that has no colon.
pub proof fn law_links_share_plain_path(raw: Seq<char>)
    requires
        !starts_quoted(text::trim_start_of(raw)),
        text::words_of(raw).len() > 0,
        !text::words_of(raw)[0].contains(':'),
    ensures
        ({
            let file = Some(text::words_of(raw)[0]);
            &&& link_type::include_of(raw) is Some
            &&& link_type::rustdoc_include_of(raw) is Some
            &&& link_type::playground_of(raw) is Some
            &&& link_type::file_of(link_type::include_of(raw)->0) == file
            &&& link_type::file_of(link_type::rustdoc_include_of(raw)->0) == file
            &&& link_type::file_of(link_type::playground_of(raw)->0) == file
        }),
{
    let blank = lemma_trimmed(raw);
    let word = text::words_of(raw)[0];
    lemma_no_colon(word);
    assert(word.take(word.len() as int) == word);
}

/// Of an argument without quotes, an `include` and a `rustdoc_include` read the first word alone:
/// white space around it and all further words have no influence. To a `playground`, the further
/// words are properties.
pub proof fn law_first_word_decides(before: Seq<char>, word: Seq<char>, after: Seq<char>)
    requires
        text::is_blank(before),
        word.len() > 0 && word[0] != '"',
        forall|i: int| 0 <= i < word.len() ==> !text::is_white_space(#[trigger] word[i]),
        after.len() > 0 ==> text::is_white_space(after[0]),
    ensures
        link_type::include_of(before + word + after) == link_type::include_of(word),
        link_type::rustdoc_include_of(before + word + after) == link_type::rustdoc_include_of(word),
        link_type::playground_of(before + word + after) == Some(
            LinkTypeView::Playground(word, text::words_of(after)),
        ),
{
    let raw = before + word + after;
    let empty = Seq::<char>::empty();
    assert(raw == before + (word + after));
    text_laws::lemma_trim_start_is(before, word + after);
    text_laws::lemma_trim_start_is(empty, word);
    assert(empty + word == word);
    let blank = lemma_trimmed(raw);
    let no_blank = lemma_trimmed(word);
    text_laws::lemma_words_behind_blank(before, word + after);
    text_laws::lemma_first_word(word, after);
    text_laws::lemma_first_word(word, empty);
    assert(word + empty == word);
    assert(text::words_of(raw)[0] == word);
    assert(text::words_of(word)[0] == word);
    assert(text::words_of(raw).skip(1) == text::words_of(after));
}

proof fn lemma_no_colon(s: Seq<char>)
    requires
        !s.contains(':'),
    ensures
        text::find(s, ':') == s.len(),
{
    assert forall|i: int| 0 <= i < s.len() implies #[trigger] s[i] != ':' by {
        assert(s.contains(s[i]));
    }
    text::lemma_find_is(s, ':', s.len());
}

proof fn lemma_first_colon(before: Seq<char>, after: Seq<char>)
    requires
        !before.contains(':'),
    ensures
        range::before_colon(before + seq![':'] + after) == before,
        range::after_colon(before + seq![':'] + after) == Some(after),
{
    let s = before + seq![':'] + after;
    assert forall|i: int| 0 <= i < before.len() implies #[trigger] s[i] != ':' by {
        assert(before.contains(before[i]));
    }
    text::lemma_find_is(s, ':', before.len());
    assert(s.take(before.len() as int) == before);
    assert(s.skip(before.len() as int + 1) == after);
}

/// What follows a second colon of the part that is asked for has no meaning.
pub proof fn law_further_colons_are_ignored(start: Seq<char>, end: Seq<char>, more: Seq<char>)
    requires
        !start.contains(':'),
        !end.contains(':'),
    ensures
        range::range_or_anchor_of(start + seq![':'] + (end + seq![':'] + more))
            == range::range_or_anchor_of(start + seq![':'] + end),
{
    lemma_first_colon(start, end + seq![':'] + more);
    lemma_first_colon(start, end);
    lemma_first_colon(end, more);
    lemma_no_colon(end);
    assert(end.take(end.len() as int) == end);
}

proof fn lemma_number_has_no_colon(s: Seq<char>)
    requires
        range::number_of(s) is Some,
    ensures
        !s.contains(':'),
{
    let digits = range::without_plus(s);
    assert forall|i: int| 0 <= i < s.len() implies #[trigger] s[i] != ':' by {
        if s[0] == '+' {
            if i > 0 {
                assert(s[i] == digits[i - 1]);
                assert(range::is_digit(digits[i - 1]));
            }
        } else {
            assert(range::is_digit(digits[i]));
        }
    }
}

/// Whether a part is a range of lines in which a line is, counted from 1.
pub open spec fn has_line(part: RangeOrAnchorView, line: nat) -> bool {
    part matches RangeOrAnchorView::Range(lines) && lines.contains((line - 1) as nat)
}

/// `start:end` asks for the lines from `start` to `end`, counted from 1, with both of them.
/// `start` alone asks for that line, `start:` for all the lines from it on, and `:end` for all the
/// lines up to `end`. A start of 0 is taken for 1.
pub proof fn law_lines_of_range(start: Seq<char>, end: Seq<char>, line: nat)
    requires
        range::number_of(start) is Some,
        range::number_of(end) is Some,
        line > 0,
    ensures
        ({
            let number = range::number_of(start)->0;
            let first: nat = if number > 0 {
                number as nat
            } else {
                1
            };
            let last = range::number_of(end)->0;
            let colon = seq![':'];
            &&& has_line(range::range_or_anchor_of(start + colon + end), line) <==> first <= line
                <= last
            &&& has_line(range::range_or_anchor_of(start), line) <==> line == first
            &&& has_line(range::range_or_anchor_of(start + colon), line) <==> first <= line
            &&& has_line(range::range_or_anchor_of(colon + end), line) <==> line <= last
        }),
{
    let empty = Seq::<char>::empty();
    lemma_no_colon(empty);
    assert(empty.take(0) == empty);
    lemma_number_has_no_colon(end);
    lemma_no_colon(end);
    assert(end.take(end.len() as int) == end);
    lemma_first_colon(empty, end);
    assert(empty + seq![':'] + end == seq![':'] + end);
    lemma_number_has_no_colon(start);
    lemma_no_colon(start);
    assert(start.take(start.len() as int) == start);
    lemma_first_colon(start, end);
    lemma_first_colon(start, empty);
    assert(start + seq![':'] + empty == start + seq![':']);
}

/// Nothing asks for all of the lines, and so does a colon alone, or with an end that is no number.
pub proof fn law_no_range_is_all_lines(end: Seq<char>, line: nat)
    requires
        !end.contains(':'),
        range::number_of(end) is None,
        line > 0,
    ensures
        has_line(range::range_or_anchor_of(Seq::empty()), line),
        has_line(range::range_or_anchor_of(seq![':'] + end), line),
{
    let empty = Seq::<char>::empty();
    lemma_no_colon(empty);
    assert(empty.take(0) == empty);
    lemma_no_colon(end);
    assert(end.take(end.len() as int) == end);
    lemma_first_colon(empty, end);
    assert(empty + seq![':'] + end == seq![':'] + end);
}

/// What is neither empty nor a number is an anchor, whatever follows a colon behind it.
pub proof fn law_other_starts_are_anchors(anchor: Seq<char>, more: Seq<char>)
    requires
        !anchor.contains(':'),
        anchor.len() > 0,
        range::number_of(anchor) is None,
    ensures
        range::range_or_anchor_of(anchor) == RangeOrAnchorView::Anchor(anchor),
        range::range_or_anchor_of(anchor + seq![':'] + more) == RangeOrAnchorView::Anchor(anchor),
{
    lemma_no_colon(anchor);
    assert(anchor.take(anchor.len() as int) == anchor);
    lemma_first_colon(anchor, more);
}

/// A number is read digit by digit, up to the greatest `usize`. It may begin with a plus sign. What
/// holds anything else is no number, and neither is what holds no digit.
pub proof fn law_numbers(s: Seq<char>, c: char)
    ensures
        range::number_of(Seq::empty()) is None,
        !('0' <= c <= '9') ==> range::number_of(s.push(c)) is None,
        '0' <= c <= '9' ==> {
            let digit = (c as nat - '0' as nat) as nat;
            &&& range::number_of(seq![c]) == Some(digit as usize)
            &&& range::number_of(seq!['+', c]) == Some(digit as usize)
            &&& range::number_of(s) matches Some(n) ==> range::number_of(s.push(c)) == (if 10 * n
                + digit <= usize::MAX {
                Some((10 * n + digit) as usize)
            } else {
                None
            })
            &&& range::number_of(s) is None && s.len() > 0 && s != seq!['+'] ==> range::number_of(
                s.push(c),
            ) is None
        },
{
    let longer = s.push(c);
    let digits = range::without_plus(s);
    let more = range::without_plus(longer);
    assert(range::without_plus(Seq::empty()) == Seq::<char>::empty());
    if s.len() > 0 {
        assert(more == digits.push(c));
        assert(more.drop_last() == digits);
        assert(more.last() == c);
        if range::number_of(s) is Some {
            assert forall|i: int| 0 <= i < more.len() && '0' <= c <= '9' implies range::is_digit(
                #[trigger] more[i],
            ) by {
                if i < digits.len() {
                    assert(more[i] == digits[i]);
                }
            }
        }
        if range::number_of(longer) is Some {
            assert forall|i: int| 0 <= i < digits.len() implies range::is_digit(
                #[trigger] digits[i],
            ) by {
                assert(more[i] == digits[i]);
            }
            assert(range::is_digit(more[more.len() - 1]));
            if digits.len() == 0 {
                assert(s == seq!['+']);
            }
        }
    } else {
        assert(longer == seq![c]);
        if range::number_of(longer) is Some {
            if c == '+' {
                assert(more == Seq::<char>::empty());
            } else {
                assert(more == longer);
                assert(range::is_digit(more[0]));
            }
        }
    }
    if '0' <= c <= '9' {
        let one = seq![c];
        assert(one.drop_last() == Seq::<char>::empty());
        assert(range::digits_value(Seq::empty()) == 0);
        assert(range::digits_value(one) == (c as nat - '0' as nat) as nat);
        assert(range::without_plus(one) == one);
        assert(range::without_plus(seq!['+', c]) == one);
    }
}

/// What a range of lines is, exactly: `start:end` begins with the line before `start`, counted
/// from 0, and ends before the line `end`. Without an end behind the colon it has none, without a
/// start it begins with the file, and without a colon it is a single line.
pub proof fn law_ranges(start: Seq<char>, end: Seq<char>)
    requires
        !start.contains(':'),
        !end.contains(':'),
    ensures
        range::number_of(start) matches Some(n) ==> {
            let first = if n > 0 {
                (n - 1) as usize
            } else {
                0usize
            };
            &&& range::range_or_anchor_of(start) == RangeOrAnchorView::Range(
                LineRange::Range(Range { start: first, end: (first + 1) as usize }),
            )
            &&& range::number_of(end) matches Some(m) ==> range::range_or_anchor_of(
                start + seq![':'] + end,
            ) == RangeOrAnchorView::Range(LineRange::Range(Range { start: first, end: m }))
            &&& range::number_of(end) is None ==> range::range_or_anchor_of(
                start + seq![':'] + end,
            ) == RangeOrAnchorView::Range(LineRange::RangeFrom(RangeFrom { start: first }))
        },
        range::number_of(end) matches Some(m) ==> range::range_or_anchor_of(seq![':'] + end)
            == RangeOrAnchorView::Range(LineRange::RangeTo(RangeTo { end: m })),
        range::number_of(end) is None ==> range::range_or_anchor_of(seq![':'] + end)
            == RangeOrAnchorView::Range(LineRange::RangeFull(RangeFull)),
        range::range_or_anchor_of(Seq::empty()) == RangeOrAnchorView::Range(
            LineRange::RangeFull(RangeFull),
        ),
{
    let empty = Seq::<char>::empty();
    lemma_no_colon(empty);
    assert(empty.take(0) == empty);
    lemma_no_colon(start);
    assert(start.take(start.len() as int) == start);
    lemma_no_colon(end);
    assert(end.take(end.len() as int) == end);
    lemma_first_colon(start, end);
    lemma_first_colon(empty, end);
    assert(empty + seq![':'] + end == seq![':'] + end);
}

/// What a range of lines starts with and ends before.
pub proof fn law_line_ranges(start: usize, end: usize, line: nat)
    ensures
        LineRange::Range(Range { start, end }).start() == Some(start),
        LineRange::Range(Range { start, end }).end() == Some(end),
        LineRange::RangeFrom(RangeFrom { start }).start() == Some(start),
        LineRange::RangeFrom(RangeFrom { start }).end() == None::<usize>,
        LineRange::RangeTo(RangeTo { end }).start() == None::<usize>,
        LineRange::RangeTo(RangeTo { end }).end() == Some(end),
        LineRange::RangeFull(RangeFull).start() == None::<usize>,
        LineRange::RangeFull(RangeFull).end() == None::<usize>,
        LineRange::Range(Range { start, end }).contains(line) <==> start <= line < end,
        LineRange::RangeFrom(RangeFrom { start }).contains(line) <==> start <= line,
        LineRange::RangeTo(RangeTo { end }).contains(line) <==> line < end,
        LineRange::RangeFull(RangeFull).contains(line),
{
}

/// An argument without quotes is a file and a part, with a colon between them. Any file and any
/// part can be written so, as long as the file has no colon and there is no white space.
pub proof fn law_file_and_part(file: Seq<char>, part: Seq<char>)
    requires
        !file.contains(':'),
        file.len() > 0 ==> file[0] != '"',
        forall|i: int| 0 <= i < file.len() ==> !text::is_white_space(#[trigger] file[i]),
        forall|i: int| 0 <= i < part.len() ==> !text::is_white_space(#[trigger] part[i]),
    ensures
        ({
            let argument = file + seq![':'] + part;
            &&& link_type::include_of(argument) == Some(
                LinkTypeView::Include(file, range::range_or_anchor_of(part)),
            )
            &&& link_type::rustdoc_include_of(argument) == Some(
                LinkTypeView::RustdocInclude(file, range::range_or_anchor_of(part)),
            )
        }),
        file.len() > 0 ==> {
            let whole = RangeOrAnchorView::Range(LineRange::RangeFull(RangeFull));
            &&& link_type::include_of(file) == Some(LinkTypeView::Include(file, whole))
            &&& link_type::rustdoc_include_of(file) == Some(
                LinkTypeView::RustdocInclude(file, whole),
            )
        },
{
    let empty = Seq::<char>::empty();
    let argument = file + seq![':'] + part;
    assert forall|i: int| 0 <= i < argument.len() implies !text::is_white_space(
        #[trigger] argument[i],
    ) by {
        if i < file.len() {
            assert(argument[i] == file[i]);
        } else if i > file.len() {
            assert(argument[i] == part[i - file.len() - 1]);
        }
    }
    lemma_single_word(argument);
    assert(argument[0] != '"');
    lemma_first_colon(file, part);
    if file.len() > 0 {
        lemma_single_word(file);
        lemma_no_colon(file);
        assert(file.take(file.len() as int) == file);
        law_ranges(empty, empty);
    }
}

proof fn lemma_single_word(word: Seq<char>)
    requires
        text_laws::is_word(word),
    ensures
        text::trim_of(word) == word,
        text::words_of(word) == seq![word],
{
    let empty = Seq::<char>::empty();
    assert(empty + word + empty == word);
    text_laws::law_trim(empty, word, empty);
    text_laws::law_words(empty, word, empty);
    assert(seq![word] + text::words_of(empty) == seq![word]);
}

/// How a quoted path is read, character by character: a quote ends it, a backslash before a quote
/// or a backslash stands for that one, and everything else, a backslash before anything else too,
/// for itself. What is wrong with it is said in these words.
pub proof fn law_quoted_characters(s: Seq<char>, c: char, more: Seq<char>)
    ensures
        s.len() == 0 || s[0] != '"' ==> link_type::quoted_path_of(s) == Err::<
            (Seq<char>, Seq<char>),
            Seq<char>,
        >("expected opening quote"@),
        link_type::quoted_path_of(seq!['"', '"'] + more) == Ok::<
            (Seq<char>, Seq<char>),
            Seq<char>,
        >((Seq::empty(), more)),
        link_type::quoted_path_of(seq!['"']) == Err::<(Seq<char>, Seq<char>), Seq<char>>(
            "unclosed quote in path"@,
        ),
        link_type::quoted_path_of(seq!['"', '\\']) == Err::<(Seq<char>, Seq<char>), Seq<char>>(
            "unclosed quote in path"@,
        ),
        match link_type::quoted_path_of(seq!['"'] + more) {
            Ok((path, rest)) => {
                &&& c != '"' && c != '\\' ==> link_type::quoted_path_of(seq!['"', c] + more) == Ok::<
                    (Seq<char>, Seq<char>),
                    Seq<char>,
                >((seq![c] + path, rest))
                &&& c == '"' || c == '\\' ==> link_type::quoted_path_of(seq!['"', '\\', c] + more)
                    == Ok::<(Seq<char>, Seq<char>), Seq<char>>((seq![c] + path, rest))
                &&& c != '"' && c != '\\' ==> link_type::quoted_path_of(seq!['"', '\\', c] + more)
                    == Ok::<(Seq<char>, Seq<char>), Seq<char>>((seq!['\\', c] + path, rest))
            },
            Err(_) => {
                let unclosed = Err::<(Seq<char>, Seq<char>), Seq<char>>("unclosed quote in path"@);
                &&& c != '"' && c != '\\' ==> link_type::quoted_path_of(seq!['"', c] + more)
                    == unclosed
                &&& link_type::quoted_path_of(seq!['"', '\\', c] + more) == unclosed
            },
        },
{
    assert((seq!['"'] + more).skip(1) == more);
    let closed = seq!['"', '"'] + more;
    assert(closed.skip(1)[0] == '"');
    assert(closed.skip(1).skip(1) == more);
    assert(seq!['"'].skip(1) == Seq::<char>::empty());
    let slashed = seq!['"', '\\'];
    assert(slashed.skip(1)[0] == '\\');
    let plain = (seq!['"', c] + more).skip(1);
    assert(plain[0] == c);
    assert(plain.skip(1) == more);
    let escaped = (seq!['"', '\\', c] + more).skip(1);
    assert(escaped[0] == '\\' && escaped[1] == c);
    assert(escaped.skip(2) == more);
}

/// Behind a quoted path, a colon begins the part that is asked for, with or without white space
/// before it. Anything else asks for all of the lines. White space around it all has no influence.
pub proof fn law_quoted_file_and_part(
    before: Seq<char>,
    argument: Seq<char>,
    after: Seq<char>,
    path: Seq<char>,
    gap: Seq<char>,
    rest: Seq<char>,
)
    requires
        text::is_blank(before),
        text::is_blank(after),
        text::is_blank(gap),
        rest.len() > 0 ==> !text::is_white_space(rest[0]),
        argument.len() > 0 && !text::is_white_space(argument.last()),
        link_type::quoted_path_of(argument) == Ok::<(Seq<char>, Seq<char>), Seq<char>>(
            (path, gap + rest),
        ),
    ensures
        ({
            let raw = before + argument + after;
            let part = if rest.len() > 0 && rest[0] == ':' {
                range::range_or_anchor_of(rest.skip(1))
            } else {
                RangeOrAnchorView::Range(LineRange::RangeFull(RangeFull))
            };
            &&& link_type::include_of(raw) == Some(LinkTypeView::Include(path, part))
            &&& link_type::rustdoc_include_of(raw) == Some(LinkTypeView::RustdocInclude(path, part))
        }),
{
    let empty = Seq::<char>::empty();
    text_laws::law_trim(before, argument, after);
    law_ranges(empty, empty);
    assert(text::trim_start_of(gap + rest) == rest) by {
        if rest.len() > 0 {
            text_laws::lemma_trim_start_is(gap, rest);
        } else {
            assert(gap + rest == gap);
            lemma_trim_start_of_blank(gap);
        }
    }
}

proof fn lemma_trim_start_of_blank(blank: Seq<char>)
    requires
        text::is_blank(blank),
    ensures
        text::trim_start_of(blank) == Seq::<char>::empty(),
    decreases blank.len(),
{
    if blank.len() > 0 {
        text_laws::lemma_blank_skip(blank, 1);
        lemma_trim_start_of_blank(blank.skip(1));
    }
}

/// Any file can be quoted, with any part behind it that does not end in white space.
pub proof fn law_escaped_file_and_part(file: Seq<char>, part: Seq<char>)
    requires
        part.len() > 0 ==> !text::is_white_space(part.last()),
    ensures
        ({
            let argument = in_quotes(escaped(file), seq![':'] + part);
            &&& link_type::include_of(argument) == Some(
                LinkTypeView::Include(file, range::range_or_anchor_of(part)),
            )
            &&& link_type::rustdoc_include_of(argument) == Some(
                LinkTypeView::RustdocInclude(file, range::range_or_anchor_of(part)),
            )
        }),
{
    let empty = Seq::<char>::empty();
    let rest = seq![':'] + part;
    let argument = in_quotes(escaped(file), rest);
    law_quoted_path_round_trip(file, rest);
    assert(argument.last() == rest.last());
    assert(rest.last() == (if part.len() > 0 {
        part.last()
    } else {
        ':'
    }));
    assert(empty + rest == rest);
    assert(empty + argument + empty == argument);
    assert(rest.skip(1) == part);
    law_quoted_file_and_part(empty, argument, empty, file, empty, rest);
}

/// Behind the quoted path of a `playground`, every word is a property. White space before it all
/// has no influence.
pub proof fn law_quoted_playground(
    before: Seq<char>,
    argument: Seq<char>,
    path: Seq<char>,
    rest: Seq<char>,
)
    requires
        text::is_blank(before),
        link_type::quoted_path_of(argument) == Ok::<(Seq<char>, Seq<char>), Seq<char>>(
            (path, rest),
        ),
    ensures
        link_type::playground_of(before + argument) == Some(
            LinkTypeView::Playground(path, text::words_of(rest)),
        ),
{
    text_laws::lemma_trim_start_is(before, argument);
}

/// A quoted path that cannot be read makes a link invalid, whichever it is, for the reason that it
/// cannot be read for. White space around it has no influence.
pub proof fn law_quoted_failure(
    before: Seq<char>,
    argument: Seq<char>,
    after: Seq<char>,
    message: Seq<char>,
)
    requires
        text::is_blank(before),
        text::is_blank(after),
        argument.len() > 0,
        argument[0] == '"',
        !text::is_white_space(argument.last()),
        link_type::quoted_path_of(argument) == Err::<(Seq<char>, Seq<char>), Seq<char>>(message),
    ensures
        ({
            let raw = before + argument + after;
            &&& link_type::include_of(raw) == Some(LinkTypeView::Invalid(message))
            &&& link_type::rustdoc_include_of(raw) == Some(LinkTypeView::Invalid(message))
            &&& link_type::playground_of(raw) == Some(LinkTypeView::Invalid(message))
        }),
{
    text_laws::law_trim(before, argument, after);
    assert((argument + after).skip(1) == argument.skip(1) + after);
    lemma_quoted_extends(argument.skip(1), after);
}

/// The file that a link asks for is the one that it names, whatever else it asks for.
pub proof fn law_files(file: Seq<char>, part: RangeOrAnchorView, props: Seq<Seq<char>>)
    ensures
        link_type::file_of(LinkTypeView::Include(file, part)) == Some(file),
        link_type::file_of(LinkTypeView::RustdocInclude(file, part)) == Some(file),
        link_type::file_of(LinkTypeView::Playground(file, props)) == Some(file),
        link_type::file_of(LinkTypeView::Escaped) is None,
        link_type::file_of(LinkTypeView::Title(file)) is None,
        link_type::file_of(LinkTypeView::Invalid(file)) is None,
{
}

} // verus!
