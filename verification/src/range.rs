//! The part of a file that a link asks for: a range of lines, or what an anchor marks.
use vstd::prelude::*;

use crate::text;

use std::ops::{Bound, Range, RangeFrom, RangeFull, RangeTo};

verus! {

/// `std::ops::RangeFrom`, with its public field.
#[verifier::external_type_specification]
#[verifier::reject_recursive_types(Idx)]
pub struct ExRangeFrom<Idx>(RangeFrom<Idx>);

/// `std::ops::RangeTo`, with its public field.
#[verifier::external_type_specification]
#[verifier::reject_recursive_types(Idx)]
pub struct ExRangeTo<Idx>(RangeTo<Idx>);

/// `std::ops::RangeFull`, which has no field.
#[verifier::external_type_specification]
pub struct ExRangeFull(RangeFull);

/// `std::ops::Bound`, with its public variants.
#[verifier::external_type_specification]
#[verifier::reject_recursive_types(T)]
pub struct ExBound<T>(Bound<T>);

/// A range of lines specified with some include directive. The first line of a file is line 0.
#[derive(PartialEq, Debug)]
pub enum LineRange {
    Range(Range<usize>),
    RangeFrom(RangeFrom<usize>),
    RangeTo(RangeTo<usize>),
    RangeFull(RangeFull),
}

/// The part of a file that a link asks for.
#[derive(PartialEq, Debug)]
pub enum RangeOrAnchor {
    Range(LineRange),
    Anchor(String),
}

/// What a [`RangeOrAnchor`] stands for.
pub enum RangeOrAnchorView {
    Range(LineRange),
    Anchor(Seq<char>),
}

impl View for RangeOrAnchor {
    type V = RangeOrAnchorView;

    open spec fn view(&self) -> RangeOrAnchorView {
        match self {
            RangeOrAnchor::Range(range) => RangeOrAnchorView::Range(*range),
            RangeOrAnchor::Anchor(anchor) => RangeOrAnchorView::Anchor(anchor@),
        }
    }
}

impl Clone for LineRange {
    fn clone(&self) -> (res: LineRange)
        ensures
            res == *self,
    {
        match self {
            LineRange::Range(r) => LineRange::Range(r.start..r.end),
            LineRange::RangeFrom(r) => LineRange::RangeFrom(r.start..),
            LineRange::RangeTo(r) => LineRange::RangeTo(..r.end),
            LineRange::RangeFull(_) => LineRange::RangeFull(..),
        }
    }
}

impl Clone for RangeOrAnchor {
    fn clone(&self) -> (res: RangeOrAnchor)
        ensures
            res@ == self@,
    {
        match self {
            RangeOrAnchor::Range(range) => RangeOrAnchor::Range(range.clone()),
            RangeOrAnchor::Anchor(anchor) => RangeOrAnchor::Anchor(anchor.clone()),
        }
    }
}

impl LineRange {
    /// The first line of the range.
    pub open spec fn start(self) -> Option<usize> {
        match self {
            LineRange::Range(r) => Some(r.start),
            LineRange::RangeFrom(r) => Some(r.start),
            LineRange::RangeTo(_) => None,
            LineRange::RangeFull(_) => None,
        }
    }

    /// The line after the last one of the range.
    pub open spec fn end(self) -> Option<usize> {
        match self {
            LineRange::Range(r) => Some(r.end),
            LineRange::RangeFrom(_) => None,
            LineRange::RangeTo(r) => Some(r.end),
            LineRange::RangeFull(_) => None,
        }
    }

    /// Whether a line, counted from 0, is in the range.
    pub open spec fn contains(self, line: nat) -> bool {
        &&& self.start() matches Some(start) ==> start <= line
        &&& self.end() matches Some(end) ==> line < end
    }

    /// Where the range starts: with a line, or with the file.
    pub fn start_bound(&self) -> (res: Bound<&usize>)
        ensures
            res == (match self.start() {
                Some(start) => Bound::Included(&start),
                None => Bound::Unbounded,
            }),
    {
        match self {
            LineRange::Range(r) => Bound::Included(&r.start),
            LineRange::RangeFrom(r) => Bound::Included(&r.start),
            LineRange::RangeTo(_) => Bound::Unbounded,
            LineRange::RangeFull(_) => Bound::Unbounded,
        }
    }

    /// Where the range ends: before a line, or with the file.
    pub fn end_bound(&self) -> (res: Bound<&usize>)
        ensures
            res == (match self.end() {
                Some(end) => Bound::Excluded(&end),
                None => Bound::Unbounded,
            }),
    {
        match self {
            LineRange::Range(r) => Bound::Excluded(&r.end),
            LineRange::RangeFrom(_) => Bound::Unbounded,
            LineRange::RangeTo(r) => Bound::Excluded(&r.end),
            LineRange::RangeFull(_) => Bound::Unbounded,
        }
    }
}

impl From<Range<usize>> for LineRange {
    fn from(r: Range<usize>) -> (res: LineRange) {
        LineRange::Range(r)
    }
}

impl vstd::std_specs::convert::FromSpecImpl<Range<usize>> for LineRange {
    open spec fn obeys_from_spec() -> bool {
        true
    }

    open spec fn from_spec(r: Range<usize>) -> LineRange {
        LineRange::Range(r)
    }
}

impl From<RangeFrom<usize>> for LineRange {
    fn from(r: RangeFrom<usize>) -> (res: LineRange) {
        LineRange::RangeFrom(r)
    }
}

impl vstd::std_specs::convert::FromSpecImpl<RangeFrom<usize>> for LineRange {
    open spec fn obeys_from_spec() -> bool {
        true
    }

    open spec fn from_spec(r: RangeFrom<usize>) -> LineRange {
        LineRange::RangeFrom(r)
    }
}

impl From<RangeTo<usize>> for LineRange {
    fn from(r: RangeTo<usize>) -> (res: LineRange) {
        LineRange::RangeTo(r)
    }
}

impl vstd::std_specs::convert::FromSpecImpl<RangeTo<usize>> for LineRange {
    open spec fn obeys_from_spec() -> bool {
        true
    }

    open spec fn from_spec(r: RangeTo<usize>) -> LineRange {
        LineRange::RangeTo(r)
    }
}

impl From<RangeFull> for LineRange {
    fn from(r: RangeFull) -> (res: LineRange) {
        LineRange::RangeFull(r)
    }
}

impl vstd::std_specs::convert::FromSpecImpl<RangeFull> for LineRange {
    open spec fn obeys_from_spec() -> bool {
        true
    }

    open spec fn from_spec(r: RangeFull) -> LineRange {
        LineRange::RangeFull(r)
    }
}

/// Whether a character is a decimal digit.
pub open spec fn is_digit(c: char) -> bool {
    '0' <= c <= '9'
}

/// The number that a sequence of decimal digits denotes.
pub open spec fn digits_value(s: Seq<char>) -> nat
    decreases s.len(),
{
    if s.len() == 0 {
        0
    } else {
        10 * digits_value(s.drop_last()) + (s.last() as nat - '0' as nat) as nat
    }
}

/// A text without the plus sign that a number may begin with.
pub open spec fn without_plus(s: Seq<char>) -> Seq<char> {
    if s.len() > 0 && s[0] == '+' {
        s.skip(1)
    } else {
        s
    }
}

/// The number that a text denotes: decimal digits, after a plus sign or not, for a `usize`.
pub open spec fn number_of(s: Seq<char>) -> Option<usize> {
    let digits = without_plus(s);
    if digits.len() > 0 && (forall|i: int| 0 <= i < digits.len() ==> is_digit(#[trigger] digits[i]))
        && digits_value(digits) <= usize::MAX {
        Some(digits_value(digits) as usize)
    } else {
        None
    }
}

/// What stands before the first colon: all of the text where there is none.
pub open spec fn before_colon(s: Seq<char>) -> Seq<char> {
    s.take(text::find(s, ':') as int)
}

/// What stands behind the first colon, if there is one.
pub open spec fn after_colon(s: Seq<char>) -> Option<Seq<char>> {
    if text::find(s, ':') < s.len() {
        Some(s.skip(text::find(s, ':') as int + 1))
    } else {
        None
    }
}

/// The lines from `start`, which is counted from 1 (0 is taken for 1), to `end`. Of the end, the
/// outer `None` says that none was given, the inner one that what was given is no number.
pub open spec fn line_range_of(start: Option<usize>, end: Option<Option<usize>>) -> LineRange {
    let first: Option<usize> = match start {
        Some(n) => Some(if n > 0 { (n - 1) as usize } else { 0 }),
        None => None,
    };
    match (first, end) {
        (Some(first), Some(Some(end))) => LineRange::Range(Range { start: first, end }),
        (Some(first), Some(None)) => LineRange::RangeFrom(RangeFrom { start: first }),
        (Some(first), None) => LineRange::Range(Range { start: first, end: (first + 1) as usize }),
        (None, Some(Some(end))) => LineRange::RangeTo(RangeTo { end }),
        (None, _) => LineRange::RangeFull(RangeFull),
    }
}

/// The part of a file that `start:end` or `anchor` asks for. A start that is neither a number nor
/// empty is an anchor. What follows a further colon has no meaning.
pub open spec fn range_or_anchor_of(s: Seq<char>) -> RangeOrAnchorView {
    let start = before_colon(s);
    if number_of(start) is None && start.len() > 0 {
        RangeOrAnchorView::Anchor(start)
    } else {
        let end = match after_colon(s) {
            Some(rest) => Some(number_of(before_colon(rest))),
            None => None,
        };
        RangeOrAnchorView::Range(line_range_of(number_of(start), end))
    }
}

proof fn lemma_digits_value_grows(s: Seq<char>, n: int)
    requires
        0 <= n <= s.len(),
        forall|i: int| 0 <= i < s.len() ==> is_digit(#[trigger] s[i]),
    ensures
        digits_value(s.take(n)) <= digits_value(s),
    decreases s.len() - n,
{
    if n < s.len() {
        lemma_digits_value_grows(s, n + 1);
        assert(s.take(n + 1).drop_last() == s.take(n));
    } else {
        assert(s.take(n) == s);
    }
}

/// Reads a number: decimal digits, after a plus sign or not, for a `usize`.
pub(crate) fn parse_number(s: &str) -> (res: Option<usize>)
    ensures
        res == number_of(s@),
{
    let chars = text::to_chars(s);
    let mut i: usize = 0;
    if chars.len() > 0 && chars[0] == '+' {
        i = 1;
    }
    let from: usize = i;
    let ghost digits = without_plus(s@);
    if i == chars.len() {
        return None;
    }
    let mut value: usize = 0;
    while i < chars.len()
        invariant
            chars@ == s@,
            digits == without_plus(s@),
            digits == s@.skip(from as int),
            from <= i <= chars.len(),
            forall|k: int| 0 <= k < i - from ==> is_digit(#[trigger] digits[k]),
            value == digits_value(digits.take(i - from)),
        decreases chars.len() - i,
    {
        let c = chars[i];
        let ghost n = i - from;
        assert(digits[n] == c);
        assert(digits.take(n + 1).drop_last() == digits.take(n));
        if c < '0' || c > '9' {
            return None;
        }
        let digit: usize = c as usize - '0' as usize;
        assert(digits_value(digits.take(n + 1)) == 10 * value + digit);
        proof {
            if forall|k: int| 0 <= k < digits.len() ==> is_digit(#[trigger] digits[k]) {
                lemma_digits_value_grows(digits, n + 1);
            }
        }
        if value > (usize::MAX - digit) / 10 {
            return None;
        }
        value = value * 10 + digit;
        i = i + 1;
    }
    assert(digits.take(i - from) == digits);
    Some(value)
}

/// Splits a string at its first colon.
pub(crate) fn split_colon<'a>(s: &'a str) -> (res: (&'a str, Option<&'a str>))
    ensures
        res.0@ == before_colon(s@),
        res.1 is Some <==> after_colon(s@) is Some,
        res.1 matches Some(rest) ==> after_colon(s@) == Some(rest@),
{
    let chars = text::to_chars(s);
    let colon = text::find_char(&chars, 0, ':');
    assert(s@.skip(0) == s@);
    let before = s.substring_char(0, colon);
    if colon < chars.len() {
        (before, Some(text::skip_chars(s, colon + 1)))
    } else {
        (before, None)
    }
}

/// Reads the part of a link that says which lines it asks for: nothing, `start`, `start:end`,
/// `start:`, `:end`, `:` or `anchor`.
pub fn parse_range_or_anchor(parts: Option<&str>) -> (res: RangeOrAnchor)
    ensures
        res@ == range_or_anchor_of(match parts {
            Some(text) => text@,
            None => Seq::empty(),
        }),
{
    let text = match parts {
        Some(text) => text,
        None => {
            proof {
                reveal_strlit("");
                assert(""@ == Seq::<char>::empty());
            }
            ""
        },
    };
    let (first, rest) = split_colon(text);
    let number = parse_number(first);
    if number.is_none() && !first.is_empty() {
        return RangeOrAnchor::Anchor(first.to_owned());
    }
    // If the end is an empty string or any other value that is no number, this is a range with
    // only a start bound. However, if the end isn't specified, include only the single line
    // specified by the start.
    let end = match rest {
        Some(rest) => Some(parse_number(split_colon(rest).0)),
        None => None,
    };
    // subtract 1 since line numbers usually begin with 1
    let start = match number {
        Some(value) => Some(if value > 0 { value - 1 } else { 0 }),
        None => None,
    };
    match (start, end) {
        (Some(start), Some(Some(end))) => RangeOrAnchor::Range(LineRange::from(start..end)),
        (Some(start), Some(None)) => RangeOrAnchor::Range(LineRange::from(start..)),
        (Some(start), None) => RangeOrAnchor::Range(LineRange::from(start..start + 1)),
        (None, Some(Some(end))) => RangeOrAnchor::Range(LineRange::from(..end)),
        (None, Some(None)) => RangeOrAnchor::Range(LineRange::from(RangeFull)),
        (None, None) => RangeOrAnchor::Range(LineRange::from(RangeFull)),
    }
}

} // verus!
