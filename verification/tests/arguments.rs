use links::link_type::{
    parse_include_path, parse_playground_args, parse_quoted_or_plain, parse_quoted_path,
    parse_rustdoc_include_path, LinkType,
};
use links::range::{parse_range_or_anchor, LineRange, RangeOrAnchor};
use std::ops::Bound;

fn anchor(name: &str) -> RangeOrAnchor {
    RangeOrAnchor::Anchor(String::from(name))
}

fn lines<R>(range: R) -> RangeOrAnchor
where
    LineRange: From<R>,
{
    RangeOrAnchor::Range(LineRange::from(range))
}

fn invalid(message: &str) -> Option<LinkType<'static>> {
    Some(LinkType::Invalid(String::from(message)))
}

#[test]
fn every_path_can_be_quoted() {
    assert_eq!(
        parse_quoted_path("\"a \\\"b\\\" \\\\c\" rest"),
        Ok((String::from("a \"b\" \\c"), " rest"))
    );
    assert_eq!(parse_quoted_path("\"\""), Ok((String::new(), "")));
    assert_eq!(parse_quoted_path("\"é\\\\\"ü"), Ok((String::from("é\\"), "ü")));
}

#[test]
fn single_backslashes_are_kept() {
    assert_eq!(
        parse_quoted_path("\"C:\\Users\\name\":1"),
        Ok((String::from("C:\\Users\\name"), ":1"))
    );
}

#[test]
fn path_has_to_start_with_a_quote() {
    assert_eq!(parse_quoted_path("a\""), Err("expected opening quote"));
    assert_eq!(parse_quoted_path(""), Err("expected opening quote"));
    assert_eq!(parse_quoted_path(" \"a\""), Err("expected opening quote"));
}

#[test]
fn quote_has_to_be_closed() {
    for input in ["\"", "\"a", "\"a\\", "\"a\\\"", "\"\\\\\\\""] {
        assert_eq!(parse_quoted_path(input), Err("unclosed quote in path"));
        assert_eq!(parse_include_path(input), invalid("unclosed quote in path"));
        assert_eq!(parse_rustdoc_include_path(input), invalid("unclosed quote in path"));
        assert_eq!(parse_playground_args(input), invalid("unclosed quote in path"));
    }
}

#[test]
fn links_share_a_quoted_path() {
    let path = String::from("a b.rs");
    assert_eq!(
        parse_include_path(" \"a b.rs\" :3: "),
        Some(LinkType::Include(path.clone(), lines(2..)))
    );
    assert_eq!(
        parse_rustdoc_include_path(" \"a b.rs\":3"),
        Some(LinkType::RustdocInclude(path.clone(), lines(2..3)))
    );
    assert_eq!(
        parse_playground_args(" \"a b.rs\" x  y "),
        Some(LinkType::Playground(path, vec!["x", "y"]))
    );
}

#[test]
fn links_share_a_plain_path() {
    let path = String::from("a.rs");
    assert_eq!(parse_include_path("a.rs b"), Some(LinkType::Include(path.clone(), lines(..))));
    assert_eq!(
        parse_rustdoc_include_path("a.rs b"),
        Some(LinkType::RustdocInclude(path.clone(), lines(..)))
    );
    assert_eq!(parse_playground_args("a.rs b"), Some(LinkType::Playground(path, vec!["b"])));
}

#[test]
fn blank_argument_is_no_link() {
    for input in ["", " ", "\t\n\u{3000}"] {
        assert_eq!(parse_include_path(input), None);
        assert_eq!(parse_rustdoc_include_path(input), None);
        assert_eq!(parse_playground_args(input), None);
    }
}

#[test]
fn constructor_makes_the_link() {
    let part_as_title = |file: String, part: RangeOrAnchor| {
        assert_eq!(file, "f");
        assert_eq!(part, anchor("x"));
        LinkType::Title("made")
    };
    assert_eq!(parse_quoted_or_plain(" f:x ", part_as_title), Some(LinkType::Title("made")));
    let never = |_: String, _: RangeOrAnchor| -> LinkType<'static> { unreachable!() };
    assert_eq!(parse_quoted_or_plain("\"f", never), invalid("unclosed quote in path"));
}

#[test]
fn white_space_parts_arguments() {
    for c in '\0'..=char::MAX {
        let apart = format!("a{c}b");
        let around = format!("{c}\"a\"{c}");
        if c.is_whitespace() {
            assert_eq!(
                parse_playground_args(&apart),
                Some(LinkType::Playground(String::from("a"), vec!["b"]))
            );
            assert_eq!(
                parse_include_path(&around),
                Some(LinkType::Include(String::from("a"), lines(..)))
            );
        } else {
            assert_eq!(
                parse_playground_args(&apart),
                Some(LinkType::Playground(apart.clone(), vec![]))
            );
        }
    }
}

#[test]
fn lines_are_counted_from_one() {
    assert_eq!(parse_range_or_anchor(Some("2:4")), lines(1..4));
    assert_eq!(parse_range_or_anchor(Some("2")), lines(1..2));
    assert_eq!(parse_range_or_anchor(Some("2:")), lines(1..));
    assert_eq!(parse_range_or_anchor(Some(":4")), lines(..4));
    assert_eq!(parse_range_or_anchor(Some("4:2")), lines(3..2));
    assert_eq!(parse_range_or_anchor(Some("0")), lines(0..1));
    assert_eq!(parse_range_or_anchor(Some("0:0")), lines(0..0));
}

#[test]
fn no_range_is_all_lines() {
    assert_eq!(parse_range_or_anchor(None), lines(..));
    for part in ["", ":", ":x", "::", "::5"] {
        assert_eq!(parse_range_or_anchor(Some(part)), lines(..));
    }
}

#[test]
fn end_that_is_no_number_is_no_end() {
    assert_eq!(parse_range_or_anchor(Some("5:x")), lines(4..));
    assert_eq!(parse_range_or_anchor(Some("5:-1")), lines(4..));
    assert_eq!(parse_range_or_anchor(Some("5: 6")), lines(4..));
}

#[test]
fn further_colons_are_ignored() {
    assert_eq!(parse_range_or_anchor(Some("1:2:3")), lines(0..2));
    assert_eq!(parse_range_or_anchor(Some("1:2:x:y")), lines(0..2));
    assert_eq!(parse_range_or_anchor(Some("x:2:3")), anchor("x"));
}

#[test]
fn numbers_may_have_a_plus_sign_and_zeros() {
    assert_eq!(parse_range_or_anchor(Some("+5:+7")), lines(4..7));
    assert_eq!(parse_range_or_anchor(Some("007")), lines(6..7));
    for part in ["+", "++5", "-5", "5_0", " 5", "5 ", "0x5", "٣"] {
        assert_eq!(parse_range_or_anchor(Some(part)), anchor(part));
    }
}

#[test]
fn numbers_have_to_fit() {
    let max = format!("{}", usize::MAX);
    assert_eq!(parse_range_or_anchor(Some(&max)), lines(usize::MAX - 1..usize::MAX));
    let beyond = format!("{}", usize::MAX as u128 + 1);
    assert_eq!(parse_range_or_anchor(Some(&beyond)), anchor(&beyond));
    let far_beyond = format!("{}0", usize::MAX);
    assert_eq!(parse_range_or_anchor(Some(&far_beyond)), anchor(&far_beyond));
    let range = format!("1:{beyond}");
    assert_eq!(parse_range_or_anchor(Some(&range)), lines(0..));
}

#[test]
fn line_ranges_have_bounds() {
    let range = LineRange::from(2..5);
    assert_eq!((range.start_bound(), range.end_bound()), (Bound::Included(&2), Bound::Excluded(&5)));
    let range = LineRange::from(2..);
    assert_eq!((range.start_bound(), range.end_bound()), (Bound::Included(&2), Bound::Unbounded));
    let range = LineRange::from(..5);
    assert_eq!((range.start_bound(), range.end_bound()), (Bound::Unbounded, Bound::Excluded(&5)));
    let range = LineRange::from(..);
    assert_eq!((range.start_bound(), range.end_bound()), (Bound::Unbounded, Bound::Unbounded));
}

#[test]
fn parts_of_files_can_be_cloned() {
    for part in [lines(1..2), lines(1..), lines(..2), lines(..), anchor("x")] {
        assert_eq!(part.clone(), part);
    }
}

#[test]
fn text_behind_the_quote_is_untouched() {
    for rest in ["", " a", "\"", "\\", ":1\"x\\"] {
        let input = format!("\"p \\\\q\"{rest}");
        assert_eq!(parse_quoted_path(&input), Ok((String::from("p \\q"), rest)));
    }
}

#[test]
fn first_word_decides() {
    let path = String::from("f");
    for input in ["f:2", " f:2", "\tf:2\n", "f:2 g:3 \"h", "\u{a0}f:2\u{2028}:4"] {
        assert_eq!(parse_include_path(input), Some(LinkType::Include(path.clone(), lines(1..2))));
        assert_eq!(
            parse_rustdoc_include_path(input),
            Some(LinkType::RustdocInclude(path.clone(), lines(1..2)))
        );
    }
    assert_eq!(
        parse_playground_args("\tf:2 g:3  \"h "),
        Some(LinkType::Playground(String::from("f:2"), vec!["g:3", "\"h"]))
    );
}
