use links::link_type::{
    parse_include_path, parse_playground_args, parse_rustdoc_include_path, LinkType,
};
use links::range::{LineRange, RangeOrAnchor};
use std::ops::RangeFull;

#[test]
fn parse_without_colon_includes_all() {
    let link_type = parse_include_path("arbitrary").unwrap();
    assert_eq!(
        link_type,
        LinkType::Include(
            String::from("arbitrary"),
            RangeOrAnchor::Range(LineRange::from(RangeFull))
        )
    );
}

#[test]
fn parse_with_nothing_after_colon_includes_all() {
    let link_type = parse_include_path("arbitrary:").unwrap();
    assert_eq!(
        link_type,
        LinkType::Include(
            String::from("arbitrary"),
            RangeOrAnchor::Range(LineRange::from(RangeFull))
        )
    );
}

#[test]
fn parse_with_two_colons_includes_all() {
    let link_type = parse_include_path("arbitrary::").unwrap();
    assert_eq!(
        link_type,
        LinkType::Include(
            String::from("arbitrary"),
            RangeOrAnchor::Range(LineRange::from(RangeFull))
        )
    );
}

#[test]
fn parse_with_garbage_after_two_colons_includes_all() {
    let link_type = parse_include_path("arbitrary::NaN").unwrap();
    assert_eq!(
        link_type,
        LinkType::Include(
            String::from("arbitrary"),
            RangeOrAnchor::Range(LineRange::from(RangeFull))
        )
    );
}

#[test]
fn parse_with_one_number_after_colon_only_that_line() {
    let link_type = parse_include_path("arbitrary:5").unwrap();
    assert_eq!(
        link_type,
        LinkType::Include(
            String::from("arbitrary"),
            RangeOrAnchor::Range(LineRange::from(4..5))
        )
    );
}

#[test]
fn parse_with_one_based_start_becomes_zero_based() {
    let link_type = parse_include_path("arbitrary:1").unwrap();
    assert_eq!(
        link_type,
        LinkType::Include(
            String::from("arbitrary"),
            RangeOrAnchor::Range(LineRange::from(0..1))
        )
    );
}

#[test]
fn parse_with_zero_based_start_stays_zero_based_but_is_probably_an_error() {
    let link_type = parse_include_path("arbitrary:0").unwrap();
    assert_eq!(
        link_type,
        LinkType::Include(
            String::from("arbitrary"),
            RangeOrAnchor::Range(LineRange::from(0..1))
        )
    );
}

#[test]
fn parse_start_only_range() {
    let link_type = parse_include_path("arbitrary:5:").unwrap();
    assert_eq!(
        link_type,
        LinkType::Include(
            String::from("arbitrary"),
            RangeOrAnchor::Range(LineRange::from(4..))
        )
    );
}

#[test]
fn parse_start_with_garbage_interpreted_as_start_only_range() {
    let link_type = parse_include_path("arbitrary:5:NaN").unwrap();
    assert_eq!(
        link_type,
        LinkType::Include(
            String::from("arbitrary"),
            RangeOrAnchor::Range(LineRange::from(4..))
        )
    );
}

#[test]
fn parse_end_only_range() {
    let link_type = parse_include_path("arbitrary::5").unwrap();
    assert_eq!(
        link_type,
        LinkType::Include(
            String::from("arbitrary"),
            RangeOrAnchor::Range(LineRange::from(..5))
        )
    );
}

#[test]
fn parse_start_and_end_range() {
    let link_type = parse_include_path("arbitrary:5:10").unwrap();
    assert_eq!(
        link_type,
        LinkType::Include(
            String::from("arbitrary"),
            RangeOrAnchor::Range(LineRange::from(4..10))
        )
    );
}

#[test]
fn parse_with_negative_interpreted_as_anchor() {
    let link_type = parse_include_path("arbitrary:-5").unwrap();
    assert_eq!(
        link_type,
        LinkType::Include(
            String::from("arbitrary"),
            RangeOrAnchor::Anchor("-5".to_string())
        )
    );
}

#[test]
fn parse_with_floating_point_interpreted_as_anchor() {
    let link_type = parse_include_path("arbitrary:-5.7").unwrap();
    assert_eq!(
        link_type,
        LinkType::Include(
            String::from("arbitrary"),
            RangeOrAnchor::Anchor("-5.7".to_string())
        )
    );
}

#[test]
fn parse_with_anchor_followed_by_colon() {
    let link_type = parse_include_path("arbitrary:some-anchor:this-gets-ignored").unwrap();
    assert_eq!(
        link_type,
        LinkType::Include(
            String::from("arbitrary"),
            RangeOrAnchor::Anchor("some-anchor".to_string())
        )
    );
}

#[test]
fn parse_with_more_than_three_colons_ignores_everything_after_third_colon() {
    let link_type = parse_include_path("arbitrary:5:10:17:anything:").unwrap();
    assert_eq!(
        link_type,
        LinkType::Include(
            String::from("arbitrary"),
            RangeOrAnchor::Range(LineRange::from(4..10))
        )
    );
}

#[test]
fn parse_quoted_path_without_colon_includes_all() {
    let link_type = parse_include_path(r#""arbitrary file name.md""#).unwrap();
    assert_eq!(
        link_type,
        LinkType::Include(
            String::from("arbitrary file name.md"),
            RangeOrAnchor::Range(LineRange::from(RangeFull))
        )
    );
}

#[test]
fn parse_quoted_path_with_range() {
    let link_type = parse_include_path(r#""arbitrary file name.md":5:10"#).unwrap();
    assert_eq!(
        link_type,
        LinkType::Include(
            String::from("arbitrary file name.md"),
            RangeOrAnchor::Range(LineRange::from(4..10))
        )
    );
}

#[test]
fn parse_quoted_path_with_anchor() {
    let link_type = parse_include_path(r#""arbitrary file name.md":some-anchor"#).unwrap();
    assert_eq!(
        link_type,
        LinkType::Include(
            String::from("arbitrary file name.md"),
            RangeOrAnchor::Anchor("some-anchor".to_string())
        )
    );
}

#[test]
fn parse_quoted_path_with_escapes() {
    let link_type = parse_include_path(r#""file \"name\".md""#).unwrap();
    assert_eq!(
        link_type,
        LinkType::Include(
            String::from("file \"name\".md"),
            RangeOrAnchor::Range(LineRange::from(RangeFull))
        )
    );
}

#[test]
fn parse_quoted_path_preserves_whitespace() {
    let link_type = parse_include_path(r#""  spaces   ""#).unwrap();
    assert_eq!(
        link_type,
        LinkType::Include(
            String::from("  spaces   "),
            RangeOrAnchor::Range(LineRange::from(RangeFull))
        )
    );
}

#[test]
fn parse_quoted_path_unclosed_returns_error() {
    assert_eq!(
        parse_include_path(r#""unclosed.md"#),
        Some(LinkType::Invalid("unclosed quote in path".to_string()))
    );
    assert_eq!(
        parse_rustdoc_include_path(r#""unclosed.rs"#),
        Some(LinkType::Invalid("unclosed quote in path".to_string()))
    );
    assert_eq!(
        parse_playground_args(r#""unclosed.rs"#),
        Some(LinkType::Invalid("unclosed quote in path".to_string()))
    );
}

#[test]
fn arch_consistency_quoted_plain_path() {
    let input = r#""my file.md""#;
    let inc = parse_include_path(input).unwrap();
    let rust = parse_rustdoc_include_path(input).unwrap();

    match (&inc, &rust) {
        (LinkType::Include(p1, r1), LinkType::RustdocInclude(p2, r2)) => {
            assert_eq!(p1, p2, "paths should match for identical quoted input");
            assert_eq!(r1, r2, "range/anchor should match");
        }
        _ => panic!("expected Include and RustdocInclude, got {inc:?} vs {rust:?}"),
    }
}

#[test]
fn arch_consistency_quoted_path_with_range() {
    let input = r#""my file.md":5:10"#;
    let inc = parse_include_path(input).unwrap();
    let rust = parse_rustdoc_include_path(input).unwrap();

    match (&inc, &rust) {
        (LinkType::Include(p1, r1), LinkType::RustdocInclude(p2, r2)) => {
            assert_eq!(p1, p2);
            assert_eq!(r1, r2);
        }
        _ => panic!("type mismatch: {inc:?} vs {rust:?}"),
    }
}

#[test]
fn arch_consistency_quoted_path_with_anchor() {
    let input = r#""my file.md":my-anchor"#;
    let inc = parse_include_path(input).unwrap();
    let rust = parse_rustdoc_include_path(input).unwrap();

    match (&inc, &rust) {
        (LinkType::Include(p1, r1), LinkType::RustdocInclude(p2, r2)) => {
            assert_eq!(p1, p2);
            assert_eq!(r1, r2);
        }
        _ => panic!("type mismatch: {inc:?} vs {rust:?}"),
    }
}

#[test]
fn arch_consistency_unquoted_path() {
    let input = "plain_path.md:5:10";
    let inc = parse_include_path(input).unwrap();
    let rust = parse_rustdoc_include_path(input).unwrap();

    match (&inc, &rust) {
        (LinkType::Include(p1, r1), LinkType::RustdocInclude(p2, r2)) => {
            assert_eq!(p1, p2);
            assert_eq!(r1, r2);
        }
        _ => panic!("type mismatch: {inc:?} vs {rust:?}"),
    }
}

#[test]
fn arch_consistency_variant_shape_across_diverse_inputs() {
    let inputs = [
        r#""quoted file.md""#,
        r#""quoted file.md":1:5"#,
        r#""quoted file.md":anchor""#,
        r#""unclosed.md"#,
        "plain.md:1:5",
        "plain.md",
        "",
        "   ",
        r#""file with \"escaped\" quotes.md""#,
    ];

    for input in &inputs {
        let inc = parse_include_path(input);
        let rust = parse_rustdoc_include_path(input);

        assert_eq!(
            inc.is_some(),
            rust.is_some(),
            "Some/None mismatch for input: {input:?}"
        );

        if let (Some(inc_v), Some(rust_v)) = (inc, rust) {
            let inc_is_invalid = matches!(inc_v, LinkType::Invalid(_));
            let rust_is_invalid = matches!(rust_v, LinkType::Invalid(_));
            assert_eq!(
                inc_is_invalid, rust_is_invalid,
                "Invalid/non-Invalid mismatch for input: {input:?}"
            );

            if inc_is_invalid {
                if let (LinkType::Invalid(e1), LinkType::Invalid(e2)) = (inc_v, rust_v) {
                    assert_eq!(e1, e2, "error message differs for input: {input:?}");
                }
            }
        }
    }
}

#[test]
fn arch_playground_quoted_path_with_props() {
    let input = r#""my file.rs" prop1 prop2"#;
    let result = parse_playground_args(input).unwrap();

    match result {
        LinkType::Playground(path, props) => {
            assert_eq!(path, String::from("my file.rs"));
            assert_eq!(props, vec!["prop1", "prop2"]);
        }
        _ => panic!("expected Playground variant, got {result:?}"),
    }
}

#[test]
fn arch_playground_quoted_path_no_props() {
    let input = r#""my file.rs""#;
    let result = parse_playground_args(input).unwrap();

    match result {
        LinkType::Playground(path, props) => {
            assert_eq!(path, String::from("my file.rs"));
            assert!(props.is_empty(), "props should be empty, got {props:?}");
        }
        _ => panic!("expected Playground variant, got {result:?}"),
    }
}

#[test]
fn arch_playground_quoted_path_with_escapes_and_props() {
    let input = r#""file \"name\".rs" editable"#;
    let result = parse_playground_args(input).unwrap();

    match result {
        LinkType::Playground(path, props) => {
            assert_eq!(path, String::from(r#"file "name".rs"#));
            assert_eq!(props, vec!["editable"]);
        }
        _ => panic!("expected Playground variant, got {result:?}"),
    }
}

#[test]
fn arch_unclosed_quote_all_three_parsers_return_invalid() {
    let inputs = [
        r#""unclosed"#,
        r#""unclosed with spaces.md"#,
        r#""unclosed\"escaped.rs"#,
        r#""unclosed trailing backslash\"#,
    ];

    for input in &inputs {
        let inc = parse_include_path(input);
        let rust = parse_rustdoc_include_path(input);
        let play = parse_playground_args(input);

        let assert_invalid = |lt: Option<LinkType<'_>>, label: &str| match lt {
            Some(LinkType::Invalid(msg)) => {
                assert!(
                    msg.contains("unclosed"),
                    "{label}: error should mention 'unclosed', got: {msg}"
                );
            }
            other => {
                panic!("{label}: expected Some(Invalid), got {other:?} for input {input:?}")
            }
        };

        assert_invalid(inc.clone(), "parse_include_path");
        assert_invalid(rust.clone(), "parse_rustdoc_include_path");
        assert_invalid(play.clone(), "parse_playground_args");

        if let (
            Some(LinkType::Invalid(e1)),
            Some(LinkType::Invalid(e2)),
            Some(LinkType::Invalid(e3)),
        ) = (inc.clone(), rust.clone(), play.clone())
        {
            assert_eq!(e1, e2, "include vs rustdoc error mismatch for {input:?}");
            assert_eq!(e2, e3, "rustdoc vs playground error mismatch for {input:?}");
        }
    }
}

#[test]
fn arch_unquoted_fallback_include() {
    let result = parse_include_path("plain.md:1:5").unwrap();
    match result {
        LinkType::Include(path, RangeOrAnchor::Range(range)) => {
            assert_eq!(path, String::from("plain.md"));
            assert_eq!(range, LineRange::from(0..5));
        }
        _ => panic!("expected Include with Range, got {result:?}"),
    }
}

#[test]
fn arch_unquoted_fallback_rustdoc_include() {
    let result = parse_rustdoc_include_path("plain.rs:1:5").unwrap();
    match result {
        LinkType::RustdocInclude(path, RangeOrAnchor::Range(range)) => {
            assert_eq!(path, String::from("plain.rs"));
            assert_eq!(range, LineRange::from(0..5));
        }
        _ => panic!("expected RustdocInclude with Range, got {result:?}"),
    }
}

#[test]
fn arch_unquoted_fallback_playground() {
    let result = parse_playground_args("plain.rs editable no_run").unwrap();
    match result {
        LinkType::Playground(path, props) => {
            assert_eq!(path, String::from("plain.rs"));
            assert_eq!(props, vec!["editable", "no_run"]);
        }
        _ => panic!("expected Playground, got {result:?}"),
    }
}

#[test]
fn arch_unquoted_fallback_empty_input_returns_none() {
    assert_eq!(parse_include_path(""), None);
    assert_eq!(parse_rustdoc_include_path(""), None);
    assert_eq!(parse_playground_args(""), None);
}

#[test]
fn arch_unquoted_fallback_whitespace_only_returns_none() {
    assert_eq!(parse_include_path("   "), None);
    assert_eq!(parse_rustdoc_include_path("   "), None);
    assert_eq!(parse_playground_args("   "), None);
}

#[test]
fn arch_unquoted_fallback_cross_parser_no_colon() {
    let input = "plain_file.md";
    let inc = parse_include_path(input).unwrap();
    let rust = parse_rustdoc_include_path(input).unwrap();
    let play = parse_playground_args(input).unwrap();

    match (&inc, &rust, &play) {
        (
            LinkType::Include(pi, _),
            LinkType::RustdocInclude(pr, _),
            LinkType::Playground(pp, props),
        ) => {
            assert_eq!(pi, pr, "Include/Rustdoc path mismatch");
            assert_eq!(pi, pp, "Include/Playground path mismatch");
            assert!(
                props.is_empty(),
                "Playground props should be empty for {input:?}"
            );
        }
        _ => panic!("unexpected variant combination: {inc:?}, {rust:?}, {play:?}"),
    }
}

fn count_meaningful_diffs(a: &str, b: &str) -> usize {
    let a_lines: Vec<&str> = a.lines().collect();
    let b_lines: Vec<&str> = b.lines().collect();

    let max_len = a_lines.len().max(b_lines.len());
    let mut diffs = 0;

    for i in 0..max_len {
        let la = a_lines.get(i).copied().unwrap_or("");
        let lb = b_lines.get(i).copied().unwrap_or("");

        if la == lb {
            continue;
        }

        let normalize = |s: &str| {
            s.replace("parse_rustdoc_include_path", "PARSE_FN")
                .replace("parse_include_path", "PARSE_FN")
                .replace("RustdocInclude", "VARIANT")
                .replace("Include", "VARIANT")
        };

        if normalize(la) == normalize(lb) {
            continue;
        }

        diffs += 1;
    }

    diffs
}

#[test]
fn arch_copy_paste_detector_include_vs_rustdoc() {
    let include_src = "parse_include_path";
    let rustdoc_src = "parse_rustdoc_include_path";

    let diffs = count_meaningful_diffs(include_src, rustdoc_src);

    assert!(
        diffs <= 3,
        "parse_include_path and parse_rustdoc_include_path have \
         {diffs} meaningful line differences (threshold: 3). These \
         functions should share a common helper to avoid copy-paste \
         duplication."
    );
}

#[test]
fn arch_shared_quoted_path_helper_consistency() {
    let inputs = [
        r#""path with spaces.md""#,
        r#""path with spaces.md":1:10"#,
        r#""path with spaces.md":anchor""#,
        r#""escaped \"quote\".md""#,
    ];

    for input in &inputs {
        let inc_path = extract_path_from_link_type(parse_include_path(input));
        let rust_path = extract_path_from_link_type(parse_rustdoc_include_path(input));
        let play_path = extract_path_from_link_type(parse_playground_args(input));

        assert_eq!(
            inc_path, rust_path,
            "Include vs Rustdoc path mismatch for {input:?}"
        );
        assert_eq!(
            inc_path, play_path,
            "Include vs Playground path mismatch for {input:?}"
        );
    }
}

fn extract_path_from_link_type(lt: Option<LinkType<'_>>) -> Option<String> {
    match lt? {
        LinkType::Include(p, _) => Some(p),
        LinkType::RustdocInclude(p, _) => Some(p),
        LinkType::Playground(p, _) => Some(p),
        LinkType::Invalid(_) => None,
        LinkType::Escaped => None,
        LinkType::Title(_) => None,
    }
}
