use links::link_type::parse_quoted_path;

#[test]
fn escape_semantics_double_backslash() {
    let result = parse_quoted_path(r#""folder\\file.md""#);
    assert!(result.is_ok());
    let (path, _) = result.unwrap();
    assert_eq!(path, String::from(r"folder\file.md"));
}

#[test]
fn escape_semantics_backslash_t_preserves_backslash() {
    let result = parse_quoted_path(r#""path\to\target.md""#);
    assert!(result.is_ok());
    let (path, _) = result.unwrap();
    assert_eq!(path, String::from(r"path\to\target.md"));
    let path_str = path.as_str();
    assert!(
        !path_str.contains('\t'),
        "backslash-t must not become a tab"
    );
    assert!(
        path_str.contains(r"\t"),
        "backslash before 't' must be preserved"
    );
}

#[test]
fn escape_semantics_backslash_n_preserves_backslash() {
    let result = parse_quoted_path(r#""dir\new\file.md""#);
    assert!(result.is_ok());
    let (path, _) = result.unwrap();
    assert_eq!(path, String::from(r"dir\new\file.md"));
    let path_str = path.as_str();
    assert!(
        !path_str.contains('\n'),
        "backslash-n must not become a newline"
    );
    assert!(
        path_str.contains(r"\n"),
        "backslash before 'n' must be preserved"
    );
}

#[test]
fn escape_semantics_backslash_c_preserves_backslash() {
    let result = parse_quoted_path(r#""C:\code\test.md""#);
    assert!(result.is_ok());
    let (path, _) = result.unwrap();
    assert_eq!(path, String::from(r"C:\code\test.md"));
    let path_str = path.as_str();
    assert!(
        path_str.contains(r"\c"),
        "backslash before 'c' must be preserved"
    );
}

#[test]
fn escape_semantics_escaped_quote() {
    let result = parse_quoted_path(r#""file \"name\".md""#);
    assert!(result.is_ok());
    let (path, _) = result.unwrap();
    assert_eq!(path, String::from(r#"file "name".md"#));
}

#[test]
fn escape_semantics_escaped_quote_does_not_close_string() {
    let result = parse_quoted_path(r#""a\"b.md""#);
    assert!(result.is_ok());
    let (path, _) = result.unwrap();
    assert_eq!(path, String::from(r#"a"b.md"#));
}

#[test]
fn escape_semantics_trailing_backslash_is_error() {
    let result = parse_quoted_path(r#""path\""#);
    assert!(
        result.is_err(),
        "trailing backslash must not silently produce a path"
    );
    assert_eq!(result.unwrap_err(), "unclosed quote in path");
}

#[test]
fn escape_semantics_trailing_doubled_backslash_closes() {
    let result = parse_quoted_path(r#""path\\"\"#);
    assert!(result.is_ok());
    let (path, _) = result.unwrap();
    assert_eq!(path, String::from(r"path\"));
}

#[test]
fn escape_semantics_backslash_unicode_preserves_both() {
    let result = parse_quoted_path(r#""\α\β.md""#);
    assert!(result.is_ok());
    let (path, _) = result.unwrap();
    assert_eq!(path, String::from(r"\α\β.md"));
    let path_str = path.as_str();
    assert!(
        path_str.starts_with('\\'),
        "backslash before Unicode must be preserved"
    );
    assert!(
        path_str.contains('α'),
        "Unicode character must be preserved"
    );
    assert!(
        path_str.contains('β'),
        "Unicode character must be preserved"
    );
}

#[test]
fn escape_semantics_backslash_emoji_preserves_both() {
    let result = parse_quoted_path(r#""\🦀\test.md""#);
    assert!(result.is_ok());
    let (path, _) = result.unwrap();
    assert_eq!(path, String::from(r"\🦀\test.md"));
    let path_str = path.as_str();
    assert!(
        path_str.starts_with('\\'),
        "backslash before emoji must be preserved"
    );
    assert!(path_str.contains('🦀'), "emoji must be preserved");
}

#[test]
fn escape_semantics_empty_quotes_yield_empty_path() {
    let result = parse_quoted_path(r#""""#);
    assert!(result.is_ok());
    let (path, _) = result.unwrap();
    assert_eq!(path, String::from(""));
}

#[test]
fn escape_semantics_mixed_escapes_only_defined_sequences() {
    let result = parse_quoted_path(r#""a\\b\tc\nd\\e\"f""#);
    assert!(result.is_ok());
    let (path, _) = result.unwrap();
    assert_eq!(path, String::from(r#"a\b\tc\nd\e"f"#));
    let path_str = path.as_str();
    assert!(!path_str.contains('\t'), r"no tab from \t");
    assert!(!path_str.contains('\n'), r"no newline from \n");
    assert!(path_str.contains(r"\t"), "literal backslash-t preserved");
    assert!(path_str.contains(r"\n"), "literal backslash-n preserved");
    assert!(path_str.contains('"'), "escaped quote became literal quote");
}

#[test]
fn escape_semantics_windows_absolute_path() {
    let result = parse_quoted_path(r#""C:\Users\test\file.md""#);
    assert!(result.is_ok());
    let (path, _) = result.unwrap();
    assert_eq!(path, String::from(r"C:\Users\test\file.md"));
    let path_str = path.as_str();
    assert!(path_str.contains(r"\U"), "backslash before 'U' preserved");
    assert!(path_str.contains(r"\t"), "backslash before 't' preserved");
    assert!(path_str.contains(r"\f"), "backslash before 'f' preserved");
}

#[test]
fn escape_semantics_consecutive_unknown_escapes() {
    let result = parse_quoted_path(r#""\a\b\c\d.md""#);
    assert!(result.is_ok());
    let (path, _) = result.unwrap();
    assert_eq!(path, String::from(r"\a\b\c\d.md"));
    let path_str = path.as_str();
    assert_eq!(
        path_str.matches('\\').count(),
        4,
        "all four backslashes must be preserved for non-defined escapes"
    );
}

#[test]
fn escape_semantics_remaining_input_after_close() {
    let result = parse_quoted_path(r#""path\\file.md":5:10"#);
    assert!(result.is_ok());
    let (path, rest) = result.unwrap();
    assert_eq!(path, String::from(r"path\file.md"));
    assert_eq!(rest, ":5:10");
}

#[test]
fn escape_semantics_escaped_quote_in_middle_preserves_rest() {
    let result = parse_quoted_path(r#""a\"b\\c.md":2:4"#);
    assert!(result.is_ok());
    let (path, rest) = result.unwrap();
    assert_eq!(path, String::from(r#"a"b\c.md"#));
    assert_eq!(rest, ":2:4");
}

#[test]
fn cross_platform_windows_absolute_path() {
    let input = r#""C:\Users\name\file.md""#;
    let swallowed = String::from("C:Usersnamefile.md");
    let correct = String::from(r"C:\Users\name\file.md");
    let (parsed, rest) = parse_quoted_path(input).expect("should parse");
    assert_ne!(parsed, swallowed, "backslashes swallowed");
    assert_eq!(parsed, correct, "backslashes preserved");
    assert_eq!(rest, "");
}

#[test]
fn cross_platform_unix_path_with_spaces() {
    let input = r#""/usr/local/my docs/file.md""#;
    let correct = String::from("/usr/local/my docs/file.md");
    let (parsed, rest) = parse_quoted_path(input).expect("should parse");
    assert_eq!(parsed, correct);
    assert_eq!(rest, "");
}

#[test]
fn cross_platform_mixed_separators() {
    let input = r#""C:/Users/name\docs/file.md""#;
    let swallowed = String::from("C:/Users/namedocs/file.md");
    let correct = String::from(r"C:/Users/name\docs/file.md");
    let (parsed, _) = parse_quoted_path(input).expect("should parse mixed separators");
    assert_ne!(parsed, swallowed, "backslash eaten in mixed path");
    assert_eq!(parsed, correct, "both separators preserved");
}

#[test]
fn cross_platform_colons_in_name() {
    let input = r#""file:with:colons.md""#;
    let correct = String::from("file:with:colons.md");
    let (parsed, rest) = parse_quoted_path(input).expect("should parse colons in quotes");
    assert_eq!(parsed, correct, "colons inside quotes are literal");
    assert_eq!(rest, "", "no trailing range/anchor");
}

#[test]
fn cross_platform_relative_windows_path() {
    let input = r#"".\docs\my file.md""#;
    let swallowed = String::from(".docsmy file.md");
    let correct = String::from(r".\docs\my file.md");
    let (parsed, _) = parse_quoted_path(input).expect("should parse relative Windows path");
    assert_ne!(parsed, swallowed, "relative backslashes eaten");
    assert_eq!(
        parsed, correct,
        "relative backslashes + space preserved"
    );
}

#[test]
fn cross_platform_unicode_cyrillic_path() {
    let input = r#""папка\файл.md""#;
    let swallowed = String::from("папкафайл.md");
    let correct = String::from(r"папка\файл.md");
    let (parsed, _) = parse_quoted_path(input).expect("should parse Cyrillic path");
    assert_ne!(parsed, swallowed, "backslash eaten in Cyrillic path");
    assert_eq!(
        parsed, correct,
        "Cyrillic + backslash preserved"
    );
}

#[test]
fn cross_platform_escaped_quote_inside_path() {
    let input = r#""my\"quoted\file.md""#;
    let swallowed = String::from(r#"my"quotedfile.md"#);
    let correct = String::from(r#"my"quoted\file.md"#);
    let (parsed, _) = parse_quoted_path(input).expect("should parse escaped quote");
    assert_ne!(parsed, swallowed, "trailing backslash eaten");
    assert_eq!(
        parsed, correct,
        "escaped quote + backslash separator"
    );
}

#[test]
fn cross_platform_escaped_backslash_in_path() {
    let input = r#""C:\\Users\\file.md""#;
    let correct = String::from(r"C:\Users\file.md");
    let (parsed, _) = parse_quoted_path(input).expect("should parse escaped backslashes");
    assert_eq!(parsed, correct, "escaped \\\\ -> \\");
}

#[test]
fn cross_platform_quoted_path_with_trailing_range() {
    let input = r#""my docs\file.md":10:20"#;
    let swallowed = String::from("my docsfile.md");
    let correct_path = String::from(r"my docs\file.md");
    let (parsed, rest) = parse_quoted_path(input).expect("should parse quoted path + range");
    assert_ne!(
        parsed, swallowed,
        "backslash eaten before range"
    );
    assert_eq!(parsed, correct_path, "backslash preserved");
    assert_eq!(rest, ":10:20", "range preserved after closing quote");
}
