use links::link::{find_links, Link};
use links::link_type::LinkType;
use links::range::{LineRange, RangeOrAnchor};

#[test]
fn test_find_links_no_link() {
    let s = "Some random text without link...";
    assert!(find_links(s).collect() == vec![]);
}

#[test]
fn test_find_links_partial_link() {
    let s = "Some random text with {{#playground...";
    assert!(find_links(s).collect() == vec![]);
    let s = "Some random text with {{#include...";
    assert!(find_links(s).collect() == vec![]);
    let s = "Some random text with \\{{#include...";
    assert!(find_links(s).collect() == vec![]);
}

#[test]
fn test_find_links_empty_link() {
    let s = "Some random text with {{#playground}} and {{#playground   }} {{}} {{#}}...";
    assert!(find_links(s).collect() == vec![]);
}

#[test]
fn test_find_links_unknown_link_type() {
    let s = "Some random text with {{#playgroundz ar.rs}} and {{#incn}} {{baz}} {{#bar}}...";
    assert!(find_links(s).collect() == vec![]);
}

#[test]
fn test_find_links_simple_link() {
    let s = "Some random text with {{#playground file.rs}} and {{#playground test.rs }}...";

    let res = find_links(s).collect();
    println!("\nOUTPUT: {res:?}\n");

    assert_eq!(
        res,
        vec![
            Link {
                start_index: 22,
                end_index: 45,
                link_type: LinkType::Playground(String::from("file.rs"), vec![]),
                link_text: "{{#playground file.rs}}",
            },
            Link {
                start_index: 50,
                end_index: 74,
                link_type: LinkType::Playground(String::from("test.rs"), vec![]),
                link_text: "{{#playground test.rs }}",
            },
        ]
    );
}

#[test]
fn test_find_links_with_special_characters() {
    let s = "Some random text with {{#playground foo-bar\\baz/_c++.rs}}...";

    let res = find_links(s).collect();
    println!("\nOUTPUT: {res:?}\n");

    assert_eq!(
        res,
        vec![Link {
            start_index: 22,
            end_index: 57,
            link_type: LinkType::Playground(String::from("foo-bar\\baz/_c++.rs"), vec![]),
            link_text: "{{#playground foo-bar\\baz/_c++.rs}}",
        },]
    );
}

#[test]
fn test_find_links_with_range() {
    let s = "Some random text with {{#include file.rs:10:20}}...";
    let res = find_links(s).collect();
    println!("\nOUTPUT: {res:?}\n");
    assert_eq!(
        res,
        vec![Link {
            start_index: 22,
            end_index: 48,
            link_type: LinkType::Include(
                String::from("file.rs"),
                RangeOrAnchor::Range(LineRange::from(9..20))
            ),
            link_text: "{{#include file.rs:10:20}}",
        }]
    );
}

#[test]
fn test_find_links_with_line_number() {
    let s = "Some random text with {{#include file.rs:10}}...";
    let res = find_links(s).collect();
    println!("\nOUTPUT: {res:?}\n");
    assert_eq!(
        res,
        vec![Link {
            start_index: 22,
            end_index: 45,
            link_type: LinkType::Include(
                String::from("file.rs"),
                RangeOrAnchor::Range(LineRange::from(9..10))
            ),
            link_text: "{{#include file.rs:10}}",
        }]
    );
}

#[test]
fn test_find_links_with_from_range() {
    let s = "Some random text with {{#include file.rs:10:}}...";
    let res = find_links(s).collect();
    println!("\nOUTPUT: {res:?}\n");
    assert_eq!(
        res,
        vec![Link {
            start_index: 22,
            end_index: 46,
            link_type: LinkType::Include(
                String::from("file.rs"),
                RangeOrAnchor::Range(LineRange::from(9..))
            ),
            link_text: "{{#include file.rs:10:}}",
        }]
    );
}

#[test]
fn test_find_links_with_to_range() {
    let s = "Some random text with {{#include file.rs::20}}...";
    let res = find_links(s).collect();
    println!("\nOUTPUT: {res:?}\n");
    assert_eq!(
        res,
        vec![Link {
            start_index: 22,
            end_index: 46,
            link_type: LinkType::Include(
                String::from("file.rs"),
                RangeOrAnchor::Range(LineRange::from(..20))
            ),
            link_text: "{{#include file.rs::20}}",
        }]
    );
}

#[test]
fn test_find_links_with_full_range() {
    let s = "Some random text with {{#include file.rs::}}...";
    let res = find_links(s).collect();
    println!("\nOUTPUT: {res:?}\n");
    assert_eq!(
        res,
        vec![Link {
            start_index: 22,
            end_index: 44,
            link_type: LinkType::Include(
                String::from("file.rs"),
                RangeOrAnchor::Range(LineRange::from(..))
            ),
            link_text: "{{#include file.rs::}}",
        }]
    );
}

#[test]
fn test_find_links_with_no_range_specified() {
    let s = "Some random text with {{#include file.rs}}...";
    let res = find_links(s).collect();
    println!("\nOUTPUT: {res:?}\n");
    assert_eq!(
        res,
        vec![Link {
            start_index: 22,
            end_index: 42,
            link_type: LinkType::Include(
                String::from("file.rs"),
                RangeOrAnchor::Range(LineRange::from(..))
            ),
            link_text: "{{#include file.rs}}",
        }]
    );
}

#[test]
fn test_find_links_with_space_in_path() {
    let s = "Some random text with {{#include \"fila a.md\"}}...";
    let res = find_links(s).collect();
    assert_eq!(
        res,
        vec![Link {
            start_index: 22,
            end_index: 46,
            link_type: LinkType::Include(
                String::from("fila a.md"),
                RangeOrAnchor::Range(LineRange::from(..)),
            ),
            link_text: "{{#include \"fila a.md\"}}",
        }]
    );
}

#[test]
fn test_find_links_with_space_in_path_and_range() {
    let s = "Some random text with {{#include \"fila a.md\":1:2}}...";
    let res = find_links(s).collect();
    assert_eq!(
        res,
        vec![Link {
            start_index: 22,
            end_index: 50,
            link_type: LinkType::Include(
                String::from("fila a.md"),
                RangeOrAnchor::Range(LineRange::from(0..2)),
            ),
            link_text: "{{#include \"fila a.md\":1:2}}",
        }]
    );
}

#[test]
fn test_find_links_rustdoc_include_with_space_in_path() {
    let s = "Some random text with {{#rustdoc_include \"fila a.rs\"}}...";
    let res = find_links(s).collect();
    assert_eq!(
        res,
        vec![Link {
            start_index: 22,
            end_index: 54,
            link_type: LinkType::RustdocInclude(
                String::from("fila a.rs"),
                RangeOrAnchor::Range(LineRange::from(..)),
            ),
            link_text: "{{#rustdoc_include \"fila a.rs\"}}",
        }]
    );
}

#[test]
fn test_find_links_rustdoc_include_with_space_in_path_and_range() {
    let s = "Some random text with {{#rustdoc_include \"fila a.rs\":1:5}}...";
    let res = find_links(s).collect();
    assert_eq!(
        res,
        vec![Link {
            start_index: 22,
            end_index: 58,
            link_type: LinkType::RustdocInclude(
                String::from("fila a.rs"),
                RangeOrAnchor::Range(LineRange::from(0..5)),
            ),
            link_text: "{{#rustdoc_include \"fila a.rs\":1:5}}",
        }]
    );
}

#[test]
fn test_find_links_playground_with_space_in_path() {
    let s = "Some random text with {{#playground \"fila a.rs\" editable no_run}}...";
    let res = find_links(s).collect();
    assert_eq!(
        res,
        vec![Link {
            start_index: 22,
            end_index: 65,
            link_type: LinkType::Playground(
                String::from("fila a.rs"),
                vec!["editable", "no_run"],
            ),
            link_text: "{{#playground \"fila a.rs\" editable no_run}}",
        }]
    );
}

#[test]
fn test_find_links_unclosed_quote() {
    let s = "Some random text with {{#include \"unclosed.md}}...";
    let res = find_links(s).collect();
    assert_eq!(
        res,
        vec![Link {
            start_index: 22,
            end_index: 47,
            link_type: LinkType::Invalid("unclosed quote in path".to_string()),
            link_text: "{{#include \"unclosed.md}}",
        }]
    );
}

#[test]
fn test_find_links_with_escaped_quotes_in_path() {
    let s = "Some random text with {{#include \"file \\\"name\\\".md\"}}...";
    let res = find_links(s).collect();
    assert_eq!(
        res,
        vec![Link {
            start_index: 22,
            end_index: 53,
            link_type: LinkType::Include(
                String::from("file \"name\".md"),
                RangeOrAnchor::Range(LineRange::from(..)),
            ),
            link_text: "{{#include \"file \\\"name\\\".md\"}}",
        }]
    );
}

#[test]
fn test_find_links_with_anchor() {
    let s = "Some random text with {{#include file.rs:anchor}}...";
    let res = find_links(s).collect();
    println!("\nOUTPUT: {res:?}\n");
    assert_eq!(
        res,
        vec![Link {
            start_index: 22,
            end_index: 49,
            link_type: LinkType::Include(
                String::from("file.rs"),
                RangeOrAnchor::Anchor(String::from("anchor"))
            ),
            link_text: "{{#include file.rs:anchor}}",
        }]
    );
}

#[test]
fn test_find_links_escaped_link() {
    let s = "Some random text with escaped playground \\{{#playground file.rs editable}} ...";

    let res = find_links(s).collect();
    println!("\nOUTPUT: {res:?}\n");

    assert_eq!(
        res,
        vec![Link {
            start_index: 41,
            end_index: 74,
            link_type: LinkType::Escaped,
            link_text: "\\{{#playground file.rs editable}}",
        }]
    );
}

#[test]
fn test_find_playgrounds_with_properties() {
    let s = "Some random text with escaped playground {{#playground file.rs editable }} and some \
             more\n text {{#playground my.rs editable no_run should_panic}} ...";

    let res = find_links(s).collect();
    println!("\nOUTPUT: {res:?}\n");
    assert_eq!(
        res,
        vec![
            Link {
                start_index: 41,
                end_index: 74,
                link_type: LinkType::Playground(String::from("file.rs"), vec!["editable"]),
                link_text: "{{#playground file.rs editable }}",
            },
            Link {
                start_index: 95,
                end_index: 145,
                link_type: LinkType::Playground(
                    String::from("my.rs"),
                    vec!["editable", "no_run", "should_panic"],
                ),
                link_text: "{{#playground my.rs editable no_run should_panic}}",
            },
        ]
    );
}

#[test]
fn test_find_all_link_types() {
    let s = "Some random text with escaped playground {{#include file.rs}} and \\{{#contents are \
             insignifficant in escaped link}} some more\n text  {{#playground my.rs editable \
             no_run should_panic}} ...";

    let res = find_links(s).collect();
    println!("\nOUTPUT: {res:?}\n");
    assert_eq!(res.len(), 3);
    assert_eq!(
        res[0],
        Link {
            start_index: 41,
            end_index: 61,
            link_type: LinkType::Include(
                String::from("file.rs"),
                RangeOrAnchor::Range(LineRange::from(..))
            ),
            link_text: "{{#include file.rs}}",
        }
    );
    assert_eq!(
        res[1],
        Link {
            start_index: 66,
            end_index: 115,
            link_type: LinkType::Escaped,
            link_text: "\\{{#contents are insignifficant in escaped link}}",
        }
    );
    assert_eq!(
        res[2],
        Link {
            start_index: 133,
            end_index: 183,
            link_type: LinkType::Playground(
                String::from("my.rs"),
                vec!["editable", "no_run", "should_panic"]
            ),
            link_text: "{{#playground my.rs editable no_run should_panic}}",
        }
    );
}
