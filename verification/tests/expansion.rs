use links::expand::{replace_all, replace_links, Expansion, Replies, Report};
use links::link::{Link, Renamed};
use links::link_type::LinkType;
use links::range::{LineRange, RangeOrAnchor};
use links::render::{Excerpt, RenderError, Request};

type Answer = Result<String, Vec<String>>;

fn causes() -> Vec<String> {
    vec![String::from("failed to read"), String::from("not found")]
}

fn answers(contents: &[Option<&str>]) -> Vec<Answer> {
    contents.iter().map(|content| content.map(String::from).ok_or_else(causes)).collect()
}

fn expand_reporting(
    depth: usize,
    s: &str,
    path: &str,
    contents: &[Option<&str>],
) -> (Expansion, String, Vec<Report>) {
    let contents = answers(contents);
    let mut title = String::from("Name");
    let mut reports = vec![];
    let mut replies = Replies::new(&contents);
    let expansion = replace_all(s, path, depth, &mut title, &mut replies, &mut reports);
    (expansion, title, reports)
}

fn expand_at(depth: usize, s: &str, path: &str, contents: &[Option<&str>]) -> (Expansion, String) {
    let (expansion, title, _) = expand_reporting(depth, s, path, contents);
    (expansion, title)
}

fn expand(s: &str, path: &str, contents: &[Option<&str>]) -> Expansion {
    expand_at(0, s, path, contents).0
}

fn done(content: &str) -> Expansion {
    Expansion::Done(String::from(content))
}

fn read(path: &str, excerpt: Excerpt) -> Expansion {
    Expansion::Read(Request { path: String::from(path), excerpt })
}

fn all_lines() -> RangeOrAnchor {
    RangeOrAnchor::Range(LineRange::from(..))
}

#[test]
fn text_without_links_is_unchanged() {
    for s in ["", "plain", "one { two { three", "{{ no link }}", "{{#unknown kind}}", "é\r\n{{"] {
        assert_eq!(expand(s, "dir", &[]), done(s));
    }
}

#[test]
fn include_asks_for_its_lines() {
    let range = RangeOrAnchor::Range(LineRange::from(1..3));
    assert_eq!(
        expand("a {{#include file.md:2:3}} b", "dir", &[]),
        read("dir/file.md", Excerpt::Part(range))
    );
}

#[test]
fn include_asks_for_its_anchor() {
    let anchor = RangeOrAnchor::Anchor(String::from("mark"));
    assert_eq!(
        expand("{{#include sub/file.md:mark}}", "dir", &[]),
        read("dir/sub/file.md", Excerpt::Part(anchor))
    );
}

#[test]
fn rustdoc_include_asks_for_a_shown_part() {
    let range = RangeOrAnchor::Range(LineRange::from(4..));
    assert_eq!(
        expand("{{#rustdoc_include file.rs:5:}}", "", &[]),
        read("file.rs", Excerpt::RustdocPart(range))
    );
}

#[test]
fn playground_asks_for_the_whole_file() {
    assert_eq!(expand("{{#playground file.rs:2}}", "dir", &[]), read("dir/file.rs:2", Excerpt::Whole));
}

#[test]
fn absolute_path_is_not_joined() {
    assert_eq!(
        expand("{{#include /abs/file.md}}", "dir", &[]),
        read("/abs/file.md", Excerpt::Part(all_lines()))
    );
}

#[test]
fn single_link_is_replaced() {
    assert_eq!(expand("a {{#include f.md}} b", "dir", &[Some("content")]), done("a content b"));
    assert_eq!(expand("é{{#include f.md}}ü", "dir", &[Some("ß")]), done("éßü"));
    assert_eq!(expand("a{{#include f.md}}b", "dir", &[Some("")]), done("ab"));
}

#[test]
fn several_links_use_the_answers_in_order() {
    assert_eq!(
        expand("{{#include a}}-{{#include b}}-{{#include c}}", "", &[Some("1"), Some("2"), Some("3")]),
        done("1-2-3")
    );
}

#[test]
fn text_between_links_stays() {
    assert_eq!(
        expand("é {{#include a}} ü\n\\{{#x}}\n{{#title T}}  {{#include \"}} .", "", &[Some("1")]),
        done("é 1 ü\n{{#x}}\n  {{#include \"}} .")
    );
}

#[test]
fn further_lines_are_prefixed() {
    assert_eq!(
        expand("top\n  > {{#include f.md}} end", "dir", &[Some("x\n\ny\nz")]),
        done("top\n  > x\n  > \n  > y\n  > z end")
    );
}

#[test]
fn prefix_holds_what_earlier_links_left() {
    assert_eq!(
        expand("{{#include a}}{{#include b}}", "", &[Some("x\ny"), Some("1\n2")]),
        done("x\ny1\ny2")
    );
}

#[test]
fn text_at_line_start_keeps_its_lines() {
    assert_eq!(
        expand("top\n{{#include f.md}}\nend", "dir", &[Some("x\n\n  y")]),
        done("top\nx\n\n  y\nend")
    );
}

#[test]
fn last_line_ending_is_dropped() {
    assert_eq!(expand("[{{#include f.md}}]", "", &[Some("x\ny\n")]), done("[x\n[y]"));
    assert_eq!(expand("[{{#include f.md}}]", "", &[Some("x\n\n")]), done("[x\n[]"));
    assert_eq!(expand("[{{#include f.md}}]", "", &[Some("\n")]), done("[]"));
}

#[test]
fn carriage_returns_of_line_endings_are_dropped() {
    assert_eq!(expand("{{#include f.md}}", "", &[Some("x\r\ny\r\n")]), done("x\ny"));
    assert_eq!(expand("{{#include f.md}}", "", &[Some("x\r\r\ny\rz\r")]), done("x\r\ny\rz\r"));
}

#[test]
fn failing_links_stay() {
    let s = "a {{#include a.md}} b\n{{#include \"open}} c\n{{#playground p.rs}} d";
    assert_eq!(expand(s, "dir", &[None, None]), done(s));
    assert_eq!(
        expand(s, "dir", &[None, Some("code")]),
        done("a {{#include a.md}} b\n{{#include \"open}} c\n```rust\ncode\n``` d")
    );
}

#[test]
fn escaped_links_lose_their_backslash() {
    assert_eq!(
        expand("a \\{{#include f.md}} b\n\\{{#title T}}", "", &[]),
        done("a {{#include f.md}} b\n{{#title T}}")
    );
}

#[test]
fn escaped_link_reaches_to_the_last_braces_of_its_line() {
    assert_eq!(
        expand("\\{{#include a}} {{#include b}}", "", &[]),
        done("{{#include a}} {{#include b}}")
    );
}

#[test]
fn titles_leave_nothing_and_the_last_one_decides() {
    let (expansion, title) = expand_at(0, "{{#title One}}\n{{#title Two}}\nend", "", &[]);
    assert_eq!(expansion, done("\n\nend"));
    assert_eq!(title, "Two");
}

#[test]
fn title_in_an_included_file_counts() {
    let (expansion, title) = expand_at(0, "a{{#include f.md}}b", "", &[Some("{{#title Inner}}x")]);
    assert_eq!(expansion, done("axb"));
    assert_eq!(title, "Inner");
}

#[test]
fn nested_links_are_relative_to_their_file() {
    let s = "{{#include sub/a.md}} {{#include c.md}}";
    assert_eq!(
        expand(s, "src", &[Some("<{{#include b.md}}>")]),
        read("src/sub/b.md", Excerpt::Part(all_lines()))
    );
    assert_eq!(
        expand(s, "src", &[Some("<{{#include b.md}}>"), Some("inner")]),
        read("src/c.md", Excerpt::Part(all_lines()))
    );
    assert_eq!(
        expand(s, "src", &[Some("<{{#include b.md}}>"), Some("inner"), Some("last")]),
        done("<inner> last")
    );
}

#[test]
fn playground_becomes_a_code_block() {
    assert_eq!(
        expand("{{#playground f.rs editable ignore}}\n", "", &[Some("fn main() {}")]),
        done("```rust,editable,ignore\nfn main() {}\n```\n")
    );
    assert_eq!(
        expand("{{#playground f.rs}}\n", "", &[Some("fn main() {}\n")]),
        done("```rust\nfn main() {}\n```\n")
    );
}

#[test]
fn playpen_becomes_a_code_block() {
    assert_eq!(expand("{{#playpen f.rs a}}", "", &[Some("x")]), done("```rust,a\nx\n```"));
}

#[test]
fn links_too_deep_are_left_out() {
    let s = "a {{#include f.md}} b {{#title T}} c\n\\{{#include g}} d";
    let (expansion, title) = expand_at(10, s, "", &[Some("x")]);
    assert_eq!(expansion, done("a  b  c\n d"));
    assert_eq!(title, "T");
    assert_eq!(expand_at(11, "a{{#include f.md}}b", "", &[Some("x")]).0, done("ab"));
}

#[test]
fn failing_links_too_deep_stay() {
    assert_eq!(
        expand_at(10, "a{{#include f.md}}b", "", &[None]).0,
        done("a{{#include f.md}}b")
    );
}

#[test]
fn deepest_level_is_still_expanded() {
    assert_eq!(
        expand_at(9, "{{#include f.md}}", "", &[Some("<{{#include g.md}}>"), Some("inner")]).0,
        done("<>")
    );
}

#[test]
fn file_that_includes_itself_comes_to_an_end() {
    let file = Some("x{{#include f.md}}");
    assert_eq!(expand("{{#include f.md}}", "", &[file; 11]), done("xxxxxxxxxx"));
    assert_eq!(
        expand("{{#include f.md}}", "", &[file; 10]),
        read("f.md", Excerpt::Part(all_lines()))
    );
}

#[test]
fn further_answers_are_left_over() {
    let contents = answers(&[Some("x"), None, Some("z")]);
    let mut replies = Replies::new(&contents);
    let mut title = String::new();
    assert_eq!(
        replace_all("{{#include f}}", "", 0, &mut title, &mut replies, &mut vec![]),
        done("x")
    );
    assert_eq!(replies.next(), Some(Err(&causes())));
    assert_eq!(replies.next(), Some(Ok("z")));
    assert_eq!(replies.next(), None);
    assert_eq!(replies.next(), None);
}

#[test]
fn file_without_a_directory_is_reported() {
    assert_eq!(
        expand("{{#include /}}", "dir", &[Some("x")]),
        Expansion::NoDirectory(String::from("/"))
    );
    assert_eq!(expand("{{#include /}}", "dir", &[None]), done("{{#include /}}"));
}

#[test]
fn failing_links_are_reported() {
    let s = "{{#include a.md}} {{#include \"b}} {{#title T}}";
    let unread = RenderError::Unreadable(
        String::from("Could not read file for link {{#include a.md}} (dir/a.md)"),
        causes(),
    );
    let invalid = RenderError::Invalid(String::from("unclosed quote in path"));
    assert_eq!(
        expand_reporting(0, s, "dir", &[None]).2,
        vec![
            Report::Failed(String::from("{{#include a.md}}"), unread),
            Report::Failed(String::from("{{#include \"b}}"), invalid),
        ]
    );
}

#[test]
fn links_too_deep_are_reported() {
    let s = "{{#include f.md}} {{#title T}}\n\\{{#x}}";
    let reports = expand_reporting(10, s, "", &[Some("x")]).2;
    assert_eq!(reports, vec![Report::TooDeep, Report::TooDeep, Report::TooDeep]);
    assert_eq!(expand_reporting(9, s, "", &[Some("x")]).2, vec![]);
    assert_eq!(
        expand_reporting(9, "{{#include f.md}}", "", &[Some("{{#title T}}")]).2,
        vec![Report::TooDeep]
    );
}

#[test]
fn former_names_are_reported() {
    let renamed = |link_text: &str| Report::Renamed(String::from(link_text));
    let s = "{{#playpen f.rs}} {{#playpen  }} {{#playground g.rs}} {{#include h}}";
    let contents = [Some("f"), Some("g"), Some("{{ #playpen\ni }}"), Some("i")];
    assert_eq!(
        expand_reporting(0, s, "", &contents).2,
        vec![
            renamed("{{#playpen f.rs}}"),
            renamed("{{#playpen  }}"),
            renamed("{{ #playpen\ni }}"),
        ]
    );
}

#[test]
fn reports_come_in_the_order_of_the_text() {
    let renamed = |link_text: &str| Report::Renamed(String::from(link_text));
    let failed = |link_text: &str| {
        let error = RenderError::Invalid(String::from("unclosed quote in path"));
        Report::Failed(String::from(link_text), error)
    };
    let s = "{{#playpen 0  }}{{#include \"1}}{{#playpen  }}{{#playpen \"2}}{{#include 3}}{{#playpen \n}}";
    let contents = [Some("0"), Some("{{#include \"4}}{{#playpen \t}}")];
    assert_eq!(
        expand_reporting(0, s, "", &contents).2,
        vec![
            renamed("{{#playpen 0  }}"),
            failed("{{#include \"1}}"),
            renamed("{{#playpen  }}"),
            renamed("{{#playpen \"2}}"),
            failed("{{#playpen \"2}}"),
            failed("{{#include \"4}}"),
            renamed("{{#playpen \t}}"),
            renamed("{{#playpen \n}}"),
        ]
    );
}

#[test]
fn earlier_reports_are_kept() {
    let contents = answers(&[None]);
    let mut title = String::new();
    let mut reports = vec![Report::TooDeep];
    let mut replies = Replies::new(&contents);
    let s = "{{#include f}}";
    assert_eq!(replace_all(s, "", 0, &mut title, &mut replies, &mut reports), done(s));
    assert_eq!(reports.len(), 2);
    assert_eq!(reports[0], Report::TooDeep);
}

#[test]
fn given_links_are_replaced() {
    let file = String::from("f.rs");
    let links = vec![
        Link { start_index: 1, end_index: 3, link_type: LinkType::Title("T"), link_text: "bc" },
        Link { start_index: 3, end_index: 4, link_type: LinkType::Escaped, link_text: "xyz" },
        Link {
            start_index: 5,
            end_index: 6,
            link_type: LinkType::Invalid(String::from("why")),
            link_text: "f",
        },
        Link {
            start_index: 6,
            end_index: 6,
            link_type: LinkType::Playground(file, vec!["p"]),
            link_text: "",
        },
    ];
    let renamed = vec![
        Renamed { start_index: 0, link_text: "r" },
        Renamed { start_index: 5, link_text: "s" },
        Renamed { start_index: 7, link_text: "t" },
    ];
    let contents = answers(&[Some("1\n2")]);
    let mut title = String::from("Name");
    let mut reports = vec![];
    let mut replies = Replies::new(&contents);
    let mut replace = |title: &mut String, reports: &mut Vec<Report>| {
        replace_links("abcdefg", &links, &renamed, "dir", 0, title, &mut replies, reports)
    };
    let expansion = replace(&mut title, &mut reports);
    assert_eq!(expansion, done("ayzef```rust,p\nayzef1\nayzef2\nayzef```g"));
    assert_eq!(title, "T");
    assert_eq!(
        reports,
        vec![
            Report::Renamed(String::from("r")),
            Report::Renamed(String::from("s")),
            Report::Failed(String::from("f"), RenderError::Invalid(String::from("why"))),
            Report::Renamed(String::from("t")),
        ]
    );
    assert_eq!(replace(&mut title, &mut reports), read("dir/f.rs", Excerpt::Whole));
}

#[test]
fn requests_answered_one_by_one_come_to_an_end() {
    let file = |path: &str| match path {
        "a.md" => Ok(String::from("<{{#include sub/b.md}}>{{#include none.md}}")),
        "sub/b.md" => Ok(String::from("{{#include c.md}}{{#title T}}")),
        "sub/c.md" => Ok(String::from("{{#playground ../d.rs}}")),
        "sub/../d.rs" => Ok(String::from("d\n")),
        _ => Err(causes()),
    };
    let mut contents: Vec<Answer> = vec![];
    let mut asked = vec![];
    loop {
        let mut title = String::from("Name");
        let mut reports = vec![];
        let mut replies = Replies::new(&contents);
        match replace_all("{{#include a.md}}", "", 0, &mut title, &mut replies, &mut reports) {
            Expansion::Read(request) => {
                contents.push(file(&request.path));
                asked.push(request.path);
            }
            expansion => {
                assert_eq!(expansion, done("<```rust\n<d\n<```>{{#include none.md}}"));
                assert_eq!(title, "T");
                assert_eq!(reports.len(), 1);
                assert_eq!(replies.next(), None);
                break;
            }
        }
    }
    assert_eq!(asked, vec!["a.md", "sub/b.md", "sub/c.md", "sub/../d.rs", "none.md"]);
}
