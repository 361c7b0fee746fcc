use links::expand::Report;
use links::preprocessor::{Chapter, ChapterStep, LinkPreprocessor};
use links::range::{LineRange, RangeOrAnchor};
use links::render::{Excerpt, RenderError, Request};

fn chapter(content: &str, path: Option<&str>) -> Chapter {
    Chapter {
        name: String::from("Name"),
        content: String::from(content),
        path: path.map(String::from),
    }
}

fn run(chapter: &mut Chapter, contents: &[Option<&str>]) -> ChapterStep {
    let replies = contents.iter().map(|content| content.map(String::from).ok_or(vec![])).collect();
    LinkPreprocessor::new().run_chapter("src", chapter, &replies)
}

#[test]
fn preprocessor_has_a_name() {
    assert_eq!(LinkPreprocessor::NAME, "links");
    assert_eq!(LinkPreprocessor::new().name(), "links");
    assert_eq!(LinkPreprocessor::default().name(), "links");
}

#[test]
fn chapter_changes_when_all_files_are_read() {
    let mut ch = chapter("a {{#include b.md}}", Some("part/a.md"));
    let request = Request {
        path: String::from("src/part/b.md"),
        excerpt: Excerpt::Part(RangeOrAnchor::Range(LineRange::from(..))),
    };
    assert_eq!(run(&mut ch, &[]), ChapterStep::Read(request));
    assert_eq!(ch, chapter("a {{#include b.md}}", Some("part/a.md")));
    assert_eq!(run(&mut ch, &[Some("text")]), ChapterStep::Done(None, vec![]));
    assert_eq!(ch, chapter("a text", Some("part/a.md")));
}

#[test]
fn chapter_of_the_source_directory_itself() {
    let mut ch = chapter("{{#playground b.rs}}", Some("a.md"));
    // joining the empty parent leaves a separator at the end, which the next join keeps
    let request = Request { path: String::from("src/b.rs"), excerpt: Excerpt::Whole };
    assert_eq!(run(&mut ch, &[]), ChapterStep::Read(request));
}

#[test]
fn title_is_reported_where_it_differs() {
    let mut ch = chapter("{{#title Other}}text", Some("a.md"));
    assert_eq!(run(&mut ch, &[]), ChapterStep::Done(Some(String::from("Other")), vec![]));
    assert_eq!(ch, chapter("text", Some("a.md")));
    let mut ch = chapter("{{#title Name}}text", Some("a.md"));
    assert_eq!(run(&mut ch, &[]), ChapterStep::Done(None, vec![]));
    assert_eq!(ch, chapter("text", Some("a.md")));
}

#[test]
fn draft_chapter_is_left_alone() {
    let mut ch = chapter("{{#title Other}}{{#include f}}", None);
    assert_eq!(run(&mut ch, &[]), ChapterStep::Done(None, vec![]));
    assert_eq!(ch, chapter("{{#title Other}}{{#include f}}", None));
}

#[test]
fn path_without_a_directory_is_reported() {
    let mut ch = chapter("text", Some("/"));
    assert_eq!(run(&mut ch, &[]), ChapterStep::NoDirectory(String::from("/")));
    let mut ch = chapter("text", Some(""));
    assert_eq!(run(&mut ch, &[]), ChapterStep::NoDirectory(String::new()));
    let mut ch = chapter("{{#include /}}", Some("a.md"));
    assert_eq!(run(&mut ch, &[Some("x")]), ChapterStep::NoDirectory(String::from("/")));
    assert_eq!(ch, chapter("{{#include /}}", Some("a.md")));
}

#[test]
fn failures_in_a_chapter_are_reported() {
    let mut ch = chapter("{{#include b.md}}", Some("a.md"));
    let message = String::from("Could not read file for link {{#include b.md}} (src/b.md)");
    let error = RenderError::Unreadable(message, vec![]);
    assert_eq!(
        run(&mut ch, &[None]),
        ChapterStep::Done(None, vec![Report::Failed(String::from("{{#include b.md}}"), error)])
    );
    assert_eq!(ch, chapter("{{#include b.md}}", Some("a.md")));
}
