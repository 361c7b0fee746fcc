use links::expand::{replace_all, Expansion, Replies};

#[test]
fn test_replace_all_escaped() {
    let start = r"
        Some text over here.
        ```hbs
        \{{#include file.rs}} << an escaped link!
        ```";
    let end = r"
        Some text over here.
        ```hbs
        {{#include file.rs}} << an escaped link!
        ```";
    let mut chapter_title = "test_replace_all_escaped".to_owned();
    assert_eq!(
        replace_all(start, "", 0, &mut chapter_title, &mut Replies::new(&vec![]), &mut vec![]),
        Expansion::Done(end.to_owned())
    );
}

#[test]
fn test_set_chapter_title() {
    let start = r"{{#title My Title}}
        # My Chapter
        ";
    let end = r"
        # My Chapter
        ";
    let mut chapter_title = "test_set_chapter_title".to_owned();
    assert_eq!(
        replace_all(start, "", 0, &mut chapter_title, &mut Replies::new(&vec![]), &mut vec![]),
        Expansion::Done(end.to_owned())
    );
    assert_eq!(chapter_title, "My Title");
}

#[test]
fn test_replace_all_unclosed_quote() {
    let start = "Some text with {{#include \"unclosed.md}} here.";
    let mut chapter_title = "test".to_owned();
    let res = replace_all(start, "", 0, &mut chapter_title, &mut Replies::new(&vec![]), &mut vec![]);
    assert_eq!(res, Expansion::Done(start.to_owned()));
}
