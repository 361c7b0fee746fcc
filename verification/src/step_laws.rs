//! What holds of the replacement of links, one by one and level by level.
use vstd::prelude::*;

use crate::expand;
use crate::expand::{Expansion, ExpansionView, Progress, Report, ReportView};
use crate::link;
use crate::link::{LinkView, RenamedView};
use crate::link_type::LinkTypeView;
use crate::path;
use crate::preprocessor;
use crate::preprocessor::{Chapter, ChapterStep, ChapterStepView, ChapterView};
use crate::range::RangeOrAnchorView;
use crate::render;
use crate::render::{AnswerView, ExcerptView, RenderError, RenderErrorView, Request, RequestView};
use crate::text;
use crate::text_laws;

verus! {

/// The links of a text are replaced from its start on, and what stands behind the last one stays.
pub proof fn law_whole_text(
    s: Seq<char>,
    renamed: Seq<RenamedView>,
    base: Seq<char>,
    depth: nat,
    replaced: Seq<char>,
    previous_end: int,
    title: Seq<char>,
    replies: Seq<AnswerView>,
    reports: Seq<ReportView>,
)
    ensures
        expand::expand(s, base, depth, title, replies, reports) == expand::expand_links(
            s,
            link::links_of(s),
            link::renamed_of(s),
            base,
            depth,
            Seq::empty(),
            0,
            title,
            replies,
            reports,
        ),
        expand::expand_links(
            s,
            Seq::empty(),
            renamed,
            base,
            depth,
            replaced,
            previous_end,
            title,
            replies,
            reports,
        ) == (Progress {
            outcome: ExpansionView::Done(replaced + text::from_offset(s, previous_end)),
            title,
            replies,
            reports: reports + Seq::new(
                renamed.len(),
                |i: int| ReportView::Renamed(renamed[i].link_text),
            ),
        }),
{
    assert(expand::renamed_reports(renamed) == Seq::new(
        renamed.len(),
        |i: int| ReportView::Renamed(renamed[i].link_text),
    ));
}

/// When a link comes up, the matches by a former name that start no later than it does are
/// reported, in their order, and the other ones are kept for later.
pub proof fn law_renamed_are_reported(
    reports: Seq<ReportView>,
    up_to: Seq<RenamedView>,
    behind: Seq<RenamedView>,
    link: LinkView,
)
    requires
        forall|i: int|
            0 <= i < up_to.len() ==> (#[trigger] up_to[i]).start_index <= link.start_index,
        behind.len() > 0 ==> behind[0].start_index > link.start_index,
    ensures
        expand::noted(reports, up_to + behind, link) == reports + Seq::new(
            up_to.len(),
            |i: int| ReportView::Renamed(up_to[i].link_text),
        ),
        expand::not_due(up_to + behind, link) == behind,
{
    lemma_due_is(up_to, behind, link.start_index);
    let all = up_to + behind;
    assert(all.take(up_to.len() as int) == up_to);
    assert(all.skip(up_to.len() as int) == behind);
    assert(expand::renamed_reports(up_to) == Seq::new(
        up_to.len(),
        |i: int| ReportView::Renamed(up_to[i].link_text),
    ));
}

proof fn lemma_due_is(up_to: Seq<RenamedView>, behind: Seq<RenamedView>, offset: usize)
    requires
        forall|i: int| 0 <= i < up_to.len() ==> (#[trigger] up_to[i]).start_index <= offset,
        behind.len() > 0 ==> behind[0].start_index > offset,
    ensures
        expand::due(up_to + behind, offset) == up_to.len(),
    decreases up_to.len(),
{
    let all = up_to + behind;
    if up_to.len() == 0 {
        assert(all == behind);
    } else {
        let rest = up_to.skip(1);
        assert(all[0] == up_to[0]);
        assert(all.skip(1) == rest + behind);
        assert forall|i: int| 0 <= i < rest.len() implies (#[trigger] rest[i]).start_index
            <= offset by {
            assert(rest[i] == up_to[i + 1]);
        }
        lemma_due_is(rest, behind, offset);
    }
}

/// A link that asks for a file, for which there is no answer, makes its request. Nothing else
/// happens, at whatever depth.
pub proof fn law_unanswered_link(
    s: Seq<char>,
    links: Seq<LinkView>,
    renamed: Seq<RenamedView>,
    base: Seq<char>,
    depth: nat,
    replaced: Seq<char>,
    previous_end: int,
    title: Seq<char>,
    reports: Seq<ReportView>,
    file: Seq<char>,
    part: RangeOrAnchorView,
    props: Seq<Seq<char>>,
)
    requires
        links.len() > 0,
        links[0].link_type == LinkTypeView::Include(file, part) || links[0].link_type
            == LinkTypeView::RustdocInclude(file, part) || links[0].link_type
            == LinkTypeView::Playground(file, props),
    ensures
        expand::expand_links(
            s,
            links,
            renamed,
            base,
            depth,
            replaced,
            previous_end,
            title,
            Seq::empty(),
            reports,
        ) == (Progress {
            outcome: ExpansionView::Read(
                RequestView {
                    path: path::joined_path(base, file),
                    excerpt: if links[0].link_type is Include {
                        ExcerptView::Part(part)
                    } else if links[0].link_type is RustdocInclude {
                        ExcerptView::RustdocPart(part)
                    } else {
                        ExcerptView::Whole
                    },
                },
            ),
            title,
            replies: Seq::empty(),
            reports: expand::noted(reports, renamed, links[0]),
        }),
{
}

proof fn lemma_from_earlier(
    s: Seq<char>,
    links: Seq<LinkView>,
    renamed: Seq<RenamedView>,
    base: Seq<char>,
    depth: nat,
    replaced: Seq<char>,
    from: int,
    mid: int,
    title: Seq<char>,
    replies: Seq<AnswerView>,
    reports: Seq<ReportView>,
)
    requires
        from <= mid,
        text::is_boundary(s, from),
        text::is_boundary(s, mid),
        links.len() > 0 ==> mid <= links[0].start_index && text::is_boundary(
            s,
            links[0].start_index as int,
        ),
    ensures
        expand::expand_links(
            s,
            links,
            renamed,
            base,
            depth,
            replaced + text::between(s, from, mid),
            mid,
            title,
            replies,
            reports,
        ) == expand::expand_links(
            s,
            links,
            renamed,
            base,
            depth,
            replaced,
            from,
            title,
            replies,
            reports,
        ),
{
    if links.len() > 0 {
        let start = links[0].start_index as int;
        text::lemma_between_add(s, from, mid, start);
        assert(replaced + text::between(s, from, mid) + text::between(s, mid, start) == replaced
            + text::between(s, from, start));
    } else {
        let last = vstd::utf8::encode_utf8(s).len() as int;
        text::lemma_boundary(s, mid);
        text::lemma_between_ends(s);
        text::lemma_between_add(s, from, mid, last);
        assert(replaced + text::between(s, from, mid) + text::from_offset(s, mid) == replaced
            + text::from_offset(s, from));
    }
}

/// A link that fails, since it is invalid or since its file was not read, makes no difference: all
/// comes out as if it were plain text, at whatever depth. It is reported, and its answer is used.
pub proof fn law_failing_link_is_plain_text(
    s: Seq<char>,
    links: Seq<LinkView>,
    renamed: Seq<RenamedView>,
    base: Seq<char>,
    depth: nat,
    replaced: Seq<char>,
    previous_end: int,
    title: Seq<char>,
    replies: Seq<AnswerView>,
    reports: Seq<ReportView>,
    file: Seq<char>,
    part: RangeOrAnchorView,
    props: Seq<Seq<char>>,
    causes: Seq<Seq<char>>,
    message: Seq<char>,
)
    requires
        links.len() > 0,
        text::is_boundary(s, previous_end),
        previous_end <= links[0].start_index,
        text::is_boundary(s, links[0].start_index as int),
        links.len() > 1 ==> links[0].start_index <= links[1].start_index && text::is_boundary(
            s,
            links[1].start_index as int,
        ),
    ensures
        links[0].link_type == LinkTypeView::Invalid(message) ==> expand::expand_links(
            s,
            links,
            renamed,
            base,
            depth,
            replaced,
            previous_end,
            title,
            replies,
            reports,
        ) == expand::expand_links(
            s,
            links.skip(1),
            expand::not_due(renamed, links[0]),
            base,
            depth,
            replaced,
            previous_end,
            title,
            replies,
            expand::noted(reports, renamed, links[0]).push(
                ReportView::Failed(links[0].link_text, RenderErrorView::Invalid(message)),
            ),
        ),
        links[0].link_type == LinkTypeView::Include(file, part) || links[0].link_type
            == LinkTypeView::RustdocInclude(file, part) || links[0].link_type
            == LinkTypeView::Playground(file, props) ==> expand::expand_links(
            s,
            links,
            renamed,
            base,
            depth,
            replaced,
            previous_end,
            title,
            seq![Err(causes)] + replies,
            reports,
        ) == expand::expand_links(
            s,
            links.skip(1),
            expand::not_due(renamed, links[0]),
            base,
            depth,
            replaced,
            previous_end,
            title,
            replies,
            expand::noted(reports, renamed, links[0]).push(
                ReportView::Failed(
                    links[0].link_text,
                    RenderErrorView::Unreadable(
                        "Could not read file for link "@ + links[0].link_text + " ("@
                            + path::joined_path(base, file) + ")"@,
                        causes,
                    ),
                ),
            ),
        ),
{
    let link = links[0];
    let rest = links.skip(1);
    let start = link.start_index as int;
    let answered = seq![Err::<Seq<char>, Seq<Seq<char>>>(causes)] + replies;
    assert(answered[0] == Err::<Seq<char>, Seq<Seq<char>>>(causes));
    assert(answered.skip(1) == replies);
    let later = expand::not_due(renamed, link);
    let now = expand::noted(reports, renamed, link);
    let invalid = ReportView::Failed(link.link_text, RenderErrorView::Invalid(message));
    let unread = ReportView::Failed(
        link.link_text,
        RenderErrorView::Unreadable(
            "Could not read file for link "@ + link.link_text + " ("@ + path::joined_path(
                base,
                file,
            ) + ")"@,
            causes,
        ),
    );
    lemma_from_earlier(
        s,
        rest,
        later,
        base,
        depth,
        replaced,
        previous_end,
        start,
        title,
        replies,
        now.push(invalid),
    );
    lemma_from_earlier(
        s,
        rest,
        later,
        base,
        depth,
        replaced,
        previous_end,
        start,
        title,
        replies,
        now.push(unread),
    );
}

/// At a depth of 10 and beyond, a link that does not fail leaves nothing behind: its file is not
/// looked into. It is reported, its answer is used, and a title is still set.
pub proof fn law_deep_link_is_left_out(
    s: Seq<char>,
    links: Seq<LinkView>,
    renamed: Seq<RenamedView>,
    base: Seq<char>,
    depth: nat,
    replaced: Seq<char>,
    previous_end: int,
    title: Seq<char>,
    replies: Seq<AnswerView>,
    reports: Seq<ReportView>,
    file: Seq<char>,
    part: RangeOrAnchorView,
    props: Seq<Seq<char>>,
    reply: Seq<char>,
)
    requires
        depth >= 10,
        links.len() > 0,
    ensures
        ({
            let link = links[0];
            let before = replaced + text::between(s, previous_end, link.start_index as int);
            let end = link.end_index as int;
            let made = expand::noted(reports, renamed, link).push(ReportView::TooDeep);
            let rest = links.skip(1);
            let later = expand::not_due(renamed, link);
            &&& link.link_type == LinkTypeView::Include(file, part) || link.link_type
                == LinkTypeView::RustdocInclude(file, part) || link.link_type
                == LinkTypeView::Playground(file, props) ==> expand::expand_links(
                s,
                links,
                renamed,
                base,
                depth,
                replaced,
                previous_end,
                title,
                seq![Ok(reply)] + replies,
                reports,
            ) == expand::expand_links(
                s,
                rest,
                later,
                base,
                depth,
                before,
                end,
                title,
                replies,
                made,
            )
            &&& link.link_type is Escaped ==> expand::expand_links(
                s,
                links,
                renamed,
                base,
                depth,
                replaced,
                previous_end,
                title,
                replies,
                reports,
            ) == expand::expand_links(
                s,
                rest,
                later,
                base,
                depth,
                before,
                end,
                title,
                replies,
                made,
            )
            &&& link.link_type == LinkTypeView::Title(file) ==> expand::expand_links(
                s,
                links,
                renamed,
                base,
                depth,
                replaced,
                previous_end,
                title,
                replies,
                reports,
            ) == expand::expand_links(s, rest, later, base, depth, before, end, file, replies, made)
        }),
{
    let answered = seq![Ok::<Seq<char>, Seq<Seq<char>>>(reply)] + replies;
    assert(answered[0] == Ok::<Seq<char>, Seq<Seq<char>>>(reply));
    assert(answered.skip(1) == replies);
}

/// An escaped link leaves its text without the first character, and a link that sets the title
/// leaves nothing and sets it. What they leave is not looked into.
pub proof fn law_link_without_file(
    s: Seq<char>,
    links: Seq<LinkView>,
    renamed: Seq<RenamedView>,
    base: Seq<char>,
    depth: nat,
    replaced: Seq<char>,
    previous_end: int,
    title: Seq<char>,
    replies: Seq<AnswerView>,
    reports: Seq<ReportView>,
    new_title: Seq<char>,
)
    requires
        depth < 10,
        links.len() > 0,
    ensures
        ({
            let link = links[0];
            let before = replaced + text::between(s, previous_end, link.start_index as int);
            let end = link.end_index as int;
            let made = expand::noted(reports, renamed, link);
            let rest = links.skip(1);
            let later = expand::not_due(renamed, link);
            let all = expand::expand_links(
                s,
                links,
                renamed,
                base,
                depth,
                replaced,
                previous_end,
                title,
                replies,
                reports,
            );
            &&& link.link_type is Escaped ==> all == expand::expand_links(
                s,
                rest,
                later,
                base,
                depth,
                before + expand::indented(link.link_text.skip(1), text::last_line_of(before)),
                end,
                title,
                replies,
                made,
            )
            &&& link.link_type is Escaped && link.link_text.len() > 0 && !link.link_text.contains(
                '\n',
            ) ==> all == expand::expand_links(
                s,
                rest,
                later,
                base,
                depth,
                before + link.link_text.skip(1),
                end,
                title,
                replies,
                made,
            )
            &&& link.link_type == LinkTypeView::Title(new_title) ==> all == expand::expand_links(
                s,
                rest,
                later,
                base,
                depth,
                before,
                end,
                new_title,
                replies,
                made,
            )
        }),
{
    let link = links[0];
    let before = replaced + text::between(s, previous_end, link.start_index as int);
    let empty = Seq::<char>::empty();
    let prefix = text::last_line_of(before);
    let content = if link.link_type is Escaped {
        link.link_text.skip(1)
    } else {
        empty
    };
    let inner = expand::expand_content(
        link.link_type,
        base,
        depth,
        content,
        render::title_of(link.link_type, title),
        replies,
        expand::noted(reports, renamed, link),
    );
    if link.link_type is Escaped && link.link_text.len() > 0 && !link.link_text.contains('\n') {
        assert(!content.contains('\n')) by {
            assert forall|i: int| 0 <= i < content.len() implies content[i] != '\n' by {
                assert(link.link_text.contains(link.link_text[i + 1]));
            }
        }
        law_indented(content, empty, prefix);
    }
    if link.link_type is Title {
        law_indented(content, empty, prefix);
        assert(before + empty == before);
    }
}

/// A link that asks for a file, of whichever kind and with whichever part or properties, gives way
/// to what it asks for, with the links in that replaced in their turn: one level deeper, and
/// relative to the directory of the file, which is the parent of its path as seen from `base`.
/// What comes out is put behind what stands before the link, with the last line of that before
/// each further line. Where the links in the file come to no end, it ends there.
pub proof fn law_file_link(
    s: Seq<char>,
    links: Seq<LinkView>,
    renamed: Seq<RenamedView>,
    base: Seq<char>,
    depth: nat,
    replaced: Seq<char>,
    previous_end: int,
    title: Seq<char>,
    replies: Seq<AnswerView>,
    reports: Seq<ReportView>,
    file: Seq<char>,
    part: RangeOrAnchorView,
    props: Seq<Seq<char>>,
    reply: Seq<char>,
)
    requires
        depth < 10,
        links.len() > 0,
        links[0].link_type == LinkTypeView::Include(file, part) || links[0].link_type
            == LinkTypeView::RustdocInclude(file, part) || links[0].link_type
            == LinkTypeView::Playground(file, props),
    ensures
        ({
            let link = links[0];
            let before = replaced + text::between(s, previous_end, link.start_index as int);
            let made = expand::noted(reports, renamed, link);
            let content = if link.link_type is Playground {
                render::code_block(props, reply)
            } else {
                reply
            };
            let all = expand::expand_links(
                s,
                links,
                renamed,
                base,
                depth,
                replaced,
                previous_end,
                title,
                seq![Ok(reply)] + replies,
                reports,
            );
            match path::parent_path(path::joined_path(base, file)) {
                Some(dir) => {
                    let inner = expand::expand(content, dir, depth + 1, title, replies, made);
                    match inner.outcome {
                        ExpansionView::Done(expanded) => all == expand::expand_links(
                            s,
                            links.skip(1),
                            expand::not_due(renamed, link),
                            base,
                            depth,
                            before + expand::indented(expanded, text::last_line_of(before)),
                            link.end_index as int,
                            inner.title,
                            inner.replies,
                            inner.reports,
                        ),
                        _ => all == inner,
                    }
                },
                None => all == (Progress {
                    outcome: ExpansionView::NoDirectory(path::joined_path(base, file)),
                    title,
                    replies,
                    reports: made,
                }),
            }
        }),
{
    let link = links[0];
    let answered = seq![Ok::<Seq<char>, Seq<Seq<char>>>(reply)] + replies;
    assert(answered[0] == Ok::<Seq<char>, Seq<Seq<char>>>(reply));
    assert(answered.skip(1) == replies);
    let content = if link.link_type is Playground {
        render::code_block(props, reply)
    } else {
        reply
    };
    let inner = expand::expand_content(
        link.link_type,
        base,
        depth,
        content,
        title,
        replies,
        expand::noted(reports, renamed, link),
    );
}

/// The request of a link in a file names its own file as it is seen from the directory of the file
/// that it stands in, of whichever kind both links are and with whichever parts.
pub proof fn law_nested_request(
    s: Seq<char>,
    link: LinkView,
    nested: LinkView,
    base: Seq<char>,
    depth: nat,
    title: Seq<char>,
    reports: Seq<ReportView>,
    file: Seq<char>,
    part: RangeOrAnchorView,
    props: Seq<Seq<char>>,
    reply: Seq<char>,
    dir: Seq<char>,
    nested_file: Seq<char>,
    nested_part: RangeOrAnchorView,
    nested_props: Seq<Seq<char>>,
)
    requires
        depth < 10,
        link::links_of(s).len() > 0,
        link::links_of(s)[0] == link,
        link.link_type == LinkTypeView::Include(file, part) || link.link_type
            == LinkTypeView::RustdocInclude(file, part) || link.link_type
            == LinkTypeView::Playground(file, props),
        path::parent_path(path::joined_path(base, file)) == Some(dir),
        ({
            let content = if link.link_type is Playground {
                render::code_block(props, reply)
            } else {
                reply
            };
            link::links_of(content).len() > 0 && link::links_of(content)[0] == nested
        }),
        nested.link_type == LinkTypeView::Include(nested_file, nested_part) || nested.link_type
            == LinkTypeView::RustdocInclude(nested_file, nested_part) || nested.link_type
            == LinkTypeView::Playground(nested_file, nested_props),
    ensures
        expand::expand(s, base, depth, title, seq![Ok(reply)], reports).outcome
            == ExpansionView::Read(
            RequestView {
                path: path::joined_path(dir, nested_file),
                excerpt: if nested.link_type is Include {
                    ExcerptView::Part(nested_part)
                } else if nested.link_type is RustdocInclude {
                    ExcerptView::RustdocPart(nested_part)
                } else {
                    ExcerptView::Whole
                },
            },
        ),
{
    let empty = Seq::<AnswerView>::empty();
    let content = if link.link_type is Playground {
        render::code_block(props, reply)
    } else {
        reply
    };
    assert(seq![Ok::<Seq<char>, Seq<Seq<char>>>(reply)] + empty == seq![
        Ok::<Seq<char>, Seq<Seq<char>>>(reply),
    ]);
    law_file_link(
        s,
        link::links_of(s),
        link::renamed_of(s),
        base,
        depth,
        Seq::empty(),
        0,
        title,
        empty,
        reports,
        file,
        part,
        props,
        reply,
    );
    law_unanswered_link(
        content,
        link::links_of(content),
        link::renamed_of(content),
        dir,
        depth + 1,
        Seq::empty(),
        0,
        title,
        expand::noted(reports, link::renamed_of(s), link),
        nested_file,
        nested_part,
        nested_props,
    );
}

/// What comes in place of a link keeps its lines, with line feeds between them, and has the prefix
/// before each one but the first. Its last line ending is left out.
pub proof fn law_indented(line: Seq<char>, rest: Seq<char>, prefix: Seq<char>)
    requires
        !line.contains('\n'),
    ensures
        expand::indented(line, prefix) == line,
        expand::indented(line + seq!['\r', '\n'], prefix) == line,
        rest.len() > 0 ==> expand::indented(line + seq!['\r', '\n'] + rest, prefix) == line + seq![
            '\n',
        ] + prefix + expand::indented(rest, prefix),
        line.len() == 0 || line.last() != '\r' ==> {
            &&& expand::indented(line + seq!['\n'], prefix) == line
            &&& rest.len() > 0 ==> expand::indented(line + seq!['\n'] + rest, prefix) == line
                + seq!['\n'] + prefix + expand::indented(rest, prefix)
        },
{
    let empty = Seq::<char>::empty();
    let separator = seq!['\n'] + prefix;
    text_laws::law_lines(line, rest);
    text_laws::law_lines(line, empty);
    text_laws::law_join(Seq::empty(), line, separator);
    assert(line + seq!['\n'] + empty == line + seq!['\n']);
    assert(line + seq!['\r', '\n'] + empty == line + seq!['\r', '\n']);
    assert(seq![line] + Seq::<Seq<char>>::empty() == seq![line]);
    if line.len() == 0 {
        assert(line == empty);
    }
    if rest.len() > 0 {
        let lines = text::lines_of(rest);
        assert(lines.len() > 0);
        text_laws::lemma_join_first(line, lines, separator);
        assert(line + separator + text::join_of(lines, separator) == line + seq!['\n'] + prefix
            + text::join_of(lines, separator));
    }
}

/// The links of a chapter are relative to the directory of its file in the source directory, and
/// its text gives way to what comes of it at depth 0, once that is known. The title that comes of
/// it is told where it is not the name. A chapter without a file is done at once.
pub proof fn law_chapter(
    src_dir: Seq<char>,
    chapter: ChapterView,
    replies: Seq<AnswerView>,
    file: Seq<char>,
)
    ensures
        chapter.path is None ==> preprocessor::run_chapter_of(src_dir, chapter, replies) == (
            chapter,
            ChapterStepView::Done(None, Seq::empty()),
        ),
        chapter.path == Some(file) && path::parent_path(file) is None
            ==> preprocessor::run_chapter_of(src_dir, chapter, replies) == (
            chapter,
            ChapterStepView::NoDirectory(file),
        ),
        chapter.path == Some(file) ==> (path::parent_path(file) matches Some(dir) ==> {
            let progress = expand::expand(
                chapter.content,
                path::joined_path(src_dir, dir),
                0,
                chapter.name,
                replies,
                Seq::empty(),
            );
            let (result, step) = preprocessor::run_chapter_of(src_dir, chapter, replies);
            &&& result.name == chapter.name
            &&& result.path == chapter.path
            &&& progress.outcome matches ExpansionView::Done(content) ==> {
                &&& result.content == content
                &&& progress.title == chapter.name ==> step == ChapterStepView::Done(
                    None,
                    progress.reports,
                )
                &&& progress.title != chapter.name ==> step == ChapterStepView::Done(
                    Some(progress.title),
                    progress.reports,
                )
            }
            &&& progress.outcome matches ExpansionView::Read(request) ==> result.content
                == chapter.content && step == ChapterStepView::Read(request)
            &&& progress.outcome matches ExpansionView::NoDirectory(target) ==> result.content
                == chapter.content && step == ChapterStepView::NoDirectory(target)
        }),
{
}

/// What answers, reports, outcomes and chapters stand for keeps all that they hold.
pub proof fn law_progress_views(
    answers: Seq<Result<String, Vec<String>>>,
    reports: Seq<Report>,
    made: Vec<Report>,
    content: String,
    request: Request,
    error: RenderError,
    chapter: Chapter,
)
    ensures
        expand::answer_views(answers).len() == answers.len(),
        forall|i: int|
            0 <= i < answers.len() ==> (match answers[i] {
                Ok(text) => #[trigger] expand::answer_views(answers)[i] == Ok::<
                    Seq<char>,
                    Seq<Seq<char>>,
                >(text@),
                Err(causes) => expand::answer_views(answers)[i] == Err::<Seq<char>, Seq<Seq<char>>>(
                    Seq::new(causes@.len(), |k: int| causes@[k]@),
                ),
            }),
        expand::report_views(reports).len() == reports.len(),
        forall|i: int|
            0 <= i < reports.len() ==> #[trigger] expand::report_views(reports)[i] == reports[i]@,
        Report::Renamed(content)@ == ReportView::Renamed(content@),
        Report::Failed(content, error)@ == ReportView::Failed(content@, error@),
        Report::TooDeep@ == ReportView::TooDeep,
        Expansion::Done(content)@ == ExpansionView::Done(content@),
        Expansion::Read(request)@ == ExpansionView::Read(request@),
        Expansion::NoDirectory(content)@ == ExpansionView::NoDirectory(content@),
        chapter@.name == chapter.name@,
        chapter@.content == chapter.content@,
        chapter.path is None ==> chapter@.path is None,
        chapter.path matches Some(file) ==> chapter@.path == Some(file@),
        ChapterStep::Read(request)@ == ChapterStepView::Read(request@),
        ChapterStep::NoDirectory(content)@ == ChapterStepView::NoDirectory(content@),
        ChapterStep::Done(Some(content), made)@ == ChapterStepView::Done(
            Some(content@),
            expand::report_views(made@),
        ),
        ChapterStep::Done(None, made)@ == ChapterStepView::Done(
            None,
            expand::report_views(made@),
        ),
{
    assert forall|i: int| 0 <= i < answers.len() implies (match answers[i] {
        Ok(text) => #[trigger] expand::answer_views(answers)[i] == Ok::<Seq<char>, Seq<Seq<char>>>(
            text@,
        ),
        Err(causes) => expand::answer_views(answers)[i] == Err::<Seq<char>, Seq<Seq<char>>>(
            Seq::new(causes@.len(), |k: int| causes@[k]@),
        ),
    }) by {
        if let Err(causes) = answers[i] {
            assert(text::owned_texts(causes@) == Seq::new(causes@.len(), |k: int| causes@[k]@));
        }
    }
}

} // verus!
