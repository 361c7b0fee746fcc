//! What holds of the expansion of links in general.
use vstd::prelude::*;

use crate::expand;
use crate::expand::{ExpansionView, Progress, ReportView, MAX_LINK_NESTED_DEPTH};
use crate::link;
use crate::link::{LinkView, RenamedView};
use crate::link_type;
use crate::link_type::LinkTypeView;
use crate::path;
use crate::preprocessor;
use crate::preprocessor::{ChapterStepView, ChapterView};
use crate::render;
use crate::render::AnswerView;
use crate::text;
use crate::text_laws;

verus! {

/// A text without links comes out as it went in, and leaves the title and the answers alone.
/// (Where it holds a playground by its former name that is no link for want of arguments, that is
/// reported.)
pub proof fn law_text_without_links(
    s: Seq<char>,
    base: Seq<char>,
    depth: nat,
    title: Seq<char>,
    replies: Seq<AnswerView>,
    reports: Seq<ReportView>,
)
    requires
        link::links_of(s).len() == 0,
    ensures
        expand::expand(s, base, depth, title, replies, reports) == (Progress {
            outcome: ExpansionView::Done(s),
            title,
            replies,
            reports: reports + expand::renamed_reports(link::renamed_of(s)),
        }),
{
    text::lemma_between_ends(s);
    assert(Seq::<char>::empty() + s == s);
}

/// Whether links stand in a text behind an offset.
spec fn are_links_behind(s: Seq<char>, links: Seq<LinkView>, offset: int) -> bool {
    &&& text::is_boundary(s, offset)
    &&& link::are_links_in(s, links)
    &&& forall|i: int| 0 <= i < links.len() ==> offset <= (#[trigger] links[i]).start_index
}

proof fn lemma_links_behind(s: Seq<char>, links: Seq<LinkView>, offset: int)
    requires
        are_links_behind(s, links, offset),
        links.len() > 0,
    ensures
        link::is_link_in(s, links[0]),
        offset <= links[0].start_index <= links[0].end_index,
        are_links_behind(s, links.skip(1), links[0].start_index as int),
        are_links_behind(s, links.skip(1), links[0].end_index as int),
{
    let rest = links.skip(1);
    assert(link::is_link_in(s, links[0]));
    assert forall|i: int| 0 <= i < rest.len() implies link::is_link_in(s, #[trigger] rest[i])
        && links[0].end_index <= rest[i].start_index by {
        assert(rest[i] == links[i + 1]);
    }
    assert forall|i: int, j: int| 0 <= i < j < rest.len() implies (#[trigger] rest[i]).end_index
        <= (#[trigger] rest[j]).start_index by {
        assert(rest[i] == links[i + 1]);
        assert(rest[j] == links[j + 1]);
    }
}

proof fn lemma_from_offset(s: Seq<char>, from: int, mid: int)
    requires
        from <= mid,
        text::is_boundary(s, from),
        text::is_boundary(s, mid),
    ensures
        text::between(s, from, mid) + text::from_offset(s, mid) == text::from_offset(s, from),
{
    text::lemma_boundary(s, mid);
    text::lemma_between_ends(s);
    text::lemma_between_add(s, from, mid, vstd::utf8::encode_utf8(s).len() as int);
}

/// How many of several links ask for a file.
pub open spec fn files_asked(links: Seq<LinkView>) -> nat
    decreases links.len(),
{
    if links.len() == 0 {
        0
    } else if link_type::file_of(links[0].link_type) is Some {
        1 + files_asked(links.skip(1))
    } else {
        files_asked(links.skip(1))
    }
}

/// The reports on the links of a text, in the order of the text, where each link has reports of
/// its own: those made before, and for each link those on the matches by a former name up to it
/// and then its own ones.
pub open spec fn in_text_order(
    links: Seq<LinkView>,
    renamed: Seq<RenamedView>,
    own: Seq<Seq<ReportView>>,
    reports: Seq<ReportView>,
) -> Seq<ReportView>
    decreases links.len(),
{
    if links.len() == 0 {
        reports + expand::renamed_reports(renamed)
    } else {
        in_text_order(
            links.skip(1),
            expand::not_due(renamed, links[0]),
            own.skip(1),
            expand::noted(reports, renamed, links[0]) + own[0],
        )
    }
}

/// Whether a report is on the failure of a link.
pub open spec fn is_failure_of(link: LinkView, reports: Seq<ReportView>) -> bool {
    &&& reports.len() == 1
    &&& reports[0] matches ReportView::Failed(link_text, _) && link_text == link.link_text
}

proof fn lemma_failing_links(
    s: Seq<char>,
    links: Seq<LinkView>,
    renamed: Seq<RenamedView>,
    base: Seq<char>,
    depth: nat,
    replaced: Seq<char>,
    previous_end: int,
    title: Seq<char>,
    replies: Seq<AnswerView>,
    reports: Seq<ReportView>,
) -> (own: Seq<Seq<ReportView>>)
    requires
        are_links_behind(s, links, previous_end),
        forall|i: int|
            0 <= i < links.len() ==> (#[trigger] links[i]).link_type is Invalid
                || link_type::file_of(links[i].link_type) is Some,
        forall|i: int|
            0 <= i < replies.len() && i < files_asked(links) ==> (#[trigger] replies[i]) is Err,
    ensures
        own.len() == links.len(),
        forall|i: int| 0 <= i < own.len() ==> is_failure_of(links[i], #[trigger] own[i]),
        ({
            let progress = expand::expand_links(
                s,
                links,
                renamed,
                base,
                depth,
                replaced,
                previous_end,
                title,
                replies,
                reports,
            );
            &&& progress.title == title
            &&& if replies.len() >= files_asked(links) {
                &&& progress.outcome == ExpansionView::Done(
                    replaced + text::from_offset(s, previous_end),
                )
                &&& progress.reports == in_text_order(links, renamed, own, reports)
            } else {
                progress.outcome is Read
            }
        }),
    decreases links.len(),
{
    if links.len() > 0 {
        lemma_links_behind(s, links, previous_end);
        let link = links[0];
        let rest = links.skip(1);
        let later = expand::not_due(renamed, link);
        let now = expand::noted(reports, renamed, link);
        assert forall|i: int| 0 <= i < rest.len() implies (#[trigger] rest[i]).link_type is Invalid
            || link_type::file_of(rest[i].link_type) is Some by {
            assert(rest[i] == links[i + 1]);
        }
        let before = replaced + text::between(s, previous_end, link.start_index as int);
        let request = render::request_of(link.link_type, base);
        let left = if request is Some && replies.len() > 0 {
            replies.skip(1)
        } else {
            replies
        };
        assert forall|i: int|
            0 <= i < left.len() && i < files_asked(rest) implies (#[trigger] left[i]) is Err by {
            if request is Some && replies.len() > 0 {
                assert(left[i] == replies[i + 1]);
            }
        }
        let reply = if request is Some && replies.len() > 0 {
            replies[0]
        } else {
            Ok(Seq::empty())
        };
        let error = render::content_of(link, base, reply)->Err_0;
        let failed = ReportView::Failed(link.link_text, error);
        let others = lemma_failing_links(
            s,
            rest,
            later,
            base,
            depth,
            before,
            link.start_index as int,
            title,
            left,
            now.push(failed),
        );
        let own = seq![seq![failed]] + others;
        assert(own.skip(1) == others);
        assert(now + seq![failed] == now.push(failed));
        assert forall|i: int| 0 <= i < own.len() implies is_failure_of(
            links[i],
            #[trigger] own[i],
        ) by {
            if i > 0 {
                assert(own[i] == others[i - 1]);
                assert(links[i] == rest[i - 1]);
            }
        }
        lemma_from_offset(s, previous_end, link.start_index as int);
        assert(before + text::from_offset(s, link.start_index as int) == replaced
            + text::from_offset(s, previous_end));
        own
    } else {
        Seq::empty()
    }
}

/// A text in which every link is invalid, or asks for a file that cannot be read, comes out as it
/// went in, once all of the files were asked for: a link that cannot be replaced stays where it
/// is. Each link is reported.
pub proof fn law_failing_links_stay(
    s: Seq<char>,
    base: Seq<char>,
    depth: nat,
    title: Seq<char>,
    replies: Seq<AnswerView>,
    reports: Seq<ReportView>,
) -> (own: Seq<Seq<ReportView>>)
    requires
        link::are_links_in(s, link::links_of(s)),
        forall|i: int|
            0 <= i < link::links_of(s).len() ==> (#[trigger] link::links_of(s)[i]).link_type
                is Invalid || link_type::file_of(link::links_of(s)[i].link_type) is Some,
        forall|i: int|
            0 <= i < replies.len() && i < files_asked(link::links_of(s)) ==> (
            #[trigger] replies[i]) is Err,
    ensures
        own.len() == link::links_of(s).len(),
        forall|i: int|
            0 <= i < own.len() ==> is_failure_of(link::links_of(s)[i], #[trigger] own[i]),
        expand::expand(s, base, depth, title, replies, reports).title == title,
        if replies.len() >= files_asked(link::links_of(s)) {
            &&& expand::expand(s, base, depth, title, replies, reports).outcome
                == ExpansionView::Done(s)
            &&& expand::expand(s, base, depth, title, replies, reports).reports == in_text_order(
                link::links_of(s),
                link::renamed_of(s),
                own,
                reports,
            )
        } else {
            expand::expand(s, base, depth, title, replies, reports).outcome is Read
        },
{
    text::lemma_between_ends(s);
    assert(Seq::<char>::empty() + s == s);
    lemma_failing_links(
        s,
        link::links_of(s),
        link::renamed_of(s),
        base,
        depth,
        Seq::empty(),
        0,
        title,
        replies,
        reports,
    )
}

/// A text from an offset on, with something put in place of each of its links.
pub open spec fn spliced(
    s: Seq<char>,
    links: Seq<LinkView>,
    contents: Seq<Seq<char>>,
    previous_end: int,
) -> Seq<char>
    decreases links.len(),
{
    if links.len() == 0 {
        text::from_offset(s, previous_end)
    } else {
        text::between(s, previous_end, links[0].start_index as int) + contents[0] + spliced(
            s,
            links.skip(1),
            contents.skip(1),
            links[0].end_index as int,
        )
    }
}

/// What comes in place of links that ask for no file: an escaped link without its backslash,
/// nothing for a title, and an invalid link itself.
pub open spec fn plain_contents(links: Seq<LinkView>) -> Seq<Seq<char>> {
    Seq::new(
        links.len(),
        |i: int|
            match links[i].link_type {
                LinkTypeView::Escaped => links[i].link_text.skip(1),
                LinkTypeView::Invalid(_) => links[i].link_text,
                _ => Seq::empty(),
            },
    )
}

/// The title of the chapter behind links.
pub open spec fn last_title(links: Seq<LinkView>, title: Seq<char>) -> Seq<char>
    decreases links.len(),
{
    if links.len() == 0 {
        title
    } else {
        last_title(links.skip(1), render::title_of(links[0].link_type, title))
    }
}

proof fn lemma_indented_line(line: Seq<char>, prefix: Seq<char>)
    requires
        !line.contains('\n'),
    ensures
        expand::indented(line, prefix) == line,
{
    if line.len() > 0 {
        assert forall|i: int| 0 <= i < line.len() implies #[trigger] line[i] != '\n' by {
            assert(line.contains(line[i]));
        }
        text::lemma_find_is(line, '\n', line.len());
    }
}

proof fn lemma_spliced_from(
    s: Seq<char>,
    links: Seq<LinkView>,
    contents: Seq<Seq<char>>,
    from: int,
    mid: int,
)
    requires
        from <= mid,
        text::is_boundary(s, from),
        are_links_behind(s, links, mid),
    ensures
        spliced(s, links, contents, from) == text::between(s, from, mid) + spliced(
            s,
            links,
            contents,
            mid,
        ),
{
    if links.len() == 0 {
        lemma_from_offset(s, from, mid);
    } else {
        lemma_links_behind(s, links, mid);
        let start = links[0].start_index as int;
        let rest = spliced(s, links.skip(1), contents.skip(1), links[0].end_index as int);
        text::lemma_between_add(s, from, mid, start);
        assert(text::between(s, from, mid) + text::between(s, mid, start) + contents[0] + rest
            == text::between(s, from, mid) + (text::between(s, mid, start) + contents[0] + rest));
    }
}

/// The answer that goes to a link, where `left` are those that the links before it leave unused.
pub open spec fn reply_to(link: LinkView, base: Seq<char>, left: Seq<AnswerView>) -> AnswerView {
    if render::request_of(link.link_type, base) is Some {
        left[0]
    } else {
        Ok(Seq::empty())
    }
}

/// The answers that a link leaves, before the links in its file come up.
pub open spec fn left_by(
    link: LinkView,
    base: Seq<char>,
    left: Seq<AnswerView>,
) -> Seq<AnswerView> {
    if render::request_of(link.link_type, base) is Some {
        left.skip(1)
    } else {
        left
    }
}

/// Whether `content` is what comes in place of a link and `own` what is reported of it, where
/// `before` is what the links before it leave behind. That is the link itself and its failure
/// where it cannot be rendered, nothing and its depth at the greatest depth, and otherwise what it
/// asks for, with the links in that replaced and with something put before each line but the
/// first, and what is reported of those links.
pub open spec fn comes_for(
    link: LinkView,
    base: Seq<char>,
    depth: nat,
    before: Progress,
    content: Seq<char>,
    own: Seq<ReportView>,
) -> bool {
    match render::content_of(link, base, reply_to(link, base, before.replies)) {
        Err(error) => {
            &&& content == link.link_text
            &&& own == seq![ReportView::Failed(link.link_text, error)]
        },
        Ok(raw) => if depth >= MAX_LINK_NESTED_DEPTH {
            &&& content == Seq::<char>::empty()
            &&& own == seq![ReportView::TooDeep]
        } else {
            let inner = expand::expand_content(
                link.link_type,
                base,
                depth,
                raw,
                render::title_of(link.link_type, before.title),
                left_by(link, base, before.replies),
                Seq::empty(),
            );
            &&& own == inner.reports
            &&& inner.outcome matches ExpansionView::Done(expanded) && exists|prefix: Seq<char>|
                content == #[trigger] expand::indented(expanded, prefix)
        },
    }
}

proof fn lemma_text_between_links(
    s: Seq<char>,
    links: Seq<LinkView>,
    renamed: Seq<RenamedView>,
    base: Seq<char>,
    depth: nat,
    replaced: Seq<char>,
    previous_end: int,
    title: Seq<char>,
    replies: Seq<AnswerView>,
    reports: Seq<ReportView>,
) -> (res: (Seq<Seq<char>>, Seq<Seq<ReportView>>))
    requires
        are_links_behind(s, links, previous_end),
    ensures
        res.0.len() == links.len(),
        res.1.len() == links.len(),
        expand::expand_links(
            s,
            links,
            renamed,
            base,
            depth,
            replaced,
            previous_end,
            title,
            replies,
            reports,
        ) matches Progress { outcome: ExpansionView::Done(t), reports: all, .. } ==> {
            &&& t == replaced + spliced(s, links, res.0, previous_end)
            &&& all == in_text_order(links, renamed, res.1, reports)
            &&& forall|i: int|
                0 <= i < links.len() ==> comes_for(
                    #[trigger] links[i],
                    base,
                    depth,
                    expand::expand_links(
                        s,
                        links.take(i),
                        renamed,
                        base,
                        depth,
                        replaced,
                        previous_end,
                        title,
                        replies,
                        reports,
                    ),
                    res.0[i],
                    res.1[i],
                )
        },
    decreases links.len(),
{
    let progress = expand::expand_links(
        s,
        links,
        renamed,
        base,
        depth,
        replaced,
        previous_end,
        title,
        replies,
        reports,
    );
    if links.len() == 0 || !(progress.outcome is Done) {
        (
            Seq::new(links.len(), |i: int| Seq::<char>::empty()),
            Seq::new(links.len(), |i: int| Seq::<ReportView>::empty()),
        )
    } else {
        lemma_links_behind(s, links, previous_end);
        let link = links[0];
        let rest = links.skip(1);
        let later = expand::not_due(renamed, link);
        let now = expand::noted(reports, renamed, link);
        let start = link.start_index as int;
        let end = link.end_index as int;
        let reply = reply_to(link, base, replies);
        let left = left_by(link, base, replies);
        let gap = text::between(s, previous_end, start);
        let before = replaced + gap;
        let new_title = render::title_of(link.link_type, title);
        // what the first link leaves behind, for the other ones
        let (content, first, replaced_next, end_next, next) = match render::content_of(
            link,
            base,
            reply,
        ) {
            Err(error) => (
                link.link_text,
                seq![ReportView::Failed(link.link_text, error)],
                before,
                start,
                Progress {
                    outcome: progress.outcome,
                    title: new_title,
                    replies: left,
                    reports: now.push(ReportView::Failed(link.link_text, error)),
                },
            ),
            Ok(raw) => if depth >= MAX_LINK_NESTED_DEPTH {
                (
                    Seq::<char>::empty(),
                    seq![ReportView::TooDeep],
                    before,
                    end,
                    Progress {
                        outcome: progress.outcome,
                        title: new_title,
                        replies: left,
                        reports: now.push(ReportView::TooDeep),
                    },
                )
            } else {
                let inner = expand::expand_content(
                    link.link_type,
                    base,
                    depth,
                    raw,
                    new_title,
                    left,
                    now,
                );
                lemma_content_reports(
                    link.link_type,
                    base,
                    depth,
                    raw,
                    new_title,
                    left,
                    now,
                    Seq::empty(),
                );
                assert(now + Seq::<ReportView>::empty() == now);
                let first = expand::expand_content(
                    link.link_type,
                    base,
                    depth,
                    raw,
                    new_title,
                    left,
                    Seq::empty(),
                ).reports;
                let content = expand::indented(
                    inner.outcome->Done_0,
                    text::last_line_of(before),
                );
                (content, first, before + content, end, inner)
            },
        };
        let (others, own_others) = lemma_text_between_links(
            s,
            rest,
            later,
            base,
            depth,
            replaced_next,
            end_next,
            next.title,
            next.replies,
            next.reports,
        );
        let contents = seq![content] + others;
        let own = seq![first] + own_others;
        assert(own.skip(1) == own_others);
        assert(now + first == next.reports);
        let tail = spliced(s, rest, others, end);
        assert(contents.skip(1) == others);
        if render::content_of(link, base, reply) is Err {
            lemma_spliced_from(s, rest, others, start, end);
            assert(before + (link.link_text + tail) == replaced + (gap + content + tail));
        } else {
            assert(before + Seq::<char>::empty() == before);
            assert(before + content + tail == replaced + (gap + content + tail));
        }
        assert forall|i: int| 0 <= i < links.len() implies comes_for(
            #[trigger] links[i],
            base,
            depth,
            expand::expand_links(
                s,
                links.take(i),
                renamed,
                base,
                depth,
                replaced,
                previous_end,
                title,
                replies,
                reports,
            ),
            contents[i],
            own[i],
        ) by {
            if i > 0 {
                assert(links.take(i)[0] == link);
                assert(links.take(i).skip(1) == rest.take(i - 1));
                assert(links[i] == rest[i - 1]);
                assert(contents[i] == others[i - 1]);
                assert(own[i] == own_others[i - 1]);
            }
        }
        (contents, own)
    }
}

/// Whatever the links of a text ask for and whatever the answers are: the text between the links
/// stays as it is. In place of each link comes what it asks for, and a link that cannot be
/// rendered stays as it is. What is reported comes in the order of the text.
pub proof fn law_text_between_links_stays(
    s: Seq<char>,
    base: Seq<char>,
    depth: nat,
    title: Seq<char>,
    replies: Seq<AnswerView>,
    reports: Seq<ReportView>,
) -> (res: (Seq<Seq<char>>, Seq<Seq<ReportView>>))
    requires
        link::are_links_in(s, link::links_of(s)),
    ensures
        res.0.len() == link::links_of(s).len(),
        res.1.len() == link::links_of(s).len(),
        expand::expand(s, base, depth, title, replies, reports) matches Progress {
            outcome: ExpansionView::Done(t),
            reports: all,
            ..
        } ==> {
            &&& t == spliced(s, link::links_of(s), res.0, 0)
            &&& all == in_text_order(link::links_of(s), link::renamed_of(s), res.1, reports)
            &&& forall|i: int|
                0 <= i < res.0.len() ==> comes_for(
                    link::links_of(s)[i],
                    base,
                    depth,
                    expand::expand_links(
                        s,
                        link::links_of(s).take(i),
                        link::renamed_of(s),
                        base,
                        depth,
                        Seq::empty(),
                        0,
                        title,
                        replies,
                        reports,
                    ),
                    #[trigger] res.0[i],
                    res.1[i],
                )
        },
{
    let links = link::links_of(s);
    let renamed = link::renamed_of(s);
    text::lemma_between_ends(s);
    let (contents, own) = lemma_text_between_links(
        s,
        links,
        renamed,
        base,
        depth,
        Seq::empty(),
        0,
        title,
        replies,
        reports,
    );
    assert(Seq::<char>::empty() + spliced(s, links, contents, 0) == spliced(s, links, contents, 0));
    if expand::expand(s, base, depth, title, replies, reports).outcome is Done {
        assert forall|i: int| 0 <= i < contents.len() implies comes_for(
            links[i],
            base,
            depth,
            expand::expand_links(
                s,
                links.take(i),
                renamed,
                base,
                depth,
                Seq::empty(),
                0,
                title,
                replies,
                reports,
            ),
            #[trigger] contents[i],
            own[i],
        ) by {
            let link = links[i];
        }
    }
    (contents, own)
}

/// What is reported of links that ask for no file: the failure of each invalid one.
pub open spec fn plain_reports(links: Seq<LinkView>) -> Seq<Seq<ReportView>> {
    Seq::new(
        links.len(),
        |i: int|
            match links[i].link_type {
                LinkTypeView::Invalid(message) => seq![
                    ReportView::Failed(
                        links[i].link_text,
                        render::RenderErrorView::Invalid(message),
                    ),
                ],
                _ => Seq::empty(),
            },
    )
}

proof fn lemma_links_without_files(
    s: Seq<char>,
    links: Seq<LinkView>,
    renamed: Seq<RenamedView>,
    base: Seq<char>,
    depth: nat,
    replaced: Seq<char>,
    previous_end: int,
    title: Seq<char>,
    replies: Seq<AnswerView>,
    reports: Seq<ReportView>,
)
    requires
        depth < MAX_LINK_NESTED_DEPTH,
        are_links_behind(s, links, previous_end),
        forall|i: int|
            0 <= i < links.len() ==> link_type::file_of((#[trigger] links[i]).link_type) is None,
    ensures
        expand::expand_links(
            s,
            links,
            renamed,
            base,
            depth,
            replaced,
            previous_end,
            title,
            replies,
            reports,
        ) == (Progress {
            outcome: ExpansionView::Done(
                replaced + spliced(s, links, plain_contents(links), previous_end),
            ),
            title: last_title(links, title),
            replies,
            reports: in_text_order(links, renamed, plain_reports(links), reports),
        }),
    decreases links.len(),
{
    if links.len() > 0 {
        lemma_links_behind(s, links, previous_end);
        let link = links[0];
        let rest = links.skip(1);
        let later = expand::not_due(renamed, link);
        let now = expand::noted(reports, renamed, link);
        let start = link.start_index as int;
        let end = link.end_index as int;
        assert forall|i: int| 0 <= i < rest.len() implies link_type::file_of(
            (#[trigger] rest[i]).link_type,
        ) is None by {
            assert(rest[i] == links[i + 1]);
        }
        assert(plain_contents(links).skip(1) == plain_contents(rest));
        assert(plain_reports(links).skip(1) == plain_reports(rest));
        assert(now + Seq::<ReportView>::empty() == now);
        let gap = text::between(s, previous_end, start);
        let before = replaced + gap;
        let content = plain_contents(links)[0];
        let tail = spliced(s, rest, plain_contents(rest), end);
        let new_title = render::title_of(link.link_type, title);
        if let LinkTypeView::Invalid(message) = link.link_type {
            let error = render::RenderErrorView::Invalid(message);
            lemma_links_without_files(
                s,
                rest,
                later,
                base,
                depth,
                before,
                start,
                new_title,
                replies,
                now.push(ReportView::Failed(link.link_text, error)),
            );
            assert(plain_reports(links)[0] == seq![ReportView::Failed(link.link_text, error)]);
            assert(now + plain_reports(links)[0] == now.push(
                ReportView::Failed(link.link_text, error),
            ));
            lemma_spliced_from(s, rest, plain_contents(rest), start, end);
            assert(before + (content + tail) == replaced + (gap + content + tail));
        } else {
            assert(!content.contains('\n')) by {
                if link.link_type is Escaped {
                    assert forall|i: int| 0 <= i < content.len() implies content[i] != '\n' by {
                        assert(content[i] == link.link_text[i + 1]);
                        assert(link.link_text.contains(link.link_text[i + 1]));
                    }
                }
            }
            lemma_indented_line(content, text::last_line_of(before));
            let inner = expand::expand_content(
                link.link_type,
                base,
                depth,
                content,
                new_title,
                replies,
                now,
            );
            assert(inner.outcome == ExpansionView::Done(content));
            lemma_links_without_files(
                s,
                rest,
                later,
                base,
                depth,
                before + content,
                end,
                new_title,
                replies,
                now,
            );
            assert(before + content + tail == replaced + (gap + content + tail));
        }
    }
}

/// In a text whose links ask for no file, an escaped link comes out without its backslash, and is
/// not expanded. A link that sets the title leaves nothing behind, and the last one decides. An
/// invalid link stays as it is, and is reported. No answers are needed.
pub proof fn law_links_without_files(
    s: Seq<char>,
    base: Seq<char>,
    depth: nat,
    title: Seq<char>,
    replies: Seq<AnswerView>,
    reports: Seq<ReportView>,
)
    requires
        depth < MAX_LINK_NESTED_DEPTH,
        link::are_links_in(s, link::links_of(s)),
        forall|i: int|
            0 <= i < link::links_of(s).len() ==> link_type::file_of(
                (#[trigger] link::links_of(s)[i]).link_type,
            ) is None,
    ensures
        expand::expand(s, base, depth, title, replies, reports) == (Progress {
            outcome: ExpansionView::Done(
                spliced(s, link::links_of(s), plain_contents(link::links_of(s)), 0),
            ),
            title: last_title(link::links_of(s), title),
            replies,
            reports: in_text_order(
                link::links_of(s),
                link::renamed_of(s),
                plain_reports(link::links_of(s)),
                reports,
            ),
        }),
{
    let links = link::links_of(s);
    text::lemma_between_ends(s);
    lemma_links_without_files(
        s,
        links,
        link::renamed_of(s),
        base,
        depth,
        Seq::empty(),
        0,
        title,
        replies,
        reports,
    );
    assert(Seq::<char>::empty() + spliced(s, links, plain_contents(links), 0) == spliced(
        s,
        links,
        plain_contents(links),
        0,
    ));
}

/// Nothing in place of each of several links.
pub open spec fn no_contents(links: Seq<LinkView>) -> Seq<Seq<char>> {
    Seq::new(links.len(), |i: int| Seq::<char>::empty())
}

/// What is reported of links that are nested too deep.
pub open spec fn deep_reports(links: Seq<LinkView>) -> Seq<Seq<ReportView>> {
    Seq::new(links.len(), |i: int| seq![ReportView::TooDeep])
}

proof fn lemma_deep_links(
    s: Seq<char>,
    links: Seq<LinkView>,
    renamed: Seq<RenamedView>,
    base: Seq<char>,
    depth: nat,
    replaced: Seq<char>,
    previous_end: int,
    title: Seq<char>,
    replies: Seq<AnswerView>,
    reports: Seq<ReportView>,
)
    requires
        depth >= MAX_LINK_NESTED_DEPTH,
        are_links_behind(s, links, previous_end),
        forall|i: int| 0 <= i < links.len() ==> !((#[trigger] links[i]).link_type is Invalid),
        forall|i: int|
            0 <= i < replies.len() && i < files_asked(links) ==> (#[trigger] replies[i]) is Ok,
    ensures
        ({
            let progress = expand::expand_links(
                s,
                links,
                renamed,
                base,
                depth,
                replaced,
                previous_end,
                title,
                replies,
                reports,
            );
            if replies.len() >= files_asked(links) {
                &&& progress.outcome == ExpansionView::Done(
                    replaced + spliced(s, links, no_contents(links), previous_end),
                )
                &&& progress.title == last_title(links, title)
                &&& progress.reports == in_text_order(links, renamed, deep_reports(links), reports)
            } else {
                progress.outcome is Read
            }
        }),
    decreases links.len(),
{
    if links.len() > 0 {
        lemma_links_behind(s, links, previous_end);
        let link = links[0];
        let rest = links.skip(1);
        let later = expand::not_due(renamed, link);
        let now = expand::noted(reports, renamed, link);
        assert forall|i: int| 0 <= i < rest.len() implies !((#[trigger] rest[i]).link_type
            is Invalid) by {
            assert(rest[i] == links[i + 1]);
        }
        assert(no_contents(links).skip(1) == no_contents(rest));
        let before = replaced + text::between(s, previous_end, link.start_index as int);
        let request = render::request_of(link.link_type, base);
        let left = if request is Some && replies.len() > 0 {
            replies.skip(1)
        } else {
            replies
        };
        assert forall|i: int|
            0 <= i < left.len() && i < files_asked(rest) implies (#[trigger] left[i]) is Ok by {
            if request is Some && replies.len() > 0 {
                assert(left[i] == replies[i + 1]);
            }
        }
        lemma_deep_links(
            s,
            rest,
            later,
            base,
            depth,
            before,
            link.end_index as int,
            render::title_of(link.link_type, title),
            left,
            now.push(ReportView::TooDeep),
        );
        assert(deep_reports(links).skip(1) == deep_reports(rest));
        assert(now + seq![ReportView::TooDeep] == now.push(ReportView::TooDeep));
        assert(before + spliced(s, rest, no_contents(rest), link.end_index as int) == replaced
            + spliced(s, links, no_contents(links), previous_end));
    }
}

/// Links that are nested too deep are left out and reported, once their files were read, so that
/// files which include each other come to an end. Those among them that set the title still do.
pub proof fn law_links_too_deep_are_left_out(
    s: Seq<char>,
    base: Seq<char>,
    depth: nat,
    title: Seq<char>,
    replies: Seq<AnswerView>,
    reports: Seq<ReportView>,
)
    requires
        depth >= MAX_LINK_NESTED_DEPTH,
        link::are_links_in(s, link::links_of(s)),
        forall|i: int|
            0 <= i < link::links_of(s).len() ==> !((#[trigger] link::links_of(s)[i]).link_type
                is Invalid),
        forall|i: int|
            0 <= i < replies.len() && i < files_asked(link::links_of(s)) ==> (
            #[trigger] replies[i]) is Ok,
    ensures
        if replies.len() >= files_asked(link::links_of(s)) {
            let progress = expand::expand(s, base, depth, title, replies, reports);
            &&& progress.outcome == ExpansionView::Done(
                spliced(s, link::links_of(s), no_contents(link::links_of(s)), 0),
            )
            &&& progress.title == last_title(link::links_of(s), title)
            &&& progress.reports == in_text_order(
                link::links_of(s),
                link::renamed_of(s),
                deep_reports(link::links_of(s)),
                reports,
            )
        } else {
            expand::expand(s, base, depth, title, replies, reports).outcome is Read
        },
{
    let links = link::links_of(s);
    text::lemma_between_ends(s);
    lemma_deep_links(
        s,
        links,
        link::renamed_of(s),
        base,
        depth,
        Seq::empty(),
        0,
        title,
        replies,
        reports,
    );
    assert(Seq::<char>::empty() + spliced(s, links, no_contents(links), 0) == spliced(
        s,
        links,
        no_contents(links),
        0,
    ));
}

proof fn lemma_reports_are_added(
    s: Seq<char>,
    links: Seq<LinkView>,
    renamed: Seq<RenamedView>,
    base: Seq<char>,
    depth: nat,
    replaced: Seq<char>,
    previous_end: int,
    title: Seq<char>,
    replies: Seq<AnswerView>,
    before: Seq<ReportView>,
    reports: Seq<ReportView>,
)
    ensures
        ({
            let progress = expand::expand_links(
                s,
                links,
                renamed,
                base,
                depth,
                replaced,
                previous_end,
                title,
                replies,
                reports,
            );
            expand::expand_links(
                s,
                links,
                renamed,
                base,
                depth,
                replaced,
                previous_end,
                title,
                replies,
                before + reports,
            ) == (Progress { reports: before + progress.reports, ..progress })
        }),
    decreases expand::levels_left(depth), links.len(),
{
    if links.len() == 0 {
        let last = expand::renamed_reports(renamed);
        assert(before + reports + last == before + (reports + last));
    } else {
        let link = links[0];
        let rest = links.skip(1);
        let later = expand::not_due(renamed, link);
        let now = expand::noted(reports, renamed, link);
        assert(expand::noted(before + reports, renamed, link) == before + now);
        let start = link.start_index as int;
        let end = link.end_index as int;
        if render::request_of(link.link_type, base) is None || replies.len() > 0 {
            let left = left_by(link, base, replies);
            let replaced_next = replaced + text::between(s, previous_end, start);
            let new_title = render::title_of(link.link_type, title);
            match render::content_of(link, base, reply_to(link, base, replies)) {
                Err(error) => {
                    let failed = ReportView::Failed(link.link_text, error);
                    lemma_reports_are_added(
                        s,
                        rest,
                        later,
                        base,
                        depth,
                        replaced_next,
                        start,
                        new_title,
                        left,
                        before,
                        now.push(failed),
                    );
                    assert((before + now).push(failed) == before + now.push(failed));
                },
                Ok(content) => if depth >= MAX_LINK_NESTED_DEPTH {
                    let deep = ReportView::TooDeep;
                    lemma_reports_are_added(
                        s,
                        rest,
                        later,
                        base,
                        depth,
                        replaced_next,
                        end,
                        new_title,
                        left,
                        before,
                        now.push(deep),
                    );
                    assert((before + now).push(deep) == before + now.push(deep));
                } else {
                    let inner = expand::expand_content(
                        link.link_type,
                        base,
                        depth,
                        content,
                        new_title,
                        left,
                        now,
                    );
                    lemma_content_reports(
                        link.link_type,
                        base,
                        depth,
                        content,
                        new_title,
                        left,
                        before,
                        now,
                    );
                    if let ExpansionView::Done(raw) = inner.outcome {
                        lemma_reports_are_added(
                            s,
                            rest,
                            later,
                            base,
                            depth,
                            replaced_next + expand::indented(
                                raw,
                                text::last_line_of(replaced_next),
                            ),
                            end,
                            inner.title,
                            inner.replies,
                            before,
                            inner.reports,
                        );
                    }
                },
            }
        }
    }
}

proof fn lemma_content_reports(
    link_type: LinkTypeView,
    base: Seq<char>,
    depth: nat,
    content: Seq<char>,
    title: Seq<char>,
    replies: Seq<AnswerView>,
    before: Seq<ReportView>,
    reports: Seq<ReportView>,
)
    ensures
        ({
            let progress = expand::expand_content(
                link_type,
                base,
                depth,
                content,
                title,
                replies,
                reports,
            );
            expand::expand_content(
                link_type,
                base,
                depth,
                content,
                title,
                replies,
                before + reports,
            ) == (Progress { reports: before + progress.reports, ..progress })
        }),
    decreases expand::levels_left(depth), 0nat,
{
    if depth < MAX_LINK_NESTED_DEPTH {
        if let Some(file) = link_type::file_of(link_type) {
            if let Some(dir) = path::parent_path(path::joined_path(base, file)) {
                lemma_reports_are_added(
                    content,
                    link::links_of(content),
                    link::renamed_of(content),
                    dir,
                    depth + 1,
                    Seq::empty(),
                    0,
                    title,
                    replies,
                    before,
                    reports,
                );
            }
        }
    }
}

/// The reports made before stay where they are, the new ones come behind them, and what was
/// reported makes no difference to what comes out.
pub proof fn law_reports_are_added(
    s: Seq<char>,
    base: Seq<char>,
    depth: nat,
    title: Seq<char>,
    replies: Seq<AnswerView>,
    reports: Seq<ReportView>,
)
    ensures
        ({
            let progress = expand::expand(s, base, depth, title, replies, Seq::empty());
            expand::expand(s, base, depth, title, replies, reports) == (Progress {
                reports: reports + progress.reports,
                ..progress
            })
        }),
{
    assert(reports + Seq::<ReportView>::empty() == reports);
    lemma_reports_are_added(
        s,
        link::links_of(s),
        link::renamed_of(s),
        base,
        depth,
        Seq::empty(),
        0,
        title,
        replies,
        reports,
        Seq::empty(),
    );
}

/// A text with a single link that asks for a file: without an answer, that file is asked for. With
/// the text taken from it, in which there is no link, that text comes in place of the link, and
/// behind each of its line endings what stands before the link on its line.
pub proof fn law_single_file_link(
    s: Seq<char>,
    link: LinkView,
    base: Seq<char>,
    depth: nat,
    title: Seq<char>,
    reports: Seq<ReportView>,
    reply: Seq<char>,
    content: Seq<char>,
)
    requires
        depth < MAX_LINK_NESTED_DEPTH,
        link::links_of(s) == seq![link],
        link_type::file_of(link.link_type) is Some,
        path::parent_path(path::joined_path(base, link_type::file_of(link.link_type)->0)) is Some,
        render::content_of(link, base, Ok(reply)) == Ok::<Seq<char>, render::RenderErrorView>(
            content,
        ),
        link::links_of(content).len() == 0,
    ensures
        render::request_of(link.link_type, base) is Some,
        expand::expand(s, base, depth, title, Seq::empty(), reports).outcome == ExpansionView::Read(
            render::request_of(link.link_type, base)->0,
        ),
        ({
            let before = text::between(s, 0, link.start_index as int);
            let after = text::from_offset(s, link.end_index as int);
            expand::expand(s, base, depth, title, seq![Ok(reply)], reports) == (Progress {
                outcome: ExpansionView::Done(
                    before + expand::indented(content, text::last_line_of(before)) + after,
                ),
                title,
                replies: Seq::empty(),
                reports: expand::noted(reports, link::renamed_of(s), link)
                    + expand::renamed_reports(link::renamed_of(content))
                    + expand::renamed_reports(expand::not_due(link::renamed_of(s), link)),
            })
        }),
{
    let replies: Seq<AnswerView> = seq![Ok(reply)];
    let made = expand::noted(reports, link::renamed_of(s), link);
    let before = text::between(s, 0, link.start_index as int);
    assert(Seq::<char>::empty() + before == before);
    assert(replies.skip(1) == Seq::<AnswerView>::empty());
    assert(seq![link].skip(1) == Seq::<LinkView>::empty());
    let dir = path::parent_path(path::joined_path(base, link_type::file_of(link.link_type)->0))->0;
    law_text_without_links(content, dir, depth + 1, title, replies.skip(1), made);
    let inner = expand::expand_content(
        link.link_type,
        base,
        depth,
        content,
        title,
        replies.skip(1),
        made,
    );
    assert(inner.outcome == ExpansionView::Done(content));
    let replaced = before + expand::indented(content, text::last_line_of(before));
    let rest = expand::expand_links(
        s,
        Seq::empty(),
        expand::not_due(link::renamed_of(s), link),
        base,
        depth,
        replaced,
        link.end_index as int,
        title,
        Seq::empty(),
        inner.reports,
    );
    assert(rest.outcome == ExpansionView::Done(
        replaced + text::from_offset(s, link.end_index as int),
    ));
}

/// A text with a prefix put behind each of its line feeds.
pub open spec fn with_prefix(s: Seq<char>, prefix: Seq<char>) -> Seq<char>
    decreases s.len(),
{
    if s.len() == 0 {
        Seq::empty()
    } else if s[0] == '\n' {
        seq!['\n'] + prefix + with_prefix(s.skip(1), prefix)
    } else {
        seq![s[0]] + with_prefix(s.skip(1), prefix)
    }
}

proof fn lemma_with_prefix_line(line: Seq<char>, rest: Seq<char>, prefix: Seq<char>)
    requires
        forall|i: int| 0 <= i < line.len() ==> #[trigger] line[i] != '\n',
    ensures
        with_prefix(line + rest, prefix) == line + with_prefix(rest, prefix),
    decreases line.len(),
{
    let both = line + rest;
    if line.len() == 0 {
        assert(both == rest);
    } else {
        let tail = line.skip(1);
        assert forall|i: int| 0 <= i < tail.len() implies #[trigger] tail[i] != '\n' by {
            assert(tail[i] == line[i + 1]);
        }
        lemma_with_prefix_line(tail, rest, prefix);
        assert(both[0] == line[0]);
        assert(both.skip(1) == tail + rest);
        assert(seq![line[0]] + (tail + with_prefix(rest, prefix)) == line + with_prefix(
            rest,
            prefix,
        ));
    }
}

/// Whether a carriage return and a line feed stand at a place of a text.
pub open spec fn is_return_at(s: Seq<char>, i: int) -> bool {
    0 <= i && i + 1 < s.len() && s[i] == '\r' && s[i + 1] == '\n'
}

/// Whether a text has no carriage return before a line feed, and no line feed at its end.
pub open spec fn has_plain_line_ends(s: Seq<char>) -> bool {
    &&& s.len() > 0 ==> s.last() != '\n'
    &&& forall|i: int| !#[trigger] is_return_at(s, i)
}

/// What comes in place of a link is the text that it asks for, with what stands before the link on
/// its line behind each line feed. (A carriage return before a line feed would be dropped, and so
/// would a line feed at the end.)
pub proof fn law_lines_are_prefixed(content: Seq<char>, prefix: Seq<char>)
    requires
        has_plain_line_ends(content),
    ensures
        expand::indented(content, prefix) == with_prefix(content, prefix),
    decreases content.len(),
{
    let separator = seq!['\n'] + prefix;
    let n = text::find(content, '\n');
    text::lemma_find(content, '\n');
    if content.len() == 0 {
    } else if n >= content.len() {
        lemma_with_prefix_line(content, Seq::empty(), prefix);
        assert(content + Seq::<char>::empty() == content);
    } else {
        let line = content.take(n as int);
        let rest = content.skip(n as int + 1);
        assert(rest.len() > 0);
        assert(rest.last() == content.last());
        assert forall|i: int| !#[trigger] is_return_at(rest, i) by {
            assert(!is_return_at(content, i + n + 1));
        }
        law_lines_are_prefixed(rest, prefix);
        assert(text::without_return(line) == line) by {
            if line.len() > 0 {
                assert(!is_return_at(content, n - 1));
            }
        }
        assert(text::lines_of(rest).len() > 0);
        text_laws::lemma_join_first(line, text::lines_of(rest), separator);
        assert(content == line + (seq!['\n'] + rest));
        lemma_with_prefix_line(line, seq!['\n'] + rest, prefix);
        assert((seq!['\n'] + rest).skip(1) == rest);
        assert(line + (seq!['\n'] + prefix + with_prefix(rest, prefix)) == line + separator
            + with_prefix(rest, prefix));
    }
}

proof fn lemma_with_empty_prefix(s: Seq<char>)
    ensures
        with_prefix(s, Seq::empty()) == s,
    decreases s.len(),
{
    if s.len() > 0 {
        lemma_with_empty_prefix(s.skip(1));
        assert(seq!['\n'] + Seq::<char>::empty() == seq!['\n']);
        assert(seq![s[0]] + s.skip(1) == s);
    }
}

/// In place of a link at the start of a line comes the text that it asks for, unchanged.
pub proof fn law_text_at_line_start_is_unchanged(content: Seq<char>)
    requires
        has_plain_line_ends(content),
    ensures
        expand::indented(content, Seq::empty()) == content,
{
    law_lines_are_prefixed(content, Seq::empty());
    lemma_with_empty_prefix(content);
}

proof fn lemma_lines_with_end(content: Seq<char>)
    requires
        content.len() > 0,
        content.last() != '\n',
        content.last() != '\r',
    ensures
        text::lines_of(content.push('\n')) == text::lines_of(content),
    decreases content.len(),
{
    let ended = content.push('\n');
    let n = text::find(content, '\n');
    text::lemma_find(content, '\n');
    assert forall|i: int| 0 <= i < n implies #[trigger] ended[i] != '\n' by {
        assert(ended[i] == content[i]);
    }
    text::lemma_find_is(ended, '\n', n);
    assert(ended.take(n as int) == content.take(n as int));
    if n >= content.len() {
        assert(content.take(n as int) == content);
        assert(ended.skip(n as int + 1) == Seq::<char>::empty());
        assert(text::lines_of(Seq::empty()) == Seq::<Seq<char>>::empty());
        assert(seq![content] + Seq::<Seq<char>>::empty() == seq![content]);
    } else {
        let rest = content.skip(n as int + 1);
        lemma_lines_with_end(rest);
        assert(ended.skip(n as int + 1) == rest.push('\n'));
    }
}

/// The line ending at the end of a text makes no difference where the text comes in place of a
/// link.
pub proof fn law_last_line_ending_is_dropped(content: Seq<char>, prefix: Seq<char>)
    requires
        content.len() > 0 ==> content.last() != '\n' && content.last() != '\r',
    ensures
        expand::indented(content.push('\n'), prefix) == expand::indented(content, prefix),
{
    if content.len() > 0 {
        lemma_lines_with_end(content);
    } else {
        let ended = content.push('\n');
        text::lemma_find_is(ended, '\n', 0);
        assert(ended.take(0) == Seq::<char>::empty());
        assert(ended.skip(1) == Seq::<char>::empty());
        assert(text::lines_of(Seq::empty()) == Seq::<Seq<char>>::empty());
        assert(text::lines_of(ended) == seq![Seq::<char>::empty()]);
    }
}

/// A `playpen` is a `playground`.
pub proof fn law_playpen_is_playground(
    s: Seq<char>,
    capture: Seq<Option<(usize, usize)>>,
    kind: (usize, usize),
    arguments: (usize, usize),
)
    requires
        link::group_of(capture, 1) == Some(kind),
        link::group_of(capture, 2) == Some(arguments),
        link::span_text(s, kind) == "playpen"@ || link::span_text(s, kind) == "playground"@,
    ensures
        link::link_type_of(s, capture) == link_type::playground_of(link::span_text(s, arguments)),
{
    reveal_strlit("playpen");
    reveal_strlit("playground");
    reveal_strlit("title");
    reveal_strlit("include");
    reveal_strlit("rustdoc_include");
    assert("playpen"@.len() == 7);
    assert("playground"@.len() == 10);
    assert("playpen"@[0] == 'p');
    assert("include"@[0] == 'i');
}

/// A chapter keeps its name and its file, and keeps its text until all of its links are replaced.
/// A chapter without a file is left as it is. A title is reported only where it differs from the
/// name.
pub proof fn law_chapter_is_kept(
    src_dir: Seq<char>,
    chapter: ChapterView,
    replies: Seq<AnswerView>,
)
    ensures
        ({
            let (result, step) = preprocessor::run_chapter_of(src_dir, chapter, replies);
            &&& result.name == chapter.name
            &&& result.path == chapter.path
            &&& !(step is Done) ==> result == chapter
            &&& chapter.path is None ==> result == chapter && step == ChapterStepView::Done(
                None,
                Seq::empty(),
            )
            &&& step matches ChapterStepView::Done(Some(title), _) ==> title != chapter.name
        }),
{
}

} // verus!
