//! What holds of the requests that the expansion of links makes, and of their answers.
use vstd::prelude::*;

use crate::expand;
use crate::expand::{ExpansionView, Progress, ReportView, MAX_LINK_NESTED_DEPTH};
use crate::link;
use crate::link::{LinkView, RenamedView};
use crate::link_type;
use crate::link_type::LinkTypeView;
use crate::path;
use crate::render;
use crate::render::{AnswerView, RequestView};
use crate::text;

verus! {

/// Whether some answers are the last ones of others.
pub open spec fn is_end_of(
    end: Seq<AnswerView>,
    replies: Seq<AnswerView>,
) -> bool {
    end.len() <= replies.len() && end == replies.skip(replies.len() - end.len())
}

proof fn lemma_end_of_end(
    a: Seq<AnswerView>,
    b: Seq<AnswerView>,
    c: Seq<AnswerView>,
)
    requires
        is_end_of(a, b),
        is_end_of(b, c),
    ensures
        is_end_of(a, c),
{
    assert(b.skip(b.len() - a.len()) == c.skip(c.len() - a.len()));
}

proof fn lemma_more_replies(
    s: Seq<char>,
    links: Seq<LinkView>,
    renamed: Seq<RenamedView>,
    base: Seq<char>,
    depth: nat,
    replaced: Seq<char>,
    previous_end: int,
    title: Seq<char>,
    replies: Seq<AnswerView>,
    reports: Seq<ReportView>,
    more: Seq<AnswerView>,
)
    ensures
        ({
            let progress = expand::expand_links(
                s,
                links,
                renamed,
                base,
                depth,
                replaced,
                previous_end,
                title,
                replies,
                reports,
            );
            &&& is_end_of(progress.replies, replies)
            &&& progress.outcome is Read ==> progress.replies.len() == 0
            &&& !(progress.outcome is Read) ==> expand::expand_links(
                s,
                links,
                renamed,
                base,
                depth,
                replaced,
                previous_end,
                title,
                replies + more,
                reports,
            ) == (Progress { replies: progress.replies + more, ..progress })
        }),
    decreases expand::levels_left(depth), links.len(),
{
    let all = replies + more;
    let progress = expand::expand_links(
        s,
        links,
        renamed,
        base,
        depth,
        replaced,
        previous_end,
        title,
        replies,
        reports,
    );
    assert(replies.skip(0) == replies);
    if links.len() > 0 {
        let link = links[0];
        let rest = links.skip(1);
        let later = expand::not_due(renamed, link);
        let now = expand::noted(reports, renamed, link);
        let request = render::request_of(link.link_type, base);
        if request is None || replies.len() > 0 {
            let before = replaced + text::between(s, previous_end, link.start_index as int);
            let reply = if request is Some {
                replies[0]
            } else {
                Ok(Seq::empty())
            };
            let left = if request is Some {
                replies.skip(1)
            } else {
                replies
            };
            if request is Some {
                assert(all[0] == replies[0]);
                assert(all.skip(1) == left + more);
            }
            assert(is_end_of(left, replies));
            assert(left.skip(0) == left);
            let new_title = render::title_of(link.link_type, title);
            match render::content_of(link, base, reply) {
                Err(error) => {
                    lemma_more_replies(
                        s,
                        rest,
                        later,
                        base,
                        depth,
                        before,
                        link.start_index as int,
                        new_title,
                        left,
                        now.push(ReportView::Failed(link.link_text, error)),
                        more,
                    );
                    lemma_end_of_end(progress.replies, left, replies);
                },
                Ok(content) => {
                    if depth >= MAX_LINK_NESTED_DEPTH {
                        lemma_more_replies(
                            s,
                            rest,
                            later,
                            base,
                            depth,
                            before,
                            link.end_index as int,
                            new_title,
                            left,
                            now.push(ReportView::TooDeep),
                            more,
                        );
                        lemma_end_of_end(progress.replies, left, replies);
                    } else {
                        let inner = expand::expand_content(
                            link.link_type,
                            base,
                            depth,
                            content,
                            new_title,
                            left,
                            now,
                        );
                        let inner_more = expand::expand_content(
                            link.link_type,
                            base,
                            depth,
                            content,
                            new_title,
                            left + more,
                            now,
                        );
                        if let Some(file) = link_type::file_of(link.link_type) {
                            if let Some(dir) = path::parent_path(path::joined_path(base, file)) {
                                lemma_more_replies(
                                    content,
                                    link::links_of(content),
                                    link::renamed_of(content),
                                    dir,
                                    depth + 1,
                                    Seq::empty(),
                                    0,
                                    new_title,
                                    left,
                                    now,
                                    more,
                                );
                            }
                        }
                        assert(is_end_of(inner.replies, left));
                        if let ExpansionView::Done(raw) = inner.outcome {
                            lemma_more_replies(
                                s,
                                rest,
                                later,
                                base,
                                depth,
                                before + expand::indented(raw, text::last_line_of(before)),
                                link.end_index as int,
                                inner.title,
                                inner.replies,
                                inner.reports,
                                more,
                            );
                            lemma_end_of_end(progress.replies, inner.replies, left);
                        }
                        lemma_end_of_end(progress.replies, left, replies);
                    }
                },
            }
        }
    }
}

/// The expansion of a text can be taken up again with more answers. It asks for a file only when
/// it has used up all the answers. Where it came to an end, more answers change nothing, and are
/// left over. And it uses the answers in their order.
pub proof fn law_expansion_can_be_resumed(
    s: Seq<char>,
    base: Seq<char>,
    depth: nat,
    title: Seq<char>,
    replies: Seq<AnswerView>,
    reports: Seq<ReportView>,
    more: Seq<AnswerView>,
)
    ensures
        ({
            let progress = expand::expand(s, base, depth, title, replies, reports);
            &&& is_end_of(progress.replies, replies)
            &&& progress.outcome is Read ==> progress.replies.len() == 0
            &&& !(progress.outcome is Read) ==> expand::expand(
                s,
                base,
                depth,
                title,
                replies + more,
                reports,
            ) == (Progress { replies: progress.replies + more, ..progress })
        }),
{
    lemma_more_replies(
        s,
        link::links_of(s),
        link::renamed_of(s),
        base,
        depth,
        Seq::empty(),
        0,
        title,
        replies,
        reports,
        more,
    );
}

/// What comes of the links of a text whose requests are all answered.
#[verifier::ext_equal]
pub struct Resolved {
    /// The text that comes out, or the file that lies in no directory.
    pub outcome: ExpansionView,
    /// The title of the chapter.
    pub title: Seq<char>,
    /// The reports made before, with those on the links.
    pub reports: Seq<ReportView>,
    /// The answers to the requests that were made, in their order.
    pub answers: Seq<AnswerView>,
}

/// The same with further answers, to requests that were made before.
pub open spec fn answered(answers: Seq<AnswerView>, resolved: Resolved) -> Resolved {
    Resolved { answers: answers + resolved.answers, ..resolved }
}

/// The answer that a link gets: from `files`, if it makes a request.
pub open spec fn answer_from(
    files: spec_fn(RequestView) -> AnswerView,
    link: LinkView,
    base: Seq<char>,
) -> AnswerView {
    match render::request_of(link.link_type, base) {
        Some(request) => files(request),
        None => Ok(Seq::empty()),
    }
}

/// The answers that a link uses: one, if it makes a request.
pub open spec fn used_by(
    files: spec_fn(RequestView) -> AnswerView,
    link: LinkView,
    base: Seq<char>,
) -> Seq<AnswerView> {
    match render::request_of(link.link_type, base) {
        Some(request) => seq![files(request)],
        None => Seq::empty(),
    }
}

/// What comes of the remaining links of a text, where `files` answers every request, and
/// `replaced` is what came of the text up to `previous_end`, and `renamed` are the matches by a
/// former name that are still to be reported.
pub open spec fn resolve_links(
    files: spec_fn(RequestView) -> AnswerView,
    s: Seq<char>,
    links: Seq<LinkView>,
    renamed: Seq<RenamedView>,
    base: Seq<char>,
    depth: nat,
    replaced: Seq<char>,
    previous_end: int,
    title: Seq<char>,
    reports: Seq<ReportView>,
) -> Resolved
    decreases expand::levels_left(depth), links.len(),
{
    if links.len() == 0 {
        Resolved {
            outcome: ExpansionView::Done(replaced + text::from_offset(s, previous_end)),
            title,
            reports: reports + expand::renamed_reports(renamed),
            answers: Seq::empty(),
        }
    } else {
        let link = links[0];
        let rest = links.skip(1);
        let later = expand::not_due(renamed, link);
        let now = expand::noted(reports, renamed, link);
        let used = used_by(files, link, base);
        let before = replaced + text::between(s, previous_end, link.start_index as int);
        let new_title = render::title_of(link.link_type, title);
        match render::content_of(link, base, answer_from(files, link, base)) {
            Err(error) => answered(
                used,
                resolve_links(
                    files,
                    s,
                    rest,
                    later,
                    base,
                    depth,
                    before,
                    link.start_index as int,
                    new_title,
                    now.push(ReportView::Failed(link.link_text, error)),
                ),
            ),
            Ok(content) => if depth >= MAX_LINK_NESTED_DEPTH {
                answered(
                    used,
                    resolve_links(
                        files,
                        s,
                        rest,
                        later,
                        base,
                        depth,
                        before,
                        link.end_index as int,
                        new_title,
                        now.push(ReportView::TooDeep),
                    ),
                )
            } else {
                let inner = resolve_content(
                    files,
                    link.link_type,
                    base,
                    depth,
                    content,
                    new_title,
                    now,
                );
                match inner.outcome {
                    ExpansionView::Done(raw) => answered(
                        used + inner.answers,
                        resolve_links(
                            files,
                            s,
                            rest,
                            later,
                            base,
                            depth,
                            before + expand::indented(raw, text::last_line_of(before)),
                            link.end_index as int,
                            inner.title,
                            inner.reports,
                        ),
                    ),
                    _ => answered(used, inner),
                }
            },
        }
    }
}

/// What comes of the links in what a link asks for, where `files` answers every request.
pub open spec fn resolve_content(
    files: spec_fn(RequestView) -> AnswerView,
    link_type: LinkTypeView,
    base: Seq<char>,
    depth: nat,
    content: Seq<char>,
    title: Seq<char>,
    reports: Seq<ReportView>,
) -> Resolved
    decreases expand::levels_left(depth), 0nat,
{
    let unchanged = Resolved {
        outcome: ExpansionView::Done(content),
        title,
        reports,
        answers: Seq::empty(),
    };
    if depth >= MAX_LINK_NESTED_DEPTH {
        unchanged
    } else {
        match link_type::file_of(link_type) {
            None => unchanged,
            Some(file) => {
                let target = path::joined_path(base, file);
                match path::parent_path(target) {
                    Some(dir) => resolve_links(
                        files,
                        content,
                        link::links_of(content),
                        link::renamed_of(content),
                        dir,
                        depth + 1,
                        Seq::empty(),
                        0,
                        title,
                        reports,
                    ),
                    None => Resolved { outcome: ExpansionView::NoDirectory(target), ..unchanged },
                }
            },
        }
    }
}

/// What comes of the links of a text that are relative to `base`, where `files` answers every
/// request.
pub open spec fn resolve(
    files: spec_fn(RequestView) -> AnswerView,
    s: Seq<char>,
    base: Seq<char>,
    depth: nat,
    title: Seq<char>,
    reports: Seq<ReportView>,
) -> Resolved {
    resolve_links(
        files,
        s,
        link::links_of(s),
        link::renamed_of(s),
        base,
        depth,
        Seq::empty(),
        0,
        title,
        reports,
    )
}

/// With all of the answers, and more, the links are replaced as they are with `files`.
proof fn lemma_all_answers(
    files: spec_fn(RequestView) -> AnswerView,
    s: Seq<char>,
    links: Seq<LinkView>,
    renamed: Seq<RenamedView>,
    base: Seq<char>,
    depth: nat,
    replaced: Seq<char>,
    previous_end: int,
    title: Seq<char>,
    reports: Seq<ReportView>,
    more: Seq<AnswerView>,
)
    ensures
        ({
            let resolved = resolve_links(
                files,
                s,
                links,
                renamed,
                base,
                depth,
                replaced,
                previous_end,
                title,
                reports,
            );
            &&& !(resolved.outcome is Read)
            &&& expand::expand_links(
                s,
                links,
                renamed,
                base,
                depth,
                replaced,
                previous_end,
                title,
                resolved.answers + more,
                reports,
            ) == (Progress {
                outcome: resolved.outcome,
                title: resolved.title,
                replies: more,
                reports: resolved.reports,
            })
        }),
    decreases expand::levels_left(depth), links.len(),
{
    let resolved = resolve_links(
        files,
        s,
        links,
        renamed,
        base,
        depth,
        replaced,
        previous_end,
        title,
        reports,
    );
    let all = resolved.answers + more;
    if links.len() == 0 {
        assert(all == more);
    } else {
        let link = links[0];
        let rest = links.skip(1);
        let later = expand::not_due(renamed, link);
        let now = expand::noted(reports, renamed, link);
        let used = used_by(files, link, base);
        let before = replaced + text::between(s, previous_end, link.start_index as int);
        let new_title = render::title_of(link.link_type, title);
        let start = link.start_index as int;
        let end = link.end_index as int;
        match render::content_of(link, base, answer_from(files, link, base)) {
            Err(error) => {
                let made = now.push(ReportView::Failed(link.link_text, error));
                lemma_all_answers(
                    files,
                    s,
                    rest,
                    later,
                    base,
                    depth,
                    before,
                    start,
                    new_title,
                    made,
                    more,
                );
                let next = resolve_links(
                    files,
                    s,
                    rest,
                    later,
                    base,
                    depth,
                    before,
                    start,
                    new_title,
                    made,
                );
                lemma_first_used(files, link, base, next.answers + more);
                assert(all == used + (next.answers + more));
            },
            Ok(content) => {
                if depth >= MAX_LINK_NESTED_DEPTH {
                    let made = now.push(ReportView::TooDeep);
                    lemma_all_answers(
                        files,
                        s,
                        rest,
                        later,
                        base,
                        depth,
                        before,
                        end,
                        new_title,
                        made,
                        more,
                    );
                    let next = resolve_links(
                        files,
                        s,
                        rest,
                        later,
                        base,
                        depth,
                        before,
                        end,
                        new_title,
                        made,
                    );
                    lemma_first_used(files, link, base, next.answers + more);
                    assert(all == used + (next.answers + more));
                } else {
                    let inner = resolve_content(
                        files,
                        link.link_type,
                        base,
                        depth,
                        content,
                        new_title,
                        now,
                    );
                    let after = if let ExpansionView::Done(raw) = inner.outcome {
                        let replaced_next = before + expand::indented(
                            raw,
                            text::last_line_of(before),
                        );
                        lemma_all_answers(
                            files,
                            s,
                            rest,
                            later,
                            base,
                            depth,
                            replaced_next,
                            end,
                            inner.title,
                            inner.reports,
                            more,
                        );
                        resolve_links(
                            files,
                            s,
                            rest,
                            later,
                            base,
                            depth,
                            replaced_next,
                            end,
                            inner.title,
                            inner.reports,
                        ).answers + more
                    } else {
                        more
                    };
                    lemma_all_answers_in_content(
                        files,
                        link.link_type,
                        base,
                        depth,
                        content,
                        new_title,
                        now,
                        after,
                    );
                    lemma_first_used(files, link, base, inner.answers + after);
                    assert(all == used + (inner.answers + after));
                }
            },
        }
    }
}

proof fn lemma_all_answers_in_content(
    files: spec_fn(RequestView) -> AnswerView,
    link_type: LinkTypeView,
    base: Seq<char>,
    depth: nat,
    content: Seq<char>,
    title: Seq<char>,
    reports: Seq<ReportView>,
    more: Seq<AnswerView>,
)
    ensures
        ({
            let resolved = resolve_content(
                files,
                link_type,
                base,
                depth,
                content,
                title,
                reports,
            );
            &&& !(resolved.outcome is Read)
            &&& expand::expand_content(
                link_type,
                base,
                depth,
                content,
                title,
                resolved.answers + more,
                reports,
            ) == (Progress {
                outcome: resolved.outcome,
                title: resolved.title,
                replies: more,
                reports: resolved.reports,
            })
        }),
    decreases expand::levels_left(depth), 0nat,
{
    assert(Seq::<AnswerView>::empty() + more == more);
    if depth < MAX_LINK_NESTED_DEPTH {
        if let Some(file) = link_type::file_of(link_type) {
            if let Some(dir) = path::parent_path(path::joined_path(base, file)) {
                lemma_all_answers(
                    files,
                    content,
                    link::links_of(content),
                    link::renamed_of(content),
                    dir,
                    depth + 1,
                    Seq::empty(),
                    0,
                    title,
                    reports,
                    more,
                );
            }
        }
    }
}

/// A link takes its answer from the front of the answers.
proof fn lemma_first_used(
    files: spec_fn(RequestView) -> AnswerView,
    link: LinkView,
    base: Seq<char>,
    left: Seq<AnswerView>,
)
    ensures
        ({
            let used = used_by(files, link, base);
            if render::request_of(link.link_type, base) is Some {
                &&& (used + left).len() > 0
                &&& (used + left)[0] == answer_from(files, link, base)
                &&& (used + left).skip(1) == left
            } else {
                used + left == left
            }
        }),
{
    let used = used_by(files, link, base);
    if render::request_of(link.link_type, base) is Some {
        assert((used + left).skip(1) == left);
    } else {
        assert(used + left == left);
    }
}

/// With only some of the answers, the request is made that the next one answers.
proof fn lemma_some_answers(
    files: spec_fn(RequestView) -> AnswerView,
    s: Seq<char>,
    links: Seq<LinkView>,
    renamed: Seq<RenamedView>,
    base: Seq<char>,
    depth: nat,
    replaced: Seq<char>,
    previous_end: int,
    title: Seq<char>,
    reports: Seq<ReportView>,
    n: int,
)
    requires
        0 <= n < resolve_links(
            files,
            s,
            links,
            renamed,
            base,
            depth,
            replaced,
            previous_end,
            title,
            reports,
        ).answers.len(),
    ensures
        ({
            let answers = resolve_links(
                files,
                s,
                links,
                renamed,
                base,
                depth,
                replaced,
                previous_end,
                title,
                reports,
            ).answers;
            expand::expand_links(
                s,
                links,
                renamed,
                base,
                depth,
                replaced,
                previous_end,
                title,
                answers.take(n),
                reports,
            ).outcome matches ExpansionView::Read(request) && files(request) == answers[n]
        }),
    decreases expand::levels_left(depth), links.len(),
{
    let answers = resolve_links(
        files,
        s,
        links,
        renamed,
        base,
        depth,
        replaced,
        previous_end,
        title,
        reports,
    ).answers;
    let some = answers.take(n);
    let link = links[0];
    let rest = links.skip(1);
    let later = expand::not_due(renamed, link);
    let now = expand::noted(reports, renamed, link);
    let used = used_by(files, link, base);
    let before = replaced + text::between(s, previous_end, link.start_index as int);
    let new_title = render::title_of(link.link_type, title);
    let start = link.start_index as int;
    let end = link.end_index as int;
    if n >= used.len() {
        let m = n - used.len();
        let remaining = answers.skip(used.len() as int);
        lemma_first_used(files, link, base, remaining.take(m));
        match render::content_of(link, base, answer_from(files, link, base)) {
            Err(error) => {
                let made = now.push(ReportView::Failed(link.link_text, error));
                let next = resolve_links(
                    files,
                    s,
                    rest,
                    later,
                    base,
                    depth,
                    before,
                    start,
                    new_title,
                    made,
                );
                assert(answers == used + next.answers);
                assert(remaining == next.answers);
                assert(some == used + remaining.take(m));
                lemma_some_answers(
                    files,
                    s,
                    rest,
                    later,
                    base,
                    depth,
                    before,
                    start,
                    new_title,
                    made,
                    m,
                );
            },
            Ok(content) => {
                if depth >= MAX_LINK_NESTED_DEPTH {
                    let made = now.push(ReportView::TooDeep);
                    let next = resolve_links(
                        files,
                        s,
                        rest,
                        later,
                        base,
                        depth,
                        before,
                        end,
                        new_title,
                        made,
                    );
                    assert(answers == used + next.answers);
                    assert(remaining == next.answers);
                    assert(some == used + remaining.take(m));
                    lemma_some_answers(
                        files,
                        s,
                        rest,
                        later,
                        base,
                        depth,
                        before,
                        end,
                        new_title,
                        made,
                        m,
                    );
                } else {
                    let inner = resolve_content(
                        files,
                        link.link_type,
                        base,
                        depth,
                        content,
                        new_title,
                        now,
                    );
                    let asked = expand::expand_content(
                        link.link_type,
                        base,
                        depth,
                        content,
                        new_title,
                        remaining.take(m),
                        now,
                    );
                    if m < inner.answers.len() {
                        assert(remaining.take(inner.answers.len() as int) == inner.answers);
                        assert(remaining.take(m) == inner.answers.take(m));
                        assert(some == used + remaining.take(m));
                        lemma_some_answers_in_content(
                            files,
                            link.link_type,
                            base,
                            depth,
                            content,
                            new_title,
                            now,
                            m,
                        );
                        assert(answers[n] == inner.answers[m]);
                        assert(asked.outcome is Read);
                    } else {
                        assert(inner.outcome is Done) by {
                            lemma_all_answers_in_content(
                                files,
                                link.link_type,
                                base,
                                depth,
                                content,
                                new_title,
                                now,
                                Seq::empty(),
                            );
                            if !(inner.outcome is Done) {
                                assert(answers == used + inner.answers);
                            }
                        }
                        let raw = inner.outcome->Done_0;
                        let replaced_next = before + expand::indented(
                            raw,
                            text::last_line_of(before),
                        );
                        let next = resolve_links(
                            files,
                            s,
                            rest,
                            later,
                            base,
                            depth,
                            replaced_next,
                            end,
                            inner.title,
                            inner.reports,
                        );
                        let k = m - inner.answers.len();
                        assert(answers == used + inner.answers + next.answers);
                        assert(remaining == inner.answers + next.answers);
                        assert(remaining.take(m) == inner.answers + next.answers.take(k));
                        assert(some == used + remaining.take(m));
                        lemma_all_answers_in_content(
                            files,
                            link.link_type,
                            base,
                            depth,
                            content,
                            new_title,
                            now,
                            next.answers.take(k),
                        );
                        lemma_some_answers(
                            files,
                            s,
                            rest,
                            later,
                            base,
                            depth,
                            replaced_next,
                            end,
                            inner.title,
                            inner.reports,
                            k,
                        );
                        assert(answers[n] == next.answers[k]);
                    }
                }
            },
        }
    } else {
        assert(some == Seq::<AnswerView>::empty());
        assert(answers[0] == used[0]);
    }
}

proof fn lemma_some_answers_in_content(
    files: spec_fn(RequestView) -> AnswerView,
    link_type: LinkTypeView,
    base: Seq<char>,
    depth: nat,
    content: Seq<char>,
    title: Seq<char>,
    reports: Seq<ReportView>,
    n: int,
)
    requires
        0 <= n < resolve_content(
            files,
            link_type,
            base,
            depth,
            content,
            title,
            reports,
        ).answers.len(),
    ensures
        ({
            let answers = resolve_content(
                files,
                link_type,
                base,
                depth,
                content,
                title,
                reports,
            ).answers;
            expand::expand_content(
                link_type,
                base,
                depth,
                content,
                title,
                answers.take(n),
                reports,
            ).outcome matches ExpansionView::Read(request) && files(request) == answers[n]
        }),
    decreases expand::levels_left(depth), 0nat,
{
    let file = link_type::file_of(link_type)->0;
    let dir = path::parent_path(path::joined_path(base, file))->0;
    lemma_some_answers(
        files,
        content,
        link::links_of(content),
        link::renamed_of(content),
        dir,
        depth + 1,
        Seq::empty(),
        0,
        title,
        reports,
        n,
    );
}

/// Whether answers come about one by one: each one is what `files` answers to the request that is
/// made with those before it.
pub open spec fn is_run(
    files: spec_fn(RequestView) -> AnswerView,
    s: Seq<char>,
    base: Seq<char>,
    depth: nat,
    title: Seq<char>,
    reports: Seq<ReportView>,
    replies: Seq<AnswerView>,
) -> bool {
    forall|i: int|
        0 <= i < replies.len() ==> (expand::expand(
            s,
            base,
            depth,
            title,
            #[trigger] replies.take(i),
            reports,
        ).outcome matches ExpansionView::Read(request) && replies[i] == files(request))
}

/// Whoever answers each request as it is made, and starts over with the answers so far, comes to
/// an end, whatever the files hold: every answer goes to the request that it was given to, and
/// after a number of them that the files fix, no request is left. What comes out then is what
/// comes of the links where each link takes its file at once.
pub proof fn law_run_comes_to_an_end(
    files: spec_fn(RequestView) -> AnswerView,
    s: Seq<char>,
    base: Seq<char>,
    depth: nat,
    title: Seq<char>,
    reports: Seq<ReportView>,
    replies: Seq<AnswerView>,
)
    requires
        is_run(files, s, base, depth, title, reports, replies),
    ensures
        ({
            let resolved = resolve(files, s, base, depth, title, reports);
            let progress = expand::expand(s, base, depth, title, replies, reports);
            &&& replies.len() <= resolved.answers.len()
            &&& replies == resolved.answers.take(replies.len() as int)
            &&& progress.outcome is Read <==> replies.len() < resolved.answers.len()
            &&& replies.len() == resolved.answers.len() ==> progress == (Progress {
                outcome: resolved.outcome,
                title: resolved.title,
                replies: Seq::empty(),
                reports: resolved.reports,
            })
        }),
    decreases replies.len(),
{
    let answers = resolve(files, s, base, depth, title, reports).answers;
    let n = replies.len() as int;
    if n > 0 {
        let fewer = replies.take(n - 1);
        assert forall|i: int| 0 <= i < fewer.len() implies (expand::expand(
            s,
            base,
            depth,
            title,
            #[trigger] fewer.take(i),
            reports,
        ).outcome matches ExpansionView::Read(request) && fewer[i] == files(request)) by {
            assert(fewer.take(i) == replies.take(i));
        }
        law_run_comes_to_an_end(files, s, base, depth, title, reports, fewer);
        assert(expand::expand(s, base, depth, title, replies.take(n - 1), reports).outcome is Read);
        lemma_next_answer(files, s, base, depth, title, reports, n - 1);
        assert(replies == answers.take(n)) by {
            assert(replies == fewer.push(replies[n - 1]));
            assert(answers.take(n) == answers.take(n - 1).push(answers[n - 1]));
        }
    } else {
        assert(replies == answers.take(0));
    }
    if n < answers.len() {
        lemma_next_answer(files, s, base, depth, title, reports, n);
    } else {
        lemma_all_answers(
            files,
            s,
            link::links_of(s),
            link::renamed_of(s),
            base,
            depth,
            Seq::empty(),
            0,
            title,
            reports,
            Seq::empty(),
        );
        assert(answers + Seq::<AnswerView>::empty() == replies);
    }
}

proof fn lemma_next_answer(
    files: spec_fn(RequestView) -> AnswerView,
    s: Seq<char>,
    base: Seq<char>,
    depth: nat,
    title: Seq<char>,
    reports: Seq<ReportView>,
    n: int,
)
    requires
        0 <= n < resolve(files, s, base, depth, title, reports).answers.len(),
    ensures
        ({
            let answers = resolve(files, s, base, depth, title, reports).answers;
            expand::expand(
                s,
                base,
                depth,
                title,
                answers.take(n),
                reports,
            ).outcome matches ExpansionView::Read(request) && files(request) == answers[n]
        }),
{
    lemma_some_answers(
        files,
        s,
        link::links_of(s),
        link::renamed_of(s),
        base,
        depth,
        Seq::empty(),
        0,
        title,
        reports,
        n,
    );
}

} // verus!
