//! The links of a text replaced by what they ask for, and the links in that, and so on.
use vstd::prelude::*;

use crate::link;
use crate::link::{Link, LinkView, Renamed, RenamedView};
use crate::link_type;
use crate::link_type::LinkTypeView;
use crate::path;
use crate::render;
use crate::render::{AnswerView, RenderError, RenderErrorView, Request, RequestView};
use crate::text;

verus! {

/// How deep links may be nested.
pub const MAX_LINK_NESTED_DEPTH: usize = 10;

/// The answers to the requests made so far, in the order of the requests. An answer is the text
/// taken from the file, or, where that could not be read, the error that came up, what it was
/// caused by, and so on.
pub struct Replies<'r> {
    answers: &'r Vec<Result<String, Vec<String>>>,
    used: usize,
}

/// The answers that are still to be used.
impl<'r> View for Replies<'r> {
    type V = Seq<AnswerView>;

    closed spec fn view(&self) -> Seq<AnswerView> {
        if self.used <= self.answers.len() {
            answer_views(self.answers@).skip(self.used as int)
        } else {
            Seq::empty()
        }
    }
}

/// What several answers stand for.
pub open spec fn answer_views(answers: Seq<Result<String, Vec<String>>>) -> Seq<AnswerView> {
    Seq::new(
        answers.len(),
        |i: int|
            match answers[i] {
                Ok(content) => Ok(content@),
                Err(causes) => Err(text::owned_texts(causes@)),
            },
    )
}

impl<'r> Replies<'r> {
    /// All of the answers.
    pub fn new(answers: &'r Vec<Result<String, Vec<String>>>) -> (res: Self)
        ensures
            res@ == answer_views(answers@),
    {
        assert(answer_views(answers@).skip(0) == answer_views(answers@));
        Replies { answers, used: 0 }
    }

    /// The next answer, if there is one.
    pub fn next(&mut self) -> (res: Option<Result<&'r str, &'r Vec<String>>>)
        ensures
            match res {
                Some(reply) => {
                    &&& old(self)@.len() > 0
                    &&& old(self)@[0] == render::reply_view(reply)
                    &&& final(self)@ == old(self)@.skip(1)
                },
                None => old(self)@.len() == 0 && final(self)@ == old(self)@,
            },
    {
        if self.used >= self.answers.len() {
            return None;
        }
        let answers: &'r Vec<Result<String, Vec<String>>> = self.answers;
        let answer: &'r Result<String, Vec<String>> = &answers[self.used];
        assert(self@.skip(1) == answer_views(self.answers@).skip(self.used + 1));
        self.used = self.used + 1;
        match answer {
            Ok(content) => Some(Ok(content.as_str())),
            Err(causes) => Some(Err(causes)),
        }
    }
}

/// How far the links of a text could be replaced.
#[derive(PartialEq, Debug)]
pub enum Expansion {
    /// All the way, with the text that came out.
    Done(String),
    /// Up to a link whose file has to be read first.
    Read(Request),
    /// Up to a link whose file has the given path, which lies in no directory.
    NoDirectory(String),
}

/// What an [`Expansion`] stands for.
#[verifier::ext_equal]
pub enum ExpansionView {
    Done(Seq<char>),
    Read(RequestView),
    NoDirectory(Seq<char>),
}

impl View for Expansion {
    type V = ExpansionView;

    open spec fn view(&self) -> ExpansionView {
        match self {
            Expansion::Done(content) => ExpansionView::Done(content@),
            Expansion::Read(request) => ExpansionView::Read(request@),
            Expansion::NoDirectory(file) => ExpansionView::NoDirectory(file@),
        }
    }
}

/// Something about a link that an author of the text should know.
#[derive(PartialEq, Debug)]
pub enum Report {
    /// A link of the given text goes by the former name of a playground.
    Renamed(String),
    /// A link of the given text cannot be replaced, for the given reason.
    Failed(String, RenderError),
    /// A link is nested too deep. Files may include each other.
    TooDeep,
}

/// What a [`Report`] stands for.
#[verifier::ext_equal]
pub enum ReportView {
    Renamed(Seq<char>),
    Failed(Seq<char>, RenderErrorView),
    TooDeep,
}

impl View for Report {
    type V = ReportView;

    open spec fn view(&self) -> ReportView {
        match self {
            Report::Renamed(link_text) => ReportView::Renamed(link_text@),
            Report::Failed(link_text, error) => ReportView::Failed(link_text@, error@),
            Report::TooDeep => ReportView::TooDeep,
        }
    }
}

/// What several reports stand for.
pub open spec fn report_views(reports: Seq<Report>) -> Seq<ReportView> {
    Seq::new(reports.len(), |i: int| reports[i]@)
}

/// The reports on matches that go by a former name.
pub open spec fn renamed_reports(renamed: Seq<RenamedView>) -> Seq<ReportView> {
    Seq::new(renamed.len(), |i: int| ReportView::Renamed(renamed[i].link_text))
}

/// How many of the first matches by a former name start no later than at an offset.
pub open spec fn due(renamed: Seq<RenamedView>, offset: usize) -> nat
    decreases renamed.len(),
{
    if renamed.len() > 0 && renamed[0].start_index <= offset {
        1 + due(renamed.skip(1), offset)
    } else {
        0
    }
}

/// The reports by the time that a link comes up: those made before, with those on the matches by a
/// former name up to the link.
pub open spec fn noted(
    reports: Seq<ReportView>,
    renamed: Seq<RenamedView>,
    link: LinkView,
) -> Seq<ReportView> {
    reports + renamed_reports(renamed.take(due(renamed, link.start_index) as int))
}

/// The matches by a former name that are still to be reported when a link comes up.
pub open spec fn not_due(renamed: Seq<RenamedView>, link: LinkView) -> Seq<RenamedView> {
    renamed.skip(due(renamed, link.start_index) as int)
}

/// At most all of the matches are due.
pub proof fn lemma_due(renamed: Seq<RenamedView>, offset: usize)
    ensures
        due(renamed, offset) <= renamed.len(),
    decreases renamed.len(),
{
    if renamed.len() > 0 && renamed[0].start_index <= offset {
        lemma_due(renamed.skip(1), offset);
    }
}

/// What comes of the links of a text.
#[verifier::ext_equal]
pub struct Progress {
    /// How far they could be replaced.
    pub outcome: ExpansionView,
    /// The title of the chapter that the links up to there leave behind.
    pub title: Seq<char>,
    /// The answers that the links up to there leave unused.
    pub replies: Seq<AnswerView>,
    /// The reports made before, with those on the links up to there.
    pub reports: Seq<ReportView>,
}

/// A text as it comes in place of a link: without its last line ending, and with what stands
/// before the link on its line put before every line but the first.
pub open spec fn indented(content: Seq<char>, prefix: Seq<char>) -> Seq<char> {
    text::join_of(text::lines_of(content), seq!['\n'] + prefix)
}

/// How many levels of nested links may still come.
pub open spec fn levels_left(depth: nat) -> nat {
    if depth < MAX_LINK_NESTED_DEPTH {
        (MAX_LINK_NESTED_DEPTH - depth) as nat
    } else {
        0
    }
}

/// Whether links lie in a text from left to right, without overlap. The text of an escaped one has
/// a first character that can be left out.
pub open spec fn are_spans_in(s: Seq<char>, links: Seq<LinkView>) -> bool {
    &&& forall|i: int|
        0 <= i < links.len() ==> {
            &&& link::is_span(s, ((#[trigger] links[i]).start_index, links[i].end_index))
            &&& links[i].link_type is Escaped ==> links[i].link_text.len() > 0 && (
            links[i].link_text[0] as u32) < 0x80
        }
    &&& forall|i: int, j: int|
        0 <= i < j < links.len() ==> (#[trigger] links[i]).end_index <= (
        #[trigger] links[j]).start_index
}

/// What comes of the remaining links of a text, where `replaced` is what came of the text up to
/// `previous_end`, and `renamed` are the matches by a former name that are still to be reported.
///
/// A link that cannot be rendered stays as it is, and is reported. A link at the greatest depth is
/// left out, and is reported too. Any other one gives way to what it asks for, in which the links
/// are replaced in their turn where it comes from a file. Reports come in the order of the text.
pub open spec fn expand_links(
    s: Seq<char>,
    links: Seq<LinkView>,
    renamed: Seq<RenamedView>,
    base: Seq<char>,
    depth: nat,
    replaced: Seq<char>,
    previous_end: int,
    title: Seq<char>,
    replies: Seq<AnswerView>,
    reports: Seq<ReportView>,
) -> Progress
    decreases levels_left(depth), links.len(),
{
    if links.len() == 0 {
        Progress {
            outcome: ExpansionView::Done(replaced + text::from_offset(s, previous_end)),
            title,
            replies,
            reports: reports + renamed_reports(renamed),
        }
    } else {
        let link = links[0];
        let rest = links.skip(1);
        let later = not_due(renamed, link);
        let reports = noted(reports, renamed, link);
        let request = render::request_of(link.link_type, base);
        if request is Some && replies.len() == 0 {
            Progress { outcome: ExpansionView::Read(request->0), title, replies, reports }
        } else {
            let before = replaced + text::between(s, previous_end, link.start_index as int);
            let reply = if request is Some {
                replies[0]
            } else {
                Ok(Seq::empty())
            };
            let replies_left = if request is Some {
                replies.skip(1)
            } else {
                replies
            };
            let new_title = render::title_of(link.link_type, title);
            match render::content_of(link, base, reply) {
                Err(error) => expand_links(
                    s,
                    rest,
                    later,
                    base,
                    depth,
                    before,
                    link.start_index as int,
                    new_title,
                    replies_left,
                    reports.push(ReportView::Failed(link.link_text, error)),
                ),
                Ok(content) => if depth >= MAX_LINK_NESTED_DEPTH {
                    expand_links(
                        s,
                        rest,
                        later,
                        base,
                        depth,
                        before,
                        link.end_index as int,
                        new_title,
                        replies_left,
                        reports.push(ReportView::TooDeep),
                    )
                } else {
                    let inner = expand_content(
                        link.link_type,
                        base,
                        depth,
                        content,
                        new_title,
                        replies_left,
                        reports,
                    );
                    match inner.outcome {
                        ExpansionView::Done(raw) => expand_links(
                            s,
                            rest,
                            later,
                            base,
                            depth,
                            before + indented(raw, text::last_line_of(before)),
                            link.end_index as int,
                            inner.title,
                            inner.replies,
                            inner.reports,
                        ),
                        _ => inner,
                    }
                },
            }
        }
    }
}

/// What comes of the links in what a link asks for. They are relative to the directory of the file
/// that it comes from. What comes from no file has no links.
pub open spec fn expand_content(
    link_type: LinkTypeView,
    base: Seq<char>,
    depth: nat,
    content: Seq<char>,
    title: Seq<char>,
    replies: Seq<AnswerView>,
    reports: Seq<ReportView>,
) -> Progress
    decreases levels_left(depth), 0nat,
{
    if depth >= MAX_LINK_NESTED_DEPTH {
        Progress { outcome: ExpansionView::Done(content), title, replies, reports }
    } else {
        match link_type::file_of(link_type) {
            None => Progress { outcome: ExpansionView::Done(content), title, replies, reports },
            Some(file) => {
                let target = path::joined_path(base, file);
                match path::parent_path(target) {
                    Some(dir) => expand_links(
                        content,
                        link::links_of(content),
                        link::renamed_of(content),
                        dir,
                        depth + 1,
                        Seq::empty(),
                        0,
                        title,
                        replies,
                        reports,
                    ),
                    None => Progress {
                        outcome: ExpansionView::NoDirectory(target),
                        title,
                        replies,
                        reports,
                    },
                }
            },
        }
    }
}

/// What comes of the links of a text that are relative to `base`, where `replies` are the answers
/// to the requests that they make, and `reports` those made before.
pub open spec fn expand(
    s: Seq<char>,
    base: Seq<char>,
    depth: nat,
    title: Seq<char>,
    replies: Seq<AnswerView>,
    reports: Seq<ReportView>,
) -> Progress {
    expand_links(
        s,
        link::links_of(s),
        link::renamed_of(s),
        base,
        depth,
        Seq::empty(),
        0,
        title,
        replies,
        reports,
    )
}

/// Replaces the links of a text that are relative to `path` by what they ask for, and the links in
/// that, and so on.
///
/// Where a file has to be read that `replies` holds no answer for, the file is returned. The
/// caller reads it, and calls again with the answer added to the others, and with the title and
/// the reports as they were.
///
/// A text without two opening braces in a row comes out as it went in.
pub fn replace_all<'r>(
    s: &str,
    path: &str,
    depth: usize,
    chapter_title: &mut String,
    replies: &mut Replies<'r>,
    reports: &mut Vec<Report>,
) -> (res: Expansion)
    ensures
        expand(
            s@,
            path@,
            depth as nat,
            old(chapter_title)@,
            old(replies)@,
            report_views(old(reports)@),
        ) == (Progress {
            outcome: res@,
            title: final(chapter_title)@,
            replies: final(replies)@,
            reports: report_views(final(reports)@),
        }),
        link::are_links_in(s@, link::links_of(s@)),
        !link::has_opening(s@) ==> {
            &&& res@ == ExpansionView::Done(s@)
            &&& final(chapter_title)@ == old(chapter_title)@
            &&& final(replies)@ == old(replies)@
            &&& report_views(final(reports)@) == report_views(old(reports)@)
        },
    decreases levels_left(depth as nat), 1nat,
{
    let found = link::find_links(s);
    let renamed = found.renamed();
    let links = found.collect();
    proof {
        text::lemma_between_ends(s@);
        assert(Seq::<char>::empty() + s@ == s@);
        let made = report_views(old(reports)@);
        assert(link::renamed_of(s@).len() == 0 ==> made + renamed_reports(link::renamed_of(s@))
            == made);
    }
    replace_links(s, &links, &renamed, path, depth, chapter_title, replies, reports)
}

/// Whether a match starts no later than at an offset, if there is one.
fn starts_by(found: &Renamed, offset: Option<usize>) -> (res: bool)
    ensures
        res == (offset matches Some(offset) ==> found.start_index <= offset),
{
    match offset {
        Some(offset) => found.start_index <= offset,
        None => true,
    }
}

/// Reports matches by a former name from the `from`th on: those that start no later than at
/// `offset`, or all of them where there is none. Returns the number of the first one that is still
/// to be reported.
fn report_renamed(
    renamed: &Vec<Renamed>,
    from: usize,
    offset: Option<usize>,
    reports: &mut Vec<Report>,
) -> (res: usize)
    requires
        from <= renamed.len(),
    ensures
        from <= res <= renamed.len(),
        ({
            let left = link::renamed_views(renamed@).skip(from as int);
            let n = match offset {
                Some(offset) => due(left, offset),
                None => left.len(),
            };
            &&& res == from + n
            &&& report_views(final(reports)@) == report_views(old(reports)@) + renamed_reports(
                left.take(n as int),
            )
        }),
{
    let ghost left = link::renamed_views(renamed@).skip(from as int);
    let ghost before = report_views(reports@);
    let mut i: usize = from;
    assert(before + renamed_reports(left.take(0)) == before);
    assert(left.skip(0) == left);
    while i < renamed.len() && starts_by(&renamed[i], offset)
        invariant
            from <= i <= renamed.len(),
            left == link::renamed_views(renamed@).skip(from as int),
            report_views(reports@) == before + renamed_reports(left.take(i - from)),
            offset matches Some(offset) ==> due(left, offset) == (i - from) + due(
                left.skip(i - from),
                offset,
            ),
        decreases renamed.len() - i,
    {
        let ghost made = reports@;
        let ghost n = i - from;
        proof {
            assert(left[n] == renamed[i as int]@);
            assert(left.skip(n)[0] == left[n]);
            assert(left.skip(n).skip(1) == left.skip(n + 1));
            assert(left.take(n + 1) == left.take(n).push(left[n]));
        }
        reports.push(Report::Renamed(renamed[i].link_text.to_owned()));
        proof {
            assert(report_views(reports@) == report_views(made).push(reports@.last()@));
            assert(before + renamed_reports(left.take(n + 1)) == (before + renamed_reports(
                left.take(n),
            )).push(ReportView::Renamed(left[n].link_text)));
        }
        i = i + 1;
    }
    proof {
        if i < renamed.len() {
            assert(left.skip(i - from)[0] == renamed[i as int]@);
        }
    }
    i
}

/// Replaces the given links of a text that are relative to `path` by what they ask for, and the
/// links in that, and so on. The given matches by a former name are reported, each before the
/// links that start behind it. Everything else is as with [`replace_all`].
pub fn replace_links<'r>(
    s: &str,
    links: &Vec<Link>,
    renamed: &Vec<Renamed>,
    path: &str,
    depth: usize,
    chapter_title: &mut String,
    replies: &mut Replies<'r>,
    reports: &mut Vec<Report>,
) -> (res: Expansion)
    requires
        are_spans_in(s@, link::link_views(links@)),
    ensures
        expand_links(
            s@,
            link::link_views(links@),
            link::renamed_views(renamed@),
            path@,
            depth as nat,
            Seq::empty(),
            0,
            old(chapter_title)@,
            old(replies)@,
            report_views(old(reports)@),
        ) == (Progress {
            outcome: res@,
            title: final(chapter_title)@,
            replies: final(replies)@,
            reports: report_views(final(reports)@),
        }),
    decreases levels_left(depth as nat), 0nat,
{
    let ghost all = link::link_views(links@);
    let ghost all_renamed = link::renamed_views(renamed@);
    let ghost whole = expand_links(
        s@,
        all,
        all_renamed,
        path@,
        depth as nat,
        Seq::empty(),
        0,
        chapter_title@,
        replies@,
        report_views(reports@),
    );
    let mut previous_end_index: usize = 0;
    let mut replaced = String::new();
    let mut i: usize = 0;
    let mut reported: usize = 0;
    proof {
        text::lemma_between_ends(s@);
        assert(all.skip(0) == all);
        assert(all_renamed.skip(0) == all_renamed);
    }
    while i < links.len()
        invariant
            i <= links.len(),
            all == link::link_views(links@),
            all_renamed == link::renamed_views(renamed@),
            reported <= renamed.len(),
            are_spans_in(s@, all),
            whole == expand_links(
                s@,
                all,
                all_renamed,
                path@,
                depth as nat,
                Seq::empty(),
                0,
                old(chapter_title)@,
                old(replies)@,
                report_views(old(reports)@),
            ),
            text::is_boundary(s@, previous_end_index as int),
            forall|k: int|
                i <= k < all.len() ==> previous_end_index <= (#[trigger] all[k]).start_index,
            expand_links(
                s@,
                all.skip(i as int),
                all_renamed.skip(reported as int),
                path@,
                depth as nat,
                replaced@,
                previous_end_index as int,
                chapter_title@,
                replies@,
                report_views(reports@),
            ) == whole,
        decreases links.len() - i,
    {
        let link = &links[i];
        let ghost view = link@;
        let ghost later = all_renamed.skip(reported as int);
        proof {
            assert(all[i as int] == view);
            assert(all.skip(i as int)[0] == view);
            assert(all.skip(i as int).skip(1) == all.skip(i + 1));
            lemma_due(later, link.start_index);
            assert(later.skip(due(later, link.start_index) as int) == all_renamed.skip(
                reported + due(later, link.start_index),
            ));
        }
        i = i + 1;
        reported = report_renamed(renamed, reported, Some(link.start_index), reports);
        let ghost made = reports@;
        let mut reply: Result<&'r str, &'r Vec<String>> = Ok("");
        proof {
            reveal_strlit("");
            assert(""@ == Seq::<char>::empty());
        }
        if let Some(request) = link.request(path) {
            match replies.next() {
                Some(answer) => {
                    reply = answer;
                },
                None => return Expansion::Read(request),
            }
        }
        replaced.append(text::slice(s, previous_end_index, link.start_index));
        match link.render_with_path(path, chapter_title, reply) {
            Ok(new_content) => {
                if depth < MAX_LINK_NESTED_DEPTH {
                    let mut separator = "\n".to_owned();
                    separator.append(text::last_line(replaced.as_str()));
                    proof {
                        reveal_strlit("\n");
                        assert(separator@ == seq!['\n'] + text::last_line_of(replaced@));
                    }
                    let ghost inner = expand_content(
                        view.link_type,
                        path@,
                        depth as nat,
                        new_content@,
                        chapter_title@,
                        replies@,
                        report_views(reports@),
                    );
                    let raw_new_content = match link.link_type.directory(path) {
                        Ok(Some(rel_path)) => {
                            match replace_all(
                                new_content.as_str(),
                                rel_path.as_str(),
                                depth + 1,
                                chapter_title,
                                replies,
                                reports,
                            ) {
                                Expansion::Done(content) => content,
                                other => return other,
                            }
                        },
                        Ok(None) => new_content,
                        Err(file) => return Expansion::NoDirectory(file),
                    };
                    let lines = text::lines(raw_new_content.as_str());
                    replaced.append(text::join(&lines, separator.as_str()).as_str());
                } else {
                    reports.push(Report::TooDeep);
                    assert(report_views(reports@) == report_views(made).push(ReportView::TooDeep));
                }
                previous_end_index = link.end_index;
            },
            Err(error) => {
                let ghost failed = ReportView::Failed(view.link_text, error@);
                reports.push(Report::Failed(link.link_text.to_owned(), error));
                assert(report_views(reports@) == report_views(made).push(failed));
                // This makes sure we include the raw `{{# ... }}` snippet
                // in the page content if there are any errors.
                previous_end_index = link.start_index;
            },
        }
    }
    proof {
        let later = all_renamed.skip(reported as int);
        assert(later.take(later.len() as int) == later);
    }
    report_renamed(renamed, reported, None, reports);
    replaced.append(text::slice_from(s, previous_end_index));
    Expansion::Done(replaced)
}

} // verus!
