//! The preprocessor that expands the links of a chapter.
use vstd::prelude::*;

use crate::expand;
use crate::expand::{Expansion, ExpansionView, Replies, Report, ReportView};
use crate::path;
use crate::render::{AnswerView, Request, RequestView};
use crate::text;

verus! {

/// A preprocessor for expanding helpers in a chapter. Supported helpers are:
///
/// - `{{# include}}` - Insert an external file of any type. Include the whole file, only particular
///   lines, or only between the specified anchors.
/// - `{{# rustdoc_include}}` - Insert an external Rust file, showing the particular lines
///   specified or the lines between specified anchors, and include the rest of the file behind `#`.
///   This hides the lines from initial display but shows them when the reader expands the code
///   block and provides them to Rustdoc for testing.
/// - `{{# playground}}` - Insert runnable Rust files
/// - `{{# title}}` - Override \<title\> of a webpage.
#[derive(Default)]
#[non_exhaustive]
pub struct LinkPreprocessor;

/// A chapter of a book.
#[derive(PartialEq, Debug)]
pub struct Chapter {
    /// The name of the chapter, which is its title unless a link overrides it.
    pub name: String,
    /// The text of the chapter.
    pub content: String,
    /// The file of the chapter, relative to the source directory. A draft chapter has none.
    pub path: Option<String>,
}

/// What a [`Chapter`] stands for.
#[verifier::ext_equal]
pub struct ChapterView {
    pub name: Seq<char>,
    pub content: Seq<char>,
    pub path: Option<Seq<char>>,
}

impl View for Chapter {
    type V = ChapterView;

    open spec fn view(&self) -> ChapterView {
        ChapterView {
            name: self.name@,
            content: self.content@,
            path: match self.path {
                Some(file) => Some(file@),
                None => None,
            },
        }
    }
}

/// How far a chapter was preprocessed.
#[derive(PartialEq, Debug)]
pub enum ChapterStep {
    /// All the way, with the title that overrides the name of the chapter, if there is one, and
    /// the reports on its links.
    Done(Option<String>, Vec<Report>),
    /// Up to a link whose file has to be read first.
    Read(Request),
    /// Up to a file of the given path, which lies in no directory.
    NoDirectory(String),
}

/// What a [`ChapterStep`] stands for.
#[verifier::ext_equal]
pub enum ChapterStepView {
    Done(Option<Seq<char>>, Seq<ReportView>),
    Read(RequestView),
    NoDirectory(Seq<char>),
}

impl View for ChapterStep {
    type V = ChapterStepView;

    open spec fn view(&self) -> ChapterStepView {
        match self {
            ChapterStep::Done(title, reports) => ChapterStepView::Done(
                match title {
                    Some(title) => Some(title@),
                    None => None,
                },
                expand::report_views(reports@),
            ),
            ChapterStep::Read(request) => ChapterStepView::Read(request@),
            ChapterStep::NoDirectory(file) => ChapterStepView::NoDirectory(file@),
        }
    }
}

/// What comes of a chapter: the chapter itself, and how far it was preprocessed.
pub open spec fn run_chapter_of(
    src_dir: Seq<char>,
    chapter: ChapterView,
    replies: Seq<AnswerView>,
) -> (ChapterView, ChapterStepView) {
    match chapter.path {
        None => (chapter, ChapterStepView::Done(None, Seq::empty())),
        Some(file) => match path::parent_path(file) {
            None => (chapter, ChapterStepView::NoDirectory(file)),
            Some(dir) => {
                let base = path::joined_path(src_dir, dir);
                let progress = expand::expand(
                    chapter.content,
                    base,
                    0,
                    chapter.name,
                    replies,
                    Seq::empty(),
                );
                match progress.outcome {
                    ExpansionView::Done(content) => (
                        ChapterView { content, ..chapter },
                        ChapterStepView::Done(
                            if progress.title == chapter.name {
                                None
                            } else {
                                Some(progress.title)
                            },
                            progress.reports,
                        ),
                    ),
                    ExpansionView::Read(request) => (chapter, ChapterStepView::Read(request)),
                    ExpansionView::NoDirectory(file) => (
                        chapter,
                        ChapterStepView::NoDirectory(file),
                    ),
                }
            },
        },
    }
}

impl LinkPreprocessor {
    /// Name of this preprocessor.
    pub const NAME: &'static str = "links";

    /// Create a new `LinkPreprocessor`.
    pub fn new() -> (res: Self)
        ensures
            res == LinkPreprocessor,
    {
        LinkPreprocessor
    }

    /// Name of this preprocessor.
    pub fn name(&self) -> (res: &str)
        ensures
            res@ == "links"@,
    {
        Self::NAME
    }

    /// Replaces the links of a chapter, where `replies` are the answers to the requests made for
    /// it so far: the text taken from the file, or the error that came up in reading it, with its
    /// causes. The chapter changes only when that is done.
    ///
    /// A chapter without a file is left as it is.
    pub fn run_chapter(
        &self,
        src_dir: &str,
        chapter: &mut Chapter,
        replies: &Vec<Result<String, Vec<String>>>,
    ) -> (res: ChapterStep)
        ensures
            run_chapter_of(src_dir@, old(chapter)@, expand::answer_views(replies@)) == (
                final(chapter)@,
                res@,
            ),
    {
        let mut reports: Vec<Report> = Vec::new();
        assert(expand::report_views(reports@) == Seq::<ReportView>::empty());
        let file = match &chapter.path {
            Some(file) => file.as_str(),
            None => return ChapterStep::Done(None, reports),
        };
        let dir = match path::parent(file) {
            Some(dir) => dir,
            None => return ChapterStep::NoDirectory(file.to_owned()),
        };
        let base = path::join_paths(src_dir, dir.as_str());
        let mut chapter_title = chapter.name.clone();
        let mut answers = Replies::new(replies);
        match expand::replace_all(
            chapter.content.as_str(),
            base.as_str(),
            0,
            &mut chapter_title,
            &mut answers,
            &mut reports,
        ) {
            Expansion::Done(content) => {
                chapter.content = content;
                if text::same_text(chapter_title.as_str(), chapter.name.as_str()) {
                    ChapterStep::Done(None, reports)
                } else {
                    ChapterStep::Done(Some(chapter_title), reports)
                }
            },
            Expansion::Read(request) => ChapterStep::Read(request),
            Expansion::NoDirectory(file) => ChapterStep::NoDirectory(file),
        }
    }
}

} // verus!
