//! What a link is replaced by, and the file that has to be read for it.
use vstd::prelude::*;

use crate::link::{Link, LinkView};
use crate::link_type::{LinkType, LinkTypeView};
use crate::path;
use crate::range::{RangeOrAnchor, RangeOrAnchorView};
use crate::text;

verus! {

/// The text that is to be taken from a file.
#[derive(PartialEq, Debug)]
pub enum Excerpt {
    /// All of it.
    Whole,
    /// A range of lines, or the lines that an anchor marks.
    Part(RangeOrAnchor),
    /// All of the lines, with those hidden that are not in the part.
    RustdocPart(RangeOrAnchor),
}

/// What an [`Excerpt`] stands for.
pub enum ExcerptView {
    Whole,
    Part(RangeOrAnchorView),
    RustdocPart(RangeOrAnchorView),
}

impl View for Excerpt {
    type V = ExcerptView;

    open spec fn view(&self) -> ExcerptView {
        match self {
            Excerpt::Whole => ExcerptView::Whole,
            Excerpt::Part(part) => ExcerptView::Part(part@),
            Excerpt::RustdocPart(part) => ExcerptView::RustdocPart(part@),
        }
    }
}

/// A file that has to be read, and what is to be taken from it.
#[derive(PartialEq, Debug)]
pub struct Request {
    pub path: String,
    pub excerpt: Excerpt,
}

/// What a [`Request`] stands for.
pub struct RequestView {
    pub path: Seq<char>,
    pub excerpt: ExcerptView,
}

impl View for Request {
    type V = RequestView;

    open spec fn view(&self) -> RequestView {
        RequestView { path: self.path@, excerpt: self.excerpt@ }
    }
}

/// Why a link cannot be replaced.
#[derive(PartialEq, Debug)]
pub enum RenderError {
    /// Its arguments cannot be understood, for the reason given.
    Invalid(String),
    /// Its file could not be read, with a message that names both, and the causes of that: the
    /// error that came up, what it was caused by, and so on.
    Unreadable(String, Vec<String>),
}

/// What a [`RenderError`] stands for.
pub enum RenderErrorView {
    Invalid(Seq<char>),
    Unreadable(Seq<char>, Seq<Seq<char>>),
}

impl View for RenderError {
    type V = RenderErrorView;

    open spec fn view(&self) -> RenderErrorView {
        match self {
            RenderError::Invalid(message) => RenderErrorView::Invalid(message@),
            RenderError::Unreadable(message, causes) => RenderErrorView::Unreadable(
                message@,
                text::owned_texts(causes@),
            ),
        }
    }
}

/// The answer to a request: the text taken from the file, or, where that could not be read, the
/// error that came up, what it was caused by, and so on.
pub type AnswerView = Result<Seq<char>, Seq<Seq<char>>>;

/// The file that has to be read before a link can be replaced.
pub open spec fn request_of(link_type: LinkTypeView, base: Seq<char>) -> Option<RequestView> {
    match link_type {
        LinkTypeView::Include(file, part) => Some(
            RequestView { path: path::joined_path(base, file), excerpt: ExcerptView::Part(part) },
        ),
        LinkTypeView::RustdocInclude(file, part) => Some(
            RequestView {
                path: path::joined_path(base, file),
                excerpt: ExcerptView::RustdocPart(part),
            },
        ),
        LinkTypeView::Playground(file, _) => Some(
            RequestView { path: path::joined_path(base, file), excerpt: ExcerptView::Whole },
        ),
        _ => None,
    }
}

/// A text that ends in a line feed.
pub open spec fn with_line_feed(s: Seq<char>) -> Seq<char> {
    if s.len() > 0 && s.last() == '\n' {
        s
    } else {
        s.push('\n')
    }
}

/// A block of Rust code with its properties.
pub open spec fn code_block(props: Seq<Seq<char>>, contents: Seq<char>) -> Seq<char> {
    let language = if props.len() > 0 {
        "rust,"@
    } else {
        "rust"@
    };
    "```"@ + language + text::join_of(props, ","@) + "\n"@ + with_line_feed(contents) + "```\n"@
}

/// The message about a file that could not be read.
pub open spec fn unreadable_message(link_text: Seq<char>, target: Seq<char>) -> Seq<char> {
    "Could not read file for link "@ + link_text + " ("@ + target + ")"@
}

/// What a link is replaced by, where `reply` is the answer to its request, if it makes one.
pub open spec fn content_of(
    link: LinkView,
    base: Seq<char>,
    reply: AnswerView,
) -> Result<Seq<char>, RenderErrorView> {
    match link.link_type {
        LinkTypeView::Invalid(message) => Err(RenderErrorView::Invalid(message)),
        LinkTypeView::Escaped => Ok(link.link_text.skip(1)),
        LinkTypeView::Title(_) => Ok(Seq::empty()),
        LinkTypeView::Include(file, _) | LinkTypeView::RustdocInclude(file, _) => match reply {
            Ok(content) => Ok(content),
            Err(causes) => Err(
                RenderErrorView::Unreadable(
                    unreadable_message(link.link_text, path::joined_path(base, file)),
                    causes,
                ),
            ),
        },
        LinkTypeView::Playground(file, props) => match reply {
            Ok(content) => Ok(code_block(props, content)),
            Err(causes) => Err(
                RenderErrorView::Unreadable(
                    unreadable_message(link.link_text, path::joined_path(base, file)),
                    causes,
                ),
            ),
        },
    }
}

/// The title of the chapter behind a link.
pub open spec fn title_of(link_type: LinkTypeView, title: Seq<char>) -> Seq<char> {
    match link_type {
        LinkTypeView::Title(new_title) => new_title,
        _ => title,
    }
}

/// What an answer stands for.
pub open spec fn reply_view(reply: Result<&str, &Vec<String>>) -> AnswerView {
    match reply {
        Ok(content) => Ok(content@),
        Err(causes) => Err(text::owned_texts(causes@)),
    }
}

fn unreadable(link_text: &str, base: &str, file: &str, causes: &Vec<String>) -> (res: RenderError)
    ensures
        res@ == RenderErrorView::Unreadable(
            unreadable_message(link_text@, path::joined_path(base@, file@)),
            text::owned_texts(causes@),
        ),
{
    let target = path::join_paths(base, file);
    let mut message = "Could not read file for link ".to_owned();
    message.append(link_text);
    message.append(" (");
    message.append(target.as_str());
    message.append(")");
    RenderError::Unreadable(message, text::copies(causes))
}

impl<'a> Link<'a> {
    /// The file that has to be read before the link can be replaced, where `base` is the directory
    /// that the link is relative to.
    pub fn request(&self, base: &str) -> (res: Option<Request>)
        ensures
            request_of(self@.link_type, base@) == (match res {
                Some(request) => Some(request@),
                None => None,
            }),
    {
        match &self.link_type {
            LinkType::Include(file, part) => Some(
                Request {
                    path: path::join_paths(base, file.as_str()),
                    excerpt: Excerpt::Part(part.clone()),
                },
            ),
            LinkType::RustdocInclude(file, part) => Some(
                Request {
                    path: path::join_paths(base, file.as_str()),
                    excerpt: Excerpt::RustdocPart(part.clone()),
                },
            ),
            LinkType::Playground(file, _) => Some(
                Request { path: path::join_paths(base, file.as_str()), excerpt: Excerpt::Whole },
            ),
            _ => None,
        }
    }

    /// What the link is replaced by, where `reply` is the answer to its request: the text taken
    /// from the file, or the error that came up in reading it, with its causes. A link that asks
    /// for no file pays no heed to it.
    pub fn render_with_path(
        &self,
        base: &str,
        chapter_title: &mut String,
        reply: Result<&str, &Vec<String>>,
    ) -> (res: Result<String, RenderError>)
        requires
            self.link_type is Escaped ==> self.link_text@.len() > 0 && (self.link_text@[0] as u32)
                < 0x80,
        ensures
            content_of(self@, base@, reply_view(reply)) == (match res {
                Ok(content) => Ok(content@),
                Err(error) => Err(error@),
            }),
            final(chapter_title)@ == title_of(self@.link_type, old(chapter_title)@),
    {
        match &self.link_type {
            LinkType::Invalid(message) => Err(RenderError::Invalid(message.clone())),
            // omit the escape char
            LinkType::Escaped => Ok(text::skip_chars(self.link_text, 1).to_owned()),
            LinkType::Include(file, _) => match reply {
                Ok(content) => Ok(content.to_owned()),
                Err(causes) => Err(unreadable(self.link_text, base, file.as_str(), causes)),
            },
            LinkType::RustdocInclude(file, _) => match reply {
                Ok(content) => Ok(content.to_owned()),
                Err(causes) => Err(unreadable(self.link_text, base, file.as_str(), causes)),
            },
            LinkType::Playground(file, props) => match reply {
                Ok(content) => {
                    let mut block = "```".to_owned();
                    if props.len() > 0 {
                        block.append("rust,");
                    } else {
                        block.append("rust");
                    }
                    block.append(text::join(props, ",").as_str());
                    block.append("\n");
                    let ghost head = block@;
                    block.append(content);
                    if !text::ends_with(content, '\n') {
                        block.push('\n');
                    }
                    assert(block@ == head + with_line_feed(content@));
                    block.append("```\n");
                    Ok(block)
                },
                Err(causes) => Err(unreadable(self.link_text, base, file.as_str(), causes)),
            },
            LinkType::Title(title) => {
                let title: &str = *title;
                *chapter_title = title.to_owned();
                Ok(String::new())
            },
        }
    }
}

} // verus!
