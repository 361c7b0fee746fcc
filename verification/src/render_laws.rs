//! What holds of requests, and of what links give way to, in general.
use vstd::prelude::*;

use crate::link::LinkView;
use crate::link_type::LinkTypeView;
use crate::path;
use crate::range::{RangeOrAnchor, RangeOrAnchorView};
use crate::render;
use crate::render::{
    Excerpt, ExcerptView, RenderError, RenderErrorView, Request, RequestView,
};
use crate::text;
use crate::text_laws;

verus! {

/// The requests that links make, whatever the part and the properties: all of them name the file
/// as it is seen from `base`. An `include` takes a part of it, a `rustdoc_include` all of it with
/// a part shown, and a `playground` the whole. Other links make none.
pub proof fn law_requests(
    base: Seq<char>,
    file: Seq<char>,
    part: RangeOrAnchorView,
    props: Seq<Seq<char>>,
)
    ensures
        render::request_of(LinkTypeView::Include(file, part), base) == Some(
            RequestView { path: path::joined_path(base, file), excerpt: ExcerptView::Part(part) },
        ),
        render::request_of(LinkTypeView::RustdocInclude(file, part), base) == Some(
            RequestView {
                path: path::joined_path(base, file),
                excerpt: ExcerptView::RustdocPart(part),
            },
        ),
        render::request_of(LinkTypeView::Playground(file, props), base) == Some(
            RequestView { path: path::joined_path(base, file), excerpt: ExcerptView::Whole },
        ),
        render::request_of(LinkTypeView::Escaped, base) is None,
        render::request_of(LinkTypeView::Title(file), base) is None,
        render::request_of(LinkTypeView::Invalid(file), base) is None,
{
}

/// What links give way to. An include gives way to what was read, unchanged, a playground to a code
/// block of it, an escaped link to its text without the first character, and a title to nothing.
/// Only an invalid link, and one whose file was not read, give way to nothing but an error.
pub proof fn law_contents(
    link: LinkView,
    base: Seq<char>,
    file: Seq<char>,
    part: RangeOrAnchorView,
    props: Seq<Seq<char>>,
    reply: Seq<char>,
    causes: Seq<Seq<char>>,
)
    ensures
        link.link_type == LinkTypeView::Include(file, part) || link.link_type
            == LinkTypeView::RustdocInclude(file, part) ==> render::content_of(
            link,
            base,
            Ok(reply),
        ) == Ok::<Seq<char>, RenderErrorView>(reply),
        link.link_type == LinkTypeView::Playground(file, props) ==> render::content_of(
            link,
            base,
            Ok(reply),
        ) == Ok::<Seq<char>, RenderErrorView>(render::code_block(props, reply)),
        link.link_type == LinkTypeView::Include(file, part) || link.link_type
            == LinkTypeView::RustdocInclude(file, part) || link.link_type
            == LinkTypeView::Playground(file, props) ==> render::content_of(
            link,
            base,
            Err(causes),
        ) == Err::<Seq<char>, RenderErrorView>(
            RenderErrorView::Unreadable(
                "Could not read file for link "@ + link.link_text + " ("@ + path::joined_path(
                    base,
                    file,
                ) + ")"@,
                causes,
            ),
        ),
        link.link_type is Escaped ==> render::content_of(link, base, Ok(reply)) == Ok::<
            Seq<char>,
            RenderErrorView,
        >(link.link_text.skip(1)),
        link.link_type == LinkTypeView::Title(file) ==> render::content_of(link, base, Ok(reply))
            == Ok::<Seq<char>, RenderErrorView>(Seq::empty()),
        link.link_type == LinkTypeView::Invalid(file) ==> render::content_of(link, base, Ok(reply))
            == Err::<Seq<char>, RenderErrorView>(RenderErrorView::Invalid(file)),
{
}

/// A link that asks for no file pays no heed to an answer.
pub proof fn law_no_file_no_answer(
    link: LinkView,
    base: Seq<char>,
    a: Result<Seq<char>, Seq<Seq<char>>>,
    b: Result<Seq<char>, Seq<Seq<char>>>,
)
    requires
        link.link_type is Escaped || link.link_type is Title || link.link_type is Invalid,
    ensures
        render::content_of(link, base, a) == render::content_of(link, base, b),
{
}

/// Only a link that sets the title changes it, to just what it says.
pub proof fn law_titles(link_type: LinkTypeView, new_title: Seq<char>, title: Seq<char>)
    ensures
        render::title_of(LinkTypeView::Title(new_title), title) == new_title,
        !(link_type is Title) ==> render::title_of(link_type, title) == title,
{
}

/// A code block begins with a line that names the language and then every property, in their
/// order, with a comma before each one. Behind it come the contents, with a line feed at their
/// end, and the closing line. Returns the first line of the block without the last property.
pub proof fn law_code_block(
    props: Seq<Seq<char>>,
    prop: Seq<char>,
    contents: Seq<char>,
) -> (line: Seq<char>)
    ensures
        ({
            let ended = if contents.len() > 0 && contents.last() == '\n' {
                contents
            } else {
                contents.push('\n')
            };
            let body = "\n"@ + ended + "```\n"@;
            &&& render::code_block(Seq::empty(), contents) == "```rust"@ + body
            &&& render::code_block(props, contents) == line + body
            &&& render::code_block(props.push(prop), contents) == line + ","@ + prop + body
        }),
{
    let ended = render::with_line_feed(contents);
    let body = "\n"@ + ended + "```\n"@;
    let comma = ","@;
    let all = props.push(prop);
    let empty = Seq::<char>::empty();
    reveal_strlit("rust");
    reveal_strlit("rust,");
    reveal_strlit("```");
    reveal_strlit("```rust");
    reveal_strlit(",");
    assert("rust,"@ == "rust"@ + ","@);
    assert("```"@ + "rust"@ == "```rust"@);
    text_laws::law_join(props, prop, comma);
    let line = if props.len() > 0 {
        "```"@ + "rust,"@ + text::join_of(props, comma)
    } else {
        "```rust"@
    };
    assert("```"@ + "rust"@ + empty + "\n"@ + ended + "```\n"@ == "```rust"@ + body);
    if props.len() > 0 {
        assert("```"@ + "rust,"@ + text::join_of(props, comma) + "\n"@ + ended + "```\n"@ == line
            + body);
        assert("```"@ + "rust,"@ + (text::join_of(props, comma) + comma + prop) + "\n"@ + ended
            + "```\n"@ == line + comma + prop + body);
    } else {
        assert(props == Seq::<Seq<char>>::empty());
        assert(all == seq![prop]);
        assert("```"@ + "rust,"@ + prop + "\n"@ + ended + "```\n"@ == line + comma + prop + body);
    }
    line
}

/// What requests, errors and answers stand for keeps all that they hold.
pub proof fn law_request_views(
    request: Request,
    part: RangeOrAnchor,
    message: String,
    causes: Vec<String>,
    content: &str,
)
    ensures
        request@.path == request.path@,
        request@.excerpt == request.excerpt@,
        Excerpt::Whole@ == ExcerptView::Whole,
        Excerpt::Part(part)@ == ExcerptView::Part(part@),
        Excerpt::RustdocPart(part)@ == ExcerptView::RustdocPart(part@),
        RenderError::Invalid(message)@ == RenderErrorView::Invalid(message@),
        RenderError::Unreadable(message, causes)@ == RenderErrorView::Unreadable(
            message@,
            Seq::new(causes@.len(), |i: int| causes@[i]@),
        ),
        render::reply_view(Ok(content)) == Ok::<Seq<char>, Seq<Seq<char>>>(content@),
        render::reply_view(Err(&causes)) == Err::<Seq<char>, Seq<Seq<char>>>(
            Seq::new(causes@.len(), |i: int| causes@[i]@),
        ),
{
    assert(text::owned_texts(causes@) == Seq::new(causes@.len(), |i: int| causes@[i]@));
}

} // verus!
