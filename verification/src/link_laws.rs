//! What holds of matches and of the links that they make in general.
use vstd::prelude::*;

use crate::link;
use crate::link::{Link, LinkView, Renamed, RenamedView};
use crate::link_type;
use crate::link_type::{LinkType, LinkTypeView};
use crate::range::{LineRange, RangeOrAnchor, RangeOrAnchorView};
use crate::text;

verus! {

/// What the kinds of links ask for. There are no other kinds.
pub proof fn law_kinds(kind: Seq<char>, arguments: Seq<char>)
    ensures
        link::link_type_of_kind("title"@, arguments) == Some(LinkTypeView::Title(arguments)),
        link::link_type_of_kind("include"@, arguments) == link_type::include_of(arguments),
        link::link_type_of_kind("rustdoc_include"@, arguments) == link_type::rustdoc_include_of(
            arguments,
        ),
        link::link_type_of_kind("playground"@, arguments) == link_type::playground_of(arguments),
        link::link_type_of_kind("playpen"@, arguments) == link_type::playground_of(arguments),
        kind != "title"@ && kind != "include"@ && kind != "rustdoc_include"@ && kind
            != "playground"@ && kind != "playpen"@ ==> link::link_type_of_kind(
            kind,
            arguments,
        ) is None,
{
    reveal_strlit("title");
    reveal_strlit("include");
    reveal_strlit("rustdoc_include");
    reveal_strlit("playground");
    reveal_strlit("playpen");
    assert("title"@.len() == 5);
    assert("include"@.len() == 7);
    assert("rustdoc_include"@.len() == 15);
    assert("playground"@.len() == 10);
    assert("playpen"@.len() == 7);
    assert("include"@[0] == 'i');
    assert("playpen"@[0] == 'p');
}

/// A match with a kind and arguments makes the link that these ask for, where the match stands.
/// One without groups makes an escaped link where it begins with a backslash. No other one makes a
/// link.
pub proof fn law_match_makes_link(
    s: Seq<char>,
    whole: (usize, usize),
    kind: (usize, usize),
    arguments: (usize, usize),
)
    ensures
        ({
            let link_text = text::between(s, whole.0 as int, whole.1 as int);
            let asked = link::link_type_of_kind(
                text::between(s, kind.0 as int, kind.1 as int),
                text::between(s, arguments.0 as int, arguments.1 as int),
            );
            let link = link::link_of(s, seq![Some(whole), Some(kind), Some(arguments)]);
            let escaped = link::link_of(s, seq![Some(whole), None, None]);
            &&& match asked {
                Some(link_type) => link == Some(
                    LinkView { start_index: whole.0, end_index: whole.1, link_type, link_text },
                ),
                None => link is None,
            }
            &&& if link_text.len() > 0 && link_text[0] == '\\' {
                escaped == Some(
                    LinkView {
                        start_index: whole.0,
                        end_index: whole.1,
                        link_type: LinkTypeView::Escaped,
                        link_text,
                    },
                )
            } else {
                escaped is None
            }
            &&& link::link_of(s, seq![Some(whole), Some(kind), None]) is None
            &&& link::link_of(s, seq![Some(whole), None, Some(arguments)]) is None
            &&& link::link_of(s, seq![None, Some(kind), Some(arguments)]) is None
            &&& link::link_of(s, seq![None, None, None]) is None
        }),
{
}

/// The links of a text are those that its matches make, all of them, in the order of the matches.
pub proof fn law_links_of_matches(
    s: Seq<char>,
    captures: Seq<Seq<Option<(usize, usize)>>>,
    more: Seq<Seq<Option<(usize, usize)>>>,
    capture: Seq<Option<(usize, usize)>>,
)
    ensures
        link::links_of(s) == link::links_of_captures(s, link::regex_captures(link::LINK@, s)),
        link::links_of_captures(s, Seq::empty()) == Seq::<LinkView>::empty(),
        link::links_of_captures(s, seq![capture]) == (match link::link_of(s, capture) {
            Some(link) => seq![link],
            None => Seq::empty(),
        }),
        link::links_of_captures(s, captures + more) == link::links_of_captures(s, captures)
            + link::links_of_captures(s, more),
    decreases captures.len(),
{
    assert(seq![capture].skip(1) == Seq::<Seq<Option<(usize, usize)>>>::empty());
    assert(link::links_of_captures(s, seq![capture].skip(1)) == Seq::<LinkView>::empty());
    let all = captures + more;
    if captures.len() == 0 {
        assert(all == more);
        assert(Seq::<LinkView>::empty() + link::links_of_captures(s, more)
            == link::links_of_captures(s, more));
    } else {
        law_links_of_matches(s, captures.skip(1), more, capture);
        assert(all[0] == captures[0]);
        assert(all.skip(1) == captures.skip(1) + more);
        if let Some(link) = link::link_of(s, captures[0]) {
            let rest = link::links_of_captures(s, captures.skip(1));
            assert(seq![link] + (rest + link::links_of_captures(s, more)) == seq![link] + rest
                + link::links_of_captures(s, more));
        }
    }
}

/// The matches by a former name are all those whose kind is `playpen`, in their order, whether they
/// make a link or not.
pub proof fn law_renamed_matches(
    s: Seq<char>,
    captures: Seq<Seq<Option<(usize, usize)>>>,
    whole: (usize, usize),
    kind: (usize, usize),
    arguments: (usize, usize),
)
    ensures
        link::renamed_of(s) == link::renamed_in_captures(s, link::regex_captures(link::LINK@, s)),
        link::renamed_in_captures(s, Seq::empty()) == Seq::<RenamedView>::empty(),
        link::renamed_in_captures(
            s,
            captures.push(seq![Some(whole), Some(kind), Some(arguments)]),
        ) == (if text::between(s, kind.0 as int, kind.1 as int) == "playpen"@ {
            link::renamed_in_captures(s, captures).push(
                RenamedView {
                    start_index: whole.0,
                    link_text: text::between(s, whole.0 as int, whole.1 as int),
                },
            )
        } else {
            link::renamed_in_captures(s, captures)
        }),
        link::renamed_in_captures(s, captures.push(seq![Some(whole), None, None]))
            == link::renamed_in_captures(s, captures),
{
    let found = captures.push(seq![Some(whole), Some(kind), Some(arguments)]);
    assert(found.drop_last() == captures);
    assert(found.last() == seq![Some(whole), Some(kind), Some(arguments)]);
    let escaped = captures.push(seq![Some(whole), None, None]);
    assert(escaped.drop_last() == captures);
    assert(escaped.last() == seq![Some(whole), None::<(usize, usize)>, None]);
}

/// What links stand for keeps all that they hold.
pub proof fn law_link_views<'a>(
    link: Link<'a>,
    links: Seq<Link<'a>>,
    found: Renamed<'a>,
    renamed: Seq<Renamed<'a>>,
    captures: Seq<Vec<Option<(usize, usize)>>>,
)
    ensures
        link@.start_index == link.start_index,
        link@.end_index == link.end_index,
        link@.link_type == link.link_type@,
        link@.link_text == link.link_text@,
        found@.start_index == found.start_index,
        found@.link_text == found.link_text@,
        link::link_views(links).len() == links.len(),
        forall|i: int| 0 <= i < links.len() ==> #[trigger] link::link_views(links)[i] == links[i]@,
        link::renamed_views(renamed).len() == renamed.len(),
        forall|i: int|
            0 <= i < renamed.len() ==> #[trigger] link::renamed_views(renamed)[i] == renamed[i]@,
        link::groups_of(captures).len() == captures.len(),
        forall|i: int|
            0 <= i < captures.len() ==> #[trigger] link::groups_of(captures)[i] == captures[i]@,
{
}

/// What link types stand for keeps all that they hold.
pub proof fn law_link_type_views<'a>(
    file: String,
    part: RangeOrAnchor,
    props: Vec<&'a str>,
    title: &'a str,
    lines: LineRange,
    link_type: LinkType<'a>,
)
    ensures
        link_type::link_type_view(Some(link_type)) == Some(link_type@),
        link_type::link_type_view(None) is None,
        LinkType::Escaped@ == LinkTypeView::Escaped,
        LinkType::Include(file, part)@ == LinkTypeView::Include(file@, part@),
        LinkType::RustdocInclude(file, part)@ == LinkTypeView::RustdocInclude(file@, part@),
        LinkType::Playground(file, props)@ == LinkTypeView::Playground(
            file@,
            Seq::new(props@.len(), |i: int| props@[i]@),
        ),
        LinkType::Title(title)@ == LinkTypeView::Title(title@),
        LinkType::Invalid(file)@ == LinkTypeView::Invalid(file@),
        RangeOrAnchor::Range(lines)@ == RangeOrAnchorView::Range(lines),
        RangeOrAnchor::Anchor(file)@ == RangeOrAnchorView::Anchor(file@),
{
    assert(text::texts(props@) == Seq::new(props@.len(), |i: int| props@[i]@));
}

} // verus!
