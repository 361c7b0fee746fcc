//! What holds of words, lines and parts of a text in general.
use vstd::prelude::*;
use vstd::utf8;

use crate::text;

verus! {

pub proof fn lemma_blank_skip(s: Seq<char>, n: int)
    requires
        0 <= n <= s.len(),
        text::is_blank(s),
    ensures
        text::is_blank(s.skip(n)),
{
    assert forall|i: int| 0 <= i < s.skip(n).len() implies text::is_white_space(
        #[trigger] s.skip(n)[i],
    ) by {
        assert(s.skip(n)[i] == s[i + n]);
    }
}

/// A text is its trimmed start with blank text before it.
pub proof fn lemma_trim_start(s: Seq<char>) -> (blank: Seq<char>)
    ensures
        text::is_blank(blank),
        s == blank + text::trim_start_of(s),
        text::trim_start_of(s).len() > 0 ==> !text::is_white_space(text::trim_start_of(s)[0]),
    decreases s.len(),
{
    if s.len() > 0 && text::is_white_space(s[0]) {
        let rest = lemma_trim_start(s.skip(1));
        let blank = seq![s[0]] + rest;
        assert forall|i: int| 0 <= i < blank.len() implies text::is_white_space(
            #[trigger] blank[i],
        ) by {
            if i > 0 {
                assert(blank[i] == rest[i - 1]);
            }
        }
        assert(s == seq![s[0]] + s.skip(1));
        assert(s == blank + text::trim_start_of(s));
        blank
    } else {
        assert(s == Seq::<char>::empty() + s);
        Seq::empty()
    }
}

/// A text is its trimmed end with blank text behind it.
pub proof fn lemma_trim_end(s: Seq<char>) -> (blank: Seq<char>)
    ensures
        text::is_blank(blank),
        s == text::trim_end_of(s) + blank,
    decreases s.len(),
{
    if s.len() > 0 && text::is_white_space(s.last()) {
        let rest = lemma_trim_end(s.drop_last());
        let blank = rest.push(s.last());
        assert(s == s.drop_last().push(s.last()));
        assert(s == text::trim_end_of(s) + blank);
        blank
    } else {
        assert(s == s + Seq::<char>::empty());
        Seq::empty()
    }
}

pub proof fn lemma_words_before_blank(s: Seq<char>, blank: Seq<char>)
    requires
        text::is_blank(blank),
    ensures
        text::words_of(s + blank) == text::words_of(s),
    decreases s.len() + blank.len(),
{
    let both = s + blank;
    if s.len() == 0 {
        if blank.len() > 0 {
            lemma_blank_skip(blank, 1);
            lemma_words_before_blank(s, blank.skip(1));
            assert(both.skip(1) == s + blank.skip(1));
        }
    } else if text::is_white_space(s[0]) {
        lemma_words_before_blank(s.skip(1), blank);
        assert(both.skip(1) == s.skip(1) + blank);
    } else {
        let n = text::word_len(s);
        text::lemma_word_len(s);
        text::lemma_word_len_is(both, n);
        lemma_words_before_blank(s.skip(n as int), blank);
        assert(both.skip(n as int) == s.skip(n as int) + blank);
        assert(both.take(n as int) == s.take(n as int));
    }
}

pub proof fn lemma_words_behind_blank(blank: Seq<char>, s: Seq<char>)
    requires
        text::is_blank(blank),
    ensures
        text::words_of(blank + s) == text::words_of(s),
    decreases blank.len(),
{
    let both = blank + s;
    if blank.len() > 0 {
        lemma_blank_skip(blank, 1);
        lemma_words_behind_blank(blank.skip(1), s);
        assert(both[0] == blank[0]);
        assert(both.skip(1) == blank.skip(1) + s);
    } else {
        assert(both == s);
    }
}

pub proof fn lemma_no_words(s: Seq<char>)
    ensures
        text::words_of(s).len() == 0 <==> text::is_blank(s),
    decreases s.len(),
{
    if s.len() > 0 {
        if text::is_white_space(s[0]) {
            lemma_no_words(s.skip(1));
            if text::is_blank(s) {
                lemma_blank_skip(s, 1);
            }
            if text::is_blank(s.skip(1)) {
                assert forall|i: int| 0 <= i < s.len() implies text::is_white_space(
                    #[trigger] s[i],
                ) by {
                    if i > 0 {
                        assert(s[i] == s.skip(1)[i - 1]);
                    }
                }
            }
        }
    }
}

pub proof fn lemma_trim_start_is(blank: Seq<char>, s: Seq<char>)
    requires
        text::is_blank(blank),
        s.len() > 0,
        !text::is_white_space(s[0]),
    ensures
        text::trim_start_of(blank + s) == s,
    decreases blank.len(),
{
    let both = blank + s;
    if blank.len() > 0 {
        lemma_blank_skip(blank, 1);
        lemma_trim_start_is(blank.skip(1), s);
        assert(both[0] == blank[0]);
        assert(both.skip(1) == blank.skip(1) + s);
    } else {
        assert(both == s);
    }
}

/// Whether a text is a single word.
pub open spec fn is_word(s: Seq<char>) -> bool {
    &&& s.len() > 0
    &&& forall|i: int| 0 <= i < s.len() ==> !text::is_white_space(#[trigger] s[i])
}

pub proof fn lemma_first_word(word: Seq<char>, after: Seq<char>)
    requires
        is_word(word),
        after.len() > 0 ==> text::is_white_space(after[0]),
    ensures
        text::words_of(word + after) == seq![word] + text::words_of(after),
{
    let both = word + after;
    let n = word.len();
    assert forall|i: int| 0 <= i < n implies !text::is_white_space(#[trigger] both[i]) by {
        assert(both[i] == word[i]);
    }
    text::lemma_word_len_is(both, n);
    assert(both.take(n as int) == word);
    assert(both.skip(n as int) == after);
}

/// White space is what has Unicode's `White_Space` property, and a text is blank where all of its
/// characters have it.
pub proof fn law_white_space(s: Seq<char>, c: char)
    ensures
        text::is_white_space(c) <==> {
            let code = c as u32;
            ||| 9 <= code <= 13
            ||| code == 32
            ||| code == 133
            ||| code == 160
            ||| code == 5760
            ||| 8192 <= code <= 8202
            ||| code == 8232
            ||| code == 8233
            ||| code == 8239
            ||| code == 8287
            ||| code == 12288
        },
        text::is_blank(Seq::empty()),
        text::is_blank(s.push(c)) <==> text::is_blank(s) && text::is_white_space(c),
{
    let longer = s.push(c);
    if text::is_blank(longer) {
        assert(longer[s.len() as int] == c);
        assert forall|i: int| 0 <= i < s.len() implies text::is_white_space(#[trigger] s[i]) by {
            assert(longer[i] == s[i]);
        }
    }
}

/// Joining can begin with the first part.
pub proof fn lemma_join_first(first: Seq<char>, rest: Seq<Seq<char>>, separator: Seq<char>)
    requires
        rest.len() > 0,
    ensures
        text::join_of(seq![first] + rest, separator) == first + separator + text::join_of(
            rest,
            separator,
        ),
    decreases rest.len(),
{
    let all = seq![first] + rest;
    assert(all.last() == rest.last());
    if rest.len() == 1 {
        assert(all.drop_last() == seq![first]);
        assert(text::join_of(seq![first], separator) == first);
    } else {
        lemma_join_first(first, rest.drop_last(), separator);
        assert(all.drop_last() == seq![first] + rest.drop_last());
        assert(text::join_of(all, separator) == text::join_of(all.drop_last(), separator)
            + separator + all.last());
        assert(first + separator + text::join_of(rest.drop_last(), separator) + separator
            + rest.last() == first + separator + text::join_of(rest, separator));
    }
}

/// The last line is what follows the last line feed, whatever it is, and all of a text without one.
pub proof fn law_last_line(before: Seq<char>, line: Seq<char>)
    requires
        !line.contains('\n'),
    ensures
        text::last_line_of(line) == line,
        text::last_line_of(before.push('\n') + line) == line,
    decreases line.len(),
{
    let all = before.push('\n') + line;
    if line.len() == 0 {
        assert(all == before.push('\n'));
    } else {
        let shorter = line.drop_last();
        assert(!shorter.contains('\n')) by {
            assert forall|i: int| 0 <= i < shorter.len() implies shorter[i] != '\n' by {
                assert(line.contains(line[i]));
            }
        }
        assert(line.contains(line.last()));
        law_last_line(before, shorter);
        assert(all.drop_last() == before.push('\n') + shorter);
        assert(shorter.push(line.last()) == line);
    }
}

/// A line ends in a line feed, or in a carriage return and a line feed, which are not part of it.
/// The last line may go without, and the lines behind a line are those of the rest.
pub proof fn law_lines(line: Seq<char>, rest: Seq<char>)
    requires
        !line.contains('\n'),
    ensures
        text::lines_of(Seq::empty()) == Seq::<Seq<char>>::empty(),
        line.len() > 0 ==> text::lines_of(line) == seq![line],
        line.len() == 0 || line.last() != '\r' ==> text::lines_of(line + seq!['\n'] + rest)
            == seq![line] + text::lines_of(rest),
        text::lines_of(line + seq!['\r', '\n'] + rest) == seq![line] + text::lines_of(rest),
{
    assert forall|i: int| 0 <= i < line.len() implies #[trigger] line[i] != '\n' by {
        assert(line.contains(line[i]));
    }
    text::lemma_find_is(line, '\n', line.len());
    let fed = line + seq!['\n'] + rest;
    text::lemma_find_is(fed, '\n', line.len());
    assert(fed.take(line.len() as int) == line);
    assert(fed.skip(line.len() as int + 1) == rest);
    let returned = line + seq!['\r', '\n'] + rest;
    text::lemma_find_is(returned, '\n', line.len() + 1);
    assert(returned.take(line.len() as int + 1) == line.push('\r'));
    assert(line.push('\r').drop_last() == line);
    assert(returned.skip(line.len() as int + 2) == rest);
}

/// Parts are joined in their order, all of them, with the separator between each two of them.
pub proof fn law_join(parts: Seq<Seq<char>>, part: Seq<char>, separator: Seq<char>)
    ensures
        text::join_of(Seq::empty(), separator) == Seq::<char>::empty(),
        text::join_of(seq![part], separator) == part,
        parts.len() > 0 ==> text::join_of(parts.push(part), separator) == text::join_of(
            parts,
            separator,
        ) + separator + part,
{
    assert(parts.push(part).drop_last() == parts);
}

/// Trimming takes off the white space at the ends of a text, all of it and nothing else.
pub proof fn law_trim(before: Seq<char>, s: Seq<char>, after: Seq<char>)
    requires
        text::is_blank(before),
        text::is_blank(after),
        s.len() > 0 ==> !text::is_white_space(s[0]) && !text::is_white_space(s.last()),
    ensures
        text::trim_of(before + s + after) == s,
        s.len() > 0 ==> text::trim_start_of(before + s + after) == s + after,
    decreases before.len() + after.len(),
{
    let all = before + s + after;
    if before.len() > 0 {
        lemma_blank_skip(before, 1);
        law_trim(before.skip(1), s, after);
        assert(all[0] == before[0]);
        assert(all.skip(1) == before.skip(1) + s + after);
    } else if after.len() > 0 {
        let shorter = after.drop_last();
        assert forall|i: int| 0 <= i < shorter.len() implies text::is_white_space(
            #[trigger] shorter[i],
        ) by {
            assert(shorter[i] == after[i]);
        }
        law_trim(before, s, shorter);
        if s.len() > 0 {
            assert(all == s + after);
            assert(before + s + shorter == s + shorter);
            assert((s + after).drop_last() == s + shorter);
            assert((s + after).last() == after.last());
        } else {
            assert(all == after);
            lemma_blank_skip(after, 1);
            law_trim(before, s, after.skip(1));
            assert(before + s + after.skip(1) == after.skip(1));
        }
    } else {
        assert(all == s);
        assert(s + after == s);
    }
}

/// The words of a text are the pieces between white space, all of them, in their order.
pub proof fn law_words(before: Seq<char>, word: Seq<char>, after: Seq<char>)
    requires
        text::is_blank(before),
        word.len() > 0,
        forall|i: int| 0 <= i < word.len() ==> !text::is_white_space(#[trigger] word[i]),
        after.len() > 0 ==> text::is_white_space(after[0]),
    ensures
        text::words_of(before) == Seq::<Seq<char>>::empty(),
        text::words_of(before + word + after) == seq![word] + text::words_of(after),
{
    lemma_no_words(before);
    assert(before + word + after == before + (word + after));
    lemma_words_behind_blank(before, word + after);
    lemma_first_word(word, after);
}

/// A character is found where it first stands, and behind the text where it does not.
pub proof fn law_find(before: Seq<char>, c: char, after: Seq<char>)
    requires
        !before.contains(c),
    ensures
        text::find(before, c) == before.len(),
        text::find(before + seq![c] + after, c) == before.len(),
{
    assert forall|i: int| 0 <= i < before.len() implies #[trigger] before[i] != c by {
        assert(before.contains(before[i]));
    }
    text::lemma_find_is(before, c, before.len());
    text::lemma_find_is(before + seq![c] + after, c, before.len());
}

/// Between two byte offsets lies what stands behind that many bytes of the text.
pub proof fn law_between(before: Seq<char>, part: Seq<char>, after: Seq<char>)
    ensures
        ({
            let s = before + part + after;
            let from = utf8::encode_utf8(before).len() as int;
            let to = from + utf8::encode_utf8(part).len();
            &&& text::is_boundary(s, from)
            &&& text::is_boundary(s, to)
            &&& text::between(s, from, to) == part
            &&& text::from_offset(s, to) == after
        }),
{
    let s = before + part + after;
    let i = before.len() as int;
    let j = i + part.len();
    assert(s.take(i) == before);
    assert(s.take(j) == before + part);
    assert(s.subrange(i, j) == part);
    assert(s.take(s.len() as int) == s);
    assert(s.subrange(j, s.len() as int) == after);
    text::lemma_encode_add(before, part);
    text::lemma_subrange(s, i, j);
    text::lemma_subrange(s, j, s.len() as int);
}

/// The texts of several strings are those of all of them, in their order.
pub proof fn law_texts(strings: Seq<&str>, owned: Seq<String>)
    ensures
        text::texts(strings).len() == strings.len(),
        forall|i: int| 0 <= i < strings.len() ==> #[trigger] text::texts(strings)[i] == strings[i]@,
        text::owned_texts(owned).len() == owned.len(),
        forall|i: int| 0 <= i < owned.len() ==> #[trigger] text::owned_texts(owned)[i] == owned[i]@,
{
}

} // verus!
