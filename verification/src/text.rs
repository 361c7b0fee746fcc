//! Text as a sequence of characters: white space, words and lines.
use vstd::prelude::*;
use vstd::utf8;

verus! {

/// Whether a character has Unicode's `White_Space` property.
pub open spec fn is_white_space(c: char) -> bool {
    ||| '\u{9}' <= c <= '\u{d}'
    ||| c == '\u{20}'
    ||| c == '\u{85}'
    ||| c == '\u{a0}'
    ||| c == '\u{1680}'
    ||| '\u{2000}' <= c <= '\u{200a}'
    ||| c == '\u{2028}'
    ||| c == '\u{2029}'
    ||| c == '\u{202f}'
    ||| c == '\u{205f}'
    ||| c == '\u{3000}'
}

/// Whether a text is made of white space alone.
pub open spec fn is_blank(s: Seq<char>) -> bool {
    forall|i: int| 0 <= i < s.len() ==> is_white_space(#[trigger] s[i])
}

/// The text without its leading white space.
pub open spec fn trim_start_of(s: Seq<char>) -> Seq<char>
    decreases s.len(),
{
    if s.len() > 0 && is_white_space(s[0]) {
        trim_start_of(s.skip(1))
    } else {
        s
    }
}

/// The text without its trailing white space.
pub open spec fn trim_end_of(s: Seq<char>) -> Seq<char>
    decreases s.len(),
{
    if s.len() > 0 && is_white_space(s.last()) {
        trim_end_of(s.drop_last())
    } else {
        s
    }
}

/// The text without the white space at either end.
pub open spec fn trim_of(s: Seq<char>) -> Seq<char> {
    trim_end_of(trim_start_of(s))
}

/// How many characters stand before the first white space.
pub open spec fn word_len(s: Seq<char>) -> nat
    decreases s.len(),
{
    if s.len() == 0 || is_white_space(s[0]) {
        0
    } else {
        1 + word_len(s.skip(1))
    }
}

/// The pieces of a text that white space sets apart.
pub open spec fn words_of(s: Seq<char>) -> Seq<Seq<char>>
    decreases s.len(),
{
    if s.len() == 0 {
        Seq::empty()
    } else if is_white_space(s[0]) {
        words_of(s.skip(1))
    } else {
        proof {
            lemma_word_len(s);
        }
        seq![s.take(word_len(s) as int)] + words_of(s.skip(word_len(s) as int))
    }
}

/// How many characters stand before the first `c`: all of them where there is none.
pub open spec fn find(s: Seq<char>, c: char) -> nat
    decreases s.len(),
{
    if s.len() == 0 || s[0] == c {
        0
    } else {
        1 + find(s.skip(1), c)
    }
}

/// A line without the carriage return that belonged to its line ending.
pub open spec fn without_return(line: Seq<char>) -> Seq<char> {
    if line.len() > 0 && line.last() == '\r' {
        line.drop_last()
    } else {
        line
    }
}

/// The lines of a text. A line ends in `\n` or `\r\n`, the last one may go without.
pub open spec fn lines_of(s: Seq<char>) -> Seq<Seq<char>>
    decreases s.len(),
{
    if s.len() == 0 {
        Seq::empty()
    } else if find(s, '\n') >= s.len() {
        seq![s]
    } else {
        seq![without_return(s.take(find(s, '\n') as int))] + lines_of(
            s.skip(find(s, '\n') as int + 1),
        )
    }
}

/// What follows the last `\n` of a text: all of it where there is none.
pub open spec fn last_line_of(s: Seq<char>) -> Seq<char>
    decreases s.len(),
{
    if s.len() == 0 || s.last() == '\n' {
        Seq::empty()
    } else {
        last_line_of(s.drop_last()).push(s.last())
    }
}

/// The parts one after the other, with the separator between them.
pub open spec fn join_of(parts: Seq<Seq<char>>, separator: Seq<char>) -> Seq<char>
    decreases parts.len(),
{
    if parts.len() == 0 {
        Seq::empty()
    } else if parts.len() == 1 {
        parts[0]
    } else {
        join_of(parts.drop_last(), separator) + separator + parts.last()
    }
}

/// The characters of each of several strings.
pub open spec fn texts(strings: Seq<&str>) -> Seq<Seq<char>> {
    Seq::new(strings.len(), |i: int| strings[i]@)
}

/// The characters of each of several owned strings.
pub open spec fn owned_texts(strings: Seq<String>) -> Seq<Seq<char>> {
    Seq::new(strings.len(), |i: int| strings[i]@)
}

/// Whether a byte offset falls between two characters of a text, or on either end of it.
pub open spec fn is_boundary(s: Seq<char>, offset: int) -> bool {
    utf8::is_char_boundary(utf8::encode_utf8(s), offset)
}

/// The part of a text that lies between two byte offsets.
pub open spec fn between(s: Seq<char>, from: int, to: int) -> Seq<char> {
    utf8::decode_utf8(utf8::encode_utf8(s).subrange(from, to))
}

/// The part of a text that lies behind a byte offset.
pub open spec fn from_offset(s: Seq<char>, from: int) -> Seq<char> {
    between(s, from, utf8::encode_utf8(s).len() as int)
}

/// No character within `word_len` is white space, and the next one is.
pub proof fn lemma_word_len(s: Seq<char>)
    ensures
        word_len(s) <= s.len(),
        word_len(s) < s.len() ==> is_white_space(s[word_len(s) as int]),
        forall|i: int| 0 <= i < word_len(s) ==> !is_white_space(#[trigger] s[i]),
    decreases s.len(),
{
    if s.len() > 0 && !is_white_space(s[0]) {
        let rest = s.skip(1);
        lemma_word_len(rest);
        assert forall|i: int| 0 <= i < word_len(s) implies !is_white_space(#[trigger] s[i]) by {
            if i > 0 {
                assert(s[i] == rest[i - 1]);
            }
        }
    }
}

/// Only `word_len` counts characters up to white space.
pub proof fn lemma_word_len_is(s: Seq<char>, n: nat)
    requires
        n <= s.len(),
        forall|i: int| 0 <= i < n ==> !is_white_space(#[trigger] s[i]),
        n < s.len() ==> is_white_space(s[n as int]),
    ensures
        word_len(s) == n,
{
    lemma_word_len(s);
    if word_len(s) < n {
        assert(!is_white_space(s[word_len(s) as int]));
    }
}

/// No character within `find` is the one looked for, and the next one is.
pub proof fn lemma_find(s: Seq<char>, c: char)
    ensures
        find(s, c) <= s.len(),
        find(s, c) < s.len() ==> s[find(s, c) as int] == c,
        forall|i: int| 0 <= i < find(s, c) ==> #[trigger] s[i] != c,
    decreases s.len(),
{
    if s.len() > 0 && s[0] != c {
        let rest = s.skip(1);
        lemma_find(rest, c);
        assert forall|i: int| 0 <= i < find(s, c) implies #[trigger] s[i] != c by {
            if i > 0 {
                assert(s[i] == rest[i - 1]);
            }
        }
    }
}

/// Only `find` counts characters up to the one looked for.
pub proof fn lemma_find_is(s: Seq<char>, c: char, n: nat)
    requires
        n <= s.len(),
        forall|i: int| 0 <= i < n ==> #[trigger] s[i] != c,
        n < s.len() ==> s[n as int] == c,
    ensures
        find(s, c) == n,
{
    lemma_find(s, c);
    if find(s, c) < n {
        assert(s[find(s, c) as int] != c);
    }
}

/// A boundary lies within the text.
pub proof fn lemma_boundary(s: Seq<char>, offset: int)
    requires
        is_boundary(s, offset),
    ensures
        0 <= offset <= utf8::encode_utf8(s).len(),
{
    utf8::encode_utf8_valid_utf8(s);
}

/// The two parts of a text on either side of a boundary make up the text, and are valid UTF-8.
proof fn lemma_split(bytes: Seq<u8>, from: int, to: int)
    requires
        utf8::valid_utf8(bytes),
        from <= to,
        utf8::is_char_boundary(bytes, from),
        utf8::is_char_boundary(bytes, to),
    ensures
        0 <= from <= to <= bytes.len(),
        utf8::valid_utf8(bytes.skip(from)),
        utf8::is_char_boundary(bytes.skip(from), to - from),
        utf8::valid_utf8(bytes.subrange(from, to)),
{
    let tail = bytes.subrange(from, bytes.len() as int);
    assert(bytes.skip(from) == tail);
    utf8::valid_utf8_split(bytes, from);
    if to < bytes.len() {
        utf8::is_char_boundary_iff_not_is_continuation_byte(bytes, to);
        utf8::is_char_boundary_iff_not_is_continuation_byte(tail, to - from);
    } else {
        utf8::is_char_boundary_start_end_of_seq(tail);
    }
    utf8::valid_utf8_split(tail, to - from);
    assert(tail.subrange(0, to - from) == bytes.subrange(from, to));
}

/// Two parts of a text that meet make up one.
pub proof fn lemma_between_add(s: Seq<char>, from: int, mid: int, to: int)
    requires
        from <= mid <= to,
        is_boundary(s, from),
        is_boundary(s, mid),
        is_boundary(s, to),
    ensures
        between(s, from, mid) + between(s, mid, to) == between(s, from, to),
{
    let bytes = utf8::encode_utf8(s);
    utf8::encode_utf8_valid_utf8(s);
    lemma_split(bytes, from, to);
    lemma_split(bytes, from, mid);
    lemma_split(bytes, mid, to);
    let part = bytes.subrange(from, to);
    if mid < to {
        utf8::is_char_boundary_iff_not_is_continuation_byte(bytes, mid);
        utf8::is_char_boundary_iff_not_is_continuation_byte(part, mid - from);
    } else {
        utf8::is_char_boundary_start_end_of_seq(part);
    }
    utf8::decode_utf8_split(part, mid - from);
    assert(part.subrange(0, mid - from) == bytes.subrange(from, mid));
    assert(part.subrange(mid - from, part.len() as int) == bytes.subrange(mid, to));
}

/// The whole of a text lies between its two ends, which are boundaries.
pub proof fn lemma_between_ends(s: Seq<char>)
    ensures
        is_boundary(s, 0),
        is_boundary(s, utf8::encode_utf8(s).len() as int),
        between(s, 0, utf8::encode_utf8(s).len() as int) == s,
        from_offset(s, utf8::encode_utf8(s).len() as int) == Seq::<char>::empty(),
{
    let bytes = utf8::encode_utf8(s);
    utf8::encode_utf8_valid_utf8(s);
    utf8::is_char_boundary_start_end_of_seq(bytes);
    assert(bytes.subrange(0, bytes.len() as int) == bytes);
    utf8::encode_utf8_decode_utf8(s);
    assert(utf8::valid_utf8(Seq::<u8>::empty()));
    assert(bytes.subrange(bytes.len() as int, bytes.len() as int) == Seq::<u8>::empty());
}

/// Nothing lies between an offset and itself.
pub proof fn lemma_between_empty(s: Seq<char>, offset: int)
    requires
        0 <= offset <= utf8::encode_utf8(s).len(),
    ensures
        between(s, offset, offset) == Seq::<char>::empty(),
{
    assert(utf8::valid_utf8(Seq::<u8>::empty()));
    assert(utf8::encode_utf8(s).subrange(offset, offset) == Seq::<u8>::empty());
}

/// The bytes of two texts one after the other are those of both.
pub proof fn lemma_encode_add(a: Seq<char>, b: Seq<char>)
    ensures
        utf8::encode_utf8(a + b) == utf8::encode_utf8(a) + utf8::encode_utf8(b),
    decreases a.len(),
{
    if a.len() == 0 {
        assert(a + b == b);
    } else {
        lemma_encode_add(a.drop_first(), b);
        assert((a + b).drop_first() == a.drop_first() + b);
    }
}

proof fn lemma_encode_boundary(a: Seq<char>, b: Seq<char>)
    ensures
        is_boundary(a + b, utf8::encode_utf8(a).len() as int),
    decreases a.len(),
{
    let bytes = utf8::encode_utf8(a + b);
    utf8::encode_utf8_valid_utf8(a + b);
    if a.len() > 0 {
        lemma_encode_add(a, b);
        utf8::encode_utf8_first_scalar(a + b);
        assert((a + b).drop_first() == a.drop_first() + b);
        assert(utf8::pop_first_scalar(bytes) == utf8::encode_utf8(a.drop_first() + b));
        lemma_encode_boundary(a.drop_first(), b);
    }
}

/// The characters of a text from the `i`th to the `j`th lie between the lengths in bytes of the
/// characters before them.
pub proof fn lemma_subrange(s: Seq<char>, i: int, j: int)
    requires
        0 <= i <= j <= s.len(),
    ensures
        utf8::encode_utf8(s.take(i)).len() <= utf8::encode_utf8(s.take(j)).len(),
        is_boundary(s, utf8::encode_utf8(s.take(i)).len() as int),
        is_boundary(s, utf8::encode_utf8(s.take(j)).len() as int),
        between(
            s,
            utf8::encode_utf8(s.take(i)).len() as int,
            utf8::encode_utf8(s.take(j)).len() as int,
        ) == s.subrange(i, j),
{
    let part = s.subrange(i, j);
    lemma_encode_add(s.take(i), part);
    assert(s.take(i) + part == s.take(j));
    lemma_encode_add(s.take(j), s.skip(j));
    assert(s.take(j) + s.skip(j) == s);
    assert(s.take(i) + s.skip(i) == s);
    lemma_encode_boundary(s.take(i), s.skip(i));
    lemma_encode_boundary(s.take(j), s.skip(j));
    let from = utf8::encode_utf8(s.take(i)).len() as int;
    let to = utf8::encode_utf8(s.take(j)).len() as int;
    assert(utf8::encode_utf8(s).subrange(from, to) == utf8::encode_utf8(part));
    utf8::encode_utf8_decode_utf8(part);
}

/// `String::push`: adds the character to the end of the string.
pub assume_specification[ String::push ](s: &mut String, c: char)
    ensures
        final(s)@ == old(s)@.push(c),
;

/// The characters of a string.
pub(crate) fn to_chars(s: &str) -> (res: Vec<char>)
    ensures
        res@ == s@,
{
    let mut res: Vec<char> = Vec::new();
    for c in it: s.chars()
        invariant
            it.seq() == s@,
            res@ == s@.take(it.index()),
    {
        res.push(c);
    }
    res
}

/// Whether two strings hold the same characters.
pub(crate) fn same_text(a: &str, b: &str) -> (res: bool)
    ensures
        res == (a@ == b@),
{
    let a_chars = to_chars(a);
    let b_chars = to_chars(b);
    if a_chars.len() != b_chars.len() {
        return false;
    }
    let mut i: usize = 0;
    while i < a_chars.len()
        invariant
            a_chars@ == a@,
            b_chars@ == b@,
            a_chars.len() == b_chars.len(),
            i <= a_chars.len(),
            a@.take(i as int) == b@.take(i as int),
        decreases a_chars.len() - i,
    {
        if a_chars[i] != b_chars[i] {
            return false;
        }
        assert(a@.take(i + 1) == a@.take(i as int).push(a@[i as int]));
        assert(b@.take(i + 1) == b@.take(i as int).push(b@[i as int]));
        i = i + 1;
    }
    assert(a@.take(i as int) == a@);
    assert(b@.take(i as int) == b@);
    true
}

/// Whether the string begins with the character.
pub(crate) fn starts_with(s: &str, c: char) -> (res: bool)
    ensures
        res == (s@.len() > 0 && s@[0] == c),
{
    !s.is_empty() && s.get_char(0) == c
}

/// Whether the string ends with the character.
pub(crate) fn ends_with(s: &str, c: char) -> (res: bool)
    ensures
        res == (s@.len() > 0 && s@.last() == c),
{
    let len = s.unicode_len();
    len > 0 && s.get_char(len - 1) == c
}

/// Whether the character is white space.
pub(crate) fn is_whitespace(c: char) -> (res: bool)
    ensures
        res == is_white_space(c),
{
    ('\u{9}' <= c && c <= '\u{d}') || c == '\u{20}' || c == '\u{85}' || c == '\u{a0}' || c
        == '\u{1680}' || ('\u{2000}' <= c && c <= '\u{200a}') || c == '\u{2028}' || c == '\u{2029}'
        || c == '\u{202f}' || c == '\u{205f}' || c == '\u{3000}'
}

/// The string from the `from`th character on.
pub(crate) fn skip_chars<'a>(s: &'a str, from: usize) -> (res: &'a str)
    requires
        from <= s@.len(),
    ensures
        res@ == s@.skip(from as int),
{
    let len = s.unicode_len();
    s.substring_char(from, len)
}

/// The part of a string that lies between two byte offsets.
pub(crate) fn slice<'a>(s: &'a str, from: usize, to: usize) -> (res: &'a str)
    requires
        from <= to,
        is_boundary(s@, from as int),
        is_boundary(s@, to as int),
    ensures
        res@ == between(s@, from as int, to as int),
{
    proof {
        utf8::encode_utf8_valid_utf8(s@);
        lemma_split(utf8::encode_utf8(s@), from as int, to as int);
    }
    let tail = s.split_at(from).1;
    assert(utf8::encode_utf8(tail@) == utf8::encode_utf8(s@).skip(from as int));
    let res = tail.split_at(to - from).0;
    proof {
        assert(utf8::encode_utf8(res@) == utf8::encode_utf8(s@).subrange(from as int, to as int));
        utf8::encode_utf8_decode_utf8(res@);
    }
    res
}

/// The part of a string that lies behind a byte offset.
pub(crate) fn slice_from<'a>(s: &'a str, from: usize) -> (res: &'a str)
    requires
        is_boundary(s@, from as int),
    ensures
        res@ == from_offset(s@, from as int),
{
    let res = s.split_at(from).1;
    proof {
        utf8::encode_utf8_decode_utf8(res@);
    }
    res
}

/// A string with its characters, and the byte offset of each of them and of its end.
struct Indexed<'a> {
    source: &'a str,
    chars: Vec<char>,
    offsets: Vec<usize>,
}

/// How many bytes a character takes.
fn width(c: char) -> (res: usize)
    ensures
        res == utf8::encode_scalar(c as u32).len(),
{
    let scalar = c as u32;
    if scalar < 0x80 {
        1
    } else if scalar < 0x800 {
        2
    } else if scalar < 0x10000 {
        3
    } else {
        4
    }
}

impl<'a> Indexed<'a> {
    spec fn well_formed(&self) -> bool {
        &&& self.chars@ == self.source@
        &&& self.offsets.len() == self.chars.len() + 1
        &&& forall|i: int|
            0 <= i <= self.chars.len() ==> #[trigger] self.offsets@[i] == utf8::encode_utf8(
                self.source@.take(i),
            ).len()
    }

    fn new(source: &'a str) -> (res: Self)
        ensures
            res.well_formed(),
            res.source == source,
    {
        let bytes: usize = source.as_bytes().len();
        let chars = to_chars(source);
        let mut offsets: Vec<usize> = Vec::new();
        let mut offset: usize = 0;
        offsets.push(0);
        let mut i: usize = 0;
        assert(source@.take(0) == Seq::<char>::empty());
        while i < chars.len()
            invariant
                chars@ == source@,
                bytes == utf8::encode_utf8(source@).len(),
                i <= chars.len(),
                offsets.len() == i + 1,
                offset == offsets@[i as int],
                forall|k: int|
                    0 <= k <= i ==> #[trigger] offsets@[k] == utf8::encode_utf8(
                        source@.take(k),
                    ).len(),
            decreases chars.len() - i,
        {
            proof {
                let next = source@.take(i + 1);
                let one = seq![source@[i as int]];
                assert(next == source@.take(i as int) + one);
                lemma_encode_add(source@.take(i as int), one);
                assert(one.drop_first() == Seq::<char>::empty());
                assert(utf8::encode_utf8(one) == utf8::encode_scalar(one[0] as u32)
                    + utf8::encode_utf8(one.drop_first()));
                assert(next + source@.skip(i + 1) == source@);
                lemma_encode_add(next, source@.skip(i + 1));
            }
            offset = offset + width(chars[i]);
            offsets.push(offset);
            i = i + 1;
        }
        Indexed { source, chars, offsets }
    }

    /// The characters from the `from`th to the `to`th.
    fn substring(&self, from: usize, to: usize) -> (res: &'a str)
        requires
            self.well_formed(),
            from <= to <= self.chars.len(),
        ensures
            res@ == self.source@.subrange(from as int, to as int),
    {
        proof {
            lemma_subrange(self.source@, from as int, to as int);
        }
        slice(self.source, self.offsets[from], self.offsets[to])
    }
}

/// The string without its leading white space.
pub(crate) fn trim_start<'a>(s: &'a str) -> (res: &'a str)
    ensures
        res@ == trim_start_of(s@),
{
    let chars = to_chars(s);
    let mut i: usize = 0;
    assert(s@.skip(0) == s@);
    while i < chars.len() && is_whitespace(chars[i])
        invariant
            chars@ == s@,
            i <= chars.len(),
            trim_start_of(s@.skip(i as int)) == trim_start_of(s@),
        decreases chars.len() - i,
    {
        assert(s@.skip(i as int).skip(1) == s@.skip(i + 1));
        i = i + 1;
    }
    skip_chars(s, i)
}

/// The string without the white space at either end.
pub(crate) fn trim<'a>(s: &'a str) -> (res: &'a str)
    ensures
        res@ == trim_of(s@),
{
    let start = trim_start(s);
    let chars = to_chars(start);
    let mut i: usize = chars.len();
    assert(start@.take(i as int) == start@);
    while i > 0 && is_whitespace(chars[i - 1])
        invariant
            chars@ == start@,
            i <= chars.len(),
            trim_end_of(start@.take(i as int)) == trim_end_of(start@),
        decreases i,
    {
        assert(start@.take(i as int).drop_last() == start@.take(i - 1));
        i = i - 1;
    }
    start.substring_char(0, i)
}

/// The pieces of a string that white space sets apart.
pub(crate) fn split_whitespace<'a>(s: &'a str) -> (res: Vec<&'a str>)
    ensures
        texts(res@) == words_of(s@),
{
    let indexed = Indexed::new(s);
    let chars = &indexed.chars;
    let mut words: Vec<&'a str> = Vec::new();
    let mut i: usize = 0;
    assert(s@.skip(0) == s@);
    assert(texts(words@) + words_of(s@) == words_of(s@));
    while i < chars.len()
        invariant
            indexed.well_formed(),
            indexed.source == s,
            chars == &indexed.chars,
            i <= chars.len(),
            texts(words@) + words_of(s@.skip(i as int)) == words_of(s@),
        decreases chars.len() - i,
    {
        let ghost rest = s@.skip(i as int);
        if is_whitespace(chars[i]) {
            assert(rest.skip(1) == s@.skip(i + 1));
            i = i + 1;
        } else {
            let start = i;
            while i < chars.len() && !is_whitespace(chars[i])
                invariant
                    chars@ == s@,
                    start <= i <= chars.len(),
                    forall|k: int| start <= k < i ==> !is_white_space(#[trigger] s@[k]),
                decreases chars.len() - i,
            {
                i = i + 1;
            }
            let word = indexed.substring(start, i);
            proof {
                lemma_word_len_is(rest, (i - start) as nat);
                assert(word@ == rest.take(i - start));
                assert(rest.skip(i - start) == s@.skip(i as int));
                assert(texts(words@.push(word)) == texts(words@).push(word@));
                assert(texts(words@) + words_of(rest) == texts(words@).push(word@) + words_of(
                    s@.skip(i as int),
                ));
            }
            words.push(word);
        }
    }
    assert(words_of(s@.skip(i as int)) == Seq::<Seq<char>>::empty());
    words
}

/// The position of the first `c` from `from` on: the length of the string where there is none.
pub(crate) fn find_char(chars: &Vec<char>, from: usize, c: char) -> (res: usize)
    requires
        from <= chars.len(),
    ensures
        from <= res <= chars.len(),
        res - from == find(chars@.skip(from as int), c),
{
    let mut i: usize = from;
    while i < chars.len() && chars[i] != c
        invariant
            from <= i <= chars.len(),
            forall|k: int| from <= k < i ==> #[trigger] chars@[k] != c,
        decreases chars.len() - i,
    {
        i = i + 1;
    }
    proof {
        lemma_find_is(chars@.skip(from as int), c, (i - from) as nat);
    }
    i
}

/// The lines of a string, without their line endings.
pub(crate) fn lines<'a>(s: &'a str) -> (res: Vec<&'a str>)
    ensures
        texts(res@) == lines_of(s@),
{
    let indexed = Indexed::new(s);
    let chars = &indexed.chars;
    let mut res: Vec<&'a str> = Vec::new();
    let mut i: usize = 0;
    assert(s@.skip(0) == s@);
    assert(texts(res@) + lines_of(s@) == lines_of(s@));
    while i < chars.len()
        invariant
            indexed.well_formed(),
            indexed.source == s,
            chars == &indexed.chars,
            i <= chars.len(),
            texts(res@) + lines_of(s@.skip(i as int)) == lines_of(s@),
        decreases chars.len() - i,
    {
        let ghost rest = s@.skip(i as int);
        let ghost before = res@;
        let end = find_char(chars, i, '\n');
        let mut stop = end;
        if end < chars.len() && end > i && chars[end - 1] == '\r' {
            stop = end - 1;
        }
        let line = indexed.substring(i, stop);
        res.push(line);
        proof {
            assert(texts(res@) == texts(before).push(line@));
            if end < chars.len() {
                assert(rest.take(end - i).len() == end - i);
                assert(line@ == without_return(rest.take(end - i)));
                assert(rest.skip(end - i + 1) == s@.skip(end + 1));
                assert(texts(before) + lines_of(rest) == texts(res@) + lines_of(s@.skip(end + 1)));
            } else {
                assert(line@ == rest);
                assert(texts(before) + lines_of(rest) == texts(res@));
                assert(lines_of(s@.skip(end as int)) == Seq::<Seq<char>>::empty());
                assert(texts(res@) + Seq::<Seq<char>>::empty() == texts(res@));
            }
        }
        if end < chars.len() {
            i = end + 1;
        } else {
            i = end;
        }
    }
    assert(lines_of(s@.skip(i as int)) == Seq::<Seq<char>>::empty());
    res
}

/// What follows the last `\n`: all of the string where there is none.
pub(crate) fn last_line<'a>(s: &'a str) -> (res: &'a str)
    ensures
        res@ == last_line_of(s@),
{
    let chars = to_chars(s);
    let mut i: usize = chars.len();
    assert(s@.take(i as int) == s@);
    assert(last_line_of(s@) + s@.skip(i as int) == last_line_of(s@));
    while i > 0 && chars[i - 1] != '\n'
        invariant
            chars@ == s@,
            i <= chars.len(),
            last_line_of(s@.take(i as int)) + s@.skip(i as int) == last_line_of(s@),
        decreases i,
    {
        let ghost head = s@.take(i as int);
        assert(head.drop_last() == s@.take(i - 1));
        assert(last_line_of(head) + s@.skip(i as int) == last_line_of(head.drop_last()) + s@.skip(
            i - 1,
        ));
        i = i - 1;
    }
    assert(last_line_of(s@.take(i as int)) + s@.skip(i as int) == s@.skip(i as int));
    skip_chars(s, i)
}

/// Copies of several strings.
pub(crate) fn copies(strings: &Vec<String>) -> (res: Vec<String>)
    ensures
        owned_texts(res@) == owned_texts(strings@),
{
    let mut res: Vec<String> = Vec::new();
    let mut i: usize = 0;
    while i < strings.len()
        invariant
            i <= strings.len(),
            res.len() == i,
            forall|k: int| 0 <= k < i ==> (#[trigger] res@[k])@ == strings@[k]@,
        decreases strings.len() - i,
    {
        res.push(strings[i].clone());
        i = i + 1;
    }
    assert(owned_texts(res@) == owned_texts(strings@));
    res
}

/// The parts one after the other, with the separator between them.
pub(crate) fn join(parts: &Vec<&str>, separator: &str) -> (res: String)
    ensures
        res@ == join_of(texts(parts@), separator@),
{
    let mut res = String::new();
    let mut i: usize = 0;
    let ghost all = texts(parts@);
    while i < parts.len()
        invariant
            i <= parts.len(),
            all == texts(parts@),
            res@ == join_of(all.take(i as int), separator@),
        decreases parts.len() - i,
    {
        if i > 0 {
            res.append(separator);
        }
        res.append(parts[i]);
        assert(all.take(i + 1).drop_last() == all.take(i as int));
        i = i + 1;
    }
    assert(all.take(i as int) == all);
    res
}

} // verus!
