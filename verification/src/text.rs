//! Text as a sequence of characters: taking it apart and putting it together.
use vstd::prelude::*;
use vstd::string::{StrSliceExecFns, StringExecFns};

verus! {

/// `String::push`: the character comes after the others.
pub assume_specification[ String::push ](s: &mut String, c: char)
    ensures
        final(s)@ == old(s)@.push(c),
;

/// Calls `std::str::from_utf8`: the characters that the bytes encode, or nothing where
/// the bytes are not valid UTF-8.
#[verifier::external_body]
pub(crate) fn text_from_utf8(bytes: &[u8]) -> (r: Option<&str>)
    ensures
        match r {
            Some(text) => {
                &&& vstd::utf8::valid_utf8(bytes@)
                &&& text@ == vstd::utf8::decode_utf8(bytes@)
            },
            None => !vstd::utf8::valid_utf8(bytes@),
        },
{
    std::str::from_utf8(bytes).ok()
}

/// The characters of strings.
pub open spec fn texts(strings: Seq<String>) -> Seq<Seq<char>> {
    strings.map_values(|s: String| s@)
}

/// The pieces of a text between the separators. A text without separators is one piece.
pub open spec fn pieces(text: Seq<char>, separator: char) -> Seq<Seq<char>>
    decreases text.len(),
{
    if text.len() == 0 {
        seq![Seq::empty()]
    } else {
        let before = pieces(text.drop_last(), separator);
        if text.last() == separator {
            before.push(Seq::empty())
        } else {
            before.drop_last().push(before.last().push(text.last()))
        }
    }
}

/// The index of the first occurrence of a character, or the length where there is none.
pub open spec fn position(text: Seq<char>, c: char) -> int
    decreases text.len(),
{
    if text.len() == 0 || text[0] == c {
        0
    } else {
        1 + position(text.drop_first(), c)
    }
}

/// What stands before the first occurrence of a character: all of the text where there
/// is none.
pub open spec fn before(text: Seq<char>, c: char) -> Seq<char> {
    text.take(position(text, c))
}

/// What stands after the first occurrence of a character, if there is one.
pub open spec fn after(text: Seq<char>, c: char) -> Option<Seq<char>> {
    if position(text, c) < text.len() {
        Some(text.skip(position(text, c) + 1))
    } else {
        None
    }
}

/// The text without the characters at its start that equal the given one.
pub open spec fn trim_start(text: Seq<char>, c: char) -> Seq<char>
    decreases text.len(),
{
    if text.len() > 0 && text[0] == c {
        trim_start(text.drop_first(), c)
    } else {
        text
    }
}

/// A space or a tab.
pub open spec fn is_blank(c: char) -> bool {
    c == ' ' || c == '\t'
}

/// The text without the blanks at its start.
pub open spec fn trim_blank_start(text: Seq<char>) -> Seq<char>
    decreases text.len(),
{
    if text.len() > 0 && is_blank(text[0]) {
        trim_blank_start(text.drop_first())
    } else {
        text
    }
}

/// The text without the blanks at its end.
pub open spec fn trim_blank_end(text: Seq<char>) -> Seq<char>
    decreases text.len(),
{
    if text.len() > 0 && is_blank(text.last()) {
        trim_blank_end(text.drop_last())
    } else {
        text
    }
}

/// The text without the blanks at its ends.
pub open spec fn trim_blank(text: Seq<char>) -> Seq<char> {
    trim_blank_end(trim_blank_start(text))
}

/// The decimal digit of a number below ten.
pub open spec fn digit(n: nat) -> char {
    (48 + n) as char
}

/// The decimal digits of a number, without leading zeros.
pub open spec fn decimal(n: nat) -> Seq<char>
    decreases n,
{
    if n < 10 {
        seq![digit(n)]
    } else {
        decimal(n / 10).push(digit(n % 10))
    }
}

/// The first occurrence of a character is where it stands and nothing before it equals it.
pub proof fn lemma_position(text: Seq<char>, c: char, at: int)
    requires
        0 <= at <= text.len(),
        forall|i: int| 0 <= i < at ==> text[i] != c,
        at < text.len() ==> text[at] == c,
    ensures
        position(text, c) == at,
    decreases text.len(),
{
    if text.len() > 0 && at > 0 {
        let rest = text.drop_first();
        assert forall|i: int| 0 <= i < at - 1 implies rest[i] != c by {
            assert(rest[i] == text[i + 1]);
        }
        assert(at < text.len() ==> rest[at - 1] == text[at]);
        lemma_position(rest, c, at - 1);
    }
}

proof fn lemma_trim_start(text: Seq<char>, c: char, from: int)
    requires
        0 <= from <= text.len(),
        forall|i: int| 0 <= i < from ==> text[i] == c,
        from < text.len() ==> text[from] != c,
    ensures
        trim_start(text, c) == text.skip(from),
    decreases text.len(),
{
    if from > 0 {
        let rest = text.drop_first();
        assert forall|i: int| 0 <= i < from - 1 implies rest[i] == c by {
            assert(rest[i] == text[i + 1]);
        }
        assert(from < text.len() ==> rest[from - 1] == text[from]);
        lemma_trim_start(rest, c, from - 1);
        assert(rest.skip(from - 1) == text.skip(from));
    } else {
        assert(text.skip(0) == text);
    }
}

proof fn lemma_trim_blank_start(text: Seq<char>, from: int)
    requires
        0 <= from <= text.len(),
        forall|i: int| 0 <= i < from ==> is_blank(#[trigger] text[i]),
        from < text.len() ==> !is_blank(text[from]),
    ensures
        trim_blank_start(text) == text.skip(from),
    decreases text.len(),
{
    if from > 0 {
        let rest = text.drop_first();
        assert forall|i: int| 0 <= i < from - 1 implies is_blank(#[trigger] rest[i]) by {
            assert(rest[i] == text[i + 1]);
        }
        assert(is_blank(text[0]));
        assert(from < text.len() ==> rest[from - 1] == text[from]);
        lemma_trim_blank_start(rest, from - 1);
        assert(rest.skip(from - 1) == text.skip(from));
    } else {
        assert(text.skip(0) == text);
    }
}

proof fn lemma_trim_blank_end(text: Seq<char>, to: int)
    requires
        0 <= to <= text.len(),
        forall|i: int| to <= i < text.len() ==> is_blank(#[trigger] text[i]),
        to > 0 ==> !is_blank(text[to - 1]),
    ensures
        trim_blank_end(text) == text.take(to),
    decreases text.len(),
{
    if to < text.len() {
        assert(is_blank(text[text.len() - 1]));
        let rest = text.drop_last();
        lemma_trim_blank_end(rest, to);
        assert(rest.take(to) == text.take(to));
    } else {
        assert(text.take(to) == text);
    }
}

/// The pieces of any text are at least one.
pub proof fn lemma_pieces_nonempty(text: Seq<char>, separator: char)
    ensures
        pieces(text, separator).len() > 0,
    decreases text.len(),
{
    if text.len() > 0 {
        lemma_pieces_nonempty(text.drop_last(), separator);
    }
}

/// The characters of a text.
pub(crate) fn chars_of(text: &str) -> (chars: Vec<char>)
    ensures
        chars@ == text@,
{
    let mut chars: Vec<char> = Vec::new();
    for c in it: text.chars()
        invariant
            it.seq() == text@,
            chars@ == text@.take(it.index() as int),
    {
        chars.push(c);
        assert(text@.take(it.index() + 1) == text@.take(it.index() as int).push(c));
    }
    assert(text@.take(text@.len() as int) == text@);
    chars
}

/// The text of the characters from one index up to another.
pub(crate) fn text_between(chars: &Vec<char>, from: usize, to: usize) -> (text: String)
    requires
        from <= to <= chars.len(),
    ensures
        text@ == chars@.subrange(from as int, to as int),
{
    let mut text = String::new();
    let mut at: usize = from;
    while at < to
        invariant
            from <= at <= to <= chars.len(),
            text@ == chars@.subrange(from as int, at as int),
        decreases to - at,
    {
        text.push(chars[at]);
        assert(chars@.subrange(from as int, at + 1) == chars@.subrange(from as int, at as int).push(
            chars@[at as int],
        ));
        at = at + 1;
    }
    text
}

/// The index of the first occurrence of a character.
pub(crate) fn find(chars: &Vec<char>, c: char) -> (at: usize)
    ensures
        at == position(chars@, c),
        at <= chars.len(),
{
    let mut at: usize = 0;
    while at < chars.len() && chars[at] != c
        invariant
            at <= chars.len(),
            forall|i: int| 0 <= i < at ==> chars[i] != c,
        decreases chars.len() - at,
    {
        at = at + 1;
    }
    proof {
        lemma_position(chars@, c, at as int);
    }
    at
}

/// Splits a text at every separator.
pub(crate) fn split(text: &str, separator: char) -> (r: Vec<String>)
    ensures
        texts(r@) == pieces(text@, separator),
{
    let chars = chars_of(text);
    let mut done: Vec<String> = Vec::new();
    let mut current = String::new();
    let mut at: usize = 0;
    assert(chars@.take(0) == Seq::<char>::empty());
    assert(texts(done@).push(current@) == seq![Seq::<char>::empty()]);
    while at < chars.len()
        invariant
            at <= chars.len(),
            chars@ == text@,
            texts(done@).push(current@) == pieces(chars@.take(at as int), separator),
        decreases chars.len() - at,
    {
        let ghost whole = chars@.take(at + 1);
        assert(whole.drop_last() == chars@.take(at as int));
        let ghost earlier = pieces(chars@.take(at as int), separator);
        assert(earlier.drop_last() == texts(done@));
        assert(earlier.last() == current@);
        if chars[at] == separator {
            let ghost finished = done@;
            done.push(current);
            current = String::new();
            assert(texts(done@) == earlier);
        } else {
            current.push(chars[at]);
        }
        at = at + 1;
    }
    assert(chars@.take(at as int) == text@);
    let ghost finished = done@;
    done.push(current);
    assert(texts(done@) == texts(finished).push(done@.last()@));
    done
}

/// The part of a text before the first separator, and the part after it.
pub(crate) fn split_once(text: &str, separator: char) -> (r: (String, Option<String>))
    ensures
        r.0@ == before(text@, separator),
        match r.1 {
            Some(rest) => after(text@, separator) == Some(rest@),
            None => after(text@, separator) is None,
        },
{
    let chars = chars_of(text);
    let at: usize = find(&chars, separator);
    let first = text_between(&chars, 0, at);
    assert(chars@.subrange(0, at as int) == chars@.take(at as int));
    if at < chars.len() {
        let rest = text_between(&chars, at + 1, chars.len());
        assert(chars@.subrange(at + 1, chars.len() as int) == chars@.skip(at + 1));
        (first, Some(rest))
    } else {
        (first, None)
    }
}

/// Drops the characters at the start that equal the given one.
pub(crate) fn trim_start_char(text: &str, c: char) -> (r: String)
    ensures
        r@ == trim_start(text@, c),
{
    let chars = chars_of(text);
    let mut from: usize = 0;
    while from < chars.len() && chars[from] == c
        invariant
            from <= chars.len(),
            forall|i: int| 0 <= i < from ==> chars[i] == c,
        decreases chars.len() - from,
    {
        from = from + 1;
    }
    proof {
        lemma_trim_start(chars@, c, from as int);
        assert(chars@.subrange(from as int, chars.len() as int) == chars@.skip(from as int));
    }
    text_between(&chars, from, chars.len())
}

fn blank(c: char) -> (r: bool)
    ensures
        r == is_blank(c),
{
    c == ' ' || c == '\t'
}

/// Drops the blanks at both ends.
pub(crate) fn trim(text: &str) -> (r: String)
    ensures
        r@ == trim_blank(text@),
{
    let chars = chars_of(text);
    let mut from: usize = 0;
    while from < chars.len() && blank(chars[from])
        invariant
            from <= chars.len(),
            forall|i: int| 0 <= i < from ==> is_blank(#[trigger] chars@[i]),
        decreases chars.len() - from,
    {
        from = from + 1;
    }
    let mut to: usize = chars.len();
    while from < to && blank(chars[to - 1])
        invariant
            from <= to <= chars.len(),
            forall|i: int| to <= i < chars.len() ==> is_blank(#[trigger] chars@[i]),
        decreases to,
    {
        to = to - 1;
    }
    proof {
        lemma_trim_blank_start(chars@, from as int);
        let rest = chars@.skip(from as int);
        assert forall|i: int| to - from <= i < rest.len() implies is_blank(#[trigger] rest[i]) by {
            assert(rest[i] == chars@[i + from]);
        }
        assert(to > from ==> rest[to - from - 1] == chars@[to - 1]);
        lemma_trim_blank_end(rest, to - from);
        assert(rest.take(to - from) == chars@.subrange(from as int, to as int));
    }
    text_between(&chars, from, to)
}

/// Whether two texts are the same.
pub(crate) fn same(a: &str, b: &str) -> (r: bool)
    ensures
        r == (a@ == b@),
{
    let left = chars_of(a);
    let right = chars_of(b);
    if left.len() != right.len() {
        return false;
    }
    let mut at: usize = 0;
    while at < left.len()
        invariant
            at <= left.len(),
            left.len() == right.len(),
            left@ == a@,
            right@ == b@,
            forall|i: int| 0 <= i < at ==> left@[i] == right@[i],
        decreases left.len() - at,
    {
        if left[at] != right[at] {
            assert(a@[at as int] != b@[at as int]);
            return false;
        }
        at = at + 1;
    }
    assert(a@ =~= b@);
    true
}

/// Whether a text begins with another.
pub(crate) fn starts_with(text: &str, prefix: &str) -> (r: bool)
    ensures
        r == prefix@.is_prefix_of(text@),
{
    let chars = chars_of(text);
    let start = chars_of(prefix);
    if start.len() > chars.len() {
        return false;
    }
    let mut at: usize = 0;
    while at < start.len()
        invariant
            at <= start.len() <= chars.len(),
            chars@ == text@,
            start@ == prefix@,
            forall|i: int| 0 <= i < at ==> chars@[i] == start@[i],
        decreases start.len() - at,
    {
        if chars[at] != start[at] {
            assert(text@.subrange(0, prefix@.len() as int)[at as int] == text@[at as int]);
            return false;
        }
        at = at + 1;
    }
    assert(text@.subrange(0, prefix@.len() as int) =~= prefix@);
    true
}

/// Whether a text ends with a character.
pub(crate) fn ends_with(text: &str, c: char) -> (r: bool)
    ensures
        r == (text@.len() > 0 && text@.last() == c),
{
    let chars = chars_of(text);
    chars.len() > 0 && chars[chars.len() - 1] == c
}

/// The text without the character at its end, where it ends with it.
pub open spec fn strip_end(text: Seq<char>, c: char) -> Seq<char> {
    if text.len() > 0 && text.last() == c {
        text.drop_last()
    } else {
        text
    }
}

/// Drops one character at the end, where the text ends with it.
pub(crate) fn strip_end_char(text: &str, c: char) -> (r: String)
    ensures
        r@ == strip_end(text@, c),
{
    let chars = chars_of(text);
    let to: usize = if chars.len() > 0 && chars[chars.len() - 1] == c {
        chars.len() - 1
    } else {
        chars.len()
    };
    assert(chars@.subrange(0, to as int) == strip_end(text@, c));
    text_between(&chars, 0, to)
}

/// The decimal digits of a number.
pub fn decimal_text(n: u64) -> (text: String)
    ensures
        text@ == decimal(n as nat),
    decreases n,
{
    let mut text = if n < 10 {
        String::new()
    } else {
        decimal_text(n / 10)
    };
    let last = (48 + (n % 10) as u8) as char;
    assert(n < 10 ==> seq![digit(n as nat)] == Seq::<char>::empty().push(digit(n as nat)));
    text.push(last);
    text
}

/// One text after another.
pub(crate) fn concat(first: &str, second: &str) -> (text: String)
    ensures
        text@ == first@ + second@,
{
    let mut text = first.to_owned();
    text.append(second);
    text
}

/// The parts with a separator between each two of them.
pub open spec fn joined(parts: Seq<Seq<char>>, separator: char) -> Seq<char>
    decreases parts.len(),
{
    if parts.len() == 0 {
        Seq::empty()
    } else if parts.len() == 1 {
        parts[0]
    } else {
        joined(parts.drop_last(), separator).push(separator) + parts.last()
    }
}

/// The pieces of a text hold no separator, and joined they are the text again.
pub proof fn law_pieces_make_up_the_text(text: Seq<char>, separator: char)
    ensures
        pieces(text, separator).len() > 0,
        joined(pieces(text, separator), separator) == text,
        forall|i: int|
            0 <= i < pieces(text, separator).len() ==> !(
            #[trigger] pieces(text, separator)[i]).contains(separator),
    decreases text.len(),
{
    let all = pieces(text, separator);
    if text.len() > 0 {
        let rest = text.drop_last();
        let before = pieces(rest, separator);
        law_pieces_make_up_the_text(rest, separator);
        if text.last() == separator {
            assert(all.drop_last() =~= before);
            assert(joined(all, separator) =~= text);
        } else {
            let last = before.last();
            assert(all.drop_last() =~= before.drop_last());
            assert(all.last() == last.push(text.last()));
            if before.len() == 1 {
                assert(joined(before, separator) == last);
                assert(joined(all, separator) == last.push(text.last()));
            } else {
                let start = joined(before.drop_last(), separator).push(separator);
                assert(joined(before, separator) == start + last);
                assert(joined(all, separator) == start + last.push(text.last()));
                assert(start + last.push(text.last()) =~= (start + last).push(text.last()));
            }
            assert(joined(all, separator) =~= text);
        }
        assert forall|i: int| 0 <= i < all.len() implies !(#[trigger] all[i]).contains(
            separator,
        ) by {
            if text.last() != separator && i == all.len() - 1 {
                assert(!before[before.len() - 1].contains(separator));
                assert(all[i] == before.last().push(text.last()));
            } else if i < all.len() - 1 {
                assert(all[i] == before[i]);
            }
        }
    } else {
        assert(all[0] == Seq::<char>::empty());
    }
}

proof fn lemma_pieces_of_more(text: Seq<char>, more: Seq<char>, separator: char)
    requires
        !more.contains(separator),
    ensures
        pieces(text + more, separator) == pieces(text, separator).drop_last().push(
            pieces(text, separator).last() + more,
        ),
    decreases more.len(),
{
    lemma_pieces_nonempty(text, separator);
    let before = pieces(text, separator);
    if more.len() > 0 {
        let rest = more.drop_last();
        assert forall|i: int| 0 <= i < rest.len() implies rest[i] != separator by {
            assert(more.contains(more[i]));
        }
        lemma_pieces_of_more(text, rest, separator);
        assert(more.contains(more.last()));
        assert((text + more).drop_last() =~= text + rest);
        assert((before.last() + rest).push(more.last()) =~= before.last() + more);
        assert(pieces(text + more, separator) =~= before.drop_last().push(before.last() + more));
    } else {
        assert(text + more =~= text);
        assert(before.last() + more =~= before.last());
        assert(before.drop_last().push(before.last()) =~= before);
    }
}

/// Parts that hold no separator are the pieces of the text that they are joined to.
pub proof fn law_joined_parts_are_the_pieces(parts: Seq<Seq<char>>, separator: char)
    requires
        parts.len() > 0,
        forall|i: int| 0 <= i < parts.len() ==> !(#[trigger] parts[i]).contains(separator),
    ensures
        pieces(joined(parts, separator), separator) == parts,
    decreases parts.len(),
{
    let last = parts.last();
    assert(!parts[parts.len() - 1].contains(separator));
    if parts.len() == 1 {
        let empty = Seq::<char>::empty();
        lemma_pieces_of_more(empty, last, separator);
        assert(empty + last =~= last);
        assert(pieces(last, separator) =~= parts);
    } else {
        let front = parts.drop_last();
        assert forall|i: int| 0 <= i < front.len() implies !(#[trigger] front[i]).contains(
            separator,
        ) by {
            assert(front[i] == parts[i]);
        }
        law_joined_parts_are_the_pieces(front, separator);
        let start = joined(front, separator).push(separator);
        assert(start.drop_last() =~= joined(front, separator));
        lemma_pieces_of_more(start, last, separator);
        assert(pieces(start, separator) == front.push(Seq::empty()));
        assert(front.push(Seq::<char>::empty()).drop_last() =~= front);
        assert(Seq::<char>::empty() + last =~= last);
        assert(pieces(start + last, separator) =~= parts);
    }
}

/// A text that starts with a part without the character and has the character behind it is
/// cut there; a text without the character is not cut.
pub proof fn law_cut_at_the_first_occurrence(start: Seq<char>, c: char, end: Seq<char>)
    requires
        !start.contains(c),
    ensures
        before(start.push(c) + end, c) == start,
        after(start.push(c) + end, c) == Some(end),
        before(start, c) == start,
        after(start, c) is None,
{
    let text = start.push(c) + end;
    assert forall|i: int| 0 <= i < start.len() implies text[i] != c && start[i] != c by {
        assert(start.contains(start[i]));
        assert(text[i] == start[i]);
    }
    lemma_position(text, c, start.len() as int);
    lemma_position(start, c, start.len() as int);
    assert(text.take(start.len() as int) =~= start);
    assert(text.skip(start.len() as int + 1) =~= end);
    assert(start.take(start.len() as int) =~= start);
}

/// However often a character stands before a text that does not start with it, it is
/// trimmed, and nothing else is.
pub proof fn law_trimmed_at_the_start(n: nat, text: Seq<char>, c: char)
    requires
        text.len() > 0 ==> text[0] != c,
    ensures
        trim_start(Seq::new(n, |i: int| c) + text, c) == text,
{
    let start = Seq::new(n, |i: int| c);
    lemma_trim_start(start + text, c, n as int);
    assert((start + text).skip(n as int) =~= text);
}

/// Spaces and tabs around a text that has none at its ends are trimmed, and nothing else is.
pub proof fn law_trimmed_blanks(left: Seq<char>, text: Seq<char>, right: Seq<char>)
    requires
        forall|i: int| 0 <= i < left.len() ==> #[trigger] left[i] == ' ' || left[i] == '\t',
        forall|i: int| 0 <= i < right.len() ==> #[trigger] right[i] == ' ' || right[i] == '\t',
        text.len() > 0 ==> text[0] != ' ' && text[0] != '\t' && text.last() != ' ' && text.last()
            != '\t',
    ensures
        trim_blank(left + text + right) == text,
{
    let all = left + text + right;
    if text.len() > 0 {
        assert forall|i: int| 0 <= i < left.len() implies is_blank(#[trigger] all[i]) by {
            assert(all[i] == left[i]);
        }
        assert(all[left.len() as int] == text[0]);
        lemma_trim_blank_start(all, left.len() as int);
        let rest = all.skip(left.len() as int);
        assert(rest =~= text + right);
        assert forall|i: int| text.len() <= i < rest.len() implies is_blank(#[trigger] rest[i]) by {
            assert(rest[i] == right[i - text.len()]);
        }
        assert(rest[text.len() - 1] == text.last());
        lemma_trim_blank_end(rest, text.len() as int);
        assert(rest.take(text.len() as int) =~= text);
    } else {
        assert forall|i: int| 0 <= i < all.len() implies is_blank(#[trigger] all[i]) by {
            if i < left.len() {
                assert(all[i] == left[i]);
            } else {
                assert(all[i] == right[i - left.len()]);
            }
        }
        lemma_trim_blank_start(all, all.len() as int);
        assert(all.skip(all.len() as int) =~= text);
        assert(trim_blank_end(text) == text);
    }
}

/// One character at the end is dropped where the text ends with it, and nothing else is.
pub proof fn law_stripped_end(text: Seq<char>, c: char)
    ensures
        strip_end(text.push(c), c) == text,
        text.len() == 0 || text.last() != c ==> strip_end(text, c) == text,
{
    assert(text.push(c).drop_last() =~= text);
}

/// The number that decimal digits stand for.
pub open spec fn number(digits: Seq<char>) -> int
    decreases digits.len(),
{
    if digits.len() == 0 {
        0
    } else {
        10 * number(digits.drop_last()) + (digits.last() as int - '0' as int)
    }
}

/// A number is written in decimal digits, which stand for it, without a zero at the start
/// unless it is zero.
pub proof fn law_decimal_is_read_back(n: nat)
    ensures
        number(decimal(n)) == n,
        decimal(n).len() > 0,
        forall|i: int| 0 <= i < decimal(n).len() ==> '0' <= #[trigger] decimal(n)[i] <= '9',
        n > 0 ==> decimal(n)[0] != '0',
        n == 0 ==> decimal(n).len() == 1,
    decreases n,
{
    reveal_with_fuel(number, 2);
    if n >= 10 {
        law_decimal_is_read_back(n / 10);
        let front = decimal(n / 10);
        assert(decimal(n).drop_last() =~= front);
        assert(decimal(n)[0] == front[0]);
    } else {
        assert(decimal(n) =~= seq![digit(n)]);
        assert(decimal(n).drop_last() =~= Seq::<char>::empty());
    }
}

/// Joined parts hold no character that neither the parts nor the separator are.
pub proof fn lemma_joined_chars(parts: Seq<Seq<char>>, separator: char, c: char)
    requires
        c != separator,
        forall|i: int| 0 <= i < parts.len() ==> !(#[trigger] parts[i]).contains(c),
    ensures
        !joined(parts, separator).contains(c),
    decreases parts.len(),
{
    if parts.len() > 1 {
        let front = parts.drop_last();
        assert forall|i: int| 0 <= i < front.len() implies !(#[trigger] front[i]).contains(c) by {
            assert(front[i] == parts[i]);
        }
        lemma_joined_chars(front, separator, c);
        let start = joined(front, separator);
        let last = parts.last();
        assert(!parts[parts.len() - 1].contains(c));
        let all = start.push(separator) + last;
        assert forall|i: int| 0 <= i < all.len() implies all[i] != c by {
            if i < start.len() {
                assert(start.contains(start[i]));
                assert(all[i] == start[i]);
            } else if i > start.len() {
                assert(all[i] == last[i - start.len() - 1]);
                assert(last.contains(last[i - start.len() - 1]));
            }
        }
    }
}

/// Joined parts start as the first part does.
pub proof fn lemma_joined_start(parts: Seq<Seq<char>>, separator: char)
    requires
        parts.len() > 0,
        parts[0].len() > 0,
    ensures
        joined(parts, separator).len() > 0,
        joined(parts, separator)[0] == parts[0][0],
    decreases parts.len(),
{
    if parts.len() > 1 {
        assert(parts.drop_last()[0] == parts[0]);
        lemma_joined_start(parts.drop_last(), separator);
    }
}

/// What stands behind the last part stands behind the joined parts.
pub proof fn lemma_joined_end(parts: Seq<Seq<char>>, separator: char, end: Seq<char>)
    requires
        parts.len() > 0,
    ensures
        joined(parts.drop_last().push(parts.last() + end), separator) == joined(parts, separator)
            + end,
{
    let longer = parts.drop_last().push(parts.last() + end);
    assert(longer.drop_last() =~= parts.drop_last());
    assert(longer.last() == parts.last() + end);
    assert(joined(longer, separator) =~= joined(parts, separator) + end);
}

} // verus!
