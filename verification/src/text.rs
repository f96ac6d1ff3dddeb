//! Text operations on Unicode scalar values.
//!
//! Every function works on the sequence of characters that is the view of a
//! string, and its contract is stated over that sequence.

use vstd::prelude::*;

verus! {

/// `String::push` of the standard library appends one character.
pub assume_specification[ std::string::String::push ](text: &mut String, ch: char)
    ensures
        final(text)@ == old(text)@.push(ch),
;

/// The character sequences of a sequence of strings.
pub open spec fn texts(values: Seq<String>) -> Seq<Seq<char>> {
    values.map_values(|value: String| value@)
}

/// Appending a string appends its characters.
pub broadcast proof fn lemma_texts_push(values: Seq<String>, value: String)
    ensures
        #[trigger] texts(values.push(value)) == texts(values).push(value@),
{
    assert(texts(values.push(value)) =~= texts(values).push(value@));
}

/// The character sequence of an optional string.
pub open spec fn optional_text(value: Option<String>) -> Option<Seq<char>> {
    match value {
        Some(text) => Some(text@),
        None => None,
    }
}

/// A text or an error, as texts.
pub open spec fn text_result(result: Result<String, String>) -> Result<Seq<char>, Seq<char>> {
    match result {
        Ok(text) => Ok(text@),
        Err(error) => Err(error@),
    }
}

/// The characters of `text`, one by one.
pub fn chars_of(text: &str) -> (chars: Vec<char>)
    ensures
        chars@ == text@,
{
    let mut chars: Vec<char> = Vec::new();
    for ch in it: text.chars()
        invariant
            it.seq() == text@,
            chars@ == text@.take(it.index() as int),
    {
        chars.push(ch);
        assert(text@.take(it.index() as int + 1) =~= text@.take(it.index() as int).push(ch));
    }
    assert(text@.take(text@.len() as int) =~= text@);
    chars
}

/// The string made of the characters from `from` up to `to`.
pub fn text_between(chars: &Vec<char>, from: usize, to: usize) -> (text: String)
    requires
        from <= to <= chars@.len(),
    ensures
        text@ == chars@.subrange(from as int, to as int),
{
    let mut text = String::new();
    let mut i: usize = from;
    while i < to
        invariant
            from <= i <= to <= chars@.len(),
            text@ == chars@.subrange(from as int, i as int),
        decreases to - i,
    {
        text.push(chars[i]);
        i = i + 1;
        assert(chars@.subrange(from as int, i as int) =~= chars@.subrange(
            from as int,
            i as int - 1,
        ).push(chars@[i as int - 1]));
    }
    text
}

/// Whether two strings hold the same characters.
pub fn same_text(left: &str, right: &str) -> (same: bool)
    ensures
        same == (left@ == right@),
{
    left.to_owned() == right.to_owned()
}

/// Whether `values` holds `wanted`.
pub fn contains_text(values: &Vec<String>, wanted: &str) -> (found: bool)
    ensures
        found == texts(values@).contains(wanted@),
{
    let mut i: usize = 0;
    while i < values.len()
        invariant
            i <= values@.len(),
            forall|j: int| 0 <= j < i ==> #[trigger] texts(values@)[j] != wanted@,
        decreases values@.len() - i,
    {
        if same_text(&values[i], wanted) {
            assert(texts(values@)[i as int] == wanted@);
            return true;
        }
        i = i + 1;
    }
    false
}

/// Whether two lists of strings are equal, element by element.
pub fn same_texts(left: &Vec<String>, right: &Vec<String>) -> (same: bool)
    ensures
        same == (texts(left@) == texts(right@)),
{
    if left.len() != right.len() {
        assert(texts(left@).len() != texts(right@).len());
        return false;
    }
    let mut i: usize = 0;
    while i < left.len()
        invariant
            i <= left@.len(),
            left@.len() == right@.len(),
            forall|j: int| 0 <= j < i ==> #[trigger] texts(left@)[j] == texts(right@)[j],
        decreases left@.len() - i,
    {
        if left[i] != right[i] {
            assert(texts(left@)[i as int] != texts(right@)[i as int]);
            return false;
        }
        i = i + 1;
    }
    assert(texts(left@) =~= texts(right@));
    true
}

/// A copy of a list of strings.
pub fn copy_texts(values: &Vec<String>) -> (copies: Vec<String>)
    ensures
        texts(copies@) == texts(values@),
{
    let mut copies: Vec<String> = Vec::new();
    let mut i: usize = 0;
    while i < values.len()
        invariant
            i <= values@.len(),
            texts(copies@) =~= texts(values@).take(i as int),
        decreases values@.len() - i,
    {
        copies.push(values[i].clone());
        i = i + 1;
        proof {
            broadcast use lemma_texts_push;
        }
        assert(texts(values@).take(i as int) =~= texts(values@).take(i as int - 1).push(
            values@[i as int - 1]@,
        ));
    }
    assert(texts(values@).take(i as int) =~= texts(values@));
    copies
}

/// Appends a copy of each string of `more` to `values`.
pub fn extend_texts(values: &mut Vec<String>, more: &Vec<String>)
    ensures
        texts(final(values)@) == texts(old(values)@) + texts(more@),
{
    let mut i: usize = 0;
    while i < more.len()
        invariant
            i <= more@.len(),
            texts(values@) =~= texts(old(values)@) + texts(more@).take(i as int),
        decreases more@.len() - i,
    {
        values.push(more[i].clone());
        i = i + 1;
        proof {
            broadcast use lemma_texts_push;
        }
        assert(texts(more@).take(i as int) =~= texts(more@).take(i as int - 1).push(
            more@[i as int - 1]@,
        ));
    }
    assert(texts(more@).take(i as int) =~= texts(more@));
}

/// The characters that Unicode gives the property `White_Space`.
pub open spec fn is_white_space(ch: char) -> bool {
    let code = ch as int;
    ||| 0x09 <= code <= 0x0d
    ||| code == 0x20
    ||| code == 0x85
    ||| code == 0xa0
    ||| code == 0x1680
    ||| 0x2000 <= code <= 0x200a
    ||| code == 0x2028
    ||| code == 0x2029
    ||| code == 0x202f
    ||| code == 0x205f
    ||| code == 0x3000
}

/// Whether `ch` is a white space character.
pub fn white_space(ch: char) -> (white: bool)
    ensures
        white == is_white_space(ch),
{
    let code: u32 = ch as u32;
    (0x09 <= code && code <= 0x0d) || code == 0x20 || code == 0x85 || code == 0xa0 || code == 0x1680
        || (0x2000 <= code && code <= 0x200a) || code == 0x2028 || code == 0x2029 || code == 0x202f
        || code == 0x205f || code == 0x3000
}

/// Whether some character of `text` is white space.
pub open spec fn has_white_space(text: Seq<char>) -> bool {
    exists|i: int| 0 <= i < text.len() && is_white_space(#[trigger] text[i])
}

/// `text` without the white space at its start.
pub open spec fn trim_start(text: Seq<char>) -> Seq<char>
    decreases text.len(),
{
    if text.len() > 0 && is_white_space(text[0]) {
        trim_start(text.drop_first())
    } else {
        text
    }
}

/// `text` without the white space at its end.
pub open spec fn trim_end(text: Seq<char>) -> Seq<char>
    decreases text.len(),
{
    if text.len() > 0 && is_white_space(text.last()) {
        trim_end(text.drop_last())
    } else {
        text
    }
}

/// `text` without the white space at either end.
pub open spec fn trimmed(text: Seq<char>) -> Seq<char> {
    trim_end(trim_start(text))
}

/// `text` without the white space at either end.
pub fn trim_text(text: &str) -> (inner: String)
    ensures
        inner@ == trimmed(text@),
{
    let chars = chars_of(text);
    let mut from: usize = 0;
    assert(chars@.subrange(0, chars@.len() as int) =~= chars@);
    while from < chars.len() && white_space(chars[from])
        invariant
            from <= chars@.len(),
            trim_start(chars@.subrange(from as int, chars@.len() as int)) == trim_start(chars@),
        decreases chars@.len() - from,
    {
        assert(chars@.subrange(from as int, chars@.len() as int).drop_first() =~= chars@.subrange(
            from as int + 1,
            chars@.len() as int,
        ));
        from = from + 1;
    }
    let ghost inner = chars@.subrange(from as int, chars@.len() as int);
    let mut to: usize = chars.len();
    while from < to && white_space(chars[to - 1])
        invariant
            from <= to <= chars@.len(),
            trim_end(chars@.subrange(from as int, to as int)) == trim_end(inner),
        decreases to,
    {
        assert(chars@.subrange(from as int, to as int).drop_last() =~= chars@.subrange(
            from as int,
            to as int - 1,
        ));
        to = to - 1;
    }
    text_between(&chars, from, to)
}

/// Whether some character of `text` is white space.
pub fn contains_white_space(text: &str) -> (found: bool)
    ensures
        found == has_white_space(text@),
{
    let chars = chars_of(text);
    let mut i: usize = 0;
    while i < chars.len()
        invariant
            i <= chars@.len(),
            chars@ == text@,
            forall|j: int| 0 <= j < i ==> !is_white_space(#[trigger] text@[j]),
        decreases chars@.len() - i,
    {
        if white_space(chars[i]) {
            return true;
        }
        i = i + 1;
    }
    false
}

/// The lower-case form of an ASCII letter; every other character as it is.
pub open spec fn ascii_lower_char(ch: char) -> char {
    if 'A' <= ch <= 'Z' {
        (ch as int + 32) as char
    } else {
        ch
    }
}

/// `text` with its ASCII letters in lower case.
pub open spec fn ascii_lower(text: Seq<char>) -> Seq<char> {
    text.map_values(|ch: char| ascii_lower_char(ch))
}

/// The lower-case form of an ASCII letter; every other character as it is.
pub fn to_ascii_lower_char(ch: char) -> (lower: char)
    ensures
        lower == ascii_lower_char(ch),
{
    if 'A' <= ch && ch <= 'Z' {
        ((ch as u8) + 32) as char
    } else {
        ch
    }
}

/// `text` with its ASCII letters in lower case.
pub fn to_ascii_lower(text: &str) -> (lower: String)
    ensures
        lower@ == ascii_lower(text@),
{
    let mut lower = String::new();
    for ch in it: text.chars()
        invariant
            it.seq() == text@,
            lower@ =~= ascii_lower(text@.take(it.index() as int)),
    {
        lower.push(to_ascii_lower_char(ch));
        assert(text@.take(it.index() as int + 1) =~= text@.take(it.index() as int).push(ch));
    }
    assert(text@.take(text@.len() as int) =~= text@);
    lower
}

/// Whether two strings are equal but for the case of ASCII letters.
pub fn same_text_ignoring_ascii_case(left: &str, right: &str) -> (same: bool)
    ensures
        same == (ascii_lower(left@) == ascii_lower(right@)),
{
    to_ascii_lower(left) == to_ascii_lower(right)
}

/// Whether `needle` stands in `text` from index `at` on.
pub open spec fn stands_at(text: Seq<char>, needle: Seq<char>, at: int) -> bool {
    0 <= at && at + needle.len() <= text.len() && text.subrange(at, at + needle.len()) == needle
}

/// Whether `needle` occurs in `text`.
pub open spec fn occurs_in(text: Seq<char>, needle: Seq<char>) -> bool {
    exists|at: int| #[trigger] stands_at(text, needle, at)
}

/// Whether `needle` stands in `text` from index `at` on.
fn chars_stand_at(text: &Vec<char>, needle: &Vec<char>, at: usize) -> (stands: bool)
    requires
        at + needle@.len() <= text@.len(),
    ensures
        stands == stands_at(text@, needle@, at as int),
{
    let ghost window = text@.subrange(at as int, at + needle@.len());
    let text_len: usize = text.len();
    let mut i: usize = 0;
    while i < needle.len()
        invariant
            i <= needle@.len(),
            text_len == text@.len(),
            at + needle@.len() <= text@.len(),
            window == text@.subrange(at as int, at + needle@.len()),
            forall|j: int| 0 <= j < i ==> #[trigger] window[j] == needle@[j],
        decreases needle@.len() - i,
    {
        if text[at + i] != needle[i] {
            assert(window[i as int] != needle@[i as int]);
            return false;
        }
        i = i + 1;
    }
    assert(window =~= needle@);
    true
}

/// Whether `needle` occurs in `text`.
pub fn text_contains(text: &str, needle: &str) -> (found: bool)
    ensures
        found == occurs_in(text@, needle@),
{
    let text_chars = chars_of(text);
    let needle_chars = chars_of(needle);
    let mut at: usize = 0;
    while at < text_chars.len() && needle_chars.len() <= text_chars.len() - at
        invariant
            text_chars@ == text@,
            needle_chars@ == needle@,
            at <= text@.len(),
            forall|j: int| 0 <= j < at ==> !#[trigger] stands_at(text@, needle@, j),
        decreases text@.len() - at,
    {
        if chars_stand_at(&text_chars, &needle_chars, at) {
            return true;
        }
        at = at + 1;
    }
    if needle_chars.len() == 0 {
        assert(text@.subrange(text@.len() as int, text@.len() as int) =~= needle@);
        assert(stands_at(text@, needle@, text@.len() as int));
        return true;
    }
    assert forall|j: int| !#[trigger] stands_at(text@, needle@, j) by {}
    false
}

/// Whether `text` starts with `prefix`.
pub open spec fn starts_with(text: Seq<char>, prefix: Seq<char>) -> bool {
    stands_at(text, prefix, 0)
}

/// Whether `text` ends with `suffix`.
pub open spec fn ends_with(text: Seq<char>, suffix: Seq<char>) -> bool {
    stands_at(text, suffix, text.len() - suffix.len())
}

/// Whether `text` starts with `prefix`.
pub fn text_starts_with(text: &str, prefix: &str) -> (starts: bool)
    ensures
        starts == starts_with(text@, prefix@),
{
    let text_chars = chars_of(text);
    let prefix_chars = chars_of(prefix);
    prefix_chars.len() <= text_chars.len() && chars_stand_at(&text_chars, &prefix_chars, 0)
}

/// Whether `text` ends with `suffix`.
pub fn text_ends_with(text: &str, suffix: &str) -> (ends: bool)
    ensures
        ends == ends_with(text@, suffix@),
{
    let text_chars = chars_of(text);
    let suffix_chars = chars_of(suffix);
    suffix_chars.len() <= text_chars.len() && chars_stand_at(
        &text_chars,
        &suffix_chars,
        text_chars.len() - suffix_chars.len(),
    )
}

/// What follows `prefix` in `text`, where `text` starts with it.
pub open spec fn after_prefix(text: Seq<char>, prefix: Seq<char>) -> Option<Seq<char>> {
    if starts_with(text, prefix) {
        Some(text.subrange(prefix.len() as int, text.len() as int))
    } else {
        None
    }
}

/// What follows `prefix` in `text`, where `text` starts with it.
pub fn text_after_prefix(text: &str, prefix: &str) -> (rest: Option<String>)
    ensures
        optional_text(rest) == after_prefix(text@, prefix@),
{
    let text_chars = chars_of(text);
    let prefix_chars = chars_of(prefix);
    if prefix_chars.len() <= text_chars.len() && chars_stand_at(&text_chars, &prefix_chars, 0) {
        Some(text_between(&text_chars, prefix_chars.len(), text_chars.len()))
    } else {
        None
    }
}

/// The first `limit` characters of `text`, or all of a shorter one.
pub open spec fn first_chars(text: Seq<char>, limit: int) -> Seq<char> {
    if limit < text.len() {
        text.take(limit)
    } else {
        text
    }
}

/// The first `limit` characters of `text`, or all of a shorter one.
pub fn take_chars(text: &str, limit: usize) -> (head: String)
    ensures
        head@ == first_chars(text@, limit as int),
{
    let chars = chars_of(text);
    if limit < chars.len() {
        text_between(&chars, 0, limit)
    } else {
        text.to_owned()
    }
}

/// `text` without the occurrences of `ch` at its end.
pub open spec fn without_trailing(text: Seq<char>, ch: char) -> Seq<char>
    decreases text.len(),
{
    if text.len() > 0 && text.last() == ch {
        without_trailing(text.drop_last(), ch)
    } else {
        text
    }
}

/// `text` without the occurrences of `ch` at its end.
pub fn trim_trailing_char(text: &str, ch: char) -> (inner: String)
    ensures
        inner@ == without_trailing(text@, ch),
{
    let chars = chars_of(text);
    let mut to: usize = chars.len();
    assert(chars@.subrange(0, to as int) =~= chars@);
    while 0 < to && chars[to - 1] == ch
        invariant
            to <= chars@.len(),
            without_trailing(chars@.subrange(0, to as int), ch) == without_trailing(chars@, ch),
        decreases to,
    {
        assert(chars@.subrange(0, to as int).drop_last() =~= chars@.subrange(0, to as int - 1));
        to = to - 1;
    }
    text_between(&chars, 0, to)
}

/// `text` with each occurrence of `from` replaced by `to`.
pub open spec fn with_char_replaced(text: Seq<char>, from: char, to: char) -> Seq<char> {
    text.map_values(
        |ch: char|
            if ch == from {
                to
            } else {
                ch
            },
    )
}

/// `text` with each occurrence of `from` replaced by `to`.
pub fn replace_char(text: &str, from: char, to: char) -> (replaced: String)
    ensures
        replaced@ == with_char_replaced(text@, from, to),
{
    let mut replaced = String::new();
    for ch in it: text.chars()
        invariant
            it.seq() == text@,
            replaced@ =~= with_char_replaced(text@.take(it.index() as int), from, to),
    {
        replaced.push(
            if ch == from {
                to
            } else {
                ch
            },
        );
        assert(text@.take(it.index() as int + 1) =~= text@.take(it.index() as int).push(ch));
    }
    assert(text@.take(text@.len() as int) =~= text@);
    replaced
}

/// A text occurs in whatever is written around it.
pub proof fn law_text_occurs_between_any_others(
    before: Seq<char>,
    needle: Seq<char>,
    after: Seq<char>,
)
    ensures
        occurs_in(before + needle + after, needle),
{
    let text = before + needle + after;
    assert(text.subrange(before.len() as int, (before.len() + needle.len()) as int) =~= needle);
    assert(stands_at(text, needle, before.len() as int));
}

/// A text in which another one occurs is that one between two others.
pub proof fn law_occurring_text_stands_between_two_others(text: Seq<char>, needle: Seq<char>)
    requires
        occurs_in(text, needle),
    ensures
        exists|before: Seq<char>, after: Seq<char>| text == #[trigger] (before + needle + after),
{
    let at = choose|at: int| #[trigger] stands_at(text, needle, at);
    let before = text.take(at);
    let after = text.skip(at + needle.len());
    assert(text.subrange(at, at + needle.len()) == needle);
    assert(text =~= before + needle + after);
}

/// A text starts with what it is continued from, ends with what continues it,
/// and what follows the start is the rest.
pub proof fn law_text_starts_and_ends_with_its_parts(first: Seq<char>, second: Seq<char>)
    ensures
        starts_with(first + second, first),
        ends_with(first + second, second),
        after_prefix(first + second, first) == Some(second),
{
    let text = first + second;
    assert(text.subrange(0, first.len() as int) =~= first);
    assert(text.subrange(first.len() as int, text.len() as int) =~= second);
}

/// What a text starts with and what follows it make the text, and so do what it
/// ends with and what precedes it.
pub proof fn law_parts_make_the_text(text: Seq<char>, part: Seq<char>)
    ensures
        starts_with(text, part) ==> exists|rest: Seq<char>| text == #[trigger] (part + rest),
        ends_with(text, part) ==> exists|rest: Seq<char>| text == #[trigger] (rest + part),
        after_prefix(text, part) matches Some(rest) ==> text == part + rest,
        after_prefix(text, part) is None ==> forall|rest: Seq<char>|
            text != #[trigger] (part + rest),
{
    if starts_with(text, part) {
        let rest = text.skip(part.len() as int);
        assert(text.subrange(0, part.len() as int) == part);
        assert(text =~= part + rest);
    } else {
        assert forall|rest: Seq<char>| text != #[trigger] (part + rest) by {
            law_text_starts_and_ends_with_its_parts(part, rest);
        }
    }
    if ends_with(text, part) {
        let at = text.len() - part.len();
        let rest = text.take(at);
        assert(text.subrange(at, at + part.len()) == part);
        assert(text =~= rest + part);
    }
}

/// Which ASCII characters are white space: the blank, and those from the tab to
/// the carriage return; no letter, digit or punctuation is.
pub proof fn law_ascii_white_space(ch: char)
    requires
        ch as int <= 0x7f,
    ensures
        is_white_space(ch) <==> (ch == ' ' || ch == '\t' || ch == '\n' || ch == '\r' || ch as int
            == 0x0b || ch as int == 0x0c),
{
}

/// The white space characters outside ASCII.
pub proof fn law_other_white_space(ch: char)
    requires
        ch as int > 0x7f,
    ensures
        is_white_space(ch) <==> (ch == '\u{85}' || ch == '\u{a0}' || ch == '\u{1680}' || ('\u{2000}'
            <= ch <= '\u{200a}') || ch == '\u{2028}' || ch == '\u{2029}' || ch == '\u{202f}' || ch
            == '\u{205f}' || ch == '\u{3000}'),
{
}

/// How much white space there is at the start of a text.
proof fn lemma_trim_start(text: Seq<char>) -> (count: int)
    ensures
        0 <= count <= text.len(),
        trim_start(text) == text.skip(count),
        forall|i: int| 0 <= i < count ==> is_white_space(#[trigger] text[i]),
        trim_start(text).len() > 0 ==> !is_white_space(trim_start(text)[0]),
    decreases text.len(),
{
    if text.len() > 0 && is_white_space(text[0]) {
        let rest = text.drop_first();
        let count = lemma_trim_start(rest);
        assert(rest.skip(count) =~= text.skip(count + 1));
        assert forall|i: int| 0 <= i < count + 1 implies is_white_space(#[trigger] text[i]) by {
            if i > 0 {
                assert(rest[i - 1] == text[i]);
            }
        }
        count + 1
    } else {
        assert(text.skip(0) =~= text);
        0
    }
}

/// How much of a text is left without white space at its end.
proof fn lemma_trim_end(text: Seq<char>) -> (count: int)
    ensures
        0 <= count <= text.len(),
        trim_end(text) == text.take(count),
        forall|i: int| count <= i < text.len() ==> is_white_space(#[trigger] text[i]),
        trim_end(text).len() > 0 ==> !is_white_space(trim_end(text).last()),
    decreases text.len(),
{
    if text.len() > 0 && is_white_space(text.last()) {
        let rest = text.drop_last();
        let count = lemma_trim_end(rest);
        assert(rest.take(count) =~= text.take(count));
        assert forall|i: int| count <= i < text.len() implies is_white_space(#[trigger] text[i]) by {
            if i < rest.len() {
                assert(rest[i] == text[i]);
            }
        }
        count
    } else {
        assert(text.take(text.len() as int) =~= text);
        text.len() as int
    }
}

/// Trimming a text takes white space from its ends and nothing else, and leaves
/// none there.
pub proof fn law_trimming_takes_the_white_space_at_the_ends(text: Seq<char>)
    ensures
        exists|lead: Seq<char>, tail: Seq<char>|
            text == #[trigger] (lead + trimmed(text) + tail) && (forall|i: int|
                0 <= i < lead.len() ==> is_white_space(#[trigger] lead[i])) && (forall|i: int|
                0 <= i < tail.len() ==> is_white_space(#[trigger] tail[i])),
        trimmed(text).len() > 0 ==> !is_white_space(trimmed(text)[0]) && !is_white_space(
            trimmed(text).last(),
        ),
{
    let inner = trim_start(text);
    let start = lemma_trim_start(text);
    let count = lemma_trim_end(inner);
    let lead = text.take(start);
    let tail = inner.skip(count);
    assert(text =~= lead + trimmed(text) + tail);
    assert forall|i: int| 0 <= i < lead.len() implies is_white_space(#[trigger] lead[i]) by {
        assert(lead[i] == text[i]);
    }
    assert forall|i: int| 0 <= i < tail.len() implies is_white_space(#[trigger] tail[i]) by {
        assert(tail[i] == inner[count + i]);
    }
    if trimmed(text).len() > 0 {
        assert(trimmed(text)[0] == inner[0]);
    }
}

/// A text without white space at its ends is left as it is by trimming.
pub proof fn law_trimmed_texts_are_kept(text: Seq<char>)
    requires
        text.len() > 0 ==> !is_white_space(text[0]) && !is_white_space(text.last()),
    ensures
        trimmed(text) == text,
{
}

/// Lower case changes the ASCII capitals, each to its small letter, and nothing
/// else.
pub proof fn law_lower_case_changes_capitals_alone(text: Seq<char>, i: int)
    requires
        0 <= i < text.len(),
    ensures
        ascii_lower(text).len() == text.len(),
        !('A' <= text[i] <= 'Z') ==> ascii_lower(text)[i] == text[i],
        'A' <= text[i] <= 'Z' ==> ascii_lower(text)[i] as int == text[i] as int - 'A' as int
            + 'a' as int,
        !('A' <= ascii_lower(text)[i] <= 'Z'),
        ascii_lower(ascii_lower(text)) == ascii_lower(text),
{
    assert forall|k: int| 0 <= k < text.len() implies !('A' <= #[trigger] ascii_lower(text)[k]
        <= 'Z') by {
        if 'A' <= text[k] <= 'Z' {
            assert(ascii_lower(text)[k] as int == text[k] as int + 32);
        }
    }
    assert(ascii_lower(ascii_lower(text)) =~= ascii_lower(text));
}

/// Lower case goes through texts part by part.
pub proof fn law_lower_case_of_parts(first: Seq<char>, second: Seq<char>)
    ensures
        ascii_lower(first + second) == ascii_lower(first) + ascii_lower(second),
{
    assert(ascii_lower(first + second) =~= ascii_lower(first) + ascii_lower(second));
}

/// The first characters of a text are its start, as many as the limit allows.
pub proof fn law_first_chars_are_the_start(text: Seq<char>, limit: int)
    requires
        0 <= limit,
    ensures
        first_chars(text, limit).is_prefix_of(text),
        first_chars(text, limit).len() <= limit,
        first_chars(text, limit).len() < limit ==> first_chars(text, limit) == text,
{
    assert(first_chars(text, limit) =~= text.take(first_chars(text, limit).len() as int));
}

/// What is taken from the end of a text is that character alone, and all of it.
pub proof fn law_trailing_char_is_taken(text: Seq<char>, ch: char)
    ensures
        without_trailing(text, ch).is_prefix_of(text),
        forall|i: int|
            without_trailing(text, ch).len() <= i < text.len() ==> #[trigger] text[i] == ch,
        without_trailing(text, ch).len() > 0 ==> without_trailing(text, ch).last() != ch,
    decreases text.len(),
{
    let inner = without_trailing(text, ch);
    if text.len() > 0 && text.last() == ch {
        let shorter = text.drop_last();
        law_trailing_char_is_taken(shorter, ch);
        assert(inner =~= text.take(inner.len() as int)) by {
            assert(inner =~= shorter.take(inner.len() as int));
        }
        assert forall|i: int| inner.len() <= i < text.len() implies #[trigger] text[i] == ch by {
            if i < shorter.len() {
                assert(shorter[i] == ch);
            }
        }
    } else {
        assert(inner =~= text.take(inner.len() as int));
    }
}

/// Replacing a character changes just its occurrences.
pub proof fn law_replacement_changes_the_occurrences(text: Seq<char>, from: char, to: char, i: int)
    requires
        0 <= i < text.len(),
    ensures
        with_char_replaced(text, from, to).len() == text.len(),
        text[i] == from ==> with_char_replaced(text, from, to)[i] == to,
        text[i] != from ==> with_char_replaced(text, from, to)[i] == text[i],
{
}

/// What occurs in a part of a text occurs in the text.
pub proof fn law_parts_of_parts_occur(text: Seq<char>, part: Seq<char>, needle: Seq<char>)
    requires
        occurs_in(text, part),
        occurs_in(part, needle),
    ensures
        occurs_in(text, needle),
{
    let outer = choose|at: int| #[trigger] stands_at(text, part, at);
    let inner = choose|at: int| #[trigger] stands_at(part, needle, at);
    assert(text.subrange(outer, outer + part.len()) == part);
    assert(part.subrange(inner, inner + needle.len()) == needle);
    let at = outer + inner;
    assert(text.subrange(at, at + needle.len()) =~= needle) by {
        assert(text.subrange(at, at + needle.len()) =~= text.subrange(
            outer,
            outer + part.len(),
        ).subrange(inner, inner + needle.len()));
    }
    assert(stands_at(text, needle, at));
}

/// A text stands between any others that are put around it, also at either end.
pub proof fn law_each_part_occurs_in_the_whole(first: Seq<char>, second: Seq<char>)
    ensures
        occurs_in(first + second, first),
        occurs_in(first + second, second),
        occurs_in(first, first),
{
    assert((first + second).subrange(0, first.len() as int) =~= first);
    assert(stands_at(first + second, first, 0));
    assert((first + second).subrange(first.len() as int, (first + second).len() as int)
        =~= second);
    assert(stands_at(first + second, second, first.len() as int));
    assert(first.subrange(0, first.len() as int) =~= first);
    assert(stands_at(first, first, 0));
}

} // verus!
