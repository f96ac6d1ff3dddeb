//! Splitting, joining and normalising text, and lists without repetitions.

use vstd::prelude::*;

use crate::text::{
    contains_text, has_white_space, is_white_space, law_each_part_occurs_in_the_whole,
    law_parts_of_parts_occur, lemma_texts_push, occurs_in, texts, trim_end, trim_start, trim_text,
    trimmed, white_space,
};

verus! {

/// What a text is split at.
#[derive(Clone, Copy, PartialEq, Eq, Structural)]
pub enum Separator {
    /// Each white space character.
    WhiteSpace,
    /// Each character that cannot stand in a technical token.
    NonTechnical,
}

/// The punctuation that can stand inside a technical token.
pub open spec fn is_token_punctuation(ch: char) -> bool {
    ch == '.' || ch == ':' || ch == '_' || ch == '-' || ch == '/' || ch == '#'
}

/// The ASCII letters and digits and the token punctuation.
pub open spec fn is_technical_char(ch: char) -> bool {
    ('0' <= ch <= '9') || ('A' <= ch <= 'Z') || ('a' <= ch <= 'z') || is_token_punctuation(ch)
}

/// Whether `ch` separates two parts.
pub open spec fn separates(separator: Separator, ch: char) -> bool {
    match separator {
        Separator::WhiteSpace => is_white_space(ch),
        Separator::NonTechnical => !is_technical_char(ch),
    }
}

/// Whether `ch` is punctuation that can stand inside a technical token.
pub fn token_punctuation(ch: char) -> (found: bool)
    ensures
        found == is_token_punctuation(ch),
{
    ch == '.' || ch == ':' || ch == '_' || ch == '-' || ch == '/' || ch == '#'
}

/// Whether `ch` separates two parts.
fn is_separator(separator: Separator, ch: char) -> (found: bool)
    ensures
        found == separates(separator, ch),
{
    match separator {
        Separator::WhiteSpace => white_space(ch),
        Separator::NonTechnical => !(('0' <= ch && ch <= '9') || ('A' <= ch && ch <= 'Z') || ('a'
            <= ch && ch <= 'z') || token_punctuation(ch)),
    }
}

/// The parts of `text` between its separators, empty parts among them: one
/// part more than there are separators.
pub open spec fn split_text(text: Seq<char>, separator: Separator) -> Seq<Seq<char>>
    decreases text.len(),
{
    if text.len() == 0 {
        seq![Seq::<char>::empty()]
    } else {
        let parts = split_text(text.drop_last(), separator);
        if separates(separator, text.last()) {
            parts.push(Seq::<char>::empty())
        } else {
            parts.drop_last().push(parts.last().push(text.last()))
        }
    }
}

/// The parts of `text` between its separators.
pub fn split_at_separators(text: &str, separator: Separator) -> (parts: Vec<String>)
    ensures
        texts(parts@) == split_text(text@, separator),
{
    broadcast use lemma_texts_push;

    let mut parts: Vec<String> = Vec::new();
    let mut current = String::new();
    assert(texts(parts@).push(current@) =~= split_text(text@.take(0), separator));
    for ch in it: text.chars()
        invariant
            it.seq() == text@,
            texts(parts@).push(current@) == split_text(text@.take(it.index() as int), separator),
    {
        let ghost before = texts(parts@).push(current@);
        assert(text@.take(it.index() as int + 1).drop_last() =~= text@.take(it.index() as int));
        assert(before.drop_last() =~= texts(parts@));
        if is_separator(separator, ch) {
            parts.push(current);
            current = String::new();
            assert(texts(parts@) =~= before);
        } else {
            current.push(ch);
        }
    }
    assert(text@.take(text@.len() as int) =~= text@);
    parts.push(current);
    parts
}

/// The parts that hold at least one character.
pub open spec fn non_empty_parts(parts: Seq<Seq<char>>) -> Seq<Seq<char>>
    decreases parts.len(),
{
    if parts.len() == 0 {
        parts
    } else {
        let rest = non_empty_parts(parts.drop_last());
        if parts.last().len() > 0 {
            rest.push(parts.last())
        } else {
            rest
        }
    }
}

/// The parts that hold at least one character.
pub fn keep_non_empty(parts: Vec<String>) -> (kept: Vec<String>)
    ensures
        texts(kept@) == non_empty_parts(texts(parts@)),
{
    broadcast use lemma_texts_push;

    let mut kept: Vec<String> = Vec::new();
    let mut i: usize = 0;
    assert(texts(kept@) =~= non_empty_parts(texts(parts@).take(0)));
    while i < parts.len()
        invariant
            i <= parts@.len(),
            texts(kept@) == non_empty_parts(texts(parts@).take(i as int)),
        decreases parts@.len() - i,
    {
        assert(texts(parts@).take(i as int + 1).drop_last() =~= texts(parts@).take(i as int));
        if !parts[i].as_str().is_empty() {
            kept.push(parts[i].clone());
        }
        i = i + 1;
    }
    assert(texts(parts@).take(i as int) =~= texts(parts@));
    kept
}

/// The words of `text`: its longest runs without white space.
pub open spec fn words_of(text: Seq<char>) -> Seq<Seq<char>> {
    non_empty_parts(split_text(text, Separator::WhiteSpace))
}

/// `parts`, one after the other, with `separator` between them.
pub open spec fn joined(parts: Seq<Seq<char>>, separator: Seq<char>) -> Seq<char>
    decreases parts.len(),
{
    if parts.len() == 0 {
        Seq::empty()
    } else if parts.len() == 1 {
        parts[0]
    } else {
        joined(parts.drop_last(), separator) + separator + parts.last()
    }
}

/// `parts`, one after the other, with `separator` between them.
pub fn join_texts(parts: &Vec<String>, separator: &str) -> (text: String)
    ensures
        text@ == joined(texts(parts@), separator@),
{
    let mut text = String::new();
    let mut i: usize = 0;
    while i < parts.len()
        invariant
            i <= parts@.len(),
            text@ == joined(texts(parts@).take(i as int), separator@),
        decreases parts@.len() - i,
    {
        assert(texts(parts@).take(i as int + 1).drop_last() =~= texts(parts@).take(i as int));
        if i > 0 {
            text.append(separator);
        }
        text.append(&parts[i]);
        i = i + 1;
    }
    assert(texts(parts@).take(i as int) =~= texts(parts@));
    text
}

/// `text` with each run of white space as one blank, and none at its ends.
pub open spec fn normalized(text: Seq<char>) -> Seq<char> {
    trimmed(joined(words_of(text), " "@))
}

/// The words of `value`, with one blank between them.
pub fn normalize_semantic_text(value: &str) -> (text: String)
    ensures
        text@ == normalized(value@),
{
    let words = keep_non_empty(split_at_separators(value, Separator::WhiteSpace));
    trim_text(&join_texts(&words, " "))
}

/// Whether `words` are words: none is empty, and none holds white space.
pub open spec fn are_words(words: Seq<Seq<char>>) -> bool {
    forall|i: int|
        0 <= i < words.len() ==> (#[trigger] words[i]).len() > 0 && !has_white_space(words[i])
}

/// A text is split into one part at least, and no part holds white space.
proof fn lemma_parts_hold_no_white_space(text: Seq<char>)
    ensures
        split_text(text, Separator::WhiteSpace).len() > 0,
        forall|i: int|
            0 <= i < split_text(text, Separator::WhiteSpace).len() ==> !has_white_space(
                #[trigger] split_text(text, Separator::WhiteSpace)[i],
            ),
    decreases text.len(),
{
    if text.len() > 0 {
        lemma_parts_hold_no_white_space(text.drop_last());
    }
}

/// What is left of parts without white space are words.
proof fn lemma_non_empty_parts_are_words(parts: Seq<Seq<char>>)
    requires
        forall|i: int| 0 <= i < parts.len() ==> !has_white_space(#[trigger] parts[i]),
    ensures
        are_words(non_empty_parts(parts)),
    decreases parts.len(),
{
    if parts.len() > 0 {
        let rest = parts.drop_last();
        assert forall|i: int| 0 <= i < rest.len() implies !has_white_space(
            #[trigger] rest[i],
        ) by {
            assert(rest[i] == parts[i]);
        }
        lemma_non_empty_parts_are_words(rest);
    }
}

/// No part of words is left out.
proof fn lemma_words_are_kept(words: Seq<Seq<char>>)
    requires
        are_words(words),
    ensures
        non_empty_parts(words) == words,
    decreases words.len(),
{
    if words.len() > 0 {
        assert(words.drop_last().push(words.last()) =~= words);
        assert forall|i: int| 0 <= i < words.len() - 1 implies (#[trigger] words.drop_last()[i]).len()
            > 0 && !has_white_space(words.drop_last()[i]) by {
            assert(words.drop_last()[i] == words[i]);
        }
        lemma_words_are_kept(words.drop_last());
        assert(words[words.len() - 1].len() > 0);
    }
}

/// A text without white space behind another one makes the last part longer.
proof fn lemma_split_before_word(text: Seq<char>, word: Seq<char>)
    requires
        !has_white_space(word),
    ensures
        split_text(text + word, Separator::WhiteSpace) == split_text(
            text,
            Separator::WhiteSpace,
        ).drop_last().push(split_text(text, Separator::WhiteSpace).last() + word),
    decreases word.len(),
{
    lemma_parts_hold_no_white_space(text);
    let parts = split_text(text, Separator::WhiteSpace);
    if word.len() == 0 {
        assert(text + word =~= text);
        assert(parts.last() + word =~= parts.last());
        assert(parts =~= parts.drop_last().push(parts.last()));
    } else {
        let shorter = word.drop_last();
        assert forall|i: int| 0 <= i < shorter.len() implies !is_white_space(
            #[trigger] shorter[i],
        ) by {
            assert(shorter[i] == word[i]);
        }
        lemma_split_before_word(text, shorter);
        assert((text + word).drop_last() =~= text + shorter);
        assert((text + word).last() == word.last());
        assert(!is_white_space(word[word.len() - 1]));
        assert((parts.last() + shorter).push(word.last()) =~= parts.last() + word);
        assert(parts.drop_last().push(parts.last() + shorter).drop_last() =~= parts.drop_last());
    }
}

/// Words with a blank between them are split into themselves.
proof fn lemma_split_of_joined_words(words: Seq<Seq<char>>)
    requires
        are_words(words),
        words.len() > 0,
    ensures
        split_text(joined(words, " "@), Separator::WhiteSpace) == words,
    decreases words.len(),
{
    reveal_strlit(" ");
    assert(words[words.len() - 1].len() > 0);
    if words.len() == 1 {
        let none = Seq::<char>::empty();
        lemma_split_before_word(none, words[0]);
        assert(none + words[0] =~= words[0]);
        assert(words =~= split_text(none, Separator::WhiteSpace).drop_last().push(words[0]));
    } else {
        let front = words.drop_last();
        assert forall|i: int| 0 <= i < front.len() implies (#[trigger] front[i]).len() > 0
            && !has_white_space(front[i]) by {
            assert(front[i] == words[i]);
        }
        lemma_split_of_joined_words(front);
        let spaced = joined(front, " "@) + " "@;
        assert(spaced.drop_last() =~= joined(front, " "@));
        assert(spaced.last() == ' ');
        let parts = split_text(spaced, Separator::WhiteSpace);
        assert(parts == front.push(Seq::<char>::empty()));
        lemma_split_before_word(spaced, words.last());
        assert(parts.drop_last() =~= front);
        assert(parts.last() + words.last() =~= words.last());
        assert(front.push(words.last()) =~= words);
    }
}

/// Words with a blank between them start and end without white space.
proof fn lemma_joined_words_are_trimmed(words: Seq<Seq<char>>)
    requires
        are_words(words),
    ensures
        words.len() > 0 ==> joined(words, " "@).len() > 0 && joined(words, " "@)[0] == words[0][0],
        trimmed(joined(words, " "@)) == joined(words, " "@),
    decreases words.len(),
{
    reveal_strlit(" ");
    let text = joined(words, " "@);
    if words.len() > 0 {
        let last = words[words.len() - 1];
        assert(last.len() > 0 && !has_white_space(last));
        assert(words[0].len() > 0 && !has_white_space(words[0]));
        assert(!is_white_space(words[0][0]));
        assert(!is_white_space(last[last.len() - 1]));
        if words.len() > 1 {
            let front = words.drop_last();
            assert forall|i: int| 0 <= i < front.len() implies (#[trigger] front[i]).len() > 0
                && !has_white_space(front[i]) by {
                assert(front[i] == words[i]);
            }
            lemma_joined_words_are_trimmed(front);
            assert(front[0] == words[0]);
        }
        assert(text.last() == last[last.len() - 1]);
        assert(trim_start(text) == text);
        assert(trim_end(text) == text);
    }
}

/// A normalised text consists of the words of the text, with one blank between
/// them, and has no white space at its ends.
pub proof fn law_normalized_text_keeps_the_words(text: Seq<char>)
    ensures
        normalized(text) == joined(words_of(text), " "@),
        words_of(normalized(text)) == words_of(text),
{
    lemma_parts_hold_no_white_space(text);
    lemma_non_empty_parts_are_words(split_text(text, Separator::WhiteSpace));
    let words = words_of(text);
    lemma_joined_words_are_trimmed(words);
    if words.len() > 0 {
        lemma_split_of_joined_words(words);
        lemma_words_are_kept(words);
    } else {
        reveal_with_fuel(non_empty_parts, 2);
        assert(words_of(Seq::<char>::empty()) =~= words);
    }
}

/// Normalising a text twice is the same as normalising it once.
pub proof fn law_normalization_is_idempotent(text: Seq<char>)
    ensures
        normalized(normalized(text)) == normalized(text),
{
    law_normalized_text_keeps_the_words(text);
    law_normalized_text_keeps_the_words(normalized(text));
}

/// `values` with `value` at its end, unless it is there already.
pub open spec fn with_new(values: Seq<Seq<char>>, value: Seq<char>) -> Seq<Seq<char>> {
    if values.contains(value) {
        values
    } else {
        values.push(value)
    }
}

/// `values` followed by those of `more` that are new, each once, in their order.
pub open spec fn with_all_new(values: Seq<Seq<char>>, more: Seq<Seq<char>>) -> Seq<Seq<char>>
    decreases more.len(),
{
    if more.len() == 0 {
        values
    } else {
        with_new(with_all_new(values, more.drop_last()), more.last())
    }
}

/// The first occurrence of each of `values`, in their order.
pub open spec fn without_repeats(values: Seq<Seq<char>>) -> Seq<Seq<char>> {
    with_all_new(Seq::empty(), values)
}

/// Adding `first` and then `second` adds the two in a row.
pub proof fn lemma_with_all_new_concat(
    values: Seq<Seq<char>>,
    first: Seq<Seq<char>>,
    second: Seq<Seq<char>>,
)
    ensures
        with_all_new(values, first + second) == with_all_new(with_all_new(values, first), second),
    decreases second.len(),
{
    if second.len() == 0 {
        assert(first + second =~= first);
    } else {
        lemma_with_all_new_concat(values, first, second.drop_last());
        assert((first + second).drop_last() =~= first + second.drop_last());
    }
}

/// Adds `value` to `values` unless it is there already.
pub fn push_new(values: &mut Vec<String>, value: String)
    ensures
        texts(final(values)@) == with_new(texts(old(values)@), value@),
{
    broadcast use lemma_texts_push;

    if !contains_text(values, &value) {
        values.push(value);
    }
}

/// Adds those of `more` to `values` that are new, each once, in their order.
pub fn push_all_new(values: &mut Vec<String>, more: &Vec<String>)
    ensures
        texts(final(values)@) == with_all_new(texts(old(values)@), texts(more@)),
{
    let mut i: usize = 0;
    while i < more.len()
        invariant
            i <= more@.len(),
            texts(values@) == with_all_new(texts(old(values)@), texts(more@).take(i as int)),
        decreases more@.len() - i,
    {
        assert(texts(more@).take(i as int + 1).drop_last() =~= texts(more@).take(i as int));
        push_new(values, more[i].clone());
        i = i + 1;
    }
    assert(texts(more@).take(i as int) =~= texts(more@));
}

/// `values` with the normalised `value` at its end, unless that is empty or
/// there already.
pub open spec fn with_new_text(values: Seq<Seq<char>>, value: Seq<char>) -> Seq<Seq<char>> {
    if normalized(value).len() == 0 {
        values
    } else {
        with_new(values, normalized(value))
    }
}

/// `values` followed by the normalised non-empty texts of `more` that are new.
pub open spec fn with_new_texts(values: Seq<Seq<char>>, more: Seq<Seq<char>>) -> Seq<Seq<char>>
    decreases more.len(),
{
    if more.len() == 0 {
        values
    } else {
        with_new_text(with_new_texts(values, more.drop_last()), more.last())
    }
}

/// Whether `values` are distinct, and each is normalised and not empty.
pub open spec fn are_unique_texts(values: Seq<Seq<char>>) -> bool {
    &&& values.no_duplicates()
    &&& forall|i: int|
        0 <= i < values.len() ==> (#[trigger] values[i]).len() > 0 && normalized(values[i])
            == values[i]
}

/// Adding texts keeps a list of unique texts one.
pub proof fn law_unique_texts_stay_unique(values: Seq<Seq<char>>, more: Seq<Seq<char>>)
    requires
        are_unique_texts(values),
    ensures
        are_unique_texts(with_new_texts(values, more)),
    decreases more.len(),
{
    if more.len() > 0 {
        law_unique_texts_stay_unique(values, more.drop_last());
        law_normalization_is_idempotent(more.last());
    }
}

/// Adding texts keeps those that are there at their places.
pub proof fn lemma_with_all_new_keeps(values: Seq<Seq<char>>, more: Seq<Seq<char>>)
    ensures
        values.len() <= with_all_new(values, more).len(),
        forall|i: int|
            0 <= i < values.len() ==> #[trigger] with_all_new(values, more)[i] == values[i],
    decreases more.len(),
{
    if more.len() > 0 {
        lemma_with_all_new_keeps(values, more.drop_last());
    }
}

/// Adding texts adds just them.
pub proof fn lemma_with_all_new_contains(values: Seq<Seq<char>>, more: Seq<Seq<char>>)
    ensures
        forall|text: Seq<char>| #[trigger] with_all_new(values, more).contains(text)
            <==> values.contains(text) || more.contains(text),
    decreases more.len(),
{
    if more.len() > 0 {
        let rest = more.drop_last();
        lemma_with_all_new_contains(values, rest);
        let before = with_all_new(values, rest);
        let after = with_all_new(values, more);
        assert forall|text: Seq<char>| #[trigger] after.contains(text) <==> values.contains(text)
            || more.contains(text) by {
            assert(before.contains(text) <==> values.contains(text) || rest.contains(text));
            if before.contains(text) {
                let k = choose|k: int| 0 <= k < before.len() && before[k] == text;
                assert(after[k] == text);
            }
            if !before.contains(more.last()) {
                assert(after[before.len() as int] == more.last());
            }
            if rest.contains(text) {
                let k = choose|k: int| 0 <= k < rest.len() && rest[k] == text;
                assert(more[k] == text);
            }
            assert(more[more.len() - 1] == more.last());
            if more.contains(text) && text != more.last() {
                let k = choose|k: int| 0 <= k < more.len() && more[k] == text;
                assert(rest[k] == text);
            }
            if after.contains(text) && !before.contains(text) {
                let k = choose|k: int| 0 <= k < after.len() && after[k] == text;
                if k < before.len() {
                    assert(before[k] == text);
                }
            }
        }
    }
}

/// Adding what is new keeps a list without repeats one.
pub proof fn lemma_with_all_new_is_distinct(values: Seq<Seq<char>>, more: Seq<Seq<char>>)
    requires
        values.no_duplicates(),
    ensures
        with_all_new(values, more).no_duplicates(),
    decreases more.len(),
{
    if more.len() > 0 {
        lemma_with_all_new_is_distinct(values, more.drop_last());
    }
}

/// No part of a technical text is anything but ASCII.
pub proof fn lemma_technical_parts_are_ascii(text: Seq<char>)
    ensures
        split_text(text, Separator::NonTechnical).len() > 0,
        forall|i: int|
            0 <= i < split_text(text, Separator::NonTechnical).len() ==> is_ascii_text(
                #[trigger] split_text(text, Separator::NonTechnical)[i],
            ),
    decreases text.len(),
{
    if text.len() > 0 {
        lemma_technical_parts_are_ascii(text.drop_last());
    }
}

/// Adds the normalised `value` to `values`, unless it is empty or there already.
pub fn push_unique_text(values: &mut Vec<String>, value: &str)
    ensures
        texts(final(values)@) == with_new_text(texts(old(values)@), value@),
{
    let normalized_value = normalize_semantic_text(value);
    if !normalized_value.as_str().is_empty() {
        push_new(values, normalized_value);
    }
}

/// Adds the first `limit` of `more` to `values`, each as [`push_unique_text`] does.
pub fn push_unique_texts(values: &mut Vec<String>, more: &Vec<String>, limit: usize)
    ensures
        texts(final(values)@) == with_new_texts(
            texts(old(values)@),
            texts(more@).take(if limit < more@.len() { limit as int } else { more@.len() as int }),
        ),
{
    let mut i: usize = 0;
    while i < more.len() && i < limit
        invariant
            i <= more@.len(),
            i <= limit,
            texts(values@) == with_new_texts(texts(old(values)@), texts(more@).take(i as int)),
        decreases more@.len() - i,
    {
        assert(texts(more@).take(i as int + 1).drop_last() =~= texts(more@).take(i as int));
        push_unique_text(values, &more[i]);
        i = i + 1;
    }
}

/// The character of a decimal digit.
pub open spec fn digit_char(digit: int) -> char {
    (48 + digit) as char
}

/// `value` in decimal notation.
pub open spec fn decimal(value: nat) -> Seq<char>
    decreases value,
{
    if value < 10 {
        seq![digit_char(value as int)]
    } else {
        decimal(value / 10).push(digit_char((value % 10) as int))
    }
}

/// `value` in decimal notation.
pub fn decimal_text(value: u64) -> (text: String)
    ensures
        text@ == decimal(value as nat),
    decreases value,
{
    if value < 10 {
        let mut text = String::new();
        text.push((48u8 + value as u8) as char);
        assert(text@ =~= decimal(value as nat));
        text
    } else {
        let mut text = decimal_text(value / 10);
        text.push((48u8 + (value % 10) as u8) as char);
        text
    }
}

/// `value` in decimal notation, with a sign where it is negative.
pub open spec fn signed_decimal(value: int) -> Seq<char> {
    if value < 0 {
        seq!['-'] + decimal((-value) as nat)
    } else {
        decimal(value as nat)
    }
}

/// `value` in decimal notation, with a sign where it is negative.
pub fn signed_decimal_text(value: i64) -> (text: String)
    ensures
        text@ == signed_decimal(value as int),
{
    if value < 0 {
        let mut text = String::new();
        text.push('-');
        text.append(&decimal_text((-(value as i128)) as u64));
        assert(text@ =~= signed_decimal(value as int));
        text
    } else {
        decimal_text(value as u64)
    }
}

/// What `str::to_lowercase` of the standard library makes of a text.
pub uninterp spec fn unicode_lower(text: Seq<char>) -> Seq<char>;

/// Whether every character of a text is an ASCII character.
pub open spec fn is_ascii_text(text: Seq<char>) -> bool {
    forall|i: int| 0 <= i < text.len() ==> (#[trigger] text[i]) as int <= 0x7f
}

/// `str::to_lowercase` of the standard library: the lower-case form of `text`
/// by Unicode's rules, a function of the text alone. The lower-case form of an
/// ASCII text is an ASCII text.
#[verifier::external_body]
pub(crate) fn to_lower(text: &str) -> (lower: String)
    ensures
        lower@ == unicode_lower(text@),
        is_ascii_text(text@) ==> is_ascii_text(lower@),
{
    text.to_lowercase()
}

/// Which characters can stand in a technical token: ASCII letters, digits and
/// six marks; no white space does.
pub proof fn law_technical_characters(ch: char)
    ensures
        !separates(Separator::NonTechnical, ch) <==> (('a' <= ch <= 'z') || ('A' <= ch <= 'Z')
            || ('0' <= ch <= '9') || ch == '.' || ch == ':' || ch == '_' || ch == '-' || ch == '/'
            || ch == '#'),
        separates(Separator::WhiteSpace, ch) <==> is_white_space(ch),
        separates(Separator::WhiteSpace, ch) ==> separates(Separator::NonTechnical, ch),
{
}

/// A text is split into one part at least.
proof fn lemma_some_part(text: Seq<char>, separator: Separator)
    ensures
        split_text(text, separator).len() > 0,
    decreases text.len(),
{
    if text.len() > 0 {
        lemma_some_part(text.drop_last(), separator);
    }
}

/// A text without separators is its only part.
pub proof fn law_text_without_separators_is_one_part(text: Seq<char>, separator: Separator)
    requires
        forall|i: int| 0 <= i < text.len() ==> !separates(separator, #[trigger] text[i]),
    ensures
        split_text(text, separator) == seq![text],
    decreases text.len(),
{
    if text.len() > 0 {
        let shorter = text.drop_last();
        assert forall|i: int| 0 <= i < shorter.len() implies !separates(
            separator,
            #[trigger] shorter[i],
        ) by {
            assert(shorter[i] == text[i]);
        }
        law_text_without_separators_is_one_part(shorter, separator);
        assert(!separates(separator, text[text.len() - 1]));
        assert(shorter.push(text.last()) =~= text);
        assert(split_text(text, separator) =~= seq![text]);
    } else {
        assert(text =~= Seq::<char>::empty());
    }
}

/// A separator ends one part and starts another: the parts of two texts with a
/// separator between them are the parts of the first, then those of the second.
pub proof fn law_separator_splits_the_text(
    first: Seq<char>,
    between: char,
    second: Seq<char>,
    separator: Separator,
)
    requires
        separates(separator, between),
    ensures
        split_text(first.push(between) + second, separator) == split_text(first, separator)
            + split_text(second, separator),
    decreases second.len(),
{
    let text = first.push(between) + second;
    let parts = split_text(first, separator);
    if second.len() == 0 {
        assert(text =~= first.push(between));
        assert(text.drop_last() =~= first);
        assert(split_text(second, separator) =~= seq![Seq::<char>::empty()]);
        assert(parts.push(Seq::<char>::empty()) =~= parts + seq![Seq::<char>::empty()]);
    } else {
        let shorter = second.drop_last();
        law_separator_splits_the_text(first, between, shorter, separator);
        lemma_some_part(shorter, separator);
        assert(text.drop_last() =~= first.push(between) + shorter);
        assert(text.last() == second.last());
        let rest = split_text(shorter, separator);
        assert(split_text(text, separator) =~= parts + split_text(second, separator));
    }
}

/// The parts of two lists that hold a character are those of the first, then
/// those of the second.
pub proof fn lemma_non_empty_parts_of_both(first: Seq<Seq<char>>, second: Seq<Seq<char>>)
    ensures
        non_empty_parts(first + second) == non_empty_parts(first) + non_empty_parts(second),
    decreases second.len(),
{
    if second.len() == 0 {
        assert(first + second =~= first);
        assert(non_empty_parts(first) + non_empty_parts(second) =~= non_empty_parts(first));
    } else {
        lemma_non_empty_parts_of_both(first, second.drop_last());
        assert((first + second).drop_last() =~= first + second.drop_last());
        assert(non_empty_parts(first + second) =~= non_empty_parts(first) + non_empty_parts(
            second,
        ));
    }
}

/// White space parts words: the words of two texts with white space between
/// them are those of the first, then those of the second; and a text without
/// white space is one word, unless it is empty.
pub proof fn law_white_space_parts_words(first: Seq<char>, between: char, second: Seq<char>)
    ensures
        is_white_space(between) ==> words_of(first.push(between) + second) == words_of(first)
            + words_of(second),
        !has_white_space(first) && first.len() > 0 ==> words_of(first) == seq![first],
        words_of(Seq::empty()) == Seq::<Seq<char>>::empty(),
{
    reveal_with_fuel(non_empty_parts, 2);
    if is_white_space(between) {
        law_separator_splits_the_text(first, between, second, Separator::WhiteSpace);
        lemma_non_empty_parts_of_both(
            split_text(first, Separator::WhiteSpace),
            split_text(second, Separator::WhiteSpace),
        );
    }
    if !has_white_space(first) {
        law_text_without_separators_is_one_part(first, Separator::WhiteSpace);
        assert(non_empty_parts(seq![first].drop_last()) =~= Seq::empty());
        assert(first.len() > 0 ==> non_empty_parts(seq![first]) =~= seq![first]);
    }
    let none = Seq::<char>::empty();
    assert(split_text(none, Separator::WhiteSpace) =~= seq![none]);
    assert(seq![none].drop_last() =~= Seq::empty());
    assert(words_of(none) =~= Seq::empty());
}

/// Joining goes part by part: no part makes nothing, one part makes itself, and
/// two lists are joined by the separator.
pub proof fn law_joining_goes_part_by_part(
    first: Seq<Seq<char>>,
    second: Seq<Seq<char>>,
    separator: Seq<char>,
)
    ensures
        joined(Seq::empty(), separator) == Seq::<char>::empty(),
        first.len() == 1 ==> joined(first, separator) == first[0],
        first.len() > 0 && second.len() > 0 ==> joined(first + second, separator) == joined(
            first,
            separator,
        ) + separator + joined(second, separator),
    decreases second.len(),
{
    if first.len() > 0 && second.len() > 0 {
        let rest = second.drop_last();
        assert((first + second).drop_last() =~= first + rest);
        if second.len() == 1 {
            assert(first + rest =~= first);
        } else {
            law_joining_goes_part_by_part(first, rest, separator);
            assert(joined(first, separator) + separator + joined(rest, separator) + separator
                + second.last() =~= joined(first, separator) + separator + (joined(rest, separator)
                + separator + second.last()));
        }
    }
}

/// Adding what is new keeps what is there in its place, adds every new text and
/// no other, and repeats none.
pub proof fn law_new_texts_are_added_once(values: Seq<Seq<char>>, more: Seq<Seq<char>>)
    ensures
        values.is_prefix_of(with_all_new(values, more)),
        forall|text: Seq<char>| #[trigger] with_all_new(values, more).contains(text)
            <==> values.contains(text) || more.contains(text),
        values.no_duplicates() ==> with_all_new(values, more).no_duplicates(),
{
    lemma_with_all_new_keeps(values, more);
    lemma_with_all_new_contains(values, more);
    if values.no_duplicates() {
        lemma_with_all_new_is_distinct(values, more);
    }
    assert(values =~= with_all_new(values, more).take(values.len() as int));
}

/// A list without its repeats holds the same texts, each once; and what follows
/// in the list comes after what was there.
pub proof fn law_first_occurrences_are_kept(values: Seq<Seq<char>>, more: Seq<Seq<char>>)
    ensures
        without_repeats(values).no_duplicates(),
        forall|text: Seq<char>| #[trigger] without_repeats(values).contains(text)
            <==> values.contains(text),
        without_repeats(values).is_prefix_of(without_repeats(values + more)),
        values.no_duplicates() ==> without_repeats(values) == values,
    decreases values.len(),
{
    law_new_texts_are_added_once(Seq::empty(), values);
    lemma_with_all_new_concat(Seq::empty(), values, more);
    law_new_texts_are_added_once(without_repeats(values), more);
    if values.no_duplicates() && values.len() > 0 {
        let rest = values.drop_last();
        law_first_occurrences_are_kept(rest, more);
        assert(rest.no_duplicates());
        assert(!rest.contains(values.last())) by {
            if rest.contains(values.last()) {
                let k = choose|k: int| 0 <= k < rest.len() && rest[k] == values.last();
                assert(values[k] == values[values.len() - 1]);
            }
        }
        assert(rest.push(values.last()) =~= values);
    }
}

/// A list of unique texts gains just the normalised texts that are not empty.
pub proof fn law_normalized_texts_are_added(
    values: Seq<Seq<char>>,
    more: Seq<Seq<char>>,
    text: Seq<char>,
)
    ensures
        with_new_texts(values, more).contains(text) <==> values.contains(text) || (text.len() > 0
            && exists|k: int| 0 <= k < more.len() && normalized(#[trigger] more[k]) == text),
        values.is_prefix_of(with_new_texts(values, more)),
    decreases more.len(),
{
    let after = with_new_texts(values, more);
    if more.len() > 0 {
        let rest = more.drop_last();
        law_normalized_texts_are_added(values, rest, text);
        let before = with_new_texts(values, rest);
        let last = normalized(more.last());
        assert(more[more.len() - 1] == more.last());
        if before.contains(text) {
            let k = choose|k: int| 0 <= k < before.len() && before[k] == text;
            assert(after[k] == text);
            if !values.contains(text) {
                let k = choose|k: int| 0 <= k < rest.len() && normalized(#[trigger] rest[k]) == text;
                assert(more[k] == rest[k]);
            }
        }
        if last.len() > 0 && !before.contains(last) {
            assert(after[before.len() as int] == last);
        }
        if after.contains(text) && !before.contains(text) {
            let k = choose|k: int| 0 <= k < after.len() && after[k] == text;
            if k < before.len() {
                assert(before[k] == text);
            }
        }
        if text.len() > 0 && (exists|k: int|
            0 <= k < more.len() && normalized(#[trigger] more[k]) == text) {
            let k = choose|k: int| 0 <= k < more.len() && normalized(#[trigger] more[k]) == text;
            if k < rest.len() {
                assert(rest[k] == more[k]);
            }
        }
        assert(values =~= after.take(values.len() as int)) by {
            assert(values =~= before.take(values.len() as int));
        }
    } else {
        assert(values =~= after.take(values.len() as int));
    }
}

/// The number that decimal digits denote.
pub open spec fn digits_value(text: Seq<char>) -> int
    decreases text.len(),
{
    if text.len() == 0 {
        0
    } else {
        digits_value(text.drop_last()) * 10 + (text.last() as int - '0' as int)
    }
}

/// Decimal notation consists of digits that denote the number, with no zero
/// before another digit; a negative number has a sign before the digits.
pub proof fn law_decimal_denotes_the_number(value: nat)
    ensures
        digits_value(decimal(value)) == value,
        decimal(value).len() > 0,
        forall|i: int| 0 <= i < decimal(value).len() ==> '0' <= #[trigger] decimal(value)[i] <= '9',
        value > 0 ==> decimal(value)[0] != '0',
        signed_decimal(value as int) == decimal(value),
        value > 0 ==> signed_decimal(-(value as int)) == seq!['-'] + decimal(value),
    decreases value,
{
    let text = decimal(value);
    if value < 10 {
        assert(text.drop_last() =~= Seq::empty());
        assert(digits_value(text.drop_last()) == 0);
    } else {
        law_decimal_denotes_the_number(value / 10);
        assert(text.drop_last() =~= decimal(value / 10));
        assert(text[0] == decimal(value / 10)[0]);
    }
}

/// Every part stands in the joined text.
pub proof fn law_every_part_stands_in_the_joined_text(
    parts: Seq<Seq<char>>,
    separator: Seq<char>,
    part: Seq<char>,
)
    requires
        parts.contains(part),
    ensures
        occurs_in(joined(parts, separator), part),
    decreases parts.len(),
{
    let k = choose|k: int| 0 <= k < parts.len() && parts[k] == part;
    law_each_part_occurs_in_the_whole(part, part);
    if parts.len() > 1 {
        let rest = parts.drop_last();
        let front = joined(rest, separator) + separator;
        law_each_part_occurs_in_the_whole(front, parts.last());
        if k < rest.len() {
            assert(rest[k] == part);
            law_every_part_stands_in_the_joined_text(rest, separator, part);
            law_each_part_occurs_in_the_whole(joined(rest, separator), separator);
            law_parts_of_parts_occur(front, joined(rest, separator), part);
            law_parts_of_parts_occur(joined(parts, separator), front, part);
        }
    }
}

} // verus!
