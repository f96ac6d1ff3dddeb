//! The tokens of a text: technical names, words, and the alias groups that
//! carry a query from one language to another.

use vstd::prelude::*;

use crate::ordering::{
    indices, is_stable_order, law_stable_order_sorts, picked, sort_indices, stable_order, LengthKey,
    Precedence,
};
use crate::text::{
    chars_of, contains_text, copy_texts, extend_texts, is_white_space, lemma_texts_push, occurs_in,
    optional_text, text_between, text_contains, texts, trim_end, trim_start, trim_text, trimmed,
};
use crate::words::{
    are_unique_texts, is_ascii_text, is_token_punctuation, law_new_texts_are_added_once,
    law_normalization_is_idempotent, law_normalized_texts_are_added, law_unique_texts_stay_unique,
    lemma_technical_parts_are_ascii, lemma_with_all_new_concat, lemma_with_all_new_contains,
    lemma_with_all_new_is_distinct, lemma_with_all_new_keeps, normalized, push_all_new, push_new,
    push_unique_text, push_unique_texts, split_at_separators, split_text, to_lower,
    token_punctuation, unicode_lower, with_all_new, with_new, with_new_text, with_new_texts,
    without_repeats, Separator,
};

verus! {

/// A group of terms that mean the same.
pub struct SemanticAliasGroup {
    pub canonical: String,
    pub terms: Vec<String>,
}

/// The alias groups, arranged for look-up.
pub struct SemanticAliasCatalog {
    /// Each term in lower case with the canonical token of its group, longer
    /// terms first.
    pub phrase_to_canonical: Vec<(String, String)>,
    /// The terms of each group under its canonical token; a later group
    /// replaces an earlier one of the same token.
    pub canonical_to_terms: Vec<(String, Vec<String>)>,
}

/// The token that a word is taken for.
pub open spec fn token_of(word: Seq<char>) -> Seq<char> {
    unicode_lower(trimmed(word))
}

/// `token` without white space at its ends, in lower case.
pub fn normalize_semantic_token(token: &str) -> (normalized: String)
    ensures
        normalized@ == token_of(token@),
        is_ascii_text(token@) ==> is_ascii_text(normalized@),
{
    proof {
        lemma_trimmed_stays_ascii(token@);
    }
    to_lower(&trim_text(token))
}

/// What is left of an ASCII text without white space at its start is ASCII.
proof fn lemma_trim_start_stays_ascii(text: Seq<char>)
    ensures
        is_ascii_text(text) ==> is_ascii_text(trim_start(text)),
    decreases text.len(),
{
    if text.len() > 0 && is_white_space(text[0]) {
        lemma_trim_start_stays_ascii(text.drop_first());
    }
}

/// What is left of an ASCII text without white space at its end is ASCII.
proof fn lemma_trim_end_stays_ascii(text: Seq<char>)
    ensures
        is_ascii_text(text) ==> is_ascii_text(trim_end(text)),
    decreases text.len(),
{
    if text.len() > 0 && is_white_space(text.last()) {
        lemma_trim_end_stays_ascii(text.drop_last());
    }
}

/// What is left of an ASCII text without white space at its ends is ASCII.
proof fn lemma_trimmed_stays_ascii(text: Seq<char>)
    ensures
        is_ascii_text(text) ==> is_ascii_text(trimmed(text)),
{
    lemma_trim_start_stays_ascii(text);
    lemma_trim_end_stays_ascii(trim_start(text));
}

/// The canonical token of a group.
pub open spec fn group_canonical(group: SemanticAliasGroup) -> Seq<char> {
    token_of(group.canonical@)
}

/// The terms of a group: its canonical token, then its terms, each normalised
/// and once.
pub open spec fn group_terms(group: SemanticAliasGroup) -> Seq<Seq<char>> {
    with_new_texts(with_new_text(Seq::empty(), group_canonical(group)), texts(group.terms@))
}

/// Each term in lower case, paired with `canonical`.
pub open spec fn term_pairs(
    terms: Seq<Seq<char>>,
    canonical: Seq<char>,
) -> Seq<(Seq<char>, Seq<char>)> {
    terms.map_values(|term: Seq<char>| (unicode_lower(term), canonical))
}

/// The term pairs of all groups, in the order of the groups.
pub open spec fn group_pairs(groups: Seq<SemanticAliasGroup>) -> Seq<(Seq<char>, Seq<char>)>
    decreases groups.len(),
{
    if groups.len() == 0 {
        Seq::empty()
    } else {
        group_pairs(groups.drop_last()) + term_pairs(
            group_terms(groups.last()),
            group_canonical(groups.last()),
        )
    }
}

/// The sort keys of term pairs: the lengths of the terms.
pub open spec fn pair_lengths(pairs: Seq<(Seq<char>, Seq<char>)>) -> Seq<LengthKey> {
    pairs.map_values(|pair: (Seq<char>, Seq<char>)| LengthKey { length: pair.0.len() as usize })
}

/// The characters of pairs of strings.
pub open spec fn pair_texts(pairs: Seq<(String, String)>) -> Seq<(Seq<char>, Seq<char>)> {
    pairs.map_values(|pair: (String, String)| (pair.0@, pair.1@))
}

/// The terms of the last group with that canonical token; none where there is
/// no such group.
pub open spec fn terms_in_groups(
    groups: Seq<SemanticAliasGroup>,
    canonical: Seq<char>,
) -> Seq<Seq<char>>
    decreases groups.len(),
{
    if groups.len() == 0 {
        Seq::empty()
    } else if group_canonical(groups.last()) == canonical {
        group_terms(groups.last())
    } else {
        terms_in_groups(groups.drop_last(), canonical)
    }
}

/// The terms of the last entry under that canonical token; none where there
/// is no such entry.
pub open spec fn terms_under(
    entries: Seq<(String, Vec<String>)>,
    canonical: Seq<char>,
) -> Seq<Seq<char>>
    decreases entries.len(),
{
    if entries.len() == 0 {
        Seq::empty()
    } else if entries.last().0@ == canonical {
        texts(entries.last().1@)
    } else {
        terms_under(entries.drop_last(), canonical)
    }
}

/// Whether the catalog arranges those groups.
pub open spec fn arranges(catalog: SemanticAliasCatalog, groups: Seq<SemanticAliasGroup>) -> bool {
    &&& pair_texts(catalog.phrase_to_canonical@) == picked(
        group_pairs(groups),
        stable_order(pair_lengths(group_pairs(groups))),
    )
    &&& forall|canonical: Seq<char>| #[trigger]
        terms_under(catalog.canonical_to_terms@, canonical) == terms_in_groups(groups, canonical)
}

/// Each term of a group in lower case, paired with its canonical token, after
/// the pairs that are there.
fn push_term_pairs(pairs: &mut Vec<(String, String)>, terms: &Vec<String>, canonical: &String)
    ensures
        pair_texts(final(pairs)@) == pair_texts(old(pairs)@) + term_pairs(
            texts(terms@),
            canonical@,
        ),
{
    let mut i: usize = 0;
    while i < terms.len()
        invariant
            i <= terms@.len(),
            pair_texts(pairs@) =~= pair_texts(old(pairs)@) + term_pairs(
                texts(terms@),
                canonical@,
            ).take(i as int),
        decreases terms@.len() - i,
    {
        let ghost before = pairs@;
        pairs.push((to_lower(&terms[i]), canonical.clone()));
        assert(pair_texts(pairs@) =~= pair_texts(before).push(pair_texts(pairs@).last()));
        assert(term_pairs(texts(terms@), canonical@).take(i as int + 1) =~= term_pairs(
            texts(terms@),
            canonical@,
        ).take(i as int).push(term_pairs(texts(terms@), canonical@)[i as int]));
        i = i + 1;
    }
    assert(term_pairs(texts(terms@), canonical@).take(i as int) =~= term_pairs(
        texts(terms@),
        canonical@,
    ));
}

/// The pairs, longer terms first, those of one length in the order they were in.
fn longest_first(pairs: Vec<(String, String)>) -> (sorted: Vec<(String, String)>)
    ensures
        pair_texts(sorted@) == picked(
            pair_texts(pairs@),
            stable_order(pair_lengths(pair_texts(pairs@))),
        ),
{
    let mut keys: Vec<LengthKey> = Vec::new();
    let mut i: usize = 0;
    while i < pairs.len()
        invariant
            i <= pairs@.len(),
            keys@ =~= pair_lengths(pair_texts(pairs@)).take(i as int),
        decreases pairs@.len() - i,
    {
        keys.push(LengthKey { length: chars_of(&pairs[i].0).len() });
        i = i + 1;
    }
    assert(keys@ =~= pair_lengths(pair_texts(pairs@)));
    let order = sort_indices(&keys);
    let mut sorted: Vec<(String, String)> = Vec::new();
    let mut k: usize = 0;
    while k < order.len()
        invariant
            k <= order@.len(),
            keys@.len() == pairs@.len(),
            is_stable_order(indices(order@), keys@),
            pair_texts(sorted@) =~= picked(pair_texts(pairs@), indices(order@)).take(k as int),
        decreases order@.len() - k,
    {
        assert(indices(order@)[k as int] == order@[k as int]);
        let at: usize = order[k];
        let ghost before = sorted@;
        sorted.push((pairs[at].0.clone(), pairs[at].1.clone()));
        assert(pair_texts(sorted@) =~= pair_texts(before).push(pair_texts(sorted@).last()));
        assert(picked(pair_texts(pairs@), indices(order@)).take(k as int + 1) =~= picked(
            pair_texts(pairs@),
            indices(order@),
        ).take(k as int).push(pair_texts(pairs@)[at as int]));
        k = k + 1;
    }
    assert(pair_texts(sorted@) =~= picked(pair_texts(pairs@), indices(order@)));
    sorted
}

/// The alias groups, arranged for look-up.
pub fn semantic_alias_catalog(groups: &Vec<SemanticAliasGroup>) -> (catalog: SemanticAliasCatalog)
    ensures
        arranges(catalog, groups@),
{
    let mut pairs: Vec<(String, String)> = Vec::new();
    let mut entries: Vec<(String, Vec<String>)> = Vec::new();
    let mut i: usize = 0;
    assert(pair_texts(pairs@) =~= group_pairs(groups@.take(0)));
    while i < groups.len()
        invariant
            i <= groups@.len(),
            pair_texts(pairs@) == group_pairs(groups@.take(i as int)),
            forall|canonical: Seq<char>| #[trigger]
                terms_under(entries@, canonical) == terms_in_groups(
                    groups@.take(i as int),
                    canonical,
                ),
        decreases groups@.len() - i,
    {
        let canonical = normalize_semantic_token(&groups[i].canonical);
        let mut terms: Vec<String> = Vec::new();
        assert(texts(terms@) =~= Seq::empty());
        push_unique_text(&mut terms, &canonical);
        push_unique_texts(&mut terms, &groups[i].terms, groups[i].terms.len());
        assert(texts(groups@[i as int].terms@).take(groups@[i as int].terms@.len() as int)
            =~= texts(groups@[i as int].terms@));
        assert(texts(terms@) == group_terms(groups@[i as int]));
        assert(groups@.take(i as int + 1).drop_last() =~= groups@.take(i as int));
        push_term_pairs(&mut pairs, &terms, &canonical);
        let ghost before = entries@;
        entries.push((canonical, terms));
        assert(entries@.drop_last() =~= before);
        assert forall|other: Seq<char>| #[trigger] terms_under(entries@, other) == terms_in_groups(
            groups@.take(i as int + 1),
            other,
        ) by {
            assert(terms_under(before, other) == terms_in_groups(groups@.take(i as int), other));
        }
        i = i + 1;
    }
    assert(groups@.take(i as int) =~= groups@);
    SemanticAliasCatalog {
        phrase_to_canonical: longest_first(pairs),
        canonical_to_terms: entries,
    }
}

/// `jieba_rs::Jieba`: the dictionary and the segmentation of Chinese text.
#[verifier::external_type_specification]
#[verifier::external_body]
pub struct ExJieba(jieba_rs::Jieba);

/// The word segmentation with its default dictionary.
pub struct Segmenter {
    jieba: jieba_rs::Jieba,
}

/// `Jieba::new` of the crate `jieba-rs`: a segmentation with the dictionary
/// that the crate brings along. Nothing is claimed of it.
#[verifier::external_body]
fn default_jieba() -> jieba_rs::Jieba {
    jieba_rs::Jieba::new()
}

/// The words that `Jieba::cut` of the crate `jieba-rs` cuts a text into with
/// its default dictionary and without new word discovery.
pub uninterp spec fn jieba_words(text: Seq<char>) -> Seq<Seq<char>>;

/// `Jieba::cut` of the crate `jieba-rs`, without its hidden Markov model: the
/// words depend on the text and the dictionary alone, and the dictionary of a
/// segmenter is always the default one, since [`Lexicon::new`] alone makes one.
#[verifier::external_body]
fn cut_words(segmenter: &Segmenter, text: &str) -> (words: Vec<String>)
    ensures
        texts(words@) == jieba_words(text@),
{
    segmenter.jieba.cut(text, false).into_iter().map(|word| word.to_owned()).collect()
}

/// What a text is cut into tokens with: the alias groups and the word
/// segmentation.
pub struct Lexicon {
    pub catalog: SemanticAliasCatalog,
    pub segmenter: Segmenter,
}

impl Lexicon {
    /// A lexicon with those alias groups.
    pub fn new(groups: &Vec<SemanticAliasGroup>) -> (lexicon: Lexicon)
        ensures
            arranges(lexicon.catalog, groups@),
    {
        Lexicon {
            catalog: semantic_alias_catalog(groups),
            segmenter: Segmenter { jieba: default_jieba() },
        }
    }
}

/// `text` without the token punctuation at its start.
pub open spec fn without_leading_punctuation(text: Seq<char>) -> Seq<char>
    decreases text.len(),
{
    if text.len() > 0 && is_token_punctuation(text[0]) {
        without_leading_punctuation(text.drop_first())
    } else {
        text
    }
}

/// `text` without the token punctuation at its end.
pub open spec fn without_trailing_punctuation(text: Seq<char>) -> Seq<char>
    decreases text.len(),
{
    if text.len() > 0 && is_token_punctuation(text.last()) {
        without_trailing_punctuation(text.drop_last())
    } else {
        text
    }
}

/// `text` without the token punctuation at either end.
pub open spec fn without_punctuation(text: Seq<char>) -> Seq<char> {
    without_trailing_punctuation(without_leading_punctuation(text))
}

/// Whether a text takes two bytes or more in UTF-8.
pub open spec fn takes_two_bytes(text: Seq<char>) -> bool {
    text.len() >= 2 || (text.len() == 1 && text[0] as int >= 0x80)
}

/// The technical token that a part in lower case is taken for, where it takes
/// two bytes or more.
pub open spec fn technical_token(part: Seq<char>) -> Option<Seq<char>> {
    if takes_two_bytes(without_punctuation(part)) {
        Some(without_punctuation(part))
    } else {
        None
    }
}

/// The technical tokens of those parts that are taken for one.
pub open spec fn technical_tokens_of(parts: Seq<Seq<char>>) -> Seq<Seq<char>>
    decreases parts.len(),
{
    if parts.len() == 0 {
        Seq::empty()
    } else {
        let rest = technical_tokens_of(parts.drop_last());
        match technical_token(token_of(parts.last())) {
            Some(token) => rest.push(token),
            None => rest,
        }
    }
}

/// The technical tokens of a text: its runs of ASCII letters, digits and token
/// punctuation, without punctuation at the ends.
pub open spec fn technical_tokens(text: Seq<char>) -> Seq<Seq<char>> {
    technical_tokens_of(split_text(text, Separator::NonTechnical))
}

/// `token` without token punctuation at its ends.
fn trim_punctuation(token: &str) -> (inner: String)
    ensures
        inner@ == without_punctuation(token@),
{
    let chars = chars_of(token);
    let mut from: usize = 0;
    assert(chars@.subrange(0, chars@.len() as int) =~= chars@);
    while from < chars.len() && token_punctuation(chars[from])
        invariant
            from <= chars@.len(),
            without_leading_punctuation(chars@.subrange(from as int, chars@.len() as int))
                == without_leading_punctuation(chars@),
        decreases chars@.len() - from,
    {
        assert(chars@.subrange(from as int, chars@.len() as int).drop_first() =~= chars@.subrange(
            from as int + 1,
            chars@.len() as int,
        ));
        from = from + 1;
    }
    let ghost inner = chars@.subrange(from as int, chars@.len() as int);
    let mut to: usize = chars.len();
    while from < to && token_punctuation(chars[to - 1])
        invariant
            from <= to <= chars@.len(),
            without_trailing_punctuation(chars@.subrange(from as int, to as int))
                == without_trailing_punctuation(inner),
        decreases to,
    {
        assert(chars@.subrange(from as int, to as int).drop_last() =~= chars@.subrange(
            from as int,
            to as int - 1,
        ));
        to = to - 1;
    }
    text_between(&chars, from, to)
}

/// Whether a text takes two bytes or more in UTF-8.
fn two_bytes_or_more(text: &str) -> (found: bool)
    ensures
        found == takes_two_bytes(text@),
{
    let chars = chars_of(text);
    if chars.len() == 1 {
        chars[0] >= '\u{80}'
    } else {
        chars.len() >= 2
    }
}

/// What is left of an ASCII text without punctuation at its start is ASCII.
proof fn lemma_leading_punctuation_stays_ascii(text: Seq<char>)
    ensures
        is_ascii_text(text) ==> is_ascii_text(without_leading_punctuation(text)),
    decreases text.len(),
{
    if text.len() > 0 && is_token_punctuation(text[0]) {
        lemma_leading_punctuation_stays_ascii(text.drop_first());
    }
}

/// What is left of an ASCII text without punctuation at its end is ASCII.
proof fn lemma_trailing_punctuation_stays_ascii(text: Seq<char>)
    ensures
        is_ascii_text(text) ==> is_ascii_text(without_trailing_punctuation(text)),
    decreases text.len(),
{
    if text.len() > 0 && is_token_punctuation(text.last()) {
        lemma_trailing_punctuation_stays_ascii(text.drop_last());
    }
}

/// The technical token that a part in lower case is taken for; that of an
/// ASCII part has two characters or more.
pub fn technical_token_of(part: &str) -> (token: Option<String>)
    ensures
        optional_text(token) == technical_token(part@),
        is_ascii_text(part@) ==> (token matches Some(found) ==> found@.len() >= 2),
{
    proof {
        lemma_leading_punctuation_stays_ascii(part@);
        lemma_trailing_punctuation_stays_ascii(without_leading_punctuation(part@));
    }
    let token = trim_punctuation(part);
    if two_bytes_or_more(&token) {
        Some(token)
    } else {
        None
    }
}

/// The technical tokens of a text; each has two characters or more.
pub fn technical_semantic_tokens(text: &str) -> (tokens: Vec<String>)
    ensures
        texts(tokens@) == technical_tokens(text@),
        have_two_characters(texts(tokens@)),
{
    broadcast use lemma_texts_push;

    proof {
        lemma_technical_parts_are_ascii(text@);
    }
    let parts = split_at_separators(text, Separator::NonTechnical);
    let mut tokens: Vec<String> = Vec::new();
    let mut i: usize = 0;
    assert(texts(tokens@) =~= technical_tokens_of(texts(parts@).take(0)));
    while i < parts.len()
        invariant
            i <= parts@.len(),
            texts(parts@) == split_text(text@, Separator::NonTechnical),
            forall|k: int|
                0 <= k < split_text(text@, Separator::NonTechnical).len() ==> is_ascii_text(
                    #[trigger] split_text(text@, Separator::NonTechnical)[k],
                ),
            texts(tokens@) == technical_tokens_of(texts(parts@).take(i as int)),
            have_two_characters(texts(tokens@)),
        decreases parts@.len() - i,
    {
        assert(split_text(text@, Separator::NonTechnical)[i as int] == parts@[i as int]@);
        assert(texts(parts@).take(i as int + 1).drop_last() =~= texts(parts@).take(i as int));
        if let Some(token) = technical_token_of(&normalize_semantic_token(&parts[i])) {
            let ghost before = texts(tokens@);
            assert(is_ascii_text(parts@[i as int]@));
            assert(token@.len() >= 2);
            tokens.push(token);
            assert(texts(tokens@) == before.push(token@));
        }
        i = i + 1;
    }
    assert(texts(parts@).take(i as int) =~= texts(parts@));
    tokens
}

/// Whether each of `tokens` has two characters or more.
pub open spec fn have_two_characters(tokens: Seq<Seq<char>>) -> bool {
    forall|i: int| 0 <= i < tokens.len() ==> (#[trigger] tokens[i]).len() >= 2
}

/// The token of each word.
pub open spec fn tokens_of_words(words: Seq<Seq<char>>) -> Seq<Seq<char>> {
    words.map_values(|word: Seq<char>| token_of(word))
}

/// Those of `words` that have two characters or more.
pub open spec fn long_words(words: Seq<Seq<char>>) -> Seq<Seq<char>>
    decreases words.len(),
{
    if words.len() == 0 {
        Seq::empty()
    } else {
        let rest = long_words(words.drop_last());
        if words.last().len() >= 2 {
            rest.push(words.last())
        } else {
            rest
        }
    }
}

/// Technical tokens, then words of two characters or more, each once.
pub open spec fn joint_tokens(
    technical: Seq<Seq<char>>,
    words: Seq<Seq<char>>,
) -> Seq<Seq<char>> {
    with_all_new(without_repeats(technical), long_words(words))
}

/// The tokens of a text by itself: its technical tokens, then those of its
/// words, each once.
pub open spec fn base_tokens(text: Seq<char>) -> Seq<Seq<char>> {
    joint_tokens(technical_tokens(text), tokens_of_words(jieba_words(text)))
}

/// Technical tokens, then words of two characters or more, each once.
pub fn join_tokens(technical: &Vec<String>, words: &Vec<String>) -> (tokens: Vec<String>)
    ensures
        texts(tokens@) == joint_tokens(texts(technical@), texts(words@)),
{
    broadcast use lemma_texts_push;

    let mut tokens: Vec<String> = Vec::new();
    assert(texts(tokens@) =~= Seq::empty());
    push_all_new(&mut tokens, technical);
    let mut long: Vec<String> = Vec::new();
    let mut i: usize = 0;
    assert(texts(long@) =~= long_words(texts(words@).take(0)));
    while i < words.len()
        invariant
            i <= words@.len(),
            texts(long@) == long_words(texts(words@).take(i as int)),
        decreases words@.len() - i,
    {
        assert(texts(words@).take(i as int + 1).drop_last() =~= texts(words@).take(i as int));
        if chars_of(&words[i]).len() >= 2 {
            long.push(words[i].clone());
        }
        i = i + 1;
    }
    assert(texts(words@).take(i as int) =~= texts(words@));
    push_all_new(&mut tokens, &long);
    tokens
}

/// Long words have two characters or more.
proof fn lemma_long_words(words: Seq<Seq<char>>)
    ensures
        have_two_characters(long_words(words)),
    decreases words.len(),
{
    if words.len() > 0 {
        lemma_long_words(words.drop_last());
    }
}

/// Joint tokens have two characters or more where the technical ones do.
proof fn lemma_joint_tokens(technical: Seq<Seq<char>>, words: Seq<Seq<char>>)
    requires
        have_two_characters(technical),
    ensures
        have_two_characters(joint_tokens(technical, words)),
{
    let first = without_repeats(technical);
    let all = joint_tokens(technical, words);
    lemma_long_words(words);
    lemma_with_all_new_contains(Seq::empty(), technical);
    lemma_with_all_new_contains(first, long_words(words));
    assert forall|i: int| 0 <= i < all.len() implies (#[trigger] all[i]).len() >= 2 by {
        assert(all.contains(all[i]));
        if technical.contains(all[i]) {
            let k = choose|k: int| 0 <= k < technical.len() && technical[k] == all[i];
            assert(technical[k].len() >= 2);
        } else {
            assert(long_words(words).contains(all[i]));
            let k = choose|k: int|
                0 <= k < long_words(words).len() && long_words(words)[k] == all[i];
            assert(long_words(words)[k].len() >= 2);
        }
    }
}

/// The tokens of a text by itself are distinct, and its technical tokens, each
/// once, come first.
pub proof fn law_base_tokens_start_with_the_technical_ones(text: Seq<char>)
    ensures
        base_tokens(text).no_duplicates(),
        without_repeats(technical_tokens(text)).no_duplicates(),
        without_repeats(technical_tokens(text)).is_prefix_of(base_tokens(text)),
        forall|token: Seq<char>| #[trigger]
            without_repeats(technical_tokens(text)).contains(token) <==> technical_tokens(
                text,
            ).contains(token),
{
    let technical = technical_tokens(text);
    let first = without_repeats(technical);
    let long = long_words(tokens_of_words(jieba_words(text)));
    lemma_with_all_new_is_distinct(Seq::empty(), technical);
    lemma_with_all_new_is_distinct(first, long);
    lemma_with_all_new_keeps(first, long);
    lemma_with_all_new_contains(Seq::empty(), technical);
    assert(first =~= base_tokens(text).take(first.len() as int));
}

/// The tokens of a text by itself: distinct, of two characters or more, the
/// technical ones first.
pub fn semantic_tokens_without_alias_expansion(lexicon: &Lexicon, text: &str) -> (tokens: Vec<
    String,
>)
    ensures
        texts(tokens@) == base_tokens(text@),
        texts(tokens@).no_duplicates(),
        have_two_characters(texts(tokens@)),
        without_repeats(technical_tokens(text@)).is_prefix_of(texts(tokens@)),
{
    broadcast use lemma_texts_push;

    let words = cut_words(&lexicon.segmenter, text);
    let mut word_tokens: Vec<String> = Vec::new();
    let mut i: usize = 0;
    while i < words.len()
        invariant
            i <= words@.len(),
            texts(word_tokens@) =~= tokens_of_words(texts(words@)).take(i as int),
        decreases words@.len() - i,
    {
        word_tokens.push(normalize_semantic_token(&words[i]));
        i = i + 1;
        assert(tokens_of_words(texts(words@)).take(i as int) =~= tokens_of_words(
            texts(words@),
        ).take(i as int - 1).push(token_of(words@[i as int - 1]@)));
    }
    assert(texts(word_tokens@) =~= tokens_of_words(texts(words@)));
    let technical = technical_semantic_tokens(text);
    proof {
        law_base_tokens_start_with_the_technical_ones(text@);
        lemma_joint_tokens(texts(technical@), texts(word_tokens@));
    }
    join_tokens(&technical, &word_tokens)
}

/// Whether a phrase occurs in the lower-case text or is one of the tokens.
pub open spec fn phrase_matches(
    phrase: Seq<char>,
    tokens: Seq<Seq<char>>,
    lower_text: Seq<char>,
) -> bool {
    occurs_in(lower_text, phrase) || tokens.contains(phrase)
}

/// Whether a phrase occurs in the lower-case text or is one of the tokens.
pub fn phrase_is_matched(phrase: &str, tokens: &Vec<String>, lower_text: &str) -> (matched: bool)
    ensures
        matched == phrase_matches(phrase@, texts(tokens@), lower_text@),
{
    text_contains(lower_text, phrase) || contains_text(tokens, phrase)
}

/// Adds the canonical token of an alias group and the tokens of its terms, as
/// far as they are new.
pub fn push_alias_group(expanded: &mut Vec<String>, canonical: &String, group_tokens: &Vec<String>)
    ensures
        texts(final(expanded)@) == with_all_new(
            texts(old(expanded)@),
            seq![canonical@] + texts(group_tokens@),
        ),
{
    let ghost before = texts(expanded@);
    push_new(expanded, canonical.clone());
    push_all_new(expanded, group_tokens);
    proof {
        let one = seq![canonical@];
        assert(one.drop_last() =~= Seq::<Seq<char>>::empty());
        reveal_with_fuel(with_all_new, 2);
        assert(with_all_new(before, one) == with_new(before, canonical@));
        lemma_with_all_new_concat(before, one, texts(group_tokens@));
    }
}

/// The tokens of those terms, one term after the other.
pub open spec fn tokens_of_terms(terms: Seq<Seq<char>>) -> Seq<Seq<char>>
    decreases terms.len(),
{
    if terms.len() == 0 {
        Seq::empty()
    } else {
        tokens_of_terms(terms.drop_last()) + base_tokens(terms.last())
    }
}

/// How many terms of a group an expansion takes.
pub open spec fn expansion_terms(terms: Seq<Seq<char>>) -> Seq<Seq<char>> {
    terms.take(
        if terms.len() < 8 {
            terms.len() as int
        } else {
            8
        },
    )
}

/// What a matching phrase adds: the canonical token, then the tokens of the
/// first terms of its group.
pub open spec fn alias_additions(
    entries: Seq<(String, Vec<String>)>,
    canonical: Seq<char>,
) -> Seq<Seq<char>> {
    seq![canonical] + tokens_of_terms(expansion_terms(terms_under(entries, canonical)))
}

/// `tokens` with what the matching ones of `pairs` add.
pub open spec fn expanded_by(
    pairs: Seq<(Seq<char>, Seq<char>)>,
    entries: Seq<(String, Vec<String>)>,
    tokens: Seq<Seq<char>>,
    lower_text: Seq<char>,
) -> Seq<Seq<char>>
    decreases pairs.len(),
{
    if pairs.len() == 0 {
        tokens
    } else {
        let rest = expanded_by(pairs.drop_last(), entries, tokens, lower_text);
        if phrase_matches(pairs.last().0, tokens, lower_text) {
            with_all_new(rest, alias_additions(entries, pairs.last().1))
        } else {
            rest
        }
    }
}

/// `tokens` with what the alias groups add that match them or `text`.
pub open spec fn expanded_tokens(
    catalog: SemanticAliasCatalog,
    tokens: Seq<Seq<char>>,
    text: Seq<char>,
) -> Seq<Seq<char>> {
    expanded_by(
        pair_texts(catalog.phrase_to_canonical@),
        catalog.canonical_to_terms@,
        tokens,
        unicode_lower(text),
    )
}

/// The tokens of a text, those of matching alias groups among them.
pub open spec fn tokens_of(catalog: SemanticAliasCatalog, text: Seq<char>) -> Seq<Seq<char>> {
    expanded_tokens(catalog, base_tokens(text), text)
}

/// The tokens of the first ones of `terms`.
fn tokens_of_first_terms(lexicon: &Lexicon, terms: &Vec<String>) -> (tokens: Vec<String>)
    ensures
        texts(tokens@) == tokens_of_terms(expansion_terms(texts(terms@))),
{
    let mut tokens: Vec<String> = Vec::new();
    let ghost taken = expansion_terms(texts(terms@));
    let mut i: usize = 0;
    assert(texts(tokens@) =~= tokens_of_terms(taken.take(0)));
    while i < terms.len() && i < 8
        invariant
            i <= terms@.len(),
            i <= 8,
            taken == expansion_terms(texts(terms@)),
            texts(tokens@) == tokens_of_terms(taken.take(i as int)),
        decreases terms@.len() - i,
    {
        assert(taken.take(i as int + 1).drop_last() =~= taken.take(i as int));
        assert(taken.take(i as int + 1).last() == terms@[i as int]@);
        let more = semantic_tokens_without_alias_expansion(lexicon, &terms[i]);
        extend_texts(&mut tokens, &more);
        i = i + 1;
    }
    assert(taken.take(i as int) =~= taken);
    tokens
}

/// The tokens of the first terms of the group with that canonical token.
fn tokens_of_group(lexicon: &Lexicon, canonical: &String) -> (tokens: Vec<String>)
    ensures
        texts(tokens@) == tokens_of_terms(
            expansion_terms(terms_under(lexicon.catalog.canonical_to_terms@, canonical@)),
        ),
{
    let entries = &lexicon.catalog.canonical_to_terms;
    let mut end: usize = entries.len();
    assert(entries@.take(end as int) =~= entries@);
    while end > 0
        invariant
            end <= entries@.len(),
            entries@ == lexicon.catalog.canonical_to_terms@,
            terms_under(entries@, canonical@) == terms_under(entries@.take(end as int), canonical@),
        decreases end,
    {
        assert(entries@.take(end as int).drop_last() =~= entries@.take(end as int - 1));
        if entries[end - 1].0 == *canonical {
            return tokens_of_first_terms(lexicon, &entries[end - 1].1);
        }
        end = end - 1;
    }
    let tokens: Vec<String> = Vec::new();
    proof {
        let none = expansion_terms(Seq::<Seq<char>>::empty());
        assert(none =~= Seq::<Seq<char>>::empty());
        assert(texts(tokens@) =~= tokens_of_terms(none));
    }
    tokens
}

/// `tokens` with what the alias groups add that match them or `raw_text`.
pub fn expand_semantic_aliases(lexicon: &Lexicon, tokens: &Vec<String>, raw_text: &str) -> (
    expanded: Vec<String>)
    ensures
        texts(expanded@) == expanded_tokens(lexicon.catalog, texts(tokens@), raw_text@),
{
    let lower_text = to_lower(raw_text);
    let mut expanded = copy_texts(tokens);
    let pairs = &lexicon.catalog.phrase_to_canonical;
    let ghost entries = lexicon.catalog.canonical_to_terms@;
    let mut i: usize = 0;
    while i < pairs.len()
        invariant
            i <= pairs@.len(),
            pairs@ == lexicon.catalog.phrase_to_canonical@,
            entries == lexicon.catalog.canonical_to_terms@,
            lower_text@ == unicode_lower(raw_text@),
            texts(expanded@) == expanded_by(
                pair_texts(pairs@).take(i as int),
                entries,
                texts(tokens@),
                lower_text@,
            ),
        decreases pairs@.len() - i,
    {
        assert(pair_texts(pairs@).take(i as int + 1).drop_last() =~= pair_texts(pairs@).take(
            i as int,
        ));
        let canonical = &pairs[i].1;
        if phrase_is_matched(&pairs[i].0, tokens, &lower_text) {
            push_alias_group(&mut expanded, canonical, &tokens_of_group(lexicon, canonical));
        }
        i = i + 1;
    }
    assert(pair_texts(pairs@).take(i as int) =~= pair_texts(pairs@));
    expanded
}

/// The tokens of a text, those of matching alias groups among them.
pub fn semantic_tokens(lexicon: &Lexicon, text: &str) -> (tokens: Vec<String>)
    ensures
        texts(tokens@) == tokens_of(lexicon.catalog, text@),
{
    let tokens = semantic_tokens_without_alias_expansion(lexicon, text);
    expand_semantic_aliases(lexicon, &tokens, text)
}

/// How much punctuation there is at the start of a text.
proof fn lemma_leading_punctuation(text: Seq<char>) -> (count: int)
    ensures
        0 <= count <= text.len(),
        without_leading_punctuation(text) == text.skip(count),
        forall|i: int| 0 <= i < count ==> is_token_punctuation(#[trigger] text[i]),
        without_leading_punctuation(text).len() > 0 ==> !is_token_punctuation(
            without_leading_punctuation(text)[0],
        ),
    decreases text.len(),
{
    if text.len() > 0 && is_token_punctuation(text[0]) {
        let rest = text.drop_first();
        let count = lemma_leading_punctuation(rest);
        assert(rest.skip(count) =~= text.skip(count + 1));
        assert forall|i: int| 0 <= i < count + 1 implies is_token_punctuation(
            #[trigger] text[i],
        ) by {
            if i > 0 {
                assert(rest[i - 1] == text[i]);
            }
        }
        count + 1
    } else {
        assert(text.skip(0) =~= text);
        0
    }
}

/// How much of a text is left without punctuation at its end.
proof fn lemma_trailing_punctuation(text: Seq<char>) -> (count: int)
    ensures
        0 <= count <= text.len(),
        without_trailing_punctuation(text) == text.take(count),
        forall|i: int| count <= i < text.len() ==> is_token_punctuation(#[trigger] text[i]),
        without_trailing_punctuation(text).len() > 0 ==> !is_token_punctuation(
            without_trailing_punctuation(text).last(),
        ),
    decreases text.len(),
{
    if text.len() > 0 && is_token_punctuation(text.last()) {
        let rest = text.drop_last();
        let count = lemma_trailing_punctuation(rest);
        assert(rest.take(count) =~= text.take(count));
        assert forall|i: int| count <= i < text.len() implies is_token_punctuation(
            #[trigger] text[i],
        ) by {
            if i < rest.len() {
                assert(rest[i] == text[i]);
            }
        }
        count
    } else {
        assert(text.take(text.len() as int) =~= text);
        text.len() as int
    }
}

/// A token loses the punctuation at its ends, all of it and nothing else; what
/// stands inside stays.
pub proof fn law_punctuation_is_taken_from_the_ends(text: Seq<char>)
    ensures
        exists|lead: Seq<char>, tail: Seq<char>|
            text == #[trigger] (lead + without_punctuation(text) + tail) && (forall|i: int|
                0 <= i < lead.len() ==> is_token_punctuation(#[trigger] lead[i])) && (forall|i: int|
                0 <= i < tail.len() ==> is_token_punctuation(#[trigger] tail[i])),
        without_punctuation(text).len() > 0 ==> !is_token_punctuation(without_punctuation(text)[0])
            && !is_token_punctuation(without_punctuation(text).last()),
{
    let inner = without_leading_punctuation(text);
    let start = lemma_leading_punctuation(text);
    let count = lemma_trailing_punctuation(inner);
    let lead = text.take(start);
    let tail = inner.skip(count);
    assert(text =~= lead + without_punctuation(text) + tail);
    assert forall|i: int| 0 <= i < lead.len() implies is_token_punctuation(#[trigger] lead[i]) by {
        assert(lead[i] == text[i]);
    }
    assert forall|i: int| 0 <= i < tail.len() implies is_token_punctuation(#[trigger] tail[i]) by {
        assert(tail[i] == inner[count + i]);
    }
    if without_punctuation(text).len() > 0 {
        assert(without_punctuation(text)[0] == inner[0]);
    }
}

/// The technical tokens of parts come part by part.
proof fn lemma_technical_tokens_of(parts: Seq<Seq<char>>, token: Seq<char>)
    ensures
        technical_tokens_of(parts).contains(token) <==> exists|k: int|
            0 <= k < parts.len() && technical_token(token_of(#[trigger] parts[k])) == Some(token),
    decreases parts.len(),
{
    if parts.len() > 0 {
        let front = parts.drop_last();
        lemma_technical_tokens_of(front, token);
        let rest = technical_tokens_of(front);
        let all = technical_tokens_of(parts);
        assert(parts[parts.len() - 1] == parts.last());
        if rest.contains(token) {
            let k = choose|k: int| 0 <= k < rest.len() && rest[k] == token;
            assert(all[k] == token);
            let m = choose|m: int|
                0 <= m < front.len() && technical_token(token_of(#[trigger] front[m])) == Some(
                    token,
                );
            assert(parts[m] == front[m]);
        }
        if all.len() > rest.len() {
            assert(all[all.len() - 1] == technical_token(token_of(parts.last()))->0);
        }
        if all.contains(token) && !rest.contains(token) {
            let k = choose|k: int| 0 <= k < all.len() && all[k] == token;
            if k < rest.len() {
                assert(rest[k] == token);
            }
        }
        if exists|k: int|
            0 <= k < parts.len() && technical_token(token_of(#[trigger] parts[k])) == Some(
                token,
            ) {
            let k = choose|k: int|
                0 <= k < parts.len() && technical_token(token_of(#[trigger] parts[k])) == Some(
                    token,
                );
            if k < front.len() {
                assert(front[k] == parts[k]);
            }
        }
    }
}

/// The technical tokens of a text are its runs of technical characters, in lower
/// case and without punctuation at the ends, as far as two bytes or more are
/// left.
pub proof fn law_technical_tokens_are_runs_of_the_text(text: Seq<char>, token: Seq<char>)
    ensures
        technical_tokens(text).contains(token) <==> (token.len() >= 2 || (token.len() == 1
            && token[0] as int >= 0x80)) && exists|k: int|
            0 <= k < split_text(text, Separator::NonTechnical).len() && token
                == without_punctuation(
                unicode_lower(trimmed(#[trigger] split_text(text, Separator::NonTechnical)[k])),
            ),
{
    let parts = split_text(text, Separator::NonTechnical);
    lemma_technical_tokens_of(parts, token);
    if technical_tokens(text).contains(token) {
        let k = choose|k: int|
            0 <= k < parts.len() && technical_token(token_of(#[trigger] parts[k])) == Some(token);
        assert(token == without_punctuation(unicode_lower(trimmed(parts[k]))));
    }
    if takes_two_bytes(token) && exists|k: int|
        0 <= k < parts.len() && token == without_punctuation(
            unicode_lower(trimmed(#[trigger] parts[k])),
        ) {
        let k = choose|k: int|
            0 <= k < parts.len() && token == without_punctuation(
                unicode_lower(trimmed(#[trigger] parts[k])),
            );
        assert(technical_token(token_of(parts[k])) == Some(token));
    }
}

/// Which words are long.
proof fn lemma_long_words_list(words: Seq<Seq<char>>, word: Seq<char>)
    ensures
        long_words(words).contains(word) <==> words.contains(word) && word.len() >= 2,
    decreases words.len(),
{
    if words.len() > 0 {
        let front = words.drop_last();
        lemma_long_words_list(front, word);
        let rest = long_words(front);
        let all = long_words(words);
        assert(words[words.len() - 1] == words.last());
        if rest.contains(word) {
            let k = choose|k: int| 0 <= k < rest.len() && rest[k] == word;
            assert(all[k] == word);
            let m = choose|m: int| 0 <= m < front.len() && front[m] == word;
            assert(words[m] == word);
        }
        if all.len() > rest.len() {
            assert(all[all.len() - 1] == words.last());
        }
        if all.contains(word) && !rest.contains(word) {
            let k = choose|k: int| 0 <= k < all.len() && all[k] == word;
            if k < rest.len() {
                assert(rest[k] == word);
            }
        }
        if words.contains(word) && word != words.last() {
            let k = choose|k: int| 0 <= k < words.len() && words[k] == word;
            assert(front[k] == word);
        }
    }
}

/// The tokens of a text by itself are its technical tokens, and its words in
/// lower case that have two characters or more; no others.
pub proof fn law_base_tokens_are_technical_or_words(text: Seq<char>, token: Seq<char>)
    ensures
        base_tokens(text).contains(token) <==> technical_tokens(text).contains(token) || (
        token.len() >= 2 && exists|k: int|
            0 <= k < jieba_words(text).len() && token == unicode_lower(
                trimmed(#[trigger] jieba_words(text)[k]),
            )),
{
    let technical = technical_tokens(text);
    let words = tokens_of_words(jieba_words(text));
    lemma_long_words_list(words, token);
    lemma_with_all_new_contains(Seq::empty(), technical);
    lemma_with_all_new_contains(without_repeats(technical), long_words(words));
    if words.contains(token) {
        let k = choose|k: int| 0 <= k < words.len() && words[k] == token;
        assert(token == unicode_lower(trimmed(jieba_words(text)[k])));
    }
    if exists|k: int|
        0 <= k < jieba_words(text).len() && token == unicode_lower(
            trimmed(#[trigger] jieba_words(text)[k]),
        ) {
        let k = choose|k: int|
            0 <= k < jieba_words(text).len() && token == unicode_lower(
                trimmed(#[trigger] jieba_words(text)[k]),
            );
        assert(words[k] == token);
    }
}

/// The tokens of some terms are those of each term.
proof fn lemma_tokens_of_terms(terms: Seq<Seq<char>>, token: Seq<char>)
    ensures
        tokens_of_terms(terms).contains(token) <==> exists|k: int|
            0 <= k < terms.len() && base_tokens(#[trigger] terms[k]).contains(token),
    decreases terms.len(),
{
    let all = tokens_of_terms(terms);
    if terms.len() > 0 {
        let rest = terms.drop_last();
        lemma_tokens_of_terms(rest, token);
        let before = tokens_of_terms(rest);
        let last = base_tokens(terms.last());
        assert(terms[terms.len() - 1] == terms.last());
        if all.contains(token) {
            let k = choose|k: int| 0 <= k < all.len() && all[k] == token;
            if k < before.len() {
                assert(before[k] == token);
                let m = choose|m: int|
                    0 <= m < rest.len() && base_tokens(#[trigger] rest[m]).contains(token);
                assert(terms[m] == rest[m]);
            } else {
                assert(last[k - before.len()] == token);
            }
        }
        if exists|k: int|
            0 <= k < terms.len() && base_tokens(#[trigger] terms[k]).contains(token) {
            let k = choose|k: int|
                0 <= k < terms.len() && base_tokens(#[trigger] terms[k]).contains(token);
            if k < rest.len() {
                assert(rest[k] == terms[k]);
                let m = choose|m: int| 0 <= m < before.len() && before[m] == token;
                assert(all[m] == token);
            } else {
                let m = choose|m: int| 0 <= m < last.len() && last[m] == token;
                assert(all[before.len() + m] == token);
            }
        }
    }
}

/// The tokens that a matching phrase adds.
proof fn lemma_alias_additions(
    entries: Seq<(String, Vec<String>)>,
    canonical: Seq<char>,
    token: Seq<char>,
)
    ensures
        alias_additions(entries, canonical).contains(token) <==> token == canonical || exists|
            k: int,
        |
            0 <= k < terms_under(entries, canonical).len() && k < 8 && base_tokens(
                #[trigger] terms_under(entries, canonical)[k],
            ).contains(token),
{
    let terms = terms_under(entries, canonical);
    let taken = expansion_terms(terms);
    let more = tokens_of_terms(taken);
    let all = alias_additions(entries, canonical);
    lemma_tokens_of_terms(taken, token);
    assert(all[0] == canonical);
    if all.contains(token) && token != canonical {
        let k = choose|k: int| 0 <= k < all.len() && all[k] == token;
        assert(more[k - 1] == token);
        let m = choose|m: int|
            0 <= m < taken.len() && base_tokens(#[trigger] taken[m]).contains(token);
        assert(terms[m] == taken[m]);
    }
    if exists|k: int|
        0 <= k < terms.len() && k < 8 && base_tokens(#[trigger] terms[k]).contains(token) {
        let k = choose|k: int|
            0 <= k < terms.len() && k < 8 && base_tokens(#[trigger] terms[k]).contains(token);
        assert(taken[k] == terms[k]);
        let m = choose|m: int| 0 <= m < more.len() && more[m] == token;
        assert(all[m + 1] == token);
    }
}

/// The tokens that phrases expand others to.
proof fn lemma_expanded_by(
    pairs: Seq<(Seq<char>, Seq<char>)>,
    entries: Seq<(String, Vec<String>)>,
    tokens: Seq<Seq<char>>,
    lower_text: Seq<char>,
    token: Seq<char>,
)
    ensures
        tokens.is_prefix_of(expanded_by(pairs, entries, tokens, lower_text)),
        tokens.no_duplicates() ==> expanded_by(pairs, entries, tokens, lower_text).no_duplicates(),
        expanded_by(pairs, entries, tokens, lower_text).contains(token) <==> tokens.contains(token)
            || exists|k: int|
            0 <= k < pairs.len() && phrase_matches((#[trigger] pairs[k]).0, tokens, lower_text)
                && alias_additions(entries, pairs[k].1).contains(token),
    decreases pairs.len(),
{
    let all = expanded_by(pairs, entries, tokens, lower_text);
    if pairs.len() > 0 {
        let front = pairs.drop_last();
        lemma_expanded_by(front, entries, tokens, lower_text, token);
        let rest = expanded_by(front, entries, tokens, lower_text);
        let last = pairs.last();
        assert(pairs[pairs.len() - 1] == last);
        law_new_texts_are_added_once(rest, alias_additions(entries, last.1));
        if exists|k: int|
            0 <= k < pairs.len() && phrase_matches((#[trigger] pairs[k]).0, tokens, lower_text)
                && alias_additions(entries, pairs[k].1).contains(token) {
            let k = choose|k: int|
                0 <= k < pairs.len() && phrase_matches((#[trigger] pairs[k]).0, tokens, lower_text)
                    && alias_additions(entries, pairs[k].1).contains(token);
            if k < front.len() {
                assert(front[k] == pairs[k]);
            }
        }
        if rest.contains(token) && !tokens.contains(token) {
            let k = choose|k: int|
                0 <= k < front.len() && phrase_matches((#[trigger] front[k]).0, tokens, lower_text)
                    && alias_additions(entries, front[k].1).contains(token);
            assert(pairs[k] == front[k]);
        }
        assert(tokens =~= all.take(tokens.len() as int)) by {
            assert(tokens =~= rest.take(tokens.len() as int));
            assert(rest =~= all.take(rest.len() as int));
        }
    } else {
        assert(tokens =~= all.take(tokens.len() as int));
    }
}

/// The tokens of a text start with those of the text itself; and an alias that
/// occurs in the text in lower case, or is one of its tokens, adds the canonical
/// token of its group and the tokens of the group's first eight terms. Nothing
/// else is added, and nothing is there twice.
pub proof fn law_aliases_add_their_groups(
    catalog: SemanticAliasCatalog,
    text: Seq<char>,
    token: Seq<char>,
)
    ensures
        base_tokens(text).is_prefix_of(tokens_of(catalog, text)),
        tokens_of(catalog, text).no_duplicates(),
        tokens_of(catalog, text).contains(token) <==> base_tokens(text).contains(token) || exists|
            k: int,
        |
            0 <= k < catalog.phrase_to_canonical@.len() && (occurs_in(
                unicode_lower(text),
                (#[trigger] catalog.phrase_to_canonical@[k]).0@,
            ) || base_tokens(text).contains(catalog.phrase_to_canonical@[k].0@)) && (token
                == catalog.phrase_to_canonical@[k].1@ || exists|m: int|
                0 <= m < terms_under(
                    catalog.canonical_to_terms@,
                    catalog.phrase_to_canonical@[k].1@,
                ).len() && m < 8 && base_tokens(
                    #[trigger] terms_under(
                        catalog.canonical_to_terms@,
                        catalog.phrase_to_canonical@[k].1@,
                    )[m],
                ).contains(token)),
{
    let pairs = pair_texts(catalog.phrase_to_canonical@);
    let entries = catalog.canonical_to_terms@;
    let tokens = base_tokens(text);
    let lower = unicode_lower(text);
    law_base_tokens_start_with_the_technical_ones(text);
    lemma_expanded_by(pairs, entries, tokens, lower, token);
    assert forall|k: int| 0 <= k < pairs.len() implies pairs[k].0
        == (#[trigger] catalog.phrase_to_canonical@[k]).0@ && pairs[k].1
        == catalog.phrase_to_canonical@[k].1@ && (alias_additions(entries, pairs[k].1).contains(
        token,
    ) <==> token == pairs[k].1 || exists|m: int|
        0 <= m < terms_under(entries, pairs[k].1).len() && m < 8 && base_tokens(
            #[trigger] terms_under(entries, pairs[k].1)[m],
        ).contains(token)) by {
        lemma_alias_additions(entries, pairs[k].1, token);
    }
    if tokens_of(catalog, text).contains(token) && !tokens.contains(token) {
        let k = choose|k: int|
            0 <= k < pairs.len() && phrase_matches((#[trigger] pairs[k]).0, tokens, lower)
                && alias_additions(entries, pairs[k].1).contains(token);
        assert(catalog.phrase_to_canonical@[k].0@ == pairs[k].0);
    }
    if exists|k: int|
        0 <= k < catalog.phrase_to_canonical@.len() && (occurs_in(
            lower,
            (#[trigger] catalog.phrase_to_canonical@[k]).0@,
        ) || tokens.contains(catalog.phrase_to_canonical@[k].0@)) && (token
            == catalog.phrase_to_canonical@[k].1@ || exists|m: int|
            0 <= m < terms_under(entries, catalog.phrase_to_canonical@[k].1@).len() && m < 8
                && base_tokens(
                #[trigger] terms_under(entries, catalog.phrase_to_canonical@[k].1@)[m],
            ).contains(token)) {
        let k = choose|k: int|
            0 <= k < catalog.phrase_to_canonical@.len() && (occurs_in(
                lower,
                (#[trigger] catalog.phrase_to_canonical@[k]).0@,
            ) || tokens.contains(catalog.phrase_to_canonical@[k].0@)) && (token
                == catalog.phrase_to_canonical@[k].1@ || exists|m: int|
                0 <= m < terms_under(entries, catalog.phrase_to_canonical@[k].1@).len() && m < 8
                    && base_tokens(
                    #[trigger] terms_under(entries, catalog.phrase_to_canonical@[k].1@)[m],
                ).contains(token));
        assert(phrase_matches(pairs[k].0, tokens, lower));
    }
}

/// The terms under a canonical token are those of the last entry that has it.
pub proof fn law_last_entry_gives_the_terms(
    entries: Seq<(String, Vec<String>)>,
    canonical: Seq<char>,
    at: int,
)
    requires
        0 <= at < entries.len(),
        entries[at].0@ == canonical,
        forall|i: int| at < i < entries.len() ==> (#[trigger] entries[i]).0@ != canonical,
    ensures
        terms_under(entries, canonical) == texts(entries[at].1@),
    decreases entries.len(),
{
    if at < entries.len() - 1 {
        assert(entries[entries.len() - 1].0@ != canonical);
        let rest = entries.drop_last();
        assert forall|i: int| at < i < rest.len() implies (#[trigger] rest[i]).0@ != canonical by {
            assert(rest[i] == entries[i]);
        }
        law_last_entry_gives_the_terms(rest, canonical, at);
    }
}

/// The terms of a group are its canonical token and each of its terms,
/// normalised, as far as they are not empty; each once.
pub proof fn law_groups_hold_their_terms(group: SemanticAliasGroup, term: Seq<char>)
    ensures
        group_terms(group).contains(term) <==> term.len() > 0 && (normalized(
            unicode_lower(trimmed(group.canonical@)),
        ) == term || exists|k: int|
            0 <= k < group.terms@.len() && normalized((#[trigger] group.terms@[k])@) == term),
        group_terms(group).no_duplicates(),
{
    let none = Seq::<Seq<char>>::empty();
    let first = with_new_text(none, group_canonical(group));
    let terms = texts(group.terms@);
    law_normalized_texts_are_added(first, terms, term);
    law_normalization_is_idempotent(group_canonical(group));
    assert(are_unique_texts(first));
    law_unique_texts_stay_unique(first, terms);
    if first.len() > 0 {
        assert(first[0] == normalized(group_canonical(group)));
    }
    if exists|k: int| 0 <= k < terms.len() && normalized(#[trigger] terms[k]) == term {
        let k = choose|k: int| 0 <= k < terms.len() && normalized(#[trigger] terms[k]) == term;
        assert(group.terms@[k]@ == terms[k]);
    }
    if exists|k: int|
        0 <= k < group.terms@.len() && normalized((#[trigger] group.terms@[k])@) == term {
        let k = choose|k: int|
            0 <= k < group.terms@.len() && normalized((#[trigger] group.terms@[k])@) == term;
        assert(terms[k] == group.terms@[k]@);
    }
}

/// The pairs of the terms of some groups.
proof fn lemma_group_pairs(groups: Seq<SemanticAliasGroup>, g: int, k: int)
    requires
        0 <= g < groups.len(),
        0 <= k < group_terms(groups[g]).len(),
    ensures
        group_pairs(groups).contains(
            (unicode_lower(group_terms(groups[g])[k]), group_canonical(groups[g])),
        ),
    decreases groups.len(),
{
    let pair = (unicode_lower(group_terms(groups[g])[k]), group_canonical(groups[g]));
    let rest = group_pairs(groups.drop_last());
    let last = term_pairs(group_terms(groups.last()), group_canonical(groups.last()));
    let all = group_pairs(groups);
    if g < groups.len() - 1 {
        lemma_group_pairs(groups.drop_last(), g, k);
        let m = choose|m: int| 0 <= m < rest.len() && rest[m] == pair;
        assert(all[m] == pair);
    } else {
        assert(last[k] == pair);
        assert(all[rest.len() + k] == pair);
    }
}

/// Every term of every group is looked up by its lower case and leads to the
/// canonical token of its group; longer terms are looked up first; and the last
/// group of a canonical token gives its terms.
pub proof fn law_catalog_leads_terms_to_their_groups(
    catalog: SemanticAliasCatalog,
    groups: Seq<SemanticAliasGroup>,
    g: int,
    k: int,
    i: int,
    j: int,
)
    requires
        arranges(catalog, groups),
        0 <= g < groups.len(),
        0 <= k < group_terms(groups[g]).len(),
    ensures
        exists|m: int|
            0 <= m < catalog.phrase_to_canonical@.len()
                && (#[trigger] catalog.phrase_to_canonical@[m]).0@ == unicode_lower(
                group_terms(groups[g])[k],
            ) && catalog.phrase_to_canonical@[m].1@ == unicode_lower(
                trimmed(groups[g].canonical@),
            ),
        0 <= i < j < catalog.phrase_to_canonical@.len() ==> (
        catalog.phrase_to_canonical@[i].0@.len() as usize) >= (
        catalog.phrase_to_canonical@[j].0@.len() as usize),
        (forall|h: int|
            g < h < groups.len() ==> group_canonical(#[trigger] groups[h]) != group_canonical(
                groups[g],
            )) ==> terms_under(catalog.canonical_to_terms@, group_canonical(groups[g]))
            == group_terms(groups[g]),
{
    let pairs = group_pairs(groups);
    let keys = pair_lengths(pairs);
    let order = stable_order(keys);
    let sorted = pair_texts(catalog.phrase_to_canonical@);
    let pair = (unicode_lower(group_terms(groups[g])[k]), group_canonical(groups[g]));
    lemma_group_pairs(groups, g, k);
    law_stable_order_sorts(keys);
    let p = choose|p: int| 0 <= p < pairs.len() && pairs[p] == pair;
    assert(order.contains(p));
    let m = choose|m: int| 0 <= m < order.len() && order[m] == p;
    assert(sorted.len() == order.len());
    assert(sorted.len() == catalog.phrase_to_canonical@.len());
    assert(sorted[m] == pair);
    assert(catalog.phrase_to_canonical@[m].0@ == sorted[m].0);
    assert(catalog.phrase_to_canonical@[m].1@ == sorted[m].1);
    if 0 <= i < j < catalog.phrase_to_canonical@.len() {
        assert(sorted[i] == pairs[order[i]] && sorted[j] == pairs[order[j]]);
        assert(order.contains(order[i]) && order.contains(order[j]));
        assert(!keys[order[j]].precedes(keys[order[i]]));
        assert(catalog.phrase_to_canonical@[i].0@ == sorted[i].0);
        assert(catalog.phrase_to_canonical@[j].0@ == sorted[j].0);
    }
    if forall|h: int|
        g < h < groups.len() ==> group_canonical(#[trigger] groups[h]) != group_canonical(
            groups[g],
        ) {
        lemma_last_group(groups, g);
        assert(terms_under(catalog.canonical_to_terms@, group_canonical(groups[g]))
            == terms_in_groups(groups, group_canonical(groups[g])));
    }
}

/// The last group of a canonical token gives its terms.
proof fn lemma_last_group(groups: Seq<SemanticAliasGroup>, g: int)
    requires
        0 <= g < groups.len(),
        forall|h: int|
            g < h < groups.len() ==> group_canonical(#[trigger] groups[h]) != group_canonical(
                groups[g],
            ),
    ensures
        terms_in_groups(groups, group_canonical(groups[g])) == group_terms(groups[g]),
    decreases groups.len(),
{
    if g < groups.len() - 1 {
        assert(group_canonical(groups[groups.len() - 1]) != group_canonical(groups[g]));
        let rest = groups.drop_last();
        assert forall|h: int| g < h < rest.len() implies group_canonical(#[trigger] rest[h])
            != group_canonical(rest[g]) by {
            assert(rest[h] == groups[h]);
        }
        lemma_last_group(rest, g);
    }
}

} // verus!
