//! Queries: their tokens, the search that they ask of the database, and how
//! many candidates it reads.

use vstd::prelude::*;

use crate::config::SemanticSearchConfig;
use crate::package::{
    default_discoverable_resource_type_names, law_default_types_are_consumable,
    law_type_names_are_different, resource_type_name, ResourceDiscoveryQuery, ResourceType,
};
use crate::text::{
    ascii_lower, chars_of, contains_white_space, copy_texts, extend_texts, has_white_space,
    is_white_space, law_parts_make_the_text, law_text_starts_and_ends_with_its_parts,
    lemma_texts_push, optional_text, same_text_ignoring_ascii_case, starts_with, text_starts_with,
    texts, to_ascii_lower, trim_text, trimmed,
};
use crate::tokens::{semantic_tokens, tokens_of, Lexicon, SemanticAliasCatalog};
use crate::words::{
    join_texts, joined, law_first_occurrences_are_kept, law_new_texts_are_added_once, push_all_new,
    with_all_new, without_repeats,
};

verus! {

/// The text of a query; empty where it has none.
pub open spec fn query_text(query: ResourceDiscoveryQuery) -> Seq<char> {
    match query.query {
        Some(text) => text@,
        None => Seq::empty(),
    }
}

/// The text of a query without white space at its ends, where that is not
/// empty.
pub open spec fn stated_text(query: ResourceDiscoveryQuery) -> Option<Seq<char>> {
    if trimmed(query_text(query)).len() > 0 {
        Some(trimmed(query_text(query)))
    } else {
        None
    }
}

/// The DID that a query asks for, where its text is one.
pub open spec fn asked_did(query: ResourceDiscoveryQuery) -> Option<Seq<char>> {
    match query.query {
        Some(text) => if starts_with(trimmed(text@), "did:oan:"@) && !has_white_space(
            trimmed(text@),
        ) {
            Some(trimmed(text@))
        } else {
            None
        },
        None => None,
    }
}

/// The DID that a query asks for, where its text is one.
pub fn query_resource_did(query: &ResourceDiscoveryQuery) -> (did: Option<String>)
    ensures
        optional_text(did) == asked_did(*query),
{
    match &query.query {
        Some(text) => {
            let value = trim_text(text);
            if text_starts_with(&value, "did:oan:") && !contains_white_space(&value) {
                Some(value)
            } else {
                None
            }
        },
        None => None,
    }
}

/// The text of a query; empty where it has none.
fn text_of_query(query: &ResourceDiscoveryQuery) -> (text: String)
    ensures
        text@ == query_text(*query),
{
    match &query.query {
        Some(text) => text.clone(),
        None => String::new(),
    }
}

/// The text of a query without white space at its ends, where that is not
/// empty.
fn stated_text_of(query: &ResourceDiscoveryQuery) -> (text: Option<String>)
    ensures
        optional_text(text) == stated_text(*query),
{
    let text = trim_text(&text_of_query(query));
    if text.as_str().is_empty() {
        None
    } else {
        Some(text)
    }
}

/// Each of `values` in lower case.
pub open spec fn all_ascii_lower(values: Seq<Seq<char>>) -> Seq<Seq<char>> {
    values.map_values(|value: Seq<char>| ascii_lower(value))
}

/// The terms that a query states besides its text: its type, its protocol and
/// its tags, in lower case.
pub open spec fn explicit_terms(query: ResourceDiscoveryQuery) -> Seq<Seq<char>> {
    let of_type = match query.resource_type {
        Some(resource_type) => seq![resource_type_name(resource_type)],
        None => Seq::empty(),
    };
    let of_protocol = match query.protocol {
        Some(protocol) => seq![ascii_lower(protocol@)],
        None => Seq::empty(),
    };
    of_type + of_protocol + all_ascii_lower(texts(query.capability_tags@))
}

/// The tokens of those terms, one term after the other.
pub open spec fn tokens_of_all(
    catalog: SemanticAliasCatalog,
    terms: Seq<Seq<char>>,
) -> Seq<Seq<char>>
    decreases terms.len(),
{
    if terms.len() == 0 {
        Seq::empty()
    } else {
        tokens_of_all(catalog, terms.drop_last()) + tokens_of(catalog, terms.last())
    }
}

/// The tokens of a query: those of its text, then the new ones of its explicit
/// terms.
pub open spec fn query_tokens(
    catalog: SemanticAliasCatalog,
    query: ResourceDiscoveryQuery,
) -> Seq<Seq<char>> {
    with_all_new(
        tokens_of(catalog, trimmed(query_text(query))),
        tokens_of_all(catalog, explicit_terms(query)),
    )
}

/// The terms that a query states besides its text.
fn explicit_terms_of(query: &ResourceDiscoveryQuery) -> (terms: Vec<String>)
    ensures
        texts(terms@) == explicit_terms(*query),
{
    let mut terms: Vec<String> = Vec::new();
    if let Some(resource_type) = &query.resource_type {
        terms.push(resource_type.as_str().to_owned());
    }
    if let Some(protocol) = &query.protocol {
        terms.push(to_ascii_lower(protocol));
    }
    let ghost stated = texts(terms@);
    let mut lower: Vec<String> = Vec::new();
    let mut i: usize = 0;
    while i < query.capability_tags.len()
        invariant
            i <= query.capability_tags@.len(),
            texts(lower@) =~= all_ascii_lower(texts(query.capability_tags@)).take(i as int),
        decreases query.capability_tags@.len() - i,
    {
        broadcast use lemma_texts_push;

        lower.push(to_ascii_lower(&query.capability_tags[i]));
        i = i + 1;
        assert(all_ascii_lower(texts(query.capability_tags@)).take(i as int) =~= all_ascii_lower(
            texts(query.capability_tags@),
        ).take(i as int - 1).push(ascii_lower(query.capability_tags@[i as int - 1]@)));
    }
    assert(texts(lower@) =~= all_ascii_lower(texts(query.capability_tags@)));
    extend_texts(&mut terms, &lower);
    assert(texts(terms@) =~= explicit_terms(*query));
    terms
}

/// The tokens of those terms, one term after the other.
fn tokens_of_each(lexicon: &Lexicon, terms: &Vec<String>) -> (tokens: Vec<String>)
    ensures
        texts(tokens@) == tokens_of_all(lexicon.catalog, texts(terms@)),
{
    let mut tokens: Vec<String> = Vec::new();
    let mut i: usize = 0;
    assert(texts(tokens@) =~= tokens_of_all(lexicon.catalog, texts(terms@).take(0)));
    while i < terms.len()
        invariant
            i <= terms@.len(),
            texts(tokens@) == tokens_of_all(lexicon.catalog, texts(terms@).take(i as int)),
        decreases terms@.len() - i,
    {
        assert(texts(terms@).take(i as int + 1).drop_last() =~= texts(terms@).take(i as int));
        extend_texts(&mut tokens, &semantic_tokens(lexicon, &terms[i]));
        i = i + 1;
    }
    assert(texts(terms@).take(i as int) =~= texts(terms@));
    tokens
}

/// What a query is compared with documents by.
#[derive(Debug)]
pub struct SemanticQueryProjection {
    pub expanded_tokens: Vec<String>,
}

/// What a query is compared with documents by: its tokens.
pub fn semantic_query_projection(lexicon: &Lexicon, query: &ResourceDiscoveryQuery) -> (projection:
    SemanticQueryProjection)
    ensures
        texts(projection.expanded_tokens@) == query_tokens(lexicon.catalog, *query),
{
    let raw_text = trim_text(&text_of_query(query));
    let mut expanded_tokens = semantic_tokens(lexicon, &raw_text);
    let terms = explicit_terms_of(query);
    push_all_new(&mut expanded_tokens, &tokens_of_each(lexicon, &terms));
    SemanticQueryProjection { expanded_tokens }
}

/// The texts whose tokens rank by tags: the type, the protocol, the tags, and
/// the text where it is not blank.
pub open spec fn tag_terms(query: ResourceDiscoveryQuery) -> Seq<Seq<char>> {
    let of_type = match query.resource_type {
        Some(resource_type) => seq![resource_type_name(resource_type)],
        None => Seq::empty(),
    };
    let of_protocol = match query.protocol {
        Some(protocol) => seq![protocol@],
        None => Seq::empty(),
    };
    let of_text = if trimmed(query_text(query)).len() > 0 {
        seq![query_text(query)]
    } else {
        Seq::empty()
    };
    of_type + of_protocol + texts(query.capability_tags@) + of_text
}

/// The tokens that rank by tags, each once.
pub open spec fn query_tag_tokens(
    catalog: SemanticAliasCatalog,
    query: ResourceDiscoveryQuery,
) -> Seq<Seq<char>> {
    without_repeats(tokens_of_all(catalog, tag_terms(query)))
}

/// The tokens that rank by tags, each once.
pub fn semantic_query_tag_tokens(lexicon: &Lexicon, query: &ResourceDiscoveryQuery) -> (tokens: Vec<
    String,
>)
    ensures
        texts(tokens@) == query_tag_tokens(lexicon.catalog, *query),
{
    broadcast use lemma_texts_push;

    let mut terms: Vec<String> = Vec::new();
    assert(texts(terms@) =~= Seq::empty());
    if let Some(resource_type) = &query.resource_type {
        terms.push(resource_type.as_str().to_owned());
    }
    if let Some(protocol) = &query.protocol {
        terms.push(protocol.clone());
    }
    extend_texts(&mut terms, &query.capability_tags);
    let text = text_of_query(query);
    let ghost before = texts(terms@);
    if !trim_text(&text).as_str().is_empty() {
        terms.push(text);
        assert(texts(terms@) =~= before + seq![query_text(*query)]);
    } else {
        assert(before =~= before + Seq::<Seq<char>>::empty());
    }
    assert(texts(terms@) =~= tag_terms(*query));
    let mut tokens: Vec<String> = Vec::new();
    assert(texts(tokens@) =~= Seq::empty());
    push_all_new(&mut tokens, &tokens_of_each(lexicon, &terms));
    tokens
}

/// Whether `ch` is a unified ideograph of the basic block.
pub open spec fn is_ideograph(ch: char) -> bool {
    '\u{4e00}' <= ch <= '\u{9fff}'
}

/// Whether some character of `text` is an ideograph.
pub open spec fn has_ideograph(text: Seq<char>) -> bool {
    exists|i: int| 0 <= i < text.len() && is_ideograph(#[trigger] text[i])
}

/// Whether some character of `text` is an ideograph.
pub fn text_has_cjk(text: &str) -> (found: bool)
    ensures
        found == has_ideograph(text@),
{
    let chars = chars_of(text);
    let mut i: usize = 0;
    while i < chars.len()
        invariant
            i <= chars@.len(),
            chars@ == text@,
            forall|j: int| 0 <= j < i ==> !is_ideograph(#[trigger] text@[j]),
        decreases chars@.len() - i,
    {
        if '\u{4e00}' <= chars[i] && chars[i] <= '\u{9fff}' {
            assert(is_ideograph(text@[i as int]));
            return true;
        }
        i = i + 1;
    }
    false
}

/// Whether the database can search for the text of a query: there is one, and
/// it is split into words by blanks.
pub open spec fn text_is_searchable(query: ResourceDiscoveryQuery) -> bool {
    match stated_text(query) {
        Some(text) => !has_ideograph(text),
        None => false,
    }
}

/// Whether the database can search for the text of a query.
pub fn should_use_sql_text_prefilter(query: &ResourceDiscoveryQuery) -> (usable: bool)
    ensures
        usable == text_is_searchable(*query),
{
    match stated_text_of(query) {
        Some(text) => !text_has_cjk(&text),
        None => false,
    }
}

/// The larger of two numbers.
pub open spec fn larger(a: int, b: int) -> int {
    if a < b {
        b
    } else {
        a
    }
}

/// The smaller of two numbers.
pub open spec fn smaller(a: int, b: int) -> int {
    if a < b {
        a
    } else {
        b
    }
}

/// How many candidates the vector search reads for a query of that limit: the
/// limit times the multiplier, twenty-five at least, the configured maximum at
/// most, and never fewer than the limit.
pub open spec fn vector_limit(limit: int, multiplier: int, maximum: int) -> int {
    let requested = larger(limit, 1);
    let expanded = smaller(requested * larger(multiplier, 1), u32::MAX as int);
    larger(smaller(larger(expanded, 25), larger(maximum, requested)), requested)
}

/// How many candidates the vector search reads for a query of that limit.
pub fn semantic_candidate_limit(query_limit: u32, config: &SemanticSearchConfig) -> (limit: i64)
    ensures
        limit == vector_limit(
            query_limit as int,
            config.candidate_multiplier as int,
            config.max_candidates as int,
        ),
{
    let requested: u32 = if query_limit < 1 {
        1
    } else {
        query_limit
    };
    let multiplier: u32 = if config.candidate_multiplier < 1 {
        1
    } else {
        config.candidate_multiplier
    };
    assert(0 <= requested * multiplier <= 0xffff_ffff * 0xffff_ffff) by (nonlinear_arith)
        requires
            0 <= requested <= 0xffff_ffff,
            0 <= multiplier <= 0xffff_ffff,
    ;
    let product: u64 = requested as u64 * multiplier as u64;
    let expanded: u32 = if product > 0xffff_ffff {
        0xffff_ffff
    } else {
        product as u32
    };
    let raised: u32 = if expanded < 25 {
        25
    } else {
        expanded
    };
    let cap: u32 = if config.max_candidates < requested {
        requested
    } else {
        config.max_candidates
    };
    let capped: u32 = if raised < cap {
        raised
    } else {
        cap
    };
    if capped < requested {
        requested as i64
    } else {
        capped as i64
    }
}

/// How many candidates the database reads for a query of that limit: `factor`
/// times the limit, within bounds, and never fewer than the limit.
pub open spec fn database_limit(limit: int, factor: int, least: int) -> int {
    let requested = larger(limit, 1);
    larger(smaller(larger(requested * factor, least), 5_000), requested)
}

/// How many candidates the database reads for a query whose text it searches.
pub fn discovery_sql_candidate_limit(query_limit: u32) -> (limit: i64)
    ensures
        limit == database_limit(query_limit as int, 3, 25),
{
    bounded_limit(query_limit, 3, 25)
}

/// `factor` times the limit, within bounds, and never fewer than the limit.
fn bounded_limit(query_limit: u32, factor: i64, least: i64) -> (limit: i64)
    requires
        1 <= factor <= 50,
        0 <= least <= 5_000,
    ensures
        limit == database_limit(query_limit as int, factor as int, least as int),
{
    let requested: i64 = if query_limit < 1 {
        1
    } else {
        query_limit as i64
    };
    assert(requested * factor <= 0xffff_ffff * 50) by (nonlinear_arith)
        requires
            0 <= requested <= 0xffff_ffff,
            1 <= factor <= 50,
    ;
    assert(requested * factor >= 0) by (nonlinear_arith)
        requires
            0 <= requested,
            1 <= factor,
    ;
    let product: i64 = requested * factor;
    let clamped: i64 = if product < least {
        least
    } else if product > 5_000 {
        5_000
    } else {
        product
    };
    if clamped < requested {
        requested
    } else {
        clamped
    }
}

/// How many candidates the database reads for a query: more where it does not
/// search for the text.
pub fn discovery_sql_candidate_limit_for_query(query: &ResourceDiscoveryQuery) -> (limit: i64)
    ensures
        limit == if text_is_searchable(*query) {
            database_limit(query.limit as int, 3, 25)
        } else {
            database_limit(query.limit as int, 50, 200)
        },
{
    if should_use_sql_text_prefilter(query) {
        discovery_sql_candidate_limit(query.limit)
    } else {
        bounded_limit(query.limit, 50, 200)
    }
}

/// Every search reads at least as many candidates as a query asks for, and one
/// at least.
pub proof fn law_limits_cover_the_request(limit: int, multiplier: int, maximum: int)
    requires
        0 <= limit <= u32::MAX,
        0 <= multiplier <= u32::MAX,
        0 <= maximum <= u32::MAX,
    ensures
        vector_limit(limit, multiplier, maximum) >= larger(limit, 1),
        database_limit(limit, 3, 25) >= larger(limit, 1),
        database_limit(limit, 50, 200) >= larger(limit, 1),
{
}

/// How the database orders the candidates.
#[derive(Debug)]
pub enum KeywordOrder {
    /// By how well the tag text, then the search text, match these words.
    ByTagsAndText(String),
    /// By how well the search text matches these words.
    ByText(String),
    /// The latest update first.
    ByUpdate,
}

/// The words and the way of an order.
pub open spec fn order_words(order: KeywordOrder) -> (bool, Option<Seq<char>>) {
    match order {
        KeywordOrder::ByTagsAndText(words) => (true, Some(words@)),
        KeywordOrder::ByText(words) => (false, Some(words@)),
        KeywordOrder::ByUpdate => (false, None),
    }
}

/// The order that a query with those tag tokens asks for.
pub open spec fn keyword_order(
    tag_tokens: Seq<Seq<char>>,
    query: ResourceDiscoveryQuery,
) -> (bool, Option<Seq<char>>) {
    if tag_tokens.len() > 0 {
        (
            true,
            Some(
                match stated_text(query) {
                    Some(text) => ascii_lower(text),
                    None => joined(tag_tokens, " "@),
                },
            ),
        )
    } else if text_is_searchable(query) {
        (false, Some(ascii_lower(query_text(query))))
    } else {
        (false, None)
    }
}

/// The order that a query with those tag tokens asks for.
pub fn keyword_order_of(tag_tokens: &Vec<String>, query: &ResourceDiscoveryQuery) -> (order:
    KeywordOrder)
    ensures
        order_words(order) == keyword_order(texts(tag_tokens@), *query),
{
    assert(tag_tokens@.len() == texts(tag_tokens@).len());
    if tag_tokens.len() > 0 {
        KeywordOrder::ByTagsAndText(
            match stated_text_of(query) {
                Some(text) => to_ascii_lower(&text),
                None => join_texts(tag_tokens, " "),
            },
        )
    } else if should_use_sql_text_prefilter(query) {
        KeywordOrder::ByText(to_ascii_lower(&text_of_query(query)))
    } else {
        KeywordOrder::ByUpdate
    }
}

/// What the database is asked for a query.
#[derive(Debug)]
pub struct KeywordSearchPlan {
    /// The types that are searched.
    pub resource_types: Vec<String>,
    pub version: Option<String>,
    /// The tags that a package must have, all of them.
    pub capability_tags: Vec<String>,
    /// The protocol that a package must speak, in lower case.
    pub protocol: Option<String>,
    /// The words that the tag text or the search text must match.
    pub match_text: Option<String>,
    pub order: KeywordOrder,
    pub limit: i64,
}

/// The names of the types that a query searches.
pub open spec fn searched_type_names(query: ResourceDiscoveryQuery) -> Seq<Seq<char>> {
    match query.resource_type {
        Some(resource_type) => seq![resource_type_name(resource_type)],
        None => seq!["agent_service"@, "skill"@, "mcp_server"@, "tool_api"@],
    }
}

/// The names of the types that a query searches.
pub fn searched_resource_type_names(query: &ResourceDiscoveryQuery) -> (names: Vec<String>)
    ensures
        texts(names@) == searched_type_names(*query),
{
    match &query.resource_type {
        Some(resource_type) => {
            let mut names: Vec<String> = Vec::new();
            names.push(resource_type.as_str().to_owned());
            assert(texts(names@) =~= searched_type_names(*query));
            names
        },
        None => default_discoverable_resource_type_names(),
    }
}

/// An optional text in lower case.
pub open spec fn optional_ascii_lower(value: Option<Seq<char>>) -> Option<Seq<char>> {
    match value {
        Some(text) => Some(ascii_lower(text)),
        None => None,
    }
}

/// What the database is asked for a query.
pub fn keyword_search_plan(lexicon: &Lexicon, query: &ResourceDiscoveryQuery) -> (plan:
    KeywordSearchPlan)
    ensures
        texts(plan.resource_types@) == searched_type_names(*query),
        optional_text(plan.version) == optional_text(query.version),
        texts(plan.capability_tags@) == texts(query.capability_tags@),
        optional_text(plan.protocol) == optional_ascii_lower(optional_text(query.protocol)),
        optional_text(plan.match_text) == optional_ascii_lower(stated_text(*query)),
        order_words(plan.order) == keyword_order(
            query_tag_tokens(lexicon.catalog, *query),
            *query,
        ),
        plan.limit == if text_is_searchable(*query) {
            database_limit(query.limit as int, 3, 25)
        } else {
            database_limit(query.limit as int, 50, 200)
        },
{
    let tag_tokens = semantic_query_tag_tokens(lexicon, query);
    KeywordSearchPlan {
        resource_types: searched_resource_type_names(query),
        version: query.version.clone(),
        capability_tags: copy_texts(&query.capability_tags),
        protocol: match &query.protocol {
            Some(protocol) => Some(to_ascii_lower(protocol)),
            None => None,
        },
        match_text: match stated_text_of(query) {
            Some(text) => Some(to_ascii_lower(&text)),
            None => None,
        },
        order: keyword_order_of(&tag_tokens, query),
        limit: discovery_sql_candidate_limit_for_query(query),
    }
}

/// What the vector search is asked for a query.
#[derive(Debug)]
pub struct VectorSearchPlan {
    /// The text that is embedded.
    pub text: String,
    pub resource_types: Vec<String>,
    pub version: Option<String>,
    /// The tags that a package must have, where tags filter.
    pub capability_tags: Vec<String>,
    /// The protocol that a package must speak, in lower case, where it filters.
    pub protocol: Option<String>,
    pub limit: i64,
}

/// Whether a part of a query filters.
pub open spec fn is_hard(filter: Seq<char>) -> bool {
    ascii_lower(filter) == ascii_lower("hard"@)
}

/// What the vector search is asked for a query; nothing where semantic search
/// cannot be used or the query has no text.
pub fn vector_search_plan(
    available: bool,
    query: &ResourceDiscoveryQuery,
    config: &SemanticSearchConfig,
) -> (plan: Option<VectorSearchPlan>)
    ensures
        plan is Some <==> available && stated_text(*query) is Some,
        plan matches Some(found) ==> {
            &&& Some(found.text@) == stated_text(*query)
            &&& texts(found.resource_types@) == searched_type_names(*query)
            &&& optional_text(found.version) == optional_text(query.version)
            &&& texts(found.capability_tags@) == if is_hard(config.filters.capability_tags@) {
                texts(query.capability_tags@)
            } else {
                Seq::empty()
            }
            &&& optional_text(found.protocol) == if is_hard(config.filters.protocol@) {
                optional_ascii_lower(optional_text(query.protocol))
            } else {
                None
            }
            &&& found.limit == vector_limit(
                query.limit as int,
                config.candidate_multiplier as int,
                config.max_candidates as int,
            )
        },
{
    if !available {
        return None;
    }
    match stated_text_of(query) {
        None => None,
        Some(text) => {
            let capability_tags = if same_text_ignoring_ascii_case(
                &config.filters.capability_tags,
                "hard",
            ) {
                copy_texts(&query.capability_tags)
            } else {
                let none: Vec<String> = Vec::new();
                assert(texts(none@) =~= Seq::empty());
                none
            };
            let protocol = if same_text_ignoring_ascii_case(&config.filters.protocol, "hard") {
                match &query.protocol {
                    Some(protocol) => Some(to_ascii_lower(protocol)),
                    None => None,
                }
            } else {
                None
            };
            Some(
                VectorSearchPlan {
                    text,
                    resource_types: searched_resource_type_names(query),
                    version: query.version.clone(),
                    capability_tags,
                    protocol,
                    limit: semantic_candidate_limit(query.limit, config),
                },
            )
        },
    }
}

/// The tokens of some terms are those of each term.
proof fn lemma_tokens_of_all(
    catalog: SemanticAliasCatalog,
    terms: Seq<Seq<char>>,
    token: Seq<char>,
)
    ensures
        tokens_of_all(catalog, terms).contains(token) <==> exists|k: int|
            0 <= k < terms.len() && tokens_of(catalog, #[trigger] terms[k]).contains(token),
    decreases terms.len(),
{
    let all = tokens_of_all(catalog, terms);
    if terms.len() > 0 {
        let rest = terms.drop_last();
        lemma_tokens_of_all(catalog, rest, token);
        let before = tokens_of_all(catalog, rest);
        let last = tokens_of(catalog, terms.last());
        assert(terms[terms.len() - 1] == terms.last());
        if all.contains(token) {
            let k = choose|k: int| 0 <= k < all.len() && all[k] == token;
            if k < before.len() {
                assert(before[k] == token);
                let m = choose|m: int|
                    0 <= m < rest.len() && tokens_of(catalog, #[trigger] rest[m]).contains(token);
                assert(terms[m] == rest[m]);
            } else {
                assert(last[k - before.len()] == token);
            }
        }
        if exists|k: int|
            0 <= k < terms.len() && tokens_of(catalog, #[trigger] terms[k]).contains(token) {
            let k = choose|k: int|
                0 <= k < terms.len() && tokens_of(catalog, #[trigger] terms[k]).contains(token);
            if k < rest.len() {
                assert(rest[k] == terms[k]);
                let m = choose|m: int| 0 <= m < before.len() && before[m] == token;
                assert(all[m] == token);
            } else {
                let m = choose|m: int| 0 <= m < last.len() && last[m] == token;
                assert(all[before.len() + m] == token);
            }
        }
    }
}

/// A query is compared by every token of its text, whatever its filters, and
/// by every token of its type, its protocol and each of its tags; by no other;
/// by each once; and those of the text come first.
pub proof fn law_query_tokens_are_those_of_text_and_filters(
    catalog: SemanticAliasCatalog,
    query: ResourceDiscoveryQuery,
    token: Seq<char>,
)
    ensures
        query.query matches Some(text) ==> tokens_of(catalog, trimmed(text@)).is_prefix_of(
            query_tokens(catalog, query),
        ),
        query.query matches Some(text) && tokens_of(catalog, trimmed(text@)).contains(token)
            ==> query_tokens(catalog, query).contains(token),
        query.resource_type matches Some(resource_type) && tokens_of(
            catalog,
            resource_type_name(resource_type),
        ).contains(token) ==> query_tokens(catalog, query).contains(token),
        query.protocol matches Some(protocol) && tokens_of(
            catalog,
            ascii_lower(protocol@),
        ).contains(token) ==> query_tokens(catalog, query).contains(token),
        forall|k: int|
            0 <= k < query.capability_tags@.len() && tokens_of(
                catalog,
                ascii_lower((#[trigger] query.capability_tags@[k])@),
            ).contains(token) ==> query_tokens(catalog, query).contains(token),
        query_tokens(catalog, query).contains(token) ==> {
            ||| query.query matches Some(text) && tokens_of(catalog, trimmed(text@)).contains(token)
            ||| query.query is None && tokens_of(catalog, trimmed(Seq::empty())).contains(token)
            ||| query.resource_type matches Some(resource_type) && tokens_of(
                catalog,
                resource_type_name(resource_type),
            ).contains(token)
            ||| query.protocol matches Some(protocol) && tokens_of(
                catalog,
                ascii_lower(protocol@),
            ).contains(token)
            ||| exists|k: int|
                0 <= k < query.capability_tags@.len() && tokens_of(
                    catalog,
                    ascii_lower((#[trigger] query.capability_tags@[k])@),
                ).contains(token)
        },
{
    let of_text = tokens_of(catalog, trimmed(query_text(query)));
    let terms = explicit_terms(query);
    law_new_texts_are_added_once(of_text, tokens_of_all(catalog, terms));
    lemma_tokens_of_all(catalog, terms, token);
    let types: int = if query.resource_type is Some {
        1
    } else {
        0
    };
    let protocols: int = if query.protocol is Some {
        1
    } else {
        0
    };
    if query.resource_type is Some {
        assert(terms[0] == resource_type_name(query.resource_type->0));
    }
    if query.protocol is Some {
        assert(terms[types] == ascii_lower(query.protocol->0@));
    }
    assert forall|k: int| 0 <= k < query.capability_tags@.len() implies terms[types + protocols + k]
        == ascii_lower((#[trigger] query.capability_tags@[k])@) by {}
    assert forall|k: int|
        0 <= k < query.capability_tags@.len() && tokens_of(
            catalog,
            ascii_lower((#[trigger] query.capability_tags@[k])@),
        ).contains(token) implies query_tokens(catalog, query).contains(token) by {
        assert(tokens_of(catalog, terms[types + protocols + k]).contains(token));
    }
    if query_tokens(catalog, query).contains(token) && !of_text.contains(token) {
        let k = choose|k: int|
            0 <= k < terms.len() && tokens_of(catalog, #[trigger] terms[k]).contains(token);
        if k >= types + protocols {
            let tag = query.capability_tags@[k - types - protocols];
            assert(terms[k] == ascii_lower(tag@));
        }
    }
}

/// The tokens that rank by tags are those of the type, the protocol, each tag
/// and the text of a query, each once.
pub proof fn law_tag_tokens_are_those_of_filters_and_text(
    catalog: SemanticAliasCatalog,
    query: ResourceDiscoveryQuery,
    token: Seq<char>,
)
    ensures
        query_tag_tokens(catalog, query).no_duplicates(),
        query_tag_tokens(catalog, query).contains(token) <==> {
            ||| query.query matches Some(text) && trimmed(text@).len() > 0 && tokens_of(
                catalog,
                text@,
            ).contains(token)
            ||| query.resource_type matches Some(resource_type) && tokens_of(
                catalog,
                resource_type_name(resource_type),
            ).contains(token)
            ||| query.protocol matches Some(protocol) && tokens_of(catalog, protocol@).contains(
                token,
            )
            ||| exists|k: int|
                0 <= k < query.capability_tags@.len() && tokens_of(
                    catalog,
                    (#[trigger] query.capability_tags@[k])@,
                ).contains(token)
        },
{
    let terms = tag_terms(query);
    law_first_occurrences_are_kept(tokens_of_all(catalog, terms), Seq::empty());
    lemma_tokens_of_all(catalog, terms, token);
    let types: int = if query.resource_type is Some {
        1
    } else {
        0
    };
    let protocols: int = if query.protocol is Some {
        1
    } else {
        0
    };
    let count = query.capability_tags@.len() as int;
    if query.resource_type is Some {
        assert(terms[0] == resource_type_name(query.resource_type->0));
    }
    if query.protocol is Some {
        assert(terms[types] == query.protocol->0@);
    }
    if trimmed(query_text(query)).len() > 0 {
        assert(terms[types + protocols + count] == query_text(query));
        if query.query is None {
            assert(trimmed(Seq::<char>::empty()).len() == 0);
        }
    }
    assert forall|k: int| 0 <= k < count implies terms[types + protocols + k]
        == (#[trigger] query.capability_tags@[k])@ by {}
    if exists|k: int|
        0 <= k < count && tokens_of(catalog, (#[trigger] query.capability_tags@[k])@).contains(
            token,
        ) {
        let k = choose|k: int|
            0 <= k < count && tokens_of(catalog, (#[trigger] query.capability_tags@[k])@).contains(
                token,
            );
        assert(tokens_of(catalog, terms[types + protocols + k]).contains(token));
    }
    if query_tag_tokens(catalog, query).contains(token) {
        let k = choose|k: int|
            0 <= k < terms.len() && tokens_of(catalog, #[trigger] terms[k]).contains(token);
        if types + protocols <= k < types + protocols + count {
            assert(terms[k] == query.capability_tags@[k - types - protocols]@);
        }
    }
}

/// A query asks for one resource just where its text, without white space at
/// the ends, is a DID of the network: it starts so and holds no white space.
pub proof fn law_texts_that_are_dids_ask_for_them(query: ResourceDiscoveryQuery, text: String)
    requires
        query.query == Some(text),
    ensures
        asked_did(query) matches Some(did) ==> did == trimmed(text@) && (exists|rest: Seq<char>|
            did == #[trigger] ("did:oan:"@ + rest)) && (forall|i: int|
            0 <= i < did.len() ==> !is_white_space(#[trigger] did[i])),
        forall|rest: Seq<char>|
            trimmed(text@) == #[trigger] ("did:oan:"@ + rest) && (forall|i: int|
                0 <= i < rest.len() ==> !is_white_space(#[trigger] rest[i])) ==> asked_did(query)
                == Some(trimmed(text@)),
{
    law_parts_make_the_text(trimmed(text@), "did:oan:"@);
    if let Some(did) = asked_did(query) {
        assert forall|i: int| 0 <= i < did.len() implies !is_white_space(#[trigger] did[i]) by {}
    }
    assert forall|rest: Seq<char>|
        trimmed(text@) == #[trigger] ("did:oan:"@ + rest) && (forall|i: int|
            0 <= i < rest.len() ==> !is_white_space(#[trigger] rest[i])) implies asked_did(query)
        == Some(trimmed(text@)) by {
        law_text_starts_and_ends_with_its_parts("did:oan:"@, rest);
        let did = trimmed(text@);
        reveal_strlit("did:oan:");
        assert forall|i: int| 0 <= i < did.len() implies !is_white_space(#[trigger] did[i]) by {
            if i >= 8 {
                assert(did[i] == rest[i - 8]);
            }
        }
    }
}

/// A query without text asks for no resource, states no text, and is not
/// searched for in the database.
pub proof fn law_queries_without_text(query: ResourceDiscoveryQuery)
    requires
        query.query is None,
    ensures
        asked_did(query) is None,
        stated_text(query) is None,
        !text_is_searchable(query),
{
    assert(trimmed(Seq::<char>::empty()).len() == 0);
}

/// A query states its text without white space at the ends, unless it is blank;
/// the database can search for it where it holds no ideograph.
pub proof fn law_stated_texts_are_trimmed(query: ResourceDiscoveryQuery, text: String)
    requires
        query.query == Some(text),
    ensures
        trimmed(text@).len() > 0 ==> stated_text(query) == Some(trimmed(text@)),
        trimmed(text@).len() == 0 ==> stated_text(query) is None,
        text_is_searchable(query) <==> trimmed(text@).len() > 0 && forall|i: int|
            0 <= i < trimmed(text@).len() ==> !('\u{4e00}' <= #[trigger] trimmed(text@)[i]
                <= '\u{9fff}'),
{
    let inner = trimmed(text@);
    if has_ideograph(inner) {
        let i = choose|i: int| 0 <= i < inner.len() && is_ideograph(#[trigger] inner[i]);
        assert('\u{4e00}' <= inner[i] <= '\u{9fff}');
    }
}

/// How many candidates a search reads: the limit times a factor where that lies
/// between the least and the most, the least or the most where it does not, and
/// always as many as are asked for.
pub proof fn law_candidates_are_a_multiple_within_bounds(
    limit: int,
    multiplier: int,
    maximum: int,
)
    requires
        1 <= limit <= u32::MAX,
        1 <= multiplier <= u32::MAX,
        0 <= maximum <= u32::MAX,
    ensures
        25 <= limit * multiplier <= maximum && limit <= maximum ==> vector_limit(
            limit,
            multiplier,
            maximum,
        ) == limit * multiplier,
        limit * multiplier < 25 <= maximum ==> vector_limit(limit, multiplier, maximum) == 25,
        limit * multiplier >= maximum && 25 <= maximum ==> vector_limit(limit, multiplier, maximum)
            == larger(maximum, limit),
        vector_limit(limit, multiplier, maximum) <= larger(maximum, limit),
        25 <= limit * 3 <= 5_000 ==> database_limit(limit, 3, 25) == limit * 3,
        limit * 3 < 25 ==> database_limit(limit, 3, 25) == 25,
        5_000 <= limit * 3 ==> database_limit(limit, 3, 25) == larger(5_000, limit),
        200 <= limit * 50 <= 5_000 ==> database_limit(limit, 50, 200) == limit * 50,
        limit * 50 < 200 ==> database_limit(limit, 50, 200) == 200,
        5_000 <= limit * 50 ==> database_limit(limit, 50, 200) == larger(5_000, limit),
        vector_limit(0, multiplier, maximum) == vector_limit(1, multiplier, maximum),
        database_limit(0, 3, 25) == database_limit(1, 3, 25),
        database_limit(0, 50, 200) == database_limit(1, 50, 200),
        larger(maximum, limit) >= maximum && larger(maximum, limit) >= limit && (larger(
            maximum,
            limit,
        ) == maximum || larger(maximum, limit) == limit),
{
    assert(limit * multiplier >= limit) by (nonlinear_arith)
        requires
            1 <= limit,
            1 <= multiplier,
    ;
}

/// A query searches the type that it names and no other, or each type that
/// users can consume where it names none.
pub proof fn law_searched_types_are_the_named_one_or_the_consumable(
    query: ResourceDiscoveryQuery,
    resource_type: ResourceType,
)
    ensures
        query.resource_type matches Some(named) ==> (searched_type_names(query).contains(
            resource_type_name(resource_type),
        ) <==> named == resource_type),
        query.resource_type is None ==> (searched_type_names(query).contains(
            resource_type_name(resource_type),
        ) <==> (resource_type == ResourceType::AgentService || resource_type == ResourceType::Skill
            || resource_type == ResourceType::McpServer || resource_type
            == ResourceType::ToolApi)),
{
    law_default_types_are_consumable(resource_type);
    if let Some(named) = query.resource_type {
        law_type_names_are_different(named, resource_type);
        assert(searched_type_names(query)[0] == resource_type_name(named));
    }
}

/// Results are ordered by tags and text where there is a token to rank by, by
/// the text where the database can search for it, and by the update otherwise;
/// the words are those of the query.
pub proof fn law_order_follows_the_query(tag_tokens: Seq<Seq<char>>, query: ResourceDiscoveryQuery)
    ensures
        keyword_order(tag_tokens, query).0 <==> tag_tokens.len() > 0,
        keyword_order(tag_tokens, query).1 is None <==> tag_tokens.len() == 0
            && !text_is_searchable(query),
        tag_tokens.len() > 0 && stated_text(query) is None ==> keyword_order(tag_tokens, query).1
            == Some(joined(tag_tokens, " "@)),
        query.query matches Some(text) ==> (tag_tokens.len() > 0 && trimmed(text@).len() > 0
            ==> keyword_order(tag_tokens, query).1 == Some(ascii_lower(trimmed(text@)))),
        tag_tokens.len() == 0 && text_is_searchable(query) ==> (query.query matches Some(text)
            && keyword_order(tag_tokens, query).1 == Some(ascii_lower(text@))),
{
    if query.query is None {
        law_queries_without_text(query);
    }
}

/// A part of a query filters where it is configured as hard, whatever the case
/// of ASCII letters.
pub proof fn law_hard_filters(filter: Seq<char>)
    ensures
        is_hard(filter) <==> ascii_lower(filter) == "hard"@,
        is_hard("hard"@),
        !is_hard("soft"@),
{
    reveal_strlit("hard");
    reveal_strlit("soft");
    assert(ascii_lower("hard"@) =~= "hard"@);
    assert(ascii_lower("soft"@)[0] == 's');
    assert("hard"@[0] == 'h');
}

} // verus!
