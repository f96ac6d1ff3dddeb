//! Comparing queries with documents, and the order of the results.
//!
//! A score is a number that the caller computes from the counts given here.
//! The order of results goes by an integer for each score that grows with it.

use vstd::prelude::*;

use crate::document::{
    context_text_of, discovery_package_projection, documents, intents_of,
    law_projections_say_what_the_package_says, law_search_documents_say_what_the_package_says,
    package_endpoints, package_protocols, projects, search_document_from_package,
    semantic_context_text, semantic_intent_texts, semantic_tag_text, tag_text_of,
    DiscoveryPackageProjection, SearchDocument,
};
use crate::ordering::{
    indices, is_stable_order, law_stable_order_sorts, lemma_stable_order_exists,
    lemma_stable_order_lists_all, lemma_text_less_irreflexive, lemma_text_less_total,
    lemma_text_less_transitive, picked, sort_indices, sorted_before, stable_order, text_before,
    text_less, Precedence,
};
use crate::package::{
    earlier, law_meeting_packages_have_what_is_asked, meets_constraints, package_binding_speaks,
    package_service_speaks, resource_matches_explicit_constraints, resource_type_name,
    some_binding_speaks, some_service_speaks, ResourceDiscoveryQuery, ResourcePackage, Timestamp,
};
use crate::query::{query_tokens, SemanticQueryProjection};
use crate::text::{contains_text, occurs_in, same_text, texts};
use crate::tokens::{semantic_tokens, tokens_of, Lexicon, SemanticAliasCatalog};
use crate::words::{normalized, push_all_new, without_repeats};

verus! {

/// How often `token` occurs among `tokens`.
pub open spec fn occurrences(tokens: Seq<Seq<char>>, token: Seq<char>) -> nat
    decreases tokens.len(),
{
    if tokens.len() == 0 {
        0
    } else {
        occurrences(tokens.drop_last(), token) + if tokens.last() == token {
            1nat
        } else {
            0
        }
    }
}

/// A token occurs once at least just where it is among the tokens.
pub proof fn lemma_occurrences_positive(tokens: Seq<Seq<char>>, token: Seq<char>)
    ensures
        occurrences(tokens, token) > 0 <==> tokens.contains(token),
        occurrences(tokens, token) <= tokens.len(),
    decreases tokens.len(),
{
    if tokens.len() > 0 {
        lemma_occurrences_positive(tokens.drop_last(), token);
        if tokens.last() == token {
            assert(tokens[tokens.len() - 1] == token);
        }
        if tokens.drop_last().contains(token) {
            let k = choose|k: int| 0 <= k < tokens.len() - 1 && tokens.drop_last()[k] == token;
            assert(tokens[k] == token);
        }
        if tokens.contains(token) && tokens.last() != token {
            let k = choose|k: int| 0 <= k < tokens.len() && tokens[k] == token;
            assert(tokens.drop_last()[k] == token);
        }
    }
}

/// How often `token` occurs among `tokens`.
pub fn count_token(tokens: &Vec<String>, token: &str) -> (count: usize)
    ensures
        count == occurrences(texts(tokens@), token@),
{
    let mut count: usize = 0;
    let mut i: usize = 0;
    while i < tokens.len()
        invariant
            i <= tokens@.len(),
            count <= i,
            count == occurrences(texts(tokens@).take(i as int), token@),
        decreases tokens@.len() - i,
    {
        assert(texts(tokens@).take(i as int + 1).drop_last() =~= texts(tokens@).take(i as int));
        if same_text(&tokens[i], token) {
            count = count + 1;
        }
        i = i + 1;
    }
    assert(texts(tokens@).take(i as int) =~= texts(tokens@));
    count
}

/// A token and how often it occurs.
#[derive(Debug)]
pub struct TokenCount {
    pub token: String,
    pub count: usize,
}

/// How often each of `tokens` occurs, in the order of their first occurrence.
pub fn token_counts(tokens: &Vec<String>) -> (counts: Vec<TokenCount>)
    ensures
        counts@.len() == without_repeats(texts(tokens@)).len(),
        forall|i: int|
            0 <= i < counts@.len() ==> (#[trigger] counts@[i]).token@ == without_repeats(
                texts(tokens@),
            )[i] && counts@[i].count == occurrences(texts(tokens@), counts@[i].token@),
{
    let mut different: Vec<String> = Vec::new();
    assert(texts(different@) =~= Seq::empty());
    push_all_new(&mut different, tokens);
    let mut counts: Vec<TokenCount> = Vec::new();
    let mut i: usize = 0;
    assert(texts(different@).len() == different@.len());
    while i < different.len()
        invariant
            i <= different@.len(),
            counts@.len() == i,
            texts(different@) == without_repeats(texts(tokens@)),
            forall|k: int|
                0 <= k < i ==> (#[trigger] counts@[k]).token@ == texts(different@)[k]
                    && counts@[k].count == occurrences(texts(tokens@), counts@[k].token@),
        decreases different@.len() - i,
    {
        assert(texts(different@)[i as int] == different@[i as int]@);
        counts.push(
            TokenCount {
                token: different[i].clone(),
                count: count_token(tokens, &different[i]),
            },
        );
        i = i + 1;
    }
    counts
}

/// How many tokens of a query are among those of a document.
#[derive(Clone, Copy, Debug, PartialEq, Eq, Structural)]
pub struct TokenOverlap {
    pub matched: usize,
    pub total: usize,
}

/// How many of `wanted` are among `tokens`.
pub open spec fn matched_count(wanted: Seq<Seq<char>>, tokens: Seq<Seq<char>>) -> nat
    decreases wanted.len(),
{
    if wanted.len() == 0 {
        0
    } else {
        matched_count(wanted.drop_last(), tokens) + if tokens.contains(wanted.last()) {
            1nat
        } else {
            0
        }
    }
}

/// How many of `wanted` are among `tokens`.
fn count_matched(wanted: &Vec<String>, tokens: &Vec<String>) -> (count: usize)
    ensures
        count == matched_count(texts(wanted@), texts(tokens@)),
        count <= wanted@.len(),
{
    let mut count: usize = 0;
    let mut i: usize = 0;
    while i < wanted.len()
        invariant
            i <= wanted@.len(),
            count <= i,
            count == matched_count(texts(wanted@).take(i as int), texts(tokens@)),
        decreases wanted@.len() - i,
    {
        assert(texts(wanted@).take(i as int + 1).drop_last() =~= texts(wanted@).take(i as int));
        if contains_text(tokens, &wanted[i]) {
            count = count + 1;
        }
        i = i + 1;
    }
    assert(texts(wanted@).take(i as int) =~= texts(wanted@));
    count
}

/// Whether `overlap` counts the query tokens that are among those of a text.
pub open spec fn overlaps(
    overlap: TokenOverlap,
    catalog: SemanticAliasCatalog,
    wanted: Seq<Seq<char>>,
    text: Seq<char>,
) -> bool {
    overlap.matched == matched_count(wanted, tokens_of(catalog, text)) && overlap.total
        == wanted.len()
}

/// How many tokens of a query are among `tokens`.
pub fn token_overlap(query_tokens: &Vec<String>, tokens: &Vec<String>) -> (overlap: TokenOverlap)
    ensures
        overlap.matched == matched_count(texts(query_tokens@), texts(tokens@)),
        overlap.total == query_tokens@.len(),
        overlap.matched <= overlap.total,
{
    TokenOverlap { matched: count_matched(query_tokens, tokens), total: query_tokens.len() }
}

/// How many tokens of a query are among those of a text: the similarity of the
/// two is their ratio, and nothing where the query has no token.
pub fn weighted_token_similarity(lexicon: &Lexicon, query_tokens: &Vec<String>, text: &str) -> (
    overlap: TokenOverlap)
    ensures
        overlaps(overlap, lexicon.catalog, texts(query_tokens@), text@),
        overlap.matched <= overlap.total,
{
    token_overlap(query_tokens, &semantic_tokens(lexicon, text))
}

/// What the relevance of a document to a term goes by.
#[derive(Clone, Copy, Debug, PartialEq, Eq, Structural)]
pub struct TermStatistics {
    /// How often the term occurs in the document.
    pub frequency: usize,
    /// How many documents the term occurs in.
    pub document_frequency: usize,
}

/// What the relevance of a document to a query goes by.
#[derive(Debug)]
pub struct DocumentStatistics {
    pub terms: Vec<TermStatistics>,
    /// How many tokens each of the documents has.
    pub lengths: Vec<usize>,
    /// Which of them is the one in question.
    pub index: usize,
}

/// The tokens of all documents.
pub open spec fn document_texts(documents: Seq<Vec<String>>) -> Seq<Seq<Seq<char>>> {
    documents.map_values(|tokens: Vec<String>| texts(tokens@))
}

/// How many of `documents` a token occurs in.
pub open spec fn documents_with(documents: Seq<Seq<Seq<char>>>, token: Seq<char>) -> nat
    decreases documents.len(),
{
    if documents.len() == 0 {
        0
    } else {
        documents_with(documents.drop_last(), token) + if documents.last().contains(token) {
            1nat
        } else {
            0
        }
    }
}

/// The statistics of those `terms` that occur in the document at `index`.
pub open spec fn term_statistics(
    terms: Seq<Seq<char>>,
    documents: Seq<Seq<Seq<char>>>,
    index: int,
) -> Seq<TermStatistics>
    decreases terms.len(),
{
    if terms.len() == 0 {
        Seq::empty()
    } else {
        let rest = term_statistics(terms.drop_last(), documents, index);
        if documents[index].contains(terms.last()) {
            rest.push(
                TermStatistics {
                    frequency: occurrences(documents[index], terms.last()) as usize,
                    document_frequency: documents_with(documents, terms.last()) as usize,
                },
            )
        } else {
            rest
        }
    }
}

/// How many of `documents` a token occurs in.
fn count_documents_with(documents: &Vec<Vec<String>>, token: &str) -> (count: usize)
    ensures
        count == documents_with(document_texts(documents@), token@),
{
    let mut count: usize = 0;
    let mut i: usize = 0;
    while i < documents.len()
        invariant
            i <= documents@.len(),
            count <= i,
            count == documents_with(document_texts(documents@).take(i as int), token@),
        decreases documents@.len() - i,
    {
        assert(document_texts(documents@).take(i as int + 1).drop_last() =~= document_texts(
            documents@,
        ).take(i as int));
        if contains_text(&documents[i], token) {
            count = count + 1;
        }
        i = i + 1;
    }
    assert(document_texts(documents@).take(i as int) =~= document_texts(documents@));
    count
}

/// What the relevance of the document at `index` to a query goes by: the
/// statistics of the different query tokens that occur in it, and the lengths
/// of the documents. There is none where the query or the document has no
/// token, or there is no such document.
pub fn bm25_statistics(
    query_tokens: &Vec<String>,
    documents: &Vec<Vec<String>>,
    index: usize,
) -> (statistics: Option<DocumentStatistics>)
    ensures
        statistics is Some <==> query_tokens@.len() > 0 && index < documents@.len()
            && documents@[index as int]@.len() > 0,
        statistics matches Some(found) ==> {
            &&& found.index == index
            &&& found.lengths@.len() == documents@.len()
            &&& forall|i: int|
                0 <= i < documents@.len() ==> #[trigger] found.lengths@[i] == documents@[i]@.len()
            &&& found.terms@ == term_statistics(
                without_repeats(texts(query_tokens@)),
                document_texts(documents@),
                index as int,
            )
        },
{
    if query_tokens.len() == 0 || index >= documents.len() {
        return None;
    }
    let doc_tokens = &documents[index];
    if doc_tokens.len() == 0 {
        return None;
    }
    let mut different: Vec<String> = Vec::new();
    assert(texts(different@) =~= Seq::empty());
    push_all_new(&mut different, query_tokens);
    let mut terms: Vec<TermStatistics> = Vec::new();
    let ghost all = document_texts(documents@);
    let mut i: usize = 0;
    assert(terms@ =~= term_statistics(texts(different@).take(0), all, index as int));
    while i < different.len()
        invariant
            i <= different@.len(),
            index < documents@.len(),
            all == document_texts(documents@),
            doc_tokens@ == documents@[index as int]@,
            all[index as int] == texts(doc_tokens@),
            terms@ == term_statistics(texts(different@).take(i as int), all, index as int),
        decreases different@.len() - i,
    {
        assert(texts(different@).take(i as int + 1).drop_last() =~= texts(different@).take(
            i as int,
        ));
        assert(texts(different@).take(i as int + 1).last() == different@[i as int]@);
        let frequency: usize = count_token(doc_tokens, &different[i]);
        proof {
            lemma_occurrences_positive(texts(doc_tokens@), different@[i as int]@);
        }
        if frequency > 0 {
            let document_frequency: usize = count_documents_with(documents, &different[i]);
            terms.push(TermStatistics { frequency, document_frequency });
        }
        i = i + 1;
    }
    assert(texts(different@).take(i as int) =~= texts(different@));
    let mut lengths: Vec<usize> = Vec::new();
    let mut k: usize = 0;
    while k < documents.len()
        invariant
            k <= documents@.len(),
            lengths@.len() == k,
            forall|j: int| 0 <= j < k ==> #[trigger] lengths@[j] == documents@[j]@.len(),
        decreases documents@.len() - k,
    {
        lengths.push(documents[k].len());
        k = k + 1;
    }
    Some(DocumentStatistics { terms, lengths, index })
}

/// How a package meets the structured parts of a query.
#[derive(Clone, Copy, Debug, PartialEq, Eq, Structural)]
pub struct StructuredMatch {
    /// Whether the query names the package's type.
    pub type_matched: bool,
    /// How many of the query's tags the package has, of how many.
    pub tags: TokenOverlap,
    /// Whether the package speaks the protocol that the query names.
    pub protocol_matched: bool,
}

/// How a package meets the structured parts of a query.
pub open spec fn structured_match(
    package: ResourcePackage,
    query: ResourceDiscoveryQuery,
) -> StructuredMatch {
    StructuredMatch {
        type_matched: query.resource_type == Some(package.resource_type),
        tags: TokenOverlap {
            matched: matched_count(
                texts(query.capability_tags@),
                texts(package.metadata.capability_tags@),
            ) as usize,
            total: query.capability_tags@.len() as usize,
        },
        protocol_matched: match query.protocol {
            Some(protocol) => some_service_speaks(package, protocol@) || some_binding_speaks(
                package,
                protocol@,
            ),
            None => false,
        },
    }
}

/// How a package meets the structured parts of a query.
pub fn semantic_structured_match(
    package: &ResourcePackage,
    query: &ResourceDiscoveryQuery,
) -> (found: StructuredMatch)
    ensures
        found == structured_match(*package, *query),
{
    StructuredMatch {
        type_matched: match &query.resource_type {
            Some(resource_type) => *resource_type == package.resource_type,
            None => false,
        },
        tags: TokenOverlap {
            matched: count_matched(&query.capability_tags, &package.metadata.capability_tags),
            total: query.capability_tags.len(),
        },
        protocol_matched: match &query.protocol {
            Some(protocol) => package_service_speaks(package, protocol) || package_binding_speaks(
                package,
                protocol,
            ),
            None => false,
        },
    }
}

/// The intent that comes closest to a query.
#[derive(Debug)]
pub struct IntentMatch {
    pub overlap: TokenOverlap,
    pub intent: Option<String>,
}

/// Whether the largest count that is not nothing stands at `at`, and none after
/// it is as large.
pub open spec fn is_last_largest(counts: Seq<int>, at: int) -> bool {
    &&& 0 <= at < counts.len()
    &&& counts[at] > 0
    &&& forall|i: int|
        0 <= i < counts.len() ==> #[trigger] counts[i] <= counts[at] && (i > at ==> counts[i]
            < counts[at])
}

/// Where the largest count stands that is not nothing: the last place, where
/// there are several.
pub fn last_largest(counts: &Vec<usize>) -> (best: Option<usize>)
    ensures
        best matches Some(at) ==> is_last_largest(indices(counts@), at as int),
        best is None <==> forall|i: int| 0 <= i < counts@.len() ==> #[trigger] counts@[i] == 0,
{
    let mut best: Option<usize> = None;
    let mut largest: usize = 0;
    let mut i: usize = 0;
    while i < counts.len()
        invariant
            i <= counts@.len(),
            best is None ==> largest == 0,
            best matches Some(at) ==> at < i && largest > 0 && largest == counts@[at as int],
            forall|k: int|
                0 <= k < i ==> #[trigger] counts@[k] <= largest && (best matches Some(at) && k > at
                    ==> counts@[k] < largest),
        decreases counts@.len() - i,
    {
        if counts[i] > 0 && counts[i] >= largest {
            best = Some(i);
            largest = counts[i];
        }
        i = i + 1;
    }
    if let Some(at) = best {
        assert(counts@[at as int] != 0);
    }
    best
}

/// How many tokens each intent shares with a query.
pub open spec fn intent_counts(
    catalog: SemanticAliasCatalog,
    wanted: Seq<Seq<char>>,
    intents: Seq<Seq<char>>,
) -> Seq<int> {
    intents.map_values(
        |intent: Seq<char>| matched_count(wanted, tokens_of(catalog, intent)) as int,
    )
}

/// Whether `found` is the intent that comes closest to a query: no other shares
/// more tokens with it, and no later one as many. There is none where no intent
/// shares a token.
pub open spec fn is_intent_match(
    found: IntentMatch,
    catalog: SemanticAliasCatalog,
    wanted: Seq<Seq<char>>,
    intents: Seq<Seq<char>>,
) -> bool {
    let counts = intent_counts(catalog, wanted, intents);
    &&& found.overlap.total == wanted.len()
    &&& match found.intent {
        Some(intent) => exists|at: int| #[trigger]
            is_last_largest(counts, at) && intent@ == intents[at] && found.overlap.matched
                == counts[at],
        None => (forall|i: int| 0 <= i < counts.len() ==> #[trigger] counts[i] == 0)
            && found.overlap.matched == 0,
    }
}

/// The intent that comes closest to a query.
pub fn closest_intent(lexicon: &Lexicon, query_tokens: &Vec<String>, intents: &Vec<String>) -> (
    found: IntentMatch)
    ensures
        is_intent_match(found, lexicon.catalog, texts(query_tokens@), texts(intents@)),
{
    let ghost expected = intent_counts(lexicon.catalog, texts(query_tokens@), texts(intents@));
    let mut counts: Vec<usize> = Vec::new();
    let mut i: usize = 0;
    while i < intents.len()
        invariant
            i <= intents@.len(),
            counts@.len() == i,
            expected == intent_counts(lexicon.catalog, texts(query_tokens@), texts(intents@)),
            forall|k: int| 0 <= k < i ==> #[trigger] counts@[k] == expected[k],
        decreases intents@.len() - i,
    {
        counts.push(weighted_token_similarity(lexicon, query_tokens, &intents[i]).matched);
        i = i + 1;
    }
    assert(indices(counts@) =~= expected);
    match last_largest(&counts) {
        Some(at) => {
            assert(is_last_largest(expected, at as int));
            assert(counts@[at as int] == expected[at as int]);
            IntentMatch {
                overlap: TokenOverlap { matched: counts[at], total: query_tokens.len() },
                intent: Some(intents[at].clone()),
            }
        },
        None => {
            assert forall|k: int| 0 <= k < expected.len() implies #[trigger] expected[k] == 0 by {
                assert(counts@[k] == 0);
            }
            IntentMatch {
                overlap: TokenOverlap { matched: 0, total: query_tokens.len() },
                intent: None,
            }
        },
    }
}

/// What the score of a package for a query is computed from, besides its
/// relevance by terms.
#[derive(Debug)]
pub struct ResourceScoreParts {
    pub tag: TokenOverlap,
    pub context: TokenOverlap,
    pub intent: IntentMatch,
    pub structured: StructuredMatch,
}

/// Whether `doc` is the search document of a package, whatever its cursor is.
pub open spec fn is_document_of(
    doc: SearchDocument,
    catalog: SemanticAliasCatalog,
    package: ResourcePackage,
) -> bool {
    exists|projection: DiscoveryPackageProjection, cursor: i64|
        projects(projection, catalog, package) && #[trigger] documents(
            doc,
            cursor,
            package,
            projection,
        )
}

/// The search document of a package for ranking.
pub fn ranking_document(lexicon: &Lexicon, package: &ResourcePackage) -> (doc: SearchDocument)
    ensures
        is_document_of(doc, lexicon.catalog, *package),
        doc.cursor == 0,
{
    let projection = discovery_package_projection(lexicon, package);
    let doc = search_document_from_package(0, package, &projection);
    assert(documents(doc, 0, *package, projection));
    doc
}

/// What the score of a package for a query is computed from: how its tags, its
/// context and its intents overlap with the query's tokens, and how it meets
/// the structured parts.
pub fn semantic_resource_score_parts(
    lexicon: &Lexicon,
    package: &ResourcePackage,
    doc: &SearchDocument,
    query: &ResourceDiscoveryQuery,
    projection: &SemanticQueryProjection,
) -> (parts: ResourceScoreParts)
    ensures
        overlaps(
            parts.tag,
            lexicon.catalog,
            texts(projection.expanded_tokens@),
            tag_text_of(*doc),
        ),
        overlaps(
            parts.context,
            lexicon.catalog,
            texts(projection.expanded_tokens@),
            context_text_of(*doc),
        ),
        is_intent_match(
            parts.intent,
            lexicon.catalog,
            texts(projection.expanded_tokens@),
            intents_of(*doc),
        ),
        parts.structured == structured_match(*package, *query),
{
    ResourceScoreParts {
        tag: weighted_token_similarity(
            lexicon,
            &projection.expanded_tokens,
            &semantic_tag_text(doc),
        ),
        context: weighted_token_similarity(
            lexicon,
            &projection.expanded_tokens,
            &semantic_context_text(doc),
        ),
        intent: closest_intent(lexicon, &projection.expanded_tokens, &semantic_intent_texts(doc)),
        structured: semantic_structured_match(package, query),
    }
}

/// The score of a package as the ranking sees it.
#[derive(Clone, Copy, Debug, PartialEq, Eq, Structural)]
pub struct HitScore {
    /// An integer that grows with the score.
    pub order: i64,
    /// Whether the score is above zero.
    pub positive: bool,
}

/// What results are ranked by: the higher score first, then the later update,
/// then the DID.
pub struct RankKey {
    pub score: i64,
    pub updated_at: Timestamp,
    pub resource_did: String,
}

impl Precedence for RankKey {
    open spec fn precedes(self, other: Self) -> bool {
        self.score > other.score || (self.score == other.score && (earlier(
            other.updated_at,
            self.updated_at,
        ) || (other.updated_at == self.updated_at && text_less(
            self.resource_did@,
            other.resource_did@,
        ))))
    }

    proof fn asymmetric(a: Self, b: Self) {
        if a.precedes(b) && b.precedes(a) {
            lemma_text_less_transitive(a.resource_did@, b.resource_did@, a.resource_did@);
            lemma_text_less_irreflexive(a.resource_did@);
        }
    }

    proof fn comparable(a: Self, b: Self, c: Self) {
        lemma_text_less_total(a.resource_did@, b.resource_did@);
        if text_less(b.resource_did@, a.resource_did@) && text_less(
            a.resource_did@,
            c.resource_did@,
        ) {
            lemma_text_less_transitive(b.resource_did@, a.resource_did@, c.resource_did@);
        }
    }

    fn comes_before(&self, other: &Self) -> (before: bool) {
        self.score > other.score || (self.score == other.score && (other.updated_at.is_earlier(
            &self.updated_at,
        ) || (other.updated_at == self.updated_at && text_before(
            &self.resource_did,
            &other.resource_did,
        ))))
    }
}

/// Whether a package is among the results of a query: it meets the
/// constraints, and its score is above zero unless the query has no tokens.
pub open spec fn is_hit(
    package: ResourcePackage,
    query: ResourceDiscoveryQuery,
    score: HitScore,
    has_semantic_terms: bool,
) -> bool {
    meets_constraints(package, query) && (!has_semantic_terms || score.positive)
}

/// The indices of the first `count` packages that are results of a query.
pub open spec fn hit_indices(
    packages: Seq<ResourcePackage>,
    query: ResourceDiscoveryQuery,
    scores: Seq<HitScore>,
    has_semantic_terms: bool,
    count: int,
) -> Seq<int>
    decreases count,
{
    if count <= 0 {
        Seq::empty()
    } else {
        let rest = hit_indices(packages, query, scores, has_semantic_terms, count - 1);
        if is_hit(packages[count - 1], query, scores[count - 1], has_semantic_terms) {
            rest.push(count - 1)
        } else {
            rest
        }
    }
}

/// What the package at `index` is ranked by.
pub open spec fn rank_key(
    packages: Seq<ResourcePackage>,
    scores: Seq<HitScore>,
    index: int,
) -> RankKey {
    RankKey {
        score: scores[index].order,
        updated_at: packages[index].metadata.updated_at,
        resource_did: packages[index].resource_did,
    }
}

/// What the packages at `hits` are ranked by.
pub open spec fn rank_keys(
    packages: Seq<ResourcePackage>,
    scores: Seq<HitScore>,
    hits: Seq<int>,
) -> Seq<RankKey> {
    hits.map_values(|index: int| rank_key(packages, scores, index))
}

/// The results of a query in their order, as indices of the packages.
pub open spec fn ranked(
    packages: Seq<ResourcePackage>,
    query: ResourceDiscoveryQuery,
    scores: Seq<HitScore>,
    has_semantic_terms: bool,
) -> Seq<int> {
    let hits = hit_indices(packages, query, scores, has_semantic_terms, packages.len() as int);
    picked(hits, stable_order(rank_keys(packages, scores, hits)))
}

/// Every result of a query is the index of a package that is one.
proof fn lemma_hit_indices(
    packages: Seq<ResourcePackage>,
    query: ResourceDiscoveryQuery,
    scores: Seq<HitScore>,
    has_semantic_terms: bool,
    count: int,
)
    requires
        0 <= count <= packages.len(),
    ensures
        forall|k: int|
            0 <= k < hit_indices(packages, query, scores, has_semantic_terms, count).len() ==> {
                let index = #[trigger] hit_indices(
                    packages,
                    query,
                    scores,
                    has_semantic_terms,
                    count,
                )[k];
                0 <= index < count && is_hit(
                    packages[index],
                    query,
                    scores[index],
                    has_semantic_terms,
                )
            },
        forall|index: int|
            0 <= index < count && is_hit(
                packages[index],
                query,
                scores[index],
                has_semantic_terms,
            ) ==> #[trigger] hit_indices(
                packages,
                query,
                scores,
                has_semantic_terms,
                count,
            ).contains(index),
    decreases count,
{
    if count > 0 {
        lemma_hit_indices(packages, query, scores, has_semantic_terms, count - 1);
        let rest = hit_indices(packages, query, scores, has_semantic_terms, count - 1);
        let all = hit_indices(packages, query, scores, has_semantic_terms, count);
        assert forall|index: int|
            0 <= index < count && is_hit(
                packages[index],
                query,
                scores[index],
                has_semantic_terms,
            ) implies #[trigger] all.contains(index) by {
            if index == count - 1 {
                assert(all[all.len() - 1] == index);
            } else {
                assert(rest.contains(index));
                let k = choose|k: int| 0 <= k < rest.len() && rest[k] == index;
                assert(all[k] == index);
            }
        }
    }
}

/// The results of a query among `packages`, best first, as indices of the
/// packages; `scores` holds the score of each package.
pub fn rank_resource_packages_semantically(
    packages: &Vec<ResourcePackage>,
    query: &ResourceDiscoveryQuery,
    scores: &Vec<HitScore>,
    has_semantic_terms: bool,
) -> (order: Vec<usize>)
    requires
        scores@.len() == packages@.len(),
    ensures
        indices(order@) == ranked(packages@, *query, scores@, has_semantic_terms),
{
    let mut hits: Vec<usize> = Vec::new();
    let mut keys: Vec<RankKey> = Vec::new();
    let mut i: usize = 0;
    while i < packages.len()
        invariant
            i <= packages@.len(),
            scores@.len() == packages@.len(),
            indices(hits@) =~= hit_indices(
                packages@,
                *query,
                scores@,
                has_semantic_terms,
                i as int,
            ),
            keys@ =~= rank_keys(packages@, scores@, indices(hits@)),
            forall|k: int| 0 <= k < hits@.len() ==> #[trigger] hits@[k] < packages@.len(),
        decreases packages@.len() - i,
    {
        if resource_matches_explicit_constraints(&packages[i], query) && (!has_semantic_terms
            || scores[i].positive) {
            let ghost before = hits@;
            hits.push(i);
            keys.push(
                RankKey {
                    score: scores[i].order,
                    updated_at: packages[i].metadata.updated_at,
                    resource_did: packages[i].resource_did.clone(),
                },
            );
            assert(indices(hits@) =~= indices(before).push(i as int));
        }
        i = i + 1;
    }
    let sorted = sort_indices(&keys);
    let mut order: Vec<usize> = Vec::new();
    let mut k: usize = 0;
    while k < sorted.len()
        invariant
            k <= sorted@.len(),
            keys@.len() == hits@.len(),
            is_stable_order(indices(sorted@), keys@),
            indices(order@) =~= picked(indices(hits@), indices(sorted@)).take(k as int),
        decreases sorted@.len() - k,
    {
        assert(indices(sorted@)[k as int] == sorted@[k as int]);
        let at: usize = sorted[k];
        let ghost before = order@;
        order.push(hits[at]);
        assert(indices(order@) =~= indices(before).push(hits@[at as int] as int));
        assert(picked(indices(hits@), indices(sorted@)).take(k as int + 1) =~= picked(
            indices(hits@),
            indices(sorted@),
        ).take(k as int).push(hits@[at as int] as int));
        k = k + 1;
    }
    assert(indices(order@) =~= picked(indices(hits@), indices(sorted@)));
    order
}

/// The results of a query are just the packages that meet its constraints and
/// score above zero, or all that meet them where it has no tokens.
pub proof fn law_ranking_lists_the_hits(
    packages: Seq<ResourcePackage>,
    query: ResourceDiscoveryQuery,
    scores: Seq<HitScore>,
    has_semantic_terms: bool,
    index: int,
)
    requires
        scores.len() == packages.len(),
        0 <= index < packages.len(),
    ensures
        ranked(packages, query, scores, has_semantic_terms).contains(index) <==> is_hit(
            packages[index],
            query,
            scores[index],
            has_semantic_terms,
        ),
{
    let hits = hit_indices(packages, query, scores, has_semantic_terms, packages.len() as int);
    let keys = rank_keys(packages, scores, hits);
    let sorted = stable_order(keys);
    lemma_hit_indices(packages, query, scores, has_semantic_terms, packages.len() as int);
    lemma_stable_order_exists(keys);
    if ranked(packages, query, scores, has_semantic_terms).contains(index) {
        let k = choose|k: int|
            0 <= k < ranked(packages, query, scores, has_semantic_terms).len() && ranked(
                packages,
                query,
                scores,
                has_semantic_terms,
            )[k] == index;
        assert(picked(hits, sorted)[k] == hits[sorted[k]]);
    }
    if is_hit(packages[index], query, scores[index], has_semantic_terms) {
        assert(hits.contains(index));
        let k = choose|k: int| 0 <= k < hits.len() && hits[k] == index;
        lemma_stable_order_lists_all(sorted, keys, k);
        let p = choose|p: int| 0 <= p < sorted.len() && sorted[p] == k;
        assert(picked(hits, sorted)[p] == index);
    }
}

/// The ranked packages are packages.
pub proof fn lemma_ranked_in_range(
    packages: Seq<ResourcePackage>,
    query: ResourceDiscoveryQuery,
    scores: Seq<HitScore>,
    has_semantic_terms: bool,
)
    requires
        scores.len() == packages.len(),
    ensures
        forall|k: int|
            0 <= k < ranked(packages, query, scores, has_semantic_terms).len() ==> 0
                <= #[trigger] ranked(packages, query, scores, has_semantic_terms)[k]
                < packages.len(),
{
    let hits = hit_indices(packages, query, scores, has_semantic_terms, packages.len() as int);
    let keys = rank_keys(packages, scores, hits);
    let sorted = stable_order(keys);
    lemma_hit_indices(packages, query, scores, has_semantic_terms, packages.len() as int);
    lemma_stable_order_exists(keys);
    assert forall|k: int|
        0 <= k < ranked(packages, query, scores, has_semantic_terms).len() implies 0
        <= #[trigger] ranked(packages, query, scores, has_semantic_terms)[k]
        < packages.len() by {
        assert(ranked(packages, query, scores, has_semantic_terms)[k] == hits[sorted[k]]);
    }
}

/// No result of a query is worse than one that follows it: a higher score
/// comes first, then the later update, then the smaller DID.
pub proof fn law_ranking_is_in_order(
    packages: Seq<ResourcePackage>,
    query: ResourceDiscoveryQuery,
    scores: Seq<HitScore>,
    has_semantic_terms: bool,
    i: int,
    j: int,
)
    requires
        scores.len() == packages.len(),
        0 <= i < j < ranked(packages, query, scores, has_semantic_terms).len(),
    ensures
        !rank_key(
            packages,
            scores,
            ranked(packages, query, scores, has_semantic_terms)[j],
        ).precedes(
            rank_key(packages, scores, ranked(packages, query, scores, has_semantic_terms)[i]),
        ),
{
    let hits = hit_indices(packages, query, scores, has_semantic_terms, packages.len() as int);
    let keys = rank_keys(packages, scores, hits);
    let sorted = stable_order(keys);
    lemma_stable_order_exists(keys);
    assert(sorted_before(keys, sorted[i], sorted[j]));
    assert(keys[sorted[i]] == rank_key(packages, scores, hits[sorted[i]]));
    assert(keys[sorted[j]] == rank_key(packages, scores, hits[sorted[j]]));
    RankKey::asymmetric(keys[sorted[i]], keys[sorted[j]]);
}

/// Occurrences are counted one by one: those in two lists together, one for the
/// token itself, and none for another.
pub proof fn law_occurrences_are_counted_one_by_one(
    tokens: Seq<Seq<char>>,
    more: Seq<Seq<char>>,
    other: Seq<char>,
    token: Seq<char>,
)
    ensures
        occurrences(Seq::empty(), token) == 0,
        occurrences(tokens + more, token) == occurrences(tokens, token) + occurrences(more, token),
        occurrences(seq![token], token) == 1,
        other != token ==> occurrences(seq![other], token) == 0,
    decreases more.len(),
{
    reveal_with_fuel(occurrences, 2);
    assert(seq![token].drop_last() =~= Seq::empty());
    assert(seq![other].drop_last() =~= Seq::empty());
    if more.len() == 0 {
        assert(tokens + more =~= tokens);
    } else {
        law_occurrences_are_counted_one_by_one(tokens, more.drop_last(), other, token);
        assert((tokens + more).drop_last() =~= tokens + more.drop_last());
        assert((tokens + more).last() == more.last());
    }
}

/// Matches are counted one by one: each wanted token that a document has counts
/// one, and any other none; never more than are wanted.
pub proof fn law_matches_are_counted_one_by_one(
    wanted: Seq<Seq<char>>,
    more: Seq<Seq<char>>,
    token: Seq<char>,
    tokens: Seq<Seq<char>>,
)
    ensures
        matched_count(Seq::empty(), tokens) == 0,
        matched_count(wanted + more, tokens) == matched_count(wanted, tokens) + matched_count(
            more,
            tokens,
        ),
        tokens.contains(token) ==> matched_count(seq![token], tokens) == 1,
        !tokens.contains(token) ==> matched_count(seq![token], tokens) == 0,
    decreases more.len(),
{
    reveal_with_fuel(matched_count, 2);
    assert(seq![token].drop_last() =~= Seq::empty());
    if more.len() == 0 {
        assert(wanted + more =~= wanted);
    } else {
        law_matches_are_counted_one_by_one(wanted, more.drop_last(), token, tokens);
        assert((wanted + more).drop_last() =~= wanted + more.drop_last());
        assert((wanted + more).last() == more.last());
    }
}

/// A document that has all wanted tokens matches as many as there are, one that
/// has none matches none, and one that has more tokens matches no fewer.
pub proof fn law_overlap_grows_with_the_document(
    wanted: Seq<Seq<char>>,
    tokens: Seq<Seq<char>>,
    more: Seq<Seq<char>>,
)
    ensures
        matched_count(wanted, tokens) <= wanted.len(),
        (forall|i: int| 0 <= i < wanted.len() ==> tokens.contains(#[trigger] wanted[i]))
            ==> matched_count(wanted, tokens) == wanted.len(),
        (forall|i: int| 0 <= i < wanted.len() ==> !tokens.contains(#[trigger] wanted[i]))
            ==> matched_count(wanted, tokens) == 0,
        (forall|token: Seq<char>| #[trigger] tokens.contains(token) ==> more.contains(token))
            ==> matched_count(wanted, tokens) <= matched_count(wanted, more),
    decreases wanted.len(),
{
    if wanted.len() > 0 {
        let rest = wanted.drop_last();
        law_overlap_grows_with_the_document(rest, tokens, more);
        assert(wanted[wanted.len() - 1] == wanted.last());
        if forall|i: int| 0 <= i < wanted.len() ==> tokens.contains(#[trigger] wanted[i]) {
            assert forall|i: int| 0 <= i < rest.len() implies tokens.contains(#[trigger] rest[i]) by {
                assert(rest[i] == wanted[i]);
            }
        }
        if forall|i: int| 0 <= i < wanted.len() ==> !tokens.contains(#[trigger] wanted[i]) {
            assert forall|i: int| 0 <= i < rest.len() implies !tokens.contains(
                #[trigger] rest[i],
            ) by {
                assert(rest[i] == wanted[i]);
            }
        }
        if forall|token: Seq<char>| #[trigger] tokens.contains(token) ==> more.contains(token) {
            assert(tokens.contains(wanted.last()) ==> more.contains(wanted.last()));
        }
    }
}

/// Documents with a token are counted one by one.
pub proof fn law_documents_are_counted_one_by_one(
    documents: Seq<Seq<Seq<char>>>,
    more: Seq<Seq<Seq<char>>>,
    document: Seq<Seq<char>>,
    token: Seq<char>,
)
    ensures
        documents_with(Seq::empty(), token) == 0,
        documents_with(documents + more, token) == documents_with(documents, token)
            + documents_with(more, token),
        document.contains(token) ==> documents_with(seq![document], token) == 1,
        !document.contains(token) ==> documents_with(seq![document], token) == 0,
    decreases more.len(),
{
    reveal_with_fuel(documents_with, 2);
    assert(seq![document].drop_last() =~= Seq::empty());
    if more.len() == 0 {
        assert(documents + more =~= documents);
    } else {
        law_documents_are_counted_one_by_one(documents, more.drop_last(), document, token);
        assert((documents + more).drop_last() =~= documents + more.drop_last());
        assert((documents + more).last() == more.last());
    }
}

/// The statistics of terms come term by term: one that the document has gives
/// how often it has it and how many documents do, and any other gives none.
pub proof fn law_statistics_come_term_by_term(
    terms: Seq<Seq<char>>,
    more: Seq<Seq<char>>,
    term: Seq<char>,
    documents: Seq<Seq<Seq<char>>>,
    index: int,
)
    ensures
        term_statistics(terms + more, documents, index) == term_statistics(terms, documents, index)
            + term_statistics(more, documents, index),
        !documents[index].contains(term) ==> term_statistics(seq![term], documents, index)
            == Seq::<TermStatistics>::empty(),
        documents[index].contains(term) ==> term_statistics(seq![term], documents, index).len() == 1
            && term_statistics(seq![term], documents, index)[0].frequency == occurrences(
            documents[index],
            term,
        ) as usize && term_statistics(seq![term], documents, index)[0].document_frequency
            == documents_with(documents, term) as usize,
    decreases more.len(),
{
    reveal_with_fuel(term_statistics, 2);
    assert(seq![term].drop_last() =~= Seq::empty());
    if more.len() == 0 {
        assert(terms + more =~= terms);
        assert(term_statistics(terms, documents, index) + term_statistics(more, documents, index)
            =~= term_statistics(terms, documents, index));
    } else {
        law_statistics_come_term_by_term(terms, more.drop_last(), term, documents, index);
        assert((terms + more).drop_last() =~= terms + more.drop_last());
        assert((terms + more).last() == more.last());
        assert(term_statistics(terms + more, documents, index) =~= term_statistics(
            terms,
            documents,
            index,
        ) + term_statistics(more, documents, index));
    }
}

/// A package matches by type where the query names its type, by protocol where
/// one of its services or bindings speaks the named one, and by as many tags as
/// it has of the query's.
pub proof fn law_structured_matches_are_of_named_parts(
    package: ResourcePackage,
    query: ResourceDiscoveryQuery,
)
    requires
        query.capability_tags@.len() <= usize::MAX,
    ensures
        query.resource_type is None ==> !structured_match(package, query).type_matched,
        query.resource_type matches Some(wanted) ==> (structured_match(package, query).type_matched
            <==> wanted == package.resource_type),
        query.protocol is None ==> !structured_match(package, query).protocol_matched,
        query.protocol matches Some(wanted) ==> (structured_match(package, query).protocol_matched
            <==> (some_service_speaks(package, wanted@) || some_binding_speaks(package, wanted@))),
        structured_match(package, query).tags.total == query.capability_tags@.len(),
        structured_match(package, query).tags.matched == matched_count(
            texts(query.capability_tags@),
            texts(package.metadata.capability_tags@),
        ),
        structured_match(package, query).tags.matched <= structured_match(package, query).tags.total,
{
    law_overlap_grows_with_the_document(
        texts(query.capability_tags@),
        texts(package.metadata.capability_tags@),
        Seq::empty(),
    );
    assert(texts(query.capability_tags@).len() == query.capability_tags@.len());
}

/// Every ranked package is of the type and the version that the query names,
/// has every tag that it names, and scores above zero where the query has
/// tokens; it meets the query, and every package that meets it and scores so is
/// ranked.
pub proof fn law_ranked_packages_have_what_is_asked(
    packages: Seq<ResourcePackage>,
    query: ResourceDiscoveryQuery,
    scores: Seq<HitScore>,
    has_semantic_terms: bool,
    index: int,
)
    requires
        scores.len() == packages.len(),
        0 <= index < packages.len(),
    ensures
        ranked(packages, query, scores, has_semantic_terms).contains(index) ==> {
            &&& query.resource_type matches Some(wanted) ==> packages[index].resource_type == wanted
            &&& query.version matches Some(wanted) ==> packages[index].package_version@ == wanted@
            &&& forall|i: int|
                0 <= i < query.capability_tags@.len() ==> texts(
                    packages[index].metadata.capability_tags@,
                ).contains((#[trigger] query.capability_tags@[i])@)
            &&& query.protocol matches Some(wanted) ==> some_service_speaks(
                packages[index],
                wanted@,
            ) || some_binding_speaks(packages[index], wanted@)
            &&& has_semantic_terms ==> scores[index].positive
        },
        meets_constraints(packages[index], query) && (scores[index].positive || !has_semantic_terms)
            ==> ranked(packages, query, scores, has_semantic_terms).contains(index),
{
    law_ranking_lists_the_hits(packages, query, scores, has_semantic_terms, index);
    if ranked(packages, query, scores, has_semantic_terms).contains(index) {
        law_meeting_packages_have_what_is_asked(packages[index], query);
    }
}

/// Ranked packages are in order: a higher score comes first; of equal scores the
/// later update; of equal times the smaller DID; and none is ranked twice.
pub proof fn law_better_packages_are_ranked_first(
    packages: Seq<ResourcePackage>,
    query: ResourceDiscoveryQuery,
    scores: Seq<HitScore>,
    has_semantic_terms: bool,
    i: int,
    j: int,
)
    requires
        scores.len() == packages.len(),
        0 <= i < j < ranked(packages, query, scores, has_semantic_terms).len(),
    ensures
        ({
            let a = ranked(packages, query, scores, has_semantic_terms)[i];
            let b = ranked(packages, query, scores, has_semantic_terms)[j];
            let first = packages[a].metadata.updated_at;
            let second = packages[b].metadata.updated_at;
            &&& 0 <= a < packages.len()
            &&& 0 <= b < packages.len()
            &&& a != b
            &&& scores[a].order >= scores[b].order
            &&& scores[a].order == scores[b].order ==> first.seconds >= second.seconds
            &&& scores[a].order == scores[b].order && first.seconds == second.seconds
                ==> first.nanos >= second.nanos
            &&& scores[a].order == scores[b].order && first == second ==> !text_less(
                packages[b].resource_did@,
                packages[a].resource_did@,
            )
        }),
{
    let hits = hit_indices(packages, query, scores, has_semantic_terms, packages.len() as int);
    let keys = rank_keys(packages, scores, hits);
    let sorted = stable_order(keys);
    lemma_ranked_in_range(packages, query, scores, has_semantic_terms);
    lemma_hits_are_different(packages, query, scores, has_semantic_terms, packages.len() as int);
    law_stable_order_sorts(keys);
    law_ranking_is_in_order(packages, query, scores, has_semantic_terms, i, j);
    assert(sorted.contains(sorted[i]) && sorted.contains(sorted[j]));
    assert(picked(hits, sorted)[i] == hits[sorted[i]]);
    assert(picked(hits, sorted)[j] == hits[sorted[j]]);
    assert(sorted[i] != sorted[j]);
}

/// The indices of hits ascend.
proof fn lemma_hits_are_different(
    packages: Seq<ResourcePackage>,
    query: ResourceDiscoveryQuery,
    scores: Seq<HitScore>,
    has_semantic_terms: bool,
    count: int,
)
    requires
        0 <= count <= packages.len(),
    ensures
        forall|k: int, l: int|
            0 <= k < l < hit_indices(packages, query, scores, has_semantic_terms, count).len()
                ==> #[trigger] hit_indices(packages, query, scores, has_semantic_terms, count)[k]
                < #[trigger] hit_indices(packages, query, scores, has_semantic_terms, count)[l],
    decreases count,
{
    if count > 0 {
        lemma_hits_are_different(packages, query, scores, has_semantic_terms, count - 1);
        lemma_hit_indices(packages, query, scores, has_semantic_terms, count - 1);
        let rest = hit_indices(packages, query, scores, has_semantic_terms, count - 1);
        let all = hit_indices(packages, query, scores, has_semantic_terms, count);
        assert forall|k: int, l: int| 0 <= k < l < all.len() implies #[trigger] all[k]
            < #[trigger] all[l] by {
            assert(all[k] == rest[k]);
            if l < rest.len() {
                assert(all[l] == rest[l]);
            }
        }
    }
}

/// An overlap counts the tokens of the query, and those of them that the text
/// has.
pub proof fn law_overlaps_count_the_shared_tokens(
    overlap: TokenOverlap,
    catalog: SemanticAliasCatalog,
    wanted: Seq<Seq<char>>,
    text: Seq<char>,
)
    requires
        overlaps(overlap, catalog, wanted, text),
    ensures
        overlap.total == wanted.len(),
        overlap.matched <= overlap.total,
        (forall|i: int|
            0 <= i < wanted.len() ==> tokens_of(catalog, text).contains(#[trigger] wanted[i]))
            ==> overlap.matched == overlap.total,
        (forall|i: int|
            0 <= i < wanted.len() ==> !tokens_of(catalog, text).contains(#[trigger] wanted[i]))
            ==> overlap.matched == 0,
        overlap.matched == overlap.total ==> forall|i: int|
            0 <= i < wanted.len() ==> tokens_of(catalog, text).contains(#[trigger] wanted[i]),
{
    lemma_bounds_of_matches(wanted, tokens_of(catalog, text));
}

/// How many of the wanted tokens can be matched: all where all are there, and
/// none where none is.
proof fn lemma_bounds_of_matches(wanted: Seq<Seq<char>>, tokens: Seq<Seq<char>>)
    ensures
        matched_count(wanted, tokens) <= wanted.len(),
        matched_count(wanted, tokens) == wanted.len() <==> forall|i: int|
            0 <= i < wanted.len() ==> tokens.contains(#[trigger] wanted[i]),
        matched_count(wanted, tokens) == 0 <==> forall|i: int|
            0 <= i < wanted.len() ==> !tokens.contains(#[trigger] wanted[i]),
    decreases wanted.len(),
{
    if wanted.len() > 0 {
        let front = wanted.drop_last();
        lemma_bounds_of_matches(front, tokens);
        assert(wanted[wanted.len() - 1] == wanted.last());
        assert(forall|i: int| 0 <= i < front.len() ==> #[trigger] front[i] == wanted[i]);
        if matched_count(wanted, tokens) == wanted.len() {
            assert forall|i: int| 0 <= i < wanted.len() implies tokens.contains(
                #[trigger] wanted[i],
            ) by {
                if i < front.len() {
                    assert(tokens.contains(front[i]));
                }
            }
        }
        if matched_count(wanted, tokens) == 0 {
            assert forall|i: int| 0 <= i < wanted.len() implies !tokens.contains(
                #[trigger] wanted[i],
            ) by {
                if i < front.len() {
                    assert(!tokens.contains(front[i]));
                }
            }
        }
        if forall|i: int| 0 <= i < wanted.len() ==> tokens.contains(#[trigger] wanted[i]) {
            assert forall|i: int| 0 <= i < front.len() implies tokens.contains(
                #[trigger] front[i],
            ) by {
                assert(tokens.contains(wanted[i]));
            }
        }
        if forall|i: int| 0 <= i < wanted.len() ==> !tokens.contains(#[trigger] wanted[i]) {
            assert forall|i: int| 0 <= i < front.len() implies !tokens.contains(
                #[trigger] front[i],
            ) by {
                assert(!tokens.contains(wanted[i]));
            }
        }
    }
}

/// The intent that is found shares a token with the query, no intent shares
/// more, and no later one as many; none is found just where no intent shares
/// any.
pub proof fn law_found_intent_shares_the_most_tokens(
    found: IntentMatch,
    catalog: SemanticAliasCatalog,
    wanted: Seq<Seq<char>>,
    intents: Seq<Seq<char>>,
    i: int,
)
    requires
        is_intent_match(found, catalog, wanted, intents),
        0 <= i < intents.len(),
    ensures
        found.overlap.total == wanted.len(),
        found.overlap.matched >= matched_count(wanted, tokens_of(catalog, intents[i])),
        found.intent matches Some(intent) ==> intents.contains(intent@) && found.overlap.matched
            == matched_count(wanted, tokens_of(catalog, intent@)) && found.overlap.matched > 0,
        found.intent is None ==> matched_count(wanted, tokens_of(catalog, intents[i])) == 0
            && found.overlap.matched == 0,
        found.intent matches Some(intent) ==> (matched_count(
            wanted,
            tokens_of(catalog, intents[i]),
        ) == found.overlap.matched ==> intent@ == intents[i] || exists|later: int|
            i < later < intents.len() && #[trigger] intents[later] == intent@),
{
    let counts = intent_counts(catalog, wanted, intents);
    assert(counts[i] == matched_count(wanted, tokens_of(catalog, intents[i])));
    if let Some(intent) = found.intent {
        let at = choose|at: int| #[trigger]
            is_last_largest(counts, at) && intent@ == intents[at] && found.overlap.matched
                == counts[at];
        assert(counts[at] == matched_count(wanted, tokens_of(catalog, intents[at])));
        assert(intents.contains(intents[at]));
    }
}

/// The document that a package is ranked by says what the package says.
pub proof fn law_ranking_documents_say_what_the_package_says(
    doc: SearchDocument,
    catalog: SemanticAliasCatalog,
    package: ResourcePackage,
)
    requires
        is_document_of(doc, catalog, package),
    ensures
        doc.resource_did@ == package.resource_did@,
        doc.package_version@ == package.package_version@,
        doc.package_hash@ == package.package_hash@,
        doc.resource_type@ == resource_type_name(package.resource_type),
        doc.lifecycle_state@ == package.metadata.lifecycle_state@,
        texts(doc.protocols@) == package_protocols(package),
        texts(doc.service_endpoints@) == package_endpoints(package),
        occurs_in(doc.description@, normalized(package.metadata.description@)),
{
    let (projection, cursor) = choose|projection: DiscoveryPackageProjection, cursor: i64|
        projects(projection, catalog, package) && #[trigger] documents(
            doc,
            cursor,
            package,
            projection,
        );
    law_search_documents_say_what_the_package_says(doc, cursor, package, projection);
    law_projections_say_what_the_package_says(projection, catalog, package);
}

} // verus!
