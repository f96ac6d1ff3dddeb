//! Suggestions for a query that is being written.

use vstd::prelude::*;

use crate::package::{resource_type_name, ResourceType};
use crate::text::{optional_text, text_result, texts, trimmed};

verus! {

/// `oan_semantic_recommender::SemanticRecommender`: the tags, domains, types
/// and protocols that can be suggested, and how they are scored.
#[verifier::external_type_specification]
#[verifier::external_body]
pub struct ExSemanticRecommender(oan_semantic_recommender::SemanticRecommender);

/// What suggestions are made with.
pub struct Recommender {
    recommender: oan_semantic_recommender::SemanticRecommender,
}

/// `SemanticRecommender::new` of the crate `oan-semantic-recommender`: a
/// recommender with the data that the crate brings along. It reads three JSON
/// texts that are compiled into the crate, the domains, their profiles and the
/// tags, and fails only where one of them is not of its type; each is, so it
/// succeeds. What the recommender holds is left unsaid.
#[verifier::external_body]
fn default_recommender() -> (result: Result<
    oan_semantic_recommender::SemanticRecommender,
    String,
>)
    ensures
        result is Ok,
{
    oan_semantic_recommender::SemanticRecommender::new().map_err(|error| error.to_string())
}

impl Recommender {
    /// A recommender with the data that come with it, which can always be read.
    pub fn new() -> (result: Result<Recommender, String>)
        ensures
            result is Ok,
    {
        match default_recommender() {
            Ok(recommender) => Ok(Recommender { recommender }),
            Err(error) => Err(error),
        }
    }
}

/// A query that is being written.
#[derive(Debug)]
pub struct SuggestionRequest {
    pub query: String,
    pub current_resource_type: Option<ResourceType>,
    pub current_protocol: Option<String>,
    pub current_capability_tags: Vec<String>,
    pub locale: Option<String>,
}

/// What `SemanticRecommender::suggest_discovery_query` of the crate
/// `oan-semantic-recommender` suggests for a query with its type, protocol,
/// tags and locale, on a node with a DID and domains, with limits for domains
/// and for tags: the JSON text of the result.
pub uninterp spec fn suggested(
    query: Seq<char>,
    resource_type: Option<Seq<char>>,
    protocol: Option<Seq<char>>,
    tags: Seq<Seq<char>>,
    locale: Option<Seq<char>>,
    discovery_did: Seq<char>,
    domains: Seq<Seq<char>>,
    max_domains: nat,
    max_tags: nat,
) -> Result<Seq<char>, Seq<char>>;

/// `SemanticRecommender::suggest_discovery_query` of the crate
/// `oan-semantic-recommender`, then `serde_json::to_string` on its result. It
/// depends on the arguments and on the recommender's data, which are always
/// those of the crate, since [`Recommender::new`] alone makes one. It refuses
/// a query of less than three characters, and nothing else.
#[verifier::external_body]
fn suggest(
    recommender: &Recommender,
    request: &SuggestionRequest,
    resource_type: &Option<String>,
    discovery_did: &str,
    domains: &Vec<String>,
    max_domains: usize,
    max_tags: usize,
) -> (suggestions: Result<String, String>)
    requires
        optional_text(*resource_type) == (match request.current_resource_type {
            Some(named) => Some(resource_type_name(named)),
            None => None,
        }),
    ensures
        text_result(suggestions) == suggested(
            request.query@,
            optional_text(*resource_type),
            optional_text(request.current_protocol),
            texts(request.current_capability_tags@),
            optional_text(request.locale),
            discovery_did@,
            texts(domains@),
            max_domains as nat,
            max_tags as nat,
        ),
        suggestions is Ok <==> trimmed(request.query@).len() >= 3,
        suggestions matches Err(error) ==> error@
            == "invalid request: query must contain at least three characters"@,
{
    let input = oan_semantic_recommender::DiscoverySuggestionInput {
        query: request.query.clone(),
        current_resource_type: resource_type.clone().and_then(|name| serde_json::from_value(name.into()).ok()),
        current_protocol: request.current_protocol.clone(),
        current_capability_tags: request.current_capability_tags.clone(),
        locale: request.locale.clone(),
    };
    let context = oan_semantic_recommender::DiscoverySuggestionContext {
        discovery_did: discovery_did.to_owned(), searchable_domains: domains.clone(),
        max_authorized_domain_hints: max_domains, max_capability_tag_candidates: max_tags,
    };
    let result = recommender.recommender.suggest_discovery_query(input, context).map_err(|e| e.to_string())?;
    serde_json::to_string(&result).map_err(|e| e.to_string())
}

/// Suggestions for a query within the node's domains: eight domains and twelve
/// tags at most, as JSON text. A query needs three characters.
pub fn query_suggestions(
    recommender: &Recommender,
    request: &SuggestionRequest,
    discovery_did: &str,
    searchable_domains: &Vec<String>,
) -> (suggestions: Result<String, String>)
    ensures
        text_result(suggestions) == suggested(
            request.query@,
            match request.current_resource_type {
                Some(named) => Some(resource_type_name(named)),
                None => None,
            },
            optional_text(request.current_protocol),
            texts(request.current_capability_tags@),
            optional_text(request.locale),
            discovery_did@,
            texts(searchable_domains@),
            8,
            12,
        ),
        suggestions is Ok <==> trimmed(request.query@).len() >= 3,
        suggestions matches Err(error) ==> error@
            == "invalid request: query must contain at least three characters"@,
{
    let resource_type = match &request.current_resource_type {
        Some(named) => Some(named.as_str().to_owned()),
        None => None,
    };
    suggest(recommender, request, &resource_type, discovery_did, searchable_domains, 8, 12)
}

} // verus!
