//! What is indexed of a package: its projection, its search document, and the
//! texts that are embedded.

use vstd::prelude::*;

use crate::json::{text_member, JsonValue};
use crate::ordering::{
    law_sorted_texts_are_the_different_ones, sort_and_dedup, sorted_set, text_less,
};
use crate::package::{
    resource_type_name, ExampleValue, OanMetadata, ResourcePackage, ServiceEndpoint,
};
use crate::text::{
    ascii_lower, contains_text, copy_texts, extend_texts, first_chars,
    law_first_chars_are_the_start, lemma_texts_push, occurs_in, optional_text, stands_at,
    take_chars, texts, to_ascii_lower,
};
use crate::tokens::{semantic_tokens, tokens_of, Lexicon, SemanticAliasCatalog};
use crate::words::{
    are_unique_texts, decimal, decimal_text, digits_value, join_texts, joined, keep_non_empty,
    law_decimal_denotes_the_number, law_every_part_stands_in_the_joined_text,
    law_joining_goes_part_by_part, law_normalization_is_idempotent,
    law_normalized_text_keeps_the_words, law_normalized_texts_are_added,
    law_unique_texts_stay_unique, law_white_space_parts_words, lemma_non_empty_parts_of_both,
    non_empty_parts, normalize_semantic_text, normalized, push_unique_text, push_unique_texts,
    to_lower, unicode_lower, with_new_text, with_new_texts, words_of,
};

verus! {

/// Each of `values`, normalised.
pub open spec fn all_normalized(values: Seq<Seq<char>>) -> Seq<Seq<char>> {
    values.map_values(|value: Seq<char>| normalized(value))
}

/// The normalised non-empty texts of `values`, with a blank between them.
pub open spec fn raw_search_text(values: Seq<Seq<char>>) -> Seq<char> {
    joined(non_empty_parts(all_normalized(values)), " "@)
}

/// A text followed by tokens, with a blank before each.
pub open spec fn text_with_tokens(text: Seq<char>, tokens: Seq<Seq<char>>) -> Seq<char> {
    normalized(text + " "@ + joined(tokens, " "@))
}

/// What is searched for `values`: their text in lower case, then its tokens.
pub open spec fn search_text_of(
    catalog: SemanticAliasCatalog,
    values: Seq<Seq<char>>,
) -> Seq<char> {
    let raw = raw_search_text(values);
    text_with_tokens(unicode_lower(raw), tokens_of(catalog, raw))
}

/// A text followed by tokens, with a blank before each.
pub fn append_tokens(text: &str, tokens: &Vec<String>) -> (joint: String)
    ensures
        joint@ == text_with_tokens(text@, texts(tokens@)),
{
    let mut joint = text.to_owned();
    joint.append(" ");
    joint.append(&join_texts(tokens, " "));
    normalize_semantic_text(&joint)
}

/// The normalised non-empty texts of `values`, with a blank between them.
pub fn joint_search_text(values: &Vec<String>) -> (text: String)
    ensures
        text@ == raw_search_text(texts(values@)),
{
    broadcast use lemma_texts_push;

    let mut parts: Vec<String> = Vec::new();
    let mut i: usize = 0;
    assert(texts(parts@) =~= all_normalized(texts(values@)).take(0));
    while i < values.len()
        invariant
            i <= values@.len(),
            texts(parts@) == all_normalized(texts(values@)).take(i as int),
        decreases values@.len() - i,
    {
        parts.push(normalize_semantic_text(&values[i]));
        i = i + 1;
        assert(all_normalized(texts(values@)).take(i as int) =~= all_normalized(
            texts(values@),
        ).take(i as int - 1).push(normalized(values@[i as int - 1]@)));
    }
    assert(texts(parts@) =~= all_normalized(texts(values@)));
    join_texts(&keep_non_empty(parts), " ")
}

/// What is searched for `values`.
pub fn semantic_search_text(lexicon: &Lexicon, values: &Vec<String>) -> (text: String)
    ensures
        text@ == search_text_of(lexicon.catalog, texts(values@)),
{
    let raw = joint_search_text(values);
    append_tokens(&to_lower(&raw), &semantic_tokens(lexicon, &raw))
}

/// The protocols of `bindings`, in lower case.
pub open spec fn binding_protocols(bindings: Seq<JsonValue>) -> Seq<Seq<char>>
    decreases bindings.len(),
{
    if bindings.len() == 0 {
        Seq::empty()
    } else {
        let rest = binding_protocols(bindings.drop_last());
        match text_member(bindings.last(), "protocol"@) {
            Some(protocol) => rest.push(ascii_lower(protocol)),
            None => rest,
        }
    }
}

/// The protocols of `services`, in lower case.
pub open spec fn service_protocols(services: Seq<ServiceEndpoint>) -> Seq<Seq<char>>
    decreases services.len(),
{
    if services.len() == 0 {
        Seq::empty()
    } else {
        let rest = service_protocols(services.drop_last());
        match services.last().protocol {
            Some(protocol) => rest.push(ascii_lower(protocol@)),
            None => rest,
        }
    }
}

/// The protocols of a package, in lower case, sorted, each once.
pub open spec fn package_protocols(package: ResourcePackage) -> Seq<Seq<char>> {
    sorted_set(
        binding_protocols(package.metadata.protocol_bindings@) + service_protocols(
            package.metadata.services@,
        ),
    )
}

/// The endpoints of `services`.
pub open spec fn endpoints_of(services: Seq<ServiceEndpoint>) -> Seq<Seq<char>> {
    services.map_values(|service: ServiceEndpoint| service.service_endpoint@)
}

/// The endpoints of a package, sorted, each once.
pub open spec fn package_endpoints(package: ResourcePackage) -> Seq<Seq<char>> {
    sorted_set(endpoints_of(package.metadata.services@))
}

/// The protocols of `bindings`, in lower case.
fn protocols_of_bindings(bindings: &Vec<JsonValue>) -> (protocols: Vec<String>)
    ensures
        texts(protocols@) == binding_protocols(bindings@),
{
    broadcast use lemma_texts_push;

    let mut protocols: Vec<String> = Vec::new();
    let mut i: usize = 0;
    assert(texts(protocols@) =~= binding_protocols(bindings@.take(0)));
    while i < bindings.len()
        invariant
            i <= bindings@.len(),
            texts(protocols@) == binding_protocols(bindings@.take(i as int)),
        decreases bindings@.len() - i,
    {
        assert(bindings@.take(i as int + 1).drop_last() =~= bindings@.take(i as int));
        if let Some(protocol) = bindings[i].get_text("protocol") {
            protocols.push(to_ascii_lower(protocol));
        }
        i = i + 1;
    }
    assert(bindings@.take(i as int) =~= bindings@);
    protocols
}

/// The protocols of `services`, in lower case.
fn protocols_of_services(services: &Vec<ServiceEndpoint>) -> (protocols: Vec<String>)
    ensures
        texts(protocols@) == service_protocols(services@),
{
    broadcast use lemma_texts_push;

    let mut protocols: Vec<String> = Vec::new();
    let mut i: usize = 0;
    assert(texts(protocols@) =~= service_protocols(services@.take(0)));
    while i < services.len()
        invariant
            i <= services@.len(),
            texts(protocols@) == service_protocols(services@.take(i as int)),
        decreases services@.len() - i,
    {
        assert(services@.take(i as int + 1).drop_last() =~= services@.take(i as int));
        if let Some(protocol) = &services[i].protocol {
            protocols.push(to_ascii_lower(protocol));
        }
        i = i + 1;
    }
    assert(services@.take(i as int) =~= services@);
    protocols
}

/// The protocols of a package, in lower case, sorted, each once.
fn protocols_of_package(package: &ResourcePackage) -> (protocols: Vec<String>)
    ensures
        texts(protocols@) == package_protocols(*package),
{
    let mut found = protocols_of_bindings(&package.metadata.protocol_bindings);
    extend_texts(&mut found, &protocols_of_services(&package.metadata.services));
    sort_and_dedup(&found)
}

/// The endpoints of a package, sorted, each once.
fn endpoints_of_package(package: &ResourcePackage) -> (endpoints: Vec<String>)
    ensures
        texts(endpoints@) == package_endpoints(*package),
{
    let services = &package.metadata.services;
    let mut found: Vec<String> = Vec::new();
    let mut i: usize = 0;
    while i < services.len()
        invariant
            i <= services@.len(),
            texts(found@) =~= endpoints_of(services@).take(i as int),
        decreases services@.len() - i,
    {
        broadcast use lemma_texts_push;

        found.push(services[i].service_endpoint.clone());
        i = i + 1;
        assert(endpoints_of(services@).take(i as int) =~= endpoints_of(services@).take(
            i as int - 1,
        ).push(services@[i as int - 1].service_endpoint@));
    }
    assert(texts(found@) =~= endpoints_of(services@));
    sort_and_dedup(&found)
}

/// What is indexed of a package for structured and text search.
#[derive(Debug)]
pub struct DiscoveryPackageProjection {
    pub resource_type: String,
    pub lifecycle_state: String,
    pub capability_tags: Vec<String>,
    pub protocols: Vec<String>,
    pub service_endpoints: Vec<String>,
    pub tag_text: String,
    pub search_text: String,
}

/// The texts that the search text of a package is made of.
pub open spec fn search_values(package: ResourcePackage) -> Seq<Seq<char>> {
    seq![
        package.resource_did@,
        resource_type_name(package.resource_type),
        package.metadata.name@,
        package.metadata.description@,
        joined(texts(package.metadata.capability_tags@), " "@),
        joined(package_protocols(package), " "@),
        joined(package_endpoints(package), " "@),
    ]
}

/// The texts that the tag text of a package is made of.
pub open spec fn tag_values(package: ResourcePackage) -> Seq<Seq<char>> {
    seq![
        package.resource_did@,
        resource_type_name(package.resource_type),
        joined(texts(package.metadata.capability_tags@), " "@),
        joined(package_protocols(package), " "@),
        joined(package_endpoints(package), " "@),
    ]
}

/// Whether `projection` is what is indexed of `package`.
pub open spec fn projects(
    projection: DiscoveryPackageProjection,
    catalog: SemanticAliasCatalog,
    package: ResourcePackage,
) -> bool {
    &&& projection.resource_type@ == resource_type_name(package.resource_type)
    &&& projection.lifecycle_state@ == package.metadata.lifecycle_state@
    &&& texts(projection.capability_tags@) == texts(package.metadata.capability_tags@)
    &&& texts(projection.protocols@) == package_protocols(package)
    &&& texts(projection.service_endpoints@) == package_endpoints(package)
    &&& projection.tag_text@ == search_text_of(catalog, tag_values(package))
    &&& projection.search_text@ == search_text_of(catalog, search_values(package))
}

/// What is indexed of a package for structured and text search.
pub fn discovery_package_projection(lexicon: &Lexicon, package: &ResourcePackage) -> (projection:
    DiscoveryPackageProjection)
    ensures
        projects(projection, lexicon.catalog, *package),
{
    let protocols = protocols_of_package(package);
    let service_endpoints = endpoints_of_package(package);
    let mut search: Vec<String> = Vec::new();
    search.push(package.resource_did.clone());
    search.push(package.resource_type.as_str().to_owned());
    search.push(package.metadata.name.clone());
    search.push(package.metadata.description.clone());
    search.push(join_texts(&package.metadata.capability_tags, " "));
    search.push(join_texts(&protocols, " "));
    search.push(join_texts(&service_endpoints, " "));
    assert(texts(search@) =~= search_values(*package));
    let mut tags: Vec<String> = Vec::new();
    tags.push(package.resource_did.clone());
    tags.push(package.resource_type.as_str().to_owned());
    tags.push(join_texts(&package.metadata.capability_tags, " "));
    tags.push(join_texts(&protocols, " "));
    tags.push(join_texts(&service_endpoints, " "));
    assert(texts(tags@) =~= tag_values(*package));
    DiscoveryPackageProjection {
        resource_type: package.resource_type.as_str().to_owned(),
        lifecycle_state: package.metadata.lifecycle_state.clone(),
        capability_tags: copy_texts(&package.metadata.capability_tags),
        protocols,
        service_endpoints,
        tag_text: semantic_search_text(lexicon, &tags),
        search_text: semantic_search_text(lexicon, &search),
    }
}

/// What `serde_json` writes, without blanks, for the value that a JSON text
/// denotes; nothing where the text is no JSON.
pub uninterp spec fn compact_json(text: Seq<char>) -> Option<Seq<char>>;

/// `serde_json::from_str` into a `serde_json::Value`, then its `to_string`:
/// the compact form of a JSON text, a function of the text alone.
#[verifier::external_body]
fn compact_json_text(text: &str) -> (compact: Option<String>)
    ensures
        optional_text(compact) == compact_json(text@),
{
    serde_json::from_str::<serde_json::Value>(text).ok().map(|value| value.to_string())
}

/// `text`, normalised, where that is not empty.
pub open spec fn non_blank(text: Seq<char>) -> Option<Seq<char>> {
    if normalized(text).len() > 0 {
        Some(normalized(text))
    } else {
        None
    }
}

/// The text of an example: a text normalised, or the first thousand characters
/// of a structure's compact form.
pub open spec fn example_text(value: ExampleValue) -> Option<Seq<char>> {
    match value {
        ExampleValue::Text(text) => non_blank(text@),
        ExampleValue::Structured(json) => match compact_json(json@) {
            Some(compact) => structured_example_text(compact),
            None => None,
        },
        ExampleValue::Scalar(_) => None,
    }
}

/// The text of a structured example by its compact form.
pub open spec fn structured_example_text(compact: Seq<char>) -> Option<Seq<char>> {
    match non_blank(compact) {
        Some(text) => Some(first_chars(text, 1_000)),
        None => None,
    }
}

/// The text of a structured example by its compact form.
pub fn text_of_structured_example(compact: &str) -> (text: Option<String>)
    ensures
        optional_text(text) == structured_example_text(compact@),
{
    let normalized_text = normalize_semantic_text(compact);
    if normalized_text.as_str().is_empty() {
        None
    } else {
        Some(take_chars(&normalized_text, 1_000))
    }
}

/// The text of an example.
pub fn json_example_to_text(value: &ExampleValue) -> (text: Option<String>)
    ensures
        optional_text(text) == example_text(*value),
{
    match value {
        ExampleValue::Text(text) => {
            let normalized_text = normalize_semantic_text(text);
            if normalized_text.as_str().is_empty() {
                None
            } else {
                Some(normalized_text)
            }
        },
        ExampleValue::Structured(json) => match compact_json_text(json) {
            Some(compact) => text_of_structured_example(&compact),
            None => None,
        },
        ExampleValue::Scalar(_) => None,
    }
}

/// The texts of `examples`, each normalised and once.
pub open spec fn example_texts(examples: Seq<ExampleValue>) -> Seq<Seq<char>>
    decreases examples.len(),
{
    if examples.len() == 0 {
        Seq::empty()
    } else {
        let rest = example_texts(examples.drop_last());
        match example_text(examples.last()) {
            Some(text) => with_new_text(rest, text),
            None => rest,
        }
    }
}

/// The first twenty of a list, or all of a shorter one.
pub open spec fn first_twenty<A>(values: Seq<A>) -> Seq<A> {
    values.take(
        if values.len() < 20 {
            values.len() as int
        } else {
            20
        },
    )
}

/// The texts of the first twenty examples.
fn texts_of_examples(examples: &Vec<ExampleValue>) -> (found: Vec<String>)
    ensures
        texts(found@) == example_texts(first_twenty(examples@)),
{
    let mut found: Vec<String> = Vec::new();
    let ghost taken = first_twenty(examples@);
    let mut i: usize = 0;
    assert(texts(found@) =~= example_texts(taken.take(0)));
    while i < examples.len() && i < 20
        invariant
            i <= examples@.len(),
            i <= 20,
            taken == first_twenty(examples@),
            texts(found@) == example_texts(taken.take(i as int)),
        decreases examples@.len() - i,
    {
        assert(taken.take(i as int + 1).drop_last() =~= taken.take(i as int));
        assert(taken.take(i as int + 1).last() == examples@[i as int]);
        if let Some(text) = json_example_to_text(&examples[i]) {
            push_unique_text(&mut found, &text);
        }
        i = i + 1;
    }
    assert(taken.take(i as int) =~= taken);
    found
}

/// What is embedded and ranked of a package.
#[derive(Debug)]
pub struct SearchDocument {
    pub resource_did: String,
    pub cursor: i64,
    pub package_version: String,
    pub did_document_hash: String,
    pub metadata_hash: String,
    pub package_hash: String,
    pub resource_type: String,
    pub lifecycle_state: String,
    pub capability_tags: Vec<String>,
    pub protocols: Vec<String>,
    pub service_endpoints: Vec<String>,
    pub name: String,
    pub description: String,
    pub examples: Vec<String>,
    pub use_cases: Vec<String>,
    pub tag_text: String,
    pub search_text: String,
    pub semantic_source_hash: String,
}

/// `values` with the optional text that is new.
pub open spec fn with_optional_text(
    values: Seq<Seq<char>>,
    value: Option<String>,
) -> Seq<Seq<char>> {
    match value {
        Some(text) => with_new_text(values, text@),
        None => values,
    }
}

/// The descriptions of a package, each normalised and once: that of its
/// metadata, the name, description and capability of its resource
/// description, the capability of its agent description.
pub open spec fn package_descriptions(package: ResourcePackage) -> Seq<Seq<char>> {
    let base = with_new_text(Seq::empty(), package.metadata.description@);
    match package.did_document.oan_metadata {
        Some(metadata) => {
            let described = match metadata.resource_description {
                Some(description) => with_optional_text(
                    with_optional_text(
                        with_optional_text(base, description.name),
                        description.description,
                    ),
                    description.capability_description,
                ),
                None => base,
            };
            match metadata.agent_description {
                Some(description) => with_new_text(
                    described,
                    description.capability_description@,
                ),
                None => described,
            }
        },
        None => base,
    }
}

/// The use cases of a package, each normalised and once: the first twenty of
/// its resource description, then those of its agent description.
pub open spec fn package_use_cases(package: ResourcePackage) -> Seq<Seq<char>> {
    match package.did_document.oan_metadata {
        Some(metadata) => {
            let base = match metadata.resource_description {
                Some(description) => with_new_texts(
                    Seq::empty(),
                    first_twenty(texts(description.use_case_examples@)),
                ),
                None => Seq::empty(),
            };
            match metadata.agent_description {
                Some(description) => with_new_texts(
                    base,
                    first_twenty(texts(description.use_case_examples@)),
                ),
                None => base,
            }
        },
        None => Seq::empty(),
    }
}

/// The example texts of a package.
pub open spec fn package_examples(package: ResourcePackage) -> Seq<Seq<char>> {
    match package.did_document.oan_metadata {
        Some(metadata) => match metadata.resource_description {
            Some(description) => example_texts(first_twenty(description.examples@)),
            None => Seq::empty(),
        },
        None => Seq::empty(),
    }
}

/// The capability tags that the DID document's metadata names.
pub open spec fn metadata_tags(metadata: OanMetadata) -> Seq<Seq<char>> {
    let own = texts(metadata.capability_tags@);
    let described = match metadata.resource_description {
        Some(description) => own + texts(description.capability_tags@),
        None => own,
    };
    match metadata.agent_description {
        Some(description) => described + texts(description.capability_tags@),
        None => described,
    }
}

/// All capability tags of a package, sorted, each once.
pub open spec fn package_tags(package: ResourcePackage) -> Seq<Seq<char>> {
    let own = texts(package.metadata.capability_tags@);
    sorted_set(
        match package.did_document.oan_metadata {
            Some(metadata) => own + metadata_tags(metadata),
            None => own,
        },
    )
}

/// The name of a package: that of its resource description, or else that of
/// its metadata.
pub open spec fn package_name(package: ResourcePackage) -> Seq<char> {
    match package.did_document.oan_metadata {
        Some(metadata) => match metadata.resource_description {
            Some(description) => match description.name {
                Some(name) => name@,
                None => package.metadata.name@,
            },
            None => package.metadata.name@,
        },
        None => package.metadata.name@,
    }
}

/// What `oan_crypto::sha256_hex` gives for the UTF-8 bytes of a text.
pub uninterp spec fn sha256_hex_of(text: Seq<char>) -> Seq<char>;

/// The hexadecimal digits, in lower case.
pub open spec fn is_hex_digit(ch: char) -> bool {
    ('0' <= ch <= '9') || ('a' <= ch <= 'f')
}

/// `oan_crypto::sha256_hex`: the SHA-256 digest of the text's bytes, as
/// sixty-four hexadecimal digits in lower case.
#[verifier::external_body]
pub(crate) fn sha256_hex(text: &str) -> (digest: String)
    ensures
        digest@ == sha256_hex_of(text@),
        digest@.len() == 64,
        forall|i: int| 0 <= i < 64 ==> is_hex_digit(#[trigger] digest@[i]),
{
    oan_crypto::sha256_hex(text.as_bytes())
}

/// The hash of a text that is embedded.
pub open spec fn source_hash(text: Seq<char>) -> Seq<char> {
    "sha256:"@ + sha256_hex_of(text)
}

/// The hash of a text that is embedded.
fn source_hash_of(text: &str) -> (hash: String)
    ensures
        hash@ == source_hash(text@),
{
    let mut hash = "sha256:".to_owned();
    hash.append(&sha256_hex(text));
    hash
}

/// What the text that is embedded for a resource is made of.
pub struct SemanticEmbeddingTextInput<'a> {
    pub name: &'a str,
    pub resource_type: &'a str,
    pub description: &'a str,
    pub capability_tags: &'a Vec<String>,
    pub protocols: &'a Vec<String>,
    pub service_endpoints: &'a Vec<String>,
    pub examples: &'a Vec<String>,
    pub use_cases: &'a Vec<String>,
}

/// A line for each of `items`, with `label` before it.
pub open spec fn labelled_lines(label: Seq<char>, items: Seq<Seq<char>>) -> Seq<char>
    decreases items.len(),
{
    if items.len() == 0 {
        Seq::empty()
    } else {
        labelled_lines(label, items.drop_last()) + label + items.last() + "\n"@
    }
}

/// The whole text that is embedded for a resource, before it is cut.
pub open spec fn whole_embedding_text(
    name: Seq<char>,
    resource_type: Seq<char>,
    description: Seq<char>,
    tags: Seq<Seq<char>>,
    protocols: Seq<Seq<char>>,
    endpoints: Seq<Seq<char>>,
    examples: Seq<Seq<char>>,
    use_cases: Seq<Seq<char>>,
) -> Seq<char> {
    "Name:\n"@ + name + "\n\nResource type:\n"@ + resource_type + "\n\nDescription:\n"@
        + description + "\n\nCapability tags:\n"@ + joined(tags, ", "@) + "\n\nProtocols:\n"@
        + joined(protocols, ", "@) + "\n\nServices:\n"@ + joined(endpoints, "\n"@)
        + "\n\nExamples:\n"@ + joined(examples, "\n"@) + "\n\nUse cases:\n"@ + joined(
        use_cases,
        "\n"@,
    ) + "\n\nTag view:\n"@ + labelled_lines("capability "@, tags) + "\nContext view:\n"@ + name
        + " provides "@ + resource_type + " capabilities for "@ + description
        + "\n\nIntent view:\n"@ + labelled_lines("User wants to "@, use_cases) + labelled_lines(
        "Example request: "@,
        examples,
    )
}

/// The text that is embedded for a resource: its first eight thousand
/// characters.
pub open spec fn embedding_text(
    name: Seq<char>,
    resource_type: Seq<char>,
    description: Seq<char>,
    tags: Seq<Seq<char>>,
    protocols: Seq<Seq<char>>,
    endpoints: Seq<Seq<char>>,
    examples: Seq<Seq<char>>,
    use_cases: Seq<Seq<char>>,
) -> Seq<char> {
    first_chars(
        whole_embedding_text(
            name,
            resource_type,
            description,
            tags,
            protocols,
            endpoints,
            examples,
            use_cases,
        ),
        8_000,
    )
}

/// A line for each of `items`, with `label` before it.
fn labelled_lines_of(label: &str, items: &Vec<String>) -> (lines: String)
    ensures
        lines@ == labelled_lines(label@, texts(items@)),
{
    let mut lines = String::new();
    let mut i: usize = 0;
    assert(lines@ =~= labelled_lines(label@, texts(items@).take(0)));
    while i < items.len()
        invariant
            i <= items@.len(),
            lines@ == labelled_lines(label@, texts(items@).take(i as int)),
        decreases items@.len() - i,
    {
        assert(texts(items@).take(i as int + 1).drop_last() =~= texts(items@).take(i as int));
        lines.append(label);
        lines.append(&items[i]);
        lines.append("\n");
        i = i + 1;
    }
    assert(texts(items@).take(i as int) =~= texts(items@));
    lines
}

/// The text that is embedded for a resource.
pub fn semantic_embedding_text(input: &SemanticEmbeddingTextInput<'_>) -> (text: String)
    ensures
        text@ == embedding_text(
            input.name@,
            input.resource_type@,
            input.description@,
            texts(input.capability_tags@),
            texts(input.protocols@),
            texts(input.service_endpoints@),
            texts(input.examples@),
            texts(input.use_cases@),
        ),
{
    let mut text = "Name:\n".to_owned();
    text.append(input.name);
    text.append("\n\nResource type:\n");
    text.append(input.resource_type);
    text.append("\n\nDescription:\n");
    text.append(input.description);
    text.append("\n\nCapability tags:\n");
    text.append(&join_texts(input.capability_tags, ", "));
    text.append("\n\nProtocols:\n");
    text.append(&join_texts(input.protocols, ", "));
    text.append("\n\nServices:\n");
    text.append(&join_texts(input.service_endpoints, "\n"));
    text.append("\n\nExamples:\n");
    text.append(&join_texts(input.examples, "\n"));
    text.append("\n\nUse cases:\n");
    text.append(&join_texts(input.use_cases, "\n"));
    text.append("\n\nTag view:\n");
    text.append(&labelled_lines_of("capability ", input.capability_tags));
    text.append("\nContext view:\n");
    text.append(input.name);
    text.append(" provides ");
    text.append(input.resource_type);
    text.append(" capabilities for ");
    text.append(input.description);
    text.append("\n\nIntent view:\n");
    text.append(&labelled_lines_of("User wants to ", input.use_cases));
    text.append(&labelled_lines_of("Example request: ", input.examples));
    take_chars(&text, 8_000)
}

/// The text that is embedded for a search document.
pub open spec fn document_embedding_text(doc: SearchDocument) -> Seq<char> {
    embedding_text(
        doc.name@,
        doc.resource_type@,
        doc.description@,
        texts(doc.capability_tags@),
        texts(doc.protocols@),
        texts(doc.service_endpoints@),
        texts(doc.examples@),
        texts(doc.use_cases@),
    )
}

/// The text that is embedded for a search document.
pub fn semantic_document_text(doc: &SearchDocument) -> (text: String)
    ensures
        text@ == document_embedding_text(*doc),
{
    semantic_embedding_text(
        &SemanticEmbeddingTextInput {
            name: &doc.name,
            resource_type: &doc.resource_type,
            description: &doc.description,
            capability_tags: &doc.capability_tags,
            protocols: &doc.protocols,
            service_endpoints: &doc.service_endpoints,
            examples: &doc.examples,
            use_cases: &doc.use_cases,
        },
    )
}

/// Whether `doc` is the search document of a package under `cursor`.
pub open spec fn documents(
    doc: SearchDocument,
    cursor: i64,
    package: ResourcePackage,
    projection: DiscoveryPackageProjection,
) -> bool {
    &&& doc.resource_did@ == package.resource_did@
    &&& doc.cursor == cursor
    &&& doc.package_version@ == package.package_version@
    &&& doc.did_document_hash@ == package.did_document_hash@
    &&& doc.metadata_hash@ == package.metadata_hash@
    &&& doc.package_hash@ == package.package_hash@
    &&& doc.resource_type@ == projection.resource_type@
    &&& doc.lifecycle_state@ == projection.lifecycle_state@
    &&& texts(doc.capability_tags@) == package_tags(package)
    &&& texts(doc.protocols@) == texts(projection.protocols@)
    &&& texts(doc.service_endpoints@) == texts(projection.service_endpoints@)
    &&& doc.name@ == package_name(package)
    &&& doc.description@ == joined(package_descriptions(package), "\n"@)
    &&& texts(doc.examples@) == package_examples(package)
    &&& texts(doc.use_cases@) == package_use_cases(package)
    &&& doc.tag_text@ == projection.tag_text@
    &&& doc.search_text@ == projection.search_text@
    &&& doc.semantic_source_hash@ == source_hash(document_embedding_text(doc))
}

/// Adds the optional text to `values` where it is new.
fn push_optional_text(values: &mut Vec<String>, value: &Option<String>)
    ensures
        texts(final(values)@) == with_optional_text(texts(old(values)@), *value),
{
    if let Some(text) = value {
        push_unique_text(values, text);
    }
}

/// The descriptions of a package, each normalised and once.
fn descriptions_of_package(package: &ResourcePackage) -> (descriptions: Vec<String>)
    ensures
        texts(descriptions@) == package_descriptions(*package),
{
    let mut descriptions: Vec<String> = Vec::new();
    assert(texts(descriptions@) =~= Seq::empty());
    push_unique_text(&mut descriptions, &package.metadata.description);
    if let Some(metadata) = &package.did_document.oan_metadata {
        if let Some(description) = &metadata.resource_description {
            push_optional_text(&mut descriptions, &description.name);
            push_optional_text(&mut descriptions, &description.description);
            push_optional_text(&mut descriptions, &description.capability_description);
        }
        if let Some(description) = &metadata.agent_description {
            push_unique_text(&mut descriptions, &description.capability_description);
        }
    }
    descriptions
}

/// The use cases of a package, each normalised and once.
fn use_cases_of_package(package: &ResourcePackage) -> (use_cases: Vec<String>)
    ensures
        texts(use_cases@) == package_use_cases(*package),
{
    let mut use_cases: Vec<String> = Vec::new();
    assert(texts(use_cases@) =~= Seq::empty());
    if let Some(metadata) = &package.did_document.oan_metadata {
        if let Some(description) = &metadata.resource_description {
            push_unique_texts(&mut use_cases, &description.use_case_examples, 20);
        }
        if let Some(description) = &metadata.agent_description {
            push_unique_texts(&mut use_cases, &description.use_case_examples, 20);
        }
    }
    use_cases
}

/// The example texts of a package.
fn examples_of_package(package: &ResourcePackage) -> (examples: Vec<String>)
    ensures
        texts(examples@) == package_examples(*package),
{
    if let Some(metadata) = &package.did_document.oan_metadata {
        if let Some(description) = &metadata.resource_description {
            return texts_of_examples(&description.examples);
        }
    }
    let none: Vec<String> = Vec::new();
    assert(texts(none@) =~= Seq::empty());
    none
}

/// All capability tags of a package, sorted, each once.
fn tags_of_package(package: &ResourcePackage) -> (tags: Vec<String>)
    ensures
        texts(tags@) == package_tags(*package),
{
    let mut tags = copy_texts(&package.metadata.capability_tags);
    if let Some(metadata) = &package.did_document.oan_metadata {
        let mut named = copy_texts(&metadata.capability_tags);
        if let Some(description) = &metadata.resource_description {
            extend_texts(&mut named, &description.capability_tags);
        }
        if let Some(description) = &metadata.agent_description {
            extend_texts(&mut named, &description.capability_tags);
        }
        assert(texts(named@) == metadata_tags(*metadata));
        extend_texts(&mut tags, &named);
    }
    sort_and_dedup(&tags)
}

/// The name of a package.
fn name_of_package(package: &ResourcePackage) -> (name: String)
    ensures
        name@ == package_name(*package),
{
    if let Some(metadata) = &package.did_document.oan_metadata {
        if let Some(description) = &metadata.resource_description {
            if let Some(name) = &description.name {
                return name.clone();
            }
        }
    }
    package.metadata.name.clone()
}

/// The search document of a package under `cursor`.
pub fn search_document_from_package(
    cursor: i64,
    package: &ResourcePackage,
    projection: &DiscoveryPackageProjection,
) -> (doc: SearchDocument)
    ensures
        documents(doc, cursor, *package, *projection),
{
    let mut doc = SearchDocument {
        resource_did: package.resource_did.clone(),
        cursor,
        package_version: package.package_version.clone(),
        did_document_hash: package.did_document_hash.clone(),
        metadata_hash: package.metadata_hash.clone(),
        package_hash: package.package_hash.clone(),
        resource_type: projection.resource_type.clone(),
        lifecycle_state: projection.lifecycle_state.clone(),
        capability_tags: tags_of_package(package),
        protocols: copy_texts(&projection.protocols),
        service_endpoints: copy_texts(&projection.service_endpoints),
        name: name_of_package(package),
        description: join_texts(&descriptions_of_package(package), "\n"),
        examples: examples_of_package(package),
        use_cases: use_cases_of_package(package),
        tag_text: projection.tag_text.clone(),
        search_text: projection.search_text.clone(),
        semantic_source_hash: String::new(),
    };
    doc.semantic_source_hash = source_hash_of(&semantic_document_text(&doc));
    doc
}

/// The text that the tags of a query are compared with.
pub open spec fn tag_text_of(doc: SearchDocument) -> Seq<char> {
    doc.resource_did@ + " "@ + doc.resource_type@ + " "@ + joined(
        texts(doc.capability_tags@),
        " "@,
    ) + " "@ + joined(texts(doc.protocols@), " "@) + " "@ + joined(
        texts(doc.service_endpoints@),
        " "@,
    ) + " "@ + doc.tag_text@
}

/// The text that the context of a query is compared with.
pub open spec fn context_text_of(doc: SearchDocument) -> Seq<char> {
    doc.name@ + " "@ + doc.resource_type@ + " "@ + doc.description@ + " "@ + joined(
        texts(doc.capability_tags@),
        " "@,
    ) + " "@ + joined(texts(doc.protocols@), " "@) + " "@ + joined(texts(doc.use_cases@), " "@)
        + " "@ + joined(texts(doc.examples@), " "@) + " "@ + doc.search_text@
}

/// The text that a query's terms are counted in: tags twice, context once.
pub open spec fn lexical_text_of(doc: SearchDocument) -> Seq<char> {
    tag_text_of(doc) + " "@ + tag_text_of(doc) + " "@ + context_text_of(doc)
}

/// The text that the tags of a query are compared with.
pub fn semantic_tag_text(doc: &SearchDocument) -> (text: String)
    ensures
        text@ == tag_text_of(*doc),
{
    let mut text = doc.resource_did.clone();
    text.append(" ");
    text.append(&doc.resource_type);
    text.append(" ");
    text.append(&join_texts(&doc.capability_tags, " "));
    text.append(" ");
    text.append(&join_texts(&doc.protocols, " "));
    text.append(" ");
    text.append(&join_texts(&doc.service_endpoints, " "));
    text.append(" ");
    text.append(&doc.tag_text);
    text
}

/// The text that the context of a query is compared with.
pub fn semantic_context_text(doc: &SearchDocument) -> (text: String)
    ensures
        text@ == context_text_of(*doc),
{
    let mut text = doc.name.clone();
    text.append(" ");
    text.append(&doc.resource_type);
    text.append(" ");
    text.append(&doc.description);
    text.append(" ");
    text.append(&join_texts(&doc.capability_tags, " "));
    text.append(" ");
    text.append(&join_texts(&doc.protocols, " "));
    text.append(" ");
    text.append(&join_texts(&doc.use_cases, " "));
    text.append(" ");
    text.append(&join_texts(&doc.examples, " "));
    text.append(" ");
    text.append(&doc.search_text);
    text
}

/// The text that a query's terms are counted in.
pub fn semantic_lexical_text(doc: &SearchDocument) -> (text: String)
    ensures
        text@ == lexical_text_of(*doc),
{
    let tag_text = semantic_tag_text(doc);
    let mut text = tag_text.clone();
    text.append(" ");
    text.append(&tag_text);
    text.append(" ");
    text.append(&semantic_context_text(doc));
    text
}

/// The pseudo queries for capability tags.
pub open spec fn tag_queries(tags: Seq<Seq<char>>) -> Seq<Seq<char>> {
    tags.map_values(|tag: Seq<char>| "Find a resource for capability "@ + tag)
}

/// All intents of a document, each normalised and once: its use cases, its
/// examples, and the pseudo queries made of its description and its tags.
pub open spec fn all_intents(doc: SearchDocument) -> Seq<Seq<char>> {
    let stated = with_new_texts(
        with_new_texts(Seq::empty(), texts(doc.use_cases@)),
        texts(doc.examples@),
    );
    let described = if doc.description@.len() > 0 {
        with_new_text(
            with_new_text(
                stated,
                "Find a "@ + doc.resource_type@ + " for "@ + doc.description@,
            ),
            "Use "@ + doc.name@ + " to "@ + doc.description@,
        )
    } else {
        stated
    };
    with_new_texts(described, tag_queries(texts(doc.capability_tags@)))
}

/// The intents of a document: the first sixteen.
pub open spec fn intents_of(doc: SearchDocument) -> Seq<Seq<char>> {
    let all = all_intents(doc);
    all.take(
        if all.len() < 16 {
            all.len() as int
        } else {
            16
        },
    )
}

/// The pseudo queries for capability tags.
fn queries_for_tags(tags: &Vec<String>) -> (queries: Vec<String>)
    ensures
        texts(queries@) == tag_queries(texts(tags@)),
{
    let mut queries: Vec<String> = Vec::new();
    let mut i: usize = 0;
    while i < tags.len()
        invariant
            i <= tags@.len(),
            texts(queries@) =~= tag_queries(texts(tags@)).take(i as int),
        decreases tags@.len() - i,
    {
        broadcast use lemma_texts_push;

        let mut query = "Find a resource for capability ".to_owned();
        query.append(&tags[i]);
        queries.push(query);
        i = i + 1;
        assert(tag_queries(texts(tags@)).take(i as int) =~= tag_queries(texts(tags@)).take(
            i as int - 1,
        ).push(tag_queries(texts(tags@))[i as int - 1]));
    }
    assert(texts(queries@) =~= tag_queries(texts(tags@)));
    queries
}

/// The intents of a document.
pub fn semantic_intent_texts(doc: &SearchDocument) -> (intents: Vec<String>)
    ensures
        texts(intents@) == intents_of(*doc),
{
    let mut intents: Vec<String> = Vec::new();
    assert(texts(intents@) =~= Seq::empty());
    push_unique_texts(&mut intents, &doc.use_cases, doc.use_cases.len());
    assert(texts(doc.use_cases@).take(doc.use_cases@.len() as int) =~= texts(doc.use_cases@));
    push_unique_texts(&mut intents, &doc.examples, doc.examples.len());
    assert(texts(doc.examples@).take(doc.examples@.len() as int) =~= texts(doc.examples@));
    if !doc.description.as_str().is_empty() {
        let mut find = "Find a ".to_owned();
        find.append(&doc.resource_type);
        find.append(" for ");
        find.append(&doc.description);
        push_unique_text(&mut intents, &find);
        let mut usage = "Use ".to_owned();
        usage.append(&doc.name);
        usage.append(" to ");
        usage.append(&doc.description);
        push_unique_text(&mut intents, &usage);
    }
    let queries = queries_for_tags(&doc.capability_tags);
    push_unique_texts(&mut intents, &queries, queries.len());
    assert(texts(queries@).take(queries@.len() as int) =~= texts(queries@));
    let ghost all = texts(intents@);
    assert(all == all_intents(*doc));
    intents.truncate(16);
    assert(texts(intents@) =~= intents_of(*doc));
    intents
}

/// A resource has sixteen intents at most; they are distinct, normalised and
/// not empty.
pub proof fn law_intents_are_unique(doc: SearchDocument)
    ensures
        intents_of(doc).len() <= 16,
        are_unique_texts(intents_of(doc)),
{
    let none = Seq::<Seq<char>>::empty();
    law_unique_texts_stay_unique(none, texts(doc.use_cases@));
    let used = with_new_texts(none, texts(doc.use_cases@));
    law_unique_texts_stay_unique(used, texts(doc.examples@));
    let stated = with_new_texts(used, texts(doc.examples@));
    let find = "Find a "@ + doc.resource_type@ + " for "@ + doc.description@;
    let usage = "Use "@ + doc.name@ + " to "@ + doc.description@;
    law_normalization_is_idempotent(find);
    law_normalization_is_idempotent(usage);
    let described = if doc.description@.len() > 0 {
        with_new_text(with_new_text(stated, find), usage)
    } else {
        stated
    };
    law_unique_texts_stay_unique(described, tag_queries(texts(doc.capability_tags@)));
    assert forall|i: int| 0 <= i < intents_of(doc).len() implies (#[trigger] intents_of(
        doc,
    )[i]).len() > 0 && normalized(intents_of(doc)[i]) == intents_of(doc)[i] by {
        assert(intents_of(doc)[i] == all_intents(doc)[i]);
    }
}

/// An intent of a resource that is embedded by itself.
#[derive(Debug)]
pub struct IntentDocument {
    pub resource_did: String,
    pub intent_id: String,
    pub intent_kind: String,
    pub intent_text: String,
    pub resource_type: String,
    pub lifecycle_state: String,
    pub semantic_source_hash: String,
}

/// `value` in decimal notation, with two digits at least.
pub open spec fn two_digits(value: nat) -> Seq<char> {
    if value < 10 {
        seq!['0'] + decimal(value)
    } else {
        decimal(value)
    }
}

/// Where an intent comes from.
pub open spec fn intent_kind_of(doc: SearchDocument, intent: Seq<char>) -> Seq<char> {
    if texts(doc.use_cases@).contains(intent) {
        "use_case"@
    } else if texts(doc.examples@).contains(intent) {
        "example"@
    } else {
        "pseudo_query"@
    }
}

/// Whether `intent` is the document of the intent at `index`.
pub open spec fn is_intent_document(
    intent: IntentDocument,
    doc: SearchDocument,
    index: int,
) -> bool {
    &&& intent.resource_did@ == doc.resource_did@
    &&& intent.intent_id@ == "intent-"@ + two_digits((index + 1) as nat)
    &&& intent.intent_text@ == intents_of(doc)[index]
    &&& intent.intent_kind@ == intent_kind_of(doc, intents_of(doc)[index])
    &&& intent.resource_type@ == doc.resource_type@
    &&& intent.lifecycle_state@ == doc.lifecycle_state@
    &&& intent.semantic_source_hash@ == source_hash(intents_of(doc)[index])
}

/// A document for each intent of a search document.
pub fn semantic_intent_documents(doc: &SearchDocument) -> (intents: Vec<IntentDocument>)
    ensures
        intents@.len() == intents_of(*doc).len(),
        forall|i: int|
            0 <= i < intents@.len() ==> is_intent_document(#[trigger] intents@[i], *doc, i),
{
    let intent_texts = semantic_intent_texts(doc);
    assert(texts(intent_texts@).len() <= 16);
    let mut intents: Vec<IntentDocument> = Vec::new();
    let mut i: usize = 0;
    while i < intent_texts.len()
        invariant
            i <= intent_texts@.len() <= 16,
            texts(intent_texts@) == intents_of(*doc),
            intents@.len() == i,
            forall|j: int| 0 <= j < i ==> is_intent_document(#[trigger] intents@[j], *doc, j),
        decreases intent_texts@.len() - i,
    {
        let text = &intent_texts[i];
        assert(text@ == intents_of(*doc)[i as int]);
        let intent_kind = if contains_text(&doc.use_cases, text) {
            "use_case"
        } else if contains_text(&doc.examples, text) {
            "example"
        } else {
            "pseudo_query"
        };
        let mut intent_id = "intent-".to_owned();
        if i + 1 < 10 {
            intent_id.push('0');
        }
        intent_id.append(&decimal_text(i as u64 + 1));
        assert(intent_id@ =~= "intent-"@ + two_digits((i + 1) as nat));
        intents.push(
            IntentDocument {
                resource_did: doc.resource_did.clone(),
                intent_id,
                intent_kind: intent_kind.to_owned(),
                intent_text: text.clone(),
                resource_type: doc.resource_type.clone(),
                lifecycle_state: doc.lifecycle_state.clone(),
                semantic_source_hash: source_hash_of(text),
            },
        );
        i = i + 1;
    }
    intents
}

/// The text that is handed to an embedding provider: its first characters, one
/// at least.
pub fn bounded_embedding_text(text: &str, max_chars: usize) -> (bounded: String)
    ensures
        bounded@ == first_chars(
            text@,
            if max_chars < 1 {
                1
            } else {
                max_chars as int
            },
        ),
{
    take_chars(
        text,
        if max_chars < 1 {
            1
        } else {
            max_chars
        },
    )
}

/// A text with tokens has the words of the text, then those of the tokens.
pub proof fn law_tokens_follow_the_words(text: Seq<char>, tokens: Seq<Seq<char>>)
    ensures
        words_of(text_with_tokens(text, tokens)) == words_of(text) + words_of(joined(tokens, " "@)),
        normalized(text_with_tokens(text, tokens)) == text_with_tokens(text, tokens),
{
    reveal_strlit(" ");
    let whole = text + " "@ + joined(tokens, " "@);
    assert(whole =~= text.push(' ') + joined(tokens, " "@));
    law_white_space_parts_words(text, ' ', joined(tokens, " "@));
    law_normalized_text_keeps_the_words(whole);
    law_normalization_is_idempotent(whole);
}

/// What is searched for several texts has the words of each, one text after the
/// other.
pub proof fn law_searched_words_are_those_of_the_values(
    values: Seq<Seq<char>>,
    more: Seq<Seq<char>>,
    value: Seq<char>,
)
    ensures
        raw_search_text(Seq::empty()) == Seq::<char>::empty(),
        words_of(raw_search_text(seq![value])) == words_of(value),
        words_of(raw_search_text(values + more)) == words_of(raw_search_text(values)) + words_of(
            raw_search_text(more),
        ),
{
    reveal_with_fuel(non_empty_parts, 2);
    reveal_strlit(" ");
    let none = Seq::<Seq<char>>::empty();
    assert(all_normalized(none) =~= none);
    assert(joined(none, " "@) =~= Seq::<char>::empty());
    let single = all_normalized(seq![value]);
    assert(single =~= seq![normalized(value)]);
    assert(single.drop_last() =~= none);
    law_normalized_text_keeps_the_words(value);
    if normalized(value).len() > 0 {
        assert(non_empty_parts(single) =~= seq![normalized(value)]);
    } else {
        assert(non_empty_parts(single) =~= none);
        assert(normalized(value) =~= Seq::<char>::empty());
    }
    let first = non_empty_parts(all_normalized(values));
    let second = non_empty_parts(all_normalized(more));
    assert(all_normalized(values + more) =~= all_normalized(values) + all_normalized(more));
    lemma_non_empty_parts_of_both(all_normalized(values), all_normalized(more));
    law_white_space_parts_words(joined(first, " "@), ' ', joined(second, " "@));
    if first.len() == 0 {
        assert(first + second =~= second);
        assert(words_of(joined(first, " "@)) + words_of(joined(second, " "@)) =~= words_of(
            joined(second, " "@),
        ));
    } else if second.len() == 0 {
        assert(first + second =~= first);
        assert(words_of(joined(first, " "@)) + words_of(joined(second, " "@)) =~= words_of(
            joined(first, " "@),
        ));
    } else {
        law_joining_goes_part_by_part(first, second, " "@);
        assert(joined(first, " "@) + " "@ + joined(second, " "@) =~= joined(first, " "@).push(' ')
            + joined(second, " "@));
    }
}

/// Every text of several stands in what is searched for them, normalised.
proof fn lemma_value_is_searched(values: Seq<Seq<char>>, k: int)
    requires
        0 <= k < values.len(),
    ensures
        occurs_in(raw_search_text(values), normalized(values[k])),
{
    let all = all_normalized(values);
    let parts = non_empty_parts(all);
    let value = normalized(values[k]);
    assert(all[k] == value);
    if value.len() > 0 {
        lemma_non_empty_part_is_kept(all, k);
        law_every_part_stands_in_the_joined_text(parts, " "@, value);
    } else {
        let text = raw_search_text(values);
        assert(text.subrange(0, 0) =~= value);
        assert(stands_at(text, value, 0));
    }
}

/// A part that is not empty is kept.
proof fn lemma_non_empty_part_is_kept(parts: Seq<Seq<char>>, k: int)
    requires
        0 <= k < parts.len(),
        parts[k].len() > 0,
    ensures
        non_empty_parts(parts).contains(parts[k]),
    decreases parts.len(),
{
    let front = parts.drop_last();
    let rest = non_empty_parts(front);
    let all = non_empty_parts(parts);
    if k < front.len() {
        assert(front[k] == parts[k]);
        lemma_non_empty_part_is_kept(front, k);
        let p = choose|p: int| 0 <= p < rest.len() && rest[p] == parts[k];
        assert(all[p] == parts[k]);
    } else {
        assert(all[rest.len() as int] == parts[k]);
    }
}

/// What is searched for a package holds its DID, its type, its name, its
/// description, its tags, its protocols and its addresses; and what its tags are
/// searched in holds all of these but the name and the description.
pub proof fn law_packages_are_searched_by_what_they_say(package: ResourcePackage)
    ensures
        ({
            let text = raw_search_text(search_values(package));
            let tags = joined(texts(package.metadata.capability_tags@), " "@);
            &&& occurs_in(text, normalized(package.resource_did@))
            &&& occurs_in(text, normalized(resource_type_name(package.resource_type)))
            &&& occurs_in(text, normalized(package.metadata.name@))
            &&& occurs_in(text, normalized(package.metadata.description@))
            &&& occurs_in(text, normalized(tags))
            &&& occurs_in(text, normalized(joined(package_protocols(package), " "@)))
            &&& occurs_in(text, normalized(joined(package_endpoints(package), " "@)))
        }),
        ({
            let text = raw_search_text(tag_values(package));
            let tags = joined(texts(package.metadata.capability_tags@), " "@);
            &&& occurs_in(text, normalized(package.resource_did@))
            &&& occurs_in(text, normalized(resource_type_name(package.resource_type)))
            &&& occurs_in(text, normalized(tags))
            &&& occurs_in(text, normalized(joined(package_protocols(package), " "@)))
            &&& occurs_in(text, normalized(joined(package_endpoints(package), " "@)))
        }),
{
    let values = search_values(package);
    lemma_value_is_searched(values, 0);
    lemma_value_is_searched(values, 1);
    lemma_value_is_searched(values, 2);
    lemma_value_is_searched(values, 3);
    lemma_value_is_searched(values, 4);
    lemma_value_is_searched(values, 5);
    lemma_value_is_searched(values, 6);
    let values = tag_values(package);
    lemma_value_is_searched(values, 0);
    lemma_value_is_searched(values, 1);
    lemma_value_is_searched(values, 2);
    lemma_value_is_searched(values, 3);
    lemma_value_is_searched(values, 4);
}

/// What is indexed of a package says its type, its state and its tags, and its
/// texts have the words of what is searched, in lower case, and its tokens.
pub proof fn law_projections_say_what_the_package_says(
    projection: DiscoveryPackageProjection,
    catalog: SemanticAliasCatalog,
    package: ResourcePackage,
)
    requires
        projects(projection, catalog, package),
    ensures
        projection.resource_type@ == resource_type_name(package.resource_type),
        projection.lifecycle_state@ == package.metadata.lifecycle_state@,
        texts(projection.capability_tags@) == texts(package.metadata.capability_tags@),
        texts(projection.protocols@) == package_protocols(package),
        texts(projection.service_endpoints@) == package_endpoints(package),
        ({
            let raw = raw_search_text(search_values(package));
            words_of(projection.search_text@) == words_of(unicode_lower(raw)) + words_of(
                joined(tokens_of(catalog, raw), " "@),
            )
        }),
        ({
            let raw = raw_search_text(tag_values(package));
            words_of(projection.tag_text@) == words_of(unicode_lower(raw)) + words_of(
                joined(tokens_of(catalog, raw), " "@),
            )
        }),
{
    let raw = raw_search_text(search_values(package));
    law_tokens_follow_the_words(unicode_lower(raw), tokens_of(catalog, raw));
    let raw = raw_search_text(tag_values(package));
    law_tokens_follow_the_words(unicode_lower(raw), tokens_of(catalog, raw));
}

/// The protocols of the bindings are those that they name, in lower case.
proof fn lemma_binding_protocols(bindings: Seq<JsonValue>, protocol: Seq<char>)
    ensures
        binding_protocols(bindings).contains(protocol) <==> exists|k: int|
            0 <= k < bindings.len() && names_protocol(#[trigger] bindings[k], protocol),
    decreases bindings.len(),
{
    if bindings.len() > 0 {
        let front = bindings.drop_last();
        lemma_binding_protocols(front, protocol);
        let rest = binding_protocols(front);
        let all = binding_protocols(bindings);
        assert(bindings[bindings.len() - 1] == bindings.last());
        lemma_text_added(rest, all, text_member(bindings.last(), "protocol"@), protocol);
        if rest.contains(protocol) {
            let k = choose|k: int| 0 <= k < front.len() && names_protocol(#[trigger] front[k], protocol);
            assert(bindings[k] == front[k]);
        }
        if exists|k: int|
            0 <= k < bindings.len() && names_protocol(#[trigger] bindings[k], protocol) {
            let k = choose|k: int|
                0 <= k < bindings.len() && names_protocol(#[trigger] bindings[k], protocol);
            if k < front.len() {
                assert(front[k] == bindings[k]);
            }
        }
    }
}

/// Whether a binding names a protocol, which is given in lower case.
pub open spec fn names_protocol(binding: JsonValue, protocol: Seq<char>) -> bool {
    text_member(binding, "protocol"@) matches Some(named) && ascii_lower(named) == protocol
}

/// A list that grows by the lower-case form of a text, where there is one.
proof fn lemma_text_added(
    before: Seq<Seq<char>>,
    after: Seq<Seq<char>>,
    text: Option<Seq<char>>,
    wanted: Seq<char>,
)
    requires
        after == (match text {
            Some(found) => before.push(ascii_lower(found)),
            None => before,
        }),
    ensures
        after.contains(wanted) <==> before.contains(wanted) || (text matches Some(found)
            && ascii_lower(found) == wanted),
{
    if before.contains(wanted) {
        let k = choose|k: int| 0 <= k < before.len() && before[k] == wanted;
        assert(after[k] == wanted);
    }
    if after.contains(wanted) {
        let k = choose|k: int| 0 <= k < after.len() && after[k] == wanted;
        if k < before.len() {
            assert(before[k] == wanted);
        }
    }
    if text is Some {
        assert(after[before.len() as int] == ascii_lower(text->0));
    }
}

/// The protocols of the services are those that they name, in lower case.
proof fn lemma_service_protocols(services: Seq<ServiceEndpoint>, protocol: Seq<char>)
    ensures
        service_protocols(services).contains(protocol) <==> exists|k: int|
            0 <= k < services.len() && speaks_protocol(#[trigger] services[k], protocol),
    decreases services.len(),
{
    if services.len() > 0 {
        let front = services.drop_last();
        lemma_service_protocols(front, protocol);
        let rest = service_protocols(front);
        let all = service_protocols(services);
        assert(services[services.len() - 1] == services.last());
        lemma_text_added(rest, all, optional_text(services.last().protocol), protocol);
        if rest.contains(protocol) {
            let k = choose|k: int|
                0 <= k < front.len() && speaks_protocol(#[trigger] front[k], protocol);
            assert(services[k] == front[k]);
        }
        if exists|k: int|
            0 <= k < services.len() && speaks_protocol(#[trigger] services[k], protocol) {
            let k = choose|k: int|
                0 <= k < services.len() && speaks_protocol(#[trigger] services[k], protocol);
            if k < front.len() {
                assert(front[k] == services[k]);
            }
        }
    }
}

/// Whether a service speaks a protocol, which is given in lower case.
pub open spec fn speaks_protocol(service: ServiceEndpoint, protocol: Seq<char>) -> bool {
    service.protocol matches Some(spoken) && ascii_lower(spoken@) == protocol
}

/// The protocols of a package are those that its bindings name and its services
/// speak, in lower case; its addresses are those of its services; each stands
/// once, in ascending order.
pub proof fn law_protocols_and_addresses_are_collected(
    package: ResourcePackage,
    text: Seq<char>,
    i: int,
    j: int,
)
    ensures
        package_protocols(package).contains(text) <==> (exists|k: int|
            0 <= k < package.metadata.protocol_bindings@.len() && names_protocol(
                #[trigger] package.metadata.protocol_bindings@[k],
                text,
            )) || (exists|k: int|
            0 <= k < package.metadata.services@.len() && speaks_protocol(
                #[trigger] package.metadata.services@[k],
                text,
            )),
        package_endpoints(package).contains(text) <==> exists|k: int|
            0 <= k < package.metadata.services@.len() && (
            #[trigger] package.metadata.services@[k]).service_endpoint@ == text,
        0 <= i < j < package_protocols(package).len() ==> text_less(
            package_protocols(package)[i],
            package_protocols(package)[j],
        ),
        0 <= i < j < package_endpoints(package).len() ==> text_less(
            package_endpoints(package)[i],
            package_endpoints(package)[j],
        ),
{
    let bindings = package.metadata.protocol_bindings@;
    let services = package.metadata.services@;
    let first = binding_protocols(bindings);
    let second = service_protocols(services);
    law_sorted_texts_are_the_different_ones(first + second);
    law_sorted_texts_are_the_different_ones(endpoints_of(services));
    lemma_binding_protocols(bindings, text);
    lemma_service_protocols(services, text);
    lemma_either_list_contains(first, second, text);
    let endpoints = endpoints_of(services);
    if endpoints.contains(text) {
        let k = choose|k: int| 0 <= k < endpoints.len() && endpoints[k] == text;
        assert(services[k].service_endpoint@ == text);
    }
    if exists|k: int|
        0 <= k < services.len() && (#[trigger] services[k]).service_endpoint@ == text {
        let k = choose|k: int|
            0 <= k < services.len() && (#[trigger] services[k]).service_endpoint@ == text;
        assert(endpoints[k] == text);
    }
}

/// What two lists hold together.
proof fn lemma_either_list_contains(
    first: Seq<Seq<char>>,
    second: Seq<Seq<char>>,
    text: Seq<char>,
)
    ensures
        (first + second).contains(text) <==> first.contains(text) || second.contains(text),
{
    let both = first + second;
    if first.contains(text) {
        let k = choose|k: int| 0 <= k < first.len() && first[k] == text;
        assert(both[k] == text);
    }
    if second.contains(text) {
        let k = choose|k: int| 0 <= k < second.len() && second[k] == text;
        assert(both[first.len() + k] == text);
    }
    if both.contains(text) {
        let k = choose|k: int| 0 <= k < both.len() && both[k] == text;
        if k < first.len() {
            assert(first[k] == text);
        } else {
            assert(second[k - first.len()] == text);
        }
    }
}

/// The tags of a package are those of its metadata, of what its document says,
/// and of both descriptions, each once, in ascending order.
pub proof fn law_tags_are_collected(package: ResourcePackage, tag: Seq<char>, i: int, j: int)
    ensures
        package_tags(package).contains(tag) <==> {
            ||| texts(package.metadata.capability_tags@).contains(tag)
            ||| package.did_document.oan_metadata matches Some(said) && {
                ||| texts(said.capability_tags@).contains(tag)
                ||| said.resource_description matches Some(described) && texts(
                    described.capability_tags@,
                ).contains(tag)
                ||| said.agent_description matches Some(described) && texts(
                    described.capability_tags@,
                ).contains(tag)
            }
        },
        0 <= i < j < package_tags(package).len() ==> text_less(
            package_tags(package)[i],
            package_tags(package)[j],
        ),
{
    let own = texts(package.metadata.capability_tags@);
    law_sorted_texts_are_the_different_ones(own);
    if let Some(said) = package.did_document.oan_metadata {
        let named = texts(said.capability_tags@);
        law_sorted_texts_are_the_different_ones(own + metadata_tags(said));
        lemma_either_list_contains(own, metadata_tags(said), tag);
        let described = match said.resource_description {
            Some(description) => named + texts(description.capability_tags@),
            None => named,
        };
        if let Some(description) = said.resource_description {
            lemma_either_list_contains(named, texts(description.capability_tags@), tag);
        }
        if let Some(description) = said.agent_description {
            lemma_either_list_contains(described, texts(description.capability_tags@), tag);
        }
    }
}

/// The text of an example is the normalised text, or the start of the normalised
/// compact form of a structure, a thousand characters at most; blank texts and
/// single values have none.
pub proof fn law_examples_have_texts(value: ExampleValue)
    ensures
        value matches ExampleValue::Text(text) ==> {
            &&& normalized(text@).len() > 0 ==> example_text(value) == Some(normalized(text@))
            &&& normalized(text@).len() == 0 ==> example_text(value) is None
        },
        value matches ExampleValue::Structured(json) ==> {
            &&& compact_json(json@) is None ==> example_text(value) is None
            &&& compact_json(json@) matches Some(compact) ==> {
                &&& normalized(compact).len() == 0 ==> example_text(value) is None
                &&& 0 < normalized(compact).len() <= 1_000 ==> example_text(value) == Some(
                    normalized(compact),
                )
                &&& normalized(compact).len() > 1_000 ==> example_text(value) == Some(
                    normalized(compact).take(1_000),
                )
            }
        },
        value is Scalar ==> example_text(value) is None,
{
    if let ExampleValue::Structured(json) = value {
        if let Some(compact) = compact_json(json@) {
            let text = normalized(compact);
            law_first_chars_are_the_start(text, 1_000);
            if text.len() > 1_000 {
                assert(first_chars(text, 1_000) =~= text.take(1_000));
            } else {
                assert(first_chars(text, 1_000) =~= text);
            }
        }
    }
}

/// The examples of a package are the texts of the first twenty of its resource
/// description, normalised, each once.
pub proof fn law_first_examples_are_taken(examples: Seq<ExampleValue>, text: Seq<char>)
    ensures
        example_texts(examples).contains(text) <==> text.len() > 0 && exists|k: int|
            0 <= k < examples.len() && is_example_text(#[trigger] examples[k], text),
        example_texts(examples).no_duplicates(),
    decreases examples.len(),
{
    if examples.len() > 0 {
        let front = examples.drop_last();
        law_first_examples_are_taken(front, text);
        let rest = example_texts(front);
        let all = example_texts(examples);
        assert(examples[examples.len() - 1] == examples.last());
        if let Some(found) = example_text(examples.last()) {
            lemma_new_text(rest, found, text);
        }
        if rest.contains(text) {
            let k = choose|k: int| 0 <= k < front.len() && is_example_text(#[trigger] front[k], text);
            assert(examples[k] == front[k]);
        }
        if exists|k: int| 0 <= k < examples.len() && is_example_text(#[trigger] examples[k], text) {
            let k = choose|k: int|
                0 <= k < examples.len() && is_example_text(#[trigger] examples[k], text);
            if k < front.len() {
                assert(front[k] == examples[k]);
            }
        }
    }
}

/// Whether the text of an example is that text, normalised.
pub open spec fn is_example_text(example: ExampleValue, text: Seq<char>) -> bool {
    example_text(example) matches Some(found) && normalized(found) == text
}

/// One more text is added where it is new and not blank.
proof fn lemma_new_text(values: Seq<Seq<char>>, value: Seq<char>, text: Seq<char>)
    ensures
        with_new_text(values, value).contains(text) <==> values.contains(text) || (text.len() > 0
            && normalized(value) == text),
        values.no_duplicates() ==> with_new_text(values, value).no_duplicates(),
        values.is_prefix_of(with_new_text(values, value)),
{
    let after = with_new_text(values, value);
    let added = normalized(value);
    if values.contains(text) {
        let k = choose|k: int| 0 <= k < values.len() && values[k] == text;
        assert(after[k] == text);
    }
    if after.contains(text) {
        let k = choose|k: int| 0 <= k < after.len() && after[k] == text;
        if k < values.len() {
            assert(values[k] == text);
        }
    }
    if added.len() > 0 && !values.contains(added) {
        assert(after[values.len() as int] == added);
    }
    assert(values =~= after.take(values.len() as int));
}

/// The first twenty of a list are its start, and all of a shorter list.
pub proof fn law_first_twenty_are_the_start(values: Seq<Seq<char>>)
    ensures
        first_twenty(values).is_prefix_of(values),
        first_twenty(values).len() <= 20,
        values.len() <= 20 ==> first_twenty(values) == values,
        values.len() > 20 ==> first_twenty(values).len() == 20,
{
    assert(first_twenty(values) =~= values.take(first_twenty(values).len() as int));
    assert(values.len() <= 20 ==> first_twenty(values) =~= values);
}

/// The descriptions of a package are those of its metadata, the name, the
/// description and the capabilities of its resource description, and the
/// capabilities of its agent description, normalised, as far as they are not
/// blank; that of its metadata comes first.
pub proof fn law_descriptions_are_collected(package: ResourcePackage, text: Seq<char>)
    ensures
        package_descriptions(package).contains(text) <==> text.len() > 0 && {
            ||| normalized(package.metadata.description@) == text
            ||| package.did_document.oan_metadata matches Some(said) && {
                ||| said.resource_description matches Some(described) && {
                    ||| described.name matches Some(name) && normalized(name@) == text
                    ||| described.description matches Some(description) && normalized(description@)
                        == text
                    ||| described.capability_description matches Some(capability) && normalized(
                        capability@,
                    ) == text
                }
                ||| said.agent_description matches Some(described) && normalized(
                    described.capability_description@,
                ) == text
            }
        },
        package_descriptions(package).no_duplicates(),
        normalized(package.metadata.description@).len() > 0 ==> package_descriptions(package).len()
            > 0 && package_descriptions(package)[0] == normalized(package.metadata.description@),
{
    let none = Seq::<Seq<char>>::empty();
    let base = with_new_text(none, package.metadata.description@);
    lemma_new_text(none, package.metadata.description@, text);
    if let Some(said) = package.did_document.oan_metadata {
        let described = match said.resource_description {
            Some(description) => with_optional_text(
                with_optional_text(
                    with_optional_text(base, description.name),
                    description.description,
                ),
                description.capability_description,
            ),
            None => base,
        };
        if let Some(description) = said.resource_description {
            let one = with_optional_text(base, description.name);
            let two = with_optional_text(one, description.description);
            if let Some(name) = description.name {
                lemma_new_text(base, name@, text);
            }
            if let Some(words) = description.description {
                lemma_new_text(one, words@, text);
            }
            if let Some(words) = description.capability_description {
                lemma_new_text(two, words@, text);
            }
        }
        if let Some(description) = said.agent_description {
            lemma_new_text(described, description.capability_description@, text);
        }
    }
}

/// The use cases of a package are the first twenty of its resource description
/// and the first twenty of its agent description, normalised, as far as they are
/// not blank.
pub proof fn law_use_cases_are_collected(package: ResourcePackage, text: Seq<char>)
    ensures
        package_use_cases(package).contains(text) <==> text.len() > 0 && (
        package.did_document.oan_metadata matches Some(said) && {
            ||| said.resource_description matches Some(described) && is_among_first_twenty(
                texts(described.use_case_examples@),
                text,
            )
            ||| said.agent_description matches Some(described) && is_among_first_twenty(
                texts(described.use_case_examples@),
                text,
            )
        }),
{
    let none = Seq::<Seq<char>>::empty();
    if let Some(said) = package.did_document.oan_metadata {
        let base = match said.resource_description {
            Some(description) => with_new_texts(
                none,
                first_twenty(texts(description.use_case_examples@)),
            ),
            None => none,
        };
        if let Some(description) = said.resource_description {
            let cases = texts(description.use_case_examples@);
            lemma_first_twenty_are_added(none, cases, text);
        }
        if let Some(description) = said.agent_description {
            let cases = texts(description.use_case_examples@);
            lemma_first_twenty_are_added(base, cases, text);
        }
    }
}

/// Whether one of the first twenty texts is that text, normalised.
pub open spec fn is_among_first_twenty(values: Seq<Seq<char>>, text: Seq<char>) -> bool {
    exists|k: int| 0 <= k < values.len() && k < 20 && normalized(#[trigger] values[k]) == text
}

/// The first twenty texts of a list are added.
proof fn lemma_first_twenty_are_added(
    values: Seq<Seq<char>>,
    more: Seq<Seq<char>>,
    text: Seq<char>,
)
    ensures
        with_new_texts(values, first_twenty(more)).contains(text) <==> values.contains(text) || (
        text.len() > 0 && is_among_first_twenty(more, text)),
{
    let taken = first_twenty(more);
    law_normalized_texts_are_added(values, taken, text);
    if exists|k: int| 0 <= k < taken.len() && normalized(#[trigger] taken[k]) == text {
        let k = choose|k: int| 0 <= k < taken.len() && normalized(#[trigger] taken[k]) == text;
        assert(more[k] == taken[k]);
    }
    if is_among_first_twenty(more, text) {
        let k = choose|k: int|
            0 <= k < more.len() && k < 20 && normalized(#[trigger] more[k]) == text;
        assert(taken[k] == more[k]);
    }
}

/// The name of a package is that of its resource description where there is one,
/// and that of its metadata otherwise; its examples are those of the description.
pub proof fn law_described_names_come_first(package: ResourcePackage)
    ensures
        package.did_document.oan_metadata matches Some(said) ==> (said.resource_description matches Some(
            described,
        ) ==> {
            &&& described.name matches Some(name) ==> package_name(package) == name@
            &&& described.name is None ==> package_name(package) == package.metadata.name@
            &&& described.examples@.len() <= 20 ==> package_examples(package) == example_texts(
                described.examples@,
            )
            &&& described.examples@.len() > 20 ==> package_examples(package) == example_texts(
                described.examples@.take(20),
            )
        }),
        package.did_document.oan_metadata is None || package.did_document.oan_metadata->0.resource_description
            is None ==> package_name(package) == package.metadata.name@ && package_examples(
            package,
        ).len() == 0,
{
    if let Some(said) = package.did_document.oan_metadata {
        if let Some(described) = said.resource_description {
            if described.examples@.len() <= 20 {
                assert(first_twenty(described.examples@) =~= described.examples@);
            } else {
                assert(first_twenty(described.examples@) =~= described.examples@.take(20));
            }
        }
    }
}

/// A search document says what its package and its projection say, and its hash
/// is that of the text that is embedded for it.
pub proof fn law_search_documents_say_what_the_package_says(
    doc: SearchDocument,
    cursor: i64,
    package: ResourcePackage,
    projection: DiscoveryPackageProjection,
)
    requires
        documents(doc, cursor, package, projection),
    ensures
        doc.resource_did@ == package.resource_did@ && doc.cursor == cursor,
        doc.package_version@ == package.package_version@,
        doc.did_document_hash@ == package.did_document_hash@,
        doc.metadata_hash@ == package.metadata_hash@,
        doc.package_hash@ == package.package_hash@,
        doc.resource_type@ == projection.resource_type@,
        doc.lifecycle_state@ == projection.lifecycle_state@,
        texts(doc.protocols@) == texts(projection.protocols@),
        texts(doc.service_endpoints@) == texts(projection.service_endpoints@),
        doc.tag_text@ == projection.tag_text@,
        doc.search_text@ == projection.search_text@,
        forall|k: int|
            0 <= k < package.metadata.capability_tags@.len() ==> texts(
                doc.capability_tags@,
            ).contains((#[trigger] package.metadata.capability_tags@[k])@),
        occurs_in(doc.description@, normalized(package.metadata.description@)),
        doc.semantic_source_hash@ == "sha256:"@ + sha256_hex_of(document_embedding_text(doc)),
{
    assert forall|k: int| 0 <= k < package.metadata.capability_tags@.len() implies texts(
        doc.capability_tags@,
    ).contains((#[trigger] package.metadata.capability_tags@[k])@) by {
        let tag = package.metadata.capability_tags@[k]@;
        law_tags_are_collected(package, tag, 0, 0);
        assert(texts(package.metadata.capability_tags@)[k] == tag);
    }
    let described = normalized(package.metadata.description@);
    if described.len() > 0 {
        law_descriptions_are_collected(package, described);
        law_every_part_stands_in_the_joined_text(package_descriptions(package), "\n"@, described);
    } else {
        assert(doc.description@.subrange(0, 0) =~= described);
        assert(stands_at(doc.description@, described, 0));
    }
}

/// What stands at the end of the start of a text stands in it.
proof fn lemma_part_stands(
    front: Seq<char>,
    label: Seq<char>,
    part: Seq<char>,
    whole: Seq<char>,
)
    requires
        (front + label + part).is_prefix_of(whole),
    ensures
        occurs_in(whole, label + part),
        front.is_prefix_of(whole),
{
    let start = front + label + part;
    let n: int = start.len() as int;
    assert(whole.take(n) == start);
    assert(whole.subrange(front.len() as int, n) =~= label + part) by {
        assert(whole.subrange(front.len() as int, n) =~= whole.take(n).skip(front.len() as int));
    }
    assert(stands_at(whole, label + part, front.len() as int));
    assert(front =~= whole.take(front.len() as int)) by {
        assert(whole.take(front.len() as int) =~= whole.take(n).take(front.len() as int));
    }
}

/// The text that is embedded for a resource holds its name, its type and its
/// description, its tags, protocols, addresses, examples and use cases, each under
/// its heading, and then a view of the tags, one of the context and one of the
/// intents.
pub proof fn law_embedded_text_holds_every_part(
    name: Seq<char>,
    resource_type: Seq<char>,
    description: Seq<char>,
    tags: Seq<Seq<char>>,
    protocols: Seq<Seq<char>>,
    endpoints: Seq<Seq<char>>,
    examples: Seq<Seq<char>>,
    use_cases: Seq<Seq<char>>,
)
    ensures
        ({
            let text = whole_embedding_text(
                name,
                resource_type,
                description,
                tags,
                protocols,
                endpoints,
                examples,
                use_cases,
            );
            &&& occurs_in(text, "Name:\n"@ + name)
            &&& occurs_in(text, "\n\nResource type:\n"@ + resource_type)
            &&& occurs_in(text, "\n\nDescription:\n"@ + description)
            &&& occurs_in(text, "\n\nCapability tags:\n"@ + joined(tags, ", "@))
            &&& occurs_in(text, "\n\nProtocols:\n"@ + joined(protocols, ", "@))
            &&& occurs_in(text, "\n\nServices:\n"@ + joined(endpoints, "\n"@))
            &&& occurs_in(text, "\n\nExamples:\n"@ + joined(examples, "\n"@))
            &&& occurs_in(text, "\n\nUse cases:\n"@ + joined(use_cases, "\n"@))
            &&& occurs_in(text, "\n\nTag view:\n"@ + labelled_lines("capability "@, tags))
            &&& occurs_in(text, "\nContext view:\n"@ + name)
            &&& occurs_in(text, " provides "@ + resource_type)
            &&& occurs_in(text, " capabilities for "@ + description)
            &&& occurs_in(
                text,
                "\n\nIntent view:\n"@ + labelled_lines("User wants to "@, use_cases),
            )
            &&& occurs_in(text, labelled_lines("Example request: "@, examples))
        }),
{
    let c0 = Seq::<char>::empty();
    let c1 = "Name:\n"@ + name;
    let c2 = c1 + "\n\nResource type:\n"@ + resource_type;
    let c3 = c2 + "\n\nDescription:\n"@ + description;
    let c4 = c3 + "\n\nCapability tags:\n"@ + joined(tags, ", "@);
    let c5 = c4 + "\n\nProtocols:\n"@ + joined(protocols, ", "@);
    let c6 = c5 + "\n\nServices:\n"@ + joined(endpoints, "\n"@);
    let c7 = c6 + "\n\nExamples:\n"@ + joined(examples, "\n"@);
    let c8 = c7 + "\n\nUse cases:\n"@ + joined(use_cases, "\n"@);
    let c9 = c8 + "\n\nTag view:\n"@ + labelled_lines("capability "@, tags);
    let c10 = c9 + "\nContext view:\n"@ + name;
    let c11 = c10 + " provides "@ + resource_type;
    let c12 = c11 + " capabilities for "@ + description;
    let c13 = c12 + "\n\nIntent view:\n"@ + labelled_lines("User wants to "@, use_cases);
    let last = labelled_lines("Example request: "@, examples);
    let whole = c13 + last;
    assert(whole.is_prefix_of(whole)) by {
        assert(whole =~= whole.take(whole.len() as int));
    }
    assert(c13 + c0 =~= c13);
    assert(c0 + last =~= last);
    lemma_part_stands(c13, c0, last, whole);
    lemma_part_stands(
        c12,
        "\n\nIntent view:\n"@,
        labelled_lines("User wants to "@, use_cases),
        whole,
    );
    lemma_part_stands(c11, " capabilities for "@, description, whole);
    lemma_part_stands(c10, " provides "@, resource_type, whole);
    lemma_part_stands(c9, "\nContext view:\n"@, name, whole);
    lemma_part_stands(
        c8,
        "\n\nTag view:\n"@,
        labelled_lines("capability "@, tags),
        whole,
    );
    lemma_part_stands(c7, "\n\nUse cases:\n"@, joined(use_cases, "\n"@), whole);
    lemma_part_stands(c6, "\n\nExamples:\n"@, joined(examples, "\n"@), whole);
    lemma_part_stands(c5, "\n\nServices:\n"@, joined(endpoints, "\n"@), whole);
    lemma_part_stands(c4, "\n\nProtocols:\n"@, joined(protocols, ", "@), whole);
    lemma_part_stands(c3, "\n\nCapability tags:\n"@, joined(tags, ", "@), whole);
    lemma_part_stands(c2, "\n\nDescription:\n"@, description, whole);
    lemma_part_stands(c1, "\n\nResource type:\n"@, resource_type, whole);
    assert(c0 + "Name:\n"@ =~= "Name:\n"@);
    lemma_part_stands(c0, "Name:\n"@, name, whole);
}

/// What is embedded is the whole text where it has eight thousand characters at
/// most, and its first eight thousand otherwise.
pub proof fn law_embedded_text_is_cut(
    name: Seq<char>,
    resource_type: Seq<char>,
    description: Seq<char>,
    tags: Seq<Seq<char>>,
    protocols: Seq<Seq<char>>,
    endpoints: Seq<Seq<char>>,
    examples: Seq<Seq<char>>,
    use_cases: Seq<Seq<char>>,
)
    ensures
        ({
            let whole = whole_embedding_text(
                name,
                resource_type,
                description,
                tags,
                protocols,
                endpoints,
                examples,
                use_cases,
            );
            let text = embedding_text(
                name,
                resource_type,
                description,
                tags,
                protocols,
                endpoints,
                examples,
                use_cases,
            );
            &&& whole.len() <= 8_000 ==> text == whole
            &&& whole.len() > 8_000 ==> text == whole.take(8_000)
        }),
{
    let whole = whole_embedding_text(
        name,
        resource_type,
        description,
        tags,
        protocols,
        endpoints,
        examples,
        use_cases,
    );
    if whole.len() <= 8_000 {
        assert(first_chars(whole, 8_000) =~= whole);
    } else {
        assert(first_chars(whole, 8_000) =~= whole.take(8_000));
    }
}

/// Labelled lines go item by item: each is its label, the item and a line break.
pub proof fn law_labelled_lines_go_item_by_item(
    label: Seq<char>,
    items: Seq<Seq<char>>,
    more: Seq<Seq<char>>,
    item: Seq<char>,
)
    ensures
        labelled_lines(label, Seq::empty()) == Seq::<char>::empty(),
        labelled_lines(label, seq![item]) == label + item + "\n"@,
        labelled_lines(label, items + more) == labelled_lines(label, items) + labelled_lines(
            label,
            more,
        ),
    decreases more.len(),
{
    reveal_with_fuel(labelled_lines, 2);
    assert(seq![item].drop_last() =~= Seq::<Seq<char>>::empty());
    assert(labelled_lines(label, seq![item]) =~= label + item + "\n"@);
    if more.len() == 0 {
        assert(items + more =~= items);
        assert(labelled_lines(label, items + more) =~= labelled_lines(label, items)
            + labelled_lines(label, more));
    } else {
        law_labelled_lines_go_item_by_item(label, items, more.drop_last(), item);
        assert((items + more).drop_last() =~= items + more.drop_last());
        assert((items + more).last() == more.last());
        assert(labelled_lines(label, items + more) =~= labelled_lines(label, items)
            + labelled_lines(label, more));
    }
}

/// The text that tags are compared with holds the DID, the type, the tags, the
/// protocols, the addresses and the tag text of a document, parted by blanks.
pub proof fn law_tag_text_holds_every_part(doc: SearchDocument)
    ensures
        ({
            let text = tag_text_of(doc);
            &&& occurs_in(text, doc.resource_did@)
            &&& occurs_in(text, " "@ + doc.resource_type@)
            &&& occurs_in(text, " "@ + joined(texts(doc.capability_tags@), " "@))
            &&& occurs_in(text, " "@ + joined(texts(doc.protocols@), " "@))
            &&& occurs_in(text, " "@ + joined(texts(doc.service_endpoints@), " "@))
            &&& occurs_in(text, " "@ + doc.tag_text@)
        }),
{
    let c0 = Seq::<char>::empty();
    let c1 = doc.resource_did@;
    let c2 = c1 + " "@ + doc.resource_type@;
    let c3 = c2 + " "@ + joined(texts(doc.capability_tags@), " "@);
    let c4 = c3 + " "@ + joined(texts(doc.protocols@), " "@);
    let c5 = c4 + " "@ + joined(texts(doc.service_endpoints@), " "@);
    let whole = c5 + " "@ + doc.tag_text@;
    assert(whole.is_prefix_of(whole)) by {
        assert(whole =~= whole.take(whole.len() as int));
    }
    lemma_part_stands(c5, " "@, doc.tag_text@, whole);
    lemma_part_stands(c4, " "@, joined(texts(doc.service_endpoints@), " "@), whole);
    lemma_part_stands(c3, " "@, joined(texts(doc.protocols@), " "@), whole);
    lemma_part_stands(c2, " "@, joined(texts(doc.capability_tags@), " "@), whole);
    lemma_part_stands(c1, " "@, doc.resource_type@, whole);
    assert(c0 + c0 + c1 =~= c1);
    assert(c0 + c1 =~= c1);
    lemma_part_stands(c0, c0, c1, whole);
}

/// The text that contexts are compared with holds the name, the type, the
/// description, the tags, the protocols, the use cases, the examples and the
/// search text of a document, parted by blanks.
pub proof fn law_context_text_holds_every_part(doc: SearchDocument)
    ensures
        ({
            let text = context_text_of(doc);
            &&& occurs_in(text, doc.name@)
            &&& occurs_in(text, " "@ + doc.resource_type@)
            &&& occurs_in(text, " "@ + doc.description@)
            &&& occurs_in(text, " "@ + joined(texts(doc.capability_tags@), " "@))
            &&& occurs_in(text, " "@ + joined(texts(doc.protocols@), " "@))
            &&& occurs_in(text, " "@ + joined(texts(doc.use_cases@), " "@))
            &&& occurs_in(text, " "@ + joined(texts(doc.examples@), " "@))
            &&& occurs_in(text, " "@ + doc.search_text@)
        }),
{
    let c0 = Seq::<char>::empty();
    let c1 = doc.name@;
    let c2 = c1 + " "@ + doc.resource_type@;
    let c3 = c2 + " "@ + doc.description@;
    let c4 = c3 + " "@ + joined(texts(doc.capability_tags@), " "@);
    let c5 = c4 + " "@ + joined(texts(doc.protocols@), " "@);
    let c6 = c5 + " "@ + joined(texts(doc.use_cases@), " "@);
    let c7 = c6 + " "@ + joined(texts(doc.examples@), " "@);
    let whole = c7 + " "@ + doc.search_text@;
    assert(whole.is_prefix_of(whole)) by {
        assert(whole =~= whole.take(whole.len() as int));
    }
    lemma_part_stands(c7, " "@, doc.search_text@, whole);
    lemma_part_stands(c6, " "@, joined(texts(doc.examples@), " "@), whole);
    lemma_part_stands(c5, " "@, joined(texts(doc.use_cases@), " "@), whole);
    lemma_part_stands(c4, " "@, joined(texts(doc.protocols@), " "@), whole);
    lemma_part_stands(c3, " "@, joined(texts(doc.capability_tags@), " "@), whole);
    lemma_part_stands(c2, " "@, doc.description@, whole);
    lemma_part_stands(c1, " "@, doc.resource_type@, whole);
    assert(c0 + c0 + c1 =~= c1);
    assert(c0 + c1 =~= c1);
    lemma_part_stands(c0, c0, c1, whole);
}

/// Terms are counted in the tag text twice and in the context text once.
pub proof fn law_terms_are_counted_in_tags_twice(doc: SearchDocument)
    ensures
        words_of(lexical_text_of(doc)) == words_of(tag_text_of(doc)) + words_of(tag_text_of(doc))
            + words_of(context_text_of(doc)),
{
    reveal_strlit(" ");
    let tag = tag_text_of(doc);
    let context = context_text_of(doc);
    let front = tag + " "@ + tag;
    assert(front =~= tag.push(' ') + tag);
    law_white_space_parts_words(tag, ' ', tag);
    assert(lexical_text_of(doc) =~= front.push(' ') + context);
    law_white_space_parts_words(front, ' ', context);
}

/// The intents of a document are its use cases, its examples, two queries about
/// its description where it has one, and a query for each of its tags,
/// normalised; its use cases come first.
pub proof fn law_intents_are_collected(doc: SearchDocument, text: Seq<char>)
    ensures
        all_intents(doc).contains(text) <==> text.len() > 0 && {
            ||| exists|k: int|
                0 <= k < doc.use_cases@.len() && normalized((#[trigger] doc.use_cases@[k])@) == text
            ||| exists|k: int|
                0 <= k < doc.examples@.len() && normalized((#[trigger] doc.examples@[k])@) == text
            ||| doc.description@.len() > 0 && normalized(
                "Find a "@ + doc.resource_type@ + " for "@ + doc.description@,
            ) == text
            ||| doc.description@.len() > 0 && normalized(
                "Use "@ + doc.name@ + " to "@ + doc.description@,
            ) == text
            ||| exists|k: int|
                0 <= k < doc.capability_tags@.len() && normalized(
                    "Find a resource for capability "@ + (#[trigger] doc.capability_tags@[k])@,
                ) == text
        },
        intents_of(doc).is_prefix_of(all_intents(doc)),
        all_intents(doc).len() <= 16 ==> intents_of(doc) == all_intents(doc),
        all_intents(doc).len() > 16 ==> intents_of(doc).len() == 16,
{
    let none = Seq::<Seq<char>>::empty();
    let used = with_new_texts(none, texts(doc.use_cases@));
    let stated = with_new_texts(used, texts(doc.examples@));
    let find = "Find a "@ + doc.resource_type@ + " for "@ + doc.description@;
    let usage = "Use "@ + doc.name@ + " to "@ + doc.description@;
    let described = if doc.description@.len() > 0 {
        with_new_text(with_new_text(stated, find), usage)
    } else {
        stated
    };
    let queries = tag_queries(texts(doc.capability_tags@));
    law_normalized_texts_are_added(none, texts(doc.use_cases@), text);
    law_normalized_texts_are_added(used, texts(doc.examples@), text);
    lemma_new_text(stated, find, text);
    lemma_new_text(with_new_text(stated, find), usage, text);
    law_normalized_texts_are_added(described, queries, text);
    lemma_normalized_in(doc.use_cases@, text);
    lemma_normalized_in(doc.examples@, text);
    if exists|k: int| 0 <= k < queries.len() && normalized(#[trigger] queries[k]) == text {
        let k = choose|k: int| 0 <= k < queries.len() && normalized(#[trigger] queries[k]) == text;
        assert(queries[k] == "Find a resource for capability "@ + doc.capability_tags@[k]@);
    }
    if exists|k: int|
        0 <= k < doc.capability_tags@.len() && normalized(
            "Find a resource for capability "@ + (#[trigger] doc.capability_tags@[k])@,
        ) == text {
        let k = choose|k: int|
            0 <= k < doc.capability_tags@.len() && normalized(
                "Find a resource for capability "@ + (#[trigger] doc.capability_tags@[k])@,
            ) == text;
        assert(queries[k] == "Find a resource for capability "@ + doc.capability_tags@[k]@);
    }
    let all = all_intents(doc);
    assert(intents_of(doc) =~= all.take(intents_of(doc).len() as int));
    assert(all.len() <= 16 ==> intents_of(doc) =~= all);
}

/// Which texts are among some, normalised.
proof fn lemma_normalized_in(values: Seq<String>, text: Seq<char>)
    ensures
        (exists|k: int| 0 <= k < values.len() && normalized((#[trigger] values[k])@) == text) <==> (
        exists|k: int| 0 <= k < texts(values).len() && normalized(#[trigger] texts(values)[k])
            == text),
{
    if exists|k: int| 0 <= k < values.len() && normalized((#[trigger] values[k])@) == text {
        let k = choose|k: int| 0 <= k < values.len() && normalized((#[trigger] values[k])@) == text;
        assert(texts(values)[k] == values[k]@);
    }
    if exists|k: int| 0 <= k < texts(values).len() && normalized(#[trigger] texts(values)[k])
        == text {
        let k = choose|k: int|
            0 <= k < texts(values).len() && normalized(#[trigger] texts(values)[k]) == text;
        assert(texts(values)[k] == values[k]@);
    }
}

/// The document of an intent names its resource and says where the intent comes
/// from: a use case, or else an example, or else neither; its number has two
/// digits, counts from one, and tells the intents of a document apart.
pub proof fn law_intent_documents_say_where_they_come_from(
    intent: IntentDocument,
    other: IntentDocument,
    doc: SearchDocument,
    index: int,
    other_index: int,
)
    requires
        0 <= index < intents_of(doc).len(),
        0 <= other_index < intents_of(doc).len(),
        is_intent_document(intent, doc, index),
        is_intent_document(other, doc, other_index),
    ensures
        intent.resource_did@ == doc.resource_did@,
        intent.resource_type@ == doc.resource_type@,
        intent.lifecycle_state@ == doc.lifecycle_state@,
        intent.intent_text@ == intents_of(doc)[index],
        texts(doc.use_cases@).contains(intent.intent_text@) ==> intent.intent_kind@ == "use_case"@,
        !texts(doc.use_cases@).contains(intent.intent_text@) && texts(doc.examples@).contains(
            intent.intent_text@,
        ) ==> intent.intent_kind@ == "example"@,
        !texts(doc.use_cases@).contains(intent.intent_text@) && !texts(doc.examples@).contains(
            intent.intent_text@,
        ) ==> intent.intent_kind@ == "pseudo_query"@,
        intent.semantic_source_hash@ == "sha256:"@ + sha256_hex_of(intent.intent_text@),
        intent.intent_id@ == "intent-"@ + two_digits((index + 1) as nat),
        intent.intent_id@ == other.intent_id@ ==> index == other_index,
{
    law_intents_are_unique(doc);
    lemma_two_digits((index + 1) as nat);
    lemma_two_digits((other_index + 1) as nat);
    if intent.intent_id@ == other.intent_id@ {
        let first = two_digits((index + 1) as nat);
        let second = two_digits((other_index + 1) as nat);
        assert(first =~= intent.intent_id@.skip("intent-"@.len() as int));
        assert(second =~= other.intent_id@.skip("intent-"@.len() as int));
    }
}

/// The number that two digits denote.
proof fn lemma_two_digits(value: nat)
    ensures
        digits_value(two_digits(value)) == value,
{
    law_decimal_denotes_the_number(value);
    if value < 10 {
        assert(decimal(value).len() == 1) by {
            reveal_with_fuel(decimal, 2);
        }
        reveal_with_fuel(digits_value, 3);
        let text = two_digits(value);
        assert(text.drop_last() =~= seq!['0']);
        assert(seq!['0'].drop_last() =~= Seq::<char>::empty());
        assert(decimal(value).drop_last() =~= Seq::<char>::empty());
        assert(text.last() == decimal(value).last());
    }
}

} // verus!
