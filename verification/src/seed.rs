//! Packages that are made for the evaluation of semantic search, and the hashes
//! of packages.

use vstd::prelude::*;

use crate::domains::is_domain_list;
use crate::encoding::{
    binding_json, binding_members, description_members, document_json, document_members,
    json_member_texts, json_string, json_text, json_texts, link_json, link_members, metadata_json,
    metadata_members, metadata_text, method_json, method_members, oan_metadata_json,
    oan_metadata_members, rfc3339, service_json, service_members, services_json, write_document,
    write_json_string, write_timed_metadata,
};
use crate::json::JsonValue;
use crate::package::{
    resource_type_name, CryptoSuite, DidDocument, ExampleValue, ImplementationLink, OanMetadata,
    ProtocolBinding, ResourceDescription, ResourceMetadata, ResourcePackage, ResourcePackageClaims,
    ResourceType, RootProof, ServiceEndpoint, Timestamp, VerificationMethod,
};
use crate::text::{
    ascii_lower, copy_texts, law_each_part_occurs_in_the_whole, law_parts_of_parts_occur,
    law_text_starts_and_ends_with_its_parts, occurs_in, optional_text, replace_char,
    same_text_ignoring_ascii_case, starts_with, text_result, texts, with_char_replaced,
};
use crate::validation::{agreement_fault, eligibility_fault};

verus! {

/// What a package for the evaluation is made from.
#[derive(Debug)]
pub struct SemanticEvaluationSeedResource {
    pub resource_did: String,
    pub resource_type: ResourceType,
    pub name: String,
    pub description: String,
    pub capability_description: String,
    pub capability_tags: Vec<String>,
    pub authorized_domains: Vec<String>,
    pub protocols: Vec<String>,
    pub service_endpoint: Option<String>,
    pub use_case_examples: Vec<String>,
    pub examples: Vec<ExampleValue>,
    pub package_version: String,
}

/// Two texts, one after the other.
fn concat(first: &str, second: &str) -> (text: String)
    ensures
        text@ == first@ + second@,
{
    let mut text = first.to_owned();
    text.append(second);
    text
}

/// Where the resource of a seed is served.
pub open spec fn seed_endpoint(seed: SemanticEvaluationSeedResource) -> Seq<char> {
    match seed.service_endpoint {
        Some(endpoint) => endpoint@,
        None => "https://example.org/oan/resources/"@ + with_char_replaced(
            seed.resource_did@,
            ':',
            '/',
        ),
    }
}

/// The protocol of a seed: its first, or HTTPS.
pub open spec fn seed_protocol(seed: SemanticEvaluationSeedResource) -> Seq<char> {
    if seed.protocols@.len() > 0 {
        seed.protocols@[0]@
    } else {
        "https"@
    }
}

/// What carries a protocol.
pub open spec fn transport_of(protocol: Seq<char>) -> Seq<char> {
    if ascii_lower(protocol) == ascii_lower("https"@) {
        "http"@
    } else {
        protocol
    }
}

/// The domains of a seed; the examples' domain where it names none.
pub open spec fn seed_domains(seed: SemanticEvaluationSeedResource) -> Seq<Seq<char>> {
    if seed.authorized_domains@.len() == 0 {
        seq!["examples"@]
    } else {
        texts(seed.authorized_domains@)
    }
}

/// Whether `service` is the service of a seed.
pub open spec fn is_seed_service(
    service: ServiceEndpoint,
    seed: SemanticEvaluationSeedResource,
) -> bool {
    &&& service.id@ == seed.resource_did@ + "#service-1"@
    &&& service.service_type@ == resource_type_name(seed.resource_type) + "Service"@
    &&& service.service_endpoint@ == seed_endpoint(seed)
    &&& optional_text(service.version) == Some(seed.package_version@)
    &&& optional_text(service.protocol) == Some(seed_protocol(seed))
    &&& service.server_type is None
    &&& service.port is None
}

/// The service of a seed.
fn seed_service(seed: &SemanticEvaluationSeedResource, protocol: &str) -> (service: ServiceEndpoint)
    requires
        protocol@ == seed_protocol(*seed),
    ensures
        is_seed_service(service, *seed),
{
    let service_endpoint = match &seed.service_endpoint {
        Some(endpoint) => endpoint.clone(),
        None => concat(
            "https://example.org/oan/resources/",
            &replace_char(&seed.resource_did, ':', '/'),
        ),
    };
    ServiceEndpoint {
        id: concat(&seed.resource_did, "#service-1"),
        service_type: concat(seed.resource_type.as_str(), "Service"),
        service_endpoint,
        version: Some(seed.package_version.clone()),
        protocol: Some(protocol.to_owned()),
        server_type: None,
        port: None,
    }
}

/// Whether `binding` is the protocol binding of a seed.
pub open spec fn is_seed_binding(
    binding: ProtocolBinding,
    seed: SemanticEvaluationSeedResource,
) -> bool {
    &&& binding.id@ == seed.resource_did@ + "#binding-"@ + seed_protocol(seed)
    &&& binding.protocol@ == seed_protocol(seed)
    &&& binding.version is None
    &&& optional_text(binding.transport) == Some(transport_of(seed_protocol(seed)))
    &&& optional_text(binding.service_ref) == Some(seed.resource_did@ + "#service-1"@)
    &&& binding.schema_ref is None
}

/// The protocol binding of a seed.
fn seed_binding(seed: &SemanticEvaluationSeedResource, protocol: &str) -> (binding: ProtocolBinding)
    requires
        protocol@ == seed_protocol(*seed),
    ensures
        is_seed_binding(binding, *seed),
{
    let transport = if same_text_ignoring_ascii_case(protocol, "https") {
        "http".to_owned()
    } else {
        protocol.to_owned()
    };
    ProtocolBinding {
        id: concat(&concat(&seed.resource_did, "#binding-"), protocol),
        protocol: protocol.to_owned(),
        version: None,
        transport: Some(transport),
        service_ref: Some(concat(&seed.resource_did, "#service-1")),
        schema_ref: None,
    }
}

/// Whether `link` leads from the resource of a seed to its service.
pub open spec fn is_seed_link(
    link: ImplementationLink,
    seed: SemanticEvaluationSeedResource,
) -> bool {
    &&& link.relation@ == "service"@
    &&& link.target_did@ == seed.resource_did@
    &&& link.target_type == Some(seed.resource_type)
    &&& optional_text(link.target_service) == Some(seed.resource_did@ + "#service-1"@)
    &&& optional_text(link.version_constraint) == Some(seed.package_version@)
}

/// Whether `method` is the key of a seed's DID document.
pub open spec fn is_seed_key(
    method: VerificationMethod,
    seed: SemanticEvaluationSeedResource,
) -> bool {
    &&& method.id@ == seed.resource_did@ + "#key-1"@
    &&& method.method_type@ == "Ed25519VerificationKey2020"@
    &&& method.controller@ == seed.resource_did@
    &&& method.crypto_suite == Some(CryptoSuite::Ed25519Sha256)
    &&& method.public_key_format is None
    &&& optional_text(method.public_key_multibase) == Some("zExample"@)
}

/// Whether `description` is that of a seed.
pub open spec fn is_seed_description(
    description: ResourceDescription,
    seed: SemanticEvaluationSeedResource,
) -> bool {
    &&& optional_text(description.name) == Some(seed.name@)
    &&& optional_text(description.description) == Some(seed.description@)
    &&& optional_text(description.capability_description) == Some(seed.capability_description@)
    &&& texts(description.capability_tags@) == texts(seed.capability_tags@)
    &&& texts(description.use_case_examples@) == texts(seed.use_case_examples@)
    &&& description.examples == seed.examples
    &&& optional_text(description.version) == Some(seed.package_version@)
}

/// The publisher of packages for the evaluation.
pub open spec fn seed_publisher() -> Seq<char> {
    "did:oan:AGUS:semantic-evaluation-publisher"@
}

/// Whether `metadata` is what the DID document of a seed says of its resource.
pub open spec fn is_seed_oan_metadata(
    metadata: OanMetadata,
    seed: SemanticEvaluationSeedResource,
) -> bool {
    &&& metadata.subject_type == seed.resource_type
    &&& metadata.resource_type == seed.resource_type
    &&& optional_text(metadata.publisher_did) == Some(seed_publisher())
    &&& metadata.resource_description is Some
    &&& is_seed_description(metadata.resource_description->0, seed)
    &&& metadata.agent_description is None
    &&& texts(metadata.capability_tags@) == texts(seed.capability_tags@)
    &&& texts(metadata.authorized_domains@) == seed_domains(seed)
    &&& metadata.protocol_bindings@.len() == 1
    &&& is_seed_binding(metadata.protocol_bindings@[0], seed)
    &&& metadata.implementation_links@.len() == 1
    &&& is_seed_link(metadata.implementation_links@[0], seed)
    &&& optional_text(metadata.network_scope) == Some("oan-evaluation"@)
    &&& optional_text(metadata.lifecycle_state) == Some("active"@)
}

/// Whether `document` is the DID document of a seed.
pub open spec fn is_seed_document(
    document: DidDocument,
    seed: SemanticEvaluationSeedResource,
) -> bool {
    &&& texts(document.context@) == seq!["https://www.w3.org/ns/did/v1"@]
    &&& document.id@ == seed.resource_did@
    &&& document.verification_method@.len() == 1
    &&& is_seed_key(document.verification_method@[0], seed)
    &&& texts(document.authentication@) == seq![seed.resource_did@ + "#key-1"@]
    &&& texts(document.assertion_method@) == seq![seed.resource_did@ + "#key-1"@]
    &&& document.service@.len() == 1
    &&& is_seed_service(document.service@[0], seed)
    &&& document.oan_metadata is Some
    &&& is_seed_oan_metadata(document.oan_metadata->0, seed)
}

/// Whether `binding` is the JSON object that names a protocol of a service.
pub open spec fn is_service_binding(binding: JsonValue, protocol: Seq<char>) -> bool {
    &&& binding is Object
    &&& binding->Object_0@.len() == 2
    &&& binding->Object_0@[0].0@ == "protocol"@
    &&& binding->Object_0@[0].1 is Text
    &&& binding->Object_0@[0].1->Text_0@ == protocol
    &&& binding->Object_0@[1].0@ == "role"@
    &&& binding->Object_0@[1].1 is Text
    &&& binding->Object_0@[1].1->Text_0@ == "service"@
}

/// Whether `metadata` is that of a seed's package, without hashes.
pub open spec fn is_seed_metadata(
    metadata: ResourceMetadata,
    seed: SemanticEvaluationSeedResource,
    updated_at: Timestamp,
) -> bool {
    &&& metadata.resource_did@ == seed.resource_did@
    &&& metadata.resource_type == seed.resource_type
    &&& metadata.subject_type == seed.resource_type
    &&& optional_text(metadata.publisher_did) == Some(seed_publisher())
    &&& optional_text(metadata.subject_did) == Some(seed.resource_did@)
    &&& metadata.name@ == seed.name@
    &&& metadata.description@ == seed.description@
    &&& texts(metadata.capability_tags@) == texts(seed.capability_tags@)
    &&& texts(metadata.authorized_domains@) == seed_domains(seed)
    &&& metadata.protocol_bindings@.len() == 1
    &&& is_service_binding(metadata.protocol_bindings@[0], seed_protocol(seed))
    &&& metadata.services@.len() == 1
    &&& is_seed_service(metadata.services@[0], seed)
    &&& metadata.lifecycle_state@ == "active"@
    &&& metadata.package_version@ == seed.package_version@
    &&& metadata.package_hash@ == ""@
    &&& metadata.metadata_hash@ == ""@
    &&& metadata.hash_algorithm@ == "sha256"@
    &&& metadata.updated_at == updated_at
}

/// Whether `package` is the one that a seed makes, without hashes.
pub open spec fn is_seed_package(
    package: ResourcePackage,
    seed: SemanticEvaluationSeedResource,
    updated_at: Timestamp,
    created_at: Timestamp,
) -> bool {
    &&& package.package_version@ == seed.package_version@
    &&& package.resource_did@ == seed.resource_did@
    &&& package.resource_type == seed.resource_type
    &&& is_seed_document(package.did_document, seed)
    &&& package.did_document_hash@ == ""@
    &&& package.metadata_hash@ == ""@
    &&& package.package_hash@ == ""@
    &&& package.hash_algorithm@ == "sha256"@
    &&& is_seed_metadata(package.metadata, seed, updated_at)
    &&& package.root_proof.root_did@ == "did:oan:AGRT:semantic-evaluation-root"@
    &&& package.root_proof.package_claims is None
    &&& package.root_proof.crypto_suite == Some(CryptoSuite::Ed25519Sha256)
    &&& optional_text(package.root_proof.hash_algorithm) == Some("sha256"@)
    &&& package.created_at == created_at
}

/// A list of one text.
fn one_text(text: String) -> (list: Vec<String>)
    ensures
        texts(list@) == seq![text@],
{
    let mut list: Vec<String> = Vec::new();
    list.push(text);
    assert(texts(list@) =~= seq![text@]);
    list
}

/// The domains of a seed.
fn domains_of_seed(seed: &SemanticEvaluationSeedResource) -> (domains: Vec<String>)
    ensures
        texts(domains@) == seed_domains(*seed),
{
    if seed.authorized_domains.len() == 0 {
        one_text("examples".to_owned())
    } else {
        copy_texts(&seed.authorized_domains)
    }
}

/// The metadata of a seed's package, without hashes.
fn seed_metadata(
    seed: &SemanticEvaluationSeedResource,
    protocol: &str,
    updated_at: Timestamp,
) -> (metadata: ResourceMetadata)
    requires
        protocol@ == seed_protocol(*seed),
    ensures
        is_seed_metadata(metadata, *seed, updated_at),
{
    let mut members: Vec<(String, JsonValue)> = Vec::new();
    members.push(("protocol".to_owned(), JsonValue::Text(protocol.to_owned())));
    members.push(("role".to_owned(), JsonValue::Text("service".to_owned())));
    let mut protocol_bindings: Vec<JsonValue> = Vec::new();
    protocol_bindings.push(JsonValue::Object(members));
    let mut services: Vec<ServiceEndpoint> = Vec::new();
    services.push(seed_service(seed, protocol));
    ResourceMetadata {
        resource_did: seed.resource_did.clone(),
        resource_type: seed.resource_type,
        subject_type: seed.resource_type,
        publisher_did: Some("did:oan:AGUS:semantic-evaluation-publisher".to_owned()),
        subject_did: Some(seed.resource_did.clone()),
        name: seed.name.clone(),
        description: seed.description.clone(),
        capability_tags: copy_texts(&seed.capability_tags),
        authorized_domains: domains_of_seed(seed),
        protocol_bindings,
        services,
        lifecycle_state: "active".to_owned(),
        package_version: seed.package_version.clone(),
        package_hash: "".to_owned(),
        metadata_hash: "".to_owned(),
        hash_algorithm: "sha256".to_owned(),
        updated_at,
    }
}

/// What the DID document of a seed says of its resource.
fn seed_oan_metadata(seed: SemanticEvaluationSeedResource, protocol: &str) -> (metadata:
    OanMetadata)
    requires
        protocol@ == seed_protocol(seed),
    ensures
        is_seed_oan_metadata(metadata, seed),
{
    let mut protocol_bindings: Vec<ProtocolBinding> = Vec::new();
    protocol_bindings.push(seed_binding(&seed, protocol));
    let mut implementation_links: Vec<ImplementationLink> = Vec::new();
    implementation_links.push(
        ImplementationLink {
            relation: "service".to_owned(),
            target_did: seed.resource_did.clone(),
            target_type: Some(seed.resource_type),
            target_service: Some(concat(&seed.resource_did, "#service-1")),
            version_constraint: Some(seed.package_version.clone()),
        },
    );
    let authorized_domains = domains_of_seed(&seed);
    let capability_tags = copy_texts(&seed.capability_tags);
    let description = ResourceDescription {
        name: Some(seed.name),
        description: Some(seed.description),
        capability_description: Some(seed.capability_description),
        capability_tags: seed.capability_tags,
        use_case_examples: seed.use_case_examples,
        examples: seed.examples,
        version: Some(seed.package_version),
    };
    OanMetadata {
        subject_type: seed.resource_type,
        resource_type: seed.resource_type,
        publisher_did: Some("did:oan:AGUS:semantic-evaluation-publisher".to_owned()),
        resource_description: Some(description),
        agent_description: None,
        capability_tags,
        authorized_domains,
        protocol_bindings,
        implementation_links,
        network_scope: Some("oan-evaluation".to_owned()),
        lifecycle_state: Some("active".to_owned()),
    }
}

/// The DID document of a seed.
fn seed_document(seed: SemanticEvaluationSeedResource, protocol: &str) -> (document: DidDocument)
    requires
        protocol@ == seed_protocol(seed),
    ensures
        is_seed_document(document, seed),
{
    let did = seed.resource_did.clone();
    let mut verification_method: Vec<VerificationMethod> = Vec::new();
    verification_method.push(
        VerificationMethod {
            id: concat(&did, "#key-1"),
            method_type: "Ed25519VerificationKey2020".to_owned(),
            controller: did.clone(),
            crypto_suite: Some(CryptoSuite::Ed25519Sha256),
            public_key_format: None,
            public_key_multibase: Some("zExample".to_owned()),
        },
    );
    let mut service: Vec<ServiceEndpoint> = Vec::new();
    service.push(seed_service(&seed, protocol));
    DidDocument {
        context: one_text("https://www.w3.org/ns/did/v1".to_owned()),
        authentication: one_text(concat(&did, "#key-1")),
        assertion_method: one_text(concat(&did, "#key-1")),
        id: did,
        verification_method,
        service,
        oan_metadata: Some(seed_oan_metadata(seed, protocol)),
    }
}

/// Makes the package of a seed, without hashes: they are computed over the
/// finished package.
pub fn unhashed_seed_package(
    seed: SemanticEvaluationSeedResource,
    updated_at: Timestamp,
    created_at: Timestamp,
) -> (package: ResourcePackage)
    ensures
        is_seed_package(package, seed, updated_at, created_at),
{
    let protocol = if seed.protocols.len() > 0 {
        seed.protocols[0].clone()
    } else {
        "https".to_owned()
    };
    let package_version = seed.package_version.clone();
    let resource_did = seed.resource_did.clone();
    let resource_type = seed.resource_type;
    let metadata = seed_metadata(&seed, &protocol, updated_at);
    ResourcePackage {
        package_version,
        resource_did,
        resource_type,
        did_document: seed_document(seed, &protocol),
        did_document_hash: "".to_owned(),
        metadata_hash: "".to_owned(),
        package_hash: "".to_owned(),
        hash_algorithm: "sha256".to_owned(),
        metadata,
        root_proof: RootProof {
            root_did: "did:oan:AGRT:semantic-evaluation-root".to_owned(),
            package_claims: None,
            crypto_suite: Some(CryptoSuite::Ed25519Sha256),
            hash_algorithm: Some("sha256".to_owned()),
        },
        created_at,
    }
}

/// What `oan_crypto::hash_json_with_suite` gives for the DID document in a JSON
/// text, or the error of reading it, in words.
pub uninterp spec fn document_hash(text: Seq<char>) -> Result<Seq<char>, Seq<char>>;

/// `oan_crypto::hash_json_with_suite` with the suite of Ed25519 and SHA-256, on
/// the `oan_core::DidDocument` that `serde_json` reads from a text: the digest
/// of the document's canonical form, or the error in words. A function of the
/// text alone.
#[verifier::external_body]
fn hash_document_text(text: &str) -> (digest: Result<String, String>)
    ensures
        text_result(digest) == document_hash(text@),
{
    let document = serde_json::from_str::<oan_core::DidDocument>(text).map_err(|e| e.to_string())?;
    oan_crypto::hash_json_with_suite(oan_core::CryptoSuite::Ed25519Sha256, &document)
        .map_err(|e| e.to_string())
}

/// What `oan_crypto::hash_json_with_suite` gives for the value of a JSON text,
/// or the error of reading it, in words.
pub uninterp spec fn json_hash(text: Seq<char>) -> Result<Seq<char>, Seq<char>>;

/// `oan_crypto::hash_json_with_suite` with the suite of Ed25519 and SHA-256, on
/// the value that `serde_json` reads from a text: the digest of the value's
/// canonical form, or the error in words. A function of the text alone.
#[verifier::external_body]
fn hash_json_text(text: &str) -> (digest: Result<String, String>)
    ensures
        text_result(digest) == json_hash(text@),
{
    let value = serde_json::from_str::<serde_json::Value>(text).map_err(|e| e.to_string())?;
    oan_crypto::hash_json_with_suite(oan_core::CryptoSuite::Ed25519Sha256, &value)
        .map_err(|e| e.to_string())
}

/// What `oan_package::hash_resource_metadata_with_suite` gives for the metadata
/// in a JSON text, or the error of reading it, in words.
pub uninterp spec fn hash_of_metadata(text: Seq<char>) -> Result<Seq<char>, Seq<char>>;

/// `oan_package::hash_resource_metadata_with_suite` with the suite of Ed25519
/// and SHA-256, on the metadata that `serde_json` reads from a text: the digest
/// of the metadata without its own hashes, or the error in words. A function of
/// the text alone.
#[verifier::external_body]
fn hash_metadata_text(text: &str) -> (digest: Result<String, String>)
    ensures
        text_result(digest) == hash_of_metadata(text@),
{
    let metadata = serde_json::from_str::<oan_package::ResourceMetadata>(text)
        .map_err(|e| e.to_string())?;
    oan_package::hash_resource_metadata_with_suite(
        oan_core::CryptoSuite::Ed25519Sha256,
        &metadata,
    ).map_err(|e| e.to_string())
}

/// The JSON object of the claims that a package is hashed by, given the JSON
/// text of each.
pub open spec fn claims_object(
    package_version: Seq<char>,
    resource_did: Seq<char>,
    resource_type: Seq<char>,
    did_document_hash: Seq<char>,
    metadata_hash: Seq<char>,
    hash_algorithm: Seq<char>,
) -> Seq<char> {
    "{\"packageVersion\":"@ + package_version + ",\"resourceDid\":"@ + resource_did
        + ",\"resourceType\":"@ + resource_type + ",\"didDocumentHash\":"@ + did_document_hash
        + ",\"metadataHash\":"@ + metadata_hash + ",\"hashAlgorithm\":"@ + hash_algorithm + "}"@
}

/// The JSON object of the claims that a package is hashed by, given the JSON
/// text of each.
pub fn write_claims_object(
    package_version: &str,
    resource_did: &str,
    resource_type: &str,
    did_document_hash: &str,
    metadata_hash: &str,
    hash_algorithm: &str,
) -> (text: String)
    ensures
        text@ == claims_object(
            package_version@,
            resource_did@,
            resource_type@,
            did_document_hash@,
            metadata_hash@,
            hash_algorithm@,
        ),
{
    let mut text = "{\"packageVersion\":".to_owned();
    text.append(package_version);
    text.append(",\"resourceDid\":");
    text.append(resource_did);
    text.append(",\"resourceType\":");
    text.append(resource_type);
    text.append(",\"didDocumentHash\":");
    text.append(did_document_hash);
    text.append(",\"metadataHash\":");
    text.append(metadata_hash);
    text.append(",\"hashAlgorithm\":");
    text.append(hash_algorithm);
    text.append("}");
    text
}

/// The JSON text over which the hash of a package is computed.
pub open spec fn hashed_claims(
    package: ResourcePackage,
    did_document_hash: Seq<char>,
    metadata_hash: Seq<char>,
) -> Seq<char> {
    claims_object(
        json_string(package.package_version@),
        json_string(package.resource_did@),
        json_string(resource_type_name(package.resource_type)),
        json_string(did_document_hash),
        json_string(metadata_hash),
        json_string(package.hash_algorithm@),
    )
}

/// The JSON text over which the hash of a package is computed.
fn write_hashed_claims(
    package: &ResourcePackage,
    did_document_hash: &str,
    metadata_hash: &str,
) -> (text: String)
    ensures
        text@ == hashed_claims(*package, did_document_hash@, metadata_hash@),
{
    write_claims_object(
        &write_json_string(&package.package_version),
        &write_json_string(&package.resource_did),
        &write_json_string(package.resource_type.as_str()),
        &write_json_string(did_document_hash),
        &write_json_string(metadata_hash),
        &write_json_string(&package.hash_algorithm),
    )
}

/// The hash that a package holds for a digest.
pub open spec fn tagged_hash(digest: Seq<char>) -> Seq<char> {
    "sha256:"@ + digest
}

/// Whether `claims` are those of a package with those hashes.
pub open spec fn are_claims_of(
    claims: ResourcePackageClaims,
    package: ResourcePackage,
    did_document_hash: Seq<char>,
    metadata_hash: Seq<char>,
    package_hash: Seq<char>,
) -> bool {
    &&& claims.resource_did@ == package.resource_did@
    &&& claims.resource_type == package.resource_type
    &&& claims.version@ == package.package_version@
    &&& claims.did_document_hash@ == did_document_hash
    &&& claims.metadata_hash@ == metadata_hash
    &&& claims.package_hash@ == package_hash
    &&& claims.hash_algorithm@ == package.hash_algorithm@
    &&& claims.lifecycle_state@ == package.metadata.lifecycle_state@
    &&& texts(claims.authorized_domains@) == texts(package.metadata.authorized_domains@)
    &&& claims.bulletin_ref is None
}

/// Whether `after` is `before` with those hashes, in the package, its metadata
/// and the root's claims, and nothing else changed.
pub open spec fn has_hashes(
    before: ResourcePackage,
    after: ResourcePackage,
    did_document_hash: Seq<char>,
    metadata_hash: Seq<char>,
    package_hash: Seq<char>,
) -> bool {
    &&& after.did_document_hash@ == did_document_hash
    &&& after.metadata_hash@ == metadata_hash
    &&& after.package_hash@ == package_hash
    &&& after.metadata.metadata_hash@ == metadata_hash
    &&& after.metadata.package_hash@ == package_hash
    &&& after.root_proof.package_claims is Some
    &&& are_claims_of(
        after.root_proof.package_claims->0,
        before,
        did_document_hash,
        metadata_hash,
        package_hash,
    )
    &&& after == (ResourcePackage {
        did_document_hash: after.did_document_hash,
        metadata_hash: after.metadata_hash,
        package_hash: after.package_hash,
        metadata: ResourceMetadata {
            metadata_hash: after.metadata.metadata_hash,
            package_hash: after.metadata.package_hash,
            ..before.metadata
        },
        root_proof: RootProof {
            package_claims: after.root_proof.package_claims,
            ..before.root_proof
        },
        ..before
    })
}

/// Sets the hashes of a package, of its metadata and of the root's claims.
pub fn set_package_hashes(
    package: &mut ResourcePackage,
    did_document_hash: &str,
    metadata_hash: &str,
    package_hash: &str,
)
    ensures
        has_hashes(
            *old(package),
            *final(package),
            did_document_hash@,
            metadata_hash@,
            package_hash@,
        ),
{
    let claims = ResourcePackageClaims {
        resource_did: package.resource_did.clone(),
        resource_type: package.resource_type,
        version: package.package_version.clone(),
        did_document_hash: did_document_hash.to_owned(),
        metadata_hash: metadata_hash.to_owned(),
        package_hash: package_hash.to_owned(),
        hash_algorithm: package.hash_algorithm.clone(),
        lifecycle_state: package.metadata.lifecycle_state.clone(),
        authorized_domains: copy_texts(&package.metadata.authorized_domains),
        bulletin_ref: None,
    };
    package.did_document_hash = did_document_hash.to_owned();
    package.metadata_hash = metadata_hash.to_owned();
    package.package_hash = package_hash.to_owned();
    package.metadata.metadata_hash = metadata_hash.to_owned();
    package.metadata.package_hash = package_hash.to_owned();
    package.root_proof.package_claims = Some(claims);
}

/// The hash of a package that has those other hashes.
pub open spec fn package_hash_over(
    package: ResourcePackage,
    did_document_hash: Seq<char>,
    metadata_hash: Seq<char>,
) -> Result<Seq<char>, Seq<char>> {
    json_hash(hashed_claims(package, did_document_hash, metadata_hash))
}

/// The digest of a DID document, or the error of the hash function.
pub open spec fn document_digest(document: DidDocument) -> Result<Seq<char>, Seq<char>> {
    document_hash(document_json(document))
}

/// The digest of metadata, or the error of writing them or of the hash
/// function.
pub open spec fn metadata_digest(metadata: ResourceMetadata) -> Result<Seq<char>, Seq<char>> {
    match metadata_text(metadata) {
        Ok(text) => hash_of_metadata(text),
        Err(error) => Err(error),
    }
}

/// The digest of a package over its DID document and its metadata, or the error
/// of the first digest that cannot be computed.
pub open spec fn package_digest(package: ResourcePackage) -> Result<Seq<char>, Seq<char>> {
    match document_digest(package.did_document) {
        Ok(document) => match metadata_digest(package.metadata) {
            Ok(metadata) => package_hash_over(
                package,
                tagged_hash(document),
                tagged_hash(metadata),
            ),
            Err(error) => Err(error),
        },
        Err(error) => Err(error),
    }
}

/// Whether `after` is `before` with the hashes of its own DID document, of its
/// own metadata and of both.
pub open spec fn has_own_hashes(before: ResourcePackage, after: ResourcePackage) -> bool {
    &&& document_digest(before.did_document) matches Ok(document)
    &&& metadata_digest(before.metadata) matches Ok(metadata)
    &&& package_digest(before) matches Ok(package)
    &&& has_hashes(
        before,
        after,
        tagged_hash(document),
        tagged_hash(metadata),
        tagged_hash(package),
    )
}

/// The digest of a DID document, or the error of the hash function.
fn digest_document(document: &DidDocument) -> (digest: Result<String, String>)
    ensures
        text_result(digest) == document_digest(*document),
{
    hash_document_text(&write_document(document))
}

/// The digest of metadata, or the error of writing them or of the hash
/// function.
fn digest_metadata(metadata: &ResourceMetadata) -> (digest: Result<String, String>)
    ensures
        text_result(digest) == metadata_digest(*metadata),
{
    match write_timed_metadata(metadata) {
        Ok(text) => hash_metadata_text(&text),
        Err(error) => Err(error),
    }
}

/// Computes the hashes of a package anew, over its DID document and its
/// metadata. A package whose hashes cannot be computed is left as it is.
pub fn refresh_resource_package_hashes(package: &mut ResourcePackage) -> (result: Result<
    (),
    String,
>)
    ensures
        result is Ok <==> package_digest(*old(package)) is Ok,
        result is Ok ==> has_own_hashes(*old(package), *final(package)),
        result matches Err(error) ==> package_digest(*old(package)) == Err::<Seq<char>, Seq<char>>(
            error@,
        ) && *final(package) == *old(package),
{
    let did_document_hash = match digest_document(&package.did_document) {
        Ok(digest) => concat("sha256:", &digest),
        Err(error) => return Err(error),
    };
    let metadata_hash = match digest_metadata(&package.metadata) {
        Ok(digest) => concat("sha256:", &digest),
        Err(error) => return Err(error),
    };
    let claims = write_hashed_claims(package, &did_document_hash, &metadata_hash);
    let package_hash = match hash_json_text(&claims) {
        Ok(digest) => concat("sha256:", &digest),
        Err(error) => return Err(error),
    };
    set_package_hashes(package, &did_document_hash, &metadata_hash, &package_hash);
    Ok(())
}

/// Makes the package of a seed with those hashes.
pub fn seed_package_with_hashes(
    seed: SemanticEvaluationSeedResource,
    updated_at: Timestamp,
    created_at: Timestamp,
    did_document_hash: &str,
    metadata_hash: &str,
    package_hash: &str,
) -> (package: ResourcePackage)
    ensures
        exists|made: ResourcePackage| #[trigger]
            is_seed_package(made, seed, updated_at, created_at) && has_hashes(
                made,
                package,
                did_document_hash@,
                metadata_hash@,
                package_hash@,
            ),
{
    let mut package = unhashed_seed_package(seed, updated_at, created_at);
    let ghost made = package;
    set_package_hashes(&mut package, did_document_hash, metadata_hash, package_hash);
    assert(is_seed_package(made, seed, updated_at, created_at));
    package
}

/// Makes the package of a seed, with its hashes and the claims that the root
/// signs.
pub fn seed_resource_package(
    seed: SemanticEvaluationSeedResource,
    updated_at: Timestamp,
    created_at: Timestamp,
) -> (result: Result<ResourcePackage, String>)
    ensures
        forall|made: ResourcePackage| #[trigger]
            is_seed_package(made, seed, updated_at, created_at) ==> (result is Ok
                <==> package_digest(made) is Ok),
        result matches Ok(package) ==> exists|made: ResourcePackage| #[trigger]
            is_seed_package(made, seed, updated_at, created_at) && has_own_hashes(made, package),
        result matches Err(error) ==> exists|made: ResourcePackage| #[trigger]
            is_seed_package(made, seed, updated_at, created_at) && package_digest(made) == Err::<
                Seq<char>,
                Seq<char>,
            >(error@),
{
    let mut package = unhashed_seed_package(seed, updated_at, created_at);
    let ghost unhashed = package;
    proof {
        assert forall|made: ResourcePackage| #[trigger]
            is_seed_package(made, seed, updated_at, created_at) implies package_digest(made)
            == package_digest(unhashed) by {
            law_seed_digests_are_determined(seed, updated_at, created_at, made, unhashed);
        }
        assert(is_seed_package(unhashed, seed, updated_at, created_at));
    }
    match refresh_resource_package_hashes(&mut package) {
        Ok(()) => Ok(package),
        Err(error) => Err(error),
    }
}

/// The services of one seed are written alike.
proof fn lemma_seed_services_are_alike(
    seed: SemanticEvaluationSeedResource,
    first: Seq<ServiceEndpoint>,
    second: Seq<ServiceEndpoint>,
)
    requires
        first.len() == 1,
        second.len() == 1,
        is_seed_service(first[0], seed),
        is_seed_service(second[0], seed),
    ensures
        services_json(first) == services_json(second),
{
    assert(service_members(first[0]) =~= service_members(second[0]));
    assert(first.map_values(|item: ServiceEndpoint| service_json(item)) =~= second.map_values(
        |item: ServiceEndpoint| service_json(item),
    ));
}

/// What the DID documents of one seed say of its resource is written alike.
proof fn lemma_seed_oan_metadata_are_alike(
    seed: SemanticEvaluationSeedResource,
    first: OanMetadata,
    second: OanMetadata,
)
    requires
        is_seed_oan_metadata(first, seed),
        is_seed_oan_metadata(second, seed),
    ensures
        oan_metadata_json(first) == oan_metadata_json(second),
{
    assert(description_members(first.resource_description->0) =~= description_members(
        second.resource_description->0,
    ));
    assert(binding_members(first.protocol_bindings@[0]) =~= binding_members(
        second.protocol_bindings@[0],
    ));
    assert(first.protocol_bindings@.map_values(|item: ProtocolBinding| binding_json(item))
        =~= second.protocol_bindings@.map_values(|item: ProtocolBinding| binding_json(item)));
    assert(link_members(first.implementation_links@[0]) =~= link_members(
        second.implementation_links@[0],
    ));
    assert(first.implementation_links@.map_values(|item: ImplementationLink| link_json(item))
        =~= second.implementation_links@.map_values(|item: ImplementationLink| link_json(item)));
    assert(oan_metadata_members(first) =~= oan_metadata_members(second));
}

/// The DID documents of one seed are written alike.
proof fn lemma_seed_documents_are_alike(
    seed: SemanticEvaluationSeedResource,
    first: DidDocument,
    second: DidDocument,
)
    requires
        is_seed_document(first, seed),
        is_seed_document(second, seed),
    ensures
        document_json(first) == document_json(second),
{
    lemma_seed_services_are_alike(seed, first.service@, second.service@);
    lemma_seed_oan_metadata_are_alike(seed, first.oan_metadata->0, second.oan_metadata->0);
    assert(method_members(first.verification_method@[0]) =~= method_members(
        second.verification_method@[0],
    ));
    assert(first.verification_method@.map_values(|item: VerificationMethod| method_json(item))
        =~= second.verification_method@.map_values(|item: VerificationMethod| method_json(item)));
    assert(document_members(first) =~= document_members(second));
    reveal(document_json);
}

/// The metadata of one seed's packages are written alike.
proof fn lemma_seed_metadata_are_alike(
    seed: SemanticEvaluationSeedResource,
    updated_at: Timestamp,
    first: ResourceMetadata,
    second: ResourceMetadata,
)
    requires
        is_seed_metadata(first, seed, updated_at),
        is_seed_metadata(second, seed, updated_at),
    ensures
        metadata_text(first) == metadata_text(second),
{
    lemma_seed_services_are_alike(seed, first.services@, second.services@);
    reveal_with_fuel(json_text, 3);
    reveal_with_fuel(json_texts, 3);
    reveal_with_fuel(json_member_texts, 3);
    assert(json_text(first.protocol_bindings@[0]) == json_text(second.protocol_bindings@[0]));
    assert(json_texts(first.protocol_bindings@) =~= json_texts(second.protocol_bindings@));
    if let Some(time) = rfc3339(updated_at.seconds, updated_at.nanos) {
        assert(metadata_members(first, time) =~= metadata_members(second, time));
        reveal(metadata_json);
    }
}

/// A seed and its times determine the hashes of its package: two packages that
/// are made from them have the same digests.
pub proof fn law_seed_digests_are_determined(
    seed: SemanticEvaluationSeedResource,
    updated_at: Timestamp,
    created_at: Timestamp,
    first: ResourcePackage,
    second: ResourcePackage,
)
    requires
        is_seed_package(first, seed, updated_at, created_at),
        is_seed_package(second, seed, updated_at, created_at),
    ensures
        document_digest(first.did_document) == document_digest(second.did_document),
        metadata_digest(first.metadata) == metadata_digest(second.metadata),
        package_digest(first) == package_digest(second),
{
    lemma_seed_documents_are_alike(seed, first.did_document, second.did_document);
    lemma_seed_metadata_are_alike(seed, updated_at, first.metadata, second.metadata);
}

/// The package of a seed agrees with itself once its hashes are set, and it is
/// active in domains: nothing but its document, its hashes and the form of its
/// domains is left to check before it is indexed.
pub proof fn law_seed_packages_agree(
    seed: SemanticEvaluationSeedResource,
    updated_at: Timestamp,
    created_at: Timestamp,
    made: ResourcePackage,
    package: ResourcePackage,
    did_document_hash: Seq<char>,
    metadata_hash: Seq<char>,
    package_hash: Seq<char>,
)
    requires
        is_seed_package(made, seed, updated_at, created_at),
        has_hashes(made, package, did_document_hash, metadata_hash, package_hash),
    ensures
        agreement_fault(package) is None,
        is_domain_list(seed_domains(seed)) <==> eligibility_fault(package) is None,
{
    assert(texts(package.metadata.authorized_domains@) == seed_domains(seed));
    assert(texts(package.metadata.authorized_domains@).len()
        == package.metadata.authorized_domains@.len());
    assert(texts(seed.authorized_domains@).len() == seed.authorized_domains@.len());
}

/// The error that names a package of the evaluation that cannot be indexed.
pub fn invalid_seed_package(resource_did: &str, reason: &str) -> (error: String)
    ensures
        error@ == "invalid_seed_package:"@ + resource_did@ + ":"@ + reason@,
{
    let mut error = "invalid_seed_package:".to_owned();
    error.append(resource_did);
    error.append(":");
    error.append(reason);
    error
}

/// Where a seed leaves something open, its package names the examples' address
/// under its DID, HTTPS, and the examples' domain; what it says is kept.
pub proof fn law_seeds_have_defaults(seed: SemanticEvaluationSeedResource)
    ensures
        seed.service_endpoint matches Some(endpoint) ==> seed_endpoint(seed) == endpoint@,
        seed.service_endpoint is None ==> starts_with(
            seed_endpoint(seed),
            "https://example.org/oan/resources/"@,
        ) && seed_endpoint(seed).len() == "https://example.org/oan/resources/"@.len()
            + seed.resource_did@.len(),
        seed.protocols@.len() == 0 ==> seed_protocol(seed) == "https"@,
        seed.protocols@.len() > 0 ==> seed_protocol(seed) == seed.protocols@[0]@,
        seed.authorized_domains@.len() == 0 ==> seed_domains(seed) == seq!["examples"@],
        seed.authorized_domains@.len() > 0 ==> seed_domains(seed) == texts(
            seed.authorized_domains@,
        ),
        seed_domains(seed).len() > 0,
{
    law_text_starts_and_ends_with_its_parts(
        "https://example.org/oan/resources/"@,
        with_char_replaced(seed.resource_did@, ':', '/'),
    );
    assert(texts(seed.authorized_domains@).len() == seed.authorized_domains@.len());
}

/// HTTPS is carried by HTTP, in whatever case it is written, and every other
/// protocol by itself.
pub proof fn law_protocols_are_carried(protocol: Seq<char>)
    ensures
        ascii_lower(protocol) == "https"@ ==> transport_of(protocol) == "http"@,
        ascii_lower(protocol) != "https"@ ==> transport_of(protocol) == protocol,
        transport_of("https"@) == "http"@,
{
    reveal_strlit("https");
    assert(ascii_lower("https"@) =~= "https"@);
}

/// The package of a seed says what the seed says, in its metadata and in its
/// document alike: its DID, type, version, name, description, tags, domains,
/// use cases and examples.
pub proof fn law_seed_packages_say_what_the_seed_says(
    package: ResourcePackage,
    seed: SemanticEvaluationSeedResource,
    updated_at: Timestamp,
    created_at: Timestamp,
)
    requires
        is_seed_package(package, seed, updated_at, created_at),
    ensures
        package.resource_did@ == seed.resource_did@,
        package.metadata.resource_did@ == seed.resource_did@,
        package.did_document.id@ == seed.resource_did@,
        package.resource_type == seed.resource_type,
        package.metadata.resource_type == seed.resource_type,
        package.package_version@ == seed.package_version@,
        package.metadata.package_version@ == seed.package_version@,
        package.metadata.name@ == seed.name@,
        package.metadata.description@ == seed.description@,
        texts(package.metadata.capability_tags@) == texts(seed.capability_tags@),
        seed.authorized_domains@.len() > 0 ==> texts(package.metadata.authorized_domains@) == texts(
            seed.authorized_domains@,
        ),
        package.metadata.lifecycle_state@ == "active"@,
        package.metadata.updated_at == updated_at,
        package.created_at == created_at,
        package.did_document.oan_metadata matches Some(said) && {
            &&& said.resource_type == seed.resource_type
            &&& said.subject_type == seed.resource_type
            &&& texts(said.capability_tags@) == texts(seed.capability_tags@)
            &&& texts(said.authorized_domains@) == texts(package.metadata.authorized_domains@)
            &&& said.lifecycle_state matches Some(state) && state@ == "active"@
            &&& said.resource_description matches Some(description) && {
                &&& optional_text(description.name) == Some(seed.name@)
                &&& optional_text(description.description) == Some(seed.description@)
                &&& optional_text(description.capability_description) == Some(
                    seed.capability_description@,
                )
                &&& texts(description.capability_tags@) == texts(seed.capability_tags@)
                &&& texts(description.use_case_examples@) == texts(seed.use_case_examples@)
                &&& description.examples@ == seed.examples@
                &&& optional_text(description.version) == Some(seed.package_version@)
            }
        },
{
}

/// The package of a seed has one service, the same in its metadata and in its
/// document, at the seed's address and with the seed's first protocol; one
/// binding and one link lead to it; and one key, its own, both authenticates and
/// asserts.
pub proof fn law_seed_packages_have_one_service_and_one_key(
    package: ResourcePackage,
    seed: SemanticEvaluationSeedResource,
    updated_at: Timestamp,
    created_at: Timestamp,
)
    requires
        is_seed_package(package, seed, updated_at, created_at),
    ensures
        ({
            let document = package.did_document;
            let said = document.oan_metadata->0;
            let service = document.service@[0];
            &&& document.service@.len() == 1 && package.metadata.services@.len() == 1
            &&& service.id@ == seed.resource_did@ + "#service-1"@
            &&& seed.service_endpoint matches Some(endpoint) ==> service.service_endpoint@
                == endpoint@
            &&& service.service_type@ == resource_type_name(seed.resource_type) + "Service"@
            &&& optional_text(service.version) == Some(seed.package_version@)
            &&& seed.protocols@.len() > 0 ==> optional_text(service.protocol) == Some(
                seed.protocols@[0]@,
            )
            &&& package.metadata.services@[0].id@ == service.id@
            &&& package.metadata.services@[0].service_endpoint@ == service.service_endpoint@
            &&& optional_text(package.metadata.services@[0].protocol) == optional_text(
                service.protocol,
            )
            &&& said.protocol_bindings@.len() == 1
            &&& optional_text(said.protocol_bindings@[0].service_ref) == Some(service.id@)
            &&& Some(said.protocol_bindings@[0].protocol@) == optional_text(service.protocol)
            &&& said.implementation_links@.len() == 1
            &&& optional_text(said.implementation_links@[0].target_service) == Some(service.id@)
            &&& said.implementation_links@[0].target_did@ == seed.resource_did@
            &&& document.verification_method@.len() == 1
            &&& document.verification_method@[0].controller@ == seed.resource_did@
            &&& texts(document.authentication@) == seq![document.verification_method@[0].id@]
            &&& texts(document.assertion_method@) == seq![document.verification_method@[0].id@]
        }),
{
}

/// Every claim stands in the text over which the hash of a package is computed:
/// its version, DID and type, the hashes of its document and of its metadata,
/// and their algorithm.
pub proof fn law_package_hashes_cover_every_claim(
    package: ResourcePackage,
    did_document_hash: Seq<char>,
    metadata_hash: Seq<char>,
)
    ensures
        ({
            let text = hashed_claims(package, did_document_hash, metadata_hash);
            &&& occurs_in(
                text,
                "\"packageVersion\":"@ + json_string(package.package_version@),
            )
            &&& occurs_in(text, "\"resourceDid\":"@ + json_string(package.resource_did@))
            &&& occurs_in(
                text,
                "\"resourceType\":"@ + json_string(resource_type_name(package.resource_type)),
            )
            &&& occurs_in(text, "\"didDocumentHash\":"@ + json_string(did_document_hash))
            &&& occurs_in(text, "\"metadataHash\":"@ + json_string(metadata_hash))
            &&& occurs_in(text, "\"hashAlgorithm\":"@ + json_string(package.hash_algorithm@))
        }),
{
    let v = json_string(package.package_version@);
    let d = json_string(package.resource_did@);
    let t = json_string(resource_type_name(package.resource_type));
    let h = json_string(did_document_hash);
    let m = json_string(metadata_hash);
    let a = json_string(package.hash_algorithm@);
    lemma_claim_names();
    let b1 = "{\"packageVersion\":"@ + v;
    let b2 = b1 + ",\"resourceDid\":"@ + d;
    let b3 = b2 + ",\"resourceType\":"@ + t;
    let b4 = b3 + ",\"didDocumentHash\":"@ + h;
    let b5 = b4 + ",\"metadataHash\":"@ + m;
    let b6 = b5 + ",\"hashAlgorithm\":"@ + a;
    lemma_claim_stands(Seq::empty(), "{"@, "\"packageVersion\":"@, v);
    assert(Seq::<char>::empty() + "{\"packageVersion\":"@ =~= "{\"packageVersion\":"@);
    lemma_claim_stands(b1, ","@, "\"resourceDid\":"@, d);
    lemma_claim_stands(b2, ","@, "\"resourceType\":"@, t);
    lemma_claim_stands(b3, ","@, "\"didDocumentHash\":"@, h);
    lemma_claim_stands(b4, ","@, "\"metadataHash\":"@, m);
    lemma_claim_stands(b5, ","@, "\"hashAlgorithm\":"@, a);
    let e6 = "}"@;
    lemma_longer_texts(b1, ",\"resourceDid\":"@, d, "\"packageVersion\":"@ + v);
    lemma_longer_texts(b2, ",\"resourceType\":"@, t, "\"packageVersion\":"@ + v);
    lemma_longer_texts(b3, ",\"didDocumentHash\":"@, h, "\"packageVersion\":"@ + v);
    lemma_longer_texts(b4, ",\"metadataHash\":"@, m, "\"packageVersion\":"@ + v);
    lemma_longer_texts(b5, ",\"hashAlgorithm\":"@, a, "\"packageVersion\":"@ + v);
    lemma_longer_texts(b6, e6, e6, "\"packageVersion\":"@ + v);
    lemma_longer_texts(b2, ",\"resourceType\":"@, t, "\"resourceDid\":"@ + d);
    lemma_longer_texts(b3, ",\"didDocumentHash\":"@, h, "\"resourceDid\":"@ + d);
    lemma_longer_texts(b4, ",\"metadataHash\":"@, m, "\"resourceDid\":"@ + d);
    lemma_longer_texts(b5, ",\"hashAlgorithm\":"@, a, "\"resourceDid\":"@ + d);
    lemma_longer_texts(b6, e6, e6, "\"resourceDid\":"@ + d);
    lemma_longer_texts(b3, ",\"didDocumentHash\":"@, h, "\"resourceType\":"@ + t);
    lemma_longer_texts(b4, ",\"metadataHash\":"@, m, "\"resourceType\":"@ + t);
    lemma_longer_texts(b5, ",\"hashAlgorithm\":"@, a, "\"resourceType\":"@ + t);
    lemma_longer_texts(b6, e6, e6, "\"resourceType\":"@ + t);
    lemma_longer_texts(b4, ",\"metadataHash\":"@, m, "\"didDocumentHash\":"@ + h);
    lemma_longer_texts(b5, ",\"hashAlgorithm\":"@, a, "\"didDocumentHash\":"@ + h);
    lemma_longer_texts(b6, e6, e6, "\"didDocumentHash\":"@ + h);
    lemma_longer_texts(b5, ",\"hashAlgorithm\":"@, a, "\"metadataHash\":"@ + m);
    lemma_longer_texts(b6, e6, e6, "\"metadataHash\":"@ + m);
    lemma_longer_texts(b6, e6, e6, "\"hashAlgorithm\":"@ + a);
}

/// What occurs in a text occurs in a longer one that starts with it.
proof fn lemma_longer_texts(
    text: Seq<char>,
    more: Seq<char>,
    most: Seq<char>,
    needle: Seq<char>,
)
    requires
        occurs_in(text, needle),
    ensures
        occurs_in(text + more, needle),
        occurs_in(text + more + most, needle),
{
    law_each_part_occurs_in_the_whole(text, more);
    law_parts_of_parts_occur(text + more, text, needle);
    law_each_part_occurs_in_the_whole(text + more, most);
    law_parts_of_parts_occur(text + more + most, text + more, needle);
}

/// A claim stands at the end of what is written up to it.
proof fn lemma_claim_stands(
    before: Seq<char>,
    separator: Seq<char>,
    name: Seq<char>,
    value: Seq<char>,
)
    ensures
        occurs_in(before + (separator + name) + value, name + value),
{
    assert(before + (separator + name) + value =~= (before + separator) + (name + value));
    law_each_part_occurs_in_the_whole(before + separator, name + value);
}

/// The names of the claims, after what parts them.
proof fn lemma_claim_names()
    ensures
        "{\"packageVersion\":"@ == "{"@ + "\"packageVersion\":"@,
        ",\"resourceDid\":"@ == ","@ + "\"resourceDid\":"@,
        ",\"resourceType\":"@ == ","@ + "\"resourceType\":"@,
        ",\"didDocumentHash\":"@ == ","@ + "\"didDocumentHash\":"@,
        ",\"metadataHash\":"@ == ","@ + "\"metadataHash\":"@,
        ",\"hashAlgorithm\":"@ == ","@ + "\"hashAlgorithm\":"@,
{
    reveal_strlit("{");
    reveal_strlit(",");
    reveal_strlit("{\"packageVersion\":");
    reveal_strlit("\"packageVersion\":");
    reveal_strlit(",\"resourceDid\":");
    reveal_strlit("\"resourceDid\":");
    reveal_strlit(",\"resourceType\":");
    reveal_strlit("\"resourceType\":");
    reveal_strlit(",\"didDocumentHash\":");
    reveal_strlit("\"didDocumentHash\":");
    reveal_strlit(",\"metadataHash\":");
    reveal_strlit("\"metadataHash\":");
    reveal_strlit(",\"hashAlgorithm\":");
    reveal_strlit("\"hashAlgorithm\":");
    assert("{\"packageVersion\":"@ =~= "{"@ + "\"packageVersion\":"@);
    assert(",\"resourceDid\":"@ =~= ","@ + "\"resourceDid\":"@);
    assert(",\"resourceType\":"@ =~= ","@ + "\"resourceType\":"@);
    assert(",\"didDocumentHash\":"@ =~= ","@ + "\"didDocumentHash\":"@);
    assert(",\"metadataHash\":"@ =~= ","@ + "\"metadataHash\":"@);
    assert(",\"hashAlgorithm\":"@ =~= ","@ + "\"hashAlgorithm\":"@);
}

/// A package with its own hashes holds the digests of its document, of its
/// metadata as they were and of its claims, each with the algorithm in front,
/// the same in the package, in its metadata and in the root's claims; and
/// nothing else of it has changed.
pub proof fn law_own_hashes_are_set_everywhere(before: ResourcePackage, after: ResourcePackage)
    requires
        has_own_hashes(before, after),
    ensures
        document_hash(document_json(before.did_document)) matches Ok(digest)
            && after.did_document_hash@ == "sha256:"@ + digest,
        metadata_text(before.metadata) matches Ok(text) && hash_of_metadata(text) matches Ok(digest)
            && after.metadata_hash@ == "sha256:"@ + digest,
        json_hash(
            hashed_claims(before, after.did_document_hash@, after.metadata_hash@),
        ) matches Ok(digest) && after.package_hash@ == "sha256:"@ + digest,
        after.metadata.metadata_hash@ == after.metadata_hash@,
        after.metadata.package_hash@ == after.package_hash@,
        after.root_proof.package_claims matches Some(claims) && {
            &&& claims.did_document_hash@ == after.did_document_hash@
            &&& claims.metadata_hash@ == after.metadata_hash@
            &&& claims.package_hash@ == after.package_hash@
            &&& claims.resource_did@ == after.resource_did@
            &&& claims.resource_type == after.resource_type
            &&& claims.version@ == after.package_version@
            &&& claims.hash_algorithm@ == after.hash_algorithm@
            &&& claims.lifecycle_state@ == after.metadata.lifecycle_state@
            &&& texts(claims.authorized_domains@) == texts(after.metadata.authorized_domains@)
        },
        after.resource_did == before.resource_did,
        after.resource_type == before.resource_type,
        after.package_version == before.package_version,
        after.did_document == before.did_document,
        after.hash_algorithm == before.hash_algorithm,
        after.metadata.resource_did == before.metadata.resource_did,
        after.metadata.name == before.metadata.name,
        after.metadata.description == before.metadata.description,
        after.metadata.capability_tags == before.metadata.capability_tags,
        after.metadata.authorized_domains == before.metadata.authorized_domains,
        after.metadata.services == before.metadata.services,
        after.metadata.lifecycle_state == before.metadata.lifecycle_state,
        after.metadata.updated_at == before.metadata.updated_at,
        after.root_proof.root_did == before.root_proof.root_did,
        after.created_at == before.created_at,
{
}

/// Which digest fails decides the error of a package: its document's, or else
/// its metadata's, or else that of its claims.
pub proof fn law_first_failing_digest_is_reported(package: ResourcePackage)
    ensures
        document_hash(document_json(package.did_document)) matches Err(error) ==> package_digest(
            package,
        ) == Err::<Seq<char>, Seq<char>>(error),
        document_hash(document_json(package.did_document)) is Ok ==> (metadata_text(
            package.metadata,
        ) matches Err(error) ==> package_digest(package) == Err::<Seq<char>, Seq<char>>(error)),
        document_hash(document_json(package.did_document)) is Ok ==> (metadata_text(
            package.metadata,
        ) matches Ok(text) ==> (hash_of_metadata(text) matches Err(error) ==> package_digest(
            package,
        ) == Err::<Seq<char>, Seq<char>>(error))),
{
}

/// The packages of seeds belong to the evaluation: its publisher, its root and
/// its network, with SHA-256 and Ed25519 keys.
pub proof fn law_seed_packages_belong_to_the_evaluation(
    package: ResourcePackage,
    seed: SemanticEvaluationSeedResource,
    updated_at: Timestamp,
    created_at: Timestamp,
)
    requires
        is_seed_package(package, seed, updated_at, created_at),
    ensures
        optional_text(package.metadata.publisher_did) == Some(
            "did:oan:AGUS:semantic-evaluation-publisher"@,
        ),
        optional_text(package.metadata.subject_did) == Some(seed.resource_did@),
        package.metadata.subject_type == seed.resource_type,
        package.root_proof.root_did@ == "did:oan:AGRT:semantic-evaluation-root"@,
        package.root_proof.crypto_suite == Some(CryptoSuite::Ed25519Sha256),
        package.root_proof.package_claims is None,
        package.hash_algorithm@ == "sha256"@,
        package.metadata.hash_algorithm@ == "sha256"@,
        optional_text(package.root_proof.hash_algorithm) == Some("sha256"@),
        package.package_hash@.len() == 0 && package.metadata_hash@.len() == 0,
        package.did_document_hash@.len() == 0,
        package.metadata.package_hash@.len() == 0 && package.metadata.metadata_hash@.len() == 0,
        texts(package.did_document.context@) == seq!["https://www.w3.org/ns/did/v1"@],
        ({
            let said = package.did_document.oan_metadata->0;
            let key = package.did_document.verification_method@[0];
            let binding = said.protocol_bindings@[0];
            let link = said.implementation_links@[0];
            &&& optional_text(said.publisher_did) == optional_text(package.metadata.publisher_did)
            &&& optional_text(said.network_scope) == Some("oan-evaluation"@)
            &&& said.agent_description is None
            &&& key.id@ == seed.resource_did@ + "#key-1"@
            &&& key.method_type@ == "Ed25519VerificationKey2020"@
            &&& key.crypto_suite == Some(CryptoSuite::Ed25519Sha256)
            &&& key.public_key_format is None
            &&& optional_text(key.public_key_multibase) == Some("zExample"@)
            &&& binding.id@ == seed.resource_did@ + "#binding-"@ + binding.protocol@
            &&& optional_text(binding.transport) == Some(transport_of(binding.protocol@))
            &&& binding.version is None && binding.schema_ref is None
            &&& link.relation@ == "service"@
            &&& link.target_type == Some(seed.resource_type)
            &&& optional_text(link.version_constraint) == Some(seed.package_version@)
            &&& package.did_document.service@[0].server_type is None
            &&& package.did_document.service@[0].port is None
        }),
        package.metadata.protocol_bindings@.len() == 1,
        package.metadata.protocol_bindings@[0] matches JsonValue::Object(members) && {
            &&& members@.len() == 2
            &&& members@[0].0@ == "protocol"@
            &&& members@[0].1 matches JsonValue::Text(protocol) && Some(protocol@)
                == optional_text(package.did_document.service@[0].protocol)
            &&& members@[1].0@ == "role"@
            &&& members@[1].1 matches JsonValue::Text(role) && role@ == "service"@
        },
{
    reveal_strlit("");
}

/// The text over which the hash of a package is computed is one JSON object.
pub proof fn law_hashed_claims_are_one_object(
    package: ResourcePackage,
    did_document_hash: Seq<char>,
    metadata_hash: Seq<char>,
)
    ensures
        ({
            let text = hashed_claims(package, did_document_hash, metadata_hash);
            &&& text.len() > 2
            &&& text[0] == '{'
            &&& text.last() == '}'
        }),
{
    reveal_strlit("{\"packageVersion\":");
    reveal_strlit("}");
    assert("{\"packageVersion\":"@.len() == 18);
    assert("{\"packageVersion\":"@[0] == '{');
    assert("}"@.len() == 1);
    assert("}"@[0] == '}');
}

} // verus!
