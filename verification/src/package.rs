//! Resource packages and queries, as far as the node reads or writes them.

use vstd::prelude::*;

use crate::json::{text_member, JsonValue};
use crate::text::{ascii_lower, contains_text, same_text_ignoring_ascii_case, texts};

verus! {

/// What a resource is.
#[derive(Clone, Copy, Debug, PartialEq, Eq, Structural)]
pub enum ResourceType {
    AgentService,
    Skill,
    McpServer,
    ToolApi,
    InfrastructureNode,
    Organization,
    Developer,
}

/// The name of a resource type.
pub open spec fn resource_type_name(resource_type: ResourceType) -> Seq<char> {
    match resource_type {
        ResourceType::AgentService => "agent_service"@,
        ResourceType::Skill => "skill"@,
        ResourceType::McpServer => "mcp_server"@,
        ResourceType::ToolApi => "tool_api"@,
        ResourceType::InfrastructureNode => "infrastructure_node"@,
        ResourceType::Organization => "organization"@,
        ResourceType::Developer => "developer"@,
    }
}

impl ResourceType {
    /// The name of the resource type.
    pub fn as_str(&self) -> (name: &'static str)
        ensures
            name@ == resource_type_name(*self),
    {
        match self {
            ResourceType::AgentService => "agent_service",
            ResourceType::Skill => "skill",
            ResourceType::McpServer => "mcp_server",
            ResourceType::ToolApi => "tool_api",
            ResourceType::InfrastructureNode => "infrastructure_node",
            ResourceType::Organization => "organization",
            ResourceType::Developer => "developer",
        }
    }
}

/// A suite of signature and hash algorithms.
#[derive(Clone, Copy, Debug, PartialEq, Eq, Structural)]
pub enum CryptoSuite {
    Ed25519Sha256Legacy,
    Ed25519Sha256,
    Sm2Sm3,
}

/// A point in time: seconds since the epoch, and nanoseconds after them.
#[derive(Clone, Copy, Debug, PartialEq, Eq, Structural)]
pub struct Timestamp {
    pub seconds: i64,
    pub nanos: u32,
}

/// Whether `first` is before `second`.
pub open spec fn earlier(first: Timestamp, second: Timestamp) -> bool {
    first.seconds < second.seconds || (first.seconds == second.seconds && first.nanos
        < second.nanos)
}

impl Timestamp {
    /// Whether this is before `other`.
    pub fn is_earlier(&self, other: &Timestamp) -> (result: bool)
        ensures
            result == earlier(*self, *other),
    {
        self.seconds < other.seconds || (self.seconds == other.seconds && self.nanos < other.nanos)
    }
}

/// A service that a resource offers.
#[derive(Debug)]
pub struct ServiceEndpoint {
    pub id: String,
    pub service_type: String,
    pub service_endpoint: String,
    pub version: Option<String>,
    pub protocol: Option<String>,
    pub server_type: Option<String>,
    pub port: Option<u16>,
}

/// How a service is bound to a protocol.
#[derive(Debug)]
pub struct ProtocolBinding {
    pub id: String,
    pub protocol: String,
    pub version: Option<String>,
    pub transport: Option<String>,
    pub service_ref: Option<String>,
    pub schema_ref: Option<String>,
}

/// A link from a resource to what implements it.
#[derive(Debug)]
pub struct ImplementationLink {
    pub relation: String,
    pub target_did: String,
    pub target_type: Option<ResourceType>,
    pub target_service: Option<String>,
    pub version_constraint: Option<String>,
}

/// A key of a DID document.
#[derive(Debug)]
pub struct VerificationMethod {
    pub id: String,
    pub method_type: String,
    pub controller: String,
    pub crypto_suite: Option<CryptoSuite>,
    pub public_key_format: Option<String>,
    pub public_key_multibase: Option<String>,
}

/// An example of a resource's use.
#[derive(Debug)]
pub enum ExampleValue {
    /// A text.
    Text(String),
    /// An object or an array, as JSON text.
    Structured(String),
    /// A number, a truth value or null, as JSON text: no text is drawn from it.
    Scalar(String),
}

/// The description of a resource.
#[derive(Debug)]
pub struct ResourceDescription {
    pub name: Option<String>,
    pub description: Option<String>,
    pub capability_description: Option<String>,
    pub capability_tags: Vec<String>,
    pub use_case_examples: Vec<String>,
    pub examples: Vec<ExampleValue>,
    pub version: Option<String>,
}

/// The description of an agent.
#[derive(Debug)]
pub struct AgentDescription {
    pub capability_description: String,
    pub capability_tags: Vec<String>,
    pub use_case_examples: Vec<String>,
}

/// What a DID document says of its resource.
#[derive(Debug)]
pub struct OanMetadata {
    pub subject_type: ResourceType,
    pub resource_type: ResourceType,
    pub publisher_did: Option<String>,
    pub resource_description: Option<ResourceDescription>,
    pub agent_description: Option<AgentDescription>,
    pub capability_tags: Vec<String>,
    pub authorized_domains: Vec<String>,
    pub protocol_bindings: Vec<ProtocolBinding>,
    pub implementation_links: Vec<ImplementationLink>,
    pub network_scope: Option<String>,
    pub lifecycle_state: Option<String>,
}

/// A DID document.
#[derive(Debug)]
pub struct DidDocument {
    pub context: Vec<String>,
    pub id: String,
    pub verification_method: Vec<VerificationMethod>,
    pub authentication: Vec<String>,
    pub assertion_method: Vec<String>,
    pub service: Vec<ServiceEndpoint>,
    pub oan_metadata: Option<OanMetadata>,
}

/// The metadata of a package.
#[derive(Debug)]
pub struct ResourceMetadata {
    pub resource_did: String,
    pub resource_type: ResourceType,
    pub subject_type: ResourceType,
    pub publisher_did: Option<String>,
    pub subject_did: Option<String>,
    pub name: String,
    pub description: String,
    pub capability_tags: Vec<String>,
    pub authorized_domains: Vec<String>,
    pub protocol_bindings: Vec<JsonValue>,
    pub services: Vec<ServiceEndpoint>,
    pub lifecycle_state: String,
    pub package_version: String,
    pub package_hash: String,
    pub metadata_hash: String,
    pub hash_algorithm: String,
    pub updated_at: Timestamp,
}

/// The claims of a package that the root signs.
#[derive(Debug)]
pub struct ResourcePackageClaims {
    pub resource_did: String,
    pub resource_type: ResourceType,
    pub version: String,
    pub did_document_hash: String,
    pub metadata_hash: String,
    pub package_hash: String,
    pub hash_algorithm: String,
    pub lifecycle_state: String,
    pub authorized_domains: Vec<String>,
    pub bulletin_ref: Option<String>,
}

/// The root's proof of a package.
#[derive(Debug)]
pub struct RootProof {
    pub root_did: String,
    pub package_claims: Option<ResourcePackageClaims>,
    pub crypto_suite: Option<CryptoSuite>,
    pub hash_algorithm: Option<String>,
}

/// A resource package.
#[derive(Debug)]
pub struct ResourcePackage {
    pub package_version: String,
    pub resource_did: String,
    pub resource_type: ResourceType,
    pub did_document: DidDocument,
    pub did_document_hash: String,
    pub metadata_hash: String,
    pub package_hash: String,
    pub hash_algorithm: String,
    pub metadata: ResourceMetadata,
    pub root_proof: RootProof,
    pub created_at: Timestamp,
}

/// A query for resources.
#[derive(Debug)]
pub struct ResourceDiscoveryQuery {
    pub query: Option<String>,
    pub resource_type: Option<ResourceType>,
    pub capability_tags: Vec<String>,
    pub protocol: Option<String>,
    pub version: Option<String>,
    pub version_mode: String,
    pub limit: u32,
}

/// A resource that answers a query.
#[derive(Debug)]
pub struct ResourceDiscoveryCandidate {
    pub resource_did: String,
    pub resource_type: ResourceType,
    pub version: Option<String>,
    pub lifecycle_state: Option<String>,
    pub capability_tags: Vec<String>,
    pub authorized_domains: Vec<String>,
    pub services: Vec<ServiceEndpoint>,
    pub protocol_bindings: Vec<JsonValue>,
}

/// The candidate that a package makes.
pub fn discovery_candidate_from_package(package: ResourcePackage) -> (candidate:
    ResourceDiscoveryCandidate)
    ensures
        candidate.resource_did@ == package.resource_did@,
        candidate.resource_type == package.resource_type,
        candidate.version == Some(package.package_version),
        candidate.lifecycle_state == Some(package.metadata.lifecycle_state),
        candidate.capability_tags == package.metadata.capability_tags,
        candidate.authorized_domains == package.metadata.authorized_domains,
        candidate.services == package.metadata.services,
        candidate.protocol_bindings == package.metadata.protocol_bindings,
{
    ResourceDiscoveryCandidate {
        resource_did: package.resource_did,
        resource_type: package.resource_type,
        version: Some(package.package_version),
        lifecycle_state: Some(package.metadata.lifecycle_state),
        capability_tags: package.metadata.capability_tags,
        authorized_domains: package.metadata.authorized_domains,
        services: package.metadata.services,
        protocol_bindings: package.metadata.protocol_bindings,
    }
}

/// Whether users can consume resources of that type.
pub open spec fn user_consumable(resource_type: ResourceType) -> bool {
    resource_type is AgentService || resource_type is Skill || resource_type is McpServer
        || resource_type is ToolApi
}

/// Whether users can consume resources of that type.
pub fn is_user_consumable_resource_type(resource_type: &ResourceType) -> (consumable: bool)
    ensures
        consumable == user_consumable(*resource_type),
{
    matches!(
        resource_type,
        ResourceType::AgentService | ResourceType::Skill | ResourceType::McpServer
            | ResourceType::ToolApi
    )
}

/// Whether a query searches a package of that type: it names a type itself, or
/// users can consume the package's.
pub open spec fn searches_type(query: ResourceDiscoveryQuery, resource_type: ResourceType) -> bool {
    query.resource_type is Some || user_consumable(resource_type)
}

/// Whether a query searches a package of that type.
pub fn should_search_resource_type(
    package: &ResourcePackage,
    query: &ResourceDiscoveryQuery,
) -> (searched: bool)
    ensures
        searched == searches_type(*query, package.resource_type),
{
    query.resource_type.is_some() || is_user_consumable_resource_type(&package.resource_type)
}

/// The types that a query without a type searches.
pub fn default_discoverable_resource_type_names() -> (names: Vec<String>)
    ensures
        texts(names@) == seq!["agent_service"@, "skill"@, "mcp_server"@, "tool_api"@],
{
    let mut names: Vec<String> = Vec::new();
    names.push("agent_service".to_owned());
    names.push("skill".to_owned());
    names.push("mcp_server".to_owned());
    names.push("tool_api".to_owned());
    assert(texts(names@) =~= seq!["agent_service"@, "skill"@, "mcp_server"@, "tool_api"@]);
    names
}

/// The types that a query without a type searches are those that users can
/// consume.
pub proof fn law_default_types_are_consumable(resource_type: ResourceType)
    ensures
        user_consumable(resource_type) <==> seq![
            "agent_service"@,
            "skill"@,
            "mcp_server"@,
            "tool_api"@,
        ].contains(resource_type_name(resource_type)),
{
    let names = seq!["agent_service"@, "skill"@, "mcp_server"@, "tool_api"@];
    reveal_strlit("agent_service");
    reveal_strlit("skill");
    reveal_strlit("mcp_server");
    reveal_strlit("tool_api");
    reveal_strlit("infrastructure_node");
    reveal_strlit("organization");
    reveal_strlit("developer");
    assert(names[0] == "agent_service"@);
    assert(names[1] == "skill"@);
    assert(names[2] == "mcp_server"@);
    assert(names[3] == "tool_api"@);
    assert("organization"@[0] == 'o');
    assert("developer"@[0] == 'd');
    assert("infrastructure_node"@[0] == 'i');
}

/// Whether the service at `i` speaks the protocol, whatever the case of ASCII letters.
pub open spec fn service_speaks(services: Seq<ServiceEndpoint>, i: int, protocol: Seq<char>) -> bool {
    services[i].protocol matches Some(candidate) && ascii_lower(candidate@) == ascii_lower(protocol)
}

/// Whether a service of the package speaks the protocol.
pub open spec fn some_service_speaks(package: ResourcePackage, protocol: Seq<char>) -> bool {
    exists|i: int|
        0 <= i < package.metadata.services@.len() && #[trigger] service_speaks(
            package.metadata.services@,
            i,
            protocol,
        )
}

/// Whether the binding at `i` is to the protocol, whatever the case of ASCII letters.
pub open spec fn binding_speaks(bindings: Seq<JsonValue>, i: int, protocol: Seq<char>) -> bool {
    text_member(bindings[i], "protocol"@) matches Some(candidate) && ascii_lower(candidate)
        == ascii_lower(protocol)
}

/// Whether a binding of the package is to the protocol.
pub open spec fn some_binding_speaks(package: ResourcePackage, protocol: Seq<char>) -> bool {
    exists|i: int|
        0 <= i < package.metadata.protocol_bindings@.len() && #[trigger] binding_speaks(
            package.metadata.protocol_bindings@,
            i,
            protocol,
        )
}

/// Whether a service of the package speaks the protocol.
pub fn package_service_speaks(package: &ResourcePackage, protocol: &str) -> (speaks: bool)
    ensures
        speaks == some_service_speaks(*package, protocol@),
{
    let services = &package.metadata.services;
    let mut i: usize = 0;
    while i < services.len()
        invariant
            i <= services@.len(),
            services@ == package.metadata.services@,
            forall|j: int| 0 <= j < i ==> !#[trigger] service_speaks(services@, j, protocol@),
        decreases services@.len() - i,
    {
        if let Some(candidate) = &services[i].protocol {
            if same_text_ignoring_ascii_case(candidate, protocol) {
                assert(service_speaks(services@, i as int, protocol@));
                return true;
            }
        }
        i = i + 1;
    }
    false
}

/// Whether a binding of the package is to the protocol.
pub fn package_binding_speaks(package: &ResourcePackage, protocol: &str) -> (speaks: bool)
    ensures
        speaks == some_binding_speaks(*package, protocol@),
{
    let bindings = &package.metadata.protocol_bindings;
    let mut i: usize = 0;
    while i < bindings.len()
        invariant
            i <= bindings@.len(),
            bindings@ == package.metadata.protocol_bindings@,
            forall|j: int| 0 <= j < i ==> !#[trigger] binding_speaks(bindings@, j, protocol@),
        decreases bindings@.len() - i,
    {
        if let Some(candidate) = bindings[i].get_text("protocol") {
            if same_text_ignoring_ascii_case(candidate, protocol) {
                assert(binding_speaks(bindings@, i as int, protocol@));
                return true;
            }
        }
        i = i + 1;
    }
    false
}

/// Whether the package has every one of `wanted` among its capability tags.
pub open spec fn has_all_tags(package: ResourcePackage, wanted: Seq<Seq<char>>) -> bool {
    forall|i: int|
        0 <= i < wanted.len() ==> texts(package.metadata.capability_tags@).contains(
            #[trigger] wanted[i],
        )
}

/// Whether the package has every one of `wanted` among its capability tags.
pub fn package_has_all_tags(package: &ResourcePackage, wanted: &Vec<String>) -> (has: bool)
    ensures
        has == has_all_tags(*package, texts(wanted@)),
{
    let mut i: usize = 0;
    while i < wanted.len()
        invariant
            i <= wanted@.len(),
            forall|j: int|
                0 <= j < i ==> texts(package.metadata.capability_tags@).contains(
                    #[trigger] texts(wanted@)[j],
                ),
        decreases wanted@.len() - i,
    {
        assert(texts(wanted@)[i as int] == wanted@[i as int]@);
        if !contains_text(&package.metadata.capability_tags, &wanted[i]) {
            return false;
        }
        i = i + 1;
    }
    true
}

/// Whether a package meets what a query asks for besides its text: the type,
/// the version, every tag, and the protocol.
pub open spec fn meets_constraints(
    package: ResourcePackage,
    query: ResourceDiscoveryQuery,
) -> bool {
    &&& query.resource_type matches Some(wanted) ==> wanted == package.resource_type
    &&& query.version matches Some(wanted) ==> wanted@ == package.package_version@
    &&& has_all_tags(package, texts(query.capability_tags@))
    &&& query.protocol matches Some(wanted) ==> some_binding_speaks(package, wanted@)
        || some_service_speaks(package, wanted@)
}

/// Whether a package meets what a query asks for besides its text.
pub fn resource_matches_explicit_constraints(
    package: &ResourcePackage,
    query: &ResourceDiscoveryQuery,
) -> (matched: bool)
    ensures
        matched == meets_constraints(*package, *query),
{
    if let Some(wanted) = &query.resource_type {
        if *wanted != package.resource_type {
            return false;
        }
    }
    if let Some(wanted) = &query.version {
        if *wanted != package.package_version {
            return false;
        }
    }
    if !package_has_all_tags(package, &query.capability_tags) {
        return false;
    }
    if let Some(wanted) = &query.protocol {
        if !package_binding_speaks(package, wanted) && !package_service_speaks(package, wanted) {
            return false;
        }
    }
    true
}

/// Whether a package meets what a query for one resource asks for besides its
/// text: the text is the resource's DID, and plays no part.
pub fn resource_matches_exact_did_query(
    package: &ResourcePackage,
    query: &ResourceDiscoveryQuery,
) -> (matched: bool)
    ensures
        matched == meets_constraints(*package, *query),
{
    resource_matches_explicit_constraints(package, query)
}

/// What a query asks for besides its text does not depend on its text.
pub proof fn law_constraints_ignore_the_text(
    package: ResourcePackage,
    query: ResourceDiscoveryQuery,
    text: Option<String>,
)
    ensures
        meets_constraints(package, query) == meets_constraints(
            package,
            (ResourceDiscoveryQuery { query: text, ..query }),
        ),
{
}

/// Two resource types of the same name are the same type.
pub proof fn law_type_names_are_different(first: ResourceType, second: ResourceType)
    ensures
        resource_type_name(first) == resource_type_name(second) <==> first == second,
{
    reveal_strlit("agent_service");
    reveal_strlit("skill");
    reveal_strlit("mcp_server");
    reveal_strlit("tool_api");
    reveal_strlit("infrastructure_node");
    reveal_strlit("organization");
    reveal_strlit("developer");
    assert("agent_service"@[0] == 'a');
    assert("skill"@[0] == 's');
    assert("mcp_server"@[0] == 'm');
    assert("tool_api"@[0] == 't');
    assert("infrastructure_node"@[0] == 'i');
    assert("organization"@[0] == 'o');
    assert("developer"@[0] == 'd');
}

/// A query that names a type searches whatever it names; one that names none
/// searches agents, skills, servers and tools, and nothing else.
pub proof fn law_unnamed_types_are_consumable(
    query: ResourceDiscoveryQuery,
    resource_type: ResourceType,
)
    ensures
        query.resource_type is Some ==> searches_type(query, resource_type),
        query.resource_type is None ==> (searches_type(query, resource_type) <==> (resource_type
            == ResourceType::AgentService || resource_type == ResourceType::Skill || resource_type
            == ResourceType::McpServer || resource_type == ResourceType::ToolApi)),
{
}

/// The earlier of two times has fewer seconds, or as many and fewer
/// nanoseconds; of two different times one is earlier, and never both.
pub proof fn law_times_are_ordered(first: Timestamp, second: Timestamp)
    ensures
        earlier(first, second) <==> first.seconds * 1_000_000_000_000 + first.nanos
            < second.seconds * 1_000_000_000_000 + second.nanos,
        first != second ==> (earlier(first, second) <==> !earlier(second, first)),
        !earlier(first, first),
{
}

/// A package that meets the constraints of a query is of the type and the
/// version that it names, has every tag that it names, and speaks its protocol
/// by one of its services or bindings, whatever the case of ASCII letters.
pub proof fn law_meeting_packages_have_what_is_asked(
    package: ResourcePackage,
    query: ResourceDiscoveryQuery,
)
    requires
        meets_constraints(package, query),
    ensures
        query.resource_type matches Some(wanted) ==> package.resource_type == wanted,
        query.version matches Some(wanted) ==> package.package_version@ == wanted@,
        forall|i: int|
            0 <= i < query.capability_tags@.len() ==> texts(
                package.metadata.capability_tags@,
            ).contains((#[trigger] query.capability_tags@[i])@),
        query.protocol matches Some(wanted) ==> (exists|k: int|
            0 <= k < package.metadata.services@.len()
                && ((#[trigger] package.metadata.services@[k]).protocol matches Some(spoken)
                && ascii_lower(spoken@) == ascii_lower(wanted@))) || (exists|k: int|
            0 <= k < package.metadata.protocol_bindings@.len() && (text_member(
                #[trigger] package.metadata.protocol_bindings@[k],
                "protocol"@,
            ) matches Some(bound) && ascii_lower(bound) == ascii_lower(wanted@))),
{
    assert forall|i: int| 0 <= i < query.capability_tags@.len() implies texts(
        package.metadata.capability_tags@,
    ).contains((#[trigger] query.capability_tags@[i])@) by {
        assert(texts(query.capability_tags@)[i] == query.capability_tags@[i]@);
    }
    if let Some(wanted) = query.protocol {
        if some_binding_speaks(package, wanted@) {
            let k = choose|k: int|
                0 <= k < package.metadata.protocol_bindings@.len() && #[trigger] binding_speaks(
                    package.metadata.protocol_bindings@,
                    k,
                    wanted@,
                );
            let binding = package.metadata.protocol_bindings@[k];
            assert(text_member(binding, "protocol"@) is Some);
        } else {
            let k = choose|k: int|
                0 <= k < package.metadata.services@.len() && #[trigger] service_speaks(
                    package.metadata.services@,
                    k,
                    wanted@,
                );
            let service = package.metadata.services@[k];
            assert(service.protocol is Some);
        }
    }
}

/// A package of another type or version, one that lacks a tag, and one none of
/// whose services and bindings speaks the protocol, do not meet a query.
pub proof fn law_lacking_packages_do_not_meet(
    package: ResourcePackage,
    query: ResourceDiscoveryQuery,
    tag: int,
)
    requires
        ({
            ||| query.resource_type matches Some(wanted) && package.resource_type != wanted
            ||| query.version matches Some(wanted) && package.package_version@ != wanted@
            ||| 0 <= tag < query.capability_tags@.len() && !texts(
                package.metadata.capability_tags@,
            ).contains(query.capability_tags@[tag]@)
            ||| query.protocol is Some && package.metadata.services@.len() == 0
                && package.metadata.protocol_bindings@.len() == 0
        }),
    ensures
        !meets_constraints(package, query),
{
    if meets_constraints(package, query) {
        law_meeting_packages_have_what_is_asked(package, query);
    }
}

/// A package that has what a query names meets it: the type, the version, every
/// tag, and a service that speaks the protocol.
pub proof fn law_packages_with_all_that_is_asked_meet(
    package: ResourcePackage,
    query: ResourceDiscoveryQuery,
    places: Seq<int>,
    spoken: int,
)
    requires
        query.resource_type matches Some(wanted) ==> package.resource_type == wanted,
        query.version matches Some(wanted) ==> package.package_version@ == wanted@,
        places.len() == query.capability_tags@.len(),
        forall|i: int|
            0 <= i < places.len() ==> 0 <= #[trigger] places[i]
                < package.metadata.capability_tags@.len()
                && package.metadata.capability_tags@[places[i]]@ == query.capability_tags@[i]@,
        query.protocol matches Some(wanted) ==> {
            ||| 0 <= spoken < package.metadata.services@.len()
                && package.metadata.services@[spoken].protocol == Some(wanted)
            ||| 0 <= spoken < package.metadata.protocol_bindings@.len() && text_member(
                package.metadata.protocol_bindings@[spoken],
                "protocol"@,
            ) == Some(wanted@)
        },
    ensures
        meets_constraints(package, query),
{
    let tags = texts(package.metadata.capability_tags@);
    assert forall|i: int| 0 <= i < texts(query.capability_tags@).len() implies tags.contains(
        #[trigger] texts(query.capability_tags@)[i],
    ) by {
        assert(tags[places[i]] == texts(query.capability_tags@)[i]);
    }
    if let Some(wanted) = query.protocol {
        if 0 <= spoken < package.metadata.services@.len()
            && package.metadata.services@[spoken].protocol == Some(wanted) {
            assert(service_speaks(package.metadata.services@, spoken, wanted@));
        } else {
            assert(binding_speaks(package.metadata.protocol_bindings@, spoken, wanted@));
        }
    }
}

/// A package speaks the protocols that its services name and is bound to those
/// that its bindings name, whatever the case of ASCII letters, and no others.
pub proof fn law_packages_speak_what_they_name(package: ResourcePackage, protocol: Seq<char>)
    ensures
        some_service_speaks(package, protocol) <==> exists|k: int|
            0 <= k < package.metadata.services@.len()
                && ((#[trigger] package.metadata.services@[k]).protocol matches Some(spoken)
                && ascii_lower(spoken@) == ascii_lower(protocol)),
        some_binding_speaks(package, protocol) <==> exists|k: int|
            0 <= k < package.metadata.protocol_bindings@.len() && (text_member(
                #[trigger] package.metadata.protocol_bindings@[k],
                "protocol"@,
            ) matches Some(bound) && ascii_lower(bound) == ascii_lower(protocol)),
{
    let services = package.metadata.services@;
    let bindings = package.metadata.protocol_bindings@;
    if some_service_speaks(package, protocol) {
        let k = choose|k: int|
            0 <= k < services.len() && #[trigger] service_speaks(services, k, protocol);
        assert(services[k].protocol is Some);
    }
    if exists|k: int|
        0 <= k < services.len() && ((#[trigger] services[k]).protocol matches Some(spoken)
            && ascii_lower(spoken@) == ascii_lower(protocol)) {
        let k = choose|k: int|
            0 <= k < services.len() && ((#[trigger] services[k]).protocol matches Some(spoken)
                && ascii_lower(spoken@) == ascii_lower(protocol));
        assert(service_speaks(services, k, protocol));
    }
    if some_binding_speaks(package, protocol) {
        let k = choose|k: int|
            0 <= k < bindings.len() && #[trigger] binding_speaks(bindings, k, protocol);
        assert(text_member(bindings[k], "protocol"@) is Some);
    }
    if exists|k: int|
        0 <= k < bindings.len() && (text_member(#[trigger] bindings[k], "protocol"@) matches Some(
            bound,
        ) && ascii_lower(bound) == ascii_lower(protocol)) {
        let k = choose|k: int|
            0 <= k < bindings.len() && (text_member(#[trigger] bindings[k], "protocol"@)
                matches Some(bound) && ascii_lower(bound) == ascii_lower(protocol));
        assert(binding_speaks(bindings, k, protocol));
    }
}

} // verus!
