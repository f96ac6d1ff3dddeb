//! Packages from their publication to the results of a query.

use discovery_node::answers::{
    hybrid_semantic_hits, keyword_discovery_candidates, semantic_discovery_candidates,
};
use discovery_node::config::{SemanticRebuildStage, SemanticSearchConfig};
use discovery_node::document::{
    discovery_package_projection, search_document_from_package, semantic_context_text,
    semantic_document_text, semantic_intent_documents, semantic_intent_texts,
    semantic_lexical_text, SearchDocument,
};
use discovery_node::encoding::{write_document, write_metadata, write_timed_metadata};
use discovery_node::index::{
    find_package, index_counts, index_counts_are_fresh, indexed_resource_visibility,
    latest_resource_packages_by_did, untouched_by_update,
};
use discovery_node::json::JsonValue;
use discovery_node::package::{
    discovery_candidate_from_package, resource_matches_exact_did_query,
    AgentDescription, CryptoSuite, DidDocument,
    ExampleValue, ImplementationLink, OanMetadata, ProtocolBinding, ResourceDescription,
    ResourceDiscoveryQuery, ResourceMetadata, ResourcePackage, ResourcePackageClaims,
    ResourceType, RootProof, ServiceEndpoint, Timestamp, VerificationMethod,
};
use discovery_node::query::semantic_query_projection;
use discovery_node::ranking::{
    bm25_statistics, rank_resource_packages_semantically, ranking_document,
    semantic_resource_score_parts, HitScore, TokenOverlap,
};
use discovery_node::rebuild::{
    after_batch, contexts_to_write, next_batch, packages_to_embed, plan_skip_backfill,
    progress_record, rebuild_report, resolved_by_batch, skip_backfill_report, start_rebuild,
    starts_afresh, unavailable_report, BatchOutcome, IndexedRows, RebuildAction, SemanticRebuildSkipRecord, StoredHash,
};
use discovery_node::rejected::{
    audit_resolved_rejected_packages, judge_retry, plan_rejected_backfill, records_without_dids,
    records_without_keys, rejected_after_retry, rejected_after_sync, rejected_package_key,
    settle_rejected_backfill, visible_package_dids, RetryFetch, RetryVerdict,
};
use discovery_node::results::{
    exact_did_result, explain_keyword_hit, explain_semantic_hit,
    filter_packages_for_local_discovery, keyword_hit_is_shown, merge_semantic_candidates,
    searched_packages,
};
use discovery_node::seed::{
    refresh_resource_package_hashes, seed_package_with_hashes, seed_resource_package,
    set_package_hashes, unhashed_seed_package, SemanticEvaluationSeedResource,
};
use discovery_node::sync::{
    judge_notice, plan_sync, settle_sync, sync_resources_from_cdn_items, DiscoverySyncRequest,
    Rejection,
};
use discovery_node::tokens::{semantic_tokens, Lexicon, SemanticAliasGroup};
use discovery_node::validation::{
    check_document, validate_checked_package, validate_notified_resource_package,
    validate_resource_package_for_index, DiscoveryNotificationItem, DocumentFaults,
    PublishedPackage,
};
use serde_json::Value;

fn resource_did() -> String {
    "did:oan:SKLG:5HkPq7Vm3RdT9Ya2WcX8Ns4Bf6GjLeZu".to_owned()
}

fn strings(values: &[&str]) -> Vec<String> {
    values.iter().map(|value| (*value).to_owned()).collect()
}

fn object(members: &[(&str, Value)]) -> Value {
    Value::Object(
        members
            .iter()
            .map(|(name, value)| ((*name).to_owned(), value.clone()))
            .collect(),
    )
}

fn alias_group(canonical: &str, terms: &[&str]) -> SemanticAliasGroup {
    SemanticAliasGroup { canonical: canonical.to_owned(), terms: strings(terms) }
}

fn lexicon() -> Lexicon {
    Lexicon::new(&vec![
        alias_group(
            "document.analysis",
            &["合同", "合约", "审查", "文档分析", "contract", "contract review", "document analysis"],
        ),
        alias_group("security.risk", &["风险", "risk", "risk checklist"]),
        alias_group("mcp.protocol", &["mcp", "model context protocol", "模型上下文协议"]),
        alias_group("code.repository", &["github", "repository", "pull request", "代码仓库"]),
        alias_group("weather.forecast", &["weather", "forecast", "天气"]),
    ])
}

fn oan_type(resource_type: ResourceType) -> oan_core::ResourceType {
    match resource_type {
        ResourceType::AgentService => oan_core::ResourceType::AgentService,
        ResourceType::Skill => oan_core::ResourceType::Skill,
        ResourceType::McpServer => oan_core::ResourceType::McpServer,
        ResourceType::ToolApi => oan_core::ResourceType::ToolApi,
        ResourceType::InfrastructureNode => oan_core::ResourceType::InfrastructureNode,
        ResourceType::Organization => oan_core::ResourceType::Organization,
        ResourceType::Developer => oan_core::ResourceType::Developer,
    }
}

fn model_type(resource_type: &oan_core::ResourceType) -> ResourceType {
    match resource_type {
        oan_core::ResourceType::AgentService => ResourceType::AgentService,
        oan_core::ResourceType::Skill => ResourceType::Skill,
        oan_core::ResourceType::McpServer => ResourceType::McpServer,
        oan_core::ResourceType::ToolApi => ResourceType::ToolApi,
        oan_core::ResourceType::InfrastructureNode => ResourceType::InfrastructureNode,
        oan_core::ResourceType::Organization => ResourceType::Organization,
        oan_core::ResourceType::Developer => ResourceType::Developer,
    }
}

fn model_suite(suite: &oan_core::CryptoSuite) -> CryptoSuite {
    match suite {
        oan_core::CryptoSuite::Ed25519Sha256Legacy => CryptoSuite::Ed25519Sha256Legacy,
        oan_core::CryptoSuite::Ed25519Sha256 => CryptoSuite::Ed25519Sha256,
        oan_core::CryptoSuite::Sm2Sm3 => CryptoSuite::Sm2Sm3,
    }
}

fn oan_suite(suite: CryptoSuite) -> oan_core::CryptoSuite {
    match suite {
        CryptoSuite::Ed25519Sha256Legacy => oan_core::CryptoSuite::Ed25519Sha256Legacy,
        CryptoSuite::Ed25519Sha256 => oan_core::CryptoSuite::Ed25519Sha256,
        CryptoSuite::Sm2Sm3 => oan_core::CryptoSuite::Sm2Sm3,
    }
}

fn model_time(time: &chrono::DateTime<chrono::Utc>) -> Timestamp {
    Timestamp { seconds: time.timestamp(), nanos: time.timestamp_subsec_nanos() }
}

fn oan_time(time: Timestamp) -> chrono::DateTime<chrono::Utc> {
    chrono::DateTime::from_timestamp(time.seconds, time.nanos).unwrap()
}

fn model_json(value: &Value) -> JsonValue {
    match value {
        Value::Null => JsonValue::Null,
        Value::Bool(value) => JsonValue::Bool(*value),
        Value::Number(number) => match number.as_i64() {
            Some(integer) => JsonValue::Integer(integer),
            None => JsonValue::Number(number.to_string()),
        },
        Value::String(text) => JsonValue::Text(text.clone()),
        Value::Array(items) => JsonValue::Array(items.iter().map(model_json).collect()),
        Value::Object(members) => JsonValue::Object(
            members.iter().map(|(name, value)| (name.clone(), model_json(value))).collect(),
        ),
    }
}

fn oan_json(value: &JsonValue) -> Value {
    match value {
        JsonValue::Null => Value::Null,
        JsonValue::Bool(value) => Value::Bool(*value),
        JsonValue::Integer(integer) => Value::from(*integer),
        JsonValue::Number(number) => serde_json::from_str(number).unwrap(),
        JsonValue::Text(text) => Value::String(text.clone()),
        JsonValue::Array(items) => Value::Array(items.iter().map(oan_json).collect()),
        JsonValue::Object(members) => Value::Object(
            members.iter().map(|(name, value)| (name.clone(), oan_json(value))).collect(),
        ),
    }
}

fn model_example(value: &Value) -> ExampleValue {
    match value {
        Value::String(text) => ExampleValue::Text(text.clone()),
        Value::Array(_) | Value::Object(_) => ExampleValue::Structured(value.to_string()),
        _ => ExampleValue::Scalar(value.to_string()),
    }
}

fn oan_example(value: &ExampleValue) -> Value {
    match value {
        ExampleValue::Text(text) => Value::String(text.clone()),
        ExampleValue::Structured(text) | ExampleValue::Scalar(text) => {
            serde_json::from_str(text).unwrap()
        }
    }
}

fn model_service(service: &oan_core::ServiceEndpoint) -> ServiceEndpoint {
    ServiceEndpoint {
        id: service.id.clone(),
        service_type: service.service_type.clone(),
        service_endpoint: service.service_endpoint.clone(),
        version: service.version.clone(),
        protocol: service.protocol.clone(),
        server_type: service.server_type.clone(),
        port: service.port,
    }
}

fn oan_service(service: &ServiceEndpoint) -> oan_core::ServiceEndpoint {
    oan_core::ServiceEndpoint {
        id: service.id.clone(),
        service_type: service.service_type.clone(),
        service_endpoint: service.service_endpoint.clone(),
        version: service.version.clone(),
        protocol: service.protocol.clone(),
        server_type: service.server_type.clone(),
        port: service.port,
    }
}

fn model_description(description: &oan_core::ResourceDescription) -> ResourceDescription {
    ResourceDescription {
        name: description.name.clone(),
        description: description.description.clone(),
        capability_description: description.capability_description.clone(),
        capability_tags: description.capability_tags.clone(),
        use_case_examples: description.use_case_examples.clone(),
        examples: description.examples.iter().map(model_example).collect(),
        version: description.version.clone(),
    }
}

fn model_metadata(metadata: &oan_core::OanMetadata) -> OanMetadata {
    OanMetadata {
        subject_type: model_type(&metadata.subject_type),
        resource_type: model_type(&metadata.resource_type),
        publisher_did: metadata.publisher_did.clone(),
        resource_description: metadata.resource_description.as_ref().map(model_description),
        agent_description: metadata.agent_description.as_ref().map(|agent| AgentDescription {
            capability_description: agent.capability_description.clone(),
            capability_tags: agent.capability_tags.clone(),
            use_case_examples: agent.use_case_examples.clone(),
        }),
        capability_tags: metadata.capability_tags.clone(),
        authorized_domains: metadata.authorized_domains.clone(),
        protocol_bindings: metadata
            .protocol_bindings
            .iter()
            .map(|binding| ProtocolBinding {
                id: binding.id.clone(),
                protocol: binding.protocol.clone(),
                version: binding.version.clone(),
                transport: binding.transport.clone(),
                service_ref: binding.service_ref.clone(),
                schema_ref: binding.schema_ref.clone(),
            })
            .collect(),
        implementation_links: metadata
            .implementation_links
            .iter()
            .map(|link| ImplementationLink {
                relation: link.relation.clone(),
                target_did: link.target_did.clone(),
                target_type: link.target_type.as_ref().map(model_type),
                target_service: link.target_service.clone(),
                version_constraint: link.version_constraint.clone(),
            })
            .collect(),
        network_scope: metadata.network_scope.clone(),
        lifecycle_state: metadata.lifecycle_state.clone(),
    }
}

fn model_document(document: &oan_core::DidDocument) -> DidDocument {
    DidDocument {
        context: document.context.clone(),
        id: document.id.clone(),
        verification_method: document
            .verification_method
            .iter()
            .map(|method| VerificationMethod {
                id: method.id.clone(),
                method_type: method.method_type.clone(),
                controller: method.controller.clone(),
                crypto_suite: method.crypto_suite.as_ref().map(model_suite),
                public_key_format: method.public_key_format.clone(),
                public_key_multibase: method.public_key_multibase.clone(),
            })
            .collect(),
        authentication: document.authentication.clone(),
        assertion_method: document.assertion_method.clone(),
        service: document.service.iter().map(model_service).collect(),
        oan_metadata: document.oan_metadata.as_ref().map(model_metadata),
    }
}

fn model(package: &oan_package::ResourcePackage) -> ResourcePackage {
    let claims = package.root_proof.package_claims.as_ref().map(|claims| {
        serde_json::from_value::<oan_package::ResourcePackageClaims>(claims.clone()).unwrap()
    });
    ResourcePackage {
        package_version: package.package_version.clone(),
        resource_did: package.resource_did.clone(),
        resource_type: model_type(&package.resource_type),
        did_document: model_document(&package.did_document),
        did_document_hash: package.did_document_hash.clone(),
        metadata_hash: package.metadata_hash.clone(),
        package_hash: package.package_hash.clone(),
        hash_algorithm: package.hash_algorithm.clone(),
        metadata: ResourceMetadata {
            resource_did: package.metadata.resource_did.clone(),
            resource_type: model_type(&package.metadata.resource_type),
            subject_type: model_type(&package.metadata.subject_type),
            publisher_did: package.metadata.publisher_did.clone(),
            subject_did: package.metadata.subject_did.clone(),
            name: package.metadata.name.clone(),
            description: package.metadata.description.clone(),
            capability_tags: package.metadata.capability_tags.clone(),
            authorized_domains: package.metadata.authorized_domains.clone(),
            protocol_bindings: package
                .metadata
                .protocol_bindings
                .iter()
                .map(model_json)
                .collect(),
            services: package.metadata.services.iter().map(model_service).collect(),
            lifecycle_state: package.metadata.lifecycle_state.clone(),
            package_version: package.metadata.package_version.clone(),
            package_hash: package.metadata.package_hash.clone(),
            metadata_hash: package.metadata.metadata_hash.clone(),
            hash_algorithm: package.metadata.hash_algorithm.clone(),
            updated_at: model_time(&package.metadata.updated_at),
        },
        root_proof: RootProof {
            root_did: package.root_proof.root_did.clone(),
            package_claims: claims.map(|claims| ResourcePackageClaims {
                resource_did: claims.resource_did,
                resource_type: model_type(&claims.resource_type),
                version: claims.version,
                did_document_hash: claims.did_document_hash,
                metadata_hash: claims.metadata_hash,
                package_hash: claims.package_hash,
                hash_algorithm: claims.hash_algorithm,
                lifecycle_state: claims.lifecycle_state,
                authorized_domains: claims.authorized_domains,
                bulletin_ref: claims.bulletin_ref,
            }),
            crypto_suite: package.root_proof.crypto_suite.as_ref().map(model_suite),
            hash_algorithm: package.root_proof.hash_algorithm.clone(),
        },
        created_at: model_time(&package.created_at),
    }
}

fn models(packages: &[&oan_package::ResourcePackage]) -> Vec<ResourcePackage> {
    packages.iter().map(|package| model(package)).collect()
}

fn oan_claims(claims: &ResourcePackageClaims) -> Value {
    serde_json::to_value(oan_package::ResourcePackageClaims {
        resource_did: claims.resource_did.clone(),
        resource_type: oan_type(claims.resource_type),
        version: claims.version.clone(),
        did_document_hash: claims.did_document_hash.clone(),
        metadata_hash: claims.metadata_hash.clone(),
        package_hash: claims.package_hash.clone(),
        hash_algorithm: claims.hash_algorithm.clone(),
        lifecycle_state: claims.lifecycle_state.clone(),
        authorized_domains: claims.authorized_domains.clone(),
        bulletin_ref: claims.bulletin_ref.clone(),
    })
    .unwrap()
}

fn refresh_hashes(package: &mut oan_package::ResourcePackage) {
    let mut hashed = model(package);
    refresh_resource_package_hashes(&mut hashed).unwrap();
    package.did_document_hash = hashed.did_document_hash.clone();
    package.metadata_hash = hashed.metadata_hash.clone();
    package.package_hash = hashed.package_hash.clone();
    package.metadata.metadata_hash = hashed.metadata.metadata_hash.clone();
    package.metadata.package_hash = hashed.metadata.package_hash.clone();
    package.root_proof.package_claims =
        hashed.root_proof.package_claims.as_ref().map(oan_claims);
}

fn published(package: &oan_package::ResourcePackage) -> PublishedPackage {
    PublishedPackage {
        package: model(package),
        document: serde_json::to_string(package).unwrap(),
    }
}

fn sample_resource_package() -> oan_package::ResourcePackage {
    let did = resource_did();
    let time = chrono::DateTime::from_timestamp(1_760_000_000, 0).unwrap();
    let service = oan_core::ServiceEndpoint {
        id: format!("{did}#download"),
        service_type: "SkillPackageDownload".to_owned(),
        service_endpoint: "https://example.org/skills/contract-review.json".to_owned(),
        version: Some("1.0.0".to_owned()),
        protocol: Some("https".to_owned()),
        server_type: None,
        port: None,
    };
    let did_document = oan_core::DidDocument {
        context: strings(&["https://www.w3.org/ns/did/v1"]),
        id: did.clone(),
        verification_method: vec![oan_core::VerificationMethod {
            id: format!("{did}#key-1"),
            method_type: "Ed25519VerificationKey2020".to_owned(),
            controller: did.clone(),
            crypto_suite: Some(oan_core::CryptoSuite::Ed25519Sha256),
            public_key_format: None,
            public_key_multibase: Some("zExample".to_owned()),
            public_key_jwk: None,
        }],
        authentication: vec![format!("{did}#key-1")],
        assertion_method: vec![format!("{did}#key-1")],
        service: vec![service.clone()],
        oan_metadata: Some(oan_core::OanMetadata {
            subject_type: oan_core::ResourceType::Skill,
            resource_type: oan_core::ResourceType::Skill,
            node_role: None,
            identity_type: None,
            controller_did: None,
            publisher_did: Some("did:oan:AGUS:5HkPq7Vm3RdT9Ya2WcX8Ns4Bf6GjLeZu".to_owned()),
            issuer_did: None,
            ttl: None,
            resource_description: Some(oan_core::ResourceDescription {
                name: Some("Contract Review Skill".to_owned()),
                description: Some("Review contracts and highlight risky clauses".to_owned()),
                capability_description: Some(
                    "Detect payment, termination, liability, and compliance risks.".to_owned(),
                ),
                capability_tags: strings(&["legal.contract.review"]),
                use_case_examples: strings(&["Find payment and termination risks"]),
                examples: vec![object(&[
                    ("task", Value::from("Review a commercial contract")),
                    ("output", Value::from("Risk checklist")),
                ])],
                ..Default::default()
            }),
            agent_description: None,
            capability_tags: strings(&["legal.contract.review"]),
            authorized_domains: strings(&["legal"]),
            protocol_bindings: vec![oan_core::ProtocolBinding {
                id: format!("{did}#binding-https"),
                protocol: "https".to_owned(),
                version: None,
                transport: Some("http".to_owned()),
                service_ref: Some(format!("{did}#download")),
                schema_ref: None,
                extra: Default::default(),
            }],
            implementation_links: vec![oan_core::ImplementationLink {
                relation: "download".to_owned(),
                target_did: did.clone(),
                target_type: Some(oan_core::ResourceType::Skill),
                target_service: Some(format!("{did}#download")),
                version_constraint: Some("1".to_owned()),
            }],
            credential_requirements: vec![],
            package_info: None,
            service_policy: None,
            network_scope: None,
            lifecycle_state: Some("active".to_owned()),
            extra: Default::default(),
        }),
    };
    let mut package = oan_package::ResourcePackage {
        package_version: "1".to_owned(),
        resource_did: did.clone(),
        resource_type: oan_core::ResourceType::Skill,
        did_document,
        did_document_hash: String::new(),
        metadata_hash: String::new(),
        package_hash: String::new(),
        hash_algorithm: "sha256".to_owned(),
        metadata: oan_package::ResourceMetadata {
            resource_did: did.clone(),
            resource_type: oan_core::ResourceType::Skill,
            subject_type: oan_core::ResourceType::Skill,
            publisher_did: Some("did:oan:AGUS:5HkPq7Vm3RdT9Ya2WcX8Ns4Bf6GjLeZu".to_owned()),
            subject_did: Some(did),
            name: "Contract Review Skill".to_owned(),
            description: "Review contracts and highlight risky clauses".to_owned(),
            capability_tags: strings(&["legal.contract.review"]),
            authorized_domains: strings(&["legal"]),
            protocol_bindings: vec![object(&[
                ("protocol", Value::from("https")),
                ("role", Value::from("download")),
            ])],
            services: vec![service],
            lifecycle_state: "active".to_owned(),
            package_version: "1".to_owned(),
            package_hash: String::new(),
            metadata_hash: String::new(),
            hash_algorithm: "sha256".to_owned(),
            updated_at: time,
        },
        root_proof: oan_package::RootProof {
            root_did: "did:oan:AGRT:5HkPq7Vm3RdT9Ya2WcX8Ns4Bf6GjLeZu".to_owned(),
            bulletin_event_hash: None,
            signature: None,
            package_claims: None,
            proof: None,
            crypto_suite: Some(oan_core::CryptoSuite::Ed25519Sha256),
            hash_algorithm: Some("sha256".to_owned()),
        },
        created_at: time,
    };
    refresh_hashes(&mut package);
    package
}

fn sample_resource_package_with_did(resource_did: &str) -> oan_package::ResourcePackage {
    let mut package = sample_resource_package();
    package.resource_did = resource_did.to_owned();
    package.did_document.id = resource_did.to_owned();
    package.did_document.verification_method[0].id = format!("{resource_did}#key-1");
    package.did_document.verification_method[0].controller = resource_did.to_owned();
    package.did_document.authentication = vec![format!("{resource_did}#key-1")];
    package.did_document.assertion_method = vec![format!("{resource_did}#key-1")];
    package.metadata.resource_did = resource_did.to_owned();
    package.metadata.subject_did = Some(resource_did.to_owned());
    refresh_hashes(&mut package);
    package
}

fn set_package_authorized_domains(package: &mut oan_package::ResourcePackage, domains: &[&str]) {
    package.metadata.authorized_domains = strings(domains);
    package.did_document.oan_metadata.as_mut().unwrap().authorized_domains = strings(domains);
    refresh_hashes(package);
}

fn set_package_type(
    package: &mut oan_package::ResourcePackage,
    resource_type: oan_core::ResourceType,
) {
    package.resource_type = resource_type.clone();
    package.metadata.resource_type = resource_type.clone();
    package.metadata.subject_type = resource_type.clone();
    let metadata = package.did_document.oan_metadata.as_mut().unwrap();
    metadata.resource_type = resource_type.clone();
    metadata.subject_type = resource_type;
    refresh_hashes(package);
}

fn set_package_tags(package: &mut oan_package::ResourcePackage, tags: &[&str]) {
    package.metadata.capability_tags = strings(tags);
    package.did_document.oan_metadata.as_mut().unwrap().capability_tags = strings(tags);
    refresh_hashes(package);
}

fn set_package_description(
    package: &mut oan_package::ResourcePackage,
    name: &str,
    description: &str,
) {
    package.metadata.name = name.to_owned();
    package.metadata.description = description.to_owned();
    let metadata = package.did_document.oan_metadata.as_mut().unwrap();
    let resource_description = metadata.resource_description.as_mut().unwrap();
    resource_description.name = Some(name.to_owned());
    resource_description.description = Some(description.to_owned());
    refresh_hashes(package);
}

fn weather_package(did: &str) -> oan_package::ResourcePackage {
    let mut weather = sample_resource_package_with_did(did);
    set_package_description(
        &mut weather,
        "Weather Forecast Skill",
        "Forecast rainfall and temperature for travel planning.",
    );
    set_package_tags(&mut weather, &["weather.forecast"]);
    weather
}

fn empty_query() -> ResourceDiscoveryQuery {
    ResourceDiscoveryQuery {
        query: None,
        resource_type: None,
        capability_tags: vec![],
        protocol: None,
        version: None,
        version_mode: "latest".to_owned(),
        limit: 10,
    }
}

fn text_query(text: &str) -> ResourceDiscoveryQuery {
    ResourceDiscoveryQuery { query: Some(text.to_owned()), limit: 5, ..empty_query() }
}

struct Hit {
    index: usize,
    semantic: f32,
    tag: f32,
    context: f32,
    intent: f32,
    final_score: f32,
}

fn share(overlap: &TokenOverlap) -> f32 {
    if overlap.total == 0 {
        0.0
    } else {
        overlap.matched as f32 / overlap.total as f32
    }
}

fn bm25(query_tokens: &Vec<String>, documents: &Vec<Vec<String>>, index: usize) -> f32 {
    let Some(statistics) = bm25_statistics(query_tokens, documents, index) else {
        return 0.0;
    };
    let count = statistics.lengths.len() as f32;
    let average = (statistics.lengths.iter().sum::<usize>() as f32 / count).max(1.0);
    let length = statistics.lengths[statistics.index] as f32;
    let mut score = 0.0_f32;
    for term in &statistics.terms {
        if term.frequency > 0 {
            let frequency = term.frequency as f32;
            let spread = term.document_frequency as f32;
            let idf = ((count - spread + 0.5) / (spread + 0.5) + 1.0).ln();
            score += idf * (frequency * 2.2)
                / (frequency + 1.2 * (0.25 + 0.75 * length / average));
        }
    }
    (score / (score + 3.0)).clamp(0.0, 1.0)
}

fn score(
    lexicon: &Lexicon,
    package: &ResourcePackage,
    index: usize,
    query: &ResourceDiscoveryQuery,
    bm25_score: f32,
) -> Hit {
    let projection = semantic_query_projection(lexicon, query);
    let doc = ranking_document(lexicon, package);
    let parts = semantic_resource_score_parts(lexicon, package, &doc, query, &projection);
    let (tag, context, intent) =
        (share(&parts.tag), share(&parts.context), share(&parts.intent.overlap));
    let (tag_weight, context_weight, bonus) = if query.resource_type.is_some() {
        (0.25, 0.25, 0.0)
    } else {
        (0.34, 0.16, if tag > 0.0 { 0.04 } else { 0.0 })
    };
    let semantic =
        0.30 * bm25_score + tag_weight * tag + context_weight * context + 0.20 * intent;
    let structured = (if parts.structured.type_matched { 0.10 } else { 0.0 })
        + 0.15 * share(&parts.structured.tags)
        + (if parts.structured.protocol_matched { 0.05 } else { 0.0 });
    Hit {
        index,
        semantic,
        tag,
        context,
        intent,
        final_score: (semantic + structured + bonus).clamp(0.0, 1.0),
    }
}

fn ordered(score: f32) -> i64 {
    let bits = score.to_bits() as i32;
    i64::from(bits ^ (((bits >> 31) as u32) >> 1) as i32)
}

fn rank(packages: &Vec<ResourcePackage>, query: &ResourceDiscoveryQuery) -> Vec<Hit> {
    let lexicon = lexicon();
    let projection = semantic_query_projection(&lexicon, query);
    let documents: Vec<Vec<String>> = packages
        .iter()
        .map(|package| {
            let doc = ranking_document(&lexicon, package);
            semantic_tokens(&lexicon, &semantic_lexical_text(&doc))
        })
        .collect();
    let hits: Vec<Hit> = packages
        .iter()
        .enumerate()
        .map(|(index, package)| {
            let bm25_score = bm25(&projection.expanded_tokens, &documents, index);
            score(&lexicon, package, index, query, bm25_score)
        })
        .collect();
    let scores: Vec<HitScore> = hits
        .iter()
        .map(|hit| HitScore { order: ordered(hit.final_score), positive: hit.final_score > 0.0 })
        .collect();
    let order = rank_resource_packages_semantically(
        packages,
        query,
        &scores,
        !projection.expanded_tokens.is_empty(),
    );
    let mut hits: Vec<Option<Hit>> = hits.into_iter().map(Some).collect();
    order.into_iter().map(|index| hits[index].take().unwrap()).collect()
}

fn document_of(package: &ResourcePackage, cursor: i64) -> SearchDocument {
    let projection = discovery_package_projection(&lexicon(), package);
    search_document_from_package(cursor, package, &projection)
}

// ---- validation ----

#[test]
fn resource_package_validation_accepts_complete_oan_resource() {
    let package = sample_resource_package();
    assert!(validate_resource_package_for_index(&published(&package)).is_ok());
}

#[test]
fn resource_package_validation_rejects_tampered_hash() {
    let mut package = sample_resource_package();
    package.metadata.description.push_str(" tampered");
    assert_eq!(
        validate_resource_package_for_index(&published(&package)).unwrap_err(),
        "metadata hash mismatch"
    );
}

#[test]
fn resource_package_validation_rejects_missing_authorized_domains() {
    let mut package = sample_resource_package();
    set_package_authorized_domains(&mut package, &[]);
    assert_eq!(
        validate_resource_package_for_index(&published(&package)).unwrap_err(),
        "resource_domains_required"
    );
}

#[test]
fn validation_names_each_fault_of_a_package() {
    let mut package = sample_resource_package();
    package.did_document.context.push("https://example.org/more".to_owned());
    assert_eq!(
        validate_resource_package_for_index(&published(&package)).unwrap_err(),
        "did document hash mismatch"
    );

    let mut package = sample_resource_package();
    package.package_hash = "sha256:0".to_owned();
    assert_eq!(
        validate_resource_package_for_index(&published(&package)).unwrap_err(),
        "package hash mismatch"
    );

    let mut package = sample_resource_package();
    package.metadata.subject_type = oan_core::ResourceType::ToolApi;
    refresh_hashes(&mut package);
    assert_eq!(
        validate_resource_package_for_index(&published(&package)).unwrap_err(),
        "resource type mismatch"
    );

    let mut package = sample_resource_package();
    package.metadata.authorized_domains = strings(&["legal", "finance"]);
    refresh_hashes(&mut package);
    assert_eq!(
        validate_resource_package_for_index(&published(&package)).unwrap_err(),
        "root proof claim mismatch"
    );

    let mut package = sample_resource_package();
    package.root_proof.package_claims = None;
    assert_eq!(
        validate_resource_package_for_index(&published(&package)).unwrap_err(),
        "root proof claim mismatch"
    );

    let mut package = sample_resource_package();
    package.metadata.lifecycle_state = "revoked".to_owned();
    refresh_hashes(&mut package);
    assert_eq!(
        validate_resource_package_for_index(&published(&package)).unwrap_err(),
        "resource_not_active"
    );

    let mut package = sample_resource_package();
    set_package_authorized_domains(&mut package, &["legal "]);
    assert_eq!(
        validate_resource_package_for_index(&published(&package)).unwrap_err(),
        "invalid_authorized_domains"
    );

    let mut package = sample_resource_package();
    package.did_document.id = "did:example:1".to_owned();
    let faults = check_document(&serde_json::to_string(&package).unwrap());
    assert!(faults.did_document.is_some());
    assert!(faults.metadata_hash.is_none());
}

#[test]
fn a_document_that_is_no_package_has_every_fault() {
    let faults = check_document("{}");
    assert!(faults.did_document.is_some());
    assert!(faults.did_document_hash.is_some());
    assert!(faults.metadata_hash.is_some());
    assert!(faults.package_hash.is_some());
}

#[test]
fn checked_packages_are_judged_by_their_first_fault() {
    let none = || DocumentFaults {
        did_document: None,
        did_document_hash: None,
        metadata_hash: None,
        package_hash: None,
    };
    let package = model(&sample_resource_package());
    assert!(validate_checked_package(&package, none()).is_ok());
    let faults = DocumentFaults {
        package_hash: Some("second".to_owned()),
        did_document: Some("first".to_owned()),
        ..none()
    };
    assert_eq!(validate_checked_package(&package, faults).unwrap_err(), "first");
    let mut package = model(&sample_resource_package());
    package.root_proof.package_claims = None;
    assert_eq!(
        validate_checked_package(&package, none()).unwrap_err(),
        "root proof claim mismatch"
    );
    let mut package = model(&sample_resource_package());
    if let Some(claims) = &mut package.root_proof.package_claims {
        claims.lifecycle_state = "revoked".to_owned();
    }
    assert_eq!(
        validate_checked_package(&package, none()).unwrap_err(),
        "root proof claim mismatch"
    );
}

// ---- hashes and seeds ----

#[test]
fn hashes_are_those_of_the_hash_functions() {
    let package = sample_resource_package();
    let suite = oan_core::CryptoSuite::Ed25519Sha256;
    let document =
        oan_crypto::hash_json_with_suite(suite.clone(), &package.did_document).unwrap();
    assert_eq!(package.did_document_hash, format!("sha256:{document}"));
    let metadata =
        oan_package::hash_resource_metadata_with_suite(suite, &package.metadata).unwrap();
    assert_eq!(package.metadata_hash, format!("sha256:{metadata}"));
    assert!(package.verify_package_hash().is_ok());
    assert!(package.verify_root_claim_binding().is_ok());
}

#[test]
fn hashes_of_unreadable_parts_are_refused() {
    let mut package = model(&sample_resource_package());
    let before = package.package_hash.clone();
    package.metadata.protocol_bindings.push(JsonValue::Number("no number".to_owned()));
    assert!(refresh_resource_package_hashes(&mut package).is_err());
    assert_eq!(package.package_hash, before);
    package.metadata.protocol_bindings.pop();
    package.metadata.updated_at = Timestamp { seconds: i64::MAX, nanos: 0 };
    assert_eq!(
        refresh_resource_package_hashes(&mut package),
        Err("timestamp_out_of_range".to_owned())
    );
    package.metadata.updated_at = Timestamp { seconds: 0, nanos: 0 };
    let metadata = package.did_document.oan_metadata.as_mut().unwrap();
    let description = metadata.resource_description.as_mut().unwrap();
    description.examples.push(ExampleValue::Structured("{".to_owned()));
    assert!(refresh_resource_package_hashes(&mut package).is_err());
    assert_eq!(package.package_hash, before);
}

// Values with every member that the library knows, and characters to escape.
fn rich_document() -> DidDocument {
    let mut document = model(&sample_resource_package()).did_document;
    document.id = "did:oan:SKLG:\"quoted\"\\\n\u{1}\u{e4}\u{4f60}".to_owned();
    document.verification_method.push(VerificationMethod {
        id: "key-2".to_owned(),
        method_type: "Sm2".to_owned(),
        controller: "controller".to_owned(),
        crypto_suite: Some(CryptoSuite::Sm2Sm3),
        public_key_format: Some("multibase".to_owned()),
        public_key_multibase: None,
    });
    document.verification_method.push(VerificationMethod {
        id: "key-3".to_owned(),
        method_type: "Ed25519".to_owned(),
        controller: "controller".to_owned(),
        crypto_suite: Some(CryptoSuite::Ed25519Sha256Legacy),
        public_key_format: None,
        public_key_multibase: None,
    });
    document.service.push(ServiceEndpoint {
        id: "service-2".to_owned(),
        service_type: "Download".to_owned(),
        service_endpoint: "https://example.org/2".to_owned(),
        version: None,
        protocol: None,
        server_type: Some("mirror".to_owned()),
        port: Some(65535),
    });
    let metadata = document.oan_metadata.as_mut().unwrap();
    metadata.agent_description = Some(AgentDescription {
        capability_description: "Reviews".to_owned(),
        capability_tags: strings(&["legal", "review"]),
        use_case_examples: vec![],
    });
    metadata.protocol_bindings.push(ProtocolBinding {
        id: "binding-2".to_owned(),
        protocol: "mcp".to_owned(),
        version: Some("2".to_owned()),
        transport: Some("stdio".to_owned()),
        service_ref: Some("service-2".to_owned()),
        schema_ref: Some("schema-2".to_owned()),
    });
    metadata.implementation_links.push(ImplementationLink {
        relation: "implements".to_owned(),
        target_did: "did:oan:SKLG:other".to_owned(),
        target_type: Some(ResourceType::ToolApi),
        target_service: Some("service-2".to_owned()),
        version_constraint: Some("^2".to_owned()),
    });
    metadata.network_scope = Some("open".to_owned());
    let description = metadata.resource_description.as_mut().unwrap();
    description.examples = vec![
        ExampleValue::Text("plain \t text".to_owned()),
        ExampleValue::Structured("{\"steps\":[1,2,{\"deep\":null}]}".to_owned()),
        ExampleValue::Scalar("-7".to_owned()),
        ExampleValue::Scalar("true".to_owned()),
        ExampleValue::Scalar("null".to_owned()),
    ];
    document
}

#[test]
fn documents_are_written_as_they_are_published() {
    let mut package = model(&sample_resource_package());
    assert_eq!(
        serde_json::from_str::<Value>(&write_document(&package.did_document)).unwrap(),
        serde_json::to_value(oan_package_of(&package).did_document).unwrap()
    );
    package.did_document = rich_document();
    assert_eq!(
        serde_json::from_str::<Value>(&write_document(&package.did_document)).unwrap(),
        serde_json::to_value(oan_package_of(&package).did_document).unwrap()
    );
    let mut bare = oan_package_of(&package).did_document;
    bare.oan_metadata = None;
    package.did_document.oan_metadata = None;
    assert_eq!(
        serde_json::from_str::<Value>(&write_document(&package.did_document)).unwrap(),
        serde_json::to_value(bare).unwrap()
    );
}

#[test]
fn metadata_are_written_as_they_are_published() {
    let mut package = model(&sample_resource_package());
    let bindings = "[null,true,false,-12,18446744073709551615,1.5,\"a \\\" b\",[],[1,[2]],{},\
                    {\"name \\\\\":{\"deep\":[{}]},\"role\":\"service\"}]";
    package.metadata.protocol_bindings = serde_json::from_str::<Vec<Value>>(bindings)
        .unwrap()
        .iter()
        .map(model_json)
        .collect();
    for time in [
        Timestamp { seconds: 1_760_000_000, nanos: 0 },
        Timestamp { seconds: 1_760_000_000, nanos: 5 },
        Timestamp { seconds: 1_760_000_000, nanos: 120_000_000 },
        Timestamp { seconds: -1, nanos: 999_999_000 },
    ] {
        package.metadata.updated_at = time;
        let text = write_timed_metadata(&package.metadata).unwrap();
        assert_eq!(
            serde_json::from_str::<Value>(&text).unwrap(),
            serde_json::to_value(oan_package_of(&package).metadata).unwrap()
        );
    }
    let text = write_metadata(&package.metadata, "then");
    let value = serde_json::from_str::<Value>(&text).unwrap();
    assert_eq!(value["updatedAt"], Value::from("then"));
    package.metadata.updated_at = Timestamp { seconds: 0, nanos: 2_000_000_000 };
    assert_eq!(
        write_timed_metadata(&package.metadata),
        Err("timestamp_out_of_range".to_owned())
    );
}

#[test]
fn hashes_are_those_of_the_own_document_and_metadata() {
    let mut package = model(&sample_resource_package());
    package.did_document = rich_document();
    package.metadata.updated_at = Timestamp { seconds: 1_760_000_000, nanos: 123_456_789 };
    refresh_resource_package_hashes(&mut package).unwrap();
    let outside = oan_package_of(&package);
    let suite = oan_core::CryptoSuite::Ed25519Sha256;
    let document =
        oan_crypto::hash_json_with_suite(suite.clone(), &outside.did_document).unwrap();
    assert_eq!(package.did_document_hash, format!("sha256:{document}"));
    let metadata =
        oan_package::hash_resource_metadata_with_suite(suite, &outside.metadata).unwrap();
    assert_eq!(package.metadata_hash, format!("sha256:{metadata}"));
    assert!(outside.verify_package_hash().is_ok());

    let before = package.did_document_hash.clone();
    package.did_document.service[1].port = Some(65534);
    refresh_resource_package_hashes(&mut package).unwrap();
    assert_ne!(package.did_document_hash, before);
}

#[test]
fn set_hashes_stand_in_package_metadata_and_claims() {
    let mut package = model(&sample_resource_package());
    package.package_version = "7 \"quoted\"".to_owned();
    set_package_hashes(&mut package, "sha256:d", "sha256:m", "sha256:p");
    assert_eq!(package.did_document_hash, "sha256:d");
    assert_eq!(package.metadata_hash, "sha256:m");
    assert_eq!(package.package_hash, "sha256:p");
    assert_eq!(package.metadata.metadata_hash, "sha256:m");
    assert_eq!(package.metadata.package_hash, "sha256:p");
    let claims = package.root_proof.package_claims.unwrap();
    assert_eq!(claims.version, "7 \"quoted\"");
    assert_eq!(claims.package_hash, "sha256:p");
    assert_eq!(claims.lifecycle_state, "active");
    assert_eq!(claims.authorized_domains, strings(&["legal"]));
}

#[test]
fn package_hash_covers_quoted_text() {
    let mut package = sample_resource_package();
    package.package_version = "1 \"beta\" \\ \n".to_owned();
    package.metadata.package_version = package.package_version.clone();
    refresh_hashes(&mut package);
    assert!(validate_resource_package_for_index(&published(&package)).is_ok());
}

fn seed(did: &str) -> SemanticEvaluationSeedResource {
    SemanticEvaluationSeedResource {
        resource_did: did.to_owned(),
        resource_type: ResourceType::McpServer,
        name: "Repository Server".to_owned(),
        description: "Search repositories".to_owned(),
        capability_description: "Finds issues".to_owned(),
        capability_tags: strings(&["github.repository"]),
        authorized_domains: vec![],
        protocols: vec![],
        service_endpoint: None,
        use_case_examples: strings(&["Find an issue"]),
        examples: vec![ExampleValue::Text("Open pull requests".to_owned())],
        package_version: "1".to_owned(),
    }
}

fn oan_package_of(package: &ResourcePackage) -> oan_package::ResourcePackage {
    let document = &package.did_document;
    let metadata = document.oan_metadata.as_ref().unwrap();
    let description = metadata.resource_description.as_ref().unwrap();
    oan_package::ResourcePackage {
        package_version: package.package_version.clone(),
        resource_did: package.resource_did.clone(),
        resource_type: oan_type(package.resource_type),
        did_document: oan_core::DidDocument {
            context: document.context.clone(),
            id: document.id.clone(),
            verification_method: document
                .verification_method
                .iter()
                .map(|method| oan_core::VerificationMethod {
                    id: method.id.clone(),
                    method_type: method.method_type.clone(),
                    controller: method.controller.clone(),
                    crypto_suite: method.crypto_suite.map(oan_suite),
                    public_key_format: method.public_key_format.clone(),
                    public_key_multibase: method.public_key_multibase.clone(),
                    public_key_jwk: None,
                })
                .collect(),
            authentication: document.authentication.clone(),
            assertion_method: document.assertion_method.clone(),
            service: document.service.iter().map(oan_service).collect(),
            oan_metadata: Some(oan_core::OanMetadata {
                subject_type: oan_type(metadata.subject_type),
                resource_type: oan_type(metadata.resource_type),
                node_role: None,
                identity_type: None,
                controller_did: None,
                publisher_did: metadata.publisher_did.clone(),
                issuer_did: None,
                ttl: None,
                resource_description: Some(oan_core::ResourceDescription {
                    name: description.name.clone(),
                    description: description.description.clone(),
                    capability_description: description.capability_description.clone(),
                    capability_tags: description.capability_tags.clone(),
                    use_case_examples: description.use_case_examples.clone(),
                    examples: description.examples.iter().map(oan_example).collect(),
                    version: description.version.clone(),
                    ..Default::default()
                }),
                agent_description: metadata.agent_description.as_ref().map(|agent| {
                    oan_core::AgentDescription {
                        capability_description: agent.capability_description.clone(),
                        capability_tags: agent.capability_tags.clone(),
                        use_case_examples: agent.use_case_examples.clone(),
                    }
                }),
                capability_tags: metadata.capability_tags.clone(),
                authorized_domains: metadata.authorized_domains.clone(),
                protocol_bindings: metadata
                    .protocol_bindings
                    .iter()
                    .map(|binding| oan_core::ProtocolBinding {
                        id: binding.id.clone(),
                        protocol: binding.protocol.clone(),
                        version: binding.version.clone(),
                        transport: binding.transport.clone(),
                        service_ref: binding.service_ref.clone(),
                        schema_ref: binding.schema_ref.clone(),
                        extra: Default::default(),
                    })
                    .collect(),
                implementation_links: metadata
                    .implementation_links
                    .iter()
                    .map(|link| oan_core::ImplementationLink {
                        relation: link.relation.clone(),
                        target_did: link.target_did.clone(),
                        target_type: link.target_type.map(oan_type),
                        target_service: link.target_service.clone(),
                        version_constraint: link.version_constraint.clone(),
                    })
                    .collect(),
                credential_requirements: vec![],
                package_info: None,
                service_policy: None,
                network_scope: metadata.network_scope.clone(),
                lifecycle_state: metadata.lifecycle_state.clone(),
                extra: Default::default(),
            }),
        },
        did_document_hash: package.did_document_hash.clone(),
        metadata_hash: package.metadata_hash.clone(),
        package_hash: package.package_hash.clone(),
        hash_algorithm: package.hash_algorithm.clone(),
        metadata: oan_package::ResourceMetadata {
            resource_did: package.metadata.resource_did.clone(),
            resource_type: oan_type(package.metadata.resource_type),
            subject_type: oan_type(package.metadata.subject_type),
            publisher_did: package.metadata.publisher_did.clone(),
            subject_did: package.metadata.subject_did.clone(),
            name: package.metadata.name.clone(),
            description: package.metadata.description.clone(),
            capability_tags: package.metadata.capability_tags.clone(),
            authorized_domains: package.metadata.authorized_domains.clone(),
            protocol_bindings: package
                .metadata
                .protocol_bindings
                .iter()
                .map(oan_json)
                .collect(),
            services: package.metadata.services.iter().map(oan_service).collect(),
            lifecycle_state: package.metadata.lifecycle_state.clone(),
            package_version: package.metadata.package_version.clone(),
            package_hash: package.metadata.package_hash.clone(),
            metadata_hash: package.metadata.metadata_hash.clone(),
            hash_algorithm: package.metadata.hash_algorithm.clone(),
            updated_at: oan_time(package.metadata.updated_at),
        },
        root_proof: oan_package::RootProof {
            root_did: package.root_proof.root_did.clone(),
            bulletin_event_hash: None,
            signature: None,
            package_claims: package.root_proof.package_claims.as_ref().map(oan_claims),
            proof: None,
            crypto_suite: package.root_proof.crypto_suite.map(oan_suite),
            hash_algorithm: package.root_proof.hash_algorithm.clone(),
        },
        created_at: oan_time(package.created_at),
    }
}

#[test]
fn seed_packages_are_hashed_and_pass_validation() {
    let time = Timestamp { seconds: 1_760_000_000, nanos: 5 };
    let did = "did:oan:MCDM:5HkPq7Vm3RdT9Ya2WcX8Ns4Bf6GjLeZu";
    let package = seed_resource_package(seed(did), time, time).unwrap();
    assert_eq!(
        package.metadata.services[0].service_endpoint,
        "https://example.org/oan/resources/did/oan/MCDM/5HkPq7Vm3RdT9Ya2WcX8Ns4Bf6GjLeZu"
    );
    assert_eq!(package.metadata.services[0].service_type, "mcp_serverService");
    assert_eq!(package.metadata.authorized_domains, strings(&["examples"]));
    let bindings = &package.did_document.oan_metadata.as_ref().unwrap().protocol_bindings;
    assert_eq!(bindings[0].protocol, "https");
    assert_eq!(bindings[0].transport.as_deref(), Some("http"));
    assert!(validate_resource_package_for_index(&published(&oan_package_of(&package))).is_ok());

    let unhashed = unhashed_seed_package(seed(did), time, time);
    assert!(unhashed.did_document_hash.is_empty());
    assert!(unhashed.root_proof.package_claims.is_none());
    let outside = oan_package_of(&unhashed);
    let suite = oan_core::CryptoSuite::Ed25519Sha256;
    let document =
        oan_crypto::hash_json_with_suite(suite.clone(), &outside.did_document).unwrap();
    assert_eq!(package.did_document_hash, format!("sha256:{document}"));
    let metadata =
        oan_package::hash_resource_metadata_with_suite(suite, &outside.metadata).unwrap();
    assert_eq!(package.metadata_hash, format!("sha256:{metadata}"));
}

#[test]
fn plain_seeds_make_whole_packages() {
    let time = Timestamp { seconds: 1_760_000_000, nanos: 0 };
    let plain = || SemanticEvaluationSeedResource {
        resource_did: "did:oan:SKLG:x".to_owned(),
        resource_type: ResourceType::Skill,
        name: "N".to_owned(),
        description: "".to_owned(),
        capability_description: "".to_owned(),
        capability_tags: vec![],
        authorized_domains: vec![],
        protocols: vec![],
        service_endpoint: None,
        use_case_examples: vec![],
        examples: vec![],
        package_version: "1".to_owned(),
    };
    let package = seed_resource_package(plain(), time, time).unwrap();
    let service = &package.metadata.services[0];
    assert_eq!(package.metadata.authorized_domains, strings(&["examples"]));
    assert_eq!(
        service.service_endpoint,
        "https://example.org/oan/resources/did/oan/SKLG/x"
    );
    assert_eq!(service.protocol.as_deref(), Some("https"));
    assert_eq!(package.metadata.lifecycle_state, "active");
    assert_eq!(package.metadata.metadata_hash, package.metadata_hash);
    assert_eq!(package.metadata.package_hash, package.package_hash);
    let claims = package.root_proof.package_claims.as_ref().unwrap();
    assert_eq!(claims.package_hash, package.package_hash);
    assert!(oan_package_of(&package).verify_package_hash().is_ok());

    let again = seed_resource_package(plain(), time, time).unwrap();
    assert_eq!(again.package_hash, package.package_hash);
    let later = Timestamp { seconds: 1_760_000_001, nanos: 0 };
    let other = seed_resource_package(plain(), later, time).unwrap();
    assert_ne!(other.metadata_hash, package.metadata_hash);
    assert_eq!(other.did_document_hash, package.did_document_hash);
    let hashed = seed_package_with_hashes(plain(), time, time, "d", "m", "p");
    assert_eq!(hashed.did_document_hash, "d");
    assert_eq!(hashed.metadata.metadata_hash, "m");
    assert_eq!(hashed.root_proof.package_claims.unwrap().package_hash, "p");
}

#[test]
fn seeds_that_cannot_be_hashed_are_refused() {
    let late = Timestamp { seconds: i64::MAX, nanos: 0 };
    let time = Timestamp { seconds: 0, nanos: 0 };
    let error = seed_resource_package(seed("did:oan:MCDM:1"), late, time).unwrap_err();
    assert_eq!(error, "timestamp_out_of_range");
    let broken = SemanticEvaluationSeedResource {
        examples: vec![ExampleValue::Structured("[".to_owned())],
        ..seed("did:oan:MCDM:1")
    };
    assert!(seed_resource_package(broken, time, time).is_err());
}

#[test]
fn seeds_keep_their_own_protocol_endpoint_and_domains() {
    let time = Timestamp { seconds: 0, nanos: 0 };
    let package = seed_resource_package(
        SemanticEvaluationSeedResource {
            protocols: strings(&["mcp", "https"]),
            service_endpoint: Some("https://mcp.example.org".to_owned()),
            authorized_domains: strings(&["code"]),
            ..seed("did:oan:MCDM:2")
        },
        time,
        time,
    )
    .unwrap();
    let metadata = package.did_document.oan_metadata.as_ref().unwrap();
    assert_eq!(metadata.protocol_bindings[0].id, "did:oan:MCDM:2#binding-mcp");
    assert_eq!(metadata.protocol_bindings[0].transport.as_deref(), Some("mcp"));
    assert_eq!(package.metadata.services[0].service_endpoint, "https://mcp.example.org");
    assert_eq!(package.metadata.authorized_domains, strings(&["code"]));
    assert_eq!(
        package.metadata.protocol_bindings[0].get_text("protocol").map(String::as_str),
        Some("mcp")
    );
}

// ---- documents ----

#[test]
fn discovery_package_projection_separates_tag_text_from_context_text() {
    let mut package = sample_resource_package();
    set_package_description(
        &mut package,
        "合同审查助手",
        "审查合同付款、终止、责任和合规风险，并生成风险清单。",
    );
    let projection = discovery_package_projection(&lexicon(), &model(&package));

    assert!(projection.tag_text.contains("legal.contract.review"));
    assert!(projection.tag_text.contains("https"));
    assert!(!projection.tag_text.contains("审查合同付款"));
    assert!(projection.search_text.contains("审查合同付款"));
}

#[test]
fn discovery_package_projection_extracts_indexable_hot_fields() {
    let package = sample_resource_package();
    let projection = discovery_package_projection(&lexicon(), &model(&package));

    assert_eq!(projection.resource_type, "skill");
    assert_eq!(projection.lifecycle_state, "active");
    assert!(projection.capability_tags.contains(&"legal.contract.review".to_owned()));
    assert!(projection.protocols.contains(&"https".to_owned()));
    assert!(projection.search_text.contains("contract review skill"));
    assert!(projection.search_text.contains("legal.contract.review"));
}

#[test]
fn discovery_package_projection_adds_chinese_tokens_and_aliases_to_search_text() {
    let mut package = sample_resource_package();
    set_package_description(
        &mut package,
        "合同审查助手",
        "审查合同付款、终止、责任和合规风险，并生成风险清单。",
    );
    let projection = discovery_package_projection(&lexicon(), &model(&package));

    assert!(projection.search_text.contains("合同"));
    assert!(projection.search_text.contains("风险"));
    assert!(projection.search_text.contains("document.analysis"));
    assert!(projection.search_text.contains("security.risk"));
}

#[test]
fn semantic_search_document_extracts_did_metadata_without_package_examples() {
    let package = sample_resource_package();
    let doc = document_of(&model(&package), 42);

    assert_eq!(doc.resource_did, package.resource_did);
    assert_eq!(doc.cursor, 42);
    assert_eq!(doc.resource_type, "skill");
    assert!(doc.description.contains("Detect payment, termination, liability"));
    assert!(doc.capability_tags.contains(&"legal.contract.review".to_owned()));
    assert!(doc.protocols.contains(&"https".to_owned()));
    assert!(doc.use_cases.contains(&"Find payment and termination risks".to_owned()));
    assert!(doc.examples.iter().any(|example| example.contains("commercial contract")));
    let semantic_text = semantic_document_text(&doc);
    assert!(semantic_text.contains("Tag view:"));
    assert!(semantic_text.contains("Context view:"));
    assert!(semantic_text.contains("Intent view:"));
    assert!(semantic_text.contains("User wants to Find payment and termination risks"));
    assert!(doc.semantic_source_hash.starts_with("sha256:"));
    assert_eq!(
        doc.semantic_source_hash,
        format!("sha256:{}", oan_crypto::sha256_hex(semantic_text.as_bytes()))
    );
}

#[test]
fn semantic_intent_documents_split_use_cases_examples_and_pseudo_queries() {
    let package = sample_resource_package();
    let document = document_of(&model(&package), 1);
    let intents = semantic_intent_documents(&document);

    assert!(intents.iter().any(|intent| intent.intent_kind == "use_case"
        && intent.intent_text.contains("payment and termination risks")));
    assert!(intents.iter().any(|intent| intent.intent_kind == "example"
        && intent.intent_text.contains("Review a commercial contract")));
    assert!(intents.iter().any(|intent| intent.intent_kind == "pseudo_query"));
    assert!(intents.windows(2).all(|window| window[0].intent_id < window[1].intent_id));
}

#[test]
fn intents_are_distinct_and_sixteen_at_most() {
    let mut package = sample_resource_package();
    let description = package
        .did_document
        .oan_metadata
        .as_mut()
        .unwrap()
        .resource_description
        .as_mut()
        .unwrap();
    description.use_case_examples =
        (0..30).map(|number| format!("  Use   case {}", number % 18)).collect();
    let doc = document_of(&model(&package), 1);
    let intents = semantic_intent_texts(&doc);
    assert_eq!(intents.len(), 16);
    assert_eq!(intents[0], "Use case 0");
    for (place, intent) in intents.iter().enumerate() {
        assert!(!intents[..place].contains(intent));
    }
}

// ---- ranking ----

#[test]
fn resource_query_matches_semantic_description_tags_type_version_and_protocol() {
    let packages = models(&[&sample_resource_package()]);
    let query = || ResourceDiscoveryQuery {
        query: Some("risky clauses".to_owned()),
        resource_type: Some(ResourceType::Skill),
        capability_tags: strings(&["legal.contract.review"]),
        protocol: Some("https".to_owned()),
        version: Some("1".to_owned()),
        version_mode: "exact".to_owned(),
        limit: 10,
    };
    let hits = rank(&packages, &query());
    assert_eq!(hits.len(), 1);
    assert!(hits[0].final_score > 0.0);

    let wrong_type =
        ResourceDiscoveryQuery { resource_type: Some(ResourceType::McpServer), ..query() };
    assert!(rank(&packages, &wrong_type).is_empty());

    let wrong_protocol =
        ResourceDiscoveryQuery { protocol: Some("a2a".to_owned()), ..query() };
    assert!(rank(&packages, &wrong_protocol).is_empty());
}

#[test]
fn resource_query_requires_all_explicit_capability_tags() {
    let packages = models(&[&sample_resource_package()]);
    let query = ResourceDiscoveryQuery {
        resource_type: Some(ResourceType::Skill),
        capability_tags: strings(&["legal.contract.review", "missing.required.tag"]),
        ..empty_query()
    };
    assert!(rank(&packages, &query).is_empty());
}

#[test]
fn local_semantic_ranking_matches_chinese_query_to_english_metadata() {
    let contract = sample_resource_package();
    let weather = weather_package("did:oan:SKLG:44444444444444444444444444444444");
    let packages = models(&[&weather, &contract]);
    let hits = rank(&packages, &text_query("我想审查合同里的付款和终止风险"));
    assert_eq!(packages[hits[0].index].resource_did, contract.resource_did);
    assert!(hits[0].intent > 0.0 || hits[0].context > 0.0);
}

#[test]
fn local_semantic_ranking_keeps_explicit_type_and_protocol_hard() {
    let mut mcp = sample_resource_package_with_did("did:oan:MCDM:55555555555555555555555555555555");
    set_package_type(&mut mcp, oan_core::ResourceType::McpServer);
    set_package_description(
        &mut mcp,
        "Repository MCP Server",
        "Search GitHub issues, pull requests, and source repositories through MCP.",
    );
    set_package_tags(&mut mcp, &["github.repository"]);
    let packages = models(&[&sample_resource_package(), &mcp]);
    let query = ResourceDiscoveryQuery {
        resource_type: Some(ResourceType::McpServer),
        capability_tags: strings(&["github.repository"]),
        protocol: Some("https".to_owned()),
        ..text_query("search github pull requests")
    };
    let hits = rank(&packages, &query);
    assert_eq!(hits.len(), 1);
    assert_eq!(packages[hits[0].index].resource_did, mcp.resource_did);
}

#[test]
fn hybrid_semantic_hits_merges_vector_and_lexical_candidates() {
    let vector_only = sample_resource_package();
    let mut lexical_only =
        sample_resource_package_with_did("did:oan:MCDM:88888888888888888888888888888888");
    set_package_type(&mut lexical_only, oan_core::ResourceType::McpServer);
    set_package_description(
        &mut lexical_only,
        "Repository MCP Server",
        "Search GitHub issues and pull requests through Model Context Protocol.",
    );
    set_package_tags(&mut lexical_only, &["github.repository"]);
    let query = ResourceDiscoveryQuery { limit: 10, ..text_query("github pull request mcp") };

    let lexicon = lexicon();
    let vector = models(&[&vector_only]);
    let vector_scores = [0.92_f32];
    let keyword = models(&[&lexical_only]);
    let merged = merge_semantic_candidates(&vector, &keyword);
    let packages: Vec<&ResourcePackage> = merged
        .iter()
        .map(|candidate| {
            if candidate.from_vector {
                &vector[candidate.index]
            } else {
                &keyword[candidate.index]
            }
        })
        .collect();
    let projection = semantic_query_projection(&lexicon, &query);
    let documents: Vec<Vec<String>> = packages
        .iter()
        .map(|package| {
            let doc = ranking_document(&lexicon, package);
            semantic_tokens(&lexicon, &semantic_context_text(&doc))
        })
        .collect();
    let scores: Vec<i64> = merged
        .iter()
        .enumerate()
        .map(|(index, candidate)| {
            let vector_score = candidate.score_index.map_or(0.0, |place| vector_scores[place]);
            let bm25_score = bm25(&projection.expanded_tokens, &documents, index);
            let hit = score(&lexicon, packages[index], index, &query, bm25_score);
            let semantic = 0.45 * vector_score + 0.55 * hit.semantic;
            ordered((semantic + 0.03).clamp(0.0, 1.0))
        })
        .collect();
    let both = models(&[&vector_only, &lexical_only]);
    let hits = hybrid_semantic_hits(&both, &query, &scores);
    let dids: Vec<&str> = hits.iter().map(|index| both[*index].resource_did.as_str()).collect();

    assert!(dids.contains(&vector_only.resource_did.as_str()));
    assert!(dids.contains(&lexical_only.resource_did.as_str()));
}

#[test]
fn tag_layer_is_scored_separately_from_context_layer() {
    let mut package = sample_resource_package();
    set_package_description(
        &mut package,
        "合同审查助手",
        "审查合同付款、终止、责任和合规风险，并生成风险清单。",
    );
    let query = ResourceDiscoveryQuery {
        resource_type: Some(ResourceType::Skill),
        capability_tags: strings(&["legal.contract.review"]),
        protocol: Some("https".to_owned()),
        ..text_query("legal contract review")
    };
    let package = model(&package);
    let doc = document_of(&package, 1);
    let hit = score(&lexicon(), &package, 0, &query, 0.0);

    assert!(hit.tag > 0.0);
    assert!(hit.context > 0.0);
    assert!(hit.semantic > 0.0);
    assert!(hit.final_score > 0.0);
    assert!(doc.tag_text.contains("legal.contract.review"));
}

#[test]
fn no_resource_type_query_prefers_tag_aligned_result() {
    let contract = sample_resource_package();
    let weather = weather_package("did:oan:SKLG:77777777777777777777777777777777");
    let packages = models(&[&weather, &contract]);
    let hits = rank(&packages, &text_query("我要审查合同风险并生成风险清单"));
    assert_eq!(packages[hits[0].index].resource_did, contract.resource_did);
    assert!(hits[0].tag > 0.0);
}

#[test]
fn equal_scores_are_ordered_by_update_and_then_by_did() {
    let mut first = sample_resource_package_with_did("did:oan:SKLG:b");
    let second = sample_resource_package_with_did("did:oan:SKLG:a");
    let third = sample_resource_package_with_did("did:oan:SKLG:c");
    first.metadata.updated_at = chrono::DateTime::from_timestamp(1_770_000_000, 0).unwrap();
    let packages = models(&[&third, &second, &first]);
    let same = vec![HitScore { order: 4, positive: true }; 3];
    let order = rank_resource_packages_semantically(&packages, &empty_query(), &same, false);
    assert_eq!(order, vec![2, 1, 0]);
    let none = vec![HitScore { order: 0, positive: false }; 3];
    let order = rank_resource_packages_semantically(&packages, &empty_query(), &none, true);
    assert!(order.is_empty());
}

// ---- results ----

#[test]
fn semantic_answers_stay_within_the_domains_and_the_limit() {
    let legal = sample_resource_package();
    let mut finance = sample_resource_package_with_did("did:oan:SKLG:3");
    set_package_authorized_domains(&mut finance, &["finance"]);
    let other = sample_resource_package_with_did("did:oan:SKLG:4");
    let hits = models(&[&legal, &finance, &other]);
    let allowed = strings(&["legal"]);
    let answers = semantic_discovery_candidates(&hits, &vec![3, 9, 5], &allowed, 10);
    assert_eq!(answers, vec![2, 0]);
    let answers = semantic_discovery_candidates(&hits, &vec![3, 9, 5], &allowed, 1);
    assert_eq!(answers, vec![2]);
}

#[test]
fn keyword_answers_are_ranked_shown_and_cut() {
    let first = sample_resource_package();
    let second = sample_resource_package_with_did("did:oan:SKLG:2");
    let third = sample_resource_package_with_did("did:oan:SKLG:3");
    let packages = models(&[&first, &second, &third]);
    let scores = vec![
        HitScore { order: 0, positive: false },
        HitScore { order: 4, positive: true },
        HitScore { order: 7, positive: true },
    ];
    let query = text_query("contract");
    let allowed = strings(&["legal"]);
    let shown = |prefiltered: bool, has_terms: bool, query: &ResourceDiscoveryQuery| {
        keyword_discovery_candidates(
            &packages,
            query,
            &scores,
            has_terms,
            prefiltered,
            &allowed,
        )
    };
    assert_eq!(shown(false, true, &query), vec![2, 1]);
    assert_eq!(shown(false, false, &query), vec![2, 1]);
    assert_eq!(shown(true, false, &query), vec![2, 1, 0]);
    let one = ResourceDiscoveryQuery { limit: 1, ..text_query("contract") };
    assert_eq!(shown(true, false, &one), vec![2]);
}

#[test]
fn keyword_answers_are_of_searched_types_and_covered() {
    let legal = sample_resource_package();
    let mut finance = sample_resource_package_with_did("did:oan:SKLG:2");
    set_package_authorized_domains(&mut finance, &["finance"]);
    let mut packages = models(&[&legal, &finance, &legal]);
    packages[2].resource_type = ResourceType::Organization;
    assert_eq!(searched_packages(&packages, &empty_query()), vec![0, 1]);
    let scores = vec![HitScore { order: 4, positive: true }; 3];
    let answers = keyword_discovery_candidates(
        &packages,
        &empty_query(),
        &scores,
        true,
        false,
        &strings(&["legal"]),
    );
    assert!(!answers.contains(&1));
    assert!(answers.contains(&0));
    let none = keyword_discovery_candidates(
        &packages,
        &empty_query(),
        &scores,
        true,
        false,
        &strings(&["health"]),
    );
    assert!(none.is_empty());
}

#[test]
fn semantic_answers_among_hybrid_hits_meet_the_query() {
    let legal = sample_resource_package();
    let mut finance = sample_resource_package_with_did("did:oan:SKLG:2");
    set_package_authorized_domains(&mut finance, &["finance"]);
    let mut packages = models(&[&legal, &finance, &legal]);
    packages[2].resource_type = ResourceType::ToolApi;
    let query =
        ResourceDiscoveryQuery { resource_type: Some(ResourceType::Skill), ..empty_query() };
    let hits = hybrid_semantic_hits(&packages, &query, &vec![1, 2, 3]);
    assert_eq!(hits, vec![1, 0]);
    let chosen = models(&[&finance, &legal]);
    let answers =
        semantic_discovery_candidates(&chosen, &vec![9, 8], &strings(&["legal"]), query.limit);
    assert_eq!(answers, vec![1]);
}

#[test]
fn resource_query_returns_resource_candidates_without_agent_fields() {
    let packages = models(&[&sample_resource_package()]);
    let query = ResourceDiscoveryQuery {
        resource_type: Some(ResourceType::Skill),
        ..text_query("contract")
    };
    let kept = filter_packages_for_local_discovery(&packages, &strings(&["*"]));
    assert_eq!(kept, vec![0]);
    let hits = rank(&packages, &query);
    assert_eq!(hits.len(), 1);
    let candidate = discovery_candidate_from_package(model(&sample_resource_package()));
    assert_eq!(candidate.resource_did, resource_did());
    assert_eq!(candidate.version.as_deref(), Some("1"));
}

#[test]
fn resource_query_supports_chinese_natural_language_without_type() {
    let contract = sample_resource_package();
    let weather = weather_package("did:oan:SKLG:66666666666666666666666666666666");
    let packages = models(&[&weather, &contract]);
    let hits = rank(&packages, &text_query("我需要审查合同风险并生成风险清单"));
    assert!(!hits.is_empty());
    assert_eq!(packages[hits[0].index].resource_did, contract.resource_did);
}

#[test]
fn resource_query_treats_complete_did_as_exact_lookup() {
    let target = sample_resource_package();
    let mut other =
        sample_resource_package_with_did("did:oan:MCDM:33333333333333333333333333333333");
    other.resource_type = oan_core::ResourceType::McpServer;
    let packages = models(&[&target, &other]);
    let all = strings(&["*"]);
    let query = ResourceDiscoveryQuery {
        resource_type: Some(ResourceType::Skill),
        ..text_query(&target.resource_did)
    };
    let did = discovery_node::query::query_resource_did(&query).unwrap();
    let at = find_package(&packages, &did).unwrap();
    assert_eq!(at, 0);
    assert!(resource_matches_exact_did_query(&packages[at], &query));
    let candidate = exact_did_result(Some(model(&target)), &query, &all).unwrap();
    assert_eq!(candidate.resource_did, target.resource_did);

    let query = ResourceDiscoveryQuery {
        resource_type: Some(ResourceType::Skill),
        ..text_query("did:oan:MCDM:33333333333333333333333333333333")
    };
    assert!(exact_did_result(Some(model(&other)), &query, &strings(&["legal"])).is_none());

    let mut out_of_scope =
        sample_resource_package_with_did("did:oan:SKLG:77777777777777777777777777777777");
    set_package_authorized_domains(&mut out_of_scope, &["finance"]);
    let query = text_query(&out_of_scope.resource_did);
    assert!(exact_did_result(Some(model(&out_of_scope)), &query, &strings(&["legal"])).is_none());
    assert!(exact_did_result(None, &query, &all).is_none());
}

#[test]
fn resource_query_without_type_searches_only_user_consumable_resources_by_default() {
    let skill = sample_resource_package();
    let mut node =
        sample_resource_package_with_did("did:oan:AGDS:33333333333333333333333333333333");
    set_package_type(&mut node, oan_core::ResourceType::InfrastructureNode);
    let packages = models(&[&skill, &node]);
    assert_eq!(searched_packages(&packages, &empty_query()), vec![0]);
    let query = ResourceDiscoveryQuery {
        resource_type: Some(ResourceType::InfrastructureNode),
        ..empty_query()
    };
    assert_eq!(searched_packages(&packages, &query), vec![0, 1]);
}

#[test]
fn route_lookup_and_index_stats_are_resource_based() {
    let package = sample_resource_package();
    let packages = models(&[&package]);
    let at = find_package(&packages, &package.resource_did).unwrap();
    assert_eq!(packages[at].resource_type.as_str(), "skill");
    let counts = index_counts(&packages);
    assert_eq!(counts.indexed_resource_count, 1);
    assert_eq!(counts.resource_type_counts.len(), 1);
    assert_eq!(counts.resource_type_counts[0].name, "skill");
    assert_eq!(counts.resource_type_counts[0].count, 1);
    assert_eq!(counts.capability_tag_counts[0].name, "legal.contract.review");
}

#[test]
fn index_counts_add_up_to_the_packages() {
    let skill = sample_resource_package();
    let other = sample_resource_package_with_did("did:oan:SKLG:2");
    let mut packages = models(&[&skill, &other, &skill]);
    packages[1].resource_type = ResourceType::ToolApi;
    let counts = index_counts(&packages);
    let types: Vec<(&str, usize)> =
        counts.resource_type_counts.iter().map(|one| (one.name.as_str(), one.count)).collect();
    assert_eq!(types, vec![("skill", 2), ("tool_api", 1)]);
    let tags: usize = packages.iter().map(|one| one.metadata.capability_tags.len()).sum();
    let counted: usize = counts.capability_tag_counts.iter().map(|one| one.count).sum();
    assert_eq!(counted, tags);
}

#[test]
fn api_index_stats_reuses_short_lived_cache() {
    assert!(index_counts_are_fresh(0));
    assert!(index_counts_are_fresh(500_000_000));
    assert!(!index_counts_are_fresh(500_000_001));
    assert!(!index_counts_are_fresh(550_000_000));
}

#[test]
fn api_query_explain_uses_resource_query_contract() {
    let package = model(&sample_resource_package());
    let query = ResourceDiscoveryQuery {
        resource_type: Some(ResourceType::Skill),
        capability_tags: strings(&["legal.contract.review"]),
        protocol: Some("https".to_owned()),
        limit: 10,
        ..text_query("contract")
    };
    let explanation = explain_keyword_hit(&package, &query, true);
    assert!(explanation.matched);
    assert_eq!(explanation.capability_tag_overlap, strings(&["legal.contract.review"]));
    assert_eq!(explanation.resource_type_matched, Some(true));
    assert_eq!(explanation.protocol_matched, Some(true));
    let explanation = explain_semantic_hit(&package, &query);
    assert!(explanation.matched);
    assert!(keyword_hit_is_shown(true, false, &query));
    assert!(!keyword_hit_is_shown(false, false, &query));
}

#[test]
fn resource_query_filters_indexed_packages_outside_discovery_grant() {
    let legal = sample_resource_package();
    let mut finance =
        sample_resource_package_with_did("did:oan:SKLG:33333333333333333333333333333333");
    set_package_authorized_domains(&mut finance, &["finance"]);
    let packages = models(&[&legal, &finance]);
    let kept = filter_packages_for_local_discovery(&packages, &strings(&["legal"]));
    assert_eq!(kept, vec![0]);
    assert_eq!(packages[0].metadata.authorized_domains, strings(&["legal"]));
}

#[test]
fn resource_query_accepts_empty_query_with_structured_filters() {
    let mut legal = sample_resource_package();
    set_package_tags(&mut legal, &["legal.contract.review", "risk.analysis"]);
    let mut finance =
        sample_resource_package_with_did("did:oan:SKLG:44444444444444444444444444444444");
    set_package_tags(&mut finance, &["finance.invoice.audit"]);
    let packages = models(&[&legal, &finance]);
    let query = ResourceDiscoveryQuery {
        resource_type: Some(ResourceType::Skill),
        capability_tags: strings(&["legal.contract.review", "risk.analysis"]),
        protocol: Some("https".to_owned()),
        ..empty_query()
    };
    let hits = rank(&packages, &query);
    assert_eq!(hits.len(), 1);
    assert_eq!(packages[hits[0].index].resource_did, legal.resource_did);
}

#[test]
fn resource_query_reports_no_candidates_for_indexed_mismatch() {
    let packages = models(&[&sample_resource_package()]);
    let query = ResourceDiscoveryQuery {
        resource_type: Some(ResourceType::McpServer),
        capability_tags: strings(&["legal.contract.review"]),
        protocol: Some("https".to_owned()),
        ..text_query("contract")
    };
    assert!(rank(&packages, &query).is_empty());
}

#[test]
fn sqlite_query_prefilter_falls_back_to_api_equivalent_filtering() {
    let packages = models(&[&sample_resource_package()]);
    let query = ResourceDiscoveryQuery {
        query: Some("contract".to_owned()),
        resource_type: Some(ResourceType::Skill),
        capability_tags: strings(&["legal.contract.review"]),
        protocol: Some("https".to_owned()),
        version: Some("1".to_owned()),
        version_mode: "exact".to_owned(),
        limit: 10,
    };
    assert_eq!(rank(&packages, &query).len(), 1);
}

// ---- the index ----

#[test]
fn sqlite_resource_index_upsert_replaces_existing_package() {
    let mut first = sample_resource_package();
    first.metadata.description = "first".to_owned();
    let mut second = first.clone();
    second.metadata.description = "second".to_owned();
    let indexed = models(&[&first]);
    let kept = untouched_by_update(&indexed, &vec![second.resource_did.clone()]);
    assert!(kept.is_empty());
}

#[test]
fn sqlite_resource_index_batch_upsert_indexes_multiple_packages() {
    let first = sample_resource_package();
    let second_did = "did:oan:SKLG:6HkPq7Vm3RdT9Ya2WcX8Ns4Bf6GjLeZu";
    let second = sample_resource_package_with_did(second_did);
    let batch = vec![(1, model(&first)), (2, model(&second))];
    let latest = latest_resource_packages_by_did(&batch);
    assert_eq!(latest, vec![0, 1]);
    let packages = models(&[&first, &second]);
    assert_eq!(find_package(&packages, second_did), Some(1));
}

#[test]
fn sqlite_resource_index_batch_upsert_keeps_latest_duplicate_did() {
    let mut first = sample_resource_package();
    first.package_version = "1.0.0".to_owned();
    let mut second = first.clone();
    second.package_version = "1.1.0".to_owned();
    let batch = vec![(10, model(&first)), (11, model(&second))];
    let latest = latest_resource_packages_by_did(&batch);
    assert_eq!(latest, vec![1]);
    assert_eq!(batch[latest[0]].1.package_version, "1.1.0");
    let batch = vec![(11, model(&second)), (10, model(&first))];
    assert_eq!(latest_resource_packages_by_did(&batch), vec![0]);
    let batch = vec![(10, model(&first)), (10, model(&second))];
    assert_eq!(latest_resource_packages_by_did(&batch), vec![1]);
}

#[test]
fn updated_packages_are_found_after_the_untouched_ones() {
    let other = sample_resource_package_with_did("did:oan:SKLG:6HkPq7Vm3RdT9Ya2WcX8Ns4Bf6GjLeZu");
    let mut first = sample_resource_package();
    first.package_version = "1.0.0".to_owned();
    let mut second = first.clone();
    second.package_version = "1.1.0".to_owned();
    let mut third = first.clone();
    third.package_version = "1.2.0".to_owned();
    let indexed = [&first, &other];
    let entries = [(12, &third), (11, &second)];
    let batch = vec![(12, model(&third)), (11, model(&second))];
    let latest = latest_resource_packages_by_did(&batch);
    let updated = vec![first.resource_did.clone()];
    let kept = untouched_by_update(&models(&indexed), &updated);
    assert_eq!(kept, vec![1]);
    let mut after: Vec<&oan_package::ResourcePackage> =
        kept.iter().map(|at| indexed[*at]).collect();
    after.extend(latest.iter().map(|at| entries[*at].1));
    let at = find_package(&models(&after), &first.resource_did).unwrap();
    assert_eq!(after[at].package_version, "1.2.0");
}

#[test]
fn database_index_count_and_point_lookup_do_not_require_full_scan() {
    let package = sample_resource_package();
    let packages = models(&[&package]);
    assert_eq!(index_counts(&packages).indexed_resource_count, 1);
    assert_eq!(find_package(&packages, &package.resource_did), Some(0));
    assert_eq!(find_package(&packages, "did:oan:SKLG:not-found"), None);
}

#[test]
fn api_index_resource_visibility_returns_only_indexed_dids() {
    let package = sample_resource_package();
    let packages = models(&[&package]);
    let wanted = vec![package.resource_did.clone(), "did:oan:SKLG:not-found".to_owned()];
    assert_eq!(
        indexed_resource_visibility(&packages, &wanted),
        vec![package.resource_did.clone()]
    );
}

// ---- synchronisation ----

fn notice(package: &oan_package::ResourcePackage, cursor: i64) -> DiscoveryNotificationItem {
    DiscoveryNotificationItem {
        resource_did: package.resource_did.clone(),
        package_version: package.package_version.clone(),
        publication_cursor: cursor,
        package_hash: package.package_hash.clone(),
        metadata_hash: package.metadata_hash.clone(),
        did_document_hash: package.did_document_hash.clone(),
        resource_type: Some("skill".to_owned()),
        capability_tags: package.metadata.capability_tags.clone(),
        authorized_domains: package.metadata.authorized_domains.clone(),
    }
}

fn request(hint: i64, items: Vec<DiscoveryNotificationItem>) -> DiscoverySyncRequest {
    DiscoverySyncRequest { max_publications: Some(10), cursor_hint: Some(hint), items }
}

#[test]
fn sync_resources_from_authorized_summary_fetches_only_notified_items() {
    let package = sample_resource_package();
    let request = request(7, vec![notice(&package, 7)]);
    let plan = plan_sync(&request, 0).unwrap();
    assert_eq!(plan.candidates, vec![0]);
    let outcome = sync_resources_from_cdn_items(
        &request.items,
        &plan,
        &vec![Some(published(&package))],
        &strings(&["*"]),
    );
    assert_eq!(outcome.accepted, vec![0]);
    assert!(outcome.rejected.is_empty());
    assert_eq!(outcome.fetched_count, 1);
    assert_eq!(outcome.cursor, 7);
}

#[test]
fn sync_resources_from_authorized_summary_indexes_current_package_for_stale_hash_notice() {
    let package = sample_resource_package();
    let mut item = notice(&package, 9);
    item.package_hash = "sha256:bad".to_owned();
    item.metadata_hash = "sha256:bad".to_owned();
    item.did_document_hash = "sha256:bad".to_owned();
    assert!(judge_notice(&item, &Some(published(&package)), &strings(&["*"])).is_none());
}

#[test]
fn sync_resources_from_authorized_summary_indexes_current_cdn_package_for_stale_notice() {
    let package = sample_resource_package();
    let mut item = notice(&package, 9);
    item.package_version = "1.0.0".to_owned();
    item.package_hash = "sha256:older".to_owned();
    item.metadata_hash = "sha256:older".to_owned();
    item.did_document_hash = "sha256:older".to_owned();
    let request = request(9, vec![item]);
    let plan = plan_sync(&request, 0).unwrap();
    let outcome = sync_resources_from_cdn_items(
        &request.items,
        &plan,
        &vec![Some(published(&package))],
        &strings(&["*"]),
    );
    assert_eq!(outcome.accepted, vec![0]);
    assert!(outcome.rejected.is_empty());
}

#[test]
fn sync_resources_from_authorized_summary_drops_same_batch_rejection_for_accepted_did() {
    let package = sample_resource_package();
    let mut stale = notice(&package, 8);
    stale.capability_tags = strings(&["stale-tag"]);
    let request = request(9, vec![stale, notice(&package, 9)]);
    let plan = plan_sync(&request, 0).unwrap();
    let fetched = vec![Some(published(&package)), Some(published(&package))];
    let outcome =
        sync_resources_from_cdn_items(&request.items, &plan, &fetched, &strings(&["*"]));
    assert_eq!(outcome.accepted.len(), 1);
    assert!(outcome.rejected.is_empty());
}

#[test]
fn sync_resources_from_authorized_summary_rejects_authorized_domains_mismatch() {
    let package = sample_resource_package();
    let mut item = notice(&package, 9);
    item.authorized_domains = strings(&["finance"]);
    let request = request(9, vec![item]);
    let plan = plan_sync(&request, 0).unwrap();
    let outcome = sync_resources_from_cdn_items(
        &request.items,
        &plan,
        &vec![Some(published(&package))],
        &strings(&["*"]),
    );
    assert!(outcome.accepted.is_empty());
    assert_eq!(outcome.rejected.len(), 1);
    assert_eq!(outcome.rejected[0].reason, "authorized_domains_mismatch");
}

#[test]
fn sync_resources_from_authorized_summary_rejects_missing_authorized_domains_item() {
    let package = sample_resource_package();
    let mut item = notice(&package, 9);
    item.authorized_domains = vec![];
    assert_eq!(
        judge_notice(&item, &Some(published(&package)), &strings(&["*"])).as_deref(),
        Some("resource_domains_required")
    );
}

#[test]
fn sync_resources_from_authorized_summary_rejects_domains_outside_discovery_grant() {
    let mut package = sample_resource_package();
    set_package_authorized_domains(&mut package, &["finance"]);
    assert_eq!(
        judge_notice(&notice(&package, 9), &Some(published(&package)), &strings(&["legal"]))
            .as_deref(),
        Some("unauthorized_domains")
    );
}

#[test]
fn sync_resources_from_authorized_summary_skips_unavailable_package_without_blocking() {
    let first = sample_resource_package_with_did("did:oan:SKLG:11111111111111111111111111111111");
    let third = sample_resource_package_with_did("did:oan:SKLG:33333333333333333333333333333333");
    let mut missing = notice(&first, 2);
    missing.resource_did = "did:oan:SKLG:22222222222222222222222222222222".to_owned();
    missing.capability_tags = vec![];
    missing.authorized_domains = vec![];
    let request = request(3, vec![notice(&first, 1), missing, notice(&third, 3)]);
    let plan = plan_sync(&request, 0).unwrap();
    let fetched = vec![Some(published(&first)), None, Some(published(&third))];
    let outcome =
        sync_resources_from_cdn_items(&request.items, &plan, &fetched, &strings(&["*"]));
    assert_eq!(outcome.accepted, vec![0, 2]);
    assert_eq!(outcome.rejected.len(), 1);
    assert_eq!(outcome.rejected[0].reason, "resource_package_unavailable");
    assert_eq!(outcome.cursor, 3);
    assert_eq!(outcome.blocked_cursor, Some(2));
}

#[test]
fn notices_must_name_the_package_they_announce() {
    let package = sample_resource_package();
    let current = model(&package);
    let mut item = notice(&package, 1);
    item.resource_did = "did:oan:SKLG:other".to_owned();
    assert_eq!(
        validate_notified_resource_package(&item, &current).unwrap_err(),
        "resource_did_mismatch"
    );
    let mut item = notice(&package, 1);
    item.resource_type = Some("tool_api".to_owned());
    assert_eq!(
        validate_notified_resource_package(&item, &current).unwrap_err(),
        "resource_type_mismatch"
    );
    let mut item = notice(&package, 1);
    item.capability_tags = strings(&["other.tag"]);
    assert_eq!(
        validate_notified_resource_package(&item, &current).unwrap_err(),
        "capability_tags_mismatch"
    );
    let mut item = notice(&package, 1);
    item.authorized_domains = strings(&["legal."]);
    assert_eq!(
        validate_notified_resource_package(&item, &current).unwrap_err(),
        "invalid_authorized_domains"
    );
}

#[test]
fn sync_needs_items_and_passes_old_cursors() {
    let package = sample_resource_package();
    assert!(plan_sync(&request(7, vec![]), 3).is_err());
    let request = request(7, vec![notice(&package, 2), notice(&package, 7), notice(&package, 5)]);
    let plan = plan_sync(&request, 4).unwrap();
    assert_eq!(plan.start_cursor, 4);
    assert_eq!(plan.target_cursor, 7);
    let cursors: Vec<i64> = plan
        .candidates
        .iter()
        .map(|index| request.items[*index].publication_cursor)
        .collect();
    assert_eq!(cursors, vec![5, 7]);
    let faults = vec![Some("broken".to_owned()), Some("broken".to_owned())];
    let outcome = settle_sync(&request.items, &plan, &faults);
    assert_eq!(outcome.cursor, 7);
    assert_eq!(outcome.cursor_lag, 0);
    assert_eq!(outcome.blocked_cursor, Some(5));
    assert_eq!(outcome.rejected.len(), 2);
}

// ---- rejected packages ----

fn record(did: &str, cursor: i64, reason: &str) -> JsonValue {
    model_json(&object(&[
        ("resourceDid", Value::from(did)),
        ("cursor", Value::from(cursor)),
        ("reason", Value::from(reason)),
    ]))
}

#[test]
fn accepted_package_upsert_clears_old_rejections_for_same_did() {
    let package = sample_resource_package();
    let rejected = vec![
        record(&package.resource_did, 7, "package_version_mismatch"),
        record("did:oan:SKLG:other", 8, "package_hash_mismatch"),
    ];
    assert_eq!(records_without_dids(&rejected, &vec![package.resource_did.clone()]), vec![1]);
}

#[test]
fn resolved_historical_rejection_audit_is_dry_run_by_default() {
    let package = sample_resource_package();
    let visible = visible_package_dids(&models(&[&package]), &strings(&["*"]));
    let rejected = vec![record(&package.resource_did, 7, "package_hash_mismatch")];
    let outcome = audit_resolved_rejected_packages(&rejected, &visible, true, None, &vec![]);
    assert_eq!(outcome.status, "audited");
    assert_eq!(outcome.resolved.len(), 1);
    assert!(outcome.deleted_keys.is_empty());
    assert_eq!(records_without_keys(&rejected, &outcome.deleted_keys), vec![0]);
}

#[test]
fn resolved_historical_rejection_cleanup_deletes_only_visible_mismatches() {
    let package = sample_resource_package();
    let visible = visible_package_dids(&models(&[&package]), &strings(&["*"]));
    let rejected = vec![
        record(&package.resource_did, 7, "capability_tags_mismatch"),
        record(&package.resource_did, 8, "unauthorized_domains"),
        record("did:oan:SKLG:not-visible", 9, "package_version_mismatch"),
    ];
    let outcome = audit_resolved_rejected_packages(&rejected, &visible, false, None, &vec![]);
    assert_eq!(outcome.status, "cleaned");
    assert_eq!(outcome.deleted_keys.len(), 1);
    assert_eq!(records_without_keys(&rejected, &outcome.deleted_keys), vec![1, 2]);
}

#[test]
fn backfill_rejected_packages_indexes_transiently_unavailable_package() {
    let missing = sample_resource_package_with_did("did:oan:SKLG:22222222222222222222222222222222");
    let item = notice(&missing, 2);
    assert_eq!(
        judge_notice(&item, &None, &strings(&["*"])).as_deref(),
        Some("resource_package_unavailable")
    );
    let rejected = vec![record(&missing.resource_did, 2, "resource_package_unavailable")];
    let plan = plan_rejected_backfill(&rejected, Some(10), &vec![]);
    assert_eq!(plan.attempts, vec![0]);
    let verdict = judge_retry(
        &missing.resource_did,
        &RetryFetch::Fetched(published(&missing)),
        &strings(&["*"]),
    );
    assert!(matches!(verdict, RetryVerdict::Recovered));
    let outcome = settle_rejected_backfill(&rejected, &plan, &vec![verdict]);
    assert_eq!(outcome.recovered.len(), 1);
    assert_eq!(outcome.recovered[0].resource_did, missing.resource_did);
    assert_eq!(outcome.recovered[0].cursor, 2);
    assert_eq!(outcome.accepted, vec![0]);
    let after = rejected_after_retry(&rejected, &outcome);
    assert!(after.kept.is_empty());
    assert!(after.added.is_empty());
}

#[test]
fn backfill_rejected_packages_leaves_non_transient_rejections_untouched() {
    let rejected = vec![record("did:oan:SKLG:not-transient", 7, "unauthorized_domains")];
    let plan = plan_rejected_backfill(&rejected, Some(10), &vec![]);
    assert!(plan.attempts.is_empty());
    let outcome = settle_rejected_backfill(&rejected, &plan, &vec![]);
    assert!(outcome.recovered.is_empty());
    let after = rejected_after_retry(&rejected, &outcome);
    assert_eq!(after.kept, vec![0]);
    assert!(after.added.is_empty());
}

#[test]
fn a_retry_keeps_the_other_records_beside_its_replacements() {
    let rejected = vec![
        record("did:oan:SKLG:a", 1, "unauthorized_domains"),
        record("did:oan:SKLG:b", 2, "resource_package_unavailable"),
        record("did:oan:SKLG:c", 3, "resource_package_unavailable"),
    ];
    let plan = plan_rejected_backfill(&rejected, None, &vec![]);
    let verdicts =
        vec![RetryVerdict::Rejected("resource_not_active".to_owned()), RetryVerdict::Missing];
    let outcome = settle_rejected_backfill(&rejected, &plan, &verdicts);
    let after = rejected_after_retry(&rejected, &outcome);
    assert_eq!(after.kept, vec![0, 2]);
    assert_eq!(after.added.len(), 1);
    assert_eq!(after.added[0].resource_did, "did:oan:SKLG:b");
    assert_eq!(after.added[0].cursor, 2);
    assert_eq!(after.added[0].reason, "resource_not_active");
}

#[test]
fn a_synchronisation_keeps_the_records_of_other_keys() {
    let rejected = vec![
        record("did:oan:SKLG:a", 1, "unauthorized_domains"),
        record("did:oan:SKLG:b", 2, "resource_package_unavailable"),
        record("did:oan:SKLG:b", 5, "resource_not_active"),
    ];
    let rejections = vec![Rejection {
        resource_did: "did:oan:SKLG:b".to_owned(),
        cursor: 2,
        reason: "unauthorized_domains".to_owned(),
    }];
    let after = rejected_after_sync(&rejected, &rejections);
    assert_eq!(after.kept, vec![0, 2]);
    assert_eq!(after.added[0].reason, "unauthorized_domains");
    assert_eq!(rejected_after_sync(&rejected, &vec![]).kept, vec![0, 1, 2]);
}

#[test]
fn backfill_rejected_packages_replaces_transient_reason_with_validation_reason() {
    let mut package =
        sample_resource_package_with_did("did:oan:SKLG:22222222222222222222222222222222");
    set_package_authorized_domains(&mut package, &["blocked"]);
    let rejected = vec![record(&package.resource_did, 2, "resource_package_unavailable")];
    let plan = plan_rejected_backfill(&rejected, Some(10), &vec![]);
    let verdict = judge_retry(
        &package.resource_did,
        &RetryFetch::Fetched(published(&package)),
        &strings(&["legal"]),
    );
    let outcome = settle_rejected_backfill(&rejected, &plan, &vec![verdict]);
    assert!(outcome.recovered.is_empty());
    assert_eq!(outcome.failed.len(), 1);
    assert_eq!(outcome.replacements.len(), 1);
    assert_eq!(outcome.replacements[0].reason, "unauthorized_domains");
    let key = rejected_package_key(&record(
        &outcome.replacements[0].resource_did,
        outcome.replacements[0].cursor,
        "",
    ));
    assert_eq!(key, rejected_package_key(&rejected[0]));
}

#[test]
fn retries_that_fail_keep_their_record() {
    let rejected = vec![
        record("did:oan:SKLG:a", 1, "resource_package_unavailable"),
        record("did:oan:SKLG:b", 2, "resource_package_unavailable"),
    ];
    let plan = plan_rejected_backfill(&rejected, None, &vec![]);
    assert_eq!(plan.attempts, vec![0, 1]);
    let verdicts = vec![
        judge_retry("did:oan:SKLG:a", &RetryFetch::Missing, &strings(&["*"])),
        judge_retry("did:oan:SKLG:b", &RetryFetch::Failed("down".to_owned()), &strings(&["*"])),
    ];
    let outcome = settle_rejected_backfill(&rejected, &plan, &verdicts);
    assert_eq!(outcome.failed.len(), 2);
    assert!(outcome.failed[1].error.is_some());
    assert!(outcome.resolved_keys.is_empty());
    let one = plan_rejected_backfill(&rejected, Some(1), &vec![]);
    assert_eq!(one.attempts.len(), 1);
    let chosen = plan_rejected_backfill(&rejected, None, &strings(&["did:oan:SKLG:b"]));
    assert_eq!(chosen.attempts, vec![1]);
}

// ---- rebuilding the semantic indexes ----

#[test]
fn semantic_rebuild_reports_disabled_when_pgvector_is_unavailable() {
    let report = unavailable_report(
        SemanticRebuildStage::Both,
        "json",
        &Some("semantic_disabled".to_owned()),
    );
    assert!(!report.semantic_enabled);
    assert_eq!(report.package_count, 0);
    assert_eq!(report.context_indexed_count, 0);
    assert_eq!(report.intent_indexed_count, 0);
    assert!(report.skipped_reason.is_some());
}

#[test]
fn semantic_rebuild_report_is_not_safe_to_delete_old_indexes_for_stage_runs() {
    let run = start_rebuild(&vec![], None, 4, &vec![]);
    let rows = IndexedRows { contexts: Some(3), intents: None };
    let report = rebuild_report(&run, SemanticRebuildStage::Context, "postgres", rows);
    assert_eq!(report.stage, "context");
    assert!(!report.safe_to_delete_old_indexes);
    assert_eq!(report.context_indexed_count, 3);
    assert_eq!(report.intent_indexed_count, 0);
    let report = rebuild_report(&run, SemanticRebuildStage::Both, "postgres", rows);
    assert!(report.safe_to_delete_old_indexes);
}

#[test]
fn only_active_consumable_packages_are_embedded() {
    let skill = sample_resource_package();
    let mut node = sample_resource_package_with_did("did:oan:AGDS:3");
    set_package_type(&mut node, oan_core::ResourceType::InfrastructureNode);
    let mut revoked = sample_resource_package_with_did("did:oan:SKLG:3");
    revoked.metadata.lifecycle_state = "revoked".to_owned();
    let last = sample_resource_package_with_did("did:oan:SKLG:4");
    let packages = models(&[&skill, &node, &revoked, &last]);
    let embedded = packages_to_embed(&packages);
    assert_eq!(embedded.len(), 2);
    assert_eq!((embedded[0].index, embedded[0].cursor), (0, 1));
    assert_eq!((embedded[1].index, embedded[1].cursor), (3, 4));
}

#[test]
fn rebuild_stores_throttles_and_skips_batches() {
    let cursors: Vec<i64> = vec![1, 2, 4, 5, 9];
    let mut run = start_rebuild(&cursors, None, 2, &vec![]);
    assert_eq!(next_batch(&run), Some((0, 2)));
    let action = after_batch(&mut run, &cursors, &BatchOutcome::Stored);
    assert!(matches!(action, RebuildAction::RecordProgress));
    assert_eq!(run.last_cursor, Some(2));
    assert_eq!(next_batch(&run), Some((2, 4)));
    let slow = BatchOutcome::Failed("embedding request timed out".to_owned());
    let action = after_batch(&mut run, &cursors, &slow);
    assert!(matches!(action, RebuildAction::RecordThrottle));
    assert_eq!(action.phase(), "throttled");
    assert_eq!((run.batch_size, run.retries, run.index), (1, 1, 2));
    let action = after_batch(&mut run, &cursors, &slow);
    assert!(matches!(action, RebuildAction::RecordSkips(2, 3)));
    assert_eq!(run.last_cursor, Some(4));
    assert_eq!(run.skipped_packages, 1);
    let progress = progress_record(&run, SemanticRebuildStage::Both, action.phase());
    assert_eq!(progress.phase, "skip");
    assert_eq!((progress.processed, progress.total), (3, 5));
    after_batch(&mut run, &cursors, &BatchOutcome::Stored);
    after_batch(&mut run, &cursors, &BatchOutcome::Stored);
    assert_eq!(next_batch(&run), None);
    let rows = IndexedRows { contexts: Some(4), intents: Some(20) };
    let report = rebuild_report(&run, SemanticRebuildStage::Both, "postgres", rows);
    assert_eq!(report.phase, "completed-with-skips");
    assert!(!report.safe_to_delete_old_indexes);
    assert_eq!(report.package_count, 5);
    assert_eq!(report.last_cursor, Some(9));
}

#[test]
fn a_failed_batch_skips_all_its_packages() {
    let cursors: Vec<i64> = vec![1, 2, 3];
    let mut run = start_rebuild(&cursors, None, 0, &vec![]);
    assert_eq!(run.batch_size, 1);
    run = start_rebuild(&cursors, None, 8, &vec![]);
    let broken = BatchOutcome::Failed("dimension mismatch".to_owned());
    let action = after_batch(&mut run, &cursors, &broken);
    assert!(matches!(action, RebuildAction::RecordSkips(0, 3)));
    assert_eq!(run.skipped_packages, 3);
    assert_eq!(run.last_cursor, Some(1));
    assert_eq!(next_batch(&run), None);
}

#[test]
fn rebuild_resumes_behind_the_last_cursor() {
    let cursors: Vec<i64> = vec![1, 2, 4, 5];
    let run = start_rebuild(&cursors, Some(2), 2, &vec![1, 4]);
    assert_eq!(run.index, 2);
    assert_eq!(run.skipped_packages, 1);
    let run = start_rebuild(&cursors, Some(3), 2, &vec![1, 4]);
    assert_eq!(run.index, 0);
    assert_eq!(run.skipped_packages, 0);
}

#[test]
fn a_resumed_rebuild_is_not_safe_while_skips_are_recorded() {
    let cursors: Vec<i64> = vec![1, 2, 3, 4];
    let mut first = start_rebuild(&cursors, None, 2, &vec![]);
    assert!(starts_afresh(&first));
    let broken = BatchOutcome::Failed("dimension mismatch".to_owned());
    after_batch(&mut first, &cursors, &broken);
    after_batch(&mut first, &cursors, &BatchOutcome::Stored);
    assert_eq!(next_batch(&first), None);
    let recorded: Vec<i64> = vec![1, 2];
    let next = start_rebuild(&cursors, first.last_cursor, 2, &recorded);
    assert!(!starts_afresh(&next));
    assert_eq!(next_batch(&next), None);
    let rows = IndexedRows { contexts: None, intents: None };
    let report = rebuild_report(&next, SemanticRebuildStage::Both, "postgres", rows);
    assert!(!report.safe_to_delete_old_indexes);
    assert_eq!(report.skipped_packages, 2);

    let mut last = start_rebuild(&cursors, None, 2, &vec![]);
    after_batch(&mut last, &cursors, &BatchOutcome::Stored);
    after_batch(&mut last, &cursors, &broken);
    let mut next = start_rebuild(&cursors, last.last_cursor, 2, &vec![3, 4]);
    assert_eq!(next_batch(&next), Some((3, 4)));
    after_batch(&mut next, &cursors, &BatchOutcome::Stored);
    assert_eq!(resolved_by_batch(&vec![3, 4], &cursors, 3, 4), vec![4]);
    let report = rebuild_report(&next, SemanticRebuildStage::Both, "postgres", rows);
    assert!(!report.safe_to_delete_old_indexes);
    assert_eq!(report.skipped_packages, 1);
}

fn skip(did: &str, cursor: i64) -> SemanticRebuildSkipRecord {
    SemanticRebuildSkipRecord {
        stage: "both".to_owned(),
        resource_did: did.to_owned(),
        cursor,
        reason: "failed".to_owned(),
        updated_at: String::new(),
    }
}

#[test]
fn skipped_packages_are_tried_again() {
    let package = sample_resource_package();
    let packages = models(&[&package]);
    let records = vec![skip(&package.resource_did, 0), skip("did:oan:SKLG:gone", 7)];
    let attempts = plan_skip_backfill(&records, &packages);
    assert_eq!(attempts.len(), 1);
    assert_eq!((attempts[0].record, attempts[0].package, attempts[0].cursor), (0, 0, 1));
    let rows = IndexedRows { contexts: None, intents: None };
    let report = skip_backfill_report(
        SemanticRebuildStage::Both,
        "postgres",
        records.len(),
        &attempts,
        &vec![None],
        rows,
    );
    assert_eq!(report.phase, "backfilled");
    assert_eq!((report.recovered_packages, report.skipped_packages), (1, 1));
    assert!(!report.safe_to_delete_old_indexes);
    assert_eq!(report.last_cursor, Some(1));
    let report = skip_backfill_report(
        SemanticRebuildStage::Both,
        "postgres",
        1,
        &attempts,
        &vec![Some("down".to_owned())],
        rows,
    );
    assert_eq!((report.recovered_packages, report.skipped_packages, report.retries), (0, 1, 1));
    let report =
        skip_backfill_report(SemanticRebuildStage::Both, "postgres", 0, &vec![], &vec![], rows);
    assert_eq!(report.phase, "completed");
    assert!(report.safe_to_delete_old_indexes);
}

#[test]
fn unchanged_documents_are_not_embedded_again() {
    let first = document_of(&model(&sample_resource_package()), 1);
    let second = document_of(&model(&weather_package("did:oan:SKLG:4")), 2);
    let stored = vec![
        StoredHash { resource_did: first.resource_did.clone(), hash: "sha256:old".to_owned() },
        StoredHash {
            resource_did: first.resource_did.clone(),
            hash: first.semantic_source_hash.clone(),
        },
    ];
    let docs = vec![first, second];
    assert_eq!(contexts_to_write(SemanticRebuildStage::Both, &docs, &stored), vec![1]);
    assert_eq!(contexts_to_write(SemanticRebuildStage::Context, &docs, &vec![]), vec![0, 1]);
    assert!(contexts_to_write(SemanticRebuildStage::Intent, &docs, &vec![]).is_empty());
}

#[test]
fn default_configuration_leaves_semantic_search_off() {
    assert!(!SemanticSearchConfig::default().enabled);
}
