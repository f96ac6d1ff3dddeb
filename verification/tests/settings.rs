//! Text, tokens, domains, queries, and what the node is configured with.

use discovery_node::config::{
    after_index_preparation, after_provider_check, begin_semantic_runtime,
    check_semantic_dimension, debug_export_pause_ms, runtime_without_postgres,
    semantic_embedding_version, semantic_rebuild_progress_key,
    semantic_rebuild_skip_key, semantic_rebuild_skip_prefix, semantic_search_available,
    semantic_status, DebugConfig, DiscoverySearchEngine, EmbeddingProviderKind, RuntimeStep,
    SemanticEmbeddingConfig, SemanticRebuildStage, SemanticRuntimeState, SemanticSearchConfig,
};
use discovery_node::document::{
    bounded_embedding_text, json_example_to_text, text_of_structured_example,
};
use discovery_node::domains::{
    authorized_domain_covers, authorized_domains_cover, discovery_authorization_status,
    discovery_authorized_domains, validate_authorized_domain_list,
};
use discovery_node::index::list_parts;
use discovery_node::json::JsonValue;
use discovery_node::ordering::{sort_and_dedup, sort_indices, text_before, DescendingKey};
use discovery_node::package::{CryptoSuite, ExampleValue, ResourceDiscoveryQuery, ResourceType};
use discovery_node::provider::{
    check_embedding_answer, check_embedding_health, embedding_bucket_counts, embedding_endpoint,
    embedding_health_endpoint, is_embedding_timeout_error, validate_embedding_vector,
    HttpEmbeddingAnswer, HttpEmbeddingHealth,
};
use discovery_node::query::{
    discovery_sql_candidate_limit, discovery_sql_candidate_limit_for_query, keyword_search_plan,
    query_resource_did, semantic_candidate_limit, should_use_sql_text_prefilter, text_has_cjk,
    vector_search_plan, KeywordOrder,
};
use discovery_node::ranking::{bm25_statistics, token_counts, weighted_token_similarity};
use discovery_node::rejected::{
    is_resolvable_historical_reject_reason, rejected_package_key, rejected_package_resource_did,
    resolvable_historical_reject_reasons,
};
use discovery_node::results::{
    count_within, explanation_source, first_expected_rank, order_and_cut, result_source,
    semantic_match_reason, MatchSignals, ResultSource, SemanticOutcome,
};
use discovery_node::seed::invalid_seed_package;
use discovery_node::startup::{
    cdn_base, cdn_resource_url, check_key_file, crypto_suite_from_algorithm,
    discovery_backend_name, parse_semantic_cli_args, resolve_database_url, resolve_relative,
    storage_backend, strip_bom, StorageBackend,
};
use discovery_node::suggestions::{query_suggestions, Recommender, SuggestionRequest};
use discovery_node::text::{take_chars, text_contains, trim_text};
use discovery_node::tokens::{
    normalize_semantic_token, semantic_alias_catalog, semantic_tokens,
    semantic_tokens_without_alias_expansion, technical_semantic_tokens, Lexicon,
    SemanticAliasGroup,
};
use discovery_node::words::{
    decimal_text, normalize_semantic_text, push_unique_texts, signed_decimal_text,
};

fn strings(values: &[&str]) -> Vec<String> {
    values.iter().map(|value| (*value).to_owned()).collect()
}

fn alias_groups() -> Vec<SemanticAliasGroup> {
    vec![
        SemanticAliasGroup {
            canonical: "document.analysis".to_owned(),
            terms: strings(&["合同", "审查", "contract review", "document analysis"]),
        },
        SemanticAliasGroup {
            canonical: "security.risk".to_owned(),
            terms: strings(&["风险", "risk"]),
        },
        SemanticAliasGroup {
            canonical: "mcp.protocol".to_owned(),
            terms: strings(&["MCP", "Model Context Protocol"]),
        },
    ]
}

fn query(text: Option<&str>) -> ResourceDiscoveryQuery {
    ResourceDiscoveryQuery {
        query: text.map(str::to_owned),
        resource_type: None,
        capability_tags: vec![],
        protocol: None,
        version: None,
        version_mode: "latest".to_owned(),
        limit: 10,
    }
}

fn text(value: &str) -> JsonValue {
    JsonValue::Text(value.to_owned())
}

fn object(members: Vec<(&str, JsonValue)>) -> JsonValue {
    JsonValue::Object(
        members.into_iter().map(|(name, value)| (name.to_owned(), value)).collect(),
    )
}

// ---- tokens ----

#[test]
fn semantic_alias_catalog_supports_chinese_and_english_query_terms() {
    let lexicon = Lexicon::new(&alias_groups());
    let tokens = semantic_tokens(&lexicon, "我想审查合同风险并输出风险清单");
    assert!(tokens.iter().any(|token| token == "document.analysis"));
    assert!(tokens.iter().any(|token| token == "security.risk"));

    let english_tokens = semantic_tokens(&lexicon, "find a model context protocol server");
    assert!(english_tokens.iter().any(|token| token == "mcp.protocol"));
}

#[test]
fn catalogs_list_longer_terms_first() {
    let catalog = semantic_alias_catalog(&alias_groups());
    let lengths: Vec<usize> =
        catalog.phrase_to_canonical.iter().map(|(term, _)| term.chars().count()).collect();
    assert!(lengths.windows(2).all(|pair| pair[0] >= pair[1]));
    assert!(catalog
        .phrase_to_canonical
        .contains(&("model context protocol".to_owned(), "mcp.protocol".to_owned())));
}

#[test]
fn chinese_text_is_segmented_into_words() {
    let lexicon = Lexicon::new(&vec![]);
    let tokens = semantic_tokens_without_alias_expansion(&lexicon, "审查合同风险");
    assert!(tokens.contains(&"合同".to_owned()));
    assert!(tokens.contains(&"风险".to_owned()));
}

#[test]
fn technical_tokens_keep_their_punctuation() {
    let tokens = technical_semantic_tokens("Call legal.contract.review now");
    assert!(tokens.contains(&"legal.contract.review".to_owned()));
    assert_eq!(normalize_semantic_token("Risk"), "risk");
}

#[test]
fn lower_case_covers_letters_beyond_ascii() {
    assert_eq!(normalize_semantic_token("ÄRZTE"), "ärzte");
}

// ---- text ----

#[test]
fn text_is_normalised_once_and_for_all() {
    let once = normalize_semantic_text("  Find\t a\n  contract\u{3000}risk ");
    assert_eq!(once, "Find a contract risk");
    assert_eq!(normalize_semantic_text(&once), once);
    assert_eq!(normalize_semantic_text(" \n"), "");
}

#[test]
fn unique_texts_keep_their_first_occurrence() {
    let mut values = strings(&["a b"]);
    push_unique_texts(&mut values, &strings(&["a  b", "", "c", "c", "d"]), 4);
    assert_eq!(values, strings(&["a b", "c"]));
}

#[test]
fn numbers_are_written_in_decimal() {
    assert_eq!(decimal_text(0), "0");
    assert_eq!(decimal_text(10_480), "10480");
    assert_eq!(signed_decimal_text(-7), "-7");
    assert_eq!(signed_decimal_text(i64::MIN), i64::MIN.to_string());
}

#[test]
fn texts_are_trimmed_cut_and_searched() {
    assert_eq!(trim_text("\u{a0} a b \u{2003}"), "a b");
    assert_eq!(take_chars("合同风险", 2), "合同");
    assert!(text_contains("legal.contract", ".con"));
    assert!(!text_contains("legal", "legals"));
}

#[test]
fn texts_are_ordered_as_strings_are() {
    assert!(text_before("a", "ab"));
    assert!(text_before("Z", "a"));
    assert!(text_before("z", "é"));
    assert!(!text_before("b", "b"));
    assert_eq!(sort_and_dedup(&strings(&["b", "a", "b"])), strings(&["a", "b"]));
    let keys = vec![
        DescendingKey { value: 1 },
        DescendingKey { value: 3 },
        DescendingKey { value: 1 },
    ];
    assert_eq!(sort_indices(&keys), vec![1, 0, 2]);
}

#[test]
fn examples_become_texts() {
    assert_eq!(
        json_example_to_text(&ExampleValue::Text("  a   b ".to_owned())).as_deref(),
        Some("a b")
    );
    let structured = ExampleValue::Structured("{ \"task\" : \"Review\" }".to_owned());
    assert_eq!(json_example_to_text(&structured).as_deref(), Some("{\"task\":\"Review\"}"));
    assert_eq!(json_example_to_text(&ExampleValue::Structured("{".to_owned())), None);
    assert_eq!(json_example_to_text(&ExampleValue::Scalar("7".to_owned())), None);
    assert_eq!(json_example_to_text(&ExampleValue::Text(" ".to_owned())), None);
    assert_eq!(text_of_structured_example("[1,2]").as_deref(), Some("[1,2]"));
}

#[test]
fn embedded_text_is_bounded() {
    assert_eq!(bounded_embedding_text("合同风险审查", 4), "合同风险");
    assert_eq!(bounded_embedding_text("short", 100), "short");
}

// ---- domains ----

#[test]
fn discovery_authorization_status_reports_revoked_or_active() {
    let did = "did:oan:AGDS:5HkPq7Vm3RdT9Ya2WcX8Ns4Bf6GjLeZu";
    let bulletin = object(vec![(
        "events",
        JsonValue::Array(vec![object(vec![
            ("subjectDid", text(did)),
            ("eventType", text("DISCOVERY_NODE_REVOKED")),
        ])]),
    )]);
    assert_eq!(discovery_authorization_status(&bulletin, did), "revoked");
    let empty = object(vec![("events", JsonValue::Array(vec![]))]);
    assert_eq!(discovery_authorization_status(&empty, did), "active");
}

#[test]
fn discovery_authorized_domains_defaults_to_empty_and_uses_latest_update() {
    let did = "did:oan:AGDS:5HkPq7Vm3RdT9Ya2WcX8Ns4Bf6GjLeZu";
    let empty = object(vec![("events", JsonValue::Array(vec![]))]);
    assert_eq!(discovery_authorized_domains(&empty, did), Vec::<String>::new());
    let update = |domain: &str| {
        object(vec![
            ("subjectDid", text(did)),
            ("eventType", text("DISCOVERY_NODE_DOMAINS_UPDATED")),
            (
                "payload",
                object(vec![("authorizedDomains", JsonValue::Array(vec![text(domain)]))]),
            ),
        ])
    };
    let bulletin = object(vec![(
        "events",
        JsonValue::Array(vec![update("finance"), update("legal")]),
    )]);
    assert_eq!(discovery_authorized_domains(&bulletin, did), strings(&["legal"]));
}

#[test]
fn granted_domains_cover_their_subdomains() {
    assert!(authorized_domain_covers("legal", "legal.contract"));
    assert!(!authorized_domain_covers("legal", "legality"));
    assert!(!authorized_domain_covers("*", "legal"));
    assert!(authorized_domains_cover(&strings(&["*"]), &strings(&["legal", "finance"])));
    assert!(!authorized_domains_cover(&strings(&["*"]), &[]));
    assert!(authorized_domain_covers("legal", "legal"));
    assert!(!authorized_domain_covers("finance", "legal"));
    assert!(authorized_domains_cover(&strings(&["legal", "finance"]), &strings(&["finance"])));
    assert!(!authorized_domains_cover(&[], &strings(&["finance"])));
    assert!(validate_authorized_domain_list(&strings(&["legal"])).is_ok());
    assert!(validate_authorized_domain_list(&strings(&["finance", "legal.contract"])).is_ok());
    assert!(validate_authorized_domain_list(&strings(&["*"])).is_ok());
    for wrong in [
        vec!["*", "legal"],
        vec![""],
        vec![" legal"],
        vec!["legal..contract"],
        vec![".legal"],
        vec!["legal."],
        vec!["legal", "finance"],
        vec!["legal", "legal"],
    ] {
        assert_eq!(
            validate_authorized_domain_list(&strings(&wrong)).unwrap_err(),
            "invalid_authorized_domains"
        );
    }
}

// ---- configuration ----

#[test]
fn semantic_filter_defaults_keep_explicit_metadata_as_hard_constraints() {
    let config = SemanticSearchConfig::default();

    assert_eq!(config.filters.resource_type, "hard");
    assert_eq!(config.filters.capability_tags, "hard");
    assert_eq!(config.filters.protocol, "hard");
}

#[test]
fn semantic_candidate_limit_respects_headroom_and_caps() {
    let config = SemanticSearchConfig {
        candidate_multiplier: 8,
        max_candidates: 500,
        ..SemanticSearchConfig::default()
    };
    assert_eq!(semantic_candidate_limit(0, &config), 25);
    assert_eq!(semantic_candidate_limit(1, &config), 25);
    assert_eq!(semantic_candidate_limit(10, &config), 80);
    assert_eq!(semantic_candidate_limit(100, &config), 500);
}

#[test]
fn discovery_sql_candidate_limit_is_bounded_for_query_pushdown() {
    assert_eq!(discovery_sql_candidate_limit(0), 25);
    assert_eq!(discovery_sql_candidate_limit(1), 25);
    assert_eq!(discovery_sql_candidate_limit(10), 30);
    assert_eq!(discovery_sql_candidate_limit(100), 300);
    assert_eq!(discovery_sql_candidate_limit(1_000), 3_000);
    assert_eq!(discovery_sql_candidate_limit(10_000), 10_000);
}

#[test]
fn discovery_sql_candidate_limit_expands_when_text_prefilter_is_unavailable() {
    let mut query = query(Some("合同风险审查"));
    assert!(!should_use_sql_text_prefilter(&query));
    assert_eq!(discovery_sql_candidate_limit_for_query(&query), 500);

    query.query = Some("contract risk review".to_owned());
    assert!(should_use_sql_text_prefilter(&query));
    assert_eq!(discovery_sql_candidate_limit_for_query(&query), 30);
}

#[test]
fn semantic_status_is_disabled_by_default_for_json_storage() {
    let config = SemanticSearchConfig::default();
    let state = SemanticRuntimeState::disabled("semantic_disabled", &config);
    let status = semantic_status(&config, &state, true, Some("test_fallback".to_owned()));

    assert!(!status.diagnostics.enabled);
    assert!(!status.diagnostics.healthy);
    assert_eq!(status.diagnostics.fallback_reason.as_deref(), Some("test_fallback"));
    assert_eq!(status.resource_type_filter, "hard");
}

#[test]
fn semantic_engine_and_embedding_provider_have_explicit_extension_points() {
    let mut config = SemanticSearchConfig { enabled: true, ..SemanticSearchConfig::default() };
    assert_eq!(
        DiscoverySearchEngine::from_config(&config).unwrap(),
        DiscoverySearchEngine::PgVector
    );
    assert_eq!(
        EmbeddingProviderKind::from_config(&config.embedding).unwrap(),
        EmbeddingProviderKind::DeterministicLocal
    );
    let counts = embedding_bucket_counts(&Lexicon::new(&alias_groups()), "contract risk", 16);
    assert!(counts.iter().any(|count| *count > 0));

    config.engine = "grail".to_owned();
    assert!(DiscoverySearchEngine::from_config(&config)
        .unwrap_err()
        .contains("grail_engine_not_implemented"));
    config.engine = "other".to_owned();
    assert!(DiscoverySearchEngine::from_config(&config).is_err());
    config.embedding.provider = "other".to_owned();
    assert!(EmbeddingProviderKind::from_config(&config.embedding).is_err());
}

fn http_config() -> SemanticEmbeddingConfig {
    SemanticEmbeddingConfig {
        provider: "http-embedding".to_owned(),
        endpoint: Some("http://127.0.0.1:9/embed".to_owned()),
        health_endpoint: Some("http://127.0.0.1:9/health".to_owned()),
        model_name: "gte-multilingual-base".to_owned(),
        model_version: Some("test-revision".to_owned()),
        strict_model_version: true,
        dtype: Some("q8".to_owned()),
        dimension: 4,
        ..SemanticEmbeddingConfig::default()
    }
}

fn health() -> HttpEmbeddingHealth {
    HttpEmbeddingHealth {
        model: "gte-multilingual-base".to_owned(),
        embedding_version: Some("test-revision".to_owned()),
        dtype: Some("q8".to_owned()),
        dimension: 4,
        ready: true,
    }
}

#[test]
fn http_embedding_provider_validates_health_and_embeds_query_text() {
    let config = http_config();
    assert!(check_embedding_health(&config, &health()).is_ok());
    let answer = HttpEmbeddingAnswer {
        model: "gte-multilingual-base".to_owned(),
        embedding_version: "test-revision".to_owned(),
        dtype: Some("q8".to_owned()),
        dimension: 4,
    };
    assert!(check_embedding_answer(&config, &answer).is_ok());
    assert!(validate_embedding_vector(4, true, 4).is_ok());
    assert_eq!(embedding_endpoint(&config).unwrap(), "http://127.0.0.1:9/embed");
    assert_eq!(embedding_health_endpoint(&config).unwrap(), "http://127.0.0.1:9/health");
}

#[test]
fn http_embedding_provider_rejects_dtype_mismatch() {
    let wrong = HttpEmbeddingHealth { dtype: Some("fp32".to_owned()), ..health() };
    let error = check_embedding_health(&http_config(), &wrong).unwrap_err();
    assert!(error.contains("http_embedding_dtype_mismatch:fp32"));
}

#[test]
fn each_fault_of_a_provider_is_named() {
    let config = http_config();
    let error = |health: HttpEmbeddingHealth| {
        check_embedding_health(&config, &health).unwrap_err()
    };
    assert_eq!(
        error(HttpEmbeddingHealth { ready: false, ..health() }),
        "http_embedding_provider_not_ready"
    );
    assert!(error(HttpEmbeddingHealth { model: "other".to_owned(), ..health() })
        .contains("model"));
    assert!(error(HttpEmbeddingHealth { dimension: 8, ..health() }).contains("dimension"));
    assert!(error(HttpEmbeddingHealth { embedding_version: None, ..health() })
        .contains("version"));
    assert_eq!(
        error(HttpEmbeddingHealth { dtype: None, ..health() }),
        "http_embedding_dtype_missing"
    );
    assert_eq!(
        validate_embedding_vector(3, true, 4).unwrap_err(),
        "embedding_dimension_mismatch:3:4"
    );
    assert_eq!(
        validate_embedding_vector(4, false, 4).unwrap_err(),
        "embedding_vector_contains_non_finite_value"
    );
    let bare = SemanticEmbeddingConfig::default();
    assert_eq!(embedding_endpoint(&bare).unwrap_err(), "http_embedding_endpoint_required");
    assert_eq!(
        embedding_health_endpoint(&bare).unwrap_err(),
        "http_embedding_health_endpoint_required"
    );
}

#[test]
fn unavailable_http_embedding_provider_disables_semantic_runtime() {
    let config = SemanticSearchConfig {
        enabled: true,
        embedding: http_config(),
        ..SemanticSearchConfig::default()
    };
    assert!(matches!(begin_semantic_runtime(&config), RuntimeStep::CheckProvider));
    let step = after_provider_check(&config, &Err("connection refused".to_owned()), false);
    let RuntimeStep::Settled(state) = step else {
        panic!("the check failed");
    };
    assert!(!semantic_search_available(&config, &state, false));
    let status = semantic_status(&config, &state, true, Some("keyword_fallback".to_owned()));
    assert!(!status.diagnostics.enabled);
    assert!(!status.diagnostics.healthy);
    assert_eq!(status.embedding_provider, "http-embedding");
    assert_eq!(status.diagnostics.embedding_model, "gte-multilingual-base");
    assert!(status.diagnostics.fallback_used);
    assert!(!status.diagnostics.fallback_reason.unwrap().is_empty());
}

#[test]
fn semantic_runtime_needs_a_database_and_an_index() {
    let config = SemanticSearchConfig { enabled: true, ..SemanticSearchConfig::default() };
    let RuntimeStep::Settled(state) = after_provider_check(&config, &Ok(()), false) else {
        panic!("there is no database");
    };
    assert_eq!(state.fallback_reason.as_deref(), Some("semantic_search_requires_postgres"));
    assert!(matches!(
        after_provider_check(&config, &Ok(()), true),
        RuntimeStep::PrepareIndex(DiscoverySearchEngine::PgVector)
    ));
    let failed = after_index_preparation(&config, &Err("no extension".to_owned()));
    assert_eq!(
        failed.fallback_reason.as_deref(),
        Some("semantic_initialization_failed:no extension")
    );
    let running = after_index_preparation(&config, &Ok(()));
    assert!(semantic_search_available(&config, &running, true));
    assert_eq!(running.embedding_version, semantic_embedding_version(&config));
    let without = runtime_without_postgres(&config);
    assert_eq!(without.fallback_reason.as_deref(), Some("semantic_search_requires_postgres"));
    assert!(check_semantic_dimension(4096).is_ok());
    for wrong in [0, 4097] {
        assert_eq!(
            check_semantic_dimension(wrong).unwrap_err(),
            "invalid_semantic_embedding_dimension"
        );
    }
    let off = SemanticSearchConfig::default();
    assert_eq!(
        runtime_without_postgres(&off).fallback_reason.as_deref(),
        Some("semantic_disabled")
    );
    assert!(matches!(begin_semantic_runtime(&off), RuntimeStep::Settled(_)));
}

#[test]
fn deterministic_embedding_is_stable_and_normalized() {
    let lexicon = Lexicon::new(&alias_groups());
    let embed = |text: &str| -> Vec<f32> {
        let counts = embedding_bucket_counts(&lexicon, text, 16);
        let norm = counts.iter().map(|count| (*count * *count) as f32).sum::<f32>().sqrt();
        counts.iter().map(|count| *count as f32 / norm).collect()
    };
    let first = embed("contract risk review");
    let second = embed("contract risk review");
    let unrelated = embed("weather forecast");

    assert_eq!(first, second);
    assert_ne!(first, unrelated);
    let norm = first.iter().map(|value| value * value).sum::<f32>().sqrt();
    assert!((norm - 1.0).abs() < 0.0001);
    assert_eq!(first.len(), 16);
}

#[test]
fn tokens_fall_into_the_bucket_of_their_hash() {
    let lexicon = Lexicon::new(&vec![]);
    let counts = embedding_bucket_counts(&lexicon, "weather", 7);
    let hash = oan_crypto::sha256_hex("weather".as_bytes());
    let bucket = usize::from_str_radix(&hash[0..8], 16).unwrap() % 7;
    assert_eq!(counts.iter().sum::<usize>(), 1);
    assert_eq!(counts[bucket], 1);
}

#[test]
fn timeouts_are_recognised_in_errors() {
    assert!(is_embedding_timeout_error("operation Timed Out"));
    assert!(is_embedding_timeout_error("request TIMEOUT"));
    assert!(!is_embedding_timeout_error("dimension mismatch"));
}

// ---- stages ----

#[test]
fn semantic_rebuild_progress_is_isolated_by_stage() {
    let context = semantic_rebuild_progress_key(SemanticRebuildStage::Context);
    let intent = semantic_rebuild_progress_key(SemanticRebuildStage::Intent);
    let both = semantic_rebuild_progress_key(SemanticRebuildStage::Both);
    assert_ne!(context, intent);
    assert_ne!(context, both);
    assert_ne!(intent, both);
    assert_eq!(SemanticRebuildStage::Context.as_str(), "context");
    assert_eq!(SemanticRebuildStage::Intent.as_str(), "intent");
}

#[test]
fn semantic_rebuild_skip_records_are_isolated_by_stage() {
    let context = semantic_rebuild_skip_key(SemanticRebuildStage::Context, 11);
    let intent = semantic_rebuild_skip_key(SemanticRebuildStage::Intent, 22);
    let context_prefix = semantic_rebuild_skip_prefix(Some(SemanticRebuildStage::Context));
    let intent_prefix = semantic_rebuild_skip_prefix(Some(SemanticRebuildStage::Intent));
    assert!(context.starts_with(&context_prefix));
    assert!(!context.starts_with(&intent_prefix));
    assert!(intent.starts_with(&intent_prefix));
    assert!(!intent.starts_with(&context_prefix));
    let all = semantic_rebuild_skip_prefix(None);
    assert!(context.starts_with(&all) && intent.starts_with(&all));
    assert!(context.ends_with("11"));
}

#[test]
fn stages_are_named_on_the_command_line() {
    for stage in
        [SemanticRebuildStage::Both, SemanticRebuildStage::Context, SemanticRebuildStage::Intent]
    {
        assert_eq!(SemanticRebuildStage::from_arg(stage.as_str()).unwrap(), stage);
    }
    assert!(SemanticRebuildStage::from_arg("all").is_err());
    let (path, stage, reset) = parse_semantic_cli_args(&strings(&[
        "semantic-rebuild",
        "my.toml",
        "--stage",
        "intent",
        "--reset",
    ]))
    .unwrap();
    assert_eq!((path.as_str(), stage, reset), ("my.toml", SemanticRebuildStage::Intent, true));
    let (path, stage, reset) =
        parse_semantic_cli_args(&strings(&["semantic-rebuild", "--stage=context"])).unwrap();
    assert_eq!(path, "services/discovery-node/config.example.toml");
    assert_eq!((stage, reset), (SemanticRebuildStage::Context, false));
    assert_eq!(
        parse_semantic_cli_args(&strings(&["semantic-rebuild", "--stage"])).unwrap_err(),
        "missing_semantic_rebuild_stage"
    );
    assert_eq!(
        parse_semantic_cli_args(&strings(&["semantic-rebuild", "--stage=x"])).unwrap_err(),
        "unsupported_semantic_rebuild_stage:x"
    );
}

#[test]
fn snapshots_pause_for_the_configured_time() {
    let config = DebugConfig { export_snapshots: true, export_interval_ms: 60_000 };
    assert_eq!(debug_export_pause_ms(&config), 60_000);
}

// ---- start ----

#[test]
fn relative_paths_are_resolved_against_the_configuration() {
    assert_eq!(resolve_relative("/etc/node", "data"), "/etc/node/data");
    assert_eq!(resolve_relative("/etc/node/", "data"), "/etc/node/data");
    assert_eq!(resolve_relative("/etc/node", "/var/data"), "/var/data");
    assert_eq!(resolve_relative("", "data"), "data");
    assert_eq!(resolve_database_url("/etc", "sqlite://node.db"), "sqlite:/etc/node.db");
    assert_eq!(resolve_database_url("/etc", "postgres://db/node"), "postgres://db/node");
    assert_eq!(strip_bom("\u{feff}{}"), "{}");
    assert_eq!(strip_bom("{}"), "{}");
}

#[test]
fn storage_follows_the_database_url() {
    assert_eq!(storage_backend(&None).unwrap(), StorageBackend::Json);
    assert_eq!(storage_backend(&Some(String::new())).unwrap(), StorageBackend::Json);
    assert_eq!(
        storage_backend(&Some("sqlite:node.db".to_owned())).unwrap(),
        StorageBackend::Sqlite
    );
    assert_eq!(
        storage_backend(&Some("postgresql://db".to_owned())).unwrap(),
        StorageBackend::Postgres
    );
    assert_eq!(
        storage_backend(&Some("sqlite://".to_owned())).unwrap_err(),
        "database path is empty"
    );
    assert_eq!(
        storage_backend(&Some("mysql://db".to_owned())).unwrap_err(),
        "unsupported database url scheme"
    );
    assert_ne!(
        discovery_backend_name(StorageBackend::Json),
        discovery_backend_name(StorageBackend::Postgres)
    );
}

#[test]
fn packages_are_fetched_under_their_encoded_did() {
    let base = cdn_base(&Some("http://cdn/".to_owned()), "http://root");
    assert_eq!(base, "http://cdn");
    assert_eq!(cdn_base(&None, "http://root//"), "http://root");
    assert_eq!(
        cdn_resource_url(&base, "did:oan:SKLG:a b"),
        "http://cdn/cdn/resources/did%3Aoan%3ASKLG%3Aa+b"
    );
}

#[test]
fn keys_are_checked_with_their_algorithm() {
    assert_eq!(crypto_suite_from_algorithm("Ed25519").unwrap(), CryptoSuite::Ed25519Sha256);
    assert_eq!(crypto_suite_from_algorithm("SM2").unwrap(), CryptoSuite::Sm2Sm3);
    assert_eq!(
        crypto_suite_from_algorithm("RSA").unwrap_err(),
        "unsupported_algorithm: RSA"
    );
    let key = "AAECAwQFBgcICQoLDA0ODxAREhMUFRYXGBkaGxwdHh8";
    assert!(check_key_file("Ed25519", key).is_ok());
    assert_eq!(check_key_file("Ed25519", "AAEC").unwrap_err(), "invalid signing key");
    assert!(check_key_file("Ed25519", "not base64!").is_err());
    assert!(check_key_file("RSA", key).is_err());
}

// ---- queries ----

#[test]
fn complete_dids_are_recognised_in_queries() {
    let did = "did:oan:SKLG:5HkPq7Vm3RdT9Ya2WcX8Ns4Bf6GjLeZu";
    assert_eq!(query_resource_did(&query(Some(did))).as_deref(), Some(did));
    assert_eq!(query_resource_did(&query(Some("find did:oan things"))), None);
    assert_eq!(query_resource_did(&query(None)), None);
}

#[test]
fn searches_are_planned_from_queries() {
    let lexicon = Lexicon::new(&alias_groups());
    assert!(text_has_cjk("审查"));
    assert!(!text_has_cjk("review"));
    let plan = keyword_search_plan(&lexicon, &query(None));
    assert!(matches!(plan.order, KeywordOrder::ByUpdate));
    assert_eq!(
        plan.resource_types,
        strings(&["agent_service", "skill", "mcp_server", "tool_api"])
    );
    let narrowed = ResourceDiscoveryQuery {
        resource_type: Some(ResourceType::ToolApi),
        protocol: Some("HTTPS".to_owned()),
        ..query(Some("contract risk"))
    };
    let plan = keyword_search_plan(&lexicon, &narrowed);
    assert_eq!(plan.resource_types, strings(&["tool_api"]));
    assert_eq!(plan.protocol.as_deref(), Some("https"));
    let config = SemanticSearchConfig { enabled: true, ..SemanticSearchConfig::default() };
    assert!(vector_search_plan(false, &narrowed, &config).is_none());
    assert!(vector_search_plan(true, &query(None), &config).is_none());
    let plan = vector_search_plan(true, &narrowed, &config).unwrap();
    assert_eq!(plan.resource_types, strings(&["tool_api"]));
    assert!(plan.text.contains("contract risk"));
}

// ---- scores and results ----

#[test]
fn tokens_are_counted_and_compared() {
    let lexicon = Lexicon::new(&vec![]);
    let counts = token_counts(&strings(&["a", "b", "a"]));
    let a = counts.iter().find(|entry| entry.token == "a").unwrap();
    assert_eq!((counts.len(), a.count), (2, 2));
    let overlap =
        weighted_token_similarity(&lexicon, &strings(&["risk", "weather"]), "risk checklist");
    assert_eq!((overlap.matched, overlap.total), (1, 2));
    let documents = vec![strings(&["risk", "risk", "list"]), strings(&["risk"])];
    let statistics =
        bm25_statistics(&strings(&["risk", "risk", "list"]), &documents, 0).unwrap();
    assert_eq!(statistics.lengths, vec![3, 1]);
    assert_eq!(statistics.terms.len(), 2);
    assert_eq!(
        (statistics.terms[0].frequency, statistics.terms[0].document_frequency),
        (2, 2)
    );
    assert_eq!(
        (statistics.terms[1].frequency, statistics.terms[1].document_frequency),
        (1, 1)
    );
    assert!(bm25_statistics(&vec![], &documents, 0).is_none());
    assert!(bm25_statistics(&strings(&["risk"]), &documents, 2).is_none());
}

#[test]
fn results_come_from_semantic_search_where_it_found_some() {
    assert_eq!(result_source(&SemanticOutcome::Found(2)), ResultSource::Semantic);
    assert_eq!(result_source(&SemanticOutcome::Found(0)), ResultSource::Keyword);
    assert_eq!(result_source(&SemanticOutcome::Unavailable), ResultSource::Keyword);
    assert_eq!(result_source(&SemanticOutcome::Failed), ResultSource::Keyword);
    assert_eq!(
        explanation_source(false, &SemanticOutcome::Found(2)),
        ResultSource::Keyword
    );
}

#[test]
fn results_are_ordered_and_cut() {
    assert_eq!(order_and_cut(&vec![3, 9, 3, 7], 3), vec![1, 3, 0]);
    assert_eq!(order_and_cut(&vec![3, 9], 10), vec![1, 0]);
    assert!(order_and_cut(&vec![3, 9], 0).len() <= 2);
}

#[test]
fn matches_are_explained() {
    let none = MatchSignals {
        lexical: false,
        tags: false,
        context: false,
        intent: false,
        structured: false,
    };
    let some = MatchSignals { lexical: true, intent: true, ..none };
    assert_ne!(semantic_match_reason(&none), semantic_match_reason(&some));
}

#[test]
fn recall_counts_ranks_within_a_window() {
    let returned = strings(&["a", "b", "c"]);
    assert_eq!(first_expected_rank(&returned, &strings(&["c", "b"])), Some(2));
    assert_eq!(first_expected_rank(&returned, &strings(&["x"])), None);
    let ranks = vec![Some(1), None, Some(6), Some(5)];
    assert_eq!(count_within(&ranks, 5), 2);
    assert_eq!(count_within(&ranks, 10), 3);
}

#[test]
fn lists_are_cut_into_parts() {
    let parts = list_parts(250, 100);
    let bounds: Vec<(usize, usize)> = parts.iter().map(|part| (part.from, part.to)).collect();
    assert_eq!(bounds, vec![(0, 100), (100, 200), (200, 250)]);
    assert!(list_parts(0, 100).is_empty());
}

#[test]
fn rejections_have_keys() {
    let item = object(vec![
        ("resourceDid", text("did:oan:SKLG:a")),
        ("cursor", JsonValue::Integer(7)),
    ]);
    assert_eq!(rejected_package_resource_did(&item), "did:oan:SKLG:a");
    assert!(rejected_package_key(&item).contains("did:oan:SKLG:a"));
    for reason in resolvable_historical_reject_reasons() {
        assert!(is_resolvable_historical_reject_reason(&reason));
    }
    assert!(!is_resolvable_historical_reject_reason("unauthorized_domains"));
    assert_eq!(
        invalid_seed_package("did:oan:SKLG:a", "resource_not_active"),
        "invalid_seed_package:did:oan:SKLG:a:resource_not_active"
    );
}

#[test]
fn suggestions_need_three_characters() {
    let recommender = Recommender::new().unwrap();
    let request = |query: &str| SuggestionRequest {
        query: query.to_owned(),
        current_resource_type: Some(ResourceType::Skill),
        current_protocol: Some("https".to_owned()),
        current_capability_tags: vec![],
        locale: None,
    };
    let did = "did:oan:AGDS:5HkPq7Vm3RdT9Ya2WcX8Ns4Bf6GjLeZu";
    let domains = strings(&["*"]);
    assert_eq!(
        query_suggestions(&recommender, &request(" ab "), did, &domains).unwrap_err(),
        "invalid request: query must contain at least three characters"
    );
    let suggestions =
        query_suggestions(&recommender, &request("review contract risks"), did, &domains).unwrap();
    let value: serde_json::Value = serde_json::from_str(&suggestions).unwrap();
    let types = value["resourceTypes"].as_array().unwrap();
    assert!(types.iter().any(|candidate| candidate["value"] == "skill"));
    assert!(value["capabilityTags"].as_array().unwrap().len() <= 12);
    assert!(value["authorizedDomainHints"].as_array().unwrap().len() <= 8);
}
