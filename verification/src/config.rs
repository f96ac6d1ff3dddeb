//! Configuration of semantic search, the command line, and the checks on the
//! embedding provider that decide whether semantic search runs.

use vstd::prelude::*;

use crate::text::{
    law_text_starts_and_ends_with_its_parts, optional_text, same_text, starts_with,
};
use crate::words::{
    decimal, decimal_text, law_decimal_denotes_the_number, signed_decimal, signed_decimal_text,
};

verus! {

/// The interval between two debug snapshots, in milliseconds.
pub fn default_debug_export_interval_ms() -> (value: u64)
    ensures
        value == 2_000,
{
    2_000
}

/// The default of switches that are on.
pub fn default_true() -> (value: bool)
    ensures
        value,
{
    true
}

/// The default engine of semantic search.
pub fn default_semantic_engine() -> (value: String)
    ensures
        value@ == "pgvector"@,
{
    "pgvector".to_owned()
}

/// The default search where semantic search does not run.
pub fn default_semantic_fallback() -> (value: String)
    ensures
        value@ == "keyword"@,
{
    "keyword".to_owned()
}

/// The default mode of semantic search.
pub fn default_semantic_mode() -> (value: String)
    ensures
        value@ == "hybrid"@,
{
    "hybrid".to_owned()
}

/// How many candidates are read for each result, by default.
pub fn default_semantic_candidate_multiplier() -> (value: u32)
    ensures
        value == 8,
{
    8
}

/// How many candidates are read at most, by default.
pub fn default_semantic_max_candidates() -> (value: u32)
    ensures
        value == 500,
{
    500
}

/// Whether queries are explained by semantic search, by default.
pub fn default_semantic_explain_enabled() -> (value: bool)
    ensures
        value,
{
    true
}

/// The default embedding provider.
pub fn default_semantic_embedding_provider() -> (value: String)
    ensures
        value@ == "deterministic-local"@,
{
    "deterministic-local".to_owned()
}

/// The default embedding model.
pub fn default_semantic_embedding_model() -> (value: String)
    ensures
        value@ == "oan-deterministic-local-v1"@,
{
    "oan-deterministic-local-v1".to_owned()
}

/// The default dimension of embeddings.
pub fn default_semantic_dimension() -> (value: usize)
    ensures
        value == 64,
{
    64
}

/// How long an embedding may take, in milliseconds, by default.
pub fn default_semantic_embedding_timeout_ms() -> (value: u64)
    ensures
        value == 2_000,
{
    2_000
}

/// How many packages a rebuild embeds at a time, by default.
pub fn default_semantic_embedding_batch_size() -> (value: usize)
    ensures
        value == 32,
{
    32
}

/// How many characters of a text are embedded, by default.
pub fn default_semantic_embedding_max_input_chars() -> (value: usize)
    ensures
        value == 6_000,
{
    6_000
}

/// The version of a package made of an evaluation seed, by default.
pub fn default_semantic_evaluation_package_version() -> (value: String)
    ensures
        value@ == "1"@,
{
    "1".to_owned()
}

/// How a query's resource type filters, by default.
pub fn default_semantic_resource_type_filter() -> (value: String)
    ensures
        value@ == "hard"@,
{
    "hard".to_owned()
}

/// How a query's capability tags filter, by default.
pub fn default_semantic_capability_tags_filter() -> (value: String)
    ensures
        value@ == "hard"@,
{
    "hard".to_owned()
}

/// How a query's protocol filters, by default.
pub fn default_semantic_protocol_filter() -> (value: String)
    ensures
        value@ == "hard"@,
{
    "hard".to_owned()
}

/// How often snapshots are written for debugging.
#[derive(Clone, Debug)]
pub struct DebugConfig {
    pub export_snapshots: bool,
    pub export_interval_ms: u64,
}

impl Default for DebugConfig {
    fn default() -> (config: Self)
        ensures
            !config.export_snapshots,
            config.export_interval_ms == 2_000,
    {
        DebugConfig {
            export_snapshots: false,
            export_interval_ms: default_debug_export_interval_ms(),
        }
    }
}

/// The time between two debug snapshots: a tenth of a second at least.
pub fn debug_export_pause_ms(config: &DebugConfig) -> (pause: u64)
    ensures
        pause == if config.export_interval_ms < 100 {
            100
        } else {
            config.export_interval_ms
        },
{
    if config.export_interval_ms < 100 {
        100
    } else {
        config.export_interval_ms
    }
}

/// Where embeddings come from.
#[derive(Clone, Debug)]
pub struct SemanticEmbeddingConfig {
    pub provider: String,
    pub endpoint: Option<String>,
    pub health_endpoint: Option<String>,
    pub model_path: Option<String>,
    pub model_name: String,
    pub model_version: Option<String>,
    pub strict_model_version: bool,
    pub dtype: Option<String>,
    pub dimension: usize,
    pub timeout_ms: u64,
    pub batch_size: usize,
    pub max_input_chars: usize,
}

/// Whether an embedding configuration is the default one.
pub open spec fn is_default_embedding(config: SemanticEmbeddingConfig) -> bool {
    &&& config.provider@ == "deterministic-local"@
    &&& config.endpoint is None
    &&& config.health_endpoint is None
    &&& config.model_path is None
    &&& config.model_name@ == "oan-deterministic-local-v1"@
    &&& config.model_version is None
    &&& !config.strict_model_version
    &&& config.dtype is None
    &&& config.dimension == 64
    &&& config.timeout_ms == 2_000
    &&& config.batch_size == 32
    &&& config.max_input_chars == 6_000
}

impl Default for SemanticEmbeddingConfig {
    fn default() -> (config: Self)
        ensures
            is_default_embedding(config),
    {
        SemanticEmbeddingConfig {
            provider: default_semantic_embedding_provider(),
            endpoint: None,
            health_endpoint: None,
            model_path: None,
            model_name: default_semantic_embedding_model(),
            model_version: None,
            strict_model_version: false,
            dtype: None,
            dimension: default_semantic_dimension(),
            timeout_ms: default_semantic_embedding_timeout_ms(),
            batch_size: default_semantic_embedding_batch_size(),
            max_input_chars: default_semantic_embedding_max_input_chars(),
        }
    }
}

/// Which parts of a query filter semantic results.
#[derive(Clone, Debug)]
pub struct SemanticFilterConfig {
    pub resource_type: String,
    pub capability_tags: String,
    pub protocol: String,
}

/// Whether a filter configuration is the default one.
pub open spec fn is_default_filter(config: SemanticFilterConfig) -> bool {
    config.resource_type@ == "hard"@ && config.capability_tags@ == "hard"@ && config.protocol@
        == "hard"@
}

impl Default for SemanticFilterConfig {
    fn default() -> (config: Self)
        ensures
            is_default_filter(config),
    {
        SemanticFilterConfig {
            resource_type: default_semantic_resource_type_filter(),
            capability_tags: default_semantic_capability_tags_filter(),
            protocol: default_semantic_protocol_filter(),
        }
    }
}

/// The configuration of semantic search.
#[derive(Clone, Debug)]
pub struct SemanticSearchConfig {
    pub enabled: bool,
    pub engine: String,
    pub fallback: String,
    pub default_mode: String,
    pub candidate_multiplier: u32,
    pub max_candidates: u32,
    pub explain_enabled: bool,
    pub embedding: SemanticEmbeddingConfig,
    pub filters: SemanticFilterConfig,
}

impl Default for SemanticSearchConfig {
    fn default() -> (config: Self)
        ensures
            !config.enabled,
            config.engine@ == "pgvector"@,
            config.fallback@ == "keyword"@,
            config.default_mode@ == "hybrid"@,
            config.candidate_multiplier == 8,
            config.max_candidates == 500,
            config.explain_enabled,
            is_default_embedding(config.embedding),
            is_default_filter(config.filters),
    {
        SemanticSearchConfig {
            enabled: false,
            engine: default_semantic_engine(),
            fallback: default_semantic_fallback(),
            default_mode: default_semantic_mode(),
            candidate_multiplier: default_semantic_candidate_multiplier(),
            max_candidates: default_semantic_max_candidates(),
            explain_enabled: default_semantic_explain_enabled(),
            embedding: SemanticEmbeddingConfig::default(),
            filters: SemanticFilterConfig::default(),
        }
    }
}

/// The version of the embeddings: the configured one, or one made of the
/// provider and the dimension.
pub open spec fn embedding_version(config: SemanticSearchConfig) -> Seq<char> {
    match config.embedding.model_version {
        Some(version) => version@,
        None => "1:"@ + config.embedding.provider@ + ":"@ + decimal(
            config.embedding.dimension as nat,
        ),
    }
}

/// The version of the embeddings.
pub fn semantic_embedding_version(config: &SemanticSearchConfig) -> (version: String)
    ensures
        version@ == embedding_version(*config),
{
    match &config.embedding.model_version {
        Some(version) => version.clone(),
        None => {
            let mut version = "1:".to_owned();
            version.append(&config.embedding.provider);
            version.append(":");
            version.append(&decimal_text(config.embedding.dimension as u64));
            version
        },
    }
}

/// The state of semantic search while the node runs.
#[derive(Clone, Debug)]
pub struct SemanticRuntimeState {
    pub enabled: bool,
    pub healthy: bool,
    pub backend: String,
    pub fallback_reason: Option<String>,
    pub embedding_model: String,
    pub embedding_version: String,
    pub embedding_dtype: Option<String>,
    pub dimension: usize,
}

/// Whether the state is as the configuration has it, apart from whether
/// semantic search runs.
pub open spec fn describes_config(
    state: SemanticRuntimeState,
    config: SemanticSearchConfig,
) -> bool {
    &&& state.backend@ == config.engine@
    &&& state.embedding_model@ == config.embedding.model_name@
    &&& state.embedding_version@ == embedding_version(config)
    &&& optional_text(state.embedding_dtype) == optional_text(config.embedding.dtype)
    &&& state.dimension == config.embedding.dimension
}

/// Whether semantic search is off in this state, for that reason.
pub open spec fn is_off_for(
    state: SemanticRuntimeState,
    config: SemanticSearchConfig,
    reason: Seq<char>,
) -> bool {
    &&& !state.enabled
    &&& !state.healthy
    &&& optional_text(state.fallback_reason) == Some(reason)
    &&& describes_config(state, config)
}

/// Whether semantic search is on in this state.
pub open spec fn is_on(state: SemanticRuntimeState, config: SemanticSearchConfig) -> bool {
    &&& state.enabled
    &&& state.healthy
    &&& state.fallback_reason is None
    &&& describes_config(state, config)
}

impl SemanticRuntimeState {
    /// The state in which semantic search is off for `reason`.
    pub fn disabled(reason: &str, config: &SemanticSearchConfig) -> (state: Self)
        ensures
            is_off_for(state, *config, reason@),
    {
        SemanticRuntimeState {
            enabled: false,
            healthy: false,
            backend: config.engine.clone(),
            fallback_reason: Some(reason.to_owned()),
            embedding_model: config.embedding.model_name.clone(),
            embedding_version: semantic_embedding_version(config),
            embedding_dtype: config.embedding.dtype.clone(),
            dimension: config.embedding.dimension,
        }
    }

    /// The state in which semantic search runs.
    pub fn running(config: &SemanticSearchConfig) -> (state: Self)
        ensures
            is_on(state, *config),
    {
        SemanticRuntimeState {
            enabled: true,
            healthy: true,
            backend: config.engine.clone(),
            fallback_reason: None,
            embedding_model: config.embedding.model_name.clone(),
            embedding_version: semantic_embedding_version(config),
            embedding_dtype: config.embedding.dtype.clone(),
            dimension: config.embedding.dimension,
        }
    }
}

/// The stages of a rebuild of the semantic indexes.
#[derive(Clone, Copy, Debug, PartialEq, Eq, Structural)]
pub enum SemanticRebuildStage {
    Both,
    Context,
    Intent,
}

/// The name of a stage.
pub open spec fn stage_name(stage: SemanticRebuildStage) -> Seq<char> {
    match stage {
        SemanticRebuildStage::Both => "both"@,
        SemanticRebuildStage::Context => "context"@,
        SemanticRebuildStage::Intent => "intent"@,
    }
}

/// The stage of that name, where there is one.
pub open spec fn stage_of_name(name: Seq<char>) -> Option<SemanticRebuildStage> {
    if name == "both"@ {
        Some(SemanticRebuildStage::Both)
    } else if name == "context"@ {
        Some(SemanticRebuildStage::Context)
    } else if name == "intent"@ {
        Some(SemanticRebuildStage::Intent)
    } else {
        None
    }
}

impl SemanticRebuildStage {
    /// The stage of that name.
    pub fn from_arg(value: &str) -> (result: Result<Self, String>)
        ensures
            result is Ok <==> stage_of_name(value@) is Some,
            result matches Ok(stage) ==> stage_of_name(value@) == Some(stage),
            result matches Err(error) ==> error@ == "unsupported_semantic_rebuild_stage:"@ + value@,
    {
        if same_text(value, "both") {
            Ok(SemanticRebuildStage::Both)
        } else if same_text(value, "context") {
            Ok(SemanticRebuildStage::Context)
        } else if same_text(value, "intent") {
            Ok(SemanticRebuildStage::Intent)
        } else {
            let mut error = "unsupported_semantic_rebuild_stage:".to_owned();
            error.append(value);
            Err(error)
        }
    }

    /// The name of the stage.
    pub fn as_str(self) -> (name: &'static str)
        ensures
            name@ == stage_name(self),
    {
        match self {
            SemanticRebuildStage::Both => "both",
            SemanticRebuildStage::Context => "context",
            SemanticRebuildStage::Intent => "intent",
        }
    }

    /// Whether the stage rebuilds the index of resource contexts.
    pub fn includes_context(self) -> (included: bool)
        ensures
            included <==> self is Both || self is Context,
    {
        matches!(self, SemanticRebuildStage::Both | SemanticRebuildStage::Context)
    }

    /// Whether the stage rebuilds the index of intents.
    pub fn includes_intent(self) -> (included: bool)
        ensures
            included <==> self is Both || self is Intent,
    {
        matches!(self, SemanticRebuildStage::Both | SemanticRebuildStage::Intent)
    }
}

/// Every stage is found by its name.
pub proof fn law_stage_name_round_trip(stage: SemanticRebuildStage)
    ensures
        stage_of_name(stage_name(stage)) == Some(stage),
{
    reveal_strlit("both");
    reveal_strlit("context");
    reveal_strlit("intent");
    assert("both"@.len() == 4);
    assert("context"@.len() == 7);
    assert("intent"@.len() == 6);
}

/// The key under which the progress of a stage is kept.
pub fn semantic_rebuild_progress_key(stage: SemanticRebuildStage) -> (key: String)
    ensures
        key@ == "semantic_rebuild_progress:"@ + stage_name(stage),
{
    let mut key = "semantic_rebuild_progress:".to_owned();
    key.append(stage.as_str());
    key
}

/// What the keys of skipped packages start with: those of a stage, or all.
pub open spec fn skip_prefix(stage: Option<SemanticRebuildStage>) -> Seq<char> {
    match stage {
        Some(named) => "semantic_rebuild_skip:"@ + stage_name(named) + ":"@,
        None => "semantic_rebuild_skip:"@,
    }
}

/// What the keys of skipped packages start with.
pub fn semantic_rebuild_skip_prefix(stage: Option<SemanticRebuildStage>) -> (prefix: String)
    ensures
        prefix@ == skip_prefix(stage),
{
    let mut prefix = "semantic_rebuild_skip:".to_owned();
    if let Some(named) = stage {
        prefix.append(named.as_str());
        prefix.append(":");
    }
    prefix
}

/// The key under which a skipped package is kept.
pub open spec fn skip_key(stage: SemanticRebuildStage, cursor: int) -> Seq<char> {
    skip_prefix(Some(stage)) + signed_decimal(cursor)
}

/// The key under which a skipped package is kept.
pub fn semantic_rebuild_skip_key(stage: SemanticRebuildStage, cursor: i64) -> (key: String)
    ensures
        key@ == skip_key(stage, cursor as int),
{
    let mut key = semantic_rebuild_skip_prefix(Some(stage));
    key.append(&signed_decimal_text(cursor));
    key
}

/// The keys of a stage do not start with the prefix of another one: what is
/// kept of one stage is not seen by the others.
pub proof fn law_skip_keys_are_isolated_by_stage(
    stage: SemanticRebuildStage,
    other: SemanticRebuildStage,
    cursor: int,
)
    ensures
        starts_with(skip_key(stage, cursor), skip_prefix(Some(other))) <==> stage == other,
{
    reveal_strlit("both");
    reveal_strlit("context");
    reveal_strlit("intent");
    reveal_strlit("semantic_rebuild_skip:");
    reveal_strlit(":");
    let key = skip_key(stage, cursor);
    let prefix = skip_prefix(Some(other));
    let n = "semantic_rebuild_skip:"@.len() as int;
    assert(n == 22);
    if stage == other {
        assert(key.subrange(0, prefix.len() as int) =~= prefix);
    } else {
        assert(key[n] == stage_name(stage)[0]);
        assert(prefix[n] == stage_name(other)[0]);
        if starts_with(key, prefix) {
            assert(key.subrange(0, prefix.len() as int)[n] == prefix[n]);
        }
    }
}

/// The search engines.
#[derive(Clone, Copy, Debug, PartialEq, Eq, Structural)]
pub enum DiscoverySearchEngine {
    PgVector,
}

/// Why there is no engine of that name.
pub open spec fn engine_error(engine: Seq<char>) -> Seq<char> {
    if engine == "grail"@ {
        "grail_engine_not_implemented"@
    } else {
        "unsupported_semantic_engine:"@ + engine
    }
}

impl DiscoverySearchEngine {
    /// The configured engine.
    pub fn from_config(config: &SemanticSearchConfig) -> (result: Result<Self, String>)
        ensures
            result is Ok <==> config.engine@ == "pgvector"@,
            result matches Err(error) ==> error@ == engine_error(config.engine@),
    {
        if same_text(&config.engine, "pgvector") {
            Ok(DiscoverySearchEngine::PgVector)
        } else if same_text(&config.engine, "grail") {
            Err("grail_engine_not_implemented".to_owned())
        } else {
            let mut error = "unsupported_semantic_engine:".to_owned();
            error.append(&config.engine);
            Err(error)
        }
    }
}

/// The embedding providers.
#[derive(Clone, Copy, Debug, PartialEq, Eq, Structural)]
pub enum EmbeddingProviderKind {
    DeterministicLocal,
    HttpEmbedding,
}

/// The provider of that name, where there is one.
pub open spec fn provider_of_name(name: Seq<char>) -> Option<EmbeddingProviderKind> {
    if name == "deterministic-local"@ {
        Some(EmbeddingProviderKind::DeterministicLocal)
    } else if name == "http-embedding"@ {
        Some(EmbeddingProviderKind::HttpEmbedding)
    } else {
        None
    }
}

/// Why there is no provider of that name.
pub open spec fn provider_error(name: Seq<char>) -> Seq<char> {
    if name == "local"@ || name == "local-model"@ {
        "local_embedding_provider_not_wired"@
    } else {
        "unsupported_embedding_provider:"@ + name
    }
}

impl EmbeddingProviderKind {
    /// The configured provider.
    pub fn from_config(config: &SemanticEmbeddingConfig) -> (result: Result<Self, String>)
        ensures
            result is Ok <==> provider_of_name(config.provider@) is Some,
            result matches Ok(kind) ==> provider_of_name(config.provider@) == Some(kind),
            result matches Err(error) ==> error@ == provider_error(config.provider@),
    {
        if same_text(&config.provider, "deterministic-local") {
            Ok(EmbeddingProviderKind::DeterministicLocal)
        } else if same_text(&config.provider, "http-embedding") {
            Ok(EmbeddingProviderKind::HttpEmbedding)
        } else if same_text(&config.provider, "local") || same_text(
            &config.provider,
            "local-model",
        ) {
            Err("local_embedding_provider_not_wired".to_owned())
        } else {
            let mut error = "unsupported_embedding_provider:".to_owned();
            error.append(&config.provider);
            Err(error)
        }
    }
}

/// What the node does next to find out whether semantic search runs.
#[derive(Debug)]
pub enum RuntimeStep {
    /// Nothing more: semantic search is in this state.
    Settled(SemanticRuntimeState),
    /// It asks the embedding provider for its health.
    CheckProvider,
    /// It prepares the semantic index of that engine.
    PrepareIndex(DiscoverySearchEngine),
}

/// The state of semantic search on a node that stores its index elsewhere than
/// in PostgreSQL: off.
pub fn runtime_without_postgres(config: &SemanticSearchConfig) -> (state: SemanticRuntimeState)
    ensures
        is_off_for(
            state,
            *config,
            if config.enabled {
                "semantic_search_requires_postgres"@
            } else {
                "semantic_disabled"@
            },
        ),
{
    if config.enabled {
        SemanticRuntimeState::disabled("semantic_search_requires_postgres", config)
    } else {
        SemanticRuntimeState::disabled("semantic_disabled", config)
    }
}

/// Accepts a number of dimensions that the semantic index can have.
pub fn check_semantic_dimension(dimension: usize) -> (result: Result<(), String>)
    ensures
        result is Ok <==> 1 <= dimension <= 4096,
        result matches Err(error) ==> error@ == "invalid_semantic_embedding_dimension"@,
{
    if dimension == 0 || dimension > 4096 {
        Err("invalid_semantic_embedding_dimension".to_owned())
    } else {
        Ok(())
    }
}

/// Whether `step` is the first one: semantic search must be enabled, with a
/// known engine.
pub open spec fn is_first_step(step: RuntimeStep, config: SemanticSearchConfig) -> bool {
    match step {
        RuntimeStep::Settled(state) => if !config.enabled {
            is_off_for(state, config, "semantic_disabled"@)
        } else {
            config.engine@ != "pgvector"@ && is_off_for(state, config, engine_error(config.engine@))
        },
        RuntimeStep::CheckProvider => config.enabled && config.engine@ == "pgvector"@,
        RuntimeStep::PrepareIndex(_) => false,
    }
}

/// Begins to find out whether semantic search runs.
pub fn begin_semantic_runtime(config: &SemanticSearchConfig) -> (step: RuntimeStep)
    ensures
        is_first_step(step, *config),
{
    if !config.enabled {
        return RuntimeStep::Settled(SemanticRuntimeState::disabled("semantic_disabled", config));
    }
    match DiscoverySearchEngine::from_config(config) {
        Ok(_) => RuntimeStep::CheckProvider,
        Err(error) => RuntimeStep::Settled(SemanticRuntimeState::disabled(&error, config)),
    }
}

/// Whether `step` is the one after the embedding provider was checked: it must
/// have passed, and there must be a database.
pub open spec fn is_step_after_check(
    step: RuntimeStep,
    config: SemanticSearchConfig,
    outcome: Result<(), String>,
    has_postgres: bool,
) -> bool {
    match step {
        RuntimeStep::Settled(state) => match outcome {
            Err(error) => is_off_for(state, config, error@),
            Ok(_) => !has_postgres && is_off_for(
                state,
                config,
                "semantic_search_requires_postgres"@,
            ),
        },
        RuntimeStep::CheckProvider => false,
        RuntimeStep::PrepareIndex(_) => outcome is Ok && has_postgres,
    }
}

/// Goes on once the embedding provider has been checked.
pub fn after_provider_check(
    config: &SemanticSearchConfig,
    outcome: &Result<(), String>,
    has_postgres: bool,
) -> (step: RuntimeStep)
    ensures
        is_step_after_check(step, *config, *outcome, has_postgres),
{
    match outcome {
        Err(error) => RuntimeStep::Settled(SemanticRuntimeState::disabled(error, config)),
        Ok(_) => if has_postgres {
            RuntimeStep::PrepareIndex(DiscoverySearchEngine::PgVector)
        } else {
            RuntimeStep::Settled(
                SemanticRuntimeState::disabled("semantic_search_requires_postgres", config),
            )
        },
    }
}

/// Whether `state` is the one once the index has been prepared.
pub open spec fn is_state_after_preparation(
    state: SemanticRuntimeState,
    config: SemanticSearchConfig,
    outcome: Result<(), String>,
) -> bool {
    match outcome {
        Ok(_) => is_on(state, config),
        Err(error) => is_off_for(state, config, "semantic_initialization_failed:"@ + error@),
    }
}

/// The state of semantic search once its index has been prepared.
pub fn after_index_preparation(
    config: &SemanticSearchConfig,
    outcome: &Result<(), String>,
) -> (state: SemanticRuntimeState)
    ensures
        is_state_after_preparation(state, *config, *outcome),
{
    match outcome {
        Ok(_) => SemanticRuntimeState::running(config),
        Err(error) => {
            let mut reason = "semantic_initialization_failed:".to_owned();
            reason.append(error);
            SemanticRuntimeState::disabled(&reason, config)
        },
    }
}

/// Whether semantic search can be used.
pub open spec fn is_available(
    config: SemanticSearchConfig,
    state: SemanticRuntimeState,
    has_postgres: bool,
) -> bool {
    config.enabled && state.enabled && state.healthy && has_postgres
}

/// Whether semantic search can be used.
pub fn semantic_search_available(
    config: &SemanticSearchConfig,
    state: &SemanticRuntimeState,
    has_postgres: bool,
) -> (available: bool)
    ensures
        available == is_available(*config, *state, has_postgres),
{
    config.enabled && state.enabled && state.healthy && has_postgres
}

/// The state that the steps lead to.
pub open spec fn settled_state(
    first: RuntimeStep,
    second: RuntimeStep,
    last: SemanticRuntimeState,
) -> SemanticRuntimeState {
    match first {
        RuntimeStep::Settled(state) => state,
        _ => match second {
            RuntimeStep::Settled(state) => state,
            _ => last,
        },
    }
}

/// Semantic search can be used exactly where it is enabled, its engine is
/// known, the provider passed, and the index was prepared in a database;
/// wherever it cannot, the state says why.
pub proof fn law_semantic_search_runs_or_says_why(
    config: SemanticSearchConfig,
    first: RuntimeStep,
    check: Result<(), String>,
    has_postgres: bool,
    second: RuntimeStep,
    preparation: Result<(), String>,
    last: SemanticRuntimeState,
)
    requires
        is_first_step(first, config),
        is_step_after_check(second, config, check, has_postgres),
        is_state_after_preparation(last, config, preparation),
    ensures
        ({
            let state = settled_state(first, second, last);
            &&& is_available(config, state, has_postgres) <==> config.enabled && config.engine@
                == "pgvector"@ && check is Ok && has_postgres && preparation is Ok
            &&& is_available(config, state, has_postgres) <==> state.fallback_reason is None
            &&& describes_config(state, config)
        }),
{
}

/// What is reported of semantic search.
#[derive(Debug)]
pub struct SemanticSearchDiagnostics {
    pub enabled: bool,
    pub healthy: bool,
    pub backend: String,
    pub embedding_model: String,
    pub embedding_version: String,
    pub embedding_dtype: Option<String>,
    pub dimension: usize,
    pub fallback_used: bool,
    pub fallback_reason: Option<String>,
}

/// What is reported of semantic search: its state, and the reason for a
/// fallback that is given or else the state's own.
pub fn semantic_diagnostics(
    state: &SemanticRuntimeState,
    fallback_used: bool,
    fallback_reason: Option<String>,
) -> (diagnostics: SemanticSearchDiagnostics)
    ensures
        diagnostics.enabled == state.enabled,
        diagnostics.healthy == state.healthy,
        diagnostics.backend@ == state.backend@,
        diagnostics.embedding_model@ == state.embedding_model@,
        diagnostics.embedding_version@ == state.embedding_version@,
        optional_text(diagnostics.embedding_dtype) == optional_text(state.embedding_dtype),
        diagnostics.dimension == state.dimension,
        diagnostics.fallback_used == fallback_used,
        optional_text(diagnostics.fallback_reason) == (if fallback_reason is Some {
            optional_text(fallback_reason)
        } else {
            optional_text(state.fallback_reason)
        }),
{
    SemanticSearchDiagnostics {
        enabled: state.enabled,
        healthy: state.healthy,
        backend: state.backend.clone(),
        embedding_model: state.embedding_model.clone(),
        embedding_version: state.embedding_version.clone(),
        embedding_dtype: state.embedding_dtype.clone(),
        dimension: state.dimension,
        fallback_used,
        fallback_reason: match fallback_reason {
            Some(reason) => Some(reason),
            None => state.fallback_reason.clone(),
        },
    }
}

/// What is reported of semantic search together with its configuration.
#[derive(Debug)]
pub struct SemanticSearchStatus {
    pub diagnostics: SemanticSearchDiagnostics,
    pub fallback: String,
    pub default_mode: String,
    pub explain_enabled: bool,
    pub embedding_provider: String,
    pub model_path: Option<String>,
    pub timeout_ms: u64,
    pub batch_size: usize,
    pub resource_type_filter: String,
    pub capability_tags_filter: String,
    pub protocol_filter: String,
}

/// What is reported of semantic search together with its configuration.
pub fn semantic_status(
    config: &SemanticSearchConfig,
    state: &SemanticRuntimeState,
    fallback_used: bool,
    fallback_reason: Option<String>,
) -> (status: SemanticSearchStatus)
    ensures
        status.diagnostics.enabled == state.enabled,
        status.diagnostics.healthy == state.healthy,
        status.diagnostics.backend@ == state.backend@,
        status.diagnostics.embedding_model@ == state.embedding_model@,
        status.diagnostics.embedding_version@ == state.embedding_version@,
        optional_text(status.diagnostics.embedding_dtype) == optional_text(state.embedding_dtype),
        status.diagnostics.dimension == state.dimension,
        status.diagnostics.fallback_used == fallback_used,
        optional_text(status.diagnostics.fallback_reason) == (if fallback_reason is Some {
            optional_text(fallback_reason)
        } else {
            optional_text(state.fallback_reason)
        }),
        status.fallback@ == config.fallback@,
        status.default_mode@ == config.default_mode@,
        status.explain_enabled == config.explain_enabled,
        status.embedding_provider@ == config.embedding.provider@,
        optional_text(status.model_path) == optional_text(config.embedding.model_path),
        status.timeout_ms == config.embedding.timeout_ms,
        status.batch_size == config.embedding.batch_size,
        status.resource_type_filter@ == config.filters.resource_type@,
        status.capability_tags_filter@ == config.filters.capability_tags@,
        status.protocol_filter@ == config.filters.protocol@,
{
    SemanticSearchStatus {
        diagnostics: semantic_diagnostics(state, fallback_used, fallback_reason),
        fallback: config.fallback.clone(),
        default_mode: config.default_mode.clone(),
        explain_enabled: config.explain_enabled,
        embedding_provider: config.embedding.provider.clone(),
        model_path: config.embedding.model_path.clone(),
        timeout_ms: config.embedding.timeout_ms,
        batch_size: config.embedding.batch_size,
        resource_type_filter: config.filters.resource_type.clone(),
        capability_tags_filter: config.filters.capability_tags.clone(),
        protocol_filter: config.filters.protocol.clone(),
    }
}

/// The default configuration embeds locally, in batches, with no model that must
/// be fetched, and its filters are all hard.
pub proof fn law_default_configuration(
    embedding: SemanticEmbeddingConfig,
    filter: SemanticFilterConfig,
)
    requires
        is_default_embedding(embedding),
        is_default_filter(filter),
    ensures
        embedding.provider@ == "deterministic-local"@,
        embedding.model_name@ == "oan-deterministic-local-v1"@,
        embedding.endpoint is None && embedding.health_endpoint is None,
        embedding.model_path is None && embedding.model_version is None && embedding.dtype is None,
        !embedding.strict_model_version,
        embedding.dimension == 64 && embedding.timeout_ms == 2_000,
        embedding.batch_size == 32 && embedding.max_input_chars == 6_000,
        filter.resource_type@ == "hard"@ && filter.capability_tags@ == "hard"@,
        filter.protocol@ == "hard"@,
{
}

/// The version of the embeddings is the configured one; without one it names
/// the provider and the dimension, and differs where the dimension does.
pub proof fn law_embedding_version_names_what_embeds(
    config: SemanticSearchConfig,
    other: SemanticSearchConfig,
)
    ensures
        config.embedding.model_version matches Some(version) ==> embedding_version(config)
            == version@,
        config.embedding.model_version is None ==> embedding_version(config) == "1:"@
            + config.embedding.provider@ + ":"@ + decimal(config.embedding.dimension as nat),
        config.embedding.model_version is None && other.embedding.model_version is None
            && config.embedding.provider@ == other.embedding.provider@ && embedding_version(config)
            == embedding_version(other) ==> config.embedding.dimension == other.embedding.dimension,
{
    if config.embedding.model_version is None && other.embedding.model_version is None
        && config.embedding.provider@ == other.embedding.provider@ && embedding_version(config)
        == embedding_version(other) {
        let start = "1:"@ + config.embedding.provider@ + ":"@;
        let first = decimal(config.embedding.dimension as nat);
        let second = decimal(other.embedding.dimension as nat);
        assert(first =~= embedding_version(config).skip(start.len() as int));
        assert(second =~= embedding_version(other).skip(start.len() as int));
        law_decimal_denotes_the_number(config.embedding.dimension as nat);
        law_decimal_denotes_the_number(other.embedding.dimension as nat);
    }
}

/// A state in which semantic search is off says so and why, one in which it is
/// on has no such reason, and both name the engine and the embeddings that are
/// configured.
pub proof fn law_states_show_the_configuration(
    state: SemanticRuntimeState,
    config: SemanticSearchConfig,
    reason: Seq<char>,
)
    ensures
        is_off_for(state, config, reason) ==> !state.enabled && !state.healthy && (
        state.fallback_reason matches Some(text) && text@ == reason),
        is_on(state, config) ==> state.enabled && state.healthy && state.fallback_reason is None,
        is_off_for(state, config, reason) || is_on(state, config) ==> state.backend@
            == config.engine@ && state.embedding_model@ == config.embedding.model_name@
            && state.dimension == config.embedding.dimension,
        is_off_for(state, config, reason) || is_on(state, config) ==> (
        config.embedding.model_version matches Some(version) ==> state.embedding_version@
            == version@),
        is_off_for(state, config, reason) || is_on(state, config) ==> (config.embedding.dtype
            is None <==> state.embedding_dtype is None),
        is_off_for(state, config, reason) || is_on(state, config) ==> (config.embedding.dtype
            matches Some(dtype) ==> (state.embedding_dtype matches Some(shown) && shown@
            == dtype@)),
{
}

/// The stages have three names, one each, and nothing else names a stage.
pub proof fn law_stages_have_their_names(stage: SemanticRebuildStage, name: Seq<char>)
    ensures
        stage_name(stage) == (match stage {
            SemanticRebuildStage::Both => "both"@,
            SemanticRebuildStage::Context => "context"@,
            SemanticRebuildStage::Intent => "intent"@,
        }),
        stage_of_name(name) == Some(stage) <==> name == stage_name(stage),
{
    law_stage_name_round_trip(stage);
}

/// The keys of skipped packages name the stage and the cursor: those of one
/// stage with different cursors differ, and every one starts as all do.
pub proof fn law_skip_keys_name_the_package(
    stage: SemanticRebuildStage,
    cursor: int,
    other_cursor: int,
)
    ensures
        skip_key(stage, cursor) == skip_key(stage, other_cursor) ==> cursor == other_cursor,
        starts_with(skip_key(stage, cursor), "semantic_rebuild_skip:"@),
        starts_with(skip_key(stage, cursor), skip_prefix(None)),
{
    let prefix = skip_prefix(Some(stage));
    let start = "semantic_rebuild_skip:"@;
    assert(skip_key(stage, cursor) =~= start + (stage_name(stage) + ":"@ + signed_decimal(cursor)));
    law_text_starts_and_ends_with_its_parts(
        start,
        stage_name(stage) + ":"@ + signed_decimal(cursor),
    );
    if skip_key(stage, cursor) == skip_key(stage, other_cursor) {
        let first = signed_decimal(cursor);
        let second = signed_decimal(other_cursor);
        assert(first =~= skip_key(stage, cursor).skip(prefix.len() as int));
        assert(second =~= skip_key(stage, other_cursor).skip(prefix.len() as int));
        lemma_signed_decimal_denotes_the_number(cursor, other_cursor);
    }
}

/// Different numbers have different decimal notations.
proof fn lemma_signed_decimal_denotes_the_number(first: int, second: int)
    requires
        signed_decimal(first) == signed_decimal(second),
    ensures
        first == second,
{
    let text = signed_decimal(first);
    if first < 0 {
        law_decimal_denotes_the_number((-first) as nat);
        assert(text.skip(1) =~= decimal((-first) as nat));
        assert(text[0] == '-');
    } else {
        law_decimal_denotes_the_number(first as nat);
    }
    if second < 0 {
        law_decimal_denotes_the_number((-second) as nat);
        assert(text.skip(1) =~= decimal((-second) as nat));
        assert(text[0] == '-');
    } else {
        law_decimal_denotes_the_number(second as nat);
    }
}

/// Only the two providers that are built in are found, by their names; a local
/// model is told from a name that is not known.
pub proof fn law_providers_are_found_by_name(name: Seq<char>)
    ensures
        provider_of_name(name) is Some <==> name == "deterministic-local"@ || name
            == "http-embedding"@,
        provider_of_name("deterministic-local"@) == Some(EmbeddingProviderKind::DeterministicLocal),
        provider_of_name("http-embedding"@) == Some(EmbeddingProviderKind::HttpEmbedding),
        name == "local"@ || name == "local-model"@ ==> provider_error(name)
            == "local_embedding_provider_not_wired"@,
        name != "local"@ && name != "local-model"@ ==> provider_error(name)
            == "unsupported_embedding_provider:"@ + name,
        name == "grail"@ ==> engine_error(name) == "grail_engine_not_implemented"@,
        name != "grail"@ ==> engine_error(name) == "unsupported_semantic_engine:"@ + name,
{
    reveal_strlit("deterministic-local");
    reveal_strlit("http-embedding");
    assert("deterministic-local"@[0] == 'd');
    assert("http-embedding"@[0] == 'h');
}

/// Where semantic search does not run, the state names the first thing that
/// stands in the way: that it is switched off, its engine, its provider, the
/// database, or the preparation of its index.
pub proof fn law_state_names_the_first_obstacle(
    config: SemanticSearchConfig,
    first: RuntimeStep,
    check: Result<(), String>,
    has_postgres: bool,
    second: RuntimeStep,
    preparation: Result<(), String>,
    last: SemanticRuntimeState,
)
    requires
        is_first_step(first, config),
        is_step_after_check(second, config, check, has_postgres),
        is_state_after_preparation(last, config, preparation),
    ensures
        ({
            let reason = optional_text(settled_state(first, second, last).fallback_reason);
            let engine_known = config.engine@ == "pgvector"@;
            &&& !config.enabled ==> reason == Some("semantic_disabled"@)
            &&& config.enabled && config.engine@ == "grail"@ ==> reason == Some(
                "grail_engine_not_implemented"@,
            )
            &&& config.enabled && !engine_known && config.engine@ != "grail"@ ==> reason == Some(
                "unsupported_semantic_engine:"@ + config.engine@,
            )
            &&& config.enabled && engine_known ==> (check matches Err(error) ==> reason == Some(
                error@,
            ))
            &&& config.enabled && engine_known && check is Ok && !has_postgres ==> reason == Some(
                "semantic_search_requires_postgres"@,
            )
            &&& config.enabled && engine_known && check is Ok && has_postgres ==> (preparation
                matches Err(error) ==> reason == Some(
                "semantic_initialization_failed:"@ + error@,
            ))
        }),
{
    reveal_strlit("grail");
    reveal_strlit("pgvector");
    assert("grail"@[0] == 'g');
    assert("pgvector"@[0] == 'p');
}

/// Semantic search can be used only where it is switched on, runs, is healthy
/// and has its database.
pub proof fn law_available_search_has_all_it_needs(
    config: SemanticSearchConfig,
    state: SemanticRuntimeState,
    has_postgres: bool,
)
    ensures
        is_available(config, state, has_postgres) ==> config.enabled && state.enabled
            && state.healthy && has_postgres,
        config.enabled && state.enabled && state.healthy && has_postgres ==> is_available(
            config,
            state,
            has_postgres,
        ),
{
}

} // verus!
