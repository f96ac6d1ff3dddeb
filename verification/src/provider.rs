//! Embeddings: the checks on what a provider answers, and the buckets of the
//! local embedding.

use vstd::prelude::*;

use crate::config::SemanticEmbeddingConfig;
use crate::document::{is_hex_digit, sha256_hex, sha256_hex_of};
use crate::json::referenced_text;
use crate::ordering::indices;
use crate::text::{
    ascii_lower, chars_of, law_text_occurs_between_any_others, occurs_in, optional_text, stands_at,
    text_contains, texts, to_ascii_lower,
};
use crate::tokens::{semantic_tokens, tokens_of, Lexicon};
use crate::words::{decimal, decimal_text, push_all_new, without_repeats};

verus! {

/// What an embedding service says of itself.
#[derive(Debug)]
pub struct HttpEmbeddingHealth {
    pub model: String,
    pub embedding_version: Option<String>,
    pub dtype: Option<String>,
    pub dimension: usize,
    pub ready: bool,
}

/// What an embedding service answers, besides the vectors.
#[derive(Debug)]
pub struct HttpEmbeddingAnswer {
    pub model: String,
    pub embedding_version: String,
    pub dtype: Option<String>,
    pub dimension: usize,
}

/// What is wrong with the model and the dimension that a service names.
pub open spec fn model_fault(
    config: SemanticEmbeddingConfig,
    model: Seq<char>,
    dimension: usize,
) -> Option<Seq<char>> {
    if model != config.model_name@ {
        Some("http_embedding_model_mismatch:"@ + model)
    } else if dimension != config.dimension {
        Some("http_embedding_dimension_mismatch:"@ + decimal(dimension as nat))
    } else {
        None
    }
}

/// What is wrong with the version that a service names, where the
/// configuration insists on one.
pub open spec fn version_fault(
    config: SemanticEmbeddingConfig,
    version: Option<Seq<char>>,
) -> Option<Seq<char>> {
    if !config.strict_model_version {
        None
    } else {
        match config.model_version {
            None => Some("strict_model_version_requires_modelVersion"@),
            Some(expected) => match version {
                None => Some("http_embedding_version_missing"@),
                Some(actual) => if actual != expected@ {
                    Some("http_embedding_version_mismatch:"@ + actual)
                } else {
                    None
                },
            },
        }
    }
}

/// What is wrong with the number format that a service names, where the
/// configuration names one; `missing` and `mismatch` are the words for it.
pub open spec fn dtype_fault(
    config: SemanticEmbeddingConfig,
    dtype: Option<String>,
    missing: Seq<char>,
    mismatch: Seq<char>,
) -> Option<Seq<char>> {
    match config.dtype {
        None => None,
        Some(expected) => match dtype {
            None => Some(missing),
            Some(actual) => if actual@ != expected@ {
                Some(mismatch + actual@)
            } else {
                None
            },
        },
    }
}

/// The first of two faults.
pub open spec fn first_fault(
    first: Option<Seq<char>>,
    second: Option<Seq<char>>,
) -> Option<Seq<char>> {
    match first {
        Some(fault) => Some(fault),
        None => second,
    }
}

/// What is wrong with what a service says of itself.
pub open spec fn health_fault(
    config: SemanticEmbeddingConfig,
    health: HttpEmbeddingHealth,
) -> Option<Seq<char>> {
    if !health.ready {
        Some("http_embedding_provider_not_ready"@)
    } else {
        first_fault(
            model_fault(config, health.model@, health.dimension),
            first_fault(
                version_fault(config, optional_text(health.embedding_version)),
                dtype_fault(
                    config,
                    health.dtype,
                    "http_embedding_dtype_missing"@,
                    "http_embedding_dtype_mismatch:"@,
                ),
            ),
        )
    }
}

/// What is wrong with what a service answers.
pub open spec fn answer_fault(
    config: SemanticEmbeddingConfig,
    answer: HttpEmbeddingAnswer,
) -> Option<Seq<char>> {
    first_fault(
        model_fault(config, answer.model@, answer.dimension),
        first_fault(
            version_fault(config, Some(answer.embedding_version@)),
            dtype_fault(
                config,
                answer.dtype,
                "http_embedding_response_dtype_missing"@,
                "http_embedding_response_dtype_mismatch:"@,
            ),
        ),
    )
}

/// `label` followed by `value`.
fn labelled(label: &str, value: &str) -> (text: String)
    ensures
        text@ == label@ + value@,
{
    let mut text = label.to_owned();
    text.append(value);
    text
}

/// What is wrong with the model and the dimension that a service names.
fn find_model_fault(config: &SemanticEmbeddingConfig, model: &String, dimension: usize) -> (fault:
    Option<String>)
    ensures
        optional_text(fault) == model_fault(*config, model@, dimension),
{
    if *model != config.model_name {
        Some(labelled("http_embedding_model_mismatch:", model))
    } else if dimension != config.dimension {
        Some(labelled("http_embedding_dimension_mismatch:", &decimal_text(dimension as u64)))
    } else {
        None
    }
}

/// What is wrong with the version that a service names.
fn find_version_fault(config: &SemanticEmbeddingConfig, version: Option<&String>) -> (fault: Option<
    String,
>)
    ensures
        optional_text(fault) == version_fault(*config, referenced_text(version)),
{
    if !config.strict_model_version {
        return None;
    }
    match &config.model_version {
        None => Some("strict_model_version_requires_modelVersion".to_owned()),
        Some(expected) => match version {
            None => Some("http_embedding_version_missing".to_owned()),
            Some(actual) => if *actual != *expected {
                Some(labelled("http_embedding_version_mismatch:", actual))
            } else {
                None
            },
        },
    }
}

/// What is wrong with the number format that a service names.
fn find_dtype_fault(
    config: &SemanticEmbeddingConfig,
    dtype: &Option<String>,
    missing: &str,
    mismatch: &str,
) -> (fault: Option<String>)
    ensures
        optional_text(fault) == dtype_fault(*config, *dtype, missing@, mismatch@),
{
    match &config.dtype {
        None => None,
        Some(expected) => match dtype {
            None => Some(missing.to_owned()),
            Some(actual) => if *actual != *expected {
                Some(labelled(mismatch, actual))
            } else {
                None
            },
        },
    }
}

/// Accepts a service that is ready, with the configured model, dimension,
/// version and number format.
pub fn check_embedding_health(
    config: &SemanticEmbeddingConfig,
    health: &HttpEmbeddingHealth,
) -> (result: Result<(), String>)
    ensures
        result is Ok <==> health_fault(*config, *health) is None,
        result matches Err(error) ==> health_fault(*config, *health) == Some(error@),
{
    if !health.ready {
        return Err("http_embedding_provider_not_ready".to_owned());
    }
    if let Some(fault) = find_model_fault(config, &health.model, health.dimension) {
        return Err(fault);
    }
    if let Some(fault) = find_version_fault(config, health.embedding_version.as_ref()) {
        return Err(fault);
    }
    if let Some(fault) = find_dtype_fault(
        config,
        &health.dtype,
        "http_embedding_dtype_missing",
        "http_embedding_dtype_mismatch:",
    ) {
        return Err(fault);
    }
    Ok(())
}

/// Accepts an answer with the configured model, dimension, version and number
/// format.
pub fn check_embedding_answer(
    config: &SemanticEmbeddingConfig,
    answer: &HttpEmbeddingAnswer,
) -> (result: Result<(), String>)
    ensures
        result is Ok <==> answer_fault(*config, *answer) is None,
        result matches Err(error) ==> answer_fault(*config, *answer) == Some(error@),
{
    if let Some(fault) = find_model_fault(config, &answer.model, answer.dimension) {
        return Err(fault);
    }
    if let Some(fault) = find_version_fault(config, Some(&answer.embedding_version)) {
        return Err(fault);
    }
    if let Some(fault) = find_dtype_fault(
        config,
        &answer.dtype,
        "http_embedding_response_dtype_missing",
        "http_embedding_response_dtype_mismatch:",
    ) {
        return Err(fault);
    }
    Ok(())
}

/// The address at which the service tells its health.
pub fn embedding_health_endpoint(config: &SemanticEmbeddingConfig) -> (result: Result<
    String,
    String,
>)
    ensures
        match (config.health_endpoint, result) {
            (Some(endpoint), Ok(found)) => found@ == endpoint@,
            (None, Err(error)) => error@ == "http_embedding_health_endpoint_required"@,
            _ => false,
        },
{
    match &config.health_endpoint {
        Some(endpoint) => Ok(endpoint.clone()),
        None => Err("http_embedding_health_endpoint_required".to_owned()),
    }
}

/// The address at which the service embeds texts.
pub fn embedding_endpoint(config: &SemanticEmbeddingConfig) -> (result: Result<String, String>)
    ensures
        match (config.endpoint, result) {
            (Some(endpoint), Ok(found)) => found@ == endpoint@,
            (None, Err(error)) => error@ == "http_embedding_endpoint_required"@,
            _ => false,
        },
{
    match &config.endpoint {
        Some(endpoint) => Ok(endpoint.clone()),
        None => Err("http_embedding_endpoint_required".to_owned()),
    }
}

/// Accepts a vector of that many finite numbers: `length` is its length, and
/// `all_finite` says whether its numbers are finite.
pub fn validate_embedding_vector(length: usize, all_finite: bool, dimension: usize) -> (result:
    Result<(), String>)
    ensures
        result is Ok <==> length == dimension && all_finite,
        result matches Err(error) ==> error@ == if length != dimension {
            "embedding_dimension_mismatch:"@ + decimal(length as nat) + ":"@ + decimal(
                dimension as nat,
            )
        } else {
            "embedding_vector_contains_non_finite_value"@
        },
{
    if length != dimension {
        let mut error = labelled("embedding_dimension_mismatch:", &decimal_text(length as u64));
        error.append(":");
        error.append(&decimal_text(dimension as u64));
        return Err(error);
    }
    if !all_finite {
        return Err("embedding_vector_contains_non_finite_value".to_owned());
    }
    Ok(())
}

/// Whether the words of an error say that an embedding took too long.
pub open spec fn says_timeout(error: Seq<char>) -> bool {
    occurs_in(ascii_lower(error), "timed out"@) || occurs_in(ascii_lower(error), "timeout"@)
}

/// Whether the words of an error say that an embedding took too long.
pub fn is_embedding_timeout_error(error: &str) -> (timeout: bool)
    ensures
        timeout == says_timeout(error@),
{
    let text = to_ascii_lower(error);
    text_contains(&text, "timed out") || text_contains(&text, "timeout")
}

/// The value of a hexadecimal digit in lower case; no other digit is looked at.
pub open spec fn hex_digit(ch: char) -> int {
    if '0' <= ch <= '9' {
        ch as int - 48
    } else {
        ch as int - 87
    }
}

/// The number that hexadecimal digits denote.
pub open spec fn hex_value(digits: Seq<char>) -> int
    decreases digits.len(),
{
    if digits.len() == 0 {
        0
    } else {
        hex_value(digits.drop_last()) * 16 + hex_digit(digits.last())
    }
}

/// The bucket of a digest: the number that its first eight digits denote, by
/// the number of buckets.
pub open spec fn digest_bucket(digest: Seq<char>, dimension: int) -> int {
    hex_value(digest.take(8)) % dimension
}

/// The buckets of tokens: those of their hashes.
pub open spec fn buckets_of(tokens: Seq<Seq<char>>, dimension: int) -> Seq<int> {
    tokens.map_values(|token: Seq<char>| digest_bucket(sha256_hex_of(token), dimension))
}

/// How often a number occurs among `values`.
pub open spec fn occurrences(values: Seq<int>, value: int) -> nat
    decreases values.len(),
{
    if values.len() == 0 {
        0
    } else {
        occurrences(values.drop_last(), value) + if values.last() == value {
            1nat
        } else {
            0
        }
    }
}

/// The bucket of a digest of eight hexadecimal digits or more.
pub fn bucket_of_digest(digest: &str, dimension: usize) -> (bucket: usize)
    requires
        dimension > 0,
        digest@.len() >= 8,
        forall|k: int| 0 <= k < 8 ==> is_hex_digit(#[trigger] digest@[k]),
    ensures
        bucket == digest_bucket(digest@, dimension as int),
        bucket < dimension,
{
    let chars = chars_of(digest);
    let mut value: u64 = 0;
    let mut i: usize = 0;
    let ghost digits = chars@.take(8);
    assert(digits.take(0) =~= Seq::<char>::empty());
    while i < 8
        invariant
            i <= 8,
            chars@ == digest@,
            chars@.len() >= 8,
            forall|k: int| 0 <= k < 8 ==> is_hex_digit(#[trigger] chars@[k]),
            digits == chars@.take(8),
            value == hex_value(digits.take(i as int)),
            i == 0 ==> value < 1,
            i == 1 ==> value < 0x10,
            i == 2 ==> value < 0x100,
            i == 3 ==> value < 0x1000,
            i == 4 ==> value < 0x1_0000,
            i == 5 ==> value < 0x10_0000,
            i == 6 ==> value < 0x100_0000,
            i == 7 ==> value < 0x1000_0000,
            i == 8 ==> value < 0x1_0000_0000,
        decreases 8 - i,
    {
        let ch = chars[i];
        assert(is_hex_digit(chars@[i as int]));
        let digit: u64 = if ch <= '9' {
            (ch as u8 - 48) as u64
        } else {
            (ch as u8 - 87) as u64
        };
        assert(digits.take(i as int + 1).drop_last() =~= digits.take(i as int));
        value = value * 16 + digit;
        i = i + 1;
    }
    assert(digits.take(8) =~= digits);
    (value % dimension as u64) as usize
}

/// How often each number below `limit` occurs among `values`.
pub fn count_occurrences(values: &Vec<usize>, limit: usize) -> (counts: Vec<usize>)
    requires
        forall|k: int| 0 <= k < values@.len() ==> #[trigger] values@[k] < limit,
    ensures
        counts@.len() == limit,
        forall|number: int|
            0 <= number < limit ==> #[trigger] counts@[number] == occurrences(
                indices(values@),
                number,
            ),
{
    let mut counts: Vec<usize> = Vec::new();
    let mut k: usize = 0;
    while k < limit
        invariant
            k <= limit,
            counts@.len() == k,
            forall|number: int| 0 <= number < k ==> #[trigger] counts@[number] == 0,
        decreases limit - k,
    {
        counts.push(0);
        k = k + 1;
    }
    let mut i: usize = 0;
    while i < values.len()
        invariant
            i <= values@.len(),
            counts@.len() == limit,
            forall|k: int| 0 <= k < values@.len() ==> #[trigger] values@[k] < limit,
            forall|number: int|
                0 <= number < limit ==> #[trigger] counts@[number] == occurrences(
                    indices(values@).take(i as int),
                    number,
                ),
            forall|number: int| 0 <= number < limit ==> #[trigger] counts@[number] <= i,
        decreases values@.len() - i,
    {
        assert(indices(values@).take(i as int + 1).drop_last() =~= indices(values@).take(
            i as int,
        ));
        assert(indices(values@).take(i as int + 1).last() == values@[i as int]);
        let ghost before = counts@;
        let count: usize = counts[values[i]];
        counts.set(values[i], count + 1);
        assert forall|other: int| 0 <= other < limit implies #[trigger] counts@[other]
            == occurrences(indices(values@).take(i as int + 1), other) by {
            assert(before[other] == occurrences(indices(values@).take(i as int), other));
        }
        i = i + 1;
    }
    assert(indices(values@).take(i as int) =~= indices(values@));
    counts
}

/// The token counts of the local embedding of a text, one for each bucket:
/// how many different tokens of the text fall into it. There is one bucket at
/// least.
pub fn embedding_bucket_counts(lexicon: &Lexicon, text: &str, dimension: usize) -> (counts: Vec<
    usize,
>)
    ensures
        counts@.len() == if dimension < 1 {
            1
        } else {
            dimension as int
        },
        forall|bucket: int|
            0 <= bucket < counts@.len() ==> #[trigger] counts@[bucket] == occurrences(
                buckets_of(
                    without_repeats(tokens_of(lexicon.catalog, text@)),
                    counts@.len() as int,
                ),
                bucket,
            ),
{
    let dimension: usize = if dimension < 1 {
        1
    } else {
        dimension
    };
    let all_tokens = semantic_tokens(lexicon, text);
    let mut tokens: Vec<String> = Vec::new();
    assert(texts(tokens@) =~= Seq::empty());
    push_all_new(&mut tokens, &all_tokens);
    let mut buckets: Vec<usize> = Vec::new();
    let mut i: usize = 0;
    while i < tokens.len()
        invariant
            i <= tokens@.len(),
            dimension > 0,
            indices(buckets@) =~= buckets_of(texts(tokens@), dimension as int).take(i as int),
            forall|k: int| 0 <= k < buckets@.len() ==> #[trigger] buckets@[k] < dimension,
        decreases tokens@.len() - i,
    {
        let digest = sha256_hex(&tokens[i]);
        let ghost before = buckets@;
        buckets.push(bucket_of_digest(&digest, dimension));
        assert(indices(buckets@) =~= indices(before).push(
            digest_bucket(sha256_hex_of(tokens@[i as int]@), dimension as int),
        ));
        i = i + 1;
        assert(buckets_of(texts(tokens@), dimension as int).take(i as int) =~= buckets_of(
            texts(tokens@),
            dimension as int,
        ).take(i as int - 1).push(
            digest_bucket(sha256_hex_of(tokens@[i as int - 1]@), dimension as int),
        ));
    }
    assert(indices(buckets@) =~= buckets_of(texts(tokens@), dimension as int));
    count_occurrences(&buckets, dimension)
}

/// A service is accepted just where it is ready, has the configured model and
/// dimension, the configured version where one is insisted on, and the
/// configured number format where there is one.
pub proof fn law_accepted_services_are_the_configured_ones(
    config: SemanticEmbeddingConfig,
    health: HttpEmbeddingHealth,
)
    ensures
        health_fault(config, health) is None <==> {
            &&& health.ready
            &&& health.model@ == config.model_name@
            &&& health.dimension == config.dimension
            &&& config.strict_model_version ==> (config.model_version matches Some(expected)
                && health.embedding_version matches Some(actual) && actual@ == expected@)
            &&& config.dtype matches Some(expected) ==> (health.dtype matches Some(actual)
                && actual@ == expected@)
        },
{
}

/// An answer is accepted just where it comes from the configured model, with
/// the configured dimension, version and number format.
pub proof fn law_accepted_answers_are_of_the_configured_model(
    config: SemanticEmbeddingConfig,
    answer: HttpEmbeddingAnswer,
)
    ensures
        answer_fault(config, answer) is None <==> {
            &&& answer.model@ == config.model_name@
            &&& answer.dimension == config.dimension
            &&& config.strict_model_version ==> (config.model_version matches Some(expected)
                && answer.embedding_version@ == expected@)
            &&& config.dtype matches Some(expected) ==> (answer.dtype matches Some(actual)
                && actual@ == expected@)
        },
{
}

/// What is wrong with a service is said in the order of readiness, model,
/// dimension, version and number format, with what the service names.
pub proof fn law_service_faults_name_what_differs(
    config: SemanticEmbeddingConfig,
    health: HttpEmbeddingHealth,
)
    ensures
        ({
            let fault = health_fault(config, health);
            let same_model = health.ready && health.model@ == config.model_name@;
            let same_size = same_model && health.dimension == config.dimension;
            &&& !health.ready ==> fault == Some("http_embedding_provider_not_ready"@)
            &&& health.ready && health.model@ != config.model_name@ ==> fault == Some(
                "http_embedding_model_mismatch:"@ + health.model@,
            )
            &&& same_model && health.dimension != config.dimension ==> fault == Some(
                "http_embedding_dimension_mismatch:"@ + decimal(health.dimension as nat),
            )
            &&& same_size && config.strict_model_version && config.model_version is None ==> fault
                == Some("strict_model_version_requires_modelVersion"@)
            &&& same_size && config.strict_model_version && config.model_version is Some
                && health.embedding_version is None ==> fault == Some(
                "http_embedding_version_missing"@,
            )
            &&& same_size && config.strict_model_version ==> ((config.model_version,
                health.embedding_version) matches (Some(expected), Some(actual)) ==> (expected@
                != actual@ ==> fault == Some("http_embedding_version_mismatch:"@ + actual@)))
            &&& same_size && !config.strict_model_version && config.dtype is Some && health.dtype
                is None ==> fault == Some("http_embedding_dtype_missing"@)
            &&& same_size && !config.strict_model_version ==> ((config.dtype, health.dtype) matches (
                Some(expected),
                Some(actual),
            ) ==> (expected@ != actual@ ==> fault == Some(
                "http_embedding_dtype_mismatch:"@ + actual@,
            )))
        }),
{
}

/// What is wrong with an answer is said in the order of model, dimension,
/// version and number format, with what the answer names.
pub proof fn law_answer_faults_name_what_differs(
    config: SemanticEmbeddingConfig,
    answer: HttpEmbeddingAnswer,
)
    ensures
        ({
            let fault = answer_fault(config, answer);
            let same_model = answer.model@ == config.model_name@;
            let same_size = same_model && answer.dimension == config.dimension;
            &&& !same_model ==> fault == Some("http_embedding_model_mismatch:"@ + answer.model@)
            &&& same_model && answer.dimension != config.dimension ==> fault == Some(
                "http_embedding_dimension_mismatch:"@ + decimal(answer.dimension as nat),
            )
            &&& same_size && config.strict_model_version && config.model_version is None ==> fault
                == Some("strict_model_version_requires_modelVersion"@)
            &&& same_size && config.strict_model_version ==> (config.model_version matches Some(
                expected,
            ) ==> (expected@ != answer.embedding_version@ ==> fault == Some(
                "http_embedding_version_mismatch:"@ + answer.embedding_version@,
            )))
            &&& same_size && !config.strict_model_version && config.dtype is Some && answer.dtype
                is None ==> fault == Some("http_embedding_response_dtype_missing"@)
            &&& same_size && !config.strict_model_version ==> ((config.dtype, answer.dtype) matches (
                Some(expected),
                Some(actual),
            ) ==> (expected@ != actual@ ==> fault == Some(
                "http_embedding_response_dtype_mismatch:"@ + actual@,
            )))
        }),
{
}

/// An error that holds either way of saying so, in whatever case, says that an
/// embedding took too long.
pub proof fn law_timeouts_are_recognised(before: Seq<char>, words: Seq<char>, after: Seq<char>)
    requires
        ascii_lower(words) == "timed out"@ || ascii_lower(words) == "timeout"@,
    ensures
        says_timeout(before + words + after),
{
    let text = before + words + after;
    assert(ascii_lower(text) =~= ascii_lower(before) + ascii_lower(words) + ascii_lower(after));
    law_text_occurs_between_any_others(
        ascii_lower(before),
        ascii_lower(words),
        ascii_lower(after),
    );
}

/// An error says that an embedding took too long only where it holds one of the
/// two ways of saying so, in whatever case.
pub proof fn law_other_errors_are_no_timeouts(error: Seq<char>)
    requires
        says_timeout(error),
    ensures
        exists|before: Seq<char>, words: Seq<char>, after: Seq<char>|
            error == #[trigger] (before + words + after) && (ascii_lower(words) == "timed out"@
                || ascii_lower(words) == "timeout"@),
{
    let lower = ascii_lower(error);
    let needle = if occurs_in(lower, "timed out"@) {
        "timed out"@
    } else {
        "timeout"@
    };
    let at = choose|at: int| #[trigger] stands_at(lower, needle, at);
    assert(lower.subrange(at, at + needle.len()) == needle);
    let before = error.take(at);
    let words = error.subrange(at, at + needle.len());
    let after = error.skip(at + needle.len());
    assert(error =~= before + words + after);
    assert(ascii_lower(words) =~= lower.subrange(at, at + needle.len()));
}

/// Hexadecimal notation has the base sixteen, and its digits are those from
/// zero to nine and from `a` to `f`.
pub proof fn law_hexadecimal_notation(digits: Seq<char>, digit: char)
    ensures
        hex_value(Seq::empty()) == 0,
        '0' <= digit <= '9' ==> hex_value(digits.push(digit)) == 16 * hex_value(digits) + (
        digit as int - '0' as int),
        'a' <= digit <= 'f' ==> hex_value(digits.push(digit)) == 16 * hex_value(digits) + 10 + (
        digit as int - 'a' as int),
{
    assert(digits.push(digit).drop_last() =~= digits);
    assert(digits.push(digit).last() == digit);
}

/// The bucket of a digest is one of the buckets, depends on the first eight
/// digits alone, and is the number that they denote where there are enough
/// buckets.
pub proof fn law_buckets_follow_the_first_digits(
    digest: Seq<char>,
    other: Seq<char>,
    dimension: int,
)
    requires
        dimension > 0,
        digest.len() >= 8,
        other.len() >= 8,
    ensures
        0 <= digest_bucket(digest, dimension) < dimension,
        digest.take(8) == other.take(8) ==> digest_bucket(digest, dimension) == digest_bucket(
            other,
            dimension,
        ),
        0 <= hex_value(digest.take(8)) < dimension ==> digest_bucket(digest, dimension)
            == hex_value(digest.take(8)),
        (hex_value(digest.take(8)) - digest_bucket(digest, dimension)) % dimension == 0,
{
    let value = hex_value(digest.take(8));
    assert(0 <= value % dimension < dimension) by (nonlinear_arith)
        requires
            dimension > 0,
    ;
    if 0 <= value < dimension {
        assert(value % dimension == value) by (nonlinear_arith)
            requires
                0 <= value < dimension,
        ;
    }
    assert((value - value % dimension) % dimension == 0) by (nonlinear_arith)
        requires
            dimension > 0,
    ;
}

/// Occurrences are counted one by one: there are none in an empty list, those
/// of two lists add up, and a list of one number has it once.
pub proof fn law_numbers_are_counted_one_by_one(first: Seq<int>, second: Seq<int>, value: int)
    ensures
        occurrences(Seq::empty(), value) == 0,
        occurrences(first + second, value) == occurrences(first, value) + occurrences(
            second,
            value,
        ),
        occurrences(seq![value], value) == 1,
        forall|other: int| other != value ==> #[trigger] occurrences(seq![other], value) == 0,
    decreases second.len(),
{
    reveal_with_fuel(occurrences, 2);
    assert(seq![value].drop_last() =~= Seq::<int>::empty());
    assert forall|other: int| other != value implies #[trigger] occurrences(seq![other], value)
        == 0 by {
        assert(seq![other].drop_last() =~= Seq::<int>::empty());
    }
    if second.len() == 0 {
        assert(first + second =~= first);
    } else {
        law_numbers_are_counted_one_by_one(first, second.drop_last(), value);
        assert((first + second).drop_last() =~= first + second.drop_last());
        assert((first + second).last() == second.last());
    }
}

/// Each token falls into one bucket, that of its own digest.
pub proof fn law_each_token_has_its_bucket(tokens: Seq<Seq<char>>, dimension: int, i: int)
    requires
        0 <= i < tokens.len(),
    ensures
        buckets_of(tokens, dimension).len() == tokens.len(),
        buckets_of(tokens, dimension)[i] == digest_bucket(sha256_hex_of(tokens[i]), dimension),
{
}

/// The hexadecimal digits denote the numbers below sixteen, each digit one of
/// them, and no two the same.
pub proof fn law_hexadecimal_digits(first: char, second: char, value: int)
    ensures
        is_hex_digit(first) ==> 0 <= hex_digit(first) < 16,
        is_hex_digit(first) && is_hex_digit(second) && hex_digit(first) == hex_digit(second)
            ==> first == second,
        0 <= value < 10 ==> is_hex_digit((48 + value) as char) && hex_digit((48 + value) as char)
            == value,
        10 <= value < 16 ==> is_hex_digit((87 + value) as char) && hex_digit((87 + value) as char)
            == value,
{
}

} // verus!
