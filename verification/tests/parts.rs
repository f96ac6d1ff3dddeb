//! The logic behind hashing, tokenising, decoding and quoting, on given values.

use discovery_node::document::{append_tokens, joint_search_text};
use discovery_node::domains::{discovery_authorization_status, may_serve};
use discovery_node::json::JsonValue;
use discovery_node::package::{ResourceDiscoveryQuery, ResourceType};
use discovery_node::provider::{bucket_of_digest, count_occurrences};
use discovery_node::query::{keyword_order_of, KeywordOrder};
use discovery_node::ranking::{last_largest, token_overlap, TokenOverlap};
use discovery_node::seed::write_claims_object;
use discovery_node::startup::{cdn_resource_url, cdn_url_of_encoded, judge_key};
use discovery_node::sync::{batch_entries, fetch_step, find_batch_entry, FetchStep};
use discovery_node::tokens::{
    join_tokens, phrase_is_matched, push_alias_group, semantic_tokens_without_alias_expansion,
    technical_semantic_tokens, technical_token_of, Lexicon,
};

fn strings(values: &[&str]) -> Vec<String> {
    values.iter().map(|value| (*value).to_owned()).collect()
}

fn query(text: Option<&str>) -> ResourceDiscoveryQuery {
    ResourceDiscoveryQuery {
        query: text.map(str::to_owned),
        resource_type: None,
        capability_tags: vec![],
        protocol: None,
        version: None,
        version_mode: "exact".to_owned(),
        limit: 10,
    }
}

#[test]
fn technical_tokens_lose_punctuation_and_take_two_bytes() {
    assert_eq!(technical_token_of("mcp-server"), Some("mcp-server".to_owned()));
    assert_eq!(technical_token_of("x"), None);
    assert_eq!(technical_token_of(""), None);
}

#[test]
fn joined_tokens_are_distinct_and_long() {
    assert_eq!(
        join_tokens(&strings(&["mcp", "tool", "mcp"]), &strings(&["a", "tool", "合同", "合"])),
        strings(&["mcp", "tool", "合同"])
    );
    assert_eq!(join_tokens(&vec![], &vec![]), strings(&[]));
}

#[test]
fn alias_phrases_match_text_or_tokens() {
    let tokens = strings(&["contract", "review"]);
    assert!(phrase_is_matched("review", &tokens, "nothing"));
    assert!(phrase_is_matched("act re", &strings(&[]), "contract review"));
    assert!(!phrase_is_matched("risk", &tokens, "contract review"));
    let mut expanded = strings(&["review"]);
    push_alias_group(
        &mut expanded,
        &"document.analysis".to_owned(),
        &strings(&["contract", "review", "contract"]),
    );
    assert_eq!(expanded, strings(&["review", "document.analysis", "contract"]));
}

#[test]
fn search_text_is_followed_by_tokens() {
    assert_eq!(
        joint_search_text(&strings(&["  Contract   Review ", "", "Risk"])),
        "Contract Review Risk"
    );
    assert_eq!(append_tokens("contract", &strings(&["contract", "risk"])), "contract contract risk");
    assert_eq!(append_tokens("contract", &vec![]), "contract");
}

#[test]
fn digests_fall_into_buckets() {
    assert_eq!(bucket_of_digest("0000000a99", 64), 10);
    assert_eq!(bucket_of_digest("00000040", 64), 0);
    assert_eq!(bucket_of_digest("ffffffff", 1000), 295);
    assert_eq!(count_occurrences(&vec![2, 0, 2], 4), vec![1, 0, 2, 0]);
    assert_eq!(count_occurrences(&vec![], 1), vec![0]);
}

#[test]
fn overlaps_count_the_query_tokens() {
    assert_eq!(
        token_overlap(&strings(&["a1", "b2", "c3"]), &strings(&["c3", "a1", "a1"])),
        TokenOverlap { matched: 2, total: 3 }
    );
    assert_eq!(token_overlap(&vec![], &strings(&["a1"])), TokenOverlap { matched: 0, total: 0 });
}

#[test]
fn the_last_largest_count_wins() {
    assert_eq!(last_largest(&vec![1, 3, 3, 2]), Some(2));
    assert_eq!(last_largest(&vec![0, 0]), None);
    assert_eq!(last_largest(&vec![]), None);
}

#[test]
fn keyword_order_follows_tags_then_text() {
    let tags = strings(&["legal", "review"]);
    let KeywordOrder::ByTagsAndText(words) = keyword_order_of(&tags, &query(None)) else {
        panic!("ordered by tags");
    };
    assert_eq!(words, "legal review");
    let KeywordOrder::ByTagsAndText(words) = keyword_order_of(&tags, &query(Some("Contract Review")))
    else {
        panic!("ordered by tags");
    };
    assert_eq!(words, "contract review");
    let KeywordOrder::ByText(words) = keyword_order_of(&vec![], &query(Some("Contract Review")))
    else {
        panic!("ordered by text");
    };
    assert_eq!(words, "contract review");
    assert!(matches!(keyword_order_of(&vec![], &query(None)), KeywordOrder::ByUpdate));
}

#[test]
fn keys_are_judged_by_algorithm_bytes_and_fault() {
    assert_eq!(judge_key("Ed25519", &Ok(vec![7; 32]), &None), Ok(()));
    assert_eq!(
        judge_key("RSA", &Err("bad".to_owned()), &None).unwrap_err(),
        "unsupported_algorithm: RSA"
    );
    assert_eq!(
        judge_key("SM2", &Err("Invalid padding".to_owned()), &None).unwrap_err(),
        "Invalid padding"
    );
    assert_eq!(
        judge_key("SM2", &Ok(vec![]), &Some("invalid signing key".to_owned())).unwrap_err(),
        "invalid signing key"
    );
}

#[test]
fn encoded_identifiers_end_the_address() {
    assert_eq!(
        cdn_url_of_encoded("https://cdn", "did%3Aoan%3AA"),
        "https://cdn/cdn/resources/did%3Aoan%3AA"
    );
    assert_eq!(
        cdn_resource_url("https://cdn", "a b*-._~\u{e9}/Z9"),
        "https://cdn/cdn/resources/a+b*-._%7E%C3%A9%2FZ9"
    );
}

#[test]
fn hashed_claims_are_one_object() {
    let text = write_claims_object(
        "\"1.0.0\"",
        "\"did:oan:SKLG:a\"",
        "\"skill\"",
        "\"sha256:aa\"",
        "\"sha256:bb\"",
        "\"sha-256\"",
    );
    assert_eq!(
        text,
        "{\"packageVersion\":\"1.0.0\",\"resourceDid\":\"did:oan:SKLG:a\",\
         \"resourceType\":\"skill\",\"didDocumentHash\":\"sha256:aa\",\
         \"metadataHash\":\"sha256:bb\",\"hashAlgorithm\":\"sha-256\"}"
    );
    assert_eq!(ResourceType::Skill.as_str(), "skill");
}

fn object(members: Vec<(&str, JsonValue)>) -> JsonValue {
    JsonValue::Object(
        members.into_iter().map(|(name, value)| (name.to_owned(), value)).collect(),
    )
}

#[test]
fn batch_answers_hold_the_last_package_of_a_did() {
    let did = |value: &str| JsonValue::Text(value.to_owned());
    let answer = object(vec![(
        "items",
        JsonValue::Array(vec![
            object(vec![("resourceDid", did("did:oan:a")), ("package", JsonValue::Null)]),
            object(vec![("resourceDid", did("did:oan:b"))]),
            object(vec![("package", JsonValue::Null)]),
            object(vec![("package", JsonValue::Null), ("resourceDid", did("did:oan:a"))]),
        ]),
    )]);
    let entries = batch_entries(&answer);
    let indices: Vec<usize> = entries.iter().map(|entry| entry.index).collect();
    assert_eq!(indices, vec![0, 3]);
    assert_eq!(find_batch_entry(&entries, "did:oan:a"), Some(1));
    assert_eq!(find_batch_entry(&entries, "did:oan:b"), None);
    assert!(batch_entries(&JsonValue::Null).is_empty());
}

#[test]
fn statuses_say_whether_a_package_is_there() {
    assert_eq!(fetch_step(200), FetchStep::Read);
    assert_eq!(fetch_step(299), FetchStep::Read);
    assert_eq!(fetch_step(404), FetchStep::Missing);
    assert_eq!(fetch_step(500), FetchStep::Fail);
    assert_eq!(fetch_step(300), FetchStep::Fail);
}

#[test]
fn later_events_do_not_undo_a_revocation() {
    let did = "did:oan:AGDS:a";
    let event = |kind: &str| {
        object(vec![
            ("subjectDid", JsonValue::Text(did.to_owned())),
            ("eventType", JsonValue::Text(kind.to_owned())),
        ])
    };
    let bulletin = |events: Vec<JsonValue>| object(vec![("events", JsonValue::Array(events))]);
    let revoked = "DISCOVERY_NODE_REVOKED";
    let updated = "DISCOVERY_NODE_DOMAINS_UPDATED";
    assert_eq!(discovery_authorization_status(&bulletin(vec![event(updated)]), did), "active");
    assert_eq!(discovery_authorization_status(&bulletin(vec![event(revoked)]), did), "revoked");
    assert!(may_serve(&bulletin(vec![event(updated)]), did));
    assert!(!may_serve(&bulletin(vec![event(revoked), event(updated)]), did));
    assert_eq!(
        discovery_authorization_status(
            &bulletin(vec![event(updated), event(revoked), event(updated)]),
            did
        ),
        "revoked"
    );
    assert_eq!(
        discovery_authorization_status(&bulletin(vec![event(revoked)]), "did:oan:AGDS:b"),
        "active"
    );
}

#[test]
fn tokens_are_distinct_and_the_technical_ones_come_first() {
    let lexicon = Lexicon::new(&vec![]);
    let text = "Use MCP mcp for x 合同审查 and K8s/API";
    let technical = technical_semantic_tokens(text);
    let mut once: Vec<String> = vec![];
    for token in &technical {
        if !once.contains(token) {
            once.push(token.clone());
        }
    }
    assert_eq!(once, strings(&["use", "mcp", "for", "and", "k8s/api"]));
    let tokens = semantic_tokens_without_alias_expansion(&lexicon, text);
    assert_eq!(tokens[..once.len()], once[..]);
    for (place, token) in tokens.iter().enumerate() {
        assert!(token.chars().count() >= 2);
        assert!(!tokens[..place].contains(token));
    }
}
