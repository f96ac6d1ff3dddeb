//! The JSON texts of DID documents and of metadata, over which the hashes of a
//! package are computed: the form in which `serde` writes `oan_core::DidDocument`
//! and `oan_package::ResourceMetadata`, whose members that a package of this
//! library does not hold are absent or empty.

use vstd::prelude::*;

use crate::json::JsonValue;
use crate::package::{
    resource_type_name, AgentDescription, CryptoSuite, DidDocument, ExampleValue,
    ImplementationLink, OanMetadata, ProtocolBinding, ResourceDescription, ResourceMetadata,
    ResourceType, ServiceEndpoint, Timestamp, VerificationMethod,
};
use crate::text::{
    law_parts_of_parts_occur, law_text_occurs_between_any_others, lemma_texts_push, occurs_in,
    optional_text, text_result, texts,
};
use crate::words::{
    decimal, decimal_text, join_texts, joined, law_every_part_stands_in_the_joined_text,
    signed_decimal, signed_decimal_text,
};

verus! {

/// The hexadecimal digit of a number below sixteen, in lower case.
pub open spec fn lower_hex_digit(value: int) -> char {
    if value < 10 {
        (48 + value) as char
    } else {
        (87 + value) as char
    }
}

/// How a character stands in a JSON string.
pub open spec fn json_char(ch: char) -> Seq<char> {
    let code = ch as int;
    if ch == '"' || ch == '\\' {
        seq!['\\', ch]
    } else if code == 0x08 {
        seq!['\\', 'b']
    } else if code == 0x09 {
        seq!['\\', 't']
    } else if code == 0x0a {
        seq!['\\', 'n']
    } else if code == 0x0c {
        seq!['\\', 'f']
    } else if code == 0x0d {
        seq!['\\', 'r']
    } else if code < 0x20 {
        seq!['\\', 'u', '0', '0', lower_hex_digit(code / 16), lower_hex_digit(code % 16)]
    } else {
        seq![ch]
    }
}

/// How characters stand in a JSON string, one after the other.
pub open spec fn json_chars(text: Seq<char>) -> Seq<char>
    decreases text.len(),
{
    if text.len() == 0 {
        Seq::empty()
    } else {
        json_chars(text.drop_last()) + json_char(text.last())
    }
}

/// A text as a JSON string.
pub open spec fn json_string(text: Seq<char>) -> Seq<char> {
    seq!['"'] + json_chars(text) + seq!['"']
}

/// `serde_json::to_string` on a text: the text as a JSON string, in quotes,
/// with quotes, backslashes and control characters escaped and every other
/// character as it is. Writing a text cannot fail.
#[verifier::external_body]
pub(crate) fn write_json_string(text: &str) -> (written: String)
    ensures
        written@ == json_string(text@),
{
    serde_json::to_string(text).unwrap_or_default()
}

/// The JSON object with those members, each with its JSON text; a member
/// without one is left out.
pub open spec fn json_object(members: Seq<(Seq<char>, Option<Seq<char>>)>) -> Seq<char> {
    "{"@ + joined(present_members(members), ","@) + "}"@
}

/// A member of a JSON object, given its JSON text.
pub open spec fn json_member(name: Seq<char>, value: Seq<char>) -> Seq<char> {
    json_string(name) + ":"@ + value
}

/// The members that have a JSON text, in their order.
pub open spec fn present_members(members: Seq<(Seq<char>, Option<Seq<char>>)>) -> Seq<Seq<char>>
    decreases members.len(),
{
    if members.len() == 0 {
        Seq::empty()
    } else {
        let rest = present_members(members.drop_last());
        match members.last().1 {
            Some(value) => rest.push(json_member(members.last().0, value)),
            None => rest,
        }
    }
}

/// The JSON array of those JSON texts.
pub open spec fn json_array(items: Seq<Seq<char>>) -> Seq<char> {
    "["@ + joined(items, ","@) + "]"@
}

/// Members of an object, as texts.
pub open spec fn member_texts(members: Seq<(&'static str, Option<String>)>) -> Seq<
    (Seq<char>, Option<Seq<char>>),
> {
    members.map_values(
        |member: (&'static str, Option<String>)| (member.0@, optional_text(member.1)),
    )
}

/// A text between two others.
fn enclosed(first: &str, text: &str, last: &str) -> (whole: String)
    ensures
        whole@ == first@ + text@ + last@,
{
    let mut whole = first.to_owned();
    whole.append(text);
    whole.append(last);
    whole
}

/// A member of a JSON object, given its JSON text.
fn write_member(name: &str, value: &str) -> (text: String)
    ensures
        text@ == json_member(name@, value@),
{
    enclosed(&write_json_string(name), ":", value)
}

/// The JSON object with those members, without those that have no JSON text.
fn write_object(members: &Vec<(&'static str, Option<String>)>) -> (text: String)
    ensures
        text@ == json_object(member_texts(members@)),
{
    broadcast use lemma_texts_push;

    let ghost all = member_texts(members@);
    let mut present: Vec<String> = Vec::new();
    let mut i: usize = 0;
    assert(texts(present@) =~= present_members(all.take(0)));
    while i < members.len()
        invariant
            i <= members@.len(),
            all == member_texts(members@),
            texts(present@) == present_members(all.take(i as int)),
        decreases members@.len() - i,
    {
        assert(all.take(i as int + 1).drop_last() =~= all.take(i as int));
        assert(all.take(i as int + 1).last() == all[i as int]);
        if let Some(value) = &members[i].1 {
            present.push(write_member(members[i].0, value));
        }
        i = i + 1;
    }
    assert(all.take(i as int) =~= all);
    enclosed("{", &join_texts(&present, ","), "}")
}

/// The JSON array of those JSON texts.
fn write_array(items: &Vec<String>) -> (text: String)
    ensures
        text@ == json_array(texts(items@)),
{
    enclosed("[", &join_texts(items, ","), "]")
}

/// Texts as a JSON array of strings.
pub open spec fn json_strings(values: Seq<Seq<char>>) -> Seq<char> {
    json_array(values.map_values(|text: Seq<char>| json_string(text)))
}

/// Texts as a JSON array of strings.
fn write_strings(values: &Vec<String>) -> (text: String)
    ensures
        text@ == json_strings(texts(values@)),
{
    broadcast use lemma_texts_push;

    let ghost all = texts(values@).map_values(|text: Seq<char>| json_string(text));
    let mut written: Vec<String> = Vec::new();
    let mut i: usize = 0;
    assert(texts(written@) =~= all.take(0));
    while i < values.len()
        invariant
            i <= values@.len(),
            all == texts(values@).map_values(|text: Seq<char>| json_string(text)),
            texts(written@) == all.take(i as int),
        decreases values@.len() - i,
    {
        written.push(write_json_string(&values[i]));
        assert(all.take(i as int + 1) =~= all.take(i as int).push(all[i as int]));
        i = i + 1;
    }
    assert(all.take(i as int) =~= all);
    write_array(&written)
}

/// A text as a JSON string, where there is one.
pub open spec fn optional_json_string(value: Option<Seq<char>>) -> Option<Seq<char>> {
    match value {
        Some(text) => Some(json_string(text)),
        None => None,
    }
}

/// A text as a JSON string, where there is one.
fn write_optional_string(value: &Option<String>) -> (text: Option<String>)
    ensures
        optional_text(text) == optional_json_string(optional_text(*value)),
{
    match value {
        Some(value) => Some(write_json_string(value)),
        None => None,
    }
}

/// The name of a resource type as a JSON string, where there is one.
pub open spec fn optional_type(value: Option<ResourceType>) -> Option<Seq<char>> {
    match value {
        Some(resource_type) => Some(json_string(resource_type_name(resource_type))),
        None => None,
    }
}

/// The name of a resource type as a JSON string, where there is one.
fn write_optional_type(value: Option<ResourceType>) -> (text: Option<String>)
    ensures
        optional_text(text) == optional_type(value),
{
    match value {
        Some(resource_type) => Some(write_json_string(resource_type.as_str())),
        None => None,
    }
}

/// The name of a suite, as documents write it.
pub open spec fn suite_name(suite: CryptoSuite) -> Seq<char> {
    match suite {
        CryptoSuite::Ed25519Sha256Legacy => "ed25519-sha256-legacy"@,
        CryptoSuite::Ed25519Sha256 => "ed25519-sha256"@,
        CryptoSuite::Sm2Sm3 => "sm2-sm3"@,
    }
}

/// The name of a suite as a JSON string, where there is one.
pub open spec fn optional_suite(value: Option<CryptoSuite>) -> Option<Seq<char>> {
    match value {
        Some(suite) => Some(json_string(suite_name(suite))),
        None => None,
    }
}

/// The name of a suite as a JSON string, where there is one.
fn write_optional_suite(value: Option<CryptoSuite>) -> (text: Option<String>)
    ensures
        optional_text(text) == optional_suite(value),
{
    match value {
        Some(CryptoSuite::Ed25519Sha256Legacy) => Some(write_json_string("ed25519-sha256-legacy")),
        Some(CryptoSuite::Ed25519Sha256) => Some(write_json_string("ed25519-sha256")),
        Some(CryptoSuite::Sm2Sm3) => Some(write_json_string("sm2-sm3")),
        None => None,
    }
}

/// A port in decimal notation, where there is one.
pub open spec fn optional_port(value: Option<u16>) -> Option<Seq<char>> {
    match value {
        Some(port) => Some(decimal(port as nat)),
        None => None,
    }
}

/// A port in decimal notation, where there is one.
fn write_optional_port(value: Option<u16>) -> (text: Option<String>)
    ensures
        optional_text(text) == optional_port(value),
{
    match value {
        Some(port) => Some(decimal_text(port as u64)),
        None => None,
    }
}

/// A JSON value as text, without blanks.
pub open spec fn json_text(value: JsonValue) -> Seq<char>
    decreases value,
{
    match value {
        JsonValue::Null => "null"@,
        JsonValue::Bool(truth) => if truth {
            "true"@
        } else {
            "false"@
        },
        JsonValue::Integer(number) => signed_decimal(number as int),
        JsonValue::Number(number) => number@,
        JsonValue::Text(text) => json_string(text@),
        JsonValue::Array(items) => json_array(json_texts(items@)),
        JsonValue::Object(members) => "{"@ + joined(json_member_texts(members@), ","@) + "}"@,
    }
}

/// JSON values as texts.
pub open spec fn json_texts(items: Seq<JsonValue>) -> Seq<Seq<char>>
    decreases items,
{
    if items.len() == 0 {
        Seq::empty()
    } else {
        json_texts(items.drop_last()).push(json_text(items.last()))
    }
}

/// The members of a JSON object as texts.
pub open spec fn json_member_texts(members: Seq<(String, JsonValue)>) -> Seq<Seq<char>>
    decreases members,
{
    if members.len() == 0 {
        Seq::empty()
    } else {
        json_member_texts(members.drop_last()).push(
            json_member(members.last().0@, json_text(members.last().1)),
        )
    }
}

/// A JSON value as text, without blanks.
fn write_json_value(value: &JsonValue) -> (text: String)
    ensures
        text@ == json_text(*value),
    decreases value,
{
    match value {
        JsonValue::Null => "null".to_owned(),
        JsonValue::Bool(truth) => if *truth {
            "true".to_owned()
        } else {
            "false".to_owned()
        },
        JsonValue::Integer(number) => signed_decimal_text(*number),
        JsonValue::Number(number) => number.clone(),
        JsonValue::Text(text) => write_json_string(text),
        JsonValue::Array(items) => write_array(&write_json_values(items)),
        JsonValue::Object(members) => {
            enclosed("{", &join_texts(&write_json_members(members), ","), "}")
        },
    }
}

/// JSON values as texts.
fn write_json_values(items: &Vec<JsonValue>) -> (written: Vec<String>)
    ensures
        texts(written@) == json_texts(items@),
    decreases items,
{
    broadcast use lemma_texts_push;

    let mut written: Vec<String> = Vec::new();
    let mut i: usize = 0;
    assert(texts(written@) =~= json_texts(items@.take(0)));
    while i < items.len()
        invariant
            i <= items@.len(),
            texts(written@) == json_texts(items@.take(i as int)),
        decreases items@.len() - i,
    {
        assert(items@.take(i as int + 1).drop_last() =~= items@.take(i as int));
        written.push(write_json_value(&items[i]));
        i = i + 1;
    }
    assert(items@.take(i as int) =~= items@);
    written
}

/// The members of a JSON object as texts.
fn write_json_members(members: &Vec<(String, JsonValue)>) -> (written: Vec<String>)
    ensures
        texts(written@) == json_member_texts(members@),
    decreases members,
{
    broadcast use lemma_texts_push;

    let mut written: Vec<String> = Vec::new();
    let mut i: usize = 0;
    assert(texts(written@) =~= json_member_texts(members@.take(0)));
    while i < members.len()
        invariant
            i <= members@.len(),
            texts(written@) == json_member_texts(members@.take(i as int)),
        decreases members@.len() - i,
    {
        assert(members@.take(i as int + 1).drop_last() =~= members@.take(i as int));
        written.push(write_member(&members[i].0, &write_json_value(&members[i].1)));
        i = i + 1;
    }
    assert(members@.take(i as int) =~= members@);
    written
}

/// The members of a service, in JSON.
pub open spec fn service_members(service: ServiceEndpoint) -> Seq<
    (Seq<char>, Option<Seq<char>>),
> {
    seq![
        ("id"@, Some(json_string(service.id@))),
        ("type"@, Some(json_string(service.service_type@))),
        ("serviceEndpoint"@, Some(json_string(service.service_endpoint@))),
        ("version"@, optional_json_string(optional_text(service.version))),
        ("protocol"@, optional_json_string(optional_text(service.protocol))),
        ("serverType"@, optional_json_string(optional_text(service.server_type))),
        ("port"@, optional_port(service.port)),
    ]
}

/// A service as a JSON object.
pub open spec fn service_json(service: ServiceEndpoint) -> Seq<char> {
    json_object(service_members(service))
}

/// A service as a JSON object.
fn write_service(service: &ServiceEndpoint) -> (text: String)
    ensures
        text@ == service_json(*service),
{
    let mut members: Vec<(&'static str, Option<String>)> = Vec::new();
    members.push(("id", Some(write_json_string(&service.id))));
    members.push(("type", Some(write_json_string(&service.service_type))));
    members.push(("serviceEndpoint", Some(write_json_string(&service.service_endpoint))));
    members.push(("version", write_optional_string(&service.version)));
    members.push(("protocol", write_optional_string(&service.protocol)));
    members.push(("serverType", write_optional_string(&service.server_type)));
    members.push(("port", write_optional_port(service.port)));
    assert(member_texts(members@) =~= service_members(*service));
    write_object(&members)
}

/// Services as a JSON array.
pub open spec fn services_json(items: Seq<ServiceEndpoint>) -> Seq<char> {
    json_array(items.map_values(|item: ServiceEndpoint| service_json(item)))
}

/// Services as a JSON array.
fn write_services(items: &Vec<ServiceEndpoint>) -> (text: String)
    ensures
        text@ == services_json(items@),
{
    broadcast use lemma_texts_push;

    let ghost all = items@.map_values(|item: ServiceEndpoint| service_json(item));
    let mut written: Vec<String> = Vec::new();
    let mut i: usize = 0;
    assert(texts(written@) =~= all.take(0));
    while i < items.len()
        invariant
            i <= items@.len(),
            all == items@.map_values(|item: ServiceEndpoint| service_json(item)),
            texts(written@) == all.take(i as int),
        decreases items@.len() - i,
    {
        written.push(write_service(&items[i]));
        assert(all.take(i as int + 1) =~= all.take(i as int).push(all[i as int]));
        i = i + 1;
    }
    assert(all.take(i as int) =~= all);
    write_array(&written)
}

/// The members of a key of a DID document, in JSON.
pub open spec fn method_members(method: VerificationMethod) -> Seq<
    (Seq<char>, Option<Seq<char>>),
> {
    seq![
        ("id"@, Some(json_string(method.id@))),
        ("type"@, Some(json_string(method.method_type@))),
        ("controller"@, Some(json_string(method.controller@))),
        ("cryptoSuite"@, optional_suite(method.crypto_suite)),
        ("publicKeyFormat"@, optional_json_string(optional_text(method.public_key_format))),
        ("publicKeyMultibase"@, optional_json_string(optional_text(method.public_key_multibase))),
    ]
}

/// A key of a DID document as a JSON object.
pub open spec fn method_json(method: VerificationMethod) -> Seq<char> {
    json_object(method_members(method))
}

/// A key of a DID document as a JSON object.
fn write_method(method: &VerificationMethod) -> (text: String)
    ensures
        text@ == method_json(*method),
{
    let mut members: Vec<(&'static str, Option<String>)> = Vec::new();
    members.push(("id", Some(write_json_string(&method.id))));
    members.push(("type", Some(write_json_string(&method.method_type))));
    members.push(("controller", Some(write_json_string(&method.controller))));
    members.push(("cryptoSuite", write_optional_suite(method.crypto_suite)));
    members.push(("publicKeyFormat", write_optional_string(&method.public_key_format)));
    members.push(("publicKeyMultibase", write_optional_string(&method.public_key_multibase)));
    assert(member_texts(members@) =~= method_members(*method));
    write_object(&members)
}

/// Keys of a DID document as a JSON array.
pub open spec fn methods_json(items: Seq<VerificationMethod>) -> Seq<char> {
    json_array(items.map_values(|item: VerificationMethod| method_json(item)))
}

/// Keys of a DID document as a JSON array.
fn write_methods(items: &Vec<VerificationMethod>) -> (text: String)
    ensures
        text@ == methods_json(items@),
{
    broadcast use lemma_texts_push;

    let ghost all = items@.map_values(|item: VerificationMethod| method_json(item));
    let mut written: Vec<String> = Vec::new();
    let mut i: usize = 0;
    assert(texts(written@) =~= all.take(0));
    while i < items.len()
        invariant
            i <= items@.len(),
            all == items@.map_values(|item: VerificationMethod| method_json(item)),
            texts(written@) == all.take(i as int),
        decreases items@.len() - i,
    {
        written.push(write_method(&items[i]));
        assert(all.take(i as int + 1) =~= all.take(i as int).push(all[i as int]));
        i = i + 1;
    }
    assert(all.take(i as int) =~= all);
    write_array(&written)
}

/// The members of the binding of a service to a protocol, in JSON.
pub open spec fn binding_members(binding: ProtocolBinding) -> Seq<
    (Seq<char>, Option<Seq<char>>),
> {
    seq![
        ("id"@, Some(json_string(binding.id@))),
        ("protocol"@, Some(json_string(binding.protocol@))),
        ("version"@, optional_json_string(optional_text(binding.version))),
        ("transport"@, optional_json_string(optional_text(binding.transport))),
        ("serviceRef"@, optional_json_string(optional_text(binding.service_ref))),
        ("schemaRef"@, optional_json_string(optional_text(binding.schema_ref))),
    ]
}

/// The binding of a service to a protocol as a JSON object.
pub open spec fn binding_json(binding: ProtocolBinding) -> Seq<char> {
    json_object(binding_members(binding))
}

/// The binding of a service to a protocol as a JSON object.
fn write_binding(binding: &ProtocolBinding) -> (text: String)
    ensures
        text@ == binding_json(*binding),
{
    let mut members: Vec<(&'static str, Option<String>)> = Vec::new();
    members.push(("id", Some(write_json_string(&binding.id))));
    members.push(("protocol", Some(write_json_string(&binding.protocol))));
    members.push(("version", write_optional_string(&binding.version)));
    members.push(("transport", write_optional_string(&binding.transport)));
    members.push(("serviceRef", write_optional_string(&binding.service_ref)));
    members.push(("schemaRef", write_optional_string(&binding.schema_ref)));
    assert(member_texts(members@) =~= binding_members(*binding));
    write_object(&members)
}

/// Bindings of services to protocols as a JSON array.
pub open spec fn bindings_json(items: Seq<ProtocolBinding>) -> Seq<char> {
    json_array(items.map_values(|item: ProtocolBinding| binding_json(item)))
}

/// Bindings of services to protocols as a JSON array.
fn write_bindings(items: &Vec<ProtocolBinding>) -> (text: String)
    ensures
        text@ == bindings_json(items@),
{
    broadcast use lemma_texts_push;

    let ghost all = items@.map_values(|item: ProtocolBinding| binding_json(item));
    let mut written: Vec<String> = Vec::new();
    let mut i: usize = 0;
    assert(texts(written@) =~= all.take(0));
    while i < items.len()
        invariant
            i <= items@.len(),
            all == items@.map_values(|item: ProtocolBinding| binding_json(item)),
            texts(written@) == all.take(i as int),
        decreases items@.len() - i,
    {
        written.push(write_binding(&items[i]));
        assert(all.take(i as int + 1) =~= all.take(i as int).push(all[i as int]));
        i = i + 1;
    }
    assert(all.take(i as int) =~= all);
    write_array(&written)
}

/// The members of a link to an implementation, in JSON.
pub open spec fn link_members(link: ImplementationLink) -> Seq<
    (Seq<char>, Option<Seq<char>>),
> {
    seq![
        ("relation"@, Some(json_string(link.relation@))),
        ("targetDid"@, Some(json_string(link.target_did@))),
        ("targetType"@, optional_type(link.target_type)),
        ("targetService"@, optional_json_string(optional_text(link.target_service))),
        ("versionConstraint"@, optional_json_string(optional_text(link.version_constraint))),
    ]
}

/// A link to an implementation as a JSON object.
pub open spec fn link_json(link: ImplementationLink) -> Seq<char> {
    json_object(link_members(link))
}

/// A link to an implementation as a JSON object.
fn write_link(link: &ImplementationLink) -> (text: String)
    ensures
        text@ == link_json(*link),
{
    let mut members: Vec<(&'static str, Option<String>)> = Vec::new();
    members.push(("relation", Some(write_json_string(&link.relation))));
    members.push(("targetDid", Some(write_json_string(&link.target_did))));
    members.push(("targetType", write_optional_type(link.target_type)));
    members.push(("targetService", write_optional_string(&link.target_service)));
    members.push(("versionConstraint", write_optional_string(&link.version_constraint)));
    assert(member_texts(members@) =~= link_members(*link));
    write_object(&members)
}

/// Links to implementations as a JSON array.
pub open spec fn links_json(items: Seq<ImplementationLink>) -> Seq<char> {
    json_array(items.map_values(|item: ImplementationLink| link_json(item)))
}

/// Links to implementations as a JSON array.
fn write_links(items: &Vec<ImplementationLink>) -> (text: String)
    ensures
        text@ == links_json(items@),
{
    broadcast use lemma_texts_push;

    let ghost all = items@.map_values(|item: ImplementationLink| link_json(item));
    let mut written: Vec<String> = Vec::new();
    let mut i: usize = 0;
    assert(texts(written@) =~= all.take(0));
    while i < items.len()
        invariant
            i <= items@.len(),
            all == items@.map_values(|item: ImplementationLink| link_json(item)),
            texts(written@) == all.take(i as int),
        decreases items@.len() - i,
    {
        written.push(write_link(&items[i]));
        assert(all.take(i as int + 1) =~= all.take(i as int).push(all[i as int]));
        i = i + 1;
    }
    assert(all.take(i as int) =~= all);
    write_array(&written)
}

/// An example as JSON text.
pub open spec fn example_json(example: ExampleValue) -> Seq<char> {
    match example {
        ExampleValue::Text(text) => json_string(text@),
        ExampleValue::Structured(text) => text@,
        ExampleValue::Scalar(text) => text@,
    }
}

/// An example as JSON text.
fn write_example(example: &ExampleValue) -> (text: String)
    ensures
        text@ == example_json(*example),
{
    match example {
        ExampleValue::Text(text) => write_json_string(text),
        ExampleValue::Structured(text) => text.clone(),
        ExampleValue::Scalar(text) => text.clone(),
    }
}

/// Examples as a JSON array.
pub open spec fn examples_json(items: Seq<ExampleValue>) -> Seq<char> {
    json_array(items.map_values(|item: ExampleValue| example_json(item)))
}

/// Examples as a JSON array.
fn write_examples(items: &Vec<ExampleValue>) -> (text: String)
    ensures
        text@ == examples_json(items@),
{
    broadcast use lemma_texts_push;

    let ghost all = items@.map_values(|item: ExampleValue| example_json(item));
    let mut written: Vec<String> = Vec::new();
    let mut i: usize = 0;
    assert(texts(written@) =~= all.take(0));
    while i < items.len()
        invariant
            i <= items@.len(),
            all == items@.map_values(|item: ExampleValue| example_json(item)),
            texts(written@) == all.take(i as int),
        decreases items@.len() - i,
    {
        written.push(write_example(&items[i]));
        assert(all.take(i as int + 1) =~= all.take(i as int).push(all[i as int]));
        i = i + 1;
    }
    assert(all.take(i as int) =~= all);
    write_array(&written)
}

/// The examples of a description as a JSON array, where there are any.
pub open spec fn optional_examples(examples: Seq<ExampleValue>) -> Option<Seq<char>> {
    if examples.len() == 0 {
        None
    } else {
        Some(examples_json(examples))
    }
}

/// The examples of a description as a JSON array, where there are any.
fn write_optional_examples(examples: &Vec<ExampleValue>) -> (text: Option<String>)
    ensures
        optional_text(text) == optional_examples(examples@),
{
    if examples.len() == 0 {
        None
    } else {
        Some(write_examples(examples))
    }
}

/// The members of the description of a resource, in JSON.
pub open spec fn description_members(description: ResourceDescription) -> Seq<
    (Seq<char>, Option<Seq<char>>),
> {
    seq![
        ("name"@, optional_json_string(optional_text(description.name))),
        ("description"@, optional_json_string(optional_text(description.description))),
        (
            "capabilityDescription"@,
            optional_json_string(optional_text(description.capability_description)),
        ),
        ("capabilityTags"@, Some(json_strings(texts(description.capability_tags@)))),
        ("useCaseExamples"@, Some(json_strings(texts(description.use_case_examples@)))),
        ("examples"@, optional_examples(description.examples@)),
        ("version"@, optional_json_string(optional_text(description.version))),
    ]
}

/// The description of a resource as a JSON object.
pub open spec fn description_json(description: ResourceDescription) -> Seq<char> {
    json_object(description_members(description))
}

/// The description of a resource as a JSON object.
fn write_description(description: &ResourceDescription) -> (text: String)
    ensures
        text@ == description_json(*description),
{
    let mut members: Vec<(&'static str, Option<String>)> = Vec::new();
    members.push(("name", write_optional_string(&description.name)));
    members.push(("description", write_optional_string(&description.description)));
    members.push(
        ("capabilityDescription", write_optional_string(&description.capability_description)),
    );
    members.push(("capabilityTags", Some(write_strings(&description.capability_tags))));
    members.push(("useCaseExamples", Some(write_strings(&description.use_case_examples))));
    members.push(("examples", write_optional_examples(&description.examples)));
    members.push(("version", write_optional_string(&description.version)));
    assert(member_texts(members@) =~= description_members(*description));
    write_object(&members)
}

/// The members of the description of an agent, in JSON.
pub open spec fn agent_members(agent: AgentDescription) -> Seq<
    (Seq<char>, Option<Seq<char>>),
> {
    seq![
        ("capabilityDescription"@, Some(json_string(agent.capability_description@))),
        ("capabilityTags"@, Some(json_strings(texts(agent.capability_tags@)))),
        ("useCaseExamples"@, Some(json_strings(texts(agent.use_case_examples@)))),
    ]
}

/// The description of an agent as a JSON object.
pub open spec fn agent_json(agent: AgentDescription) -> Seq<char> {
    json_object(agent_members(agent))
}

/// The description of an agent as a JSON object.
fn write_agent(agent: &AgentDescription) -> (text: String)
    ensures
        text@ == agent_json(*agent),
{
    let mut members: Vec<(&'static str, Option<String>)> = Vec::new();
    members.push(("capabilityDescription", Some(write_json_string(&agent.capability_description))));
    members.push(("capabilityTags", Some(write_strings(&agent.capability_tags))));
    members.push(("useCaseExamples", Some(write_strings(&agent.use_case_examples))));
    assert(member_texts(members@) =~= agent_members(*agent));
    write_object(&members)
}

/// The description of a resource as a JSON object, where there is one.
pub open spec fn optional_description(value: Option<ResourceDescription>) -> Option<Seq<char>> {
    match value {
        Some(described) => Some(description_json(described)),
        None => None,
    }
}

/// The description of a resource as a JSON object, where there is one.
fn write_optional_description(value: &Option<ResourceDescription>) -> (text: Option<String>)
    ensures
        optional_text(text) == optional_description(*value),
{
    match value {
        Some(described) => Some(write_description(described)),
        None => None,
    }
}

/// The description of an agent as a JSON object, where there is one.
pub open spec fn optional_agent(value: Option<AgentDescription>) -> Option<Seq<char>> {
    match value {
        Some(described) => Some(agent_json(described)),
        None => None,
    }
}

/// The description of an agent as a JSON object, where there is one.
fn write_optional_agent(value: &Option<AgentDescription>) -> (text: Option<String>)
    ensures
        optional_text(text) == optional_agent(*value),
{
    match value {
        Some(described) => Some(write_agent(described)),
        None => None,
    }
}

/// The members of what a DID document says of its resource, in JSON.
pub open spec fn oan_metadata_members(metadata: OanMetadata) -> Seq<
    (Seq<char>, Option<Seq<char>>),
> {
    seq![
        ("subjectType"@, Some(json_string(resource_type_name(metadata.subject_type)))),
        ("resourceType"@, Some(json_string(resource_type_name(metadata.resource_type)))),
        ("publisherDid"@, optional_json_string(optional_text(metadata.publisher_did))),
        ("resourceDescription"@, optional_description(metadata.resource_description)),
        ("agentDescription"@, optional_agent(metadata.agent_description)),
        ("capabilityTags"@, Some(json_strings(texts(metadata.capability_tags@)))),
        ("authorizedDomains"@, Some(json_strings(texts(metadata.authorized_domains@)))),
        ("protocolBindings"@, Some(bindings_json(metadata.protocol_bindings@))),
        ("implementationLinks"@, Some(links_json(metadata.implementation_links@))),
        ("credentialRequirements"@, Some("[]"@)),
        ("networkScope"@, optional_json_string(optional_text(metadata.network_scope))),
        ("lifecycleState"@, optional_json_string(optional_text(metadata.lifecycle_state))),
    ]
}

/// What a DID document says of its resource, as a JSON object.
pub open spec fn oan_metadata_json(metadata: OanMetadata) -> Seq<char> {
    json_object(oan_metadata_members(metadata))
}

/// What a DID document says of its resource, as a JSON object.
fn write_oan_metadata(metadata: &OanMetadata) -> (text: String)
    ensures
        text@ == oan_metadata_json(*metadata),
{
    let mut members: Vec<(&'static str, Option<String>)> = Vec::new();
    members.push(("subjectType", Some(write_json_string(metadata.subject_type.as_str()))));
    members.push(("resourceType", Some(write_json_string(metadata.resource_type.as_str()))));
    members.push(("publisherDid", write_optional_string(&metadata.publisher_did)));
    members.push(
        ("resourceDescription", write_optional_description(&metadata.resource_description)),
    );
    members.push(("agentDescription", write_optional_agent(&metadata.agent_description)));
    members.push(("capabilityTags", Some(write_strings(&metadata.capability_tags))));
    members.push(("authorizedDomains", Some(write_strings(&metadata.authorized_domains))));
    members.push(("protocolBindings", Some(write_bindings(&metadata.protocol_bindings))));
    members.push(("implementationLinks", Some(write_links(&metadata.implementation_links))));
    members.push(("credentialRequirements", Some("[]".to_owned())));
    members.push(("networkScope", write_optional_string(&metadata.network_scope)));
    members.push(("lifecycleState", write_optional_string(&metadata.lifecycle_state)));
    assert(member_texts(members@) =~= oan_metadata_members(*metadata));
    write_object(&members)
}

/// What a DID document says of its resource, as a JSON object, where it says
/// anything.
pub open spec fn optional_oan_metadata(value: Option<OanMetadata>) -> Option<Seq<char>> {
    match value {
        Some(metadata) => Some(oan_metadata_json(metadata)),
        None => None,
    }
}

/// What a DID document says of its resource, as a JSON object, where it says
/// anything.
fn write_optional_oan_metadata(value: &Option<OanMetadata>) -> (text: Option<String>)
    ensures
        optional_text(text) == optional_oan_metadata(*value),
{
    match value {
        Some(metadata) => Some(write_oan_metadata(metadata)),
        None => None,
    }
}

/// The members of a DID document, in JSON.
pub open spec fn document_members(document: DidDocument) -> Seq<
    (Seq<char>, Option<Seq<char>>),
> {
    seq![
        ("@context"@, Some(json_strings(texts(document.context@)))),
        ("id"@, Some(json_string(document.id@))),
        ("verificationMethod"@, Some(methods_json(document.verification_method@))),
        ("authentication"@, Some(json_strings(texts(document.authentication@)))),
        ("assertionMethod"@, Some(json_strings(texts(document.assertion_method@)))),
        ("service"@, Some(services_json(document.service@))),
        ("oanMetadata"@, optional_oan_metadata(document.oan_metadata)),
    ]
}

/// A DID document as a JSON object.
#[verifier::opaque]
pub open spec fn document_json(document: DidDocument) -> Seq<char> {
    json_object(document_members(document))
}

/// A DID document as a JSON object.
pub fn write_document(document: &DidDocument) -> (text: String)
    ensures
        text@ == document_json(*document),
{
    reveal(document_json);
    let mut members: Vec<(&'static str, Option<String>)> = Vec::new();
    members.push(("@context", Some(write_strings(&document.context))));
    members.push(("id", Some(write_json_string(&document.id))));
    members.push(("verificationMethod", Some(write_methods(&document.verification_method))));
    members.push(("authentication", Some(write_strings(&document.authentication))));
    members.push(("assertionMethod", Some(write_strings(&document.assertion_method))));
    members.push(("service", Some(write_services(&document.service))));
    members.push(("oanMetadata", write_optional_oan_metadata(&document.oan_metadata)));
    assert(member_texts(members@) =~= document_members(*document));
    write_object(&members)
}

/// The members of the metadata of a package, in JSON, given the time of its
/// last change as text.
pub open spec fn metadata_members(metadata: ResourceMetadata, updated_at: Seq<char>) -> Seq<
    (Seq<char>, Option<Seq<char>>),
> {
    seq![
        ("resourceDid"@, Some(json_string(metadata.resource_did@))),
        ("resourceType"@, Some(json_string(resource_type_name(metadata.resource_type)))),
        ("subjectType"@, Some(json_string(resource_type_name(metadata.subject_type)))),
        ("publisherDid"@, optional_json_string(optional_text(metadata.publisher_did))),
        ("subjectDid"@, optional_json_string(optional_text(metadata.subject_did))),
        ("name"@, Some(json_string(metadata.name@))),
        ("description"@, Some(json_string(metadata.description@))),
        ("capabilityTags"@, Some(json_strings(texts(metadata.capability_tags@)))),
        ("authorizedDomains"@, Some(json_strings(texts(metadata.authorized_domains@)))),
        ("protocolBindings"@, Some(json_array(json_texts(metadata.protocol_bindings@)))),
        ("services"@, Some(services_json(metadata.services@))),
        ("lifecycleState"@, Some(json_string(metadata.lifecycle_state@))),
        ("packageVersion"@, Some(json_string(metadata.package_version@))),
        ("packageHash"@, Some(json_string(metadata.package_hash@))),
        ("metadataHash"@, Some(json_string(metadata.metadata_hash@))),
        ("hashAlgorithm"@, Some(json_string(metadata.hash_algorithm@))),
        ("updatedAt"@, Some(json_string(updated_at))),
    ]
}

/// The metadata of a package as a JSON object, given the time of its last
/// change as text.
#[verifier::opaque]
pub open spec fn metadata_json(metadata: ResourceMetadata, updated_at: Seq<char>) -> Seq<char> {
    json_object(metadata_members(metadata, updated_at))
}

/// The metadata of a package as a JSON object, given the time of its last
/// change as text.
pub fn write_metadata(metadata: &ResourceMetadata, updated_at: &str) -> (text: String)
    ensures
        text@ == metadata_json(*metadata, updated_at@),
{
    reveal(metadata_json);
    let mut members: Vec<(&'static str, Option<String>)> = Vec::new();
    members.push(("resourceDid", Some(write_json_string(&metadata.resource_did))));
    members.push(("resourceType", Some(write_json_string(metadata.resource_type.as_str()))));
    members.push(("subjectType", Some(write_json_string(metadata.subject_type.as_str()))));
    members.push(("publisherDid", write_optional_string(&metadata.publisher_did)));
    members.push(("subjectDid", write_optional_string(&metadata.subject_did)));
    members.push(("name", Some(write_json_string(&metadata.name))));
    members.push(("description", Some(write_json_string(&metadata.description))));
    members.push(("capabilityTags", Some(write_strings(&metadata.capability_tags))));
    members.push(("authorizedDomains", Some(write_strings(&metadata.authorized_domains))));
    members.push(
        ("protocolBindings", Some(write_array(&write_json_values(&metadata.protocol_bindings)))),
    );
    members.push(("services", Some(write_services(&metadata.services))));
    members.push(("lifecycleState", Some(write_json_string(&metadata.lifecycle_state))));
    members.push(("packageVersion", Some(write_json_string(&metadata.package_version))));
    members.push(("packageHash", Some(write_json_string(&metadata.package_hash))));
    members.push(("metadataHash", Some(write_json_string(&metadata.metadata_hash))));
    members.push(("hashAlgorithm", Some(write_json_string(&metadata.hash_algorithm))));
    members.push(("updatedAt", Some(write_json_string(updated_at))));
    assert(member_texts(members@) =~= metadata_members(*metadata, updated_at@));
    write_object(&members)
}

/// What `chrono` writes in the form of RFC 3339, in UTC, for that many seconds
/// since the epoch and nanoseconds after them; nothing where they are out of
/// its range.
pub uninterp spec fn rfc3339(seconds: i64, nanos: u32) -> Option<Seq<char>>;

/// `chrono::DateTime::from_timestamp`, then `to_rfc3339_opts` with as many
/// digits after the second as are needed, and `Z` for UTC: a function of the
/// time alone. From 1970 to the year 9999, and with less than a second of
/// nanoseconds, every time can be written.
#[verifier::external_body]
fn write_rfc3339(time: &Timestamp) -> (text: Option<String>)
    ensures
        optional_text(text) == rfc3339(time.seconds, time.nanos),
        0 <= time.seconds <= 253402300799 && time.nanos < 1_000_000_000 ==> text is Some,
{
    chrono::DateTime::<chrono::Utc>::from_timestamp(time.seconds, time.nanos)
        .map(|instant| instant.to_rfc3339_opts(chrono::SecondsFormat::AutoSi, true))
}

/// The JSON text of the metadata of a package, or the error of a time that
/// cannot be written.
pub open spec fn metadata_text(metadata: ResourceMetadata) -> Result<Seq<char>, Seq<char>> {
    match rfc3339(metadata.updated_at.seconds, metadata.updated_at.nanos) {
        Some(updated_at) => Ok(metadata_json(metadata, updated_at)),
        None => Err("timestamp_out_of_range"@),
    }
}

/// The JSON text of the metadata of a package, or the error of a time that
/// cannot be written.
pub fn write_timed_metadata(metadata: &ResourceMetadata) -> (text: Result<String, String>)
    ensures
        text_result(text) == metadata_text(*metadata),
        0 <= metadata.updated_at.seconds <= 253402300799 && metadata.updated_at.nanos
            < 1_000_000_000 ==> text is Ok,
{
    match write_rfc3339(&metadata.updated_at) {
        Some(updated_at) => Ok(write_metadata(metadata, &updated_at)),
        None => Err("timestamp_out_of_range".to_owned()),
    }
}

/// Texts are written character by character: quotes and backslashes after a
/// backslash, the control characters that have a short name by it and the
/// others by their number, and every other character as it is.
pub proof fn law_texts_are_written_character_by_character(
    first: Seq<char>,
    second: Seq<char>,
    ch: char,
)
    ensures
        json_chars(Seq::empty()) == Seq::<char>::empty(),
        json_chars(first + second) == json_chars(first) + json_chars(second),
        json_chars(seq![ch]) == json_char(ch),
        ch == '"' || ch == '\\' ==> json_char(ch) == seq!['\\', ch],
        ch == '\n' ==> json_char(ch) == seq!['\\', 'n'],
        ch == '\r' ==> json_char(ch) == seq!['\\', 'r'],
        ch == '\t' ==> json_char(ch) == seq!['\\', 't'],
        ch as int == 0x08 ==> json_char(ch) == seq!['\\', 'b'],
        ch as int == 0x0c ==> json_char(ch) == seq!['\\', 'f'],
        ch as int >= 0x20 && ch != '"' && ch != '\\' ==> json_char(ch) == seq![ch],
        ch as int <= 0x07 ==> json_char(ch) == seq![
            '\\',
            'u',
            '0',
            '0',
            '0',
            ('0' as int + ch as int) as char,
        ],
        ch as int == 0x0b ==> json_char(ch) == seq!['\\', 'u', '0', '0', '0', 'b'],
        0x10 <= ch as int <= 0x19 ==> json_char(ch) == seq![
            '\\',
            'u',
            '0',
            '0',
            '1',
            ('0' as int + ch as int - 0x10) as char,
        ],
        0x1a <= ch as int <= 0x1f ==> json_char(ch) == seq![
            '\\',
            'u',
            '0',
            '0',
            '1',
            ('a' as int + ch as int - 0x1a) as char,
        ],
        json_string(first) == seq!['"'] + json_chars(first) + seq!['"'],
    decreases second.len(),
{
    reveal_with_fuel(json_chars, 2);
    assert(seq![ch].drop_last() =~= Seq::<char>::empty());
    assert(json_chars(seq![ch]) =~= json_char(ch));
    if second.len() == 0 {
        assert(first + second =~= first);
        assert(json_chars(first + second) =~= json_chars(first) + json_chars(second));
    } else {
        law_texts_are_written_character_by_character(first, second.drop_last(), ch);
        assert((first + second).drop_last() =~= first + second.drop_last());
        assert((first + second).last() == second.last());
        assert(json_chars(first + second) =~= json_chars(first) + json_chars(second));
    }
}

/// Texts without quotes, backslashes and control characters stand between
/// quotes as they are.
pub proof fn law_plain_texts_are_quoted(text: Seq<char>)
    requires
        forall|i: int|
            0 <= i < text.len() ==> (#[trigger] text[i]) as int >= 0x20 && text[i] != '"' && text[i]
                != '\\',
    ensures
        json_string(text) == seq!['"'] + text + seq!['"'],
{
    lemma_plain_chars(text);
}

/// Characters that are not escaped stand as they are.
proof fn lemma_plain_chars(text: Seq<char>)
    requires
        forall|i: int|
            0 <= i < text.len() ==> (#[trigger] text[i]) as int >= 0x20 && text[i] != '"' && text[i]
                != '\\',
    ensures
        json_chars(text) == text,
    decreases text.len(),
{
    if text.len() > 0 {
        let front = text.drop_last();
        assert forall|i: int| 0 <= i < front.len() implies (#[trigger] front[i]) as int >= 0x20
            && front[i] != '"' && front[i] != '\\' by {
            assert(front[i] == text[i]);
        }
        lemma_plain_chars(front);
        assert(text[text.len() - 1] == text.last());
        assert(text =~= front + seq![text.last()]);
    }
}

/// The members of an object that have a value.
proof fn lemma_present_members(members: Seq<(Seq<char>, Option<Seq<char>>)>, k: int)
    requires
        0 <= k < members.len(),
        members[k].1 is Some,
    ensures
        present_members(members).contains(json_member(members[k].0, members[k].1->0)),
    decreases members.len(),
{
    let all = present_members(members);
    let front = members.drop_last();
    let rest = present_members(front);
    let found = json_member(members[k].0, members[k].1->0);
    if k == members.len() - 1 {
        assert(all[all.len() - 1] == found);
    } else {
        assert(front[k] == members[k]);
        lemma_present_members(front, k);
        let p = choose|p: int| 0 <= p < rest.len() && rest[p] == found;
        assert(all[p] == found);
    }
}

/// Every member that has a value stands in the text of its object, with its name
/// and its value; and members without one change nothing.
pub proof fn law_objects_hold_their_members(
    members: Seq<(Seq<char>, Option<Seq<char>>)>,
    k: int,
    name: Seq<char>,
)
    ensures
        0 <= k < members.len() ==> (members[k].1 matches Some(value) ==> occurs_in(
            json_object(members),
            json_string(members[k].0) + ":"@ + value,
        )),
        json_object(members.push((name, None))) == json_object(members),
        json_object(Seq::empty()) == "{"@ + "}"@,
{
    if 0 <= k < members.len() && members[k].1 is Some {
        let found = json_member(members[k].0, members[k].1->0);
        lemma_present_members(members, k);
        let inner = joined(present_members(members), ","@);
        law_every_part_stands_in_the_joined_text(present_members(members), ","@, found);
        law_text_occurs_between_any_others("{"@, inner, "}"@);
        law_parts_of_parts_occur(json_object(members), inner, found);
    }
    assert(members.push((name, None)).drop_last() =~= members);
    assert(joined(Seq::<Seq<char>>::empty(), ","@) =~= Seq::<char>::empty());
    assert("{"@ + Seq::<char>::empty() + "}"@ =~= "{"@ + "}"@);
}

/// Every item stands in the text of its array.
pub proof fn law_arrays_hold_their_items(items: Seq<Seq<char>>, item: Seq<char>)
    ensures
        items.contains(item) ==> occurs_in(json_array(items), item),
        json_array(Seq::empty()) == "["@ + "]"@,
        json_array(seq![item]) == "["@ + item + "]"@,
{
    let inner = joined(items, ","@);
    if items.contains(item) {
        law_every_part_stands_in_the_joined_text(items, ","@, item);
        law_text_occurs_between_any_others("["@, inner, "]"@);
        law_parts_of_parts_occur(json_array(items), inner, item);
    }
    assert(joined(Seq::<Seq<char>>::empty(), ","@) =~= Seq::<char>::empty());
    assert("["@ + Seq::<char>::empty() + "]"@ =~= "["@ + "]"@);
}

/// Each text of a list stands in its JSON array, as a string.
pub proof fn law_lists_hold_their_texts(values: Seq<Seq<char>>, i: int)
    requires
        0 <= i < values.len(),
    ensures
        occurs_in(json_strings(values), json_string(values[i])),
{
    let items = values.map_values(|text: Seq<char>| json_string(text));
    assert(items[i] == json_string(values[i]));
    law_arrays_hold_their_items(items, json_string(values[i]));
}

/// A member of an object stands in its text where its value is known.
proof fn lemma_member_stands(
    members: Seq<(Seq<char>, Option<Seq<char>>)>,
    k: int,
    name: Seq<char>,
    value: Seq<char>,
)
    requires
        0 <= k < members.len(),
        members[k] == (name, Some(value)),
    ensures
        occurs_in(json_object(members), json_string(name) + ":"@ + value),
{
    law_objects_hold_their_members(members, k, name);
}

/// A service is written with its identifier, type and address, and with its
/// version, protocol, server and port where it has them.
pub proof fn law_services_are_written_whole(service: ServiceEndpoint)
    ensures
        ({
            let text = service_json(service);
            &&& occurs_in(text, json_string("id"@) + ":"@ + json_string(service.id@))
            &&& occurs_in(text, json_string("type"@) + ":"@ + json_string(service.service_type@))
            &&& occurs_in(
                text,
                json_string("serviceEndpoint"@) + ":"@ + json_string(service.service_endpoint@),
            )
            &&& service.version matches Some(version) ==> occurs_in(
                text,
                json_string("version"@) + ":"@ + json_string(version@),
            )
            &&& service.protocol matches Some(protocol) ==> occurs_in(
                text,
                json_string("protocol"@) + ":"@ + json_string(protocol@),
            )
            &&& service.server_type matches Some(server) ==> occurs_in(
                text,
                json_string("serverType"@) + ":"@ + json_string(server@),
            )
            &&& service.port matches Some(port) ==> occurs_in(
                text,
                json_string("port"@) + ":"@ + decimal(port as nat),
            )
        }),
{
    let members = service_members(service);
    lemma_member_stands(members, 0, "id"@, json_string(service.id@));
    lemma_member_stands(members, 1, "type"@, json_string(service.service_type@));
    lemma_member_stands(members, 2, "serviceEndpoint"@, json_string(service.service_endpoint@));
    if let Some(version) = service.version {
        lemma_member_stands(members, 3, "version"@, json_string(version@));
    }
    if let Some(protocol) = service.protocol {
        lemma_member_stands(members, 4, "protocol"@, json_string(protocol@));
    }
    if let Some(server) = service.server_type {
        lemma_member_stands(members, 5, "serverType"@, json_string(server@));
    }
    if let Some(port) = service.port {
        lemma_member_stands(members, 6, "port"@, decimal(port as nat));
    }
}

/// A key is written with its identifier, type and controller, and with its suite,
/// format and value where it has them.
pub proof fn law_keys_are_written_whole(method: VerificationMethod)
    ensures
        ({
            let text = method_json(method);
            &&& occurs_in(text, json_string("id"@) + ":"@ + json_string(method.id@))
            &&& occurs_in(text, json_string("type"@) + ":"@ + json_string(method.method_type@))
            &&& occurs_in(text, json_string("controller"@) + ":"@ + json_string(method.controller@))
            &&& method.crypto_suite matches Some(suite) ==> occurs_in(
                text,
                json_string("cryptoSuite"@) + ":"@ + json_string(
                    match suite {
                        CryptoSuite::Ed25519Sha256Legacy => "ed25519-sha256-legacy"@,
                        CryptoSuite::Ed25519Sha256 => "ed25519-sha256"@,
                        CryptoSuite::Sm2Sm3 => "sm2-sm3"@,
                    },
                ),
            )
            &&& method.public_key_format matches Some(format) ==> occurs_in(
                text,
                json_string("publicKeyFormat"@) + ":"@ + json_string(format@),
            )
            &&& method.public_key_multibase matches Some(key) ==> occurs_in(
                text,
                json_string("publicKeyMultibase"@) + ":"@ + json_string(key@),
            )
        }),
{
    let members = method_members(method);
    lemma_member_stands(members, 0, "id"@, json_string(method.id@));
    lemma_member_stands(members, 1, "type"@, json_string(method.method_type@));
    lemma_member_stands(members, 2, "controller"@, json_string(method.controller@));
    if let Some(suite) = method.crypto_suite {
        lemma_member_stands(members, 3, "cryptoSuite"@, json_string(suite_name(suite)));
    }
    if let Some(format) = method.public_key_format {
        lemma_member_stands(members, 4, "publicKeyFormat"@, json_string(format@));
    }
    if let Some(key) = method.public_key_multibase {
        lemma_member_stands(members, 5, "publicKeyMultibase"@, json_string(key@));
    }
}

/// A binding is written with its identifier and protocol, and with its version,
/// transport, service and schema where it has them.
pub proof fn law_bindings_are_written_whole(binding: ProtocolBinding)
    ensures
        ({
            let text = binding_json(binding);
            &&& occurs_in(text, json_string("id"@) + ":"@ + json_string(binding.id@))
            &&& occurs_in(text, json_string("protocol"@) + ":"@ + json_string(binding.protocol@))
            &&& binding.version matches Some(version) ==> occurs_in(
                text,
                json_string("version"@) + ":"@ + json_string(version@),
            )
            &&& binding.transport matches Some(transport) ==> occurs_in(
                text,
                json_string("transport"@) + ":"@ + json_string(transport@),
            )
            &&& binding.service_ref matches Some(service) ==> occurs_in(
                text,
                json_string("serviceRef"@) + ":"@ + json_string(service@),
            )
            &&& binding.schema_ref matches Some(schema) ==> occurs_in(
                text,
                json_string("schemaRef"@) + ":"@ + json_string(schema@),
            )
        }),
{
    let members = binding_members(binding);
    lemma_member_stands(members, 0, "id"@, json_string(binding.id@));
    lemma_member_stands(members, 1, "protocol"@, json_string(binding.protocol@));
    if let Some(version) = binding.version {
        lemma_member_stands(members, 2, "version"@, json_string(version@));
    }
    if let Some(transport) = binding.transport {
        lemma_member_stands(members, 3, "transport"@, json_string(transport@));
    }
    if let Some(service) = binding.service_ref {
        lemma_member_stands(members, 4, "serviceRef"@, json_string(service@));
    }
    if let Some(schema) = binding.schema_ref {
        lemma_member_stands(members, 5, "schemaRef"@, json_string(schema@));
    }
}

/// A link is written with its relation and target, and with the target's type,
/// service and versions where it has them.
pub proof fn law_links_are_written_whole(link: ImplementationLink)
    ensures
        ({
            let text = link_json(link);
            &&& occurs_in(text, json_string("relation"@) + ":"@ + json_string(link.relation@))
            &&& occurs_in(text, json_string("targetDid"@) + ":"@ + json_string(link.target_did@))
            &&& link.target_type matches Some(target) ==> occurs_in(
                text,
                json_string("targetType"@) + ":"@ + json_string(resource_type_name(target)),
            )
            &&& link.target_service matches Some(service) ==> occurs_in(
                text,
                json_string("targetService"@) + ":"@ + json_string(service@),
            )
            &&& link.version_constraint matches Some(versions) ==> occurs_in(
                text,
                json_string("versionConstraint"@) + ":"@ + json_string(versions@),
            )
        }),
{
    let members = link_members(link);
    lemma_member_stands(members, 0, "relation"@, json_string(link.relation@));
    lemma_member_stands(members, 1, "targetDid"@, json_string(link.target_did@));
    if let Some(target) = link.target_type {
        lemma_member_stands(
            members,
            2,
            "targetType"@,
            json_string(resource_type_name(target)),
        );
    }
    if let Some(service) = link.target_service {
        lemma_member_stands(members, 3, "targetService"@, json_string(service@));
    }
    if let Some(versions) = link.version_constraint {
        lemma_member_stands(members, 4, "versionConstraint"@, json_string(versions@));
    }
}

/// Examples that are texts are written as strings, and the others, which are
/// JSON already, as they are; a description without examples says nothing of
/// them.
pub proof fn law_examples_are_written(examples: Seq<ExampleValue>, i: int)
    ensures
        examples.len() == 0 ==> optional_examples(examples) is None,
        0 <= i < examples.len() ==> (optional_examples(examples) matches Some(text) && occurs_in(
            text,
            match examples[i] {
                ExampleValue::Text(example) => json_string(example@),
                ExampleValue::Structured(example) => example@,
                ExampleValue::Scalar(example) => example@,
            },
        )),
{
    if 0 <= i < examples.len() {
        let items = examples.map_values(|item: ExampleValue| example_json(item));
        assert(items[i] == example_json(examples[i]));
        law_arrays_hold_their_items(items, example_json(examples[i]));
    }
}

/// The description of a resource is written with its tags and use cases, and
/// with its name, description, capabilities and version where it has them.
pub proof fn law_descriptions_are_written_whole(description: ResourceDescription)
    ensures
        ({
            let text = description_json(description);
            &&& description.name matches Some(name) ==> occurs_in(
                text,
                json_string("name"@) + ":"@ + json_string(name@),
            )
            &&& description.description matches Some(described) ==> occurs_in(
                text,
                json_string("description"@) + ":"@ + json_string(described@),
            )
            &&& description.capability_description matches Some(capability) ==> occurs_in(
                text,
                json_string("capabilityDescription"@) + ":"@ + json_string(capability@),
            )
            &&& occurs_in(
                text,
                json_string("capabilityTags"@) + ":"@ + json_strings(
                    texts(description.capability_tags@),
                ),
            )
            &&& occurs_in(
                text,
                json_string("useCaseExamples"@) + ":"@ + json_strings(
                    texts(description.use_case_examples@),
                ),
            )
            &&& description.examples@.len() > 0 ==> occurs_in(
                text,
                json_string("examples"@) + ":"@ + examples_json(description.examples@),
            )
            &&& description.version matches Some(version) ==> occurs_in(
                text,
                json_string("version"@) + ":"@ + json_string(version@),
            )
        }),
{
    let members = description_members(description);
    if let Some(name) = description.name {
        lemma_member_stands(members, 0, "name"@, json_string(name@));
    }
    if let Some(described) = description.description {
        lemma_member_stands(members, 1, "description"@, json_string(described@));
    }
    if let Some(capability) = description.capability_description {
        lemma_member_stands(members, 2, "capabilityDescription"@, json_string(capability@));
    }
    lemma_member_stands(
        members,
        3,
        "capabilityTags"@,
        json_strings(texts(description.capability_tags@)),
    );
    lemma_member_stands(
        members,
        4,
        "useCaseExamples"@,
        json_strings(texts(description.use_case_examples@)),
    );
    if description.examples@.len() > 0 {
        lemma_member_stands(members, 5, "examples"@, examples_json(description.examples@));
    }
    if let Some(version) = description.version {
        lemma_member_stands(members, 6, "version"@, json_string(version@));
    }
}

/// The description of an agent is written with its capabilities, its tags and
/// its use cases.
pub proof fn law_agents_are_written_whole(agent: AgentDescription)
    ensures
        occurs_in(
            agent_json(agent),
            json_string("capabilityDescription"@) + ":"@ + json_string(
                agent.capability_description@,
            ),
        ),
        occurs_in(
            agent_json(agent),
            json_string("capabilityTags"@) + ":"@ + json_strings(texts(agent.capability_tags@)),
        ),
        occurs_in(
            agent_json(agent),
            json_string("useCaseExamples"@) + ":"@ + json_strings(texts(agent.use_case_examples@)),
        ),
{
    let members = agent_members(agent);
    lemma_member_stands(
        members,
        0,
        "capabilityDescription"@,
        json_string(agent.capability_description@),
    );
    lemma_member_stands(
        members,
        1,
        "capabilityTags"@,
        json_strings(texts(agent.capability_tags@)),
    );
    lemma_member_stands(
        members,
        2,
        "useCaseExamples"@,
        json_strings(texts(agent.use_case_examples@)),
    );
}

/// What a document says of its resource is written with its types, tags,
/// domains, bindings and links, and with its publisher, descriptions, network
/// and state where it has them.
pub proof fn law_oan_metadata_are_written_whole(metadata: OanMetadata)
    ensures
        ({
            let text = oan_metadata_json(metadata);
            &&& occurs_in(
                text,
                json_string("subjectType"@) + ":"@ + json_string(
                    resource_type_name(metadata.subject_type),
                ),
            )
            &&& occurs_in(
                text,
                json_string("resourceType"@) + ":"@ + json_string(
                    resource_type_name(metadata.resource_type),
                ),
            )
            &&& metadata.publisher_did matches Some(publisher) ==> occurs_in(
                text,
                json_string("publisherDid"@) + ":"@ + json_string(publisher@),
            )
            &&& metadata.resource_description matches Some(described) ==> occurs_in(
                text,
                json_string("resourceDescription"@) + ":"@ + description_json(described),
            )
            &&& metadata.agent_description matches Some(described) ==> occurs_in(
                text,
                json_string("agentDescription"@) + ":"@ + agent_json(described),
            )
            &&& occurs_in(
                text,
                json_string("capabilityTags"@) + ":"@ + json_strings(
                    texts(metadata.capability_tags@),
                ),
            )
            &&& occurs_in(
                text,
                json_string("authorizedDomains"@) + ":"@ + json_strings(
                    texts(metadata.authorized_domains@),
                ),
            )
            &&& occurs_in(
                text,
                json_string("protocolBindings"@) + ":"@ + bindings_json(metadata.protocol_bindings@),
            )
            &&& occurs_in(
                text,
                json_string("implementationLinks"@) + ":"@ + links_json(
                    metadata.implementation_links@,
                ),
            )
            &&& metadata.network_scope matches Some(network) ==> occurs_in(
                text,
                json_string("networkScope"@) + ":"@ + json_string(network@),
            )
            &&& metadata.lifecycle_state matches Some(state) ==> occurs_in(
                text,
                json_string("lifecycleState"@) + ":"@ + json_string(state@),
            )
        }),
{
    let members = oan_metadata_members(metadata);
    lemma_member_stands(
        members,
        0,
        "subjectType"@,
        json_string(resource_type_name(metadata.subject_type)),
    );
    lemma_member_stands(
        members,
        1,
        "resourceType"@,
        json_string(resource_type_name(metadata.resource_type)),
    );
    if let Some(publisher) = metadata.publisher_did {
        lemma_member_stands(members, 2, "publisherDid"@, json_string(publisher@));
    }
    if let Some(described) = metadata.resource_description {
        lemma_member_stands(members, 3, "resourceDescription"@, description_json(described));
    }
    if let Some(described) = metadata.agent_description {
        lemma_member_stands(members, 4, "agentDescription"@, agent_json(described));
    }
    lemma_member_stands(
        members,
        5,
        "capabilityTags"@,
        json_strings(texts(metadata.capability_tags@)),
    );
    lemma_member_stands(
        members,
        6,
        "authorizedDomains"@,
        json_strings(texts(metadata.authorized_domains@)),
    );
    lemma_member_stands(
        members,
        7,
        "protocolBindings"@,
        bindings_json(metadata.protocol_bindings@),
    );
    lemma_member_stands(
        members,
        8,
        "implementationLinks"@,
        links_json(metadata.implementation_links@),
    );
    if let Some(network) = metadata.network_scope {
        lemma_member_stands(members, 10, "networkScope"@, json_string(network@));
    }
    if let Some(state) = metadata.lifecycle_state {
        lemma_member_stands(members, 11, "lifecycleState"@, json_string(state@));
    }
}

/// A DID document is written with its context, identifier, keys, their uses and
/// its services, and with what it says of its resource where it says anything.
pub proof fn law_documents_are_written_whole(document: DidDocument)
    ensures
        ({
            let text = document_json(document);
            &&& occurs_in(
                text,
                json_string("@context"@) + ":"@ + json_strings(texts(document.context@)),
            )
            &&& occurs_in(text, json_string("id"@) + ":"@ + json_string(document.id@))
            &&& occurs_in(
                text,
                json_string("verificationMethod"@) + ":"@ + methods_json(
                    document.verification_method@,
                ),
            )
            &&& occurs_in(
                text,
                json_string("authentication"@) + ":"@ + json_strings(
                    texts(document.authentication@),
                ),
            )
            &&& occurs_in(
                text,
                json_string("assertionMethod"@) + ":"@ + json_strings(
                    texts(document.assertion_method@),
                ),
            )
            &&& occurs_in(text, json_string("service"@) + ":"@ + services_json(document.service@))
            &&& document.oan_metadata matches Some(metadata) ==> occurs_in(
                text,
                json_string("oanMetadata"@) + ":"@ + oan_metadata_json(metadata),
            )
        }),
{
    reveal(document_json);
    let members = document_members(document);
    lemma_member_stands(members, 0, "@context"@, json_strings(texts(document.context@)));
    lemma_member_stands(members, 1, "id"@, json_string(document.id@));
    lemma_member_stands(
        members,
        2,
        "verificationMethod"@,
        methods_json(document.verification_method@),
    );
    lemma_member_stands(
        members,
        3,
        "authentication"@,
        json_strings(texts(document.authentication@)),
    );
    lemma_member_stands(
        members,
        4,
        "assertionMethod"@,
        json_strings(texts(document.assertion_method@)),
    );
    lemma_member_stands(members, 5, "service"@, services_json(document.service@));
    if let Some(metadata) = document.oan_metadata {
        lemma_member_stands(members, 6, "oanMetadata"@, oan_metadata_json(metadata));
    }
}

/// Every service, key, binding and link of a list stands in its array.
pub proof fn law_arrays_hold_the_parts_of_documents(
    services: Seq<ServiceEndpoint>,
    keys: Seq<VerificationMethod>,
    bindings: Seq<ProtocolBinding>,
    links: Seq<ImplementationLink>,
    i: int,
)
    ensures
        0 <= i < services.len() ==> occurs_in(services_json(services), service_json(services[i])),
        0 <= i < keys.len() ==> occurs_in(methods_json(keys), method_json(keys[i])),
        0 <= i < bindings.len() ==> occurs_in(bindings_json(bindings), binding_json(bindings[i])),
        0 <= i < links.len() ==> occurs_in(links_json(links), link_json(links[i])),
{
    if 0 <= i < services.len() {
        let items = services.map_values(|item: ServiceEndpoint| service_json(item));
        assert(items[i] == service_json(services[i]));
        law_arrays_hold_their_items(items, service_json(services[i]));
    }
    if 0 <= i < keys.len() {
        let items = keys.map_values(|item: VerificationMethod| method_json(item));
        assert(items[i] == method_json(keys[i]));
        law_arrays_hold_their_items(items, method_json(keys[i]));
    }
    if 0 <= i < bindings.len() {
        let items = bindings.map_values(|item: ProtocolBinding| binding_json(item));
        assert(items[i] == binding_json(bindings[i]));
        law_arrays_hold_their_items(items, binding_json(bindings[i]));
    }
    if 0 <= i < links.len() {
        let items = links.map_values(|item: ImplementationLink| link_json(item));
        assert(items[i] == link_json(links[i]));
        law_arrays_hold_their_items(items, link_json(links[i]));
    }
}

/// The metadata of a package are written with every one of their texts, types,
/// lists and hashes and with the time, and with the publisher and the subject
/// where there are any.
pub proof fn law_metadata_are_written_whole(metadata: ResourceMetadata, updated_at: Seq<char>)
    ensures
        ({
            let text = metadata_json(metadata, updated_at);
            &&& occurs_in(
                text,
                json_string("resourceDid"@) + ":"@ + json_string(metadata.resource_did@),
            )
            &&& occurs_in(
                text,
                json_string("resourceType"@) + ":"@ + json_string(
                    resource_type_name(metadata.resource_type),
                ),
            )
            &&& occurs_in(
                text,
                json_string("subjectType"@) + ":"@ + json_string(
                    resource_type_name(metadata.subject_type),
                ),
            )
            &&& metadata.publisher_did matches Some(publisher) ==> occurs_in(
                text,
                json_string("publisherDid"@) + ":"@ + json_string(publisher@),
            )
            &&& metadata.subject_did matches Some(subject) ==> occurs_in(
                text,
                json_string("subjectDid"@) + ":"@ + json_string(subject@),
            )
            &&& occurs_in(text, json_string("name"@) + ":"@ + json_string(metadata.name@))
            &&& occurs_in(
                text,
                json_string("description"@) + ":"@ + json_string(metadata.description@),
            )
            &&& occurs_in(
                text,
                json_string("capabilityTags"@) + ":"@ + json_strings(
                    texts(metadata.capability_tags@),
                ),
            )
            &&& occurs_in(
                text,
                json_string("authorizedDomains"@) + ":"@ + json_strings(
                    texts(metadata.authorized_domains@),
                ),
            )
            &&& occurs_in(
                text,
                json_string("protocolBindings"@) + ":"@ + json_array(
                    json_texts(metadata.protocol_bindings@),
                ),
            )
            &&& occurs_in(text, json_string("services"@) + ":"@ + services_json(metadata.services@))
            &&& occurs_in(
                text,
                json_string("lifecycleState"@) + ":"@ + json_string(metadata.lifecycle_state@),
            )
            &&& occurs_in(
                text,
                json_string("packageVersion"@) + ":"@ + json_string(metadata.package_version@),
            )
            &&& occurs_in(
                text,
                json_string("packageHash"@) + ":"@ + json_string(metadata.package_hash@),
            )
            &&& occurs_in(
                text,
                json_string("metadataHash"@) + ":"@ + json_string(metadata.metadata_hash@),
            )
            &&& occurs_in(
                text,
                json_string("hashAlgorithm"@) + ":"@ + json_string(metadata.hash_algorithm@),
            )
            &&& occurs_in(text, json_string("updatedAt"@) + ":"@ + json_string(updated_at))
        }),
{
    reveal(metadata_json);
    let members = metadata_members(metadata, updated_at);
    lemma_member_stands(members, 0, "resourceDid"@, json_string(metadata.resource_did@));
    lemma_member_stands(
        members,
        1,
        "resourceType"@,
        json_string(resource_type_name(metadata.resource_type)),
    );
    lemma_member_stands(
        members,
        2,
        "subjectType"@,
        json_string(resource_type_name(metadata.subject_type)),
    );
    if let Some(publisher) = metadata.publisher_did {
        lemma_member_stands(members, 3, "publisherDid"@, json_string(publisher@));
    }
    if let Some(subject) = metadata.subject_did {
        lemma_member_stands(members, 4, "subjectDid"@, json_string(subject@));
    }
    lemma_member_stands(members, 5, "name"@, json_string(metadata.name@));
    lemma_member_stands(members, 6, "description"@, json_string(metadata.description@));
    lemma_member_stands(
        members,
        7,
        "capabilityTags"@,
        json_strings(texts(metadata.capability_tags@)),
    );
    lemma_member_stands(
        members,
        8,
        "authorizedDomains"@,
        json_strings(texts(metadata.authorized_domains@)),
    );
    lemma_member_stands(
        members,
        9,
        "protocolBindings"@,
        json_array(json_texts(metadata.protocol_bindings@)),
    );
    lemma_member_stands(members, 10, "services"@, services_json(metadata.services@));
    lemma_member_stands(members, 11, "lifecycleState"@, json_string(metadata.lifecycle_state@));
    lemma_member_stands(members, 12, "packageVersion"@, json_string(metadata.package_version@));
    lemma_member_stands(members, 13, "packageHash"@, json_string(metadata.package_hash@));
    lemma_member_stands(members, 14, "metadataHash"@, json_string(metadata.metadata_hash@));
    lemma_member_stands(members, 15, "hashAlgorithm"@, json_string(metadata.hash_algorithm@));
    lemma_member_stands(members, 16, "updatedAt"@, json_string(updated_at));
}

/// The texts of values and of members are those of each, in their order.
proof fn lemma_json_texts(items: Seq<JsonValue>, i: int)
    requires
        0 <= i < items.len(),
    ensures
        json_texts(items).len() == items.len(),
        json_texts(items)[i] == json_text(items[i]),
    decreases items.len(),
{
    let front = items.drop_last();
    if front.len() > 0 {
        lemma_json_texts(front, if i < front.len() {
            i
        } else {
            0
        });
    } else {
        assert(json_texts(front).len() == 0);
    }
    if i < front.len() {
        assert(front[i] == items[i]);
    }
}

/// The texts of the members of an object are those of each, in their order.
proof fn lemma_json_member_texts(members: Seq<(String, JsonValue)>, i: int)
    requires
        0 <= i < members.len(),
    ensures
        json_member_texts(members).len() == members.len(),
        json_member_texts(members)[i] == json_member(members[i].0@, json_text(members[i].1)),
    decreases members.len(),
{
    let front = members.drop_last();
    if front.len() > 0 {
        lemma_json_member_texts(front, if i < front.len() {
            i
        } else {
            0
        });
    } else {
        assert(json_member_texts(front).len() == 0);
    }
    if i < front.len() {
        assert(front[i] == members[i]);
    }
}

/// Values are written as JSON has them: words for nothing and for truths,
/// decimal notation, quoted texts, and arrays and objects that hold the text of
/// each of their parts.
pub proof fn law_values_are_written_as_json(value: JsonValue, i: int)
    ensures
        value is Null ==> json_text(value) == "null"@,
        value matches JsonValue::Bool(truth) ==> json_text(value) == if truth {
            "true"@
        } else {
            "false"@
        },
        value matches JsonValue::Integer(number) ==> json_text(value) == signed_decimal(
            number as int,
        ),
        value matches JsonValue::Number(number) ==> json_text(value) == number@,
        value matches JsonValue::Text(text) ==> json_text(value) == json_string(text@),
        value matches JsonValue::Array(items) ==> (0 <= i < items@.len() ==> occurs_in(
            json_text(value),
            json_text(items@[i]),
        )),
        value matches JsonValue::Object(members) ==> (0 <= i < members@.len() ==> occurs_in(
            json_text(value),
            json_string(members@[i].0@) + ":"@ + json_text(members@[i].1),
        )),
{
    match value {
        JsonValue::Array(items) => {
            if 0 <= i < items@.len() {
                lemma_json_texts(items@, i);
                law_arrays_hold_their_items(json_texts(items@), json_text(items@[i]));
            }
        },
        JsonValue::Object(members) => {
            if 0 <= i < members@.len() {
                let parts = json_member_texts(members@);
                let part = json_member(members@[i].0@, json_text(members@[i].1));
                let inner = joined(parts, ","@);
                lemma_json_member_texts(members@, i);
                assert(parts.contains(part));
                law_every_part_stands_in_the_joined_text(parts, ","@, part);
                law_text_occurs_between_any_others("{"@, inner, "}"@);
                law_parts_of_parts_occur(json_text(value), inner, part);
            }
        },
        _ => {},
    }
}

/// The metadata of a package whose time can be written are written with that
/// time; of another the error says so.
pub proof fn law_metadata_are_written_with_their_time(metadata: ResourceMetadata)
    ensures
        ({
            let time = rfc3339(metadata.updated_at.seconds, metadata.updated_at.nanos);
            &&& time matches Some(updated_at) ==> (metadata_text(metadata) matches Ok(text)
                && occurs_in(text, json_string("updatedAt"@) + ":"@ + json_string(updated_at)))
            &&& time is None ==> metadata_text(metadata) == Err::<Seq<char>, Seq<char>>(
                "timestamp_out_of_range"@,
            )
        }),
{
    if let Some(updated_at) = rfc3339(metadata.updated_at.seconds, metadata.updated_at.nanos) {
        law_metadata_are_written_whole(metadata, updated_at);
    }
}

} // verus!
