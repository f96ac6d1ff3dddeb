//! Which published packages may be indexed.

use vstd::prelude::*;

use crate::domains::{
    invalid_domains_error, is_domain_list, law_well_formed_domain_lists,
    validate_authorized_domain_list,
};
use crate::package::{resource_type_name, ResourcePackage};
use crate::provider::first_fault;
use crate::text::{optional_text, same_text, same_texts, texts};

verus! {

/// A package and the published JSON document that it was read from.
#[derive(Debug)]
pub struct PublishedPackage {
    pub package: ResourcePackage,
    pub document: String,
}

/// What `DidDocument::validate_oan_resource` of the crate `oan-core` finds
/// wrong with the DID document of a published package, in words.
pub uninterp spec fn did_document_fault(document: Seq<char>) -> Option<Seq<char>>;

/// What `ResourcePackage::verify_did_document_hash` of the crate `oan-package`
/// finds wrong with a published package, in words.
pub uninterp spec fn did_document_hash_fault(document: Seq<char>) -> Option<Seq<char>>;

/// What `ResourcePackage::verify_metadata_hash` of the crate `oan-package`
/// finds wrong with a published package, in words.
pub uninterp spec fn metadata_hash_fault(document: Seq<char>) -> Option<Seq<char>>;

/// What `ResourcePackage::verify_package_hash` of the crate `oan-package` finds
/// wrong with a published package, in words.
pub uninterp spec fn package_hash_fault(document: Seq<char>) -> Option<Seq<char>>;

/// `DidDocument::validate_oan_resource` of the crate `oan-core`, on the DID
/// document of the package that `serde_json` reads from a text: the error in
/// words, or that of `serde_json` where the text is no package. A function of
/// the text alone.
#[verifier::external_body]
fn find_did_document_fault(document: &str) -> (fault: Option<String>)
    ensures
        optional_text(fault) == did_document_fault(document@),
{
    match serde_json::from_str::<oan_package::ResourcePackage>(document) {
        Ok(package) => package.did_document.validate_oan_resource().err().map(|e| e.to_string()),
        Err(error) => Some(error.to_string()),
    }
}

/// `ResourcePackage::verify_did_document_hash` of the crate `oan-package`, on
/// the package that `serde_json` reads from a text: the error in words, or
/// that of `serde_json` where the text is no package. A function of the text
/// alone.
#[verifier::external_body]
fn find_did_document_hash_fault(document: &str) -> (fault: Option<String>)
    ensures
        optional_text(fault) == did_document_hash_fault(document@),
{
    match serde_json::from_str::<oan_package::ResourcePackage>(document) {
        Ok(package) => package.verify_did_document_hash().err().map(|e| e.to_string()),
        Err(error) => Some(error.to_string()),
    }
}

/// `ResourcePackage::verify_metadata_hash` of the crate `oan-package`, on the
/// package that `serde_json` reads from a text: the error in words, or that of
/// `serde_json` where the text is no package. A function of the text alone.
#[verifier::external_body]
fn find_metadata_hash_fault(document: &str) -> (fault: Option<String>)
    ensures
        optional_text(fault) == metadata_hash_fault(document@),
{
    match serde_json::from_str::<oan_package::ResourcePackage>(document) {
        Ok(package) => package.verify_metadata_hash().err().map(|e| e.to_string()),
        Err(error) => Some(error.to_string()),
    }
}

/// `ResourcePackage::verify_package_hash` of the crate `oan-package`, on the
/// package that `serde_json` reads from a text: the error in words, or that of
/// `serde_json` where the text is no package. A function of the text alone.
#[verifier::external_body]
fn find_package_hash_fault(document: &str) -> (fault: Option<String>)
    ensures
        optional_text(fault) == package_hash_fault(document@),
{
    match serde_json::from_str::<oan_package::ResourcePackage>(document) {
        Ok(package) => package.verify_package_hash().err().map(|e| e.to_string()),
        Err(error) => Some(error.to_string()),
    }
}

/// What is wrong with the document of a published package.
#[derive(Debug)]
pub struct DocumentFaults {
    pub did_document: Option<String>,
    pub did_document_hash: Option<String>,
    pub metadata_hash: Option<String>,
    pub package_hash: Option<String>,
}

/// Checks the DID document and the hashes of a published package.
pub fn check_document(document: &str) -> (faults: DocumentFaults)
    ensures
        optional_text(faults.did_document) == did_document_fault(document@),
        optional_text(faults.did_document_hash) == did_document_hash_fault(document@),
        optional_text(faults.metadata_hash) == metadata_hash_fault(document@),
        optional_text(faults.package_hash) == package_hash_fault(document@),
{
    DocumentFaults {
        did_document: find_did_document_fault(document),
        did_document_hash: find_did_document_hash_fault(document),
        metadata_hash: find_metadata_hash_fault(document),
        package_hash: find_package_hash_fault(document),
    }
}

/// Whether the types of a package and of its metadata agree.
pub open spec fn types_agree(package: ResourcePackage) -> bool {
    package.resource_type == package.metadata.resource_type && package.resource_type
        == package.metadata.subject_type
}

/// The domains that the DID document of a package names.
pub open spec fn document_domains(package: ResourcePackage) -> Seq<Seq<char>> {
    match package.did_document.oan_metadata {
        Some(metadata) => texts(metadata.authorized_domains@),
        None => Seq::empty(),
    }
}

/// Whether a package, its metadata and its DID document agree.
pub open spec fn metadata_agrees(package: ResourcePackage) -> bool {
    &&& package.metadata.resource_did@ == package.resource_did@
    &&& package.metadata.package_version@ == package.package_version@
    &&& package.metadata.package_hash@ == package.package_hash@
    &&& package.metadata.metadata_hash@ == package.metadata_hash@
    &&& package.metadata.hash_algorithm@ == package.hash_algorithm@
    &&& document_domains(package) == texts(package.metadata.authorized_domains@)
}

/// Whether a package, its metadata and its DID document agree.
fn metadata_of_package_agrees(package: &ResourcePackage) -> (agrees: bool)
    ensures
        agrees == metadata_agrees(*package),
{
    let domains_agree = match &package.did_document.oan_metadata {
        Some(metadata) => same_texts(
            &metadata.authorized_domains,
            &package.metadata.authorized_domains,
        ),
        None => {
            assert(texts(package.metadata.authorized_domains@).len()
                == package.metadata.authorized_domains@.len());
            assert(package.metadata.authorized_domains@.len() == 0 ==> texts(
                package.metadata.authorized_domains@,
            ) =~= Seq::empty());
            package.metadata.authorized_domains.len() == 0
        },
    };
    package.metadata.resource_did == package.resource_did && package.metadata.package_version
        == package.package_version && package.metadata.package_hash == package.package_hash
        && package.metadata.metadata_hash == package.metadata_hash
        && package.metadata.hash_algorithm == package.hash_algorithm && domains_agree
}

/// Whether the root's claims are there and are those of the package.
pub open spec fn root_claims_agree(package: ResourcePackage) -> bool {
    package.root_proof.package_claims matches Some(claims) && {
        &&& claims.resource_did@ == package.resource_did@
        &&& claims.resource_type == package.resource_type
        &&& claims.version@ == package.package_version@
        &&& claims.did_document_hash@ == package.did_document_hash@
        &&& claims.metadata_hash@ == package.metadata_hash@
        &&& claims.package_hash@ == package.package_hash@
        &&& claims.hash_algorithm@ == package.hash_algorithm@
        &&& claims.lifecycle_state@ == package.metadata.lifecycle_state@
        &&& texts(claims.authorized_domains@) == texts(package.metadata.authorized_domains@)
    }
}

/// Whether the root's claims are there and are those of the package.
fn root_claims_of_package_agree(package: &ResourcePackage) -> (agree: bool)
    ensures
        agree == root_claims_agree(*package),
{
    match &package.root_proof.package_claims {
        Some(claims) => claims.resource_did == package.resource_did && claims.resource_type
            == package.resource_type && claims.version == package.package_version
            && claims.did_document_hash == package.did_document_hash && claims.metadata_hash
            == package.metadata_hash && claims.package_hash == package.package_hash
            && claims.hash_algorithm == package.hash_algorithm && claims.lifecycle_state
            == package.metadata.lifecycle_state && same_texts(
            &claims.authorized_domains,
            &package.metadata.authorized_domains,
        ),
        None => false,
    }
}

/// What is wrong with the state and the domains of a package.
pub open spec fn eligibility_fault(package: ResourcePackage) -> Option<Seq<char>> {
    if package.metadata.lifecycle_state@ != "active"@ {
        Some("resource_not_active"@)
    } else if package.metadata.authorized_domains@.len() == 0 {
        Some("resource_domains_required"@)
    } else if !is_domain_list(texts(package.metadata.authorized_domains@)) {
        Some(invalid_domains_error())
    } else {
        None
    }
}

/// What is wrong within a package: its parts and the root's claims must agree.
pub open spec fn agreement_fault(package: ResourcePackage) -> Option<Seq<char>> {
    if !types_agree(package) {
        Some("resource type mismatch"@)
    } else if !metadata_agrees(package) || !root_claims_agree(package) {
        Some("root proof claim mismatch"@)
    } else {
        None
    }
}

/// What is wrong with a package, given what is wrong with its document: the
/// first of all faults.
pub open spec fn fault_given(package: ResourcePackage, faults: DocumentFaults) -> Option<
    Seq<char>,
> {
    first_fault(
        optional_text(faults.did_document),
        first_fault(
            optional_text(faults.did_document_hash),
            first_fault(
                optional_text(faults.metadata_hash),
                first_fault(
                    optional_text(faults.package_hash),
                    first_fault(agreement_fault(package), eligibility_fault(package)),
                ),
            ),
        ),
    )
}

/// Accepts a package for the index, given what is wrong with its document: it
/// must have no fault at all.
pub fn validate_checked_package(package: &ResourcePackage, faults: DocumentFaults) -> (result:
    Result<(), String>)
    ensures
        result is Ok <==> fault_given(*package, faults) is None,
        result matches Err(error) ==> fault_given(*package, faults) == Some(error@),
{
    if let Some(fault) = faults.did_document {
        return Err(fault);
    }
    if let Some(fault) = faults.did_document_hash {
        return Err(fault);
    }
    if let Some(fault) = faults.metadata_hash {
        return Err(fault);
    }
    if let Some(fault) = faults.package_hash {
        return Err(fault);
    }
    if package.resource_type != package.metadata.resource_type || package.resource_type
        != package.metadata.subject_type {
        return Err("resource type mismatch".to_owned());
    }
    if !metadata_of_package_agrees(package) || !root_claims_of_package_agree(package) {
        return Err("root proof claim mismatch".to_owned());
    }
    if !same_text(&package.metadata.lifecycle_state, "active") {
        return Err("resource_not_active".to_owned());
    }
    if package.metadata.authorized_domains.len() == 0 {
        return Err("resource_domains_required".to_owned());
    }
    validate_authorized_domain_list(&package.metadata.authorized_domains)
}

/// What is wrong with a published package.
pub open spec fn package_fault(published: PublishedPackage) -> Option<Seq<char>> {
    let document = published.document@;
    first_fault(
        did_document_fault(document),
        first_fault(
            did_document_hash_fault(document),
            first_fault(
                metadata_hash_fault(document),
                first_fault(
                    package_hash_fault(document),
                    first_fault(
                        agreement_fault(published.package),
                        eligibility_fault(published.package),
                    ),
                ),
            ),
        ),
    )
}

/// Accepts a published package for the index: its DID document is that of a
/// resource, its hashes and the root's claims fit, its parts agree, and it is
/// active in a well-formed list of domains.
pub fn validate_resource_package_for_index(published: &PublishedPackage) -> (result: Result<
    (),
    String,
>)
    ensures
        result is Ok <==> package_fault(*published) is None,
        result matches Err(error) ==> package_fault(*published) == Some(error@),
{
    let faults = check_document(&published.document);
    validate_checked_package(&published.package, faults)
}

/// No package is indexed without a domain, nor one that is not active, nor one
/// that the root's claims do not fit.
pub proof fn law_indexed_packages_are_active_and_scoped(published: PublishedPackage)
    requires
        package_fault(published) is None,
    ensures
        published.package.metadata.lifecycle_state@ == "active"@,
        published.package.metadata.authorized_domains@.len() > 0,
        is_domain_list(texts(published.package.metadata.authorized_domains@)),
        types_agree(published.package),
        metadata_agrees(published.package),
        root_claims_agree(published.package),
{
}

/// A notice that a package was published.
#[derive(Debug)]
pub struct DiscoveryNotificationItem {
    pub resource_did: String,
    /// The version, hashes and so on at the time of the notice: the current
    /// package is indexed and judged by itself, so they are not compared.
    pub package_version: String,
    pub publication_cursor: i64,
    pub package_hash: String,
    pub metadata_hash: String,
    pub did_document_hash: String,
    pub resource_type: Option<String>,
    pub capability_tags: Vec<String>,
    pub authorized_domains: Vec<String>,
}

/// What does not fit between a notice and the package it announces.
pub open spec fn notice_fault(
    item: DiscoveryNotificationItem,
    package: ResourcePackage,
) -> Option<Seq<char>> {
    if package.resource_did@ != item.resource_did@ {
        Some("resource_did_mismatch"@)
    } else if item.resource_type matches Some(name) && resource_type_name(package.resource_type)
        != name@ {
        Some("resource_type_mismatch"@)
    } else if item.capability_tags@.len() > 0 && texts(package.metadata.capability_tags@) != texts(
        item.capability_tags@,
    ) {
        Some("capability_tags_mismatch"@)
    } else if item.authorized_domains@.len() == 0 {
        Some("resource_domains_required"@)
    } else if !is_domain_list(texts(item.authorized_domains@)) {
        Some(invalid_domains_error())
    } else if texts(package.metadata.authorized_domains@) != texts(item.authorized_domains@) {
        Some("authorized_domains_mismatch"@)
    } else {
        None
    }
}

/// Accepts a package that fits the notice of it: its DID, and its type, tags
/// and domains as far as the notice names them. A notice must name domains.
pub fn validate_notified_resource_package(
    item: &DiscoveryNotificationItem,
    package: &ResourcePackage,
) -> (result: Result<(), String>)
    ensures
        result is Ok <==> notice_fault(*item, *package) is None,
        result matches Err(error) ==> notice_fault(*item, *package) == Some(error@),
{
    if package.resource_did != item.resource_did {
        return Err("resource_did_mismatch".to_owned());
    }
    if let Some(name) = &item.resource_type {
        if !same_text(package.resource_type.as_str(), name) {
            return Err("resource_type_mismatch".to_owned());
        }
    }
    if item.capability_tags.len() > 0 && !same_texts(
        &package.metadata.capability_tags,
        &item.capability_tags,
    ) {
        return Err("capability_tags_mismatch".to_owned());
    }
    if item.authorized_domains.len() == 0 {
        return Err("resource_domains_required".to_owned());
    }
    if let Err(error) = validate_authorized_domain_list(&item.authorized_domains) {
        return Err(error);
    }
    if !same_texts(&package.metadata.authorized_domains, &item.authorized_domains) {
        return Err("authorized_domains_mismatch".to_owned());
    }
    Ok(())
}

/// A notice with outdated hashes and an outdated version is as good as a
/// current one.
pub proof fn law_stale_notices_are_accepted(
    item: DiscoveryNotificationItem,
    other: DiscoveryNotificationItem,
    package: ResourcePackage,
)
    requires
        item.resource_did == other.resource_did,
        item.resource_type == other.resource_type,
        item.capability_tags == other.capability_tags,
        item.authorized_domains == other.authorized_domains,
    ensures
        notice_fault(item, package) == notice_fault(other, package),
{
}

/// A package that is indexed has no fault in its DID document and its hashes;
/// its type is that of its metadata; its DID, version, hashes and domains are
/// those of its metadata, its DID document and the root's claims; it is active;
/// and it has a domain at least, all of them well formed.
pub proof fn law_indexed_packages_agree_in_every_part(published: PublishedPackage)
    requires
        package_fault(published) is None,
    ensures
        ({
            let package = published.package;
            let metadata = package.metadata;
            let domains = texts(metadata.authorized_domains@);
            &&& did_document_fault(published.document@) is None
            &&& did_document_hash_fault(published.document@) is None
            &&& metadata_hash_fault(published.document@) is None
            &&& package_hash_fault(published.document@) is None
            &&& metadata.resource_type == package.resource_type
            &&& metadata.subject_type == package.resource_type
            &&& metadata.resource_did@ == package.resource_did@
            &&& metadata.package_version@ == package.package_version@
            &&& metadata.package_hash@ == package.package_hash@
            &&& metadata.metadata_hash@ == package.metadata_hash@
            &&& metadata.hash_algorithm@ == package.hash_algorithm@
            &&& package.did_document.oan_metadata matches Some(described) && texts(
                described.authorized_domains@,
            ) == domains
            &&& package.root_proof.package_claims matches Some(claims) && {
                &&& claims.resource_did@ == package.resource_did@
                &&& claims.resource_type == package.resource_type
                &&& claims.version@ == package.package_version@
                &&& claims.did_document_hash@ == package.did_document_hash@
                &&& claims.metadata_hash@ == package.metadata_hash@
                &&& claims.package_hash@ == package.package_hash@
                &&& claims.hash_algorithm@ == package.hash_algorithm@
                &&& claims.lifecycle_state@ == metadata.lifecycle_state@
                &&& texts(claims.authorized_domains@) == domains
            }
            &&& metadata.lifecycle_state@ == "active"@
            &&& domains.len() > 0
            &&& domains.contains("*"@) ==> domains.len() == 1
            &&& !domains.contains("*"@) ==> domains.no_duplicates()
        }),
{
    let domains = texts(published.package.metadata.authorized_domains@);
    assert(domains.len() == published.package.metadata.authorized_domains@.len());
    law_well_formed_domain_lists(domains);
}

/// A package whose DID document and hashes have no fault, whose parts agree,
/// which is active, and which has a well-formed list of domains, is indexed.
pub proof fn law_agreeing_packages_are_indexed(published: PublishedPackage)
    requires
        ({
            let package = published.package;
            let metadata = package.metadata;
            let domains = texts(metadata.authorized_domains@);
            &&& did_document_fault(published.document@) is None
            &&& did_document_hash_fault(published.document@) is None
            &&& metadata_hash_fault(published.document@) is None
            &&& package_hash_fault(published.document@) is None
            &&& metadata.resource_type == package.resource_type
            &&& metadata.subject_type == package.resource_type
            &&& metadata.resource_did@ == package.resource_did@
            &&& metadata.package_version@ == package.package_version@
            &&& metadata.package_hash@ == package.package_hash@
            &&& metadata.metadata_hash@ == package.metadata_hash@
            &&& metadata.hash_algorithm@ == package.hash_algorithm@
            &&& package.did_document.oan_metadata matches Some(described) && texts(
                described.authorized_domains@,
            ) == domains
            &&& package.root_proof.package_claims matches Some(claims) && {
                &&& claims.resource_did@ == package.resource_did@
                &&& claims.resource_type == package.resource_type
                &&& claims.version@ == package.package_version@
                &&& claims.did_document_hash@ == package.did_document_hash@
                &&& claims.metadata_hash@ == package.metadata_hash@
                &&& claims.package_hash@ == package.package_hash@
                &&& claims.hash_algorithm@ == package.hash_algorithm@
                &&& claims.lifecycle_state@ == metadata.lifecycle_state@
                &&& texts(claims.authorized_domains@) == domains
            }
            &&& metadata.lifecycle_state@ == "active"@
            &&& metadata.authorized_domains@.len() > 0
            &&& is_domain_list(domains)
        }),
    ensures
        package_fault(published) is None,
{
}

/// The first fault is the one that is reported: that of the DID document, then
/// those of the hashes, then a disagreement of types, of other parts or of the
/// root's claims, then that the package is not active, and at last its domains.
pub proof fn law_faults_are_reported_in_order(package: ResourcePackage, faults: DocumentFaults)
    ensures
        faults.did_document matches Some(fault) ==> fault_given(package, faults) == Some(fault@),
        faults.did_document is None ==> (faults.did_document_hash matches Some(fault)
            ==> fault_given(package, faults) == Some(fault@)),
        faults.did_document is None && faults.did_document_hash is None ==> (faults.metadata_hash
            matches Some(fault) ==> fault_given(package, faults) == Some(fault@)),
        faults.did_document is None && faults.did_document_hash is None && faults.metadata_hash
            is None ==> (faults.package_hash matches Some(fault) ==> fault_given(package, faults)
            == Some(fault@)),
        faults.did_document is None && faults.did_document_hash is None && faults.metadata_hash
            is None && faults.package_hash is None ==> {
            &&& package.resource_type != package.metadata.resource_type || package.resource_type
                != package.metadata.subject_type ==> fault_given(package, faults) == Some(
                "resource type mismatch"@,
            )
            &&& types_agree(package) && package.root_proof.package_claims is None ==> fault_given(
                package,
                faults,
            ) == Some("root proof claim mismatch"@)
            &&& types_agree(package) && package.resource_did@ != package.metadata.resource_did@
                ==> fault_given(package, faults) == Some("root proof claim mismatch"@)
            &&& agreement_fault(package) is None && package.metadata.lifecycle_state@ != "active"@
                ==> fault_given(package, faults) == Some("resource_not_active"@)
            &&& agreement_fault(package) is None && package.metadata.lifecycle_state@ == "active"@
                && package.metadata.authorized_domains@.len() == 0 ==> fault_given(package, faults)
                == Some("resource_domains_required"@)
            &&& agreement_fault(package) is None && package.metadata.lifecycle_state@ == "active"@
                && package.metadata.authorized_domains@.len() > 0 && !is_domain_list(
                texts(package.metadata.authorized_domains@),
            ) ==> fault_given(package, faults) == Some("invalid_authorized_domains"@)
        },
{
}

/// A published package is judged as it is given the faults of its document.
pub proof fn law_published_packages_are_judged_by_their_document(
    published: PublishedPackage,
    faults: DocumentFaults,
)
    requires
        optional_text(faults.did_document) == did_document_fault(published.document@),
        optional_text(faults.did_document_hash) == did_document_hash_fault(published.document@),
        optional_text(faults.metadata_hash) == metadata_hash_fault(published.document@),
        optional_text(faults.package_hash) == package_hash_fault(published.document@),
    ensures
        package_fault(published) == fault_given(published.package, faults),
{
}

/// A notice fits a package just where it names the package's DID; the type, the
/// tags and the domains that it names are the package's; and it names a
/// well-formed list of domains, one at least.
pub proof fn law_notices_fit_the_package_they_name(
    item: DiscoveryNotificationItem,
    package: ResourcePackage,
)
    ensures
        notice_fault(item, package) is None <==> {
            &&& package.resource_did@ == item.resource_did@
            &&& item.resource_type matches Some(name) ==> resource_type_name(package.resource_type)
                == name@
            &&& item.capability_tags@.len() == 0 || texts(package.metadata.capability_tags@)
                == texts(item.capability_tags@)
            &&& item.authorized_domains@.len() > 0
            &&& is_domain_list(texts(item.authorized_domains@))
            &&& texts(package.metadata.authorized_domains@) == texts(item.authorized_domains@)
        },
        package.resource_did@ != item.resource_did@ ==> notice_fault(item, package) == Some(
            "resource_did_mismatch"@,
        ),
        package.resource_did@ == item.resource_did@ && (item.resource_type matches Some(name)
            && resource_type_name(package.resource_type) != name@) ==> notice_fault(item, package)
            == Some("resource_type_mismatch"@),
{
}

} // verus!
