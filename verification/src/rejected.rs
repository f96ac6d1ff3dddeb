//! Rejected packages: their records, the retry of those that could not be
//! fetched, and the audit of those that have been resolved since.

use vstd::prelude::*;

use crate::domains::{
    all_covered, authorized_domains_cover, law_covered_requests_leave_no_domain_out,
};
use crate::json::{integer_member, member, text_member, text_value, JsonValue};
use crate::ordering::indices;
use crate::package::{is_user_consumable_resource_type, user_consumable, ResourcePackage};
use crate::sync::Rejection;
use crate::text::{contains_text, lemma_texts_push, optional_text, same_text, texts};
use crate::validation::{
    law_indexed_packages_are_active_and_scoped, package_fault, validate_resource_package_for_index,
    PublishedPackage,
};
use crate::words::{
    decimal, digits_value, law_decimal_denotes_the_number, signed_decimal, signed_decimal_text,
};

verus! {

/// The DID of a record: its `resourceDid`, or else its `did`, or else a word
/// that stands for none.
pub open spec fn rejected_did(item: JsonValue) -> Seq<char> {
    match text_member(item, "resourceDid"@) {
        Some(did) => did,
        None => match text_member(item, "did"@) {
            Some(did) => did,
            None => "unknown"@,
        },
    }
}

/// The DID of a record.
pub fn rejected_package_resource_did(item: &JsonValue) -> (did: String)
    ensures
        did@ == rejected_did(*item),
{
    match item.get_text("resourceDid") {
        Some(did) => did.clone(),
        None => match item.get_text("did") {
            Some(did) => did.clone(),
            None => "unknown".to_owned(),
        },
    }
}

/// The cursor of a record; zero where it has none.
pub open spec fn rejected_cursor(item: JsonValue) -> i64 {
    match integer_member(item, "cursor"@) {
        Some(cursor) => cursor,
        None => 0,
    }
}

/// The key of a rejection by its DID and its cursor.
pub open spec fn rejection_key(did: Seq<char>, cursor: int) -> Seq<char> {
    did + ":"@ + signed_decimal(cursor)
}

/// The key under which a record is kept.
pub open spec fn rejected_key(item: JsonValue) -> Seq<char> {
    rejection_key(rejected_did(item), rejected_cursor(item) as int)
}

/// The cursor of a record; zero where it has none.
fn cursor_of_rejected(item: &JsonValue) -> (cursor: i64)
    ensures
        cursor == rejected_cursor(*item),
{
    match item.get_integer("cursor") {
        Some(cursor) => cursor,
        None => 0,
    }
}

/// The key under which a record is kept.
pub fn rejected_package_key(item: &JsonValue) -> (key: String)
    ensures
        key@ == rejected_key(*item),
{
    let mut key = rejected_package_resource_did(item);
    key.append(":");
    key.append(&signed_decimal_text(cursor_of_rejected(item)));
    key
}

/// The reason of a record; empty where it has none.
pub open spec fn rejected_reason(item: JsonValue) -> Seq<char> {
    match text_member(item, "reason"@) {
        Some(reason) => reason,
        None => Seq::empty(),
    }
}

/// The reason of a record; empty where it has none.
fn reason_of_rejected(item: &JsonValue) -> (reason: String)
    ensures
        reason@ == rejected_reason(*item),
{
    match item.get_text("reason") {
        Some(reason) => reason.clone(),
        None => String::new(),
    }
}

/// The DID that a retry asks for: that of the member that is there, and empty
/// where it is no text.
pub open spec fn retried_did(item: JsonValue) -> Seq<char> {
    let found = match member(item, "resourceDid"@) {
        Some(value) => Some(value),
        None => member(item, "did"@),
    };
    match found {
        Some(value) => match text_value(value) {
            Some(did) => did,
            None => Seq::empty(),
        },
        None => Seq::empty(),
    }
}

/// The DID that a retry asks for.
pub fn did_to_retry(item: &JsonValue) -> (did: String)
    ensures
        did@ == retried_did(*item),
{
    let found = match item.get("resourceDid") {
        Some(value) => Some(value),
        None => item.get("did"),
    };
    match found {
        Some(value) => match value.as_text() {
            Some(did) => did.clone(),
            None => String::new(),
        },
        None => String::new(),
    }
}

/// Whether a DID is asked for: there are no wishes, or it is one of them.
pub open spec fn is_asked_for(requested: Seq<Seq<char>>, did: Seq<char>) -> bool {
    requested.len() == 0 || requested.contains(did)
}

/// Whether the package of a record can be fetched again: it could not be
/// fetched, its DID is known, and it is asked for.
pub open spec fn is_retried(item: JsonValue, requested: Seq<Seq<char>>) -> bool {
    &&& rejected_reason(item) == "resource_package_unavailable"@
    &&& retried_did(item).len() > 0
    &&& is_asked_for(requested, retried_did(item))
}

/// The indices of the first `count` records that can be fetched again.
pub open spec fn retried_indices(
    rejected: Seq<JsonValue>,
    requested: Seq<Seq<char>>,
    count: int,
) -> Seq<int>
    decreases count,
{
    if count <= 0 {
        Seq::empty()
    } else {
        let rest = retried_indices(rejected, requested, count - 1);
        if is_retried(rejected[count - 1], requested) {
            rest.push(count - 1)
        } else {
            rest
        }
    }
}

/// The first `limit` of a list, or all of a shorter one.
pub open spec fn first_of<A>(values: Seq<A>, limit: int) -> Seq<A> {
    values.take(
        if limit < values.len() {
            limit
        } else {
            values.len() as int
        },
    )
}

/// The number of items a request allows: `usual` unless it says otherwise, and
/// one at least.
pub open spec fn allowed_items(max_items: Option<usize>, usual: int) -> int {
    match max_items {
        Some(count) => if count < 1 {
            1
        } else {
            count as int
        },
        None => usual,
    }
}

/// The number of items a request allows.
fn items_allowed(max_items: Option<usize>, usual: usize) -> (count: usize)
    ensures
        count == allowed_items(max_items, usual as int),
{
    match max_items {
        Some(count) => if count < 1 {
            1
        } else {
            count
        },
        None => usual,
    }
}

/// Which records are retried, as indices, and how many are passed over.
#[derive(Debug)]
pub struct BackfillPlan {
    pub attempts: Vec<usize>,
    pub skipped: usize,
}

/// Decides which records are retried: the first hundred that can be, unless
/// the request says otherwise.
pub fn plan_rejected_backfill(
    rejected: &Vec<JsonValue>,
    max_items: Option<usize>,
    requested_dids: &Vec<String>,
) -> (plan: BackfillPlan)
    ensures
        indices(plan.attempts@) == first_of(
            retried_indices(rejected@, texts(requested_dids@), rejected@.len() as int),
            allowed_items(max_items, 100),
        ),
        plan.skipped == rejected@.len() - plan.attempts@.len(),
        forall|k: int|
            0 <= k < plan.attempts@.len() ==> #[trigger] plan.attempts@[k] < rejected@.len(),
{
    let limit: usize = items_allowed(max_items, 100);
    let mut attempts: Vec<usize> = Vec::new();
    let mut skipped: usize = 0;
    let ghost requested = texts(requested_dids@);
    let mut i: usize = 0;
    while i < rejected.len()
        invariant
            i <= rejected@.len(),
            requested == texts(requested_dids@),
            limit >= 1,
            indices(attempts@) =~= first_of(
                retried_indices(rejected@, requested, i as int),
                limit as int,
            ),
            skipped + attempts@.len() == i,
            forall|k: int|
                0 <= k < attempts@.len() ==> #[trigger] attempts@[k] < rejected@.len(),
        decreases rejected@.len() - i,
    {
        let item = &rejected[i];
        let ghost before = retried_indices(rejected@, requested, i as int);
        let ghost after = retried_indices(rejected@, requested, i as int + 1);
        let did = did_to_retry(item);
        assert(requested.len() == requested_dids@.len());
        if !same_text(&reason_of_rejected(item), "resource_package_unavailable")
            || did.as_str().is_empty() || (requested_dids.len() > 0 && !contains_text(
            requested_dids,
            &did,
        )) || attempts.len() >= limit {
            skipped = skipped + 1;
            assert(first_of(after, limit as int) =~= first_of(before, limit as int));
        } else {
            let ghost attempts_before = attempts@;
            attempts.push(i);
            assert(indices(attempts@) =~= indices(attempts_before).push(i as int));
            assert(first_of(after, limit as int) =~= first_of(before, limit as int).push(i as int));
        }
        i = i + 1;
    }
    BackfillPlan { attempts, skipped }
}

/// What was fetched for a record.
#[derive(Debug)]
pub enum RetryFetch {
    Fetched(PublishedPackage),
    Missing,
    Failed(String),
}

/// What becomes of a record that is retried.
#[derive(Debug)]
pub enum RetryVerdict {
    /// The package is accepted.
    Recovered,
    /// The package is rejected for another reason.
    Rejected(String),
    /// The package is still missing.
    Missing,
    /// The package could not be fetched, with this error.
    FetchFailed(String),
}

/// Why a fetched package is not accepted.
pub open spec fn retry_fault(
    did: Seq<char>,
    published: PublishedPackage,
    allowed: Seq<Seq<char>>,
) -> Option<Seq<char>> {
    if published.package.resource_did@ != did {
        Some("resource_did_mismatch"@)
    } else if !all_covered(allowed, texts(published.package.metadata.authorized_domains@)) {
        Some("unauthorized_domains"@)
    } else {
        package_fault(published)
    }
}

/// Whether `verdict` is the one on what was fetched for a DID.
pub open spec fn is_verdict(
    verdict: RetryVerdict,
    did: Seq<char>,
    fetched: RetryFetch,
    allowed: Seq<Seq<char>>,
) -> bool {
    match fetched {
        RetryFetch::Fetched(published) => match verdict {
            RetryVerdict::Recovered => retry_fault(did, published, allowed) is None,
            RetryVerdict::Rejected(reason) => retry_fault(did, published, allowed) == Some(reason@),
            _ => false,
        },
        RetryFetch::Missing => verdict is Missing,
        RetryFetch::Failed(error) => verdict matches RetryVerdict::FetchFailed(said) && said@
            == error@,
    }
}

/// The verdict on what was fetched for a DID.
pub fn judge_retry(did: &str, fetched: &RetryFetch, allowed_domains: &Vec<String>) -> (verdict:
    RetryVerdict)
    ensures
        is_verdict(verdict, did@, *fetched, texts(allowed_domains@)),
{
    match fetched {
        RetryFetch::Fetched(published) => {
            if !same_text(&published.package.resource_did, did) {
                return RetryVerdict::Rejected("resource_did_mismatch".to_owned());
            }
            if !authorized_domains_cover(
                allowed_domains,
                &published.package.metadata.authorized_domains,
            ) {
                return RetryVerdict::Rejected("unauthorized_domains".to_owned());
            }
            match validate_resource_package_for_index(published) {
                Ok(_) => RetryVerdict::Recovered,
                Err(reason) => RetryVerdict::Rejected(reason),
            }
        },
        RetryFetch::Missing => RetryVerdict::Missing,
        RetryFetch::Failed(error) => RetryVerdict::FetchFailed(error.clone()),
    }
}

/// A record whose package was recovered.
#[derive(Debug)]
pub struct RecoveredPackage {
    pub resource_did: String,
    pub cursor: i64,
}

/// A record whose package was not recovered.
#[derive(Debug)]
pub struct FailedRetry {
    pub resource_did: String,
    pub cursor: i64,
    pub reason: String,
    pub error: Option<String>,
}

/// The result of a retry.
#[derive(Debug)]
pub struct BackfillOutcome {
    /// Which of the attempts are accepted into the index.
    pub accepted: Vec<usize>,
    pub recovered: Vec<RecoveredPackage>,
    pub failed: Vec<FailedRetry>,
    /// The keys of the records that are dropped.
    pub resolved_keys: Vec<String>,
    /// The records that replace dropped ones.
    pub replacements: Vec<Rejection>,
}

/// The reason and the error that a failed retry is reported with.
pub open spec fn failure_of(verdict: RetryVerdict) -> (Seq<char>, Option<Seq<char>>) {
    match verdict {
        RetryVerdict::Rejected(reason) => (reason@, None),
        RetryVerdict::FetchFailed(error) => ("cdn_fetch_failed"@, Some(error@)),
        _ => ("resource_package_unavailable"@, None),
    }
}

/// The places of the first `count` verdicts that are recoveries.
pub open spec fn recovered_places(verdicts: Seq<RetryVerdict>, count: int) -> Seq<int>
    decreases count,
{
    if count <= 0 {
        Seq::empty()
    } else if verdicts[count - 1] is Recovered {
        recovered_places(verdicts, count - 1).push(count - 1)
    } else {
        recovered_places(verdicts, count - 1)
    }
}

/// The places of the first `count` verdicts that are no recoveries.
pub open spec fn failed_places(verdicts: Seq<RetryVerdict>, count: int) -> Seq<int>
    decreases count,
{
    if count <= 0 {
        Seq::empty()
    } else if verdicts[count - 1] is Recovered {
        failed_places(verdicts, count - 1)
    } else {
        failed_places(verdicts, count - 1).push(count - 1)
    }
}

/// The places of the first `count` verdicts that are rejections.
pub open spec fn replaced_places(verdicts: Seq<RetryVerdict>, count: int) -> Seq<int>
    decreases count,
{
    if count <= 0 {
        Seq::empty()
    } else if verdicts[count - 1] is Rejected {
        replaced_places(verdicts, count - 1).push(count - 1)
    } else {
        replaced_places(verdicts, count - 1)
    }
}

/// The keys of the records that the first `count` verdicts drop: those of
/// recoveries and of rejections.
pub open spec fn dropped_keys(
    rejected: Seq<JsonValue>,
    attempts: Seq<int>,
    verdicts: Seq<RetryVerdict>,
    count: int,
) -> Seq<Seq<char>>
    decreases count,
{
    if count <= 0 {
        Seq::empty()
    } else {
        let rest = dropped_keys(rejected, attempts, verdicts, count - 1);
        if verdicts[count - 1] is Recovered || verdicts[count - 1] is Rejected {
            rest.push(rejected_key(rejected[attempts[count - 1]]))
        } else {
            rest
        }
    }
}

/// Whether `outcome` is the result of a retry with those verdicts, up to
/// `count` of them.
pub open spec fn settles(
    outcome: BackfillOutcome,
    rejected: Seq<JsonValue>,
    attempts: Seq<int>,
    verdicts: Seq<RetryVerdict>,
    count: int,
) -> bool {
    let recovered = recovered_places(verdicts, count);
    let failed = failed_places(verdicts, count);
    let replaced = replaced_places(verdicts, count);
    &&& indices(outcome.accepted@) == recovered
    &&& outcome.recovered@.len() == recovered.len()
    &&& forall|i: int|
        0 <= i < recovered.len() ==> {
            let item = rejected[attempts[recovered[i]]];
            (#[trigger] outcome.recovered@[i]).resource_did@ == retried_did(item)
                && outcome.recovered@[i].cursor == rejected_cursor(item)
        }
    &&& outcome.failed@.len() == failed.len()
    &&& forall|i: int|
        0 <= i < failed.len() ==> {
            let item = rejected[attempts[failed[i]]];
            (#[trigger] outcome.failed@[i]).resource_did@ == retried_did(item)
                && outcome.failed@[i].cursor == rejected_cursor(item) && (
            outcome.failed@[i].reason@,
            optional_text(outcome.failed@[i].error),
            ) == failure_of(verdicts[failed[i]])
        }
    &&& texts(outcome.resolved_keys@) == dropped_keys(rejected, attempts, verdicts, count)
    &&& outcome.replacements@.len() == replaced.len()
    &&& forall|i: int|
        0 <= i < replaced.len() ==> {
            let item = rejected[attempts[replaced[i]]];
            (#[trigger] outcome.replacements@[i]).resource_did@ == retried_did(item)
                && outcome.replacements@[i].cursor == rejected_cursor(item)
                && outcome.replacements@[i].reason@ == failure_of(verdicts[replaced[i]]).0
        }
}

/// Settles a retry, given the verdict on each attempt.
pub fn settle_rejected_backfill(
    rejected: &Vec<JsonValue>,
    plan: &BackfillPlan,
    verdicts: &Vec<RetryVerdict>,
) -> (outcome: BackfillOutcome)
    requires
        verdicts@.len() == plan.attempts@.len(),
        forall|k: int|
            0 <= k < plan.attempts@.len() ==> #[trigger] plan.attempts@[k] < rejected@.len(),
    ensures
        settles(
            outcome,
            rejected@,
            indices(plan.attempts@),
            verdicts@,
            verdicts@.len() as int,
        ),
{
    broadcast use lemma_texts_push;

    let ghost attempts = indices(plan.attempts@);
    let mut outcome = BackfillOutcome {
        accepted: Vec::new(),
        recovered: Vec::new(),
        failed: Vec::new(),
        resolved_keys: Vec::new(),
        replacements: Vec::new(),
    };
    let mut i: usize = 0;
    assert(texts(outcome.resolved_keys@) =~= Seq::empty());
    assert(indices(outcome.accepted@) =~= Seq::empty());
    while i < verdicts.len()
        invariant
            i <= verdicts@.len(),
            verdicts@.len() == plan.attempts@.len(),
            attempts == indices(plan.attempts@),
            forall|k: int|
                0 <= k < plan.attempts@.len() ==> #[trigger] plan.attempts@[k] < rejected@.len(),
            settles(outcome, rejected@, attempts, verdicts@, i as int),
        decreases verdicts@.len() - i,
    {
        let ghost before = outcome;
        let at: usize = plan.attempts[i];
        assert(attempts[i as int] == at);
        let item = &rejected[at];
        let resource_did = did_to_retry(item);
        let cursor: i64 = cursor_of_rejected(item);
        match &verdicts[i] {
            RetryVerdict::Recovered => {
                outcome.accepted.push(i);
                outcome.recovered.push(RecoveredPackage { resource_did, cursor });
                outcome.resolved_keys.push(rejected_package_key(item));
                assert(indices(outcome.accepted@) =~= indices(before.accepted@).push(i as int));
                assert(texts(outcome.resolved_keys@) =~= texts(before.resolved_keys@).push(
                    rejected_key(*item),
                ));
            },
            RetryVerdict::Rejected(reason) => {
                outcome.failed.push(
                    FailedRetry {
                        resource_did: resource_did.clone(),
                        cursor,
                        reason: reason.clone(),
                        error: None,
                    },
                );
                outcome.replacements.push(
                    Rejection { resource_did, cursor, reason: reason.clone() },
                );
                outcome.resolved_keys.push(rejected_package_key(item));
                assert(texts(outcome.resolved_keys@) =~= texts(before.resolved_keys@).push(
                    rejected_key(*item),
                ));
            },
            RetryVerdict::Missing => {
                outcome.failed.push(
                    FailedRetry {
                        resource_did,
                        cursor,
                        reason: "resource_package_unavailable".to_owned(),
                        error: None,
                    },
                );
            },
            RetryVerdict::FetchFailed(error) => {
                outcome.failed.push(
                    FailedRetry {
                        resource_did,
                        cursor,
                        reason: "cdn_fetch_failed".to_owned(),
                        error: Some(error.clone()),
                    },
                );
            },
        }
        i = i + 1;
        proof {
            lemma_settles_step(before, outcome, rejected@, attempts, verdicts@, i as int);
        }
    }
    outcome
}

/// One more verdict is settled.
proof fn lemma_settles_step(
    before: BackfillOutcome,
    after: BackfillOutcome,
    rejected: Seq<JsonValue>,
    attempts: Seq<int>,
    verdicts: Seq<RetryVerdict>,
    count: int,
)
    requires
        0 < count <= verdicts.len(),
        settles(before, rejected, attempts, verdicts, count - 1),
        indices(after.accepted@) == recovered_places(verdicts, count),
        texts(after.resolved_keys@) == dropped_keys(rejected, attempts, verdicts, count),
        ({
            let item = rejected[attempts[count - 1]];
            let verdict = verdicts[count - 1];
            &&& if verdict is Recovered {
                &&& after.recovered@.len() == before.recovered@.len() + 1
                &&& after.recovered@.drop_last() =~= before.recovered@
                &&& after.recovered@.last().resource_did@ == retried_did(item)
                &&& after.recovered@.last().cursor == rejected_cursor(item)
                &&& after.failed@ == before.failed@
            } else {
                &&& after.recovered@ == before.recovered@
                &&& after.failed@.len() == before.failed@.len() + 1
                &&& after.failed@.drop_last() =~= before.failed@
                &&& after.failed@.last().resource_did@ == retried_did(item)
                &&& after.failed@.last().cursor == rejected_cursor(item)
                &&& (after.failed@.last().reason@, optional_text(after.failed@.last().error))
                    == failure_of(verdict)
            }
            &&& if verdict is Rejected {
                &&& after.replacements@.len() == before.replacements@.len() + 1
                &&& after.replacements@.drop_last() =~= before.replacements@
                &&& after.replacements@.last().resource_did@ == retried_did(item)
                &&& after.replacements@.last().cursor == rejected_cursor(item)
                &&& after.replacements@.last().reason@ == failure_of(verdict).0
            } else {
                after.replacements@ == before.replacements@
            }
        }),
    ensures
        settles(after, rejected, attempts, verdicts, count),
{
    let recovered = recovered_places(verdicts, count);
    let failed = failed_places(verdicts, count);
    let replaced = replaced_places(verdicts, count);
    assert forall|i: int| 0 <= i < recovered.len() implies {
        let item = rejected[attempts[recovered[i]]];
        (#[trigger] after.recovered@[i]).resource_did@ == retried_did(item)
            && after.recovered@[i].cursor == rejected_cursor(item)
    } by {
        if i < before.recovered@.len() {
            assert(after.recovered@[i] == before.recovered@[i]);
            assert(recovered[i] == recovered_places(verdicts, count - 1)[i]);
        }
    }
    assert forall|i: int| 0 <= i < failed.len() implies {
        let item = rejected[attempts[failed[i]]];
        (#[trigger] after.failed@[i]).resource_did@ == retried_did(item) && after.failed@[i].cursor
            == rejected_cursor(item) && (
        after.failed@[i].reason@,
        optional_text(after.failed@[i].error),
        ) == failure_of(verdicts[failed[i]])
    } by {
        if i < before.failed@.len() {
            assert(after.failed@[i] == before.failed@[i]);
            assert(failed[i] == failed_places(verdicts, count - 1)[i]);
        }
    }
    assert forall|i: int| 0 <= i < replaced.len() implies {
        let item = rejected[attempts[replaced[i]]];
        (#[trigger] after.replacements@[i]).resource_did@ == retried_did(item)
            && after.replacements@[i].cursor == rejected_cursor(item)
            && after.replacements@[i].reason@ == failure_of(verdicts[replaced[i]]).0
    } by {
        if i < before.replacements@.len() {
            assert(after.replacements@[i] == before.replacements@[i]);
            assert(replaced[i] == replaced_places(verdicts, count - 1)[i]);
        }
    }
}

/// Every attempt is either recovered or has failed, and as many records are
/// dropped as are recovered or replaced.
pub proof fn law_every_retry_is_recovered_or_failed(
    rejected: Seq<JsonValue>,
    attempts: Seq<int>,
    verdicts: Seq<RetryVerdict>,
    count: int,
)
    requires
        0 <= count <= verdicts.len(),
    ensures
        recovered_places(verdicts, count).len() + failed_places(verdicts, count).len() == count,
        dropped_keys(rejected, attempts, verdicts, count).len() == recovered_places(
            verdicts,
            count,
        ).len() + replaced_places(verdicts, count).len(),
    decreases count,
{
    if count > 0 {
        law_every_retry_is_recovered_or_failed(rejected, attempts, verdicts, count - 1);
    }
}

/// A record that replaces another one takes its key: the reason changes in
/// place.
pub proof fn law_replacement_keeps_the_key(item: JsonValue, requested: Seq<Seq<char>>)
    requires
        is_retried(item, requested),
    ensures
        rejection_key(retried_did(item), rejected_cursor(item) as int) == rejected_key(item),
{
}

/// Only records of packages that could not be fetched are retried.
pub proof fn law_only_unavailable_packages_are_retried(
    rejected: Seq<JsonValue>,
    requested: Seq<Seq<char>>,
    count: int,
    index: int,
)
    requires
        0 <= count <= rejected.len(),
        retried_indices(rejected, requested, count).contains(index),
    ensures
        0 <= index < count,
        rejected_reason(rejected[index]) == "resource_package_unavailable"@,
    decreases count,
{
    if count > 0 {
        let rest = retried_indices(rejected, requested, count - 1);
        let all = retried_indices(rejected, requested, count);
        let k = choose|k: int| 0 <= k < all.len() && all[k] == index;
        if index != count - 1 || !is_retried(rejected[count - 1], requested) {
            assert(rest[k] == index);
            law_only_unavailable_packages_are_retried(rejected, requested, count - 1, index);
        }
    }
}

/// The reasons that later packages can resolve.
pub open spec fn resolvable_reasons() -> Seq<Seq<char>> {
    seq!["package_version_mismatch"@, "capability_tags_mismatch"@, "package_hash_mismatch"@]
}

/// The reasons that later packages can resolve.
pub fn resolvable_historical_reject_reasons() -> (reasons: Vec<String>)
    ensures
        texts(reasons@) == resolvable_reasons(),
{
    let mut reasons: Vec<String> = Vec::new();
    reasons.push("package_version_mismatch".to_owned());
    reasons.push("capability_tags_mismatch".to_owned());
    reasons.push("package_hash_mismatch".to_owned());
    assert(texts(reasons@) =~= resolvable_reasons());
    reasons
}

/// Whether later packages can resolve that reason.
pub fn is_resolvable_historical_reject_reason(reason: &str) -> (resolvable: bool)
    ensures
        resolvable == resolvable_reasons().contains(reason@),
{
    contains_text(&resolvable_historical_reject_reasons(), reason)
}

/// Whether a package is shown to users: it is active, users can consume it,
/// and the node's domains cover its own.
pub open spec fn is_visible(package: ResourcePackage, allowed: Seq<Seq<char>>) -> bool {
    &&& package.metadata.lifecycle_state@ == "active"@
    &&& user_consumable(package.resource_type)
    &&& all_covered(allowed, texts(package.metadata.authorized_domains@))
}

/// The DIDs of the packages that are shown to users.
pub open spec fn visible_dids(
    packages: Seq<ResourcePackage>,
    allowed: Seq<Seq<char>>,
) -> Seq<Seq<char>>
    decreases packages.len(),
{
    if packages.len() == 0 {
        Seq::empty()
    } else {
        let rest = visible_dids(packages.drop_last(), allowed);
        if is_visible(packages.last(), allowed) {
            rest.push(packages.last().resource_did@)
        } else {
            rest
        }
    }
}

/// The DIDs of the packages that are shown to users.
pub fn visible_package_dids(packages: &Vec<ResourcePackage>, allowed_domains: &Vec<String>) -> (
    dids: Vec<String>)
    ensures
        texts(dids@) == visible_dids(packages@, texts(allowed_domains@)),
{
    broadcast use lemma_texts_push;

    let mut dids: Vec<String> = Vec::new();
    let mut i: usize = 0;
    assert(texts(dids@) =~= visible_dids(packages@.take(0), texts(allowed_domains@)));
    while i < packages.len()
        invariant
            i <= packages@.len(),
            texts(dids@) == visible_dids(packages@.take(i as int), texts(allowed_domains@)),
        decreases packages@.len() - i,
    {
        assert(packages@.take(i as int + 1).drop_last() =~= packages@.take(i as int));
        let package = &packages[i];
        if same_text(&package.metadata.lifecycle_state, "active")
            && is_user_consumable_resource_type(&package.resource_type) && authorized_domains_cover(
            allowed_domains,
            &package.metadata.authorized_domains,
        ) {
            dids.push(package.resource_did.clone());
        }
        i = i + 1;
    }
    assert(packages@.take(i as int) =~= packages@);
    dids
}

/// Whether a record has been resolved since: its reason can be, its package is
/// shown to users, and it is asked for.
pub open spec fn is_resolved(
    item: JsonValue,
    visible: Seq<Seq<char>>,
    requested: Seq<Seq<char>>,
) -> bool {
    &&& resolvable_reasons().contains(rejected_reason(item))
    &&& rejected_did(item).len() > 0
    &&& visible.contains(rejected_did(item))
    &&& is_asked_for(requested, rejected_did(item))
}

/// The indices of the first `count` records that have been resolved.
pub open spec fn resolved_indices(
    rejected: Seq<JsonValue>,
    visible: Seq<Seq<char>>,
    requested: Seq<Seq<char>>,
    count: int,
) -> Seq<int>
    decreases count,
{
    if count <= 0 {
        Seq::empty()
    } else {
        let rest = resolved_indices(rejected, visible, requested, count - 1);
        if is_resolved(rejected[count - 1], visible, requested) {
            rest.push(count - 1)
        } else {
            rest
        }
    }
}

/// A record that has been resolved.
#[derive(Debug)]
pub struct ResolvedRejection {
    pub index: usize,
    pub resource_did: String,
    pub reason: String,
    pub reject_key: String,
}

/// What an audit of resolved records found.
#[derive(Debug)]
pub struct AuditOutcome {
    pub resolved: Vec<ResolvedRejection>,
    /// The keys of the records that are deleted: none in a dry run.
    pub deleted_keys: Vec<String>,
    pub status: String,
}

/// Whether `entry` describes the record at its index.
pub open spec fn describes_record(entry: ResolvedRejection, rejected: Seq<JsonValue>) -> bool {
    let item = rejected[entry.index as int];
    &&& entry.resource_did@ == rejected_did(item)
    &&& entry.reason@ == rejected_reason(item)
    &&& entry.reject_key@ == rejected_key(item)
}

/// The indices of resolved records.
pub open spec fn entry_indices(entries: Seq<ResolvedRejection>) -> Seq<int> {
    entries.map_values(|entry: ResolvedRejection| entry.index as int)
}

/// The keys of resolved records.
pub open spec fn entry_keys(entries: Seq<ResolvedRejection>) -> Seq<Seq<char>> {
    entries.map_values(|entry: ResolvedRejection| entry.reject_key@)
}

/// The records that have been resolved, up to a limit.
fn find_resolved(
    rejected: &Vec<JsonValue>,
    visible: &Vec<String>,
    requested_dids: &Vec<String>,
    limit: usize,
) -> (resolved: Vec<ResolvedRejection>)
    requires
        limit >= 1,
    ensures
        entry_indices(resolved@) == first_of(
            resolved_indices(
                rejected@,
                texts(visible@),
                texts(requested_dids@),
                rejected@.len() as int,
            ),
            limit as int,
        ),
        forall|i: int|
            0 <= i < resolved@.len() ==> describes_record(#[trigger] resolved@[i], rejected@),
{
    let ghost visible_texts = texts(visible@);
    let ghost requested = texts(requested_dids@);
    let mut resolved: Vec<ResolvedRejection> = Vec::new();
    let mut i: usize = 0;
    while i < rejected.len()
        invariant
            i <= rejected@.len(),
            limit >= 1,
            visible_texts == texts(visible@),
            requested == texts(requested_dids@),
            entry_indices(resolved@) =~= first_of(
                resolved_indices(rejected@, visible_texts, requested, i as int),
                limit as int,
            ),
            forall|k: int|
                0 <= k < resolved@.len() ==> describes_record(#[trigger] resolved@[k], rejected@),
        decreases rejected@.len() - i,
    {
        let item = &rejected[i];
        let ghost before = resolved_indices(rejected@, visible_texts, requested, i as int);
        let ghost after = resolved_indices(rejected@, visible_texts, requested, i as int + 1);
        let reason = reason_of_rejected(item);
        let resource_did = rejected_package_resource_did(item);
        assert(requested.len() == requested_dids@.len());
        assert(entry_indices(resolved@).len() == resolved@.len());
        if resolved.len() < limit && is_resolvable_historical_reject_reason(&reason)
            && !resource_did.as_str().is_empty() && contains_text(visible, &resource_did) && (
        requested_dids.len() == 0 || contains_text(requested_dids, &resource_did)) {
            let ghost resolved_before = resolved@;
            resolved.push(
                ResolvedRejection {
                    index: i,
                    resource_did,
                    reason,
                    reject_key: rejected_package_key(item),
                },
            );
            assert(entry_indices(resolved@) =~= entry_indices(resolved_before).push(i as int));
            assert(first_of(after, limit as int) =~= first_of(before, limit as int).push(i as int));
        } else {
            assert(first_of(after, limit as int) =~= first_of(before, limit as int));
        }
        i = i + 1;
    }
    resolved
}

/// Finds the records that have been resolved, a thousand unless the request
/// says otherwise, and decides which are deleted: all of them, or none in a
/// dry run.
pub fn audit_resolved_rejected_packages(
    rejected: &Vec<JsonValue>,
    visible: &Vec<String>,
    dry_run: bool,
    max_items: Option<usize>,
    requested_dids: &Vec<String>,
) -> (outcome: AuditOutcome)
    ensures
        entry_indices(outcome.resolved@) == first_of(
            resolved_indices(
                rejected@,
                texts(visible@),
                texts(requested_dids@),
                rejected@.len() as int,
            ),
            allowed_items(max_items, 1_000),
        ),
        forall|i: int|
            0 <= i < outcome.resolved@.len() ==> describes_record(
                #[trigger] outcome.resolved@[i],
                rejected@,
            ),
        texts(outcome.deleted_keys@) == if dry_run {
            Seq::empty()
        } else {
            entry_keys(outcome.resolved@)
        },
        outcome.status@ == if dry_run {
            "audited"@
        } else {
            "cleaned"@
        },
{
    let limit: usize = items_allowed(max_items, 1_000);
    let resolved = find_resolved(rejected, visible, requested_dids, limit);
    let mut deleted_keys: Vec<String> = Vec::new();
    assert(texts(deleted_keys@) =~= Seq::empty());
    if !dry_run {
        let mut i: usize = 0;
        while i < resolved.len()
            invariant
                i <= resolved@.len(),
                texts(deleted_keys@) =~= entry_keys(resolved@).take(i as int),
            decreases resolved@.len() - i,
        {
            broadcast use lemma_texts_push;

            deleted_keys.push(resolved[i].reject_key.clone());
            i = i + 1;
            assert(entry_keys(resolved@).take(i as int) =~= entry_keys(resolved@).take(
                i as int - 1,
            ).push(resolved@[i as int - 1].reject_key@));
        }
        assert(texts(deleted_keys@) =~= entry_keys(resolved@));
    }
    AuditOutcome {
        resolved,
        deleted_keys,
        status: if dry_run {
            "audited".to_owned()
        } else {
            "cleaned".to_owned()
        },
    }
}

/// The indices of the first `count` records whose DIDs are not among `dids`.
pub open spec fn kept_by_did(rejected: Seq<JsonValue>, dids: Seq<Seq<char>>, count: int) -> Seq<int>
    decreases count,
{
    if count <= 0 {
        Seq::empty()
    } else {
        let rest = kept_by_did(rejected, dids, count - 1);
        if dids.contains(rejected_did(rejected[count - 1])) {
            rest
        } else {
            rest.push(count - 1)
        }
    }
}

/// A package that is accepted leaves no record of an earlier rejection, and no
/// record of another package is lost.
pub proof fn law_accepted_packages_leave_no_record(
    rejected: Seq<JsonValue>,
    dids: Seq<Seq<char>>,
    count: int,
    index: int,
)
    requires
        0 <= count <= rejected.len(),
    ensures
        kept_by_did(rejected, dids, count).contains(index) <==> 0 <= index < count
            && !dids.contains(rejected_did(rejected[index])),
    decreases count,
{
    if count > 0 {
        law_accepted_packages_leave_no_record(rejected, dids, count - 1, index);
        let rest = kept_by_did(rejected, dids, count - 1);
        let all = kept_by_did(rejected, dids, count);
        if rest.contains(index) {
            let k = choose|k: int| 0 <= k < rest.len() && rest[k] == index;
            assert(all[k] == index);
        }
        if all.len() > rest.len() {
            assert(all[all.len() - 1] == count - 1);
        }
        if all.contains(index) && index != count - 1 {
            let k = choose|k: int| 0 <= k < all.len() && all[k] == index;
            assert(rest[k] == index);
        }
    }
}

/// The records that stay when those of accepted DIDs are deleted, as indices.
pub fn records_without_dids(rejected: &Vec<JsonValue>, resource_dids: &Vec<String>) -> (kept: Vec<
    usize,
>)
    ensures
        indices(kept@) == kept_by_did(rejected@, texts(resource_dids@), rejected@.len() as int),
{
    let mut kept: Vec<usize> = Vec::new();
    let mut i: usize = 0;
    while i < rejected.len()
        invariant
            i <= rejected@.len(),
            indices(kept@) =~= kept_by_did(rejected@, texts(resource_dids@), i as int),
        decreases rejected@.len() - i,
    {
        if !contains_text(resource_dids, &rejected_package_resource_did(&rejected[i])) {
            let ghost before = kept@;
            kept.push(i);
            assert(indices(kept@) =~= indices(before).push(i as int));
        }
        i = i + 1;
    }
    kept
}

/// The indices of the first `count` records whose keys are not among `keys`.
pub open spec fn kept_by_key(rejected: Seq<JsonValue>, keys: Seq<Seq<char>>, count: int) -> Seq<int>
    decreases count,
{
    if count <= 0 {
        Seq::empty()
    } else {
        let rest = kept_by_key(rejected, keys, count - 1);
        if keys.contains(rejected_key(rejected[count - 1])) {
            rest
        } else {
            rest.push(count - 1)
        }
    }
}

/// The records that stay when those of some keys are deleted, as indices.
pub fn records_without_keys(rejected: &Vec<JsonValue>, reject_keys: &Vec<String>) -> (kept: Vec<
    usize,
>)
    ensures
        indices(kept@) == kept_by_key(rejected@, texts(reject_keys@), rejected@.len() as int),
{
    let mut kept: Vec<usize> = Vec::new();
    let mut i: usize = 0;
    while i < rejected.len()
        invariant
            i <= rejected@.len(),
            indices(kept@) =~= kept_by_key(rejected@, texts(reject_keys@), i as int),
        decreases rejected@.len() - i,
    {
        if !contains_text(reject_keys, &rejected_package_key(&rejected[i])) {
            let ghost before = kept@;
            kept.push(i);
            assert(indices(kept@) =~= indices(before).push(i as int));
        }
        i = i + 1;
    }
    kept
}

/// Whether two lists of rejections say the same.
pub open spec fn same_rejections(left: Seq<Rejection>, right: Seq<Rejection>) -> bool {
    &&& left.len() == right.len()
    &&& forall|i: int|
        0 <= i < left.len() ==> (#[trigger] left[i]).resource_did@ == right[i].resource_did@
            && left[i].cursor == right[i].cursor && left[i].reason@ == right[i].reason@
}

/// The keys under which rejections are kept.
pub open spec fn rejection_keys(rejections: Seq<Rejection>) -> Seq<Seq<char>> {
    rejections.map_values(
        |rejection: Rejection| rejection_key(rejection.resource_did@, rejection.cursor as int),
    )
}

/// A copy of a list of rejections.
fn copy_rejections(rejections: &Vec<Rejection>) -> (copies: Vec<Rejection>)
    ensures
        same_rejections(copies@, rejections@),
{
    let mut copies: Vec<Rejection> = Vec::new();
    let mut i: usize = 0;
    while i < rejections.len()
        invariant
            i <= rejections@.len(),
            copies@.len() == i,
            forall|k: int|
                0 <= k < i ==> (#[trigger] copies@[k]).resource_did@ == rejections@[k].resource_did@
                    && copies@[k].cursor == rejections@[k].cursor && copies@[k].reason@
                    == rejections@[k].reason@,
        decreases rejections@.len() - i,
    {
        copies.push(
            Rejection {
                resource_did: rejections[i].resource_did.clone(),
                cursor: rejections[i].cursor,
                reason: rejections[i].reason.clone(),
            },
        );
        i = i + 1;
    }
    copies
}

/// The keys under which rejections are kept.
fn keys_of_rejections(rejections: &Vec<Rejection>) -> (keys: Vec<String>)
    ensures
        texts(keys@) == rejection_keys(rejections@),
{
    broadcast use lemma_texts_push;

    let mut keys: Vec<String> = Vec::new();
    let mut i: usize = 0;
    while i < rejections.len()
        invariant
            i <= rejections@.len(),
            texts(keys@) =~= rejection_keys(rejections@).take(i as int),
        decreases rejections@.len() - i,
    {
        let mut key = rejections[i].resource_did.clone();
        key.append(":");
        key.append(&signed_decimal_text(rejections[i].cursor));
        keys.push(key);
        i = i + 1;
        assert(rejection_keys(rejections@).take(i as int) =~= rejection_keys(rejections@).take(
            i as int - 1,
        ).push(rejection_keys(rejections@)[i as int - 1]));
    }
    assert(texts(keys@) =~= rejection_keys(rejections@));
    keys
}

/// The list of rejected packages after a change: the records that stay, as
/// indices, and the rejections that follow them.
#[derive(Debug)]
pub struct RejectedAfter {
    pub kept: Vec<usize>,
    pub added: Vec<Rejection>,
}

/// The list of rejected packages after a retry: the records that it did not
/// resolve, then the replacements.
pub fn rejected_after_retry(rejected: &Vec<JsonValue>, outcome: &BackfillOutcome) -> (after:
    RejectedAfter)
    ensures
        indices(after.kept@) == kept_by_key(
            rejected@,
            texts(outcome.resolved_keys@),
            rejected@.len() as int,
        ),
        same_rejections(after.added@, outcome.replacements@),
{
    RejectedAfter {
        kept: records_without_keys(rejected, &outcome.resolved_keys),
        added: copy_rejections(&outcome.replacements),
    }
}

/// The list of rejected packages after a synchronisation: the records of other
/// keys, then its rejections.
pub fn rejected_after_sync(rejected: &Vec<JsonValue>, rejections: &Vec<Rejection>) -> (after:
    RejectedAfter)
    ensures
        indices(after.kept@) == kept_by_key(
            rejected@,
            rejection_keys(rejections@),
            rejected@.len() as int,
        ),
        same_rejections(after.added@, rejections@),
{
    RejectedAfter {
        kept: records_without_keys(rejected, &keys_of_rejections(rejections)),
        added: copy_rejections(rejections),
    }
}

/// The records at those indices.
pub open spec fn records_at(rejected: Seq<JsonValue>, kept: Seq<int>) -> Seq<JsonValue> {
    kept.map_values(|index: int| rejected[index])
}

/// A record stays just where its key is not among those that are dropped.
pub proof fn law_other_keys_are_kept(
    rejected: Seq<JsonValue>,
    keys: Seq<Seq<char>>,
    count: int,
    index: int,
)
    requires
        0 <= count <= rejected.len(),
    ensures
        kept_by_key(rejected, keys, count).contains(index) <==> 0 <= index < count
            && !keys.contains(rejected_key(rejected[index])),
    decreases count,
{
    if count > 0 {
        law_other_keys_are_kept(rejected, keys, count - 1, index);
        let rest = kept_by_key(rejected, keys, count - 1);
        let all = kept_by_key(rejected, keys, count);
        if rest.contains(index) {
            let k = choose|k: int| 0 <= k < rest.len() && rest[k] == index;
            assert(all[k] == index);
        }
        if all.len() > rest.len() {
            assert(all[all.len() - 1] == count - 1);
        }
        if all.contains(index) && index != count - 1 {
            let k = choose|k: int| 0 <= k < all.len() && all[k] == index;
            assert(rest[k] == index);
        }
    }
}

/// Every key that a retry drops is that of an attempt.
proof fn lemma_dropped_keys(
    rejected: Seq<JsonValue>,
    attempts: Seq<int>,
    verdicts: Seq<RetryVerdict>,
    count: int,
    key: Seq<char>,
)
    requires
        0 <= count <= attempts.len(),
        dropped_keys(rejected, attempts, verdicts, count).contains(key),
    ensures
        exists|k: int| 0 <= k < count && rejected_key(rejected[#[trigger] attempts[k]]) == key,
    decreases count,
{
    if count > 0 {
        let rest = dropped_keys(rejected, attempts, verdicts, count - 1);
        let all = dropped_keys(rejected, attempts, verdicts, count);
        let i = choose|i: int| 0 <= i < all.len() && all[i] == key;
        if i < rest.len() {
            assert(rest[i] == key);
            lemma_dropped_keys(rejected, attempts, verdicts, count - 1, key);
        } else {
            assert(rejected_key(rejected[attempts[count - 1]]) == key);
        }
    }
}

/// The DIDs of the packages that a retry recovered.
pub open spec fn recovered_dids(outcome: BackfillOutcome) -> Seq<Seq<char>> {
    outcome.recovered@.map_values(|package: RecoveredPackage| package.resource_did@)
}

/// A retry leaves every other rejection untouched. A record that was not
/// rejected because its package could not be fetched, whose key no retried
/// record shares, and no package of whose DID was recovered, is still in the
/// list: it stays when the records of the recovered packages' DIDs are deleted,
/// and when those of the resolved keys are.
pub proof fn law_other_rejections_are_left_untouched(
    rejected: Seq<JsonValue>,
    requested: Seq<Seq<char>>,
    limit: int,
    verdicts: Seq<RetryVerdict>,
    outcome: BackfillOutcome,
    index: int,
)
    requires
        0 <= limit,
        0 <= index < rejected.len(),
        rejected_reason(rejected[index]) != "resource_package_unavailable"@,
        ({
            let attempts = first_of(
                retried_indices(rejected, requested, rejected.len() as int),
                limit,
            );
            &&& verdicts.len() == attempts.len()
            &&& settles(outcome, rejected, attempts, verdicts, verdicts.len() as int)
            &&& forall|k: int|
                0 <= k < attempts.len() && #[trigger] attempts[k] != index ==> rejected_key(
                    rejected[attempts[k]],
                ) != rejected_key(rejected[index])
        }),
        !recovered_dids(outcome).contains(rejected_did(rejected[index])),
    ensures
        kept_by_key(rejected, texts(outcome.resolved_keys@), rejected.len() as int).contains(index),
        ({
            let dids = recovered_dids(outcome);
            let left = records_at(rejected, kept_by_did(rejected, dids, rejected.len() as int));
            records_at(
                left,
                kept_by_key(left, texts(outcome.resolved_keys@), left.len() as int),
            ).contains(rejected[index])
        }),
{
    let all = retried_indices(rejected, requested, rejected.len() as int);
    let attempts = first_of(all, limit);
    let keys = texts(outcome.resolved_keys@);
    let key = rejected_key(rejected[index]);
    if keys.contains(key) {
        lemma_dropped_keys(rejected, attempts, verdicts, verdicts.len() as int, key);
        let k = choose|k: int|
            0 <= k < attempts.len() && rejected_key(rejected[#[trigger] attempts[k]]) == key;
        assert(attempts[k] == all[k]);
        assert(all.contains(all[k]));
        law_only_unavailable_packages_are_retried(
            rejected,
            requested,
            rejected.len() as int,
            all[k],
        );
    }
    law_other_keys_are_kept(rejected, keys, rejected.len() as int, index);
    let dids = recovered_dids(outcome);
    let places = kept_by_did(rejected, dids, rejected.len() as int);
    law_accepted_packages_leave_no_record(rejected, dids, rejected.len() as int, index);
    let left = records_at(rejected, places);
    let place = choose|place: int| 0 <= place < places.len() && places[place] == index;
    assert(left[place] == rejected[index]);
    let kept = kept_by_key(left, keys, left.len() as int);
    law_other_keys_are_kept(left, keys, left.len() as int, place);
    let i = choose|i: int| 0 <= i < kept.len() && kept[i] == place;
    assert(records_at(left, kept)[i] == rejected[index]);
}

/// A synchronisation leaves every record in the list whose key none of its
/// rejections has.
pub proof fn law_synchronisation_keeps_other_rejections(
    rejected: Seq<JsonValue>,
    rejections: Seq<Rejection>,
    index: int,
)
    requires
        0 <= index < rejected.len(),
        !rejection_keys(rejections).contains(rejected_key(rejected[index])),
    ensures
        kept_by_key(rejected, rejection_keys(rejections), rejected.len() as int).contains(index),
{
    law_other_keys_are_kept(
        rejected,
        rejection_keys(rejections),
        rejected.len() as int,
        index,
    );
}

/// Where a record is kept and what it says: its DID is the member of that name,
/// or the short one, or stands for none; its cursor is zero, and its reason
/// empty, where it has none; and its key is its DID and its cursor.
pub proof fn law_records_are_read_by_their_members(item: JsonValue)
    ensures
        text_member(item, "resourceDid"@) matches Some(did) ==> rejected_did(item) == did,
        text_member(item, "resourceDid"@) is None ==> (text_member(item, "did"@) matches Some(did)
            ==> rejected_did(item) == did),
        text_member(item, "resourceDid"@) is None && text_member(item, "did"@) is None
            ==> rejected_did(item) == "unknown"@,
        integer_member(item, "cursor"@) matches Some(cursor) ==> rejected_cursor(item) == cursor,
        integer_member(item, "cursor"@) is None ==> rejected_cursor(item) == 0,
        text_member(item, "reason"@) matches Some(reason) ==> rejected_reason(item) == reason,
        text_member(item, "reason"@) is None ==> rejected_reason(item).len() == 0,
        rejected_key(item) == rejected_did(item) + ":"@ + signed_decimal(
            rejected_cursor(item) as int,
        ),
{
}

/// The signs of a number in decimal notation, and the number itself.
proof fn lemma_signed_decimal(value: int)
    ensures
        signed_decimal(value).len() > 0,
        forall|i: int|
            0 <= i < signed_decimal(value).len() ==> #[trigger] signed_decimal(value)[i] != ':',
        value < 0 <==> signed_decimal(value)[0] == '-',
        value >= 0 ==> digits_value(signed_decimal(value)) == value,
        value < 0 ==> digits_value(signed_decimal(value).skip(1)) == -value,
{
    if value < 0 {
        let digits = decimal((-value) as nat);
        law_decimal_denotes_the_number((-value) as nat);
        let text = signed_decimal(value);
        assert(text.skip(1) =~= digits);
        assert forall|i: int| 0 <= i < text.len() implies #[trigger] text[i] != ':' by {
            if i > 0 {
                assert(text[i] == digits[i - 1]);
            }
        }
    } else {
        law_decimal_denotes_the_number(value as nat);
    }
}

/// Keys tell rejections apart: those of different DIDs or different cursors
/// differ.
pub proof fn law_keys_tell_rejections_apart(
    first: Seq<char>,
    first_cursor: int,
    second: Seq<char>,
    second_cursor: int,
)
    requires
        rejection_key(first, first_cursor) == rejection_key(second, second_cursor),
    ensures
        first == second,
        first_cursor == second_cursor,
{
    reveal_strlit(":");
    let key = rejection_key(first, first_cursor);
    let a = signed_decimal(first_cursor);
    let b = signed_decimal(second_cursor);
    lemma_signed_decimal(first_cursor);
    lemma_signed_decimal(second_cursor);
    assert(key[first.len() as int] == ':');
    assert(rejection_key(second, second_cursor)[second.len() as int] == ':');
    let n: int = first.len() as int;
    let m: int = second.len() as int;
    assert(key.len() == n + 1 + a.len());
    assert(key.len() == m + 1 + b.len());
    if n < m {
        assert(key[m] == a[m - (n + 1)]);
    }
    if m < n {
        assert(rejection_key(second, second_cursor)[n] == b[n - (m + 1)]);
    }
    assert(first =~= key.take(first.len() as int));
    assert(second =~= key.take(first.len() as int));
    assert(a =~= key.skip(first.len() as int + 1));
    assert(b =~= key.skip(first.len() as int + 1));
}

/// The records that are retried, in their order.
proof fn lemma_retried_indices(rejected: Seq<JsonValue>, requested: Seq<Seq<char>>, count: int)
    requires
        0 <= count <= rejected.len(),
    ensures
        forall|i: int| #[trigger]
            retried_indices(rejected, requested, count).contains(i) <==> 0 <= i < count
                && is_retried(rejected[i], requested),
        forall|k: int, l: int|
            0 <= k < l < retried_indices(rejected, requested, count).len()
                ==> #[trigger] retried_indices(rejected, requested, count)[k]
                < #[trigger] retried_indices(rejected, requested, count)[l],
        retried_indices(rejected, requested, count).len() <= count,
    decreases count,
{
    if count > 0 {
        lemma_retried_indices(rejected, requested, count - 1);
        let rest = retried_indices(rejected, requested, count - 1);
        let all = retried_indices(rejected, requested, count);
        assert forall|i: int| #[trigger] all.contains(i) <==> 0 <= i < count && is_retried(
            rejected[i],
            requested,
        ) by {
            assert(rest.contains(i) <==> 0 <= i < count - 1 && is_retried(rejected[i], requested));
            if rest.contains(i) {
                let k = choose|k: int| 0 <= k < rest.len() && rest[k] == i;
                assert(all[k] == i);
            }
            if all.contains(i) && i != count - 1 {
                let k = choose|k: int| 0 <= k < all.len() && all[k] == i;
                assert(rest[k] == i);
            }
            if all.len() > rest.len() {
                assert(all[all.len() - 1] == count - 1);
            }
            if all.contains(i) && all.len() == rest.len() {
                assert(rest.contains(i));
            }
        }
        assert forall|k: int, l: int| 0 <= k < l < all.len() implies #[trigger] all[k]
            < #[trigger] all[l] by {
            assert(rest.contains(rest[k]));
            if l < rest.len() {
                assert(rest[k] < rest[l]);
            }
        }
    }
}

/// A record is retried where its package could not be fetched, it names a DID,
/// and that is asked for or nothing is; the first such records are, a hundred
/// or as many as are asked for, and every one where there are no more.
pub proof fn law_unavailable_records_are_retried(
    rejected: Seq<JsonValue>,
    requested: Seq<Seq<char>>,
    max_items: Option<usize>,
    index: int,
    k: int,
)
    requires
        0 <= index < rejected.len(),
    ensures
        ({
            let attempts = first_of(
                retried_indices(rejected, requested, rejected.len() as int),
                allowed_items(max_items, 100),
            );
            let eligible = text_member(rejected[index], "reason"@) == Some(
                "resource_package_unavailable"@,
            ) && retried_did(rejected[index]).len() > 0 && (requested.len() == 0
                || requested.contains(retried_did(rejected[index])));
            &&& attempts.contains(index) ==> eligible
            &&& eligible && max_items is None && rejected.len() <= 100 ==> attempts.contains(index)
            &&& max_items matches Some(count) ==> (eligible && rejected.len() <= count
                ==> attempts.contains(index))
            &&& max_items is None ==> attempts.len() <= 100
            &&& max_items matches Some(count) ==> attempts.len() <= count || attempts.len() == 1
            &&& eligible && !attempts.contains(index) && 0 <= k < attempts.len() ==> attempts[k]
                < index
            &&& 0 <= k < attempts.len() - 1 ==> attempts[k] < attempts[k + 1]
        }),
{
    let all = retried_indices(rejected, requested, rejected.len() as int);
    let limit = allowed_items(max_items, 100);
    let attempts = first_of(all, limit);
    lemma_retried_indices(rejected, requested, rejected.len() as int);
    reveal_strlit("resource_package_unavailable");
    assert(attempts.len() <= all.len());
    if attempts.contains(index) {
        let p = choose|p: int| 0 <= p < attempts.len() && attempts[p] == index;
        assert(all[p] == index);
        assert(all.contains(index));
    }
    if all.contains(index) {
        let p = choose|p: int| 0 <= p < all.len() && all[p] == index;
        if p < attempts.len() {
            assert(attempts[p] == index);
        } else if 0 <= k < attempts.len() {
            assert(attempts[k] == all[k]);
            assert(all[k] < all[p]);
        }
    }
    if 0 <= k < attempts.len() - 1 {
        assert(attempts[k] == all[k]);
        assert(attempts[k + 1] == all[k + 1]);
    }
    let eligible = text_member(rejected[index], "reason"@) == Some(
        "resource_package_unavailable"@,
    ) && retried_did(rejected[index]).len() > 0 && (requested.len() == 0 || requested.contains(
        retried_did(rejected[index]),
    ));
    assert("resource_package_unavailable"@.len() == 28);
    assert(eligible == is_retried(rejected[index], requested));
    assert(attempts.contains(index) ==> eligible);
    assert(eligible ==> all.contains(index));
}

/// The DID that a retry asks for is the text of the record's DID member, or of
/// the short one where there is none.
pub proof fn law_retries_ask_for_the_recorded_did(item: JsonValue)
    ensures
        text_member(item, "resourceDid"@) matches Some(did) ==> retried_did(item) == did,
        member(item, "resourceDid"@) is None ==> (text_member(item, "did"@) matches Some(did)
            ==> retried_did(item) == did),
        member(item, "resourceDid"@) is None && text_member(item, "did"@) is None ==> retried_did(
            item,
        ).len() == 0,
        retried_did(item).len() > 0 ==> retried_did(item) == rejected_did(item),
{
}

/// A package is recovered just where it was fetched, has the DID that was asked
/// for, has no fault, and each of its domains equals an allowed one or extends
/// it by a dot. A fetch that fails is told from a package that is missing.
pub proof fn law_recovered_packages_are_asked_for_and_covered(
    verdict: RetryVerdict,
    did: Seq<char>,
    fetched: RetryFetch,
    allowed: Seq<Seq<char>>,
    i: int,
)
    requires
        is_verdict(verdict, did, fetched, allowed),
    ensures
        verdict is Recovered ==> (fetched matches RetryFetch::Fetched(published) && {
            let domains = texts(published.package.metadata.authorized_domains@);
            &&& published.package.resource_did@ == did
            &&& package_fault(published) is None
            &&& published.package.metadata.lifecycle_state@ == "active"@
            &&& domains.len() > 0
            &&& !allowed.contains("*"@) && 0 <= i < domains.len() ==> exists|k: int|
                0 <= k < allowed.len() && (domains[i] == #[trigger] allowed[k] || exists|
                    below: Seq<char>,
                |
                    domains[i] == #[trigger] (allowed[k] + "."@ + below))
        }),
        fetched matches RetryFetch::Fetched(published) ==> {
            &&& published.package.resource_did@ != did ==> (verdict matches RetryVerdict::Rejected(
                reason,
            ) && reason@ == "resource_did_mismatch"@)
            &&& published.package.resource_did@ == did && !all_covered(
                allowed,
                texts(published.package.metadata.authorized_domains@),
            ) ==> (verdict matches RetryVerdict::Rejected(reason) && reason@
                == "unauthorized_domains"@)
            &&& published.package.resource_did@ == did && all_covered(
                allowed,
                texts(published.package.metadata.authorized_domains@),
            ) && package_fault(published) is None ==> verdict is Recovered
            &&& published.package.resource_did@ == did && all_covered(
                allowed,
                texts(published.package.metadata.authorized_domains@),
            ) ==> (package_fault(published) matches Some(fault) ==> (verdict
                matches RetryVerdict::Rejected(reason) && reason@ == fault))
        },
        fetched is Missing <==> verdict is Missing,
        fetched is Failed <==> verdict is FetchFailed,
        fetched matches RetryFetch::Failed(error) ==> (verdict matches RetryVerdict::FetchFailed(
            said,
        ) && said@ == error@),
{
    if verdict is Recovered {
        let published = fetched->Fetched_0;
        let domains = texts(published.package.metadata.authorized_domains@);
        law_indexed_packages_are_active_and_scoped(published);
        assert(domains.len() == published.package.metadata.authorized_domains@.len());
        if !allowed.contains("*"@) && 0 <= i < domains.len() {
            law_covered_requests_leave_no_domain_out(allowed, domains, i);
        }
    }
}

/// Which verdicts are recoveries, failures and rejections, and which keys they
/// drop.
proof fn lemma_places(
    rejected: Seq<JsonValue>,
    attempts: Seq<int>,
    verdicts: Seq<RetryVerdict>,
    count: int,
)
    requires
        0 <= count <= verdicts.len(),
    ensures
        forall|k: int| #[trigger]
            recovered_places(verdicts, count).contains(k) <==> 0 <= k < count && verdicts[k]
                is Recovered,
        forall|k: int| #[trigger]
            failed_places(verdicts, count).contains(k) <==> 0 <= k < count && !(verdicts[k]
                is Recovered),
        forall|k: int| #[trigger]
            replaced_places(verdicts, count).contains(k) <==> 0 <= k < count && verdicts[k]
                is Rejected,
        forall|k: int|
            0 <= k < count && ((#[trigger] verdicts[k]) is Recovered || verdicts[k] is Rejected)
                ==> dropped_keys(rejected, attempts, verdicts, count).contains(
                rejected_key(rejected[attempts[k]]),
            ),
    decreases count,
{
    if count > 0 {
        lemma_places(rejected, attempts, verdicts, count - 1);
        let last = count - 1;
        let recovered = recovered_places(verdicts, count);
        let failed = failed_places(verdicts, count);
        let replaced = replaced_places(verdicts, count);
        let keys = dropped_keys(rejected, attempts, verdicts, count);
        lemma_grown(recovered_places(verdicts, last), recovered, last);
        lemma_grown(failed_places(verdicts, last), failed, last);
        lemma_grown(replaced_places(verdicts, last), replaced, last);
        assert forall|k: int| #[trigger] recovered.contains(k) <==> 0 <= k < count && verdicts[k]
            is Recovered by {
            assert(recovered_places(verdicts, last).contains(k) <==> 0 <= k < last && verdicts[k]
                is Recovered);
        }
        assert forall|k: int| #[trigger] failed.contains(k) <==> 0 <= k < count && !(verdicts[k]
            is Recovered) by {
            assert(failed_places(verdicts, last).contains(k) <==> 0 <= k < last && !(verdicts[k]
                is Recovered));
        }
        assert forall|k: int| #[trigger] replaced.contains(k) <==> 0 <= k < count && verdicts[k]
            is Rejected by {
            assert(replaced_places(verdicts, last).contains(k) <==> 0 <= k < last && verdicts[k]
                is Rejected);
        }
        assert forall|k: int|
            0 <= k < count && ((#[trigger] verdicts[k]) is Recovered || verdicts[k]
                is Rejected) implies keys.contains(rejected_key(rejected[attempts[k]])) by {
            let before = dropped_keys(rejected, attempts, verdicts, last);
            if k < last {
                let key = rejected_key(rejected[attempts[k]]);
                let p = choose|p: int| 0 <= p < before.len() && before[p] == key;
                assert(keys[p] == key);
            } else {
                assert(keys[keys.len() - 1] == rejected_key(rejected[attempts[k]]));
            }
        }
    }
}

/// A list that stays or grows by one value at its end.
proof fn lemma_grown(before: Seq<int>, after: Seq<int>, value: int)
    requires
        after == before || after == before.push(value),
    ensures
        forall|k: int| #[trigger]
            after.contains(k) <==> before.contains(k) || (after.len() > before.len() && k == value),
{
    assert forall|k: int| #[trigger] after.contains(k) <==> before.contains(k) || (after.len()
        > before.len() && k == value) by {
        if before.contains(k) {
            let p = choose|p: int| 0 <= p < before.len() && before[p] == k;
            assert(after[p] == k);
        }
        if after.contains(k) {
            let p = choose|p: int| 0 <= p < after.len() && after[p] == k;
            if p < before.len() {
                assert(before[p] == k);
            }
        }
        if after.len() > before.len() {
            assert(after[before.len() as int] == value);
        }
    }
}

/// A retry accepts just the recovered packages; it reports each of them under
/// its DID and cursor; it drops the records of the recovered and of the
/// rejected ones; and it keeps those of packages that are still missing or
/// could not be fetched.
pub proof fn law_retries_are_settled_by_their_verdicts(
    outcome: BackfillOutcome,
    rejected: Seq<JsonValue>,
    attempts: Seq<int>,
    verdicts: Seq<RetryVerdict>,
    k: int,
)
    requires
        settles(outcome, rejected, attempts, verdicts, verdicts.len() as int),
        attempts.len() == verdicts.len(),
        0 <= k < verdicts.len(),
    ensures
        indices(outcome.accepted@).contains(k) <==> verdicts[k] is Recovered,
        verdicts[k] is Recovered ==> exists|m: int|
            0 <= m < outcome.recovered@.len() && (#[trigger] outcome.recovered@[m]).resource_did@
                == retried_did(rejected[attempts[k]]) && outcome.recovered@[m].cursor
                == rejected_cursor(rejected[attempts[k]]),
        !(verdicts[k] is Recovered) ==> exists|m: int|
            0 <= m < outcome.failed@.len() && (#[trigger] outcome.failed@[m]).resource_did@
                == retried_did(rejected[attempts[k]]) && outcome.failed@[m].cursor
                == rejected_cursor(rejected[attempts[k]]) && (match verdicts[k] {
                RetryVerdict::Rejected(reason) => outcome.failed@[m].reason@ == reason@
                    && outcome.failed@[m].error is None,
                RetryVerdict::FetchFailed(error) => outcome.failed@[m].reason@
                    == "cdn_fetch_failed"@ && optional_text(outcome.failed@[m].error) == Some(
                    error@,
                ),
                _ => outcome.failed@[m].reason@ == "resource_package_unavailable"@
                    && outcome.failed@[m].error is None,
            }),
        verdicts[k] matches RetryVerdict::Rejected(reason) ==> exists|m: int|
            0 <= m < outcome.replacements@.len()
                && (#[trigger] outcome.replacements@[m]).resource_did@ == retried_did(
                rejected[attempts[k]],
            ) && outcome.replacements@[m].cursor == rejected_cursor(rejected[attempts[k]])
                && outcome.replacements@[m].reason@ == reason@,
        verdicts[k] is Recovered || verdicts[k] is Rejected ==> texts(
            outcome.resolved_keys@,
        ).contains(rejected_key(rejected[attempts[k]])),
        (verdicts[k] is Missing || verdicts[k] is FetchFailed) && (forall|l: int|
            0 <= l < verdicts.len() && l != k ==> rejected_key(rejected[#[trigger] attempts[l]])
                != rejected_key(rejected[attempts[k]])) ==> !texts(
            outcome.resolved_keys@,
        ).contains(rejected_key(rejected[attempts[k]])),
{
    let count = verdicts.len() as int;
    let recovered = recovered_places(verdicts, count);
    let failed = failed_places(verdicts, count);
    let replaced = replaced_places(verdicts, count);
    lemma_places(rejected, attempts, verdicts, count);
    if verdicts[k] is Recovered {
        assert(recovered.contains(k));
        let m = choose|m: int| 0 <= m < recovered.len() && recovered[m] == k;
        assert(outcome.recovered@[m].cursor == rejected_cursor(rejected[attempts[recovered[m]]]));
    } else {
        assert(failed.contains(k));
        let m = choose|m: int| 0 <= m < failed.len() && failed[m] == k;
        assert(outcome.failed@[m].cursor == rejected_cursor(rejected[attempts[failed[m]]]));
    }
    if verdicts[k] is Rejected {
        assert(replaced.contains(k));
        let m = choose|m: int| 0 <= m < replaced.len() && replaced[m] == k;
        assert(outcome.replacements@[m].cursor == rejected_cursor(
            rejected[attempts[replaced[m]]],
        ));
    }
    if (verdicts[k] is Missing || verdicts[k] is FetchFailed) && (forall|l: int|
        0 <= l < verdicts.len() && l != k ==> rejected_key(rejected[#[trigger] attempts[l]])
            != rejected_key(rejected[attempts[k]])) {
        lemma_key_is_not_dropped(rejected, attempts, verdicts, count, k);
    }
}

/// The key of a record that is neither recovered nor rejected is not dropped
/// where no other attempt has it.
proof fn lemma_key_is_not_dropped(
    rejected: Seq<JsonValue>,
    attempts: Seq<int>,
    verdicts: Seq<RetryVerdict>,
    count: int,
    k: int,
)
    requires
        0 <= count <= verdicts.len(),
        attempts.len() == verdicts.len(),
        0 <= k < verdicts.len(),
        !(verdicts[k] is Recovered) && !(verdicts[k] is Rejected),
        forall|l: int|
            0 <= l < verdicts.len() && l != k ==> rejected_key(rejected[#[trigger] attempts[l]])
                != rejected_key(rejected[attempts[k]]),
    ensures
        !dropped_keys(rejected, attempts, verdicts, count).contains(
            rejected_key(rejected[attempts[k]]),
        ),
    decreases count,
{
    if count > 0 {
        lemma_key_is_not_dropped(rejected, attempts, verdicts, count - 1, k);
        let rest = dropped_keys(rejected, attempts, verdicts, count - 1);
        let all = dropped_keys(rejected, attempts, verdicts, count);
        let key = rejected_key(rejected[attempts[k]]);
        if all.contains(key) {
            let p = choose|p: int| 0 <= p < all.len() && all[p] == key;
            if p < rest.len() {
                assert(rest[p] == key);
            } else {
                assert(rejected_key(rejected[attempts[count - 1]]) == key);
            }
        }
    }
}

/// The reasons that later packages can resolve are mismatches of the version,
/// the tags and the hash with an outdated notice, and no others.
pub proof fn law_outdated_notices_can_be_resolved(reason: Seq<char>)
    ensures
        resolvable_reasons().contains(reason) <==> reason == "package_version_mismatch"@ || reason
            == "capability_tags_mismatch"@ || reason == "package_hash_mismatch"@,
{
    let reasons = resolvable_reasons();
    assert(reasons[0] == "package_version_mismatch"@);
    assert(reasons[1] == "capability_tags_mismatch"@);
    assert(reasons[2] == "package_hash_mismatch"@);
}

/// The DIDs that are shown to users are those of the active packages of types
/// that users can consume, within the node's domains.
pub proof fn law_visible_packages_are_active_and_consumable(
    packages: Seq<ResourcePackage>,
    allowed: Seq<Seq<char>>,
    did: Seq<char>,
)
    ensures
        visible_dids(packages, allowed).contains(did) <==> exists|k: int|
            0 <= k < packages.len() && {
                let package = #[trigger] packages[k];
                &&& package.resource_did@ == did
                &&& package.metadata.lifecycle_state@ == "active"@
                &&& package.resource_type is AgentService || package.resource_type is Skill
                    || package.resource_type is McpServer || package.resource_type is ToolApi
                &&& all_covered(allowed, texts(package.metadata.authorized_domains@))
            },
    decreases packages.len(),
{
    if packages.len() > 0 {
        let front = packages.drop_last();
        law_visible_packages_are_active_and_consumable(front, allowed, did);
        let rest = visible_dids(front, allowed);
        let all = visible_dids(packages, allowed);
        assert(packages[packages.len() - 1] == packages.last());
        if rest.contains(did) {
            let k = choose|k: int| 0 <= k < rest.len() && rest[k] == did;
            assert(all[k] == did);
            let m = choose|m: int|
                0 <= m < front.len() && {
                    let package = #[trigger] front[m];
                    &&& package.resource_did@ == did
                    &&& package.metadata.lifecycle_state@ == "active"@
                    &&& package.resource_type is AgentService || package.resource_type is Skill
                        || package.resource_type is McpServer || package.resource_type is ToolApi
                    &&& all_covered(allowed, texts(package.metadata.authorized_domains@))
                };
            assert(packages[m] == front[m]);
        }
        if all.len() > rest.len() {
            assert(all[all.len() - 1] == packages.last().resource_did@);
        }
        if all.contains(did) && !rest.contains(did) {
            let k = choose|k: int| 0 <= k < all.len() && all[k] == did;
            if k < rest.len() {
                assert(rest[k] == did);
            }
        }
        if exists|k: int|
            0 <= k < packages.len() && {
                let package = #[trigger] packages[k];
                &&& package.resource_did@ == did
                &&& package.metadata.lifecycle_state@ == "active"@
                &&& package.resource_type is AgentService || package.resource_type is Skill
                    || package.resource_type is McpServer || package.resource_type is ToolApi
                &&& all_covered(allowed, texts(package.metadata.authorized_domains@))
            } {
            let k = choose|k: int|
                0 <= k < packages.len() && {
                    let package = #[trigger] packages[k];
                    &&& package.resource_did@ == did
                    &&& package.metadata.lifecycle_state@ == "active"@
                    &&& package.resource_type is AgentService || package.resource_type is Skill
                        || package.resource_type is McpServer || package.resource_type is ToolApi
                    &&& all_covered(allowed, texts(package.metadata.authorized_domains@))
                };
            if k < front.len() {
                assert(front[k] == packages[k]);
            }
        }
    }
}

/// The records that have been resolved, in their order.
proof fn lemma_resolved_indices(
    rejected: Seq<JsonValue>,
    visible: Seq<Seq<char>>,
    requested: Seq<Seq<char>>,
    count: int,
)
    requires
        0 <= count <= rejected.len(),
    ensures
        forall|i: int| #[trigger]
            resolved_indices(rejected, visible, requested, count).contains(i) <==> 0 <= i < count
                && is_resolved(rejected[i], visible, requested),
        resolved_indices(rejected, visible, requested, count).len() <= count,
    decreases count,
{
    if count > 0 {
        lemma_resolved_indices(rejected, visible, requested, count - 1);
        let rest = resolved_indices(rejected, visible, requested, count - 1);
        let all = resolved_indices(rejected, visible, requested, count);
        lemma_grown(rest, all, count - 1);
        assert forall|i: int| #[trigger] all.contains(i) <==> 0 <= i < count && is_resolved(
            rejected[i],
            visible,
            requested,
        ) by {
            assert(rest.contains(i) <==> 0 <= i < count - 1 && is_resolved(
                rejected[i],
                visible,
                requested,
            ));
        }
    }
}

/// An audit finds the records whose reason can be resolved and whose DID is
/// shown to users, as far as it is asked for or nothing is; no others; a
/// thousand at most, or as many as are asked for, and all where there are no
/// more.
pub proof fn law_audits_find_the_resolved_records(
    rejected: Seq<JsonValue>,
    visible: Seq<Seq<char>>,
    requested: Seq<Seq<char>>,
    max_items: Option<usize>,
    index: int,
)
    requires
        0 <= index < rejected.len(),
    ensures
        ({
            let found = first_of(
                resolved_indices(rejected, visible, requested, rejected.len() as int),
                allowed_items(max_items, 1_000),
            );
            let did = rejected_did(rejected[index]);
            let reason = rejected_reason(rejected[index]);
            let resolved = (reason == "package_version_mismatch"@ || reason
                == "capability_tags_mismatch"@ || reason == "package_hash_mismatch"@) && did.len()
                > 0 && visible.contains(did) && (requested.len() == 0 || requested.contains(did));
            &&& found.contains(index) ==> resolved
            &&& resolved && max_items is None && rejected.len() <= 1_000 ==> found.contains(index)
            &&& max_items matches Some(count) ==> (resolved && rejected.len() <= count
                ==> found.contains(index))
            &&& max_items is None ==> found.len() <= 1_000
            &&& max_items matches Some(count) ==> found.len() <= count || found.len() == 1
        }),
{
    let all = resolved_indices(rejected, visible, requested, rejected.len() as int);
    let found = first_of(all, allowed_items(max_items, 1_000));
    lemma_resolved_indices(rejected, visible, requested, rejected.len() as int);
    law_outdated_notices_can_be_resolved(rejected_reason(rejected[index]));
    if found.contains(index) {
        let p = choose|p: int| 0 <= p < found.len() && found[p] == index;
        assert(all[p] == index);
        assert(all.contains(index));
    }
    if all.contains(index) {
        let p = choose|p: int| 0 <= p < all.len() && all[p] == index;
        if p < found.len() {
            assert(found[p] == index);
        }
    }
}

/// What an audit reports of a record is what the record says, under the key it
/// is kept by; deleting the reported keys takes the record off, and none whose
/// key was not reported.
pub proof fn law_audited_records_are_reported_and_deleted(
    entries: Seq<ResolvedRejection>,
    rejected: Seq<JsonValue>,
    i: int,
    other: int,
)
    requires
        0 <= i < entries.len(),
        forall|k: int| 0 <= k < entries.len() ==> describes_record(#[trigger] entries[k], rejected),
        entries[i].index < rejected.len(),
        0 <= other < rejected.len(),
    ensures
        text_member(rejected[entries[i].index as int], "resourceDid"@) matches Some(did)
            ==> entries[i].resource_did@ == did,
        text_member(rejected[entries[i].index as int], "reason"@) matches Some(reason)
            ==> entries[i].reason@ == reason,
        entries[i].reject_key@ == rejection_key(
            entries[i].resource_did@,
            rejected_cursor(rejected[entries[i].index as int]) as int,
        ),
        !kept_by_key(rejected, entry_keys(entries), rejected.len() as int).contains(
            entries[i].index as int,
        ),
        (forall|k: int|
            0 <= k < entries.len() ==> (#[trigger] entries[k]).reject_key@ != rejected_key(
                rejected[other],
            )) ==> kept_by_key(rejected, entry_keys(entries), rejected.len() as int).contains(
            other,
        ),
{
    let keys = entry_keys(entries);
    let index = entries[i].index as int;
    assert(describes_record(entries[i], rejected));
    assert(keys[i] == rejected_key(rejected[index]));
    law_other_keys_are_kept(rejected, keys, rejected.len() as int, index);
    law_other_keys_are_kept(rejected, keys, rejected.len() as int, other);
    if keys.contains(rejected_key(rejected[other])) {
        let k = choose|k: int| 0 <= k < keys.len() && keys[k] == rejected_key(rejected[other]);
        assert(entries[k].reject_key@ == rejected_key(rejected[other]));
    }
}

/// A record whose DID is not among those of accepted packages stays, and one
/// whose DID is goes, whatever its reason and cursor.
pub proof fn law_records_of_accepted_dids_go(
    rejected: Seq<JsonValue>,
    dids: Seq<Seq<char>>,
    index: int,
    did: Seq<char>,
)
    requires
        0 <= index < rejected.len(),
        text_member(rejected[index], "resourceDid"@) == Some(did),
    ensures
        kept_by_did(rejected, dids, rejected.len() as int).contains(index) <==> !dids.contains(did),
{
    law_accepted_packages_leave_no_record(rejected, dids, rejected.len() as int, index);
}

/// A rejection is kept under its DID and its cursor.
pub proof fn law_rejections_are_kept_by_did_and_cursor(rejections: Seq<Rejection>, i: int)
    requires
        0 <= i < rejections.len(),
    ensures
        rejection_keys(rejections).len() == rejections.len(),
        rejection_keys(rejections)[i] == rejections[i].resource_did@ + ":"@ + signed_decimal(
            rejections[i].cursor as int,
        ),
{
}

/// Lists of rejections that say the same are as long, are kept under the same
/// keys, and give the same reasons.
pub proof fn law_same_rejections_have_the_same_keys(
    left: Seq<Rejection>,
    right: Seq<Rejection>,
    i: int,
)
    requires
        same_rejections(left, right),
    ensures
        left.len() == right.len(),
        rejection_keys(left) == rejection_keys(right),
        0 <= i < left.len() ==> left[i].reason@ == right[i].reason@,
{
    assert forall|k: int| 0 <= k < left.len() implies rejection_keys(left)[k]
        == #[trigger] rejection_keys(right)[k] by {
        assert(left[k].resource_did@ == right[k].resource_did@);
    }
    assert(rejection_keys(left) =~= rejection_keys(right));
    if 0 <= i < left.len() {
        assert(left[i].resource_did@ == right[i].resource_did@);
    }
}

} // verus!
