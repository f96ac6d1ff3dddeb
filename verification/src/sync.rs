//! Synchronisation: which announced packages are fetched, which are accepted,
//! and how far the cursor moves.

use vstd::prelude::*;

use crate::domains::{
    all_covered, authorized_domains_cover, law_covered_requests_leave_no_domain_out,
};
use crate::json::{array_member, member, text_member, JsonValue};
use crate::ordering::{
    indices, is_stable_order, law_stable_order_sorts, sort_indices, stable_order, AscendingKey,
    Precedence,
};
use crate::results::is_last_place;
use crate::text::{contains_text, lemma_texts_push, optional_text, same_text, texts};
use crate::validation::{
    law_indexed_packages_are_active_and_scoped, notice_fault, package_fault,
    validate_notified_resource_package, validate_resource_package_for_index,
    DiscoveryNotificationItem, PublishedPackage,
};

verus! {

/// A request to synchronise: the notices, how many of them are looked at, and
/// how far they reach.
#[derive(Debug)]
pub struct DiscoverySyncRequest {
    pub max_publications: Option<usize>,
    pub cursor_hint: Option<i64>,
    pub items: Vec<DiscoveryNotificationItem>,
}

/// The notices that are fetched, as indices, and the cursors they lie between.
#[derive(Debug)]
pub struct SyncPlan {
    pub start_cursor: i64,
    pub target_cursor: i64,
    pub candidates: Vec<usize>,
}

/// The sort keys of notices.
pub open spec fn cursor_keys(items: Seq<DiscoveryNotificationItem>) -> Seq<AscendingKey> {
    items.map_values(|item: DiscoveryNotificationItem| AscendingKey {
        value: item.publication_cursor,
    })
}

/// The highest cursor of the notices, of which there is one at least.
pub open spec fn highest_cursor(items: Seq<DiscoveryNotificationItem>) -> i64
    decreases items.len(),
{
    if items.len() <= 1 {
        items[0].publication_cursor
    } else {
        let rest = highest_cursor(items.drop_last());
        if rest < items.last().publication_cursor {
            items.last().publication_cursor
        } else {
            rest
        }
    }
}

/// Where a synchronisation starts: the stored cursor, never below zero.
pub open spec fn start_of(stored_cursor: i64) -> i64 {
    if stored_cursor < 0 {
        0
    } else {
        stored_cursor
    }
}

/// How far a synchronisation reaches: the hint, or else the highest cursor.
pub open spec fn target_of(request: DiscoverySyncRequest) -> i64 {
    match request.cursor_hint {
        Some(hint) => hint,
        None => highest_cursor(request.items@),
    }
}

/// How many notices are looked at: ten thousand unless the request says
/// otherwise, and one at least.
pub open spec fn publications_of(request: DiscoverySyncRequest) -> int {
    match request.max_publications {
        Some(count) => if count < 1 {
            1
        } else {
            count as int
        },
        None => 10_000,
    }
}

/// Those of the notices at `order` that lie after `start` and not after
/// `target`.
pub open spec fn between_cursors(
    items: Seq<DiscoveryNotificationItem>,
    order: Seq<int>,
    start: i64,
    target: i64,
) -> Seq<int>
    decreases order.len(),
{
    if order.len() == 0 {
        Seq::empty()
    } else {
        let rest = between_cursors(items, order.drop_last(), start, target);
        if start < items[order.last()].publication_cursor <= target {
            rest.push(order.last())
        } else {
            rest
        }
    }
}

/// The first notices by their cursors, as many as are looked at.
pub open spec fn looked_at(request: DiscoverySyncRequest) -> Seq<int> {
    let order = stable_order(cursor_keys(request.items@));
    order.take(
        if publications_of(request) < order.len() {
            publications_of(request)
        } else {
            order.len() as int
        },
    )
}

/// The notices that are fetched: of those that are looked at, the ones between
/// the cursors, in the order of their cursors.
pub open spec fn fetched_notices(request: DiscoverySyncRequest, stored_cursor: i64) -> Seq<int> {
    between_cursors(
        request.items@,
        looked_at(request),
        start_of(stored_cursor),
        target_of(request),
    )
}

/// The highest cursor of the notices.
fn find_highest_cursor(items: &Vec<DiscoveryNotificationItem>) -> (cursor: i64)
    requires
        items@.len() > 0,
    ensures
        cursor == highest_cursor(items@),
{
    let mut cursor: i64 = items[0].publication_cursor;
    let mut i: usize = 1;
    while i < items.len()
        invariant
            1 <= i <= items@.len(),
            cursor == highest_cursor(items@.take(i as int)),
        decreases items@.len() - i,
    {
        assert(items@.take(i as int + 1).drop_last() =~= items@.take(i as int));
        if cursor < items[i].publication_cursor {
            cursor = items[i].publication_cursor;
        }
        i = i + 1;
    }
    assert(items@.take(i as int) =~= items@);
    cursor
}

/// Decides which notices are fetched. A request without notices is refused.
pub fn plan_sync(request: &DiscoverySyncRequest, stored_cursor: i64) -> (result: Result<
    SyncPlan,
    String,
>)
    ensures
        result is Ok <==> request.items@.len() > 0,
        result matches Err(error) ==> error@ == "empty_authorized_summary_items"@,
        result matches Ok(plan) ==> {
            &&& plan.start_cursor == start_of(stored_cursor)
            &&& plan.target_cursor == target_of(*request)
            &&& indices(plan.candidates@) == fetched_notices(*request, stored_cursor)
            &&& forall|k: int|
                0 <= k < plan.candidates@.len() ==> #[trigger] plan.candidates@[k]
                    < request.items@.len()
        },
{
    let items = &request.items;
    if items.len() == 0 {
        return Err("empty_authorized_summary_items".to_owned());
    }
    let start_cursor: i64 = if stored_cursor < 0 {
        0
    } else {
        stored_cursor
    };
    let target_cursor: i64 = match request.cursor_hint {
        Some(hint) => hint,
        None => find_highest_cursor(items),
    };
    let publications: usize = match request.max_publications {
        Some(count) => if count < 1 {
            1
        } else {
            count
        },
        None => 10_000,
    };
    let mut keys: Vec<AscendingKey> = Vec::new();
    let mut i: usize = 0;
    while i < items.len()
        invariant
            i <= items@.len(),
            keys@ =~= cursor_keys(items@).take(i as int),
        decreases items@.len() - i,
    {
        keys.push(AscendingKey { value: items[i].publication_cursor });
        i = i + 1;
    }
    assert(keys@ =~= cursor_keys(items@));
    let order = sort_indices(&keys);
    let ghost looked = looked_at(*request);
    let mut candidates: Vec<usize> = Vec::new();
    let mut k: usize = 0;
    assert(indices(candidates@) =~= between_cursors(
        items@,
        looked.take(0),
        start_cursor,
        target_cursor,
    ));
    while k < order.len() && k < publications
        invariant
            k <= order@.len(),
            k <= publications,
            publications == publications_of(*request),
            items@ == request.items@,
            keys@.len() == items@.len(),
            keys@ == cursor_keys(items@),
            is_stable_order(indices(order@), keys@),
            indices(order@) == stable_order(keys@),
            looked == looked_at(*request),
            indices(candidates@) == between_cursors(
                items@,
                looked.take(k as int),
                start_cursor,
                target_cursor,
            ),
            forall|j: int|
                0 <= j < candidates@.len() ==> #[trigger] candidates@[j] < items@.len(),
        decreases order@.len() - k,
    {
        assert(indices(order@)[k as int] == order@[k as int]);
        let at: usize = order[k];
        assert(looked.take(k as int + 1).drop_last() =~= looked.take(k as int));
        assert(looked.take(k as int + 1).last() == at);
        let cursor: i64 = items[at].publication_cursor;
        if start_cursor < cursor && cursor <= target_cursor {
            let ghost before = candidates@;
            candidates.push(at);
            assert(indices(candidates@) =~= indices(before).push(at as int));
        }
        k = k + 1;
    }
    assert(looked.take(k as int) =~= looked);
    Ok(SyncPlan { start_cursor, target_cursor, candidates })
}

/// The items of the answer to a request for several packages.
pub open spec fn batch_items(answer: JsonValue) -> Seq<JsonValue> {
    match array_member(answer, "items"@) {
        Some(items) => items,
        None => Seq::empty(),
    }
}

/// Whether an item of the answer holds the package of a DID.
pub open spec fn is_batch_entry(item: JsonValue) -> bool {
    text_member(item, "resourceDid"@) is Some && member(item, "package"@) is Some
}

/// Which of the first `count` items hold packages.
pub open spec fn batch_indices(items: Seq<JsonValue>, count: int) -> Seq<int>
    decreases count,
{
    if count <= 0 {
        Seq::empty()
    } else {
        let rest = batch_indices(items, count - 1);
        if is_batch_entry(items[count - 1]) {
            rest.push(count - 1)
        } else {
            rest
        }
    }
}

/// An item of the answer that holds the package of a DID.
#[derive(Debug)]
pub struct BatchEntry {
    pub resource_did: String,
    /// The place of the item in the answer.
    pub index: usize,
}

/// The DIDs of entries.
pub open spec fn batch_dids(entries: Seq<BatchEntry>) -> Seq<Seq<char>> {
    entries.map_values(|entry: BatchEntry| entry.resource_did@)
}

/// The items of the answer to a request for several packages that hold
/// packages; any other item is passed over.
pub fn batch_entries(answer: &JsonValue) -> (entries: Vec<BatchEntry>)
    ensures
        ({
            let items = batch_items(*answer);
            let places = batch_indices(items, items.len() as int);
            &&& entries@.len() == places.len()
            &&& forall|k: int|
                0 <= k < entries@.len() ==> (#[trigger] entries@[k]).index == places[k] && Some(
                    entries@[k].resource_did@,
                ) == text_member(items[places[k]], "resourceDid"@)
        }),
{
    let mut entries: Vec<BatchEntry> = Vec::new();
    if let Some(items) = answer.get_array("items") {
        let mut i: usize = 0;
        while i < items.len()
            invariant
                i <= items@.len(),
                entries@.len() == batch_indices(items@, i as int).len(),
                forall|k: int|
                    0 <= k < entries@.len() ==> (#[trigger] entries@[k]).index == batch_indices(
                        items@,
                        i as int,
                    )[k] && Some(entries@[k].resource_did@) == text_member(
                        items@[batch_indices(items@, i as int)[k]],
                        "resourceDid"@,
                    ),
            decreases items@.len() - i,
        {
            let item = &items[i];
            if let Some(did) = item.get_text("resourceDid") {
                if item.get("package").is_some() {
                    entries.push(BatchEntry { resource_did: did.clone(), index: i });
                }
            }
            i = i + 1;
        }
    }
    entries
}

/// The entry that holds the package of a DID: the last one, where there are
/// several.
pub fn find_batch_entry(entries: &Vec<BatchEntry>, did: &str) -> (at: Option<usize>)
    ensures
        is_last_place(batch_dids(entries@), did@, at),
{
    let mut end: usize = entries.len();
    while end > 0
        invariant
            end <= entries@.len(),
            forall|i: int| end <= i < entries@.len() ==> #[trigger] batch_dids(entries@)[i] != did@,
        decreases end,
    {
        assert(batch_dids(entries@)[end as int - 1] == entries@[end as int - 1].resource_did@);
        if same_text(&entries[end - 1].resource_did, did) {
            return Some(end - 1);
        }
        end = end - 1;
    }
    None
}

/// What the status of an answer says of the package that was asked for.
#[derive(Clone, Copy, Debug, PartialEq, Eq, Structural)]
pub enum FetchStep {
    /// There is no such package.
    Missing,
    /// The answer holds the package.
    Read,
    /// The package could not be fetched.
    Fail,
}

/// What the status of an answer says of the package that was asked for.
pub fn fetch_step(status: u16) -> (step: FetchStep)
    ensures
        step is Missing <==> status == 404,
        step is Read <==> 200 <= status < 300,
{
    if status == 404 {
        FetchStep::Missing
    } else if 200 <= status && status < 300 {
        FetchStep::Read
    } else {
        FetchStep::Fail
    }
}

/// Why an announced package is not accepted, given what was fetched for it.
pub open spec fn item_fault(
    item: DiscoveryNotificationItem,
    fetched: Option<PublishedPackage>,
    allowed: Seq<Seq<char>>,
) -> Option<Seq<char>> {
    match fetched {
        None => Some("resource_package_unavailable"@),
        Some(published) => match notice_fault(item, published.package) {
            Some(fault) => Some(fault),
            None => if !all_covered(
                allowed,
                texts(published.package.metadata.authorized_domains@),
            ) {
                Some("unauthorized_domains"@)
            } else {
                package_fault(published)
            },
        },
    }
}

/// Why an announced package is not accepted; nothing where it is.
pub fn judge_notice(
    item: &DiscoveryNotificationItem,
    fetched: &Option<PublishedPackage>,
    allowed_domains: &Vec<String>,
) -> (fault: Option<String>)
    ensures
        optional_text(fault) == item_fault(*item, *fetched, texts(allowed_domains@)),
{
    match fetched {
        None => Some("resource_package_unavailable".to_owned()),
        Some(published) => {
            if let Err(fault) = validate_notified_resource_package(item, &published.package) {
                return Some(fault);
            }
            if !authorized_domains_cover(
                allowed_domains,
                &published.package.metadata.authorized_domains,
            ) {
                return Some("unauthorized_domains".to_owned());
            }
            match validate_resource_package_for_index(published) {
                Ok(_) => None,
                Err(fault) => Some(fault),
            }
        },
    }
}

/// A package that was not accepted.
#[derive(Debug)]
pub struct Rejection {
    pub resource_did: String,
    pub cursor: i64,
    pub reason: String,
}

/// The result of a synchronisation.
#[derive(Debug)]
pub struct SyncOutcome {
    /// Which of the fetched packages are accepted.
    pub accepted: Vec<usize>,
    pub rejected: Vec<Rejection>,
    /// Where the cursor stands now.
    pub cursor: i64,
    pub fetched_count: usize,
    /// The lowest cursor of a rejected package.
    pub blocked_cursor: Option<i64>,
    /// How far the cursor is behind the target.
    pub cursor_lag: i64,
}

/// The texts of optional strings.
pub open spec fn optional_texts(values: Seq<Option<String>>) -> Seq<Option<Seq<char>>> {
    values.map_values(|value: Option<String>| optional_text(value))
}

/// Which of the first `count` fetched packages have no fault.
pub open spec fn faultless(faults: Seq<Option<Seq<char>>>, count: int) -> Seq<int>
    decreases count,
{
    if count <= 0 {
        Seq::empty()
    } else {
        let rest = faultless(faults, count - 1);
        if faults[count - 1] is None {
            rest.push(count - 1)
        } else {
            rest
        }
    }
}

/// The DIDs of the notices at some places among the candidates.
pub open spec fn dids_at(
    items: Seq<DiscoveryNotificationItem>,
    candidates: Seq<int>,
    places: Seq<int>,
) -> Seq<Seq<char>> {
    places.map_values(|place: int| items[candidates[place]].resource_did@)
}

/// Which of the first `count` fetched packages are rejected: they have a
/// fault, and no package of their DID is accepted.
pub open spec fn rejected_places(
    items: Seq<DiscoveryNotificationItem>,
    candidates: Seq<int>,
    faults: Seq<Option<Seq<char>>>,
    accepted_dids: Seq<Seq<char>>,
    count: int,
) -> Seq<int>
    decreases count,
{
    if count <= 0 {
        Seq::empty()
    } else {
        let rest = rejected_places(items, candidates, faults, accepted_dids, count - 1);
        if faults[count - 1] is Some && !accepted_dids.contains(
            items[candidates[count - 1]].resource_did@,
        ) {
            rest.push(count - 1)
        } else {
            rest
        }
    }
}

/// Where the cursor stands after the first `count` candidates.
pub open spec fn cursor_after(
    items: Seq<DiscoveryNotificationItem>,
    candidates: Seq<int>,
    start: i64,
    count: int,
) -> i64
    decreases count,
{
    if count <= 0 {
        start
    } else {
        let rest = cursor_after(items, candidates, start, count - 1);
        if rest < items[candidates[count - 1]].publication_cursor {
            items[candidates[count - 1]].publication_cursor
        } else {
            rest
        }
    }
}

/// The lowest cursor of the notices at `places`.
pub open spec fn lowest_cursor(
    items: Seq<DiscoveryNotificationItem>,
    candidates: Seq<int>,
    places: Seq<int>,
) -> Option<i64>
    decreases places.len(),
{
    if places.len() == 0 {
        None
    } else {
        let cursor = items[candidates[places.last()]].publication_cursor;
        match lowest_cursor(items, candidates, places.drop_last()) {
            Some(lowest) => if lowest <= cursor {
                Some(lowest)
            } else {
                Some(cursor)
            },
            None => Some(cursor),
        }
    }
}

/// Whether `rejection` is that of the notice at `place`.
pub open spec fn is_rejection_of(
    rejection: Rejection,
    items: Seq<DiscoveryNotificationItem>,
    candidates: Seq<int>,
    faults: Seq<Option<Seq<char>>>,
    place: int,
) -> bool {
    &&& rejection.resource_did@ == items[candidates[place]].resource_did@
    &&& rejection.cursor == items[candidates[place]].publication_cursor
    &&& Some(rejection.reason@) == faults[place]
}

/// Whether `outcome` is the result of a synchronisation with those faults.
pub open spec fn is_outcome(
    outcome: SyncOutcome,
    items: Seq<DiscoveryNotificationItem>,
    plan: SyncPlan,
    faults: Seq<Option<Seq<char>>>,
) -> bool {
    let candidates = indices(plan.candidates@);
    let count = candidates.len() as int;
    let accepted = faultless(faults, count);
    let accepted_dids = dids_at(items, candidates, accepted);
    let rejected = rejected_places(items, candidates, faults, accepted_dids, count);
    let cursor = cursor_after(items, candidates, plan.start_cursor, count);
    &&& indices(outcome.accepted@) == accepted
    &&& outcome.rejected@.len() == rejected.len()
    &&& forall|i: int|
        0 <= i < rejected.len() ==> is_rejection_of(
            #[trigger] outcome.rejected@[i],
            items,
            candidates,
            faults,
            rejected[i],
        )
    &&& outcome.cursor == cursor
    &&& outcome.fetched_count == count
    &&& outcome.blocked_cursor == lowest_cursor(items, candidates, rejected)
    &&& outcome.cursor_lag == if plan.target_cursor > cursor {
        plan.target_cursor - cursor
    } else {
        0
    }
}

/// Settles a synchronisation, given the fault of each fetched package: the
/// cursor moves past all of them, whatever their faults, and a fault is
/// forgotten where another notice of the same DID is accepted.
pub fn settle_sync(
    items: &Vec<DiscoveryNotificationItem>,
    plan: &SyncPlan,
    faults: &Vec<Option<String>>,
) -> (outcome: SyncOutcome)
    requires
        faults@.len() == plan.candidates@.len(),
        forall|k: int|
            0 <= k < plan.candidates@.len() ==> #[trigger] plan.candidates@[k] < items@.len(),
        plan.start_cursor >= 0,
    ensures
        is_outcome(outcome, items@, *plan, optional_texts(faults@)),
{
    let ghost candidates = indices(plan.candidates@);
    let ghost said = optional_texts(faults@);
    let count: usize = faults.len();
    let mut accepted: Vec<usize> = Vec::new();
    let mut accepted_dids: Vec<String> = Vec::new();
    let mut cursor: i64 = plan.start_cursor;
    let mut i: usize = 0;
    assert(texts(accepted_dids@) =~= dids_at(items@, candidates, faultless(said, 0)));
    while i < count
        invariant
            i <= count,
            count == faults@.len(),
            faults@.len() == plan.candidates@.len(),
            forall|k: int|
                0 <= k < plan.candidates@.len() ==> #[trigger] plan.candidates@[k] < items@.len(),
            candidates == indices(plan.candidates@),
            said == optional_texts(faults@),
            plan.start_cursor <= cursor,
            indices(accepted@) =~= faultless(said, i as int),
            texts(accepted_dids@) =~= dids_at(items@, candidates, faultless(said, i as int)),
            cursor == cursor_after(items@, candidates, plan.start_cursor, i as int),
        decreases count - i,
    {
        broadcast use lemma_texts_push;

        let at: usize = plan.candidates[i];
        assert(candidates[i as int] == at);
        assert(said[i as int] == optional_text(faults@[i as int]));
        if cursor < items[at].publication_cursor {
            cursor = items[at].publication_cursor;
        }
        if faults[i].is_none() {
            let ghost before = accepted@;
            let ghost dids_before = texts(accepted_dids@);
            accepted.push(i);
            accepted_dids.push(items[at].resource_did.clone());
            assert(indices(accepted@) =~= indices(before).push(i as int));
            assert(dids_at(items@, candidates, faultless(said, i as int + 1)) =~= dids_at(
                items@,
                candidates,
                faultless(said, i as int),
            ).push(items@[at as int].resource_did@));
        }
        i = i + 1;
    }
    let ghost dids = texts(accepted_dids@);
    let mut rejected: Vec<Rejection> = Vec::new();
    let mut blocked_cursor: Option<i64> = None;
    let mut k: usize = 0;
    while k < count
        invariant
            k <= count,
            count == faults@.len(),
            faults@.len() == plan.candidates@.len(),
            forall|j: int|
                0 <= j < plan.candidates@.len() ==> #[trigger] plan.candidates@[j] < items@.len(),
            candidates == indices(plan.candidates@),
            said == optional_texts(faults@),
            dids == texts(accepted_dids@),
            rejected@.len() == rejected_places(items@, candidates, said, dids, k as int).len(),
            forall|j: int|
                0 <= j < rejected@.len() ==> is_rejection_of(
                    #[trigger] rejected@[j],
                    items@,
                    candidates,
                    said,
                    rejected_places(items@, candidates, said, dids, k as int)[j],
                ),
            blocked_cursor == lowest_cursor(
                items@,
                candidates,
                rejected_places(items@, candidates, said, dids, k as int),
            ),
        decreases count - k,
    {
        let at: usize = plan.candidates[k];
        assert(candidates[k as int] == at);
        assert(said[k as int] == optional_text(faults@[k as int]));
        if let Some(reason) = &faults[k] {
            if !contains_text(&accepted_dids, &items[at].resource_did) {
                let item_cursor: i64 = items[at].publication_cursor;
                let ghost before = rejected_places(items@, candidates, said, dids, k as int);
                let ghost after = rejected_places(items@, candidates, said, dids, k as int + 1);
                assert(after.drop_last() =~= before);
                rejected.push(
                    Rejection {
                        resource_did: items[at].resource_did.clone(),
                        cursor: item_cursor,
                        reason: reason.clone(),
                    },
                );
                blocked_cursor = match blocked_cursor {
                    Some(lowest) => if lowest <= item_cursor {
                        Some(lowest)
                    } else {
                        Some(item_cursor)
                    },
                    None => Some(item_cursor),
                };
            }
        }
        k = k + 1;
    }
    let cursor_lag: i64 = if plan.target_cursor > cursor {
        plan.target_cursor - cursor
    } else {
        0
    };
    SyncOutcome {
        accepted,
        rejected,
        cursor,
        fetched_count: count,
        blocked_cursor,
        cursor_lag,
    }
}

/// The faults of the fetched packages.
pub open spec fn all_faults(
    items: Seq<DiscoveryNotificationItem>,
    candidates: Seq<int>,
    fetched: Seq<Option<PublishedPackage>>,
    allowed: Seq<Seq<char>>,
) -> Seq<Option<Seq<char>>> {
    Seq::new(
        candidates.len(),
        |k: int| item_fault(items[candidates[k]], fetched[k], allowed),
    )
}

/// Judges the fetched packages, one for each candidate of the plan, and
/// settles the synchronisation.
pub fn sync_resources_from_cdn_items(
    items: &Vec<DiscoveryNotificationItem>,
    plan: &SyncPlan,
    fetched: &Vec<Option<PublishedPackage>>,
    allowed_domains: &Vec<String>,
) -> (outcome: SyncOutcome)
    requires
        fetched@.len() == plan.candidates@.len(),
        forall|k: int|
            0 <= k < plan.candidates@.len() ==> #[trigger] plan.candidates@[k] < items@.len(),
        plan.start_cursor >= 0,
    ensures
        is_outcome(
            outcome,
            items@,
            *plan,
            all_faults(
                items@,
                indices(plan.candidates@),
                fetched@,
                texts(allowed_domains@),
            ),
        ),
{
    let ghost candidates = indices(plan.candidates@);
    let mut faults: Vec<Option<String>> = Vec::new();
    let mut i: usize = 0;
    while i < fetched.len()
        invariant
            i <= fetched@.len(),
            fetched@.len() == plan.candidates@.len(),
            candidates == indices(plan.candidates@),
            forall|k: int|
                0 <= k < plan.candidates@.len() ==> #[trigger] plan.candidates@[k] < items@.len(),
            optional_texts(faults@) =~= all_faults(
                items@,
                candidates,
                fetched@,
                texts(allowed_domains@),
            ).take(i as int),
        decreases fetched@.len() - i,
    {
        let at: usize = plan.candidates[i];
        assert(candidates[i as int] == at);
        let ghost before = faults@;
        faults.push(judge_notice(&items[at], &fetched[i], allowed_domains));
        assert(optional_texts(faults@) =~= optional_texts(before).push(
            optional_texts(faults@).last(),
        ));
        i = i + 1;
    }
    assert(optional_texts(faults@) =~= all_faults(
        items@,
        candidates,
        fetched@,
        texts(allowed_domains@),
    ));
    settle_sync(items, plan, &faults)
}

/// The cursor never goes back, and passes every fetched notice.
pub proof fn law_cursor_passes_every_notice(
    items: Seq<DiscoveryNotificationItem>,
    candidates: Seq<int>,
    start: i64,
    count: int,
    place: int,
)
    requires
        0 <= place < count <= candidates.len(),
    ensures
        cursor_after(items, candidates, start, count) >= start,
        cursor_after(items, candidates, start, count)
            >= items[candidates[place]].publication_cursor,
    decreases count,
{
    if count > 0 {
        lemma_cursor_at_least_start(items, candidates, start, count);
        if place < count - 1 {
            law_cursor_passes_every_notice(items, candidates, start, count - 1, place);
        }
    }
}

/// The cursor never goes back.
proof fn lemma_cursor_at_least_start(
    items: Seq<DiscoveryNotificationItem>,
    candidates: Seq<int>,
    start: i64,
    count: int,
)
    ensures
        cursor_after(items, candidates, start, count) >= start,
    decreases count,
{
    if count > 0 {
        lemma_cursor_at_least_start(items, candidates, start, count - 1);
    }
}

/// Which places are faultless.
proof fn lemma_faultless(faults: Seq<Option<Seq<char>>>, count: int, place: int)
    requires
        0 <= count <= faults.len(),
    ensures
        faultless(faults, count).contains(place) <==> 0 <= place < count && faults[place] is None,
    decreases count,
{
    if count > 0 {
        lemma_faultless(faults, count - 1, place);
        let rest = faultless(faults, count - 1);
        let all = faultless(faults, count);
        if rest.contains(place) {
            let k = choose|k: int| 0 <= k < rest.len() && rest[k] == place;
            assert(all[k] == place);
        }
        if all.len() > rest.len() {
            assert(all[all.len() - 1] == count - 1);
        }
        if all.contains(place) && place != count - 1 {
            let k = choose|k: int| 0 <= k < all.len() && all[k] == place;
            assert(rest[k] == place);
        }
    }
}

/// Which places are rejected.
proof fn lemma_rejected_places(
    items: Seq<DiscoveryNotificationItem>,
    candidates: Seq<int>,
    faults: Seq<Option<Seq<char>>>,
    accepted_dids: Seq<Seq<char>>,
    count: int,
    place: int,
)
    requires
        0 <= count <= faults.len(),
    ensures
        rejected_places(items, candidates, faults, accepted_dids, count).contains(place) <==> 0
            <= place < count && faults[place] is Some && !accepted_dids.contains(
            items[candidates[place]].resource_did@,
        ),
    decreases count,
{
    if count > 0 {
        lemma_rejected_places(items, candidates, faults, accepted_dids, count - 1, place);
        let rest = rejected_places(items, candidates, faults, accepted_dids, count - 1);
        let all = rejected_places(items, candidates, faults, accepted_dids, count);
        if rest.contains(place) {
            let k = choose|k: int| 0 <= k < rest.len() && rest[k] == place;
            assert(all[k] == place);
        }
        if all.len() > rest.len() {
            assert(all[all.len() - 1] == count - 1);
        }
        if all.contains(place) && place != count - 1 {
            let k = choose|k: int| 0 <= k < all.len() && all[k] == place;
            assert(rest[k] == place);
        }
    }
}

/// Every fetched notice is accepted or rejected, unless another notice of its
/// DID is accepted; and none is both accepted and rejected.
pub proof fn law_every_notice_is_settled_once(
    items: Seq<DiscoveryNotificationItem>,
    candidates: Seq<int>,
    faults: Seq<Option<Seq<char>>>,
    place: int,
)
    requires
        faults.len() == candidates.len(),
        0 <= place < candidates.len(),
    ensures
        ({
            let count = candidates.len() as int;
            let accepted = faultless(faults, count);
            let dids = dids_at(items, candidates, accepted);
            let rejected = rejected_places(items, candidates, faults, dids, count);
            &&& !(accepted.contains(place) && rejected.contains(place))
            &&& accepted.contains(place) || rejected.contains(place) || dids.contains(
                items[candidates[place]].resource_did@,
            )
            &&& rejected.contains(place) ==> !dids.contains(items[candidates[place]].resource_did@)
        }),
{
    let count = candidates.len() as int;
    let accepted = faultless(faults, count);
    let dids = dids_at(items, candidates, accepted);
    lemma_faultless(faults, count, place);
    lemma_rejected_places(items, candidates, faults, dids, count, place);
}

/// The highest cursor is one of the notices', and none is above it.
proof fn lemma_highest_cursor(items: Seq<DiscoveryNotificationItem>)
    requires
        items.len() > 0,
    ensures
        forall|i: int|
            0 <= i < items.len() ==> (#[trigger] items[i]).publication_cursor <= highest_cursor(
                items,
            ),
        exists|k: int|
            0 <= k < items.len() && (#[trigger] items[k]).publication_cursor == highest_cursor(
                items,
            ),
    decreases items.len(),
{
    if items.len() > 1 {
        let rest = items.drop_last();
        lemma_highest_cursor(rest);
        assert forall|i: int| 0 <= i < items.len() implies (#[trigger] items[i]).publication_cursor
            <= highest_cursor(items) by {
            if i < rest.len() {
                assert(rest[i].publication_cursor <= highest_cursor(rest));
            }
        }
        let k = choose|k: int|
            0 <= k < rest.len() && (#[trigger] rest[k]).publication_cursor == highest_cursor(rest);
        assert(items[k] == rest[k]);
        assert(items[items.len() - 1] == items.last());
    }
}

/// A synchronisation reaches as far as the hint; without a hint it reaches the
/// cursor of some notice, and no notice has a higher one. It starts at the
/// stored cursor, or at zero where that is negative.
pub proof fn law_target_is_the_hint_or_the_highest_cursor(
    request: DiscoverySyncRequest,
    stored_cursor: i64,
    i: int,
)
    requires
        0 <= i < request.items@.len(),
    ensures
        request.cursor_hint matches Some(hint) ==> target_of(request) == hint,
        request.cursor_hint is None ==> request.items@[i].publication_cursor <= target_of(request),
        request.cursor_hint is None ==> exists|k: int|
            0 <= k < request.items@.len() && (#[trigger] request.items@[k]).publication_cursor
                == target_of(request),
        stored_cursor >= 0 ==> start_of(stored_cursor) == stored_cursor,
        stored_cursor < 0 ==> start_of(stored_cursor) == 0,
{
    lemma_highest_cursor(request.items@);
}

/// Which of the looked-at notices lie between two cursors, in their order.
proof fn lemma_between_cursors(
    items: Seq<DiscoveryNotificationItem>,
    order: Seq<int>,
    start: i64,
    target: i64,
)
    ensures
        forall|i: int| #[trigger]
            between_cursors(items, order, start, target).contains(i) <==> order.contains(i) && start
                < items[i].publication_cursor <= target,
        between_cursors(items, order, start, target).len() <= order.len(),
        order.no_duplicates() ==> between_cursors(items, order, start, target).no_duplicates(),
        (forall|k: int, l: int|
            0 <= k < l < order.len() ==> items[#[trigger] order[k]].publication_cursor
                <= items[#[trigger] order[l]].publication_cursor) ==> (forall|k: int, l: int|
            0 <= k < l < between_cursors(items, order, start, target).len()
                ==> items[#[trigger] between_cursors(items, order, start, target)[k]].publication_cursor
                <= items[#[trigger] between_cursors(items, order, start, target)[l]].publication_cursor),
    decreases order.len(),
{
    if order.len() > 0 {
        let front = order.drop_last();
        lemma_between_cursors(items, front, start, target);
        let rest = between_cursors(items, front, start, target);
        let all = between_cursors(items, order, start, target);
        assert(order =~= front.push(order.last()));
        assert forall|i: int| #[trigger] all.contains(i) <==> order.contains(i) && start
            < items[i].publication_cursor <= target by {
            assert(rest.contains(i) <==> front.contains(i) && start < items[i].publication_cursor
                <= target);
            if rest.contains(i) {
                let k = choose|k: int| 0 <= k < rest.len() && rest[k] == i;
                assert(all[k] == i);
            }
            if all.contains(i) && i != order.last() {
                let k = choose|k: int| 0 <= k < all.len() && all[k] == i;
                assert(rest[k] == i);
            }
            if order.contains(i) && i != order.last() {
                let k = choose|k: int| 0 <= k < order.len() && order[k] == i;
                assert(front[k] == i);
            }
            if front.contains(i) {
                let k = choose|k: int| 0 <= k < front.len() && front[k] == i;
                assert(order[k] == i);
            }
            assert(order[order.len() - 1] == order.last());
            if all.len() > rest.len() {
                assert(all[all.len() - 1] == order.last());
            }
            if all.contains(i) && i == order.last() && all.len() == rest.len() {
                assert(rest.contains(i));
            }
        }
        if order.no_duplicates() {
            assert(front.no_duplicates());
            if all.len() > rest.len() {
                assert(!rest.contains(order.last())) by {
                    if rest.contains(order.last()) {
                        assert(front.contains(order.last()));
                        let k = choose|k: int| 0 <= k < front.len() && front[k] == order.last();
                        assert(order[k] == order[order.len() - 1]);
                    }
                }
                assert forall|k: int, l: int|
                    0 <= k < all.len() && 0 <= l < all.len() && k != l implies all[k] != all[l] by {
                    if k < rest.len() {
                        assert(rest.contains(rest[k]));
                    }
                    if l < rest.len() {
                        assert(rest.contains(rest[l]));
                    }
                }
            }
        }
        if forall|k: int, l: int|
            0 <= k < l < order.len() ==> items[#[trigger] order[k]].publication_cursor
                <= items[#[trigger] order[l]].publication_cursor {
            assert forall|k: int, l: int|
                0 <= k < l < front.len() implies items[#[trigger] front[k]].publication_cursor
                <= items[#[trigger] front[l]].publication_cursor by {
                assert(front[k] == order[k] && front[l] == order[l]);
            }
            assert forall|k: int, l: int|
                0 <= k < l < all.len() implies items[#[trigger] all[k]].publication_cursor
                <= items[#[trigger] all[l]].publication_cursor by {
                if l < rest.len() {
                    assert(rest[k] == all[k] && rest[l] == all[l]);
                } else {
                    assert(rest.contains(rest[k]));
                    assert(front.contains(rest[k]));
                    let m = choose|m: int| 0 <= m < front.len() && front[m] == rest[k];
                    assert(order[m] == rest[k]);
                    assert(order[order.len() - 1] == all[l]);
                }
            }
        }
    }
}

/// The notices that are looked at: each once, those of lower cursors first.
proof fn lemma_looked_at(request: DiscoverySyncRequest)
    ensures
        looked_at(request).len() == if publications_of(request) < request.items@.len() {
            publications_of(request)
        } else {
            request.items@.len() as int
        },
        looked_at(request).no_duplicates(),
        forall|k: int|
            0 <= k < looked_at(request).len() ==> 0 <= #[trigger] looked_at(request)[k]
                < request.items@.len(),
        forall|k: int, l: int|
            0 <= k < l < looked_at(request).len()
                ==> request.items@[#[trigger] looked_at(request)[k]].publication_cursor
                <= request.items@[#[trigger] looked_at(request)[l]].publication_cursor,
        forall|i: int, k: int|
            0 <= i < request.items@.len() && !looked_at(request).contains(i) && 0 <= k < looked_at(
                request,
            ).len() ==> request.items@[#[trigger] looked_at(request)[k]].publication_cursor
                <= (#[trigger] request.items@[i]).publication_cursor,
        request.items@.len() <= publications_of(request) ==> forall|i: int|
            0 <= i < request.items@.len() ==> #[trigger] looked_at(request).contains(i),
{
    let items = request.items@;
    let keys = cursor_keys(items);
    let order = stable_order(keys);
    let looked = looked_at(request);
    law_stable_order_sorts(keys);
    assert forall|k: int| 0 <= k < looked.len() implies 0 <= #[trigger] looked[k] < items.len() by {
        assert(looked[k] == order[k]);
        assert(order.contains(order[k]));
    }
    assert forall|k: int, l: int|
        0 <= k < looked.len() && 0 <= l < looked.len() && k != l implies looked[k] != looked[l] by {
        assert(looked[k] == order[k] && looked[l] == order[l]);
    }
    assert forall|k: int, l: int|
        0 <= k < l < looked.len() implies items[#[trigger] looked[k]].publication_cursor
        <= items[#[trigger] looked[l]].publication_cursor by {
        assert(looked[k] == order[k] && looked[l] == order[l]);
        assert(order.contains(order[k]) && order.contains(order[l]));
        assert(!keys[order[l]].precedes(keys[order[k]]));
    }
    assert forall|i: int, k: int|
        0 <= i < items.len() && !looked.contains(i) && 0 <= k
            < looked.len() implies items[#[trigger] looked[k]].publication_cursor
        <= (#[trigger] items[i]).publication_cursor by {
        assert(order.contains(i));
        let l = choose|l: int| 0 <= l < order.len() && order[l] == i;
        if l < looked.len() {
            assert(looked[l] == i);
        }
        assert(looked[k] == order[k]);
        assert(order.contains(order[k]));
        assert(!keys[order[l]].precedes(keys[order[k]]));
    }
    if items.len() <= publications_of(request) {
        assert forall|i: int| 0 <= i < items.len() implies #[trigger] looked.contains(i) by {
            assert(order.contains(i));
            let l = choose|l: int| 0 <= l < order.len() && order[l] == i;
            assert(looked[l] == i);
        }
    }
}

/// Every notice that is fetched lies after the stored cursor, which counts as
/// zero where it is negative, and not after the target; it is fetched once, and
/// those of lower cursors are fetched first. No more are fetched than are
/// asked for, or ten thousand.
pub proof fn law_fetched_notices_lie_between_the_cursors(
    request: DiscoverySyncRequest,
    stored_cursor: i64,
    k: int,
    l: int,
)
    requires
        0 <= k <= l < fetched_notices(request, stored_cursor).len(),
    ensures
        ({
            let fetched = fetched_notices(request, stored_cursor);
            let items = request.items@;
            &&& 0 <= fetched[k] < items.len()
            &&& 0 <= fetched[l] < items.len()
            &&& stored_cursor < items[fetched[k]].publication_cursor
            &&& 0 < items[fetched[k]].publication_cursor
            &&& stored_cursor < items[fetched[l]].publication_cursor <= target_of(request)
            &&& items[fetched[k]].publication_cursor <= items[fetched[l]].publication_cursor
            &&& k < l ==> fetched[k] != fetched[l]
            &&& request.max_publications matches Some(count) ==> fetched.len() <= count
                || fetched.len() == 1
            &&& request.max_publications is None ==> fetched.len() <= 10_000
        }),
{
    let items = request.items@;
    let fetched = fetched_notices(request, stored_cursor);
    let looked = looked_at(request);
    lemma_looked_at(request);
    lemma_between_cursors(items, looked, start_of(stored_cursor), target_of(request));
    assert(fetched.contains(fetched[k]));
    assert(fetched.contains(fetched[l]));
    assert(looked.contains(fetched[k]));
    assert(looked.contains(fetched[l]));
}

/// Where no more notices are announced than are looked at, every one of them
/// after the stored cursor and not after the target is fetched, and no other.
/// Without a hint the target leaves none out: every notice after the stored
/// cursor is fetched.
pub proof fn law_every_new_notice_is_fetched(
    request: DiscoverySyncRequest,
    stored_cursor: i64,
    i: int,
)
    requires
        0 <= i < request.items@.len(),
        request.max_publications matches Some(count) ==> request.items@.len() <= count,
        request.max_publications is None ==> request.items@.len() <= 10_000,
    ensures
        fetched_notices(request, stored_cursor).contains(i) <==> stored_cursor
            < request.items@[i].publication_cursor && 0 < request.items@[i].publication_cursor
            && request.items@[i].publication_cursor <= target_of(request),
        request.cursor_hint is None ==> (fetched_notices(request, stored_cursor).contains(i)
            <==> stored_cursor < request.items@[i].publication_cursor && 0
            < request.items@[i].publication_cursor),
{
    lemma_looked_at(request);
    lemma_between_cursors(
        request.items@,
        looked_at(request),
        start_of(stored_cursor),
        target_of(request),
    );
    lemma_highest_cursor(request.items@);
}

/// Where more notices are announced than are looked at, those of the lowest
/// cursors are: a notice between the cursors that is not fetched has no lower
/// cursor than any that is.
pub proof fn law_earliest_notices_are_fetched(
    request: DiscoverySyncRequest,
    stored_cursor: i64,
    fetched: int,
    left: int,
)
    requires
        0 <= left < request.items@.len(),
        stored_cursor < request.items@[left].publication_cursor,
        0 < request.items@[left].publication_cursor <= target_of(request),
        fetched_notices(request, stored_cursor).contains(fetched),
        !fetched_notices(request, stored_cursor).contains(left),
    ensures
        request.items@[fetched].publication_cursor <= request.items@[left].publication_cursor,
{
    let looked = looked_at(request);
    lemma_looked_at(request);
    lemma_between_cursors(
        request.items@,
        looked,
        start_of(stored_cursor),
        target_of(request),
    );
    assert(!looked.contains(left));
    let k = choose|k: int| 0 <= k < looked.len() && looked[k] == fetched;
    assert(looked[k] == fetched);
}

/// Which items of an answer hold packages.
proof fn lemma_batch_indices(items: Seq<JsonValue>, count: int)
    requires
        0 <= count <= items.len(),
    ensures
        forall|i: int| #[trigger]
            batch_indices(items, count).contains(i) <==> 0 <= i < count && is_batch_entry(items[i]),
        forall|k: int, l: int|
            0 <= k < l < batch_indices(items, count).len() ==> #[trigger] batch_indices(
                items,
                count,
            )[k] < #[trigger] batch_indices(items, count)[l],
    decreases count,
{
    if count > 0 {
        lemma_batch_indices(items, count - 1);
        let rest = batch_indices(items, count - 1);
        let all = batch_indices(items, count);
        assert forall|i: int| #[trigger] all.contains(i) <==> 0 <= i < count && is_batch_entry(
            items[i],
        ) by {
            assert(rest.contains(i) <==> 0 <= i < count - 1 && is_batch_entry(items[i]));
            if rest.contains(i) {
                let k = choose|k: int| 0 <= k < rest.len() && rest[k] == i;
                assert(all[k] == i);
            }
            if all.contains(i) && i != count - 1 {
                let k = choose|k: int| 0 <= k < all.len() && all[k] == i;
                assert(rest[k] == i);
            }
            if all.len() > rest.len() {
                assert(all[all.len() - 1] == count - 1);
            }
            if all.contains(i) && all.len() == rest.len() {
                assert(rest.contains(i));
            }
        }
        assert forall|k: int, l: int| 0 <= k < l < all.len() implies #[trigger] all[k]
            < #[trigger] all[l] by {
            assert(rest.contains(rest[k]));
            if l < rest.len() {
                assert(rest[k] < rest[l]);
            }
        }
    }
}

/// An item of the answer to a request for several packages is an entry just
/// where it names a DID and holds a package; the entries are in their order.
pub proof fn law_batch_entries_name_a_package(
    answer: JsonValue,
    items: Seq<JsonValue>,
    i: int,
)
    requires
        array_member(answer, "items"@) == Some(items),
        0 <= i < items.len(),
    ensures
        batch_indices(batch_items(answer), batch_items(answer).len() as int).contains(i)
            <==> text_member(items[i], "resourceDid"@) is Some && member(items[i], "package"@)
            is Some,
        forall|k: int, l: int|
            0 <= k < l < batch_indices(items, items.len() as int).len()
                ==> #[trigger] batch_indices(items, items.len() as int)[k]
                < #[trigger] batch_indices(items, items.len() as int)[l],
{
    lemma_batch_indices(items, items.len() as int);
}

/// A package is accepted just where it was fetched, has the DID that the notice
/// announces, lies within the allowed domains, and has no fault of its own
/// besides; the notice must fit it.
pub proof fn law_accepted_packages_are_announced_and_covered(
    item: DiscoveryNotificationItem,
    fetched: Option<PublishedPackage>,
    allowed: Seq<Seq<char>>,
    i: int,
)
    requires
        item_fault(item, fetched, allowed) is None,
    ensures
        fetched matches Some(published) && {
            let package = published.package;
            let domains = texts(package.metadata.authorized_domains@);
            &&& package.resource_did@ == item.resource_did@
            &&& domains == texts(item.authorized_domains@)
            &&& domains.len() > 0
            &&& package.metadata.lifecycle_state@ == "active"@
            &&& notice_fault(item, package) is None
            &&& package_fault(published) is None
            &&& !allowed.contains("*"@) && 0 <= i < domains.len() ==> exists|k: int|
                0 <= k < allowed.len() && (domains[i] == #[trigger] allowed[k] || exists|
                    below: Seq<char>,
                |
                    domains[i] == #[trigger] (allowed[k] + "."@ + below))
        },
{
    let published = fetched->0;
    let domains = texts(published.package.metadata.authorized_domains@);
    if !allowed.contains("*"@) && 0 <= i < domains.len() {
        law_covered_requests_leave_no_domain_out(allowed, domains, i);
    }
    law_indexed_packages_are_active_and_scoped(published);
    assert(domains.len() == published.package.metadata.authorized_domains@.len());
}

/// Why a package is not accepted: it could not be fetched; or the notice does
/// not fit it; or it lies outside the allowed domains; or it has a fault.
pub proof fn law_rejections_say_why(
    item: DiscoveryNotificationItem,
    published: PublishedPackage,
    allowed: Seq<Seq<char>>,
)
    ensures
        item_fault(item, None, allowed) == Some("resource_package_unavailable"@),
        notice_fault(item, published.package) is Some ==> item_fault(
            item,
            Some(published),
            allowed,
        ) == notice_fault(item, published.package),
        notice_fault(item, published.package) is None && !all_covered(
            allowed,
            texts(published.package.metadata.authorized_domains@),
        ) ==> item_fault(item, Some(published), allowed) == Some("unauthorized_domains"@),
        notice_fault(item, published.package) is None && all_covered(
            allowed,
            texts(published.package.metadata.authorized_domains@),
        ) ==> item_fault(item, Some(published), allowed) == package_fault(published),
{
}

/// Where the cursor stands after some candidates.
proof fn lemma_cursor_after(
    items: Seq<DiscoveryNotificationItem>,
    candidates: Seq<int>,
    start: i64,
    count: int,
)
    requires
        0 <= count <= candidates.len(),
    ensures
        cursor_after(items, candidates, start, count) >= start,
        forall|k: int|
            0 <= k < count ==> items[#[trigger] candidates[k]].publication_cursor <= cursor_after(
                items,
                candidates,
                start,
                count,
            ),
        cursor_after(items, candidates, start, count) == start || exists|k: int|
            0 <= k < count && items[#[trigger] candidates[k]].publication_cursor == cursor_after(
                items,
                candidates,
                start,
                count,
            ),
    decreases count,
{
    if count > 0 {
        lemma_cursor_after(items, candidates, start, count - 1);
        let rest = cursor_after(items, candidates, start, count - 1);
        if rest < items[candidates[count - 1]].publication_cursor {
            assert(items[candidates[count - 1]].publication_cursor == cursor_after(
                items,
                candidates,
                start,
                count,
            ));
        } else if rest != start {
            let k = choose|k: int|
                0 <= k < count - 1 && items[#[trigger] candidates[k]].publication_cursor == rest;
            assert(items[candidates[k]].publication_cursor == rest);
        }
    }
}

/// The lowest cursor of some notices.
proof fn lemma_lowest_cursor(
    items: Seq<DiscoveryNotificationItem>,
    candidates: Seq<int>,
    places: Seq<int>,
)
    ensures
        lowest_cursor(items, candidates, places) is None <==> places.len() == 0,
        lowest_cursor(items, candidates, places) matches Some(lowest) ==> (forall|k: int|
            0 <= k < places.len() ==> lowest
                <= items[candidates[#[trigger] places[k]]].publication_cursor) && (exists|k: int|
            0 <= k < places.len() && lowest
                == items[candidates[#[trigger] places[k]]].publication_cursor),
    decreases places.len(),
{
    if places.len() > 0 {
        let rest = places.drop_last();
        lemma_lowest_cursor(items, candidates, rest);
        let lowest = lowest_cursor(items, candidates, places)->0;
        assert forall|k: int| 0 <= k < places.len() implies lowest
            <= items[candidates[#[trigger] places[k]]].publication_cursor by {
            if k < rest.len() {
                assert(rest[k] == places[k]);
            }
        }
        if lowest == items[candidates[places.last()]].publication_cursor {
            assert(places[places.len() - 1] == places.last());
        } else {
            let k = choose|k: int|
                0 <= k < rest.len() && lowest
                    == items[candidates[#[trigger] rest[k]]].publication_cursor;
            assert(places[k] == rest[k]);
        }
    }
}

/// A synchronisation moves the cursor to the highest fetched notice and never
/// back, whatever is rejected; it lags by what is missing to the target; and
/// the lowest rejected notice blocks it, where there is one.
pub proof fn law_outcome_of_a_synchronisation(
    outcome: SyncOutcome,
    items: Seq<DiscoveryNotificationItem>,
    plan: SyncPlan,
    faults: Seq<Option<Seq<char>>>,
    k: int,
)
    requires
        is_outcome(outcome, items, plan, faults),
        faults.len() == plan.candidates@.len(),
        0 <= k < plan.candidates@.len(),
    ensures
        outcome.fetched_count == plan.candidates@.len(),
        outcome.cursor >= plan.start_cursor,
        outcome.cursor >= items[plan.candidates@[k] as int].publication_cursor,
        outcome.cursor == plan.start_cursor || exists|l: int|
            0 <= l < plan.candidates@.len()
                && items[#[trigger] plan.candidates@[l] as int].publication_cursor
                == outcome.cursor,
        outcome.cursor >= plan.target_cursor ==> outcome.cursor_lag == 0,
        outcome.cursor < plan.target_cursor ==> outcome.cursor + outcome.cursor_lag
            == plan.target_cursor,
        faults[k] is None <==> indices(outcome.accepted@).contains(k),
        outcome.rejected@.len() == 0 <==> outcome.blocked_cursor is None,
        outcome.blocked_cursor matches Some(lowest) ==> (forall|r: int|
            0 <= r < outcome.rejected@.len() ==> lowest
                <= (#[trigger] outcome.rejected@[r]).cursor) && (exists|r: int|
            0 <= r < outcome.rejected@.len() && lowest
                == (#[trigger] outcome.rejected@[r]).cursor),
{
    let candidates = indices(plan.candidates@);
    let count = candidates.len() as int;
    let accepted = faultless(faults, count);
    let dids = dids_at(items, candidates, accepted);
    let rejected = rejected_places(items, candidates, faults, dids, count);
    lemma_cursor_after(items, candidates, plan.start_cursor, count);
    lemma_lowest_cursor(items, candidates, rejected);
    lemma_faultless(faults, count, k);
    assert(candidates[k] == plan.candidates@[k]);
    if outcome.cursor != plan.start_cursor {
        let l = choose|l: int|
            0 <= l < count && items[#[trigger] candidates[l]].publication_cursor
                == outcome.cursor;
        assert(candidates[l] == plan.candidates@[l]);
    }
    if let Some(lowest) = outcome.blocked_cursor {
        assert forall|r: int| 0 <= r < outcome.rejected@.len() implies lowest
            <= (#[trigger] outcome.rejected@[r]).cursor by {
            assert(is_rejection_of(outcome.rejected@[r], items, candidates, faults, rejected[r]));
        }
        let r = choose|r: int|
            0 <= r < rejected.len() && lowest
                == items[candidates[#[trigger] rejected[r]]].publication_cursor;
        assert(is_rejection_of(outcome.rejected@[r], items, candidates, faults, rejected[r]));
    }
}

/// A fetched package with a fault is rejected with that fault, under the DID
/// and the cursor of its notice, unless a package of the same DID is accepted;
/// and every rejection is one of those.
pub proof fn law_rejections_are_the_faulty_notices(
    outcome: SyncOutcome,
    items: Seq<DiscoveryNotificationItem>,
    plan: SyncPlan,
    faults: Seq<Option<Seq<char>>>,
    k: int,
    r: int,
)
    requires
        is_outcome(outcome, items, plan, faults),
        faults.len() == plan.candidates@.len(),
        0 <= k < plan.candidates@.len(),
    ensures
        faults[k] is Some && (forall|l: int|
            0 <= l < faults.len() && faults[l] is None
                ==> items[#[trigger] plan.candidates@[l] as int].resource_did@
                != items[plan.candidates@[k] as int].resource_did@) ==> exists|m: int|
            0 <= m < outcome.rejected@.len() && (#[trigger] outcome.rejected@[m]).resource_did@
                == items[plan.candidates@[k] as int].resource_did@ && outcome.rejected@[m].cursor
                == items[plan.candidates@[k] as int].publication_cursor && Some(
                outcome.rejected@[m].reason@,
            ) == faults[k],
        0 <= r < outcome.rejected@.len() ==> exists|l: int|
            0 <= l < faults.len() && faults[l] == Some(outcome.rejected@[r].reason@)
                && items[#[trigger] plan.candidates@[l] as int].resource_did@
                == outcome.rejected@[r].resource_did@
                && items[plan.candidates@[l] as int].publication_cursor
                == outcome.rejected@[r].cursor,
{
    let candidates = indices(plan.candidates@);
    let count = candidates.len() as int;
    let accepted = faultless(faults, count);
    let dids = dids_at(items, candidates, accepted);
    let rejected = rejected_places(items, candidates, faults, dids, count);
    assert(candidates[k] == plan.candidates@[k]);
    lemma_rejected_places(items, candidates, faults, dids, count, k);
    if faults[k] is Some && (forall|l: int|
        0 <= l < faults.len() && faults[l] is None
            ==> items[#[trigger] plan.candidates@[l] as int].resource_did@
            != items[plan.candidates@[k] as int].resource_did@) {
        assert(!dids.contains(items[candidates[k]].resource_did@)) by {
            if dids.contains(items[candidates[k]].resource_did@) {
                let p = choose|p: int|
                    0 <= p < dids.len() && dids[p] == items[candidates[k]].resource_did@;
                lemma_faultless(faults, count, accepted[p]);
                assert(accepted.contains(accepted[p]));
                assert(candidates[accepted[p]] == plan.candidates@[accepted[p]]);
            }
        }
        let m = choose|m: int| 0 <= m < rejected.len() && rejected[m] == k;
        assert(is_rejection_of(outcome.rejected@[m], items, candidates, faults, rejected[m]));
    }
    if 0 <= r < outcome.rejected@.len() {
        assert(is_rejection_of(outcome.rejected@[r], items, candidates, faults, rejected[r]));
        lemma_rejected_places(items, candidates, faults, dids, count, rejected[r]);
        assert(rejected.contains(rejected[r]));
        assert(candidates[rejected[r]] == plan.candidates@[rejected[r]]);
    }
}

} // verus!
