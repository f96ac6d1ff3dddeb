//! The results of a query: where they come from, which are kept, how they are
//! merged, cut and explained, and how an evaluation counts them.

use vstd::prelude::*;

use crate::domains::{
    all_covered, authorized_domains_cover, law_covered_requests_leave_no_domain_out,
};
use crate::ordering::{
    indices, law_stable_order_sorts, lemma_stable_order_exists, lemma_stable_order_lists_all,
    sort_indices, sorted_before, stable_order, DescendingKey, Precedence,
};
use crate::package::{
    discovery_candidate_from_package, law_meeting_packages_have_what_is_asked, meets_constraints,
    package_binding_speaks,
    package_service_speaks, resource_matches_exact_did_query, searches_type,
    should_search_resource_type, some_binding_speaks, some_service_speaks,
    ResourceDiscoveryCandidate, ResourceDiscoveryQuery, ResourcePackage,
};
use crate::text::{
    ascii_lower, contains_text, law_lower_case_of_parts,
    law_occurring_text_stands_between_two_others, law_text_occurs_between_any_others,
    lemma_texts_push, occurs_in, same_text, text_contains, texts, to_ascii_lower,
};
use crate::words::{
    join_texts, joined, law_first_occurrences_are_kept, lemma_with_all_new_concat,
    lemma_with_all_new_contains, lemma_with_all_new_keeps, with_all_new, without_repeats,
};

verus! {

/// What became of a search of the semantic index.
#[derive(Debug)]
pub enum SemanticOutcome {
    /// It found that many packages.
    Found(usize),
    /// It could not be used for the query.
    Unavailable,
    /// It failed.
    Failed,
}

/// Where the results of a query come from.
#[derive(Clone, Copy, Debug, PartialEq, Eq, Structural)]
pub enum ResultSource {
    Semantic,
    Keyword,
}

/// The results come from the semantic index where it found any, or else from
/// the search by keywords.
pub fn result_source(outcome: &SemanticOutcome) -> (source: ResultSource)
    ensures
        source is Semantic <==> (*outcome matches SemanticOutcome::Found(count) && count > 0),
{
    match outcome {
        SemanticOutcome::Found(count) => if *count > 0 {
            ResultSource::Semantic
        } else {
            ResultSource::Keyword
        },
        _ => ResultSource::Keyword,
    }
}

/// An explanation comes from the semantic index where that is enabled and it
/// found any results, or else from the search by keywords.
pub fn explanation_source(explain_enabled: bool, outcome: &SemanticOutcome) -> (source:
    ResultSource)
    ensures
        source is Semantic <==> explain_enabled && (*outcome matches SemanticOutcome::Found(count)
            && count > 0),
{
    if explain_enabled {
        result_source(outcome)
    } else {
        ResultSource::Keyword
    }
}

/// The answer to a query for one resource: the indexed package, where it meets
/// what the query asks for and the node's domains cover its own.
pub fn exact_did_result(
    package: Option<ResourcePackage>,
    query: &ResourceDiscoveryQuery,
    allowed_domains: &Vec<String>,
) -> (candidate: Option<ResourceDiscoveryCandidate>)
    ensures
        match package {
            Some(found) => {
                &&& candidate is Some <==> meets_constraints(found, *query) && all_covered(
                    texts(allowed_domains@),
                    texts(found.metadata.authorized_domains@),
                )
                &&& candidate matches Some(answer) ==> {
                    &&& answer.resource_did@ == found.resource_did@
                    &&& answer.resource_type == found.resource_type
                    &&& answer.version == Some(found.package_version)
                    &&& answer.lifecycle_state == Some(found.metadata.lifecycle_state)
                    &&& answer.capability_tags == found.metadata.capability_tags
                    &&& answer.authorized_domains == found.metadata.authorized_domains
                    &&& answer.services == found.metadata.services
                    &&& answer.protocol_bindings == found.metadata.protocol_bindings
                    &&& query.resource_type matches Some(wanted) ==> found.resource_type == wanted
                    &&& query.version matches Some(wanted) ==> found.package_version@ == wanted@
                    &&& forall|i: int|
                        0 <= i < query.capability_tags@.len() ==> texts(
                            found.metadata.capability_tags@,
                        ).contains((#[trigger] query.capability_tags@[i])@)
                    &&& found.metadata.authorized_domains@.len() > 0
                }
            },
            None => candidate is None,
        },
{
    match package {
        Some(found) => {
            proof {
                if meets_constraints(found, *query) {
                    law_meeting_packages_have_what_is_asked(found, *query);
                }
                assert(texts(found.metadata.authorized_domains@).len()
                    == found.metadata.authorized_domains@.len());
            }
            if resource_matches_exact_did_query(&found, query) && authorized_domains_cover(
                allowed_domains,
                &found.metadata.authorized_domains,
            ) {
                Some(discovery_candidate_from_package(found))
            } else {
                None
            }
        },
        None => None,
    }
}

/// Whether a hit of the search by keywords is shown: the database chose it, or
/// it scores above zero, or the query has no text.
pub fn keyword_hit_is_shown(
    prefiltered: bool,
    positive: bool,
    query: &ResourceDiscoveryQuery,
) -> (shown: bool)
    ensures
        shown == (prefiltered || positive || query.query is None),
{
    prefiltered || positive || query.query.is_none()
}

/// The indices of the first `count` packages that the node's domains cover.
pub open spec fn covered_indices(
    packages: Seq<ResourcePackage>,
    allowed: Seq<Seq<char>>,
    count: int,
) -> Seq<int>
    decreases count,
{
    if count <= 0 {
        Seq::empty()
    } else {
        let rest = covered_indices(packages, allowed, count - 1);
        if all_covered(allowed, texts(packages[count - 1].metadata.authorized_domains@)) {
            rest.push(count - 1)
        } else {
            rest
        }
    }
}

/// The packages that the node's domains cover, as indices, in their order.
pub fn filter_packages_for_local_discovery(
    packages: &Vec<ResourcePackage>,
    allowed_domains: &Vec<String>,
) -> (kept: Vec<usize>)
    ensures
        indices(kept@) == covered_indices(
            packages@,
            texts(allowed_domains@),
            packages@.len() as int,
        ),
{
    let mut kept: Vec<usize> = Vec::new();
    let mut i: usize = 0;
    while i < packages.len()
        invariant
            i <= packages@.len(),
            indices(kept@) =~= covered_indices(packages@, texts(allowed_domains@), i as int),
        decreases packages@.len() - i,
    {
        if authorized_domains_cover(allowed_domains, &packages[i].metadata.authorized_domains) {
            let ghost before = kept@;
            kept.push(i);
            assert(indices(kept@) =~= indices(before).push(i as int));
        }
        i = i + 1;
    }
    kept
}

/// No package outside the node's domains is shown.
pub proof fn law_only_covered_packages_are_kept(
    packages: Seq<ResourcePackage>,
    allowed: Seq<Seq<char>>,
    index: int,
)
    requires
        0 <= index < packages.len(),
    ensures
        covered_indices(packages, allowed, packages.len() as int).contains(index) <==> all_covered(
            allowed,
            texts(packages[index].metadata.authorized_domains@),
        ),
{
    lemma_covered_indices(packages, allowed, packages.len() as int, index);
}

/// The first `count` packages: which of them are kept.
proof fn lemma_covered_indices(
    packages: Seq<ResourcePackage>,
    allowed: Seq<Seq<char>>,
    count: int,
    index: int,
)
    requires
        0 <= count <= packages.len(),
        0 <= index < packages.len(),
    ensures
        covered_indices(packages, allowed, count).contains(index) <==> index < count && all_covered(
            allowed,
            texts(packages[index].metadata.authorized_domains@),
        ),
    decreases count,
{
    if count > 0 {
        lemma_covered_indices(packages, allowed, count - 1, index);
        let rest = covered_indices(packages, allowed, count - 1);
        let all = covered_indices(packages, allowed, count);
        if rest.contains(index) {
            let k = choose|k: int| 0 <= k < rest.len() && rest[k] == index;
            assert(all[k] == index);
        }
        if all.contains(index) && index != count - 1 {
            let k = choose|k: int| 0 <= k < all.len() && all[k] == index;
            assert(rest[k] == index);
        }
        if all.len() > rest.len() {
            assert(all[all.len() - 1] == count - 1);
        }
    }
}

/// The indices of the first `count` packages that a query searches.
pub open spec fn searched_indices(
    packages: Seq<ResourcePackage>,
    query: ResourceDiscoveryQuery,
    count: int,
) -> Seq<int>
    decreases count,
{
    if count <= 0 {
        Seq::empty()
    } else {
        let rest = searched_indices(packages, query, count - 1);
        if searches_type(query, packages[count - 1].resource_type) {
            rest.push(count - 1)
        } else {
            rest
        }
    }
}

/// The packages that a query searches, as indices, in their order.
pub fn searched_packages(packages: &Vec<ResourcePackage>, query: &ResourceDiscoveryQuery) -> (kept:
    Vec<usize>)
    ensures
        indices(kept@) == searched_indices(packages@, *query, packages@.len() as int),
{
    let mut kept: Vec<usize> = Vec::new();
    let mut i: usize = 0;
    while i < packages.len()
        invariant
            i <= packages@.len(),
            indices(kept@) =~= searched_indices(packages@, *query, i as int),
        decreases packages@.len() - i,
    {
        if should_search_resource_type(&packages[i], query) {
            let ghost before = kept@;
            kept.push(i);
            assert(indices(kept@) =~= indices(before).push(i as int));
        }
        i = i + 1;
    }
    kept
}

/// The sort keys of scores.
pub open spec fn score_keys(scores: Seq<i64>) -> Seq<DescendingKey> {
    scores.map_values(|score: i64| DescendingKey { value: score })
}

/// The best `limit` of the results, as indices: higher scores first, equal
/// ones in the order they were in.
pub open spec fn best_first(scores: Seq<i64>, limit: int) -> Seq<int> {
    let order = stable_order(score_keys(scores));
    order.take(
        if limit < order.len() {
            limit
        } else {
            order.len() as int
        },
    )
}

/// The best `limit` of the results, as indices.
pub fn order_and_cut(scores: &Vec<i64>, limit: u32) -> (order: Vec<usize>)
    ensures
        indices(order@) == best_first(scores@, limit as int),
{
    let mut keys: Vec<DescendingKey> = Vec::new();
    let mut i: usize = 0;
    while i < scores.len()
        invariant
            i <= scores@.len(),
            keys@ =~= score_keys(scores@).take(i as int),
        decreases scores@.len() - i,
    {
        keys.push(DescendingKey { value: scores[i] });
        i = i + 1;
    }
    assert(keys@ =~= score_keys(scores@));
    let mut order = sort_indices(&keys);
    let ghost all = order@;
    if order.len() as u64 > limit as u64 {
        order.truncate(limit as usize);
    }
    assert(indices(order@) =~= best_first(scores@, limit as int));
    order
}

/// A query never gets more results than its limit, and every one where there
/// are no more than that.
pub proof fn law_results_keep_to_the_limit(scores: Seq<i64>, limit: int)
    requires
        0 <= limit,
    ensures
        best_first(scores, limit).len() == if limit < scores.len() {
            limit
        } else {
            scores.len() as int
        },
{
    lemma_stable_order_exists(score_keys(scores));
}

/// A result that is cut off scores no higher than any that is shown.
pub proof fn law_cut_results_score_no_higher(scores: Seq<i64>, limit: int, shown: int, cut: int)
    requires
        0 <= limit,
        0 <= cut < scores.len(),
        best_first(scores, limit).contains(shown),
        !best_first(scores, limit).contains(cut),
    ensures
        scores[cut] <= scores[shown],
{
    let keys = score_keys(scores);
    let order = stable_order(keys);
    lemma_stable_order_exists(keys);
    lemma_stable_order_lists_all(order, keys, cut);
    let best = best_first(scores, limit);
    let i = choose|i: int| 0 <= i < best.len() && best[i] == shown;
    let j = choose|j: int| 0 <= j < order.len() && order[j] == cut;
    assert(order[i] == shown);
    if j < best.len() {
        assert(best[j] == cut);
    }
    assert(sorted_before(keys, order[i], order[j]));
}

/// A package of the merged results.
#[derive(Clone, Copy, Debug, PartialEq, Eq, Structural)]
pub struct MergedCandidate {
    /// Whether the package is taken from the vector results, or else from the
    /// keyword results.
    pub from_vector: bool,
    /// Its index there.
    pub index: usize,
    /// The vector result whose score counts for it, where there is one.
    pub score_index: Option<usize>,
}

/// The DIDs of packages.
pub open spec fn dids_of(packages: Seq<ResourcePackage>) -> Seq<Seq<char>> {
    packages.map_values(|package: ResourcePackage| package.resource_did@)
}

/// Whether `at` is the last place of `value` in `values`, where it has one.
pub open spec fn is_last_place(values: Seq<Seq<char>>, value: Seq<char>, at: Option<usize>) -> bool {
    match at {
        Some(place) => {
            &&& place < values.len()
            &&& values[place as int] == value
            &&& forall|i: int| place < i < values.len() ==> #[trigger] values[i] != value
        },
        None => !values.contains(value),
    }
}

/// Whether `at` is the first place of `value` in `values`.
pub open spec fn is_first_place(values: Seq<Seq<char>>, value: Seq<char>, at: int) -> bool {
    &&& 0 <= at < values.len()
    &&& values[at] == value
    &&& forall|i: int| 0 <= i < at ==> #[trigger] values[i] != value
}

/// Whether a candidate stands for the DID: the first package of that DID, the
/// vector results before the keyword results, scored by the last vector
/// result of the DID.
pub open spec fn stands_for(
    candidate: MergedCandidate,
    vector_dids: Seq<Seq<char>>,
    keyword_dids: Seq<Seq<char>>,
    did: Seq<char>,
) -> bool {
    &&& is_last_place(vector_dids, did, candidate.score_index)
    &&& if vector_dids.contains(did) {
        candidate.from_vector && is_first_place(vector_dids, did, candidate.index as int)
    } else {
        !candidate.from_vector && is_first_place(keyword_dids, did, candidate.index as int)
    }
}

/// The last place of a DID among packages, where it has one.
pub fn last_place_of_did(packages: &Vec<ResourcePackage>, did: &str) -> (at: Option<usize>)
    ensures
        is_last_place(dids_of(packages@), did@, at),
{
    let mut end: usize = packages.len();
    while end > 0
        invariant
            end <= packages@.len(),
            forall|i: int| end <= i < packages@.len() ==> #[trigger] dids_of(packages@)[i] != did@,
        decreases end,
    {
        assert(dids_of(packages@)[end as int - 1] == packages@[end as int - 1].resource_did@);
        if same_text(&packages[end - 1].resource_did, did) {
            return Some(end - 1);
        }
        end = end - 1;
    }
    None
}

/// Adds the packages whose DIDs are new to the candidates.
fn merge_from(
    packages: &Vec<ResourcePackage>,
    from_vector: bool,
    vector: &Vec<ResourcePackage>,
    seen: &mut Vec<String>,
    candidates: &mut Vec<MergedCandidate>,
)
    requires
        old(candidates)@.len() == old(seen)@.len(),
        from_vector ==> dids_of(packages@) == dids_of(vector@) && old(seen)@.len() == 0,
        !from_vector ==> forall|did: Seq<char>| #[trigger]
            texts(old(seen)@).contains(did) <==> dids_of(vector@).contains(did),
    ensures
        texts(final(seen)@) == with_all_new(texts(old(seen)@), dids_of(packages@)),
        final(candidates)@.len() == final(seen)@.len(),
        forall|i: int|
            0 <= i < old(candidates)@.len() ==> #[trigger] final(candidates)@[i] == old(
                candidates,
            )@[i],
        forall|i: int|
            old(candidates)@.len() <= i < final(candidates)@.len() ==> stands_for(
                #[trigger] final(candidates)@[i],
                dids_of(vector@),
                dids_of(packages@),
                texts(final(seen)@)[i],
            ),
{
    broadcast use lemma_texts_push;

    let ghost first = candidates@.len() as int;
    let ghost seen_before = texts(seen@);
    let ghost candidates_before = candidates@;
    let ghost dids = dids_of(packages@);
    let mut i: usize = 0;
    assert(dids.take(0) =~= Seq::empty());
    while i < packages.len()
        invariant
            i <= packages@.len(),
            dids == dids_of(packages@),
            candidates@.len() == seen@.len(),
            first <= candidates@.len(),
            candidates_before.len() == first,
            seen_before.len() == first,
            from_vector ==> dids == dids_of(vector@) && first == 0,
            !from_vector ==> forall|did: Seq<char>| #[trigger]
                seen_before.contains(did) <==> dids_of(vector@).contains(did),
            texts(seen@) == with_all_new(seen_before, dids.take(i as int)),
            forall|did: Seq<char>| #[trigger]
                texts(seen@).contains(did) <==> seen_before.contains(did) || dids.take(
                    i as int,
                ).contains(did),
            forall|k: int| 0 <= k < first ==> #[trigger] candidates@[k] == candidates_before[k],
            forall|k: int|
                first <= k < candidates@.len() ==> stands_for(
                    #[trigger] candidates@[k],
                    dids_of(vector@),
                    dids,
                    texts(seen@)[k],
                ),
        decreases packages@.len() - i,
    {
        let did = &packages[i].resource_did;
        assert(dids[i as int] == did@);
        assert(dids.take(i as int + 1).drop_last() =~= dids.take(i as int));
        let ghost seen_now = texts(seen@);
        let ghost candidates_now = candidates@;
        if !contains_text(seen, did) {
            let score_index = last_place_of_did(vector, did);
            let candidate = MergedCandidate { from_vector, index: i, score_index };
            proof {
                assert forall|k: int| 0 <= k < i implies #[trigger] dids[k] != did@ by {
                    assert(dids.take(i as int)[k] == dids[k]);
                    if dids[k] == did@ {
                        assert(dids.take(i as int).contains(did@));
                    }
                }
                assert(is_first_place(dids, did@, i as int));
                if from_vector {
                    assert(dids_of(vector@)[i as int] == did@);
                    assert(dids_of(vector@).contains(did@));
                }
            }
            seen.push(did.clone());
            candidates.push(candidate);
            assert(texts(seen@) =~= seen_now.push(did@));
        }
        assert forall|other: Seq<char>| #[trigger] texts(seen@).contains(other)
            <==> seen_before.contains(other) || dids.take(i as int + 1).contains(other) by {
            let longer = dids.take(i as int + 1);
            let shorter = dids.take(i as int);
            assert(longer =~= shorter.push(did@));
            assert(longer[i as int] == did@);
            assert(seen_now.contains(other) <==> seen_before.contains(other) || shorter.contains(
                other,
            ));
            if shorter.contains(other) {
                let k = choose|k: int| 0 <= k < shorter.len() && shorter[k] == other;
                assert(longer[k] == other);
            }
            if longer.contains(other) && other != did@ {
                let k = choose|k: int| 0 <= k < longer.len() && longer[k] == other;
                assert(shorter[k] == other);
            }
            if seen_now.contains(other) {
                let k = choose|k: int| 0 <= k < seen_now.len() && seen_now[k] == other;
                assert(texts(seen@)[k] == other);
            }
            if !seen_now.contains(did@) {
                assert(texts(seen@)[seen_now.len() as int] == did@);
            }
            if texts(seen@).contains(other) && !seen_now.contains(other) {
                let k = choose|k: int| 0 <= k < texts(seen@).len() && texts(seen@)[k] == other;
                assert(k == seen_now.len());
            }
        }
        assert forall|k: int| first <= k < candidates@.len() implies stands_for(
            #[trigger] candidates@[k],
            dids_of(vector@),
            dids,
            texts(seen@)[k],
        ) by {
            if k < candidates_now.len() {
                assert(candidates@[k] == candidates_now[k]);
                assert(texts(seen@)[k] == seen_now[k]);
            }
        }
        i = i + 1;
    }
    assert(dids.take(i as int) =~= dids);
}

/// The packages of the vector results and of the keyword results, each DID
/// once: the vector results first.
pub fn merge_semantic_candidates(vector: &Vec<ResourcePackage>, keyword: &Vec<ResourcePackage>) -> (
    candidates: Vec<MergedCandidate>)
    ensures
        candidates@.len() == without_repeats(dids_of(vector@) + dids_of(keyword@)).len(),
        forall|i: int|
            0 <= i < candidates@.len() ==> stands_for(
                #[trigger] candidates@[i],
                dids_of(vector@),
                dids_of(keyword@),
                without_repeats(dids_of(vector@) + dids_of(keyword@))[i],
            ),
{
    let mut seen: Vec<String> = Vec::new();
    let mut candidates: Vec<MergedCandidate> = Vec::new();
    assert(texts(seen@) =~= Seq::empty());
    merge_from(vector, true, vector, &mut seen, &mut candidates);
    let ghost of_vector = texts(seen@);
    let ghost first = candidates@;
    proof {
        lemma_with_all_new_contains(Seq::empty(), dids_of(vector@));
        lemma_with_all_new_concat(Seq::empty(), dids_of(vector@), dids_of(keyword@));
        lemma_with_all_new_keeps(of_vector, dids_of(keyword@));
    }
    merge_from(keyword, false, vector, &mut seen, &mut candidates);
    assert forall|i: int| 0 <= i < candidates@.len() implies stands_for(
        #[trigger] candidates@[i],
        dids_of(vector@),
        dids_of(keyword@),
        without_repeats(dids_of(vector@) + dids_of(keyword@))[i],
    ) by {
        if i < first.len() {
            assert(candidates@[i] == first[i]);
            assert(stands_for(first[i], dids_of(vector@), dids_of(vector@), of_vector[i]));
            assert(of_vector.contains(of_vector[i]));
            assert(texts(seen@)[i] == of_vector[i]);
        }
    }
    candidates
}

/// What a hit matched a query by.
#[derive(Clone, Copy, Debug, PartialEq, Eq, Structural)]
pub struct MatchSignals {
    pub lexical: bool,
    pub tags: bool,
    pub context: bool,
    pub intent: bool,
    pub structured: bool,
}

/// `values` with `value` at its end, where `present` holds.
pub open spec fn with_when(
    values: Seq<Seq<char>>,
    present: bool,
    value: Seq<char>,
) -> Seq<Seq<char>> {
    if present {
        values.push(value)
    } else {
        values
    }
}

/// What a hit matched a query by, in words.
pub open spec fn match_reasons(signals: MatchSignals) -> Seq<Seq<char>> {
    with_when(
        with_when(
            with_when(
                with_when(
                    with_when(Seq::empty(), signals.lexical, "lexical terms"@),
                    signals.tags,
                    "capability tags or protocols"@,
                ),
                signals.context,
                "resource context"@,
            ),
            signals.intent,
            "examples or use cases"@,
        ),
        signals.structured,
        "explicit filters"@,
    )
}

/// Why a hit is shown, in words.
pub open spec fn match_reason(signals: MatchSignals) -> Seq<char> {
    if match_reasons(signals).len() == 0 {
        "No semantic match above zero; returned only by structured eligibility."@
    } else {
        "Matched by "@ + joined(match_reasons(signals), ", "@) + "."@
    }
}

/// Why a hit is shown, in words.
pub fn semantic_match_reason(signals: &MatchSignals) -> (reason: String)
    ensures
        reason@ == match_reason(*signals),
{
    broadcast use lemma_texts_push;

    let mut reasons: Vec<String> = Vec::new();
    assert(texts(reasons@) =~= Seq::empty());
    if signals.lexical {
        reasons.push("lexical terms".to_owned());
    }
    if signals.tags {
        reasons.push("capability tags or protocols".to_owned());
    }
    if signals.context {
        reasons.push("resource context".to_owned());
    }
    if signals.intent {
        reasons.push("examples or use cases".to_owned());
    }
    if signals.structured {
        reasons.push("explicit filters".to_owned());
    }
    assert(texts(reasons@) == match_reasons(*signals));
    assert(reasons@.len() == texts(reasons@).len());
    if reasons.len() == 0 {
        "No semantic match above zero; returned only by structured eligibility.".to_owned()
    } else {
        let mut reason = "Matched by ".to_owned();
        reason.append(&join_texts(&reasons, ", "));
        reason.append(".");
        reason
    }
}

/// Those of `wanted` that are among `present`.
pub open spec fn those_among(wanted: Seq<Seq<char>>, present: Seq<Seq<char>>) -> Seq<Seq<char>>
    decreases wanted.len(),
{
    if wanted.len() == 0 {
        Seq::empty()
    } else {
        let rest = those_among(wanted.drop_last(), present);
        if present.contains(wanted.last()) {
            rest.push(wanted.last())
        } else {
            rest
        }
    }
}

/// Those of `wanted` that are among `present`.
fn keep_those_among(wanted: &Vec<String>, present: &Vec<String>) -> (kept: Vec<String>)
    ensures
        texts(kept@) == those_among(texts(wanted@), texts(present@)),
{
    broadcast use lemma_texts_push;

    let mut kept: Vec<String> = Vec::new();
    let mut i: usize = 0;
    assert(texts(kept@) =~= those_among(texts(wanted@).take(0), texts(present@)));
    while i < wanted.len()
        invariant
            i <= wanted@.len(),
            texts(kept@) == those_among(texts(wanted@).take(i as int), texts(present@)),
        decreases wanted@.len() - i,
    {
        assert(texts(wanted@).take(i as int + 1).drop_last() =~= texts(wanted@).take(i as int));
        if contains_text(present, &wanted[i]) {
            kept.push(wanted[i].clone());
        }
        i = i + 1;
    }
    assert(texts(wanted@).take(i as int) =~= texts(wanted@));
    kept
}

/// How a package answers the parts of a query.
#[derive(Debug)]
pub struct HitExplanation {
    pub matched: bool,
    /// Whether the query's text occurs in the package, where it has one.
    pub text_matched: Option<bool>,
    /// The tags that the query and the package share.
    pub capability_tag_overlap: Vec<String>,
    pub resource_type_matched: Option<bool>,
    pub protocol_matched: Option<bool>,
}

/// Whether a text occurs in a package: in its DID, its name, its description
/// or one of its tags, whatever the case of ASCII letters.
pub open spec fn occurs_in_package(package: ResourcePackage, text: Seq<char>) -> bool {
    let needle = ascii_lower(text);
    ||| occurs_in(ascii_lower(package.resource_did@), needle)
    ||| occurs_in(ascii_lower(package.metadata.name@), needle)
    ||| occurs_in(ascii_lower(package.metadata.description@), needle)
    ||| some_occurrence(texts(package.metadata.capability_tags@), needle)
}

/// Whether `needle` occurs in one of `values`, taken in lower case.
pub open spec fn some_occurrence(values: Seq<Seq<char>>, needle: Seq<char>) -> bool {
    exists|i: int| 0 <= i < values.len() && occurs_in(ascii_lower(#[trigger] values[i]), needle)
}

/// Whether `needle` occurs in one of `values`, taken in lower case.
fn find_occurrence(values: &Vec<String>, needle: &str) -> (found: bool)
    ensures
        found == some_occurrence(texts(values@), needle@),
{
    let mut i: usize = 0;
    while i < values.len()
        invariant
            i <= values@.len(),
            forall|j: int|
                0 <= j < i ==> !occurs_in(ascii_lower(#[trigger] texts(values@)[j]), needle@),
        decreases values@.len() - i,
    {
        assert(texts(values@)[i as int] == values@[i as int]@);
        if text_contains(&to_ascii_lower(&values[i]), needle) {
            return true;
        }
        i = i + 1;
    }
    false
}

/// Whether a text occurs in a package.
fn package_contains_text(package: &ResourcePackage, text: &str) -> (found: bool)
    ensures
        found == occurs_in_package(*package, text@),
{
    let needle = to_ascii_lower(text);
    text_contains(&to_ascii_lower(&package.resource_did), &needle) || text_contains(
        &to_ascii_lower(&package.metadata.name),
        &needle,
    ) || text_contains(&to_ascii_lower(&package.metadata.description), &needle) || find_occurrence(
        &package.metadata.capability_tags,
        &needle,
    )
}

/// How a hit of the semantic index answers the parts of a query.
pub fn explain_semantic_hit(package: &ResourcePackage, query: &ResourceDiscoveryQuery) -> (
    explanation: HitExplanation)
    ensures
        explanation.matched,
        explanation.text_matched is None,
        texts(explanation.capability_tag_overlap@) == those_among(
            texts(query.capability_tags@),
            texts(package.metadata.capability_tags@),
        ),
        explanation.resource_type_matched == match query.resource_type {
            Some(resource_type) => Some(resource_type == package.resource_type),
            None => None,
        },
        explanation.protocol_matched == match query.protocol {
            Some(protocol) => Some(
                some_service_speaks(*package, protocol@) || some_binding_speaks(
                    *package,
                    protocol@,
                ),
            ),
            None => None,
        },
{
    HitExplanation {
        matched: true,
        text_matched: None,
        capability_tag_overlap: keep_those_among(
            &query.capability_tags,
            &package.metadata.capability_tags,
        ),
        resource_type_matched: match &query.resource_type {
            Some(resource_type) => Some(*resource_type == package.resource_type),
            None => None,
        },
        protocol_matched: match &query.protocol {
            Some(protocol) => Some(
                package_service_speaks(package, protocol) || package_binding_speaks(
                    package,
                    protocol,
                ),
            ),
            None => None,
        },
    }
}

/// How a hit of the search by keywords answers the parts of a query;
/// `positive` says whether its score is above zero.
pub fn explain_keyword_hit(
    package: &ResourcePackage,
    query: &ResourceDiscoveryQuery,
    positive: bool,
) -> (explanation: HitExplanation)
    ensures
        explanation.matched == (positive || query.query is None),
        explanation.text_matched == match query.query {
            Some(text) => Some(occurs_in_package(*package, text@)),
            None => None,
        },
        texts(explanation.capability_tag_overlap@) == those_among(
            texts(query.capability_tags@),
            texts(package.metadata.capability_tags@),
        ),
        explanation.resource_type_matched == match query.resource_type {
            Some(resource_type) => Some(resource_type == package.resource_type),
            None => None,
        },
        explanation.protocol_matched == match query.protocol {
            Some(protocol) => Some(some_service_speaks(*package, protocol@)),
            None => None,
        },
        query.query matches Some(text) ==> forall|before: Seq<char>, after: Seq<char>|
            {
                let whole = #[trigger] (before + text@ + after);
                ||| package.resource_did@ == whole
                ||| package.metadata.name@ == whole
                ||| package.metadata.description@ == whole
            } ==> explanation.text_matched == Some(true),
        query.query matches Some(text) ==> forall|before: Seq<char>, after: Seq<char>, k: int|
            0 <= k < package.metadata.capability_tags@.len()
                && (#[trigger] package.metadata.capability_tags@[k])@ == #[trigger] (before + text@
                + after) ==> explanation.text_matched == Some(true),
{
    proof {
        if let Some(text) = &query.query {
            assert forall|before: Seq<char>, after: Seq<char>|
                {
                    let whole = #[trigger] (before + text@ + after);
                    ||| package.resource_did@ == whole
                    ||| package.metadata.name@ == whole
                    ||| package.metadata.description@ == whole
                } implies occurs_in_package(*package, text@) by {
                law_text_is_found_in_the_package(*package, text@, before, after, -1);
            }
            assert forall|before: Seq<char>, after: Seq<char>, k: int|
                0 <= k < package.metadata.capability_tags@.len()
                    && (#[trigger] package.metadata.capability_tags@[k])@ == #[trigger] (before
                    + text@ + after) implies occurs_in_package(*package, text@) by {
                law_text_is_found_in_the_package(*package, text@, before, after, k);
            }
        }
    }
    HitExplanation {
        matched: positive || query.query.is_none(),
        text_matched: match &query.query {
            Some(text) => Some(package_contains_text(package, text)),
            None => None,
        },
        capability_tag_overlap: keep_those_among(
            &query.capability_tags,
            &package.metadata.capability_tags,
        ),
        resource_type_matched: match &query.resource_type {
            Some(resource_type) => Some(*resource_type == package.resource_type),
            None => None,
        },
        protocol_matched: match &query.protocol {
            Some(protocol) => Some(package_service_speaks(package, protocol)),
            None => None,
        },
    }
}

/// Whether `rank` is the place, counted from one, of the first returned DID
/// that was expected.
pub open spec fn is_first_rank(
    returned: Seq<Seq<char>>,
    expected: Seq<Seq<char>>,
    rank: Option<usize>,
) -> bool {
    match rank {
        Some(place) => {
            &&& 1 <= place <= returned.len()
            &&& expected.contains(returned[place - 1])
            &&& forall|i: int| 0 <= i < place - 1 ==> !expected.contains(#[trigger] returned[i])
        },
        None => forall|i: int|
            0 <= i < returned.len() ==> !expected.contains(#[trigger] returned[i]),
    }
}

/// The place, counted from one, of the first returned DID that was expected.
pub fn first_expected_rank(returned: &Vec<String>, expected: &Vec<String>) -> (rank: Option<usize>)
    ensures
        is_first_rank(texts(returned@), texts(expected@), rank),
{
    let mut i: usize = 0;
    while i < returned.len()
        invariant
            i <= returned@.len(),
            forall|j: int|
                0 <= j < i ==> !texts(expected@).contains(#[trigger] texts(returned@)[j]),
        decreases returned@.len() - i,
    {
        assert(texts(returned@)[i as int] == returned@[i as int]@);
        if contains_text(expected, &returned[i]) {
            return Some(i + 1);
        }
        i = i + 1;
    }
    None
}

/// How many of `ranks` are within the first `limit` places.
pub open spec fn within(ranks: Seq<Option<usize>>, limit: int) -> nat
    decreases ranks.len(),
{
    if ranks.len() == 0 {
        0
    } else {
        within(ranks.drop_last(), limit) + match ranks.last() {
            Some(rank) => if rank <= limit {
                1nat
            } else {
                0nat
            },
            None => 0nat,
        }
    }
}

/// How many of `ranks` are within the first `limit` places.
pub fn count_within(ranks: &Vec<Option<usize>>, limit: usize) -> (count: usize)
    ensures
        count == within(ranks@, limit as int),
{
    let mut count: usize = 0;
    let mut i: usize = 0;
    while i < ranks.len()
        invariant
            i <= ranks@.len(),
            count <= i,
            count == within(ranks@.take(i as int), limit as int),
        decreases ranks@.len() - i,
    {
        assert(ranks@.take(i as int + 1).drop_last() =~= ranks@.take(i as int));
        if let Some(rank) = ranks[i] {
            if rank <= limit {
                count = count + 1;
            }
        }
        i = i + 1;
    }
    assert(ranks@.take(i as int) =~= ranks@);
    count
}

/// A wider window finds no fewer: the recall at five places is never above
/// that at ten.
pub proof fn law_recall_grows_with_the_window(ranks: Seq<Option<usize>>, narrow: int, wide: int)
    requires
        narrow <= wide,
    ensures
        within(ranks, narrow) <= within(ranks, wide) <= ranks.len(),
    decreases ranks.len(),
{
    if ranks.len() > 0 {
        law_recall_grows_with_the_window(ranks.drop_last(), narrow, wide);
    }
}

/// A text occurs in a package wherever the DID, the name, the description or a
/// tag holds it, as it is or in another case of ASCII letters.
pub proof fn law_text_is_found_in_the_package(
    package: ResourcePackage,
    text: Seq<char>,
    before: Seq<char>,
    after: Seq<char>,
    tag: int,
)
    requires
        ({
            let whole = before + text + after;
            ||| ascii_lower(package.resource_did@) == ascii_lower(whole)
            ||| ascii_lower(package.metadata.name@) == ascii_lower(whole)
            ||| ascii_lower(package.metadata.description@) == ascii_lower(whole)
            ||| 0 <= tag < package.metadata.capability_tags@.len() && ascii_lower(
                package.metadata.capability_tags@[tag]@,
            ) == ascii_lower(whole)
        }),
    ensures
        occurs_in_package(package, text),
{
    law_lower_case_of_parts(before + text, after);
    law_lower_case_of_parts(before, text);
    law_text_occurs_between_any_others(
        ascii_lower(before),
        ascii_lower(text),
        ascii_lower(after),
    );
    let tags = texts(package.metadata.capability_tags@);
    if 0 <= tag < package.metadata.capability_tags@.len() {
        assert(tags[tag] == package.metadata.capability_tags@[tag]@);
    }
}

/// A text that occurs in a package stands in its DID, its name, its description
/// or one of its tags, between two others, but for the case of ASCII letters.
pub proof fn law_found_text_stands_in_the_package(package: ResourcePackage, text: Seq<char>)
    requires
        occurs_in_package(package, text),
    ensures
        exists|before: Seq<char>, after: Seq<char>|
            {
                let whole = #[trigger] (before + ascii_lower(text) + after);
                ||| ascii_lower(package.resource_did@) == whole
                ||| ascii_lower(package.metadata.name@) == whole
                ||| ascii_lower(package.metadata.description@) == whole
                ||| exists|k: int|
                    0 <= k < package.metadata.capability_tags@.len() && ascii_lower(
                        (#[trigger] package.metadata.capability_tags@[k])@,
                    ) == whole
            },
{
    let needle = ascii_lower(text);
    let tags = texts(package.metadata.capability_tags@);
    if occurs_in(ascii_lower(package.resource_did@), needle) {
        law_occurring_text_stands_between_two_others(ascii_lower(package.resource_did@), needle);
    } else if occurs_in(ascii_lower(package.metadata.name@), needle) {
        law_occurring_text_stands_between_two_others(ascii_lower(package.metadata.name@), needle);
    } else if occurs_in(ascii_lower(package.metadata.description@), needle) {
        law_occurring_text_stands_between_two_others(
            ascii_lower(package.metadata.description@),
            needle,
        );
    } else {
        let k = choose|k: int|
            0 <= k < tags.len() && occurs_in(ascii_lower(#[trigger] tags[k]), needle);
        law_occurring_text_stands_between_two_others(ascii_lower(tags[k]), needle);
        assert(package.metadata.capability_tags@[k]@ == tags[k]);
    }
}

/// The tags that a query shares with a package are just those that both name,
/// as often as the query names them; and they come part by part.
pub proof fn law_shared_tags_are_in_both(
    wanted: Seq<Seq<char>>,
    more: Seq<Seq<char>>,
    present: Seq<Seq<char>>,
    text: Seq<char>,
)
    ensures
        those_among(wanted + more, present) == those_among(wanted, present) + those_among(
            more,
            present,
        ),
        present.contains(text) ==> those_among(seq![text], present) == seq![text],
        !present.contains(text) ==> those_among(seq![text], present) == Seq::<Seq<char>>::empty(),
        those_among(wanted, present).contains(text) <==> wanted.contains(text) && present.contains(
            text,
        ),
    decreases more.len(),
{
    lemma_shared_tags(wanted, present, text);
    let one = seq![text];
    assert(one.drop_last() =~= Seq::empty());
    assert(one.last() == text);
    assert(those_among(one.drop_last(), present) =~= Seq::empty());
    assert(present.contains(text) ==> those_among(one, present) =~= one);
    if more.len() == 0 {
        assert(wanted + more =~= wanted);
        assert(those_among(wanted, present) + those_among(more, present) =~= those_among(
            wanted,
            present,
        ));
    } else {
        law_shared_tags_are_in_both(wanted, more.drop_last(), present, text);
        assert((wanted + more).drop_last() =~= wanted + more.drop_last());
        assert(those_among(wanted + more, present) =~= those_among(wanted, present) + those_among(
            more,
            present,
        ));
    }
}

/// Which of the wanted texts are among those that are present.
proof fn lemma_shared_tags(wanted: Seq<Seq<char>>, present: Seq<Seq<char>>, text: Seq<char>)
    ensures
        those_among(wanted, present).contains(text) <==> wanted.contains(text) && present.contains(
            text,
        ),
    decreases wanted.len(),
{
    if wanted.len() > 0 {
        let front = wanted.drop_last();
        lemma_shared_tags(front, present, text);
        let rest = those_among(front, present);
        let all = those_among(wanted, present);
        assert(wanted[wanted.len() - 1] == wanted.last());
        if rest.contains(text) {
            let k = choose|k: int| 0 <= k < rest.len() && rest[k] == text;
            assert(all[k] == text);
            let m = choose|m: int| 0 <= m < front.len() && front[m] == text;
            assert(wanted[m] == text);
        }
        if all.len() > rest.len() {
            assert(all[all.len() - 1] == wanted.last());
        }
        if all.contains(text) && !rest.contains(text) {
            let k = choose|k: int| 0 <= k < all.len() && all[k] == text;
            if k < rest.len() {
                assert(rest[k] == text);
            }
        }
        if wanted.contains(text) && text != wanted.last() {
            let k = choose|k: int| 0 <= k < wanted.len() && wanted[k] == text;
            assert(front[k] == text);
        }
    }
}

/// A reason names each way in which a hit matched, and no other; where it
/// matched in none, it says so.
pub proof fn law_reasons_name_the_matches(signals: MatchSignals)
    ensures
        match_reasons(signals).contains("lexical terms"@) <==> signals.lexical,
        match_reasons(signals).contains("capability tags or protocols"@) <==> signals.tags,
        match_reasons(signals).contains("resource context"@) <==> signals.context,
        match_reasons(signals).contains("examples or use cases"@) <==> signals.intent,
        match_reasons(signals).contains("explicit filters"@) <==> signals.structured,
        match_reasons(signals).no_duplicates(),
        !(signals.lexical || signals.tags || signals.context || signals.intent
            || signals.structured) ==> match_reason(signals)
            == "No semantic match above zero; returned only by structured eligibility."@,
        signals.lexical || signals.tags || signals.context || signals.intent || signals.structured
            ==> match_reason(signals) == "Matched by "@ + joined(match_reasons(signals), ", "@)
            + "."@,
{
    reveal_strlit("lexical terms");
    reveal_strlit("capability tags or protocols");
    reveal_strlit("resource context");
    reveal_strlit("examples or use cases");
    reveal_strlit("explicit filters");
    let reasons = match_reasons(signals);
    assert("lexical terms"@[0] == 'l');
    assert("capability tags or protocols"@[0] == 'c');
    assert("resource context"@[0] == 'r');
    assert("examples or use cases"@[1] == 'x');
    assert("examples or use cases"@[2] == 'a');
    assert("explicit filters"@[2] == 'p');
    assert("explicit filters"@[0] == 'e');
    assert("examples or use cases"@[0] == 'e');
    let a: int = if signals.lexical { 1 } else { 0 };
    let b: int = a + if signals.tags { 1int } else { 0 };
    let c: int = b + if signals.context { 1int } else { 0 };
    let d: int = c + if signals.intent { 1int } else { 0 };
    assert(reasons.len() == d + if signals.structured { 1int } else { 0 });
    if signals.lexical {
        assert(reasons[0] == "lexical terms"@);
    }
    if signals.tags {
        assert(reasons[a] == "capability tags or protocols"@);
    }
    if signals.context {
        assert(reasons[b] == "resource context"@);
    }
    if signals.intent {
        assert(reasons[c] == "examples or use cases"@);
    }
    if signals.structured {
        assert(reasons[d] == "explicit filters"@);
    }
}

/// A query goes through the packages of the types that it searches, and no
/// others.
pub proof fn law_searched_packages_are_of_searched_types(
    packages: Seq<ResourcePackage>,
    query: ResourceDiscoveryQuery,
    index: int,
)
    requires
        0 <= index < packages.len(),
    ensures
        query.resource_type is Some ==> searched_indices(
            packages,
            query,
            packages.len() as int,
        ).contains(index),
        query.resource_type is None ==> (searched_indices(
            packages,
            query,
            packages.len() as int,
        ).contains(index) <==> (packages[index].resource_type is AgentService
            || packages[index].resource_type is Skill || packages[index].resource_type is McpServer
            || packages[index].resource_type is ToolApi)),
{
    lemma_searched_indices_list(packages, query, packages.len() as int, index);
}

/// Which of the first `count` packages a query searches.
proof fn lemma_searched_indices_list(
    packages: Seq<ResourcePackage>,
    query: ResourceDiscoveryQuery,
    count: int,
    index: int,
)
    requires
        0 <= count <= packages.len(),
        0 <= index < packages.len(),
    ensures
        searched_indices(packages, query, count).contains(index) <==> index < count
            && searches_type(query, packages[index].resource_type),
    decreases count,
{
    if count > 0 {
        lemma_searched_indices_list(packages, query, count - 1, index);
        let rest = searched_indices(packages, query, count - 1);
        let all = searched_indices(packages, query, count);
        if rest.contains(index) {
            let k = choose|k: int| 0 <= k < rest.len() && rest[k] == index;
            assert(all[k] == index);
        }
        if all.contains(index) && index != count - 1 {
            let k = choose|k: int| 0 <= k < all.len() && all[k] == index;
            assert(rest[k] == index);
        }
        if all.len() > rest.len() {
            assert(all[all.len() - 1] == count - 1);
        }
    }
}

/// A package is kept just where each of its domains, of which it has one at
/// least, equals one of the node's or extends it by a dot.
pub proof fn law_kept_packages_lie_within_the_domains(
    packages: Seq<ResourcePackage>,
    allowed: Seq<Seq<char>>,
    index: int,
    i: int,
)
    requires
        covered_indices(packages, allowed, packages.len() as int).contains(index),
        0 <= index < packages.len(),
        !allowed.contains("*"@),
        0 <= i < packages[index].metadata.authorized_domains@.len(),
    ensures
        exists|k: int|
            0 <= k < allowed.len() && (packages[index].metadata.authorized_domains@[i]@
                == #[trigger] allowed[k] || exists|below: Seq<char>|
                packages[index].metadata.authorized_domains@[i]@ == #[trigger] (allowed[k] + "."@
                    + below)),
{
    let domains = texts(packages[index].metadata.authorized_domains@);
    law_only_covered_packages_are_kept(packages, allowed, index);
    law_covered_requests_leave_no_domain_out(allowed, domains, i);
    assert(domains[i] == packages[index].metadata.authorized_domains@[i]@);
}

/// The best results come first: no result scores higher than one before it,
/// equal ones stay in their order, and none is listed twice.
pub proof fn law_best_results_come_first(scores: Seq<i64>, limit: int, i: int, j: int)
    requires
        0 <= limit,
        0 <= i < j < best_first(scores, limit).len(),
    ensures
        ({
            let best = best_first(scores, limit);
            &&& 0 <= best[i] < scores.len()
            &&& 0 <= best[j] < scores.len()
            &&& scores[best[i]] >= scores[best[j]]
            &&& scores[best[i]] == scores[best[j]] ==> best[i] < best[j]
            &&& best[i] != best[j]
        }),
{
    let keys = score_keys(scores);
    let order = stable_order(keys);
    law_stable_order_sorts(keys);
    let best = best_first(scores, limit);
    assert(best[i] == order[i] && best[j] == order[j]);
    assert(order.contains(order[i]) && order.contains(order[j]));
    assert(!keys[order[j]].precedes(keys[order[i]]));
}

/// The merged results hold every DID of the two searches, each once.
pub proof fn law_merged_results_hold_each_did_once(
    candidates: Seq<MergedCandidate>,
    vector: Seq<ResourcePackage>,
    keyword: Seq<ResourcePackage>,
    did: Seq<char>,
)
    requires
        candidates.len() == without_repeats(dids_of(vector) + dids_of(keyword)).len(),
        forall|i: int|
            0 <= i < candidates.len() ==> stands_for(
                #[trigger] candidates[i],
                dids_of(vector),
                dids_of(keyword),
                without_repeats(dids_of(vector) + dids_of(keyword))[i],
            ),
        dids_of(vector).contains(did) || dids_of(keyword).contains(did),
    ensures
        exists|i: int|
            0 <= i < candidates.len() && {
                let found = #[trigger] candidates[i];
                &&& found.from_vector == dids_of(vector).contains(did)
                &&& found.from_vector ==> found.index < vector.len()
                    && vector[found.index as int].resource_did@ == did
                &&& !found.from_vector ==> found.index < keyword.len()
                    && keyword[found.index as int].resource_did@ == did
                &&& found.score_index is Some <==> dids_of(vector).contains(did)
                &&& found.score_index matches Some(at) ==> vector[at as int].resource_did@ == did
            },
        forall|i: int, j: int|
            0 <= i < j < candidates.len() ==> without_repeats(dids_of(vector) + dids_of(keyword))[i]
                != without_repeats(dids_of(vector) + dids_of(keyword))[j],
{
    let both = dids_of(vector) + dids_of(keyword);
    let all = without_repeats(both);
    law_first_occurrences_are_kept(both, Seq::empty());
    if dids_of(vector).contains(did) {
        let k = choose|k: int| 0 <= k < dids_of(vector).len() && dids_of(vector)[k] == did;
        assert(both[k] == did);
    } else {
        let k = choose|k: int| 0 <= k < dids_of(keyword).len() && dids_of(keyword)[k] == did;
        assert(both[dids_of(vector).len() + k] == did);
    }
    assert(all.contains(did));
    let i = choose|i: int| 0 <= i < all.len() && all[i] == did;
    assert(stands_for(candidates[i], dids_of(vector), dids_of(keyword), all[i]));
    if candidates[i].from_vector {
        assert(dids_of(vector)[candidates[i].index as int]
            == vector[candidates[i].index as int].resource_did@);
    } else {
        assert(dids_of(keyword)[candidates[i].index as int]
            == keyword[candidates[i].index as int].resource_did@);
    }
    if let Some(at) = candidates[i].score_index {
        assert(dids_of(vector)[at as int] == vector[at as int].resource_did@);
        assert(dids_of(vector).contains(did));
    }
}

/// The ranks within a window are counted one by one: those of two lists
/// together, one for a rank that is not above the limit, and none for any other.
pub proof fn law_ranks_are_counted_one_by_one(
    ranks: Seq<Option<usize>>,
    more: Seq<Option<usize>>,
    rank: usize,
    limit: int,
)
    ensures
        within(Seq::empty(), limit) == 0,
        within(ranks + more, limit) == within(ranks, limit) + within(more, limit),
        within(seq![Some(rank)], limit) == if rank <= limit {
            1nat
        } else {
            0nat
        },
        within(seq![None::<usize>], limit) == 0,
    decreases more.len(),
{
    reveal_with_fuel(within, 2);
    assert(seq![Some(rank)].drop_last() =~= Seq::empty());
    assert(seq![None::<usize>].drop_last() =~= Seq::empty());
    if more.len() == 0 {
        assert(ranks + more =~= ranks);
    } else {
        law_ranks_are_counted_one_by_one(ranks, more.drop_last(), rank, limit);
        assert((ranks + more).drop_last() =~= ranks + more.drop_last());
        assert((ranks + more).last() == more.last());
    }
}

/// The first place of a text is one where it stands and before which it does
/// not; the last, one after which it does not; and only a text that does not
/// stand anywhere has none.
pub proof fn law_first_and_last_places(
    values: Seq<Seq<char>>,
    value: Seq<char>,
    first: int,
    last: Option<usize>,
)
    ensures
        is_first_place(values, value, first) ==> 0 <= first < values.len() && values[first] == value
            && !values.take(first).contains(value),
        is_last_place(values, value, last) ==> (last is None <==> !values.contains(value)),
        is_last_place(values, value, last) ==> (last matches Some(place) ==> place < values.len()
            && values[place as int] == value && !values.skip(place as int + 1).contains(value)),
        is_first_place(values, value, first) && is_last_place(values, value, last) ==> (
        last matches Some(place) && first <= place),
{
    if is_first_place(values, value, first) {
        let front = values.take(first);
        if front.contains(value) {
            let k = choose|k: int| 0 <= k < front.len() && front[k] == value;
            assert(values[k] == value);
        }
    }
    if is_last_place(values, value, last) {
        if let Some(place) = last {
            assert(values.contains(values[place as int]));
            let rest = values.skip(place as int + 1);
            if rest.contains(value) {
                let k = choose|k: int| 0 <= k < rest.len() && rest[k] == value;
                assert(values[place + 1 + k] == value);
            }
        }
    }
    if is_first_place(values, value, first) && is_last_place(values, value, last) {
        assert(values.contains(values[first]));
    }
}

/// The rank of an answer is the place, counted from one, of an expected DID
/// before which no expected one was returned; there is none just where no
/// expected DID was returned; and further results do not change it.
pub proof fn law_rank_is_that_of_the_first_expected(
    returned: Seq<Seq<char>>,
    more: Seq<Seq<char>>,
    expected: Seq<Seq<char>>,
    rank: Option<usize>,
    i: int,
)
    requires
        is_first_rank(returned, expected, rank),
        0 <= i < returned.len(),
    ensures
        rank matches Some(place) ==> 1 <= place <= returned.len() && expected.contains(
            returned[place - 1],
        ) && (expected.contains(returned[i]) ==> place <= i + 1),
        rank is None ==> !expected.contains(returned[i]),
        rank is Some ==> is_first_rank(returned + more, expected, rank),
{
    if let Some(place) = rank {
        let all = returned + more;
        assert(all[place - 1] == returned[place - 1]);
        assert forall|k: int| 0 <= k < place - 1 implies !expected.contains(#[trigger] all[k]) by {
            assert(all[k] == returned[k]);
        }
    }
}

/// A merged result is the first package of its DID, of the vector results where
/// they have it and of the keyword results otherwise; it is scored by the last
/// vector result of the DID.
pub proof fn law_merged_results_take_the_first_package(
    candidate: MergedCandidate,
    vector: Seq<ResourcePackage>,
    keyword: Seq<ResourcePackage>,
    did: Seq<char>,
    i: int,
)
    requires
        stands_for(candidate, dids_of(vector), dids_of(keyword), did),
    ensures
        candidate.from_vector ==> candidate.index < vector.len()
            && vector[candidate.index as int].resource_did@ == did,
        !candidate.from_vector ==> candidate.index < keyword.len()
            && keyword[candidate.index as int].resource_did@ == did,
        candidate.from_vector && 0 <= i < candidate.index ==> vector[i].resource_did@ != did,
        !candidate.from_vector && 0 <= i < candidate.index ==> keyword[i].resource_did@ != did,
        !candidate.from_vector && 0 <= i < vector.len() ==> vector[i].resource_did@ != did,
        candidate.from_vector <==> candidate.score_index is Some,
        candidate.score_index matches Some(at) ==> at < vector.len()
            && vector[at as int].resource_did@ == did && (at < i < vector.len()
            ==> vector[i].resource_did@ != did),
{
    let from = dids_of(vector);
    let other = dids_of(keyword);
    assert(from.len() == vector.len());
    assert(other.len() == keyword.len());
    assert(forall|k: int|
        0 <= k < vector.len() ==> #[trigger] from[k] == vector[k].resource_did@);
    assert(forall|k: int|
        0 <= k < keyword.len() ==> #[trigger] other[k] == keyword[k].resource_did@);
    if candidate.from_vector {
        assert(from[candidate.index as int] == did);
        if 0 <= i < candidate.index {
            assert(from[i] != did);
        }
        assert(from.contains(did));
    } else {
        assert(other[candidate.index as int] == did);
        if 0 <= i < candidate.index {
            assert(other[i] != did);
        }
        if 0 <= i < vector.len() {
            assert(from.contains(from[i]));
        }
    }
    if let Some(at) = candidate.score_index {
        assert(from[at as int] == did);
        assert(from.contains(did));
        if at < i < vector.len() {
            assert(from[i] != did);
        }
    }
}

} // verus!
