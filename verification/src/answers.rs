//! The answers to a query: the scored packages that are shown, best first.

use vstd::prelude::*;

use crate::domains::{
    all_covered, authorized_domains_cover, law_covered_requests_leave_no_domain_out,
};
use crate::ordering::{
    indices, law_stable_order_sorts, lemma_stable_order_exists, picked, stable_order,
};
use crate::package::{
    law_meeting_packages_have_what_is_asked, meets_constraints,
    resource_matches_explicit_constraints, searches_type, some_binding_speaks, some_service_speaks,
    ResourceDiscoveryQuery, ResourcePackage,
};
use crate::ranking::{
    law_better_packages_are_ranked_first, law_ranked_packages_have_what_is_asked,
    law_ranking_lists_the_hits, lemma_ranked_in_range, rank_resource_packages_semantically, ranked,
    HitScore,
};
use crate::results::{
    best_first, covered_indices, filter_packages_for_local_discovery, keyword_hit_is_shown,
    law_best_results_come_first, law_cut_results_score_no_higher,
    law_only_covered_packages_are_kept, law_results_keep_to_the_limit, order_and_cut, score_keys,
    searched_indices,
};
use crate::text::texts;

verus! {

/// The scores of the packages at `kept`.
pub open spec fn scores_at(scores: Seq<i64>, kept: Seq<int>) -> Seq<i64> {
    kept.map_values(|index: int| scores[index])
}

/// The best `limit` of the packages at `kept`: higher scores first, equal ones
/// in their order.
pub open spec fn best_of(kept: Seq<int>, scores: Seq<i64>, limit: int) -> Seq<int> {
    picked(kept, best_first(scores_at(scores, kept), limit))
}

/// The best `limit` of the packages at `kept`.
fn pick_best(kept: &Vec<usize>, scores: &Vec<i64>, limit: u32) -> (best: Vec<usize>)
    requires
        forall|k: int| 0 <= k < kept@.len() ==> #[trigger] kept@[k] < scores@.len(),
    ensures
        indices(best@) == best_of(indices(kept@), scores@, limit as int),
{
    let mut kept_scores: Vec<i64> = Vec::new();
    let mut i: usize = 0;
    while i < kept.len()
        invariant
            i <= kept@.len(),
            forall|k: int| 0 <= k < kept@.len() ==> #[trigger] kept@[k] < scores@.len(),
            kept_scores@ =~= scores_at(scores@, indices(kept@)).take(i as int),
        decreases kept@.len() - i,
    {
        kept_scores.push(scores[kept[i]]);
        i = i + 1;
    }
    assert(kept_scores@ =~= scores_at(scores@, indices(kept@)));
    let order = order_and_cut(&kept_scores, limit);
    proof {
        let all = stable_order(score_keys(kept_scores@));
        lemma_stable_order_exists(score_keys(kept_scores@));
        assert(all.len() == kept@.len());
        assert(indices(order@) == best_first(kept_scores@, limit as int));
        assert(indices(order@).len() == order@.len());
        assert forall|p: int| 0 <= p < order@.len() implies 0 <= #[trigger] indices(order@)[p]
            < kept@.len() by {
            assert(indices(order@)[p] == all[p]);
        }
    }
    let mut best: Vec<usize> = Vec::new();
    let mut k: usize = 0;
    while k < order.len()
        invariant
            k <= order@.len(),
            forall|p: int| 0 <= p < order@.len() ==> indices(order@)[p] == #[trigger] order@[p],
            forall|p: int|
                0 <= p < order@.len() ==> 0 <= #[trigger] indices(order@)[p] < kept@.len(),
            indices(best@) =~= picked(indices(kept@), indices(order@)).take(k as int),
        decreases order@.len() - k,
    {
        assert(indices(order@)[k as int] == order@[k as int]);
        let ghost before = best@;
        best.push(kept[order[k]]);
        assert(indices(best@) =~= indices(before).push(kept@[order@[k as int] as int] as int));
        assert(picked(indices(kept@), indices(order@)).take(k as int + 1) =~= picked(
            indices(kept@),
            indices(order@),
        ).take(k as int).push(kept@[order@[k as int] as int] as int));
        k = k + 1;
    }
    assert(indices(best@) =~= picked(indices(kept@), indices(order@)));
    best
}

/// The best of some packages are among them, and no more than the limit.
proof fn lemma_best_of(kept: Seq<int>, scores: Seq<i64>, limit: int)
    requires
        0 <= limit,
    ensures
        best_of(kept, scores, limit).len() == if limit < kept.len() {
            limit
        } else {
            kept.len() as int
        },
        forall|k: int|
            0 <= k < best_of(kept, scores, limit).len() ==> kept.contains(
                #[trigger] best_of(kept, scores, limit)[k],
            ),
{
    let kept_scores = scores_at(scores, kept);
    lemma_stable_order_exists(score_keys(kept_scores));
    law_results_keep_to_the_limit(kept_scores, limit);
    let best = best_first(kept_scores, limit);
    assert forall|k: int| 0 <= k < best_of(kept, scores, limit).len() implies kept.contains(
        #[trigger] best_of(kept, scores, limit)[k],
    ) by {
        assert(best[k] == stable_order(score_keys(kept_scores))[k]);
        assert(best_of(kept, scores, limit)[k] == kept[best[k]]);
    }
}

/// The numbers by which scores are ordered.
pub open spec fn orders_of(scores: Seq<HitScore>) -> Seq<i64> {
    scores.map_values(|score: HitScore| score.order)
}

/// Whether the search by keywords shows a package: the node's domains cover
/// it; and the database chose it, or it scores above zero, or the query has no
/// text.
pub open spec fn is_shown(
    package: ResourcePackage,
    score: HitScore,
    prefiltered: bool,
    query: ResourceDiscoveryQuery,
    allowed: Seq<Seq<char>>,
) -> bool {
    &&& all_covered(allowed, texts(package.metadata.authorized_domains@))
    &&& prefiltered || score.positive || query.query is None
}

/// Those of the ranked packages that the search by keywords shows.
pub open spec fn shown_of(
    order: Seq<int>,
    packages: Seq<ResourcePackage>,
    scores: Seq<HitScore>,
    prefiltered: bool,
    query: ResourceDiscoveryQuery,
    allowed: Seq<Seq<char>>,
) -> Seq<int>
    decreases order.len(),
{
    if order.len() == 0 {
        Seq::empty()
    } else {
        let rest = shown_of(order.drop_last(), packages, scores, prefiltered, query, allowed);
        let last = order.last();
        if is_shown(packages[last], scores[last], prefiltered, query, allowed) {
            rest.push(order.last())
        } else {
            rest
        }
    }
}

/// The answers of the search by keywords, as indices of the packages.
pub open spec fn keyword_answers(
    packages: Seq<ResourcePackage>,
    query: ResourceDiscoveryQuery,
    scores: Seq<HitScore>,
    has_semantic_terms: bool,
    prefiltered: bool,
    allowed: Seq<Seq<char>>,
) -> Seq<int> {
    let order = ranked(packages, query, scores, has_semantic_terms);
    best_of(
        shown_of(order, packages, scores, prefiltered, query, allowed),
        orders_of(scores),
        query.limit as int,
    )
}

/// Ranks the packages that the search by keywords found, drops those that the
/// node's domains do not cover and those that are not shown, and cuts the rest
/// to the limit of the query.
pub fn keyword_discovery_candidates(
    packages: &Vec<ResourcePackage>,
    query: &ResourceDiscoveryQuery,
    scores: &Vec<HitScore>,
    has_semantic_terms: bool,
    prefiltered: bool,
    allowed_domains: &Vec<String>,
) -> (answers: Vec<usize>)
    requires
        scores@.len() == packages@.len(),
    ensures
        indices(answers@) == keyword_answers(
            packages@,
            *query,
            scores@,
            has_semantic_terms,
            prefiltered,
            texts(allowed_domains@),
        ),
{
    let order = rank_resource_packages_semantically(packages, query, scores, has_semantic_terms);
    proof {
        lemma_ranked_in_range(packages@, *query, scores@, has_semantic_terms);
        assert forall|k: int| 0 <= k < order@.len() implies #[trigger] order@[k] < scores@.len() by {
            assert(indices(order@)[k] == order@[k]);
        }
    }
    let mut shown: Vec<usize> = Vec::new();
    let mut i: usize = 0;
    assert(indices(order@).take(0) =~= Seq::empty());
    while i < order.len()
        invariant
            i <= order@.len(),
            scores@.len() == packages@.len(),
            forall|k: int| 0 <= k < order@.len() ==> #[trigger] order@[k] < scores@.len(),
            forall|k: int| 0 <= k < shown@.len() ==> #[trigger] shown@[k] < scores@.len(),
            indices(shown@) =~= shown_of(
                indices(order@).take(i as int),
                packages@,
                scores@,
                prefiltered,
                *query,
                texts(allowed_domains@),
            ),
        decreases order@.len() - i,
    {
        assert(indices(order@).take(i as int + 1).drop_last() =~= indices(order@).take(i as int));
        assert(indices(order@).take(i as int + 1).last() == order@[i as int]);
        if keyword_hit_is_shown(prefiltered, scores[order[i]].positive, query)
            && authorized_domains_cover(
            allowed_domains,
            &packages[order[i]].metadata.authorized_domains,
        ) {
            let ghost before = shown@;
            shown.push(order[i]);
            assert(indices(shown@) =~= indices(before).push(order@[i as int] as int));
        }
        i = i + 1;
    }
    assert(indices(order@).take(i as int) =~= indices(order@));
    let mut orders: Vec<i64> = Vec::new();
    let mut j: usize = 0;
    while j < scores.len()
        invariant
            j <= scores@.len(),
            orders@ =~= orders_of(scores@).take(j as int),
        decreases scores@.len() - j,
    {
        orders.push(scores[j].order);
        j = j + 1;
    }
    assert(orders@ =~= orders_of(scores@));
    pick_best(&shown, &orders, query.limit)
}

/// Those that are shown are among the ranked ones.
proof fn lemma_shown_of(
    order: Seq<int>,
    packages: Seq<ResourcePackage>,
    scores: Seq<HitScore>,
    prefiltered: bool,
    query: ResourceDiscoveryQuery,
    allowed: Seq<Seq<char>>,
    index: int,
)
    ensures
        shown_of(order, packages, scores, prefiltered, query, allowed).contains(index)
            <==> order.contains(index) && is_shown(
            packages[index],
            scores[index],
            prefiltered,
            query,
            allowed,
        ),
    decreases order.len(),
{
    if order.len() > 0 {
        let front = order.drop_last();
        lemma_shown_of(front, packages, scores, prefiltered, query, allowed, index);
        let rest = shown_of(front, packages, scores, prefiltered, query, allowed);
        let all = shown_of(order, packages, scores, prefiltered, query, allowed);
        assert(order =~= front.push(order.last()));
        if rest.contains(index) {
            let k = choose|k: int| 0 <= k < rest.len() && rest[k] == index;
            assert(all[k] == index);
        }
        if all.contains(index) && index != order.last() {
            let k = choose|k: int| 0 <= k < all.len() && all[k] == index;
            assert(rest[k] == index);
        }
        if order.contains(index) && index != order.last() {
            let k = choose|k: int| 0 <= k < order.len() && order[k] == index;
            assert(front[k] == index);
        }
        if front.contains(index) {
            let k = choose|k: int| 0 <= k < front.len() && front[k] == index;
            assert(order[k] == index);
        }
        assert(order[order.len() - 1] == order.last());
        if all.len() > rest.len() {
            assert(all[all.len() - 1] == order.last());
        }
    }
}

/// Every answer of the search by keywords meets the constraints of the query
/// and lies within the node's domains, and there are no more answers than the
/// query asks for.
pub proof fn law_keyword_answers_meet_the_query(
    packages: Seq<ResourcePackage>,
    query: ResourceDiscoveryQuery,
    scores: Seq<HitScore>,
    has_semantic_terms: bool,
    prefiltered: bool,
    allowed: Seq<Seq<char>>,
    place: int,
)
    requires
        scores.len() == packages.len(),
        0 <= place < keyword_answers(
            packages,
            query,
            scores,
            has_semantic_terms,
            prefiltered,
            allowed,
        ).len(),
    ensures
        ({
            let answers = keyword_answers(
                packages,
                query,
                scores,
                has_semantic_terms,
                prefiltered,
                allowed,
            );
            &&& answers.len() <= query.limit
            &&& 0 <= answers[place] < packages.len()
            &&& meets_constraints(packages[answers[place]], query)
            &&& all_covered(allowed, texts(packages[answers[place]].metadata.authorized_domains@))
        }),
{
    let order = ranked(packages, query, scores, has_semantic_terms);
    let shown = shown_of(order, packages, scores, prefiltered, query, allowed);
    lemma_best_of(shown, orders_of(scores), query.limit as int);
    let index = keyword_answers(
        packages,
        query,
        scores,
        has_semantic_terms,
        prefiltered,
        allowed,
    )[place];
    lemma_shown_of(order, packages, scores, prefiltered, query, allowed, index);
    lemma_ranked_in_range(packages, query, scores, has_semantic_terms);
    let k = choose|k: int| 0 <= k < order.len() && order[k] == index;
    law_ranking_lists_the_hits(packages, query, scores, has_semantic_terms, order[k]);
}

/// The packages at those indices.
pub open spec fn packages_at(packages: Seq<ResourcePackage>, kept: Seq<int>) -> Seq<
    ResourcePackage,
> {
    kept.map_values(|index: int| packages[index])
}

/// The packages of an index that a search by keywords goes through: of those
/// that the query searches, the ones that the node's domains cover.
pub open spec fn searchable_packages(
    packages: Seq<ResourcePackage>,
    query: ResourceDiscoveryQuery,
    allowed: Seq<Seq<char>>,
) -> Seq<ResourcePackage> {
    let searched = packages_at(
        packages,
        searched_indices(packages, query, packages.len() as int),
    );
    packages_at(searched, covered_indices(searched, allowed, searched.len() as int))
}

/// The searched packages are of searched types.
proof fn lemma_searched_indices(
    packages: Seq<ResourcePackage>,
    query: ResourceDiscoveryQuery,
    count: int,
)
    requires
        0 <= count <= packages.len(),
    ensures
        forall|k: int|
            0 <= k < searched_indices(packages, query, count).len() ==> 0
                <= #[trigger] searched_indices(packages, query, count)[k] < count && searches_type(
                query,
                packages[searched_indices(packages, query, count)[k]].resource_type,
            ),
    decreases count,
{
    if count > 0 {
        let rest = searched_indices(packages, query, count - 1);
        let all = searched_indices(packages, query, count);
        lemma_searched_indices(packages, query, count - 1);
        assert forall|k: int| 0 <= k < all.len() implies 0 <= #[trigger] all[k] < count
            && searches_type(query, packages[all[k]].resource_type) by {
            if k < rest.len() {
                assert(all[k] == rest[k]);
            }
        }
    }
}

/// Every answer of a search by keywords through an index is one of its
/// packages, of a type that the query searches, within the node's domains, and
/// meets the constraints of the query.
pub proof fn law_keyword_answers_are_searched_and_covered(
    packages: Seq<ResourcePackage>,
    query: ResourceDiscoveryQuery,
    allowed: Seq<Seq<char>>,
    scores: Seq<HitScore>,
    has_semantic_terms: bool,
    prefiltered: bool,
    place: int,
)
    requires
        scores.len() == searchable_packages(packages, query, allowed).len(),
        0 <= place < keyword_answers(
            searchable_packages(packages, query, allowed),
            query,
            scores,
            has_semantic_terms,
            prefiltered,
            allowed,
        ).len(),
    ensures
        ({
            let found = searchable_packages(packages, query, allowed);
            let answer = found[keyword_answers(
                found,
                query,
                scores,
                has_semantic_terms,
                prefiltered,
                allowed,
            )[place]];
            &&& packages.contains(answer)
            &&& searches_type(query, answer.resource_type)
            &&& all_covered(allowed, texts(answer.metadata.authorized_domains@))
            &&& meets_constraints(answer, query)
        }),
{
    let places = searched_indices(packages, query, packages.len() as int);
    let searched = packages_at(packages, places);
    let kept = covered_indices(searched, allowed, searched.len() as int);
    let found = searchable_packages(packages, query, allowed);
    let index = keyword_answers(
        found,
        query,
        scores,
        has_semantic_terms,
        prefiltered,
        allowed,
    )[place];
    law_keyword_answers_meet_the_query(
        found,
        query,
        scores,
        has_semantic_terms,
        prefiltered,
        allowed,
        place,
    );
    lemma_searched_indices(packages, query, packages.len() as int);
    lemma_covered_in_range(searched, allowed, searched.len() as int);
    assert(found[index] == searched[kept[index]]);
    assert(searched[kept[index]] == packages[places[kept[index]]]);
}

/// The indices of the first `count` packages that meet a query's constraints.
pub open spec fn meeting_indices(
    packages: Seq<ResourcePackage>,
    query: ResourceDiscoveryQuery,
    count: int,
) -> Seq<int>
    decreases count,
{
    if count <= 0 {
        Seq::empty()
    } else {
        let rest = meeting_indices(packages, query, count - 1);
        if meets_constraints(packages[count - 1], query) {
            rest.push(count - 1)
        } else {
            rest
        }
    }
}

/// The merged packages that a semantic search goes on with: those that meet
/// the constraints of the query, best first, as many as it asks for.
pub fn hybrid_semantic_hits(
    packages: &Vec<ResourcePackage>,
    query: &ResourceDiscoveryQuery,
    scores: &Vec<i64>,
) -> (hits: Vec<usize>)
    requires
        scores@.len() == packages@.len(),
    ensures
        indices(hits@) == best_of(
            meeting_indices(packages@, *query, packages@.len() as int),
            scores@,
            query.limit as int,
        ),
{
    let mut kept: Vec<usize> = Vec::new();
    let mut i: usize = 0;
    while i < packages.len()
        invariant
            i <= packages@.len(),
            scores@.len() == packages@.len(),
            forall|k: int| 0 <= k < kept@.len() ==> #[trigger] kept@[k] < scores@.len(),
            indices(kept@) =~= meeting_indices(packages@, *query, i as int),
        decreases packages@.len() - i,
    {
        if resource_matches_explicit_constraints(&packages[i], query) {
            let ghost before = kept@;
            kept.push(i);
            assert(indices(kept@) =~= indices(before).push(i as int));
        }
        i = i + 1;
    }
    pick_best(&kept, scores, query.limit)
}

/// The answers of a semantic search, as indices of the hits: those that the
/// node's domains cover, best first.
pub open spec fn semantic_answers(
    hits: Seq<ResourcePackage>,
    scores: Seq<i64>,
    allowed: Seq<Seq<char>>,
    limit: int,
) -> Seq<int> {
    best_of(covered_indices(hits, allowed, hits.len() as int), scores, limit)
}

/// The answers of a semantic search among its hits.
pub fn semantic_discovery_candidates(
    hits: &Vec<ResourcePackage>,
    scores: &Vec<i64>,
    allowed_domains: &Vec<String>,
    limit: u32,
) -> (answers: Vec<usize>)
    requires
        scores@.len() == hits@.len(),
    ensures
        indices(answers@) == semantic_answers(
            hits@,
            scores@,
            texts(allowed_domains@),
            limit as int,
        ),
{
    let kept = filter_packages_for_local_discovery(hits, allowed_domains);
    proof {
        lemma_covered_in_range(hits@, texts(allowed_domains@), hits@.len() as int);
        assert forall|k: int| 0 <= k < kept@.len() implies #[trigger] kept@[k] < scores@.len() by {
            assert(indices(kept@)[k] == kept@[k]);
        }
    }
    pick_best(&kept, scores, limit)
}

/// The covered packages are packages.
proof fn lemma_covered_in_range(packages: Seq<ResourcePackage>, allowed: Seq<Seq<char>>, count: int)
    requires
        0 <= count <= packages.len(),
    ensures
        forall|k: int|
            0 <= k < covered_indices(packages, allowed, count).len() ==> 0
                <= #[trigger] covered_indices(packages, allowed, count)[k] < count,
    decreases count,
{
    if count > 0 {
        let rest = covered_indices(packages, allowed, count - 1);
        lemma_covered_in_range(packages, allowed, count - 1);
        assert forall|k: int| 0 <= k < covered_indices(packages, allowed, count).len() implies 0
            <= #[trigger] covered_indices(packages, allowed, count)[k] < count by {
            if k < rest.len() {
                assert(covered_indices(packages, allowed, count)[k] == rest[k]);
            }
        }
    }
}

/// Every answer of a semantic search lies within the node's domains, and there
/// are no more answers than the query asks for.
pub proof fn law_semantic_answers_are_covered(
    hits: Seq<ResourcePackage>,
    scores: Seq<i64>,
    allowed: Seq<Seq<char>>,
    limit: int,
    place: int,
)
    requires
        scores.len() == hits.len(),
        0 <= limit,
        0 <= place < semantic_answers(hits, scores, allowed, limit).len(),
    ensures
        ({
            let answers = semantic_answers(hits, scores, allowed, limit);
            &&& answers.len() <= limit
            &&& 0 <= answers[place] < hits.len()
            &&& all_covered(allowed, texts(hits[answers[place]].metadata.authorized_domains@))
        }),
{
    let kept = covered_indices(hits, allowed, hits.len() as int);
    lemma_best_of(kept, scores, limit);
    lemma_covered_in_range(hits, allowed, hits.len() as int);
    let index = semantic_answers(hits, scores, allowed, limit)[place];
    let k = choose|k: int| 0 <= k < kept.len() && kept[k] == index;
    assert(kept[k] == index);
    law_only_covered_packages_are_kept(hits, allowed, index);
}

/// The packages at which a semantic search goes on meet the constraints.
proof fn lemma_meeting_indices(
    packages: Seq<ResourcePackage>,
    query: ResourceDiscoveryQuery,
    count: int,
)
    requires
        0 <= count <= packages.len(),
    ensures
        forall|k: int|
            0 <= k < meeting_indices(packages, query, count).len() ==> 0
                <= #[trigger] meeting_indices(packages, query, count)[k] < count
                && meets_constraints(packages[meeting_indices(packages, query, count)[k]], query),
    decreases count,
{
    if count > 0 {
        let rest = meeting_indices(packages, query, count - 1);
        let all = meeting_indices(packages, query, count);
        lemma_meeting_indices(packages, query, count - 1);
        assert forall|k: int| 0 <= k < all.len() implies 0 <= #[trigger] all[k] < count
            && meets_constraints(packages[all[k]], query) by {
            if k < rest.len() {
                assert(all[k] == rest[k]);
            }
        }
    }
}

/// Every answer of a semantic search among its hybrid hits is one of the merged
/// packages, meets the constraints of the query, and lies within the node's
/// domains, whatever the hits score in the end.
pub proof fn law_semantic_answers_meet_the_query(
    packages: Seq<ResourcePackage>,
    query: ResourceDiscoveryQuery,
    scores: Seq<i64>,
    final_scores: Seq<i64>,
    allowed: Seq<Seq<char>>,
    place: int,
)
    requires
        scores.len() == packages.len(),
        ({
            let hits = packages_at(
                packages,
                best_of(
                    meeting_indices(packages, query, packages.len() as int),
                    scores,
                    query.limit as int,
                ),
            );
            &&& final_scores.len() == hits.len()
            &&& 0 <= place < semantic_answers(
                hits,
                final_scores,
                allowed,
                query.limit as int,
            ).len()
        }),
    ensures
        ({
            let hits = packages_at(
                packages,
                best_of(
                    meeting_indices(packages, query, packages.len() as int),
                    scores,
                    query.limit as int,
                ),
            );
            let answer = hits[semantic_answers(
                hits,
                final_scores,
                allowed,
                query.limit as int,
            )[place]];
            &&& packages.contains(answer)
            &&& meets_constraints(answer, query)
            &&& all_covered(allowed, texts(answer.metadata.authorized_domains@))
        }),
{
    let meeting = meeting_indices(packages, query, packages.len() as int);
    let best = best_of(meeting, scores, query.limit as int);
    let hits = packages_at(packages, best);
    lemma_meeting_indices(packages, query, packages.len() as int);
    lemma_best_of(meeting, scores, query.limit as int);
    law_semantic_answers_are_covered(hits, final_scores, allowed, query.limit as int, place);
    let index = semantic_answers(hits, final_scores, allowed, query.limit as int)[place];
    assert(hits[index] == packages[best[index]]);
    assert(meeting.contains(best[index]));
    let k = choose|k: int| 0 <= k < meeting.len() && meeting[k] == best[index];
    assert(meets_constraints(packages[meeting[k]], query));
}

/// The best of some packages: best first, each once, and none that is left out
/// scores higher than one that is not.
proof fn lemma_best_of_order(kept: Seq<int>, scores: Seq<i64>, limit: int)
    requires
        0 <= limit,
        kept.no_duplicates(),
    ensures
        best_of(kept, scores, limit).no_duplicates(),
        forall|i: int, j: int|
            0 <= i < j < best_of(kept, scores, limit).len() ==> scores[#[trigger] best_of(
                kept,
                scores,
                limit,
            )[i]] >= scores[#[trigger] best_of(kept, scores, limit)[j]],
        forall|i: int, left: int|
            0 <= i < best_of(kept, scores, limit).len() && kept.contains(left) && !best_of(
                kept,
                scores,
                limit,
            ).contains(left) ==> #[trigger] scores[left] <= scores[#[trigger] best_of(
                kept,
                scores,
                limit,
            )[i]],
        kept.len() <= limit ==> forall|index: int|
            kept.contains(index) ==> #[trigger] best_of(kept, scores, limit).contains(index),
{
    let kept_scores = scores_at(scores, kept);
    let best = best_first(kept_scores, limit);
    let all = best_of(kept, scores, limit);
    lemma_best_of(kept, scores, limit);
    law_results_keep_to_the_limit(kept_scores, limit);
    law_stable_order_sorts(score_keys(kept_scores));
    let order = stable_order(score_keys(kept_scores));
    assert forall|i: int| 0 <= i < best.len() implies 0 <= #[trigger] best[i] < kept.len() && all[i]
        == kept[best[i]] && scores[all[i]] == kept_scores[best[i]] by {
        assert(best[i] == order[i]);
        assert(order.contains(order[i]));
    }
    assert forall|i: int, j: int| 0 <= i < j < all.len() implies scores[#[trigger] all[i]]
        >= scores[#[trigger] all[j]] && all[i] != all[j] by {
        law_best_results_come_first(kept_scores, limit, i, j);
        assert(all[i] == kept[best[i]] && all[j] == kept[best[j]]);
    }
    assert forall|i: int, left: int|
        0 <= i < all.len() && kept.contains(left) && !all.contains(
            left,
        ) implies #[trigger] scores[left] <= scores[#[trigger] all[i]] by {
        let k = choose|k: int| 0 <= k < kept.len() && kept[k] == left;
        if best.contains(k) {
            let p = choose|p: int| 0 <= p < best.len() && best[p] == k;
            assert(all[p] == left);
        }
        assert(best.contains(best[i]));
        law_cut_results_score_no_higher(kept_scores, limit, best[i], k);
        assert(kept_scores[k] == scores[left]);
    }
    if kept.len() <= limit {
        assert forall|index: int| kept.contains(index) implies #[trigger] all.contains(index) by {
            let k = choose|k: int| 0 <= k < kept.len() && kept[k] == index;
            assert(order.contains(k));
            let p = choose|p: int| 0 <= p < order.len() && order[p] == k;
            assert(best[p] == k);
            assert(all[p] == index);
        }
    }
}

/// Those that are shown are different where the ranked ones are.
proof fn lemma_shown_are_different(
    order: Seq<int>,
    packages: Seq<ResourcePackage>,
    scores: Seq<HitScore>,
    prefiltered: bool,
    query: ResourceDiscoveryQuery,
    allowed: Seq<Seq<char>>,
)
    requires
        order.no_duplicates(),
    ensures
        shown_of(order, packages, scores, prefiltered, query, allowed).no_duplicates(),
        shown_of(order, packages, scores, prefiltered, query, allowed).len() <= order.len(),
    decreases order.len(),
{
    if order.len() > 0 {
        let front = order.drop_last();
        lemma_shown_are_different(front, packages, scores, prefiltered, query, allowed);
        let rest = shown_of(front, packages, scores, prefiltered, query, allowed);
        let all = shown_of(order, packages, scores, prefiltered, query, allowed);
        lemma_shown_of(front, packages, scores, prefiltered, query, allowed, order.last());
        assert(!front.contains(order.last())) by {
            if front.contains(order.last()) {
                let k = choose|k: int| 0 <= k < front.len() && front[k] == order.last();
                assert(order[k] == order[order.len() - 1]);
            }
        }
        assert forall|k: int, l: int|
            0 <= k < all.len() && 0 <= l < all.len() && k != l implies all[k] != all[l] by {
            if k < rest.len() {
                assert(rest.contains(rest[k]));
            }
            if l < rest.len() {
                assert(rest.contains(rest[l]));
            }
        }
    }
}

/// The ranked packages are different.
proof fn lemma_ranked_are_different(
    packages: Seq<ResourcePackage>,
    query: ResourceDiscoveryQuery,
    scores: Seq<HitScore>,
    has_semantic_terms: bool,
)
    requires
        scores.len() == packages.len(),
    ensures
        ranked(packages, query, scores, has_semantic_terms).no_duplicates(),
{
    let order = ranked(packages, query, scores, has_semantic_terms);
    assert forall|i: int, j: int|
        0 <= i < order.len() && 0 <= j < order.len() && i != j implies order[i] != order[j] by {
        if i < j {
            law_better_packages_are_ranked_first(
                packages,
                query,
                scores,
                has_semantic_terms,
                i,
                j,
            );
        } else {
            law_better_packages_are_ranked_first(
                packages,
                query,
                scores,
                has_semantic_terms,
                j,
                i,
            );
        }
    }
}

/// Every answer of the search by keywords is of the type and the version that
/// the query names, has every tag that it names, and speaks its protocol; each
/// of its domains equals one of the node's or extends it by a dot; it scores
/// above zero, or was chosen by the database, or the query has no text; and it
/// scores above zero in any case where the query has tokens.
pub proof fn law_keyword_answers_have_what_is_asked(
    packages: Seq<ResourcePackage>,
    query: ResourceDiscoveryQuery,
    scores: Seq<HitScore>,
    has_semantic_terms: bool,
    prefiltered: bool,
    allowed: Seq<Seq<char>>,
    index: int,
    domain: int,
)
    requires
        scores.len() == packages.len(),
        keyword_answers(packages, query, scores, has_semantic_terms, prefiltered, allowed).contains(
            index,
        ),
    ensures
        0 <= index < packages.len(),
        query.resource_type matches Some(wanted) ==> packages[index].resource_type == wanted,
        query.version matches Some(wanted) ==> packages[index].package_version@ == wanted@,
        forall|i: int|
            0 <= i < query.capability_tags@.len() ==> texts(
                packages[index].metadata.capability_tags@,
            ).contains((#[trigger] query.capability_tags@[i])@),
        query.protocol matches Some(wanted) ==> some_service_speaks(packages[index], wanted@)
            || some_binding_speaks(packages[index], wanted@),
        packages[index].metadata.authorized_domains@.len() > 0,
        !allowed.contains("*"@) && 0 <= domain < packages[index].metadata.authorized_domains@.len()
            ==> exists|k: int|
            0 <= k < allowed.len() && (packages[index].metadata.authorized_domains@[domain]@
                == #[trigger] allowed[k] || exists|below: Seq<char>|
                packages[index].metadata.authorized_domains@[domain]@ == #[trigger] (allowed[k]
                    + "."@ + below)),
        has_semantic_terms ==> scores[index].positive,
        scores[index].positive || prefiltered || query.query is None,
{
    let answers = keyword_answers(
        packages,
        query,
        scores,
        has_semantic_terms,
        prefiltered,
        allowed,
    );
    let place = choose|place: int| 0 <= place < answers.len() && answers[place] == index;
    law_keyword_answers_meet_the_query(
        packages,
        query,
        scores,
        has_semantic_terms,
        prefiltered,
        allowed,
        place,
    );
    law_meeting_packages_have_what_is_asked(packages[index], query);
    let order = ranked(packages, query, scores, has_semantic_terms);
    let shown = shown_of(order, packages, scores, prefiltered, query, allowed);
    lemma_best_of(shown, orders_of(scores), query.limit as int);
    assert(shown.contains(answers[place]));
    lemma_shown_of(order, packages, scores, prefiltered, query, allowed, index);
    law_ranked_packages_have_what_is_asked(packages, query, scores, has_semantic_terms, index);
    let domains = texts(packages[index].metadata.authorized_domains@);
    assert(domains.len() == packages[index].metadata.authorized_domains@.len());
    if !allowed.contains("*"@) && 0 <= domain
        < packages[index].metadata.authorized_domains@.len() {
        law_covered_requests_leave_no_domain_out(allowed, domains, domain);
        assert(domains[domain] == packages[index].metadata.authorized_domains@[domain]@);
    }
}

/// The answers of the search by keywords are the best: each once, higher scores
/// first; a package that is left out though it meets the query, lies within the
/// domains and is shown scores no higher than any answer; and none is left out
/// where there are no more packages than the query asks for.
pub proof fn law_keyword_answers_are_the_best(
    packages: Seq<ResourcePackage>,
    query: ResourceDiscoveryQuery,
    scores: Seq<HitScore>,
    has_semantic_terms: bool,
    prefiltered: bool,
    allowed: Seq<Seq<char>>,
    i: int,
    j: int,
    index: int,
)
    requires
        scores.len() == packages.len(),
        0 <= index < packages.len(),
    ensures
        ({
            let answers = keyword_answers(
                packages,
                query,
                scores,
                has_semantic_terms,
                prefiltered,
                allowed,
            );
            let fits = meets_constraints(packages[index], query) && all_covered(
                allowed,
                texts(packages[index].metadata.authorized_domains@),
            ) && (scores[index].positive || (!has_semantic_terms && (prefiltered || query.query
                is None)));
            &&& answers.len() <= query.limit
            &&& answers.no_duplicates()
            &&& 0 <= i < j < answers.len() ==> scores[answers[i]].order >= scores[answers[j]].order
            &&& fits && packages.len() <= query.limit ==> answers.contains(index)
            &&& fits && !answers.contains(index) && 0 <= i < answers.len() ==> scores[index].order
                <= scores[answers[i]].order
        }),
{
    let answers = keyword_answers(
        packages,
        query,
        scores,
        has_semantic_terms,
        prefiltered,
        allowed,
    );
    let order = ranked(packages, query, scores, has_semantic_terms);
    let shown = shown_of(order, packages, scores, prefiltered, query, allowed);
    let orders = orders_of(scores);
    lemma_ranked_are_different(packages, query, scores, has_semantic_terms);
    lemma_shown_are_different(order, packages, scores, prefiltered, query, allowed);
    lemma_ranked_in_range(packages, query, scores, has_semantic_terms);
    lemma_best_of(shown, orders, query.limit as int);
    lemma_best_of_order(shown, orders, query.limit as int);
    law_ranked_packages_have_what_is_asked(packages, query, scores, has_semantic_terms, index);
    lemma_shown_of(order, packages, scores, prefiltered, query, allowed, index);
    lemma_no_more_than(order, packages.len() as int);
    assert forall|p: int| 0 <= p < answers.len() implies 0 <= #[trigger] answers[p]
        < packages.len() && orders[answers[p]] == scores[answers[p]].order by {
        assert(shown.contains(answers[p]));
        lemma_shown_of(order, packages, scores, prefiltered, query, allowed, answers[p]);
        let m = choose|m: int| 0 <= m < order.len() && order[m] == answers[p];
        assert(0 <= order[m] < packages.len());
    }
    if 0 <= i < j < answers.len() {
        assert(orders[answers[i]] >= orders[answers[j]]);
    }
    if shown.contains(index) && !answers.contains(index) && 0 <= i < answers.len() {
        assert(orders[index] <= orders[answers[i]]);
    }
}

/// Different indices below a bound are no more than the bound.
proof fn lemma_no_more_than(values: Seq<int>, bound: int)
    requires
        values.no_duplicates(),
        0 <= bound,
        forall|k: int| 0 <= k < values.len() ==> 0 <= #[trigger] values[k] < bound,
    ensures
        values.len() <= bound,
{
    values.unique_seq_to_set();
    let all = vstd::set_lib::set_int_range(0, bound);
    vstd::set_lib::lemma_int_range(0, bound);
    assert(values.to_set().subset_of(all));
    vstd::set_lib::lemma_len_subset(values.to_set(), all);
}

/// Every answer of a semantic search is of the type and the version that the
/// query names, has every tag that it names, and speaks its protocol; and each
/// of its domains equals one of the node's or extends it by a dot.
pub proof fn law_semantic_answers_have_what_is_asked(
    packages: Seq<ResourcePackage>,
    query: ResourceDiscoveryQuery,
    scores: Seq<i64>,
    final_scores: Seq<i64>,
    allowed: Seq<Seq<char>>,
    place: int,
    domain: int,
)
    requires
        scores.len() == packages.len(),
        ({
            let hits = packages_at(
                packages,
                best_of(
                    meeting_indices(packages, query, packages.len() as int),
                    scores,
                    query.limit as int,
                ),
            );
            &&& final_scores.len() == hits.len()
            &&& 0 <= place < semantic_answers(
                hits,
                final_scores,
                allowed,
                query.limit as int,
            ).len()
        }),
    ensures
        ({
            let hits = packages_at(
                packages,
                best_of(
                    meeting_indices(packages, query, packages.len() as int),
                    scores,
                    query.limit as int,
                ),
            );
            let answer = hits[semantic_answers(
                hits,
                final_scores,
                allowed,
                query.limit as int,
            )[place]];
            &&& packages.contains(answer)
            &&& query.resource_type matches Some(wanted) ==> answer.resource_type == wanted
            &&& query.version matches Some(wanted) ==> answer.package_version@ == wanted@
            &&& forall|i: int|
                0 <= i < query.capability_tags@.len() ==> texts(
                    answer.metadata.capability_tags@,
                ).contains((#[trigger] query.capability_tags@[i])@)
            &&& query.protocol matches Some(wanted) ==> some_service_speaks(answer, wanted@)
                || some_binding_speaks(answer, wanted@)
            &&& answer.metadata.authorized_domains@.len() > 0
            &&& !allowed.contains("*"@) && 0 <= domain < answer.metadata.authorized_domains@.len()
                ==> exists|k: int|
                0 <= k < allowed.len() && (answer.metadata.authorized_domains@[domain]@
                    == #[trigger] allowed[k] || exists|below: Seq<char>|
                    answer.metadata.authorized_domains@[domain]@ == #[trigger] (allowed[k] + "."@
                        + below))
        }),
{
    let hits = packages_at(
        packages,
        best_of(
            meeting_indices(packages, query, packages.len() as int),
            scores,
            query.limit as int,
        ),
    );
    let answer = hits[semantic_answers(hits, final_scores, allowed, query.limit as int)[place]];
    law_semantic_answers_meet_the_query(packages, query, scores, final_scores, allowed, place);
    law_meeting_packages_have_what_is_asked(answer, query);
    let domains = texts(answer.metadata.authorized_domains@);
    assert(domains.len() == answer.metadata.authorized_domains@.len());
    if !allowed.contains("*"@) && 0 <= domain < answer.metadata.authorized_domains@.len() {
        law_covered_requests_leave_no_domain_out(allowed, domains, domain);
        assert(domains[domain] == answer.metadata.authorized_domains@[domain]@);
    }
}

/// Which of the first `count` packages meet a query, in their order.
proof fn lemma_meeting_indices_list(
    packages: Seq<ResourcePackage>,
    query: ResourceDiscoveryQuery,
    count: int,
)
    requires
        0 <= count <= packages.len(),
    ensures
        forall|index: int| #[trigger]
            meeting_indices(packages, query, count).contains(index) <==> 0 <= index < count
                && meets_constraints(packages[index], query),
        meeting_indices(packages, query, count).no_duplicates(),
        meeting_indices(packages, query, count).len() <= count,
    decreases count,
{
    if count > 0 {
        lemma_meeting_indices_list(packages, query, count - 1);
        let rest = meeting_indices(packages, query, count - 1);
        let all = meeting_indices(packages, query, count);
        assert forall|index: int| #[trigger] all.contains(index) <==> 0 <= index < count
            && meets_constraints(packages[index], query) by {
            assert(rest.contains(index) <==> 0 <= index < count - 1 && meets_constraints(
                packages[index],
                query,
            ));
            if rest.contains(index) {
                let k = choose|k: int| 0 <= k < rest.len() && rest[k] == index;
                assert(all[k] == index);
            }
            if all.contains(index) && index != count - 1 {
                let k = choose|k: int| 0 <= k < all.len() && all[k] == index;
                assert(rest[k] == index);
            }
            if all.len() > rest.len() {
                assert(all[all.len() - 1] == count - 1);
            }
            if all.contains(index) && all.len() == rest.len() {
                assert(rest.contains(index));
            }
        }
        assert forall|k: int, l: int|
            0 <= k < all.len() && 0 <= l < all.len() && k != l implies all[k] != all[l] by {
            if k < rest.len() {
                assert(rest.contains(rest[k]));
            }
            if l < rest.len() {
                assert(rest.contains(rest[l]));
            }
        }
    }
}

/// The hits of a semantic search are the best of the packages that meet the
/// query: each once, higher scores first, no more than are asked for; a package
/// that meets the query and is left out scores no higher than any hit; and none
/// is left out where there are no more packages than are asked for.
pub proof fn law_semantic_hits_are_the_best(
    packages: Seq<ResourcePackage>,
    query: ResourceDiscoveryQuery,
    scores: Seq<i64>,
    i: int,
    j: int,
    index: int,
)
    requires
        scores.len() == packages.len(),
        0 <= index < packages.len(),
    ensures
        ({
            let hits = best_of(
                meeting_indices(packages, query, packages.len() as int),
                scores,
                query.limit as int,
            );
            &&& hits.len() <= query.limit
            &&& hits.no_duplicates()
            &&& 0 <= i < j < hits.len() ==> scores[hits[i]] >= scores[hits[j]]
            &&& hits.contains(index) ==> meets_constraints(packages[index], query)
            &&& meets_constraints(packages[index], query) && packages.len() <= query.limit
                ==> hits.contains(index)
            &&& meets_constraints(packages[index], query) && !hits.contains(index) && 0 <= i
                < hits.len() ==> scores[index] <= scores[hits[i]]
        }),
{
    let meeting = meeting_indices(packages, query, packages.len() as int);
    let hits = best_of(meeting, scores, query.limit as int);
    lemma_meeting_indices_list(packages, query, packages.len() as int);
    lemma_best_of(meeting, scores, query.limit as int);
    lemma_best_of_order(meeting, scores, query.limit as int);
    if hits.contains(index) {
        let k = choose|k: int| 0 <= k < hits.len() && hits[k] == index;
        assert(meeting.contains(hits[k]));
    }
    assert(meeting.contains(index) <==> meets_constraints(packages[index], query));
}

/// The answers of a semantic search are the best of its hits within the node's
/// domains: higher scores first, each once; one that is left out scores no
/// higher than any answer, and none is left out where there are no more hits
/// than are asked for.
pub proof fn law_semantic_answers_are_the_best(
    hits: Seq<ResourcePackage>,
    scores: Seq<i64>,
    allowed: Seq<Seq<char>>,
    limit: int,
    i: int,
    j: int,
    index: int,
)
    requires
        scores.len() == hits.len(),
        0 <= limit,
        0 <= index < hits.len(),
    ensures
        ({
            let answers = semantic_answers(hits, scores, allowed, limit);
            let covered = all_covered(allowed, texts(hits[index].metadata.authorized_domains@));
            &&& answers.len() <= limit
            &&& answers.no_duplicates()
            &&& 0 <= i < j < answers.len() ==> scores[answers[i]] >= scores[answers[j]]
            &&& answers.contains(index) ==> covered
            &&& covered && hits.len() <= limit ==> answers.contains(index)
            &&& covered && !answers.contains(index) && 0 <= i < answers.len() ==> scores[index]
                <= scores[answers[i]]
        }),
{
    let kept = covered_indices(hits, allowed, hits.len() as int);
    let answers = semantic_answers(hits, scores, allowed, limit);
    lemma_covered_are_different(hits, allowed, hits.len() as int);
    lemma_covered_in_range(hits, allowed, hits.len() as int);
    lemma_no_more_than(kept, hits.len() as int);
    lemma_best_of(kept, scores, limit);
    lemma_best_of_order(kept, scores, limit);
    law_only_covered_packages_are_kept(hits, allowed, index);
    if answers.contains(index) {
        let k = choose|k: int| 0 <= k < answers.len() && answers[k] == index;
        assert(kept.contains(answers[k]));
    }
}

/// The covered packages are different.
proof fn lemma_covered_are_different(
    packages: Seq<ResourcePackage>,
    allowed: Seq<Seq<char>>,
    count: int,
)
    requires
        0 <= count <= packages.len(),
    ensures
        covered_indices(packages, allowed, count).no_duplicates(),
    decreases count,
{
    if count > 0 {
        lemma_covered_are_different(packages, allowed, count - 1);
        lemma_covered_in_range(packages, allowed, count - 1);
        let rest = covered_indices(packages, allowed, count - 1);
        let all = covered_indices(packages, allowed, count);
        assert forall|k: int, l: int|
            0 <= k < all.len() && 0 <= l < all.len() && k != l implies all[k] != all[l] by {
            if k < rest.len() {
                assert(all[k] == rest[k]);
            }
            if l < rest.len() {
                assert(all[l] == rest[l]);
            }
        }
    }
}

} // verus!
