//! The local index of packages: which package of a DID is kept, what an
//! update replaces, and what is counted.

use vstd::prelude::*;

use crate::ordering::{
    indices, law_sorted_texts_are_the_different_ones, lemma_sorted_set,
    lemma_text_less_irreflexive, sort_and_dedup, sorted_set, text_less,
};
use crate::package::{resource_type_name, ResourcePackage};
use crate::ranking::{count_token, occurrences};
use crate::results::{dids_of, is_first_place};
use crate::text::{contains_text, extend_texts, lemma_texts_push, same_text, texts};

verus! {

/// The DIDs of packages with their cursors.
pub open spec fn entry_dids(entries: Seq<(i64, ResourcePackage)>) -> Seq<Seq<char>> {
    entries.map_values(|entry: (i64, ResourcePackage)| entry.1.resource_did@)
}

/// Whether the entry at `at` is the latest of its DID: no other has a higher
/// cursor, and no later one the same.
pub open spec fn is_latest(
    entries: Seq<(i64, ResourcePackage)>,
    did: Seq<char>,
    at: int,
) -> bool {
    &&& 0 <= at < entries.len()
    &&& entry_dids(entries)[at] == did
    &&& forall|i: int|
        0 <= i < entries.len() && #[trigger] entry_dids(entries)[i] == did ==> entries[i].0
            < entries[at].0 || (entries[i].0 == entries[at].0 && i <= at)
}

/// The DIDs of packages with their cursors.
fn dids_of_entries(entries: &Vec<(i64, ResourcePackage)>) -> (dids: Vec<String>)
    ensures
        texts(dids@) == entry_dids(entries@),
{
    let mut dids: Vec<String> = Vec::new();
    let mut i: usize = 0;
    while i < entries.len()
        invariant
            i <= entries@.len(),
            texts(dids@) =~= entry_dids(entries@).take(i as int),
        decreases entries@.len() - i,
    {
        broadcast use lemma_texts_push;

        dids.push(entries[i].1.resource_did.clone());
        i = i + 1;
        assert(entry_dids(entries@).take(i as int) =~= entry_dids(entries@).take(
            i as int - 1,
        ).push(entries@[i as int - 1].1.resource_did@));
    }
    assert(texts(dids@) =~= entry_dids(entries@));
    dids
}

/// The place of the latest entry of a DID.
fn find_latest(entries: &Vec<(i64, ResourcePackage)>, did: &str) -> (at: usize)
    requires
        entry_dids(entries@).contains(did@),
    ensures
        is_latest(entries@, did@, at as int),
{
    let mut best: Option<usize> = None;
    let mut i: usize = 0;
    while i < entries.len()
        invariant
            i <= entries@.len(),
            best is None ==> forall|k: int|
                0 <= k < i ==> #[trigger] entry_dids(entries@)[k] != did@,
            best matches Some(at) ==> {
                &&& at < i
                &&& entry_dids(entries@)[at as int] == did@
                &&& forall|k: int|
                    0 <= k < i && #[trigger] entry_dids(entries@)[k] == did@ ==> entries@[k].0
                        < entries@[at as int].0 || (entries@[k].0 == entries@[at as int].0 && k
                        <= at)
            },
        decreases entries@.len() - i,
    {
        assert(entry_dids(entries@)[i as int] == entries@[i as int].1.resource_did@);
        if same_text(&entries[i].1.resource_did, did) {
            best = match best {
                Some(at) => if entries[i].0 >= entries[at].0 {
                    Some(i)
                } else {
                    Some(at)
                },
                None => Some(i),
            };
        }
        i = i + 1;
    }
    match best {
        Some(at) => at,
        None => {
            assert(false) by {
                let k = choose|k: int|
                    0 <= k < entry_dids(entries@).len() && entry_dids(entries@)[k] == did@;
                assert(entry_dids(entries@)[k] != did@);
            }
            0
        },
    }
}

/// The latest package of each DID, as indices, in the order of the DIDs.
pub fn latest_resource_packages_by_did(packages: &Vec<(i64, ResourcePackage)>) -> (latest: Vec<
    usize,
>)
    ensures
        latest@.len() == sorted_set(entry_dids(packages@)).len(),
        forall|k: int|
            0 <= k < latest@.len() ==> is_latest(
                packages@,
                sorted_set(entry_dids(packages@))[k],
                #[trigger] latest@[k] as int,
            ),
{
    let dids = dids_of_entries(packages);
    let sorted = sort_and_dedup(&dids);
    proof {
        lemma_sorted_set(entry_dids(packages@));
    }
    let ghost all = sorted_set(entry_dids(packages@));
    let mut latest: Vec<usize> = Vec::new();
    let mut i: usize = 0;
    assert(texts(sorted@).len() == sorted@.len());
    while i < sorted.len()
        invariant
            i <= sorted@.len(),
            latest@.len() == i,
            all == sorted_set(entry_dids(packages@)),
            texts(sorted@) == all,
            forall|did: Seq<char>| #[trigger]
                all.contains(did) <==> entry_dids(packages@).contains(did),
            forall|k: int|
                0 <= k < i ==> is_latest(packages@, all[k], #[trigger] latest@[k] as int),
        decreases sorted@.len() - i,
    {
        assert(all[i as int] == sorted@[i as int]@);
        assert(all.contains(all[i as int]));
        latest.push(find_latest(packages, &sorted[i]));
        i = i + 1;
    }
    latest
}

/// An update keeps just one package of each DID, and that of the highest
/// cursor.
pub proof fn law_update_keeps_the_latest(
    packages: Seq<(i64, ResourcePackage)>,
    latest: Seq<usize>,
    i: int,
)
    requires
        latest.len() == sorted_set(entry_dids(packages)).len(),
        forall|k: int|
            0 <= k < latest.len() ==> is_latest(
                packages,
                sorted_set(entry_dids(packages))[k],
                #[trigger] latest[k] as int,
            ),
        0 <= i < packages.len(),
    ensures
        exists|k: int|
            0 <= k < latest.len() && packages[#[trigger] latest[k] as int].1.resource_did@
                == packages[i].1.resource_did@ && packages[latest[k] as int].0 >= packages[i].0,
        forall|j: int, k: int|
            0 <= j < k < latest.len() ==> packages[#[trigger] latest[j] as int].1.resource_did@
                != packages[#[trigger] latest[k] as int].1.resource_did@,
{
    let all = sorted_set(entry_dids(packages));
    lemma_sorted_set(entry_dids(packages));
    assert forall|j: int, k: int| 0 <= j < k < latest.len() implies packages[#[trigger] latest[
        j
    ] as int].1.resource_did@ != packages[#[trigger] latest[k] as int].1.resource_did@ by {
        assert(is_latest(packages, all[j], latest[j] as int));
        assert(is_latest(packages, all[k], latest[k] as int));
        assert(entry_dids(packages)[latest[j] as int] == all[j]);
        assert(entry_dids(packages)[latest[k] as int] == all[k]);
        assert(text_less(all[j], all[k]));
        lemma_text_less_irreflexive(all[j]);
    }
    let did = entry_dids(packages)[i];
    assert(entry_dids(packages).contains(did));
    assert(all.contains(did));
    let k = choose|k: int| 0 <= k < all.len() && all[k] == did;
    assert(is_latest(packages, all[k], latest[k] as int));
    assert(entry_dids(packages)[latest[k] as int] == did);
}

/// The indices of the first `count` packages whose DIDs are not among `dids`.
pub open spec fn untouched_indices(
    packages: Seq<ResourcePackage>,
    dids: Seq<Seq<char>>,
    count: int,
) -> Seq<int>
    decreases count,
{
    if count <= 0 {
        Seq::empty()
    } else {
        let rest = untouched_indices(packages, dids, count - 1);
        if dids.contains(packages[count - 1].resource_did@) {
            rest
        } else {
            rest.push(count - 1)
        }
    }
}

/// The indexed packages that an update of those DIDs leaves in place, as
/// indices; the updated packages follow them.
pub fn untouched_by_update(indexed: &Vec<ResourcePackage>, updated_dids: &Vec<String>) -> (kept:
    Vec<usize>)
    ensures
        indices(kept@) == untouched_indices(indexed@, texts(updated_dids@), indexed@.len() as int),
{
    let mut kept: Vec<usize> = Vec::new();
    let mut i: usize = 0;
    while i < indexed.len()
        invariant
            i <= indexed@.len(),
            indices(kept@) =~= untouched_indices(indexed@, texts(updated_dids@), i as int),
        decreases indexed@.len() - i,
    {
        if !contains_text(updated_dids, &indexed[i].resource_did) {
            let ghost before = kept@;
            kept.push(i);
            assert(indices(kept@) =~= indices(before).push(i as int));
        }
        i = i + 1;
    }
    kept
}

/// The DIDs of the index after an update: those it leaves in place, then those
/// that are updated.
pub open spec fn dids_after_update(
    indexed: Seq<ResourcePackage>,
    updated: Seq<Seq<char>>,
) -> Seq<Seq<char>> {
    untouched_indices(indexed, updated, indexed.len() as int).map_values(
        |index: int| indexed[index].resource_did@,
    ) + updated
}

/// What an update leaves in place: packages of other DIDs, in their order.
proof fn lemma_untouched_indices(
    packages: Seq<ResourcePackage>,
    dids: Seq<Seq<char>>,
    count: int,
)
    requires
        0 <= count <= packages.len(),
    ensures
        forall|k: int|
            0 <= k < untouched_indices(packages, dids, count).len() ==> 0
                <= #[trigger] untouched_indices(packages, dids, count)[k] < count && !dids.contains(
                packages[untouched_indices(packages, dids, count)[k]].resource_did@,
            ),
        forall|j: int, k: int|
            0 <= j < k < untouched_indices(packages, dids, count).len()
                ==> #[trigger] untouched_indices(packages, dids, count)[j]
                < #[trigger] untouched_indices(packages, dids, count)[k],
    decreases count,
{
    if count > 0 {
        lemma_untouched_indices(packages, dids, count - 1);
    }
}

/// An index that holds each DID once still does after an update.
pub proof fn law_index_holds_each_did_once(
    indexed: Seq<ResourcePackage>,
    updated: Seq<Seq<char>>,
)
    requires
        dids_of(indexed).no_duplicates(),
        updated.no_duplicates(),
    ensures
        dids_after_update(indexed, updated).no_duplicates(),
{
    let kept = untouched_indices(indexed, updated, indexed.len() as int);
    let after = dids_after_update(indexed, updated);
    lemma_untouched_indices(indexed, updated, indexed.len() as int);
    assert forall|j: int, k: int| 0 <= j < after.len() && 0 <= k < after.len() && j
        != k implies after[j] != after[k] by {
        if j < kept.len() {
            assert(after[j] == dids_of(indexed)[kept[j]]);
        } else {
            assert(after[j] == updated[j - kept.len()]);
            assert(updated.contains(after[j]));
        }
        if k < kept.len() {
            assert(after[k] == dids_of(indexed)[kept[k]]);
        } else {
            assert(after[k] == updated[k - kept.len()]);
            assert(updated.contains(after[k]));
        }
    }
}

/// The first package of that DID, where there is one.
pub fn find_package(packages: &Vec<ResourcePackage>, did: &str) -> (at: Option<usize>)
    ensures
        at matches Some(place) ==> is_first_place(dids_of(packages@), did@, place as int),
        at is None ==> !dids_of(packages@).contains(did@),
{
    let mut i: usize = 0;
    while i < packages.len()
        invariant
            i <= packages@.len(),
            forall|k: int| 0 <= k < i ==> #[trigger] dids_of(packages@)[k] != did@,
        decreases packages@.len() - i,
    {
        assert(dids_of(packages@)[i as int] == packages@[i as int].resource_did@);
        if same_text(&packages[i].resource_did, did) {
            return Some(i);
        }
        i = i + 1;
    }
    None
}

/// The packages of the index after an update: those it leaves in place, then
/// the latest of each updated DID.
pub open spec fn packages_after_update(
    indexed: Seq<ResourcePackage>,
    entries: Seq<(i64, ResourcePackage)>,
    latest: Seq<usize>,
) -> Seq<ResourcePackage> {
    untouched_indices(
        indexed,
        sorted_set(entry_dids(entries)),
        indexed.len() as int,
    ).map_values(|index: int| indexed[index]) + latest.map_values(
        |index: usize| entries[index as int].1,
    )
}

/// After an update the index holds each updated DID, and the first package of
/// the DID, the one that is found, is that of its highest cursor.
pub proof fn law_update_is_found(
    indexed: Seq<ResourcePackage>,
    entries: Seq<(i64, ResourcePackage)>,
    latest: Seq<usize>,
    i: int,
)
    requires
        latest.len() == sorted_set(entry_dids(entries)).len(),
        forall|k: int|
            0 <= k < latest.len() ==> is_latest(
                entries,
                sorted_set(entry_dids(entries))[k],
                #[trigger] latest[k] as int,
            ),
        0 <= i < entries.len(),
    ensures
        dids_of(packages_after_update(indexed, entries, latest)).contains(entry_dids(entries)[i]),
        forall|place: int|
            #![trigger packages_after_update(indexed, entries, latest)[place]]
            is_first_place(
                dids_of(packages_after_update(indexed, entries, latest)),
                entry_dids(entries)[i],
                place,
            ) ==> exists|at: int| #[trigger]
                is_latest(entries, entry_dids(entries)[i], at) && packages_after_update(
                    indexed,
                    entries,
                    latest,
                )[place] == entries[at].1,
{
    let did = entry_dids(entries)[i];
    let all = sorted_set(entry_dids(entries));
    let kept = untouched_indices(indexed, all, indexed.len() as int);
    let after = packages_after_update(indexed, entries, latest);
    lemma_sorted_set(entry_dids(entries));
    lemma_untouched_indices(indexed, all, indexed.len() as int);
    assert(entry_dids(entries).contains(did));
    assert(all.contains(did));
    let k = choose|k: int| 0 <= k < all.len() && all[k] == did;
    assert(is_latest(entries, all[k], latest[k] as int));
    assert(dids_of(after)[kept.len() + k] == entry_dids(entries)[latest[k] as int]);
    assert forall|place: int| is_first_place(dids_of(after), did, place) implies exists|at: int|
     #[trigger]
        is_latest(entries, did, at) && #[trigger] after[place] == entries[at].1 by {
        if place < kept.len() {
            assert(after[place] == indexed[kept[place]]);
            assert(!all.contains(indexed[kept[place]].resource_did@));
        } else {
            let j = place - kept.len();
            assert(after[place] == entries[latest[j] as int].1);
            assert(is_latest(entries, all[j], latest[j] as int));
            assert(entry_dids(entries)[latest[j] as int] == did);
        }
    }
}

/// The DIDs of the packages that are among `wanted`.
pub open spec fn indexed_among(
    packages: Seq<ResourcePackage>,
    wanted: Seq<Seq<char>>,
) -> Seq<Seq<char>>
    decreases packages.len(),
{
    if packages.len() == 0 {
        Seq::empty()
    } else {
        let rest = indexed_among(packages.drop_last(), wanted);
        if wanted.contains(packages.last().resource_did@) {
            rest.push(packages.last().resource_did@)
        } else {
            rest
        }
    }
}

/// Which of the wanted DIDs are indexed, in the order of the index.
pub fn indexed_resource_visibility(packages: &Vec<ResourcePackage>, wanted: &Vec<String>) -> (
    visible: Vec<String>)
    ensures
        texts(visible@) == indexed_among(packages@, texts(wanted@)),
{
    broadcast use lemma_texts_push;

    let mut visible: Vec<String> = Vec::new();
    let mut i: usize = 0;
    assert(texts(visible@) =~= indexed_among(packages@.take(0), texts(wanted@)));
    while i < packages.len()
        invariant
            i <= packages@.len(),
            texts(visible@) == indexed_among(packages@.take(i as int), texts(wanted@)),
        decreases packages@.len() - i,
    {
        assert(packages@.take(i as int + 1).drop_last() =~= packages@.take(i as int));
        if contains_text(wanted, &packages[i].resource_did) {
            visible.push(packages[i].resource_did.clone());
        }
        i = i + 1;
    }
    assert(packages@.take(i as int) =~= packages@);
    visible
}

/// A part of a list, from one index up to another.
#[derive(Clone, Copy, Debug, PartialEq, Eq, Structural)]
pub struct ListPart {
    pub from: usize,
    pub to: usize,
}

/// Splits a list of that length into parts of `size`, the last of what is left.
pub fn list_parts(length: usize, size: usize) -> (parts: Vec<ListPart>)
    requires
        size > 0,
    ensures
        length == 0 ==> parts@.len() == 0,
        length > 0 ==> parts@.len() > 0 && parts@[0].from == 0 && parts@[parts@.len() - 1].to
            == length,
        forall|i: int| 0 <= i < parts@.len() ==> (#[trigger] parts@[i]).from == i * size,
        forall|i: int|
            0 <= i < parts@.len() ==> (#[trigger] parts@[i]).from < parts@[i].to && parts@[i].to
                - parts@[i].from <= size && parts@[i].to <= length,
        forall|i: int|
            0 <= i < parts@.len() - 1 ==> (#[trigger] parts@[i]).to == parts@[i].from + size,
{
    let mut parts: Vec<ListPart> = Vec::new();
    let mut from: usize = 0;
    assert(0 * size == 0);
    while from < length
        invariant
            size > 0,
            from <= length,
            from < length ==> from == parts@.len() * size,
            parts@.len() == 0 ==> from == 0,
            parts@.len() > 0 ==> parts@[0].from == 0 && parts@[parts@.len() - 1].to == from,
            forall|i: int| 0 <= i < parts@.len() ==> (#[trigger] parts@[i]).from == i * size,
            forall|i: int|
                0 <= i < parts@.len() ==> (#[trigger] parts@[i]).from < parts@[i].to && parts@[i].to
                    - parts@[i].from <= size && parts@[i].to <= length,
            forall|i: int|
                0 <= i < parts@.len() - 1 ==> (#[trigger] parts@[i]).to == parts@[i].from + size,
            from < length && parts@.len() > 0 ==> parts@[parts@.len() - 1].to == parts@[parts@.len()
                - 1].from + size,
        decreases length - from,
    {
        let to: usize = if length - from <= size {
            length
        } else {
            from + size
        };
        let ghost count = parts@.len() as int;
        assert((count + 1) * size == count * size + size) by (nonlinear_arith);
        parts.push(ListPart { from, to });
        from = to;
    }
    parts
}

/// A name and how often it occurs.
#[derive(Debug)]
pub struct NameCount {
    pub name: String,
    pub count: usize,
}

/// Whether `counts` says how often each of `names` occurs, in their order.
pub open spec fn counts_names(counts: Seq<NameCount>, names: Seq<Seq<char>>) -> bool {
    &&& counts.len() == sorted_set(names).len()
    &&& forall|i: int|
        0 <= i < counts.len() ==> (#[trigger] counts[i]).name@ == sorted_set(names)[i]
            && counts[i].count == occurrences(names, sorted_set(names)[i])
}

/// How often each of `names` occurs, in the order of the names.
fn count_names(names: &Vec<String>) -> (counts: Vec<NameCount>)
    ensures
        counts_names(counts@, texts(names@)),
{
    let sorted = sort_and_dedup(names);
    let mut counts: Vec<NameCount> = Vec::new();
    let mut i: usize = 0;
    assert(texts(sorted@).len() == sorted@.len());
    while i < sorted.len()
        invariant
            i <= sorted@.len(),
            counts@.len() == i,
            texts(sorted@) == sorted_set(texts(names@)),
            forall|k: int|
                0 <= k < i ==> (#[trigger] counts@[k]).name@ == sorted_set(texts(names@))[k]
                    && counts@[k].count == occurrences(
                    texts(names@),
                    sorted_set(texts(names@))[k],
                ),
        decreases sorted@.len() - i,
    {
        assert(texts(sorted@)[i as int] == sorted@[i as int]@);
        counts.push(
            NameCount { name: sorted[i].clone(), count: count_token(names, &sorted[i]) },
        );
        i = i + 1;
    }
    counts
}

/// The names of the types of packages.
pub open spec fn type_names(packages: Seq<ResourcePackage>) -> Seq<Seq<char>> {
    packages.map_values(|package: ResourcePackage| resource_type_name(package.resource_type))
}

/// The capability tags of packages, one package after the other.
pub open spec fn all_tags(packages: Seq<ResourcePackage>) -> Seq<Seq<char>>
    decreases packages.len(),
{
    if packages.len() == 0 {
        Seq::empty()
    } else {
        all_tags(packages.drop_last()) + texts(packages.last().metadata.capability_tags@)
    }
}

/// What is counted of the index.
#[derive(Debug)]
pub struct IndexCounts {
    pub indexed_resource_count: usize,
    pub resource_type_counts: Vec<NameCount>,
    pub capability_tag_counts: Vec<NameCount>,
}

/// Counts the indexed packages, their types and their tags.
pub fn index_counts(packages: &Vec<ResourcePackage>) -> (counts: IndexCounts)
    ensures
        counts.indexed_resource_count == packages@.len(),
        counts_names(counts.resource_type_counts@, type_names(packages@)),
        counts_names(counts.capability_tag_counts@, all_tags(packages@)),
{
    broadcast use lemma_texts_push;

    let mut types: Vec<String> = Vec::new();
    let mut tags: Vec<String> = Vec::new();
    let mut i: usize = 0;
    assert(texts(tags@) =~= all_tags(packages@.take(0)));
    while i < packages.len()
        invariant
            i <= packages@.len(),
            texts(types@) =~= type_names(packages@).take(i as int),
            texts(tags@) == all_tags(packages@.take(i as int)),
        decreases packages@.len() - i,
    {
        assert(packages@.take(i as int + 1).drop_last() =~= packages@.take(i as int));
        types.push(packages[i].resource_type.as_str().to_owned());
        extend_texts(&mut tags, &packages[i].metadata.capability_tags);
        assert(type_names(packages@).take(i as int + 1) =~= type_names(packages@).take(
            i as int,
        ).push(resource_type_name(packages@[i as int].resource_type)));
        i = i + 1;
    }
    assert(packages@.take(i as int) =~= packages@);
    assert(texts(types@) =~= type_names(packages@));
    IndexCounts {
        indexed_resource_count: packages.len(),
        resource_type_counts: count_names(&types),
        capability_tag_counts: count_names(&tags),
    }
}

/// The sum of counts.
pub open spec fn sum_of(counts: Seq<NameCount>) -> nat
    decreases counts.len(),
{
    if counts.len() == 0 {
        0
    } else {
        sum_of(counts.drop_last()) + counts.last().count as nat
    }
}

/// How often some different names occur together.
spec fn joint_occurrences(different: Seq<Seq<char>>, names: Seq<Seq<char>>) -> nat
    decreases different.len(),
{
    if different.len() == 0 {
        0
    } else {
        joint_occurrences(different.drop_last(), names) + occurrences(names, different.last())
    }
}

/// One more name is one more occurrence for each place it has.
proof fn lemma_one_more_name(different: Seq<Seq<char>>, names: Seq<Seq<char>>)
    requires
        names.len() > 0,
    ensures
        joint_occurrences(different, names) == joint_occurrences(different, names.drop_last())
            + occurrences(different, names.last()),
    decreases different.len(),
{
    if different.len() > 0 {
        lemma_one_more_name(different.drop_last(), names);
    }
}

/// Among different names, one that is there occurs once, and any other never.
proof fn lemma_different_names_occur_once(different: Seq<Seq<char>>, name: Seq<char>)
    requires
        different.no_duplicates(),
    ensures
        occurrences(different, name) == if different.contains(name) {
            1nat
        } else {
            0
        },
    decreases different.len(),
{
    if different.len() > 0 {
        let rest = different.drop_last();
        assert(rest.no_duplicates()) by {
            assert forall|i: int, j: int| 0 <= i < rest.len() && 0 <= j < rest.len() && i
                != j implies rest[i] != rest[j] by {
                assert(different[i] != different[j]);
            }
        }
        lemma_different_names_occur_once(rest, name);
        assert(different[different.len() - 1] == different.last());
        if rest.contains(name) {
            let k = choose|k: int| 0 <= k < rest.len() && rest[k] == name;
            assert(different[k] == name);
        }
        if different.contains(name) && name != different.last() {
            let k = choose|k: int| 0 <= k < different.len() && different[k] == name;
            assert(rest[k] == name);
        }
    }
}

/// Different names that hold all of `names` occur as often as there are names.
proof fn lemma_all_names_are_counted(different: Seq<Seq<char>>, names: Seq<Seq<char>>)
    requires
        different.no_duplicates(),
        forall|i: int| 0 <= i < names.len() ==> different.contains(#[trigger] names[i]),
    ensures
        joint_occurrences(different, names) == names.len(),
    decreases names.len(),
{
    if names.len() == 0 {
        lemma_nothing_is_counted(different, names);
    } else {
        let rest = names.drop_last();
        assert forall|i: int| 0 <= i < rest.len() implies different.contains(
            #[trigger] rest[i],
        ) by {
            assert(rest[i] == names[i]);
        }
        lemma_all_names_are_counted(different, rest);
        lemma_one_more_name(different, names);
        assert(different.contains(names[names.len() - 1]));
        lemma_different_names_occur_once(different, names.last());
    }
}

/// Where there is no name, none is counted.
proof fn lemma_nothing_is_counted(different: Seq<Seq<char>>, names: Seq<Seq<char>>)
    requires
        names.len() == 0,
    ensures
        joint_occurrences(different, names) == 0,
    decreases different.len(),
{
    if different.len() > 0 {
        lemma_nothing_is_counted(different.drop_last(), names);
    }
}

/// The sum of the counts of the first different names.
proof fn lemma_sum_of_counts(
    counts: Seq<NameCount>,
    different: Seq<Seq<char>>,
    names: Seq<Seq<char>>,
)
    requires
        counts.len() == different.len(),
        forall|i: int|
            0 <= i < counts.len() ==> (#[trigger] counts[i]).count == occurrences(
                names,
                different[i],
            ),
    ensures
        sum_of(counts) == joint_occurrences(different, names),
    decreases counts.len(),
{
    if counts.len() > 0 {
        let fewer = counts.drop_last();
        assert forall|i: int| 0 <= i < fewer.len() implies (#[trigger] fewer[i]).count
            == occurrences(names, different.drop_last()[i]) by {
            assert(fewer[i] == counts[i]);
        }
        lemma_sum_of_counts(fewer, different.drop_last(), names);
        assert(counts[counts.len() - 1] == counts.last());
    }
}

/// Counts of names add up to the number of names.
pub proof fn law_counts_add_up(counts: Seq<NameCount>, names: Seq<Seq<char>>)
    requires
        counts_names(counts, names),
    ensures
        sum_of(counts) == names.len(),
{
    let different = sorted_set(names);
    lemma_sorted_set(names);
    assert(different.no_duplicates()) by {
        assert forall|i: int, j: int| 0 <= i < different.len() && 0 <= j < different.len() && i
            != j implies different[i] != different[j] by {
            lemma_text_less_irreflexive(different[i]);
            if i < j {
                assert(text_less(different[i], different[j]));
            } else {
                assert(text_less(different[j], different[i]));
            }
        }
    }
    assert forall|i: int| 0 <= i < names.len() implies different.contains(#[trigger] names[i]) by {
        assert(names.contains(names[i]));
    }
    lemma_sum_of_counts(counts, different, names);
    lemma_all_names_are_counted(different, names);
}

/// The counts of the types add up to the number of packages, and those of the
/// tags to the number of tags that the packages have together.
pub proof fn law_index_counts_add_up(counts: IndexCounts, packages: Seq<ResourcePackage>)
    requires
        counts.indexed_resource_count == packages.len(),
        counts_names(counts.resource_type_counts@, type_names(packages)),
        counts_names(counts.capability_tag_counts@, all_tags(packages)),
    ensures
        sum_of(counts.resource_type_counts@) == counts.indexed_resource_count,
        sum_of(counts.capability_tag_counts@) == all_tags(packages).len(),
{
    law_counts_add_up(counts.resource_type_counts@, type_names(packages));
    law_counts_add_up(counts.capability_tag_counts@, all_tags(packages));
}

/// Whether counts that were taken that long ago are still reported: for half a
/// second.
pub fn index_counts_are_fresh(elapsed_nanos: u128) -> (fresh: bool)
    ensures
        fresh <==> elapsed_nanos <= 500_000_000,
{
    elapsed_nanos <= 500_000_000
}

/// What is kept of an update is, for every entry, a package of the same DID
/// whose cursor is no lower, and, of equal cursors, one that is no earlier.
pub proof fn law_latest_entry_has_the_highest_cursor(
    entries: Seq<(i64, ResourcePackage)>,
    did: Seq<char>,
    at: int,
    i: int,
)
    requires
        is_latest(entries, did, at),
        0 <= i < entries.len(),
        entries[i].1.resource_did@ == did,
    ensures
        entries[at].1.resource_did@ == did,
        entries[i].0 <= entries[at].0,
        entries[i].0 == entries[at].0 ==> i <= at,
{
    assert(entry_dids(entries)[i] == did);
    assert(entry_dids(entries)[at] == did);
}

/// An update leaves in place just the packages of other DIDs.
pub proof fn law_other_packages_stay_in_place(
    packages: Seq<ResourcePackage>,
    updated: Seq<Seq<char>>,
    index: int,
)
    ensures
        untouched_indices(packages, updated, packages.len() as int).contains(index) <==> 0 <= index
            < packages.len() && !updated.contains(packages[index].resource_did@),
        0 <= index < packages.len() ==> dids_after_update(packages, updated).contains(
            packages[index].resource_did@,
        ),
        forall|k: int|
            0 <= k < updated.len() ==> dids_after_update(packages, updated).contains(
                #[trigger] updated[k],
            ),
{
    let kept = untouched_indices(packages, updated, packages.len() as int);
    let after = dids_after_update(packages, updated);
    lemma_which_are_untouched(packages, updated, packages.len() as int, index);
    if 0 <= index < packages.len() {
        let did = packages[index].resource_did@;
        if updated.contains(did) {
            let k = choose|k: int| 0 <= k < updated.len() && updated[k] == did;
            assert(after[kept.len() + k] == did);
        } else {
            let k = choose|k: int| 0 <= k < kept.len() && kept[k] == index;
            assert(after[k] == did);
        }
    }
    assert forall|k: int| 0 <= k < updated.len() implies after.contains(#[trigger] updated[k]) by {
        assert(after[kept.len() + k] == updated[k]);
    }
}

/// Which packages an update leaves in place.
proof fn lemma_which_are_untouched(
    packages: Seq<ResourcePackage>,
    dids: Seq<Seq<char>>,
    count: int,
    index: int,
)
    requires
        0 <= count <= packages.len(),
    ensures
        untouched_indices(packages, dids, count).contains(index) <==> 0 <= index < count
            && !dids.contains(packages[index].resource_did@),
    decreases count,
{
    if count > 0 {
        lemma_which_are_untouched(packages, dids, count - 1, index);
        let rest = untouched_indices(packages, dids, count - 1);
        let all = untouched_indices(packages, dids, count);
        if rest.contains(index) {
            let k = choose|k: int| 0 <= k < rest.len() && rest[k] == index;
            assert(all[k] == index);
        }
        if all.contains(index) {
            let k = choose|k: int| 0 <= k < all.len() && all[k] == index;
            if k < rest.len() {
                assert(rest[k] == index);
            }
        }
        if all.len() > rest.len() {
            assert(all[rest.len() as int] == count - 1);
        }
    }
}

/// The DIDs that are reported as indexed are those that are asked for and
/// indexed, package by package.
pub proof fn law_indexed_dids_are_reported(
    packages: Seq<ResourcePackage>,
    more: Seq<ResourcePackage>,
    wanted: Seq<Seq<char>>,
    did: Seq<char>,
)
    ensures
        indexed_among(packages, wanted).contains(did) <==> wanted.contains(did) && dids_of(
            packages,
        ).contains(did),
        indexed_among(packages + more, wanted) == indexed_among(packages, wanted) + indexed_among(
            more,
            wanted,
        ),
    decreases more.len(),
{
    lemma_which_are_reported(packages, wanted, did);
    if more.len() == 0 {
        assert(packages + more =~= packages);
        assert(indexed_among(packages + more, wanted) =~= indexed_among(packages, wanted)
            + indexed_among(more, wanted));
    } else {
        law_indexed_dids_are_reported(packages, more.drop_last(), wanted, did);
        assert((packages + more).drop_last() =~= packages + more.drop_last());
        assert((packages + more).last() == more.last());
        assert(indexed_among(packages + more, wanted) =~= indexed_among(packages, wanted)
            + indexed_among(more, wanted));
    }
}

/// Which DIDs are reported as indexed.
proof fn lemma_which_are_reported(
    packages: Seq<ResourcePackage>,
    wanted: Seq<Seq<char>>,
    did: Seq<char>,
)
    ensures
        indexed_among(packages, wanted).contains(did) <==> wanted.contains(did) && dids_of(
            packages,
        ).contains(did),
    decreases packages.len(),
{
    if packages.len() > 0 {
        let front = packages.drop_last();
        lemma_which_are_reported(front, wanted, did);
        let rest = indexed_among(front, wanted);
        let all = indexed_among(packages, wanted);
        let n = packages.len() - 1;
        assert(dids_of(packages)[n] == packages.last().resource_did@);
        if rest.contains(did) {
            let k = choose|k: int| 0 <= k < rest.len() && rest[k] == did;
            assert(all[k] == did);
        }
        if dids_of(front).contains(did) {
            let k = choose|k: int| 0 <= k < dids_of(front).len() && dids_of(front)[k] == did;
            assert(dids_of(packages)[k] == did);
        }
        if dids_of(packages).contains(did) {
            let k = choose|k: int| 0 <= k < dids_of(packages).len() && dids_of(packages)[k] == did;
            if k < n {
                assert(dids_of(front)[k] == did);
            }
        }
        if all.contains(did) {
            let k = choose|k: int| 0 <= k < all.len() && all[k] == did;
            if k < rest.len() {
                assert(rest[k] == did);
            }
        }
        if all.len() > rest.len() {
            assert(all[rest.len() as int] == packages.last().resource_did@);
        }
    }
}

/// Each name that occurs is counted, once, under its own name, in ascending
/// order, and nothing else is.
pub proof fn law_every_name_is_counted(
    counts: Seq<NameCount>,
    names: Seq<Seq<char>>,
    i: int,
    j: int,
    k: int,
)
    requires
        counts_names(counts, names),
    ensures
        0 <= i < counts.len() ==> names.contains(counts[i].name@) && counts[i].count == occurrences(
            names,
            counts[i].name@,
        ),
        0 <= i < j < counts.len() ==> text_less(counts[i].name@, counts[j].name@),
        0 <= k < names.len() ==> exists|m: int|
            0 <= m < counts.len() && (#[trigger] counts[m]).name@ == names[k],
{
    let sorted = sorted_set(names);
    law_sorted_texts_are_the_different_ones(names);
    if 0 <= i < counts.len() {
        assert(counts[i].name@ == sorted[i]);
        assert(sorted.contains(sorted[i]));
    }
    if 0 <= i < j < counts.len() {
        assert(counts[j].name@ == sorted[j]);
    }
    if 0 <= k < names.len() {
        assert(names.contains(names[k]));
        assert(sorted.contains(names[k]));
        let m = choose|m: int| 0 <= m < sorted.len() && sorted[m] == names[k];
        assert(counts[m].name@ == names[k]);
    }
}

/// The names that are counted are those of the packages' types, one for each,
/// and all of their tags, package by package.
pub proof fn law_types_and_tags_are_counted(
    packages: Seq<ResourcePackage>,
    more: Seq<ResourcePackage>,
    package: ResourcePackage,
)
    ensures
        type_names(packages + more) == type_names(packages) + type_names(more),
        type_names(seq![package]) == seq![resource_type_name(package.resource_type)],
        all_tags(Seq::empty()) == Seq::<Seq<char>>::empty(),
        all_tags(packages + more) == all_tags(packages) + all_tags(more),
        all_tags(seq![package]) == texts(package.metadata.capability_tags@),
    decreases more.len(),
{
    reveal_with_fuel(all_tags, 2);
    assert(type_names(packages + more) =~= type_names(packages) + type_names(more));
    assert(type_names(seq![package]) =~= seq![resource_type_name(package.resource_type)]);
    assert(seq![package].drop_last() =~= Seq::<ResourcePackage>::empty());
    assert(all_tags(seq![package]) =~= texts(package.metadata.capability_tags@));
    if more.len() == 0 {
        assert(packages + more =~= packages);
        assert(all_tags(packages + more) =~= all_tags(packages) + all_tags(more));
    } else {
        law_types_and_tags_are_counted(packages, more.drop_last(), package);
        assert((packages + more).drop_last() =~= packages + more.drop_last());
        assert((packages + more).last() == more.last());
        assert(all_tags(packages + more) =~= all_tags(packages) + all_tags(more));
    }
}

} // verus!
