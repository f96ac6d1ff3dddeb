//! Rebuilding the semantic indexes: which packages are embedded, in which
//! batches, what happens when a batch fails, and what is reported.

use vstd::prelude::*;

use crate::config::{stage_name, SemanticRebuildStage};
use crate::document::SearchDocument;
use crate::ordering::indices;
use crate::package::{is_user_consumable_resource_type, user_consumable, ResourcePackage};
use crate::provider::{is_embedding_timeout_error, says_timeout};
use crate::results::{dids_of, is_last_place, last_place_of_did};
use crate::text::{optional_text, same_text};

verus! {

/// Whether a package has a place in the semantic indexes: it is active, and
/// users can consume it.
pub open spec fn is_embedded(package: ResourcePackage) -> bool {
    package.metadata.lifecycle_state@ == "active"@ && user_consumable(package.resource_type)
}

/// The indices of the first `count` packages that have a place in the semantic
/// indexes.
pub open spec fn embedded_indices(packages: Seq<ResourcePackage>, count: int) -> Seq<int>
    decreases count,
{
    if count <= 0 {
        Seq::empty()
    } else {
        let rest = embedded_indices(packages, count - 1);
        if is_embedded(packages[count - 1]) {
            rest.push(count - 1)
        } else {
            rest
        }
    }
}

/// A package that is embedded: its index, and its cursor, which counts the
/// packages from one.
#[derive(Clone, Copy, Debug, PartialEq, Eq, Structural)]
pub struct EmbeddedPackage {
    pub index: usize,
    pub cursor: i64,
}

/// The packages that a rebuild embeds.
pub fn packages_to_embed(packages: &Vec<ResourcePackage>) -> (embedded: Vec<EmbeddedPackage>)
    requires
        packages@.len() < i64::MAX,
    ensures
        embedded@.len() == embedded_indices(packages@, packages@.len() as int).len(),
        forall|k: int|
            0 <= k < embedded@.len() ==> (#[trigger] embedded@[k]).index == embedded_indices(
                packages@,
                packages@.len() as int,
            )[k] && embedded@[k].cursor == embedded@[k].index + 1,
{
    let mut embedded: Vec<EmbeddedPackage> = Vec::new();
    let mut i: usize = 0;
    while i < packages.len()
        invariant
            i <= packages@.len(),
            packages@.len() < i64::MAX,
            embedded@.len() == embedded_indices(packages@, i as int).len(),
            forall|k: int|
                0 <= k < embedded@.len() ==> (#[trigger] embedded@[k]).index == embedded_indices(
                    packages@,
                    i as int,
                )[k] && embedded@[k].cursor == embedded@[k].index + 1,
        decreases packages@.len() - i,
    {
        if same_text(&packages[i].metadata.lifecycle_state, "active")
            && is_user_consumable_resource_type(&packages[i].resource_type) {
            embedded.push(EmbeddedPackage { index: i, cursor: i as i64 + 1 });
        }
        i = i + 1;
    }
    embedded
}

/// The state of a rebuild.
#[derive(Clone, Copy, Debug, PartialEq, Eq, Structural)]
pub struct RebuildRun {
    /// How many packages there are.
    pub total: usize,
    /// How many of them are done with.
    pub index: usize,
    pub batch_size: usize,
    /// How many packages could not be embedded and still need attention.
    pub skipped_packages: usize,
    /// How often a batch was tried again with a smaller size.
    pub retries: usize,
    pub last_cursor: Option<i64>,
}

/// Whether the state of a rebuild is a possible one.
pub open spec fn is_run(run: RebuildRun) -> bool {
    &&& run.index <= run.total
    &&& run.batch_size >= 1
    &&& run.skipped_packages + (run.total - run.index) <= usize::MAX
    &&& run.retries + run.batch_size <= usize::MAX
}

/// The place after that of the cursor where a rebuild stopped; the start where
/// it did not.
pub open spec fn resume_place(cursors: Seq<i64>, last_cursor: Option<i64>, from: int) -> int
    decreases cursors.len() - from,
{
    if from < 0 || from >= cursors.len() {
        0
    } else if Some(cursors[from]) == last_cursor {
        from + 1
    } else {
        resume_place(cursors, last_cursor, from + 1)
    }
}

/// How many of `recorded` cursors are not among those that are still to come.
pub open spec fn passed_over(recorded: Seq<i64>, to_come: Seq<i64>) -> nat
    decreases recorded.len(),
{
    if recorded.len() == 0 {
        0
    } else {
        passed_over(recorded.drop_last(), to_come) + if to_come.contains(recorded.last()) {
            0nat
        } else {
            1
        }
    }
}

/// The state in which a rebuild starts.
pub open spec fn started(
    run: RebuildRun,
    cursors: Seq<i64>,
    last_cursor: Option<i64>,
    batch_size: usize,
    recorded: Seq<i64>,
) -> bool {
    let place = resume_place(cursors, last_cursor, 0);
    &&& run.total == cursors.len()
    &&& run.index == place
    &&& run.batch_size == if batch_size < 1 {
        1
    } else {
        batch_size
    }
    &&& run.skipped_packages == if place > 0 {
        passed_over(recorded, cursors.skip(place))
    } else {
        0
    }
    &&& run.retries == 0
    &&& run.last_cursor is None
}

/// The place after that of the cursor where a rebuild stopped.
fn find_resume_place(cursors: &Vec<i64>, last_cursor: Option<i64>) -> (place: usize)
    ensures
        place == resume_place(cursors@, last_cursor, 0),
        place <= cursors@.len(),
{
    let mut i: usize = 0;
    while i < cursors.len()
        invariant
            i <= cursors@.len(),
            resume_place(cursors@, last_cursor, 0) == resume_place(
                cursors@,
                last_cursor,
                i as int,
            ),
        decreases cursors@.len() - i,
    {
        if let Some(cursor) = last_cursor {
            if cursors[i] == cursor {
                return i + 1;
            }
        }
        i = i + 1;
    }
    0
}

/// How many of the recorded cursors are not among those from `place` on.
fn count_passed_over(recorded: &Vec<i64>, cursors: &Vec<i64>, place: usize) -> (count: usize)
    requires
        place <= cursors@.len(),
    ensures
        count == passed_over(recorded@, cursors@.skip(place as int)),
        count <= recorded@.len(),
{
    let ghost to_come = cursors@.skip(place as int);
    let mut count: usize = 0;
    let mut i: usize = 0;
    while i < recorded.len()
        invariant
            i <= recorded@.len(),
            place <= cursors@.len(),
            to_come == cursors@.skip(place as int),
            count <= i,
            count == passed_over(recorded@.take(i as int), to_come),
        decreases recorded@.len() - i,
    {
        assert(recorded@.take(i as int + 1).drop_last() =~= recorded@.take(i as int));
        let mut found = false;
        let mut k: usize = place;
        while k < cursors.len()
            invariant
                place <= k <= cursors@.len(),
                i < recorded@.len(),
                to_come == cursors@.skip(place as int),
                found ==> to_come.contains(recorded@[i as int]),
                !found ==> forall|j: int|
                    0 <= j < k - place ==> #[trigger] to_come[j] != recorded@[i as int],
            decreases cursors@.len() - k,
        {
            if cursors[k] == recorded[i] {
                assert(to_come[k - place] == recorded@[i as int]);
                found = true;
            }
            k = k + 1;
        }
        if !found {
            assert(!to_come.contains(recorded@[i as int]));
            count = count + 1;
        }
        i = i + 1;
    }
    assert(recorded@.take(i as int) =~= recorded@);
    count
}

/// Starts a rebuild of the packages with those cursors, or takes one up again
/// after the cursor where it stopped. `recorded` holds the cursors of packages
/// that an earlier run skipped: those that this run does not try again still
/// need attention.
pub fn start_rebuild(
    cursors: &Vec<i64>,
    last_cursor: Option<i64>,
    batch_size: usize,
    recorded: &Vec<i64>,
) -> (run: RebuildRun)
    requires
        recorded@.len() + cursors@.len() <= usize::MAX,
    ensures
        started(run, cursors@, last_cursor, batch_size, recorded@),
        is_run(run),
{
    let index: usize = find_resume_place(cursors, last_cursor);
    let skipped_packages: usize = if index > 0 {
        count_passed_over(recorded, cursors, index)
    } else {
        0
    };
    RebuildRun {
        total: cursors.len(),
        index,
        batch_size: if batch_size < 1 {
            1
        } else {
            batch_size
        },
        skipped_packages,
        retries: 0,
        last_cursor: None,
    }
}

/// Whether a rebuild starts afresh: what earlier runs stored, their progress
/// and their records of skipped packages are cleared before it.
pub fn starts_afresh(run: &RebuildRun) -> (afresh: bool)
    ensures
        afresh <==> run.index == 0,
{
    run.index == 0
}

/// Those of the recorded cursors that are among some others.
pub open spec fn recorded_among(recorded: Seq<i64>, others: Seq<i64>) -> Seq<i64>
    decreases recorded.len(),
{
    if recorded.len() == 0 {
        Seq::empty()
    } else {
        let rest = recorded_among(recorded.drop_last(), others);
        if others.contains(recorded.last()) {
            rest.push(recorded.last())
        } else {
            rest
        }
    }
}

/// The recorded cursors that a stored batch resolves: those of its packages.
pub fn resolved_by_batch(recorded: &Vec<i64>, cursors: &Vec<i64>, from: usize, to: usize) -> (
    resolved: Vec<i64>)
    requires
        from <= to <= cursors@.len(),
    ensures
        resolved@ == recorded_among(recorded@, cursors@.subrange(from as int, to as int)),
{
    let ghost batch = cursors@.subrange(from as int, to as int);
    let mut resolved: Vec<i64> = Vec::new();
    let mut i: usize = 0;
    assert(recorded@.take(0) =~= Seq::empty());
    while i < recorded.len()
        invariant
            i <= recorded@.len(),
            from <= to <= cursors@.len(),
            batch == cursors@.subrange(from as int, to as int),
            resolved@ == recorded_among(recorded@.take(i as int), batch),
        decreases recorded@.len() - i,
    {
        assert(recorded@.take(i as int + 1).drop_last() =~= recorded@.take(i as int));
        let mut found = false;
        let mut k: usize = from;
        while k < to
            invariant
                from <= k <= to <= cursors@.len(),
                i < recorded@.len(),
                batch == cursors@.subrange(from as int, to as int),
                found ==> batch.contains(recorded@[i as int]),
                !found ==> forall|j: int|
                    0 <= j < k - from ==> #[trigger] batch[j] != recorded@[i as int],
            decreases to - k,
        {
            if cursors[k] == recorded[i] {
                assert(batch[k - from] == recorded@[i as int]);
                found = true;
            }
            k = k + 1;
        }
        if found {
            resolved.push(recorded[i]);
        } else {
            assert(!batch.contains(recorded@[i as int]));
        }
        i = i + 1;
    }
    assert(recorded@.take(i as int) =~= recorded@);
    resolved
}

/// Where the next batch ends.
pub open spec fn batch_end(run: RebuildRun) -> int {
    if run.index + run.batch_size < run.total {
        run.index + run.batch_size
    } else {
        run.total as int
    }
}

/// The next batch: where it starts and where it ends; none where the rebuild
/// is done.
pub fn next_batch(run: &RebuildRun) -> (batch: Option<(usize, usize)>)
    requires
        is_run(*run),
    ensures
        batch is Some <==> run.index < run.total,
        batch matches Some(bounds) ==> bounds.0 == run.index && bounds.1 == batch_end(*run)
            && bounds.0 < bounds.1 <= run.total,
{
    if run.index < run.total {
        let left: usize = run.total - run.index;
        if run.batch_size < left {
            Some((run.index, run.index + run.batch_size))
        } else {
            Some((run.index, run.total))
        }
    } else {
        None
    }
}

/// What became of a batch.
#[derive(Debug)]
pub enum BatchOutcome {
    Stored,
    Failed(String),
}

/// What is to be recorded after a batch.
#[derive(Debug)]
pub enum RebuildAction {
    /// The progress, in the phase of a run that goes on.
    RecordProgress,
    /// The progress, in the phase of a run that slows down.
    RecordThrottle,
    /// The skipped packages from one index up to another with the reason,
    /// then the progress.
    RecordSkips(usize, usize),
}

/// Whether a batch that failed is tried again with a smaller size: it took too
/// long, and is larger than one.
pub open spec fn is_throttled(run: RebuildRun, outcome: BatchOutcome) -> bool {
    outcome matches BatchOutcome::Failed(error) && says_timeout(error@) && run.batch_size > 1
}

/// The state of a rebuild after a batch.
pub open spec fn after(run: RebuildRun, cursors: Seq<i64>, outcome: BatchOutcome) -> RebuildRun {
    let end = batch_end(run);
    if is_throttled(run, outcome) {
        RebuildRun {
            retries: (run.retries + 1) as usize,
            batch_size: (run.batch_size / 2) as usize,
            ..run
        }
    } else if outcome is Stored {
        RebuildRun { index: end as usize, last_cursor: Some(cursors[end - 1]), ..run }
    } else {
        RebuildRun {
            index: end as usize,
            skipped_packages: (run.skipped_packages + (end - run.index)) as usize,
            last_cursor: Some(cursors[run.index as int]),
            ..run
        }
    }
}

/// Goes on after a batch: a stored one is done with; one that took too long is
/// tried again at half its size; any other failure skips the batch, and every
/// package of it is recorded and counted.
pub fn after_batch(run: &mut RebuildRun, cursors: &Vec<i64>, outcome: &BatchOutcome) -> (action:
    RebuildAction)
    requires
        is_run(*old(run)),
        old(run).total == cursors@.len(),
        old(run).index < old(run).total,
    ensures
        is_run(*final(run)),
        *final(run) == after(*old(run), cursors@, *outcome),
        match action {
            RebuildAction::RecordProgress => *outcome is Stored,
            RebuildAction::RecordThrottle => is_throttled(*old(run), *outcome),
            RebuildAction::RecordSkips(from, to) => *outcome is Failed && !is_throttled(
                *old(run),
                *outcome,
            ) && from == old(run).index && to == batch_end(*old(run)),
        },
{
    let from: usize = run.index;
    let left: usize = run.total - from;
    let to: usize = if run.batch_size < left {
        from + run.batch_size
    } else {
        run.total
    };
    match outcome {
        BatchOutcome::Stored => {
            run.index = to;
            run.last_cursor = Some(cursors[to - 1]);
            RebuildAction::RecordProgress
        },
        BatchOutcome::Failed(error) => {
            if is_embedding_timeout_error(error) && run.batch_size > 1 {
                run.retries = run.retries + 1;
                run.batch_size = run.batch_size / 2;
                RebuildAction::RecordThrottle
            } else {
                run.index = to;
                run.skipped_packages = run.skipped_packages + (to - from);
                run.last_cursor = Some(cursors[from]);
                RebuildAction::RecordSkips(from, to)
            }
        },
    }
}

/// Each batch brings a rebuild closer to its end: packages are done with, or
/// the batches become smaller.
pub proof fn law_every_batch_makes_progress(
    run: RebuildRun,
    cursors: Seq<i64>,
    outcome: BatchOutcome,
)
    requires
        is_run(run),
        run.index < run.total,
    ensures
        ({
            let next = after(run, cursors, outcome);
            &&& next.total == run.total
            &&& run.index <= next.index <= next.total
            &&& run.index < next.index || (run.index == next.index && 1 <= next.batch_size
                < run.batch_size)
        }),
{
}

/// The state of a rebuild after a number of batches.
pub open spec fn after_all(
    run: RebuildRun,
    cursors: Seq<i64>,
    outcomes: Seq<BatchOutcome>,
) -> RebuildRun
    decreases outcomes.len(),
{
    if outcomes.len() == 0 {
        run
    } else {
        let before = after_all(run, cursors, outcomes.drop_last());
        if before.index < before.total {
            after(before, cursors, outcomes.last())
        } else {
            before
        }
    }
}

/// How many packages those batches stored.
pub open spec fn stored_by(
    run: RebuildRun,
    cursors: Seq<i64>,
    outcomes: Seq<BatchOutcome>,
) -> int
    decreases outcomes.len(),
{
    if outcomes.len() == 0 {
        0
    } else {
        let before = after_all(run, cursors, outcomes.drop_last());
        stored_by(run, cursors, outcomes.drop_last()) + if before.index < before.total
            && outcomes.last() is Stored {
            batch_end(before) - before.index
        } else {
            0
        }
    }
}

/// No package is lost: every package that a rebuild is done with was stored,
/// or is counted as skipped.
pub proof fn law_every_package_is_stored_or_skipped(
    run: RebuildRun,
    cursors: Seq<i64>,
    outcomes: Seq<BatchOutcome>,
)
    requires
        is_run(run),
        run.total == cursors.len(),
    ensures
        ({
            let end = after_all(run, cursors, outcomes);
            &&& is_run(end)
            &&& end.total == run.total
            &&& stored_by(run, cursors, outcomes) + (end.skipped_packages - run.skipped_packages)
                == end.index - run.index
            &&& end.skipped_packages >= run.skipped_packages
        }),
    decreases outcomes.len(),
{
    if outcomes.len() > 0 {
        law_every_package_is_stored_or_skipped(run, cursors, outcomes.drop_last());
    }
}

/// A record of a rebuild's progress.
#[derive(Debug)]
pub struct SemanticRebuildProgressRecord {
    pub stage: String,
    pub phase: String,
    pub last_cursor: Option<i64>,
    pub processed: usize,
    pub total: usize,
    pub skipped_packages: usize,
    pub retries: usize,
    pub batch_size: usize,
}

/// The record of a rebuild's progress in a phase.
pub fn progress_record(run: &RebuildRun, stage: SemanticRebuildStage, phase: &str) -> (record:
    SemanticRebuildProgressRecord)
    ensures
        record.stage@ == stage_name(stage),
        record.phase@ == phase@,
        record.last_cursor == run.last_cursor,
        record.processed == run.index,
        record.total == run.total,
        record.skipped_packages == run.skipped_packages,
        record.retries == run.retries,
        record.batch_size == run.batch_size,
{
    SemanticRebuildProgressRecord {
        stage: stage.as_str().to_owned(),
        phase: phase.to_owned(),
        last_cursor: run.last_cursor,
        processed: run.index,
        total: run.total,
        skipped_packages: run.skipped_packages,
        retries: run.retries,
        batch_size: run.batch_size,
    }
}

/// The phase that is recorded with an action.
pub open spec fn phase_of(action: RebuildAction) -> Seq<char> {
    match action {
        RebuildAction::RecordProgress => "running"@,
        RebuildAction::RecordThrottle => "throttled"@,
        RebuildAction::RecordSkips(_, _) => "skip"@,
    }
}

impl RebuildAction {
    /// The phase that is recorded with the action.
    pub fn phase(&self) -> (phase: &'static str)
        ensures
            phase@ == phase_of(*self),
    {
        match self {
            RebuildAction::RecordProgress => "running",
            RebuildAction::RecordThrottle => "throttled",
            RebuildAction::RecordSkips(_, _) => "skip",
        }
    }
}

/// What is reported of a rebuild.
#[derive(Debug)]
pub struct SemanticRebuildReport {
    pub stage: String,
    pub phase: String,
    pub backend: String,
    pub semantic_enabled: bool,
    pub package_count: usize,
    pub context_indexed_count: usize,
    pub intent_indexed_count: usize,
    pub skipped_packages: usize,
    pub recovered_packages: usize,
    pub retries: usize,
    pub last_cursor: Option<i64>,
    pub safe_to_delete_old_indexes: bool,
    pub skipped_reason: Option<String>,
}

/// How many rows the semantic indexes have; nothing where they were not
/// counted.
#[derive(Clone, Copy, Debug, PartialEq, Eq, Structural)]
pub struct IndexedRows {
    pub contexts: Option<usize>,
    pub intents: Option<usize>,
}

/// A number, or zero where there is none.
pub open spec fn or_zero(value: Option<usize>) -> usize {
    match value {
        Some(number) => number,
        None => 0,
    }
}

/// A number, or zero where there is none.
fn number_or_zero(value: Option<usize>) -> (number: usize)
    ensures
        number == or_zero(value),
{
    match value {
        Some(number) => number,
        None => 0,
    }
}

/// The phase in which a rebuild ends.
pub open spec fn final_phase(run: RebuildRun) -> Seq<char> {
    if run.skipped_packages == 0 {
        "completed"@
    } else {
        "completed-with-skips"@
    }
}

/// The phase in which a rebuild ends.
pub fn final_rebuild_phase(run: &RebuildRun) -> (phase: &'static str)
    ensures
        phase@ == final_phase(*run),
{
    if run.skipped_packages == 0 {
        "completed"
    } else {
        "completed-with-skips"
    }
}

/// What is reported where semantic search cannot be used: nothing was done.
pub fn unavailable_report(
    stage: SemanticRebuildStage,
    backend: &str,
    fallback_reason: &Option<String>,
) -> (report: SemanticRebuildReport)
    ensures
        report.stage@ == stage_name(stage),
        report.phase@ == "skipped"@,
        report.backend@ == backend@,
        !report.semantic_enabled,
        report.package_count == 0,
        report.context_indexed_count == 0,
        report.intent_indexed_count == 0,
        report.skipped_packages == 0,
        report.recovered_packages == 0,
        report.retries == 0,
        report.last_cursor is None,
        !report.safe_to_delete_old_indexes,
        optional_text(report.skipped_reason) == optional_text(*fallback_reason),
{
    SemanticRebuildReport {
        stage: stage.as_str().to_owned(),
        phase: "skipped".to_owned(),
        backend: backend.to_owned(),
        semantic_enabled: false,
        package_count: 0,
        context_indexed_count: 0,
        intent_indexed_count: 0,
        skipped_packages: 0,
        recovered_packages: 0,
        retries: 0,
        last_cursor: None,
        safe_to_delete_old_indexes: false,
        skipped_reason: fallback_reason.clone(),
    }
}

/// What is reported of a rebuild that has come to its end. The old indexes can
/// be deleted only after both were rebuilt without a package that still needs
/// attention.
pub fn rebuild_report(
    run: &RebuildRun,
    stage: SemanticRebuildStage,
    backend: &str,
    rows: IndexedRows,
) -> (report: SemanticRebuildReport)
    requires
        run.index == run.total,
    ensures
        report.stage@ == stage_name(stage),
        report.phase@ == final_phase(*run),
        report.backend@ == backend@,
        report.semantic_enabled,
        report.package_count == run.total,
        report.context_indexed_count == or_zero(rows.contexts),
        report.intent_indexed_count == or_zero(rows.intents),
        report.skipped_packages == run.skipped_packages,
        report.recovered_packages == 0,
        report.retries == run.retries,
        report.last_cursor == run.last_cursor,
        report.safe_to_delete_old_indexes <==> run.skipped_packages == 0 && stage is Both,
        report.skipped_reason is None,
{
    SemanticRebuildReport {
        stage: stage.as_str().to_owned(),
        phase: final_rebuild_phase(run).to_owned(),
        backend: backend.to_owned(),
        semantic_enabled: true,
        package_count: run.total,
        context_indexed_count: number_or_zero(rows.contexts),
        intent_indexed_count: number_or_zero(rows.intents),
        skipped_packages: run.skipped_packages,
        recovered_packages: 0,
        retries: run.retries,
        last_cursor: run.last_cursor,
        safe_to_delete_old_indexes: run.skipped_packages == 0 && matches!(
            stage,
            SemanticRebuildStage::Both
        ),
        skipped_reason: None,
    }
}

/// A rebuild after which the old indexes can be deleted stored every package
/// that it set out to embed, and left none that an earlier run skipped.
pub proof fn law_deleting_old_indexes_is_safe(
    run: RebuildRun,
    cursors: Seq<i64>,
    outcomes: Seq<BatchOutcome>,
    stage: SemanticRebuildStage,
    report: SemanticRebuildReport,
)
    requires
        is_run(run),
        run.total == cursors.len(),
        after_all(run, cursors, outcomes).index == run.total,
        report.safe_to_delete_old_indexes <==> after_all(run, cursors, outcomes).skipped_packages
            == 0 && stage is Both,
        report.safe_to_delete_old_indexes,
    ensures
        stored_by(run, cursors, outcomes) == run.total - run.index,
        run.skipped_packages == 0,
        stage is Both,
{
    law_every_package_is_stored_or_skipped(run, cursors, outcomes);
}

/// The cursors of the packages that those batches skipped.
pub open spec fn skipped_cursors(
    run: RebuildRun,
    cursors: Seq<i64>,
    outcomes: Seq<BatchOutcome>,
) -> Seq<i64>
    decreases outcomes.len(),
{
    if outcomes.len() == 0 {
        Seq::empty()
    } else {
        let before = after_all(run, cursors, outcomes.drop_last());
        let rest = skipped_cursors(run, cursors, outcomes.drop_last());
        if before.index < before.total && outcomes.last() is Failed && !is_throttled(
            before,
            outcomes.last(),
        ) {
            rest + cursors.subrange(before.index as int, batch_end(before))
        } else {
            rest
        }
    }
}

/// Whether the package of a cursor still needs attention after a run: the run
/// skipped it, or an earlier one did and this one did not try it again.
pub open spec fn is_unresolved(
    run: RebuildRun,
    cursors: Seq<i64>,
    recorded: Seq<i64>,
    outcomes: Seq<BatchOutcome>,
    cursor: i64,
) -> bool {
    ||| skipped_cursors(run, cursors, outcomes).contains(cursor)
    ||| run.index > 0 && recorded.contains(cursor) && !cursors.skip(run.index as int).contains(
        cursor,
    )
}

/// What a run counts as skipped, and where it stopped.
proof fn lemma_run(run: RebuildRun, cursors: Seq<i64>, outcomes: Seq<BatchOutcome>)
    requires
        is_run(run),
        run.total == cursors.len(),
        run.last_cursor is None,
    ensures
        ({
            let end = after_all(run, cursors, outcomes);
            let skipped = skipped_cursors(run, cursors, outcomes);
            &&& is_run(end)
            &&& end.total == run.total
            &&& end.skipped_packages == run.skipped_packages + skipped.len()
            &&& run.index <= end.index
            &&& end.last_cursor is None ==> end.index == run.index && skipped.len() == 0
            &&& end.last_cursor matches Some(cursor) ==> run.index < end.index && (cursor
                == cursors[end.index - 1] || skipped.contains(cursor))
            &&& forall|k: int|
                0 <= k < skipped.len() ==> cursors.contains(#[trigger] skipped[k])
        }),
    decreases outcomes.len(),
{
    if outcomes.len() > 0 {
        lemma_run(run, cursors, outcomes.drop_last());
        let before = after_all(run, cursors, outcomes.drop_last());
        let rest = skipped_cursors(run, cursors, outcomes.drop_last());
        let skipped = skipped_cursors(run, cursors, outcomes);
        if before.index < before.total {
            let batch = cursors.subrange(before.index as int, batch_end(before));
            if outcomes.last() is Failed && !is_throttled(before, outcomes.last()) {
                assert(skipped == rest + batch);
                assert(skipped[rest.len() as int] == batch[0]);
                assert(batch[0] == cursors[before.index as int]);
                assert forall|k: int| 0 <= k < skipped.len() implies cursors.contains(
                    #[trigger] skipped[k],
                ) by {
                    if k < rest.len() {
                        assert(skipped[k] == rest[k]);
                    } else {
                        assert(skipped[k] == cursors[before.index + (k - rest.len())]);
                    }
                }
            }
        }
    }
}

/// A rebuild takes up after the cursor where another one stopped.
proof fn lemma_resume_place(cursors: Seq<i64>, place: int, from: int)
    requires
        cursors.no_duplicates(),
        0 <= from <= place < cursors.len(),
    ensures
        resume_place(cursors, Some(cursors[place]), from) == place + 1,
    decreases place - from,
{
    if from < place {
        assert(cursors[from] != cursors[place]);
        lemma_resume_place(cursors, place, from + 1);
    }
}

/// A rebuild that did not stop at a cursor is taken up from the start.
proof fn lemma_resume_place_of_none(cursors: Seq<i64>, from: int)
    ensures
        resume_place(cursors, None, from) == 0,
    decreases cursors.len() - from,
{
    if 0 <= from < cursors.len() {
        lemma_resume_place_of_none(cursors, from + 1);
    }
}

/// There is a recorded cursor that is not to come, where some are counted.
proof fn lemma_passed_over(recorded: Seq<i64>, to_come: Seq<i64>)
    ensures
        passed_over(recorded, to_come) > 0 <==> exists|cursor: i64| #[trigger]
            recorded.contains(cursor) && !to_come.contains(cursor),
    decreases recorded.len(),
{
    if recorded.len() > 0 {
        let rest = recorded.drop_last();
        lemma_passed_over(rest, to_come);
        assert(recorded[recorded.len() - 1] == recorded.last());
        assert(recorded.contains(recorded.last()));
        if passed_over(rest, to_come) > 0 {
            let cursor = choose|cursor: i64| #[trigger]
                rest.contains(cursor) && !to_come.contains(cursor);
            let k = choose|k: int| 0 <= k < rest.len() && rest[k] == cursor;
            assert(recorded[k] == cursor);
            assert(recorded.contains(cursor));
        }
        if exists|cursor: i64| #[trigger] recorded.contains(cursor) && !to_come.contains(cursor) {
            let cursor = choose|cursor: i64| #[trigger]
                recorded.contains(cursor) && !to_come.contains(cursor);
            let k = choose|k: int| 0 <= k < recorded.len() && recorded[k] == cursor;
            if k < rest.len() {
                assert(rest[k] == cursor);
                assert(rest.contains(cursor));
            }
        }
    }
}

/// A rebuild that has come to its end and reports that the old indexes can be
/// deleted leaves no package that still needs attention, of its own or of an
/// earlier run; and where none does, and both indexes were rebuilt, it reports
/// so.
pub proof fn law_safe_means_nothing_is_unresolved(
    run: RebuildRun,
    cursors: Seq<i64>,
    last_cursor: Option<i64>,
    batch_size: usize,
    recorded: Seq<i64>,
    outcomes: Seq<BatchOutcome>,
    stage: SemanticRebuildStage,
    report: SemanticRebuildReport,
)
    requires
        started(run, cursors, last_cursor, batch_size, recorded),
        is_run(run),
        after_all(run, cursors, outcomes).index == run.total,
        report.safe_to_delete_old_indexes <==> after_all(run, cursors, outcomes).skipped_packages
            == 0 && stage is Both,
    ensures
        report.safe_to_delete_old_indexes <==> stage is Both && forall|cursor: i64|
            !#[trigger] is_unresolved(run, cursors, recorded, outcomes, cursor),
{
    lemma_run(run, cursors, outcomes);
    let skipped = skipped_cursors(run, cursors, outcomes);
    let to_come = cursors.skip(run.index as int);
    lemma_passed_over(recorded, to_come);
    if skipped.len() > 0 {
        assert(skipped.contains(skipped[0]));
        assert(is_unresolved(run, cursors, recorded, outcomes, skipped[0]));
    }
    if run.skipped_packages > 0 {
        let cursor = choose|cursor: i64| #[trigger]
            recorded.contains(cursor) && !to_come.contains(cursor);
        assert(is_unresolved(run, cursors, recorded, outcomes, cursor));
    }
    if after_all(run, cursors, outcomes).skipped_packages == 0 {
        assert forall|cursor: i64| !#[trigger] is_unresolved(
            run,
            cursors,
            recorded,
            outcomes,
            cursor,
        ) by {
            if run.index > 0 && recorded.contains(cursor) && !to_come.contains(cursor) {
                assert(passed_over(recorded, to_come) > 0);
            }
        }
    }
}

/// The old indexes are not deleted while a package still needs attention,
/// though it was an earlier run that skipped it. That run ended with skipped
/// packages, and every one of them is still recorded. The next run takes up
/// where it stopped and never reports that the old indexes can be deleted;
/// only after a run that did not reach any package is everything rebuilt
/// afresh.
pub proof fn law_resumed_rebuild_is_not_safe(
    cursors: Seq<i64>,
    earlier_cursor: Option<i64>,
    earlier_batch_size: usize,
    earlier_recorded: Seq<i64>,
    earlier: RebuildRun,
    earlier_outcomes: Seq<BatchOutcome>,
    batch_size: usize,
    recorded: Seq<i64>,
    run: RebuildRun,
    outcomes: Seq<BatchOutcome>,
    stage: SemanticRebuildStage,
    report: SemanticRebuildReport,
)
    requires
        cursors.no_duplicates(),
        started(earlier, cursors, earlier_cursor, earlier_batch_size, earlier_recorded),
        is_run(earlier),
        after_all(earlier, cursors, earlier_outcomes).index == earlier.total,
        after_all(earlier, cursors, earlier_outcomes).skipped_packages > 0,
        forall|cursor: i64| #[trigger]
            is_unresolved(earlier, cursors, earlier_recorded, earlier_outcomes, cursor)
                ==> recorded.contains(cursor),
        started(
            run,
            cursors,
            after_all(earlier, cursors, earlier_outcomes).last_cursor,
            batch_size,
            recorded,
        ),
        is_run(run),
        after_all(run, cursors, outcomes).index == run.total,
        report.safe_to_delete_old_indexes <==> after_all(run, cursors, outcomes).skipped_packages
            == 0 && stage is Both,
    ensures
        run.index == 0 <==> after_all(earlier, cursors, earlier_outcomes).last_cursor is None,
        run.index > 0 ==> !report.safe_to_delete_old_indexes,
{
    let end = after_all(earlier, cursors, earlier_outcomes);
    let skipped = skipped_cursors(earlier, cursors, earlier_outcomes);
    lemma_run(earlier, cursors, earlier_outcomes);
    lemma_run(run, cursors, outcomes);
    lemma_resume_place_of_none(cursors, 0);
    if let Some(stopped) = end.last_cursor {
        let to_come = cursors.skip(run.index as int);
        if stopped == cursors[end.index - 1] {
            lemma_resume_place(cursors, end.index - 1, 0);
            assert(to_come.len() == 0);
            if skipped.len() > 0 {
                assert(skipped.contains(skipped[0]));
                assert(is_unresolved(
                    earlier,
                    cursors,
                    earlier_recorded,
                    earlier_outcomes,
                    skipped[0],
                ));
                assert(recorded.contains(skipped[0]) && !to_come.contains(skipped[0]));
            } else {
                let passed = cursors.skip(earlier.index as int);
                lemma_passed_over(earlier_recorded, passed);
                let cursor = choose|cursor: i64| #[trigger]
                    earlier_recorded.contains(cursor) && !passed.contains(cursor);
                assert(is_unresolved(
                    earlier,
                    cursors,
                    earlier_recorded,
                    earlier_outcomes,
                    cursor,
                ));
                assert(recorded.contains(cursor) && !to_come.contains(cursor));
            }
        } else {
            let k = choose|k: int| 0 <= k < skipped.len() && skipped[k] == stopped;
            assert(cursors.contains(skipped[k]));
            let place = choose|place: int| 0 <= place < cursors.len() && cursors[place] == stopped;
            lemma_resume_place(cursors, place, 0);
            assert(is_unresolved(
                earlier,
                cursors,
                earlier_recorded,
                earlier_outcomes,
                stopped,
            ));
            if to_come.contains(stopped) {
                let j = choose|j: int| 0 <= j < to_come.len() && to_come[j] == stopped;
                assert(cursors[place + 1 + j] == cursors[place]);
            }
            assert(recorded.contains(stopped) && !to_come.contains(stopped));
        }
        lemma_passed_over(recorded, to_come);
    }
}

/// The cursors of the packages that a rebuild embeds are all different.
pub proof fn law_embedded_cursors_are_different(
    packages: Seq<ResourcePackage>,
    embedded: Seq<EmbeddedPackage>,
)
    requires
        embedded.len() == embedded_indices(packages, packages.len() as int).len(),
        forall|k: int|
            0 <= k < embedded.len() ==> (#[trigger] embedded[k]).index == embedded_indices(
                packages,
                packages.len() as int,
            )[k] && embedded[k].cursor == embedded[k].index + 1,
    ensures
        forall|j: int, k: int|
            0 <= j < k < embedded.len() ==> (#[trigger] embedded[j]).cursor < (
            #[trigger] embedded[k]).cursor,
{
    lemma_embedded_indices(packages, packages.len() as int);
}

/// The indices of embedded packages ascend.
proof fn lemma_embedded_indices(packages: Seq<ResourcePackage>, count: int)
    ensures
        forall|k: int|
            0 <= k < embedded_indices(packages, count).len() ==> 0 <= #[trigger] embedded_indices(
                packages,
                count,
            )[k] < count,
        forall|j: int, k: int|
            0 <= j < k < embedded_indices(packages, count).len()
                ==> #[trigger] embedded_indices(packages, count)[j]
                < #[trigger] embedded_indices(packages, count)[k],
    decreases count,
{
    if count > 0 {
        lemma_embedded_indices(packages, count - 1);
        let rest = embedded_indices(packages, count - 1);
        let all = embedded_indices(packages, count);
        assert forall|k: int| 0 <= k < all.len() implies 0 <= #[trigger] all[k] < count by {
            if k < rest.len() {
                assert(all[k] == rest[k]);
            }
        }
        assert forall|j: int, k: int| 0 <= j < k < all.len() implies #[trigger] all[j]
            < #[trigger] all[k] by {
            assert(all[j] == rest[j]);
            if k < rest.len() {
                assert(all[k] == rest[k]);
            }
        }
    }
}

/// A record of a package that a rebuild skipped.
#[derive(Debug)]
pub struct SemanticRebuildSkipRecord {
    pub stage: String,
    pub resource_did: String,
    pub cursor: i64,
    pub reason: String,
    pub updated_at: String,
}

/// A skipped package that is tried again.
#[derive(Clone, Copy, Debug, PartialEq, Eq, Structural)]
pub struct SkipAttempt {
    /// Which record it is tried for.
    pub record: usize,
    /// Which package it is.
    pub package: usize,
    pub cursor: i64,
}

/// The records among the first `count` whose packages are indexed.
pub open spec fn found_records(
    records: Seq<SemanticRebuildSkipRecord>,
    dids: Seq<Seq<char>>,
    count: int,
) -> Seq<int>
    decreases count,
{
    if count <= 0 {
        Seq::empty()
    } else {
        let rest = found_records(records, dids, count - 1);
        if dids.contains(records[count - 1].resource_did@) {
            rest.push(count - 1)
        } else {
            rest
        }
    }
}

/// Whether `attempt` is the one for the record at `record`: the last indexed
/// package of its DID, with a cursor of one at least.
pub open spec fn is_attempt_for(
    attempt: SkipAttempt,
    records: Seq<SemanticRebuildSkipRecord>,
    dids: Seq<Seq<char>>,
    record: int,
) -> bool {
    &&& attempt.record == record
    &&& is_last_place(dids, records[record].resource_did@, Some(attempt.package))
    &&& attempt.cursor == if records[record].cursor < 1 {
        1
    } else {
        records[record].cursor
    }
}

/// Decides which skipped packages are tried again: those that are still
/// indexed.
pub fn plan_skip_backfill(
    records: &Vec<SemanticRebuildSkipRecord>,
    packages: &Vec<ResourcePackage>,
) -> (attempts: Vec<SkipAttempt>)
    ensures
        attempts@.len() == found_records(
            records@,
            dids_of(packages@),
            records@.len() as int,
        ).len(),
        forall|k: int|
            0 <= k < attempts@.len() ==> is_attempt_for(
                #[trigger] attempts@[k],
                records@,
                dids_of(packages@),
                found_records(records@, dids_of(packages@), records@.len() as int)[k],
            ),
        attempts@.len() <= records@.len(),
{
    let ghost dids = dids_of(packages@);
    let mut attempts: Vec<SkipAttempt> = Vec::new();
    let mut i: usize = 0;
    while i < records.len()
        invariant
            i <= records@.len(),
            dids == dids_of(packages@),
            attempts@.len() <= i,
            attempts@.len() == found_records(records@, dids, i as int).len(),
            forall|k: int|
                0 <= k < attempts@.len() ==> is_attempt_for(
                    #[trigger] attempts@[k],
                    records@,
                    dids,
                    found_records(records@, dids, i as int)[k],
                ),
        decreases records@.len() - i,
    {
        let place = last_place_of_did(packages, &records[i].resource_did);
        if let Some(package) = place {
            assert(dids[package as int] == records@[i as int].resource_did@);
            assert(dids.contains(records@[i as int].resource_did@));
            let cursor: i64 = if records[i].cursor < 1 {
                1
            } else {
                records[i].cursor
            };
            attempts.push(SkipAttempt { record: i, package, cursor });
        }
        i = i + 1;
    }
    attempts
}

/// How many of the attempts succeeded.
pub open spec fn successes(errors: Seq<Option<String>>) -> nat
    decreases errors.len(),
{
    if errors.len() == 0 {
        0
    } else {
        successes(errors.drop_last()) + if errors.last() is None {
            1nat
        } else {
            0
        }
    }
}

/// The cursor of the last attempt that succeeded.
pub open spec fn last_success(
    attempts: Seq<SkipAttempt>,
    errors: Seq<Option<String>>,
    count: int,
) -> Option<i64>
    decreases count,
{
    if count <= 0 {
        None
    } else if errors[count - 1] is None {
        Some(attempts[count - 1].cursor)
    } else {
        last_success(attempts, errors, count - 1)
    }
}

/// What is reported of the retry of skipped packages, given the error of each
/// attempt that failed. A record is resolved where its attempt succeeded; all
/// others still need attention.
pub fn skip_backfill_report(
    stage: SemanticRebuildStage,
    backend: &str,
    record_count: usize,
    attempts: &Vec<SkipAttempt>,
    errors: &Vec<Option<String>>,
    rows: IndexedRows,
) -> (report: SemanticRebuildReport)
    requires
        errors@.len() == attempts@.len(),
        attempts@.len() <= record_count,
    ensures
        report.stage@ == stage_name(stage),
        report.phase@ == if record_count == 0 {
            "completed"@
        } else {
            "backfilled"@
        },
        report.backend@ == backend@,
        report.semantic_enabled,
        report.package_count == successes(errors@),
        report.context_indexed_count == or_zero(rows.contexts),
        report.intent_indexed_count == or_zero(rows.intents),
        report.skipped_packages == record_count - successes(errors@),
        report.recovered_packages == successes(errors@),
        report.retries == errors@.len() - successes(errors@),
        report.last_cursor == last_success(attempts@, errors@, errors@.len() as int),
        report.safe_to_delete_old_indexes <==> successes(errors@) == record_count && stage is Both,
        report.skipped_reason is None,
{
    let mut recovered: usize = 0;
    let mut last_cursor: Option<i64> = None;
    let mut i: usize = 0;
    while i < errors.len()
        invariant
            i <= errors@.len(),
            errors@.len() == attempts@.len(),
            recovered <= i,
            recovered == successes(errors@.take(i as int)),
            last_cursor == last_success(attempts@, errors@, i as int),
        decreases errors@.len() - i,
    {
        assert(errors@.take(i as int + 1).drop_last() =~= errors@.take(i as int));
        if errors[i].is_none() {
            recovered = recovered + 1;
            last_cursor = Some(attempts[i].cursor);
        }
        i = i + 1;
    }
    assert(errors@.take(i as int) =~= errors@);
    let unresolved: usize = record_count - recovered;
    SemanticRebuildReport {
        stage: stage.as_str().to_owned(),
        phase: if record_count == 0 {
            "completed".to_owned()
        } else {
            "backfilled".to_owned()
        },
        backend: backend.to_owned(),
        semantic_enabled: true,
        package_count: recovered,
        context_indexed_count: number_or_zero(rows.contexts),
        intent_indexed_count: number_or_zero(rows.intents),
        skipped_packages: unresolved,
        recovered_packages: recovered,
        retries: errors.len() - recovered,
        last_cursor,
        safe_to_delete_old_indexes: unresolved == 0 && matches!(stage, SemanticRebuildStage::Both),
        skipped_reason: None,
    }
}

/// A DID and the hash of the text that was embedded for it.
#[derive(Debug)]
pub struct StoredHash {
    pub resource_did: String,
    pub hash: String,
}

/// The last stored hash of a DID, where there is one.
pub open spec fn stored_hash(stored: Seq<StoredHash>, did: Seq<char>) -> Option<Seq<char>>
    decreases stored.len(),
{
    if stored.len() == 0 {
        None
    } else if stored.last().resource_did@ == did {
        Some(stored.last().hash@)
    } else {
        stored_hash(stored.drop_last(), did)
    }
}

/// Whether a document must be embedded: its text is not the one that was.
pub open spec fn must_be_embedded(doc: SearchDocument, stored: Seq<StoredHash>) -> bool {
    stored_hash(stored, doc.resource_did@) != Some(doc.semantic_source_hash@)
}

/// The indices of the first `count` documents that must be embedded.
pub open spec fn changed_indices(
    docs: Seq<SearchDocument>,
    stored: Seq<StoredHash>,
    count: int,
) -> Seq<int>
    decreases count,
{
    if count <= 0 {
        Seq::empty()
    } else {
        let rest = changed_indices(docs, stored, count - 1);
        if must_be_embedded(docs[count - 1], stored) {
            rest.push(count - 1)
        } else {
            rest
        }
    }
}

/// Whether a document must be embedded.
fn document_must_be_embedded(doc: &SearchDocument, stored: &Vec<StoredHash>) -> (must: bool)
    ensures
        must == must_be_embedded(*doc, stored@),
{
    let mut end: usize = stored.len();
    assert(stored@.take(end as int) =~= stored@);
    while end > 0
        invariant
            end <= stored@.len(),
            stored_hash(stored@, doc.resource_did@) == stored_hash(
                stored@.take(end as int),
                doc.resource_did@,
            ),
        decreases end,
    {
        assert(stored@.take(end as int).drop_last() =~= stored@.take(end as int - 1));
        if stored[end - 1].resource_did == doc.resource_did {
            return stored[end - 1].hash != doc.semantic_source_hash;
        }
        end = end - 1;
    }
    true
}

/// The documents whose contexts are written in a stage, as indices: those that
/// changed, where the stage rebuilds contexts at all.
pub fn contexts_to_write(
    stage: SemanticRebuildStage,
    docs: &Vec<SearchDocument>,
    stored: &Vec<StoredHash>,
) -> (changed: Vec<usize>)
    ensures
        indices(changed@) == if stage is Both || stage is Context {
            changed_indices(docs@, stored@, docs@.len() as int)
        } else {
            Seq::empty()
        },
{
    let mut changed: Vec<usize> = Vec::new();
    assert(indices(changed@) =~= Seq::empty());
    if stage.includes_context() {
        let mut i: usize = 0;
        while i < docs.len()
            invariant
                i <= docs@.len(),
                indices(changed@) =~= changed_indices(docs@, stored@, i as int),
            decreases docs@.len() - i,
        {
            if document_must_be_embedded(&docs[i], stored) {
                let ghost before = changed@;
                changed.push(i);
                assert(indices(changed@) =~= indices(before).push(i as int));
            }
            i = i + 1;
        }
    }
    changed
}

/// Just the active packages of types that users can consume are embedded, in
/// their order.
pub proof fn law_active_consumable_packages_are_embedded(
    packages: Seq<ResourcePackage>,
    count: int,
    index: int,
)
    requires
        0 <= count <= packages.len(),
    ensures
        embedded_indices(packages, count).contains(index) <==> 0 <= index < count
            && packages[index].metadata.lifecycle_state@ == "active"@ && (
        packages[index].resource_type is AgentService || packages[index].resource_type is Skill
            || packages[index].resource_type is McpServer || packages[index].resource_type
            is ToolApi),
    decreases count,
{
    if count > 0 {
        law_active_consumable_packages_are_embedded(packages, count - 1, index);
        let rest = embedded_indices(packages, count - 1);
        let all = embedded_indices(packages, count);
        lemma_place_added(rest, all, count - 1, index);
    }
}

/// A list that stays or grows by one place at its end.
proof fn lemma_place_added(before: Seq<int>, after: Seq<int>, place: int, index: int)
    requires
        after == before || after == before.push(place),
    ensures
        after.contains(index) <==> before.contains(index) || (after == before.push(place) && index
            == place),
{
    if before.contains(index) {
        let k = choose|k: int| 0 <= k < before.len() && before[k] == index;
        assert(after[k] == index);
    }
    if after.contains(index) {
        let k = choose|k: int| 0 <= k < after.len() && after[k] == index;
        if k < before.len() {
            assert(before[k] == index);
        }
    }
    if after == before.push(place) {
        assert(after[before.len() as int] == place);
    }
}

/// A rebuild is taken up right after the first package with the cursor where it
/// stopped, and from the start where there is none.
pub proof fn law_rebuilds_go_on_after_the_last_cursor(
    cursors: Seq<i64>,
    last_cursor: Option<i64>,
    place: int,
)
    ensures
        0 <= resume_place(cursors, last_cursor, 0) <= cursors.len(),
        last_cursor is None ==> resume_place(cursors, last_cursor, 0) == 0,
        last_cursor matches Some(cursor) ==> {
            &&& !cursors.contains(cursor) ==> resume_place(cursors, last_cursor, 0) == 0
            &&& 0 <= place < cursors.len() && cursors[place] == cursor && !cursors.take(
                place,
            ).contains(cursor) ==> resume_place(cursors, last_cursor, 0) == place + 1
        },
{
    lemma_resume_from(cursors, last_cursor, place, 0);
    if let Some(cursor) = last_cursor {
        if 0 <= place < cursors.len() && !cursors.take(place).contains(cursor) {
            assert forall|k: int| 0 <= k < place implies #[trigger] cursors[k] != cursor by {
                assert(cursors.take(place)[k] == cursors[k]);
            }
        }
    }
}

/// Where a rebuild is taken up, looked for from a place on.
proof fn lemma_resume_from(cursors: Seq<i64>, last_cursor: Option<i64>, place: int, from: int)
    requires
        0 <= from,
    ensures
        0 <= resume_place(cursors, last_cursor, from) <= cursors.len(),
        last_cursor is None ==> resume_place(cursors, last_cursor, from) == 0,
        last_cursor matches Some(cursor) ==> {
            &&& !cursors.contains(cursor) ==> resume_place(cursors, last_cursor, from) == 0
            &&& from <= place < cursors.len() && cursors[place] == cursor && (forall|k: int|
                from <= k < place ==> #[trigger] cursors[k] != cursor) ==> resume_place(
                cursors,
                last_cursor,
                from,
            ) == place + 1
        },
    decreases cursors.len() - from,
{
    if from < cursors.len() {
        lemma_resume_from(cursors, last_cursor, place, from + 1);
        if Some(cursors[from]) == last_cursor {
            assert(cursors.contains(cursors[from]));
        }
    }
}

/// Recorded cursors that are not to come again are counted one by one.
pub proof fn law_passed_cursors_are_counted_one_by_one(
    first: Seq<i64>,
    second: Seq<i64>,
    to_come: Seq<i64>,
    cursor: i64,
)
    ensures
        passed_over(Seq::empty(), to_come) == 0,
        passed_over(first + second, to_come) == passed_over(first, to_come) + passed_over(
            second,
            to_come,
        ),
        to_come.contains(cursor) ==> passed_over(seq![cursor], to_come) == 0,
        !to_come.contains(cursor) ==> passed_over(seq![cursor], to_come) == 1,
    decreases second.len(),
{
    reveal_with_fuel(passed_over, 2);
    assert(seq![cursor].drop_last() =~= Seq::<i64>::empty());
    if second.len() == 0 {
        assert(first + second =~= first);
    } else {
        law_passed_cursors_are_counted_one_by_one(first, second.drop_last(), to_come, cursor);
        assert((first + second).drop_last() =~= first + second.drop_last());
        assert((first + second).last() == second.last());
    }
}

/// A rebuild starts with all packages ahead, or with those after the cursor where
/// it stopped; with the given batches, of one package at least; with no retries;
/// and with the recorded packages counted that it does not try again, none where
/// it starts afresh.
pub proof fn law_rebuilds_start_where_they_stopped(
    run: RebuildRun,
    cursors: Seq<i64>,
    last_cursor: Option<i64>,
    batch_size: usize,
    recorded: Seq<i64>,
)
    requires
        started(run, cursors, last_cursor, batch_size, recorded),
    ensures
        run.total == cursors.len(),
        last_cursor is None ==> run.index == 0 && run.skipped_packages == 0,
        run.index == 0 ==> run.skipped_packages == 0,
        run.index > 0 ==> last_cursor == Some(cursors[run.index - 1]),
        run.index > 0 && recorded.len() == 0 ==> run.skipped_packages == 0,
        batch_size >= 1 ==> run.batch_size == batch_size,
        run.batch_size >= 1,
        run.retries == 0 && run.last_cursor is None,
{
    law_rebuilds_go_on_after_the_last_cursor(cursors, last_cursor, 0);
    lemma_resume_place_follows_the_cursor(cursors, last_cursor, 0);
}

/// The cursor before the place where a rebuild is taken up is the one where it
/// stopped.
proof fn lemma_resume_place_follows_the_cursor(
    cursors: Seq<i64>,
    last_cursor: Option<i64>,
    from: int,
)
    requires
        0 <= from,
    ensures
        resume_place(cursors, last_cursor, from) > 0 ==> resume_place(cursors, last_cursor, from)
            <= cursors.len() && Some(cursors[resume_place(cursors, last_cursor, from) - 1])
            == last_cursor,
    decreases cursors.len() - from,
{
    if from < cursors.len() {
        lemma_resume_place_follows_the_cursor(cursors, last_cursor, from + 1);
    }
}

/// A batch resolves the recorded cursors of its own packages, and no others.
pub proof fn law_batches_resolve_their_own_records(
    recorded: Seq<i64>,
    others: Seq<i64>,
    cursor: i64,
)
    ensures
        recorded_among(recorded, others).contains(cursor) <==> recorded.contains(cursor)
            && others.contains(cursor),
        recorded_among(recorded, others).len() <= recorded.len(),
    decreases recorded.len(),
{
    if recorded.len() > 0 {
        let front = recorded.drop_last();
        law_batches_resolve_their_own_records(front, others, cursor);
        let rest = recorded_among(front, others);
        let all = recorded_among(recorded, others);
        assert(recorded[recorded.len() - 1] == recorded.last());
        if rest.contains(cursor) {
            let k = choose|k: int| 0 <= k < rest.len() && rest[k] == cursor;
            assert(all[k] == cursor);
        }
        if front.contains(cursor) {
            let k = choose|k: int| 0 <= k < front.len() && front[k] == cursor;
            assert(recorded[k] == cursor);
        }
        if recorded.contains(cursor) && !front.contains(cursor) {
            let k = choose|k: int| 0 <= k < recorded.len() && recorded[k] == cursor;
            if k < front.len() {
                assert(front[k] == cursor);
            }
            assert(cursor == recorded.last());
            if others.contains(cursor) {
                assert(all[all.len() - 1] == cursor);
            }
        }
        if all.contains(cursor) && !rest.contains(cursor) {
            let k = choose|k: int| 0 <= k < all.len() && all[k] == cursor;
            if k < rest.len() {
                assert(rest[k] == cursor);
            }
        }
    }
}

/// A stored batch takes a rebuild on by the size of a batch, or to its end, and
/// to the cursor of its last package; it changes nothing else.
pub proof fn law_stored_batches_are_done_with(run: RebuildRun, cursors: Seq<i64>)
    requires
        is_run(run),
        run.index < run.total,
        run.total == cursors.len(),
    ensures
        ({
            let next = after(run, cursors, BatchOutcome::Stored);
            &&& run.index + run.batch_size <= run.total ==> next.index == run.index + run.batch_size
            &&& run.index + run.batch_size > run.total ==> next.index == run.total
            &&& next.last_cursor == Some(cursors[next.index - 1])
            &&& next.batch_size == run.batch_size
            &&& next.skipped_packages == run.skipped_packages
            &&& next.retries == run.retries
            &&& next.total == run.total
        }),
{
}

/// A batch of several packages that took too long is tried again from the same
/// package at half its size; one of a single package, or one that failed
/// otherwise, is skipped whole, counted, and left at its first cursor.
pub proof fn law_failed_batches_are_halved_or_skipped(
    run: RebuildRun,
    cursors: Seq<i64>,
    error: String,
)
    requires
        is_run(run),
        run.index < run.total,
        run.total == cursors.len(),
    ensures
        ({
            let next = after(run, cursors, BatchOutcome::Failed(error));
            &&& next.total == run.total
            &&& says_timeout(error@) && run.batch_size > 1 ==> {
                &&& next.index == run.index
                &&& next.batch_size * 2 == run.batch_size || next.batch_size * 2 + 1
                    == run.batch_size
                &&& next.retries == run.retries + 1
                &&& next.skipped_packages == run.skipped_packages
                &&& next.last_cursor == run.last_cursor
            }
            &&& !says_timeout(error@) || run.batch_size == 1 ==> {
                &&& next.index > run.index
                &&& next.index == run.total || next.index == run.index + run.batch_size
                &&& next.skipped_packages - run.skipped_packages == next.index - run.index
                &&& next.last_cursor == Some(cursors[run.index as int])
                &&& next.batch_size == run.batch_size
                &&& next.retries == run.retries
            }
        }),
{
}

/// What is recorded names what happened, and a rebuild is called complete just
/// where no package needs attention.
pub proof fn law_phases_name_what_happened(run: RebuildRun, action: RebuildAction)
    ensures
        action is RecordProgress ==> phase_of(action) == "running"@,
        action is RecordThrottle ==> phase_of(action) == "throttled"@,
        action is RecordSkips ==> phase_of(action) == "skip"@,
        final_phase(run) == "completed"@ <==> run.skipped_packages == 0,
        run.skipped_packages > 0 ==> final_phase(run) == "completed-with-skips"@,
{
    reveal_strlit("completed");
    reveal_strlit("completed-with-skips");
    assert("completed"@.len() == 9);
    assert("completed-with-skips"@.len() == 20);
}

/// The records that are tried again are those whose package is indexed.
pub proof fn law_indexed_records_are_tried_again(
    records: Seq<SemanticRebuildSkipRecord>,
    dids: Seq<Seq<char>>,
    count: int,
    index: int,
)
    requires
        0 <= count <= records.len(),
    ensures
        found_records(records, dids, count).contains(index) <==> 0 <= index < count
            && dids.contains(records[index].resource_did@),
    decreases count,
{
    if count > 0 {
        law_indexed_records_are_tried_again(records, dids, count - 1, index);
        lemma_place_added(
            found_records(records, dids, count - 1),
            found_records(records, dids, count),
            count - 1,
            index,
        );
    }
}

/// A record is tried again with the last package of its DID, and with its own
/// cursor where that can be one.
pub proof fn law_attempts_take_the_last_package(
    attempt: SkipAttempt,
    records: Seq<SemanticRebuildSkipRecord>,
    dids: Seq<Seq<char>>,
    record: int,
)
    requires
        is_attempt_for(attempt, records, dids, record),
        0 <= record < records.len(),
    ensures
        attempt.record == record,
        attempt.package < dids.len(),
        dids[attempt.package as int] == records[record].resource_did@,
        forall|later: int|
            attempt.package < later < dids.len() ==> #[trigger] dids[later]
                != records[record].resource_did@,
        attempt.cursor >= 1,
        records[record].cursor >= 1 ==> attempt.cursor == records[record].cursor,
{
}

/// Successes are counted one by one.
pub proof fn law_successes_are_counted_one_by_one(
    first: Seq<Option<String>>,
    second: Seq<Option<String>>,
    error: Option<String>,
)
    ensures
        successes(Seq::empty()) == 0,
        successes(first + second) == successes(first) + successes(second),
        error is None ==> successes(seq![error]) == 1,
        error is Some ==> successes(seq![error]) == 0,
        successes(first) <= first.len(),
    decreases second.len(), first.len(),
{
    reveal_with_fuel(successes, 2);
    assert(seq![error].drop_last() =~= Seq::<Option<String>>::empty());
    lemma_successes_are_bounded(first);
    if second.len() == 0 {
        assert(first + second =~= first);
    } else {
        law_successes_are_counted_one_by_one(first, second.drop_last(), error);
        assert((first + second).drop_last() =~= first + second.drop_last());
        assert((first + second).last() == second.last());
    }
}

/// There are no more successes than attempts.
proof fn lemma_successes_are_bounded(errors: Seq<Option<String>>)
    ensures
        successes(errors) <= errors.len(),
    decreases errors.len(),
{
    if errors.len() > 0 {
        lemma_successes_are_bounded(errors.drop_last());
    }
}

/// The cursor that is reported is that of a success after which all attempts
/// failed; none is reported just where all did.
pub proof fn law_last_success_is_reported(
    attempts: Seq<SkipAttempt>,
    errors: Seq<Option<String>>,
    count: int,
    k: int,
)
    requires
        0 <= count <= errors.len(),
        attempts.len() == errors.len(),
    ensures
        0 <= k < count && errors[k] is None && (forall|later: int|
            k < later < count ==> (#[trigger] errors[later]) is Some) ==> last_success(
            attempts,
            errors,
            count,
        ) == Some(attempts[k].cursor),
        last_success(attempts, errors, count) is None <==> forall|i: int|
            0 <= i < count ==> (#[trigger] errors[i]) is Some,
    decreases count,
{
    if count > 0 {
        law_last_success_is_reported(attempts, errors, count - 1, k);
        assert(errors[count - 1] is None || errors[count - 1] is Some);
    }
}

/// The hash that counts for a DID is the last one stored for it.
pub proof fn law_last_stored_hash_counts(stored: Seq<StoredHash>, did: Seq<char>, k: int)
    ensures
        0 <= k < stored.len() && stored[k].resource_did@ == did && (forall|later: int|
            k < later < stored.len() ==> (#[trigger] stored[later]).resource_did@ != did)
            ==> stored_hash(stored, did) == Some(stored[k].hash@),
        (forall|i: int| 0 <= i < stored.len() ==> (#[trigger] stored[i]).resource_did@ != did)
            ==> stored_hash(stored, did) is None,
    decreases stored.len(),
{
    if stored.len() > 0 {
        let front = stored.drop_last();
        law_last_stored_hash_counts(front, did, k);
        assert(stored[stored.len() - 1] == stored.last());
        if 0 <= k < front.len() {
            assert(front[k] == stored[k]);
        }
        assert(forall|i: int| 0 <= i < front.len() ==> #[trigger] front[i] == stored[i]);
    }
}

/// A document is embedded again just where no hash is stored for its DID, or
/// another one than that of its text.
pub proof fn law_changed_documents_are_embedded(
    docs: Seq<SearchDocument>,
    stored: Seq<StoredHash>,
    count: int,
    index: int,
    k: int,
)
    requires
        0 <= count <= docs.len(),
        0 <= index < count,
    ensures
        (forall|i: int|
            0 <= i < stored.len() ==> (#[trigger] stored[i]).resource_did@
                != docs[index].resource_did@) ==> changed_indices(docs, stored, count).contains(
            index,
        ),
        0 <= k < stored.len() && stored[k].resource_did@ == docs[index].resource_did@ && (forall|
            later: int,
        |
            k < later < stored.len() ==> (#[trigger] stored[later]).resource_did@
                != docs[index].resource_did@) ==> (changed_indices(docs, stored, count).contains(
            index,
        ) <==> stored[k].hash@ != docs[index].semantic_source_hash@),
{
    law_last_stored_hash_counts(stored, docs[index].resource_did@, k);
    lemma_changed_indices(docs, stored, count, index);
}

/// Which documents are embedded again.
proof fn lemma_changed_indices(
    docs: Seq<SearchDocument>,
    stored: Seq<StoredHash>,
    count: int,
    index: int,
)
    requires
        0 <= count <= docs.len(),
    ensures
        changed_indices(docs, stored, count).contains(index) <==> 0 <= index < count
            && must_be_embedded(docs[index], stored),
    decreases count,
{
    if count > 0 {
        lemma_changed_indices(docs, stored, count - 1, index);
        lemma_place_added(
            changed_indices(docs, stored, count - 1),
            changed_indices(docs, stored, count),
            count - 1,
            index,
        );
    }
}

} // verus!
