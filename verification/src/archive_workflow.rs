//! Recoverable copy/archive and restore transitions.
//!
//! Each transition is a step function from the answers so far to the next step (load, deliver,
//! save, remove, ...): the steps come in a fixed order and stop at the first failure, so that a
//! failed step never loses annotations: nothing is archived before delivery succeeds, and
//! nothing active is removed before the archive is saved. The drivers that take the steps as
//! closures run these step functions and return the run they made: each step taken, and the
//! answers known before it.

use vstd::prelude::*;

use crate::format::{format_annotations, markdown};
use crate::store::{annotation_ids, ids_of, newest_first_annotations, StoreResult};
use crate::types::{
    annotation_views, duplicate_annotations, Annotation, AnnotationView, ArchiveView,
    ArchivedAnnotationSet,
};

verus! {

/// Dependencies for one copy-and-archive transition.
#[derive(Debug)]
pub struct CopyAndArchiveDependencies<Load, Deliver, Save, Remove, Id, Now> {
    pub load_active: Load,
    pub deliver: Deliver,
    pub save_archive: Save,
    pub remove_active: Remove,
    pub create_archive_id: Id,
    pub now: Now,
}

/// The manager transition produced by a copy-and-archive attempt.
#[derive(Debug, Clone, PartialEq, Eq)]
pub enum CopyAndArchiveOutcome {
    Close { archived_count: usize },
    StayOpen { message: String },
    ArchivedActiveRetained { message: String },
}

/// The outcome keeps the manager open with this message.
pub open spec fn stays_open(outcome: CopyAndArchiveOutcome, message: Seq<char>) -> bool {
    outcome matches CopyAndArchiveOutcome::StayOpen { message: m } && m@ == message
}

/// The outcome reports an archive whose annotations are still active, with this message.
pub open spec fn archived_but_retained(outcome: CopyAndArchiveOutcome, message: Seq<char>) -> bool {
    outcome matches CopyAndArchiveOutcome::ArchivedActiveRetained { message: m } && m@ == message
}

/// The text delivered for the active annotations: the Markdown export, newest first.
pub open spec fn delivered_text(active: Seq<AnnotationView>) -> Seq<char> {
    markdown(active.reverse())
}

/// Dependencies for one restore transition.
#[derive(Debug)]
pub struct RestoreArchiveDependencies<Merge, Remove> {
    pub merge_active: Merge,
    pub remove_archive: Remove,
}

/// What the steps of one copy-and-archive have answered so far.
pub struct ArchiveReplies {
    pub loaded: Option<StoreResult<Vec<Annotation>>>,
    pub delivered: Option<Result<(), String>>,
    pub archive_id: Option<String>,
    pub archived_at: Option<String>,
    pub saved: Option<StoreResult<()>>,
    pub removed: Option<StoreResult<()>>,
}

impl ArchiveReplies {
    /// No step has answered yet.
    pub fn new() -> (replies: Self)
        ensures
            replies.loaded is None,
            replies.delivered is None,
            replies.archive_id is None,
            replies.archived_at is None,
            replies.saved is None,
            replies.removed is None,
    {
        ArchiveReplies {
            loaded: None,
            delivered: None,
            archive_id: None,
            archived_at: None,
            saved: None,
            removed: None,
        }
    }
}

/// The next step of a copy-and-archive.
#[derive(Debug)]
pub enum ArchiveStep {
    /// Load the active annotations.
    Load,
    /// Deliver this Markdown text.
    Deliver(String),
    /// Name the archive.
    CreateArchiveId,
    /// Date the archive.
    Now,
    /// Save this archive.
    Save(ArchivedAnnotationSet),
    /// Remove these ids from the active store.
    RemoveActive(Vec<String>),
    /// Stop with this outcome.
    Finish(CopyAndArchiveOutcome),
}

/// The step `step` stops with an outcome that keeps the manager open with `message`.
pub open spec fn stops_open(step: ArchiveStep, message: Seq<char>) -> bool {
    step matches ArchiveStep::Finish(outcome) && stays_open(outcome, message)
}

/// The step a copy-and-archive takes next, given the answers so far. The steps come in the
/// order load, deliver, name, date, save, remove, and a failure stops at once: nothing is
/// delivered for a failed or empty load, nothing is archived before delivery succeeds, and
/// nothing active is removed before the archive is saved.
pub open spec fn archive_step_is(replies: ArchiveReplies, step: ArchiveStep) -> bool {
    match replies.loaded {
        None => step is Load,
        Some(Err(message)) => stops_open(step, message@),
        Some(Ok(active)) => if active@.len() == 0 {
            stops_open(step, "Nothing to copy and archive."@)
        } else {
            match replies.delivered {
                None => step matches ArchiveStep::Deliver(text) && text@ == delivered_text(
                    annotation_views(active@),
                ),
                Some(Err(message)) => stops_open(step, message@),
                Some(Ok(())) => match replies.archive_id {
                    None => step is CreateArchiveId,
                    Some(id) => match replies.archived_at {
                        None => step is Now,
                        Some(at) => match replies.saved {
                            None => step matches ArchiveStep::Save(archive) && archive@ == (
                            ArchiveView {
                                version: 1,
                                id: id@,
                                archived_at: at@,
                                annotations: annotation_views(active@),
                            }),
                            Some(Err(message)) => stops_open(step, message@),
                            Some(Ok(())) => match replies.removed {
                                None => step matches ArchiveStep::RemoveActive(ids) && ids@.map_values(
                                    |v: String| v@,
                                ) == ids_of(annotation_views(active@)),
                                Some(Err(message)) => step matches ArchiveStep::Finish(outcome)
                                    && archived_but_retained(outcome, message@),
                                Some(Ok(())) => step == ArchiveStep::Finish(
                                    CopyAndArchiveOutcome::Close { archived_count: active@.len() as usize },
                                ),
                            },
                        },
                    },
                },
            }
        },
    }
}

fn stop_open(message: &String) -> (step: ArchiveStep)
    ensures
        stops_open(step, message@),
{
    ArchiveStep::Finish(CopyAndArchiveOutcome::StayOpen { message: message.clone() })
}

/// Decide the next step of a copy-and-archive.
pub fn archive_step(replies: &ArchiveReplies) -> (step: ArchiveStep)
    ensures
        archive_step_is(*replies, step),
{
    let active = match &replies.loaded {
        None => {
            return ArchiveStep::Load;
        },
        Some(Err(message)) => {
            return stop_open(message);
        },
        Some(Ok(active)) => active,
    };
    if active.len() == 0 {
        return ArchiveStep::Finish(
            CopyAndArchiveOutcome::StayOpen { message: String::from_str("Nothing to copy and archive.") },
        );
    }
    match &replies.delivered {
        None => {
            let newest = newest_first_annotations(active.as_slice());
            return ArchiveStep::Deliver(format_annotations(newest.as_slice()));
        },
        Some(Err(message)) => {
            return stop_open(message);
        },
        Some(Ok(())) => {},
    }
    let id = match &replies.archive_id {
        None => {
            return ArchiveStep::CreateArchiveId;
        },
        Some(id) => id,
    };
    let at = match &replies.archived_at {
        None => {
            return ArchiveStep::Now;
        },
        Some(at) => at,
    };
    match &replies.saved {
        None => {
            let archive = ArchivedAnnotationSet {
                version: 1,
                id: id.clone(),
                archived_at: at.clone(),
                annotations: duplicate_annotations(active.as_slice()),
            };
            return ArchiveStep::Save(archive);
        },
        Some(Err(message)) => {
            return stop_open(message);
        },
        Some(Ok(())) => {},
    }
    match &replies.removed {
        None => ArchiveStep::RemoveActive(annotation_ids(active.as_slice())),
        Some(Err(message)) => ArchiveStep::Finish(
            CopyAndArchiveOutcome::ArchivedActiveRetained { message: message.clone() },
        ),
        Some(Ok(())) => ArchiveStep::Finish(CopyAndArchiveOutcome::Close { archived_count: active.len() }),
    }
}

/// Step `step` was one call, made with the step's argument, whose answer is the one that
/// `after` adds to `before`.
pub open spec fn archive_call_answered<Load, Deliver, Save, Remove, Id, Now>(
    dependencies: CopyAndArchiveDependencies<Load, Deliver, Save, Remove, Id, Now>,
    step: ArchiveStep,
    before: ArchiveReplies,
    after: ArchiveReplies,
) -> bool where
    Load: FnOnce() -> StoreResult<Vec<Annotation>>,
    Deliver: FnOnce(String) -> Result<(), String>,
    Save: FnOnce(ArchivedAnnotationSet) -> StoreResult<()>,
    Remove: FnOnce(Vec<String>) -> StoreResult<()>,
    Id: FnOnce() -> String,
    Now: FnOnce() -> String,
 {
    match step {
        ArchiveStep::Load => {
            &&& before.loaded is None
            &&& after == ArchiveReplies { loaded: after.loaded, ..before }
            &&& after.loaded matches Some(loaded) && call_ensures(dependencies.load_active, (), loaded)
        },
        ArchiveStep::Deliver(text) => {
            &&& before.delivered is None
            &&& after == ArchiveReplies { delivered: after.delivered, ..before }
            &&& after.delivered matches Some(delivered) && call_ensures(
                dependencies.deliver,
                (text,),
                delivered,
            )
        },
        ArchiveStep::CreateArchiveId => {
            &&& before.archive_id is None
            &&& after == ArchiveReplies { archive_id: after.archive_id, ..before }
            &&& after.archive_id matches Some(id) && call_ensures(dependencies.create_archive_id, (), id)
        },
        ArchiveStep::Now => {
            &&& before.archived_at is None
            &&& after == ArchiveReplies { archived_at: after.archived_at, ..before }
            &&& after.archived_at matches Some(at) && call_ensures(dependencies.now, (), at)
        },
        ArchiveStep::Save(archive) => {
            &&& before.saved is None
            &&& after == ArchiveReplies { saved: after.saved, ..before }
            &&& after.saved matches Some(saved) && call_ensures(
                dependencies.save_archive,
                (archive,),
                saved,
            )
        },
        ArchiveStep::RemoveActive(ids) => {
            &&& before.removed is None
            &&& after == ArchiveReplies { removed: after.removed, ..before }
            &&& after.removed matches Some(removed) && call_ensures(
                dependencies.remove_active,
                (ids,),
                removed,
            )
        },
        ArchiveStep::Finish(_) => false,
    }
}

/// No step has answered yet.
pub open spec fn no_archive_replies() -> ArchiveReplies {
    ArchiveReplies {
        loaded: None,
        delivered: None,
        archive_id: None,
        archived_at: None,
        saved: None,
        removed: None,
    }
}

/// A run of a copy-and-archive: `states[k]` are the answers before step `k`, `steps[k]` the
/// step `archive_step` decides on them, every step but the last is one call whose answer the
/// next state adds, and the last step finishes.
pub open spec fn archive_run<Load, Deliver, Save, Remove, Id, Now>(
    dependencies: CopyAndArchiveDependencies<Load, Deliver, Save, Remove, Id, Now>,
    states: Seq<ArchiveReplies>,
    steps: Seq<ArchiveStep>,
) -> bool where
    Load: FnOnce() -> StoreResult<Vec<Annotation>>,
    Deliver: FnOnce(String) -> Result<(), String>,
    Save: FnOnce(ArchivedAnnotationSet) -> StoreResult<()>,
    Remove: FnOnce(Vec<String>) -> StoreResult<()>,
    Id: FnOnce() -> String,
    Now: FnOnce() -> String,
 {
    &&& steps.len() >= 1
    &&& states.len() == steps.len()
    &&& states[0] == no_archive_replies()
    &&& forall|k: int| 0 <= k < steps.len() ==> archive_step_is(states[k], #[trigger] steps[k])
    &&& forall|k: int|
        0 <= k < steps.len() - 1 ==> archive_call_answered(
            dependencies,
            #[trigger] steps[k],
            states[k],
            states[k + 1],
        )
    &&& steps.last() is Finish
}

/// Copy the active annotations, persist a recoverable archive, then remove active IDs.
///
/// The steps run in this order and stop at the first failure: load; deliver the Markdown
/// export, newest first (nothing is delivered for an empty store); save an archive of every
/// loaded annotation; remove the loaded ids from the active store. The second result is the
/// run the transition made: the steps of `archive_step`, one call per step but the last, which
/// ends with the outcome returned.
pub fn copy_and_archive_annotations<Load, Deliver, Save, Remove, Id, Now>(
    dependencies: CopyAndArchiveDependencies<Load, Deliver, Save, Remove, Id, Now>,
) -> (archived: (CopyAndArchiveOutcome, Ghost<(Seq<ArchiveReplies>, Seq<ArchiveStep>)>)) where
    Load: FnOnce() -> StoreResult<Vec<Annotation>>,
    Deliver: FnOnce(String) -> Result<(), String>,
    Save: FnOnce(ArchivedAnnotationSet) -> StoreResult<()>,
    Remove: FnOnce(Vec<String>) -> StoreResult<()>,
    Id: FnOnce() -> String,
    Now: FnOnce() -> String,

    requires
        call_requires(dependencies.load_active, ()),
        forall|text: String| call_requires(dependencies.deliver, (text,)),
        forall|archive: ArchivedAnnotationSet| call_requires(dependencies.save_archive, (archive,)),
        forall|ids: Vec<String>| call_requires(dependencies.remove_active, (ids,)),
        call_requires(dependencies.create_archive_id, ()),
        call_requires(dependencies.now, ()),
    ensures
        archive_run(dependencies, archived.1@.0, archived.1@.1),
        archived.1@.1.last() == ArchiveStep::Finish(archived.0),
{
    let ghost deps = dependencies;
    let CopyAndArchiveDependencies {
        load_active,
        deliver,
        save_archive,
        remove_active,
        create_archive_id,
        now,
    } = dependencies;
    let mut replies = ArchiveReplies::new();
    let ghost s0 = replies;
    let step = archive_step(&replies);
    let ghost t0 = step;
    if !matches!(step, ArchiveStep::Load) {
        proof {
            assert(false);
        }
    }
    replies.loaded = Some(load_active());
    let ghost s1 = replies;
    let step = archive_step(&replies);
    let ghost t1 = step;
    proof {
        assert(s0 == no_archive_replies());
        assert(archive_call_answered(deps, t0, s0, s1));
    }
    let text = match step {
        ArchiveStep::Deliver(text) => text,
        ArchiveStep::Finish(outcome) => {
            let ghost states = seq![s0, s1];
            let ghost steps = seq![t0, t1];
            proof {
                assert(steps[0] == t0 && steps[1] == t1 && states[0] == s0 && states[1] == s1);
                assert(steps.last() == t1);
            }
            return (outcome, Ghost((states, steps)));
        },
        _ => {
            proof {
                assert(false);
            }
            String::new()
        },
    };
    replies.delivered = Some(deliver(text));
    let ghost s2 = replies;
    let step = archive_step(&replies);
    let ghost t2 = step;
    proof {
        assert(archive_call_answered(deps, t1, s1, s2));
    }
    match step {
        ArchiveStep::CreateArchiveId => {},
        ArchiveStep::Finish(outcome) => {
            let ghost states = seq![s0, s1, s2];
            let ghost steps = seq![t0, t1, t2];
            proof {
                assert(steps[0] == t0 && steps[1] == t1 && steps[2] == t2);
                assert(states[0] == s0 && states[1] == s1 && states[2] == s2);
                assert(steps.last() == t2);
            }
            return (outcome, Ghost((states, steps)));
        },
        _ => {
            proof {
                assert(false);
            }
        },
    }
    replies.archive_id = Some(create_archive_id());
    let ghost s3 = replies;
    let step = archive_step(&replies);
    let ghost t3 = step;
    proof {
        assert(archive_call_answered(deps, t2, s2, s3));
    }
    if !matches!(step, ArchiveStep::Now) {
        proof {
            assert(false);
        }
    }
    replies.archived_at = Some(now());
    let ghost s4 = replies;
    let step = archive_step(&replies);
    let ghost t4 = step;
    proof {
        assert(archive_call_answered(deps, t3, s3, s4));
    }
    let archive = match step {
        ArchiveStep::Save(archive) => archive,
        _ => {
            proof {
                assert(false);
            }
            ArchivedAnnotationSet {
                version: 1,
                id: String::new(),
                archived_at: String::new(),
                annotations: Vec::new(),
            }
        },
    };
    replies.saved = Some(save_archive(archive));
    let ghost s5 = replies;
    let step = archive_step(&replies);
    let ghost t5 = step;
    proof {
        assert(archive_call_answered(deps, t4, s4, s5));
    }
    let ids = match step {
        ArchiveStep::RemoveActive(ids) => ids,
        ArchiveStep::Finish(outcome) => {
            let ghost states = seq![s0, s1, s2, s3, s4, s5];
            let ghost steps = seq![t0, t1, t2, t3, t4, t5];
            proof {
                assert(steps[0] == t0 && steps[1] == t1 && steps[2] == t2 && steps[3] == t3
                    && steps[4] == t4 && steps[5] == t5);
                assert(states[0] == s0 && states[1] == s1 && states[2] == s2 && states[3] == s3
                    && states[4] == s4 && states[5] == s5);
                assert(steps.last() == t5);
            }
            return (outcome, Ghost((states, steps)));
        },
        _ => {
            proof {
                assert(false);
            }
            Vec::new()
        },
    };
    replies.removed = Some(remove_active(ids));
    let ghost s6 = replies;
    let step = archive_step(&replies);
    let ghost t6 = step;
    let ghost states = seq![s0, s1, s2, s3, s4, s5, s6];
    let ghost steps = seq![t0, t1, t2, t3, t4, t5, t6];
    proof {
        assert(archive_call_answered(deps, t5, s5, s6));
        assert(steps[0] == t0 && steps[1] == t1 && steps[2] == t2 && steps[3] == t3 && steps[4]
            == t4 && steps[5] == t5 && steps[6] == t6);
        assert(states[0] == s0 && states[1] == s1 && states[2] == s2 && states[3] == s3
            && states[4] == s4 && states[5] == s5 && states[6] == s6);
        assert(steps.last() == t6);
    }
    match step {
        ArchiveStep::Finish(outcome) => (outcome, Ghost((states, steps))),
        _ => {
            proof {
                assert(false);
            }
            (CopyAndArchiveOutcome::StayOpen { message: String::new() }, Ghost((states, steps)))
        },
    }
}

/// The manager transition produced by restoring one archived annotation set.
#[derive(Debug, Clone, PartialEq, Eq)]
pub enum RestoreArchivedSetOutcome {
    Restored { restored_count: usize },
    StayOpen { message: String },
    RestoredArchiveRetained { restored_count: usize, message: String },
}

/// What the steps of one restore have answered so far.
pub struct RestoreReplies {
    pub merged: Option<StoreResult<usize>>,
    pub removed: Option<StoreResult<()>>,
}

/// The next step of a restore.
#[derive(Debug)]
pub enum RestoreStep {
    /// Merge these annotations into the active store.
    Merge(Vec<Annotation>),
    /// Remove the archive record with this id.
    RemoveArchive(String),
    /// Stop with this outcome.
    Finish(RestoreArchivedSetOutcome),
}

/// The step a restore of `archive` takes next, given the answers so far: merge first; stop if
/// the merge failed; otherwise remove the archive record and report both.
pub open spec fn restore_step_is(archive: ArchiveView, replies: RestoreReplies, step: RestoreStep) -> bool {
    match replies.merged {
        None => step matches RestoreStep::Merge(items) && annotation_views(items@)
            == archive.annotations,
        Some(Err(message)) => step matches RestoreStep::Finish(
            RestoreArchivedSetOutcome::StayOpen { message: m },
        ) && m@ == message@,
        Some(Ok(count)) => match replies.removed {
            None => step matches RestoreStep::RemoveArchive(id) && id@ == archive.id,
            Some(Ok(())) => step == RestoreStep::Finish(
                RestoreArchivedSetOutcome::Restored { restored_count: count },
            ),
            Some(Err(message)) => step matches RestoreStep::Finish(
                RestoreArchivedSetOutcome::RestoredArchiveRetained { restored_count: c, message: m },
            ) && c == count && m@ == message@,
        },
    }
}

/// Decide the next step of restoring `archive`.
pub fn restore_step(archive: &ArchivedAnnotationSet, replies: &RestoreReplies) -> (step: RestoreStep)
    ensures
        restore_step_is(archive@, *replies, step),
{
    match &replies.merged {
        None => RestoreStep::Merge(duplicate_annotations(archive.annotations.as_slice())),
        Some(Err(message)) => RestoreStep::Finish(
            RestoreArchivedSetOutcome::StayOpen { message: message.clone() },
        ),
        Some(Ok(count)) => match &replies.removed {
            None => RestoreStep::RemoveArchive(archive.id.clone()),
            Some(Ok(())) => RestoreStep::Finish(
                RestoreArchivedSetOutcome::Restored { restored_count: *count },
            ),
            Some(Err(message)) => RestoreStep::Finish(
                RestoreArchivedSetOutcome::RestoredArchiveRetained {
                    restored_count: *count,
                    message: message.clone(),
                },
            ),
        },
    }
}

/// Step `step` was one call, made with the step's argument, whose answer is the one that
/// `after` adds to `before`.
pub open spec fn restore_call_answered<Merge, Remove>(
    merge_active: Merge,
    remove_archive: Remove,
    step: RestoreStep,
    before: RestoreReplies,
    after: RestoreReplies,
) -> bool where
    Merge: FnOnce(Vec<Annotation>) -> StoreResult<usize>,
    Remove: FnOnce(String) -> StoreResult<()>,
 {
    match step {
        RestoreStep::Merge(items) => {
            &&& after.removed == before.removed
            &&& before.merged is None
            &&& after.merged matches Some(merged) && call_ensures(merge_active, (items,), merged)
        },
        RestoreStep::RemoveArchive(id) => {
            &&& after.merged == before.merged
            &&& before.removed is None
            &&& after.removed matches Some(removed) && call_ensures(remove_archive, (id,), removed)
        },
        RestoreStep::Finish(_) => false,
    }
}

/// A run of a restore: `states[k]` are the answers before step `k`, `steps[k]` the step
/// `restore_step` decides on them, every step but the last is one call whose answer the next
/// state adds, and the last step finishes.
pub open spec fn restore_run<Merge, Remove>(
    archive: ArchiveView,
    merge_active: Merge,
    remove_archive: Remove,
    states: Seq<RestoreReplies>,
    steps: Seq<RestoreStep>,
) -> bool where
    Merge: FnOnce(Vec<Annotation>) -> StoreResult<usize>,
    Remove: FnOnce(String) -> StoreResult<()>,
 {
    &&& steps.len() >= 1
    &&& states.len() == steps.len()
    &&& states[0] == RestoreReplies { merged: None, removed: None }
    &&& forall|k: int| 0 <= k < steps.len() ==> restore_step_is(archive, states[k], #[trigger] steps[k])
    &&& forall|k: int|
        0 <= k < steps.len() - 1 ==> restore_call_answered(
            merge_active,
            remove_archive,
            #[trigger] steps[k],
            states[k],
            states[k + 1],
        )
    &&& steps.last() is Finish
}

/// Merge an archived set into active annotations, then remove its archive record.
///
/// The archive record is removed only after the merge succeeds. The second result is the run
/// the restore made: the steps of `restore_step`, one call per step but the last, which ends
/// with the outcome returned.
pub fn restore_archived_set<Merge, Remove>(
    archive: &ArchivedAnnotationSet,
    dependencies: RestoreArchiveDependencies<Merge, Remove>,
) -> (restored: (RestoreArchivedSetOutcome, Ghost<(Seq<RestoreReplies>, Seq<RestoreStep>)>)) where
    Merge: FnOnce(Vec<Annotation>) -> StoreResult<usize>,
    Remove: FnOnce(String) -> StoreResult<()>,

    requires
        forall|items: Vec<Annotation>| call_requires(dependencies.merge_active, (items,)),
        forall|id: String| call_requires(dependencies.remove_archive, (id,)),
    ensures
        restore_run(
            archive@,
            dependencies.merge_active,
            dependencies.remove_archive,
            restored.1@.0,
            restored.1@.1,
        ),
        restored.1@.1.last() == RestoreStep::Finish(restored.0),
{
    let RestoreArchiveDependencies { merge_active, remove_archive } = dependencies;
    let mut replies = RestoreReplies { merged: None, removed: None };
    let ghost s0 = replies;
    let first = restore_step(archive, &replies);
    let ghost step0 = first;
    let items = match first {
        RestoreStep::Merge(items) => items,
        _ => {
            proof {
                assert(false);
            }
            Vec::new()
        },
    };
    let merged = merge_active(items);
    replies.merged = Some(merged);
    let ghost s1 = replies;
    let second = restore_step(archive, &replies);
    let ghost step1 = second;
    let id = match second {
        RestoreStep::RemoveArchive(id) => id,
        RestoreStep::Finish(outcome) => {
            let ghost states = seq![s0, s1];
            let ghost steps = seq![step0, step1];
            proof {
                assert(restore_call_answered(merge_active, remove_archive, step0, s0, s1));
                assert(steps[0] == step0 && steps[1] == step1 && states[0] == s0 && states[1] == s1);
                assert(steps.last() == step1);
            }
            return (outcome, Ghost((states, steps)));
        },
        RestoreStep::Merge(_) => {
            proof {
                assert(false);
            }
            String::new()
        },
    };
    let removed = remove_archive(id);
    replies.removed = Some(removed);
    let ghost s2 = replies;
    let third = restore_step(archive, &replies);
    let ghost step2 = third;
    let ghost states = seq![s0, s1, s2];
    let ghost steps = seq![step0, step1, step2];
    proof {
        assert(restore_call_answered(merge_active, remove_archive, step0, s0, s1));
        assert(restore_call_answered(merge_active, remove_archive, step1, s1, s2));
        assert(steps[0] == step0 && steps[1] == step1 && steps[2] == step2);
        assert(states[0] == s0 && states[1] == s1 && states[2] == s2);
        assert(steps.last() == step2);
    }
    match third {
        RestoreStep::Finish(outcome) => (outcome, Ghost((states, steps))),
        _ => {
            proof {
                assert(false);
            }
            (RestoreArchivedSetOutcome::StayOpen { message: String::new() }, Ghost((states, steps)))
        },
    }
}

/// After a successful merge a restore removes the archive record of the set it restored, and
/// no other.
pub proof fn lemma_restore_removes_its_own_archive(
    archive: ArchiveView,
    replies: RestoreReplies,
    step: RestoreStep,
)
    requires
        replies.merged matches Some(Ok(_)),
        replies.removed is None,
        restore_step_is(archive, replies, step),
    ensures
        step matches RestoreStep::RemoveArchive(id) && id@ == archive.id,
{
}

/// A restore merges exactly the archived set's annotations, one for one and in their archived
/// order.
pub proof fn lemma_restore_merges_archived_order(
    archive: ArchiveView,
    replies: RestoreReplies,
    step: RestoreStep,
)
    requires
        replies.merged is None,
        restore_step_is(archive, replies, step),
    ensures
        step matches RestoreStep::Merge(items) && items@.len() == archive.annotations.len() && forall|
            k: int,
        |
            0 <= k < items@.len() ==> (#[trigger] items@[k])@ == archive.annotations[k],
{
    if let RestoreStep::Merge(items) = step {
        assert forall|k: int| 0 <= k < items@.len() implies (#[trigger] items@[k])@
            == archive.annotations[k] by {
            assert(annotation_views(items@)[k] == items@[k]@);
        }
    }
}

} // verus!
