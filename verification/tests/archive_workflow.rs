use std::cell::{Cell, RefCell};

use herdr_annotate::archive_workflow::{
    archive_step, copy_and_archive_annotations, restore_archived_set, restore_step,
    ArchiveReplies, ArchiveStep, CopyAndArchiveDependencies, CopyAndArchiveOutcome,
    RestoreArchiveDependencies, RestoreArchivedSetOutcome, RestoreReplies, RestoreStep,
};
use herdr_annotate::store::{
    append_annotation, append_archived_set, load_annotations, load_archived_sets,
    merge_annotations, remove_annotations_by_id, remove_archived_set,
};
use herdr_annotate::types::{Annotation, ArchivedAnnotationSet, InvocationContext};

fn annotation(id: &str) -> Annotation {
    Annotation {
        selected_text: format!("selection {id}"),
        context: InvocationContext::default(),
        captured_at: "2026-08-08T00:00:00Z".to_owned(),
        id: id.to_owned(),
        comment: format!("comment {id}"),
        created_at: "2026-08-08T00:00:01Z".to_owned(),
    }
}

fn archive(ids: &[&str]) -> ArchivedAnnotationSet {
    ArchivedAnnotationSet {
        version: 1,
        id: "archive-one".to_owned(),
        archived_at: "2026-08-26T23:32:00Z".to_owned(),
        annotations: ids.iter().map(|id| annotation(id)).collect(),
    }
}

#[test]
fn copy_archives_in_order_before_removing_active_ids() {
    let events = RefCell::new(Vec::new());
    let clipboard = RefCell::new(String::new());
    let saved = RefCell::new(None);
    let removed = RefCell::new(Vec::new());
    let outcome = copy_and_archive_annotations(CopyAndArchiveDependencies {
        load_active: || {
            events.borrow_mut().push("load");
            Ok(vec![annotation("one"), annotation("two")])
        },
        deliver: |text: String| {
            events.borrow_mut().push("copy");
            text.clone_into(&mut clipboard.borrow_mut());
            Ok(())
        },
        save_archive: |archive: ArchivedAnnotationSet| {
            events.borrow_mut().push("archive");
            saved.replace(Some(archive));
            Ok(())
        },
        remove_active: |ids: Vec<String>| {
            events.borrow_mut().push("remove");
            ids.clone_into(&mut removed.borrow_mut());
            Ok(())
        },
        create_archive_id: || "archive-one".to_owned(),
        now: || "2026-08-26T23:32:00Z".to_owned(),
    }).0;
    assert_eq!(outcome, CopyAndArchiveOutcome::Close { archived_count: 2 });
    assert_eq!(*events.borrow(), ["load", "copy", "archive", "remove"]);
    assert!(clipboard.borrow().find("selection two") < clipboard.borrow().find("selection one"));
    assert_eq!(saved.borrow().as_ref(), Some(&archive(&["one", "two"])));
    assert_eq!(*removed.borrow(), ["one", "two"]);
}

#[test]
fn copy_failure_does_not_archive_or_clear() {
    let archived = Cell::new(false);
    let removed = Cell::new(false);
    let outcome = copy_and_archive_annotations(CopyAndArchiveDependencies {
        load_active: || Ok(vec![annotation("one")]),
        deliver: |_| Err("Clipboard unavailable".to_owned()),
        save_archive: |_| {
            archived.set(true);
            Ok(())
        },
        remove_active: |_| {
            removed.set(true);
            Ok(())
        },
        create_archive_id: || "archive-one".to_owned(),
        now: || "now".to_owned(),
    }).0;
    assert_eq!(
        outcome,
        CopyAndArchiveOutcome::StayOpen {
            message: "Clipboard unavailable".to_owned()
        }
    );
    assert!(!archived.get() && !removed.get());
}

#[test]
fn archive_failure_does_not_clear_active() {
    let removed = Cell::new(false);
    let outcome = copy_and_archive_annotations(CopyAndArchiveDependencies {
        load_active: || Ok(vec![annotation("one")]),
        deliver: |_| Ok(()),
        save_archive: |_| Err("Archive unavailable".to_owned()),
        remove_active: |_| {
            removed.set(true);
            Ok(())
        },
        create_archive_id: || "archive-one".to_owned(),
        now: || "now".to_owned(),
    }).0;
    assert_eq!(
        outcome,
        CopyAndArchiveOutcome::StayOpen {
            message: "Archive unavailable".to_owned()
        }
    );
    assert!(!removed.get());
}

#[test]
fn clear_failure_reports_retained_active_data() {
    let outcome = copy_and_archive_annotations(CopyAndArchiveDependencies {
        load_active: || Ok(vec![annotation("one")]),
        deliver: |_| Ok(()),
        save_archive: |_| Ok(()),
        remove_active: |_| Err("Active store unavailable".to_owned()),
        create_archive_id: || "archive-one".to_owned(),
        now: || "now".to_owned(),
    }).0;
    assert_eq!(
        outcome,
        CopyAndArchiveOutcome::ArchivedActiveRetained {
            message: "Active store unavailable".to_owned()
        }
    );
}

#[test]
fn restore_merges_before_removing_archive_and_reports_partial_failure() {
    let events = RefCell::new(Vec::new());
    let restored = restore_archived_set(
        &archive(&["one", "two"]),
        RestoreArchiveDependencies {
            merge_active: |_| {
                events.borrow_mut().push("merge");
                Ok(2)
            },
            remove_archive: |_| {
                events.borrow_mut().push("remove");
                Ok(())
            },
        },
    ).0;
    assert_eq!(
        restored,
        RestoreArchivedSetOutcome::Restored { restored_count: 2 }
    );
    assert_eq!(*events.borrow(), ["merge", "remove"]);

    let retained = restore_archived_set(
        &archive(&["one"]),
        RestoreArchiveDependencies {
            merge_active: |_| Ok(1),
            remove_archive: |_| Err("Archive unavailable".to_owned()),
        },
    ).0;
    assert_eq!(
        retained,
        RestoreArchivedSetOutcome::RestoredArchiveRetained {
            restored_count: 1,
            message: "Archive unavailable".to_owned()
        }
    );
}

#[test]
fn restore_failure_keeps_archive() {
    let removed = Cell::new(false);
    let outcome = restore_archived_set(
        &archive(&["one"]),
        RestoreArchiveDependencies {
            merge_active: |_| Err("Active store unavailable".to_owned()),
            remove_archive: |_| {
                removed.set(true);
                Ok(())
            },
        },
    ).0;
    assert_eq!(
        outcome,
        RestoreArchivedSetOutcome::StayOpen {
            message: "Active store unavailable".to_owned()
        }
    );
    assert!(!removed.get());
}

#[test]
fn an_empty_store_stays_open_without_delivering() {
    let delivered = Cell::new(false);
    let outcome = copy_and_archive_annotations(CopyAndArchiveDependencies {
        load_active: || Ok(Vec::new()),
        deliver: |_| {
            delivered.set(true);
            Ok(())
        },
        save_archive: |_| Ok(()),
        remove_active: |_| Ok(()),
        create_archive_id: || "archive-one".to_owned(),
        now: || "now".to_owned(),
    }).0;
    assert_eq!(
        outcome,
        CopyAndArchiveOutcome::StayOpen {
            message: "Nothing to copy and archive.".to_owned()
        }
    );
    assert!(!delivered.get());
}

#[test]
fn a_load_failure_stays_open_with_its_message() {
    let outcome = copy_and_archive_annotations(CopyAndArchiveDependencies {
        load_active: || Err("Annotations are busy; try again.".to_owned()),
        deliver: |_| Ok(()),
        save_archive: |_| Ok(()),
        remove_active: |_| Ok(()),
        create_archive_id: || "archive-one".to_owned(),
        now: || "now".to_owned(),
    }).0;
    assert_eq!(
        outcome,
        CopyAndArchiveOutcome::StayOpen {
            message: "Annotations are busy; try again.".to_owned()
        }
    );
}

/// The stores as text held in memory, read and rewritten through the library's store rules.
#[test]
fn in_memory_stores_archive_clear_restore_and_preserve_concurrent_saves() {
    let active = RefCell::new(String::new());
    let archives = RefCell::new(String::new());
    active
        .borrow_mut()
        .push_str(&append_annotation(&annotation("snapshot")).expect("append"));
    let outcome = copy_and_archive_annotations(CopyAndArchiveDependencies {
        load_active: || load_annotations(&active.borrow()),
        deliver: |_| Ok(()),
        save_archive: |set: ArchivedAnnotationSet| {
            let updated = append_archived_set(&archives.borrow(), &set)?;
            *archives.borrow_mut() = updated;
            let line = append_annotation(&annotation("concurrent"))?;
            active.borrow_mut().push_str(&line);
            Ok(())
        },
        remove_active: |ids: Vec<String>| {
            let updated = remove_annotations_by_id(&active.borrow(), &ids)?;
            *active.borrow_mut() = updated;
            Ok(())
        },
        create_archive_id: || "archive-one".to_owned(),
        now: || "2026-08-26T23:32:00Z".to_owned(),
    }).0;
    assert_eq!(outcome, CopyAndArchiveOutcome::Close { archived_count: 1 });
    assert_eq!(
        load_annotations(&active.borrow()).expect("active"),
        [annotation("concurrent")]
    );
    let stored = load_archived_sets(&archives.borrow()).expect("archives");
    assert_eq!(
        stored.first().map(|set| set.annotations.as_slice()),
        Some([annotation("snapshot")].as_slice())
    );
    let target = stored.first().expect("archive");
    let restored = restore_archived_set(
        target,
        RestoreArchiveDependencies {
            merge_active: |items: Vec<Annotation>| {
                let (updated, count) = merge_annotations(&active.borrow(), &items)?;
                if let Some(text) = updated {
                    *active.borrow_mut() = text;
                }
                Ok(count)
            },
            remove_archive: |id: String| {
                let updated = remove_archived_set(&archives.borrow(), &id)?;
                *archives.borrow_mut() = updated;
                Ok(())
            },
        },
    ).0;
    assert_eq!(
        restored,
        RestoreArchivedSetOutcome::Restored { restored_count: 1 }
    );
    assert_eq!(load_archived_sets(&archives.borrow()).expect("archives"), []);
    assert_eq!(
        load_annotations(&active.borrow()).expect("active"),
        [annotation("concurrent"), annotation("snapshot")]
    );
}

fn archive_steps(
    loaded: Result<Vec<Annotation>, String>,
    delivered: Result<(), String>,
    saved: Result<(), String>,
) -> (CopyAndArchiveOutcome, Vec<&'static str>) {
    let mut steps = Vec::new();
    let mut replies = ArchiveReplies::new();
    loop {
        match archive_step(&replies) {
            ArchiveStep::Load => {
                steps.push("load");
                replies.loaded = Some(loaded.clone());
            }
            ArchiveStep::Deliver(_) => {
                steps.push("deliver");
                replies.delivered = Some(delivered.clone());
            }
            ArchiveStep::CreateArchiveId => {
                steps.push("id");
                replies.archive_id = Some("archive-one".to_owned());
            }
            ArchiveStep::Now => {
                steps.push("now");
                replies.archived_at = Some("now".to_owned());
            }
            ArchiveStep::Save(_) => {
                steps.push("save");
                replies.saved = Some(saved.clone());
            }
            ArchiveStep::RemoveActive(_) => {
                steps.push("remove");
                replies.removed = Some(Ok(()));
            }
            ArchiveStep::Finish(outcome) => return (outcome, steps),
        }
    }
}

#[test]
fn archive_steps_come_in_order_and_stop_at_the_first_failure() {
    let one = vec![annotation("one")];
    assert_eq!(
        archive_steps(Ok(one.clone()), Ok(()), Ok(())).1,
        ["load", "deliver", "id", "now", "save", "remove"]
    );
    assert_eq!(archive_steps(Ok(one.clone()), Err("x".to_owned()), Ok(())).1, ["load", "deliver"]);
    assert_eq!(
        archive_steps(Ok(one), Ok(()), Err("x".to_owned())).1,
        ["load", "deliver", "id", "now", "save"]
    );
    assert_eq!(archive_steps(Ok(Vec::new()), Ok(()), Ok(())).1, ["load"]);
    assert_eq!(archive_steps(Err("x".to_owned()), Ok(()), Ok(())).1, ["load"]);
}

#[test]
fn restore_steps_merge_first_and_keep_the_archive_on_failure() {
    let set = archive(&["one"]);
    let mut replies = RestoreReplies {
        merged: None,
        removed: None,
    };
    assert!(matches!(restore_step(&set, &replies), RestoreStep::Merge(items) if items == set.annotations));
    replies.merged = Some(Err("Active store unavailable".to_owned()));
    assert!(matches!(
        restore_step(&set, &replies),
        RestoreStep::Finish(RestoreArchivedSetOutcome::StayOpen { .. })
    ));
    replies.merged = Some(Ok(1));
    assert!(matches!(restore_step(&set, &replies), RestoreStep::RemoveArchive(id) if id == "archive-one"));
}
