use herdr_annotate::store::{
    after_lock_attempt, after_stale_check, append_annotation, append_archived_set, is_stale_lock,
    load_annotations, load_archived_sets, merge_annotations, newest_first_annotations,
    newest_first_archived_sets, os_error_code, remove_annotations_by_id, remove_archived_set,
    safe_file_error, store_failure, FileError, FileErrorKind, LockAttempt, LockStep, StoreAction,
    StoreName,
};
use herdr_annotate::types::{Annotation, ArchivedAnnotationSet, InvocationContext};

fn annotation(id: &str) -> Annotation {
    Annotation {
        selected_text: format!("selection {id}"),
        context: InvocationContext::default(),
        captured_at: "2026-08-08T00:00:00Z".to_owned(),
        id: id.to_owned(),
        comment: format!("comment {id}"),
        created_at: "2026-08-08T00:00:01Z".to_owned(),
    }
}

fn archive(id: &str, annotation_ids: &[&str]) -> ArchivedAnnotationSet {
    ArchivedAnnotationSet {
        version: 1,
        id: id.to_owned(),
        archived_at: format!("2026-08-26T23:32:0{}Z", id.len()),
        annotations: annotation_ids.iter().map(|item| annotation(item)).collect(),
    }
}

fn stored(annotations: &[Annotation]) -> String {
    annotations
        .iter()
        .map(|item| append_annotation(item).expect("record"))
        .collect()
}

#[test]
fn newest_first_does_not_mutate_storage_order() {
    let stored = vec![annotation("one"), annotation("two"), annotation("three")];
    let newest = newest_first_annotations(&stored);
    assert_eq!(
        newest.iter().map(|item| item.id.as_str()).collect::<Vec<_>>(),
        ["three", "two", "one"]
    );
    assert_eq!(
        stored.iter().map(|item| item.id.as_str()).collect::<Vec<_>>(),
        ["one", "two", "three"]
    );
}

#[test]
fn annotations_append_load_remove_and_merge_as_text() {
    let mut text = String::new();
    text.push_str(&append_annotation(&annotation("one")).expect("append one"));
    text.push_str(&append_annotation(&annotation("two")).expect("append two"));
    assert_eq!(
        load_annotations(&text).expect("load"),
        [annotation("one"), annotation("two")]
    );
    let text = remove_annotations_by_id(&text, &["one".to_owned()]).expect("remove");
    assert_eq!(load_annotations(&text).expect("load"), [annotation("two")]);
    let (text, count) =
        merge_annotations(&text, &[annotation("two"), annotation("three")]).expect("merge");
    assert_eq!(count, 1);
    let text = text.expect("rewritten");
    assert_eq!(
        load_annotations(&text).expect("load"),
        [annotation("two"), annotation("three")]
    );
    assert_eq!(
        merge_annotations(&text, &[annotation("two")]).expect("merge"),
        (None, 0)
    );
}

#[test]
fn records_are_written_in_the_persisted_field_order() {
    assert_eq!(
        append_annotation(&annotation("one")).expect("record"),
        "{\"selectedText\":\"selection one\",\"context\":{},\
         \"capturedAt\":\"2026-08-08T00:00:00Z\",\"id\":\"one\",\
         \"comment\":\"comment one\",\"createdAt\":\"2026-08-08T00:00:01Z\"}\n"
    );
}

#[test]
fn malformed_active_text_is_rejected() {
    assert_eq!(
        load_annotations("{broken\n"),
        Err("Unable to read annotations (invalid data)".to_owned())
    );
    assert_eq!(
        load_annotations("{\"id\":\"only\"}\n"),
        Err("Unable to read annotations (invalid data)".to_owned())
    );
    assert_eq!(
        remove_annotations_by_id("{broken\n", &["x".to_owned()]),
        Err("Unable to read annotations (invalid data)".to_owned())
    );
    assert_eq!(
        merge_annotations("{broken\n", &[annotation("x")]),
        Err("Unable to read annotations (invalid data)".to_owned())
    );
}

#[test]
fn blank_lines_and_carriage_returns_are_tolerated() {
    let text = stored(&[annotation("one"), annotation("two")]).replace('\n', "\r\n\n");
    assert_eq!(
        load_annotations(&text).expect("load"),
        [annotation("one"), annotation("two")]
    );
    assert_eq!(load_annotations("").expect("empty"), []);
}

#[test]
fn archive_sets_persist_and_remove_individually_as_text() {
    let first = archive("one", &["annotation-one"]);
    let second = archive("two", &["annotation-two", "annotation-three"]);
    let text = append_archived_set("", &first).expect("archive one");
    let text = append_archived_set(&text, &second).expect("archive two");
    let loaded = load_archived_sets(&text).expect("load archives");
    assert_eq!(loaded, [first, second.clone()]);
    assert_eq!(newest_first_archived_sets(&loaded).first(), Some(&second));
    let text = remove_archived_set(&text, "one").expect("remove archive");
    assert_eq!(load_archived_sets(&text).expect("load"), [second]);
}

#[test]
fn malformed_archive_text_is_rejected() {
    assert_eq!(
        load_archived_sets("{broken\n"),
        Err("Unable to read archives (invalid data)".to_owned())
    );
    assert_eq!(
        append_archived_set("{broken\n", &archive("one", &["a"])),
        Err("Unable to read archives (invalid data)".to_owned())
    );
}

#[test]
fn clearing_then_restoring_keeps_concurrent_saves() {
    let active = stored(&[annotation("snapshot"), annotation("concurrent")]);
    let cleared = remove_annotations_by_id(&active, &["snapshot".to_owned()]).expect("clear");
    let (restored, count) = merge_annotations(&cleared, &[annotation("snapshot")]).expect("restore");
    assert_eq!(count, 1);
    assert_eq!(
        load_annotations(&restored.expect("text")).expect("load"),
        [annotation("concurrent"), annotation("snapshot")]
    );
}

#[test]
fn file_errors_name_their_code_without_the_path() {
    let error = |kind: FileErrorKind, raw: Option<i32>| FileError {
        kind,
        raw_os_error: raw,
    };
    assert_eq!(
        safe_file_error("Unable to save annotation", &error(FileErrorKind::PermissionDenied, Some(13))),
        "Unable to save annotation (EACCES)"
    );
    assert_eq!(
        safe_file_error("Unable to read annotations", &error(FileErrorKind::Other, None)),
        "Unable to read annotations"
    );
    assert_eq!(os_error_code(FileErrorKind::Other, -7), "OS error -7");
    for (kind, code) in [
        (FileErrorKind::NotFound, "ENOENT"),
        (FileErrorKind::AlreadyExists, "EEXIST"),
        (FileErrorKind::IsADirectory, "EISDIR"),
        (FileErrorKind::NotADirectory, "ENOTDIR"),
        (FileErrorKind::DirectoryNotEmpty, "ENOTEMPTY"),
        (FileErrorKind::StorageFull, "ENOSPC"),
        (FileErrorKind::ReadOnlyFilesystem, "EROFS"),
        (FileErrorKind::InvalidInput, "EINVAL"),
    ] {
        assert_eq!(os_error_code(kind, 1), code);
    }
    assert_eq!(
        store_failure(StoreAction::Lock, StoreName::Archives, &error(FileErrorKind::Other, Some(5))),
        "Unable to lock archives (OS error 5)"
    );
    assert_eq!(
        store_failure(StoreAction::Access, StoreName::Annotations, &error(FileErrorKind::NotFound, Some(2))),
        "Unable to access annotations (ENOENT)"
    );
}

#[test]
fn contention_fails_safely_and_abandoned_locks_recover() {
    let busy = LockStep::Refused("Annotations are busy; try again.".to_owned());
    assert_eq!(
        after_lock_attempt(StoreName::Annotations, false, &LockAttempt::Created),
        LockStep::Acquired
    );
    assert_eq!(
        after_lock_attempt(StoreName::Annotations, false, &LockAttempt::AlreadyExists),
        LockStep::CheckStale
    );
    assert_eq!(
        after_lock_attempt(StoreName::Annotations, true, &LockAttempt::AlreadyExists),
        busy
    );
    assert_eq!(after_stale_check(StoreName::Annotations, Some(29)), busy);
    assert_eq!(after_stale_check(StoreName::Annotations, None), busy);
    assert_eq!(
        after_stale_check(StoreName::Annotations, Some(31)),
        LockStep::RemoveAndRetry
    );
    assert_eq!(
        after_stale_check(StoreName::Archives, Some(0)),
        LockStep::Refused("Archives are busy; try again.".to_owned())
    );
    assert_eq!(
        after_lock_attempt(
            StoreName::Archives,
            true,
            &LockAttempt::Failed(FileError {
                kind: FileErrorKind::PermissionDenied,
                raw_os_error: Some(13),
            })
        ),
        LockStep::Refused("Unable to lock archives (EACCES)".to_owned())
    );
    assert!(is_stale_lock(Some(30)));
    assert!(!is_stale_lock(Some(29)));
}

#[test]
fn store_names_give_their_files_and_locks() {
    assert_eq!(StoreName::Annotations.file_name(), "annotations.jsonl");
    assert_eq!(StoreName::Archives.file_name(), "archives.jsonl");
    assert_eq!(StoreName::Annotations.lock_name(), ".annotations.lock");
    assert_eq!(StoreName::Archives.lock_name(), ".archives.lock");
    assert_eq!(StoreName::Archives.capitalized(), "Archives");
}

#[test]
fn an_appended_record_reads_back_after_the_earlier_ones() {
    let mut text = String::new();
    let mut expected = Vec::new();
    for id in ["one", "two\nwith a line break", "three \"quoted\""] {
        let mut item = annotation(id);
        item.comment = format!("comment {id}\r\n");
        text.push_str(&append_annotation(&item).expect("record"));
        expected.push(item);
        assert_eq!(load_annotations(&text), Ok(expected.clone()));
    }
    assert_eq!(text.lines().count(), 3);
}

#[test]
fn a_rewritten_archive_file_reads_back_as_its_sets() {
    let mut text = String::new();
    let mut expected = Vec::new();
    for id in ["a", "bb", "ccc"] {
        let set = archive(id, &["one", "two"]);
        text = append_archived_set(&text, &set).expect("archive");
        expected.push(set);
        assert_eq!(load_archived_sets(&text), Ok(expected.clone()));
    }
}
