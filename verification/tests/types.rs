use herdr_annotate::json::{decode_json, JsonValue};
use herdr_annotate::types::{
    parse_annotation, parse_archived_annotation_set, parse_invocation_context,
    parse_pending_annotation, pending_annotation_from_invocation, render_annotation,
    render_archive, render_context, render_pending, selected_text_from_invocation, Annotation,
    ArchivedAnnotationSet, InvocationContext, PendingAnnotation,
};

fn json(text: &str) -> JsonValue {
    decode_json(text).expect("test documents are JSON")
}

fn persisted_annotation(id: &str) -> String {
    format!(
        r#"{{"id":"{id}","selectedText":"selection {id}","comment":"comment {id}","capturedAt":"2026-08-08T00:00:00Z","createdAt":"2026-08-08T00:00:01Z","context":{{}}}}"#
    )
}

#[test]
fn terminal_selection_is_returned_without_changes() {
    assert_eq!(
        selected_text_from_invocation(&json(r#"{"selected_text": "  selected text\n"}"#)),
        Some("  selected text\n".to_owned())
    );
}

#[test]
fn missing_invalid_and_empty_selections_are_ignored() {
    for value in [
        json("{}"),
        json(r#"{"selected_text": 42}"#),
        json(r#"{"selected_text": " \n\t"}"#),
        json("{\"selected_text\": \"\u{feff}\"}"),
        JsonValue::Null,
    ] {
        assert_eq!(selected_text_from_invocation(&value), None);
    }
}

#[test]
fn editor_fallback_retains_invocation_context() {
    let pending = pending_annotation_from_invocation(
        &json(
            r#"{
                "selected_text": "selected text",
                "workspace_id": "workspace-1",
                "focused_pane_cwd": "C:\\work"
            }"#,
        ),
        "2026-08-27T00:00:00Z",
    )
    .expect("pending");
    assert_eq!(pending.selected_text, "selected text");
    assert_eq!(pending.context.workspace_id.as_deref(), Some("workspace-1"));
    assert_eq!(
        pending.context.focused_pane_cwd.as_deref(),
        Some("C:\\work")
    );
}

#[test]
fn editor_fallback_rejects_missing_or_empty_selection() {
    assert!(pending_annotation_from_invocation(&json("{}"), "now").is_none());
    assert!(
        pending_annotation_from_invocation(&json(r#"{"selected_text": " \n"}"#), "now").is_none()
    );
}

#[test]
fn complete_versioned_archive_parses() {
    let parsed = parse_archived_annotation_set(&json(&format!(
        r#"{{"version": 1, "id": "archive-one", "archivedAt": "2026-08-26T23:32:00Z", "annotations": [{}]}}"#,
        persisted_annotation("one")
    )))
    .expect("archive");
    assert_eq!(parsed.id, "archive-one");
    assert_eq!(
        parsed.annotations.first().map(|item| item.id.as_str()),
        Some("one")
    );
}

#[test]
fn json_number_spelling_does_not_change_archive_version_semantics() {
    let parsed = parse_archived_annotation_set(&json(&format!(
        r#"{{"version": 1.0, "id": "archive-one", "archivedAt": "2026-08-26T23:32:00Z", "annotations": [{}]}}"#,
        persisted_annotation("one")
    )));
    assert!(parsed.is_some(), "JSON.parse treats 1.0 as the number 1");
}

#[test]
fn empty_partial_and_unknown_archives_are_rejected() {
    for value in [
        json(r#"{"version": 1, "id": "empty", "archivedAt": "now", "annotations": []}"#),
        json(&format!(
            r#"{{"version": 1, "id": "partial", "archivedAt": "now", "annotations": [{}, {{"id": "broken"}}]}}"#,
            persisted_annotation("one")
        )),
        json(&format!(
            r#"{{"version": 2, "id": "future", "archivedAt": "now", "annotations": [{}]}}"#,
            persisted_annotation("one")
        )),
    ] {
        assert!(parse_archived_annotation_set(&value).is_none());
    }
}

#[test]
fn serialization_matches_the_typescript_field_names_and_order() {
    let annotation = Annotation::from_pending(
        PendingAnnotation {
            selected_text: "selection".to_owned(),
            context: InvocationContext::default(),
            captured_at: "captured".to_owned(),
        },
        "id".to_owned(),
        "comment".to_owned(),
        "created".to_owned(),
    );
    assert_eq!(
        render_annotation(&annotation).expect("json"),
        r#"{"selectedText":"selection","context":{},"capturedAt":"captured","id":"id","comment":"comment","createdAt":"created"}"#
    );
}

#[test]
fn contexts_keep_only_string_fields() {
    let context = parse_invocation_context(&json(
        r#"{"workspace_id":"w","workspace_label":7,"tab_id":"t","tab_label":null,"focused_pane_id":"p","focused_pane_cwd":"/c","focused_pane_agent":"aider","extra":"x"}"#,
    ));
    assert_eq!(
        context,
        InvocationContext {
            workspace_id: Some("w".to_owned()),
            workspace_label: None,
            tab_id: Some("t".to_owned()),
            tab_label: None,
            focused_pane_id: Some("p".to_owned()),
            focused_pane_cwd: Some("/c".to_owned()),
            focused_pane_agent: Some("aider".to_owned()),
        }
    );
    assert_eq!(parse_invocation_context(&json("[1]")), InvocationContext::default());
    assert_eq!(
        render_context(&context).expect("json"),
        r#"{"workspace_id":"w","tab_id":"t","focused_pane_id":"p","focused_pane_cwd":"/c","focused_pane_agent":"aider"}"#
    );
}

#[test]
fn records_read_back_what_was_written() {
    let annotation = Annotation {
        selected_text: "quote \" and \\ and 한글\n".to_owned(),
        context: InvocationContext {
            tab_label: Some("tab".to_owned()),
            ..InvocationContext::default()
        },
        captured_at: "a".to_owned(),
        id: "id-1".to_owned(),
        comment: "c".to_owned(),
        created_at: "b".to_owned(),
    };
    let text = render_annotation(&annotation).expect("json");
    assert_eq!(parse_annotation(&json(&text)), Some(annotation.clone()));

    let pending = PendingAnnotation {
        selected_text: "s".to_owned(),
        context: InvocationContext::default(),
        captured_at: "t".to_owned(),
    };
    let text = render_pending(&pending).expect("json");
    assert_eq!(text, r#"{"selectedText":"s","context":{},"capturedAt":"t"}"#);
    assert_eq!(parse_pending_annotation(&json(&text)), Some(pending));

    let archive = ArchivedAnnotationSet {
        version: 1,
        id: "archive".to_owned(),
        archived_at: "now".to_owned(),
        annotations: vec![annotation],
    };
    let text = render_archive(&archive).expect("json");
    assert_eq!(parse_archived_annotation_set(&json(&text)), Some(archive));
}

#[test]
fn annotations_need_every_field_as_a_string() {
    assert!(parse_annotation(&json(&persisted_annotation("one"))).is_some());
    assert!(parse_annotation(&json(r#"{"id":"x"}"#)).is_none());
    assert!(parse_annotation(&json(
        r#"{"id":1,"selectedText":"s","comment":"c","capturedAt":"a","createdAt":"b","context":{}}"#
    ))
    .is_none());
    assert!(parse_pending_annotation(&json(r#"{"selectedText":"s"}"#)).is_none());
}
