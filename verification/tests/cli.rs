use std::cell::RefCell;

use herdr_annotate::agent_delivery::Delivery;
use herdr_annotate::archive_workflow::CopyAndArchiveOutcome;
use herdr_annotate::cli::{
    capitalized, capture_step, copy_archive_report, copy_context_report, copy_context_step,
    deliver_archive_report, delivery_failed_title, editor_pane_arguments, failure_title,
    invocation_context_value, manage, manager_pane_arguments, parse_subcommand,
    pending_file_name, ArchiveReport, CaptureInputs, CaptureReplies, CaptureStep,
    CopyContextReplies, CopyContextStep, Subcommand, USAGE,
};
use herdr_annotate::json::{decode_json, JsonValue};
use herdr_annotate::types::{Annotation, InvocationContext, PendingAnnotation};

fn args(values: &[&str]) -> Vec<String> {
    values.iter().map(|value| (*value).to_owned()).collect()
}

#[test]
fn unknown_or_extra_arguments_report_the_single_binary_usage() {
    assert_eq!(parse_subcommand(&[]), Err(USAGE.to_owned()));
    assert_eq!(parse_subcommand(&args(&["unknown"])), Err(USAGE.to_owned()));
    assert_eq!(
        parse_subcommand(&args(&["capture", "extra"])),
        Err(USAGE.to_owned())
    );
    assert_eq!(
        parse_subcommand(&args(&["copy-archive", "extra"])),
        Err(USAGE.to_owned())
    );
    for subcommand in ["paste-archive", "send-archive"] {
        assert_eq!(
            parse_subcommand(&args(&[subcommand, "extra"])),
            Err(USAGE.to_owned())
        );
        assert!(USAGE.contains(subcommand), "{USAGE}");
    }
}

#[test]
fn every_subcommand_name_selects_its_subcommand() {
    for (name, expected) in [
        ("capture", Subcommand::Capture),
        ("copy-context", Subcommand::CopyContext),
        ("copy-archive", Subcommand::CopyArchive),
        ("paste-archive", Subcommand::PasteArchive),
        ("send-archive", Subcommand::SendArchive),
        ("manage", Subcommand::Manage),
        ("editor", Subcommand::Editor),
        ("manager", Subcommand::Manager),
        ("--version", Subcommand::Version),
        ("-V", Subcommand::Version),
    ] {
        assert_eq!(parse_subcommand(&args(&[name])), Ok(expected), "{name}");
    }
}

#[test]
fn copy_archive_maps_every_outcome_to_its_notification_and_exit_status() {
    assert_eq!(
        copy_archive_report(CopyAndArchiveOutcome::Close { archived_count: 1 }, false),
        ArchiveReport {
            title: "Annotations copied and archived".to_owned(),
            body: "1 annotation copied as Markdown and archived.".to_owned(),
            failure: false,
        }
    );
    assert_eq!(
        copy_archive_report(CopyAndArchiveOutcome::Close { archived_count: 3 }, false),
        ArchiveReport {
            title: "Annotations copied and archived".to_owned(),
            body: "3 annotations copied as Markdown and archived.".to_owned(),
            failure: false,
        }
    );
    assert_eq!(
        copy_archive_report(
            CopyAndArchiveOutcome::StayOpen {
                message: "Nothing to copy and archive.".to_owned(),
            },
            true,
        ),
        ArchiveReport {
            title: "No annotations".to_owned(),
            body: "There is nothing to copy yet.".to_owned(),
            failure: false,
        }
    );
    assert_eq!(
        copy_archive_report(
            CopyAndArchiveOutcome::StayOpen {
                message: "clipboard write failed".to_owned(),
            },
            false,
        ),
        ArchiveReport {
            title: "Copy and archive failed".to_owned(),
            body: "clipboard write failed".to_owned(),
            failure: true,
        }
    );
    assert_eq!(
        copy_archive_report(
            CopyAndArchiveOutcome::ArchivedActiveRetained {
                message: "store is busy".to_owned(),
            },
            false,
        ),
        ArchiveReport {
            title: "Copy and archive incomplete".to_owned(),
            body: "Copied and archived, but active annotations remain: store is busy".to_owned(),
            failure: true,
        }
    );
}

#[test]
fn paste_and_send_archive_map_every_outcome_to_their_own_wording() {
    assert_eq!(
        deliver_archive_report(
            Delivery::Paste,
            CopyAndArchiveOutcome::Close { archived_count: 1 },
            false,
            true
        ),
        ArchiveReport {
            title: "Annotations pasted and archived".to_owned(),
            body: "1 annotation pasted into the agent's prompt and archived.".to_owned(),
            failure: false,
        }
    );
    assert_eq!(
        deliver_archive_report(
            Delivery::Send,
            CopyAndArchiveOutcome::Close { archived_count: 3 },
            false,
            true
        ),
        ArchiveReport {
            title: "Annotations sent and archived".to_owned(),
            body: "3 annotations sent to the agent and archived.".to_owned(),
            failure: false,
        }
    );
    for (delivery, body) in [
        (Delivery::Paste, "There is nothing to paste yet."),
        (Delivery::Send, "There is nothing to send yet."),
    ] {
        assert_eq!(
            deliver_archive_report(
                delivery,
                CopyAndArchiveOutcome::StayOpen {
                    message: "Nothing to copy and archive.".to_owned(),
                },
                true,
                false
            ),
            ArchiveReport {
                title: "No annotations".to_owned(),
                body: body.to_owned(),
                failure: false,
            }
        );
    }
    let refusal = "The agent is waiting on a prompt. Nothing was sent; your annotations are still active.";
    assert_eq!(
        deliver_archive_report(
            Delivery::Send,
            CopyAndArchiveOutcome::StayOpen {
                message: refusal.to_owned(),
            },
            false,
            false
        ),
        ArchiveReport {
            title: "Send failed".to_owned(),
            body: refusal.to_owned(),
            failure: true,
        }
    );
    assert_eq!(
        deliver_archive_report(
            Delivery::Send,
            CopyAndArchiveOutcome::StayOpen {
                message: "archive store is busy".to_owned(),
            },
            false,
            true
        ),
        ArchiveReport {
            title: "Annotations sent, not archived".to_owned(),
            body: "Sent to the agent, but archiving failed, so your annotations are still \
                   active: archive store is busy"
                .to_owned(),
            failure: true,
        }
    );
    assert_eq!(
        deliver_archive_report(
            Delivery::Paste,
            CopyAndArchiveOutcome::ArchivedActiveRetained {
                message: "store is busy".to_owned(),
            },
            false,
            true
        ),
        ArchiveReport {
            title: "Paste and archive incomplete".to_owned(),
            body: "Pasted into the agent's prompt and archived, but active annotations \
                   remain: store is busy"
                .to_owned(),
            failure: true,
        }
    );
}

#[test]
fn copy_context_reports_nothing_or_the_count() {
    assert_eq!(
        copy_context_report(0),
        ArchiveReport {
            title: "No annotations".to_owned(),
            body: "There is nothing to copy yet.".to_owned(),
            failure: false,
        }
    );
    assert_eq!(
        copy_context_report(1).body,
        "1 annotation copied as Markdown."
    );
    assert_eq!(
        copy_context_report(12).body,
        "12 annotations copied as Markdown."
    );
}

#[test]
fn capitalizing_changes_only_the_first_character() {
    assert_eq!(capitalized("sent to the agent"), "Sent to the agent");
    assert_eq!(capitalized("éa"), "Éa");
    assert_eq!(capitalized("ß"), "SS");
    assert_eq!(capitalized(""), "");
}

#[test]
fn a_failed_delivery_is_titled_by_its_action() {
    assert_eq!(delivery_failed_title(Delivery::Paste), "Paste failed");
    assert_eq!(delivery_failed_title(Delivery::Send), "Send failed");
}

#[test]
fn the_editor_and_manager_panes_open_with_their_arguments() {
    assert_eq!(
        editor_pane_arguments("/plugin", "/state/pending-1-2.json"),
        args(&[
            "plugin",
            "pane",
            "open",
            "--cwd",
            "/plugin",
            "--plugin",
            "annotate",
            "--entrypoint",
            "editor",
            "--placement",
            "popup",
            "--width",
            "88",
            "--height",
            "24",
            "--env",
            "HERDR_ANNOTATE_PENDING=/state/pending-1-2.json",
            "--focus",
        ])
    );
    assert_eq!(
        manager_pane_arguments("/plugin"),
        args(&[
            "plugin",
            "pane",
            "open",
            "--cwd",
            "/plugin",
            "--plugin",
            "annotate",
            "--entrypoint",
            "manager",
            "--placement",
            "popup",
            "--width",
            "100",
            "--height",
            "30",
            "--focus",
        ])
    );
}

#[test]
fn pending_files_are_named_by_time_and_process() {
    assert_eq!(pending_file_name(1_700_000_000_123, 4242), "pending-1700000000123-4242.json");
    assert_eq!(pending_file_name(0, 0), "pending-0-0.json");
}

#[test]
fn the_invocation_document_falls_back_to_an_empty_object() {
    assert_eq!(invocation_context_value(None), JsonValue::Object(Vec::new()));
    assert_eq!(invocation_context_value(Some("not json")), JsonValue::Object(Vec::new()));
    assert_eq!(
        invocation_context_value(Some(r#"{"selected_text":"x"}"#)),
        decode_json(r#"{"selected_text":"x"}"#).expect("json")
    );
}

struct Recorded {
    events: Vec<String>,
    written: Option<(String, PendingAnnotation)>,
    opened: Option<Vec<String>>,
}

/// Run capture's steps against scripted answers, recording what it asked for.
fn run_capture(
    invocation: &str,
    has_state_dir: bool,
    root: Option<&str>,
    handoff: Result<Option<String>, String>,
    clipboard: Result<String, String>,
    open: Result<(), String>,
) -> (Result<(), String>, Recorded) {
    let inputs = CaptureInputs {
        invocation: invocation_context_value(Some(invocation)),
        has_state_dir,
        plugin_root: root.map(str::to_owned),
        millis: 17,
        pid: 3,
    };
    let mut record = Recorded {
        events: Vec::new(),
        written: None,
        opened: None,
    };
    let mut replies = CaptureReplies::new();
    loop {
        match capture_step(&inputs, &replies) {
            CaptureStep::TakeHandoff => {
                record.events.push("handoff".to_owned());
                replies.handoff = Some(handoff.clone());
            }
            CaptureStep::ReadClipboard => {
                record.events.push("clipboard".to_owned());
                replies.clipboard = Some(clipboard.clone());
            }
            CaptureStep::Notify(title, body) => {
                record.events.push(format!("notify {title}: {body}"));
                replies.notified = true;
            }
            CaptureStep::CreateStateDir => {
                record.events.push("mkdir".to_owned());
                replies.created = Some(Ok(()));
            }
            CaptureStep::Now => replies.captured_at = Some("2026-09-01T00:00:00.000Z".to_owned()),
            CaptureStep::PendingPath(name) => replies.raw_path = Some(format!("//?/C:/state/{name}")),
            CaptureStep::WritePending(path, pending) => {
                record.events.push("write".to_owned());
                record.written = Some((path, pending));
                replies.written = Some(Ok(()));
            }
            CaptureStep::OpenEditor(arguments) => {
                record.events.push("open".to_owned());
                record.opened = Some(arguments);
                replies.opened = Some(open.clone());
            }
            CaptureStep::RemovePending(path) => {
                record.events.push(format!("remove {path}"));
                replies.removed = true;
            }
            CaptureStep::Finish(result) => return (result, record),
        }
    }
}

#[test]
fn capture_writes_the_invocation_selection_then_opens_the_editor() {
    let (result, record) = run_capture(
        r#"{"selected_text":"picked","workspace_id":"w1","focused_pane_id":"w1:p2"}"#,
        true,
        Some(r"\\?\C:\plugin"),
        Ok(Some("handed".to_owned())),
        Ok("copied".to_owned()),
        Ok(()),
    );
    assert_eq!(result, Ok(()));
    assert_eq!(record.events, ["mkdir", "write", "open"]);
    let (path, pending) = record.written.expect("written");
    assert_eq!(path, "C:/state/pending-17-3.json");
    assert_eq!(pending.selected_text, "picked");
    assert_eq!(pending.context.workspace_id.as_deref(), Some("w1"));
    assert_eq!(pending.context.focused_pane_id.as_deref(), Some("w1:p2"));
    assert_eq!(pending.captured_at, "2026-09-01T00:00:00.000Z");
    assert_eq!(
        record.opened.expect("opened"),
        editor_pane_arguments(r"C:\plugin", "C:/state/pending-17-3.json")
    );
}

#[test]
fn capture_falls_back_to_the_handoff_then_the_clipboard() {
    let (result, record) = run_capture("{}", true, Some("/p"), Ok(Some("handed".to_owned())), Ok("copied".to_owned()), Ok(()));
    assert_eq!(result, Ok(()));
    assert_eq!(record.events, ["handoff", "mkdir", "write", "open"]);
    assert_eq!(record.written.expect("written").1.selected_text, "handed");

    let (result, record) = run_capture("{}", true, Some("/p"), Ok(None), Ok("copied".to_owned()), Ok(()));
    assert_eq!(result, Ok(()));
    assert_eq!(record.events, ["handoff", "clipboard", "mkdir", "write", "open"]);
    assert_eq!(record.written.expect("written").1.selected_text, "copied");

    let (result, _) = run_capture("{}", true, Some("/p"), Ok(None), Err("No supported clipboard reader is available".to_owned()), Ok(()));
    assert_eq!(result, Err("No supported clipboard reader is available".to_owned()));
}

#[test]
fn a_blank_capture_only_notifies() {
    let (result, record) = run_capture("{}", true, Some("/p"), Ok(None), Ok(" \n\t".to_owned()), Ok(()));
    assert_eq!(result, Ok(()));
    assert_eq!(
        record.events,
        [
            "handoff",
            "clipboard",
            "notify Nothing to annotate: Select text in Herdr or copy text to the clipboard."
        ]
    );
    assert!(record.written.is_none());
}

#[test]
fn a_failed_editor_open_removes_the_pending_file() {
    let (result, record) = run_capture(
        r#"{"selected_text":"picked"}"#,
        true,
        Some("/p"),
        Ok(None),
        Ok(String::new()),
        Err("herdr plugin pane open failed".to_owned()),
    );
    assert_eq!(result, Err("herdr plugin pane open failed".to_owned()));
    assert_eq!(
        record.events,
        ["mkdir", "write", "open", "remove C:/state/pending-17-3.json"]
    );
}

#[test]
fn capture_needs_the_state_directory_and_the_plugin_root() {
    let (result, record) = run_capture("{}", false, Some("/p"), Ok(None), Ok("x".to_owned()), Ok(()));
    assert_eq!(result, Err("HERDR_PLUGIN_STATE_DIR is not set".to_owned()));
    assert!(record.events.is_empty());
    let (result, _) = run_capture("{}", true, None, Ok(None), Ok("x".to_owned()), Ok(()));
    assert_eq!(result, Err("HERDR_PLUGIN_ROOT is not set".to_owned()));
    let (result, _) = run_capture("{}", true, Some(""), Ok(None), Ok("x".to_owned()), Ok(()));
    assert_eq!(result, Err("HERDR_PLUGIN_ROOT is not set".to_owned()));
}

fn annotation(id: &str) -> Annotation {
    Annotation {
        selected_text: format!("selection {id}"),
        context: InvocationContext::default(),
        captured_at: "captured".to_owned(),
        id: id.to_owned(),
        comment: format!("comment {id}"),
        created_at: "created".to_owned(),
    }
}

/// Run copy-context's steps against a scripted load and write, recording what it asked for.
fn run_copy_context(
    has_state_dir: bool,
    loaded: Result<Vec<Annotation>, String>,
    written: Result<(), String>,
) -> (Result<(), String>, Vec<String>, Option<String>) {
    let mut events = Vec::new();
    let mut copied = None;
    let mut replies = CopyContextReplies {
        loaded: None,
        written: None,
        notified: false,
    };
    loop {
        match copy_context_step(has_state_dir, &replies) {
            CopyContextStep::Load => {
                events.push("load".to_owned());
                replies.loaded = Some(loaded.clone());
            }
            CopyContextStep::Write(args, text) => {
                events.push(format!("write {}", args.join(" ")));
                copied = Some(text);
                replies.written = Some(written.clone());
            }
            CopyContextStep::Notify(title, body) => {
                events.push(format!("{title}: {body}"));
                replies.notified = true;
            }
            CopyContextStep::Finish(result) => return (result, events, copied),
        }
    }
}

#[test]
fn copy_context_with_an_empty_store_notifies_and_succeeds() {
    let (result, events, copied) = run_copy_context(true, Ok(Vec::new()), Ok(()));
    assert_eq!(result, Ok(()));
    assert_eq!(events, ["load", "No annotations: There is nothing to copy yet."]);
    assert!(copied.is_none());
}

#[test]
fn copy_context_writes_newest_first_then_reports_the_count() {
    let (result, events, copied) =
        run_copy_context(true, Ok(vec![annotation("one"), annotation("two")]), Ok(()));
    assert_eq!(result, Ok(()));
    assert_eq!(
        events,
        [
            "load",
            "write clipboard set --stdin",
            "Annotations copied: 2 annotations copied as Markdown."
        ]
    );
    let copied = copied.expect("written");
    assert!(copied.find("selection two") < copied.find("selection one"));

    let (failed, events, _) = run_copy_context(
        true,
        Ok(vec![annotation("one")]),
        Err("herdr clipboard set --stdin failed".to_owned()),
    );
    assert_eq!(failed, Err("herdr clipboard set --stdin failed".to_owned()));
    assert_eq!(events, ["load", "write clipboard set --stdin"]);
    let (missing, events, _) = run_copy_context(false, Ok(Vec::new()), Ok(()));
    assert_eq!(missing, Err("HERDR_PLUGIN_STATE_DIR is not set".to_owned()));
    assert!(events.is_empty());
    let (busy, events, _) =
        run_copy_context(true, Err("Annotations are busy; try again.".to_owned()), Ok(()));
    assert_eq!(busy, Err("Annotations are busy; try again.".to_owned()));
    assert_eq!(events, ["load"]);
}

#[test]
fn manage_opens_the_manager_pane_with_its_arguments() {
    let opened = RefCell::new(Vec::new());
    let result = manage(Some(r"\\?\C:\plugin".to_owned()), |args: Vec<String>| {
        *opened.borrow_mut() = args;
        Ok(())
    }).0;
    assert_eq!(result, Ok(()));
    assert_eq!(*opened.borrow(), manager_pane_arguments(r"C:\plugin"));
    assert_eq!(
        manage(None, |_: Vec<String>| Ok(())).0,
        Err("HERDR_PLUGIN_ROOT is not set".to_owned())
    );
    assert_eq!(
        manage(Some(String::new()), |_: Vec<String>| Ok(())).0,
        Err("HERDR_PLUGIN_ROOT is not set".to_owned())
    );
    assert_eq!(
        manage(Some("/p".to_owned()), |_: Vec<String>| Err("no herdr".to_owned())).0,
        Err("no herdr".to_owned())
    );
}

#[test]
fn failures_are_notified_under_their_command_title() {
    assert_eq!(failure_title(Subcommand::Capture), Some("Annotate failed"));
    assert_eq!(failure_title(Subcommand::CopyContext), Some("Copy failed"));
    assert_eq!(failure_title(Subcommand::Manage), Some("Unable to open annotations"));
    assert_eq!(failure_title(Subcommand::CopyArchive), None);
    assert_eq!(failure_title(Subcommand::SendArchive), None);
}
