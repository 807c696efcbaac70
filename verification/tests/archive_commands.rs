use herdr_annotate::agent_delivery::Delivery;
use herdr_annotate::archive_commands::{
    archive_command_step, ArchiveAction, ArchiveCommandReplies, ArchiveCommandStep,
};
use herdr_annotate::herdr::notification_arguments;
use herdr_annotate::json::decode_json;
use herdr_annotate::store::{
    append_archived_set, load_annotations, remove_annotations_by_id, StoreResult,
};
use herdr_annotate::types::{parse_invocation_context, Annotation, InvocationContext};

fn annotation(id: &str) -> Annotation {
    Annotation {
        selected_text: format!("selection {id}"),
        context: InvocationContext::default(),
        captured_at: "2026-09-24T00:00:00Z".to_owned(),
        id: id.to_owned(),
        comment: format!("comment {id}"),
        created_at: "2026-09-24T00:00:01Z".to_owned(),
    }
}

fn agent_record(status: &str) -> String {
    format!(
        r#"{{"id":"cli:agent:get","result":{{"agent":{{"agent":"aider","agent_status":"{status}","pane_id":"w1:p2"}},"type":"agent_info"}}}}"#
    )
}

/// The scripted answers of one run.
struct Script {
    loaded: StoreResult<Vec<Annotation>>,
    written: Result<(), String>,
    checked: Result<String, String>,
    typed: Result<String, String>,
    saved: StoreResult<()>,
    removed: StoreResult<()>,
}

fn script(loaded: Vec<Annotation>) -> Script {
    Script {
        loaded: Ok(loaded),
        written: Ok(()),
        checked: Ok(agent_record("idle")),
        typed: Ok(String::new()),
        saved: Ok(()),
        removed: Ok(()),
    }
}

/// Run a command to the end, recording each step, and return the steps and the result.
fn run(
    action: ArchiveAction,
    has_state_dir: bool,
    pane: Option<&str>,
    script: Script,
) -> (Vec<String>, Result<(), String>) {
    let mut replies = ArchiveCommandReplies::new();
    let mut events = Vec::new();
    for _ in 0..32 {
        match archive_command_step(action, has_state_dir, pane, &replies) {
            ArchiveCommandStep::Load => {
                events.push("load".to_owned());
                replies.archive.loaded = Some(script.loaded.clone());
            }
            ArchiveCommandStep::WriteClipboard(args, text) => {
                events.push(format!("write {} | {}", args.join(" "), text.lines().next().unwrap_or("")));
                replies.archive.delivered = Some(script.written.clone());
            }
            ArchiveCommandStep::Check(args) => {
                events.push(args.join(" "));
                replies.delivery.checked = Some(script.checked.clone());
            }
            ArchiveCommandStep::Type(args) => {
                events.push(args.join(" "));
                replies.delivery.typed = Some(script.typed.clone());
            }
            ArchiveCommandStep::Delivered(result) => {
                events.push(format!("delivered {result:?}"));
                replies.archive.delivered = Some(result);
            }
            ArchiveCommandStep::CreateArchiveId => {
                events.push("id".to_owned());
                replies.archive.archive_id = Some("archive-one".to_owned());
            }
            ArchiveCommandStep::Now => {
                events.push("now".to_owned());
                replies.archive.archived_at = Some("2026-09-24T00:00:02Z".to_owned());
            }
            ArchiveCommandStep::Save(set) => {
                let ids: Vec<String> = set.annotations.iter().map(|a| a.id.clone()).collect();
                events.push(format!("save {} {} {}", set.id, set.archived_at, ids.join(",")));
                replies.archive.saved = Some(script.saved.clone());
            }
            ArchiveCommandStep::RemoveActive(ids) => {
                events.push(format!("remove {}", ids.join(",")));
                replies.archive.removed = Some(script.removed.clone());
            }
            ArchiveCommandStep::Notify(title, body) => {
                events.push(format!("notify {title}: {body}"));
                replies.notified = true;
            }
            ArchiveCommandStep::Finish(result) => return (events, result),
        }
    }
    panic!("the command did not finish: {events:?}");
}

#[test]
fn copy_archive_copies_through_herdr_then_archives_and_clears() {
    let (events, result) = run(
        ArchiveAction::Copy,
        true,
        None,
        script(vec![annotation("one"), annotation("two")]),
    );
    assert_eq!(
        events,
        [
            "load",
            "write clipboard set --stdin | # Annotated context",
            "id",
            "now",
            "save archive-one 2026-09-24T00:00:02Z one,two",
            "remove one,two",
            "notify Annotations copied and archived: 2 annotations copied as Markdown and archived.",
        ]
    );
    assert_eq!(result, Ok(()));
}

#[test]
fn copy_archive_failure_to_copy_keeps_everything_active() {
    let mut answers = script(vec![annotation("one")]);
    answers.written = Err("herdr clipboard set failed".to_owned());
    let (events, result) = run(ArchiveAction::Copy, true, None, answers);
    assert_eq!(
        events,
        [
            "load",
            "write clipboard set --stdin | # Annotated context",
            "notify Copy and archive failed: herdr clipboard set failed",
        ]
    );
    assert_eq!(result, Err("herdr clipboard set failed".to_owned()));
}

#[test]
fn copy_archive_of_an_empty_store_reports_nothing_to_copy() {
    let (events, result) = run(ArchiveAction::Copy, true, None, script(Vec::new()));
    assert_eq!(events, ["load", "notify No annotations: There is nothing to copy yet."]);
    assert_eq!(result, Ok(()));
}

#[test]
fn copy_archive_failure_to_clear_is_reported_as_incomplete() {
    let mut answers = script(vec![annotation("one")]);
    answers.removed = Err("Active store unavailable".to_owned());
    let (events, result) = run(ArchiveAction::Copy, true, None, answers);
    assert_eq!(
        events.last().map(String::as_str),
        Some(
            "notify Copy and archive incomplete: Copied and archived, but active annotations remain: Active store unavailable"
        )
    );
    assert!(result.is_err());
}

#[test]
fn paste_archive_checks_the_agent_then_types_then_archives() {
    let (events, result) = run(
        ArchiveAction::Deliver(Delivery::Paste),
        true,
        Some("w1:p2"),
        script(vec![annotation("one")]),
    );
    assert_eq!(events[0], "load");
    assert_eq!(events[1], "agent get w1:p2");
    assert!(events[2].starts_with("pane send-text w1:p2 \u{1b}[200~# Annotated context"));
    assert!(events[2].ends_with("\u{1b}[201~"));
    assert_eq!(
        events[3..],
        [
            "delivered Ok(())",
            "id",
            "now",
            "save archive-one 2026-09-24T00:00:02Z one",
            "remove one",
            "notify Annotations pasted and archived: 1 annotation pasted into the agent's prompt and archived.",
        ]
    );
    assert_eq!(result, Ok(()));
}

#[test]
fn send_archive_refused_by_a_blocked_agent_archives_nothing() {
    let mut answers = script(vec![annotation("one")]);
    answers.checked = Ok(agent_record("blocked"));
    let (events, result) = run(
        ArchiveAction::Deliver(Delivery::Send),
        true,
        Some("w1:p2"),
        answers,
    );
    let message =
        "The agent is waiting on a prompt. Nothing was sent; your annotations are still active.";
    assert_eq!(
        events,
        [
            "load".to_owned(),
            "agent get w1:p2".to_owned(),
            format!("delivered Err({message:?})"),
            format!("notify Send failed: {message}"),
        ]
    );
    assert_eq!(result, Err(message.to_owned()));
}

#[test]
fn send_archive_without_a_pane_calls_no_herdr_command() {
    let (events, result) = run(
        ArchiveAction::Deliver(Delivery::Send),
        true,
        None,
        script(vec![annotation("one")]),
    );
    let message = "Herdr did not say which pane is focused. Nothing was sent; your annotations are still active.";
    assert_eq!(
        events,
        [
            "load".to_owned(),
            format!("delivered Err({message:?})"),
            format!("notify Send failed: {message}"),
        ]
    );
    assert_eq!(result, Err(message.to_owned()));
}

#[test]
fn an_archive_command_without_a_state_directory_fails_at_once() {
    let (events, result) = run(
        ArchiveAction::Deliver(Delivery::Paste),
        false,
        Some("w1:p2"),
        script(vec![annotation("one")]),
    );
    assert_eq!(events, ["notify Paste failed: HERDR_PLUGIN_STATE_DIR is not set"]);
    assert_eq!(result, Err("HERDR_PLUGIN_STATE_DIR is not set".to_owned()));
    let (events, _) = run(ArchiveAction::Copy, false, None, script(Vec::new()));
    assert_eq!(events, ["notify Copy and archive failed: HERDR_PLUGIN_STATE_DIR is not set"]);
}

#[test]
fn an_archive_failure_after_delivery_says_the_agent_has_the_text() {
    let mut answers = script(vec![annotation("one")]);
    answers.saved = Err("Archive unavailable".to_owned());
    let (events, result) = run(
        ArchiveAction::Deliver(Delivery::Send),
        true,
        Some("w1:p2"),
        answers,
    );
    assert_eq!(
        events.last().map(String::as_str),
        Some(
            "notify Annotations sent, not archived: Sent to the agent, but archiving failed, so your annotations are still active: Archive unavailable"
        )
    );
    assert!(!events.iter().any(|event| event.starts_with("remove")));
    assert!(result.is_err());
}

const SEEDED: &str = "{\"selectedText\":\"first selection\",\"capturedAt\":\"2026-09-24T00:00:00.000Z\",\"context\":{},\"id\":\"one\",\"comment\":\"first comment\",\"createdAt\":\"2026-09-24T00:00:01.000Z\"}\n{\"selectedText\":\"second selection\",\"capturedAt\":\"2026-09-24T00:00:02.000Z\",\"context\":{},\"id\":\"two\",\"comment\":\"second comment\",\"createdAt\":\"2026-09-24T00:00:03.000Z\"}\n";

const FOCUSED: &str = r#"{"focused_pane_id":"w1:p2"}"#;

/// The stores and Herdr of one command run: the active and archive files as text, the answer
/// of `agent get`, and whether `agent prompt` fails with a stderr.
struct World {
    active: String,
    archives: String,
    agent_get: String,
    prompt_stderr: Option<String>,
}

fn seeded(agent_get: &str) -> World {
    World {
        active: SEEDED.to_owned(),
        archives: String::new(),
        agent_get: agent_get.to_owned(),
        prompt_stderr: None,
    }
}

/// Run a delivery command with the invocation `context`, logging each Herdr call as the
/// arguments one per line followed by `--`.
fn deliver(delivery: Delivery, context: Option<&str>, world: &mut World) -> (Result<(), String>, String) {
    let pane = context
        .and_then(decode_json)
        .map(|value| parse_invocation_context(&value))
        .and_then(|context| context.focused_pane_id);
    let mut replies = ArchiveCommandReplies::new();
    let mut calls = String::new();
    let mut log = |args: &[String]| {
        for arg in args {
            calls.push_str(arg);
            calls.push('\n');
        }
        calls.push_str("--\n");
    };
    loop {
        match archive_command_step(ArchiveAction::Deliver(delivery), true, pane.as_deref(), &replies) {
            ArchiveCommandStep::Load => replies.archive.loaded = Some(load_annotations(&world.active)),
            ArchiveCommandStep::WriteClipboard(args, _) => {
                log(&args);
                replies.archive.delivered = Some(Ok(()));
            }
            ArchiveCommandStep::Check(args) => {
                log(&args);
                replies.delivery.checked = Some(Ok(world.agent_get.clone()));
            }
            ArchiveCommandStep::Type(args) => {
                log(&args);
                replies.delivery.typed = Some(match (&world.prompt_stderr, args[1].as_str()) {
                    (Some(stderr), "prompt") => Err(stderr.clone()),
                    _ => Ok(String::new()),
                });
            }
            ArchiveCommandStep::Delivered(result) => replies.archive.delivered = Some(result),
            ArchiveCommandStep::CreateArchiveId => {
                replies.archive.archive_id = Some("archive-one".to_owned());
            }
            ArchiveCommandStep::Now => {
                replies.archive.archived_at = Some("2026-09-24T00:00:04.000Z".to_owned());
            }
            ArchiveCommandStep::Save(set) => {
                let saved = append_archived_set(&world.archives, &set);
                if let Ok(text) = &saved {
                    world.archives = text.clone();
                }
                replies.archive.saved = Some(saved.map(|_| ()));
            }
            ArchiveCommandStep::RemoveActive(ids) => {
                let removed = remove_annotations_by_id(&world.active, &ids);
                if let Ok(text) = &removed {
                    world.active = text.clone();
                }
                replies.archive.removed = Some(removed.map(|_| ()));
            }
            ArchiveCommandStep::Notify(title, body) => {
                log(&notification_arguments(&title, Some(&body)));
                replies.notified = true;
            }
            ArchiveCommandStep::Finish(result) => return (result, calls),
        }
    }
}

fn archived(world: &World) -> usize {
    world.archives.lines().count()
}

#[test]
fn send_archive_prompts_the_focused_agent_then_archives() {
    let mut world = seeded(&agent_record("idle"));
    let (result, calls) = deliver(Delivery::Send, Some(FOCUSED), &mut world);
    assert!(result.is_ok(), "{result:?}");
    assert!(
        calls.starts_with(
            "agent\nget\nw1:p2\n--\nagent\nprompt\nw1:p2\n# Annotated context\n\n## Annotation 1\n"
        ),
        "{calls}"
    );
    assert!(calls.find("second selection") < calls.find("first selection"));
    assert!(!calls.contains('\x1b'), "{calls}");
    assert!(calls.ends_with(
        "--\nnotification\nshow\nAnnotations sent and archived\n--body\n\
         2 annotations sent to the agent and archived.\n--\n"
    ));
    assert_eq!(world.active, "");
    assert_eq!(archived(&world), 1);
}

#[test]
fn paste_archive_checks_the_agent_then_types_one_bracketed_paste() {
    let mut world = seeded(&agent_record("idle"));
    let (result, calls) = deliver(Delivery::Paste, Some(FOCUSED), &mut world);
    assert!(result.is_ok(), "{result:?}");
    assert!(
        calls.starts_with(
            "agent\nget\nw1:p2\n--\npane\nsend-text\nw1:p2\n\x1b[200~# Annotated context\n"
        ),
        "{calls}"
    );
    assert!(calls.contains(
        "first comment\n\x1b[201~\n--\nnotification\nshow\nAnnotations pasted and archived\n"
    ));
    assert_eq!(calls.matches('\x1b').count(), 2);
    assert_eq!(world.active, "");
    assert_eq!(archived(&world), 1);
}

#[test]
fn paste_archive_refuses_a_blocked_agent_and_keeps_the_store() {
    let mut world = seeded(&agent_record("blocked"));
    let (result, calls) = deliver(Delivery::Paste, Some(FOCUSED), &mut world);
    assert!(result.is_err());
    assert_eq!(
        calls,
        "agent\nget\nw1:p2\n--\nnotification\nshow\nPaste failed\n--body\n\
         The agent is waiting on a prompt. Nothing was pasted; your annotations are still active.\n--\n"
    );
    assert_eq!(world.active, SEEDED);
    assert_eq!(archived(&world), 0);
}

#[test]
fn send_archive_turns_herdrs_refusal_into_words_and_keeps_the_store() {
    let mut world = seeded(&agent_record("idle"));
    world.prompt_stderr = Some(
        r#"{"error":{"code":"agent_not_found","message":"agent target w1:p2 not found"},"id":"cli:agent:prompt"}"#
            .to_owned(),
    );
    let (result, calls) = deliver(Delivery::Send, Some(FOCUSED), &mut world);
    assert!(result.is_err());
    assert!(
        calls.ends_with(
            "--\nnotification\nshow\nSend failed\n--body\n\
             No agent is running in the focused pane. Nothing was sent; your annotations are still active.\n--\n"
        ),
        "{calls}"
    );
    assert_eq!(world.active, SEEDED);
    assert_eq!(archived(&world), 0);
}

#[test]
fn send_archive_refuses_an_agent_that_is_not_ready_without_prompting() {
    let blocked = agent_record("blocked");
    let exited = r#"{"id":"cli:agent:get","result":{"agent":{"name":"shell","agent_status":"idle","pane_id":"w1:p2"},"type":"agent_info"}}"#;
    let launching = r#"{"id":"cli:agent:get","result":{"agent":{"agent":"aider","agent_status":"unknown","launch_pending":true,"pane_id":"w1:p2"},"type":"agent_info"}}"#;
    for (record, reason) in [
        (blocked.as_str(), "The agent is waiting on a prompt."),
        (exited, "No agent is running in the focused pane."),
        (launching, "The agent is not ready for input yet."),
    ] {
        let mut world = seeded(record);
        let (result, calls) = deliver(Delivery::Send, Some(FOCUSED), &mut world);
        assert!(result.is_err(), "{reason}");
        assert_eq!(
            calls,
            format!(
                "agent\nget\nw1:p2\n--\nnotification\nshow\nSend failed\n--body\n\
                 {reason} Nothing was sent; your annotations are still active.\n--\n"
            )
        );
        assert_eq!(world.active, SEEDED);
        assert_eq!(archived(&world), 0);
    }
}

#[test]
fn paste_archive_refuses_a_pane_whose_agent_exited() {
    let exited = r#"{"id":"cli:agent:get","result":{"agent":{"name":"shell","agent_status":"unknown","pane_id":"w1:p2"},"type":"agent_info"}}"#;
    let mut world = seeded(exited);
    let (result, calls) = deliver(Delivery::Paste, Some(FOCUSED), &mut world);
    assert!(result.is_err());
    assert_eq!(
        calls,
        "agent\nget\nw1:p2\n--\nnotification\nshow\nPaste failed\n--body\n\
         No agent is running in the focused pane. Nothing was pasted; your annotations are still active.\n--\n"
    );
    assert_eq!(world.active, SEEDED);
    assert_eq!(archived(&world), 0);
}

#[test]
fn delivery_without_a_focused_pane_is_refused_before_calling_the_agent() {
    for (delivery, title, past) in [
        (Delivery::Paste, "Paste failed", "pasted"),
        (Delivery::Send, "Send failed", "sent"),
    ] {
        let mut world = seeded(&agent_record("idle"));
        let (result, calls) = deliver(delivery, None, &mut world);
        assert!(result.is_err());
        assert_eq!(
            calls,
            format!(
                "notification\nshow\n{title}\n--body\nHerdr did not say which pane is focused. \
                 Nothing was {past}; your annotations are still active.\n--\n"
            )
        );
        assert_eq!(world.active, SEEDED);
    }
}

#[test]
fn delivery_with_an_empty_store_says_there_is_nothing_to_deliver() {
    for (delivery, verb) in [(Delivery::Paste, "paste"), (Delivery::Send, "send")] {
        let mut world = seeded(&agent_record("idle"));
        world.active = String::new();
        let (result, calls) = deliver(delivery, Some(FOCUSED), &mut world);
        assert!(result.is_ok(), "{result:?}");
        assert_eq!(
            calls,
            format!("notification\nshow\nNo annotations\n--body\nThere is nothing to {verb} yet.\n--\n")
        );
    }
}
