use std::cell::RefCell;

use herdr_annotate::agent_delivery::{
    bracketed_paste, deliver_to_agent, delivery_step, paste_guard, parse_herdr_error,
    refusal_reason, without_escapes, Delivery, DeliveryReplies, DeliveryStep, HerdrError,
};
use herdr_annotate::archive_workflow::{
    copy_and_archive_annotations, CopyAndArchiveDependencies, CopyAndArchiveOutcome,
};
use herdr_annotate::types::{Annotation, InvocationContext};

const PASTE_START: &str = "\x1b[200~";
const PASTE_END: &str = "\x1b[201~";

fn envelope(code: &str, message: &str) -> String {
    format!(r#"{{"error":{{"code":"{code}","message":"{message}"}},"id":"cli:agent:get"}}"#)
}

fn agent_record(status: &str) -> String {
    format!(
        r#"{{"id":"cli:agent:get","result":{{"agent":{{"agent":"aider","agent_status":"{status}","pane_id":"w1:p2"}},"type":"agent_info"}}}}"#
    )
}

fn command(args: &[String]) -> String {
    args.iter().take(2).cloned().collect::<Vec<_>>().join(" ")
}

fn annotation(id: &str) -> Annotation {
    Annotation {
        selected_text: format!("selection {id}"),
        context: InvocationContext::default(),
        captured_at: "2026-09-24T00:00:00Z".to_owned(),
        id: id.to_owned(),
        comment: format!("comment {id}"),
        created_at: "2026-09-24T00:00:01Z".to_owned(),
    }
}

#[test]
fn a_paste_is_the_text_between_bracketed_paste_markers() {
    assert_eq!(
        bracketed_paste("line one\nline two"),
        "\x1b[200~line one\nline two\x1b[201~"
    );
    assert_eq!(bracketed_paste(""), "\x1b[200~\x1b[201~");
    assert_eq!(bracketed_paste("한글 · é"), "\x1b[200~한글 · é\x1b[201~");
}

#[test]
fn an_end_marker_in_the_text_cannot_close_the_paste_early() {
    let payload = bracketed_paste("before\x1b[201~\rafter\x1b[200~");
    assert_eq!(payload, "\x1b[200~before[201~\rafter[200~\x1b[201~");
    assert_eq!(payload.matches(PASTE_END).count(), 1);
    assert!(payload.ends_with(PASTE_END));
    assert_eq!(payload.matches('\x1b').count(), 2);
}

#[test]
fn herdr_error_envelopes_parse_to_code_and_message() {
    assert_eq!(
        parse_herdr_error(&envelope("agent_blocked", "agent w1:p2 is blocked")),
        HerdrError {
            code: Some("agent_blocked".to_owned()),
            message: "agent w1:p2 is blocked".to_owned(),
        }
    );
    assert_eq!(
        parse_herdr_error(&format!(
            "{}\n",
            envelope("agent_not_found", "agent target w1:p2 not found")
        )),
        HerdrError {
            code: Some("agent_not_found".to_owned()),
            message: "agent target w1:p2 not found".to_owned(),
        }
    );
}

#[test]
fn unparseable_stderr_is_kept_as_the_message() {
    assert_eq!(
        parse_herdr_error("connection refused\n"),
        HerdrError {
            code: None,
            message: "connection refused".to_owned(),
        }
    );
    assert_eq!(
        parse_herdr_error(""),
        HerdrError {
            code: None,
            message: String::new(),
        }
    );
}

#[test]
fn refusals_read_as_plain_words() {
    let reason = |stderr: &str| refusal_reason(&parse_herdr_error(stderr));
    assert_eq!(
        reason(&envelope("agent_blocked", "agent w1:p2 is blocked")),
        "The agent is waiting on a prompt."
    );
    assert_eq!(
        reason(&envelope("agent_not_found", "agent target w1:p2 not found")),
        "No agent is running in the focused pane."
    );
    assert_eq!(
        reason(&envelope("socket_error", "boom.")),
        "Herdr refused (socket_error): boom."
    );
    assert_eq!(
        reason("connection refused"),
        "Herdr failed: connection refused."
    );
    assert_eq!(reason(""), "Herdr failed without saying why.");
}

#[test]
fn the_paste_guard_admits_only_a_recognised_agent_not_at_a_dialog() {
    for status in ["idle", "working", "done", "unknown"] {
        assert_eq!(paste_guard(&Ok(agent_record(status))), Ok(()), "{status}");
    }
    assert_eq!(
        paste_guard(&Ok(agent_record("blocked"))),
        Err("The agent is waiting on a prompt.".to_owned())
    );
    assert_eq!(
        paste_guard(&Err(envelope(
            "agent_not_found",
            "agent target w1:p2 not found"
        ))),
        Err("No agent is running in the focused pane.".to_owned())
    );
    assert_eq!(
        paste_guard(&Ok("not json".to_owned())),
        Err("Herdr did not report the agent's state.".to_owned())
    );
    assert_eq!(
        paste_guard(&Ok(r#"{"result":{"agent":{}}}"#.to_owned())),
        Err("Herdr did not report the agent's state.".to_owned())
    );
}

#[test]
fn send_prompts_the_focused_agent_with_the_text_minus_escapes() {
    let calls = RefCell::new(Vec::new());
    let result = deliver_to_agent(
        Delivery::Send,
        Some("w1:p2"),
        "hi\x1b[201~\rthere",
        |args: &[String]| {
            calls.borrow_mut().push(args.to_vec());
            Ok(String::new())
        },
    ).0;
    assert_eq!(result, Ok(()));
    assert_eq!(
        *calls.borrow(),
        [["agent", "prompt", "w1:p2", "hi[201~\rthere"]]
    );
}

#[test]
fn a_blocked_send_reports_why_and_that_nothing_was_sent() {
    let result = deliver_to_agent(Delivery::Send, Some("w1:p2"), "hi", |_: &[String]| {
        Err(envelope("agent_blocked", "agent w1:p2 is blocked"))
    }).0;
    assert_eq!(
        result,
        Err("The agent is waiting on a prompt. Nothing was sent; your annotations are still active.".to_owned())
    );
}

#[test]
fn a_missing_pane_is_refused_without_calling_herdr() {
    for pane in [None, Some("")] {
        let result = deliver_to_agent(Delivery::Paste, pane, "hi", |_: &[String]| {
            Err("herdr must not be called".to_owned())
        }).0;
        assert_eq!(
            result,
            Err("Herdr did not say which pane is focused. Nothing was pasted; your annotations are still active.".to_owned())
        );
    }
}

#[test]
fn paste_checks_the_agent_before_typing_the_bracketed_text() {
    let calls = RefCell::new(Vec::new());
    let result = deliver_to_agent(Delivery::Paste, Some("w1:p2"), "hi", |args: &[String]| {
        calls.borrow_mut().push(args.to_vec());
        Ok(agent_record("idle"))
    }).0;
    assert_eq!(result, Ok(()));
    assert_eq!(
        *calls.borrow(),
        [
            vec!["agent", "get", "w1:p2"],
            vec!["pane", "send-text", "w1:p2", "\x1b[200~hi\x1b[201~"],
        ]
    );
}

#[test]
fn a_refused_paste_archives_nothing() {
    let events = RefCell::new(Vec::new());
    let outcome = copy_and_archive_annotations(CopyAndArchiveDependencies {
        load_active: || {
            events.borrow_mut().push("load".to_owned());
            Ok(vec![annotation("one")])
        },
        deliver: |text: String| {
            deliver_to_agent(Delivery::Paste, Some("w1:p2"), &text, |args: &[String]| {
                events.borrow_mut().push(command(args));
                Ok(agent_record("blocked"))
            }).0
        },
        save_archive: |_| {
            events.borrow_mut().push("archive".to_owned());
            Ok(())
        },
        remove_active: |_| {
            events.borrow_mut().push("remove".to_owned());
            Ok(())
        },
        create_archive_id: || "archive-one".to_owned(),
        now: || "now".to_owned(),
    }).0;
    assert_eq!(
        outcome,
        CopyAndArchiveOutcome::StayOpen {
            message: "The agent is waiting on a prompt. Nothing was pasted; your annotations are still active.".to_owned()
        }
    );
    assert_eq!(*events.borrow(), ["load", "agent get"]);
}

#[test]
fn a_delivered_send_is_archived_afterwards() {
    let events = RefCell::new(Vec::new());
    let prompted = RefCell::new(String::new());
    let outcome = copy_and_archive_annotations(CopyAndArchiveDependencies {
        load_active: || {
            events.borrow_mut().push("load".to_owned());
            Ok(vec![annotation("one"), annotation("two")])
        },
        deliver: |text: String| {
            deliver_to_agent(Delivery::Send, Some("w1:p2"), &text, |args: &[String]| {
                events.borrow_mut().push(command(args));
                args.get(3)
                    .cloned()
                    .unwrap_or_default()
                    .clone_into(&mut prompted.borrow_mut());
                Ok(String::new())
            }).0
        },
        save_archive: |_| {
            events.borrow_mut().push("archive".to_owned());
            Ok(())
        },
        remove_active: |_| {
            events.borrow_mut().push("remove".to_owned());
            Ok(())
        },
        create_archive_id: || "archive-one".to_owned(),
        now: || "now".to_owned(),
    }).0;
    assert_eq!(outcome, CopyAndArchiveOutcome::Close { archived_count: 2 });
    assert_eq!(
        *events.borrow(),
        ["load", "agent prompt", "archive", "remove"]
    );
    assert!(prompted.borrow().find("selection two") < prompted.borrow().find("selection one"));
}

#[test]
fn escapes_are_the_only_characters_removed() {
    assert_eq!(without_escapes("a\x1bb\x1b\x1bc"), "abc");
    assert_eq!(without_escapes("plain 한글"), "plain 한글");
    assert_eq!(without_escapes(""), "");
}

#[test]
fn a_paste_always_opens_and_closes_exactly_once() {
    for text in ["", "x", "\x1b[200~\x1b[201~", "a\x1b\x1bb"] {
        let payload = bracketed_paste(text);
        assert!(payload.starts_with(PASTE_START));
        assert!(payload.ends_with(PASTE_END));
        assert_eq!(payload.matches('\x1b').count(), 2);
    }
}

#[test]
fn other_refusal_codes_have_their_own_words() {
    let reason = |stderr: &str| refusal_reason(&parse_herdr_error(stderr));
    assert_eq!(
        reason(&envelope("agent_not_ready", "not ready")),
        "The agent is not ready for input yet."
    );
    assert_eq!(
        reason(&envelope("pane_not_found", "gone")),
        "The focused pane no longer exists."
    );
    assert_eq!(reason("trailing stops..."), "Herdr failed: trailing stops.");
}

#[test]
fn a_failed_paste_after_the_check_reports_the_refusal() {
    let calls = RefCell::new(0);
    let result = deliver_to_agent(Delivery::Paste, Some("w1:p2"), "hi", |_: &[String]| {
        *calls.borrow_mut() += 1;
        if *calls.borrow() == 1 {
            Ok(agent_record("idle"))
        } else {
            Err(envelope("pane_not_found", "pane gone"))
        }
    }).0;
    assert_eq!(
        result,
        Err("The focused pane no longer exists. Nothing was pasted; your annotations are still active.".to_owned())
    );
}

const EXITED: &str = r#"{"id":"cli:agent:get","result":{"agent":{"name":"shell","agent_status":"unknown","pane_id":"w1:p2"},"type":"agent_info"}}"#;
const LAUNCHING: &str = r#"{"id":"cli:agent:get","result":{"agent":{"agent":"aider","agent_status":"unknown","launch_pending":true,"pane_id":"w1:p2"},"type":"agent_info"}}"#;

#[test]
fn the_guard_refuses_an_exited_or_launching_agent() {
    assert_eq!(
        paste_guard(&Ok(EXITED.to_owned())),
        Err("No agent is running in the focused pane.".to_owned())
    );
    assert_eq!(
        paste_guard(&Ok(EXITED.replace("unknown", "idle"))),
        Err("No agent is running in the focused pane.".to_owned())
    );
    assert_eq!(
        paste_guard(&Ok(LAUNCHING.to_owned())),
        Err("The agent is not ready for input yet.".to_owned())
    );
    assert_eq!(
        paste_guard(&Ok(LAUNCHING.replace("true", "false"))),
        Ok(())
    );
}

#[test]
fn a_paste_to_an_exited_agent_types_nothing() {
    let calls = RefCell::new(Vec::new());
    let result = deliver_to_agent(Delivery::Paste, Some("w1:p2"), "hi", |args: &[String]| {
        calls.borrow_mut().push(command(args));
        Ok(EXITED.to_owned())
    }).0;
    assert_eq!(
        result,
        Err("No agent is running in the focused pane. Nothing was pasted; your annotations are still active.".to_owned())
    );
    assert_eq!(*calls.borrow(), ["agent get"]);
}

/// Run a delivery step by step against scripted Herdr answers, recording the commands.
fn run_delivery(
    delivery: Delivery,
    check_send: bool,
    pane: Option<&str>,
    agent_get: &str,
    typed: Result<String, String>,
) -> (Result<(), String>, Vec<String>) {
    let mut calls = Vec::new();
    let mut replies = DeliveryReplies {
        checked: None,
        typed: None,
    };
    loop {
        match delivery_step(delivery, check_send, pane, "hi", &replies) {
            DeliveryStep::Check(args) => {
                calls.push(command(&args));
                replies.checked = Some(Ok(agent_get.to_owned()));
            }
            DeliveryStep::Type(args) => {
                calls.push(command(&args));
                replies.typed = Some(typed.clone());
            }
            DeliveryStep::Finish(result) => return (result, calls),
        }
    }
}

#[test]
fn a_checked_send_refuses_an_agent_that_is_not_ready_without_prompting() {
    let blocked = agent_record("blocked");
    for (record, reason) in [
        (blocked.as_str(), "The agent is waiting on a prompt."),
        (EXITED, "No agent is running in the focused pane."),
        (LAUNCHING, "The agent is not ready for input yet."),
    ] {
        let (result, calls) = run_delivery(Delivery::Send, true, Some("w1:p2"), record, Ok(String::new()));
        assert_eq!(
            result,
            Err(format!("{reason} Nothing was sent; your annotations are still active."))
        );
        assert_eq!(calls, ["agent get"]);
    }
    let idle = agent_record("idle");
    let (result, calls) = run_delivery(Delivery::Send, true, Some("w1:p2"), &idle, Ok(String::new()));
    assert_eq!(result, Ok(()));
    assert_eq!(calls, ["agent get", "agent prompt"]);
    let (result, calls) = run_delivery(Delivery::Send, false, Some("w1:p2"), &idle, Ok(String::new()));
    assert_eq!(result, Ok(()));
    assert_eq!(calls, ["agent prompt"]);
    let (result, calls) = run_delivery(Delivery::Send, true, None, &idle, Ok(String::new()));
    assert!(result.is_err());
    assert!(calls.is_empty());
}
