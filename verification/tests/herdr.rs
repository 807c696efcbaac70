use herdr_annotate::herdr::{
    client_clipboard_arguments, herdr_call_failed, herdr_command_name, herdr_failure, notification_arguments,
    run_herdr_output_result, run_herdr_result, ProcessExit,
};

fn args(values: &[&str]) -> Vec<String> {
    values.iter().map(|value| (*value).to_owned()).collect()
}

fn exited(success: bool, stdout: &str, stderr: &str) -> ProcessExit {
    ProcessExit::Exited {
        success,
        stdout: stdout.to_owned(),
        stderr: stderr.to_owned(),
    }
}

#[test]
fn a_failed_call_reports_its_stderr_or_the_whole_call() {
    let call = args(&["plugin", "pane", "open"]);
    assert_eq!(run_herdr_result(&call, exited(true, "", "ignored")), Ok(()));
    assert_eq!(
        run_herdr_result(&call, exited(false, "", "  no such pane\n")),
        Err("no such pane".to_owned())
    );
    assert_eq!(
        run_herdr_result(&call, exited(false, "", " \n")),
        Err("herdr plugin pane open failed".to_owned())
    );
    assert_eq!(
        run_herdr_result(&call, ProcessExit::NotStarted { error: "not found".to_owned() }),
        Err("herdr plugin pane open failed".to_owned())
    );
}

#[test]
fn an_output_call_never_repeats_later_arguments() {
    let call = args(&["agent", "prompt", "w1:p2", "secret annotation text"]);
    assert_eq!(
        run_herdr_output_result(&call, exited(true, "{\"ok\":true}", "")),
        Ok("{\"ok\":true}".to_owned())
    );
    assert_eq!(
        run_herdr_output_result(&call, exited(false, "", "")),
        Err("herdr agent prompt failed".to_owned())
    );
    assert_eq!(
        run_herdr_output_result(&call, exited(false, "", "{\"error\":{}}\n")),
        Err("{\"error\":{}}".to_owned())
    );
    assert_eq!(
        run_herdr_output_result(&call, ProcessExit::NotStarted { error: "No such file".to_owned() }),
        Err("cannot run herdr agent prompt: No such file".to_owned())
    );
    assert_eq!(herdr_command_name(&args(&["one"])), "one");
    assert_eq!(herdr_command_name(&Vec::<String>::new()), "");
}

#[test]
fn failure_messages_fall_back_when_stderr_is_blank() {
    assert_eq!(herdr_failure("\tboom \n", "fallback".to_owned()), "boom");
    assert_eq!(herdr_failure("", "fallback".to_owned()), "fallback");
    assert_eq!(herdr_call_failed(&args(&["a", "b"])), "herdr a b failed");
    assert_eq!(herdr_call_failed(&Vec::new()), "herdr  failed");
}

#[test]
fn notifications_carry_a_body_only_when_given() {
    assert_eq!(
        notification_arguments("Title", Some("Body")),
        args(&["notification", "show", "Title", "--body", "Body"])
    );
    assert_eq!(
        notification_arguments("Title", None),
        args(&["notification", "show", "Title"])
    );
}

#[test]
fn global_copies_hand_the_text_to_herdr_on_stdin() {
    assert_eq!(client_clipboard_arguments(), args(&["clipboard", "set", "--stdin"]));
    assert_eq!(
        run_herdr_result(&client_clipboard_arguments(), exited(false, "", "")),
        Err("herdr clipboard set --stdin failed".to_owned())
    );
}
