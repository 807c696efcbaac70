//! The decisions of the command boundary: which subcommand runs, what each copy, paste or send
//! action reports, and the arguments handed to Herdr.

use vstd::prelude::*;

use crate::agent_delivery::{past_of, verb_of, Delivery};
use crate::archive_workflow::{delivered_text, ArchiveReplies, CopyAndArchiveOutcome};
use crate::format::format_annotations;
use crate::herdr::{argument_texts, client_clipboard_arguments, client_clipboard_arguments_of};
use crate::json::{decode_json, json_document, JsonValue};
use crate::paths::{normalize_windows_path, normalized_windows_path};
use crate::store::{newest_first_annotations, StoreResult};
use crate::text::{decimal, is_javascript_blank, js_trimmed, owned, push_char, unit_result};
use crate::types::{
    annotation_views, context_from_json, parse_invocation_context, selected_text_from_invocation,
    selection_from_json, Annotation, ContextView, PendingAnnotation, PendingView,
};

verus! {

/// The one usage line of the binary.
pub const USAGE: &'static str = "Usage: herdr-annotate <capture|copy-context|copy-archive|paste-archive|send-archive|editor|manage|manager>";

/// The failure when Herdr gave no state directory.
pub const STATE_DIR_MISSING: &'static str = "HERDR_PLUGIN_STATE_DIR is not set";

/// The failure when Herdr gave no plugin root.
pub const ROOT_MISSING: &'static str = "HERDR_PLUGIN_ROOT is not set";

/// The subcommands of the native binary.
#[derive(Debug, Clone, Copy, PartialEq, Eq, Structural)]
pub enum Subcommand {
    Capture,
    CopyContext,
    CopyArchive,
    PasteArchive,
    SendArchive,
    Manage,
    Editor,
    Manager,
    Version,
}

/// The subcommand a name selects.
pub open spec fn subcommand_named(name: Seq<char>) -> Option<Subcommand> {
    if name == "capture"@ {
        Some(Subcommand::Capture)
    } else if name == "copy-context"@ {
        Some(Subcommand::CopyContext)
    } else if name == "copy-archive"@ {
        Some(Subcommand::CopyArchive)
    } else if name == "paste-archive"@ {
        Some(Subcommand::PasteArchive)
    } else if name == "send-archive"@ {
        Some(Subcommand::SendArchive)
    } else if name == "manage"@ {
        Some(Subcommand::Manage)
    } else if name == "editor"@ {
        Some(Subcommand::Editor)
    } else if name == "manager"@ {
        Some(Subcommand::Manager)
    } else if name == "--version"@ || name == "-V"@ {
        Some(Subcommand::Version)
    } else {
        None
    }
}

/// Choose the subcommand: exactly one known name, or the usage line as the error.
pub fn parse_subcommand(args: &[String]) -> (command: Result<Subcommand, String>)
    ensures
        match command {
            Ok(c) => args@.len() == 1 && subcommand_named(args@[0]@) == Some(c),
            Err(message) => message@ == USAGE@ && !(args@.len() == 1 && subcommand_named(
                args@[0]@,
            ) is Some),
        },
{
    if args.len() != 1 {
        return Err(owned(USAGE));
    }
    let name = args[0].as_str();
    let same = |text: &str| -> (b: bool)
        ensures
            b == (name@ == text@),
        { crate::json::same_text(name, text) };
    if same("capture") {
        Ok(Subcommand::Capture)
    } else if same("copy-context") {
        Ok(Subcommand::CopyContext)
    } else if same("copy-archive") {
        Ok(Subcommand::CopyArchive)
    } else if same("paste-archive") {
        Ok(Subcommand::PasteArchive)
    } else if same("send-archive") {
        Ok(Subcommand::SendArchive)
    } else if same("manage") {
        Ok(Subcommand::Manage)
    } else if same("editor") {
        Ok(Subcommand::Editor)
    } else if same("manager") {
        Ok(Subcommand::Manager)
    } else if same("--version") || same("-V") {
        Ok(Subcommand::Version)
    } else {
        Err(owned(USAGE))
    }
}

/// The title of the notification a failed subcommand shows; the archive actions notify
/// through their own reports and the rest show nothing.
pub open spec fn failure_title_of(command: Subcommand) -> Option<Seq<char>> {
    match command {
        Subcommand::Capture => Some("Annotate failed"@),
        Subcommand::CopyContext => Some("Copy failed"@),
        Subcommand::Manage => Some("Unable to open annotations"@),
        _ => None,
    }
}

/// The title of the notification a failed subcommand shows, if it shows one.
pub fn failure_title(command: Subcommand) -> (title: Option<&'static str>)
    ensures
        match failure_title_of(command) {
            Some(t) => title matches Some(s) && s@ == t,
            None => title is None,
        },
{
    match command {
        Subcommand::Capture => Some("Annotate failed"),
        Subcommand::CopyContext => Some("Copy failed"),
        Subcommand::Manage => Some("Unable to open annotations"),
        _ => None,
    }
}

/// The notification and exit status one copy-, paste- or send-and-archive action reports.
#[derive(Debug, Clone, PartialEq, Eq)]
pub struct ArchiveReport {
    pub title: String,
    pub body: String,
    pub failure: bool,
}

/// A report as text.
pub struct ReportView {
    pub title: Seq<char>,
    pub body: Seq<char>,
    pub failure: bool,
}

impl View for ArchiveReport {
    type V = ReportView;

    open spec fn view(&self) -> ReportView {
        ReportView { title: self.title@, body: self.body@, failure: self.failure }
    }
}

/// `1 annotation` or `n annotations`.
pub open spec fn annotation_count(count: nat) -> Seq<char> {
    decimal(count) + if count == 1 {
        " annotation"@
    } else {
        " annotations"@
    }
}

fn count_text(count: usize) -> (text: String)
    ensures
        text@ == annotation_count(count as nat),
{
    let mut text = crate::text::render_decimal(count as u128);
    if count == 1 {
        text.append(" annotation");
    } else {
        text.append(" annotations");
    }
    text
}

fn report(title: String, body: String, failure: bool) -> (r: ArchiveReport)
    ensures
        r@ == (ReportView { title: title@, body: body@, failure }),
{
    ArchiveReport { title, body, failure }
}

/// The report for `copy-context`: nothing to copy for an empty store, else how many were copied.
pub open spec fn copy_context_report_of(count: nat) -> ReportView {
    if count == 0 {
        ReportView {
            title: "No annotations"@,
            body: "There is nothing to copy yet."@,
            failure: false,
        }
    } else {
        ReportView {
            title: "Annotations copied"@,
            body: annotation_count(count) + " copied as Markdown."@,
            failure: false,
        }
    }
}

/// The notification `copy-context` shows after copying `count` annotations.
pub fn copy_context_report(count: usize) -> (r: ArchiveReport)
    ensures
        r@ == copy_context_report_of(count as nat),
{
    if count == 0 {
        return report(owned("No annotations"), owned("There is nothing to copy yet."), false);
    }
    let mut body = count_text(count);
    body.append(" copied as Markdown.");
    report(owned("Annotations copied"), body, false)
}

/// Map one copy-and-archive outcome to the action's notification and exit status.
pub open spec fn copy_archive_report_of(outcome: CopyAndArchiveOutcome, loaded_empty: bool) -> ReportView {
    match outcome {
        CopyAndArchiveOutcome::Close { archived_count } => ReportView {
            title: "Annotations copied and archived"@,
            body: annotation_count(archived_count as nat) + " copied as Markdown and archived."@,
            failure: false,
        },
        CopyAndArchiveOutcome::ArchivedActiveRetained { message } => ReportView {
            title: "Copy and archive incomplete"@,
            body: "Copied and archived, but active annotations remain: "@ + message@,
            failure: true,
        },
        CopyAndArchiveOutcome::StayOpen { message } => if loaded_empty {
            ReportView {
                title: "No annotations"@,
                body: "There is nothing to copy yet."@,
                failure: false,
            }
        } else {
            ReportView { title: "Copy and archive failed"@, body: message@, failure: true }
        },
    }
}

/// Map one copy-and-archive outcome to the action's notification and exit status.
///
/// `loaded_empty` separates the nothing-to-do case from a real failure: both are `StayOpen`,
/// but an empty store is reported like `copy-context` and returns success.
pub fn copy_archive_report(outcome: CopyAndArchiveOutcome, loaded_empty: bool) -> (r: ArchiveReport)
    ensures
        r@ == copy_archive_report_of(outcome, loaded_empty),
{
    match outcome {
        CopyAndArchiveOutcome::Close { archived_count } => {
            let mut body = count_text(archived_count);
            body.append(" copied as Markdown and archived.");
            report(owned("Annotations copied and archived"), body, false)
        },
        CopyAndArchiveOutcome::ArchivedActiveRetained { message } => {
            let mut body = owned("Copied and archived, but active annotations remain: ");
            body.append(message.as_str());
            report(owned("Copy and archive incomplete"), body, true)
        },
        CopyAndArchiveOutcome::StayOpen { message } => {
            if loaded_empty {
                report(owned("No annotations"), owned("There is nothing to copy yet."), false)
            } else {
                report(owned("Copy and archive failed"), message, true)
            }
        },
    }
}

/// The uppercase mapping `char::to_uppercase` gives a character.
pub uninterp spec fn uppercase_of(c: char) -> Seq<char>;

/// A lowercase ASCII letter's uppercase letter, 32 code points below it.
pub open spec fn ascii_upper(c: char) -> char {
    ((c as int) - 32) as char
}

/// The uppercase of a character: the ASCII letter for a lowercase ASCII letter, else what
/// `char::to_uppercase` gives.
pub open spec fn upper_of(c: char) -> Seq<char> {
    if 'a' <= c <= 'z' {
        seq![ascii_upper(c)]
    } else {
        uppercase_of(c)
    }
}

/// `char::to_uppercase`, collected. The contract names the result, and states that a lowercase
/// ASCII letter becomes the one uppercase ASCII letter 32 code points below it, as Unicode's
/// case mapping (and the method's documented example, 'c' to "C") gives. Nothing more of
/// Unicode's case mappings is claimed.
#[verifier::external_body]
fn uppercase_chars(c: char) -> (upper: Vec<char>)
    ensures
        upper@ == uppercase_of(c),
        'a' <= c <= 'z' ==> upper@ == seq![ascii_upper(c)],
{
    c.to_uppercase().collect()
}

/// The text with its first character in upper case.
pub open spec fn capitalized_of(text: Seq<char>) -> Seq<char> {
    if text.len() == 0 {
        seq![]
    } else {
        upper_of(text[0]) + text.drop_first()
    }
}

/// The text with its first character in upper case.
pub fn capitalized(text: &str) -> (out: String)
    ensures
        out@ == capitalized_of(text@),
{
    let chars = crate::text::chars_of(text);
    if chars.len() == 0 {
        return String::new();
    }
    let mut out_chars = uppercase_chars(chars[0]);
    let mut i: usize = 1;
    while i < chars.len()
        invariant
            1 <= i <= chars@.len(),
            chars@ == text@,
            out_chars@ == upper_of(chars@[0]) + chars@.subrange(1, i as int),
        decreases chars@.len() - i,
    {
        out_chars.push(chars[i]);
        i = i + 1;
        assert(out_chars@ =~= upper_of(chars@[0]) + chars@.subrange(1, i as int));
    }
    assert(chars@.subrange(1, chars@.len() as int) =~= chars@.drop_first());
    crate::text::string_of(out_chars.as_slice())
}

/// The action's name at the start of a title.
pub open spec fn action_of(delivery: Delivery) -> Seq<char> {
    match delivery {
        Delivery::Paste => "Paste"@,
        Delivery::Send => "Send"@,
    }
}

/// Where the annotations landed.
pub open spec fn landed_of(delivery: Delivery) -> Seq<char> {
    match delivery {
        Delivery::Paste => "pasted into the agent's prompt"@,
        Delivery::Send => "sent to the agent"@,
    }
}

/// Map one paste- or send-and-archive outcome to the action's notification and exit status.
pub open spec fn deliver_archive_report_of(
    delivery: Delivery,
    outcome: CopyAndArchiveOutcome,
    loaded_empty: bool,
    delivered: bool,
) -> ReportView {
    match outcome {
        CopyAndArchiveOutcome::Close { archived_count } => ReportView {
            title: "Annotations "@ + past_of(delivery) + " and archived"@,
            body: annotation_count(archived_count as nat) + seq![' '] + landed_of(delivery)
                + " and archived."@,
            failure: false,
        },
        CopyAndArchiveOutcome::ArchivedActiveRetained { message } => ReportView {
            title: action_of(delivery) + " and archive incomplete"@,
            body: capitalized_of(landed_of(delivery))
                + " and archived, but active annotations remain: "@ + message@,
            failure: true,
        },
        CopyAndArchiveOutcome::StayOpen { message } => if loaded_empty {
            ReportView {
                title: "No annotations"@,
                body: "There is nothing to "@ + verb_of(delivery) + " yet."@,
                failure: false,
            }
        } else if delivered {
            ReportView {
                title: "Annotations "@ + past_of(delivery) + ", not archived"@,
                body: capitalized_of(landed_of(delivery))
                    + ", but archiving failed, so your annotations are still active: "@
                    + message@,
                failure: true,
            }
        } else {
            ReportView { title: action_of(delivery) + " failed"@, body: message@, failure: true }
        },
    }
}

/// Map one paste- or send-and-archive outcome to the action's notification and exit status.
///
/// `loaded_empty` is read as in `copy_archive_report`. `delivered` separates a refused delivery,
/// where nothing reached the agent, from an archive failure after the agent already has the text:
/// both are `StayOpen`, but only the second must not suggest trying again.
pub fn deliver_archive_report(
    delivery: Delivery,
    outcome: CopyAndArchiveOutcome,
    loaded_empty: bool,
    delivered: bool,
) -> (r: ArchiveReport)
    ensures
        r@ == deliver_archive_report_of(delivery, outcome, loaded_empty, delivered),
{
    let (action, landed) = match delivery {
        Delivery::Paste => ("Paste", "pasted into the agent's prompt"),
        Delivery::Send => ("Send", "sent to the agent"),
    };
    assert(action@ == action_of(delivery) && landed@ == landed_of(delivery));
    let past = delivery.past();
    match outcome {
        CopyAndArchiveOutcome::Close { archived_count } => {
            let mut title = owned("Annotations ");
            title.append(past);
            title.append(" and archived");
            let mut body = count_text(archived_count);
            push_char(&mut body, ' ');
            body.append(landed);
            body.append(" and archived.");
            proof {
                let count = annotation_count(archived_count as nat);
                assert(count.push(' ') =~= count + seq![' ']);
            }
            report(title, body, false)
        },
        CopyAndArchiveOutcome::ArchivedActiveRetained { message } => {
            let mut title = owned(action);
            title.append(" and archive incomplete");
            let mut body = capitalized(landed);
            body.append(" and archived, but active annotations remain: ");
            body.append(message.as_str());
            report(title, body, true)
        },
        CopyAndArchiveOutcome::StayOpen { message } => {
            if loaded_empty {
                let mut body = owned("There is nothing to ");
                body.append(delivery.verb());
                body.append(" yet.");
                report(owned("No annotations"), body, false)
            } else if delivered {
                let mut title = owned("Annotations ");
                title.append(past);
                title.append(", not archived");
                let mut body = capitalized(landed);
                body.append(", but archiving failed, so your annotations are still active: ");
                body.append(message.as_str());
                report(title, body, true)
            } else {
                let mut title = owned(action);
                title.append(" failed");
                report(title, message, true)
            }
        },
    }
}

/// Whether the load of a copy-and-archive found an empty store.
pub open spec fn loaded_empty(replies: ArchiveReplies) -> bool {
    replies.loaded matches Some(Ok(active)) && active@.len() == 0
}

/// Whether the delivery of a copy-and-archive succeeded.
pub open spec fn was_delivered(replies: ArchiveReplies) -> bool {
    replies.delivered matches Some(Ok(_))
}

/// The report of a finished `copy-archive`, read from its outcome and what its steps answered.
pub fn copy_archive_finished(outcome: CopyAndArchiveOutcome, replies: &ArchiveReplies) -> (r: ArchiveReport)
    ensures
        r@ == copy_archive_report_of(outcome, loaded_empty(*replies)),
{
    let empty = match &replies.loaded {
        Some(Ok(active)) => active.len() == 0,
        _ => false,
    };
    copy_archive_report(outcome, empty)
}

/// The report of a finished `paste-archive` or `send-archive`, read from its outcome and what
/// its steps answered.
pub fn deliver_archive_finished(
    delivery: Delivery,
    outcome: CopyAndArchiveOutcome,
    replies: &ArchiveReplies,
) -> (r: ArchiveReport)
    ensures
        r@ == deliver_archive_report_of(delivery, outcome, loaded_empty(*replies), was_delivered(*replies)),
{
    let empty = match &replies.loaded {
        Some(Ok(active)) => active.len() == 0,
        _ => false,
    };
    let delivered = match &replies.delivered {
        Some(Ok(())) => true,
        _ => false,
    };
    deliver_archive_report(delivery, outcome, empty, delivered)
}

/// The exit of an action that has shown its report: an error with the report's body when the
/// report is a failure.
pub fn report_result(report: &ArchiveReport) -> (result: Result<(), String>)
    ensures
        unit_result(result) == (if report.failure {
            Err::<(), Seq<char>>(report.body@)
        } else {
            Ok::<(), Seq<char>>(())
        }),
{
    if report.failure {
        Err(report.body.clone())
    } else {
        Ok(())
    }
}

/// The title of the notification a failed `copy-archive` shows before any outcome exists.
pub fn copy_archive_failed_title() -> (title: &'static str)
    ensures
        title@ == "Copy and archive failed"@,
{
    "Copy and archive failed"
}

/// The title of the notification a failed paste or send shows before any outcome exists.
pub fn delivery_failed_title(delivery: Delivery) -> (title: &'static str)
    ensures
        title@ == action_of(delivery) + " failed"@,
{
    match delivery {
        Delivery::Paste => {
            proof {
                reveal_strlit("Paste failed");
                reveal_strlit("Paste");
                reveal_strlit(" failed");
            }
            "Paste failed"
        },
        Delivery::Send => {
            proof {
                reveal_strlit("Send failed");
                reveal_strlit("Send");
                reveal_strlit(" failed");
            }
            "Send failed"
        },
    }
}

/// Read the invocation document from the context variable's text.
pub fn invocation_context_value(text: Option<&str>) -> (value: JsonValue)
    ensures
        match text {
            Some(t) => match json_document(t@) {
                Some(parsed) => value == parsed,
                None => value matches JsonValue::Object(members) && members@.len() == 0,
            },
            None => value matches JsonValue::Object(members) && members@.len() == 0,
        },
{
    match text {
        Some(t) => match decode_json(t) {
            Some(value) => value,
            None => JsonValue::Object(Vec::new()),
        },
        None => JsonValue::Object(Vec::new()),
    }
}

/// The arguments of `herdr plugin pane open` for the comment editor popup.
pub open spec fn editor_pane_arguments_of(root: Seq<char>, pending_path: Seq<char>) -> Seq<Seq<char>> {
    seq![
        "plugin"@,
        "pane"@,
        "open"@,
        "--cwd"@,
        root,
        "--plugin"@,
        "annotate"@,
        "--entrypoint"@,
        "editor"@,
        "--placement"@,
        "popup"@,
        "--width"@,
        "88"@,
        "--height"@,
        "24"@,
        "--env"@,
        "HERDR_ANNOTATE_PENDING="@ + pending_path,
        "--focus"@,
    ]
}

/// The arguments of `herdr plugin pane open` for the annotation manager popup.
pub open spec fn manager_pane_arguments_of(root: Seq<char>) -> Seq<Seq<char>> {
    seq![
        "plugin"@,
        "pane"@,
        "open"@,
        "--cwd"@,
        root,
        "--plugin"@,
        "annotate"@,
        "--entrypoint"@,
        "manager"@,
        "--placement"@,
        "popup"@,
        "--width"@,
        "100"@,
        "--height"@,
        "30"@,
        "--focus"@,
    ]
}

fn strings_of(values: &[&str]) -> (strings: Vec<String>)
    ensures
        strings@.map_values(|s: String| s@) == values@.map_values(|v: &str| v@),
{
    let mut strings: Vec<String> = Vec::new();
    let mut i: usize = 0;
    while i < values.len()
        invariant
            i <= values@.len(),
            strings@.len() == i,
            forall|k: int| 0 <= k < i ==> (#[trigger] strings@[k])@ == values@[k]@,
        decreases values@.len() - i,
    {
        strings.push(owned(values[i]));
        i = i + 1;
    }
    assert(strings@.map_values(|s: String| s@) =~= values@.map_values(|v: &str| v@));
    strings
}

/// The arguments that open the comment editor on a pending annotation file.
pub fn editor_pane_arguments(root: &str, pending_path: &str) -> (args: Vec<String>)
    ensures
        argument_texts(args@) == editor_pane_arguments_of(root@, pending_path@),
{
    let env = crate::text::joined("HERDR_ANNOTATE_PENDING=", pending_path);
    let args = strings_of(
        &[
            "plugin",
            "pane",
            "open",
            "--cwd",
            root,
            "--plugin",
            "annotate",
            "--entrypoint",
            "editor",
            "--placement",
            "popup",
            "--width",
            "88",
            "--height",
            "24",
            "--env",
            env.as_str(),
            "--focus",
        ],
    );
    assert(argument_texts(args@) =~= editor_pane_arguments_of(root@, pending_path@));
    args
}

/// The arguments that open the annotation manager.
pub fn manager_pane_arguments(root: &str) -> (args: Vec<String>)
    ensures
        argument_texts(args@) == manager_pane_arguments_of(root@),
{
    let args = strings_of(
        &[
            "plugin",
            "pane",
            "open",
            "--cwd",
            root,
            "--plugin",
            "annotate",
            "--entrypoint",
            "manager",
            "--placement",
            "popup",
            "--width",
            "100",
            "--height",
            "30",
            "--focus",
        ],
    );
    assert(argument_texts(args@) =~= manager_pane_arguments_of(root@));
    args
}

/// The name of a pending-annotation file: `pending-<millis>-<pid>.json`.
pub open spec fn pending_file_name_of(millis: nat, pid: nat) -> Seq<char> {
    "pending-"@ + decimal(millis) + seq!['-'] + decimal(pid) + ".json"@
}

/// The name of the pending-annotation file written at `millis` by process `pid`.
pub fn pending_file_name(millis: u128, pid: u32) -> (name: String)
    ensures
        name@ == pending_file_name_of(millis as nat, pid as nat),
{
    let mut name = owned("pending-");
    let m = crate::text::render_decimal(millis);
    name.append(m.as_str());
    push_char(&mut name, '-');
    let p = crate::text::render_decimal(pid as u128);
    name.append(p.as_str());
    name.append(".json");
    name
}

/// Open the annotation manager pane in the plugin root. The second result is the argument list
/// of the one Herdr call made, `None` when Herdr was not called.
pub fn manage<Open: FnOnce(Vec<String>) -> Result<(), String>>(
    plugin_root: Option<String>,
    run_herdr: Open,
) -> (managed: (Result<(), String>, Ghost<Option<Seq<Seq<char>>>>))
    requires
        forall|args: Vec<String>| call_requires(run_herdr, (args,)),
    ensures
        match plugin_root_of(plugin_root) {
            None => managed.1@ is None && unit_result(managed.0) == Err::<(), Seq<char>>(ROOT_MISSING@),
            Some(root) => managed.1@ == Some(manager_pane_arguments_of(root)) && exists|
                args: Vec<String>,
            |
                argument_texts(args@) == manager_pane_arguments_of(root) && #[trigger] call_ensures(
                    run_herdr,
                    (args,),
                    managed.0,
                ),
        },
{
    let root = match plugin_root {
        Some(root) => {
            if root.as_str().unicode_len() == 0 {
                return (Err(owned(ROOT_MISSING)), Ghost(None));
            }
            normalize_windows_path(root.as_str())
        },
        None => {
            return (Err(owned(ROOT_MISSING)), Ghost(None));
        },
    };
    let args = manager_pane_arguments(root.as_str());
    let ghost opened_with = args;
    let opened = run_herdr(args);
    assert(call_ensures(run_herdr, (opened_with,), opened));
    (opened, Ghost(Some(argument_texts(opened_with@))))
}

/// The plugin root a pane is opened in: the non-empty `HERDR_PLUGIN_ROOT`, without an
/// extended-path prefix.
pub open spec fn plugin_root_of(plugin_root: Option<String>) -> Option<Seq<char>> {
    match plugin_root {
        Some(root) => if root@.len() > 0 {
            Some(normalized_windows_path(root@))
        } else {
            None
        },
        None => None,
    }
}

/// A step's result as text.
pub open spec fn finishes(result: Result<(), String>, expected: Result<(), Seq<char>>) -> bool {
    unit_result(result) == expected
}

// ---------------------------------------------------------------------------------------------
// copy-context

/// What the steps of one `copy-context` have answered so far.
pub struct CopyContextReplies {
    pub loaded: Option<StoreResult<Vec<Annotation>>>,
    pub written: Option<Result<(), String>>,
    pub notified: bool,
}

/// The next step of `copy-context`.
#[derive(Debug)]
pub enum CopyContextStep {
    /// Load the active annotations.
    Load,
    /// Run `herdr` with these arguments and this Markdown text on its stdin, which puts the
    /// text on the clipboard of the client viewing the session.
    Write(Vec<String>, String),
    /// Show a notification with this title and body.
    Notify(String, String),
    /// Stop with this result.
    Finish(Result<(), String>),
}

/// The step notifies with the report's title and body.
pub open spec fn copy_context_notifies(step: CopyContextStep, report: ReportView) -> bool {
    step matches CopyContextStep::Notify(title, body) && title@ == report.title && body@
        == report.body
}

/// The step stops with this result.
pub open spec fn copy_context_finishes(step: CopyContextStep, expected: Result<(), Seq<char>>) -> bool {
    step matches CopyContextStep::Finish(result) && finishes(result, expected)
}

/// The step `copy-context` takes next, given the answers so far. Without a state directory it
/// stops at once; a failed load or write stops with its error; an empty store is only
/// reported; otherwise the Markdown of the annotations, newest first, goes once to the viewing
/// client's clipboard through `herdr clipboard set --stdin`, and the count is reported after
/// that succeeds.
pub open spec fn copy_context_step_is(has_state_dir: bool, replies: CopyContextReplies, step: CopyContextStep) -> bool {
    if !has_state_dir {
        copy_context_finishes(step, Err(STATE_DIR_MISSING@))
    } else {
        match replies.loaded {
            None => step is Load,
            Some(Err(message)) => copy_context_finishes(step, Err(message@)),
            Some(Ok(active)) => if active@.len() == 0 {
                if replies.notified {
                    copy_context_finishes(step, Ok(()))
                } else {
                    copy_context_notifies(step, copy_context_report_of(0))
                }
            } else {
                match replies.written {
                    None => step matches CopyContextStep::Write(args, text) && argument_texts(args@)
                        == client_clipboard_arguments_of() && text@ == delivered_text(
                        annotation_views(active@),
                    ),
                    Some(Err(message)) => copy_context_finishes(step, Err(message@)),
                    Some(Ok(())) => if replies.notified {
                        copy_context_finishes(step, Ok(()))
                    } else {
                        copy_context_notifies(step, copy_context_report_of(active@.len()))
                    },
                }
            },
        }
    }
}

fn report_step(report: ArchiveReport) -> (step: CopyContextStep)
    ensures
        copy_context_notifies(step, report@),
{
    CopyContextStep::Notify(report.title, report.body)
}

/// Decide the next step of `copy-context`.
pub fn copy_context_step(has_state_dir: bool, replies: &CopyContextReplies) -> (step: CopyContextStep)
    ensures
        copy_context_step_is(has_state_dir, *replies, step),
{
    if !has_state_dir {
        return CopyContextStep::Finish(Err(owned(STATE_DIR_MISSING)));
    }
    let active = match &replies.loaded {
        None => {
            return CopyContextStep::Load;
        },
        Some(Err(message)) => {
            return CopyContextStep::Finish(Err(message.clone()));
        },
        Some(Ok(active)) => active,
    };
    if active.len() == 0 {
        if replies.notified {
            return CopyContextStep::Finish(Ok(()));
        }
        return report_step(copy_context_report(0));
    }
    match &replies.written {
        None => {
            let newest = newest_first_annotations(active.as_slice());
            CopyContextStep::Write(client_clipboard_arguments(), format_annotations(newest.as_slice()))
        },
        Some(Err(message)) => CopyContextStep::Finish(Err(message.clone())),
        Some(Ok(())) => if replies.notified {
            CopyContextStep::Finish(Ok(()))
        } else {
            report_step(copy_context_report(active.len()))
        },
    }
}

// ---------------------------------------------------------------------------------------------
// capture

/// What `capture` reads before its first step: the invocation document, whether Herdr gave a
/// state directory, the plugin root it gave, and the clock and process id that name the
/// pending file.
pub struct CaptureInputs {
    pub invocation: JsonValue,
    pub has_state_dir: bool,
    pub plugin_root: Option<String>,
    pub millis: u128,
    pub pid: u32,
}

/// What the steps of one `capture` have answered so far.
pub struct CaptureReplies {
    pub handoff: Option<Result<Option<String>, String>>,
    pub clipboard: Option<Result<String, String>>,
    pub notified: bool,
    pub created: Option<Result<(), String>>,
    pub captured_at: Option<String>,
    pub raw_path: Option<String>,
    pub written: Option<Result<(), String>>,
    pub opened: Option<Result<(), String>>,
    pub removed: bool,
}

impl CaptureReplies {
    /// No step has answered yet.
    pub fn new() -> (replies: Self)
        ensures
            replies.handoff is None,
            replies.clipboard is None,
            !replies.notified,
            replies.created is None,
            replies.captured_at is None,
            replies.raw_path is None,
            replies.written is None,
            replies.opened is None,
            !replies.removed,
    {
        CaptureReplies {
            handoff: None,
            clipboard: None,
            notified: false,
            created: None,
            captured_at: None,
            raw_path: None,
            written: None,
            opened: None,
            removed: false,
        }
    }
}

/// The next step of `capture`.
#[derive(Debug)]
pub enum CaptureStep {
    /// Take a selection handed over by another program, if there is one.
    TakeHandoff,
    /// Read the clipboard.
    ReadClipboard,
    /// Show a notification with this title and body.
    Notify(String, String),
    /// Create the state directory.
    CreateStateDir,
    /// Read the clock as an RFC 3339 timestamp.
    Now,
    /// Give the path of a file with this name in the state directory.
    PendingPath(String),
    /// Write this pending record to this path.
    WritePending(String, PendingAnnotation),
    /// Run `herdr` with these arguments to open the editor.
    OpenEditor(Vec<String>),
    /// Remove the file at this path.
    RemovePending(String),
    /// Stop with this result.
    Finish(Result<(), String>),
}

/// The step stops with this result.
pub open spec fn capture_finishes(step: CaptureStep, expected: Result<(), Seq<char>>) -> bool {
    step matches CaptureStep::Finish(result) && finishes(result, expected)
}

/// The selection capture works on once it has one: the invocation's, else the hand-off's,
/// else the clipboard's. `None` while it is still to be asked for.
pub open spec fn captured_selection(inputs: CaptureInputs, replies: CaptureReplies) -> Option<Seq<char>> {
    match selection_from_json(inputs.invocation) {
        Some(selected) => Some(selected),
        None => match replies.handoff {
            Some(Ok(Some(selected))) => Some(selected@),
            Some(Ok(None)) => match replies.clipboard {
                Some(Ok(selected)) => Some(selected@),
                _ => None,
            },
            _ => None,
        },
    }
}

/// The steps after a non-blank selection: create the state directory, read the clock, name the
/// pending file, write the record, open the editor on it, and remove the file only when the
/// editor could not be opened.
pub open spec fn capture_write_step_is(
    inputs: CaptureInputs,
    root: Seq<char>,
    selected: Seq<char>,
    replies: CaptureReplies,
    step: CaptureStep,
) -> bool {
    match replies.created {
        None => step is CreateStateDir,
        Some(Err(message)) => capture_finishes(step, Err(message@)),
        Some(Ok(())) => match replies.captured_at {
            None => step is Now,
            Some(at) => match replies.raw_path {
                None => step matches CaptureStep::PendingPath(name) && name@ == pending_file_name_of(
                    inputs.millis as nat,
                    inputs.pid as nat,
                ),
                Some(raw) => match replies.written {
                    None => step matches CaptureStep::WritePending(path, pending) && path@
                        == normalized_windows_path(raw@) && pending@ == (PendingView {
                        selected_text: selected,
                        context: context_from_json(inputs.invocation),
                        captured_at: at@,
                    }),
                    Some(Err(message)) => capture_finishes(step, Err(message@)),
                    Some(Ok(())) => match replies.opened {
                        None => step matches CaptureStep::OpenEditor(args) && argument_texts(args@)
                            == editor_pane_arguments_of(root, normalized_windows_path(raw@)),
                        Some(Ok(())) => capture_finishes(step, Ok(())),
                        Some(Err(message)) => if replies.removed {
                            capture_finishes(step, Err(message@))
                        } else {
                            step matches CaptureStep::RemovePending(path) && path@
                                == normalized_windows_path(raw@)
                        },
                    },
                },
            },
        },
    }
}

/// The step `capture` takes next, given the answers so far. Without a state directory or a
/// plugin root it stops at once; the selection comes from the invocation, else a hand-off, else
/// the clipboard, and a failure to get one stops with its error; a blank selection is only
/// reported; otherwise the pending record is written and the editor opened on it.
pub open spec fn capture_step_is(inputs: CaptureInputs, replies: CaptureReplies, step: CaptureStep) -> bool {
    if !inputs.has_state_dir {
        capture_finishes(step, Err(STATE_DIR_MISSING@))
    } else if plugin_root_of(inputs.plugin_root) is None {
        capture_finishes(step, Err(ROOT_MISSING@))
    } else {
        let root = plugin_root_of(inputs.plugin_root)->0;
        match captured_selection(inputs, replies) {
            None => match replies.handoff {
                None => step is TakeHandoff,
                Some(Err(message)) => capture_finishes(step, Err(message@)),
                _ => match replies.clipboard {
                    Some(Err(message)) => capture_finishes(step, Err(message@)),
                    _ => step is ReadClipboard,
                },
            },
            Some(selected) => if js_trimmed(selected).len() == 0 {
                if replies.notified {
                    capture_finishes(step, Ok(()))
                } else {
                    step matches CaptureStep::Notify(title, body) && title@
                        == "Nothing to annotate"@ && body@
                        == "Select text in Herdr or copy text to the clipboard."@
                }
            } else {
                capture_write_step_is(inputs, root, selected, replies, step)
            },
        }
    }
}

fn selection_of(inputs: &CaptureInputs, replies: &CaptureReplies) -> (selected: Option<String>)
    ensures
        selected.deep_view() == captured_selection(*inputs, *replies),
{
    match selected_text_from_invocation(&inputs.invocation) {
        Some(selected) => Some(selected),
        None => match &replies.handoff {
            Some(Ok(Some(selected))) => Some(selected.clone()),
            Some(Ok(None)) => match &replies.clipboard {
                Some(Ok(selected)) => Some(selected.clone()),
                _ => None,
            },
            _ => None,
        },
    }
}

/// Decide the next step of `capture`.
pub fn capture_step(inputs: &CaptureInputs, replies: &CaptureReplies) -> (step: CaptureStep)
    ensures
        capture_step_is(*inputs, *replies, step),
{
    if !inputs.has_state_dir {
        return CaptureStep::Finish(Err(owned(STATE_DIR_MISSING)));
    }
    let root = match &inputs.plugin_root {
        Some(root) => {
            if root.as_str().unicode_len() == 0 {
                return CaptureStep::Finish(Err(owned(ROOT_MISSING)));
            }
            normalize_windows_path(root.as_str())
        },
        None => {
            return CaptureStep::Finish(Err(owned(ROOT_MISSING)));
        },
    };
    let selected = match selection_of(inputs, replies) {
        Some(selected) => selected,
        None => {
            return match &replies.handoff {
                None => CaptureStep::TakeHandoff,
                Some(Err(message)) => CaptureStep::Finish(Err(message.clone())),
                _ => match &replies.clipboard {
                    Some(Err(message)) => CaptureStep::Finish(Err(message.clone())),
                    _ => CaptureStep::ReadClipboard,
                },
            };
        },
    };
    if is_javascript_blank(selected.as_str()) {
        if replies.notified {
            return CaptureStep::Finish(Ok(()));
        }
        return CaptureStep::Notify(
            owned("Nothing to annotate"),
            owned("Select text in Herdr or copy text to the clipboard."),
        );
    }
    match &replies.created {
        None => {
            return CaptureStep::CreateStateDir;
        },
        Some(Err(message)) => {
            return CaptureStep::Finish(Err(message.clone()));
        },
        Some(Ok(())) => {},
    }
    let at = match &replies.captured_at {
        None => {
            return CaptureStep::Now;
        },
        Some(at) => at,
    };
    let raw = match &replies.raw_path {
        None => {
            return CaptureStep::PendingPath(pending_file_name(inputs.millis, inputs.pid));
        },
        Some(raw) => raw,
    };
    let path = normalize_windows_path(raw.as_str());
    match &replies.written {
        None => {
            let pending = PendingAnnotation {
                selected_text: selected,
                context: parse_invocation_context(&inputs.invocation),
                captured_at: at.clone(),
            };
            return CaptureStep::WritePending(path, pending);
        },
        Some(Err(message)) => {
            return CaptureStep::Finish(Err(message.clone()));
        },
        Some(Ok(())) => {},
    }
    match &replies.opened {
        None => CaptureStep::OpenEditor(editor_pane_arguments(root.as_str(), path.as_str())),
        Some(Ok(())) => CaptureStep::Finish(Ok(())),
        Some(Err(message)) => if replies.removed {
            CaptureStep::Finish(Err(message.clone()))
        } else {
            CaptureStep::RemovePending(path)
        },
    }
}

/// The pending annotation that capture writes keeps the whole provenance the invocation gave:
/// each context field is the invocation's string member of that name (all absent when the
/// invocation is not an object), and the record holds the selection being captured and the
/// time the clock gave.
pub proof fn lemma_capture_keeps_invocation_context(
    inputs: CaptureInputs,
    replies: CaptureReplies,
    step: CaptureStep,
)
    requires
        capture_step_is(inputs, replies, step),
        step is WritePending,
    ensures
        ({
            let context = step->WritePending_1@.context;
            let invocation = inputs.invocation;
            let member = |name: Seq<char>|
                if invocation is Object {
                    crate::json::string_member(invocation, name)
                } else {
                    None
                };
            &&& context.workspace_id == member("workspace_id"@)
            &&& context.workspace_label == member("workspace_label"@)
            &&& context.tab_id == member("tab_id"@)
            &&& context.tab_label == member("tab_label"@)
            &&& context.focused_pane_id == member("focused_pane_id"@)
            &&& context.focused_pane_cwd == member("focused_pane_cwd"@)
            &&& context.focused_pane_agent == member("focused_pane_agent"@)
            &&& captured_selection(inputs, replies) == Some(step->WritePending_1@.selected_text)
            &&& replies.captured_at matches Some(at) && step->WritePending_1@.captured_at == at@
        }),
{
}

} // verus!
