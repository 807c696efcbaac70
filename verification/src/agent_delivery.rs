//! Deliver annotations into the focused agent's prompt through the Herdr CLI.
//!
//! Sending uses `herdr agent prompt`, which pastes the text as a bracketed paste and presses
//! Enter. Herdr has no paste-without-Enter command, and `herdr pane send-text` writes raw bytes
//! without honouring the pane's bracketed-paste mode, so pasting wraps the text itself. Agent
//! TUIs enable bracketed paste; a bare shell may not and would show the markers as garbage, so a
//! paste is only delivered to a pane that hosts a recognised agent not waiting at a dialog.

use vstd::prelude::*;

use crate::herdr::argument_texts;
use crate::json::{decode_json, json_document, json_path, json_text, same_text, text_of, JsonValue};
use crate::text::{owned, push_char, strip_end, text_result, trim, trimmed, unit_result};

verus! {

/// How the annotations reach the agent.
#[derive(Debug, Clone, Copy, PartialEq, Eq, Structural)]
pub enum Delivery {
    /// Into the prompt, left for the user to edit and submit.
    Paste,
    /// Submitted as the agent's next message.
    Send,
}

impl Delivery {
    /// The action's verb, as in "nothing to paste".
    pub fn verb(self) -> (word: &'static str)
        ensures
            word@ == verb_of(self),
    {
        match self {
            Delivery::Paste => "paste",
            Delivery::Send => "send",
        }
    }

    /// The verb's past participle, as in "nothing was pasted".
    pub fn past(self) -> (word: &'static str)
        ensures
            word@ == past_of(self),
    {
        match self {
            Delivery::Paste => "pasted",
            Delivery::Send => "sent",
        }
    }
}

/// The action's verb, as in "nothing to paste".
pub open spec fn verb_of(delivery: Delivery) -> Seq<char> {
    match delivery {
        Delivery::Paste => "paste"@,
        Delivery::Send => "send"@,
    }
}

/// The verb's past participle, as in "nothing was pasted".
pub open spec fn past_of(delivery: Delivery) -> Seq<char> {
    match delivery {
        Delivery::Paste => "pasted"@,
        Delivery::Send => "sent"@,
    }
}

/// Herdr's `{"error":{"code","message"}}` refusal, or the raw stderr when there is no envelope.
#[derive(Debug, Clone, PartialEq, Eq)]
pub struct HerdrError {
    pub code: Option<String>,
    pub message: String,
}

/// A refusal as text: its code, if any, and its message.
pub struct HerdrErrorView {
    pub code: Option<Seq<char>>,
    pub message: Seq<char>,
}

impl View for HerdrError {
    type V = HerdrErrorView;

    open spec fn view(&self) -> HerdrErrorView {
        HerdrErrorView { code: self.code.deep_view(), message: self.message@ }
    }
}

/// The string at `path` in the document, if the text is JSON and has one there.
pub open spec fn document_text(text: Seq<char>, path: Seq<Seq<char>>) -> Option<Seq<char>> {
    match json_document(text) {
        Some(value) => json_text(json_path(value, path)),
        None => None,
    }
}

/// What `parse_herdr_error` reads from a stderr text.
pub open spec fn herdr_error_of(stderr: Seq<char>) -> HerdrErrorView {
    let text = trimmed(stderr);
    HerdrErrorView {
        code: document_text(text, seq!["error"@, "code"@]),
        message: match document_text(text, seq!["error"@, "message"@]) {
            Some(message) => message,
            None => text,
        },
    }
}

/// Parse the error envelope Herdr prints on stderr when a command fails.
pub fn parse_herdr_error(stderr: &str) -> (error: HerdrError)
    ensures
        error@ == herdr_error_of(stderr@),
{
    let text = trim(stderr);
    let envelope = decode_json(text.as_str());
    let code_path: [&str; 2] = ["error", "code"];
    let message_path: [&str; 2] = ["error", "message"];
    assert(code_path@.map_values(|k: &str| k@) =~= seq!["error"@, "code"@]);
    assert(message_path@.map_values(|k: &str| k@) =~= seq!["error"@, "message"@]);
    let (code, message) = match &envelope {
        Some(value) => (
            text_of(value.get_path(code_path.as_slice())),
            text_of(value.get_path(message_path.as_slice())),
        ),
        None => (None, None),
    };
    HerdrError {
        code,
        message: match message {
            Some(message) => message,
            None => text,
        },
    }
}

/// The message with its trailing full stops removed.
pub open spec fn without_final_stops(message: Seq<char>) -> Seq<char> {
    strip_end(message, |c: char| c == '.')
}

/// Say in plain words why Herdr refused, without its JSON.
pub open spec fn refusal_reason_of(error: HerdrErrorView) -> Seq<char> {
    let message = without_final_stops(error.message);
    match error.code {
        Some(code) => if code == "agent_blocked"@ {
            "The agent is waiting on a prompt."@
        } else if code == "agent_not_found"@ {
            "No agent is running in the focused pane."@
        } else if code == "agent_not_ready"@ {
            "The agent is not ready for input yet."@
        } else if code == "pane_not_found"@ {
            "The focused pane no longer exists."@
        } else {
            "Herdr refused ("@ + code + "): "@ + message + seq!['.']
        },
        None => if message.len() == 0 {
            "Herdr failed without saying why."@
        } else {
            "Herdr failed: "@ + message + seq!['.']
        },
    }
}

fn without_trailing_stops(message: &str) -> (out: String)
    ensures
        out@ == without_final_stops(message@),
{
    let chars = crate::text::chars_of(message);
    let mut end: usize = chars.len();
    proof {
        assert(chars@.take(end as int) =~= chars@);
    }
    while end > 0 && chars[end - 1] == '.'
        invariant
            end <= chars@.len(),
            chars@ == message@,
            without_final_stops(message@) == without_final_stops(chars@.take(end as int)),
        decreases end,
    {
        proof {
            assert(chars@.take(end as int).last() == '.');
            assert(chars@.take(end as int).drop_last() =~= chars@.take(end - 1));
        }
        end = end - 1;
    }
    let mut kept: Vec<char> = Vec::new();
    let mut i: usize = 0;
    while i < end
        invariant
            i <= end <= chars@.len(),
            kept@ == chars@.take(i as int),
        decreases end - i,
    {
        kept.push(chars[i]);
        i = i + 1;
        assert(kept@ =~= chars@.take(i as int));
    }
    proof {
        if end > 0 {
            assert(chars@.take(end as int).last() != '.');
        }
    }
    crate::text::string_of(kept.as_slice())
}

/// Say in plain words why Herdr refused, without its JSON.
pub fn refusal_reason(error: &HerdrError) -> (reason: String)
    ensures
        reason@ == refusal_reason_of(error@),
{
    let message = without_trailing_stops(error.message.as_str());
    match &error.code {
        Some(code) => {
            if same_text(code.as_str(), "agent_blocked") {
                owned("The agent is waiting on a prompt.")
            } else if same_text(code.as_str(), "agent_not_found") {
                owned("No agent is running in the focused pane.")
            } else if same_text(code.as_str(), "agent_not_ready") {
                owned("The agent is not ready for input yet.")
            } else if same_text(code.as_str(), "pane_not_found") {
                owned("The focused pane no longer exists.")
            } else {
                let mut reason = owned("Herdr refused (");
                reason.append(code.as_str());
                reason.append("): ");
                reason.append(message.as_str());
                push_char(&mut reason, '.');
                reason
            }
        },
        None => {
            if message.as_str().unicode_len() == 0 {
                owned("Herdr failed without saying why.")
            } else {
                let mut reason = owned("Herdr failed: ");
                reason.append(message.as_str());
                push_char(&mut reason, '.');
                reason
            }
        },
    }
}

/// The member `name` of the agent in an `herdr agent get` record, if the record is JSON and
/// has one.
pub open spec fn agent_field(record: Seq<char>, name: Seq<char>) -> Option<JsonValue> {
    match json_document(record) {
        Some(value) => json_path(value, seq!["result"@, "agent"@, name]),
        None => None,
    }
}

/// Whether an `herdr agent get` result allows text to be delivered, and if not, why.
///
/// The record must report the agent's state and name a recognised agent; an agent still
/// launching is not ready, and one at an approval or question dialog is waiting on it.
pub open spec fn paste_guard_of(agent_get: Result<Seq<char>, Seq<char>>) -> Result<(), Seq<char>> {
    match agent_get {
        Err(stderr) => Err(refusal_reason_of(herdr_error_of(stderr))),
        Ok(record) => match json_text(agent_field(record, "agent_status"@)) {
            None => Err("Herdr did not report the agent's state."@),
            Some(status) => if json_text(agent_field(record, "agent"@)) is None {
                Err("No agent is running in the focused pane."@)
            } else if agent_field(record, "launch_pending"@) == Some(JsonValue::Bool(true)) {
                Err("The agent is not ready for input yet."@)
            } else if status == "blocked"@ {
                Err("The agent is waiting on a prompt."@)
            } else {
                Ok(())
            },
        },
    }
}

/// Decide from one `herdr agent get` result whether delivering text is safe.
///
/// The pane must host a recognised agent that has finished launching, and that agent must not
/// sit at an approval or question dialog, where the text would answer the dialog instead of
/// reaching the prompt.
pub fn paste_guard(agent_get: &Result<String, String>) -> (verdict: Result<(), String>)
    ensures
        unit_result(verdict) == paste_guard_of(text_result(*agent_get)),
{
    let record = match agent_get {
        Ok(record) => record,
        Err(stderr) => {
            return Err(refusal_reason(&parse_herdr_error(stderr.as_str())));
        },
    };
    let status_path: [&str; 3] = ["result", "agent", "agent_status"];
    let agent_path: [&str; 3] = ["result", "agent", "agent"];
    let pending_path: [&str; 3] = ["result", "agent", "launch_pending"];
    assert(status_path@.map_values(|k: &str| k@) =~= seq!["result"@, "agent"@, "agent_status"@]);
    assert(agent_path@.map_values(|k: &str| k@) =~= seq!["result"@, "agent"@, "agent"@]);
    assert(pending_path@.map_values(|k: &str| k@) =~= seq!["result"@, "agent"@, "launch_pending"@]);
    let document = decode_json(record.as_str());
    let value = match &document {
        Some(value) => value,
        None => {
            return Err(owned("Herdr did not report the agent's state."));
        },
    };
    let status = match text_of(value.get_path(status_path.as_slice())) {
        Some(status) => status,
        None => {
            return Err(owned("Herdr did not report the agent's state."));
        },
    };
    if text_of(value.get_path(agent_path.as_slice())).is_none() {
        return Err(owned("No agent is running in the focused pane."));
    }
    let pending = match value.get_path(pending_path.as_slice()) {
        Some(JsonValue::Bool(b)) => *b,
        _ => false,
    };
    if pending {
        return Err(owned("The agent is not ready for input yet."));
    }
    if same_text(status.as_str(), "blocked") {
        Err(owned("The agent is waiting on a prompt."))
    } else {
        Ok(())
    }
}

/// The text without the escape character.
pub open spec fn escapes_removed(text: Seq<char>) -> Seq<char> {
    text.filter(|c: char| c != '\x1b')
}

/// The bracketed-paste start marker, `ESC [ 2 0 0 ~`.
pub open spec fn paste_start() -> Seq<char> {
    seq!['\x1b', '[', '2', '0', '0', '~']
}

/// The bracketed-paste end marker, `ESC [ 2 0 1 ~`.
pub open spec fn paste_end() -> Seq<char> {
    seq!['\x1b', '[', '2', '0', '1', '~']
}

/// Remove ESC so the text cannot end a bracketed paste early.
///
/// Text holding the end marker would otherwise close the paste and type the rest as keystrokes,
/// possibly including a submit. `herdr agent prompt` wraps its text without this, so both
/// deliveries need it: a probe through it lost the text before the marker and never submitted.
pub fn without_escapes(text: &str) -> (out: String)
    ensures
        out@ == escapes_removed(text@),
        !out@.contains('\x1b'),
{
    let chars = crate::text::chars_of(text);
    let mut out = String::new();
    let mut i: usize = 0;
    while i < chars.len()
        invariant
            i <= chars@.len(),
            chars@ == text@,
            out@ == escapes_removed(chars@.take(i as int)),
        decreases chars@.len() - i,
    {
        proof {
            assert(chars@.take(i + 1).drop_last() =~= chars@.take(i as int));
            reveal_with_fuel(Seq::filter, 1);
        }
        if chars[i] != '\x1b' {
            push_char(&mut out, chars[i]);
        }
        i = i + 1;
    }
    assert(chars@.take(chars@.len() as int) =~= chars@);
    proof {
        broadcast use vstd::seq_lib::group_filter_ensures;

    }
    out
}

/// Wrap text as one bracketed paste, without the escapes that could end it early.
///
/// The result is the start marker, the text without escapes, and the end marker, so the only
/// escapes in it are the markers' own.
pub fn bracketed_paste(text: &str) -> (out: String)
    ensures
        out@ == paste_start() + escapes_removed(text@) + paste_end(),
        !escapes_removed(text@).contains('\x1b'),
{
    let inner = without_escapes(text);
    let mut out = String::new();
    push_char(&mut out, '\x1b');
    push_char(&mut out, '[');
    push_char(&mut out, '2');
    push_char(&mut out, '0');
    push_char(&mut out, '0');
    push_char(&mut out, '~');
    out.append(inner.as_str());
    push_char(&mut out, '\x1b');
    push_char(&mut out, '[');
    push_char(&mut out, '2');
    push_char(&mut out, '0');
    push_char(&mut out, '1');
    push_char(&mut out, '~');
    assert(out@ =~= paste_start() + escapes_removed(text@) + paste_end());
    out
}

fn arguments(values: &[&str]) -> (args: Vec<String>)
    ensures
        args@.map_values(|a: String| a@) == values@.map_values(|v: &str| v@),
{
    let mut args: Vec<String> = Vec::new();
    let mut i: usize = 0;
    while i < values.len()
        invariant
            i <= values@.len(),
            args@.len() == i,
            forall|k: int| 0 <= k < i ==> (#[trigger] args@[k])@ == values@[k]@,
        decreases values@.len() - i,
    {
        args.push(owned(values[i]));
        i = i + 1;
    }
    assert(args@.map_values(|a: String| a@) =~= values@.map_values(|v: &str| v@));
    args
}

/// The views of an argument list.
pub open spec fn argument_views(args: &[String]) -> Seq<Seq<char>> {
    args@.map_values(|a: String| a@)
}

/// The notification body for a refused delivery: the reason, and that nothing was delivered.
pub open spec fn refused_message(delivery: Delivery, reason: Seq<char>) -> Seq<char> {
    reason + " Nothing was "@ + past_of(delivery) + "; your annotations are still active."@
}

/// What a delivery answers once Herdr has run the command that types the text.
pub open spec fn delivered_result(delivery: Delivery, out: Result<Seq<char>, Seq<char>>) -> Result<
    (),
    Seq<char>,
> {
    match out {
        Ok(_) => Ok(()),
        Err(stderr) => Err(refused_message(delivery, refusal_reason_of(herdr_error_of(stderr)))),
    }
}

fn refused(delivery: Delivery, reason: &str) -> (message: String)
    ensures
        message@ == refused_message(delivery, reason@),
{
    let mut message = owned(reason);
    message.append(" Nothing was ");
    message.append(delivery.past());
    message.append("; your annotations are still active.");
    message
}

/// What Herdr has answered so far during one delivery: the `agent get` check and the command
/// that types the text.
pub struct DeliveryReplies {
    pub checked: Option<Result<String, String>>,
    pub typed: Option<Result<String, String>>,
}

/// The next step of a delivery.
#[derive(Debug)]
pub enum DeliveryStep {
    /// Run `herdr` with these arguments to ask for the agent's state.
    Check(Vec<String>),
    /// Run `herdr` with these arguments to type the text.
    Type(Vec<String>),
    /// Stop with this result.
    Finish(Result<(), String>),
}

/// The pane named by the invocation, if it named a non-empty one.
pub open spec fn focused_pane(pane: Option<&str>) -> Option<Seq<char>> {
    match pane {
        Some(p) => if p@.len() > 0 {
            Some(p@)
        } else {
            None
        },
        None => None,
    }
}

/// Whether the agent's state is checked before typing: always for a paste, and for a send when
/// `check_send` asks for it.
pub open spec fn checks_first(delivery: Delivery, check_send: bool) -> bool {
    delivery == Delivery::Paste || check_send
}

/// The `herdr` arguments that type the text into pane `p`.
pub open spec fn typing_arguments(delivery: Delivery, p: Seq<char>, text: Seq<char>) -> Seq<Seq<char>> {
    match delivery {
        Delivery::Send => seq!["agent"@, "prompt"@, p, escapes_removed(text)],
        Delivery::Paste => seq![
            "pane"@,
            "send-text"@,
            p,
            paste_start() + escapes_removed(text) + paste_end(),
        ],
    }
}

/// The step stops with this result.
pub open spec fn finishes_with(step: DeliveryStep, result: Result<(), Seq<char>>) -> bool {
    step matches DeliveryStep::Finish(r) && unit_result(r) == result
}

/// The step a delivery takes next, given Herdr's answers so far. Without a pane Herdr is not
/// called at all; the state check, when there is one, comes first and a refusal stops there;
/// the text is typed once, and its answer ends the delivery.
pub open spec fn delivery_step_is(
    delivery: Delivery,
    check_send: bool,
    pane: Option<&str>,
    text: Seq<char>,
    replies: DeliveryReplies,
    step: DeliveryStep,
) -> bool {
    match focused_pane(pane) {
        None => finishes_with(
            step,
            Err(refused_message(delivery, "Herdr did not say which pane is focused."@)),
        ),
        Some(p) => if checks_first(delivery, check_send) && replies.checked is None {
            step matches DeliveryStep::Check(args) && argument_texts(args@) == seq![
                "agent"@,
                "get"@,
                p,
            ]
        } else if checks_first(delivery, check_send) && paste_guard_of(
            text_result(replies.checked->0),
        ) is Err {
            finishes_with(
                step,
                Err(
                    refused_message(
                        delivery,
                        paste_guard_of(text_result(replies.checked->0))->Err_0,
                    ),
                ),
            )
        } else {
            match replies.typed {
                None => step matches DeliveryStep::Type(args) && argument_texts(args@)
                    == typing_arguments(delivery, p, text),
                Some(out) => finishes_with(step, delivered_result(delivery, text_result(out))),
            }
        },
    }
}

/// Decide the next step of delivering `text` to the agent in `pane`.
pub fn delivery_step(
    delivery: Delivery,
    check_send: bool,
    pane: Option<&str>,
    text: &str,
    replies: &DeliveryReplies,
) -> (step: DeliveryStep)
    ensures
        delivery_step_is(delivery, check_send, pane, text@, *replies, step),
{
    let pane = match pane {
        Some(pane) => {
            if pane.unicode_len() == 0 {
                return DeliveryStep::Finish(
                    Err(refused(delivery, "Herdr did not say which pane is focused.")),
                );
            }
            pane
        },
        None => {
            return DeliveryStep::Finish(
                Err(refused(delivery, "Herdr did not say which pane is focused.")),
            );
        },
    };
    let check = match delivery {
        Delivery::Paste => true,
        Delivery::Send => check_send,
    };
    if check {
        match &replies.checked {
            None => {
                let args = arguments(&["agent", "get", pane]);
                assert(argument_texts(args@) =~= seq!["agent"@, "get"@, pane@]);
                return DeliveryStep::Check(args);
            },
            Some(got) => match paste_guard(got) {
                Err(reason) => {
                    return DeliveryStep::Finish(Err(refused(delivery, reason.as_str())));
                },
                Ok(()) => {},
            },
        }
    }
    match &replies.typed {
        None => {
            let args = match delivery {
                Delivery::Send => {
                    let payload = without_escapes(text);
                    arguments(&["agent", "prompt", pane, payload.as_str()])
                },
                Delivery::Paste => {
                    let payload = bracketed_paste(text);
                    arguments(&["pane", "send-text", pane, payload.as_str()])
                },
            };
            assert(argument_texts(args@) =~= typing_arguments(delivery, pane@, text@));
            DeliveryStep::Type(args)
        },
        Some(out) => DeliveryStep::Finish(
            match out {
                Ok(_) => Ok(()),
                Err(stderr) => Err(
                    refused(delivery, refusal_reason(&parse_herdr_error(stderr.as_str())).as_str()),
                ),
            },
        ),
    }
}

/// Herdr, as some state of the closure `F`, may answer `answer` to a call with the argument
/// list `args`.
pub open spec fn herdr_answered<F: FnMut(&[String]) -> Result<String, String>>(
    args: Seq<Seq<char>>,
    answer: Result<String, String>,
) -> bool {
    exists|f: F, call: &[String]| argument_views(call) == args && call_ensures(f, (call,), answer)
}

/// Step `step` was one Herdr call, with the step's arguments, whose answer is the one that
/// `after` adds to `before`.
pub open spec fn delivery_call_answered<F: FnMut(&[String]) -> Result<String, String>>(
    step: DeliveryStep,
    before: DeliveryReplies,
    after: DeliveryReplies,
) -> bool {
    match step {
        DeliveryStep::Check(args) => {
            &&& before.checked is None
            &&& after.typed == before.typed
            &&& after.checked matches Some(got) && herdr_answered::<F>(argument_texts(args@), got)
        },
        DeliveryStep::Type(args) => {
            &&& before.typed is None
            &&& after.checked == before.checked
            &&& after.typed matches Some(out) && herdr_answered::<F>(argument_texts(args@), out)
        },
        DeliveryStep::Finish(_) => false,
    }
}

/// A run of a delivery: `states[k]` are Herdr's answers before step `k`, `steps[k]` the step
/// `delivery_step` decides on them, every step but the last is one Herdr call whose answer the
/// next state adds, and the last step finishes. The Herdr calls made are exactly the argument
/// lists of the steps but the last, in order.
pub open spec fn delivery_run<F: FnMut(&[String]) -> Result<String, String>>(
    delivery: Delivery,
    check_send: bool,
    pane: Option<&str>,
    text: Seq<char>,
    states: Seq<DeliveryReplies>,
    steps: Seq<DeliveryStep>,
) -> bool {
    &&& steps.len() >= 1
    &&& states.len() == steps.len()
    &&& states[0] == DeliveryReplies { checked: None, typed: None }
    &&& forall|k: int|
        0 <= k < steps.len() ==> delivery_step_is(
            delivery,
            check_send,
            pane,
            text,
            states[k],
            #[trigger] steps[k],
        )
    &&& forall|k: int|
        0 <= k < steps.len() - 1 ==> delivery_call_answered::<F>(#[trigger] steps[k], states[k], states[k + 1])
    &&& steps.last() is Finish
}

/// Deliver text to the agent in `pane`, calling Herdr through `herdr`.
///
/// `herdr` takes the argument list and returns stdout, or stderr on failure. A refusal is
/// returned as a notification body and guarantees nothing was typed into the pane: a paste runs
/// `pane send-text` only after `agent get` has cleared the paste guard. The second result is
/// the run the delivery made: the steps of `delivery_step` (which checks the agent first for a
/// paste), one Herdr call per step but the last, which ends with the result returned.
pub fn deliver_to_agent<F: FnMut(&[String]) -> Result<String, String>>(
    delivery: Delivery,
    pane: Option<&str>,
    text: &str,
    mut herdr: F,
) -> (delivered: (Result<(), String>, Ghost<(Seq<DeliveryReplies>, Seq<DeliveryStep>)>))
    requires
        forall|f: F, args: &[String]| call_requires(f, (args,)),
    ensures
        delivery_run::<F>(delivery, false, pane, text@, delivered.1@.0, delivered.1@.1),
        delivered.1@.1.last() == DeliveryStep::Finish(delivered.0),
{
    let mut replies = DeliveryReplies { checked: None, typed: None };
    let ghost s0 = replies;
    let first = delivery_step(delivery, false, pane, text, &replies);
    let ghost t0 = first;
    match first {
        DeliveryStep::Finish(result) => {
            let ghost states = seq![s0];
            let ghost steps = seq![t0];
            assert(steps.last() == t0 && steps[0] == t0 && states[0] == s0);
            return (result, Ghost((states, steps)));
        },
        DeliveryStep::Check(args) => {
            let call = args.as_slice();
            let got = herdr(call);
            assert(argument_views(call) =~= argument_texts(args@));
            replies.checked = Some(got);
        },
        DeliveryStep::Type(args) => {
            let call = args.as_slice();
            let out = herdr(call);
            assert(argument_views(call) =~= argument_texts(args@));
            replies.typed = Some(out);
        },
    }
    let ghost s1 = replies;
    assert(delivery_call_answered::<F>(t0, s0, s1));
    let second = delivery_step(delivery, false, pane, text, &replies);
    let ghost t1 = second;
    match second {
        DeliveryStep::Finish(result) => {
            let ghost states = seq![s0, s1];
            let ghost steps = seq![t0, t1];
            assert(steps.last() == t1 && steps[0] == t0 && steps[1] == t1);
            assert(states[0] == s0 && states[1] == s1);
            return (result, Ghost((states, steps)));
        },
        DeliveryStep::Type(args) => {
            let call = args.as_slice();
            let out = herdr(call);
            assert(argument_views(call) =~= argument_texts(args@));
            replies.typed = Some(out);
        },
        DeliveryStep::Check(_) => {
            proof {
                assert(false);
            }
        },
    }
    let ghost s2 = replies;
    assert(delivery_call_answered::<F>(t1, s1, s2));
    let third = delivery_step(delivery, false, pane, text, &replies);
    let ghost t2 = third;
    let ghost states = seq![s0, s1, s2];
    let ghost steps = seq![t0, t1, t2];
    assert(steps.last() == t2 && steps[0] == t0 && steps[1] == t1 && steps[2] == t2);
    assert(states[0] == s0 && states[1] == s1 && states[2] == s2);
    match third {
        DeliveryStep::Finish(result) => (result, Ghost((states, steps))),
        _ => {
            proof {
                assert(false);
            }
            (Ok(()), Ghost((states, steps)))
        },
    }
}

} // verus!
