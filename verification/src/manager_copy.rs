//! Annotation-manager copy transition.

use vstd::prelude::*;

use crate::format::{format_annotations, markdown};
use crate::types::{annotation_views, Annotation, AnnotationView};

verus! {

/// Whether the annotation manager should close or remain visible after a copy attempt.
#[derive(Debug, Clone, PartialEq, Eq)]
pub enum ManagerCopyOutcome {
    Close,
    StayOpen { message: String },
}

/// The next step of a manager copy.
#[derive(Debug)]
pub enum ManagerCopyStep {
    /// Write this Markdown text to the clipboard.
    Write(String),
    /// Stop with this outcome.
    Finish(ManagerCopyOutcome),
}

/// The step a manager copy of `annotations` takes next, given the clipboard's answer so far:
/// nothing is written for an empty list; otherwise the Markdown is written once and its answer
/// decides the outcome.
pub open spec fn manager_copy_step_is(
    annotations: Seq<AnnotationView>,
    written: Option<Result<(), String>>,
    step: ManagerCopyStep,
) -> bool {
    if annotations.len() == 0 {
        step matches ManagerCopyStep::Finish(ManagerCopyOutcome::StayOpen { message })
            && message@ == "Nothing to copy."@
    } else {
        match written {
            None => step matches ManagerCopyStep::Write(text) && text@ == markdown(annotations),
            Some(Ok(())) => step == ManagerCopyStep::Finish(ManagerCopyOutcome::Close),
            Some(Err(message)) => step matches ManagerCopyStep::Finish(
                ManagerCopyOutcome::StayOpen { message: m },
            ) && m@ == message@,
        }
    }
}

/// Decide the next step of copying `annotations` from the manager.
pub fn manager_copy_step(annotations: &[Annotation], written: &Option<Result<(), String>>) -> (step:
    ManagerCopyStep)
    ensures
        manager_copy_step_is(annotation_views(annotations@), *written, step),
{
    if annotations.len() == 0 {
        return ManagerCopyStep::Finish(
            ManagerCopyOutcome::StayOpen { message: String::from_str("Nothing to copy.") },
        );
    }
    match written {
        None => ManagerCopyStep::Write(format_annotations(annotations)),
        Some(Ok(())) => ManagerCopyStep::Finish(ManagerCopyOutcome::Close),
        Some(Err(message)) => ManagerCopyStep::Finish(
            ManagerCopyOutcome::StayOpen { message: message.clone() },
        ),
    }
}

/// A run of a manager copy: `answers[k]` is the clipboard's answer known before step `k`,
/// `steps[k]` the step `manager_copy_step` decides on it, every step but the last is a write
/// whose answer `write_clipboard` gave and which is known from the next step on, and the last
/// step finishes.
pub open spec fn manager_copy_run<W: FnOnce(&str) -> Result<(), String>>(
    annotations: Seq<AnnotationView>,
    write_clipboard: W,
    answers: Seq<Option<Result<(), String>>>,
    steps: Seq<ManagerCopyStep>,
) -> bool {
    &&& steps.len() >= 1
    &&& answers.len() == steps.len()
    &&& answers[0] is None
    &&& forall|k: int|
        0 <= k < steps.len() ==> manager_copy_step_is(annotations, answers[k], #[trigger] steps[k])
    &&& forall|k: int|
        0 <= k < steps.len() - 1 ==> (#[trigger] steps[k] matches ManagerCopyStep::Write(text)
            && answers[k + 1] matches Some(written) && exists|copied: &str|
            copied@ == text@ && call_ensures(write_clipboard, (copied,), written))
    &&& steps.last() is Finish
}

/// Format and copy annotations without changing the supplied annotations or their store.
///
/// Nothing is written for an empty list; otherwise the clipboard receives the Markdown export of
/// the annotations in the order given, and a failed write keeps the manager open with its error.
/// The second result is the run the copy made: the steps of `manager_copy_step`, one write per
/// step but the last, which ends with the outcome returned.
pub fn copy_annotations<W: FnOnce(&str) -> Result<(), String>>(
    annotations: &[Annotation],
    write_clipboard: W,
) -> (copied: (ManagerCopyOutcome, Ghost<(Seq<Option<Result<(), String>>>, Seq<ManagerCopyStep>)>))
    requires
        forall|text: &str| call_requires(write_clipboard, (text,)),
    ensures
        manager_copy_run(annotation_views(annotations@), write_clipboard, copied.1@.0, copied.1@.1),
        copied.1@.1.last() == ManagerCopyStep::Finish(copied.0),
{
    let first = manager_copy_step(annotations, &None);
    let ghost first_step = first;
    let text = match first {
        ManagerCopyStep::Finish(outcome) => {
            let ghost answers = seq![None::<Result<(), String>>];
            let ghost steps = seq![first_step];
            assert(steps.last() == first_step);
            return (outcome, Ghost((answers, steps)));
        },
        ManagerCopyStep::Write(text) => text,
    };
    let copied = text.as_str();
    let written = write_clipboard(copied);
    let ghost reply = written;
    let last = manager_copy_step(annotations, &Some(written));
    let ghost last_step = last;
    let ghost answers = seq![None::<Result<(), String>>, Some(reply)];
    let ghost steps = seq![first_step, last_step];
    proof {
        assert(call_ensures(write_clipboard, (copied,), reply));
        assert(steps[0] == first_step && steps[1] == last_step);
        assert(steps.last() == last_step);
    }
    match last {
        ManagerCopyStep::Finish(outcome) => (outcome, Ghost((answers, steps))),
        ManagerCopyStep::Write(_) => {
            proof {
                assert(false);
            }
            (ManagerCopyOutcome::Close, Ghost((answers, steps)))
        },
    }
}

} // verus!
