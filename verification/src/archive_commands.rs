//! The `copy-archive`, `paste-archive` and `send-archive` commands, step by step.
//!
//! Each command is the archive workflow with its delivery made concrete: a copy goes to the
//! viewing client's clipboard through `herdr clipboard set --stdin`, a paste or send goes to the
//! focused agent after `agent get` has cleared it. The command ends by notifying its report and
//! exiting with the report's status.

use vstd::prelude::*;

use crate::agent_delivery::{delivery_step, delivery_step_is, Delivery, DeliveryReplies, DeliveryStep};
use crate::archive_workflow::{archive_step, archive_step_is, ArchiveReplies, ArchiveStep, CopyAndArchiveOutcome};
use crate::cli::{
    action_of, copy_archive_failed_title, copy_archive_finished, copy_archive_report_of,
    deliver_archive_finished, deliver_archive_report_of, delivery_failed_title, loaded_empty,
    report_result, was_delivered, ArchiveReport, ReportView, STATE_DIR_MISSING,
};
use crate::herdr::{argument_texts, client_clipboard_arguments, client_clipboard_arguments_of};
use crate::text::{owned, unit_result};
use crate::types::ArchivedAnnotationSet;

verus! {

/// Which archive command runs.
#[derive(Debug, Clone, Copy, PartialEq, Eq, Structural)]
pub enum ArchiveAction {
    /// `copy-archive`: copy to the viewing client's clipboard.
    Copy,
    /// `paste-archive` or `send-archive`: deliver to the focused agent.
    Deliver(Delivery),
}

/// What the steps of one archive command have answered so far.
pub struct ArchiveCommandReplies {
    pub archive: ArchiveReplies,
    pub delivery: DeliveryReplies,
    pub notified: bool,
}

impl ArchiveCommandReplies {
    /// No step has answered yet.
    pub fn new() -> (replies: Self)
        ensures
            replies.archive.loaded is None,
            replies.archive.delivered is None,
            replies.archive.archive_id is None,
            replies.archive.archived_at is None,
            replies.archive.saved is None,
            replies.archive.removed is None,
            replies.delivery.checked is None,
            replies.delivery.typed is None,
            !replies.notified,
    {
        ArchiveCommandReplies {
            archive: ArchiveReplies::new(),
            delivery: DeliveryReplies { checked: None, typed: None },
            notified: false,
        }
    }
}

/// The next step of an archive command.
#[derive(Debug)]
pub enum ArchiveCommandStep {
    /// Load the active annotations.
    Load,
    /// Run `herdr` with these arguments and this Markdown text on its stdin; the answer is the
    /// delivery's result.
    WriteClipboard(Vec<String>, String),
    /// Run `herdr` with these arguments to ask for the agent's state.
    Check(Vec<String>),
    /// Run `herdr` with these arguments to type the text into the agent's pane.
    Type(Vec<String>),
    /// The delivery to the agent is over with this result: record it as the delivery's result.
    Delivered(Result<(), String>),
    /// Name the archive.
    CreateArchiveId,
    /// Date the archive.
    Now,
    /// Save this archive.
    Save(ArchivedAnnotationSet),
    /// Remove these ids from the active store.
    RemoveActive(Vec<String>),
    /// Show a notification with this title and body.
    Notify(String, String),
    /// Stop with this result.
    Finish(Result<(), String>),
}

/// The title of the notification of a command that cannot start.
pub open spec fn action_failed_title_of(action: ArchiveAction) -> Seq<char> {
    match action {
        ArchiveAction::Copy => "Copy and archive failed"@,
        ArchiveAction::Deliver(delivery) => action_of(delivery) + " failed"@,
    }
}

/// The report of a finished command, read from its outcome and what its steps answered.
pub open spec fn action_report_of(
    action: ArchiveAction,
    outcome: CopyAndArchiveOutcome,
    replies: ArchiveReplies,
) -> ReportView {
    match action {
        ArchiveAction::Copy => copy_archive_report_of(outcome, loaded_empty(replies)),
        ArchiveAction::Deliver(delivery) => deliver_archive_report_of(
            delivery,
            outcome,
            loaded_empty(replies),
            was_delivered(replies),
        ),
    }
}

/// The step notifies first and then stops with the report's status.
pub open spec fn reports(step: ArchiveCommandStep, report: ReportView, notified: bool) -> bool {
    if notified {
        step matches ArchiveCommandStep::Finish(result) && unit_result(result) == (if report.failure {
            Err::<(), Seq<char>>(report.body)
        } else {
            Ok::<(), Seq<char>>(())
        })
    } else {
        step matches ArchiveCommandStep::Notify(title, body) && title@ == report.title && body@
            == report.body
    }
}

/// The command step that carries out the delivery step `delivery_step` of an agent delivery.
pub open spec fn carries_delivery(step: ArchiveCommandStep, delivery_step: DeliveryStep) -> bool {
    match delivery_step {
        DeliveryStep::Check(args) => step matches ArchiveCommandStep::Check(a) && argument_texts(a@)
            == argument_texts(args@),
        DeliveryStep::Type(args) => step matches ArchiveCommandStep::Type(a) && argument_texts(a@)
            == argument_texts(args@),
        DeliveryStep::Finish(result) => step matches ArchiveCommandStep::Delivered(r) && unit_result(
            r,
        ) == unit_result(result),
    }
}

/// The command step that carries out the archive step `archive_step`.
pub open spec fn carries_archive_step(
    action: ArchiveAction,
    pane: Option<&str>,
    replies: ArchiveCommandReplies,
    archive_step: ArchiveStep,
    step: ArchiveCommandStep,
) -> bool {
    match archive_step {
        ArchiveStep::Load => step is Load,
        ArchiveStep::Deliver(text) => match action {
            ArchiveAction::Copy => step matches ArchiveCommandStep::WriteClipboard(args, t)
                && argument_texts(args@) == client_clipboard_arguments_of() && t@ == text@,
            ArchiveAction::Deliver(delivery) => exists|d: DeliveryStep|
                #[trigger] delivery_step_is(delivery, true, pane, text@, replies.delivery, d)
                    && carries_delivery(step, d),
        },
        ArchiveStep::CreateArchiveId => step is CreateArchiveId,
        ArchiveStep::Now => step is Now,
        ArchiveStep::Save(archive) => step matches ArchiveCommandStep::Save(a) && a@ == archive@,
        ArchiveStep::RemoveActive(ids) => step matches ArchiveCommandStep::RemoveActive(i) && i@
            == ids@,
        ArchiveStep::Finish(outcome) => reports(
            step,
            action_report_of(action, outcome, replies.archive),
            replies.notified,
        ),
    }
}

/// The step an archive command takes next, given the answers so far. Without a state
/// directory it notifies and fails at once. Otherwise it takes the archive workflow's next step
/// (load, deliver, name, date, save, remove, in that order, stopping at the first failure); a
/// copy delivers once through `herdr clipboard set --stdin`, a paste or send delivers through
/// the agent delivery steps with the agent's state checked first, and the delivery's result
/// is recorded before the workflow goes on. Once the workflow stops, the command notifies its
/// report and exits with the report's status.
pub open spec fn archive_command_step_is(
    action: ArchiveAction,
    has_state_dir: bool,
    pane: Option<&str>,
    replies: ArchiveCommandReplies,
    step: ArchiveCommandStep,
) -> bool {
    if !has_state_dir {
        reports(
            step,
            ReportView {
                title: action_failed_title_of(action),
                body: STATE_DIR_MISSING@,
                failure: true,
            },
            replies.notified,
        )
    } else {
        exists|a: ArchiveStep|
            #[trigger] archive_step_is(replies.archive, a) && carries_archive_step(
                action,
                pane,
                replies,
                a,
                step,
            )
    }
}

fn report_step(report: ArchiveReport, notified: bool) -> (step: ArchiveCommandStep)
    ensures
        reports(step, report@, notified),
{
    if notified {
        ArchiveCommandStep::Finish(report_result(&report))
    } else {
        ArchiveCommandStep::Notify(report.title, report.body)
    }
}

/// Decide the next step of an archive command; `pane` is the focused pane named by the
/// invocation.
pub fn archive_command_step(
    action: ArchiveAction,
    has_state_dir: bool,
    pane: Option<&str>,
    replies: &ArchiveCommandReplies,
) -> (step: ArchiveCommandStep)
    ensures
        archive_command_step_is(action, has_state_dir, pane, *replies, step),
{
    if !has_state_dir {
        let title = match action {
            ArchiveAction::Copy => copy_archive_failed_title(),
            ArchiveAction::Deliver(delivery) => delivery_failed_title(delivery),
        };
        let report = ArchiveReport { title: owned(title), body: owned(STATE_DIR_MISSING), failure: true };
        return report_step(report, replies.notified);
    }
    let next = archive_step(&replies.archive);
    let ghost taken = next;
    let step = match next {
        ArchiveStep::Load => ArchiveCommandStep::Load,
        ArchiveStep::Deliver(text) => match action {
            ArchiveAction::Copy => ArchiveCommandStep::WriteClipboard(client_clipboard_arguments(), text),
            ArchiveAction::Deliver(delivery) => {
                let d = delivery_step(delivery, true, pane, text.as_str(), &replies.delivery);
                let ghost chosen = d;
                let s = match d {
                    DeliveryStep::Check(args) => ArchiveCommandStep::Check(args),
                    DeliveryStep::Type(args) => ArchiveCommandStep::Type(args),
                    DeliveryStep::Finish(result) => ArchiveCommandStep::Delivered(result),
                };
                assert(carries_delivery(s, chosen));
                s
            },
        },
        ArchiveStep::CreateArchiveId => ArchiveCommandStep::CreateArchiveId,
        ArchiveStep::Now => ArchiveCommandStep::Now,
        ArchiveStep::Save(archive) => ArchiveCommandStep::Save(archive),
        ArchiveStep::RemoveActive(ids) => ArchiveCommandStep::RemoveActive(ids),
        ArchiveStep::Finish(outcome) => {
            let report = match action {
                ArchiveAction::Copy => copy_archive_finished(outcome, &replies.archive),
                ArchiveAction::Deliver(delivery) => deliver_archive_finished(
                    delivery,
                    outcome,
                    &replies.archive,
                ),
            };
            report_step(report, replies.notified)
        },
    };
    assert(carries_archive_step(action, pane, *replies, taken, step));
    step
}

} // verus!
