//! Calls back into the Herdr CLI: the arguments handed over, and how each exit is read.

use vstd::prelude::*;

use crate::text::{join_strings, join_with, owned, trim, trimmed};

verus! {

/// How one run of the `herdr` program ended.
#[derive(Debug, Clone, PartialEq, Eq)]
pub enum ProcessExit {
    /// The program ran and exited; its output is read as UTF-8, invalid bytes replaced.
    Exited { success: bool, stdout: String, stderr: String },
    /// The program could not be started; `error` describes why.
    NotStarted { error: String },
}

/// The arguments as text.
pub open spec fn argument_texts(args: Seq<String>) -> Seq<Seq<char>> {
    args.map_values(|a: String| a@)
}

/// The words of a failed Herdr call: its trimmed stderr, or `fallback` when stderr says nothing.
pub open spec fn herdr_failure_text(stderr: Seq<char>, fallback: Seq<char>) -> Seq<char> {
    if trimmed(stderr).len() == 0 {
        fallback
    } else {
        trimmed(stderr)
    }
}

/// Report a failed Herdr call by its trimmed stderr, or by `fallback` when stderr is blank.
pub fn herdr_failure(stderr: &str, fallback: String) -> (message: String)
    ensures
        message@ == herdr_failure_text(stderr@, fallback@),
{
    let text = trim(stderr);
    if text.as_str().unicode_len() == 0 {
        fallback
    } else {
        text
    }
}

/// `herdr <args> failed`, naming every argument.
pub fn herdr_call_failed(args: &Vec<String>) -> (message: String)
    ensures
        message@ == call_failed_text(argument_texts(args@)),
{
    let mut message = owned("herdr ");
    let joined = join_strings(args, " ");
    proof {
        reveal_strlit(" ");
        assert(" "@ =~= seq![' ']);
    }
    message.append(joined.as_str());
    message.append(" failed");
    message
}

/// The command of an argument list, its first two words, as failures name it: annotation text
/// passed as a later argument never appears in an error.
pub fn herdr_command_name(args: &Vec<String>) -> (command: String)
    ensures
        command@ == command_text(argument_texts(args@)),
{
    let n: usize = if args.len() < 2 { args.len() } else { 2 };
    let mut first: Vec<String> = Vec::new();
    let mut i: usize = 0;
    while i < n
        invariant
            i <= n <= args@.len(),
            first@.len() == i,
            forall|k: int| 0 <= k < i ==> #[trigger] first@[k] == args@[k],
        decreases n - i,
    {
        first.push(args[i].clone());
        i = i + 1;
    }
    assert(first@.map_values(|a: String| a@) =~= args@.map_values(|a: String| a@).take(n as int));
    let command = join_strings(&first, " ");
    proof {
        reveal_strlit(" ");
        assert(" "@ =~= seq![' ']);
    }
    command
}


/// `herdr <every argument> failed`.
pub open spec fn call_failed_text(args: Seq<Seq<char>>) -> Seq<char> {
    "herdr "@ + join_with(args, seq![' ']) + " failed"@
}

/// The command an argument list names: its first two words.
pub open spec fn command_text(args: Seq<Seq<char>>) -> Seq<char> {
    join_with(args.take(if args.len() < 2 { args.len() as int } else { 2 }), seq![' '])
}

/// What a run of `herdr` that only has to succeed comes to.
pub open spec fn run_result_of(args: Seq<Seq<char>>, exit: ProcessExit) -> Result<(), Seq<char>> {
    match exit {
        ProcessExit::Exited { success, stderr, .. } => if success {
            Ok(())
        } else {
            Err(herdr_failure_text(stderr@, call_failed_text(args)))
        },
        ProcessExit::NotStarted { .. } => Err(call_failed_text(args)),
    }
}

/// Read the exit of a `herdr` run whose output is not needed: success, else its trimmed
/// stderr, else a message naming the whole call.
pub fn run_herdr_result(args: &Vec<String>, exit: ProcessExit) -> (result: Result<(), String>)
    ensures
        match (result, run_result_of(argument_texts(args@), exit)) {
            (Ok(()), Ok(())) => true,
            (Err(message), Err(expected)) => message@ == expected,
            _ => false,
        },
{
    match exit {
        ProcessExit::Exited { success, stderr, .. } => {
            if success {
                Ok(())
            } else {
                Err(herdr_failure(stderr.as_str(), herdr_call_failed(args)))
            }
        },
        ProcessExit::NotStarted { .. } => Err(herdr_call_failed(args)),
    }
}

/// What a run of `herdr` whose output is wanted comes to. A failure names only the command,
/// never later arguments, because callers pass annotation text as an argument.
pub open spec fn output_result_of(args: Seq<Seq<char>>, exit: ProcessExit) -> Result<Seq<char>, Seq<char>> {
    match exit {
        ProcessExit::Exited { success, stdout, stderr } => if success {
            Ok(stdout@)
        } else {
            Err(herdr_failure_text(stderr@, "herdr "@ + command_text(args) + " failed"@))
        },
        ProcessExit::NotStarted { error } => Err(
            "cannot run herdr "@ + command_text(args) + ": "@ + error@,
        ),
    }
}

/// Read the exit of a `herdr` run whose stdout is wanted.
pub fn run_herdr_output_result(args: &Vec<String>, exit: ProcessExit) -> (result: Result<String, String>)
    ensures
        match (result, output_result_of(argument_texts(args@), exit)) {
            (Ok(out), Ok(expected)) => out@ == expected,
            (Err(message), Err(expected)) => message@ == expected,
            _ => false,
        },
{
    let command = herdr_command_name(args);
    match exit {
        ProcessExit::Exited { success, stdout, stderr } => {
            if success {
                Ok(stdout)
            } else {
                let mut fallback = owned("herdr ");
                fallback.append(command.as_str());
                fallback.append(" failed");
                Err(herdr_failure(stderr.as_str(), fallback))
            }
        },
        ProcessExit::NotStarted { error } => {
            let mut message = owned("cannot run herdr ");
            message.append(command.as_str());
            message.append(": ");
            message.append(error.as_str());
            Err(message)
        },
    }
}

/// The arguments of `herdr clipboard set`, which takes the text on stdin and hands it to the
/// clipboard of the client viewing the session.
pub open spec fn client_clipboard_arguments_of() -> Seq<Seq<char>> {
    seq!["clipboard"@, "set"@, "--stdin"@]
}

/// The arguments that put text on the viewing client's clipboard; the text goes to stdin.
pub fn client_clipboard_arguments() -> (args: Vec<String>)
    ensures
        argument_texts(args@) == client_clipboard_arguments_of(),
{
    let mut args: Vec<String> = Vec::new();
    args.push(owned("clipboard"));
    args.push(owned("set"));
    args.push(owned("--stdin"));
    assert(argument_texts(args@) =~= client_clipboard_arguments_of());
    args
}

/// An optional text's characters.
pub open spec fn optional_text(text: Option<&str>) -> Option<Seq<char>> {
    match text {
        Some(t) => Some(t@),
        None => None,
    }
}

/// The arguments of `herdr notification show`.
pub open spec fn notification_arguments_of(title: Seq<char>, body: Option<Seq<char>>) -> Seq<Seq<char>> {
    match body {
        Some(b) => seq!["notification"@, "show"@, title, "--body"@, b],
        None => seq!["notification"@, "show"@, title],
    }
}

/// The arguments that show one notification, with its body when there is one.
pub fn notification_arguments(title: &str, body: Option<&str>) -> (args: Vec<String>)
    ensures
        argument_texts(args@) == notification_arguments_of(title@, optional_text(body)),
{
    let mut args: Vec<String> = Vec::new();
    args.push(owned("notification"));
    args.push(owned("show"));
    args.push(owned(title));
    match body {
        Some(b) => {
            args.push(owned("--body"));
            args.push(owned(b));
        },
        None => {},
    }
    assert(argument_texts(args@) =~= notification_arguments_of(title@, optional_text(body)));
    args
}

} // verus!
