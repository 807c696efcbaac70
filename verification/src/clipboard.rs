//! The clipboard programs tried on each platform, and the first-success rule that picks one.

use vstd::prelude::*;

use crate::text::owned;

verus! {

/// The platform families with their own clipboard programs.
#[derive(Debug, Clone, Copy, PartialEq, Eq, Structural)]
pub enum Platform {
    MacOs,
    Windows,
    Other,
}

/// One clipboard program and its arguments.
#[derive(Debug, Clone, PartialEq, Eq)]
pub struct ClipboardCommand {
    pub command: &'static str,
    pub args: Vec<&'static str>,
}

/// A command as text: the program and its arguments.
pub open spec fn command_view(candidate: ClipboardCommand) -> (Seq<char>, Seq<Seq<char>>) {
    (candidate.command@, candidate.args@.map_values(|a: &str| a@))
}

/// The views of a list of candidates.
pub open spec fn command_views(candidates: Seq<ClipboardCommand>) -> Seq<(Seq<char>, Seq<Seq<char>>)> {
    candidates.map_values(|c: ClipboardCommand| command_view(c))
}

/// The readers tried, in order, on each platform.
pub open spec fn read_commands_of(platform: Platform) -> Seq<(Seq<char>, Seq<Seq<char>>)> {
    match platform {
        Platform::MacOs => seq![("pbpaste"@, seq![])],
        Platform::Windows => seq![
            (
                "powershell.exe"@,
                seq!["-NoProfile"@, "-NonInteractive"@, "-Command"@, "Get-Clipboard -Raw"@],
            ),
        ],
        Platform::Other => seq![
            ("wl-paste"@, seq!["--no-newline"@]),
            ("xclip"@, seq!["-selection"@, "clipboard"@, "-out"@]),
            ("xsel"@, seq!["--clipboard"@, "--output"@]),
        ],
    }
}

/// The writers tried, in order, on each platform.
pub open spec fn write_commands_of(platform: Platform) -> Seq<(Seq<char>, Seq<Seq<char>>)> {
    match platform {
        Platform::MacOs => seq![("pbcopy"@, seq![])],
        Platform::Windows => seq![
            (
                "powershell.exe"@,
                seq!["-NoProfile"@, "-NonInteractive"@, "-Command"@, "$input | Set-Clipboard"@],
            ),
        ],
        Platform::Other => seq![
            ("wl-copy"@, seq![]),
            ("xclip"@, seq!["-selection"@, "clipboard"@, "-in"@]),
            ("xsel"@, seq!["--clipboard"@, "--input"@]),
        ],
    }
}

fn candidate(command: &'static str, args: Vec<&'static str>) -> (c: ClipboardCommand)
    ensures
        c.command == command,
        c.args@ == args@,
{
    ClipboardCommand { command, args }
}

/// The clipboard readers to try on `platform`, in order.
pub fn read_commands(platform: Platform) -> (commands: Vec<ClipboardCommand>)
    ensures
        command_views(commands@) == read_commands_of(platform),
{
    let commands = match platform {
        Platform::MacOs => vec![candidate("pbpaste", vec![])],
        Platform::Windows => vec![
            candidate(
                "powershell.exe",
                vec!["-NoProfile", "-NonInteractive", "-Command", "Get-Clipboard -Raw"],
            ),
        ],
        Platform::Other => vec![
            candidate("wl-paste", vec!["--no-newline"]),
            candidate("xclip", vec!["-selection", "clipboard", "-out"]),
            candidate("xsel", vec!["--clipboard", "--output"]),
        ],
    };
    proof {
        let views = command_views(commands@);
        assert forall|i: int| 0 <= i < commands@.len() implies #[trigger] views[i]
            == read_commands_of(platform)[i] by {
            assert(commands@[i].args@.map_values(|a: &str| a@) =~= read_commands_of(platform)[i].1);
        }
        assert(views =~= read_commands_of(platform));
    }
    commands
}

/// The clipboard writers to try on `platform`, in order.
pub fn write_commands(platform: Platform) -> (commands: Vec<ClipboardCommand>)
    ensures
        command_views(commands@) == write_commands_of(platform),
{
    let commands = match platform {
        Platform::MacOs => vec![candidate("pbcopy", vec![])],
        Platform::Windows => vec![
            candidate(
                "powershell.exe",
                vec!["-NoProfile", "-NonInteractive", "-Command", "$input | Set-Clipboard"],
            ),
        ],
        Platform::Other => vec![
            candidate("wl-copy", vec![]),
            candidate("xclip", vec!["-selection", "clipboard", "-in"]),
            candidate("xsel", vec!["--clipboard", "--input"]),
        ],
    };
    proof {
        let views = command_views(commands@);
        assert forall|i: int| 0 <= i < commands@.len() implies #[trigger] views[i]
            == write_commands_of(platform)[i] by {
            assert(commands@[i].args@.map_values(|a: &str| a@) =~= write_commands_of(platform)[i].1);
        }
        assert(views =~= write_commands_of(platform));
    }
    commands
}

/// The error when no reader produced text.
pub open spec fn no_reader() -> Seq<char> {
    "No supported clipboard reader is available"@
}

/// The error when no writer accepted the text.
pub open spec fn no_writer() -> Seq<char> {
    "No supported clipboard writer is available"@
}

/// The next step of reading or writing the clipboard.
#[derive(Debug)]
pub enum ClipboardStep<T> {
    /// Start this program.
    Run(ClipboardCommand),
    /// Stop with this result.
    Finish(Result<T, String>),
}

/// The step a clipboard read takes next, given what the readers started so far gave, in
/// order: the first output wins, the readers are started one at a time in the platform's order,
/// and when none is left the error names that.
pub open spec fn clipboard_read_step_is(
    platform: Platform,
    outputs: Seq<Option<String>>,
    step: ClipboardStep<String>,
) -> bool {
    let k = outputs.len() as int;
    if k > 0 && outputs.last() is Some {
        step matches ClipboardStep::Finish(Ok(text)) && text@ == outputs.last()->0@
    } else if k < read_commands_of(platform).len() {
        step matches ClipboardStep::Run(c) && command_view(c) == read_commands_of(platform)[k]
    } else {
        step matches ClipboardStep::Finish(Err(message)) && message@ == no_reader()
    }
}

/// The step a clipboard write takes next, given whether each writer started so far took the
/// text: the writers are started one at a time in the platform's order until one does, and when
/// none is left the error names that.
pub open spec fn clipboard_write_step_is(platform: Platform, outcomes: Seq<bool>, step: ClipboardStep<()>) -> bool {
    let k = outcomes.len() as int;
    if k > 0 && outcomes.last() {
        step matches ClipboardStep::Finish(Ok(()))
    } else if k < write_commands_of(platform).len() {
        step matches ClipboardStep::Run(c) && command_view(c) == write_commands_of(platform)[k]
    } else {
        step matches ClipboardStep::Finish(Err(message)) && message@ == no_writer()
    }
}

/// Decide the next step of reading the clipboard on `platform`.
pub fn clipboard_read_step(platform: Platform, outputs: &[Option<String>]) -> (step: ClipboardStep<String>)
    ensures
        clipboard_read_step_is(platform, outputs@, step),
{
    let k = outputs.len();
    if k > 0 {
        if let Some(text) = &outputs[k - 1] {
            return ClipboardStep::Finish(Ok(text.clone()));
        }
    }
    let mut commands = read_commands(platform);
    let ghost listed = commands@;
    if k < commands.len() {
        let c = commands.remove(k);
        proof {
            assert(command_view(c) == command_views(listed)[k as int]);
        }
        ClipboardStep::Run(c)
    } else {
        ClipboardStep::Finish(Err(owned("No supported clipboard reader is available")))
    }
}

/// Decide the next step of writing the clipboard on `platform`.
pub fn clipboard_write_step(platform: Platform, outcomes: &[bool]) -> (step: ClipboardStep<()>)
    ensures
        clipboard_write_step_is(platform, outcomes@, step),
{
    let k = outcomes.len();
    if k > 0 && outcomes[k - 1] {
        return ClipboardStep::Finish(Ok(()));
    }
    let mut commands = write_commands(platform);
    let ghost listed = commands@;
    if k < commands.len() {
        let c = commands.remove(k);
        proof {
            assert(command_view(c) == command_views(listed)[k as int]);
        }
        ClipboardStep::Run(c)
    } else {
        ClipboardStep::Finish(Err(owned("No supported clipboard writer is available")))
    }
}

/// Whether `run`, started on a candidate whose view is `expected`, may have given `out`.
pub open spec fn reader_gave<Run: Fn(&ClipboardCommand) -> Option<String>>(
    run: Run,
    expected: (Seq<char>, Seq<Seq<char>>),
    out: Option<String>,
) -> bool {
    exists|c: ClipboardCommand| #[trigger] command_view(c) == expected && call_ensures(run, (&c,), out)
}

/// Whether `run`, started on a candidate whose view is `expected` with `text`, may have answered
/// `wrote`.
pub open spec fn writer_gave<Run: Fn(&ClipboardCommand, &str) -> bool>(
    run: Run,
    expected: (Seq<char>, Seq<Seq<char>>),
    text: &str,
    wrote: bool,
) -> bool {
    exists|c: ClipboardCommand| #[trigger] command_view(c) == expected && call_ensures(run, (&c, text), wrote)
}

/// Given the outputs `before`, a read starts reader `k` of the platform next.
pub open spec fn starts_reader(platform: Platform, before: Seq<Option<String>>, k: int) -> bool {
    exists|c: ClipboardCommand|
        command_view(c) == read_commands_of(platform)[k] && #[trigger] clipboard_read_step_is(
            platform,
            before,
            ClipboardStep::Run(c),
        )
}

/// Given the answers `before`, a write starts writer `k` of the platform next.
pub open spec fn starts_writer(platform: Platform, before: Seq<bool>, k: int) -> bool {
    exists|c: ClipboardCommand|
        command_view(c) == write_commands_of(platform)[k] && #[trigger] clipboard_write_step_is(
            platform,
            before,
            ClipboardStep::Run(c),
        )
}

/// Read text through the first reader on `platform` that succeeds.
///
/// `run` starts one reader and gives its output, or `None` when the program is missing or
/// fails. Readers are tried in order and the first output wins; when none gives output the
/// error names that. The second result is what the readers started gave, in order: the steps
/// `clipboard_read_step` names, one reader per output, ending with the result returned.
pub fn read_clipboard<Run: Fn(&ClipboardCommand) -> Option<String>>(platform: Platform, run: Run) -> (read: (
    Result<String, String>,
    Ghost<Seq<Option<String>>>,
))
    requires
        forall|c: &ClipboardCommand| call_requires(run, (c,)),
    ensures
        read.1@.len() <= read_commands_of(platform).len(),
        forall|k: int|
            0 <= k < read.1@.len() ==> #[trigger] reader_gave(run, read_commands_of(platform)[k], read.1@[k]),
        forall|k: int|
            0 <= k < read.1@.len() ==> #[trigger] starts_reader(platform, read.1@.take(k), k),
        clipboard_read_step_is(platform, read.1@, ClipboardStep::Finish(read.0)),
{
    let commands = read_commands(platform);
    let mut i: usize = 0;
    let ghost mut outputs: Seq<Option<String>> = seq![];
    while i < commands.len()
        invariant
            i <= commands@.len(),
            command_views(commands@) == read_commands_of(platform),
            forall|c: &ClipboardCommand| call_requires(run, (c,)),
            outputs.len() == i,
            forall|j: int| 0 <= j < i ==> outputs[j] is None,
            forall|j: int|
                0 <= j < i ==> #[trigger] reader_gave(run, read_commands_of(platform)[j], outputs[j]),
            forall|j: int|
                0 <= j < i ==> #[trigger] starts_reader(platform, outputs.take(j), j),
        decreases commands@.len() - i,
    {
        let output = run(&commands[i]);
        proof {
            assert(command_view(commands@[i as int]) == read_commands_of(platform)[i as int]);
            assert(reader_gave(run, read_commands_of(platform)[i as int], output));
            assert(clipboard_read_step_is(platform, outputs, ClipboardStep::Run(commands@[i as int])));
            assert(outputs.take(i as int) =~= outputs);
            assert(command_views(commands@)[i as int] == command_view(commands@[i as int]));
            let next = outputs.push(output);
            assert forall|j: int| 0 <= j <= i implies next.take(j) == outputs.take(j) by {
                assert(next.take(j) =~= outputs.take(j));
            }
            outputs = next;
        }
        match output {
            Some(t) => {
                return (Ok(t), Ghost(outputs));
            },
            None => {},
        }
        i = i + 1;
    }
    (Err(owned("No supported clipboard reader is available")), Ghost(outputs))
}

/// Write text through the first writer on `platform` that accepts it.
///
/// `run` starts one writer with the text and answers whether it took the text and exited
/// successfully. Writers are tried in order until one does; when none does the error names
/// that. The second result is what the writers started answered, in order: the steps
/// `clipboard_write_step` names, one writer per answer, ending with the result returned.
pub fn write_clipboard<Run: Fn(&ClipboardCommand, &str) -> bool>(platform: Platform, text: &str, run: Run) -> (written: (
    Result<(), String>,
    Ghost<Seq<bool>>,
))
    requires
        forall|c: &ClipboardCommand, t: &str| call_requires(run, (c, t)),
    ensures
        written.1@.len() <= write_commands_of(platform).len(),
        forall|k: int|
            0 <= k < written.1@.len() ==> #[trigger] writer_gave(
                run,
                write_commands_of(platform)[k],
                text,
                written.1@[k],
            ),
        forall|k: int|
            0 <= k < written.1@.len() ==> #[trigger] starts_writer(platform, written.1@.take(k), k),
        clipboard_write_step_is(platform, written.1@, ClipboardStep::Finish(written.0)),
{
    let commands = write_commands(platform);
    let mut i: usize = 0;
    let ghost mut outcomes: Seq<bool> = seq![];
    while i < commands.len()
        invariant
            i <= commands@.len(),
            command_views(commands@) == write_commands_of(platform),
            forall|c: &ClipboardCommand, t: &str| call_requires(run, (c, t)),
            outcomes.len() == i,
            forall|j: int| 0 <= j < i ==> !outcomes[j],
            forall|j: int|
                0 <= j < i ==> #[trigger] writer_gave(run, write_commands_of(platform)[j], text, outcomes[j]),
            forall|j: int|
                0 <= j < i ==> #[trigger] starts_writer(platform, outcomes.take(j), j),
        decreases commands@.len() - i,
    {
        let wrote = run(&commands[i], text);
        proof {
            assert(command_view(commands@[i as int]) == write_commands_of(platform)[i as int]);
            assert(writer_gave(run, write_commands_of(platform)[i as int], text, wrote));
            assert(clipboard_write_step_is(platform, outcomes, ClipboardStep::Run(commands@[i as int])));
            assert(outcomes.take(i as int) =~= outcomes);
            assert(command_views(commands@)[i as int] == command_view(commands@[i as int]));
            let next = outcomes.push(wrote);
            assert forall|j: int| 0 <= j <= i implies next.take(j) == outcomes.take(j) by {
                assert(next.take(j) =~= outcomes.take(j));
            }
            outcomes = next;
        }
        if wrote {
            return (Ok(()), Ghost(outcomes));
        }
        i = i + 1;
    }
    (Err(owned("No supported clipboard writer is available")), Ghost(outcomes))
}

/// The clipboard readers hand back the clipboard text unchanged: wherever `wl-paste` is a
/// reader it runs with `--no-newline`, so no newline is added; PowerShell reads with
/// `Get-Clipboard -Raw`, so the text is not split into lines; and `xclip` and `xsel` read the
/// clipboard selection rather than writing it.
pub proof fn lemma_readers_keep_the_text(platform: Platform, k: int)
    requires
        0 <= k < read_commands_of(platform).len(),
    ensures
        read_commands_of(platform)[k].0 == "wl-paste"@ ==> read_commands_of(platform)[k].1 == seq![
            "--no-newline"@,
        ],
        read_commands_of(platform)[k].0 == "powershell.exe"@ ==> read_commands_of(platform)[k].1.last()
            == "Get-Clipboard -Raw"@,
        read_commands_of(platform)[k].0 == "xclip"@ ==> read_commands_of(platform)[k].1 == seq![
            "-selection"@,
            "clipboard"@,
            "-out"@,
        ],
        read_commands_of(platform)[k].0 == "xsel"@ ==> read_commands_of(platform)[k].1 == seq![
            "--clipboard"@,
            "--output"@,
        ],
{
    reveal_strlit("wl-paste");
    reveal_strlit("powershell.exe");
    reveal_strlit("pbpaste");
    reveal_strlit("xclip");
    reveal_strlit("xsel");
    let name = read_commands_of(platform)[k].0;
    let args = read_commands_of(platform)[k].1;
    match platform {
        Platform::MacOs => {
            assert(name == "pbpaste"@);
            assert(name.len() != "wl-paste"@.len() && name.len() != "powershell.exe"@.len());
            assert(name.len() != "xclip"@.len() && name.len() != "xsel"@.len());
        },
        Platform::Windows => {
            assert(name == "powershell.exe"@);
            assert(name.len() != "wl-paste"@.len());
            assert(name.len() != "xclip"@.len() && name.len() != "xsel"@.len());
            assert(args[args.len() - 1] == "Get-Clipboard -Raw"@);
        },
        Platform::Other => {
            if k == 0 {
                assert(name.len() != "powershell.exe"@.len());
                assert(name.len() != "xclip"@.len() && name.len() != "xsel"@.len());
            } else if k == 1 {
                assert(name == "xclip"@);
                assert(name.len() != "wl-paste"@.len() && name.len() != "powershell.exe"@.len());
                assert(name.len() != "xsel"@.len());
            } else {
                assert(name == "xsel"@);
                assert(name.len() != "wl-paste"@.len() && name.len() != "powershell.exe"@.len());
                assert(name.len() != "xclip"@.len());
            }
        },
    }
}


/// Where the Wayland reader is offered, it is tried before the X11 readers, so a Wayland
/// session reads through `wl-paste` even when an X11 bridge is installed.
pub proof fn lemma_wayland_reader_first(platform: Platform, i: int, j: int)
    requires
        0 <= i < read_commands_of(platform).len(),
        0 <= j < read_commands_of(platform).len(),
        read_commands_of(platform)[i].0 == "wl-paste"@,
        read_commands_of(platform)[j].0 == "xclip"@ || read_commands_of(platform)[j].0 == "xsel"@,
    ensures
        i < j,
{
    reveal_strlit("wl-paste");
    reveal_strlit("powershell.exe");
    reveal_strlit("pbpaste");
    reveal_strlit("xclip");
    reveal_strlit("xsel");
    let names = Seq::new(read_commands_of(platform).len(), |k: int| read_commands_of(platform)[k].0);
    match platform {
        Platform::MacOs => {
            assert(names[i] == "pbpaste"@);
            assert(names[i].len() != "wl-paste"@.len());
        },
        Platform::Windows => {
            assert(names[i] == "powershell.exe"@);
            assert(names[i].len() != "wl-paste"@.len());
        },
        Platform::Other => {
            if i > 0 {
                assert(names[i].len() != "wl-paste"@.len());
            }
            if j == 0 {
                assert(names[j].len() != "xclip"@.len() && names[j].len() != "xsel"@.len());
            }
        },
    }
}

} // verus!
