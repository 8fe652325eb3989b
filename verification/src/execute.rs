//! Execution planning: what is spawned for a resolved command (directly, or
//! through the platform shell), and the exit code propagated for how the
//! child ended.

use vstd::prelude::*;

use crate::os_text::{os_views, text_of, OsText, OsTextView};
use crate::resolve::Resolved;

verus! {

/// Outcome of running a child process.
#[derive(Debug, PartialEq, Eq, Structural, Clone, Copy)]
pub enum ExitInfo {
    /// The child exited with this status code.
    Code(i32),
    /// The child was terminated by this signal.
    Signal(i32),
    /// Neither a code nor a signal is known.
    Unknown,
}

/// The integer exit code propagated for an outcome: the code itself,
/// `128 + s` for a signal `s` (POSIX convention), and `1` otherwise.
pub open spec fn spec_exit_code(info: ExitInfo) -> int {
    match info {
        ExitInfo::Code(c) => c as int,
        ExitInfo::Signal(s) => 128 + s,
        ExitInfo::Unknown => 1,
    }
}

impl ExitInfo {
    /// Map to the integer exit code propagated to the OS.
    pub fn to_exit_code(&self) -> (r: i32)
        requires
            i32::MIN <= spec_exit_code(*self) <= i32::MAX,
        ensures
            r as int == spec_exit_code(*self),
    {
        match self {
            ExitInfo::Code(c) => *c,
            ExitInfo::Signal(s) => 128 + *s,
            ExitInfo::Unknown => 1,
        }
    }
}

/// How a child ended, from its exit code (if any) and terminating signal
/// (if any): a code wins over a signal.
pub open spec fn spec_exit_info(code: Option<i32>, signal: Option<i32>) -> ExitInfo {
    match code {
        Some(c) => ExitInfo::Code(c),
        None => match signal {
            Some(s) => ExitInfo::Signal(s),
            None => ExitInfo::Unknown,
        },
    }
}

impl ExitInfo {
    /// Classifies a finished child from its exit code and terminating signal.
    pub fn from_code_and_signal(code: Option<i32>, signal: Option<i32>) -> (r: ExitInfo)
        ensures
            r == spec_exit_info(code, signal),
    {
        if let Some(c) = code {
            return ExitInfo::Code(c);
        }
        if let Some(s) = signal {
            return ExitInfo::Signal(s);
        }
        ExitInfo::Unknown
    }
}

/// Model of [`CommandSpec`].
pub struct CommandSpecView {
    pub program: OsTextView,
    pub args: Seq<OsTextView>,
}

/// What to spawn: the program and its arguments. The environment
/// assignments are not part of it; they are applied when it is run.
#[derive(Debug)]
pub struct CommandSpec {
    pub program: OsText,
    pub args: Vec<OsText>,
}

impl View for CommandSpec {
    type V = CommandSpecView;

    open spec fn view(&self) -> CommandSpecView {
        CommandSpecView {
            program: self.program@,
            args: os_views(self.args@),
        }
    }
}

/// Why a command could not be prepared.
#[derive(Debug, PartialEq, Eq, Structural, Clone, Copy)]
pub enum ExecError {
    /// A non-UTF-8 argument cannot be passed through to the shell.
    NonUtf8ShellArgument,
}

impl ExecError {
    /// Human-readable description.
    pub fn message(&self) -> (r: &'static str)
        ensures
            r@ == "non-UTF-8 argument cannot be passed through to shell"@,
    {
        "non-UTF-8 argument cannot be passed through to shell"
    }
}

/// Spawns the command directly, from its located absolute path.
pub struct DirectExecutor;

impl DirectExecutor {
    /// The command run directly: `program` (where the command was found) with
    /// the resolved arguments, verbatim.
    pub fn prepare_command(&self, resolved: &Resolved, program: OsText) -> (r: CommandSpec)
        ensures
            r@.program == program@,
            r@.args == resolved@.args,
    {
        let n = resolved.args.len();
        let mut args: Vec<OsText> = Vec::new();
        let mut k: usize = 0;
        while k < n
            invariant
                n == resolved.args@.len(),
                k <= n,
                args@.len() == k,
                forall|m: int| 0 <= m < k ==> #[trigger] args@[m]@ == resolved.args@[m]@,
            decreases n - k,
        {
            args.push(resolved.args[k].duplicate());
            k = k + 1;
        }
        assert(os_views(args@) =~= os_views(resolved.args@));
        CommandSpec { program, args }
    }
}

/// The platform shell that `ShellExecutor` runs through.
#[derive(Debug, PartialEq, Eq, Structural, Clone, Copy)]
pub enum ShellFlavor {
    /// `sh -c` (Unix).
    Posix,
    /// `cmd /d /s /c` (Windows).
    Cmd,
}

/// Whether every token is text.
pub open spec fn all_text(ts: Seq<OsTextView>) -> bool {
    forall|i: int| 0 <= i < ts.len() ==> #[trigger] ts[i] is Text
}

/// `first` followed by each word of `rest`, each preceded by one space.
pub open spec fn join_words(first: Seq<char>, rest: Seq<OsTextView>) -> Seq<char>
    decreases rest.len(),
{
    if rest.len() == 0 {
        first
    } else {
        join_words(first, rest.drop_last()) + seq![' '] + text_of(rest.last())
    }
}

/// The single shell command line for a command and its arguments: all
/// joined by single spaces; `None` when any of them is not text.
pub open spec fn shell_line(command: OsTextView, args: Seq<OsTextView>) -> Option<Seq<char>> {
    if command is Text && all_text(args) {
        Some(join_words(text_of(command), args))
    } else {
        None
    }
}

/// Spawns the command through the platform shell, so that pipes,
/// redirects and shell syntax in it take effect.
pub struct ShellExecutor;

impl ShellExecutor {
    /// Joins the command and its arguments into one shell command line.
    pub fn command_line(&self, resolved: &Resolved) -> (r: Result<String, ExecError>)
        ensures
            match r {
                Ok(line) => shell_line(resolved@.command, resolved@.args) == Some(line@),
                Err(e) => e == ExecError::NonUtf8ShellArgument && shell_line(
                    resolved@.command,
                    resolved@.args,
                ) is None,
            },
    {
        let ghost av = resolved@.args;
        let mut line = String::new();
        match &resolved.command {
            OsText::Text(s) => line.append(s.as_str()),
            OsText::Raw(_) => return Err(ExecError::NonUtf8ShellArgument),
        }
        let n = resolved.args.len();
        let mut k: usize = 0;
        while k < n
            invariant
                n == av.len(),
                av == os_views(resolved.args@),
                resolved.command@ is Text,
                k <= n,
                forall|m: int| 0 <= m < k ==> #[trigger] av[m] is Text,
                line@ == join_words(text_of(resolved.command@), av.take(k as int)),
            decreases n - k,
        {
            match &resolved.args[k] {
                OsText::Text(s) => {
                    proof {
                        reveal_strlit(" ");
                    }
                    line.append(" ");
                    line.append(s.as_str());
                    assert(av.take(k + 1).drop_last() =~= av.take(k as int));
                },
                OsText::Raw(_) => {
                    assert(!(#[trigger] av[k as int] is Text));
                    return Err(ExecError::NonUtf8ShellArgument);
                },
            }
            k = k + 1;
        }
        assert(av.take(n as int) =~= av);
        Ok(line)
    }

    /// The shell invocation that runs the resolved command: `sh -c LINE`
    /// for `Posix`, `cmd /d /s /c LINE` for `Cmd`, where `LINE` is the
    /// joined command line.
    pub fn prepare_command(&self, resolved: &Resolved, flavor: ShellFlavor) -> (r: Result<
        CommandSpec,
        ExecError,
    >)
        ensures
            match r {
                Ok(spec) => shell_line(resolved@.command, resolved@.args) matches Some(line)
                    && match flavor {
                    ShellFlavor::Posix => spec@.program == OsTextView::Text("sh"@) && spec@.args
                        == seq![OsTextView::Text("-c"@), OsTextView::Text(line)],
                    ShellFlavor::Cmd => spec@.program == OsTextView::Text("cmd"@) && spec@.args
                        == seq![
                        OsTextView::Text("/d"@),
                        OsTextView::Text("/s"@),
                        OsTextView::Text("/c"@),
                        OsTextView::Text(line),
                    ],
                },
                Err(e) => e == ExecError::NonUtf8ShellArgument && shell_line(
                    resolved@.command,
                    resolved@.args,
                ) is None,
            },
    {
        let line = match self.command_line(resolved) {
            Ok(line) => line,
            Err(e) => return Err(e),
        };
        let mut args: Vec<OsText> = Vec::new();
        let program = match flavor {
            ShellFlavor::Posix => {
                args.push(OsText::from_str("-c"));
                OsText::from_str("sh")
            },
            ShellFlavor::Cmd => {
                args.push(OsText::from_str("/d"));
                args.push(OsText::from_str("/s"));
                args.push(OsText::from_str("/c"));
                OsText::from_str("cmd")
            },
        };
        args.push(OsText::Text(line));
        let spec = CommandSpec { program, args };
        assert(spec@.args =~= match flavor {
            ShellFlavor::Posix => seq![OsTextView::Text("-c"@), OsTextView::Text(line@)],
            ShellFlavor::Cmd => seq![
                OsTextView::Text("/d"@),
                OsTextView::Text("/s"@),
                OsTextView::Text("/c"@),
                OsTextView::Text(line@),
            ],
        });
        Ok(spec)
    }
}

/// Law: an exit code that is present is the outcome, zero included, and it
/// is the exit code propagated, whatever the signal; without a code, a
/// signal `s` is the outcome and propagates as `128 + s`; with neither,
/// the outcome is unknown and propagates as `1`.
pub proof fn law_exit_classification(code: Option<i32>, signal: Option<i32>)
    ensures
        code matches Some(c) ==> spec_exit_info(code, signal) == ExitInfo::Code(c)
            && spec_exit_code(spec_exit_info(code, signal)) == c,
        code is None ==> (signal matches Some(s) ==> spec_exit_info(code, signal)
            == ExitInfo::Signal(s) && spec_exit_code(spec_exit_info(code, signal)) == 128 + s),
        code is None && signal is None ==> spec_exit_info(code, signal) == ExitInfo::Unknown
            && spec_exit_code(spec_exit_info(code, signal)) == 1,
{
}

/// Law: the shell line of a command alone is the command; each further text
/// argument adds exactly one space and that argument at the end.
pub proof fn law_shell_line_append(command: Seq<char>, args: Seq<OsTextView>, word: Seq<char>)
    ensures
        shell_line(OsTextView::Text(command), Seq::empty()) == Some(command),
        shell_line(OsTextView::Text(command), args) matches Some(line) ==> shell_line(
            OsTextView::Text(command),
            args.push(OsTextView::Text(word)),
        ) == Some(line + seq![' '] + word),
{
    let a2 = args.push(OsTextView::Text(word));
    assert(a2.drop_last() =~= args);
    if all_text(args) {
        assert forall|i: int| 0 <= i < a2.len() implies #[trigger] a2[i] is Text by {
            if i < args.len() {
                assert(a2[i] == args[i]);
            }
        }
    }
}

/// Total length of the words of `args`, each with its leading space.
pub open spec fn spaced_len(args: Seq<OsTextView>) -> nat
    decreases args.len(),
{
    if args.len() == 0 {
        0
    } else {
        spaced_len(args.drop_last()) + 1 + text_of(args.last()).len()
    }
}

/// Law: the shell line is as long as the command plus, for each argument,
/// one space and the argument; and it starts with the command.
pub proof fn law_shell_line_length(command: Seq<char>, args: Seq<OsTextView>)
    ensures
        shell_line(OsTextView::Text(command), args) matches Some(line) ==> line.len()
            == command.len() + spaced_len(args) && line.subrange(0, command.len() as int)
            == command,
    decreases args.len(),
{
    if all_text(args) && args.len() > 0 {
        let a1 = args.drop_last();
        assert forall|i: int| 0 <= i < a1.len() implies #[trigger] a1[i] is Text by {
            assert(a1[i] == args[i]);
        }
        law_shell_line_length(command, a1);
        let l1 = join_words(command, a1);
        let line = l1 + seq![' '] + text_of(args.last());
        assert(line.subrange(0, command.len() as int) =~= l1.subrange(0, command.len() as int));
    } else if all_text(args) {
        assert(command.subrange(0, command.len() as int) =~= command);
    }
}

} // verus!
