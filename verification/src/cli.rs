//! Front-end decisions of the two programs: which action the first
//! argument asks for, and the process exit code reported for an outcome.

use vstd::prelude::*;

use crate::os_text::{os_views, OsText, OsTextView};
use crate::execute::{spec_exit_code, ExitInfo};
use crate::parse::{is_valid_env_name, valid_env_name};

verus! {

/// Version reported by `--version`.
pub const VERSION: &'static str = "0.1.1";

/// Help of `cross-env`.
pub const HELP_MAIN: &'static str = "Usage: cross-env [KEY=VALUE]... <command> [args]...

Set environment variables and run a command. Drop-in replacement for npm cross-env.

Options:
  -h, --help     Show this help and exit
  -V, --version  Show version and exit
";

/// Help of `cross-env-shell`.
pub const HELP_SHELL: &'static str = "Usage: cross-env-shell [KEY=VALUE]... <shell command>

Set environment variables and run a shell command (sh -c on Unix, cmd /c on Windows).
Useful when the command contains pipes, redirects, or shell-specific syntax.

Options:
  -h, --help     Show this help and exit
  -V, --version  Show version and exit
";

/// What an invocation asks for.
#[derive(Debug, PartialEq, Eq, Structural, Clone, Copy)]
pub enum CliAction {
    /// `--help` or `-h` first: print the help, succeed.
    ShowHelp,
    /// `--version` or `-V` first: print the version, succeed.
    ShowVersion,
    /// No arguments at all: print the help to stderr, fail.
    MissingArguments,
    /// Anything else: parse and run.
    Run,
}

/// The action for the argument list `args` (without the program name).
pub open spec fn cli_action_spec(args: Seq<OsTextView>) -> CliAction {
    if args.len() == 0 {
        CliAction::MissingArguments
    } else if args[0] == OsTextView::Text("--help"@) || args[0] == OsTextView::Text("-h"@) {
        CliAction::ShowHelp
    } else if args[0] == OsTextView::Text("--version"@) || args[0] == OsTextView::Text("-V"@) {
        CliAction::ShowVersion
    } else {
        CliAction::Run
    }
}

/// Whether `t` is the text `lit`.
pub(crate) fn text_is(t: &OsText, lit: &str) -> (r: bool)
    ensures
        r == (t@ == OsTextView::Text(lit@)),
{
    match t {
        OsText::Raw(_) => false,
        OsText::Text(s) => {
            let l = lit.to_owned();
            s.eq(&l)
        },
    }
}

/// Decides what the invocation with arguments `args` asks for.
pub fn cli_action(args: &Vec<OsText>) -> (r: CliAction)
    ensures
        r == cli_action_spec(os_views(args@)),
{
    if args.len() == 0 {
        return CliAction::MissingArguments;
    }
    let first = &args[0];
    if text_is(first, "--help") || text_is(first, "-h") {
        CliAction::ShowHelp
    } else if text_is(first, "--version") || text_is(first, "-V") {
        CliAction::ShowVersion
    } else {
        CliAction::Run
    }
}

/// The process exit status for an integer exit code: the code itself when
/// it lies in `0..=255`, `1` otherwise.
pub open spec fn spec_clamp_code(code: int) -> int {
    if 0 <= code <= 255 {
        code
    } else {
        1
    }
}

/// Maps an integer exit code to the process exit status.
pub fn clamp_code(code: i32) -> (r: u8)
    ensures
        r as int == spec_clamp_code(code as int),
{
    if 0 <= code && code <= 255 {
        code as u8
    } else {
        1
    }
}

/// Whether `s` is a valid environment-variable key: the same shape as
/// [`is_valid_env_name`], `[A-Za-z_][A-Za-z0-9_]*`.
pub fn is_valid_key(s: &str) -> (r: bool)
    ensures
        r == valid_env_name(s@),
{
    is_valid_env_name(s)
}

/// Law: the exit status of the programs propagates the child's: a code in
/// `0..=255` is kept, a child killed by signal `s` (`1..=127`) yields
/// `128 + s`, any other code and an unknown outcome yield `1`.
pub proof fn law_exit_status_propagation(info: ExitInfo)
    ensures
        info matches ExitInfo::Code(c) ==> spec_clamp_code(spec_exit_code(info)) == (if 0 <= c
            <= 255 {
            c as int
        } else {
            1
        }),
        info matches ExitInfo::Signal(s) ==> (1 <= s <= 127 ==> spec_clamp_code(
            spec_exit_code(info),
        ) == 128 + s),
        info is Unknown ==> spec_clamp_code(spec_exit_code(info)) == 1,
{
}

/// Law: only the first argument decides. With no argument the invocation
/// is missing its arguments; otherwise `--help`/`-h` show the help,
/// `--version`/`-V` the version, and anything else runs, however many
/// arguments follow.
pub proof fn law_cli_first_argument_decides(args: Seq<OsTextView>, more: Seq<OsTextView>)
    ensures
        (cli_action_spec(args) == CliAction::MissingArguments) == (args.len() == 0),
        args.len() > 0 ==> cli_action_spec(args + more) == cli_action_spec(seq![args[0]]),
        args.len() > 0 && args[0] != OsTextView::Text("--help"@) && args[0] != OsTextView::Text(
            "-h"@,
        ) && args[0] != OsTextView::Text("--version"@) && args[0] != OsTextView::Text("-V"@)
            ==> cli_action_spec(args) == CliAction::Run,
{
    if args.len() > 0 {
        assert((args + more)[0] == args[0]);
    }
}

} // verus!
