//! Set environment variables and run a command: the decision logic of
//! `cross-env` and `cross-env-shell`, with its contracts.

pub mod cli;
pub mod execute;
pub mod expand;
pub mod os_text;
pub mod parse;
pub mod resolve;
mod text;

pub use cli::{clamp_code, cli_action, is_valid_key, CliAction, HELP_MAIN, HELP_SHELL, VERSION};
pub use execute::{CommandSpec, DirectExecutor, ExecError, ExitInfo, ShellExecutor, ShellFlavor};
pub use expand::{expand, expand_str, EnvSource, SystemEnv};
pub use os_text::OsText;
pub use parse::{is_valid_env_name, parse, ParseError, Parsed};
pub use resolve::{resolve, Resolved};
