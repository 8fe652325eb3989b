use cross_env_rs::{cli_action, CliAction, OsText, HELP_MAIN, HELP_SHELL, VERSION};

fn os(s: &str) -> OsText {
    OsText::Text(s.to_string())
}

#[test]
fn cli_actions() {
    assert_eq!(cli_action(&vec![]), CliAction::MissingArguments);
    assert_eq!(cli_action(&vec![os("--help")]), CliAction::ShowHelp);
    assert_eq!(cli_action(&vec![os("-h"), os("x")]), CliAction::ShowHelp);
    assert_eq!(cli_action(&vec![os("--version")]), CliAction::ShowVersion);
    assert_eq!(cli_action(&vec![os("-V")]), CliAction::ShowVersion);
    assert_eq!(cli_action(&vec![os("FOO=1"), os("--help")]), CliAction::Run);
    assert_eq!(cli_action(&vec![OsText::Raw(vec![0xff])]), CliAction::Run);
}

#[test]
fn help_texts() {
    assert!(HELP_MAIN.starts_with("Usage: cross-env [KEY=VALUE]..."));
    assert!(HELP_SHELL.starts_with("Usage: cross-env-shell [KEY=VALUE]..."));
    assert_eq!(VERSION, "0.1.1");
}
