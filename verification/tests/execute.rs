use cross_env_rs::{
    clamp_code, resolve, CommandSpec, DirectExecutor, ExecError, ExitInfo, OsText, Parsed,
    ShellExecutor, ShellFlavor, SystemEnv,
};

fn os(s: &str) -> OsText {
    OsText::Text(s.to_string())
}

fn resolved(command: OsText, args: Vec<OsText>) -> cross_env_rs::Resolved {
    let parsed = Parsed {
        envs: vec![("FOO".to_string(), os("bar"))],
        command,
        args,
    };
    resolve(parsed, &SystemEnv::new(vec![], false))
}

#[test]
fn exit_code_from_code() {
    assert_eq!(ExitInfo::Code(0).to_exit_code(), 0);
    assert_eq!(ExitInfo::Code(42).to_exit_code(), 42);
}

#[test]
fn exit_code_from_signal() {
    assert_eq!(ExitInfo::Signal(9).to_exit_code(), 137);
    assert_eq!(ExitInfo::Signal(15).to_exit_code(), 143);
}

#[test]
fn exit_code_from_unknown() {
    assert_eq!(ExitInfo::Unknown.to_exit_code(), 1);
}

#[test]
fn exit_info_prefers_code_over_signal() {
    assert_eq!(ExitInfo::from_code_and_signal(Some(3), Some(9)), ExitInfo::Code(3));
    assert_eq!(ExitInfo::from_code_and_signal(None, Some(15)), ExitInfo::Signal(15));
    assert_eq!(ExitInfo::from_code_and_signal(None, None), ExitInfo::Unknown);
}

#[test]
fn clamp_code_keeps_byte_range() {
    assert_eq!(clamp_code(0), 0);
    assert_eq!(clamp_code(42), 42);
    assert_eq!(clamp_code(255), 255);
    assert_eq!(clamp_code(256), 1);
    assert_eq!(clamp_code(-1), 1);
    assert_eq!(clamp_code(ExitInfo::Signal(15).to_exit_code()), 143);
}

#[test]
fn direct_executor_runs_located_program() {
    let r = resolved(os("echo"), vec![os("hi"), os("$FOO")]);
    let spec: CommandSpec = DirectExecutor.prepare_command(&r, os("/bin/echo"));
    assert_eq!(spec.program, os("/bin/echo"));
    assert_eq!(spec.args, vec![os("hi"), os("$FOO")]);
    assert_eq!(r.envs, vec![("FOO".to_string(), os("bar"))]);
}

#[test]
fn shell_executor_joins_with_spaces() {
    let r = resolved(os("echo"), vec![os("a b"), os("$FOO")]);
    assert_eq!(ShellExecutor.command_line(&r), Ok("echo a b $FOO".to_string()));
    let spec = ShellExecutor.prepare_command(&r, ShellFlavor::Posix).unwrap();
    assert_eq!(spec.program, os("sh"));
    assert_eq!(spec.args, vec![os("-c"), os("echo a b $FOO")]);
}

#[test]
fn shell_executor_cmd_flavor() {
    let r = resolved(os("exit 42"), vec![]);
    let spec = ShellExecutor.prepare_command(&r, ShellFlavor::Cmd).unwrap();
    assert_eq!(spec.program, os("cmd"));
    assert_eq!(spec.args, vec![os("/d"), os("/s"), os("/c"), os("exit 42")]);
}

#[test]
fn shell_executor_rejects_raw_bytes() {
    let r = resolved(os("echo"), vec![os("ok"), OsText::Raw(vec![0xff, 0xfe])]);
    assert_eq!(
        ShellExecutor.command_line(&r),
        Err(ExecError::NonUtf8ShellArgument)
    );
    let r = resolved(OsText::Raw(vec![0x80]), vec![]);
    assert_eq!(
        ShellExecutor.prepare_command(&r, ShellFlavor::Posix).unwrap_err(),
        ExecError::NonUtf8ShellArgument
    );
    assert_eq!(
        ExecError::NonUtf8ShellArgument.message(),
        "non-UTF-8 argument cannot be passed through to shell"
    );
}
