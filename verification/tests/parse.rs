use cross_env_rs::{is_valid_env_name, is_valid_key, parse, OsText, ParseError};

fn os(s: &str) -> OsText {
    OsText::Text(s.to_string())
}

fn key(s: &str) -> String {
    s.to_string()
}

#[test]
fn parse_parses_single_kv_and_command() {
    let parsed = parse(vec![os("FOO=bar"), os("echo"), os("hi")]).unwrap();
    assert_eq!(parsed.envs, vec![(key("FOO"), os("bar"))]);
    assert_eq!(parsed.command, os("echo"));
    assert_eq!(parsed.args, vec![os("hi")]);
}

#[test]
fn parse_parses_multiple_kv() {
    let parsed = parse(vec![
        os("FOO=1"),
        os("BAR=two"),
        os("BAZ="),
        os("node"),
        os("-e"),
        os("0"),
    ])
    .unwrap();
    assert_eq!(parsed.envs.len(), 3);
    assert_eq!(parsed.envs[2], (key("BAZ"), os("")));
    assert_eq!(parsed.command, os("node"));
}

#[test]
fn parse_first_non_kv_becomes_command() {
    let parsed = parse(vec![os("FOO=1"), os("./run.sh"), os("FOO=2")]).unwrap();
    assert_eq!(parsed.command, os("./run.sh"));
    assert_eq!(parsed.args, vec![os("FOO=2")]);
}

#[test]
fn parse_rejects_invalid_key() {
    let parsed = parse(vec![os("=cmd"), os("rest")]).unwrap();
    assert_eq!(parsed.envs, vec![]);
    assert_eq!(parsed.command, os("=cmd"));
}

#[test]
fn parse_rejects_key_starting_with_digit() {
    let parsed = parse(vec![os("1FOO=bar"), os("cmd")]).unwrap();
    assert!(parsed.envs.is_empty());
    assert_eq!(parsed.command, os("1FOO=bar"));
}

#[test]
fn parse_missing_command_errors() {
    assert!(parse(vec![os("FOO=bar")]).is_err());
    assert!(parse(vec![]).is_err());
}

#[test]
fn double_dash_terminates_env_parsing() {
    let parsed = parse(vec![os("FOO=bar"), os("--"), os("BAZ=literal"), os("arg1")]).unwrap();
    assert_eq!(parsed.envs, vec![(key("FOO"), os("bar"))]);
    assert_eq!(parsed.command, os("BAZ=literal"));
    assert_eq!(parsed.args, vec![os("arg1")]);
}

#[test]
fn double_dash_with_no_command_errors() {
    assert!(parse(vec![os("FOO=bar"), os("--")]).is_err());
    assert!(parse(vec![os("--")]).is_err());
}

#[test]
fn env_name_validation() {
    assert!(is_valid_env_name("FOO"));
    assert!(is_valid_env_name("_FOO"));
    assert!(is_valid_env_name("FOO_BAR_42"));
    assert!(!is_valid_env_name(""));
    assert!(!is_valid_env_name("1FOO"));
    assert!(!is_valid_env_name("FOO-BAR"));
    assert!(!is_valid_env_name("FOO BAR"));
}

#[test]
fn lib_parses_single_kv_and_command() {
    let parsed = parse(vec![os("FOO=bar"), os("echo"), os("hi")]).unwrap();
    assert_eq!(parsed.envs, vec![(key("FOO"), os("bar"))]);
    assert_eq!(parsed.command, os("echo"));
    assert_eq!(parsed.args, vec![os("hi")]);
}

#[test]
fn lib_parses_multiple_kv() {
    let parsed = parse(vec![
        os("FOO=1"),
        os("BAR=two"),
        os("BAZ="),
        os("node"),
        os("-e"),
        os("0"),
    ])
    .unwrap();
    assert_eq!(parsed.envs.len(), 3);
    assert_eq!(parsed.envs[2], (key("BAZ"), os("")));
    assert_eq!(parsed.command, os("node"));
}

#[test]
fn lib_first_non_kv_becomes_command() {
    let parsed = parse(vec![os("FOO=1"), os("./run.sh"), os("FOO=2")]).unwrap();
    assert_eq!(parsed.command, os("./run.sh"));
    assert_eq!(parsed.args, vec![os("FOO=2")]);
}

#[test]
fn lib_rejects_invalid_key() {
    let parsed = parse(vec![os("=cmd"), os("rest")]).unwrap();
    assert_eq!(parsed.envs, vec![]);
    assert_eq!(parsed.command, os("=cmd"));
}

#[test]
fn lib_rejects_key_starting_with_digit() {
    let parsed = parse(vec![os("1FOO=bar"), os("cmd")]).unwrap();
    assert!(parsed.envs.is_empty());
    assert_eq!(parsed.command, os("1FOO=bar"));
}

#[test]
fn lib_missing_command_errors() {
    assert!(parse(vec![os("FOO=bar")]).is_err());
    assert!(parse(vec![]).is_err());
}

#[test]
fn key_validation() {
    assert!(is_valid_key("FOO"));
    assert!(is_valid_key("_FOO"));
    assert!(is_valid_key("FOO_BAR_42"));
    assert!(!is_valid_key(""));
    assert!(!is_valid_key("1FOO"));
    assert!(!is_valid_key("FOO-BAR"));
    assert!(!is_valid_key("FOO BAR"));
}

#[test]
fn missing_command_error_is_no_command() {
    assert_eq!(parse(vec![os("A=1")]).unwrap_err(), ParseError::NoCommand);
    assert_eq!(ParseError::NoCommand.message(), "no command provided");
}

#[test]
fn value_keeps_later_equals_signs() {
    let parsed = parse(vec![os("FOO=a=b"), os("cmd")]).unwrap();
    assert_eq!(parsed.envs, vec![(key("FOO"), os("a=b"))]);
}

#[test]
fn raw_token_is_the_command() {
    let raw = OsText::Raw(vec![b'A', b'=', 0xff]);
    let parsed = parse(vec![os("X=1"), OsText::Raw(vec![b'A', b'=', 0xff]), os("y")]).unwrap();
    assert_eq!(parsed.envs, vec![(key("X"), os("1"))]);
    assert_eq!(parsed.command, raw);
    assert_eq!(parsed.args, vec![os("y")]);
}

#[test]
fn law_pairs_then_command_round_trip() {
    let parsed = parse(vec![os("A=x"), os("B_2="), os("run"), os("C=3"), os("--")]).unwrap();
    assert_eq!(parsed.envs, vec![(key("A"), os("x")), (key("B_2"), os(""))]);
    assert_eq!(parsed.command, os("run"));
    assert_eq!(parsed.args, vec![os("C=3"), os("--")]);
}

#[test]
fn law_double_dash_makes_next_token_the_command() {
    let parsed = parse(vec![os("A=x"), os("--"), os("--"), os("B=y")]).unwrap();
    assert_eq!(parsed.envs, vec![(key("A"), os("x"))]);
    assert_eq!(parsed.command, os("--"));
    assert_eq!(parsed.args, vec![os("B=y")]);
}
