use cross_env_rs::{resolve, OsText, Parsed, SystemEnv};

fn os(s: &str) -> OsText {
    OsText::Text(s.to_string())
}

#[test]
fn resolve_currently_passes_through() {
    let parsed = Parsed {
        envs: vec![("FOO".to_string(), os("bar"))],
        command: os("cmd"),
        args: vec![os("arg")],
    };
    let resolved = resolve(parsed, &SystemEnv::new(vec![], false));
    assert_eq!(resolved.envs[0].0, "FOO".to_string());
    assert_eq!(resolved.envs[0].1, os("bar"));
    assert_eq!(resolved.command, os("cmd"));
}

#[test]
fn resolve_expands_values_only() {
    let env = SystemEnv::new(vec![("HOME".to_string(), "/home/u".to_string())], false);
    let parsed = Parsed {
        envs: vec![
            ("P".to_string(), os("$HOME/bin")),
            ("Q".to_string(), os("%HOME%")),
        ],
        command: os("$HOME"),
        args: vec![os("${HOME}")],
    };
    let resolved = resolve(parsed, &env);
    assert_eq!(
        resolved.envs,
        vec![
            ("P".to_string(), os("/home/u/bin")),
            ("Q".to_string(), os("/home/u")),
        ]
    );
    assert_eq!(resolved.command, os("$HOME"));
    assert_eq!(resolved.args, vec![os("${HOME}")]);
}
