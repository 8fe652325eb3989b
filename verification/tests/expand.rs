use cross_env_rs::{expand, expand_str, EnvSource, OsText, SystemEnv};

fn env_of(pairs: &[(&str, &str)]) -> SystemEnv {
    SystemEnv::new(
        pairs
            .iter()
            .map(|(k, v)| (k.to_string(), v.to_string()))
            .collect(),
        false,
    )
}

fn os(s: &str) -> OsText {
    OsText::Text(s.to_string())
}

#[test]
fn no_dollar_passes_through() {
    let env = env_of(&[("HOME", "/home/u")]);
    assert_eq!(expand(&os("plain text"), &env), os("plain text"));
    assert_eq!(expand(&os(""), &env), os(""));
}

#[test]
fn expands_unbraced_dollar_var() {
    let env = env_of(&[("HOME", "/home/u")]);
    assert_eq!(expand(&os("$HOME/bin"), &env), os("/home/u/bin"));
}

#[test]
fn expands_braced_dollar_var() {
    let env = env_of(&[("HOME", "/home/u")]);
    assert_eq!(expand(&os("${HOME}bar"), &env), os("/home/ubar"));
}

#[test]
fn unset_var_expands_to_empty() {
    let env = env_of(&[]);
    assert_eq!(expand(&os("a${MISSING}b"), &env), os("ab"));
    assert_eq!(expand(&os("a$MISSING/b"), &env), os("a/b"));
}

#[test]
fn lone_dollar_kept_literal() {
    let env = env_of(&[]);
    assert_eq!(expand(&os("price: $"), &env), os("price: $"));
    assert_eq!(expand(&os("$ "), &env), os("$ "));
    assert_eq!(expand(&os("$1abc"), &env), os("$1abc"));
}

#[test]
fn unterminated_brace_kept_literal() {
    let env = env_of(&[("X", "ok")]);
    assert_eq!(expand(&os("${X"), &env), os("${X"));
}

#[test]
fn invalid_braced_name_kept_literal() {
    let env = env_of(&[]);
    assert_eq!(expand(&os("${1bad}"), &env), os("${1bad}"));
    assert_eq!(expand(&os("${}"), &env), os("${}"));
}

#[test]
fn no_recursive_expansion() {
    // X is "$Y", Y is "deep": a single pass turns $X into "$Y" literally.
    let env = env_of(&[("X", "$Y"), ("Y", "deep")]);
    assert_eq!(expand(&os("$X"), &env), os("$Y"));
}

#[test]
fn multiple_substitutions_in_one_value() {
    let env = env_of(&[("A", "1"), ("B", "2")]);
    assert_eq!(expand(&os("$A-${B}-$A"), &env), os("1-2-1"));
}

#[test]
fn expands_percent_var_percent() {
    let env = env_of(&[("CD", "C:\\proj")]);
    assert_eq!(expand(&os("%CD%/src"), &env), os("C:\\proj/src"));
}

#[test]
fn unset_percent_var_expands_to_empty() {
    let env = env_of(&[]);
    assert_eq!(expand(&os("a%MISSING%b"), &env), os("ab"));
}

#[test]
fn lone_percent_kept_literal() {
    let env = env_of(&[]);
    assert_eq!(expand(&os("100% done"), &env), os("100% done"));
}

#[test]
fn invalid_percent_name_kept_literal() {
    let env = env_of(&[]);
    assert_eq!(expand(&os("%1bad%"), &env), os("%1bad%"));
    assert_eq!(expand(&os("%%"), &env), os("%%"));
}

#[test]
fn dollar_and_percent_intermix() {
    let env = env_of(&[("A", "x"), ("B", "y")]);
    assert_eq!(expand(&os("$A-%B%"), &env), os("x-y"));
}

#[test]
fn raw_bytes_are_not_expanded() {
    let env = env_of(&[("A", "x")]);
    let raw = OsText::Raw(vec![b'$', b'A', 0xff]);
    assert_eq!(expand(&raw, &env), OsText::Raw(vec![b'$', b'A', 0xff]));
}

#[test]
fn unicode_text_around_references() {
    let env = env_of(&[("NAME", "wörld")]);
    assert_eq!(expand_str("héllo $NAME ✓", &env), "héllo wörld ✓");
    assert_eq!(expand_str("$NAMEé", &env), "wörldé");
}

#[test]
fn name_run_stops_at_non_name_char() {
    let env = env_of(&[("A", "1"), ("AB", "2")]);
    assert_eq!(expand_str("$AB.$A.${A}B", &env), "2.1.1B");
}

#[test]
fn first_pair_of_a_name_counts() {
    let env = env_of(&[("A", "first"), ("A", "second")]);
    assert_eq!(env.get("A"), Some("first".to_string()));
    assert_eq!(env.get("B"), None);
    assert_eq!(expand_str("$A", &env), "first");
}

#[test]
fn law_plain_text_is_unchanged() {
    let env = env_of(&[("A", "1")]);
    assert_eq!(expand_str("A {A} A}", &env), "A {A} A}");
}

#[test]
fn law_single_reference_is_value_verbatim() {
    let env = env_of(&[("V", "$W%W%${W}"), ("W", "deep")]);
    assert_eq!(expand_str("${V}", &env), "$W%W%${W}");
    assert_eq!(expand_str("$V", &env), "$W%W%${W}");
    assert_eq!(expand_str("%V%", &env), "$W%W%${W}");
    assert_eq!(expand_str("${UNSET}", &env), "");
}

#[test]
fn names_can_ignore_ascii_case() {
    let vars = vec![("Path".to_string(), "x".to_string())];
    let insensitive = SystemEnv::new(vars, true);
    assert_eq!(insensitive.get("PATH"), Some("x".to_string()));
    assert_eq!(expand_str("%PATH%;$path", &insensitive), "x;x");
    assert_eq!(insensitive.get("PATHS"), None);
    let exact = SystemEnv::new(vec![("Path".to_string(), "x".to_string())], false);
    assert_eq!(exact.get("PATH"), None);
    assert_eq!(expand_str("%PATH%", &exact), "");
}
