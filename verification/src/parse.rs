//! CLI parsing: turns raw OS arguments into environment assignments, the
//! command, and its arguments. `KEY=VAL` pairs (with `KEY` shaped like an
//! environment-variable name) come first; `--` ends them; the first other
//! token is the command.

use vstd::prelude::*;

use crate::os_text::{os_views, text_of, OsText, OsTextView};
use crate::text::{
    chars_of, find_char, find_char_from, lemma_find_char_absent, lemma_find_char_at,
    lemma_find_char_bounds,
};

verus! {

/// ASCII letter.
pub open spec fn is_ascii_alpha(c: char) -> bool {
    ('a' <= c && c <= 'z') || ('A' <= c && c <= 'Z')
}

/// ASCII decimal digit.
pub open spec fn is_ascii_digit(c: char) -> bool {
    '0' <= c && c <= '9'
}

/// A character that may start an environment-variable name.
pub open spec fn is_name_start(c: char) -> bool {
    is_ascii_alpha(c) || c == '_'
}

/// A character that may continue an environment-variable name.
pub open spec fn is_name_char(c: char) -> bool {
    is_name_start(c) || is_ascii_digit(c)
}

/// The env-var-name shape `[A-Za-z_][A-Za-z0-9_]*`.
pub open spec fn valid_env_name(s: Seq<char>) -> bool {
    &&& s.len() > 0
    &&& is_name_start(s[0])
    &&& forall|i: int| 1 <= i < s.len() ==> is_name_char(#[trigger] s[i])
}

pub(crate) fn name_start(c: char) -> (r: bool)
    ensures
        r == is_name_start(c),
{
    ('a' <= c && c <= 'z') || ('A' <= c && c <= 'Z') || c == '_'
}

pub(crate) fn name_char(c: char) -> (r: bool)
    ensures
        r == is_name_char(c),
{
    name_start(c) || ('0' <= c && c <= '9')
}

/// Whether `s` has the env-var-name shape `[A-Za-z_][A-Za-z0-9_]*`.
/// Used both to classify `KEY=VAL` and to validate `${NAME}` / `%NAME%`.
pub fn is_valid_env_name(s: &str) -> (r: bool)
    ensures
        r == valid_env_name(s@),
{
    let chars = chars_of(s);
    let n = chars.len();
    if n == 0 || !name_start(chars[0]) {
        return false;
    }
    let mut i: usize = 1;
    while i < n
        invariant
            n == chars@.len(),
            chars@ == s@,
            1 <= i <= n,
            forall|k: int| 1 <= k < i ==> is_name_char(#[trigger] s@[k]),
        decreases n - i,
    {
        if !name_char(chars[i]) {
            return false;
        }
        i = i + 1;
    }
    true
}


/// `KEY=VALUE` split of one token: the key is everything before the first
/// `=` and must be a valid name; the value is everything after it. Raw
/// (non-UTF-8) tokens never split.
pub open spec fn split_kv_spec(t: OsTextView) -> Option<(Seq<char>, OsTextView)> {
    match t {
        OsTextView::Text(s) => match find_char(s, 0, '=') {
            Some(eq) => if valid_env_name(s.subrange(0, eq)) {
                Some((s.subrange(0, eq), OsTextView::Text(s.subrange(eq + 1, s.len() as int))))
            } else {
                None
            },
            None => None,
        },
        OsTextView::Raw(_) => None,
    }
}

/// The `--` terminator.
pub open spec fn is_double_dash(t: OsTextView) -> bool {
    t == OsTextView::Text(seq!['-', '-'])
}

/// Number of leading tokens of `input`, from `k` on, that are `KEY=VALUE`
/// pairs: the index of the first token at or after `k` that is not one.
pub open spec fn kv_prefix_end(input: Seq<OsTextView>, k: int) -> int
    decreases input.len() - k,
{
    if k < 0 || k >= input.len() || split_kv_spec(input[k]) is None {
        k
    } else {
        kv_prefix_end(input, k + 1)
    }
}

/// Model of [`Parsed`].
pub struct ParsedView {
    pub envs: Seq<(Seq<char>, OsTextView)>,
    pub command: OsTextView,
    pub args: Seq<OsTextView>,
}

/// The environment assignments of the leading `KEY=VALUE` tokens.
pub open spec fn leading_envs(input: Seq<OsTextView>) -> Seq<(Seq<char>, OsTextView)> {
    input.subrange(0, kv_prefix_end(input, 0)).map_values(
        |t: OsTextView| split_kv_spec(t)->0,
    )
}

/// What `parse` yields for `input`, or `None` when no command is given:
/// the leading `KEY=VALUE` pairs become the environment; the first other
/// token is the command, unless it is `--`, in which case the token after
/// it is the command (taken literally, even if it looks like `KEY=VALUE`).
pub open spec fn parse_spec(input: Seq<OsTextView>) -> Option<ParsedView> {
    let p = kv_prefix_end(input, 0);
    if p >= input.len() {
        None
    } else if is_double_dash(input[p]) {
        if p + 1 < input.len() {
            Some(
                ParsedView {
                    envs: leading_envs(input),
                    command: input[p + 1],
                    args: input.subrange(p + 2, input.len() as int),
                },
            )
        } else {
            None
        }
    } else {
        Some(
            ParsedView {
                envs: leading_envs(input),
                command: input[p],
                args: input.subrange(p + 1, input.len() as int),
            },
        )
    }
}

/// The view of one environment assignment.
pub open spec fn env_view(e: (String, OsText)) -> (Seq<char>, OsTextView) {
    (e.0@, e.1@)
}

/// Tokens classified into env pairs, the command, and its remaining args.
#[derive(Debug)]
pub struct Parsed {
    pub envs: Vec<(String, OsText)>,
    pub command: OsText,
    pub args: Vec<OsText>,
}

impl View for Parsed {
    type V = ParsedView;

    open spec fn view(&self) -> ParsedView {
        ParsedView {
            envs: self.envs@.map_values(|e: (String, OsText)| env_view(e)),
            command: self.command@,
            args: os_views(self.args@),
        }
    }
}

/// Why parsing failed.
#[derive(Debug, PartialEq, Eq, Structural, Clone, Copy)]
pub enum ParseError {
    /// No command follows the `KEY=VALUE` pairs (or the `--`).
    NoCommand,
}

impl ParseError {
    /// Human-readable description.
    pub fn message(&self) -> (r: &'static str)
        ensures
            r@ == "no command provided"@,
    {
        "no command provided"
    }
}

/// Splits a `KEY=VALUE` token; `None` when it is not one.
fn split_kv(arg: &OsText) -> (r: Option<(String, OsText)>)
    ensures
        match r {
            Some(e) => split_kv_spec(arg@) == Some(env_view(e)),
            None => split_kv_spec(arg@) is None,
        },
{
    match arg {
        OsText::Raw(_) => None,
        OsText::Text(s) => {
            let st = s.as_str();
            let chars = chars_of(st);
            match find_char_from(&chars, 0, '=') {
                None => None,
                Some(eq) => {
                    proof {
                        lemma_find_char_bounds(chars@, 0, '=');
                    }
                    let key = st.substring_char(0, eq);
                    if !is_valid_env_name(key) {
                        return None;
                    }
                    let n = chars.len();
                    let value = st.substring_char(eq + 1, n);
                    Some((key.to_owned(), OsText::Text(value.to_owned())))
                },
            }
        },
    }
}

/// Whether `t` is the `--` terminator.
fn is_terminator(t: &OsText) -> (r: bool)
    ensures
        r == is_double_dash(t@),
{
    match t {
        OsText::Raw(_) => false,
        OsText::Text(s) => {
            let st = s.as_str();
            if st.unicode_len() == 2 && st.get_char(0) == '-' && st.get_char(1) == '-' {
                assert(s@ =~= seq!['-', '-']);
                true
            } else {
                false
            }
        },
    }
}

/// Classifies `input` into env pairs, the command, and its remaining args.
/// Fails exactly when no command is given.
pub fn parse(input: Vec<OsText>) -> (r: Result<Parsed, ParseError>)
    ensures
        match r {
            Ok(p) => parse_spec(os_views(input@)) == Some(p@),
            Err(e) => e == ParseError::NoCommand && parse_spec(os_views(input@)) is None,
        },
{
    let ghost iv = os_views(input@);
    let mut input = input;
    let n = input.len();
    let mut envs: Vec<(String, OsText)> = Vec::new();
    let mut k: usize = 0;
    while k < n
        invariant
            n == input@.len(),
            iv == os_views(input@),
            k <= n,
            kv_prefix_end(iv, 0) == kv_prefix_end(iv, k as int),
            envs@.len() == k,
            forall|m: int|
                0 <= m < k ==> split_kv_spec(iv[m]) == Some(#[trigger] env_view(envs@[m])),
        ensures
            k <= n,
            kv_prefix_end(iv, 0) == kv_prefix_end(iv, k as int),
            envs@.len() == k,
            forall|m: int|
                0 <= m < k ==> split_kv_spec(iv[m]) == Some(#[trigger] env_view(envs@[m])),
            k == n || split_kv_spec(iv[k as int]) is None,
        decreases n - k,
    {
        match split_kv(&input[k]) {
            Some(kv) => {
                envs.push(kv);
                k = k + 1;
            },
            None => {
                break;
            },
        }
    }
    assert(kv_prefix_end(iv, k as int) == k);
    let p = k;
    assert(leading_envs(iv) =~= envs@.map_values(|e: (String, OsText)| env_view(e)));
    if p == n {
        return Err(ParseError::NoCommand);
    }
    let mut tail = input.split_off(p);
    if is_terminator(&tail[0]) {
        let mut rest = tail.split_off(1);
        if rest.len() == 0 {
            return Err(ParseError::NoCommand);
        }
        let args = rest.split_off(1);
        let command = rest.remove(0);
        let parsed = Parsed { envs, command, args };
        assert(parsed@.args =~= iv.subrange(p + 2, n as int));
        Ok(parsed)
    } else {
        let args = tail.split_off(1);
        let command = tail.remove(0);
        let parsed = Parsed { envs, command, args };
        assert(parsed@.args =~= iv.subrange(p + 1, n as int));
        Ok(parsed)
    }
}

/// The `KEY=VALUE` token of an assignment.
pub open spec fn env_token(e: (Seq<char>, OsTextView)) -> OsTextView {
    OsTextView::Text(e.0 + seq!['='] + text_of(e.1))
}

/// The `KEY=VALUE` tokens of a list of assignments, in order.
pub open spec fn env_tokens(envs: Seq<(Seq<char>, OsTextView)>) -> Seq<OsTextView> {
    envs.map_values(|e: (Seq<char>, OsTextView)| env_token(e))
}

/// A `KEY=VALUE` token with a valid key splits back into its key and value.
pub proof fn lemma_split_env_token(key: Seq<char>, value: Seq<char>)
    requires
        valid_env_name(key),
    ensures
        split_kv_spec(env_token((key, OsTextView::Text(value)))) == Some(
            (key, OsTextView::Text(value)),
        ),
{
    let s = key + seq!['='] + value;
    assert forall|k: int| 0 <= k < key.len() implies s[k] != '=' by {
        assert(s[k] == key[k]);
        if k > 0 {
            assert(is_name_char(key[k]));
        }
    }
    lemma_find_char_at(s, 0, key.len() as int, '=');
    assert(s.subrange(0, key.len() as int) =~= key);
    assert(s.subrange(key.len() as int + 1, s.len() as int) =~= value);
}

/// A token that splits is exactly the `KEY=VALUE` token of its split, with
/// a valid key and a text value.
pub proof fn lemma_split_inverse(t: OsTextView)
    ensures
        split_kv_spec(t) matches Some(e) ==> valid_env_name(e.0) && e.1 is Text && t
            == env_token(e),
{
    if let OsTextView::Text(s) = t {
        lemma_find_char_bounds(s, 0, '=');
        if let Some(eq) = find_char(s, 0, '=') {
            assert(s =~= s.subrange(0, eq) + seq!['='] + s.subrange(eq + 1, s.len() as int));
        }
    }
}

/// `--` is not a `KEY=VALUE` token.
pub proof fn lemma_double_dash_not_kv()
    ensures
        split_kv_spec(OsTextView::Text(seq!['-', '-'])) is None,
{
    lemma_find_char_absent(seq!['-', '-'], 0, '=');
}

/// Every token before `kv_prefix_end(input, k)`, from `k` on, splits.
pub proof fn lemma_kv_prefix_end(input: Seq<OsTextView>, k: int)
    requires
        0 <= k <= input.len(),
    ensures
        k <= kv_prefix_end(input, k) <= input.len(),
        forall|m: int| k <= m < kv_prefix_end(input, k) ==> #[trigger] split_kv_spec(input[m]) is Some,
        kv_prefix_end(input, k) < input.len() ==> split_kv_spec(input[kv_prefix_end(input, k)]) is None,
    decreases input.len() - k,
{
    if k < input.len() && split_kv_spec(input[k]) is Some {
        lemma_kv_prefix_end(input, k + 1);
    }
}

/// Over `KEY=VALUE` tokens followed by a token that is not one, the
/// `KEY=VALUE` prefix ends at that token.
pub proof fn lemma_kv_prefix_of_tokens(
    envs: Seq<(Seq<char>, OsTextView)>,
    rest: Seq<OsTextView>,
    k: int,
)
    requires
        forall|i: int|
            0 <= i < envs.len() ==> valid_env_name(#[trigger] envs[i].0) && envs[i].1 is Text,
        rest.len() > 0,
        split_kv_spec(rest[0]) is None,
        0 <= k <= envs.len(),
    ensures
        kv_prefix_end(env_tokens(envs) + rest, k) == envs.len(),
    decreases envs.len() - k,
{
    let input = env_tokens(envs) + rest;
    if k < envs.len() {
        assert(input[k] == env_token(envs[k]));
        lemma_split_env_token(envs[k].0, text_of(envs[k].1));
        assert(OsTextView::Text(text_of(envs[k].1)) == envs[k].1);
        lemma_kv_prefix_of_tokens(envs, rest, k + 1);
    } else {
        assert(input[k] == rest[0]);
    }
}

/// The leading assignments of `KEY=VALUE` tokens followed by a token that
/// is not one are those assignments.
proof fn lemma_leading_envs_of_tokens(envs: Seq<(Seq<char>, OsTextView)>, rest: Seq<OsTextView>)
    requires
        forall|i: int|
            0 <= i < envs.len() ==> valid_env_name(#[trigger] envs[i].0) && envs[i].1 is Text,
        rest.len() > 0,
        split_kv_spec(rest[0]) is None,
    ensures
        kv_prefix_end(env_tokens(envs) + rest, 0) == envs.len(),
        leading_envs(env_tokens(envs) + rest) == envs,
{
    let input = env_tokens(envs) + rest;
    lemma_kv_prefix_of_tokens(envs, rest, 0);
    assert forall|i: int| 0 <= i < envs.len() implies #[trigger] split_kv_spec(input[i])->0
        == envs[i] by {
        assert(input[i] == env_token(envs[i]));
        lemma_split_env_token(envs[i].0, text_of(envs[i].1));
        assert(OsTextView::Text(text_of(envs[i].1)) == envs[i].1);
    }
    assert(leading_envs(input) =~= envs);
}

/// Law: `KEY=VALUE` pairs with valid keys, followed by a command that is
/// neither a `KEY=VALUE` token nor `--`, parse back into exactly those
/// assignments, that command and the remaining arguments, whatever the
/// arguments look like.
pub proof fn law_parse_pairs_then_command(
    envs: Seq<(Seq<char>, OsTextView)>,
    command: OsTextView,
    args: Seq<OsTextView>,
)
    requires
        forall|i: int|
            0 <= i < envs.len() ==> valid_env_name(#[trigger] envs[i].0) && envs[i].1 is Text,
        split_kv_spec(command) is None,
        !is_double_dash(command),
    ensures
        parse_spec(env_tokens(envs) + seq![command] + args) == Some(
            ParsedView { envs, command, args },
        ),
{
    let rest = seq![command] + args;
    let input = env_tokens(envs) + rest;
    assert(env_tokens(envs) + seq![command] + args =~= input);
    lemma_leading_envs_of_tokens(envs, rest);
    assert(input[envs.len() as int] == command);
    assert(input.subrange(envs.len() as int + 1, input.len() as int) =~= args);
}

/// Law: after `KEY=VALUE` pairs, `--` ends the assignments and the token
/// after it is the command, even if it looks like `KEY=VALUE` or is `--`.
pub proof fn law_parse_double_dash(
    envs: Seq<(Seq<char>, OsTextView)>,
    command: OsTextView,
    args: Seq<OsTextView>,
)
    requires
        forall|i: int|
            0 <= i < envs.len() ==> valid_env_name(#[trigger] envs[i].0) && envs[i].1 is Text,
    ensures
        parse_spec(env_tokens(envs) + seq![OsTextView::Text(seq!['-', '-']), command] + args)
            == Some(ParsedView { envs, command, args }),
{
    let dd = OsTextView::Text(seq!['-', '-']);
    let rest = seq![dd, command] + args;
    let input = env_tokens(envs) + rest;
    assert(env_tokens(envs) + seq![dd, command] + args =~= input);
    lemma_double_dash_not_kv();
    lemma_leading_envs_of_tokens(envs, rest);
    assert(input[envs.len() as int] == dd);
    assert(input[envs.len() as int + 1] == command);
    assert(input.subrange(envs.len() as int + 2, input.len() as int) =~= args);
}

/// Law: parsing loses and reorders nothing. When it succeeds, every key is
/// a valid name, every value is text, and the input is the assignments'
/// `KEY=VALUE` tokens, then (possibly) `--`, then the command, then the
/// arguments.
pub proof fn law_parse_keeps_every_token(input: Seq<OsTextView>)
    ensures
        parse_spec(input) matches Some(p) ==> {
            &&& forall|i: int|
                0 <= i < p.envs.len() ==> valid_env_name(#[trigger] p.envs[i].0) && p.envs[i].1 is Text
            &&& input == env_tokens(p.envs) + seq![p.command] + p.args || input == env_tokens(p.envs)
                + seq![OsTextView::Text(seq!['-', '-']), p.command] + p.args
        },
{
    if let Some(p) = parse_spec(input) {
        let k = kv_prefix_end(input, 0);
        lemma_kv_prefix_end(input, 0);
        assert forall|i: int| 0 <= i < k implies valid_env_name(#[trigger] p.envs[i].0)
            && p.envs[i].1 is Text && env_token(p.envs[i]) == input[i] by {
            assert(split_kv_spec(input[i]) is Some);
            lemma_split_inverse(input[i]);
        }
        assert(env_tokens(p.envs) =~= input.subrange(0, k));
        if is_double_dash(input[k]) {
            assert(input =~= env_tokens(p.envs) + seq![OsTextView::Text(seq!['-', '-']), p.command]
                + p.args);
        } else {
            assert(input =~= env_tokens(p.envs) + seq![p.command] + p.args);
        }
    }
}

} // verus!
