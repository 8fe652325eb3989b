//! Variable substitution: `$VAR`, `${VAR}` and `%VAR%` in environment
//! values, from a supplied [`EnvSource`]. Unset variables expand to the
//! empty string; substituted text is not expanded again (single pass);
//! raw (non-UTF-8) values are returned unchanged.

use vstd::prelude::*;

use crate::os_text::{OsText, OsTextView};
use crate::parse::{is_name_char, is_name_start, is_valid_env_name, name_char, name_start, valid_env_name};
use crate::text::{
    chars_of, find_char, find_char_from, lemma_find_char_at, lemma_find_char_bounds,
    lemma_find_char_first, lemma_find_char_shift,
};

verus! {

/// Source of pre-existing environment variables consulted during expansion.
pub trait EnvSource {
    /// The value of the variable named `key`, if it is set.
    spec fn lookup(&self, key: Seq<char>) -> Option<Seq<char>>;

    /// Looks up the variable named `key`.
    fn get(&self, key: &str) -> (r: Option<String>)
        ensures
            match r {
                Some(v) => self.lookup(key@) == Some(v@),
                None => self.lookup(key@) is None,
            },
    ;
}

/// A snapshot of the process environment, as `(name, value)` pairs.
/// When a name occurs more than once, its first pair counts. Names are
/// compared exactly, or, where the platform's environment ignores the case
/// of names (Windows), with ASCII letters compared without regard to case.
pub struct SystemEnv {
    pub vars: Vec<(String, String)>,
    pub ignore_ascii_case: bool,
}

/// Two characters are equal once ASCII upper-case letters are lowered.
pub open spec fn chars_eq_ignore_ascii_case(a: char, b: char) -> bool {
    ||| a == b
    ||| ('A' <= a && a <= 'Z' && a as int + 32 == b as int)
    ||| ('A' <= b && b <= 'Z' && b as int + 32 == a as int)
}

/// Whether the stored name `stored` names the variable `key`.
pub open spec fn names_match(stored: Seq<char>, key: Seq<char>, ignore_ascii_case: bool) -> bool {
    if ignore_ascii_case {
        &&& stored.len() == key.len()
        &&& forall|i: int| 0 <= i < key.len() ==> chars_eq_ignore_ascii_case(#[trigger] stored[i], key[i])
    } else {
        stored == key
    }
}

/// The value of the first pair in `vars`, from index `k` on, whose name
/// matches `key`.
pub open spec fn lookup_in(
    vars: Seq<(String, String)>,
    key: Seq<char>,
    ignore_ascii_case: bool,
    k: int,
) -> Option<Seq<char>>
    decreases vars.len() - k,
{
    if k < 0 || k >= vars.len() {
        None
    } else if names_match(vars[k].0@, key, ignore_ascii_case) {
        Some(vars[k].1@)
    } else {
        lookup_in(vars, key, ignore_ascii_case, k + 1)
    }
}

fn char_eq_ignore_ascii_case(a: char, b: char) -> (r: bool)
    ensures
        r == chars_eq_ignore_ascii_case(a, b),
{
    let x = a as u32;
    let y = b as u32;
    a == b || ('A' <= a && a <= 'Z' && x + 32 == y) || ('A' <= b && b <= 'Z' && y + 32 == x)
}

/// Whether `stored` names `key` with ASCII case ignored.
fn str_eq_ignore_ascii_case(stored: &str, key: &str) -> (r: bool)
    ensures
        r == names_match(stored@, key@, true),
{
    let a = chars_of(stored);
    let b = chars_of(key);
    if a.len() != b.len() {
        return false;
    }
    let n = a.len();
    let mut i: usize = 0;
    while i < n
        invariant
            n == a@.len(),
            n == b@.len(),
            a@ == stored@,
            b@ == key@,
            i <= n,
            forall|m: int| 0 <= m < i ==> chars_eq_ignore_ascii_case(#[trigger] stored@[m], key@[m]),
        decreases n - i,
    {
        if !char_eq_ignore_ascii_case(a[i], b[i]) {
            return false;
        }
        i = i + 1;
    }
    true
}

impl SystemEnv {
    /// An environment holding exactly the given pairs, with names compared
    /// ignoring ASCII case when `ignore_ascii_case` is set.
    pub fn new(vars: Vec<(String, String)>, ignore_ascii_case: bool) -> (r: SystemEnv)
        ensures
            r.vars@ == vars@,
            r.ignore_ascii_case == ignore_ascii_case,
    {
        SystemEnv { vars, ignore_ascii_case }
    }
}

impl EnvSource for SystemEnv {
    open spec fn lookup(&self, key: Seq<char>) -> Option<Seq<char>> {
        lookup_in(self.vars@, key, self.ignore_ascii_case, 0)
    }

    fn get(&self, key: &str) -> (r: Option<String>) {
        let target = key.to_owned();
        let n = self.vars.len();
        let mut k: usize = 0;
        while k < n
            invariant
                n == self.vars@.len(),
                target@ == key@,
                k <= n,
                lookup_in(self.vars@, key@, self.ignore_ascii_case, 0) == lookup_in(
                    self.vars@,
                    key@,
                    self.ignore_ascii_case,
                    k as int,
                ),
            decreases n - k,
        {
            let matched = if self.ignore_ascii_case {
                str_eq_ignore_ascii_case(self.vars[k].0.as_str(), key)
            } else {
                self.vars[k].0 == target
            };
            if matched {
                return Some(self.vars[k].1.clone());
            }
            k = k + 1;
        }
        None
    }
}

/// The value substituted for `name`: its value, or empty when unset.
pub open spec fn value_or_empty<E: EnvSource>(env: &E, name: Seq<char>) -> Seq<char> {
    match env.lookup(name) {
        Some(v) => v,
        None => Seq::empty(),
    }
}

/// End of the run of name characters in `s` starting at `from`.
pub open spec fn name_run_end(s: Seq<char>, from: int) -> int
    decreases s.len() - from,
{
    if from < 0 || from >= s.len() || !is_name_char(s[from]) {
        from
    } else {
        name_run_end(s, from + 1)
    }
}

pub proof fn lemma_name_run_end(s: Seq<char>, from: int)
    requires
        0 <= from <= s.len(),
    ensures
        from <= name_run_end(s, from) <= s.len(),
        forall|k: int| from <= k < name_run_end(s, from) ==> is_name_char(#[trigger] s[k]),
        name_run_end(s, from) < s.len() ==> !is_name_char(s[name_run_end(s, from)]),
    decreases s.len() - from,
{
    if from < s.len() && is_name_char(s[from]) {
        lemma_name_run_end(s, from + 1);
    }
}

/// The variable reference that starts at index `i` of `s`, if any: the
/// variable's name and the index just past the reference.
/// - `${NAME}`: up to the first `}`; `NAME` must be a valid name.
/// - `$NAME`: the longest run of name characters after `$`, which must
///   start with a letter or `_`.
/// - `%NAME%`: up to the next `%`; `NAME` must be a valid name.
pub open spec fn var_ref(s: Seq<char>, i: int) -> Option<(Seq<char>, int)> {
    if !(0 <= i && i + 1 < s.len()) {
        None
    } else if s[i] == '$' && s[i + 1] == '{' {
        match find_char(s, i + 2, '}') {
            Some(j) => if valid_env_name(s.subrange(i + 2, j)) {
                Some((s.subrange(i + 2, j), j + 1))
            } else {
                None
            },
            None => None,
        }
    } else if s[i] == '$' && is_name_start(s[i + 1]) {
        Some((s.subrange(i + 1, name_run_end(s, i + 1)), name_run_end(s, i + 1)))
    } else if s[i] == '%' {
        match find_char(s, i + 1, '%') {
            Some(j) => if valid_env_name(s.subrange(i + 1, j)) {
                Some((s.subrange(i + 1, j), j + 1))
            } else {
                None
            },
            None => None,
        }
    } else {
        None
    }
}

pub proof fn lemma_var_ref_bounds(s: Seq<char>, i: int)
    ensures
        var_ref(s, i) matches Some((name, next)) ==> i < next <= s.len() && valid_env_name(name),
{
    if 0 <= i && i + 1 < s.len() {
        lemma_find_char_bounds(s, i + 2, '}');
        lemma_find_char_bounds(s, i + 1, '%');
        lemma_name_run_end(s, i + 1);
        if s[i] == '$' && s[i + 1] != '{' && is_name_start(s[i + 1]) {
            let name = s.subrange(i + 1, name_run_end(s, i + 1));
            assert forall|k: int| 1 <= k < name.len() implies is_name_char(#[trigger] name[k]) by {
                assert(name[k] == s[i + 1 + k]);
            }
        }
    }
}

/// Single-pass expansion of `s` from index `i` on.
pub open spec fn expand_from<E: EnvSource>(s: Seq<char>, i: int, env: &E) -> Seq<char>
    decreases s.len() - i,
{
    if i < 0 || i >= s.len() {
        Seq::empty()
    } else {
        match var_ref(s, i) {
            Some((name, next)) => {
                proof {
                    lemma_var_ref_bounds(s, i);
                }
                value_or_empty(env, name) + expand_from(s, next, env)
            },
            None => seq![s[i]] + expand_from(s, i + 1, env),
        }
    }
}

/// Expansion of a whole text.
pub open spec fn expand_text<E: EnvSource>(s: Seq<char>, env: &E) -> Seq<char> {
    expand_from(s, 0, env)
}

/// Expansion of an OS string: text is expanded, raw bytes stay as they are.
pub open spec fn expand_os<E: EnvSource>(t: OsTextView, env: &E) -> OsTextView {
    match t {
        OsTextView::Text(s) => OsTextView::Text(expand_text(s, env)),
        OsTextView::Raw(b) => OsTextView::Raw(b),
    }
}

/// Exec end of the name-character run in `chars` starting at `from`.
fn name_run_end_at(chars: &Vec<char>, from: usize) -> (r: usize)
    requires
        from <= chars@.len(),
    ensures
        r as int == name_run_end(chars@, from as int),
{
    let n = chars.len();
    let mut k = from;
    while k < n && name_char(chars[k])
        invariant
            n == chars@.len(),
            from <= k <= n,
            name_run_end(chars@, from as int) == name_run_end(chars@, k as int),
        decreases n - k,
    {
        k = k + 1;
    }
    k
}

/// The variable reference starting at index `i`, as (name start, name end,
/// index past the reference).
fn var_ref_at(chars: &Vec<char>, i: usize) -> (r: Option<(usize, usize, usize)>)
    requires
        i < chars@.len(),
    ensures
        match r {
            Some((a, b, next)) => a <= b <= chars@.len() && var_ref(chars@, i as int) == Some(
                (chars@.subrange(a as int, b as int), next as int),
            ),
            None => var_ref(chars@, i as int) is None,
        },
{
    let n = chars.len();
    if i + 1 >= n {
        return None;
    }
    let c = chars[i];
    let next = chars[i + 1];
    if c == '$' && next == '{' {
        match find_char_from(chars, i + 2, '}') {
            Some(j) => {
                proof {
                    lemma_find_char_bounds(chars@, i + 2, '}');
                }
                if names_valid_at(chars, i + 2, j) {
                    Some((i + 2, j, j + 1))
                } else {
                    None
                }
            },
            None => None,
        }
    } else if c == '$' && name_start(next) {
        let end = name_run_end_at(chars, i + 1);
        proof {
            lemma_name_run_end(chars@, i + 1);
        }
        Some((i + 1, end, end))
    } else if c == '%' {
        match find_char_from(chars, i + 1, '%') {
            Some(j) => {
                proof {
                    lemma_find_char_bounds(chars@, i + 1, '%');
                }
                if names_valid_at(chars, i + 1, j) {
                    Some((i + 1, j, j + 1))
                } else {
                    None
                }
            },
            None => None,
        }
    } else {
        None
    }
}

/// Whether `chars[a..b]` is a valid name.
fn names_valid_at(chars: &Vec<char>, a: usize, b: usize) -> (r: bool)
    requires
        a <= b <= chars@.len(),
    ensures
        r == valid_env_name(chars@.subrange(a as int, b as int)),
{
    if a == b || !name_start(chars[a]) {
        return false;
    }
    let mut k = a + 1;
    while k < b
        invariant
            a < k <= b <= chars@.len(),
            forall|m: int| a + 1 <= m < k ==> is_name_char(#[trigger] chars@[m]),
        decreases b - k,
    {
        if !name_char(chars[k]) {
            assert(chars@.subrange(a as int, b as int)[k - a] == chars@[k as int]);
            return false;
        }
        k = k + 1;
    }
    let ghost name = chars@.subrange(a as int, b as int);
    assert forall|m: int| 1 <= m < name.len() implies is_name_char(#[trigger] name[m]) by {
        assert(name[m] == chars@[a + m]);
    }
    true
}

/// Single-pass `$VAR` / `${VAR}` / `%VAR%` substitution in a text.
pub fn expand_str<E: EnvSource>(s: &str, env: &E) -> (r: String)
    ensures
        r@ == expand_text(s@, env),
{
    let chars = chars_of(s);
    let n = chars.len();
    let mut out = String::new();
    let mut i: usize = 0;
    while i < n
        invariant
            n == chars@.len(),
            chars@ == s@,
            i <= n,
            expand_text(s@, env) == out@ + expand_from(s@, i as int, env),
        decreases n - i,
    {
        let ghost before = out@;
        match var_ref_at(&chars, i) {
            Some((a, b, next)) => {
                proof {
                    lemma_var_ref_bounds(s@, i as int);
                }
                let name = s.substring_char(a, b);
                match env.get(name) {
                    Some(v) => out.append(v.as_str()),
                    None => {},
                }
                assert(out@ + expand_from(s@, next as int, env) =~= before + expand_from(
                    s@,
                    i as int,
                    env,
                ));
                i = next;
            },
            None => {
                let one = s.substring_char(i, i + 1);
                assert(one@ =~= seq![s@[i as int]]);
                out.append(one);
                assert(out@ + expand_from(s@, i + 1, env) =~= before + expand_from(
                    s@,
                    i as int,
                    env,
                ));
                i = i + 1;
            },
        }
    }
    out
}

/// Expands an OS string: text is expanded, raw bytes are returned unchanged.
pub fn expand<E: EnvSource>(value: &OsText, env: &E) -> (r: OsText)
    ensures
        r@ == expand_os(value@, env),
{
    match value {
        OsText::Text(s) => OsText::Text(expand_str(s.as_str(), env)),
        OsText::Raw(b) => OsText::Raw(b.clone()),
    }
}

/// Law: text without `$` and `%` expands to itself.
pub proof fn law_expand_plain_text<E: EnvSource>(s: Seq<char>, env: &E)
    requires
        forall|i: int| 0 <= i < s.len() ==> #[trigger] s[i] != '$' && s[i] != '%',
    ensures
        expand_text(s, env) == s,
{
    lemma_expand_plain_from(s, 0, env);
    assert(s.subrange(0, s.len() as int) =~= s);
}

proof fn lemma_expand_plain_from<E: EnvSource>(s: Seq<char>, i: int, env: &E)
    requires
        0 <= i <= s.len(),
        forall|k: int| 0 <= k < s.len() ==> #[trigger] s[k] != '$' && s[k] != '%',
    ensures
        expand_from(s, i, env) == s.subrange(i, s.len() as int),
    decreases s.len() - i,
{
    if i < s.len() {
        assert(s[i] != '$' && s[i] != '%');
        assert(var_ref(s, i) is None);
        lemma_expand_plain_from(s, i + 1, env);
        assert(seq![s[i]] + s.subrange(i + 1, s.len() as int) =~= s.subrange(i, s.len() as int));
    }
}

/// The run of name characters that reaches the end of `s` ends there.
proof fn lemma_name_run_to_end(s: Seq<char>, from: int)
    requires
        0 <= from <= s.len(),
        forall|k: int| from <= k < s.len() ==> is_name_char(#[trigger] s[k]),
    ensures
        name_run_end(s, from) == s.len(),
    decreases s.len() - from,
{
    if from < s.len() {
        lemma_name_run_to_end(s, from + 1);
    }
}

/// Law: a reference to a variable, in any of the three forms, expands to
/// the variable's value exactly as it is (the value is not expanded again),
/// or to nothing when the variable is unset.
pub proof fn law_expand_single_reference<E: EnvSource>(name: Seq<char>, env: &E)
    requires
        valid_env_name(name),
    ensures
        expand_text(seq!['$', '{'] + name + seq!['}'], env) == value_or_empty(env, name),
        expand_text(seq!['$'] + name, env) == value_or_empty(env, name),
        expand_text(seq!['%'] + name + seq!['%'], env) == value_or_empty(env, name),
{
    let n = name.len() as int;
    assert forall|k: int| 0 <= k < n implies is_name_char(#[trigger] name[k]) by {
        if k == 0 {
            assert(is_name_start(name[0]));
        }
    }
    let braced = seq!['$', '{'] + name + seq!['}'];
    assert forall|k: int| 2 <= k < n + 2 implies #[trigger] braced[k] != '}' by {
        assert(braced[k] == name[k - 2]);
        assert(is_name_char(name[k - 2]));
    }
    lemma_find_char_at(braced, 2, n + 2, '}');
    assert(braced.subrange(2, n + 2) =~= name);
    assert(var_ref(braced, 0) == Some((name, n + 3)));
    assert(braced.len() == n + 3);
    assert(expand_from(braced, n + 3, env) == Seq::<char>::empty());
    assert(expand_from(braced, 0, env) == value_or_empty(env, name) + expand_from(braced, n + 3, env));
    assert(value_or_empty(env, name) + Seq::<char>::empty() =~= value_or_empty(env, name));
    let bare = seq!['$'] + name;
    assert forall|k: int| 1 <= k < bare.len() implies is_name_char(#[trigger] bare[k]) by {
        assert(bare[k] == name[k - 1]);
        assert(is_name_char(name[k - 1]));
    }
    lemma_name_run_to_end(bare, 1);
    assert(bare.subrange(1, n + 1) =~= name);
    assert(bare[1] == name[0]);
    assert(var_ref(bare, 0) == Some((name, n + 1)));
    assert(bare.len() == n + 1);
    assert(expand_from(bare, n + 1, env) == Seq::<char>::empty());
    assert(expand_from(bare, 0, env) == value_or_empty(env, name) + expand_from(bare, n + 1, env));
    let percent = seq!['%'] + name + seq!['%'];
    assert forall|k: int| 1 <= k < n + 1 implies #[trigger] percent[k] != '%' by {
        assert(percent[k] == name[k - 1]);
        assert(is_name_char(name[k - 1]));
    }
    lemma_find_char_at(percent, 1, n + 1, '%');
    assert(percent.subrange(1, n + 1) =~= name);
    assert(var_ref(percent, 0) == Some((name, n + 2)));
    assert(percent.len() == n + 2);
    assert(expand_from(percent, n + 2, env) == Seq::<char>::empty());
    assert(expand_from(percent, 0, env) == value_or_empty(env, name) + expand_from(
        percent,
        n + 2,
        env,
    ));
}

/// A run of name characters from `from` that stops at `to` (the end, or a
/// character that is not a name character) ends at `to`.
proof fn lemma_name_run_stops(s: Seq<char>, from: int, to: int)
    requires
        0 <= from <= to <= s.len(),
        forall|k: int| from <= k < to ==> is_name_char(#[trigger] s[k]),
        to == s.len() || !is_name_char(s[to]),
    ensures
        name_run_end(s, from) == to,
    decreases to - from,
{
    if from < to {
        lemma_name_run_stops(s, from + 1, to);
    }
}

proof fn lemma_name_run_end_shift(p: Seq<char>, t: Seq<char>, i: int)
    requires
        0 <= i <= t.len(),
    ensures
        name_run_end(p + t, p.len() + i) == p.len() + name_run_end(t, i),
    decreases t.len() - i,
{
    let s = p + t;
    if i < t.len() {
        assert(s[p.len() + i] == t[i]);
        if is_name_char(t[i]) {
            lemma_name_run_end_shift(p, t, i + 1);
        }
    }
}

/// A reference inside `t` is read the same when `t` follows other text.
proof fn lemma_var_ref_shift(p: Seq<char>, t: Seq<char>, i: int)
    requires
        0 <= i <= t.len(),
    ensures
        var_ref(p + t, p.len() + i) == match var_ref(t, i) {
            Some((name, next)) => Some((name, p.len() + next)),
            None => None::<(Seq<char>, int)>,
        },
{
    let s = p + t;
    let q = p.len() as int;
    if i + 1 < t.len() {
        assert(s[q + i] == t[i]);
        assert(s[q + i + 1] == t[i + 1]);
        lemma_find_char_shift(p, t, i + 2, '}');
        lemma_find_char_shift(p, t, i + 1, '%');
        lemma_find_char_bounds(t, i + 2, '}');
        lemma_find_char_bounds(t, i + 1, '%');
        lemma_name_run_end_shift(p, t, i + 1);
        lemma_name_run_end(t, i + 1);
        if let Some(j) = find_char(t, i + 2, '}') {
            assert(s.subrange(q + i + 2, q + j) =~= t.subrange(i + 2, j));
        }
        if let Some(j) = find_char(t, i + 1, '%') {
            assert(s.subrange(q + i + 1, q + j) =~= t.subrange(i + 1, j));
        }
        let e = name_run_end(t, i + 1);
        assert(s.subrange(q + i + 1, q + e) =~= t.subrange(i + 1, e));
    }
}

/// Expanding `p + t` from a position inside `t` gives what expanding `t`
/// from that position gives: expansion never looks back.
proof fn lemma_expand_shift<E: EnvSource>(p: Seq<char>, t: Seq<char>, i: int, env: &E)
    requires
        0 <= i <= t.len(),
    ensures
        expand_from(p + t, p.len() + i, env) == expand_from(t, i, env),
    decreases t.len() - i,
{
    let s = p + t;
    if i < t.len() {
        lemma_var_ref_shift(p, t, i);
        lemma_var_ref_bounds(t, i);
        assert(s[p.len() + i] == t[i]);
        match var_ref(t, i) {
            Some((name, next)) => {
                lemma_expand_shift(p, t, next, env);
            },
            None => {
                lemma_expand_shift(p, t, i + 1, env);
            },
        }
    }
}

/// Expanding from `i` inside a prefix `t0` free of `$` and `%` copies the
/// rest of `t0`, then expands what follows.
proof fn lemma_expand_plain_prefix<E: EnvSource>(t0: Seq<char>, u: Seq<char>, i: int, env: &E)
    requires
        0 <= i <= t0.len(),
        forall|k: int| 0 <= k < t0.len() ==> #[trigger] t0[k] != '$' && t0[k] != '%',
    ensures
        expand_from(t0 + u, i, env) == t0.subrange(i, t0.len() as int) + expand_from(
            t0 + u,
            t0.len() as int,
            env,
        ),
    decreases t0.len() - i,
{
    let s = t0 + u;
    if i < t0.len() {
        assert(s[i] == t0[i]);
        assert(var_ref(s, i) is None);
        lemma_expand_plain_prefix(t0, u, i + 1, env);
        assert(t0.subrange(i, t0.len() as int) =~= seq![t0[i]] + t0.subrange(
            i + 1,
            t0.len() as int,
        ));
    } else {
        assert(t0.subrange(i, t0.len() as int) =~= Seq::<char>::empty());
    }
}

/// Law: text free of `$` and `%` in front of anything is copied as it is,
/// and what follows expands as it would on its own.
pub proof fn law_expand_plain_prefix<E: EnvSource>(t0: Seq<char>, u: Seq<char>, env: &E)
    requires
        forall|k: int| 0 <= k < t0.len() ==> #[trigger] t0[k] != '$' && t0[k] != '%',
    ensures
        expand_text(t0 + u, env) == t0 + expand_text(u, env),
{
    lemma_expand_plain_prefix(t0, u, 0, env);
    lemma_expand_shift(t0, u, 0, env);
    assert(t0.subrange(0, t0.len() as int) =~= t0);
}

/// Law: a reference at the front of a value expands to the variable's value
/// (exactly as it is, or nothing when unset), and the rest of the value
/// expands as it would on its own: each reference is substituted wherever
/// it stands. For `$NAME`, the rest must not continue the name.
pub proof fn law_expand_leading_reference<E: EnvSource>(
    name: Seq<char>,
    rest: Seq<char>,
    env: &E,
)
    requires
        valid_env_name(name),
    ensures
        expand_text(seq!['$', '{'] + name + seq!['}'] + rest, env) == value_or_empty(env, name)
            + expand_text(rest, env),
        expand_text(seq!['%'] + name + seq!['%'] + rest, env) == value_or_empty(env, name)
            + expand_text(rest, env),
        rest.len() == 0 || !is_name_char(rest[0]) ==> expand_text(seq!['$'] + name + rest, env)
            == value_or_empty(env, name) + expand_text(rest, env),
{
    let n = name.len() as int;
    assert forall|k: int| 0 <= k < n implies is_name_char(#[trigger] name[k]) by {
        if k == 0 {
            assert(is_name_start(name[0]));
        }
    }
    let v = value_or_empty(env, name);

    let bref = seq!['$', '{'] + name + seq!['}'];
    let bs = bref + rest;
    assert(seq!['$', '{'] + name + seq!['}'] + rest == bs);
    assert forall|k: int| 2 <= k < n + 2 implies #[trigger] bs[k] != '}' by {
        assert(bs[k] == name[k - 2]);
        assert(is_name_char(name[k - 2]));
    }
    assert(bs[n + 2] == '}');
    lemma_find_char_at(bs, 2, n + 2, '}');
    assert(bs.subrange(2, n + 2) =~= name);
    assert(var_ref(bs, 0) == Some((name, n + 3)));
    assert(expand_from(bs, 0, env) == v + expand_from(bs, n + 3, env));
    lemma_expand_shift(bref, rest, 0, env);

    let pref = seq!['%'] + name + seq!['%'];
    let ps = pref + rest;
    assert(seq!['%'] + name + seq!['%'] + rest == ps);
    assert forall|k: int| 1 <= k < n + 1 implies #[trigger] ps[k] != '%' by {
        assert(ps[k] == name[k - 1]);
        assert(is_name_char(name[k - 1]));
    }
    assert(ps[n + 1] == '%');
    lemma_find_char_at(ps, 1, n + 1, '%');
    assert(ps.subrange(1, n + 1) =~= name);
    assert(ps[1] == name[0]);
    assert(var_ref(ps, 0) == Some((name, n + 2)));
    assert(expand_from(ps, 0, env) == v + expand_from(ps, n + 2, env));
    lemma_expand_shift(pref, rest, 0, env);

    if rest.len() == 0 || !is_name_char(rest[0]) {
        let dref = seq!['$'] + name;
        let ds = dref + rest;
        assert(seq!['$'] + name + rest == ds);
        assert forall|k: int| 1 <= k < n + 1 implies is_name_char(#[trigger] ds[k]) by {
            assert(ds[k] == name[k - 1]);
        }
        if rest.len() > 0 {
            assert(ds[n + 1] == rest[0]);
        }
        lemma_name_run_stops(ds, 1, n + 1);
        assert(ds.subrange(1, n + 1) =~= name);
        assert(ds[1] == name[0]);
        assert(var_ref(ds, 0) == Some((name, n + 1)));
        assert(expand_from(ds, 0, env) == v + expand_from(ds, n + 1, env));
        lemma_expand_shift(dref, rest, 0, env);
    }
}

/// Law: with names compared exactly, looking up `key` gives the value of the
/// first pair whose name is exactly `key`, and nothing when no pair has that
/// name. With ASCII case ignored, a value found belongs to a pair whose name
/// has `key`'s length and differs from it only in the case of ASCII
/// letters, and a pair named exactly `key` is always found.
pub proof fn law_lookup_exact_name(vars: Seq<(String, String)>, key: Seq<char>, ignore: bool)
    ensures
        !ignore ==> (lookup_in(vars, key, false, 0) is None <==> forall|k: int|
            0 <= k < vars.len() ==> #[trigger] vars[k].0@ != key),
        !ignore ==> (lookup_in(vars, key, false, 0) matches Some(v) ==> exists|k: int|
            0 <= k < vars.len() && #[trigger] vars[k].0@ == key && vars[k].1@ == v && forall|m: int|
                0 <= m < k ==> vars[m].0@ != key),
        lookup_in(vars, key, true, 0) matches Some(v) ==> exists|k: int|
            0 <= k < vars.len() && vars[k].1@ == v && (#[trigger] vars[k].0@).len() == key.len()
                && forall|i: int|
                #![trigger key[i]]
                0 <= i < key.len() ==> ({
                    let a = vars[k].0@[i];
                    let b = key[i];
                    a == b || ('A' <= a && a <= 'Z' && a as int + 32 == b as int) || ('A' <= b
                        && b <= 'Z' && b as int + 32 == a as int)
                }),
        (exists|k: int| 0 <= k < vars.len() && #[trigger] vars[k].0@ == key) ==> lookup_in(
            vars,
            key,
            true,
            0,
        ) is Some,
{
    lemma_lookup_from(vars, key, ignore, 0);
    lemma_lookup_from(vars, key, true, 0);
    lemma_lookup_from(vars, key, false, 0);
}

proof fn lemma_lookup_from(vars: Seq<(String, String)>, key: Seq<char>, ignore: bool, j: int)
    requires
        0 <= j <= vars.len(),
    ensures
        lookup_in(vars, key, ignore, j) is None <==> forall|k: int|
            j <= k < vars.len() ==> !names_match(#[trigger] vars[k].0@, key, ignore),
        lookup_in(vars, key, ignore, j) matches Some(v) ==> exists|k: int|
            j <= k < vars.len() && names_match(#[trigger] vars[k].0@, key, ignore) && vars[k].1@
                == v && forall|m: int| j <= m < k ==> !names_match(vars[m].0@, key, ignore),
        forall|k: int| j <= k < vars.len() && #[trigger] vars[k].0@ == key ==> names_match(
            vars[k].0@,
            key,
            ignore,
        ),
    decreases vars.len() - j,
{
    if j < vars.len() {
        lemma_lookup_from(vars, key, ignore, j + 1);
        if names_match(vars[j].0@, key, ignore) {
            assert(j <= j < vars.len() && names_match(vars[j].0@, key, ignore));
        }
    }
}

/// Law: a reference at the front of a value is replaced by the variable's
/// value when the environment has one, and removed when it does not; the
/// rest of the value expands as it would on its own.
pub proof fn law_expand_reference_value<E: EnvSource>(name: Seq<char>, rest: Seq<char>, env: &E)
    requires
        valid_env_name(name),
    ensures
        env.lookup(name) matches Some(v) ==> expand_text(
            seq!['$', '{'] + name + seq!['}'] + rest,
            env,
        ) == v + expand_text(rest, env) && expand_text(seq!['%'] + name + seq!['%'] + rest, env)
            == v + expand_text(rest, env),
        env.lookup(name) is None ==> expand_text(seq!['$', '{'] + name + seq!['}'] + rest, env)
            == expand_text(rest, env) && expand_text(seq!['%'] + name + seq!['%'] + rest, env)
            == expand_text(rest, env),
{
    law_expand_leading_reference(name, rest, env);
    assert(Seq::<char>::empty() + expand_text(rest, env) =~= expand_text(rest, env));
}

/// The first `c` in `t` at or after `from`, if there is one, does not close
/// a valid name starting at `from`.
pub open spec fn no_name_closed_by(t: Seq<char>, from: int, c: char) -> bool {
    forall|j: int|
        from <= j < t.len() && #[trigger] t[j] == c ==> (exists|m: int| from <= m < j && t[m] == c)
            || !valid_env_name(t.subrange(from, j))
}

/// A marker `m` in front of `rest` whose search for `c` from `from` (in
/// `rest`) closes no valid name finds nothing that `var_ref` accepts.
proof fn lemma_marker_search(rest: Seq<char>, mk: char, from: int, c: char)
    requires
        0 <= from <= rest.len(),
        no_name_closed_by(rest, from, c),
    ensures
        ({
            let s = seq![mk] + rest;
            find_char(s, from + 1, c) matches Some(j) ==> !valid_env_name(s.subrange(from + 1, j))
        }),
{
    let s = seq![mk] + rest;
    lemma_find_char_bounds(s, from + 1, c);
    lemma_find_char_first(s, from + 1, c);
    if let Some(j) = find_char(s, from + 1, c) {
        let jj = j - 1;
        assert(s[j] == rest[jj]);
        assert(from <= jj < rest.len() && rest[jj] == c);
        assert(forall|m: int| from <= m < jj ==> rest[m] != c) by {
            assert forall|m: int| from <= m < jj implies rest[m] != c by {
                assert(s[m + 1] == rest[m]);
            }
        }
        assert(!valid_env_name(rest.subrange(from, jj)));
        assert(s.subrange(from + 1, j) =~= rest.subrange(from, jj));
    }
}

/// Law: a `$` at the end, or followed by neither `{` nor a letter or `_`,
/// is kept as it is, and what follows expands as it would on its own.
pub proof fn law_expand_lone_dollar<E: EnvSource>(rest: Seq<char>, env: &E)
    requires
        rest.len() == 0 || (rest[0] != '{' && !is_name_start(rest[0])),
    ensures
        expand_text(seq!['$'] + rest, env) == seq!['$'] + expand_text(rest, env),
{
    let d = seq!['$'] + rest;
    if rest.len() > 0 {
        assert(d[1] == rest[0]);
    }
    assert(var_ref(d, 0) is None);
    lemma_expand_shift(seq!['$'], rest, 0, env);
}

/// Law: `${` with no `}` after it, or whose text up to the first `}` is not
/// a valid name, keeps its `$`, and what follows expands on its own.
pub proof fn law_expand_unclosed_brace<E: EnvSource>(rest: Seq<char>, env: &E)
    requires
        rest.len() > 0,
        rest[0] == '{',
        no_name_closed_by(rest, 1, '}'),
    ensures
        expand_text(seq!['$'] + rest, env) == seq!['$'] + expand_text(rest, env),
{
    let d = seq!['$'] + rest;
    assert(d[1] == rest[0]);
    lemma_marker_search(rest, '$', 1, '}');
    assert(var_ref(d, 0) is None);
    lemma_expand_shift(seq!['$'], rest, 0, env);
}

/// Law: `%` with no `%` after it, or whose text up to the next `%` is not
/// a valid name, is kept as it is, and what follows expands on its own.
pub proof fn law_expand_unclosed_percent<E: EnvSource>(rest: Seq<char>, env: &E)
    requires
        no_name_closed_by(rest, 0, '%'),
    ensures
        expand_text(seq!['%'] + rest, env) == seq!['%'] + expand_text(rest, env),
{
    let pc = seq!['%'] + rest;
    lemma_marker_search(rest, '%', 0, '%');
    assert(var_ref(pc, 0) is None);
    lemma_expand_shift(seq!['%'], rest, 0, env);
}

/// The ASCII-lower-cased code of a character.
pub open spec fn ascii_lower_code(c: char) -> int {
    if 'A' <= c && c <= 'Z' {
        c as int + 32
    } else {
        c as int
    }
}

/// `a` and `b` are the same name once ASCII letters are lower-cased.
pub open spec fn same_name_ascii_lowered(a: Seq<char>, b: Seq<char>) -> bool {
    a.len() == b.len() && forall|i: int|
        0 <= i < a.len() ==> ascii_lower_code(#[trigger] a[i]) == ascii_lower_code(b[i])
}

proof fn lemma_ignore_case_is_lowering(a: Seq<char>, b: Seq<char>)
    ensures
        names_match(a, b, true) == same_name_ascii_lowered(a, b),
{
    if a.len() == b.len() {
        assert forall|i: int| 0 <= i < a.len() implies chars_eq_ignore_ascii_case(a[i], b[i])
            == (ascii_lower_code(#[trigger] a[i]) == ascii_lower_code(b[i])) by {
            let x = a[i];
            let y = b[i];
            assert('a' as int == 'A' as int + 32);
            assert('z' as int == 'Z' as int + 32);
        }
        if names_match(a, b, true) {
            assert forall|i: int| 0 <= i < a.len() implies ascii_lower_code(#[trigger] a[i])
                == ascii_lower_code(b[i]) by {
                assert(chars_eq_ignore_ascii_case(a[i], b[i]));
            }
        }
        if same_name_ascii_lowered(a, b) {
            assert forall|i: int| 0 <= i < b.len() implies chars_eq_ignore_ascii_case(
                #[trigger] a[i],
                b[i],
            ) by {
                assert(ascii_lower_code(a[i]) == ascii_lower_code(b[i]));
            }
        }
    }
}

/// Law: with ASCII case ignored, looking up `key` gives the value of the
/// first pair whose name equals `key` once ASCII letters are lower-cased,
/// and nothing when there is no such pair.
pub proof fn law_lookup_ignoring_ascii_case(vars: Seq<(String, String)>, key: Seq<char>)
    ensures
        lookup_in(vars, key, true, 0) is None <==> forall|k: int|
            0 <= k < vars.len() ==> !same_name_ascii_lowered(#[trigger] vars[k].0@, key),
        lookup_in(vars, key, true, 0) matches Some(v) ==> exists|k: int|
            0 <= k < vars.len() && same_name_ascii_lowered(#[trigger] vars[k].0@, key) && vars[k].1@
                == v && forall|m: int| 0 <= m < k ==> !same_name_ascii_lowered(vars[m].0@, key),
{
    lemma_lookup_from(vars, key, true, 0);
    assert forall|k: int| 0 <= k < vars.len() implies names_match(#[trigger] vars[k].0@, key, true)
        == same_name_ascii_lowered(vars[k].0@, key) by {
        lemma_ignore_case_is_lowering(vars[k].0@, key);
    }
}

} // verus!
