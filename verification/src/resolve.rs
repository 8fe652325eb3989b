//! Resolution: turns parsed tokens into the form that is run, with every
//! environment value expanded and the command and its arguments untouched.

use vstd::prelude::*;

use crate::expand::{expand, expand_os, EnvSource};
use crate::os_text::{os_views, OsText, OsTextView};
use crate::parse::{env_view, Parsed};

verus! {

/// Model of [`Resolved`].
pub struct ResolvedView {
    pub envs: Seq<(Seq<char>, OsTextView)>,
    pub command: OsTextView,
    pub args: Seq<OsTextView>,
}

/// Post-expansion env + command + args.
#[derive(Debug)]
pub struct Resolved {
    pub envs: Vec<(String, OsText)>,
    pub command: OsText,
    pub args: Vec<OsText>,
}

impl View for Resolved {
    type V = ResolvedView;

    open spec fn view(&self) -> ResolvedView {
        ResolvedView {
            envs: self.envs@.map_values(|e: (String, OsText)| env_view(e)),
            command: self.command@,
            args: os_views(self.args@),
        }
    }
}

/// One assignment with its value expanded.
pub open spec fn expand_env<E: EnvSource>(e: (Seq<char>, OsTextView), env: &E) -> (
    Seq<char>,
    OsTextView,
) {
    (e.0, expand_os(e.1, env))
}

/// Expands each assignment's value from `env`; keys, their order, the
/// command and the arguments are kept as they are.
pub fn resolve<E: EnvSource>(parsed: Parsed, env: &E) -> (r: Resolved)
    ensures
        r@.envs.len() == parsed@.envs.len(),
        forall|i: int|
            0 <= i < r@.envs.len() ==> #[trigger] r@.envs[i] == expand_env(parsed@.envs[i], env),
        r@.command == parsed@.command,
        r@.args == parsed@.args,
{
    let Parsed { envs: penvs, command, args } = parsed;
    let ghost pv = penvs@.map_values(|e: (String, OsText)| env_view(e));
    let n = penvs.len();
    let mut envs: Vec<(String, OsText)> = Vec::new();
    let mut i: usize = 0;
    while i < n
        invariant
            n == penvs@.len(),
            pv == penvs@.map_values(|e: (String, OsText)| env_view(e)),
            i <= n,
            envs@.len() == i,
            forall|k: int|
                0 <= k < i ==> #[trigger] env_view(envs@[k]) == expand_env(pv[k], env),
        decreases n - i,
    {
        let key = penvs[i].0.clone();
        let value = expand(&penvs[i].1, env);
        envs.push((key, value));
        i = i + 1;
    }
    Resolved { envs, command, args }
}

} // verus!
