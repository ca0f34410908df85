//! Lifecycle hooks. A source repo may ship `.wt-hooks.sh` with bash functions that
//! extend lifecycle verbs.
//!
//! The file is read from the acquired slot's checkout, not from the source: the source
//! may be bare, and the slot has the acquired commit's file. Each hook runs in the slot
//! with the `WT_*` variables set. A hook that fails is a hard error.
use crate::error;
use crate::error::Error;
use crate::fs_paths;
use crate::text;
use vstd::prelude::*;

verus! {

/// The name of the hooks file in a checkout.
pub const HOOKS_FILE: &'static str = ".wt-hooks.sh";

/// A hook to run: `bash -c <script>` in `cwd` with `env` set. What the hook prints to
/// stdout goes to stderr.
#[derive(Debug)]
pub struct HookCommand {
    pub script: String,
    pub cwd: String,
    pub env: Vec<(String, String)>,
}

/// What came of running a hook.
#[derive(Debug)]
pub enum HookReply {
    /// Bash did not start; why.
    NotStarted(String),
    /// It ended; whether it succeeded, and its exit status in words.
    Ended(bool, String),
}

/// The hooks file of a slot.
pub open spec fn hooks_path(slot: Seq<char>) -> Seq<char> {
    fs_paths::path_in(slot, HOOKS_FILE@)
}

/// The hooks file of a slot: a hook fires only where it exists.
pub fn hooks_file(slot: &str) -> (r: String)
    ensures
        r@ == hooks_path(slot@),
{
    fs_paths::join(slot, HOOKS_FILE)
}

/// The script that runs a hook: it reads the file first, outside `set -e`, so that a
/// harmless failing statement at its top level does not count; only the hook's own
/// body runs under `set -e`. Where the function is not defined it does nothing.
pub open spec fn hook_script(hook: Seq<char>) -> Seq<char> {
    "source \"$WT_HOOKS_FILE\"; set -e; if declare -F "@ + hook + " >/dev/null 2>&1; then "@ + hook
        + "; fi"@
}

/// The variables that a hook sees.
pub open spec fn hook_env(
    slot: Seq<char>,
    key: Seq<char>,
    lease: Seq<char>,
    fresh: bool,
) -> Seq<(Seq<char>, Seq<char>)> {
    seq![
        ("WT_HOOKS_FILE"@, hooks_path(slot)),
        ("WT_KEY"@, key),
        ("WT_NAME"@, lease),
        ("WT_LEASE"@, lease),
        ("WT_PATH"@, slot),
        ("WT_FRESH"@, if fresh {
            "1"@
        } else {
            "0"@
        }),
    ]
}

/// Variables as text.
pub open spec fn env_texts(v: Seq<(String, String)>) -> Seq<(Seq<char>, Seq<char>)> {
    v.map_values(|p: (String, String)| (p.0@, p.1@))
}

/// `c` runs a hook.
pub open spec fn runs_hook(
    c: HookCommand,
    hook: Seq<char>,
    slot: Seq<char>,
    key: Seq<char>,
    lease: Seq<char>,
    fresh: bool,
) -> bool {
    c.script@ == hook_script(hook) && c.cwd@ == slot && env_texts(c.env@) == hook_env(
        slot,
        key,
        lease,
        fresh,
    )
}

/// The command that fires a hook from a slot's hooks file. `hook_name` is always one of
/// the crate's own names, never user input. `fresh` tells a freshly created worktree
/// from a recycled one.
pub fn fire(hook_name: &str, slot_path: &str, pool_key: &str, lease: &str, fresh: bool) -> (r:
    HookCommand)
    ensures
        runs_hook(r, hook_name@, slot_path@, pool_key@, lease@, fresh),
{
    let mut script = text::own("source \"$WT_HOOKS_FILE\"; set -e; if declare -F ");
    script.append(hook_name);
    script.append(" >/dev/null 2>&1; then ");
    script.append(hook_name);
    script.append("; fi");
    let mut env: Vec<(String, String)> = Vec::new();
    env.push((text::own("WT_HOOKS_FILE"), hooks_file(slot_path)));
    env.push((text::own("WT_KEY"), text::own(pool_key)));
    env.push((text::own("WT_NAME"), text::own(lease)));
    env.push((text::own("WT_LEASE"), text::own(lease)));
    env.push((text::own("WT_PATH"), text::own(slot_path)));
    env.push(
        (
            text::own("WT_FRESH"),
            text::own(
                if fresh {
                    "1"
                } else {
                    "0"
                },
            ),
        ),
    );
    assert(env_texts(env@) =~= hook_env(slot_path@, pool_key@, lease@, fresh));
    HookCommand { script, cwd: text::own(slot_path), env }
}

/// What is wrong with a hook that did not succeed.
pub open spec fn hook_fault(hook: Seq<char>, slot: Seq<char>, r: HookReply) -> Option<Seq<char>> {
    match r {
        HookReply::NotStarted(why) => Some("spawning bash for hook "@ + hook + ": "@ + why@),
        HookReply::Ended(true, _) => None,
        HookReply::Ended(false, status) => Some(
            "hook "@ + hook + " failed ("@ + status@ + "); see "@ + hooks_path(slot),
        ),
    }
}

/// Whether a hook that ran succeeded.
pub fn fired(hook_name: &str, slot_path: &str, reply: &HookReply) -> (r: Result<(), Error>)
    ensures
        match (r, hook_fault(hook_name@, slot_path@, *reply)) {
            (Ok(_), None) => true,
            (Err(e), Some(m)) => error::told(e, m),
            _ => false,
        },
{
    match reply {
        HookReply::NotStarted(why) => {
            let mut doing = text::own("spawning bash for hook ");
            doing.append(hook_name);
            Err(Error::new(text::own(why.as_str())).context(doing.as_str()))
        },
        HookReply::Ended(true, _) => Ok(()),
        HookReply::Ended(false, status) => {
            let mut m = text::own("hook ");
            m.append(hook_name);
            m.append(" failed (");
            m.append(status.as_str());
            m.append("); see ");
            m.append(hooks_file(slot_path).as_str());
            Err(Error::new(m))
        },
    }
}

} // verus!
