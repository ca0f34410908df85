//! Laws of the hooks.
use crate::fs_paths;
use crate::hooks;
use crate::hooks::{HookCommand, HookReply};
use vstd::prelude::*;

verus! {

/// A hook runs in the slot and sees six variables: the hooks file, the pool's key, the lease
/// under two names, the slot's path, and whether the slot is fresh.
pub proof fn a_hook_sees_its_slot(
    c: HookCommand,
    hook: Seq<char>,
    slot: Seq<char>,
    key: Seq<char>,
    lease: Seq<char>,
    fresh: bool,
)
    requires
        hooks::runs_hook(c, hook, slot, key, lease, fresh),
    ensures
        c.cwd@ == slot,
        c.env@.len() == 6,
        c.env@[0].0@ == "WT_HOOKS_FILE"@ && c.env@[0].1@ == fs_paths::path_in(
            slot,
            ".wt-hooks.sh"@,
        ),
        c.env@[1].0@ == "WT_KEY"@ && c.env@[1].1@ == key,
        c.env@[2].0@ == "WT_NAME"@ && c.env@[2].1@ == lease,
        c.env@[3].0@ == "WT_LEASE"@ && c.env@[3].1@ == lease,
        c.env@[4].0@ == "WT_PATH"@ && c.env@[4].1@ == slot,
        c.env@[5].0@ == "WT_FRESH"@,
        fresh ==> c.env@[5].1@ == "1"@,
        !fresh ==> c.env@[5].1@ == "0"@,
{
    let e = hooks::env_texts(c.env@);
    let want = hooks::hook_env(slot, key, lease, fresh);
    assert(e.len() == c.env@.len());
    assert(want.len() == 6);
    assert forall|i: int| 0 <= i < 6 implies #[trigger] e[i] == (c.env@[i].0@, c.env@[i].1@) by {}
    assert(e[0] == want[0] && e[1] == want[1] && e[2] == want[2]);
    assert(e[3] == want[3] && e[4] == want[4] && e[5] == want[5]);
}

/// The script reads the hooks file before errors count, and runs the hook only where it is
/// defined.
pub proof fn a_hook_runs_only_where_it_is_defined(
    c: HookCommand,
    hook: Seq<char>,
    slot: Seq<char>,
    key: Seq<char>,
    lease: Seq<char>,
    fresh: bool,
)
    requires
        hooks::runs_hook(c, hook, slot, key, lease, fresh),
    ensures
        c.script@ == "source \"$WT_HOOKS_FILE\"; set -e; if declare -F "@ + hook
            + " >/dev/null 2>&1; then "@ + hook + "; fi"@,
{
}

/// A hook counts as good exactly where it ran and ended well.
pub proof fn a_hook_is_good_iff_it_ended_well(hook: Seq<char>, slot: Seq<char>, r: HookReply)
    ensures
        hooks::hook_fault(hook, slot, r) is None <==> (r matches HookReply::Ended(ok, _) && ok),
        r matches HookReply::NotStarted(why) ==> hooks::hook_fault(hook, slot, r) == Some(
            "spawning bash for hook "@ + hook + ": "@ + why@,
        ),
        r matches HookReply::Ended(ok, status) ==> !ok ==> hooks::hook_fault(hook, slot, r)
            == Some(
            "hook "@ + hook + " failed ("@ + status@ + "); see "@ + fs_paths::path_in(
                slot,
                ".wt-hooks.sh"@,
            ),
        ),
{
}

} // verus!
