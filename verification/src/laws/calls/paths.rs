//! Laws of the paths as they are called.
use crate::fs_paths;
use crate::hooks;
use crate::laws::paths;
use vstd::prelude::*;

verus! {

/// The root of all pools is the variable's value, where it is set and not empty.
pub proof fn the_root_is_the_variable(var: Option<String>, r: Option<String>)
    requires
        call_ensures(fs_paths::worktree_root, (var,), r),
    ensures
        r is Some <==> (var matches Some(v) && v@.len() > 0),
        r matches Some(v) ==> var == Some(v),
{
}

/// Joining goes below the base, and a pool lies below the root by its key.
pub proof fn a_path_goes_below_its_base(
    base: &str,
    p: &str,
    joined: String,
    pool: String,
    rooted: bool,
)
    requires
        call_ensures(fs_paths::join, (base, p), joined),
        call_ensures(fs_paths::pool_root, (base, p), pool),
        call_ensures(fs_paths::is_absolute, (p,), rooted),
        base@.len() > 0,
        base@.last() != '/',
        p@.len() > 0,
    ensures
        rooted <==> p@[0] == '/',
        rooted ==> joined@ == p@,
        !rooted ==> joined@ == base@ + seq!['/'] + p@,
        pool@ == joined@,
{
    paths::paths_are_joined_by_one_separator(base@, p@);
}

/// Where the pool's files lie.
pub proof fn the_pools_files_lie(
    root: &str,
    id: &str,
    config: String,
    dir: String,
    slot: String,
    pool: String,
)
    requires
        call_ensures(fs_paths::pool_config, (root,), config),
        call_ensures(fs_paths::init_dir, (root,), dir),
        call_ensures(fs_paths::init_mutex, (root, id), slot),
        call_ensures(fs_paths::pool_mutex, (root,), pool),
        root@.len() > 0,
        root@.last() != '/',
        id@.len() > 0,
        id@[0] != '/',
    ensures
        config@ == root@ + "/.meta/config.yaml"@,
        dir@ == root@ + "/.meta/init"@,
        slot@ == root@ + "/.meta/init/"@ + id@ + ".lock"@,
        pool@ == root@ + "/.meta/pool.lock"@,
{
    paths::the_pool_keeps_its_files_under_meta(root@, id@);
}

/// Where the locks in git's directories lie, and a slot's hooks.
pub proof fn the_locks_in_git_lie(dir: &str, config: String, index: String, hooks: String)
    requires
        call_ensures(fs_paths::source_config_mutex, (dir,), config),
        call_ensures(fs_paths::worktree_index_lock, (dir,), index),
        call_ensures(hooks::hooks_file, (dir,), hooks),
        dir@.len() > 0,
        dir@.last() != '/',
    ensures
        config@ == dir@ + "/worktree-pool-config.lock"@,
        index@ == dir@ + "/index.lock"@,
        hooks@ == dir@ + "/"@ + ".wt-hooks.sh"@,
{
    paths::locks_in_git_directories(dir@);
    reveal_strlit(".wt-hooks.sh");
}

} // verus!
