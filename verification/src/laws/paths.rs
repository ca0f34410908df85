//! Laws of the paths.
use crate::fs_paths;
use vstd::prelude::*;

verus! {

/// A relative path goes below its base, with one separator between them; an absolute one
/// stands for itself.
pub proof fn paths_are_joined_by_one_separator(base: Seq<char>, p: Seq<char>)
    requires
        p.len() > 0,
    ensures
        p[0] == '/' ==> fs_paths::path_in(base, p) == p,
        p[0] != '/' && base.len() > 0 && base.last() != '/' ==> fs_paths::path_in(base, p) == base
            + seq!['/'] + p,
        p[0] != '/' && (base.len() == 0 || base.last() == '/') ==> fs_paths::path_in(base, p)
            == base + p,
{
    reveal_strlit("/");
    assert("/"@ =~= seq!['/']);
}

/// Where the pool keeps its files: its configuration and its mutexes lie under `.meta`, one
/// init mutex for each slot.
pub proof fn the_pool_keeps_its_files_under_meta(root: Seq<char>, id: Seq<char>)
    requires
        root.len() > 0,
        root.last() != '/',
        id.len() > 0,
        id[0] != '/',
    ensures
        fs_paths::config_path(root) == root + "/.meta/config.yaml"@,
        fs_paths::pool_mutex_path(root) == root + "/.meta/pool.lock"@,
        fs_paths::init_dir_path(root) == root + "/.meta/init"@,
        fs_paths::init_mutex_path(root, id) == root + "/.meta/init/"@ + id + ".lock"@,
{
    reveal_strlit("/");
    reveal_strlit(".meta/config.yaml");
    reveal_strlit(".meta/pool.lock");
    reveal_strlit(".meta/init");
    reveal_strlit(".lock");
    reveal_strlit("/.meta/config.yaml");
    reveal_strlit("/.meta/pool.lock");
    reveal_strlit("/.meta/init");
    reveal_strlit("/.meta/init/");
    assert("/"@ + ".meta/config.yaml"@ =~= "/.meta/config.yaml"@);
    assert("/"@ + ".meta/pool.lock"@ =~= "/.meta/pool.lock"@);
    assert("/"@ + ".meta/init"@ =~= "/.meta/init"@);
    assert("/.meta/init"@ + "/"@ =~= "/.meta/init/"@);
    assert(root + "/"@ + ".meta/config.yaml"@ =~= root + "/.meta/config.yaml"@);
    assert(root + "/"@ + ".meta/pool.lock"@ =~= root + "/.meta/pool.lock"@);
    let dir = root + "/"@ + ".meta/init"@;
    assert(dir =~= root + "/.meta/init"@);
    assert(dir.last() == 't');
    assert(dir + "/"@ + (id + ".lock"@) =~= root + "/.meta/init/"@ + id + ".lock"@);
}

/// Where git's own directories hold the pool's locks and git's.
pub proof fn locks_in_git_directories(gitdir: Seq<char>)
    requires
        gitdir.len() > 0,
        gitdir.last() != '/',
    ensures
        fs_paths::source_config_mutex_path(gitdir) == gitdir + "/worktree-pool-config.lock"@,
        fs_paths::index_lock_path(gitdir) == gitdir + "/index.lock"@,
{
    reveal_strlit("/");
    reveal_strlit("worktree-pool-config.lock");
    reveal_strlit("/worktree-pool-config.lock");
    reveal_strlit("index.lock");
    reveal_strlit("/index.lock");
    assert(gitdir + "/"@ + "worktree-pool-config.lock"@ =~= gitdir + "/worktree-pool-config.lock"@);
    assert(gitdir + "/"@ + "index.lock"@ =~= gitdir + "/index.lock"@);
}

/// Wherever the pool lies, its files go by the same names below it.
pub proof fn the_pools_files_go_by_name(root: Seq<char>, id: Seq<char>)
    ensures
        fs_paths::config_path(root) == fs_paths::path_in(root, ".meta/config.yaml"@),
        fs_paths::pool_mutex_path(root) == fs_paths::path_in(root, ".meta/pool.lock"@),
        fs_paths::init_dir_path(root) == fs_paths::path_in(root, ".meta/init"@),
        fs_paths::init_mutex_path(root, id) == fs_paths::path_in(
            fs_paths::path_in(root, ".meta/init"@),
            id + ".lock"@,
        ),
        fs_paths::source_config_mutex_path(root) == fs_paths::path_in(
            root,
            "worktree-pool-config.lock"@,
        ),
        fs_paths::index_lock_path(root) == fs_paths::path_in(root, "index.lock"@),
{
}

} // verus!
