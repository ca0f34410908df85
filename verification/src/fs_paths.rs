//! All on-disk paths of a pool. Single source of truth; no ad-hoc joins
//! at call sites.
use crate::text;
use vstd::prelude::*;

verus! {

/// `base` with `p` appended as path components. An absolute `p` replaces `base`.
pub open spec fn path_in(base: Seq<char>, p: Seq<char>) -> Seq<char> {
    if p.len() > 0 && p[0] == '/' {
        p
    } else if base.len() == 0 || base.last() == '/' {
        base + p
    } else {
        base + "/"@ + p
    }
}

/// `base` with `p` appended as path components. An absolute `p` replaces `base`.
pub fn join(base: &str, p: &str) -> (r: String)
    ensures
        r@ == path_in(base@, p@),
{
    if is_absolute(p) {
        return text::own(p);
    }
    let mut out = text::own(base);
    if !base.is_empty() {
        let n: usize = base.unicode_len();
        if base.get_char(n - 1) != '/' {
            out.append("/");
        }
    }
    out.append(p);
    out
}

/// Whether a path starts at the root.
pub open spec fn absolute(p: Seq<char>) -> bool {
    p.len() > 0 && p[0] == '/'
}

/// Whether a path starts at the root.
pub fn is_absolute(p: &str) -> (r: bool)
    ensures
        r == absolute(p@),
{
    !p.is_empty() && p.get_char(0) == '/'
}

/// `$WORKTREE_ROOT`, where it is set and not empty. Every pool path is anchored
/// there, so there is no fallback.
pub fn worktree_root(var: Option<String>) -> (r: Option<String>)
    ensures
        r == match var {
            Some(v) => if v@.len() > 0 {
                Some(v)
            } else {
                None
            },
            None => None,
        },
{
    match var {
        Some(v) => {
            if v.as_str().is_empty() {
                None
            } else {
                Some(v)
            }
        },
        None => None,
    }
}

/// Pool root directory: `$WORKTREE_ROOT/<key>`.
pub fn pool_root(worktree_root: &str, key: &str) -> (r: String)
    ensures
        r@ == path_in(worktree_root@, key@),
{
    join(worktree_root, key)
}

/// `<pool>/.meta/config.yaml`.
pub open spec fn config_path(pool_root: Seq<char>) -> Seq<char> {
    path_in(pool_root, ".meta/config.yaml"@)
}

/// `<pool>/.meta/config.yaml`.
pub fn pool_config(pool_root: &str) -> (r: String)
    ensures
        r@ == config_path(pool_root@),
{
    join(pool_root, ".meta/config.yaml")
}

/// `<pool>/.meta/init`.
pub open spec fn init_dir_path(pool_root: Seq<char>) -> Seq<char> {
    path_in(pool_root, ".meta/init"@)
}

/// Directory of the per-slot init mutexes: `<pool>/.meta/init`.
pub fn init_dir(pool_root: &str) -> (r: String)
    ensures
        r@ == init_dir_path(pool_root@),
{
    join(pool_root, ".meta/init")
}

/// `<pool>/.meta/init/<slot-id>.lock`.
pub open spec fn init_mutex_path(pool_root: Seq<char>, slot_id: Seq<char>) -> Seq<char> {
    path_in(init_dir_path(pool_root), slot_id + ".lock"@)
}

/// Per-slot init mutex: `<pool>/.meta/init/<slot-id>.lock`.
pub fn init_mutex(pool_root: &str, slot_id: &str) -> (r: String)
    ensures
        r@ == init_mutex_path(pool_root@, slot_id@),
{
    let mut file = text::own(slot_id);
    file.append(".lock");
    join(init_dir(pool_root).as_str(), file.as_str())
}

/// `<pool>/.meta/pool.lock`.
pub open spec fn pool_mutex_path(pool_root: Seq<char>) -> Seq<char> {
    path_in(pool_root, ".meta/pool.lock"@)
}

/// Pool-wide mutex serializing slot allocation and release.
pub fn pool_mutex(pool_root: &str) -> (r: String)
    ensures
        r@ == pool_mutex_path(pool_root@),
{
    join(pool_root, ".meta/pool.lock")
}

/// `<source-gitdir>/worktree-pool-config.lock`.
pub open spec fn source_config_mutex_path(source_gitdir: Seq<char>) -> Seq<char> {
    path_in(source_gitdir, "worktree-pool-config.lock"@)
}

/// Per-source mutex serializing writes of `submodule.<name>.url` to the config
/// that every pool on that source shares.
pub fn source_config_mutex(source_gitdir: &str) -> (r: String)
    ensures
        r@ == source_config_mutex_path(source_gitdir@),
{
    join(source_gitdir, "worktree-pool-config.lock")
}

/// `<worktree-gitdir>/index.lock`.
pub open spec fn index_lock_path(worktree_gitdir: Seq<char>) -> Seq<char> {
    path_in(worktree_gitdir, "index.lock"@)
}

/// Git's per-worktree index lock. Git owns its lifecycle, but the file leaks when
/// a git process dies; a recycled slot's `reset --hard` would then fail.
pub fn worktree_index_lock(worktree_gitdir: &str) -> (r: String)
    ensures
        r@ == index_lock_path(worktree_gitdir@),
{
    join(worktree_gitdir, "index.lock")
}

/// Distinct slot ids have distinct init mutexes, where no id is an absolute path.
pub proof fn init_mutexes_are_distinct(pool_root: Seq<char>, a: Seq<char>, b: Seq<char>)
    requires
        !absolute(a),
        !absolute(b),
        init_mutex_path(pool_root, a) == init_mutex_path(pool_root, b),
    ensures
        a == b,
{
    reveal_strlit(".lock");
    reveal_strlit("/");
    let base = init_dir_path(pool_root);
    let fa = a + ".lock"@;
    let fb = b + ".lock"@;
    assert(fa[0] != '/' && fb[0] != '/');
    let head = if base.len() == 0 || base.last() == '/' {
        base
    } else {
        base + "/"@
    };
    let p = init_mutex_path(pool_root, a);
    assert(p == head + fa);
    assert(p == head + fb);
    assert(fa =~= p.skip(head.len() as int));
    assert(fb =~= p.skip(head.len() as int));
    assert(a =~= fa.take(fa.len() - ".lock"@.len()));
    assert(b =~= fb.take(fb.len() - ".lock"@.len()));
}

} // verus!
