//! Laws of the git commands and the hooks as they are called.
use crate::dashboard;
use crate::error::Error;
use crate::git;
use crate::git::{GitCommand, GitReply};
use crate::hooks;
use crate::hooks::{HookCommand, HookReply};
use crate::laws::git as git_laws;
use crate::laws::slots;
use crate::text;
use vstd::prelude::*;

verus! {

/// A command is its directory, its overrides and its arguments, as they were given.
pub proof fn a_command_is_what_was_given(
    cwd: &str,
    overrides: &[(&str, &str)],
    args: &[&str],
    plain: GitCommand,
    lenient: GitCommand,
    configured: GitCommand,
    i: int,
)
    requires
        call_ensures(git::run, (cwd, args), plain),
        call_ensures(git::run_lenient, (cwd, args), lenient),
        call_ensures(git::run_with_config, (cwd, overrides, args), configured),
    ensures
        plain.cwd@ == cwd@ && lenient.cwd@ == cwd@ && configured.cwd@ == cwd@,
        plain.overrides@.len() == 0 && lenient.overrides@.len() == 0,
        plain.args@.len() == args@.len() && lenient.args@.len() == args@.len()
            && configured.args@.len() == args@.len(),
        0 <= i < args@.len() ==> plain.args@[i]@ == args@[i]@ && lenient.args@[i]@ == args@[i]@
            && configured.args@[i]@ == args@[i]@,
        configured.overrides@.len() == overrides@.len(),
        0 <= i < overrides@.len() ==> configured.overrides@[i].0@ == overrides@[i].0@
            && configured.overrides@[i].1@ == overrides@[i].1@,
{
    assert(plain@.args.len() == plain.args@.len() && lenient@.args.len() == lenient.args@.len());
    assert(configured@.args.len() == configured.args@.len());
    assert(plain@.overrides.len() == plain.overrides@.len());
    assert(lenient@.overrides.len() == lenient.overrides@.len());
    assert(configured@.overrides.len() == configured.overrides@.len());
    assert(text::slices(args@).len() == args@.len());
    if 0 <= i < args@.len() {
        assert(text::slices(args@)[i] == args@[i]@);
        assert(plain@.args[i] == plain.args@[i]@ && lenient@.args[i] == lenient.args@[i]@);
        assert(configured@.args[i] == configured.args@[i]@);
    }
    if 0 <= i < overrides@.len() {
        assert(configured@.overrides[i] == (
            configured.overrides@[i].0@,
            configured.overrides@[i].1@,
        ));
    }
}

/// What a command runs as, and what it makes of a reply.
pub proof fn a_command_runs_and_reads(
    c: &GitCommand,
    reply: &GitReply,
    argv: Vec<String>,
    checked: Result<String, Error>,
    printed: Result<String, Error>,
    lenient: Result<(bool, String, String), Error>,
)
    requires
        call_ensures(GitCommand::argv, (c,), argv),
        call_ensures(GitCommand::check, (c, reply), checked),
        call_ensures(GitCommand::check_printed, (c, reply), printed),
        call_ensures(GitCommand::check_lenient, (c, reply), lenient),
    ensures
        argv@.len() >= 2 && argv@[0]@ == "-C"@ && argv@[1]@ == c.cwd@,
        c.overrides@.len() == 0 ==> text::texts(argv@) == seq!["-C"@, c.cwd@] + text::texts(c.args@),
        *reply matches GitReply::Finished(o) ==> {
            &&& o.success ==> (checked matches Ok(t) && t@ == text::trimmed(o.stdout@)) && (
            printed matches Ok(t) && t@ == o.stdout@)
            &&& !o.success ==> (checked matches Err(e) && e.kind is None) && (printed matches Err(e)
                && e.kind is None)
            &&& lenient matches Ok((ok, out, err))
            &&& ok == o.success
            &&& out@ == text::trimmed(o.stdout@)
            &&& err@ == text::trimmed(o.stderr@)
        },
        *reply is NotStarted ==> checked is Err && printed is Err && lenient is Err,
{
    git_laws::success_gives_the_output(c@, *reply);
    let views = text::texts(argv@);
    assert(views.len() == argv@.len());
    let words = git::words(c@);
    assert(words[0] == "-C"@ && words[1] == c.cwd@);
    assert(views[0] == argv@[0]@ && views[1] == argv@[1]@);
    assert(c@.overrides.len() == c.overrides@.len());
    if c.overrides@.len() == 0 {
        assert(git::override_words(c@.overrides) =~= Seq::<Seq<char>>::empty());
        assert(words =~= seq!["-C"@, c.cwd@] + text::texts(c.args@));
    }
}

/// The commands that look things up.
pub proof fn lookups_run(
    dir: &str,
    file: &str,
    list: GitCommand,
    blob: GitCommand,
    resolve: GitCommand,
    gitdir: GitCommand,
    sha: GitCommand,
    branch: GitCommand,
    others: GitCommand,
)
    requires
        call_ensures(git::config_file_list, (dir, file), list),
        call_ensures(git::gitmodules_at, (dir, file), blob),
        call_ensures(git::resolve_full_sha, (dir, file), resolve),
        call_ensures(git::source_gitdir, (dir,), gitdir),
        call_ensures(git::head_sha, (dir,), sha),
        call_ensures(git::symbolic_head, (dir,), branch),
        call_ensures(git::untracked, (dir,), others),
    ensures
        list.cwd@ == dir@ && list.overrides@.len() == 0 && text::texts(list.args@) == seq![
            "config"@,
            "--file"@,
            file@,
            "--list"@,
        ],
        blob.cwd@ == dir@ && text::texts(blob.args@) == seq![
            "config"@,
            "--blob"@,
            file@ + ":.gitmodules"@,
            "--list"@,
        ],
        resolve.cwd@ == dir@ && text::texts(resolve.args@) == seq![
            "rev-parse"@,
            "--verify"@,
            file@ + "^{commit}"@,
        ],
        gitdir.cwd@ == dir@ && text::texts(gitdir.args@) == seq!["rev-parse"@, "--git-dir"@],
        sha.cwd@ == dir@ && text::texts(sha.args@) == seq!["rev-parse"@, "HEAD"@],
        branch.cwd@ == dir@ && text::texts(branch.args@) == seq![
            "symbolic-ref"@,
            "--short"@,
            "HEAD"@,
        ],
        others.cwd@ == dir@ && text::texts(others.args@) == seq![
            "ls-files"@,
            "--others"@,
            "--exclude-standard"@,
            "-z"@,
        ],
{
    assert(list@.overrides.len() == list.overrides@.len());
}

/// The commands that change worktrees.
pub proof fn worktree_commands_run(
    source: &str,
    slot: &str,
    x: &str,
    made: GitCommand,
    moved: GitCommand,
    removed: GitCommand,
    reset: GitCommand,
    detached: GitCommand,
)
    requires
        call_ensures(git::worktree_add, (source, slot, x), made),
        call_ensures(git::worktree_move, (source, slot, x), moved),
        call_ensures(git::worktree_remove, (source, slot), removed),
        call_ensures(git::reset_hard, (slot, x), reset),
        call_ensures(git::checkout_detach, (slot,), detached),
    ensures
        made.cwd@ == source@ && text::texts(made.args@) == seq![
            "worktree"@,
            "add"@,
            "--detach"@,
            slot@,
            x@,
        ],
        moved.cwd@ == source@ && text::texts(moved.args@) == seq![
            "worktree"@,
            "move"@,
            slot@,
            x@,
        ],
        removed.cwd@ == source@ && text::texts(removed.args@) == seq![
            "worktree"@,
            "remove"@,
            "--force"@,
            slot@,
        ],
        reset.cwd@ == slot@ && text::texts(reset.args@) == seq!["reset"@, "--hard"@, x@],
        detached.cwd@ == slot@ && text::texts(detached.args@) == seq!["checkout"@, "--detach"@],
{
}

/// The commands that change refs.
pub proof fn ref_commands_run(
    slot: &str,
    name: &str,
    remote: &str,
    both: (GitCommand, GitCommand),
    detached: GitCommand,
    deleted: GitCommand,
    pushed: GitCommand,
)
    requires
        call_ensures(git::checkout_force_branch, (slot, name), both),
        call_ensures(git::detach_head, (slot, name), detached),
        call_ensures(git::branch_delete, (slot, name), deleted),
        call_ensures(git::push_delete, (slot, remote, name), pushed),
    ensures
        both.0.cwd@ == slot@ && text::texts(both.0.args@) == seq![
            "update-ref"@,
            "refs/heads/"@ + name@,
            "HEAD"@,
        ],
        both.1.cwd@ == slot@ && text::texts(both.1.args@) == seq![
            "symbolic-ref"@,
            "-m"@,
            "worktree-pool acquire"@,
            "HEAD"@,
            "refs/heads/"@ + name@,
        ],
        detached.cwd@ == slot@ && text::texts(detached.args@) == seq![
            "update-ref"@,
            "--no-deref"@,
            "HEAD"@,
            name@,
        ],
        deleted.cwd@ == slot@ && text::texts(deleted.args@) == seq!["branch"@, "-D"@, name@],
        pushed.cwd@ == slot@ && text::texts(pushed.args@) == seq![
            "push"@,
            remote@,
            "--delete"@,
            name@,
        ],
{
}

/// The commands of the listings.
pub proof fn listing_commands_run(
    path: &str,
    base: &str,
    status: GitCommand,
    ahead: GitCommand,
    brief: GitCommand,
    log: GitCommand,
)
    requires
        call_ensures(dashboard::status_query, (path,), status),
        call_ensures(dashboard::ahead_query, (path,), ahead),
        call_ensures(dashboard::brief_status, (path,), brief),
        call_ensures(dashboard::work_log, (path, base), log),
    ensures
        status.cwd@ == path@ && text::texts(status.args@) == seq!["status"@, "--porcelain"@],
        ahead.cwd@ == path@ && text::texts(ahead.args@) == seq![
            "rev-list"@,
            "--count"@,
            "HEAD"@,
            "^refs/heads/main"@,
        ],
        brief.cwd@ == path@ && text::texts(brief.args@) == seq!["status"@, "-sb"@],
        log.cwd@ == path@ && text::texts(log.args@) == seq![
            "log"@,
            "--oneline"@,
            "-20"@,
            base@ + "..HEAD"@,
        ],
{
}

/// What git's answers mean: the resolved commit, the branch that is shown, and whether a
/// `HEAD` holds a slot.
pub proof fn answers_mean(
    source: &str,
    commitish: &str,
    reply: &GitReply,
    sha: Result<String, Error>,
    branch: Option<String>,
    head: Option<&str>,
    held: bool,
)
    requires
        call_ensures(git::resolved_sha, (source, commitish, reply), sha),
        call_ensures(git::current_branch, (reply,), branch),
        call_ensures(git::is_held, (head,), held),
    ensures
        *reply matches GitReply::Finished(o) ==> o.success ==> (sha matches Ok(t) && t@
            == text::trimmed(o.stdout@)) && (branch matches Some(b) && b@ == text::trimmed(
            o.stdout@,
        )),
        *reply matches GitReply::Finished(o) ==> !o.success ==> sha is Err && branch is None,
        *reply is NotStarted ==> sha is Err && branch is None,
        held <==> slots::shows_held(text::opt_slice(head)),
{
    slots::the_head_tells_held(text::opt_slice(head));
}

/// Where a git directory is: what git printed, below the directory it was asked about, or what
/// the link file names.
pub proof fn git_directories_are(
    dir: &str,
    reply: &GitReply,
    found: Result<String, Error>,
    link: Option<&str>,
    target: Option<String>,
    p: Seq<char>,
)
    requires
        call_ensures(git::gitdir_found, (dir, reply), found),
        call_ensures(git::worktree_gitdir, (dir, link), target),
        dir@.len() > 0,
        dir@.last() != '/',
    ensures
        *reply matches GitReply::Finished(o) ==> o.success && text::trimmed(o.stdout@).len() > 0
            ==> (found matches Ok(t) && t@ == (if text::trimmed(o.stdout@)[0] == '/' {
            text::trimmed(o.stdout@)
        } else {
            dir@ + seq!['/'] + text::trimmed(o.stdout@)
        })),
        *reply matches GitReply::Finished(o) ==> !o.success ==> found is Err,
        link is None ==> target is None,
        link matches Some(t) ==> (t@ == "gitdir: "@ + p && text::trimmed(p).len() > 0
            && text::trimmed(p)[0] == '/' ==> (target matches Some(d) && d@ == text::trimmed(p))),
{
    if let GitReply::Finished(o) = *reply {
        if o.success && text::trimmed(o.stdout@).len() > 0 {
            git_laws::git_directories_are_found_below(dir@, *reply);
        }
    }
    git_laws::links_name_the_git_directory(dir@, text::opt_slice(link), p);
}

/// A hook is fired in its slot with its variables, and counts as good where it ended well.
pub proof fn a_hook_is_fired(
    hook: &str,
    slot: &str,
    key: &str,
    lease: &str,
    fresh: bool,
    c: HookCommand,
    reply: &HookReply,
    r: Result<(), Error>,
)
    requires
        call_ensures(hooks::fire, (hook, slot, key, lease, fresh), c),
        call_ensures(hooks::fired, (hook, slot, reply), r),
    ensures
        c.cwd@ == slot@,
        c.env@.len() == 6,
        c.env@[1].0@ == "WT_KEY"@ && c.env@[1].1@ == key@,
        c.env@[2].0@ == "WT_NAME"@ && c.env@[2].1@ == lease@,
        c.env@[3].0@ == "WT_LEASE"@ && c.env@[3].1@ == lease@,
        c.env@[4].0@ == "WT_PATH"@ && c.env@[4].1@ == slot@,
        c.env@[5].0@ == "WT_FRESH"@ && c.env@[5].1@ == (if fresh {
            "1"@
        } else {
            "0"@
        }),
        r is Ok <==> (*reply matches HookReply::Ended(ok, _) && ok),
{
    crate::laws::hooks::a_hook_sees_its_slot(c, hook@, slot@, key@, lease@, fresh);
}

} // verus!
