//! Laws of the steps of the submodules' runs.
use crate::effect::{Action, Reply, Turn};
use crate::error::Error;
use crate::fs_paths;
use crate::git::{GitOutput, GitReply};
use crate::submodules;
use crate::submodules::{
    delete_moves, forget_moves, sweep_moves, update_moves, worker_moves, DeleteBranches, DeletePhase,
    Forget, ForgetPhase, SubmoduleEntry, SubmoduleView, Sweep, SweepPhase, Update, UpdatePhase, Worker,
    WorkerPhase,
};
use crate::text;
use vstd::prelude::*;

verus! {

/// git succeeded.
pub open spec fn succeeded(r: GitReply) -> bool {
    r matches GitReply::Finished(o) && o.success
}

// ---------------------------------------------------------------------------
// Sweeping
// ---------------------------------------------------------------------------

/// A sweep goes through the untracked directories that git lists, one after the other: it
/// looks first whether each holds a `.git`. Where git lists none, the sweep is over.
pub proof fn a_sweep_looks_into_untracked_directories(
    pre: Sweep,
    o: GitOutput,
    post: Sweep,
    turn: Turn,
)
    requires
        pre.phase is Listing,
        o.success,
        sweep_moves(pre, Reply::Git(GitReply::Finished(o)), post, turn),
    ensures
        ({
            let dirs = text::pieces(o.stdout@, '\0').filter(
                |p: Seq<char>| p.len() > 0 && p.last() == '/',
            ).map_values(|p: Seq<char>| p.drop_last());
            &&& dirs.len() == 0 ==> (turn.action matches Action::Finish(Ok(None)))
            &&& dirs.len() > 0 ==> {
                &&& post.phase matches SweepPhase::Looking(paths, at)
                &&& text::texts(paths@) == dirs
                &&& at == 0
                &&& turn.action matches Action::Exists(p)
                &&& p@ == fs_paths::path_in(fs_paths::path_in(pre.dir@, dirs[0]), ".git"@)
            }
        }),
{
    crate::laws::gitmodules::stranded_paths_end_in_a_separator(text::pieces(o.stdout@, '\0'));
    let paths = choose|paths: Vec<String>|
        text::texts(paths@) == submodules::stranded(text::pieces(o.stdout@, '\0'))
            && #[trigger] submodules::looks_at(pre.dir@, paths, 0, post.phase, turn);
    assert(text::texts(paths@).len() == paths@.len());
    if paths@.len() > 0 {
        assert(text::texts(paths@)[0] == paths@[0]@);
    }
}

/// A directory that holds a `.git` is removed, and told; another is left alone.
pub proof fn a_sweep_removes_what_holds_a_git(
    pre: Sweep,
    paths: Vec<String>,
    at: usize,
    there: bool,
    post: Sweep,
    turn: Turn,
    done: Sweep,
    next: Turn,
)
    requires
        pre.phase == SweepPhase::Looking(paths, at),
        at < paths@.len(),
        sweep_moves(pre, Reply::Exists(there), post, turn),
    ensures
        there ==> (turn.action matches Action::RemoveDir(p) && p@ == fs_paths::path_in(
            pre.dir@,
            paths@[at as int]@,
        )),
        !there ==> !(turn.action is RemoveDir),
        there && sweep_moves(post, Reply::Done, done, next) ==> text::texts(next.notes@) == seq![
            "swept stranded git working dir "@ + fs_paths::path_in(pre.dir@, paths@[at as int]@),
        ],
        !there && at + 1 < paths@.len() ==> (turn.action matches Action::Exists(p) && p@
            == fs_paths::path_in(
            fs_paths::path_in(pre.dir@, paths@[at + 1]@),
            ".git"@,
        )),
        !there && at + 1 >= paths@.len() ==> (turn.action matches Action::Finish(Ok(None))),
{
}

// ---------------------------------------------------------------------------
// Updating a level
// ---------------------------------------------------------------------------

/// A checkout without `.gitmodules` has nothing to update; one with it is read.
pub proof fn an_update_reads_what_is_declared(
    pre: Update,
    there: bool,
    post: Update,
    turn: Turn,
)
    requires
        pre.phase is Looking,
        update_moves(pre, Reply::Exists(there), post, turn),
    ensures
        !there ==> (turn.action matches Action::Finish(Ok(None))),
        there ==> (turn.action matches Action::Git(g) && g.cwd@ == pre.dir@ && g@.args == seq![
            "config"@,
            "--file"@,
            fs_paths::path_in(pre.dir@, ".gitmodules"@),
            "--list"@,
        ]),
{
}

/// The submodules that are declared are parted into those to skip and those to keep, each in
/// the order of their paths. Where some are kept, the source's git directory is asked for at
/// the top; where none is, those to skip are taken away at once.
pub proof fn declared_submodules_are_parted(
    pre: Update,
    o: GitOutput,
    post: Update,
    turn: Turn,
)
    requires
        pre.phase is Reading,
        o.success,
        pre.scope@.len() == 0,
        update_moves(pre, Reply::Git(GitReply::Finished(o)), post, turn),
    ensures
        exists|entries: Seq<SubmoduleView>| #[trigger]
            submodules::lists_declared(entries, text::trimmed(o.stdout@)) && ({
                let tags = text::texts(pre.task.exclude_tags@);
                let out = entries.filter(
                    |e: SubmoduleView|
                        exists|i: int| 0 <= i < e.tags.len() && tags.contains(#[trigger] e.tags[i]),
                );
                let stay = entries.filter(
                    |e: SubmoduleView|
                        forall|i: int|
                            0 <= i < e.tags.len() ==> !tags.contains(#[trigger] e.tags[i]),
                );
                &&& stay.len() > 0 ==> {
                    &&& post.phase matches UpdatePhase::Locating(skip, keep)
                    &&& submodules::module_views(skip@) == out
                    &&& submodules::module_views(keep@) == stay
                    &&& turn.action matches Action::Git(g)
                    &&& g.cwd@ == pre.task.cfg.source@
                    &&& g@.args == seq!["rev-parse"@, "--git-dir"@]
                }
                &&& stay.len() == 0 && out.len() > 0 ==> (turn.action matches Action::Git(g)
                    && g.cwd@ == pre.dir@ && g@.args == seq![
                    "submodule"@,
                    "deinit"@,
                    "-f"@,
                    out[0].path,
                ])
                &&& stay.len() == 0 && out.len() == 0 ==> (turn.action matches Action::Finish(
                    Ok(None),
                ))
            }),
{
    let raw = text::trimmed(o.stdout@);
    let u = submodules::place(pre);
    let (skip, keep) = choose|skip: Vec<SubmoduleEntry>, keep: Vec<SubmoduleEntry>| #[trigger]
        submodules::parts_declared(u, raw, skip, keep) && submodules::sorts(
            u,
            skip,
            keep,
            post.phase,
            turn,
        );
    let entries = choose|entries: Seq<SubmoduleView>| #[trigger]
        submodules::lists_declared(entries, raw) && submodules::module_views(skip@)
            == submodules::those(entries, u.tags, u.scope, true) && submodules::module_views(keep@)
            == submodules::those(entries, u.tags, u.scope, false);
    crate::laws::gitmodules::tagged_submodules_are_skipped_at_the_top(entries, u.tags, u.scope);
    let tags = u.tags;
    let scope = u.scope;
    assert((|e: SubmoduleView|
        scope.len() == 0 && exists|i: int|
            0 <= i < e.tags.len() && tags.contains(#[trigger] e.tags[i])) =~= (|e: SubmoduleView|
        exists|i: int| 0 <= i < e.tags.len() && tags.contains(#[trigger] e.tags[i])));
    assert((|e: SubmoduleView|
        scope.len() > 0 || forall|i: int|
            0 <= i < e.tags.len() ==> !tags.contains(#[trigger] e.tags[i])) =~= (|e: SubmoduleView|
        forall|i: int| 0 <= i < e.tags.len() ==> !tags.contains(#[trigger] e.tags[i])));
    assert(submodules::module_views(skip@).len() == skip@.len());
    assert(submodules::module_views(keep@).len() == keep@.len());
    if skip@.len() > 0 {
        assert(submodules::module_views(skip@)[0] == skip@[0]@);
    }
    assert(submodules::lists_declared(entries, raw));
}

/// The source's config mutex lies in the source's git directory.
pub proof fn urls_are_locked_in_the_source(
    pre: Update,
    o: GitOutput,
    post: Update,
    turn: Turn,
)
    requires
        pre.phase is Locating,
        o.success,
        update_moves(pre, Reply::Git(GitReply::Finished(o)), post, turn),
    ensures
        turn.action matches Action::TakeLock(p) && p@ == fs_paths::path_in(
            fs_paths::path_in(pre.task.cfg.source@, text::trimmed(o.stdout@)),
            "worktree-pool-config.lock"@,
        ),
{
}

/// The URL that is registered for a submodule is that of its mirror, under its name; one
/// without a mirror ends the update. The URLs are registered in order.
pub proof fn mirrors_are_registered(
    pre: Update,
    skip: Vec<SubmoduleEntry>,
    keep: Vec<SubmoduleEntry>,
    at: usize,
    o: GitOutput,
    post: Update,
    turn: Turn,
)
    requires
        pre.phase == UpdatePhase::Writing(skip, keep, at),
        at + 1 < keep@.len(),
        o.success,
        submodules::mirror_url(
            pre.task.cfg@,
            keep@[at as int].name@,
            keep@[at as int].url@,
            pre.scope@,
        ) is Some,
        update_moves(pre, Reply::Git(GitReply::Finished(o)), post, turn),
    ensures
        ({
            let e = keep@[at + 1];
            match submodules::mirror_url(pre.task.cfg@, e.name@, e.url@, pre.scope@) {
                Some(url) => turn.action matches Action::Git(g) && g.cwd@ == pre.dir@ && g@.args
                    == seq!["config"@, "submodule."@ + e.name@ + ".url"@, url],
                None => turn.action matches Action::Finish(Err(_)),
            }
        }),
{
}

/// The first URL is registered under the source's mutex, or at once below the top.
pub proof fn the_first_mirror_is_registered(
    pre: Update,
    skip: Vec<SubmoduleEntry>,
    keep: Vec<SubmoduleEntry>,
    post: Update,
    turn: Turn,
)
    requires
        pre.phase == UpdatePhase::Locking(skip, keep),
        keep@.len() > 0,
        update_moves(pre, Reply::Taken(Ok(())), post, turn),
    ensures
        ({
            let e = keep@[0];
            match submodules::mirror_url(pre.task.cfg@, e.name@, e.url@, pre.scope@) {
                Some(url) => turn.action matches Action::Git(g) && g.cwd@ == pre.dir@ && g@.args
                    == seq!["config"@, "submodule."@ + e.name@ + ".url"@, url],
                None => turn.action matches Action::Finish(Err(_)),
            }
        }),
{
}

/// Once every URL is registered the kept submodules are updated, all of them: at the top the
/// mutex goes first.
pub proof fn every_kept_submodule_is_updated(
    pre: Update,
    skip: Vec<SubmoduleEntry>,
    keep: Vec<SubmoduleEntry>,
    at: usize,
    o: GitOutput,
    mid: Update,
    turn: Turn,
    post: Update,
    next: Turn,
)
    requires
        pre.phase == UpdatePhase::Writing(skip, keep, at),
        at + 1 == keep@.len(),
        o.success,
        submodules::mirror_url(
            pre.task.cfg@,
            keep@[at as int].name@,
            keep@[at as int].url@,
            pre.scope@,
        ) is Some,
        update_moves(pre, Reply::Git(GitReply::Finished(o)), mid, turn),
    ensures
        pre.scope@.len() > 0 ==> turn.action == Action::UpdateEach(keep),
        pre.scope@.len() == 0 ==> turn.action is DropLock && (update_moves(
            mid,
            Reply::Done,
            post,
            next,
        ) ==> next.action == Action::UpdateEach(keep)),
{
}

/// Where every submodule was updated the skipped ones are taken away; the first failure is
/// the update's, and the others are told.
pub proof fn one_failure_fails_the_update(
    pre: Update,
    skip: Vec<SubmoduleEntry>,
    n: usize,
    results: Vec<Result<(), Error>>,
    i: int,
    post: Update,
    turn: Turn,
)
    requires
        pre.phase == UpdatePhase::Working(skip, n),
        results@.len() == n,
        update_moves(pre, Reply::Worked(results), post, turn),
    ensures
        0 <= i < n && results@[i] is Err && (forall|j: int| 0 <= j < i ==> results@[j] is Ok) ==> (
        turn.action matches Action::Finish(Err(e)) && e.kind == results@[i]->Err_0.kind
            && e.message@ == results@[i]->Err_0.message@),
        (forall|j: int| 0 <= j < n ==> results@[j] is Ok) && skip@.len() > 0 ==> (
        turn.action matches Action::Git(g) && g.cwd@ == pre.dir@ && g@.args == seq![
            "submodule"@,
            "deinit"@,
            "-f"@,
            skip@[0].path@,
        ]),
        (forall|j: int| 0 <= j < n ==> results@[j] is Ok) && skip@.len() == 0
            ==> (turn.action matches Action::Finish(Ok(None))),
{
    let (verdict, told) = choose|verdict: Result<(), Error>, told: Seq<Seq<char>>| #[trigger]
        crate::parallel::comes_to(results@, verdict, told) && match verdict {
            Err(e) => post.phase is Over && crate::effect::says(turn, told) && crate::effect::fails(
                turn,
                e.kind,
                e.message@,
            ),
            Ok(_) => submodules::deinits(pre.dir@, skip, 0, post.phase, turn),
        };
    crate::laws::parallel::the_first_failure_is_the_verdict(results@, verdict, told, i);
}

/// A skipped submodule is taken out of git and off the disk, whether or not git could; then
/// the next one.
pub proof fn skipped_submodules_are_removed(
    pre: Update,
    skip: Vec<SubmoduleEntry>,
    at: usize,
    r: GitReply,
    post: Update,
    turn: Turn,
    done: Update,
    next: Turn,
)
    requires
        pre.phase == UpdatePhase::Deiniting(skip, at),
        at < skip@.len(),
        r is Finished,
        update_moves(pre, Reply::Git(r), post, turn),
        update_moves(post, Reply::Done, done, next),
    ensures
        turn.action matches Action::RemoveDir(p) && p@ == fs_paths::path_in(
            pre.dir@,
            skip@[at as int].path@,
        ),
        at + 1 < skip@.len() ==> (next.action matches Action::Git(g) && g.cwd@ == pre.dir@ && g@.args
            == seq!["submodule"@, "deinit"@, "-f"@, skip@[at + 1].path@]),
        at + 1 >= skip@.len() ==> (next.action matches Action::Finish(Ok(None))),
        succeeded(r) <==> turn.notes@.len() == 0,
        r matches GitReply::Finished(o) ==> !o.success ==> text::texts(turn.notes@) == seq![
            "warn: submodule deinit -f "@ + skip@[at as int].path@ + " failed: "@ + text::trimmed(
                o.stderr@,
            ),
        ],
{
    assert(text::texts(turn.notes@).len() == turn.notes@.len());
}

// ---------------------------------------------------------------------------
// Updating one submodule
// ---------------------------------------------------------------------------

/// A submodule that was fetched gets the branch of the run, in its own checkout, and its
/// `HEAD` is put there; then it is swept. A command that fails ends its update.
pub proof fn a_fetched_submodule_gets_the_branch(
    pre: Worker,
    r: GitReply,
    post: Worker,
    turn: Turn,
)
    requires
        worker_moves(pre, Reply::Git(r), post, turn),
    ensures
        ({
            let sub = fs_paths::path_in(pre.dir@, pre.entry.path@);
            let head = "refs/heads/"@ + pre.task.branch@;
            &&& !succeeded(r) ==> (turn.action matches Action::Finish(Err(_)))
            &&& pre.phase is Fetching && succeeded(r) ==> (turn.action matches Action::Git(g)
                && g.cwd@ == sub && g@.args == seq!["update-ref"@, head, "HEAD"@])
            &&& pre.phase is Branching && succeeded(r) ==> (turn.action matches Action::Git(g)
                && g.cwd@ == sub && g@.args == seq![
                "symbolic-ref"@,
                "-m"@,
                "worktree-pool acquire"@,
                "HEAD"@,
                head,
            ])
            &&& pre.phase is Attaching && succeeded(r) ==> (turn.action matches Action::Sweep(p)
                && p@ == sub)
        }),
{
}

/// A swept submodule that has `.gitmodules` of its own is updated in turn, below its name.
pub proof fn nested_submodules_are_updated_too(
    pre: Worker,
    reply: Reply,
    post: Worker,
    turn: Turn,
)
    requires
        worker_moves(pre, reply, post, turn),
    ensures
        ({
            let sub = fs_paths::path_in(pre.dir@, pre.entry.path@);
            &&& pre.phase is Sweeping && reply == Reply::Ended(Ok(())) ==> (
            turn.action matches Action::Exists(p) && p@ == fs_paths::path_in(sub, ".gitmodules"@))
            &&& pre.phase is Looking && reply == Reply::Exists(true) ==> (
            turn.action matches Action::Update(p, scope) && p@ == sub && (pre.scope@.len() == 0
                ==> scope@ == pre.entry.name@ + "/modules"@) && (pre.scope@.len() > 0 ==> scope@
                == pre.scope@ + "/"@ + pre.entry.name@ + "/modules"@))
            &&& pre.phase is Looking && reply == Reply::Exists(false)
                ==> (turn.action matches Action::Finish(Ok(None)))
            &&& pre.phase is Nested && reply == Reply::Ended(Ok(()))
                ==> (turn.action matches Action::Finish(Ok(None)))
            &&& (pre.phase is Sweeping || pre.phase is Nested) && (reply matches Reply::Ended(Err(e))
                && true) ==> (turn.action matches Action::Finish(Err(f)) && f.kind
                == reply->Ended_0->Err_0.kind && f.message@ == reply->Ended_0->Err_0.message@)
        }),
{
}

// ---------------------------------------------------------------------------
// Deleting the branch
// ---------------------------------------------------------------------------

/// A submodule's `HEAD` is detached at its own commit before the branch goes; what cannot be
/// asked for or detached does not keep the branch from going.
pub proof fn a_submodule_is_detached_and_its_branch_goes(
    pre: Forget,
    r: GitReply,
    post: Forget,
    turn: Turn,
)
    requires
        forget_moves(pre, Reply::Git(r), post, turn),
    ensures
        pre.phase is Finding ==> (r matches GitReply::Finished(o) ==> o.success ==> (
        turn.action matches Action::Git(g) && g.cwd@ == pre.path@ && g@.args == seq![
            "update-ref"@,
            "--no-deref"@,
            "HEAD"@,
            text::trimmed(o.stdout@),
        ])),
        (pre.phase is Finding && !succeeded(r)) || pre.phase is Detaching ==> (
        turn.action matches Action::Git(g) && g.cwd@ == pre.path@ && g@.args == seq![
            "branch"@,
            "-D"@,
            pre.branch@,
        ]),
        pre.phase is Deleting ==> (turn.action matches Action::Finish(Ok(None))),
{
}

/// The branch is deleted in every declared submodule, and after that in those nested in each:
/// where one has `.gitmodules` of its own.
pub proof fn the_branch_goes_in_every_submodule(
    pre: DeleteBranches,
    o: GitOutput,
    post: DeleteBranches,
    turn: Turn,
)
    requires
        pre.phase is Reading,
        o.success,
        delete_moves(pre, Reply::Git(GitReply::Finished(o)), post, turn),
    ensures
        ({
            let declared = submodules::declared(text::trimmed(o.stdout@));
            &&& declared.len() == 0 ==> (turn.action matches Action::Finish(Ok(None)))
            &&& declared.len() > 0 ==> {
                &&& turn.action matches Action::DetachEach(entries)
                &&& submodules::module_views(entries@).to_multiset() == declared.to_multiset()
                &&& post.phase matches DeletePhase::Detaching(children)
                &&& children@.len() == entries@.len()
                &&& forall|i: int|
                    0 <= i < children@.len() ==> (#[trigger] children@[i])@ == fs_paths::path_in(
                        pre.dir@,
                        entries@[i].path@,
                    )
            }
        }),
{
    let declared = submodules::declared(text::trimmed(o.stdout@));
    if declared.len() > 0 {
        let entries = turn.action->DetachEach_0;
        let children = post.phase->Detaching_0;
        let views = submodules::module_views(entries@);
        let paths = submodules::checkouts(pre.dir@, views);
        assert(text::texts(children@).len() == children@.len());
        assert(paths.len() == entries@.len());
        assert forall|i: int| 0 <= i < children@.len() implies (#[trigger] children@[i])@
            == fs_paths::path_in(pre.dir@, entries@[i].path@) by {
            assert(text::texts(children@)[i] == paths[i]);
            assert(views[i] == entries@[i]@);
        }
    }
}

/// Each checkout is looked into, in order, and the branch is deleted below it where it
/// declares submodules.
pub proof fn deletion_goes_down(
    pre: DeleteBranches,
    children: Vec<String>,
    at: usize,
    there: bool,
    post: DeleteBranches,
    turn: Turn,
)
    requires
        pre.phase == DeletePhase::Checking(children, at),
        at < children@.len(),
        delete_moves(pre, Reply::Exists(there), post, turn),
    ensures
        there ==> (turn.action matches Action::DeleteBranches(p, b) && p@ == children@[at as int]@
            && b@ == pre.branch@),
        !there && at + 1 < children@.len() ==> (turn.action matches Action::Exists(p) && p@
            == fs_paths::path_in(children@[at + 1]@, ".gitmodules"@)),
        !there && at + 1 >= children@.len() ==> (turn.action matches Action::Finish(Ok(None))),
{
}

/// After a checkout, or the descent below it, comes the next.
pub proof fn deletion_goes_on(
    pre: DeleteBranches,
    children: Vec<String>,
    at: usize,
    post: DeleteBranches,
    turn: Turn,
)
    requires
        pre.phase == DeletePhase::Detaching(children) && at == 0 || (at > 0 && pre.phase
            == DeletePhase::Descending(children, (at - 1) as usize)),
        delete_moves(pre, Reply::Done, post, turn),
    ensures
        at < children@.len() ==> (turn.action matches Action::Exists(p) && p@ == fs_paths::path_in(
            children@[at as int]@,
            ".gitmodules"@,
        )),
        at >= children@.len() ==> (turn.action matches Action::Finish(Ok(None))),
{
}

// ---------------------------------------------------------------------------
// Failures
// ---------------------------------------------------------------------------

/// A level's update that cannot go on tells what it was doing and why.
pub proof fn a_failed_update_tells_why(pre: Update, reply: Reply, post: Update, turn: Turn)
    requires
        update_moves(pre, reply, post, turn),
    ensures
        pre.phase is Reading ==> (reply matches Reply::Git(GitReply::Finished(o)) ==> !o.success ==> (
        turn.action matches Action::Finish(Err(e)) && e.kind is None && begins_with(
            e.message@,
            "reading "@ + fs_paths::path_in(pre.dir@, ".gitmodules"@) + ": "@,
        ))),
        pre.phase is Locating ==> (reply matches Reply::Git(GitReply::Finished(o)) ==> !o.success
            ==> (turn.action matches Action::Finish(Err(e)) && e.kind is None && begins_with(
            e.message@,
            "resolving source gitdir for per-source config mutex"@ + ": "@,
        ))),
        pre.phase is Locking ==> (reply matches Reply::Taken(Err(e)) ==> (
        turn.action matches Action::Finish(Err(f)) && f.kind == e.kind && f.message@
            == "acquiring per-source config mutex"@ + ": "@ + e.message@)),
{
    if let Action::Finish(Err(e)) = turn.action {
        if let Reply::Git(r) = reply {
            let file = fs_paths::path_in(pre.dir@, ".gitmodules"@);
            let list = crate::git::config_file_list_command(pre.dir@, file);
            if pre.phase is Reading && crate::git::checked(list, r) is Err {
                let m = crate::git::checked(list, r)->Err_0;
                lemma_begins("reading "@ + file + ": "@, m);
                assert(e.message@ == "reading "@ + file + ": "@ + m);
            }
            if pre.phase is Locating && crate::git::git_dir_found(pre.task.cfg@.source, r) is Err {
                let m = crate::git::git_dir_found(pre.task.cfg@.source, r)->Err_0;
                lemma_begins("resolving source gitdir for per-source config mutex"@ + ": "@, m);
            }
        }
    }
}

/// A text begins with another.
pub open spec fn begins_with(s: Seq<char>, front: Seq<char>) -> bool {
    s.len() >= front.len() && s.subrange(0, front.len() as int) == front
}

proof fn lemma_begins(front: Seq<char>, back: Seq<char>)
    ensures
        begins_with(front + back, front),
{
    assert((front + back).subrange(0, front.len() as int) =~= front);
}

/// A URL that cannot be registered is told by its submodule and checkout.
pub proof fn an_unregistered_url_is_told(
    pre: Update,
    skip: Vec<SubmoduleEntry>,
    keep: Vec<SubmoduleEntry>,
    at: usize,
    r: GitReply,
    post: Update,
    turn: Turn,
)
    requires
        pre.phase == UpdatePhase::Writing(skip, keep, at),
        at < keep@.len(),
        !succeeded(r),
        submodules::mirror_url(
            pre.task.cfg@,
            keep@[at as int].name@,
            keep@[at as int].url@,
            pre.scope@,
        ) is Some,
        update_moves(pre, Reply::Git(r), post, turn),
    ensures
        turn.action matches Action::Finish(Err(e)) && e.kind is None && begins_with(
            e.message@,
            "writing submodule."@ + keep@[at as int].name@ + ".url in "@ + pre.dir@ + ": "@,
        ),
{
    let e = keep@[at as int]@;
    let u = submodules::place(pre);
    let url = submodules::fetch_url(u.cfg, e, u.scope)->Ok_0;
    let m = crate::git::checked(submodules::register_command(u.dir, e.name, url), r)->Err_0;
    lemma_begins("writing submodule."@ + e.name + ".url in "@ + pre.dir@ + ": "@, m);
}

/// A submodule whose update fails tells which command failed, and where.
pub proof fn a_failed_submodule_tells_why(pre: Worker, r: GitReply, post: Worker, turn: Turn)
    requires
        worker_moves(pre, Reply::Git(r), post, turn),
        !succeeded(r),
        pre.phase is Fetching || pre.phase is Branching || pre.phase is Attaching,
    ensures
        turn.action matches Action::Finish(Err(e)) && e.kind is None && begins_with(
            e.message@,
            if pre.phase is Fetching {
                "submodule update "@ + pre.entry.path@ + " in "@ + pre.dir@ + ": "@
            } else {
                "creating branch '"@ + pre.task.branch@ + "' in submodule "@ + fs_paths::path_in(
                    pre.dir@,
                    pre.entry.path@,
                ) + ": "@
            },
        ),
{
    let sub = submodules::checkout_of(pre);
    let branch = pre.task.branch@;
    if pre.phase is Fetching {
        let m = crate::git::checked(
            submodules::fetch_command(pre.dir@, pre.entry@.path),
            r,
        )->Err_0;
        lemma_begins("submodule update "@ + pre.entry.path@ + " in "@ + pre.dir@ + ": "@, m);
    } else if pre.phase is Branching {
        let m = crate::git::checked(crate::git::branch_at_head_command(sub, branch), r)->Err_0;
        lemma_begins(submodules::branching(pre) + ": "@, m);
    } else {
        let m = crate::git::checked(crate::git::attach_head_command(sub, branch), r)->Err_0;
        lemma_begins(submodules::branching(pre) + ": "@, m);
    }
}

/// A listing that git refuses ends a sweep with a failure, and a deletion well: deleting is
/// tidying.
pub proof fn a_refused_listing(
    s: Sweep,
    d: DeleteBranches,
    r: GitReply,
    s2: Sweep,
    st: Turn,
    d2: DeleteBranches,
    dt: Turn,
)
    requires
        !succeeded(r),
        s.phase is Listing,
        sweep_moves(s, Reply::Git(r), s2, st),
        d.phase is Reading,
        delete_moves(d, Reply::Git(r), d2, dt),
    ensures
        st.action matches Action::Finish(Err(e)) && e.kind is None,
        dt.action matches Action::Finish(Ok(None)),
{
}

/// A deletion reads the declared submodules where there are any, and is over where not.
pub proof fn a_deletion_reads_what_is_declared(
    pre: DeleteBranches,
    there: bool,
    post: DeleteBranches,
    turn: Turn,
)
    requires
        pre.phase is Looking,
        delete_moves(pre, Reply::Exists(there), post, turn),
    ensures
        !there ==> (turn.action matches Action::Finish(Ok(None))),
        there ==> (turn.action matches Action::Git(g) && g.cwd@ == pre.dir@ && g@.args == seq![
            "config"@,
            "--file"@,
            fs_paths::path_in(pre.dir@, ".gitmodules"@),
            "--list"@,
        ]),
{
}

/// Below the top no mutex is taken: the first URL is registered at once, or the update is over
/// where nothing is declared.
pub proof fn nested_levels_take_no_mutex(
    pre: Update,
    o: GitOutput,
    post: Update,
    turn: Turn,
)
    requires
        pre.phase is Reading,
        o.success,
        pre.scope@.len() > 0,
        update_moves(pre, Reply::Git(GitReply::Finished(o)), post, turn),
    ensures
        exists|entries: Seq<SubmoduleView>| #[trigger]
            submodules::lists_declared(entries, text::trimmed(o.stdout@)) && (entries.len() == 0
                ==> (turn.action matches Action::Finish(Ok(None)))) && (entries.len() > 0 ==> (
            match submodules::mirror_url(
                pre.task.cfg@,
                entries[0].name,
                entries[0].url,
                pre.scope@,
            ) {
                Some(url) => turn.action matches Action::Git(g) && g.cwd@ == pre.dir@ && g@.args
                    == seq!["config"@, "submodule."@ + entries[0].name + ".url"@, url],
                None => turn.action matches Action::Finish(Err(_)),
            })),
{
    let raw = text::trimmed(o.stdout@);
    let u = submodules::place(pre);
    let (skip, keep) = choose|skip: Vec<SubmoduleEntry>, keep: Vec<SubmoduleEntry>| #[trigger]
        submodules::parts_declared(u, raw, skip, keep) && submodules::sorts(
            u,
            skip,
            keep,
            post.phase,
            turn,
        );
    let entries = choose|entries: Seq<SubmoduleView>| #[trigger]
        submodules::lists_declared(entries, raw) && submodules::module_views(skip@)
            == submodules::those(entries, u.tags, u.scope, true) && submodules::module_views(keep@)
            == submodules::those(entries, u.tags, u.scope, false);
    lemma_all_stay(entries, u.tags, u.scope);
    assert(submodules::module_views(skip@).len() == skip@.len());
    assert(submodules::module_views(keep@).len() == keep@.len());
    if keep@.len() > 0 {
        assert(submodules::module_views(keep@)[0] == keep@[0]@);
    }
    assert(submodules::lists_declared(entries, raw));
}

proof fn lemma_all_stay(entries: Seq<SubmoduleView>, tags: Seq<Seq<char>>, scope: Seq<char>)
    requires
        scope.len() > 0,
    ensures
        submodules::those(entries, tags, scope, false) == entries,
        submodules::those(entries, tags, scope, true).len() == 0,
    decreases entries.len(),
{
    if entries.len() > 0 {
        lemma_all_stay(entries.drop_last(), tags, scope);
        assert(submodules::those(entries, tags, scope, false) =~= entries);
    } else {
        assert(submodules::those(entries, tags, scope, false) =~= entries);
    }
}

// ---------------------------------------------------------------------------
// Stages
// ---------------------------------------------------------------------------

/// A level's update keeps its task and place, and goes from stage to stage with the same
/// submodules to skip and to keep.
pub proof fn an_update_goes_from_stage_to_stage(
    pre: Update,
    reply: Reply,
    post: Update,
    turn: Turn,
)
    requires
        update_moves(pre, reply, post, turn),
    ensures
        post.task == pre.task && post.dir == pre.dir && post.scope == pre.scope,
        post.phase is Over <==> turn.action is Finish,
        post.phase is Over || match pre.phase {
            UpdatePhase::Looking => post.phase is Reading,
            UpdatePhase::Reading => {
                ||| post.phase is Locating && pre.scope@.len() == 0
                ||| post.phase is Writing && pre.scope@.len() > 0
                ||| post.phase is Deiniting
            },
            UpdatePhase::Locating(skip, keep) => post.phase == UpdatePhase::Locking(skip, keep),
            UpdatePhase::Locking(skip, keep) => {
                ||| (post.phase matches UpdatePhase::Writing(s, k, at) && s == skip && k == keep && at
                    == 0)
                ||| (post.phase matches UpdatePhase::Deiniting(s, at) && s == skip && at == 0
                    && keep@.len() == 0)
            },
            UpdatePhase::Writing(skip, keep, at) => {
                ||| (post.phase matches UpdatePhase::Writing(s, k, i) && s == skip && k == keep && i
                    == at + 1)
                ||| (post.phase == UpdatePhase::Unlocking(skip, keep) && pre.scope@.len() == 0 && at
                    + 1 == keep@.len())
                ||| (post.phase matches UpdatePhase::Working(s, n) && s == skip && n == keep@.len()
                    && pre.scope@.len() > 0 && at + 1 == keep@.len())
            },
            UpdatePhase::Unlocking(skip, keep) => post.phase matches UpdatePhase::Working(s, n) && s
                == skip && n == keep@.len(),
            UpdatePhase::Working(skip, _) => post.phase matches UpdatePhase::Deiniting(s, at) && s
                == skip && at == 0,
            UpdatePhase::Deiniting(skip, at) => post.phase == UpdatePhase::Removing(skip, at),
            UpdatePhase::Removing(skip, at) => post.phase matches UpdatePhase::Deiniting(s, i) && s
                == skip && i == at + 1,
            UpdatePhase::Over => false,
        },
{
}

/// So does the update of one submodule.
pub proof fn a_worker_goes_from_stage_to_stage(pre: Worker, reply: Reply, post: Worker, turn: Turn)
    requires
        worker_moves(pre, reply, post, turn),
    ensures
        post.task == pre.task && post.dir == pre.dir && post.scope == pre.scope && post.entry
            == pre.entry,
        turn.notes@.len() == 0,
        post.phase is Over <==> turn.action is Finish,
        post.phase is Over || match pre.phase {
            WorkerPhase::Fetching => post.phase is Branching,
            WorkerPhase::Branching => post.phase is Attaching,
            WorkerPhase::Attaching => post.phase is Sweeping,
            WorkerPhase::Sweeping => post.phase is Looking,
            WorkerPhase::Looking => post.phase is Nested,
            WorkerPhase::Nested => false,
            WorkerPhase::Over => false,
        },
{
}

/// So do a sweep and the deletion of a branch, in one submodule and in all.
pub proof fn tidying_goes_from_stage_to_stage(
    reply: Reply,
    s: Sweep,
    s2: Sweep,
    st: Turn,
    f: Forget,
    f2: Forget,
    ft: Turn,
    d: DeleteBranches,
    d2: DeleteBranches,
    dt: Turn,
)
    requires
        sweep_moves(s, reply, s2, st),
        forget_moves(f, reply, f2, ft),
        delete_moves(d, reply, d2, dt),
    ensures
        s2.dir == s.dir,
        s2.phase is Over <==> st.action is Finish,
        s2.phase is Over || match s.phase {
            SweepPhase::Listing => s2.phase is Looking,
            SweepPhase::Looking(paths, at) => {
                ||| s2.phase == SweepPhase::Removing(paths, at) && reply == Reply::Exists(true)
                ||| (s2.phase matches SweepPhase::Looking(p, i) && p == paths && i == at + 1)
            },
            SweepPhase::Removing(paths, at) => s2.phase matches SweepPhase::Looking(p, i) && p
                == paths && i == at + 1,
            SweepPhase::Over => false,
        },
        f2.path == f.path && f2.branch == f.branch && ft.notes@.len() == 0,
        f2.phase is Over <==> ft.action is Finish,
        f2.phase is Over || match f.phase {
            ForgetPhase::Finding => f2.phase is Detaching || f2.phase is Deleting,
            ForgetPhase::Detaching => f2.phase is Deleting,
            ForgetPhase::Deleting => false,
            ForgetPhase::Over => false,
        },
        d2.dir == d.dir && d2.branch == d.branch && dt.notes@.len() == 0,
        d2.phase is Over <==> dt.action is Finish,
        d2.phase is Over || match d.phase {
            DeletePhase::Looking => d2.phase is Reading,
            DeletePhase::Reading => d2.phase is Detaching,
            DeletePhase::Detaching(children) => d2.phase matches DeletePhase::Checking(c, at) && c
                == children && at == 0,
            DeletePhase::Checking(children, at) => {
                ||| d2.phase == DeletePhase::Descending(children, at)
                ||| (d2.phase matches DeletePhase::Checking(c, i) && c == children && i == at + 1)
            },
            DeletePhase::Descending(children, at) => d2.phase matches DeletePhase::Checking(c, i)
                && c == children && i == at + 1,
            DeletePhase::Over => false,
        },
{
}

} // verus!
