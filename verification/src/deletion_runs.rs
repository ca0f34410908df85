//! Whole runs of the recursive deletion of a branch: which submodules they reach, and
//! what they leave of the refs.
use crate::effect;
use crate::effect::{Action, Reply, Turn};
use crate::fs_paths;
use crate::git;
use crate::nesting;
use crate::nesting::Files;
use crate::refs;
use crate::refs::{Performed, Refs};
use crate::submodules;
use crate::submodules::{DeleteBranches, DeletePhase, Forget, SubmoduleView};
use crate::text;
use vstd::prelude::*;

verus! {

// ---------------------------------------------------------------------------
// Whole runs
// ---------------------------------------------------------------------------

/// A run of the deletion in one submodule, and where its commands stand in the log.
pub struct ForgetRun {
    pub states: Seq<Forget>,
    pub turns: Seq<Turn>,
    pub replies: Seq<Reply>,
    pub at: Seq<int>,
}

/// The whole run that `forget_branch` begins.
pub open spec fn is_forgetting(
    run: ForgetRun,
    path: Seq<char>,
    branch: Seq<char>,
    log: Seq<Performed>,
) -> bool {
    &&& effect::is_whole(run.turns, run.replies)
    &&& run.states.len() == run.turns.len()
    &&& run.states[0].path@ == path
    &&& run.states[0].branch@ == branch
    &&& run.states[0].phase is Finding
    &&& effect::runs_git(run.turns[0], git::head_sha_command(path))
    &&& forall|k: int|
        0 <= k < run.replies.len() ==> submodules::forget_moves(
            #[trigger] run.states[k],
            run.replies[k],
            run.states[k + 1],
            run.turns[k + 1],
        )
    &&& refs::logged(log, run.at, run.turns, run.replies)
}

/// A run of the recursive deletion, and where its commands stand in the log; the runs in
/// the submodules, in the order in which the level names them; and for each turn that
/// descends the run that it stands for. At other turns `below` says nothing.
pub struct DeletionRun {
    pub states: Seq<DeleteBranches>,
    pub turns: Seq<Turn>,
    pub replies: Seq<Reply>,
    pub at: Seq<int>,
    pub forgets: Seq<ForgetRun>,
    pub below: Seq<DeletionRun>,
}

/// The steps of one level: the run that `delete_branch_recursive` begins.
pub open spec fn is_level(
    run: DeletionRun,
    dir: Seq<char>,
    branch: Seq<char>,
    f: Files,
    log: Seq<Performed>,
) -> bool {
    &&& effect::is_whole(run.turns, run.replies)
    &&& run.states.len() == run.turns.len()
    &&& run.below.len() == run.turns.len()
    &&& run.states[0].dir@ == dir
    &&& run.states[0].branch@ == branch
    &&& run.states[0].phase is Looking
    &&& effect::looks_for(run.turns[0], submodules::modules_file(dir))
    &&& forall|k: int|
        0 <= k < run.replies.len() ==> submodules::delete_moves(
            #[trigger] run.states[k],
            run.replies[k],
            run.states[k + 1],
            run.turns[k + 1],
        )
    &&& forall|k: int|
        0 <= k < run.replies.len() ==> nesting::tells(f, #[trigger] run.turns[k], run.replies[k])
    &&& refs::logged(log, run.at, run.turns, run.replies)
}

/// The runs in the submodules that a turn names.
pub open spec fn forgets_each(
    run: DeletionRun,
    k: int,
    dir: Seq<char>,
    branch: Seq<char>,
    log: Seq<Performed>,
) -> bool {
    run.turns[k].action matches Action::DetachEach(entries) ==> {
        &&& run.forgets.len() == entries@.len()
        &&& forall|j: int|
            0 <= j < entries@.len() ==> is_forgetting(
                #[trigger] run.forgets[j],
                fs_paths::path_in(dir, entries@[j]@.path),
                branch,
                log,
            )
    }
}

/// The whole run that `delete_branch_recursive` begins, with the runs in its submodules
/// and in those nested in them. Runs in parallel mix freely in the log.
pub open spec fn is_deletion(
    run: DeletionRun,
    dir: Seq<char>,
    branch: Seq<char>,
    f: Files,
    log: Seq<Performed>,
) -> bool
    decreases run,
{
    &&& is_level(run, dir, branch, f, log)
    &&& forall|k: int|
        0 <= k < run.turns.len() ==> #[trigger] forgets_each(run, k, dir, branch, log)
    &&& forall|k: int|
        0 <= k < run.below.len() ==> ((#[trigger] run.turns[k]).action matches Action::DeleteBranches(
            p,
            b,
        ) ==> is_deletion(run.below[k], p@, b@, f, log))
}

/// The command at an index of the log is one of the run's.
pub open spec fn made(run: DeletionRun, i: int) -> bool
    decreases run,
{
    ||| refs::is_step_at(run.turns, run.replies, run.at, i)
    ||| exists|t: int, j: int, k: int|
        0 <= t < run.turns.len() && (#[trigger] run.turns[t]).action is DetachEach && 0 <= j
            < run.forgets.len() && 0 <= k < run.forgets[j].at.len() && #[trigger] run.forgets[j].at[k]
            == i
    ||| exists|k: int|
        0 <= k < run.below.len() && (#[trigger] run.turns[k]).action is DeleteBranches && made(
            run.below[k],
            i,
        )
}

// ---------------------------------------------------------------------------
// What a run does
// ---------------------------------------------------------------------------

/// The commit of `HEAD` was asked for, and `HEAD` detached there where git named one.
pub open spec fn detached_from(log: Seq<Performed>, i: int, path: Seq<char>) -> bool {
    &&& log[i].command == git::head_sha_command(path)
    &&& git::checked(log[i].command, log[i].reply) matches Ok(sha) ==> exists|j: int|
        i < j < log.len() && (#[trigger] log[j]).command == git::detach_head_command(path, sha)
}

/// The branch is deleted from a checkout: `HEAD` was detached, and the branch deleted.
pub open spec fn forgotten(log: Seq<Performed>, path: Seq<char>, branch: Seq<char>) -> bool {
    &&& exists|i: int| 0 <= i < log.len() && #[trigger] detached_from(log, i, path)
    &&& exists|d: int|
        0 <= d < log.len() && (#[trigger] log[d]).command == git::branch_delete_command(path, branch)
}

/// What a run in one submodule is made of.
proof fn lemma_forgetting(run: ForgetRun, path: Seq<char>, branch: Seq<char>, log: Seq<Performed>)
    requires
        is_forgetting(run, path, branch, log),
    ensures
        effect::succeeds(run.turns.last()),
        forgotten(log, path, branch),
        run.at.len() == run.replies.len(),
        forall|k: int|
            0 <= k < run.at.len() ==> 0 <= #[trigger] run.at[k] < log.len() && refs::tidies(
                log,
                run.at[k],
                path,
                branch,
            ),
{
    let n = run.replies.len();
    assert(run.turns.last() == run.turns[n as int]);
    let head = git::head_sha_command(path);
    refs::lemma_orders(path, branch);
    let (t0, s0) = (run.turns[0], run.states[0]);
    assert(n > 0);
    assert(effect::answers(t0.action, run.replies[0]));
    let (t1, s1) = (run.turns[1], run.states[1]);
    assert(submodules::forget_moves(s0, run.replies[0], s1, t1));
    assert(refs::stands_at(log, run.at[0], t0, run.replies[0]));
    let r0 = run.replies[0]->Git_0;
    assert(n > 1);
    assert(effect::answers(t1.action, run.replies[1]));
    let (t2, s2) = (run.turns[2], run.states[2]);
    assert(submodules::forget_moves(s1, run.replies[1], s2, t2));
    assert(refs::stands_at(log, run.at[1], t1, run.replies[1]));
    assert(run.at[0] < run.at[1]);
    match git::checked(head, r0) {
        Ok(sha) => {
            assert(n > 2);
            assert(effect::answers(t2.action, run.replies[2]));
            let (t3, s3) = (run.turns[3], run.states[3]);
            assert(submodules::forget_moves(s2, run.replies[2], s3, t3));
            assert(refs::stands_at(log, run.at[2], t2, run.replies[2]));
            if n > 3 {
                assert(effect::answers(t3.action, run.replies[3]));
            }
            let c = git::detach_head_command(path, sha);
            refs::lemma_orders(path, sha);
            assert(log[run.at[1]].command == c);
            assert(refs::asked(log, run.at[0], path, sha));
            assert(detached_from(log, run.at[0], path));
            assert(log[run.at[2]].command == git::branch_delete_command(path, branch));
            assert(refs::tidies(log, run.at[0], path, branch));
            assert(refs::asked_before(log, run.at[1], path, sha));
            assert(refs::tidies(log, run.at[1], path, branch));
            assert(refs::tidies(log, run.at[2], path, branch));
        },
        Err(_) => {
            if n > 2 {
                assert(effect::answers(t2.action, run.replies[2]));
            }
            assert(detached_from(log, run.at[0], path));
            assert(log[run.at[1]].command == git::branch_delete_command(path, branch));
            assert(refs::tidies(log, run.at[0], path, branch));
            assert(refs::tidies(log, run.at[1], path, branch));
        },
    }
}

/// `children` are the checkouts of the submodules that a checkout declares.
pub open spec fn are_children(f: Files, dir: Seq<char>, children: Seq<String>) -> bool {
    exists|entries: Seq<SubmoduleView>| #[trigger]
        nesting::are_declared(f, dir, entries) && text::texts(children) == submodules::checkouts(dir, entries)
}

/// What a level is about to be told, in each of its phases.
spec fn awaits(f: Files, s: DeleteBranches, turn: Turn) -> bool {
    let dir = s.dir@;
    match s.phase {
        DeletePhase::Looking => effect::looks_for(turn, submodules::modules_file(dir)),
        DeletePhase::Reading => (f.there)(submodules::modules_file(dir)) && effect::runs_git(
            turn,
            nesting::lists(dir),
        ),
        DeletePhase::Detaching(children) => {
            &&& turn.action matches Action::DetachEach(entries)
            &&& nesting::are_declared(f, dir, submodules::module_views(entries@))
            &&& text::texts(children@) == submodules::checkouts(
                dir,
                submodules::module_views(entries@),
            )
        },
        DeletePhase::Checking(children, at) => {
            &&& at < children@.len()
            &&& are_children(f, dir, children@)
            &&& effect::looks_for(turn, submodules::modules_file(children@[at as int]@))
        },
        DeletePhase::Descending(children, at) => {
            &&& at < children@.len()
            &&& are_children(f, dir, children@)
            &&& turn.action matches Action::DeleteBranches(p, b)
            &&& p@ == children@[at as int]@
            &&& b@ == s.branch@
        },
        DeletePhase::Over => effect::succeeds(turn),
    }
}

/// Each step of a level is as its phase says.
proof fn lemma_level(
    run: DeletionRun,
    dir: Seq<char>,
    branch: Seq<char>,
    f: Files,
    log: Seq<Performed>,
    k: int,
)
    requires
        is_level(run, dir, branch, f, log),
        0 <= k < run.turns.len(),
    ensures
        run.states[k].dir@ == dir,
        run.states[k].branch@ == branch,
        awaits(f, run.states[k], run.turns[k]),
    decreases k,
{
    if k > 0 {
        let j = k - 1;
        lemma_level(run, dir, branch, f, log, j);
        let (pre, reply, post, turn) = (run.states[j], run.replies[j], run.states[k], run.turns[k]);
        assert(submodules::delete_moves(pre, reply, post, turn));
        assert(effect::answers(run.turns[j].action, reply));
        assert(nesting::tells(f, run.turns[j], reply));
        assert(nesting::lists(dir).cwd == dir);
        match pre.phase {
            DeletePhase::Detaching(children) => {
                let entries = run.turns[j].action->DetachEach_0;
                assert(nesting::are_declared(f, dir, submodules::module_views(entries@)));
                assert(are_children(f, dir, children@));
            },
            _ => {},
        }
    }
}

/// Every submodule of a level gets looked at.
proof fn lemma_looked_at(
    run: DeletionRun,
    dir: Seq<char>,
    branch: Seq<char>,
    f: Files,
    log: Seq<Performed>,
    children: Vec<String>,
    c: int,
) -> (k: int)
    requires
        is_level(run, dir, branch, f, log),
        run.turns.len() > 2,
        run.states[2].phase == DeletePhase::Detaching(children),
        0 <= c < children@.len(),
    ensures
        3 <= k < run.replies.len(),
        run.states[k].phase matches DeletePhase::Checking(v, i) && v == children && i == c,
    decreases c,
{
    if c == 0 {
        lemma_level(run, dir, branch, f, log, 2);
        assert(effect::answers(run.turns[2].action, run.replies[2]));
        assert(submodules::delete_moves(run.states[2], run.replies[2], run.states[3], run.turns[3]));
        lemma_level(run, dir, branch, f, log, 3);
        3
    } else {
        let j = lemma_looked_at(run, dir, branch, f, log, children, c - 1);
        lemma_level(run, dir, branch, f, log, j);
        assert(effect::answers(run.turns[j].action, run.replies[j]));
        assert(submodules::delete_moves(
            run.states[j],
            run.replies[j],
            run.states[j + 1],
            run.turns[j + 1],
        ));
        lemma_level(run, dir, branch, f, log, j + 1);
        if run.states[j + 1].phase is Descending {
            assert(effect::answers(run.turns[j + 1].action, run.replies[j + 1]));
            assert(submodules::delete_moves(
                run.states[j + 1],
                run.replies[j + 1],
                run.states[j + 2],
                run.turns[j + 2],
            ));
            lemma_level(run, dir, branch, f, log, j + 2);
            j + 2
        } else {
            j + 1
        }
    }
}

/// A level that declares submodules names them all.
proof fn lemma_names_them(
    run: DeletionRun,
    dir: Seq<char>,
    branch: Seq<char>,
    f: Files,
    log: Seq<Performed>,
)
    requires
        is_level(run, dir, branch, f, log),
        nesting::declares(f, dir).len() > 0,
    ensures
        run.turns.len() > 2,
        run.states[2].phase is Detaching,
{
    lemma_level(run, dir, branch, f, log, 0);
    assert(effect::answers(run.turns[0].action, run.replies[0]));
    assert(nesting::tells(f, run.turns[0], run.replies[0]));
    assert(submodules::delete_moves(run.states[0], run.replies[0], run.states[1], run.turns[1]));
    lemma_level(run, dir, branch, f, log, 1);
    assert(effect::answers(run.turns[1].action, run.replies[1]));
    assert(nesting::tells(f, run.turns[1], run.replies[1]));
    assert(nesting::lists(dir).cwd == dir);
    assert(submodules::delete_moves(run.states[1], run.replies[1], run.states[2], run.turns[2]));
}

/// The command at an index of the log does not concern refs, or tidies a submodule within
/// `dir`.
pub open spec fn has_its_place(
    f: Files,
    dir: Seq<char>,
    branch: Seq<char>,
    log: Seq<Performed>,
    i: int,
) -> bool {
    let c = log[i].command;
    ||| refs::order_of(c) is Other
    ||| refs::tidies(log, i, c.cwd, branch) && nesting::is_nested(f, dir, c.cwd)
}

/// The runs in submodules work on those that the level declares.
proof fn lemma_forgets_only_named(
    run: DeletionRun,
    dir: Seq<char>,
    branch: Seq<char>,
    f: Files,
    log: Seq<Performed>,
    t: int,
    j: int,
    k: int,
)
    requires
        is_deletion(run, dir, branch, f, log),
        0 <= t < run.turns.len(),
        run.turns[t].action is DetachEach,
        0 <= j < run.forgets.len(),
        0 <= k < run.forgets[j].at.len(),
    ensures
        0 <= run.forgets[j].at[k] < log.len(),
        has_its_place(f, dir, branch, log, run.forgets[j].at[k]),
{
    let i = run.forgets[j].at[k];
    lemma_level(run, dir, branch, f, log, t);
    let entries = run.turns[t].action->DetachEach_0;
    let views = submodules::module_views(entries@);
    let path = fs_paths::path_in(dir, entries@[j]@.path);
    assert(forgets_each(run, t, dir, branch, log));
    assert(is_forgetting(run.forgets[j], path, branch, log));
    lemma_forgetting(run.forgets[j], path, branch, log);
    assert(views[j] == entries@[j]@);
    nesting::lemma_unlisted(f, dir, views, j);
    assert(nesting::within(f, dir, path, 1)) by {
        assert(nesting::declares(f, dir).contains(views[j]));
    }
    assert(refs::tidies(log, i, path, branch));
    assert(log[i].command.cwd == path);
}

/// Every command of a run has its place.
pub proof fn lemma_made(
    run: DeletionRun,
    dir: Seq<char>,
    branch: Seq<char>,
    f: Files,
    log: Seq<Performed>,
    i: int,
)
    requires
        is_deletion(run, dir, branch, f, log),
        made(run, i),
    ensures
        0 <= i < log.len(),
        has_its_place(f, dir, branch, log, i),
    decreases run,
{
    if refs::is_step_at(run.turns, run.replies, run.at, i) {
        let k = choose|k: int|
            0 <= k < run.replies.len() && (#[trigger] run.turns[k]).action is Git && run.at[k] == i;
        lemma_level(run, dir, branch, f, log, k);
        assert(refs::stands_at(log, run.at[k], run.turns[k], run.replies[k]));
        refs::lemma_orders(dir, submodules::modules_file(dir));
    } else if exists|t: int, j: int, k: int|
        0 <= t < run.turns.len() && (#[trigger] run.turns[t]).action is DetachEach && 0 <= j
            < run.forgets.len() && 0 <= k < run.forgets[j].at.len()
            && #[trigger] run.forgets[j].at[k] == i {
        let (t, j, k) = choose|t: int, j: int, k: int|
            0 <= t < run.turns.len() && (#[trigger] run.turns[t]).action is DetachEach && 0 <= j
                < run.forgets.len() && 0 <= k < run.forgets[j].at.len()
                && #[trigger] run.forgets[j].at[k] == i;
        lemma_forgets_only_named(run, dir, branch, f, log, t, j, k);
    } else {
        let k = choose|k: int|
            0 <= k < run.below.len() && (#[trigger] run.turns[k]).action is DeleteBranches && made(
                run.below[k],
                i,
            );
        lemma_level(run, dir, branch, f, log, k);
        let (children, at) = (run.states[k].phase->Descending_0, run.states[k].phase->Descending_1);
        let child = children@[at as int]@;
        let entries = choose|entries: Seq<SubmoduleView>| #[trigger]
            nesting::are_declared(f, dir, entries) && text::texts(children@) == submodules::checkouts(
                dir,
                entries,
            );
        let all = submodules::checkouts(dir, entries);
        assert(text::texts(children@).len() == all.len() && text::texts(children@)[at as int]
            == all[at as int]);
        nesting::lemma_unlisted(f, dir, entries, at as int);
        let e = entries[at as int];
        assert(child == fs_paths::path_in(dir, e.path));
        lemma_made(run.below[k], child, branch, f, log, i);
        let c = log[i].command;
        if !(refs::order_of(c) is Other) {
            let depth = choose|depth: nat| #[trigger] nesting::within(f, child, c.cwd, depth);
            assert(nesting::within(f, dir, c.cwd, depth + 1)) by {
                assert(nesting::declares(f, dir).contains(e));
            }
        }
    }
}

/// A log of one run only tidies.
proof fn lemma_only_tidies(
    run: DeletionRun,
    dir: Seq<char>,
    branch: Seq<char>,
    f: Files,
    log: Seq<Performed>,
)
    requires
        is_deletion(run, dir, branch, f, log),
        forall|i: int| 0 <= i < log.len() ==> #[trigger] made(run, i),
    ensures
        refs::only_tidies(log, branch),
{
    assert forall|i: int| 0 <= i < log.len() implies refs::order_of((#[trigger] log[i]).command) is Other
        || refs::tidies(log, i, log[i].command.cwd, branch) by {
        assert(made(run, i));
        lemma_made(run, dir, branch, f, log, i);
    }
}

/// Where git does what it is asked, what was deleted from a checkout is gone from it.
pub proof fn lemma_forgotten_is_gone(
    w: Refs,
    branch: Seq<char>,
    log: Seq<Performed>,
    path: Seq<char>,
)
    requires
        refs::only_tidies(log, branch),
        refs::obliging(w, log),
        forgotten(log, path, branch),
        w.heads.contains_key(path),
    ensures
        refs::gone(refs::after(w, log), path, branch),
{
    let i = choose|i: int| 0 <= i < log.len() && #[trigger] detached_from(log, i, path);
    refs::lemma_tidied(w, log, branch, i as nat);
    let then = refs::after_first(w, log, i as nat);
    refs::lemma_orders(path, branch);
    assert(refs::obliges(then, log[i].command, log[i].reply));
    assert(then.heads.dom().contains(path));
    let sha = git::checked(log[i].command, log[i].reply)->Ok_0;
    let j = choose|j: int|
        i < j < log.len() && (#[trigger] log[j]).command == git::detach_head_command(path, sha);
    refs::lemma_orders(path, sha);
    let d = choose|d: int|
        0 <= d < log.len() && (#[trigger] log[d]).command == git::branch_delete_command(
            path,
            branch,
        );
    refs::lemma_stays_tidy(w, log, branch, j, log.len());
    refs::lemma_stays_tidy(w, log, branch, d, log.len());
    refs::lemma_tidied(w, log, branch, log.len());
    assert(refs::after(w, log).heads.dom().contains(path));
}

// ---------------------------------------------------------------------------
// Laws
// ---------------------------------------------------------------------------

/// The deletion of a branch reaches every submodule, however deep: `HEAD` is detached in
/// it, and the branch deleted. Whatever git says of a command, the run ends well.
pub proof fn deletion_reaches_every_submodule(
    run: DeletionRun,
    dir: Seq<char>,
    branch: Seq<char>,
    f: Files,
    log: Seq<Performed>,
    path: Seq<char>,
    depth: nat,
)
    requires
        is_deletion(run, dir, branch, f, log),
    ensures
        effect::succeeds(run.turns.last()),
        nesting::within(f, dir, path, depth) ==> forgotten(log, path, branch),
    decreases depth,
{
    let last = run.turns.len() - 1;
    lemma_level(run, dir, branch, f, log, last);
    if nesting::within(f, dir, path, depth) {
        let e = choose|e: SubmoduleView| #[trigger]
            nesting::declares(f, dir).contains(e) && (path == fs_paths::path_in(dir, e.path) || nesting::within(
                f,
                fs_paths::path_in(dir, e.path),
                path,
                (depth - 1) as nat,
            ));
        let child = fs_paths::path_in(dir, e.path);
        lemma_names_them(run, dir, branch, f, log);
        lemma_level(run, dir, branch, f, log, 2);
        let entries = run.turns[2].action->DetachEach_0;
        let views = submodules::module_views(entries@);
        let i = nesting::lemma_listed(f, dir, views, e);
        assert(entries@[i]@ == e);
        assert(forgets_each(run, 2, dir, branch, log));
        assert(is_forgetting(run.forgets[i], child, branch, log));
        lemma_forgetting(run.forgets[i], child, branch, log);
        if path != child {
            let children = run.states[2].phase->Detaching_0;
            let all = submodules::checkouts(dir, views);
            assert(text::texts(children@).len() == all.len() && text::texts(children@)[i] == all[i]);
            assert(children@[i]@ == child);
            let k = lemma_looked_at(run, dir, branch, f, log, children, i);
            lemma_level(run, dir, branch, f, log, k);
            assert(effect::answers(run.turns[k].action, run.replies[k]));
            assert(nesting::tells(f, run.turns[k], run.replies[k]));
            assert(submodules::delete_moves(
                run.states[k],
                run.replies[k],
                run.states[k + 1],
                run.turns[k + 1],
            ));
            assert(nesting::declares(f, child).len() > 0);
            lemma_level(run, dir, branch, f, log, k + 1);
            assert(run.turns[k + 1].action is DeleteBranches);
            assert(is_deletion(run.below[k + 1], child, branch, f, log));
            deletion_reaches_every_submodule(
                run.below[k + 1],
                child,
                branch,
                f,
                log,
                path,
                (depth - 1) as nat,
            );
        }
    }
}

/// The deletion of a branch takes it away from every submodule, however deep: where git
/// does what it is asked, afterwards each one's `HEAD` is detached and its repository has
/// no such branch. Every checkout stays at the commit it was at. Other branches, other
/// checkouts and other repositories stay as they are.
pub proof fn deletion_takes_the_branch_away(
    w: Refs,
    run: DeletionRun,
    dir: Seq<char>,
    branch: Seq<char>,
    f: Files,
    log: Seq<Performed>,
)
    requires
        is_deletion(run, dir, branch, f, log),
        forall|i: int| 0 <= i < log.len() ==> #[trigger] made(run, i),
        refs::obliging(w, log),
    ensures
        refs::tidied(w, refs::after(w, log), branch),
        forall|p: Seq<char>|
            w.heads.contains_key(p) ==> if #[trigger] nesting::is_nested(f, dir, p) {
                refs::gone(refs::after(w, log), p, branch)
            } else {
                refs::after(w, log).heads[p] == w.heads[p]
            },
        forall|r: Seq<char>, b: Seq<char>| #[trigger]
            w.branches.contains((r, b)) && !refs::after(w, log).branches.contains((r, b))
                ==> exists|p: Seq<char>| #[trigger]
                nesting::is_nested(f, dir, p) && (w.repo)(p) == r,
{
    let v = refs::after(w, log);
    lemma_only_tidies(run, dir, branch, f, log);
    refs::lemma_tidied(w, log, branch, log.len());
    assert forall|p: Seq<char>| w.heads.contains_key(p) implies if #[trigger] nesting::is_nested(
        f,
        dir,
        p,
    ) {
        refs::gone(v, p, branch)
    } else {
        v.heads[p] == w.heads[p]
    } by {
        if nesting::is_nested(f, dir, p) {
            let depth = choose|depth: nat| #[trigger] nesting::within(f, dir, p, depth);
            deletion_reaches_every_submodule(run, dir, branch, f, log, p, depth);
            lemma_forgotten_is_gone(w, branch, log, p);
        } else {
            assert forall|i: int|
                0 <= i < log.len() && (#[trigger] log[i]).command.cwd == p implies refs::order_of(
                log[i].command,
            ) is Other by {
                assert(made(run, i));
                lemma_made(run, dir, branch, f, log, i);
            }
            refs::lemma_head_untouched(w, log, branch, p, log.len());
        }
    }
    assert forall|r: Seq<char>, b: Seq<char>| #[trigger]
        w.branches.contains((r, b)) && !v.branches.contains((r, b)) implies exists|p: Seq<char>|
     #[trigger]
        nesting::is_nested(f, dir, p) && (w.repo)(p) == r by {
        if forall|p: Seq<char>| #[trigger] nesting::is_nested(f, dir, p) ==> (w.repo)(p) != r {
            assert forall|i: int|
                0 <= i < log.len() && (w.repo)((#[trigger] log[i]).command.cwd)
                    == r implies refs::order_of(log[i].command) is Other by {
                assert(made(run, i));
                lemma_made(run, dir, branch, f, log, i);
            }
            refs::lemma_branches_untouched(w, log, r, log.len());
        }
    }
}

/// Deleting a branch again changes nothing.
pub proof fn deleting_again_changes_nothing(
    w: Refs,
    dir: Seq<char>,
    branch: Seq<char>,
    f: Files,
    first: DeletionRun,
    log: Seq<Performed>,
    second: DeletionRun,
    later: Seq<Performed>,
)
    requires
        is_deletion(first, dir, branch, f, log),
        forall|i: int| 0 <= i < log.len() ==> #[trigger] made(first, i),
        refs::obliging(w, log),
        is_deletion(second, dir, branch, f, later),
        forall|i: int| 0 <= i < later.len() ==> #[trigger] made(second, i),
        refs::obliging(refs::after(w, log), later),
    ensures
        refs::after(refs::after(w, log), later) == refs::after(w, log),
{
    let v = refs::after(w, log);
    deletion_takes_the_branch_away(w, first, dir, branch, f, log);
    lemma_only_tidies(second, dir, branch, f, later);
    assert forall|i: int|
        0 <= i < later.len() && !(refs::order_of((#[trigger] later[i]).command) is Other)
            && v.heads.contains_key(later[i].command.cwd) implies refs::gone(
        v,
        later[i].command.cwd,
        branch,
    ) by {
        assert(made(second, i));
        lemma_made(second, dir, branch, f, later, i);
        assert(v.heads.dom().contains(later[i].command.cwd));
    }
    refs::lemma_nothing_to_tidy(v, later, branch, later.len());
}

/// A checkout without a `.gitmodules`, or with one that git cannot read or that declares
/// nothing, is left as it is.
pub proof fn nothing_declared_nothing_changed(
    w: Refs,
    run: DeletionRun,
    dir: Seq<char>,
    branch: Seq<char>,
    f: Files,
    log: Seq<Performed>,
)
    requires
        is_deletion(run, dir, branch, f, log),
        forall|i: int| 0 <= i < log.len() ==> #[trigger] made(run, i),
        refs::obliging(w, log),
        nesting::declares(f, dir).len() == 0,
    ensures
        refs::after(w, log) == w,
        effect::succeeds(run.turns.last()),
{
    deletion_reaches_every_submodule(run, dir, branch, f, log, dir, 0);
    lemma_only_tidies(run, dir, branch, f, log);
    assert forall|i: int|
        0 <= i < log.len() && !(refs::order_of((#[trigger] log[i]).command) is Other)
            && w.heads.contains_key(log[i].command.cwd) implies refs::gone(
        w,
        log[i].command.cwd,
        branch,
    ) by {
        assert(made(run, i));
        lemma_made(run, dir, branch, f, log, i);
    }
    refs::lemma_nothing_to_tidy(w, log, branch, log.len());
}

} // verus!
