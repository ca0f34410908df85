//! Whole runs of the update of submodules: which submodules they put on the branch.
use crate::acquire;
use crate::acquire::Acquire;
use crate::deletion_runs;
use crate::deletion_runs::DeletionRun;
use crate::effect;
use crate::effect::{Action, Reply, Turn};
use crate::error::Error;
use crate::fs_paths;
use crate::git;
use crate::nesting;
use crate::nesting::Files;
use crate::parallel;
use crate::refs;
use crate::refs::{Performed, Refs};
use crate::submodules;
use crate::submodules::{
    SubmoduleEntry, SubmoduleView, Task, Update, UpdatePhase, Worker, WorkerPhase,
};
use crate::text;
use vstd::prelude::*;

verus! {

// ---------------------------------------------------------------------------
// Whole runs
// ---------------------------------------------------------------------------

/// A run of the update of one level, and where its commands stand in the log; and the
/// runs of its workers, in the order in which the level names the submodules.
pub struct LevelRun<'a> {
    pub states: Seq<Update<'a>>,
    pub turns: Seq<Turn>,
    pub replies: Seq<Reply>,
    pub at: Seq<int>,
    pub workers: Seq<WorkerRun<'a>>,
}

/// A run of a worker, and where its commands stand in the log; and the run of the level
/// below, where there is one.
pub struct WorkerRun<'a> {
    pub states: Seq<Worker<'a>>,
    pub turns: Seq<Turn>,
    pub replies: Seq<Reply>,
    pub at: Seq<int>,
    pub below: Seq<LevelRun<'a>>,
}

/// What a run that ended so is said to have come to.
pub open spec fn comes_to(last: Turn, result: Result<(), Error>) -> bool {
    match last.action {
        Action::Finish(Ok(_)) => result is Ok,
        Action::Finish(Err(e)) => result == Err::<(), Error>(e),
        _ => false,
    }
}

/// The run ended well.
pub open spec fn ended_well(turns: Seq<Turn>) -> bool {
    turns.last().action matches Action::Finish(r) && r is Ok
}

/// The steps of one level: the run that `update` begins.
pub open spec fn is_level(
    run: LevelRun,
    task: Task,
    dir: Seq<char>,
    scope: Seq<char>,
    f: Files,
    log: Seq<Performed>,
) -> bool {
    &&& effect::is_whole(run.turns, run.replies)
    &&& run.states.len() == run.turns.len()
    &&& run.states[0].task == task
    &&& run.states[0].dir@ == dir
    &&& run.states[0].scope@ == scope
    &&& run.states[0].phase is Looking
    &&& effect::looks_for(run.turns[0], submodules::modules_file(dir))
    &&& forall|k: int|
        0 <= k < run.replies.len() ==> submodules::update_moves(
            #[trigger] run.states[k],
            run.replies[k],
            run.states[k + 1],
            run.turns[k + 1],
        )
    &&& forall|k: int|
        0 <= k < run.replies.len() ==> nesting::tells(f, #[trigger] run.turns[k], run.replies[k])
    &&& refs::logged(log, run.at, run.turns, run.replies)
}

/// The steps of one worker: the run that `update_one` begins.
pub open spec fn is_work(
    run: WorkerRun,
    task: Task,
    dir: Seq<char>,
    scope: Seq<char>,
    entry: SubmoduleEntry,
    f: Files,
    log: Seq<Performed>,
) -> bool {
    &&& effect::is_whole(run.turns, run.replies)
    &&& run.states.len() == run.turns.len()
    &&& run.states[0].task == task
    &&& run.states[0].dir@ == dir
    &&& run.states[0].scope@ == scope
    &&& run.states[0].entry == entry
    &&& run.states[0].phase is Fetching
    &&& effect::runs_git(run.turns[0], submodules::fetch_command(dir, entry@.path))
    &&& forall|k: int|
        0 <= k < run.replies.len() ==> submodules::worker_moves(
            #[trigger] run.states[k],
            run.replies[k],
            run.states[k + 1],
            run.turns[k + 1],
        )
    &&& forall|k: int|
        0 <= k < run.replies.len() ==> nesting::tells(f, #[trigger] run.turns[k], run.replies[k])
    &&& refs::logged(log, run.at, run.turns, run.replies)
}

/// The whole run that `update` begins, with the runs of its workers. The level is told
/// what each worker came to.
pub open spec fn is_update(
    run: LevelRun,
    task: Task,
    dir: Seq<char>,
    scope: Seq<char>,
    f: Files,
    log: Seq<Performed>,
) -> bool
    decreases run,
{
    &&& is_level(run, task, dir, scope, f, log)
    &&& forall|k: int|
        0 <= k < run.replies.len() ==> ((#[trigger] run.turns[k]).action matches Action::UpdateEach(
            entries,
        ) ==> {
            &&& run.workers.len() == entries@.len()
            &&& run.replies[k] matches Reply::Worked(results)
            &&& results@.len() == entries@.len()
            &&& forall|j: int|
                0 <= j < run.workers.len() ==> is_worker(
                    #[trigger] run.workers[j],
                    task,
                    dir,
                    scope,
                    entries@[j],
                    f,
                    log,
                ) && comes_to(run.workers[j].turns.last(), results@[j])
        })
}

/// The whole run that `update_one` begins, with the run of the level below it. The worker
/// is told what that came to.
pub open spec fn is_worker(
    run: WorkerRun,
    task: Task,
    dir: Seq<char>,
    scope: Seq<char>,
    entry: SubmoduleEntry,
    f: Files,
    log: Seq<Performed>,
) -> bool
    decreases run,
{
    &&& is_work(run, task, dir, scope, entry, f, log)
    &&& forall|k: int|
        0 <= k < run.replies.len() ==> ((#[trigger] run.turns[k]).action matches Action::Update(p, s)
            ==> {
            &&& run.below.len() == 1
            &&& is_update(run.below[0], task, p@, s@, f, log)
            &&& run.replies[k] matches Reply::Ended(r)
            &&& comes_to(run.below[0].turns.last(), r)
        })
}

/// The level handed its `j`-th submodule to a worker at step `t`.
pub open spec fn hands_out(run: LevelRun, t: int, j: int) -> bool {
    0 <= t < run.replies.len() && run.turns[t].action is UpdateEach && 0 <= j < run.workers.len()
}

/// The worker had the level below updated at step `u`.
pub open spec fn descends(run: WorkerRun, u: int) -> bool {
    0 <= u < run.replies.len() && run.turns[u].action is Update && run.below.len() == 1
}

/// The command at an index of the log is one of the run's: of the level itself, of one of
/// its workers, or of a level below.
pub open spec fn made(run: LevelRun, i: int) -> bool
    decreases run,
{
    ||| refs::is_step_at(run.turns, run.replies, run.at, i)
    ||| exists|t: int, j: int| #[trigger]
        hands_out(run, t, j) && refs::is_step_at(
            run.workers[j].turns,
            run.workers[j].replies,
            run.workers[j].at,
            i,
        )
    ||| exists|t: int, j: int, u: int| #[trigger]
        hands_out(run, t, j) && #[trigger] descends(run.workers[j], u) && made(
            run.workers[j].below[0],
            i,
        )
}

// ---------------------------------------------------------------------------
// What a run does
// ---------------------------------------------------------------------------

/// `path` is the checkout of a submodule of `dir` that the tags keep, or of one nested in
/// such a submodule at most `depth` levels deep.
pub open spec fn kept_within(
    f: Files,
    tags: Seq<Seq<char>>,
    dir: Seq<char>,
    scope: Seq<char>,
    path: Seq<char>,
    depth: nat,
) -> bool
    decreases depth,
{
    depth > 0 && exists|e: SubmoduleView| #[trigger]
        nesting::declares(f, dir).contains(e) && !submodules::skipped(e, tags, scope) && (path
            == fs_paths::path_in(dir, e.path) || kept_within(
            f,
            tags,
            fs_paths::path_in(dir, e.path),
            submodules::nested_scope(scope, e.name),
            path,
            (depth - 1) as nat,
        ))
}

/// The submodule at `path` was fetched: `submodule update` succeeded in the checkout that
/// declares it.
pub open spec fn fetched_at(log: Seq<Performed>, i: int, path: Seq<char>) -> bool {
    let c = log[i].command;
    &&& c == submodules::fetch_command(c.cwd, c.args[2])
    &&& path == fs_paths::path_in(c.cwd, c.args[2])
    &&& refs::succeeded(log[i].reply)
}

/// A command succeeded at an index.
pub open spec fn succeeded_at(log: Seq<Performed>, i: int, c: git::GitCommandView) -> bool {
    log[i].command == c && refs::succeeded(log[i].reply)
}

/// The submodule at `path` was fetched, then the branch created there, then its `HEAD` put
/// on it; each succeeded.
pub open spec fn branched(log: Seq<Performed>, path: Seq<char>, branch: Seq<char>) -> bool {
    exists|i: int, j: int, k: int|
        0 <= i < j < k < log.len() && #[trigger] fetched_at(log, i, path) && #[trigger] succeeded_at(
            log,
            j,
            git::branch_at_head_command(path, branch),
        ) && #[trigger] succeeded_at(log, k, git::attach_head_command(path, branch))
}

/// What a worker is about to be told, in each of its phases.
spec fn worker_awaits(s: Worker, turn: Turn) -> bool {
    let sub = submodules::checkout_of(s);
    match s.phase {
        WorkerPhase::Fetching => effect::runs_git(
            turn,
            submodules::fetch_command(s.dir@, s.entry@.path),
        ),
        WorkerPhase::Branching => effect::runs_git(
            turn,
            git::branch_at_head_command(sub, s.task.branch@),
        ),
        WorkerPhase::Attaching => effect::runs_git(
            turn,
            git::attach_head_command(sub, s.task.branch@),
        ),
        WorkerPhase::Sweeping => turn.action is Sweep,
        WorkerPhase::Looking => effect::looks_for(turn, submodules::modules_file(sub)),
        WorkerPhase::Nested => {
            &&& turn.action matches Action::Update(p, s2)
            &&& p@ == sub
            &&& s2@ == submodules::nested_scope(s.scope@, s.entry@.name)
        },
        WorkerPhase::Over => turn.action is Finish,
    }
}

/// A worker that goes on, or ends well, did so because the step before succeeded.
proof fn lemma_work_step(
    run: WorkerRun,
    task: Task,
    dir: Seq<char>,
    scope: Seq<char>,
    entry: SubmoduleEntry,
    f: Files,
    log: Seq<Performed>,
    k: int,
)
    requires
        is_work(run, task, dir, scope, entry, f, log),
        0 <= k < run.turns.len(),
    ensures
        run.states[k].task == task,
        run.states[k].dir@ == dir,
        run.states[k].scope@ == scope,
        run.states[k].entry == entry,
        worker_awaits(run.states[k], run.turns[k]),
        !(run.states[k].phase is Over) ==> k == match run.states[k].phase {
            WorkerPhase::Fetching => 0int,
            WorkerPhase::Branching => 1,
            WorkerPhase::Attaching => 2,
            WorkerPhase::Sweeping => 3,
            WorkerPhase::Looking => 4,
            _ => 5,
        },
    decreases k,
{
    if k > 0 {
        let j = k - 1;
        lemma_work_step(run, task, dir, scope, entry, f, log, j);
        assert(submodules::worker_moves(
            run.states[j],
            run.replies[j],
            run.states[k],
            run.turns[k],
        ));
        assert(effect::answers(run.turns[j].action, run.replies[j]));
    }
}

/// A worker that is not at its end goes on to the next step, which is not its end unless
/// that was the last.
proof fn lemma_work_goes_on(
    run: WorkerRun,
    task: Task,
    dir: Seq<char>,
    scope: Seq<char>,
    entry: SubmoduleEntry,
    f: Files,
    log: Seq<Performed>,
    k: int,
)
    requires
        is_work(run, task, dir, scope, entry, f, log),
        0 <= k < run.turns.len(),
        !(run.states[k].phase is Over),
    ensures
        k < run.replies.len(),
        effect::answers(run.turns[k].action, run.replies[k]),
        nesting::tells(f, run.turns[k], run.replies[k]),
        submodules::worker_moves(
            run.states[k],
            run.replies[k],
            run.states[k + 1],
            run.turns[k + 1],
        ),
        run.states[k + 1].phase is Over ==> run.turns.last() == run.turns[k + 1],
        run.turns[k].action is Git ==> refs::stands_at(
            log,
            run.at[k],
            run.turns[k],
            run.replies[k],
        ),
{
    lemma_work_step(run, task, dir, scope, entry, f, log, k);
    if k + 1 < run.turns.len() {
        lemma_work_step(run, task, dir, scope, entry, f, log, k + 1);
    }
    if run.states[k + 1].phase is Over && k + 1 < run.replies.len() {
        assert(effect::answers(run.turns[k + 1].action, run.replies[k + 1]));
    }
}

/// A worker that ended well passed every step before its end, and each of its commands
/// succeeded.
proof fn lemma_worker_passes(
    run: WorkerRun,
    task: Task,
    dir: Seq<char>,
    scope: Seq<char>,
    entry: SubmoduleEntry,
    f: Files,
    log: Seq<Performed>,
    k: int,
)
    requires
        is_work(run, task, dir, scope, entry, f, log),
        ended_well(run.turns),
        0 <= k <= 5,
    ensures
        k < 5 ==> k < run.turns.len() && !(run.states[k].phase is Over),
        k == 5 ==> (f.there)(submodules::modules_file(fs_paths::path_in(dir, entry@.path))) ==> 5
            < run.turns.len() && run.states[5].phase is Nested,
        1 <= k < 4 ==> refs::stands_at(log, run.at[k - 1], run.turns[k - 1], run.replies[k - 1])
            && refs::succeeded(log[run.at[k - 1]].reply),
    decreases k,
{
    if k > 0 {
        let j = k - 1;
        lemma_worker_passes(run, task, dir, scope, entry, f, log, j);
        lemma_work_step(run, task, dir, scope, entry, f, log, j);
        lemma_work_goes_on(run, task, dir, scope, entry, f, log, j);
        lemma_work_step(run, task, dir, scope, entry, f, log, k);
    }
}

/// The first three commands of a worker that ended well.
proof fn lemma_worker_branched(
    run: WorkerRun,
    task: Task,
    dir: Seq<char>,
    scope: Seq<char>,
    entry: SubmoduleEntry,
    f: Files,
    log: Seq<Performed>,
)
    requires
        is_work(run, task, dir, scope, entry, f, log),
        ended_well(run.turns),
    ensures
        branched(log, fs_paths::path_in(dir, entry@.path), task.branch@),
{
    let sub = fs_paths::path_in(dir, entry@.path);
    let branch = task.branch@;
    lemma_worker_passes(run, task, dir, scope, entry, f, log, 1);
    lemma_worker_passes(run, task, dir, scope, entry, f, log, 2);
    lemma_worker_passes(run, task, dir, scope, entry, f, log, 3);
    lemma_work_step(run, task, dir, scope, entry, f, log, 0);
    lemma_work_step(run, task, dir, scope, entry, f, log, 1);
    lemma_work_step(run, task, dir, scope, entry, f, log, 2);
    assert(submodules::fetch_command(dir, entry@.path).args[2] == entry@.path);
    assert(fetched_at(log, run.at[0], sub));
    assert(succeeded_at(log, run.at[1], git::branch_at_head_command(sub, branch)));
    assert(succeeded_at(log, run.at[2], git::attach_head_command(sub, branch)));
    assert(run.at[0] < run.at[1] < run.at[2]);
}

/// A worker that ended well put its submodule on the branch, and the level below it ended
/// well.
proof fn lemma_worker_ended_well(
    run: WorkerRun,
    task: Task,
    dir: Seq<char>,
    scope: Seq<char>,
    entry: SubmoduleEntry,
    f: Files,
    log: Seq<Performed>,
)
    requires
        is_worker(run, task, dir, scope, entry, f, log),
        ended_well(run.turns),
    ensures
        branched(log, fs_paths::path_in(dir, entry@.path), task.branch@),
        (f.there)(submodules::modules_file(fs_paths::path_in(dir, entry@.path))) ==> {
            &&& run.below.len() == 1
            &&& ended_well(run.below[0].turns)
            &&& is_update(
                run.below[0],
                task,
                fs_paths::path_in(dir, entry@.path),
                submodules::nested_scope(scope, entry@.name),
                f,
                log,
            )
        },
{
    lemma_worker_branched(run, task, dir, scope, entry, f, log);
    if (f.there)(submodules::modules_file(fs_paths::path_in(dir, entry@.path))) {
        lemma_worker_passes(run, task, dir, scope, entry, f, log, 5);
        lemma_work_step(run, task, dir, scope, entry, f, log, 5);
        lemma_work_goes_on(run, task, dir, scope, entry, f, log, 5);
    }
}

// ---------------------------------------------------------------------------
// A level
// ---------------------------------------------------------------------------

/// `skip` and `keep` are the submodules that the level declares, parted by the tags.
spec fn are_parted(
    f: Files,
    p: submodules::Place,
    skip: Vec<SubmoduleEntry>,
    keep: Vec<SubmoduleEntry>,
) -> bool {
    &&& (f.there)(submodules::modules_file(p.dir))
    &&& (f.listings)(p.dir) is Some
    &&& submodules::parts_declared(p, (f.listings)(p.dir)->0, skip, keep)
}

/// A kept submodule stands among those that are handed to workers.
proof fn lemma_kept_is_listed(
    f: Files,
    p: submodules::Place,
    skip: Vec<SubmoduleEntry>,
    keep: Vec<SubmoduleEntry>,
    e: SubmoduleView,
) -> (i: int)
    requires
        are_parted(f, p, skip, keep),
        nesting::declares(f, p.dir).contains(e),
        !submodules::skipped(e, p.tags, p.scope),
    ensures
        0 <= i < keep@.len(),
        keep@[i]@ == e,
{
    broadcast use vstd::seq_lib::group_to_multiset_ensures;

    let raw = (f.listings)(p.dir)->0;
    let entries = choose|entries: Seq<SubmoduleView>| #[trigger]
        submodules::lists_declared(entries, raw) && submodules::module_views(skip@)
            == submodules::those(entries, p.tags, p.scope, true) && submodules::module_views(keep@)
            == submodules::those(entries, p.tags, p.scope, false);
    submodules::filter_parts_the_submodules(entries, p.tags, p.scope);
    let skipping = submodules::those(entries, p.tags, p.scope, true);
    let kept = submodules::those(entries, p.tags, p.scope, false);
    assert(submodules::declared(raw).to_multiset().count(e) > 0);
    assert(entries.to_multiset().count(e) > 0);
    if skipping.contains(e) {
        let j = choose|j: int| 0 <= j < skipping.len() && skipping[j] == e;
        assert(submodules::skipped(skipping[j], p.tags, p.scope));
    }
    assert(skipping.to_multiset().count(e) == 0);
    assert(kept.to_multiset().count(e) > 0);
    let i = choose|i: int| 0 <= i < kept.len() && kept[i] == e;
    assert(submodules::module_views(keep@).len() == kept.len());
    assert(submodules::module_views(keep@)[i] == keep@[i]@);
    i
}

/// The step handed the kept submodules to workers, which all ended well.
spec fn all_worked(run: LevelRun, p: submodules::Place, f: Files, k: int) -> bool {
    &&& run.turns[k].action matches Action::UpdateEach(keep)
    &&& exists|skip: Vec<SubmoduleEntry>| are_parted(f, p, skip, keep)
    &&& run.replies[k] matches Reply::Worked(results)
    &&& forall|j: int| 0 <= j < results@.len() ==> results@[j] is Ok
}

/// No submodule of the level is left to put on the branch after `n` steps: the tags keep
/// none, or workers put them there.
spec fn is_through(run: LevelRun, p: submodules::Place, f: Files, n: int) -> bool {
    ||| forall|e: SubmoduleView| #[trigger]
        nesting::declares(f, p.dir).contains(e) ==> submodules::skipped(e, p.tags, p.scope)
    ||| exists|k: int| 0 <= k < n && #[trigger] all_worked(run, p, f, k)
}

/// What a level is about to be told, in each of its phases, and what it did before.
spec fn level_awaits(run: LevelRun, p: submodules::Place, f: Files, k: int) -> bool {
    let turn = run.turns[k];
    match run.states[k].phase {
        UpdatePhase::Looking => effect::looks_for(turn, submodules::modules_file(p.dir)),
        UpdatePhase::Reading => (f.there)(submodules::modules_file(p.dir)) && effect::runs_git(
            turn,
            nesting::lists(p.dir),
        ),
        UpdatePhase::Locating(skip, keep) => are_parted(f, p, skip, keep) && turn.action is Git,
        UpdatePhase::Locking(skip, keep) => are_parted(f, p, skip, keep) && turn.action is TakeLock,
        UpdatePhase::Writing(skip, keep, _) => are_parted(f, p, skip, keep) && turn.action is Git,
        UpdatePhase::Unlocking(skip, keep) => are_parted(f, p, skip, keep)
            && turn.action is DropLock,
        UpdatePhase::Working(skip, n) => {
            &&& turn.action matches Action::UpdateEach(keep)
            &&& are_parted(f, p, skip, keep)
            &&& n == keep@.len()
        },
        UpdatePhase::Deiniting(_, _) => turn.action is Git && is_through(run, p, f, k),
        UpdatePhase::Removing(_, _) => turn.action is RemoveDir && is_through(run, p, f, k),
        UpdatePhase::Over => {
            &&& turn.action matches Action::Finish(r)
            &&& r is Ok ==> is_through(run, p, f, k)
        },
    }
}

/// The place of a run.
spec fn place_of(task: Task, dir: Seq<char>, scope: Seq<char>) -> submodules::Place {
    submodules::Place {
        cfg: task.cfg@,
        tags: text::texts(task.exclude_tags@),
        dir,
        scope,
    }
}

/// Each step of a level is as its phase says.
proof fn lemma_level_step(
    run: LevelRun,
    task: Task,
    dir: Seq<char>,
    scope: Seq<char>,
    f: Files,
    log: Seq<Performed>,
    k: int,
)
    requires
        is_level(run, task, dir, scope, f, log),
        0 <= k < run.turns.len(),
    ensures
        run.states[k].task == task,
        run.states[k].dir@ == dir,
        run.states[k].scope@ == scope,
        level_awaits(run, place_of(task, dir, scope), f, k),
    decreases k,
{
    let p = place_of(task, dir, scope);
    if k > 0 {
        let j = k - 1;
        lemma_level_step(run, task, dir, scope, f, log, j);
        let (pre, reply, post, turn) = (run.states[j], run.replies[j], run.states[k], run.turns[k]);
        assert(submodules::update_moves(pre, reply, post, turn));
        assert(effect::answers(run.turns[j].action, reply));
        assert(nesting::tells(f, run.turns[j], reply));
        assert(submodules::place(pre) == p);
        assert(nesting::lists(dir).cwd == dir);
        match pre.phase {
            UpdatePhase::Looking => {
                if post.phase is Over {
                    assert(nesting::declares(f, dir).len() == 0);
                }
            },
            UpdatePhase::Reading => {
                lemma_after_reading(run, task, dir, scope, f, log, k);
            },
            UpdatePhase::Locking(skip, keep) => {
                lemma_none_kept(f, p, skip, keep);
            },
            UpdatePhase::Working(skip, n) => {
                lemma_after_working(run, task, dir, scope, f, log, k);
            },
            _ => {},
        }
        if is_through(run, p, f, j) {
            lemma_stays_through(run, p, f, j);
        }
    }
}

/// Once nothing is left to do, nothing is.
proof fn lemma_stays_through(run: LevelRun, p: submodules::Place, f: Files, n: int)
    requires
        is_through(run, p, f, n),
    ensures
        is_through(run, p, f, n + 1),
{
    if exists|k: int| 0 <= k < n && #[trigger] all_worked(run, p, f, k) {
        let k = choose|k: int| 0 <= k < n && #[trigger] all_worked(run, p, f, k);
        assert(0 <= k < n + 1 && all_worked(run, p, f, k));
    }
}

/// Where nothing is kept, nothing is left to do.
proof fn lemma_none_kept(
    f: Files,
    p: submodules::Place,
    skip: Vec<SubmoduleEntry>,
    keep: Vec<SubmoduleEntry>,
)
    requires
        are_parted(f, p, skip, keep),
    ensures
        keep@.len() == 0 ==> forall|e: SubmoduleView| #[trigger]
            nesting::declares(f, p.dir).contains(e) ==> submodules::skipped(e, p.tags, p.scope),
{
    if keep@.len() == 0 {
        assert forall|e: SubmoduleView| #[trigger]
            nesting::declares(f, p.dir).contains(e) implies submodules::skipped(
            e,
            p.tags,
            p.scope,
        ) by {
            if !submodules::skipped(e, p.tags, p.scope) {
                let i = lemma_kept_is_listed(f, p, skip, keep, e);
            }
        }
    }
}

/// The step after `.gitmodules` was read.
proof fn lemma_after_reading(
    run: LevelRun,
    task: Task,
    dir: Seq<char>,
    scope: Seq<char>,
    f: Files,
    log: Seq<Performed>,
    k: int,
)
    requires
        is_level(run, task, dir, scope, f, log),
        0 < k < run.turns.len(),
        run.states[k - 1].task == task,
        run.states[k - 1].dir@ == dir,
        run.states[k - 1].scope@ == scope,
        run.states[k - 1].phase is Reading,
        level_awaits(run, place_of(task, dir, scope), f, k - 1),
    ensures
        level_awaits(run, place_of(task, dir, scope), f, k),
{
    let p = place_of(task, dir, scope);
    let j = k - 1;
    let (pre, reply, post, turn) = (run.states[j], run.replies[j], run.states[k], run.turns[k]);
    assert(submodules::update_moves(pre, reply, post, turn));
    assert(effect::answers(run.turns[j].action, reply));
    assert(nesting::tells(f, run.turns[j], reply));
    assert(submodules::place(pre) == p);
    assert(nesting::lists(dir).cwd == dir);
    let r = reply->Git_0;
    if let Ok(raw) = git::checked(nesting::lists(dir), r) {
        let (skip, keep) = choose|skip: Vec<SubmoduleEntry>, keep: Vec<SubmoduleEntry>| #[trigger]
            submodules::parts_declared(p, raw, skip, keep) && submodules::sorts(
                p,
                skip,
                keep,
                post.phase,
                turn,
            );
        assert(are_parted(f, p, skip, keep));
        lemma_none_kept(f, p, skip, keep);
    }
}

/// The step after the workers.
proof fn lemma_after_working(
    run: LevelRun,
    task: Task,
    dir: Seq<char>,
    scope: Seq<char>,
    f: Files,
    log: Seq<Performed>,
    k: int,
)
    requires
        is_level(run, task, dir, scope, f, log),
        0 < k < run.turns.len(),
        run.states[k - 1].phase is Working,
        level_awaits(run, place_of(task, dir, scope), f, k - 1),
    ensures
        level_awaits(run, place_of(task, dir, scope), f, k),
{
    let p = place_of(task, dir, scope);
    let j = k - 1;
    let (pre, reply, post, turn) = (run.states[j], run.replies[j], run.states[k], run.turns[k]);
    assert(submodules::update_moves(pre, reply, post, turn));
    assert(effect::answers(run.turns[j].action, reply));
    let results = reply->Worked_0;
    let n = pre.phase->Working_1;
    if results@.len() == n {
        let (verdict, told) = choose|verdict: Result<(), Error>, told: Seq<Seq<char>>| #[trigger]
            parallel::comes_to(results@, verdict, told) && match verdict {
                Err(e) => post.phase is Over && effect::says(turn, told) && effect::fails(
                    turn,
                    e.kind,
                    e.message@,
                ),
                Ok(_) => submodules::deinits(
                    pre.dir@,
                    pre.phase->Working_0,
                    0,
                    post.phase,
                    turn,
                ),
            };
        parallel::succeeds_iff_all_do(results@, verdict, told);
        if verdict is Ok {
            assert(all_worked(run, p, f, j));
            assert(is_through(run, p, f, k));
        }
    }
}

/// What the tags keep is among what is declared.
proof fn lemma_kept_is_within(
    f: Files,
    tags: Seq<Seq<char>>,
    dir: Seq<char>,
    scope: Seq<char>,
    path: Seq<char>,
    depth: nat,
)
    requires
        kept_within(f, tags, dir, scope, path, depth),
    ensures
        nesting::within(f, dir, path, depth),
    decreases depth,
{
    let e = choose|e: SubmoduleView| #[trigger]
        nesting::declares(f, dir).contains(e) && !submodules::skipped(e, tags, scope) && (path
            == fs_paths::path_in(dir, e.path) || kept_within(
            f,
            tags,
            fs_paths::path_in(dir, e.path),
            submodules::nested_scope(scope, e.name),
            path,
            (depth - 1) as nat,
        ));
    let sub = fs_paths::path_in(dir, e.path);
    if path != sub {
        lemma_kept_is_within(
            f,
            tags,
            sub,
            submodules::nested_scope(scope, e.name),
            path,
            (depth - 1) as nat,
        );
    }
}

// ---------------------------------------------------------------------------
// The commands of a run
// ---------------------------------------------------------------------------

/// The commands of a level itself concern no ref.
proof fn lemma_level_command(pre: Update, reply: Reply, post: Update, turn: Turn)
    requires
        submodules::update_moves(pre, reply, post, turn),
    ensures
        turn.action matches Action::Git(c) ==> refs::order_of(c@) is Other,
{
    let dir = pre.dir@;
    let p = submodules::place(pre);
    if turn.action is Git {
        match (pre.phase, reply) {
            (UpdatePhase::Looking, Reply::Exists(_)) => {
                refs::lemma_orders(dir, submodules::modules_file(dir));
            },
            (UpdatePhase::Reading, Reply::Git(r)) => {
                let raw = git::checked(
                    git::config_file_list_command(dir, submodules::modules_file(dir)),
                    r,
                )->Ok_0;
                let (skip, keep) = choose|
                    skip: Vec<SubmoduleEntry>,
                    keep: Vec<SubmoduleEntry>,
                | #[trigger]
                    submodules::parts_declared(p, raw, skip, keep) && submodules::sorts(
                        p,
                        skip,
                        keep,
                        post.phase,
                        turn,
                    );
                if keep@.len() == 0 {
                    refs::lemma_orders(dir, skip@[0]@.path);
                } else if p.scope.len() == 0 {
                    refs::lemma_orders(p.cfg.source, dir);
                } else {
                    lemma_register(p, keep@[0]@);
                }
            },
            (UpdatePhase::Locking(skip, keep), Reply::Taken(_)) => {
                if keep@.len() == 0 {
                    refs::lemma_orders(dir, skip@[0]@.path);
                } else {
                    lemma_register(p, keep@[0]@);
                }
            },
            (UpdatePhase::Writing(skip, keep, at), Reply::Git(_)) => {
                lemma_register(p, keep@[at + 1]@);
            },
            (UpdatePhase::Working(skip, _), Reply::Worked(_)) => {
                refs::lemma_orders(dir, skip@[0]@.path);
            },
            (UpdatePhase::Removing(skip, at), Reply::Done) => {
                refs::lemma_orders(dir, skip@[at + 1]@.path);
            },
            _ => {},
        }
    }
}

/// The commands of a level itself stand in the log and concern no ref.
proof fn lemma_level_commands(
    run: LevelRun,
    task: Task,
    dir: Seq<char>,
    scope: Seq<char>,
    f: Files,
    log: Seq<Performed>,
    k: int,
)
    requires
        is_update(run, task, dir, scope, f, log),
        0 <= k < run.replies.len(),
        run.turns[k].action is Git,
    ensures
        0 <= run.at[k] < log.len(),
        refs::order_of(log[run.at[k]].command) is Other,
{
    assert(refs::stands_at(log, run.at[k], run.turns[k], run.replies[k]));
    assert(k > 0);
    let j = k - 1;
    assert(submodules::update_moves(
        run.states[j],
        run.replies[j],
        run.states[j + 1],
        run.turns[j + 1],
    ));
    lemma_level_command(run.states[j], run.replies[j], run.states[k], run.turns[k]);
}

/// Registering the URL of a submodule concerns no ref.
proof fn lemma_register(p: submodules::Place, e: SubmoduleView)
    ensures
        submodules::fetch_url(p.cfg, e, p.scope) matches Ok(url) ==> refs::order_of(
            submodules::register_command(p.dir, e.name, url),
        ) is Other,
{
    if let Ok(url) = submodules::fetch_url(p.cfg, e, p.scope) {
        refs::lemma_register_order(p.dir, e.name, url);
    }
}

/// Where a level ended well, so did all its workers.
proof fn lemma_workers_ended_well(
    run: LevelRun,
    task: Task,
    dir: Seq<char>,
    scope: Seq<char>,
    f: Files,
    log: Seq<Performed>,
    t: int,
    j: int,
)
    requires
        is_update(run, task, dir, scope, f, log),
        ended_well(run.turns),
        0 <= t < run.replies.len(),
        run.turns[t].action is UpdateEach,
        0 <= j < run.workers.len(),
    ensures
        ended_well(run.workers[j].turns),
        is_worker(
            run.workers[j],
            task,
            dir,
            scope,
            run.turns[t].action->UpdateEach_0@[j],
            f,
            log,
        ),
{
    lemma_level_step(run, task, dir, scope, f, log, t);
    let (pre, reply, post, turn) = (run.states[t], run.replies[t], run.states[t + 1], run.turns[t
        + 1]);
    assert(submodules::update_moves(pre, reply, post, turn));
    let results = reply->Worked_0;
    assert(pre.phase is Working);
    let (verdict, told) = choose|verdict: Result<(), Error>, told: Seq<Seq<char>>| #[trigger]
        parallel::comes_to(results@, verdict, told) && match verdict {
            Err(e) => post.phase is Over && effect::says(turn, told) && effect::fails(
                turn,
                e.kind,
                e.message@,
            ),
            Ok(_) => submodules::deinits(pre.dir@, pre.phase->Working_0, 0, post.phase, turn),
        };
    parallel::succeeds_iff_all_do(results@, verdict, told);
    if verdict is Err {
        if t + 1 < run.replies.len() {
            assert(effect::answers(turn.action, run.replies[t + 1]));
        }
        assert(run.turns.last() == turn);
    }
    assert(comes_to(run.workers[j].turns.last(), results@[j]));
}

/// A worker that ended well: each of its own commands takes part.
proof fn lemma_worker_command(
    run: WorkerRun,
    task: Task,
    dir: Seq<char>,
    scope: Seq<char>,
    entry: SubmoduleEntry,
    f: Files,
    log: Seq<Performed>,
    k: int,
)
    requires
        is_worker(run, task, dir, scope, entry, f, log),
        ended_well(run.turns),
        0 <= k < run.replies.len(),
        run.turns[k].action is Git,
    ensures
        0 <= run.at[k] < log.len(),
        refs::takes_part(log, run.at[k], task.branch@),
{
    let sub = fs_paths::path_in(dir, entry@.path);
    let branch = task.branch@;
    lemma_work_step(run, task, dir, scope, entry, f, log, k);
    assert(refs::stands_at(log, run.at[k], run.turns[k], run.replies[k]));
    refs::lemma_orders(sub, branch);
    if k == 0 {
        lemma_worker_passes(run, task, dir, scope, entry, f, log, 3);
        lemma_work_step(run, task, dir, scope, entry, f, log, 2);
        refs::lemma_orders(dir, entry@.path);
        assert(run.at[0] < run.at[2]);
        assert(refs::attaches_at(log, run.at[2], sub, branch));
        assert(refs::attached_after(log, run.at[0], sub, branch));
    }
}

/// Where a worker ended well, so did the level below it.
proof fn lemma_below_ended_well(
    run: WorkerRun,
    task: Task,
    dir: Seq<char>,
    scope: Seq<char>,
    entry: SubmoduleEntry,
    f: Files,
    log: Seq<Performed>,
    t: int,
)
    requires
        is_worker(run, task, dir, scope, entry, f, log),
        ended_well(run.turns),
        0 <= t < run.replies.len(),
        run.turns[t].action is Update,
    ensures
        run.below.len() == 1,
        ended_well(run.below[0].turns),
        is_update(
            run.below[0],
            task,
            run.turns[t].action->Update_0@,
            run.turns[t].action->Update_1@,
            f,
            log,
        ),
{
    lemma_work_step(run, task, dir, scope, entry, f, log, t);
    lemma_work_goes_on(run, task, dir, scope, entry, f, log, t);
}

/// Every command of an update that ended well takes part, or concerns no ref.
proof fn lemma_made(
    run: LevelRun,
    task: Task,
    dir: Seq<char>,
    scope: Seq<char>,
    f: Files,
    log: Seq<Performed>,
    i: int,
)
    requires
        is_update(run, task, dir, scope, f, log),
        ended_well(run.turns),
        made(run, i),
    ensures
        0 <= i < log.len(),
        refs::order_of(log[i].command) is Other || refs::takes_part(log, i, task.branch@),
    decreases run,
{
    if refs::is_step_at(run.turns, run.replies, run.at, i) {
        let k = choose|k: int|
            0 <= k < run.replies.len() && (#[trigger] run.turns[k]).action is Git && run.at[k] == i;
        lemma_level_commands(run, task, dir, scope, f, log, k);
    } else if exists|t: int, j: int| #[trigger]
        hands_out(run, t, j) && refs::is_step_at(
            run.workers[j].turns,
            run.workers[j].replies,
            run.workers[j].at,
            i,
        ) {
        let (t, j) = choose|t: int, j: int| #[trigger]
            hands_out(run, t, j) && refs::is_step_at(
                run.workers[j].turns,
                run.workers[j].replies,
                run.workers[j].at,
                i,
            );
        lemma_workers_ended_well(run, task, dir, scope, f, log, t, j);
        let worker = run.workers[j];
        let entry = run.turns[t].action->UpdateEach_0@[j];
        let k = choose|k: int|
            0 <= k < worker.replies.len() && (#[trigger] worker.turns[k]).action is Git
                && worker.at[k] == i;
        lemma_worker_command(worker, task, dir, scope, entry, f, log, k);
    } else {
        let (t, j, u) = choose|t: int, j: int, u: int| #[trigger]
            hands_out(run, t, j) && #[trigger] descends(run.workers[j], u) && made(
                run.workers[j].below[0],
                i,
            );
        lemma_workers_ended_well(run, task, dir, scope, f, log, t, j);
        let worker = run.workers[j];
        let entry = run.turns[t].action->UpdateEach_0@[j];
        lemma_below_ended_well(worker, task, dir, scope, entry, f, log, u);
        let (p, s) = (worker.turns[u].action->Update_0, worker.turns[u].action->Update_1);
        lemma_made(worker.below[0], task, p@, s@, f, log, i);
    }
}

// ---------------------------------------------------------------------------
// Laws
// ---------------------------------------------------------------------------

/// An update that ended well put every submodule that the tags keep on the branch, however
/// deep it is nested: it was fetched, the branch was created in it and its `HEAD` put on
/// the branch, and each of the three succeeded.
pub proof fn update_branches_every_kept_submodule(
    run: LevelRun,
    task: Task,
    dir: Seq<char>,
    scope: Seq<char>,
    f: Files,
    log: Seq<Performed>,
    path: Seq<char>,
    depth: nat,
)
    requires
        is_update(run, task, dir, scope, f, log),
        ended_well(run.turns),
        kept_within(f, text::texts(task.exclude_tags@), dir, scope, path, depth),
    ensures
        branched(log, path, task.branch@),
    decreases depth,
{
    let p = place_of(task, dir, scope);
    let tags = text::texts(task.exclude_tags@);
    let last = run.turns.len() - 1;
    lemma_level_step(run, task, dir, scope, f, log, last);
    let e = choose|e: SubmoduleView| #[trigger]
        nesting::declares(f, dir).contains(e) && !submodules::skipped(e, tags, scope) && (path
            == fs_paths::path_in(dir, e.path) || kept_within(
            f,
            tags,
            fs_paths::path_in(dir, e.path),
            submodules::nested_scope(scope, e.name),
            path,
            (depth - 1) as nat,
        ));
    let sub = fs_paths::path_in(dir, e.path);
    let k = choose|k: int| 0 <= k < last && #[trigger] all_worked(run, p, f, k);
    let keep = run.turns[k].action->UpdateEach_0;
    let results = run.replies[k]->Worked_0;
    let skip = choose|skip: Vec<SubmoduleEntry>| are_parted(f, p, skip, keep);
    let i = lemma_kept_is_listed(f, p, skip, keep, e);
    assert(is_worker(run.workers[i], task, dir, scope, keep@[i], f, log));
    assert(comes_to(run.workers[i].turns.last(), results@[i]));
    lemma_worker_ended_well(run.workers[i], task, dir, scope, keep@[i], f, log);
    if path != sub {
        assert(nesting::declares(f, sub).len() > 0);
        update_branches_every_kept_submodule(
            run.workers[i].below[0],
            task,
            sub,
            submodules::nested_scope(scope, e.name),
            f,
            log,
            path,
            (depth - 1) as nat,
        );
    }
}

/// An update that ended well leaves every submodule that the tags keep on the branch,
/// however deep it is nested: its `HEAD` is on it, and its repository has it.
pub proof fn update_leaves_every_kept_submodule_on_the_branch(
    w: Refs,
    run: LevelRun,
    task: Task,
    dir: Seq<char>,
    scope: Seq<char>,
    f: Files,
    log: Seq<Performed>,
)
    requires
        is_update(run, task, dir, scope, f, log),
        forall|i: int| 0 <= i < log.len() ==> #[trigger] made(run, i),
        ended_well(run.turns),
    ensures
        forall|path: Seq<char>, depth: nat| #[trigger]
            kept_within(f, text::texts(task.exclude_tags@), dir, scope, path, depth)
                ==> refs::is_on_branch(refs::after(w, log), path, task.branch@),
{
    let branch = task.branch@;
    assert forall|i: int| 0 <= i < log.len() implies refs::order_of((#[trigger] log[i]).command) is Other
        || refs::takes_part(log, i, branch) by {
        assert(made(run, i));
        lemma_made(run, task, dir, scope, f, log, i);
    }
    assert forall|path: Seq<char>, depth: nat| #[trigger]
        kept_within(
            f,
            text::texts(task.exclude_tags@),
            dir,
            scope,
            path,
            depth,
        ) implies refs::is_on_branch(refs::after(w, log), path, branch) by {
        update_branches_every_kept_submodule(run, task, dir, scope, f, log, path, depth);
        refs::lemma_orders(path, branch);
        let (i, j, k) = choose|i: int, j: int, k: int|
            0 <= i < j < k < log.len() && #[trigger] fetched_at(log, i, path)
                && #[trigger] succeeded_at(log, j, git::branch_at_head_command(path, branch))
                && #[trigger] succeeded_at(log, k, git::attach_head_command(path, branch));
        assert(refs::attaches_at(log, k, path, branch));
        refs::lemma_ends_attached(w, log, branch, path, k);
        refs::lemma_ends_created(w, log, branch, j, log.len());
    }
}

/// Release undoes what acquire did to submodules: each one that an update put on the
/// branch is taken off it by the deletion of the branch, and stays at its commit.
pub proof fn deletion_undoes_update(
    w: Refs,
    up: LevelRun,
    task: Task,
    dir: Seq<char>,
    scope: Seq<char>,
    f: Files,
    log: Seq<Performed>,
    down: DeletionRun,
    later: Seq<Performed>,
)
    requires
        is_update(up, task, dir, scope, f, log),
        forall|i: int| 0 <= i < log.len() ==> #[trigger] made(up, i),
        ended_well(up.turns),
        deletion_runs::is_deletion(down, dir, task.branch@, f, later),
        forall|i: int| 0 <= i < later.len() ==> #[trigger] deletion_runs::made(down, i),
        refs::obliging(refs::after(w, log), later),
    ensures
        forall|path: Seq<char>, depth: nat| #[trigger]
            kept_within(f, text::texts(task.exclude_tags@), dir, scope, path, depth) ==> {
                let between = refs::after(w, log);
                let end = refs::after(between, later);
                &&& refs::is_on_branch(between, path, task.branch@)
                &&& refs::gone(end, path, task.branch@)
                &&& end.heads[path].commit == between.heads[path].commit
            },
{
    let tags = text::texts(task.exclude_tags@);
    let between = refs::after(w, log);
    let end = refs::after(between, later);
    update_leaves_every_kept_submodule_on_the_branch(w, up, task, dir, scope, f, log);
    deletion_runs::deletion_takes_the_branch_away(between, down, dir, task.branch@, f, later);
    assert forall|path: Seq<char>, depth: nat| #[trigger]
        kept_within(f, tags, dir, scope, path, depth) implies refs::is_on_branch(
        between,
        path,
        task.branch@,
    ) && refs::gone(end, path, task.branch@) && end.heads[path].commit
        == between.heads[path].commit by {
        lemma_kept_is_within(f, tags, dir, scope, path, depth);
        assert(nesting::is_nested(f, dir, path));
    }
}

/// What an acquire works with when it updates submodules.
pub open spec fn is_task_of(task: Task, job: acquire::Job) -> bool {
    &&& task.cfg == job.cfg
    &&& *task.exclude_tags == job.args.exclude_submodule_tags
    &&& task.branch@ == job.args.lease@
}

/// What an acquire delivers is on the lease's branch throughout: where a run ends with a
/// path, its update left every submodule at it that the tags keep on that branch, however
/// deep it is nested. The acquire is told what its update came to.
pub proof fn delivered_submodules_are_on_the_lease(
    w: Refs,
    job: acquire::Job,
    states: Seq<Acquire>,
    turns: Seq<Turn>,
    replies: Seq<Reply>,
    path: Seq<char>,
    level: LevelRun,
    task: Task,
    f: Files,
    log: Seq<Performed>,
    sub: Seq<char>,
    depth: nat,
)
    requires
        acquire::is_run(job, states, turns, replies),
        turns.last().action matches Action::Finish(Ok(o)) && text::opt_text(o) == Some(path),
        is_task_of(task, job),
        forall|k: int|
            0 <= k < replies.len() ==> ((#[trigger] turns[k]).action matches Action::Update(p, s)
                ==> is_update(level, task, p@, s@, f, log) && (replies[k] matches Reply::Ended(r)
                && comes_to(level.turns.last(), r))),
        forall|i: int| 0 <= i < log.len() ==> #[trigger] made(level, i),
        kept_within(
            f,
            text::texts(job.args.exclude_submodule_tags@),
            path,
            Seq::empty(),
            sub,
            depth,
        ),
    ensures
        branched(log, sub, job.args.lease@),
        refs::is_on_branch(refs::after(w, log), sub, job.args.lease@),
{
    acquire::delivered_slot_was_updated(job, states, turns, replies, path);
    let (i, c) = choose|i: int, c: acquire::Chosen|
        0 <= i < replies.len() && #[trigger] acquire::updated_at(states, turns, replies, i, c)
            && c.path@ == path;
    let s = turns[i].action->Update_1;
    assert(s@ =~= Seq::empty());
    update_branches_every_kept_submodule(level, task, path, s@, f, log, sub, depth);
    update_leaves_every_kept_submodule_on_the_branch(w, level, task, path, s@, f, log);
}

} // verus!
