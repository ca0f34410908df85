//! Whole runs of `release`: what they leave of the refs, and that releasing again is safe.
use crate::deletion_runs;
use crate::deletion_runs::DeletionRun;
use crate::effect;
use crate::effect::{Action, Reply, Turn};
use crate::fs_paths;
use crate::git;
use crate::nesting;
use crate::nesting::Files;
use crate::refs;
use crate::refs::{Performed, Refs};
use crate::release;
use crate::release::{Held, Job, Phase, Release};
use crate::slot;
use crate::slot::SlotEntryView;
use crate::text;
use vstd::prelude::*;

verus! {

/// A run of a release, and where its commands stand in the log; and the run of the
/// deletion in the submodules, where the release gets there.
pub struct ReleaseRun<'a> {
    pub states: Seq<Release<'a>>,
    pub turns: Seq<Turn>,
    pub replies: Seq<Reply>,
    pub at: Seq<int>,
    pub below: DeletionRun,
}

/// The whole run that `release::run` begins.
pub open spec fn is_release(run: ReleaseRun, job: Job, f: Files, log: Seq<Performed>) -> bool {
    &&& effect::is_whole(run.turns, run.replies)
    &&& run.states.len() == run.turns.len()
    &&& release::begins(job, run.states[0], run.turns[0])
    &&& forall|k: int|
        0 <= k < run.replies.len() ==> release::moves(
            #[trigger] run.states[k],
            run.replies[k],
            run.states[k + 1],
            run.turns[k + 1],
        )
    &&& refs::logged(log, run.at, run.turns, run.replies)
    &&& forall|k: int|
        0 <= k < run.turns.len() ==> ((#[trigger] run.turns[k]).action matches Action::DeleteBranches(
            p,
            b,
        ) ==> deletion_runs::is_deletion(run.below, p@, b@, f, log))
}

/// The command at an index of the log is one of the run's.
pub open spec fn made(run: ReleaseRun, i: int) -> bool {
    ||| refs::is_step_at(run.turns, run.replies, run.at, i)
    ||| exists|k: int|
        0 <= k < run.turns.len() && (#[trigger] run.turns[k]).action is DeleteBranches
            && deletion_runs::made(run.below, i)
}

/// Every command of the log is one of the run's.
pub open spec fn is_its_log(run: ReleaseRun, log: Seq<Performed>) -> bool {
    forall|i: int| 0 <= i < log.len() ==> #[trigger] made(run, i)
}

/// The slot that a run releases: the one that the listing or else the probe showed.
pub open spec fn found(run: ReleaseRun) -> Option<Held> {
    if run.turns.len() > 2 && run.states[2].phase is Finding {
        Some(run.states[2].phase->Finding_0)
    } else if run.turns.len() > 3 && run.states[3].phase is Finding {
        Some(run.states[3].phase->Finding_0)
    } else {
        None
    }
}

/// What a release is about to be told, in each of its phases.
spec fn awaits(run: ReleaseRun, k: int, job: Job) -> bool {
    let turn = run.turns[k];
    match run.states[k].phase {
        Phase::Locking => k == 0 && turn.action is TakeLock,
        Phase::Listing => k == 1 && turn.action is List,
        Phase::Probing => k == 2 && turn.action is Probe,
        Phase::Finding(h) => {
            &&& k == 2 || k == 3
            &&& found(run) == Some(h)
            &&& effect::runs_git(turn, git::head_sha_command(h.path@))
        },
        Phase::Detaching(h, sha) => {
            &&& k > 2
            &&& found(run) == Some(h)
            &&& run.states[k - 1].phase == Phase::Finding(h)
            &&& run.replies[k - 1] matches Reply::Git(r)
            &&& git::checked(git::head_sha_command(h.path@), r) == Ok::<Seq<char>, Seq<char>>(sha@)
            &&& effect::runs_git(turn, git::detach_head_command(h.path@, sha@))
        },
        Phase::Deleting(h) => found(run) == Some(h) && effect::runs_git(
            turn,
            git::branch_delete_command(h.path@, h.lease@),
        ),
        Phase::Pushing(h) => found(run) == Some(h) && effect::runs_git(
            turn,
            git::push_delete_command(h.path@, "origin"@, h.lease@),
        ),
        Phase::Descending(h) => {
            &&& found(run) == Some(h)
            &&& turn.action matches Action::DeleteBranches(p, b)
            &&& p@ == h.path@
            &&& b@ == h.lease@
        },
        Phase::Over => turn.action is Finish,
    }
}

/// Each step of a release is as its phase says.
proof fn lemma_release(run: ReleaseRun, job: Job, f: Files, log: Seq<Performed>, k: int)
    requires
        is_release(run, job, f, log),
        0 <= k < run.turns.len(),
    ensures
        run.states[k].job == job,
        awaits(run, k, job),
    decreases k,
{
    if k > 0 {
        let j = k - 1;
        lemma_release(run, job, f, log, j);
        assert(release::moves(run.states[j], run.replies[j], run.states[k], run.turns[k]));
        assert(effect::answers(run.turns[j].action, run.replies[j]));
        if k == 3 && run.states[3].phase is Finding {
            assert(run.states[2].phase is Probing);
        }
    }
}

/// A checkout that a release works on: the slot, or a submodule in it.
pub open spec fn is_part(f: Files, h: Held, path: Seq<char>) -> bool {
    path == h.path@ || nesting::is_nested(f, h.path@, path)
}

/// A log of one run only tidies, and only the slot and the submodules in it.
proof fn lemma_only_tidies(run: ReleaseRun, job: Job, f: Files, log: Seq<Performed>, h: Held)
    requires
        is_release(run, job, f, log),
        is_its_log(run, log),
        found(run) == Some(h),
    ensures
        refs::only_tidies(log, h.lease@),
        forall|i: int|
            0 <= i < log.len() ==> refs::order_of((#[trigger] log[i]).command) is Other || is_part(
                f,
                h,
                log[i].command.cwd,
            ),
{
    assert forall|i: int| 0 <= i < log.len() implies refs::order_of((#[trigger] log[i]).command) is Other
        || (refs::tidies(log, i, log[i].command.cwd, h.lease@) && is_part(
        f,
        h,
        log[i].command.cwd,
    )) by {
        assert(made(run, i));
        if refs::is_step_at(run.turns, run.replies, run.at, i) {
            let k = choose|k: int|
                0 <= k < run.replies.len() && (#[trigger] run.turns[k]).action is Git && run.at[k]
                    == i;
            lemma_command(run, job, f, log, h, k);
        } else {
            let k = choose|k: int|
                0 <= k < run.turns.len() && (#[trigger] run.turns[k]).action is DeleteBranches
                    && deletion_runs::made(run.below, i);
            lemma_release(run, job, f, log, k);
            assert(deletion_runs::is_deletion(run.below, h.path@, h.lease@, f, log));
            deletion_runs::lemma_made(run.below, h.path@, h.lease@, f, log, i);
        }
    }
}

/// What a git command of the release itself asks for.
proof fn lemma_command(run: ReleaseRun, job: Job, f: Files, log: Seq<Performed>, h: Held, k: int)
    requires
        is_release(run, job, f, log),
        found(run) == Some(h),
        0 <= k < run.replies.len(),
        run.turns[k].action is Git,
    ensures
        refs::stands_at(log, run.at[k], run.turns[k], run.replies[k]),
        log[run.at[k]].command.cwd == h.path@,
        refs::order_of(log[run.at[k]].command) is Other || refs::tidies(
            log,
            run.at[k],
            h.path@,
            h.lease@,
        ),
{
    lemma_release(run, job, f, log, k);
    let i = run.at[k];
    assert(refs::stands_at(log, i, run.turns[k], run.replies[k]));
    refs::lemma_orders(h.path@, h.lease@);
    if let Phase::Detaching(_, sha) = run.states[k].phase {
        let j = k - 1;
        refs::lemma_orders(h.path@, sha@);
        lemma_release(run, job, f, log, j);
        assert(refs::stands_at(log, run.at[j], run.turns[j], run.replies[j]));
        assert(run.at[j] < i);
        assert(refs::asked(log, run.at[j], h.path@, sha@));
        assert(refs::asked_before(log, i, h.path@, sha@));
    }
}

// ---------------------------------------------------------------------------
// What the pool shows
// ---------------------------------------------------------------------------

/// The path of a slot of the pool.
pub open spec fn is_slot_path(job: Job, path: Seq<char>) -> bool {
    exists|id: Seq<char>| #[trigger]
        slot::slot_of(job.cfg@.groups, id) is Some && path == fs_paths::path_in(job.pool_root@, id)
}

/// No two slots of the pool show one lease.
pub open spec fn one_slot_per_lease(w: Refs, job: Job) -> bool {
    forall|p: Seq<char>, q: Seq<char>| #[trigger]
        is_slot_path(job, p) && #[trigger] is_slot_path(job, q) && w.heads.contains_key(p)
            && w.heads.contains_key(q) && refs::lease_of(w, w.heads[p]) is Some && refs::lease_of(
            w,
            w.heads[p],
        ) == refs::lease_of(w, w.heads[q]) ==> p == q
}

/// The listing shows the slots of the pool, the text of each `HEAD` and the branch that git
/// shows of it, as they are.
pub open spec fn shows(w: Refs, job: Job, l: slot::DirReply) -> bool {
    &&& slot::enumerated(job.pool_root@, job.cfg@.groups, l) matches Ok(entries)
    &&& forall|i: int|
        0 <= i < entries.len() ==> w.heads.contains_key((#[trigger] entries[i]).path)
            && entries[i].head == Some(refs::head_text(w.heads[entries[i].path]))
            && entries[i].branch == refs::lease_of(w, w.heads[entries[i].path])
    &&& forall|p: Seq<char>| #[trigger]
        is_slot_path(job, p) && w.heads.contains_key(p) ==> exists|i: int|
            0 <= i < entries.len() && (#[trigger] entries[i]).path == p
}

/// A look at the directory that is named like the lease shows its `HEAD`, and the branch
/// that git shows of it, as they are.
pub open spec fn shows_named(
    w: Refs,
    job: Job,
    is_dir: bool,
    head: Option<String>,
    branch: Option<String>,
) -> bool {
    let dir = release::named_dir(job);
    is_dir ==> {
        &&& w.heads.contains_key(dir)
        &&& text::opt_text(head) == Some(refs::head_text(w.heads[dir]))
        &&& text::opt_text(branch) == refs::lease_of(w, w.heads[dir])
    }
}

/// The replies of a run show the pool as it is, and the run gets the mutex.
pub open spec fn is_shown(run: ReleaseRun, w: Refs, job: Job) -> bool {
    &&& run.replies.len() > 0 ==> (run.replies[0] matches Reply::Taken(r) ==> r is Ok)
    &&& run.replies.len() > 1 ==> (run.replies[1] matches Reply::Listing(l) ==> shows(w, job, l))
    &&& run.replies.len() > 2 ==> (run.replies[2] matches Reply::Probed(is_dir, head, branch)
        ==> shows_named(w, job, is_dir, head, branch))
}

/// Nothing is held that the lease could mean: no slot shows it, and no directory that is
/// named like it is held.
pub open spec fn nothing_held(w: Refs, job: Job) -> bool {
    &&& forall|p: Seq<char>| #[trigger]
        is_slot_path(job, p) && w.heads.contains_key(p) ==> refs::lease_of(w, w.heads[p]) != Some(
            job.args.lease@,
        )
    &&& w.heads.contains_key(release::named_dir(job)) ==> w.heads[release::named_dir(
        job,
    )].branch is None
}

/// What a listing shows are slots of the pool.
proof fn lemma_entry_is_slot(
    root: Seq<char>,
    groups: Seq<Seq<char>>,
    seen: Seq<slot::SeenView>,
    i: int,
)
    requires
        0 <= i < slot::entries_seen(root, groups, seen).len(),
    ensures
        slot::slot_of(groups, slot::entries_seen(root, groups, seen)[i].id) is Some,
        slot::entries_seen(root, groups, seen)[i].path == fs_paths::path_in(
            root,
            slot::entries_seen(root, groups, seen)[i].id,
        ),
    decreases seen.len(),
{
    if seen.len() > 0 {
        let before = slot::entries_seen(root, groups, seen.drop_last());
        if i < before.len() {
            lemma_entry_is_slot(root, groups, seen.drop_last(), i);
        }
    }
}

/// A slot is shown under the lease that git shows.
proof fn lemma_leased_is_shown(w: Refs, e: SlotEntryView, name: Seq<char>)
    requires
        refs::is_sound(w),
        w.heads.contains_key(e.path),
        e.head == Some(refs::head_text(w.heads[e.path])),
        e.branch == refs::lease_of(w, w.heads[e.path]),
    ensures
        slot::leased(e, name) <==> refs::lease_of(w, w.heads[e.path]) == Some(name),
{
    refs::text_tells_held(w.heads[e.path]);
}

/// The git command of a detaching step detaches `HEAD`.
proof fn lemma_detach_order(run: ReleaseRun, job: Job, f: Files, log: Seq<Performed>, h: Held, k: int)
    requires
        is_release(run, job, f, log),
        found(run) == Some(h),
        0 <= k < run.replies.len(),
        run.states[k].phase is Detaching,
    ensures
        refs::stands_at(log, run.at[k], run.turns[k], run.replies[k]),
        refs::order_of(log[run.at[k]].command) is DetachHead,
        log[run.at[k]].command.cwd == h.path@,
{
    lemma_release(run, job, f, log, k);
    lemma_command(run, job, f, log, h, k);
    refs::lemma_orders(h.path@, run.states[k].phase->Detaching_1@);
}

/// Where git does what it is asked, the steps after the one that asks for the commit are
/// to detach `HEAD` and to delete the branch.
proof fn lemma_detaches(
    w: Refs,
    run: ReleaseRun,
    job: Job,
    f: Files,
    log: Seq<Performed>,
    h: Held,
    at: int,
)
    requires
        is_release(run, job, f, log),
        is_its_log(run, log),
        refs::obliging(w, log),
        found(run) == Some(h),
        0 <= at < run.turns.len(),
        run.states[at].phase == Phase::Finding(h),
        w.heads.contains_key(h.path@),
    ensures
        at + 2 < run.turns.len(),
        run.states[at + 1].phase is Detaching,
        run.states[at + 2].phase == Phase::Deleting(h),
{
    lemma_only_tidies(run, job, f, log, h);
    lemma_release(run, job, f, log, at);
    assert(effect::answers(run.turns[at].action, run.replies[at]));
    lemma_command(run, job, f, log, h, at);
    let i = run.at[at];
    assert(refs::order_of(log[i].command) is AskHead) by {
        refs::lemma_orders(h.path@, h.lease@);
    }
    let then = refs::after_first(w, log, i as nat);
    assert(then.heads.contains_key(h.path@)) by {
        refs::lemma_tidied(w, log, h.lease@, i as nat);
        assert(then.heads.dom().contains(h.path@));
    }
    assert(refs::obliges(then, log[i].command, log[i].reply));
    lemma_release(run, job, f, log, at + 1);
    assert(release::moves(run.states[at], run.replies[at], run.states[at + 1], run.turns[at + 1]));
    assert(run.states[at + 1].phase is Detaching);
    lemma_deletes(w, run, job, f, log, h, at + 1);
}

/// Where git does what it is asked, the step after the one that detaches `HEAD` deletes
/// the branch.
proof fn lemma_deletes(
    w: Refs,
    run: ReleaseRun,
    job: Job,
    f: Files,
    log: Seq<Performed>,
    h: Held,
    at: int,
)
    requires
        is_release(run, job, f, log),
        is_its_log(run, log),
        refs::obliging(w, log),
        found(run) == Some(h),
        0 <= at < run.turns.len(),
        run.states[at].phase is Detaching,
        w.heads.contains_key(h.path@),
    ensures
        at + 1 < run.turns.len(),
        run.states[at + 1].phase == Phase::Deleting(h),
{
    lemma_only_tidies(run, job, f, log, h);
    lemma_release(run, job, f, log, at);
    assert(effect::answers(run.turns[at].action, run.replies[at]));
    lemma_detach_order(run, job, f, log, h, at);
    let i = run.at[at];
    let then = refs::after_first(w, log, i as nat);
    assert(then.heads.contains_key(h.path@)) by {
        refs::lemma_tidied(w, log, h.lease@, i as nat);
        assert(then.heads.dom().contains(h.path@));
    }
    assert(refs::obliges(then, log[i].command, log[i].reply));
    assert(release::moves(run.states[at], run.replies[at], run.states[at + 1], run.turns[at + 1]));
}

/// From the deletion of the branch on, a release goes through to its end.
proof fn lemma_goes_through(
    run: ReleaseRun,
    job: Job,
    f: Files,
    log: Seq<Performed>,
    h: Held,
    at: int,
)
    requires
        is_release(run, job, f, log),
        found(run) == Some(h),
        0 <= at < run.turns.len(),
        run.states[at].phase == Phase::Deleting(h),
    ensures
        at + 2 < run.replies.len(),
        run.states[at + 2].phase == Phase::Descending(h),
        effect::succeeds(run.turns.last()),
{
    lemma_release(run, job, f, log, at);
    assert(effect::answers(run.turns[at].action, run.replies[at]));
    assert(release::moves(run.states[at], run.replies[at], run.states[at + 1], run.turns[at + 1]));
    lemma_release(run, job, f, log, at + 1);
    assert(effect::answers(run.turns[at + 1].action, run.replies[at + 1]));
    assert(release::moves(
        run.states[at + 1],
        run.replies[at + 1],
        run.states[at + 2],
        run.turns[at + 2],
    ));
    lemma_release(run, job, f, log, at + 2);
    assert(effect::answers(run.turns[at + 2].action, run.replies[at + 2]));
    assert(release::moves(
        run.states[at + 2],
        run.replies[at + 2],
        run.states[at + 3],
        run.turns[at + 3],
    ));
    if run.replies.len() > at + 3 {
        assert(effect::answers(run.turns[at + 3].action, run.replies[at + 3]));
    }
    assert(run.turns.last() == run.turns[at + 3]);
}

/// Where git does what it is asked, a release that found a slot frees it, and descends
/// into its submodules.
proof fn lemma_slot_is_free(
    w: Refs,
    run: ReleaseRun,
    job: Job,
    f: Files,
    log: Seq<Performed>,
    h: Held,
)
    requires
        is_release(run, job, f, log),
        is_its_log(run, log),
        refs::obliging(w, log),
        found(run) == Some(h),
        w.heads.contains_key(h.path@),
    ensures
        effect::succeeds(run.turns.last()),
        refs::gone(refs::after(w, log), h.path@, h.lease@),
        deletion_runs::is_deletion(run.below, h.path@, h.lease@, f, log),
{
    let at = if run.turns.len() > 2 && run.states[2].phase is Finding {
        2int
    } else {
        3int
    };
    lemma_only_tidies(run, job, f, log, h);
    lemma_detaches(w, run, job, f, log, h, at);
    lemma_goes_through(run, job, f, log, h, at + 2);
    lemma_detach_order(run, job, f, log, h, at + 1);
    refs::lemma_stays_tidy(w, log, h.lease@, run.at[at + 1], log.len());
    refs::lemma_orders(h.path@, h.lease@);
    lemma_release(run, job, f, log, at + 2);
    lemma_command(run, job, f, log, h, at + 2);
    refs::lemma_stays_tidy(w, log, h.lease@, run.at[at + 2], log.len());
    lemma_release(run, job, f, log, at + 4);
    refs::lemma_tidied(w, log, h.lease@, log.len());
    assert(refs::after(w, log).heads.dom().contains(h.path@));
}

/// After a release that detached the slot's `HEAD`, nothing is held that the lease could
/// mean.
proof fn lemma_nothing_held_after(
    w: Refs,
    v: Refs,
    job: Job,
    f: Files,
    run: ReleaseRun,
    log: Seq<Performed>,
    h: Held,
)
    requires
        refs::is_sound(w),
        one_slot_per_lease(w, job),
        is_release(run, job, f, log),
        is_shown(run, w, job),
        found(run) == Some(h),
        v.heads.contains_key(h.path@),
        v.heads[h.path@].branch is None,
        v.shown == w.shown,
        forall|p: Seq<char>| #[trigger]
            v.heads.contains_key(p) && v.heads[p].branch is Some ==> w.heads.contains_key(p)
                && w.heads[p] == v.heads[p],
        w.heads.contains_key(release::named_dir(job)) && w.heads[release::named_dir(
            job,
        )].branch is Some ==> release::named_dir(job) == h.path@,
    ensures
        nothing_held(v, job),
{
    let root = job.pool_root@;
    let groups = job.cfg@.groups;
    let lease = job.args.lease@;
    lemma_release(run, job, f, log, 0);
    assert(effect::answers(run.turns[0].action, run.replies[0]));
    assert(release::moves(run.states[0], run.replies[0], run.states[1], run.turns[1]));
    lemma_release(run, job, f, log, 1);
    assert(effect::answers(run.turns[1].action, run.replies[1]));
    assert(release::moves(run.states[1], run.replies[1], run.states[2], run.turns[2]));
    let l = run.replies[1]->Listing_0;
    let entries = slot::enumerated(root, groups, l)->Ok_0;
    let seen = slot::listed(root, l)->Ok_0;
    slot::lease_lookup_is_complete(entries, lease);
    assert forall|p: Seq<char>| #[trigger]
        is_slot_path(job, p) && v.heads.contains_key(p) implies refs::lease_of(v, v.heads[p]) != Some(
        lease,
    ) by {
        if refs::lease_of(v, v.heads[p]) == Some(lease) {
            let i = choose|i: int| 0 <= i < entries.len() && (#[trigger] entries[i]).path == p;
            lemma_leased_is_shown(w, entries[i], lease);
            assert(slot::leased(entries[i], lease));
            let e = slot::lease_holder(entries, lease)->0;
            let j = choose|j: int| 0 <= j < entries.len() && entries[j] == e;
            lemma_entry_is_slot(root, groups, seen, j);
            assert(is_slot_path(job, e.path));
            assert(entries[j].path == e.path);
            lemma_leased_is_shown(w, e, lease);
            assert(h.path@ == e.path);
            assert(p == e.path);
        }
    }
}

// ---------------------------------------------------------------------------
// Laws
// ---------------------------------------------------------------------------

/// A release whose git does what it is asked takes the lease away: it ends well, the
/// slot's `HEAD` is detached and the branch gone, in the slot and in every submodule of
/// it, however deep. Every checkout stays at the commit it was at. Other
/// branches, other checkouts and other repositories stay as they are.
pub proof fn release_takes_the_lease_away(
    w: Refs,
    run: ReleaseRun,
    job: Job,
    f: Files,
    log: Seq<Performed>,
    h: Held,
)
    requires
        is_release(run, job, f, log),
        is_its_log(run, log),
        refs::obliging(w, log),
        found(run) == Some(h),
        w.heads.contains_key(h.path@),
    ensures
        effect::succeeds(run.turns.last()),
        refs::tidied(w, refs::after(w, log), h.lease@),
        forall|p: Seq<char>|
            w.heads.contains_key(p) ==> if #[trigger] is_part(f, h, p) {
                refs::gone(refs::after(w, log), p, h.lease@)
            } else {
                refs::after(w, log).heads[p] == w.heads[p]
            },
        forall|r: Seq<char>, b: Seq<char>| #[trigger]
            w.branches.contains((r, b)) && !refs::after(w, log).branches.contains((r, b))
                ==> exists|p: Seq<char>| #[trigger] is_part(f, h, p) && (w.repo)(p) == r,
{
    let v = refs::after(w, log);
    lemma_only_tidies(run, job, f, log, h);
    refs::lemma_tidied(w, log, h.lease@, log.len());
    lemma_slot_is_free(w, run, job, f, log, h);
    assert forall|p: Seq<char>| w.heads.contains_key(p) implies if #[trigger] is_part(f, h, p) {
        refs::gone(v, p, h.lease@)
    } else {
        v.heads[p] == w.heads[p]
    } by {
        if !is_part(f, h, p) {
            refs::lemma_head_untouched(w, log, h.lease@, p, log.len());
        } else if p != h.path@ {
            let depth = choose|depth: nat| #[trigger] nesting::within(f, h.path@, p, depth);
            deletion_runs::deletion_reaches_every_submodule(
                run.below,
                h.path@,
                h.lease@,
                f,
                log,
                p,
                depth,
            );
            deletion_runs::lemma_forgotten_is_gone(w, h.lease@, log, p);
        }
    }
    assert forall|r: Seq<char>, b: Seq<char>| #[trigger]
        w.branches.contains((r, b)) && !v.branches.contains((r, b)) implies exists|p: Seq<char>|
     #[trigger]
        is_part(f, h, p) && (w.repo)(p) == r by {
        if forall|p: Seq<char>| #[trigger] is_part(f, h, p) ==> (w.repo)(p) != r {
            refs::lemma_branches_untouched(w, log, r, log.len());
        }
    }
}

/// A release of what is not held, be it released before or never acquired, ends well and
/// runs no git command.
pub proof fn release_of_nothing_runs_no_git(
    w: Refs,
    run: ReleaseRun,
    job: Job,
    f: Files,
    log: Seq<Performed>,
)
    requires
        is_release(run, job, f, log),
        is_its_log(run, log),
        refs::is_sound(w),
        nothing_held(w, job),
        is_shown(run, w, job),
    ensures
        effect::succeeds(run.turns.last()),
        forall|k: int| 0 <= k < run.turns.len() ==> !((#[trigger] run.turns[k]).action is Git),
        refs::after(w, log) == w,
{
    let root = job.pool_root@;
    let groups = job.cfg@.groups;
    let lease = job.args.lease@;
    lemma_release(run, job, f, log, 0);
    assert(effect::answers(run.turns[0].action, run.replies[0]));
    assert(release::moves(run.states[0], run.replies[0], run.states[1], run.turns[1]));
    lemma_release(run, job, f, log, 1);
    assert(effect::answers(run.turns[1].action, run.replies[1]));
    assert(release::moves(run.states[1], run.replies[1], run.states[2], run.turns[2]));
    lemma_release(run, job, f, log, 2);
    let l = run.replies[1]->Listing_0;
    let entries = slot::enumerated(root, groups, l)->Ok_0;
    slot::lease_lookup_is_complete(entries, lease);
    assert forall|i: int| 0 <= i < entries.len() implies !slot::leased(#[trigger] entries[i], lease) by {
        lemma_entry_is_slot(root, groups, slot::listed(root, l)->Ok_0, i);
        assert(is_slot_path(job, entries[i].path));
        lemma_leased_is_shown(w, entries[i], lease);
    }
    assert(effect::answers(run.turns[2].action, run.replies[2]));
    assert(release::moves(run.states[2], run.replies[2], run.states[3], run.turns[3]));
    let (is_dir, head) = (run.replies[2]->Probed_0, run.replies[2]->Probed_1);
    if is_dir {
        refs::text_tells_held(w.heads[release::named_dir(job)]);
    }
    lemma_release(run, job, f, log, 3);
    if run.replies.len() > 3 {
        assert(effect::answers(run.turns[3].action, run.replies[3]));
    }
    assert(run.turns.len() == 4 && run.turns.last() == run.turns[3]);
    if log.len() > 0 {
        assert(made(run, 0));
    }
}

/// Releasing again is safe: once a release detached the slot's `HEAD`, a second one ends
/// well, runs no git command and leaves the refs as they are. Left out is a lease that is
/// named like another directory that is held: the second release means that one.
pub proof fn releasing_again_changes_nothing(
    w: Refs,
    job: Job,
    f: Files,
    first: ReleaseRun,
    log: Seq<Performed>,
    h: Held,
    k: int,
    second: ReleaseRun,
    later: Seq<Performed>,
)
    requires
        refs::is_sound(w),
        one_slot_per_lease(w, job),
        is_release(first, job, f, log),
        is_its_log(first, log),
        is_shown(first, w, job),
        refs::names_commits(log),
        found(first) == Some(h),
        0 <= k < first.replies.len(),
        first.states[k].phase is Detaching,
        first.replies[k] matches Reply::Git(r) && refs::succeeded(r),
        w.heads.contains_key(release::named_dir(job)) && w.heads[release::named_dir(
            job,
        )].branch is Some ==> release::named_dir(job) == h.path@,
        is_release(second, job, f, later),
        is_its_log(second, later),
        is_shown(second, refs::after(w, log), job),
    ensures
        effect::succeeds(second.turns.last()),
        forall|j: int| 0 <= j < second.turns.len() ==> !((#[trigger] second.turns[j]).action is Git),
        refs::after(refs::after(w, log), later) == refs::after(w, log),
{
    let v = refs::after(w, log);
    lemma_only_tidies(first, job, f, log, h);
    lemma_release(first, job, f, log, k);
    lemma_command(first, job, f, log, h, k);
    lemma_detach_order(first, job, f, log, h, k);
    refs::lemma_stays_detached(w, log, h.lease@, first.at[k], log.len());
    refs::lemma_attaches_nothing(w, log, h.lease@, log.len());
    lemma_nothing_held_after(w, v, job, f, first, log, h);
    release_of_nothing_runs_no_git(v, second, job, f, later);
}

} // verus!
