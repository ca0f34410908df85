//! `acquire`: picks an idle canonical slot, pins its `HEAD` to the requested commit,
//! and creates the lease's branch, which turns the slot from idle to held.
//!
//! The pool-wide mutex covers slot allocation up to the branch; the slot's init mutex
//! covers the rest.
use crate::cli::AcquireArgs;
use crate::config::PoolConfig;
use crate::effect;
use crate::effect::{Action, Removal, Reply, Turn};
use crate::error::Error;
use crate::exit;
use crate::exit::ExitKind;
use crate::fs_paths;
use crate::git;
use crate::hooks;
use crate::slot;
use crate::slot::{Acquirable, Look, SlotEntry};
use crate::submodules;
use crate::submodules::Task;
use crate::text;
use vstd::prelude::*;

verus! {

/// What an acquire works on.
#[derive(Debug, Clone, Copy)]
pub struct Job<'a> {
    pub pool_key: &'a str,
    pub pool_root: &'a str,
    pub cfg: &'a PoolConfig,
    pub args: &'a AcquireArgs,
}

/// The slot that an acquire has taken the init mutex of.
#[derive(Debug)]
pub struct Chosen {
    pub id: String,
    pub path: String,
    /// Whether nothing was at the path before.
    pub fresh: bool,
    /// The commit to pin the slot to.
    pub sha: String,
}

/// What the last action was, and what is kept until its reply.
#[derive(Debug)]
pub enum Phase {
    /// Resolving the commit-ish.
    Resolving,
    /// Waiting for the pool-wide mutex.
    Locking(String),
    /// Listing the pool directory.
    Listing(String),
    /// Looking at the group's canonical paths; with the pool's slots.
    Looking(String, Vec<SlotEntry>),
    /// Trying the init mutex of the candidate at an index.
    Trying(String, Vec<Acquirable>, usize),
    /// Adding a fresh worktree.
    Adding(Chosen),
    /// Removing what a failed add left, from git.
    Undoing(Chosen, Error),
    /// Removing what a failed add left, from disk.
    Clearing(Chosen, Error),
    /// Finding the git directory of a recycled slot.
    Recycling(Chosen),
    /// Removing its leftover index lock.
    Unjamming(Chosen, String),
    /// Pinning it to the commit.
    Resetting(Chosen),
    /// Sweeping it.
    Sweeping(Chosen),
    /// Looking whether the checkout has a `.gitmodules`.
    Gating(Chosen),
    /// Reading it.
    Reading(Chosen),
    /// Creating the lease's branch.
    Branching(Chosen),
    /// Putting `HEAD` on it, which makes the slot held.
    Attaching(Chosen),
    /// Releasing the pool-wide mutex.
    Unlocking(Chosen),
    /// Updating submodules.
    Updating(Chosen),
    /// Looking whether the checkout has a hooks file.
    Hooking(Chosen),
    /// Running the hook.
    Running(Chosen),
    /// The run has ended.
    Over,
}

/// An acquire that is under way.
#[derive(Debug)]
pub struct Acquire<'a> {
    pub job: Job<'a>,
    pub group: Option<String>,
    pub phase: Phase,
}

// ---------------------------------------------------------------------------
// What is said
// ---------------------------------------------------------------------------

/// The commit-ish to acquire: the requested one, else the pool's default.
pub open spec fn commitish(job: Job) -> Seq<char> {
    match job.args.commit {
        Some(c) => c@,
        None => job.cfg@.default_commit,
    }
}

/// The refusal of a lease that is held.
pub open spec fn lease_refusal(lease: Seq<char>, id: Seq<char>) -> Seq<char> {
    "acquire failed: lease '"@ + lease + "' is already held by slot '"@ + id
        + "'.\nPick a different lease, or run: worktree-pool --pool <key> release --lease "@ + lease
}

/// The refusal of a group without a free slot.
pub open spec fn capacity_refusal(max_slots: u32, group: Option<Seq<char>>) -> Seq<char> {
    "all "@ + text::decimal(max_slots as nat) + " "@ + match group {
        Some(g) => g,
        None => "(no group)"@,
    } + " slots are held"@
}

/// The lines that list the slots with leases.
pub open spec fn lease_lines(entries: Seq<slot::SlotEntryView>) -> Seq<Seq<char>>
    decreases entries.len(),
{
    if entries.len() == 0 {
        seq![]
    } else {
        let before = lease_lines(entries.drop_last());
        match entries.last().branch {
            Some(lease) => before.push(
                "  "@ + entries.last().id + " (lease: "@ + lease + ")"@,
            ),
            None => before,
        }
    }
}

/// What the operator is told where a group has no free slot: the held slots of the pool
/// and how to release one.
pub open spec fn capacity_table(job: Job, entries: Seq<slot::SlotEntryView>) -> Seq<Seq<char>> {
    seq!["\nHeld slots in pool "@ + job.pool_root@ + ":"@] + lease_lines(entries)
        + seq![
        "Release one with: worktree-pool --pool "@ + job.pool_key@ + " release --lease <lease>"@,
    ]
}

/// The refusal where every candidate's init mutex is taken.
pub open spec fn contended_refusal() -> Seq<char> {
    "all candidate slots have init mutexes held by other acquires; run `worktree-pool --pool <key> unstick` to inspect"@
}

/// The refusal of a checkout with submodules in a pool without a mirror.
pub open spec fn mirror_refusal(id: Seq<char>, config: Seq<char>) -> Seq<char> {
    "slot '"@ + id
        + "' checkout declares submodules but pool has no submodule mirror configured. Set submodule_mirror_mode (source-submodules or bare-mirror) + submodule_mirror_base in "@
        + config + ", then retry."@
}

/// What is put in front of a failed submodule update.
pub open spec fn update_failed(id: Seq<char>, lease: Seq<char>) -> Seq<char> {
    "submodule update failed for slot '"@ + id + "' (lease '"@ + lease
        + "'); slot is left HELD with partial state. Recover: `worktree-pool --pool <key> release --lease "@
        + lease + "`."@
}

/// What is put in front of a failed hook.
pub open spec fn hook_failed(id: Seq<char>, lease: Seq<char>) -> Seq<char> {
    "post-acquire hook failed for slot '"@ + id + "' (branch '"@ + lease
        + "'); slot is left HELD. Recover: `worktree-pool --pool <key> release --lease "@ + lease
        + "`."@
}

/// The hook that follows an acquire.
pub open spec fn post_acquire() -> Seq<char> {
    "wt_post_acquire"@
}

/// A tagged failure's message.
pub open spec fn tagged(message: Seq<char>, kind: ExitKind) -> Seq<char> {
    message + ": "@ + exit::exit_label(kind)
}

// ---------------------------------------------------------------------------
// What each step does
// ---------------------------------------------------------------------------

/// The run ends with a failure, and tells nothing else.
pub open spec fn stops(phase: Phase, turn: Turn, kind: Option<ExitKind>, message: Seq<char>) -> bool {
    phase is Over && effect::quiet(turn) && effect::fails(turn, kind, message)
}

/// The run ends with the slot's path on stdout.
pub open spec fn delivers(c: Chosen, phase: Phase, turn: Turn) -> bool {
    phase is Over && effect::quiet(turn) && (turn.action matches Action::Finish(Ok(o))
        && text::opt_text(o) == Some(c.path@))
}

/// Next, the init mutex of a candidate is tried.
pub open spec fn tries(job: Job, group: Option<String>, a: Acquirable, turn: Turn) -> bool {
    effect::quiet(turn) && (turn.action matches Action::TryLock(p) && p@
        == fs_paths::init_mutex_path(
        job.pool_root@,
        slot::slot_name(text::opt_text(group), a.n as nat),
    ))
}

/// From the pool's slots: the lease must be free and the group below its capacity. Then
/// the group's canonical paths are looked at.
pub open spec fn looks_next(
    job: Job,
    group: Option<String>,
    sha: String,
    entries: Seq<slot::SlotEntryView>,
    phase: Phase,
    turn: Turn,
) -> bool {
    let g = text::opt_text(group);
    let max_slots = job.cfg.max_slots;
    match slot::lease_holder(entries, job.args.lease@) {
        Some(e) => stops(
            phase,
            turn,
            Some(ExitKind::LeaseHeld),
            tagged(lease_refusal(job.args.lease@, e.id), ExitKind::LeaseHeld),
        ),
        None => if slot::held_count(entries, g) >= max_slots {
            &&& phase is Over
            &&& effect::says(turn, capacity_table(job, entries))
            &&& effect::fails(
                turn,
                Some(ExitKind::Capacity),
                tagged(capacity_refusal(max_slots, g), ExitKind::Capacity),
            )
        } else {
            &&& phase matches Phase::Looking(s, v)
            &&& s == sha
            &&& slot::entry_views(v@) == entries
            &&& effect::quiet(turn)
            &&& turn.action matches Action::Look(paths)
            &&& text::texts(paths@) == slot::canonical_paths_of(
                job.pool_root@,
                g,
                max_slots as nat,
            )
        },
    }
}

/// From what the canonical paths showed: the candidates, lowest first, of which there must
/// be one to try.
pub open spec fn picks(
    job: Job,
    group: Option<String>,
    sha: String,
    entries: Seq<slot::SlotEntryView>,
    looks: Seq<slot::LookView>,
    phase: Phase,
    turn: Turn,
) -> bool {
    let max_slots = job.cfg.max_slots;
    let low = slot::canonical_candidates(looks);
    let high = slot::surplus(entries, text::opt_text(group), max_slots);
    if looks.len() != max_slots {
        stops(phase, turn, None, effect::misfit_message())
    } else if low.len() + high.len() == 0 {
        stops(
            phase,
            turn,
            Some(ExitKind::Contended),
            tagged(contended_refusal(), ExitKind::Contended),
        )
    } else {
        &&& phase matches Phase::Trying(s, candidates, next)
        &&& s == sha
        &&& next == 0
        &&& slot::by_number(candidates@)
        &&& candidates@.to_multiset() == low.to_multiset().add(high.to_multiset())
        &&& candidates@.len() > 0
        &&& tries(job, group, candidates@[0], turn)
    }
}

/// The slot that a candidate is.
pub open spec fn is_slot(
    job: Job,
    group: Option<String>,
    sha: String,
    a: Acquirable,
    c: Chosen,
) -> bool {
    &&& c.id@ == slot::slot_name(text::opt_text(group), a.n as nat)
    &&& c.path@ == fs_paths::path_in(job.pool_root@, c.id@)
    &&& c.fresh == a.is_fresh
    &&& c.sha == sha
}

/// A slot whose init mutex was taken is added if fresh, else recycled.
pub open spec fn materializes(
    job: Job,
    group: Option<String>,
    sha: String,
    a: Acquirable,
    phase: Phase,
    turn: Turn,
) -> bool {
    effect::quiet(turn) && if a.is_fresh {
        &&& phase matches Phase::Adding(c)
        &&& is_slot(job, group, sha, a, c)
        &&& effect::runs_git(
            turn,
            git::worktree_add_command(job.cfg@.source, c.path@, sha@),
        )
    } else {
        &&& phase matches Phase::Recycling(c)
        &&& is_slot(job, group, sha, a, c)
        &&& turn.action matches Action::Gitdir(p)
        &&& p@ == c.path@
    }
}

/// The slot's tree is pinned to the commit.
pub open spec fn resets(c: Chosen, phase: Phase, turn: Turn) -> bool {
    phase == Phase::Resetting(c) && effect::runs_git(turn, git::reset_hard_command(c.path@, c.sha@))
}

/// The lease's branch is created in the slot.
pub open spec fn branches(job: Job, c: Chosen, phase: Phase, turn: Turn) -> bool {
    phase == Phase::Branching(c) && effect::quiet(turn) && effect::runs_git(
        turn,
        git::branch_at_head_command(c.path@, job.args.lease@),
    )
}

/// The `.gitmodules` of a slot.
pub open spec fn modules_file(c: Chosen) -> Seq<char> {
    fs_paths::path_in(c.path@, ".gitmodules"@)
}

/// A materialized slot passes on where the pool has a mirror; else its checkout must
/// not declare submodules.
pub open spec fn gates(job: Job, c: Chosen, phase: Phase, turn: Turn) -> bool {
    if job.cfg.submodule_mirror_mode is Some {
        branches(job, c, phase, turn)
    } else {
        phase == Phase::Gating(c) && effect::quiet(turn) && effect::looks_for(turn, modules_file(c))
    }
}

/// What the operator is told of an index lock that was to be removed.
pub open spec fn unjam_notes(c: Chosen, lock: Seq<char>, r: Removal) -> Seq<Seq<char>> {
    match r {
        Removal::Removed => seq!["cleared leftover index.lock in '"@ + c.id@ + "' before recycle"@],
        Removal::Missing => seq![],
        Removal::Failed(why) => seq!["warn: removing "@ + lock + ": "@ + why@],
    }
}

/// How an acquire begins: the group is settled, then the commit-ish is resolved.
pub open spec fn begins(job: Job, post: Acquire, turn: Turn) -> bool {
    let requested = text::opt_text(job.args.group);
    post.job == job && match slot::group_chosen(job.cfg@.groups, requested) {
        Err(m) => stops(post.phase, turn, None, m),
        Ok(g) => {
            &&& text::opt_text(post.group) == g
            &&& post.phase is Resolving
            &&& effect::says(
                turn,
                match slot::group_note(job.cfg@.groups, requested) {
                    Some(note) => seq![note],
                    None => seq![],
                },
            )
            &&& effect::runs_git(turn, git::resolve_command(job.cfg@.source, commitish(job)))
        },
    }
}

/// How an acquire goes on: the next phase and turn, from the phase and the reply.
pub open spec fn moves(pre: Acquire, reply: Reply, post: Acquire, turn: Turn) -> bool {
    let job = pre.job;
    let root = job.pool_root@;
    let lease = job.args.lease@;
    &&& post.job == job
    &&& post.group == pre.group
    &&& match (pre.phase, reply) {
        (Phase::Resolving, Reply::Git(r)) => match git::resolved(
            job.cfg@.source,
            commitish(job),
            r,
        ) {
            Err(m) => stops(post.phase, turn, None, m),
            Ok(sha) => {
                &&& post.phase matches Phase::Locking(s)
                &&& s@ == sha
                &&& effect::quiet(turn)
                &&& turn.action matches Action::TakeLock(p)
                &&& p@ == fs_paths::pool_mutex_path(root)
            },
        },
        (Phase::Locking(sha), Reply::Taken(r)) => match r {
            Err(e) => stops(
                post.phase,
                turn,
                e.kind,
                "acquiring pool-wide mutex for slot allocation"@ + ": "@ + e.message@,
            ),
            Ok(_) => {
                &&& post.phase == Phase::Listing(sha)
                &&& effect::quiet(turn)
                &&& turn.action matches Action::List(p)
                &&& p@ == root
            },
        },
        (Phase::Listing(sha), Reply::Listing(l)) => match slot::enumerated(
            root,
            job.cfg@.groups,
            l,
        ) {
            Err(m) => stops(post.phase, turn, None, m),
            Ok(entries) => looks_next(job, pre.group, sha, entries, post.phase, turn),
        },
        (Phase::Looking(sha, entries), Reply::Looked(looks)) => picks(
            job,
            pre.group,
            sha,
            slot::entry_views(entries@),
            slot::look_views(looks@),
            post.phase,
            turn,
        ),
        (Phase::Trying(sha, candidates, next), Reply::Tried(r)) => match r {
            Err(e) => stops(post.phase, turn, e.kind, e.message@),
            Ok(free) => if free && next < candidates@.len() {
                materializes(job, pre.group, sha, candidates@[next as int], post.phase, turn)
            } else if next + 1 < candidates@.len() {
                &&& post.phase matches Phase::Trying(s, c, n)
                &&& s == sha
                &&& c == candidates
                &&& n == next + 1
                &&& tries(job, pre.group, candidates@[next + 1], turn)
            } else {
                stops(
                    post.phase,
                    turn,
                    Some(ExitKind::Contended),
                    tagged(contended_refusal(), ExitKind::Contended),
                )
            },
        },
        (Phase::Adding(c), Reply::Git(r)) => match git::checked(
            git::worktree_add_command(job.cfg@.source, c.path@, c.sha@),
            r,
        ) {
            Ok(_) => gates(job, c, post.phase, turn),
            Err(m) => {
                &&& post.phase matches Phase::Undoing(d, e)
                &&& d == c
                &&& e.kind is None
                &&& e.message@ == m
                &&& effect::quiet(turn)
                &&& effect::runs_git(
                    turn,
                    git::worktree_remove_command(job.cfg@.source, c.path@),
                )
            },
        },
        (Phase::Undoing(c, e), Reply::Git(_)) => {
            &&& post.phase == Phase::Clearing(c, e)
            &&& effect::quiet(turn)
            &&& turn.action matches Action::RemoveDir(p)
            &&& p@ == c.path@
        },
        (Phase::Clearing(_, e), Reply::Done) => stops(post.phase, turn, e.kind, e.message@),
        (Phase::Recycling(c), Reply::Gitdir(d)) => match d {
            Some(dir) => {
                &&& post.phase matches Phase::Unjamming(k, lock)
                &&& k == c
                &&& lock@ == fs_paths::index_lock_path(dir@)
                &&& effect::quiet(turn)
                &&& turn.action matches Action::RemoveFile(p)
                &&& p@ == lock@
            },
            None => resets(c, post.phase, turn) && effect::quiet(turn),
        },
        (Phase::Unjamming(c, lock), Reply::Removal(r)) => resets(c, post.phase, turn)
            && effect::says(turn, unjam_notes(c, lock@, r)),
        (Phase::Resetting(c), Reply::Git(r)) => match git::checked(
            git::reset_hard_command(c.path@, c.sha@),
            r,
        ) {
            Err(m) => stops(post.phase, turn, None, m),
            Ok(_) => {
                &&& post.phase == Phase::Sweeping(c)
                &&& effect::quiet(turn)
                &&& turn.action matches Action::Sweep(p)
                &&& p@ == c.path@
            },
        },
        (Phase::Sweeping(c), Reply::Ended(r)) => match r {
            Err(e) => stops(post.phase, turn, e.kind, e.message@),
            Ok(_) => gates(job, c, post.phase, turn),
        },
        (Phase::Gating(c), Reply::Exists(there)) => if there {
            &&& post.phase == Phase::Reading(c)
            &&& effect::quiet(turn)
            &&& effect::runs_git(turn, git::config_file_list_command(c.path@, modules_file(c)))
        } else {
            branches(job, c, post.phase, turn)
        },
        (Phase::Reading(c), Reply::Git(r)) => match git::checked(
            git::config_file_list_command(c.path@, modules_file(c)),
            r,
        ) {
            Err(m) => stops(post.phase, turn, None, "reading "@ + modules_file(c) + ": "@ + m),
            Ok(raw) => if submodules::declared(raw).len() > 0 {
                stops(post.phase, turn, None, mirror_refusal(c.id@, fs_paths::config_path(root)))
            } else {
                branches(job, c, post.phase, turn)
            },
        },
        (Phase::Branching(c), Reply::Git(r)) => match git::checked(
            git::branch_at_head_command(c.path@, lease),
            r,
        ) {
            Err(m) => stops(post.phase, turn, None, m),
            Ok(_) => {
                &&& post.phase == Phase::Attaching(c)
                &&& effect::quiet(turn)
                &&& effect::runs_git(turn, git::attach_head_command(c.path@, lease))
            },
        },
        (Phase::Attaching(c), Reply::Git(r)) => match git::checked(
            git::attach_head_command(c.path@, lease),
            r,
        ) {
            Err(m) => stops(post.phase, turn, None, m),
            Ok(_) => {
                &&& post.phase == Phase::Unlocking(c)
                &&& effect::quiet(turn)
                &&& turn.action is DropLock
            },
        },
        (Phase::Unlocking(c), Reply::Done) => {
            &&& post.phase == Phase::Updating(c)
            &&& effect::quiet(turn)
            &&& turn.action matches Action::Update(dir, scope)
            &&& dir@ == c.path@
            &&& scope@.len() == 0
        },
        (Phase::Updating(c), Reply::Ended(r)) => match r {
            Err(e) => stops(
                post.phase,
                turn,
                e.kind,
                update_failed(c.id@, lease) + ": "@ + e.message@,
            ),
            Ok(_) => {
                &&& post.phase == Phase::Hooking(c)
                &&& effect::quiet(turn)
                &&& effect::looks_for(turn, hooks::hooks_path(c.path@))
            },
        },
        (Phase::Hooking(c), Reply::Exists(there)) => if there {
            &&& post.phase == Phase::Running(c)
            &&& effect::quiet(turn)
            &&& turn.action matches Action::Hook(h)
            &&& hooks::runs_hook(h, post_acquire(), c.path@, job.pool_key@, lease, c.fresh)
        } else {
            delivers(c, post.phase, turn)
        },
        (Phase::Running(c), Reply::Hook(r)) => match hooks::hook_fault(
            post_acquire(),
            c.path@,
            r,
        ) {
            Some(m) => stops(post.phase, turn, None, hook_failed(c.id@, lease) + ": "@ + m),
            None => delivers(c, post.phase, turn),
        },
        _ => stops(post.phase, turn, None, effect::misfit_message()),
    }
}

// ---------------------------------------------------------------------------
// The steps
// ---------------------------------------------------------------------------

fn wanted<'a>(job: Job<'a>) -> (r: &'a str)
    ensures
        r@ == commitish(job),
{
    match &job.args.commit {
        Some(c) => c.as_str(),
        None => job.cfg.default_commit.as_str(),
    }
}

fn stop(e: Error) -> (r: (Phase, Turn))
    ensures
        stops(r.0, r.1, e.kind, e.message@),
{
    (Phase::Over, effect::failing(e))
}

fn deliver(c: Chosen) -> (r: (Phase, Turn))
    ensures
        delivers(c, r.0, r.1),
{
    (Phase::Over, effect::silently(Action::Finish(Ok(Some(text::own(c.path.as_str()))))))
}

fn contended() -> (r: (Phase, Turn))
    ensures
        stops(
            r.0,
            r.1,
            Some(ExitKind::Contended),
            tagged(contended_refusal(), ExitKind::Contended),
        ),
{
    stop(
        Error::tagged(
            ExitKind::Contended,
            text::own(
                "all candidate slots have init mutexes held by other acquires; run `worktree-pool --pool <key> unstick` to inspect",
            ),
        ),
    )
}

fn try_lock(job: Job, group: &Option<String>, a: Acquirable) -> (r: Turn)
    ensures
        tries(job, *group, a, r),
{
    let id = slot::canonical_id(text::borrow_opt(group), a.n);
    effect::silently(Action::TryLock(fs_paths::init_mutex(job.pool_root, id.as_str())))
}

fn table(job: Job, entries: &Vec<SlotEntry>) -> (r: Vec<String>)
    ensures
        text::texts(r@) == capacity_table(job, slot::entry_views(entries@)),
{
    let ghost views = slot::entry_views(entries@);
    let mut out: Vec<String> = Vec::new();
    let mut head = text::own("\nHeld slots in pool ");
    head.append(job.pool_root);
    head.append(":");
    let ghost first = head@;
    out.push(head);
    let mut i: usize = 0;
    assert(text::texts(out@) =~= seq![first] + lease_lines(views.take(0)));
    while i < entries.len()
        invariant
            i <= entries.len(),
            views == slot::entry_views(entries@),
            text::texts(out@) == seq![first] + lease_lines(views.take(i as int)),
        decreases entries.len() - i,
    {
        assert(views.take(i + 1).drop_last() =~= views.take(i as int));
        assert(views.take(i + 1).last() == entries@[i as int]@);
        let ghost before = text::texts(out@);
        if let Some(lease) = &entries[i].branch {
            let mut line = text::own("  ");
            line.append(entries[i].id.as_str());
            line.append(" (lease: ");
            line.append(lease.as_str());
            line.append(")");
            let ghost l = line@;
            out.push(line);
            assert(text::texts(out@) =~= before.push(l));
            assert(text::texts(out@) =~= seq![first] + lease_lines(views.take(i + 1)));
        }
        i = i + 1;
    }
    assert(views.take(i as int) =~= views);
    let ghost before = text::texts(out@);
    let mut tail = text::own("Release one with: worktree-pool --pool ");
    tail.append(job.pool_key);
    tail.append(" release --lease <lease>");
    let ghost l = tail@;
    out.push(tail);
    assert(text::texts(out@) =~= before + seq![l]);
    out
}

fn look(job: Job, group: &Option<String>, sha: String, entries: Vec<SlotEntry>) -> (r: (
    Phase,
    Turn,
))
    ensures
        looks_next(job, *group, sha, slot::entry_views(entries@), r.0, r.1),
{
    if let Some(e) = slot::holder_of(&entries, job.args.lease.as_str()) {
        let mut m = text::own("acquire failed: lease '");
        m.append(job.args.lease.as_str());
        m.append("' is already held by slot '");
        m.append(e.id.as_str());
        m.append(
            "'.\nPick a different lease, or run: worktree-pool --pool <key> release --lease ",
        );
        m.append(job.args.lease.as_str());
        return stop(Error::tagged(ExitKind::LeaseHeld, m));
    }
    let g = text::borrow_opt(group);
    let max_slots: u32 = job.cfg.max_slots;
    if slot::count_held_in_group(&entries, g) >= max_slots as usize {
        let mut m = text::own("all ");
        m.append(text::to_decimal(max_slots as u64).as_str());
        m.append(" ");
        m.append(
            match g {
                Some(name) => name,
                None => "(no group)",
            },
        );
        m.append(" slots are held");
        let e = Error::tagged(ExitKind::Capacity, m);
        return (
            Phase::Over,
            Turn { notes: table(job, &entries), action: Action::Finish(Err(e)) },
        );
    }
    let paths = slot::canonical_paths(job.pool_root, g, max_slots);
    (Phase::Looking(sha, entries), effect::silently(Action::Look(paths)))
}

fn pick(
    job: Job,
    group: &Option<String>,
    sha: String,
    entries: Vec<SlotEntry>,
    looks: &Vec<Look>,
) -> (r: (Phase, Turn))
    ensures
        picks(
            job,
            *group,
            sha,
            slot::entry_views(entries@),
            slot::look_views(looks@),
            r.0,
            r.1,
        ),
{
    let max_slots: u32 = job.cfg.max_slots;
    if looks.len() != max_slots as usize {
        return (Phase::Over, effect::misfit());
    }
    let candidates = slot::acquirable(text::borrow_opt(group), max_slots, looks, &entries);
    proof {
        let low = slot::canonical_candidates(slot::look_views(looks@));
        let high = slot::surplus(
            slot::entry_views(entries@),
            text::opt_text(*group),
            max_slots,
        );
        candidates@.to_multiset_ensures();
        low.to_multiset_ensures();
        high.to_multiset_ensures();
        assert(candidates@.to_multiset().len() == low.to_multiset().len()
            + high.to_multiset().len());
    }
    if candidates.len() == 0 {
        return contended();
    }
    let turn = try_lock(job, group, candidates[0]);
    (Phase::Trying(sha, candidates, 0), turn)
}

fn materialize(job: Job, group: &Option<String>, sha: String, a: Acquirable) -> (r: (Phase, Turn))
    ensures
        materializes(job, *group, sha, a, r.0, r.1),
{
    let id = slot::canonical_id(text::borrow_opt(group), a.n);
    let path = fs_paths::join(job.pool_root, id.as_str());
    if a.is_fresh {
        let turn = effect::silently(
            Action::Git(
                git::worktree_add(job.cfg.source.as_str(), path.as_str(), sha.as_str()),
            ),
        );
        (Phase::Adding(Chosen { id, path, fresh: true, sha }), turn)
    } else {
        let turn = effect::silently(Action::Gitdir(text::own(path.as_str())));
        (Phase::Recycling(Chosen { id, path, fresh: false, sha }), turn)
    }
}

fn branch(job: Job, c: Chosen) -> (r: (Phase, Turn))
    ensures
        branches(job, c, r.0, r.1),
{
    let (first, _) = git::checkout_force_branch(c.path.as_str(), job.args.lease.as_str());
    (Phase::Branching(c), effect::silently(Action::Git(first)))
}

fn gate(job: Job, c: Chosen) -> (r: (Phase, Turn))
    ensures
        gates(job, c, r.0, r.1),
{
    if job.cfg.submodule_mirror_mode.is_some() {
        return branch(job, c);
    }
    let file = fs_paths::join(c.path.as_str(), ".gitmodules");
    (Phase::Gating(c), effect::silently(Action::Exists(file)))
}

fn try_next(
    job: Job,
    group: &Option<String>,
    sha: String,
    candidates: Vec<Acquirable>,
    next: usize,
    free: bool,
) -> (r: (Phase, Turn))
    ensures
        if free && next < candidates@.len() {
            materializes(job, *group, sha, candidates@[next as int], r.0, r.1)
        } else if next + 1 < candidates@.len() {
            &&& r.0 matches Phase::Trying(s, c, n)
            &&& s == sha
            &&& c == candidates
            &&& n == next + 1
            &&& tries(job, *group, candidates@[next + 1], r.1)
        } else {
            stops(
                r.0,
                r.1,
                Some(ExitKind::Contended),
                tagged(contended_refusal(), ExitKind::Contended),
            )
        },
{
    if next >= candidates.len() {
        return contended();
    }
    if free {
        return materialize(job, group, sha, candidates[next]);
    }
    if next + 1 >= candidates.len() {
        return contended();
    }
    let turn = try_lock(job, group, candidates[next + 1]);
    (Phase::Trying(sha, candidates, next + 1), turn)
}

fn unjam(c: Chosen, lock: String, r: Removal) -> (t: (Phase, Turn))
    ensures
        resets(c, t.0, t.1),
        effect::says(t.1, unjam_notes(c, lock@, r)),
{
    let next = Action::Git(git::reset_hard(c.path.as_str(), c.sha.as_str()));
    let turn = match r {
        Removal::Removed => {
            let mut note = text::own("cleared leftover index.lock in '");
            note.append(c.id.as_str());
            note.append("' before recycle");
            effect::telling(note, next)
        },
        Removal::Missing => effect::silently(next),
        Removal::Failed(why) => {
            let mut note = text::own("warn: removing ");
            note.append(lock.as_str());
            note.append(": ");
            note.append(why.as_str());
            effect::telling(note, next)
        },
    };
    (Phase::Resetting(c), turn)
}

fn judge_modules(job: Job, c: Chosen, r: git::GitReply) -> (t: (Phase, Turn))
    ensures
        match git::checked(git::config_file_list_command(c.path@, modules_file(c)), r) {
            Err(m) => stops(t.0, t.1, None, "reading "@ + modules_file(c) + ": "@ + m),
            Ok(raw) => if submodules::declared(raw).len() > 0 {
                stops(
                    t.0,
                    t.1,
                    None,
                    mirror_refusal(c.id@, fs_paths::config_path(job.pool_root@)),
                )
            } else {
                branches(job, c, t.0, t.1)
            },
        },
{
    let file = fs_paths::join(c.path.as_str(), ".gitmodules");
    match git::config_file_list(c.path.as_str(), file.as_str()).check(&r) {
        Err(e) => {
            let mut doing = text::own("reading ");
            doing.append(file.as_str());
            stop(e.context(doing.as_str()))
        },
        Ok(raw) => {
            if submodules::declares_submodules(raw.as_str()) {
                let mut m = text::own("slot '");
                m.append(c.id.as_str());
                m.append(
                    "' checkout declares submodules but pool has no submodule mirror configured. Set submodule_mirror_mode (source-submodules or bare-mirror) + submodule_mirror_base in ",
                );
                m.append(fs_paths::pool_config(job.pool_root).as_str());
                m.append(", then retry.");
                stop(Error::new(m))
            } else {
                branch(job, c)
            }
        },
    }
}

fn after_update(job: Job, c: Chosen, r: Result<(), Error>) -> (t: (Phase, Turn))
    ensures
        match r {
            Err(e) => stops(
                t.0,
                t.1,
                e.kind,
                update_failed(c.id@, job.args.lease@) + ": "@ + e.message@,
            ),
            Ok(_) => {
                &&& t.0 == Phase::Hooking(c)
                &&& effect::quiet(t.1)
                &&& effect::looks_for(t.1, hooks::hooks_path(c.path@))
            },
        },
{
    match r {
        Err(e) => {
            let mut doing = text::own("submodule update failed for slot '");
            doing.append(c.id.as_str());
            doing.append("' (lease '");
            doing.append(job.args.lease.as_str());
            doing.append(
                "'); slot is left HELD with partial state. Recover: `worktree-pool --pool <key> release --lease ",
            );
            doing.append(job.args.lease.as_str());
            doing.append("`.");
            stop(e.context(doing.as_str()))
        },
        Ok(_) => {
            let file = hooks::hooks_file(c.path.as_str());
            (Phase::Hooking(c), effect::silently(Action::Exists(file)))
        },
    }
}

fn after_hook(job: Job, c: Chosen, r: hooks::HookReply) -> (t: (Phase, Turn))
    ensures
        match hooks::hook_fault(post_acquire(), c.path@, r) {
            Some(m) => stops(t.0, t.1, None, hook_failed(c.id@, job.args.lease@) + ": "@ + m),
            None => delivers(c, t.0, t.1),
        },
{
    match hooks::fired("wt_post_acquire", c.path.as_str(), &r) {
        Ok(_) => deliver(c),
        Err(e) => {
            let mut doing = text::own("post-acquire hook failed for slot '");
            doing.append(c.id.as_str());
            doing.append("' (branch '");
            doing.append(job.args.lease.as_str());
            doing.append(
                "'); slot is left HELD. Recover: `worktree-pool --pool <key> release --lease ",
            );
            doing.append(job.args.lease.as_str());
            doing.append("`.");
            stop(e.context(doing.as_str()))
        },
    }
}

/// Begins an acquire.
pub fn run<'a>(
    pool_key: &'a str,
    pool_root: &'a str,
    cfg: &'a PoolConfig,
    args: &'a AcquireArgs,
) -> (r: (Acquire<'a>, Turn))
    ensures
        begins((Job { pool_key, pool_root, cfg, args }), r.0, r.1),
{
    let job = Job { pool_key, pool_root, cfg, args };
    match slot::resolve_group(cfg, text::borrow_opt(&args.group)) {
        Err(e) => {
            let (phase, turn) = stop(e);
            (Acquire { job, group: None, phase }, turn)
        },
        Ok((group, note)) => {
            let action = Action::Git(git::resolve_full_sha(cfg.source.as_str(), wanted(job)));
            let turn = match note {
                Some(n) => effect::telling(n, action),
                None => effect::silently(action),
            };
            (Acquire { job, group, phase: Phase::Resolving }, turn)
        },
    }
}

impl<'a> Acquire<'a> {
    /// What the submodule update that `Update` asks for works with: the tags to leave out,
    /// and the lease as the branch.
    pub fn task(&self) -> (r: Task<'a>)
        ensures
            r.cfg == self.job.cfg,
            *r.exclude_tags == self.job.args.exclude_submodule_tags,
            r.branch@ == self.job.args.lease@,
    {
        Task {
            cfg: self.job.cfg,
            exclude_tags: &self.job.args.exclude_submodule_tags,
            branch: self.job.args.lease.as_str(),
        }
    }

    /// Takes the reply to the last action and gives the next one.
    pub fn step(self, reply: Reply) -> (r: (Acquire<'a>, Turn))
        ensures
            moves(self, reply, r.0, r.1),
    {
        let job = self.job;
        let group = self.group;
        let (phase, turn) = match (self.phase, reply) {
            (Phase::Resolving, Reply::Git(r)) => match git::resolved_sha(
                job.cfg.source.as_str(),
                wanted(job),
                &r,
            ) {
                Err(e) => stop(e),
                Ok(sha) => (
                    Phase::Locking(sha),
                    effect::silently(Action::TakeLock(fs_paths::pool_mutex(job.pool_root))),
                ),
            },
            (Phase::Locking(sha), Reply::Taken(r)) => match r {
                Err(e) => stop(e.context("acquiring pool-wide mutex for slot allocation")),
                Ok(_) => (
                    Phase::Listing(sha),
                    effect::silently(Action::List(text::own(job.pool_root))),
                ),
            },
            (Phase::Listing(sha), Reply::Listing(l)) => match slot::enumerate(
                job.pool_root,
                job.cfg,
                &l,
            ) {
                Err(e) => stop(e),
                Ok(entries) => look(job, &group, sha, entries),
            },
            (Phase::Looking(sha, entries), Reply::Looked(looks)) => pick(
                job,
                &group,
                sha,
                entries,
                &looks,
            ),
            (Phase::Trying(sha, candidates, next), Reply::Tried(r)) => match r {
                Err(e) => stop(e),
                Ok(free) => try_next(job, &group, sha, candidates, next, free),
            },
            (Phase::Adding(c), Reply::Git(r)) => {
                let source = job.cfg.source.as_str();
                match git::worktree_add(source, c.path.as_str(), c.sha.as_str()).check(&r) {
                    Ok(_) => gate(job, c),
                    Err(e) => {
                        let undo = git::worktree_remove(source, c.path.as_str());
                        (Phase::Undoing(c, e), effect::silently(Action::Git(undo)))
                    },
                }
            },
            (Phase::Undoing(c, e), Reply::Git(_)) => {
                let turn = effect::silently(Action::RemoveDir(text::own(c.path.as_str())));
                (Phase::Clearing(c, e), turn)
            },
            (Phase::Clearing(_, e), Reply::Done) => stop(e),
            (Phase::Recycling(c), Reply::Gitdir(d)) => match d {
                Some(dir) => {
                    let lock = fs_paths::worktree_index_lock(dir.as_str());
                    let turn = effect::silently(Action::RemoveFile(text::own(lock.as_str())));
                    (Phase::Unjamming(c, lock), turn)
                },
                None => {
                    let turn = effect::silently(
                        Action::Git(git::reset_hard(c.path.as_str(), c.sha.as_str())),
                    );
                    (Phase::Resetting(c), turn)
                },
            },
            (Phase::Unjamming(c, lock), Reply::Removal(r)) => unjam(c, lock, r),
            (Phase::Resetting(c), Reply::Git(r)) => match git::reset_hard(
                c.path.as_str(),
                c.sha.as_str(),
            ).check(&r) {
                Err(e) => stop(e),
                Ok(_) => {
                    let turn = effect::silently(Action::Sweep(text::own(c.path.as_str())));
                    (Phase::Sweeping(c), turn)
                },
            },
            (Phase::Sweeping(c), Reply::Ended(r)) => match r {
                Err(e) => stop(e),
                Ok(_) => gate(job, c),
            },
            (Phase::Gating(c), Reply::Exists(there)) => {
                if there {
                    let file = fs_paths::join(c.path.as_str(), ".gitmodules");
                    let list = git::config_file_list(c.path.as_str(), file.as_str());
                    (Phase::Reading(c), effect::silently(Action::Git(list)))
                } else {
                    branch(job, c)
                }
            },
            (Phase::Reading(c), Reply::Git(r)) => judge_modules(job, c, r),
            (Phase::Branching(c), Reply::Git(r)) => {
                let (first, second) = git::checkout_force_branch(
                    c.path.as_str(),
                    job.args.lease.as_str(),
                );
                match first.check(&r) {
                    Err(e) => stop(e),
                    Ok(_) => (Phase::Attaching(c), effect::silently(Action::Git(second))),
                }
            },
            (Phase::Attaching(c), Reply::Git(r)) => {
                let (_, second) = git::checkout_force_branch(
                    c.path.as_str(),
                    job.args.lease.as_str(),
                );
                match second.check(&r) {
                    Err(e) => stop(e),
                    Ok(_) => (Phase::Unlocking(c), effect::silently(Action::DropLock)),
                }
            },
            (Phase::Unlocking(c), Reply::Done) => {
                let turn = effect::silently(
                    Action::Update(text::own(c.path.as_str()), String::new()),
                );
                (Phase::Updating(c), turn)
            },
            (Phase::Updating(c), Reply::Ended(r)) => after_update(job, c, r),
            (Phase::Hooking(c), Reply::Exists(there)) => {
                if there {
                    let hook = hooks::fire(
                        "wt_post_acquire",
                        c.path.as_str(),
                        job.pool_key,
                        job.args.lease.as_str(),
                        c.fresh,
                    );
                    (Phase::Running(c), effect::silently(Action::Hook(hook)))
                } else {
                    deliver(c)
                }
            },
            (Phase::Running(c), Reply::Hook(r)) => after_hook(job, c, r),
            _ => (Phase::Over, effect::misfit()),
        };
        (Acquire { job, group, phase }, turn)
    }
}

// ---------------------------------------------------------------------------
// Laws
// ---------------------------------------------------------------------------

/// Whether the pool-wide mutex is held in a phase.
pub open spec fn holds_pool(p: Phase) -> bool {
    match p {
        Phase::Resolving => false,
        Phase::Locking(_) => false,
        Phase::Unlocking(_) => false,
        Phase::Updating(_) => false,
        Phase::Hooking(_) => false,
        Phase::Running(_) => false,
        Phase::Over => false,
        _ => true,
    }
}

/// The slot whose init mutex is held in a phase.
pub open spec fn chosen_in(p: Phase) -> Option<Chosen> {
    match p {
        Phase::Adding(c) => Some(c),
        Phase::Undoing(c, _) => Some(c),
        Phase::Clearing(c, _) => Some(c),
        Phase::Recycling(c) => Some(c),
        Phase::Unjamming(c, _) => Some(c),
        Phase::Resetting(c) => Some(c),
        Phase::Sweeping(c) => Some(c),
        Phase::Gating(c) => Some(c),
        Phase::Reading(c) => Some(c),
        Phase::Branching(c) => Some(c),
        Phase::Attaching(c) => Some(c),
        Phase::Unlocking(c) => Some(c),
        Phase::Updating(c) => Some(c),
        Phase::Hooking(c) => Some(c),
        Phase::Running(c) => Some(c),
        _ => None,
    }
}

/// What holds in every state of a run: the slot in hand is a canonical slot at its
/// canonical path; one that is being added, or cleaned up after, was fresh, and one that
/// is being recycled was not.
pub open spec fn sound(a: Acquire) -> bool {
    &&& chosen_in(a.phase) matches Some(c) ==> {
        &&& c.path@ == fs_paths::path_in(a.job.pool_root@, c.id@)
        &&& exists|n: nat| c.id@ == #[trigger] slot::slot_name(text::opt_text(a.group), n)
    }
    &&& match a.phase {
        Phase::Adding(c) => c.fresh,
        Phase::Undoing(c, _) => c.fresh,
        Phase::Clearing(c, _) => c.fresh,
        Phase::Recycling(c) => !c.fresh,
        Phase::Unjamming(c, _) => !c.fresh,
        Phase::Resetting(c) => !c.fresh,
        Phase::Sweeping(c) => !c.fresh,
        _ => true,
    }
}

/// Every run begins sound and stays so.
pub proof fn runs_are_sound(pre: Acquire, reply: Reply, post: Acquire, turn: Turn)
    ensures
        begins(pre.job, pre, turn) ==> sound(pre),
        sound(pre) && moves(pre, reply, post, turn) ==> sound(post),
{
}

/// The slot in hand stays the same from the taking of its init mutex to the end.
pub proof fn the_slot_stays(pre: Acquire, reply: Reply, post: Acquire, turn: Turn)
    requires
        moves(pre, reply, post, turn),
        chosen_in(pre.phase) is Some,
    ensures
        post.phase is Over || chosen_in(post.phase) == chosen_in(pre.phase),
{
}

/// The pool-wide mutex is held from the reply that grants it to the action that
/// releases it or ends the run.
pub proof fn pool_mutex_spans_allocation(pre: Acquire, reply: Reply, post: Acquire, turn: Turn)
    requires
        moves(pre, reply, post, turn),
    ensures
        !holds_pool(pre.phase) && holds_pool(post.phase) ==> pre.phase is Locking && (
        reply matches Reply::Taken(r) && r is Ok),
        holds_pool(pre.phase) && !holds_pool(post.phase) ==> turn.action is DropLock
            || turn.action is Finish,
{
}

/// The commands that create the lease's branch and put `HEAD` on it are issued only
/// while both the pool-wide mutex and the slot's init mutex are held, and only in that
/// slot.
pub proof fn branch_is_made_under_both_mutexes(
    pre: Acquire,
    reply: Reply,
    post: Acquire,
    turn: Turn,
)
    requires
        moves(pre, reply, post, turn),
        turn.action matches Action::Git(g) && g@.args.len() > 0 && (g@.args[0] == "update-ref"@
            || g@.args[0] == "symbolic-ref"@),
    ensures
        holds_pool(post.phase),
        chosen_in(post.phase) matches Some(c) && (turn.action matches Action::Git(g) && g@.cwd
            == c.path@),
{
    reveal_strlit("update-ref");
    reveal_strlit("symbolic-ref");
    reveal_strlit("rev-parse");
    reveal_strlit("worktree");
    reveal_strlit("reset");
    reveal_strlit("config");
    assert("update-ref"@.len() == 10 && "symbolic-ref"@.len() == 12);
}

/// No slot becomes held in a pool without a mirror whose checkout declares submodules:
/// the branch is made only where the pool has a mirror, the checkout has no
/// `.gitmodules`, or that declares none.
pub proof fn held_only_past_the_mirror_gate(pre: Acquire, reply: Reply, post: Acquire, turn: Turn)
    requires
        moves(pre, reply, post, turn),
        post.phase is Branching,
    ensures
        pre.job.cfg.submodule_mirror_mode is Some || (pre.phase is Gating && reply
            == Reply::Exists(false)) || (pre.phase matches Phase::Reading(c) && (
        reply matches Reply::Git(r) && (git::checked(
            git::config_file_list_command(c.path@, modules_file(c)),
            r,
        ) matches Ok(raw) && submodules::declared(raw).len() == 0))),
{
}

/// The only directory that an acquire removes is one that its own failed add left:
/// nothing was there before.
pub proof fn removes_only_what_it_made(pre: Acquire, reply: Reply, post: Acquire, turn: Turn)
    requires
        sound(pre),
        moves(pre, reply, post, turn),
        turn.action is RemoveDir,
    ensures
        chosen_in(pre.phase) matches Some(c) && c.fresh && (turn.action matches Action::RemoveDir(
            p,
        ) && p@ == c.path@),
{
}

/// The only file that an acquire removes is the index lock that was left in the git
/// directory of the slot it recycles: no lock file of the pool.
pub proof fn removes_only_index_locks(pre: Acquire, reply: Reply, post: Acquire, turn: Turn)
    requires
        moves(pre, reply, post, turn),
        turn.action is RemoveFile,
    ensures
        pre.phase is Recycling,
        reply matches Reply::Gitdir(Some(dir)) && (turn.action matches Action::RemoveFile(p) && p@
            == fs_paths::index_lock_path(dir@)),
{
}

/// An acquire touches no slot but the one in hand: each of its git commands runs there, or
/// in the source to add or remove that slot's worktree, and it recycles, sweeps, updates and
/// removes that slot's directory only.
pub proof fn touches_no_other_slot(pre: Acquire, reply: Reply, post: Acquire, turn: Turn)
    requires
        moves(pre, reply, post, turn),
    ensures
        turn.action matches Action::Git(g) ==> (chosen_in(post.phase) matches Some(c) && (g@.cwd
            == c.path@ || g@ == git::worktree_add_command(pre.job.cfg@.source, c.path@, c.sha@)
            || g@ == git::worktree_remove_command(pre.job.cfg@.source, c.path@))),
        turn.action matches Action::Gitdir(p) ==> (chosen_in(post.phase) matches Some(c) && p@
            == c.path@),
        turn.action matches Action::Sweep(p) ==> (chosen_in(post.phase) matches Some(c) && p@
            == c.path@),
        turn.action matches Action::Update(p, _) ==> (chosen_in(post.phase) matches Some(c) && p@
            == c.path@),
        turn.action matches Action::RemoveDir(p) ==> (chosen_in(post.phase) matches Some(c) && p@
            == c.path@),
{
}

/// The path is delivered only at the end: after a hook that succeeded, or where there is
/// no hooks file; and it is the canonical path of the slot in hand.
pub proof fn path_comes_last(pre: Acquire, reply: Reply, post: Acquire, turn: Turn)
    requires
        moves(pre, reply, post, turn),
        turn.action matches Action::Finish(Ok(_)),
    ensures
        (pre.phase is Hooking && reply == Reply::Exists(false)) || (pre.phase is Running && (
        reply matches Reply::Hook(hooks::HookReply::Ended(ok, _)) && ok)),
        chosen_in(pre.phase) matches Some(c) && (turn.action matches Action::Finish(Ok(o))
            && text::opt_text(o) == Some(c.path@)),
{
}

/// An acquire never runs `git clean`: untracked files are the caller's warmth.
pub proof fn never_cleans(pre: Acquire, reply: Reply, post: Acquire, turn: Turn)
    requires
        moves(pre, reply, post, turn),
    ensures
        turn.action matches Action::Git(g) ==> g@.args.len() > 0 && g@.args[0] != "clean"@,
{
    reveal_strlit("clean");
    reveal_strlit("update-ref");
    reveal_strlit("symbolic-ref");
    reveal_strlit("worktree");
    reveal_strlit("reset");
    reveal_strlit("config");
    assert("clean"@.len() == 5 && "update-ref"@.len() == 10 && "symbolic-ref"@.len() == 12);
    assert("worktree"@.len() == 8 && "config"@.len() == 6);
    assert("clean"@[0] == 'c' && "reset"@[0] == 'r');
}

/// Once the slot is held, the run issues no further git command of its own: a failure
/// past that point leaves the slot held, for `release` to find.
pub proof fn failure_past_the_branch_leaves_the_slot_held(
    pre: Acquire,
    reply: Reply,
    post: Acquire,
    turn: Turn,
)
    requires
        moves(pre, reply, post, turn),
        pre.phase is Unlocking || pre.phase is Updating || pre.phase is Hooking
            || pre.phase is Running,
    ensures
        !(turn.action is Git) && !(turn.action is RemoveDir),
{
}

/// Which refusal a listing leads to, by exit kind: a held lease comes first, then a full
/// group; else the canonical paths are looked at.
pub proof fn refusals_by_kind(
    pre: Acquire,
    l: slot::DirReply,
    entries: Seq<slot::SlotEntryView>,
    post: Acquire,
    turn: Turn,
)
    requires
        pre.phase is Listing,
        slot::enumerated(pre.job.pool_root@, pre.job.cfg@.groups, l) == Ok::<_, Seq<char>>(entries),
        moves(pre, Reply::Listing(l), post, turn),
    ensures
        ({
            let g = text::opt_text(pre.group);
            let held = slot::lease_holder(entries, pre.job.args.lease@) is Some;
            let full = slot::held_count(entries, g) >= pre.job.cfg.max_slots;
            &&& held <==> (turn.action matches Action::Finish(Err(e)) && e.kind
                == Some(ExitKind::LeaseHeld))
            &&& !held && full <==> (turn.action matches Action::Finish(Err(e)) && e.kind
                == Some(ExitKind::Capacity))
            &&& !held && !full <==> turn.action is Look
        }),
{
}

/// A group without a candidate is contended; one with a candidate never fails for want of
/// one.
pub proof fn no_candidate_is_contended(
    pre: Acquire,
    looks: Vec<Look>,
    post: Acquire,
    turn: Turn,
)
    requires
        pre.phase is Looking,
        looks@.len() == pre.job.cfg.max_slots,
        moves(pre, Reply::Looked(looks), post, turn),
    ensures
        ({
            let entries = slot::entry_views(pre.phase->Looking_1@);
            let none = slot::canonical_candidates(slot::look_views(looks@)).len() == 0
                && slot::surplus(
                entries,
                text::opt_text(pre.group),
                pre.job.cfg.max_slots,
            ).len() == 0;
            &&& none <==> (turn.action matches Action::Finish(Err(e)) && e.kind == Some(
                ExitKind::Contended,
            ))
            &&& !none <==> turn.action is TryLock
        }),
{
}

/// No held slot is ever a candidate: a look at a fresh candidate's path showed nothing
/// there, and a recycled one is idle.
pub proof fn candidates_are_free(
    pre: Acquire,
    looks: Vec<Look>,
    post: Acquire,
    turn: Turn,
    i: int,
)
    requires
        pre.phase is Looking,
        forall|k: int|
            0 <= k < pre.phase->Looking_1@.len() ==> (#[trigger] slot::entry_views(
                pre.phase->Looking_1@,
            )[k]).n <= u32::MAX,
        moves(pre, Reply::Looked(looks), post, turn),
        post.phase is Trying,
        0 <= i < post.phase->Trying_1@.len(),
    ensures
        slot::is_acquirable(
            text::opt_text(pre.group),
            slot::look_views(looks@),
            slot::entry_views(pre.phase->Looking_1@),
            post.phase->Trying_1@[i],
        ),
{
    let candidates = post.phase->Trying_1@;
    assert(candidates.contains(candidates[i]));
    slot::acquirable_members(
        text::opt_text(pre.group),
        slot::look_views(looks@),
        slot::entry_views(pre.phase->Looking_1@),
        pre.job.cfg.max_slots,
        candidates,
        candidates[i],
    );
}

/// How far a run is from its end: the stages left, and within the trying of init mutexes
/// the candidates left.
pub open spec fn stages_left(p: Phase) -> nat {
    match p {
        Phase::Resolving => 19,
        Phase::Locking(_) => 18,
        Phase::Listing(_) => 17,
        Phase::Looking(_, _) => 16,
        Phase::Trying(_, _, _) => 15,
        Phase::Adding(_) => 14,
        Phase::Recycling(_) => 14,
        Phase::Unjamming(_, _) => 13,
        Phase::Resetting(_) => 12,
        Phase::Sweeping(_) => 11,
        Phase::Gating(_) => 10,
        Phase::Reading(_) => 9,
        Phase::Branching(_) => 8,
        Phase::Attaching(_) => 7,
        Phase::Unlocking(_) => 6,
        Phase::Updating(_) => 5,
        Phase::Hooking(_) => 4,
        Phase::Running(_) => 3,
        Phase::Undoing(_, _) => 2,
        Phase::Clearing(_, _) => 1,
        Phase::Over => 0,
    }
}

/// The candidates that are left to try.
pub open spec fn candidates_left(p: Phase) -> int {
    match p {
        Phase::Trying(_, candidates, next) => candidates@.len() - next,
        _ => 0,
    }
}

/// Every run ends: each step goes to an earlier stage, or tries one candidate fewer; and
/// a run ends exactly with the action that says so.
pub proof fn runs_end(pre: Acquire, reply: Reply, post: Acquire, turn: Turn)
    requires
        moves(pre, reply, post, turn),
    ensures
        stages_left(post.phase) < stages_left(pre.phase) || (stages_left(post.phase)
            == stages_left(pre.phase) && 0 <= candidates_left(post.phase) < candidates_left(
            pre.phase,
        )) || pre.phase is Over,
        post.phase is Over <==> turn.action is Finish,
{
}

// ---------------------------------------------------------------------------
// Laws of whole runs
// ---------------------------------------------------------------------------

/// A run: its states, the turns that led to them, and the replies between them.
pub open spec fn is_run(
    job: Job,
    states: Seq<Acquire>,
    turns: Seq<Turn>,
    replies: Seq<Reply>,
) -> bool {
    &&& states.len() == turns.len()
    &&& states.len() == replies.len() + 1
    &&& begins(job, states[0], turns[0])
    &&& forall|i: int|
        0 <= i < replies.len() ==> moves(
            #[trigger] states[i],
            replies[i],
            states[i + 1],
            turns[i + 1],
        )
}

/// At step `i` of a run, `HEAD` of the slot was put on the lease's branch.
pub open spec fn attached_at(states: Seq<Acquire>, replies: Seq<Reply>, i: int, c: Chosen) -> bool {
    &&& states[i].phase == Phase::Attaching(c)
    &&& replies[i] matches Reply::Git(r)
    &&& git::checked(git::attach_head_command(c.path@, states[i].job.args.lease@), r) is Ok
}

/// At step `i` of a run and the one before, the pool's slots showed the lease free and the
/// group below its capacity, and a look at the group's canonical paths showed the candidate
/// free: not there, or idle.
pub open spec fn free_at(
    states: Seq<Acquire>,
    replies: Seq<Reply>,
    i: int,
    a: Acquirable,
) -> bool {
    let pre = states[i - 1];
    let g = text::opt_text(pre.group);
    &&& i > 0
    &&& pre.phase is Listing
    &&& replies[i - 1] matches Reply::Listing(l)
    &&& slot::enumerated(pre.job.pool_root@, pre.job.cfg@.groups, l) matches Ok(entries)
    &&& slot::lease_holder(entries, pre.job.args.lease@) is None
    &&& slot::held_count(entries, g) < pre.job.cfg.max_slots
    &&& states[i].phase is Looking
    &&& replies[i] matches Reply::Looked(looks)
    &&& looks@.len() == pre.job.cfg.max_slots
    &&& slot::is_acquirable(g, slot::look_views(looks@), entries, a)
}

/// The job and the group stay the same in a run.
proof fn lemma_run_keeps(
    job: Job,
    states: Seq<Acquire>,
    turns: Seq<Turn>,
    replies: Seq<Reply>,
    k: int,
)
    requires
        is_run(job, states, turns, replies),
        0 <= k < states.len(),
    ensures
        states[k].job == job,
        states[k].group == states[0].group,
    decreases k,
{
    if k > 0 {
        lemma_run_keeps(job, states, turns, replies, k - 1);
        assert(moves(states[k - 1], replies[k - 1], states[k - 1 + 1], turns[k - 1 + 1]));
    }
}

proof fn lemma_attached(
    job: Job,
    states: Seq<Acquire>,
    turns: Seq<Turn>,
    replies: Seq<Reply>,
    k: int,
    c: Chosen,
)
    requires
        is_run(job, states, turns, replies),
        0 <= k < states.len(),
        states[k].phase == Phase::Unlocking(c) || states[k].phase == Phase::Updating(c)
            || states[k].phase == Phase::Hooking(c) || states[k].phase == Phase::Running(c),
    ensures
        exists|i: int| 0 <= i < k && #[trigger] attached_at(states, replies, i, c),
    decreases k,
{
    assert(k > 0);
    assert(moves(states[k - 1], replies[k - 1], states[k - 1 + 1], turns[k - 1 + 1]));
    if states[k].phase is Unlocking {
        assert(attached_at(states, replies, k - 1, c));
    } else {
        lemma_attached(job, states, turns, replies, k - 1, c);
    }
}

proof fn lemma_candidates_free(
    job: Job,
    states: Seq<Acquire>,
    turns: Seq<Turn>,
    replies: Seq<Reply>,
    k: int,
    a: Acquirable,
)
    requires
        is_run(job, states, turns, replies),
        0 <= k < states.len(),
        states[k].phase is Trying,
        states[k].phase->Trying_1@.contains(a),
    ensures
        exists|i: int| 0 <= i < k && #[trigger] free_at(states, replies, i, a),
    decreases k,
{
    assert(k > 0);
    let pre = states[k - 1];
    assert(moves(pre, replies[k - 1], states[k - 1 + 1], turns[k - 1 + 1]));
    if pre.phase is Trying {
        lemma_candidates_free(job, states, turns, replies, k - 1, a);
    } else {
        assert(k - 1 > 0);
        let before = states[k - 2];
        assert(moves(before, replies[k - 2], states[k - 2 + 1], turns[k - 2 + 1]));
        let l = replies[k - 2]->Listing_0;
        let looks = slot::look_views(replies[k - 1]->Looked_0@);
        let seen = slot::listed(before.job.pool_root@, l)->Ok_0;
        let entries = slot::entry_views(pre.phase->Looking_1@);
        slot::lemma_entries_bound(before.job.pool_root@, before.job.cfg@.groups, seen);
        slot::acquirable_members(
            text::opt_text(pre.group),
            looks,
            entries,
            pre.job.cfg.max_slots,
            states[k].phase->Trying_1@,
            a,
        );
        assert(free_at(states, replies, k - 1, a));
    }
}

proof fn lemma_chosen_free(
    job: Job,
    states: Seq<Acquire>,
    turns: Seq<Turn>,
    replies: Seq<Reply>,
    k: int,
    c: Chosen,
)
    requires
        is_run(job, states, turns, replies),
        0 <= k < states.len(),
        chosen_in(states[k].phase) == Some(c),
    ensures
        exists|i: int, a: Acquirable|
            0 <= i < k && #[trigger] free_at(states, replies, i, a) && c.id@ == slot::slot_name(
                text::opt_text(states[0].group),
                a.n as nat,
            ) && c.fresh == a.is_fresh,
    decreases k,
{
    assert(k > 0);
    let pre = states[k - 1];
    assert(moves(pre, replies[k - 1], states[k - 1 + 1], turns[k - 1 + 1]));
    lemma_run_keeps(job, states, turns, replies, k - 1);
    if chosen_in(pre.phase) is Some {
        lemma_chosen_free(job, states, turns, replies, k - 1, c);
        let (i, a) = choose|i: int, a: Acquirable|
            0 <= i < k - 1 && #[trigger] free_at(states, replies, i, a) && c.id@
                == slot::slot_name(text::opt_text(states[0].group), a.n as nat) && c.fresh
                == a.is_fresh;
        assert(free_at(states, replies, i, a));
    } else {
        let candidates = pre.phase->Trying_1@;
        let a = candidates[pre.phase->Trying_2 as int];
        assert(candidates.contains(a));
        lemma_candidates_free(job, states, turns, replies, k - 1, a);
        let i = choose|i: int| 0 <= i < k - 1 && #[trigger] free_at(states, replies, i, a);
        assert(free_at(states, replies, i, a));
    }
}

/// What an acquire delivers was free and is held under the lease: where a run ends with a
/// path, then earlier in it the pool's slots showed the lease free and a look showed the slot
/// at that path free, and after that the slot's `HEAD` was put on the lease's branch.
pub proof fn delivered_slot_was_free_and_is_leased(
    job: Job,
    states: Seq<Acquire>,
    turns: Seq<Turn>,
    replies: Seq<Reply>,
    path: Seq<char>,
)
    requires
        is_run(job, states, turns, replies),
        turns.last().action matches Action::Finish(Ok(o)) && text::opt_text(o) == Some(path),
    ensures
        exists|i: int, j: int, a: Acquirable, c: Chosen|
            0 <= i < j < replies.len() && #[trigger] free_at(states, replies, i, a)
                && #[trigger] attached_at(states, replies, j, c) && c.path@ == path && c.id@
                == slot::slot_name(text::opt_text(states[0].group), a.n as nat) && path
                == fs_paths::path_in(job.pool_root@, c.id@),
{
    let n = states.len() - 1;
    assert(n > 0);
    assert(moves(states[n - 1], replies[n - 1], states[n - 1 + 1], turns[n - 1 + 1]));
    lemma_run_keeps(job, states, turns, replies, n - 1);
    lemma_run_sound(job, states, turns, replies, n - 1);
    let c = chosen_in(states[n - 1].phase)->0;
    lemma_attached(job, states, turns, replies, n - 1, c);
    let j = choose|j: int| 0 <= j < n - 1 && #[trigger] attached_at(states, replies, j, c);
    lemma_chosen_free(job, states, turns, replies, j, c);
    let (i, a) = choose|i: int, a: Acquirable|
        0 <= i < j && #[trigger] free_at(states, replies, i, a) && c.id@ == slot::slot_name(
            text::opt_text(states[0].group),
            a.n as nat,
        ) && c.fresh == a.is_fresh;
    assert(free_at(states, replies, i, a) && attached_at(states, replies, j, c));
}

/// At step `i` of a run, the update of the slot's submodules, at top level, ended well.
pub open spec fn updated_at(
    states: Seq<Acquire>,
    turns: Seq<Turn>,
    replies: Seq<Reply>,
    i: int,
    c: Chosen,
) -> bool {
    &&& states[i].phase == Phase::Updating(c)
    &&& turns[i].action matches Action::Update(dir, scope)
    &&& dir@ == c.path@
    &&& scope@.len() == 0
    &&& replies[i] matches Reply::Ended(r)
    &&& r is Ok
}

proof fn lemma_updated(
    job: Job,
    states: Seq<Acquire>,
    turns: Seq<Turn>,
    replies: Seq<Reply>,
    k: int,
    c: Chosen,
)
    requires
        is_run(job, states, turns, replies),
        0 <= k < states.len(),
        states[k].phase == Phase::Hooking(c) || states[k].phase == Phase::Running(c),
    ensures
        exists|i: int| 0 <= i < k && #[trigger] updated_at(states, turns, replies, i, c),
    decreases k,
{
    assert(k > 0);
    assert(moves(states[k - 1], replies[k - 1], states[k - 1 + 1], turns[k - 1 + 1]));
    if states[k].phase is Hooking {
        let j = k - 1;
        assert(states[j].phase == Phase::Updating(c));
        assert(j > 0);
        assert(moves(states[j - 1], replies[j - 1], states[j - 1 + 1], turns[j - 1 + 1]));
        assert(updated_at(states, turns, replies, j, c));
    } else {
        lemma_updated(job, states, turns, replies, k - 1, c);
    }
}

/// What an acquire delivers has its submodules: where a run ends with a path, then earlier
/// in it the update of the submodules at that path ended well.
pub proof fn delivered_slot_was_updated(
    job: Job,
    states: Seq<Acquire>,
    turns: Seq<Turn>,
    replies: Seq<Reply>,
    path: Seq<char>,
)
    requires
        is_run(job, states, turns, replies),
        turns.last().action matches Action::Finish(Ok(o)) && text::opt_text(o) == Some(path),
    ensures
        exists|i: int, c: Chosen|
            0 <= i < replies.len() && #[trigger] updated_at(states, turns, replies, i, c)
                && c.path@ == path,
{
    let n = states.len() - 1;
    assert(n > 0);
    assert(moves(states[n - 1], replies[n - 1], states[n - 1 + 1], turns[n - 1 + 1]));
    let c = chosen_in(states[n - 1].phase)->0;
    lemma_updated(job, states, turns, replies, n - 1, c);
    let i = choose|i: int| 0 <= i < n - 1 && #[trigger] updated_at(states, turns, replies, i, c);
    assert(updated_at(states, turns, replies, i, c) && c.path@ == path);
}

/// A directory that an acquire removes was not there when it picked the slot: earlier in
/// the run a look at that very path showed nothing.
pub proof fn removed_directory_was_not_there(
    job: Job,
    states: Seq<Acquire>,
    turns: Seq<Turn>,
    replies: Seq<Reply>,
    k: int,
    path: Seq<char>,
)
    requires
        is_run(job, states, turns, replies),
        0 <= k < states.len(),
        turns[k].action matches Action::RemoveDir(p) && p@ == path,
    ensures
        exists|i: int, a: Acquirable|
            0 < i < k && #[trigger] free_at(states, replies, i, a) && path == fs_paths::path_in(
                job.pool_root@,
                slot::slot_name(text::opt_text(states[0].group), a.n as nat),
            ) && (replies[i] matches Reply::Looked(looks) && a.n < looks@.len()
                && !looks@[a.n as int].exists),
{
    assert(k > 0);
    assert(moves(states[k - 1], replies[k - 1], states[k - 1 + 1], turns[k - 1 + 1]));
    lemma_run_keeps(job, states, turns, replies, k - 1);
    lemma_run_sound(job, states, turns, replies, k - 1);
    let c = chosen_in(states[k - 1].phase)->0;
    lemma_chosen_free(job, states, turns, replies, k - 1, c);
    let (i, a) = choose|i: int, a: Acquirable|
        0 <= i < k - 1 && #[trigger] free_at(states, replies, i, a) && c.id@ == slot::slot_name(
            text::opt_text(states[0].group),
            a.n as nat,
        ) && c.fresh == a.is_fresh;
    let looks = replies[i]->Looked_0;
    assert(slot::look_views(looks@)[a.n as int] == looks@[a.n as int]@);
    assert(free_at(states, replies, i, a));
}

proof fn lemma_run_sound(
    job: Job,
    states: Seq<Acquire>,
    turns: Seq<Turn>,
    replies: Seq<Reply>,
    k: int,
)
    requires
        is_run(job, states, turns, replies),
        0 <= k < states.len(),
    ensures
        sound(states[k]),
    decreases k,
{
    if k > 0 {
        lemma_run_sound(job, states, turns, replies, k - 1);
        assert(moves(states[k - 1], replies[k - 1], states[k - 1 + 1], turns[k - 1 + 1]));
        runs_are_sound(states[k - 1], replies[k - 1], states[k], turns[k]);
    }
}

} // verus!
