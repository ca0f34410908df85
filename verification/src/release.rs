//! `release`: detaches the slot's `HEAD`, which turns the slot from held to idle, and
//! deletes the lease's branch. The slot stays at its canonical path.
//!
//! The pool-wide mutex is held throughout. Deleting branches is best-effort tidying of
//! refs that no longer matter to the slot's state. Each step does nothing where it was
//! done before, so that releasing again is safe.
use crate::cli::ReleaseArgs;
use crate::config::PoolConfig;
use crate::effect;
use crate::effect::{Action, Reply, Turn};
use crate::error::Error;
use crate::exit::ExitKind;
use crate::fs_paths;
use crate::git;
use crate::git::GitReply;
use crate::slot;
use crate::slot::DirReply;
use crate::text;
use crate::types::LeaseName;
use vstd::prelude::*;

verus! {

/// What a release works on.
#[derive(Debug, Clone, Copy)]
pub struct Job<'a> {
    pub pool_root: &'a str,
    pub cfg: &'a PoolConfig,
    pub args: &'a ReleaseArgs,
}

/// The slot that is released, and the lease it is held under, which is its branch.
#[derive(Debug)]
pub struct Held {
    pub path: String,
    pub lease: String,
}

/// What the last action was, and what is kept until its reply.
#[derive(Debug)]
pub enum Phase {
    /// Waiting for the pool-wide mutex.
    Locking,
    /// Listing the pool directory.
    Listing,
    /// Looking at the directory that is named like the lease.
    Probing,
    /// Asking for the commit of the slot's `HEAD`.
    Finding(Held),
    /// Detaching `HEAD` at that commit.
    Detaching(Held, String),
    /// Deleting the branch.
    Deleting(Held),
    /// Deleting it at the remote.
    Pushing(Held),
    /// Deleting it in the submodules.
    Descending(Held),
    /// The run has ended.
    Over,
}

/// A release that is under way.
#[derive(Debug)]
pub struct Release<'a> {
    pub job: Job<'a>,
    pub phase: Phase,
}

/// The run ends with a failure.
pub open spec fn stops(phase: Phase, turn: Turn, kind: Option<ExitKind>, message: Seq<char>) -> bool {
    phase is Over && effect::quiet(turn) && effect::fails(turn, kind, message)
}

/// The directory that is named like the lease.
pub open spec fn named_dir(job: Job) -> Seq<char> {
    fs_paths::path_in(job.pool_root@, job.args.lease@)
}

/// The slot at `path`, held under `lease`, is released.
pub open spec fn releases(path: Seq<char>, lease: Seq<char>, phase: Phase, turn: Turn) -> bool {
    &&& phase matches Phase::Finding(h)
    &&& h.path@ == path
    &&& h.lease@ == lease
    &&& effect::quiet(turn)
    &&& effect::runs_git(turn, git::head_sha_command(path))
}

/// What the operator is told where nothing is held.
pub open spec fn already_released(lease: Seq<char>) -> Seq<char> {
    "release '"@ + lease + "': no held slot (already released)"@
}

/// What the operator is told of a `HEAD` that could not be detached.
pub open spec fn detach_warning(h: Held, stderr: Seq<char>) -> Seq<char> {
    "warn: detach HEAD failed in "@ + h.path@ + "; branch '"@ + h.lease@
        + "' may persist as a dangling ref. "@ + stderr
}

/// What the operator is told at the end.
pub open spec fn released(lease: Seq<char>) -> Seq<char> {
    "released '"@ + lease + "'"@
}

/// The lease's branch is deleted, with a warning where `HEAD` was not detached.
pub open spec fn deletes(h: Held, warning: Option<Seq<char>>, phase: Phase, turn: Turn) -> bool {
    &&& phase == Phase::Deleting(h)
    &&& effect::says(
        turn,
        match warning {
            Some(w) => seq![w],
            None => seq![],
        },
    )
    &&& effect::runs_git(turn, git::branch_delete_command(h.path@, h.lease@))
}

/// How a release begins.
pub open spec fn begins(job: Job, post: Release, turn: Turn) -> bool {
    &&& post.job == job
    &&& post.phase is Locking
    &&& effect::quiet(turn)
    &&& turn.action matches Action::TakeLock(p)
    &&& p@ == fs_paths::pool_mutex_path(job.pool_root@)
}

/// How a release goes on: the next phase and turn, from the phase and the reply.
pub open spec fn moves(pre: Release, reply: Reply, post: Release, turn: Turn) -> bool {
    let job = pre.job;
    let root = job.pool_root@;
    let lease = job.args.lease@;
    &&& post.job == job
    &&& match (pre.phase, reply) {
        (Phase::Locking, Reply::Taken(r)) => match r {
            Err(e) => stops(
                post.phase,
                turn,
                e.kind,
                "acquiring pool mutex for release"@ + ": "@ + e.message@,
            ),
            Ok(_) => {
                &&& post.phase is Listing
                &&& effect::quiet(turn)
                &&& turn.action matches Action::List(p)
                &&& p@ == root
            },
        },
        (Phase::Listing, Reply::Listing(l)) => match slot::enumerated(
            root,
            job.cfg@.groups,
            l,
        ) {
            Err(m) => stops(post.phase, turn, None, m),
            Ok(entries) => match slot::lease_holder(entries, lease) {
                Some(e) => releases(e.path, lease, post.phase, turn),
                None => {
                    &&& post.phase is Probing
                    &&& effect::quiet(turn)
                    &&& turn.action matches Action::Probe(p)
                    &&& p@ == named_dir(job)
                },
            },
        },
        (Phase::Probing, Reply::Probed(is_dir, head, branch)) => if is_dir && git::head_holds(
            text::opt_text(head),
        ) {
            releases(
                named_dir(job),
                match text::opt_text(branch) {
                    Some(b) => b,
                    None => lease,
                },
                post.phase,
                turn,
            )
        } else {
            &&& post.phase is Over
            &&& effect::says(turn, seq![already_released(lease)])
            &&& effect::succeeds(turn)
        },
        (Phase::Finding(h), Reply::Git(r)) => match git::tolerated(
            git::head_sha_command(h.path@),
            r,
        ) {
            Err(m) => stops(post.phase, turn, None, m),
            Ok((ok, sha, stderr)) => if ok {
                &&& post.phase matches Phase::Detaching(k, s)
                &&& k == h
                &&& s@ == sha
                &&& effect::quiet(turn)
                &&& effect::runs_git(turn, git::detach_head_command(h.path@, sha))
            } else {
                deletes(h, Some(detach_warning(h, stderr)), post.phase, turn)
            },
        },
        (Phase::Detaching(h, sha), Reply::Git(r)) => match git::tolerated(
            git::detach_head_command(h.path@, sha@),
            r,
        ) {
            Err(m) => stops(post.phase, turn, None, m),
            Ok((ok, _, stderr)) => deletes(
                h,
                if ok {
                    None
                } else {
                    Some(detach_warning(h, stderr))
                },
                post.phase,
                turn,
            ),
        },
        (Phase::Deleting(h), Reply::Git(_)) => {
            &&& post.phase == Phase::Pushing(h)
            &&& effect::quiet(turn)
            &&& effect::runs_git(turn, git::push_delete_command(h.path@, "origin"@, h.lease@))
        },
        (Phase::Pushing(h), Reply::Git(_)) => {
            &&& post.phase == Phase::Descending(h)
            &&& effect::quiet(turn)
            &&& turn.action matches Action::DeleteBranches(p, b)
            &&& p@ == h.path@
            &&& b@ == h.lease@
        },
        (Phase::Descending(h), Reply::Done) => {
            &&& post.phase is Over
            &&& effect::says(turn, seq![released(h.lease@)])
            &&& effect::succeeds(turn)
        },
        _ => stops(post.phase, turn, None, effect::misfit_message()),
    }
}

fn stop(e: Error) -> (r: (Phase, Turn))
    ensures
        stops(r.0, r.1, e.kind, e.message@),
{
    (Phase::Over, effect::failing(e))
}

fn release_tail(path: String, lease: String) -> (r: (Phase, Turn))
    ensures
        releases(path@, lease@, r.0, r.1),
{
    let cmd = git::head_sha(path.as_str());
    (Phase::Finding(Held { path, lease }), effect::silently(Action::Git(cmd)))
}

fn delete(h: Held, stderr: Option<String>) -> (r: (Phase, Turn))
    ensures
        deletes(
            h,
            match stderr {
                Some(s) => Some(detach_warning(h, s@)),
                None => None,
            },
            r.0,
            r.1,
        ),
{
    let action = Action::Git(git::branch_delete(h.path.as_str(), h.lease.as_str()));
    let turn = match stderr {
        None => effect::silently(action),
        Some(s) => {
            let mut note = text::own("warn: detach HEAD failed in ");
            note.append(h.path.as_str());
            note.append("; branch '");
            note.append(h.lease.as_str());
            note.append("' may persist as a dangling ref. ");
            note.append(s.as_str());
            effect::telling(note, action)
        },
    };
    (Phase::Deleting(h), turn)
}

fn locate(job: Job, l: &DirReply) -> (r: (Phase, Turn))
    ensures
        match slot::enumerated(job.pool_root@, job.cfg@.groups, *l) {
            Err(m) => stops(r.0, r.1, None, m),
            Ok(entries) => match slot::lease_holder(entries, job.args.lease@) {
                Some(e) => releases(e.path, job.args.lease@, r.0, r.1),
                None => {
                    &&& r.0 is Probing
                    &&& effect::quiet(r.1)
                    &&& r.1.action matches Action::Probe(p)
                    &&& p@ == named_dir(job)
                },
            },
        },
{
    let lease = LeaseName::from(job.args.lease.as_str());
    match slot::find_by_lease(job.pool_root, job.cfg, l, &lease) {
        Err(e) => stop(e),
        Ok(Some(e)) => release_tail(e.path, text::own(job.args.lease.as_str())),
        Ok(None) => {
            let dir = fs_paths::join(job.pool_root, job.args.lease.as_str());
            (Phase::Probing, effect::silently(Action::Probe(dir)))
        },
    }
}

fn judge_probe(
    job: Job,
    is_dir: bool,
    head: &Option<String>,
    branch: Option<String>,
) -> (r: (Phase, Turn))
    ensures
        if is_dir && git::head_holds(text::opt_text(*head)) {
            releases(
                named_dir(job),
                match text::opt_text(branch) {
                    Some(b) => b,
                    None => job.args.lease@,
                },
                r.0,
                r.1,
            )
        } else {
            &&& r.0 is Over
            &&& effect::says(r.1, seq![already_released(job.args.lease@)])
            &&& effect::succeeds(r.1)
        },
{
    if is_dir && slot::is_held_at(head) {
        let dir = fs_paths::join(job.pool_root, job.args.lease.as_str());
        let lease = match branch {
            Some(b) => b,
            None => text::own(job.args.lease.as_str()),
        };
        return release_tail(dir, lease);
    }
    let mut note = text::own("release '");
    note.append(job.args.lease.as_str());
    note.append("': no held slot (already released)");
    (Phase::Over, effect::telling(note, Action::Finish(Ok(None))))
}

/// Begins a release. The lease names a slot by the branch it is on, else by its canonical
/// id, so that an operator can release a slot straight off `ls`.
pub fn run<'a>(pool_root: &'a str, cfg: &'a PoolConfig, args: &'a ReleaseArgs) -> (r: (
    Release<'a>,
    Turn,
))
    ensures
        begins((Job { pool_root, cfg, args }), r.0, r.1),
{
    (
        Release { job: Job { pool_root, cfg, args }, phase: Phase::Locking },
        effect::silently(Action::TakeLock(fs_paths::pool_mutex(pool_root))),
    )
}

impl<'a> Release<'a> {
    /// Takes the reply to the last action and gives the next one.
    pub fn step(self, reply: Reply) -> (r: (Release<'a>, Turn))
        ensures
            moves(self, reply, r.0, r.1),
    {
        let job = self.job;
        let (phase, turn) = match (self.phase, reply) {
            (Phase::Locking, Reply::Taken(r)) => match r {
                Err(e) => stop(e.context("acquiring pool mutex for release")),
                Ok(_) => (
                    Phase::Listing,
                    effect::silently(Action::List(text::own(job.pool_root))),
                ),
            },
            (Phase::Listing, Reply::Listing(l)) => locate(job, &l),
            (Phase::Probing, Reply::Probed(is_dir, head, branch)) => judge_probe(
                job,
                is_dir,
                &head,
                branch,
            ),
            (Phase::Finding(h), Reply::Git(r)) => match git::head_sha(
                h.path.as_str(),
            ).check_lenient(&r) {
                Err(e) => stop(e),
                Ok((ok, sha, stderr)) => {
                    if ok {
                        let cmd = git::detach_head(h.path.as_str(), sha.as_str());
                        (Phase::Detaching(h, sha), effect::silently(Action::Git(cmd)))
                    } else {
                        delete(h, Some(stderr))
                    }
                },
            },
            (Phase::Detaching(h, sha), Reply::Git(r)) => match git::detach_head(
                h.path.as_str(),
                sha.as_str(),
            ).check_lenient(&r) {
                Err(e) => stop(e),
                Ok((ok, _, stderr)) => {
                    if ok {
                        delete(h, None)
                    } else {
                        delete(h, Some(stderr))
                    }
                },
            },
            (Phase::Deleting(h), Reply::Git(_)) => {
                let cmd = git::push_delete(h.path.as_str(), "origin", h.lease.as_str());
                (Phase::Pushing(h), effect::silently(Action::Git(cmd)))
            },
            (Phase::Pushing(h), Reply::Git(_)) => {
                let dir = text::own(h.path.as_str());
                let branch = text::own(h.lease.as_str());
                (Phase::Descending(h), effect::silently(Action::DeleteBranches(dir, branch)))
            },
            (Phase::Descending(h), Reply::Done) => {
                let mut note = text::own("released '");
                note.append(h.lease.as_str());
                note.append("'");
                (Phase::Over, effect::telling(note, Action::Finish(Ok(None))))
            },
            _ => (Phase::Over, effect::misfit()),
        };
        (Release { job, phase }, turn)
    }
}

// ---------------------------------------------------------------------------
// Laws
// ---------------------------------------------------------------------------

/// Releasing what is not held succeeds and touches nothing: where no slot is on the
/// lease's branch and no held directory is named like it, the run ends well without a
/// git command.
pub proof fn release_is_idempotent(
    pre: Release,
    l: DirReply,
    mid: Release,
    first: Turn,
    is_dir: bool,
    head: Option<String>,
    branch: Option<String>,
    post: Release,
    second: Turn,
)
    requires
        pre.phase is Listing,
        slot::enumerated(pre.job.pool_root@, pre.job.cfg@.groups, l) matches Ok(entries)
            && slot::lease_holder(entries, pre.job.args.lease@) is None,
        moves(pre, Reply::Listing(l), mid, first),
        !is_dir || !git::head_holds(text::opt_text(head)),
        moves(mid, Reply::Probed(is_dir, head, branch), post, second),
    ensures
        first.action is Probe,
        effect::succeeds(second),
        post.phase is Over,
{
}

/// A release touches refs only: its git commands are `rev-parse`, `update-ref`, `branch`
/// and `push`, none of which reads or writes the index. A leftover index lock cannot
/// block it.
pub proof fn release_touches_only_refs(pre: Release, reply: Reply, post: Release, turn: Turn)
    requires
        moves(pre, reply, post, turn),
    ensures
        turn.action matches Action::Git(g) ==> g@.args.len() > 0 && (g@.args[0] == "rev-parse"@
            || g@.args[0] == "update-ref"@ || g@.args[0] == "branch"@ || g@.args[0] == "push"@),
        !(turn.action is RemoveDir) && !(turn.action is RemoveFile),
{
}

/// `HEAD` is detached before the branch is deleted: the deletion follows the reply to a
/// detach, or a `HEAD` that names no commit.
pub proof fn detach_comes_first(pre: Release, reply: Reply, post: Release, turn: Turn)
    requires
        moves(pre, reply, post, turn),
        post.phase is Deleting,
    ensures
        pre.phase is Detaching || (pre.phase matches Phase::Finding(h) && (
        reply matches Reply::Git(GitReply::Finished(o)) && !o.success)),
{
}

/// The pool-wide mutex is held until the run ends.
pub proof fn mutex_is_kept_to_the_end(pre: Release, reply: Reply, post: Release, turn: Turn)
    requires
        moves(pre, reply, post, turn),
    ensures
        !(turn.action is DropLock),
        !(turn.action is TakeLock),
        post.phase is Over <==> turn.action is Finish,
{
}

/// The steps that are left.
pub open spec fn stages_left(p: Phase) -> nat {
    match p {
        Phase::Locking => 8,
        Phase::Listing => 7,
        Phase::Probing => 6,
        Phase::Finding(_) => 5,
        Phase::Detaching(_, _) => 4,
        Phase::Deleting(_) => 3,
        Phase::Pushing(_) => 2,
        Phase::Descending(_) => 1,
        Phase::Over => 0,
    }
}

/// Every release ends: each step goes to an earlier stage.
pub proof fn runs_end(pre: Release, reply: Reply, post: Release, turn: Turn)
    requires
        moves(pre, reply, post, turn),
    ensures
        stages_left(post.phase) < stages_left(pre.phase) || pre.phase is Over,
{
}

/// A release finds the slot that an acquire put on the lease's branch.
pub proof fn release_finds_the_acquired_slot(
    entries: Seq<slot::SlotEntryView>,
    at: int,
    lease: Seq<char>,
)
    requires
        slot::leases_are_distinct(entries),
        0 <= at < entries.len(),
        slot::is_on(entries[at], lease),
    ensures
        slot::lease_holder(entries, lease) == Some(entries[at]),
{
    slot::attached_slot_is_leased(entries[at], lease, lease);
    slot::lease_lookup_is_complete(entries, lease);
    let e = slot::lease_holder(entries, lease)->0;
    let k = choose|k: int| 0 <= k < entries.len() && entries[k] == e;
    if k < at {
        assert(!(slot::leased(entries[k], lease) && slot::leased(entries[at], lease)));
    } else if at < k {
        assert(!(slot::leased(entries[at], lease) && slot::leased(entries[k], lease)));
    }
}

/// A released slot is free again: with its `HEAD` detached at a commit it is idle, and
/// nothing is held under the lease any more.
pub proof fn released_slot_is_free(
    entries: Seq<slot::SlotEntryView>,
    at: int,
    slot: slot::SlotEntryView,
    lease: Seq<char>,
    sha: Seq<char>,
)
    requires
        slot::leases_are_distinct(entries),
        0 <= at < entries.len(),
        slot::is_on(entries[at], lease),
        sha.len() > 0,
        !"ref:"@.is_prefix_of(sha),
        slot.head == Some(sha),
    ensures
        !slot::holds(slot),
        slot::lease_holder(entries.update(at, slot), lease) is None,
{
    git::detached_is_idle(sha);
    let after = entries.update(at, slot);
    slot::attached_slot_is_leased(entries[at], lease, lease);
    slot::lease_lookup_is_complete(after, lease);
    assert forall|i: int| 0 <= i < after.len() implies !slot::leased(#[trigger] after[i], lease) by {
        if i < at {
            assert(after[i] == entries[i]);
            assert(!(slot::leased(entries[i], lease) && slot::leased(entries[at], lease)));
        } else if i > at {
            assert(after[i] == entries[i]);
            assert(!(slot::leased(entries[at], lease) && slot::leased(entries[i], lease)));
        }
    }
}

} // verus!
