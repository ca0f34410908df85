//! Laws of `release`.
use crate::effect::{Action, Reply, Turn};
use crate::error::Error;
use crate::fs_paths;
use crate::git::{GitOutput, GitReply};
use crate::laws::slots;
use crate::release::{begins, moves, Held, Job, Phase, Release};
use crate::slot;
use crate::slot::{DirReply, SlotEntryView};
use crate::text;
use vstd::prelude::*;

verus! {

/// A release takes the pool's mutex first, then lists the pool.
pub proof fn a_release_locks_the_pool_first(
    job: Job,
    first: Release,
    begin: Turn,
    r: Result<(), Error>,
    post: Release,
    turn: Turn,
)
    requires
        begins(job, first, begin),
        moves(first, Reply::Taken(r), post, turn),
    ensures
        begin.action matches Action::TakeLock(p) && p@ == fs_paths::path_in(
            job.pool_root@,
            ".meta/pool.lock"@,
        ),
        r is Ok ==> (turn.action matches Action::List(p) && p@ == job.pool_root@),
        r matches Err(e) ==> (turn.action matches Action::Finish(Err(f)) && f.kind == e.kind),
{
}

/// The slot that is held under the lease is the one that is released: git is asked there for
/// the commit of its `HEAD`. Where no slot is, the directory that is named like the lease is
/// looked at.
pub proof fn the_leased_slot_is_released(
    pre: Release,
    l: DirReply,
    entries: Seq<SlotEntryView>,
    i: int,
    post: Release,
    turn: Turn,
)
    requires
        pre.phase is Listing,
        slot::enumerated(pre.job.pool_root@, pre.job.cfg@.groups, l) == Ok::<
            Seq<SlotEntryView>,
            Seq<char>,
        >(entries),
        moves(pre, Reply::Listing(l), post, turn),
    ensures
        0 <= i < entries.len() && slots::shows_held(entries[i].head) && entries[i].branch == Some(
            pre.job.args.lease@,
        ) && (forall|j: int|
            0 <= j < i ==> !(slots::shows_held((#[trigger] entries[j]).head) && entries[j].branch
                == Some(pre.job.args.lease@))) ==> {
            &&& post.phase matches Phase::Finding(h)
            &&& h.path@ == entries[i].path
            &&& h.lease@ == pre.job.args.lease@
            &&& turn.action matches Action::Git(g)
            &&& g.cwd@ == entries[i].path
            &&& g@.args == seq!["rev-parse"@, "HEAD"@]
        },
        (forall|j: int|
            0 <= j < entries.len() ==> !(slots::shows_held((#[trigger] entries[j]).head)
                && entries[j].branch == Some(pre.job.args.lease@))) ==> (
        turn.action matches Action::Probe(p) && p@ == fs_paths::path_in(
            pre.job.pool_root@,
            pre.job.args.lease@,
        )),
{
    let lease = pre.job.args.lease@;
    if 0 <= i < entries.len() {
        slots::a_lease_is_looked_up(entries, lease, i);
    }
    slot::lease_lookup_is_complete(entries, lease);
    if let Some(e) = slot::lease_holder(entries, lease) {
        let j = choose|j: int| 0 <= j < entries.len() && entries[j] == e;
        slots::a_lease_is_looked_up(entries, lease, j);
    }
}

/// A held directory that is named like the lease is released under the branch that it shows,
/// or under that name; anything else there means that nothing is left to do, which is told.
pub proof fn a_slot_id_is_released_too(
    pre: Release,
    is_dir: bool,
    head: Option<String>,
    branch: Option<String>,
    post: Release,
    turn: Turn,
)
    requires
        pre.phase is Probing,
        moves(pre, Reply::Probed(is_dir, head, branch), post, turn),
    ensures
        ({
            let path = fs_paths::path_in(pre.job.pool_root@, pre.job.args.lease@);
            let held = is_dir && slots::shows_held(text::opt_text(head));
            &&& held ==> {
                &&& post.phase matches Phase::Finding(h)
                &&& h.path@ == path
                &&& branch matches Some(b) ==> h.lease@ == b@
                &&& branch is None ==> h.lease@ == pre.job.args.lease@
                &&& turn.action matches Action::Git(g)
                &&& g.cwd@ == path
                &&& g@.args == seq!["rev-parse"@, "HEAD"@]
            }
            &&& !held ==> (turn.action matches Action::Finish(Ok(None))) && text::texts(turn.notes@)
                == seq![
                "release '"@ + pre.job.args.lease@ + "': no held slot (already released)"@,
            ]
        }),
{
    slots::the_head_tells_held(text::opt_text(head));
}

/// `HEAD` is detached at the commit that git answered, and then the lease's branch goes; where
/// git could not say or detach, the branch goes too, with a warning.
pub proof fn the_head_is_detached_at_its_commit(
    pre: Release,
    h: Held,
    o: GitOutput,
    post: Release,
    turn: Turn,
)
    requires
        pre.phase == Phase::Finding(h) || (pre.phase matches Phase::Detaching(k, _) && k == h),
        moves(pre, Reply::Git(GitReply::Finished(o)), post, turn),
    ensures
        pre.phase is Finding && o.success ==> (turn.action matches Action::Git(g) && g.cwd@
            == h.path@ && g@.args == seq![
            "update-ref"@,
            "--no-deref"@,
            "HEAD"@,
            text::trimmed(o.stdout@),
        ]),
        pre.phase is Detaching || !o.success ==> (turn.action matches Action::Git(g) && g.cwd@
            == h.path@ && g@.args == seq!["branch"@, "-D"@, h.lease@]),
        o.success ==> turn.notes@.len() == 0,
        !o.success ==> text::texts(turn.notes@) == seq![
            "warn: detach HEAD failed in "@ + h.path@ + "; branch '"@ + h.lease@
                + "' may persist as a dangling ref. "@ + text::trimmed(o.stderr@),
        ],
{
    assert(text::texts(turn.notes@).len() == turn.notes@.len());
}

/// The branch goes at the remote too, and in the submodules, whatever came of it; then the
/// release is told and ends well.
pub proof fn the_branch_goes_everywhere(
    pre: Release,
    h: Held,
    reply: Reply,
    post: Release,
    turn: Turn,
)
    requires
        moves(pre, reply, post, turn),
    ensures
        pre.phase == Phase::Deleting(h) && reply is Git ==> (turn.action matches Action::Git(g)
            && g.cwd@ == h.path@ && g@.args == seq!["push"@, "origin"@, "--delete"@, h.lease@]),
        pre.phase == Phase::Pushing(h) && reply is Git ==> (
        turn.action matches Action::DeleteBranches(p, b) && p@ == h.path@ && b@ == h.lease@),
        pre.phase == Phase::Descending(h) && reply is Done ==> (turn.action matches Action::Finish(
            Ok(None),
        )) && text::texts(turn.notes@) == seq!["released '"@ + h.lease@ + "'"@],
{
}

/// A release that cannot have the mutex or list the pool tells why.
pub proof fn a_release_that_cannot_begin_tells_why(
    pre: Release,
    reply: Reply,
    post: Release,
    turn: Turn,
)
    requires
        moves(pre, reply, post, turn),
    ensures
        pre.phase is Locking ==> (reply matches Reply::Taken(Err(e)) ==> (
        turn.action matches Action::Finish(Err(f)) && f.kind == e.kind && f.message@
            == "acquiring pool mutex for release"@ + ": "@ + e.message@)),
        pre.phase is Listing ==> (reply matches Reply::Listing(DirReply::Failed(why)) ==> (
        turn.action matches Action::Finish(Err(f)) && f.kind is None && f.message@ == "read_dir "@
            + pre.job.pool_root@ + ": "@ + why@)),
        pre.phase is Finding || pre.phase is Detaching ==> (reply matches Reply::Git(
            GitReply::NotStarted(_),
        ) ==> (turn.action matches Action::Finish(Err(f)) && f.kind is None)),
        !(pre.phase is Probing) && !(pre.phase is Finding) && !(pre.phase is Detaching) && !(
        pre.phase is Descending) ==> turn.notes@.len() == 0,
{
}

/// A release keeps its job, and goes from stage to stage: the mutex, the listing, the slot, its
/// commit, the detached `HEAD`, the branch, the remote and the submodules.
pub proof fn a_release_goes_from_stage_to_stage(
    pre: Release,
    reply: Reply,
    post: Release,
    turn: Turn,
)
    requires
        moves(pre, reply, post, turn),
    ensures
        post.job == pre.job,
        post.phase is Over <==> turn.action is Finish,
        post.phase is Over || match pre.phase {
            Phase::Locking => post.phase is Listing,
            Phase::Listing => {
                ||| post.phase is Finding && turn.action is Git
                ||| post.phase is Probing && turn.action is Probe
            },
            Phase::Probing => post.phase is Finding,
            Phase::Finding(h) => {
                ||| (post.phase matches Phase::Detaching(k, _) && k == h && turn.notes@.len() == 0)
                ||| post.phase == Phase::Deleting(h) && turn.notes@.len() == 1
            },
            Phase::Detaching(h, _) => post.phase == Phase::Deleting(h),
            Phase::Deleting(h) => post.phase == Phase::Pushing(h),
            Phase::Pushing(h) => post.phase == Phase::Descending(h),
            Phase::Descending(_) => false,
            Phase::Over => false,
        },
{
    assert(text::texts(turn.notes@).len() == turn.notes@.len());
}

} // verus!
