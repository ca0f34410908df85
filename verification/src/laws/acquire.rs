//! Laws of `acquire`.
use crate::acquire::{begins, chosen_in, is_run, moves, Acquire, Chosen, Job, Phase};
use crate::effect::{Action, Removal, Reply, Turn};
use crate::error::Error;
use crate::exit::ExitKind;
use crate::fs_paths;
use crate::git::{GitCommand, GitOutput, GitReply};
use crate::hooks::HookReply;
use crate::laws::slots;
use crate::slot;
use crate::slot::{Acquirable, DirReply, Look, SlotEntryView};
use crate::submodules;
use crate::text;
use vstd::prelude::*;

verus! {

/// The first command of an acquire asks git, in the source, for the commit that the caller
/// named; only where none was named, for the pool's default.
pub proof fn the_named_commit_is_resolved(job: Job, post: Acquire, turn: Turn)
    requires
        begins(job, post, turn),
    ensures
        turn.action matches Action::Git(g) ==> {
            &&& g.cwd@ == job.cfg.source@
            &&& g.overrides@.len() == 0
            &&& job.args.commit matches Some(c) ==> g@.args == seq![
                "rev-parse"@,
                "--verify"@,
                c@ + "^{commit}"@,
            ]
            &&& job.args.commit is None ==> g@.args == seq![
                "rev-parse"@,
                "--verify"@,
                job.cfg.default_commit@ + "^{commit}"@,
            ]
        },
{
    if let Action::Git(g) = turn.action {
        assert(g@.overrides.len() == g.overrides@.len());
    }
}

/// The commit that a phase carries.
pub open spec fn carried(p: Phase) -> Option<String> {
    match p {
        Phase::Locking(sha) => Some(sha),
        Phase::Listing(sha) => Some(sha),
        Phase::Looking(sha, _) => Some(sha),
        Phase::Trying(sha, _, _) => Some(sha),
        _ => match chosen_in(p) {
            Some(c) => Some(c.sha),
            None => None,
        },
    }
}

/// A step hands the commit on as it is.
pub proof fn the_commit_is_handed_on(pre: Acquire, reply: Reply, post: Acquire, turn: Turn)
    requires
        moves(pre, reply, post, turn),
        carried(pre.phase) is Some,
    ensures
        post.phase is Over || carried(post.phase) == carried(pre.phase),
{
}

/// A run, as one fact.
#[verifier::opaque]
spec fn runs(job: Job, states: Seq<Acquire>, turns: Seq<Turn>, replies: Seq<Reply>) -> bool {
    is_run(job, states, turns, replies)
}

proof fn lemma_step_of(
    job: Job,
    states: Seq<Acquire>,
    turns: Seq<Turn>,
    replies: Seq<Reply>,
    k: int,
)
    requires
        runs(job, states, turns, replies),
        0 < k < states.len(),
    ensures
        moves(states[k - 1], replies[k - 1], states[k], turns[k]),
{
    reveal(runs);
    assert(moves(states[k - 1], replies[k - 1], states[k - 1 + 1], turns[k - 1 + 1]));
}

proof fn lemma_start_of(job: Job, states: Seq<Acquire>, turns: Seq<Turn>, replies: Seq<Reply>)
    requires
        runs(job, states, turns, replies),
    ensures
        states.len() > 0,
        states.len() == turns.len(),
        begins(job, states[0], turns[0]),
{
    reveal(runs);
}

proof fn lemma_carried(
    job: Job,
    states: Seq<Acquire>,
    turns: Seq<Turn>,
    replies: Seq<Reply>,
    k: int,
)
    requires
        runs(job, states, turns, replies),
        0 < k < states.len(),
        !(states[k].phase is Over),
    ensures
        replies[0] matches Reply::Git(GitReply::Finished(o)) && o.success && (carried(
            states[k].phase,
        ) matches Some(sha) && sha@ == text::trimmed(o.stdout@)),
    decreases k,
{
    lemma_step_of(job, states, turns, replies, k);
    if k > 1 {
        lemma_carried(job, states, turns, replies, k - 1);
        the_commit_is_handed_on(states[k - 1], replies[k - 1], states[k], turns[k]);
    } else {
        lemma_start_of(job, states, turns, replies);
    }
}

proof fn lemma_command_words()
    ensures
        "rev-parse"@ != "worktree"@,
        "rev-parse"@ != "reset"@,
        "config"@ != "worktree"@,
        "config"@ != "reset"@,
        "update-ref"@ != "worktree"@,
        "update-ref"@ != "reset"@,
        "symbolic-ref"@ != "worktree"@,
        "symbolic-ref"@ != "reset"@,
        "worktree"@ != "reset"@,
        "add"@ != "remove"@,
{
    reveal_strlit("rev-parse");
    reveal_strlit("worktree");
    reveal_strlit("reset");
    reveal_strlit("config");
    reveal_strlit("update-ref");
    reveal_strlit("symbolic-ref");
    reveal_strlit("add");
    reveal_strlit("remove");
    assert("rev-parse"@.len() == 9 && "worktree"@.len() == 8 && "reset"@.len() == 5);
    assert("config"@.len() == 6 && "update-ref"@.len() == 10 && "symbolic-ref"@.len() == 12);
    assert("add"@.len() == 3 && "remove"@.len() == 6);
}

/// A step that checks a commit out has the slot in hand: it adds a fresh worktree from the
/// source, or resets the slot, and names the commit that it carries.
pub proof fn checkouts_are_of_the_commit(pre: Acquire, reply: Reply, post: Acquire, turn: Turn)
    requires
        moves(pre, reply, post, turn),
        turn.action matches Action::Git(g) && g@.args.len() > 1 && ((g@.args[0] == "worktree"@
            && g@.args[1] == "add"@) || g@.args[0] == "reset"@),
    ensures
        !(post.phase is Over),
        chosen_in(post.phase) matches Some(c) && (turn.action matches Action::Git(g) && {
            ||| c.fresh && g.cwd@ == pre.job.cfg.source@ && g@.args == seq![
                "worktree"@,
                "add"@,
                "--detach"@,
                c.path@,
                c.sha@,
            ]
            ||| g.cwd@ == c.path@ && g@.args == seq!["reset"@, "--hard"@, c.sha@]
        }),
{
    lemma_command_words();
}

/// The command checks out what git printed in its first reply, in the slot of the phase: it
/// adds a fresh worktree there, or resets the one that is there.
pub open spec fn checks_out_the_answer(
    p: Phase,
    first: Reply,
    g: GitCommand,
    source: Seq<char>,
) -> bool {
    &&& first matches Reply::Git(GitReply::Finished(o))
    &&& o.success
    &&& chosen_in(p) matches Some(c)
    &&& {
        ||| c.fresh && g.cwd@ == source && g@.args == seq![
            "worktree"@,
            "add"@,
            "--detach"@,
            c.path@,
            text::trimmed(o.stdout@),
        ]
        ||| g.cwd@ == c.path@ && g@.args == seq!["reset"@, "--hard"@, text::trimmed(o.stdout@)]
    }
}

/// What an acquire checks out, in a fresh slot or in a recycled one, is what git answered to
/// the first command of the run, in the slot that it took.
pub proof fn the_resolved_commit_is_checked_out(
    job: Job,
    states: Seq<Acquire>,
    turns: Seq<Turn>,
    replies: Seq<Reply>,
    k: int,
    g: GitCommand,
)
    requires
        is_run(job, states, turns, replies),
        0 <= k < turns.len(),
        turns[k].action == Action::Git(g),
        g@.args.len() > 1,
        (g@.args[0] == "worktree"@ && g@.args[1] == "add"@) || g@.args[0] == "reset"@,
    ensures
        checks_out_the_answer(states[k].phase, replies[0], g, job.cfg.source@),
{
    assert(runs(job, states, turns, replies)) by {
        reveal(runs);
    }
    lemma_checked_out(job, states, turns, replies, k, g);
}

proof fn lemma_checked_out(
    job: Job,
    states: Seq<Acquire>,
    turns: Seq<Turn>,
    replies: Seq<Reply>,
    k: int,
    g: GitCommand,
)
    requires
        runs(job, states, turns, replies),
        0 <= k < turns.len(),
        turns[k].action == Action::Git(g),
        g@.args.len() > 1,
        (g@.args[0] == "worktree"@ && g@.args[1] == "add"@) || g@.args[0] == "reset"@,
    ensures
        checks_out_the_answer(states[k].phase, replies[0], g, job.cfg.source@),
{
    lemma_start_of(job, states, turns, replies);
    if k == 0 {
        lemma_first_is_no_checkout(job, states[0], turns[0], g);
    } else {
        lemma_step_of(job, states, turns, replies, k);
        lemma_job_stays(job, states, turns, replies, k - 1);
        checkouts_are_of_the_commit(states[k - 1], replies[k - 1], states[k], turns[k]);
        lemma_carried(job, states, turns, replies, k);
        lemma_is_of_the_answer(states[k].phase, replies[0], g, job.cfg.source@);
    }
}

proof fn lemma_is_of_the_answer(p: Phase, first: Reply, g: GitCommand, source: Seq<char>)
    requires
        first matches Reply::Git(GitReply::Finished(o)) && o.success && (carried(p) matches Some(
            sha,
        ) && sha@ == text::trimmed(o.stdout@)),
        chosen_in(p) matches Some(c) && {
            ||| c.fresh && g.cwd@ == source && g@.args == seq![
                "worktree"@,
                "add"@,
                "--detach"@,
                c.path@,
                c.sha@,
            ]
            ||| g.cwd@ == c.path@ && g@.args == seq!["reset"@, "--hard"@, c.sha@]
        },
    ensures
        checks_out_the_answer(p, first, g, source),
{
}

proof fn lemma_first_is_no_checkout(job: Job, post: Acquire, turn: Turn, g: GitCommand)
    requires
        begins(job, post, turn),
        turn.action == Action::Git(g),
    ensures
        g@.args[0] != "worktree"@,
        g@.args[0] != "reset"@,
{
    lemma_command_words();
    the_named_commit_is_resolved(job, post, turn);
}

proof fn lemma_job_stays(
    job: Job,
    states: Seq<Acquire>,
    turns: Seq<Turn>,
    replies: Seq<Reply>,
    k: int,
)
    requires
        runs(job, states, turns, replies),
        0 <= k < states.len(),
    ensures
        states[k].job == job,
    decreases k,
{
    if k > 0 {
        lemma_job_stays(job, states, turns, replies, k - 1);
        lemma_step_of(job, states, turns, replies, k);
    } else {
        lemma_start_of(job, states, turns, replies);
    }
}

/// A group that was asked for is used where the pool has it; else the pool's first, with a
/// line that says so; a pool without groups uses none. Any other group ends the run at once.
pub proof fn the_group_is_the_asked_one(job: Job, post: Acquire, turn: Turn)
    requires
        begins(job, post, turn),
    ensures
        job.args.group matches Some(g) ==> if job.cfg@.groups.contains(g@) {
            &&& post.group matches Some(h)
            &&& h@ == g@
            &&& turn.notes@.len() == 0
            &&& turn.action is Git
        } else {
            turn.action matches Action::Finish(Err(e)) && e.kind is None
        },
        job.args.group is None && job.cfg@.groups.len() > 0 ==> {
            &&& post.group matches Some(h)
            &&& h@ == job.cfg@.groups[0]
            &&& turn.notes@.len() == 1
            &&& turn.action is Git
        },
        job.args.group is None && job.cfg@.groups.len() == 0 ==> {
            &&& post.group is None
            &&& turn.notes@.len() == 0
            &&& turn.action is Git
        },
{
    assert(text::texts(turn.notes@).len() == turn.notes@.len());
    if let Some(g) = job.args.group {
        slots::the_asked_group_is_used(job.cfg@.groups, g@);
    }
}

/// With the commit in hand the pool's mutex is taken; a commit that git does not know ends
/// the run.
pub proof fn the_pool_is_locked_once_the_commit_is_known(
    pre: Acquire,
    r: GitReply,
    post: Acquire,
    turn: Turn,
)
    requires
        pre.phase is Resolving,
        moves(pre, Reply::Git(r), post, turn),
    ensures
        (r matches GitReply::Finished(o) && o.success) ==> (turn.action matches Action::TakeLock(p)
            && p@ == fs_paths::path_in(pre.job.pool_root@, ".meta/pool.lock"@)),
        !(r matches GitReply::Finished(o) && o.success) ==> (turn.action matches Action::Finish(
            Err(e),
        ) && e.kind is None),
{
}

/// Under the pool's mutex the pool is listed; a mutex that could not be had ends the run.
pub proof fn the_pool_is_listed_under_its_mutex(
    pre: Acquire,
    r: Result<(), Error>,
    post: Acquire,
    turn: Turn,
)
    requires
        pre.phase is Locking,
        moves(pre, Reply::Taken(r), post, turn),
    ensures
        r is Ok ==> (turn.action matches Action::List(p) && p@ == pre.job.pool_root@),
        r matches Err(e) ==> (turn.action matches Action::Finish(Err(f)) && f.kind == e.kind
            && f.message@ == "acquiring pool-wide mutex for slot allocation: "@ + e.message@),
{
    reveal_strlit("acquiring pool-wide mutex for slot allocation");
    reveal_strlit(": ");
    reveal_strlit("acquiring pool-wide mutex for slot allocation: ");
    if let Err(e) = r {
        assert("acquiring pool-wide mutex for slot allocation"@ + ": "@ + e.message@
            =~= "acquiring pool-wide mutex for slot allocation: "@ + e.message@);
    }
}

/// A lease that some slot is held under is refused, and the refusal names that slot.
pub proof fn a_held_lease_is_refused(
    pre: Acquire,
    l: DirReply,
    entries: Seq<SlotEntryView>,
    i: int,
    post: Acquire,
    turn: Turn,
)
    requires
        pre.phase is Listing,
        slot::enumerated(pre.job.pool_root@, pre.job.cfg@.groups, l) == Ok::<
            Seq<SlotEntryView>,
            Seq<char>,
        >(entries),
        0 <= i < entries.len(),
        slots::shows_held(entries[i].head),
        entries[i].branch == Some(pre.job.args.lease@),
        forall|j: int|
            0 <= j < i ==> !(slots::shows_held((#[trigger] entries[j]).head) && entries[j].branch
                == Some(pre.job.args.lease@)),
        moves(pre, Reply::Listing(l), post, turn),
    ensures
        turn.action matches Action::Finish(Err(e)) && e.kind == Some(ExitKind::LeaseHeld)
            && e.message@ == "acquire failed: lease '"@ + pre.job.args.lease@
            + "' is already held by slot '"@ + entries[i].id
            + "'.\nPick a different lease, or run: worktree-pool --pool <key> release --lease "@
            + pre.job.args.lease@ + ": "@ + "lease-held"@,
{
    slots::a_lease_is_looked_up(entries, pre.job.args.lease@, i);
}

/// Where nobody holds the lease, a group with as many held slots as it may have is refused;
/// below that, the group's canonical paths are looked at.
pub proof fn a_full_group_is_refused(
    pre: Acquire,
    l: DirReply,
    entries: Seq<SlotEntryView>,
    post: Acquire,
    turn: Turn,
)
    requires
        pre.phase is Listing,
        slot::enumerated(pre.job.pool_root@, pre.job.cfg@.groups, l) == Ok::<
            Seq<SlotEntryView>,
            Seq<char>,
        >(entries),
        forall|i: int|
            0 <= i < entries.len() ==> !(slots::shows_held((#[trigger] entries[i]).head)
                && entries[i].branch == Some(pre.job.args.lease@)),
        moves(pre, Reply::Listing(l), post, turn),
    ensures
        ({
            let group = text::opt_text(pre.group);
            let held = entries.filter(
                |e: SlotEntryView| e.group == group && slots::shows_held(e.head),
            ).len();
            let max_slots = pre.job.cfg.max_slots;
            &&& held >= max_slots ==> (turn.action matches Action::Finish(Err(e)) && e.kind == Some(
                ExitKind::Capacity,
            ))
            &&& held < max_slots ==> (turn.action matches Action::Look(paths) && text::texts(paths@)
                == Seq::new(
                max_slots as nat,
                |n: int|
                    fs_paths::path_in(pre.job.pool_root@, slot::slot_name(group, n as nat)),
            ) && turn.notes@.len() == 0)
        }),
{
    slots::held_slots_are_counted(entries, text::opt_text(pre.group));
    let lease = pre.job.args.lease@;
    slot::lease_lookup_is_complete(entries, lease);
    if let Some(e) = slot::lease_holder(entries, lease) {
        let j = choose|j: int| 0 <= j < entries.len() && entries[j] == e;
        slots::the_head_tells_held(entries[j].head);
    }
}

/// A full group is told by its size and name, and every held slot is listed with its lease.
pub proof fn a_full_group_is_told(
    pre: Acquire,
    l: DirReply,
    entries: Seq<SlotEntryView>,
    post: Acquire,
    turn: Turn,
)
    requires
        pre.phase is Listing,
        slot::enumerated(pre.job.pool_root@, pre.job.cfg@.groups, l) == Ok::<
            Seq<SlotEntryView>,
            Seq<char>,
        >(entries),
        slot::lease_holder(entries, pre.job.args.lease@) is None,
        slot::held_count(entries, text::opt_text(pre.group)) >= pre.job.cfg.max_slots,
        moves(pre, Reply::Listing(l), post, turn),
    ensures
        turn.action matches Action::Finish(Err(e)) && e.message@ == "all "@ + text::decimal(
            pre.job.cfg.max_slots as nat,
        ) + " "@ + match pre.group {
            Some(g) => g@,
            None => "(no group)"@,
        } + " slots are held"@ + ": "@ + "capacity"@,
        text::texts(turn.notes@) == seq![
            "\nHeld slots in pool "@ + pre.job.pool_root@ + ":"@,
        ] + entries.filter(|e: SlotEntryView| e.branch is Some).map_values(
            |e: SlotEntryView| "  "@ + e.id + " (lease: "@ + e.branch->0 + ")"@,
        ) + seq![
            "Release one with: worktree-pool --pool "@ + pre.job.pool_key@
                + " release --lease <lease>"@,
        ],
{
    lemma_lease_lines(entries);
}

proof fn lemma_lease_lines(entries: Seq<SlotEntryView>)
    ensures
        crate::acquire::lease_lines(entries) == entries.filter(
            |e: SlotEntryView| e.branch is Some,
        ).map_values(|e: SlotEntryView| "  "@ + e.id + " (lease: "@ + e.branch->0 + ")"@),
    decreases entries.len(),
{
    let on = |e: SlotEntryView| e.branch is Some;
    let line = |e: SlotEntryView| "  "@ + e.id + " (lease: "@ + e.branch->0 + ")"@;
    if entries.len() == 0 {
        crate::laws::lists::lemma_filter_none(on);
        assert(entries =~= Seq::empty());
        assert(crate::acquire::lease_lines(entries) =~= entries.filter(on).map_values(line));
    } else {
        crate::laws::lists::lemma_filter_last(entries, on);
        lemma_lease_lines(entries.drop_last());
        assert(crate::acquire::lease_lines(entries) =~= entries.filter(on).map_values(line));
    }
}

/// The first slot that is tried is the free one with the lowest number: its init mutex.
pub proof fn the_lowest_free_slot_is_tried_first(
    pre: Acquire,
    looks: Vec<Look>,
    post: Acquire,
    turn: Turn,
    n: u32,
)
    requires
        pre.phase is Looking,
        looks@.len() == pre.job.cfg.max_slots,
        n < looks@.len(),
        !looks@[n as int].exists || !slots::shows_held(text::opt_text(looks@[n as int].head)),
        forall|k: int|
            0 <= k < n ==> (#[trigger] looks@[k]).exists && slots::shows_held(
                text::opt_text(looks@[k].head),
            ),
        forall|k: int|
            0 <= k < pre.phase->Looking_1@.len() ==> (#[trigger] slot::entry_views(
                pre.phase->Looking_1@,
            )[k]).n <= u32::MAX,
        moves(pre, Reply::Looked(looks), post, turn),
    ensures
        turn.action matches Action::TryLock(p) && p@ == fs_paths::path_in(
            fs_paths::path_in(pre.job.pool_root@, ".meta/init"@),
            slot::slot_name(text::opt_text(pre.group), n as nat) + ".lock"@,
        ),
        post.phase matches Phase::Trying(sha, candidates, next) && sha == pre.phase->Looking_0
            && next == 0 && candidates@[0] == (Acquirable { n, is_fresh: !looks@[n as int].exists }),
{
    let group = text::opt_text(pre.group);
    let entries = slot::entry_views(pre.phase->Looking_1@);
    let views = slot::look_views(looks@);
    let max_slots = pre.job.cfg.max_slots;
    let it = Acquirable { n, is_fresh: !looks@[n as int].exists };
    assert(views.len() == looks@.len());
    assert(views[n as int] == looks@[n as int]@);
    let low = slot::canonical_candidates(views);
    let high = slot::surplus(entries, group, max_slots);
    lemma_joined_members(low, high);
    if low.len() + high.len() == 0 {
        slots::free_slots_may_be_taken(group, views, entries, max_slots, low + high, n);
    } else {
        let c = post.phase->Trying_1@;
        slots::free_slots_may_be_taken(group, views, entries, max_slots, c, n);
        assert(c.contains(it));
        let i = choose|i: int| 0 <= i < c.len() && c[i] == it;
        let first = c[0];
        assert(c.contains(first));
        slots::free_slots_may_be_taken(group, views, entries, max_slots, c, first.n);
        if i > 0 {
            assert(first.n <= n);
        }
        if first.n < n {
            assert(views[first.n as int] == looks@[first.n as int]@);
            assert(looks@[first.n as int].exists);
        }
        assert(first.n == n);
        assert(first == Acquirable { n: first.n, is_fresh: first.is_fresh });
    }
}

proof fn lemma_joined_members(a: Seq<Acquirable>, b: Seq<Acquirable>)
    ensures
        (a + b).to_multiset() == a.to_multiset().add(b.to_multiset()),
{
    vstd::seq_lib::lemma_multiset_commutative(a, b);
}

/// A slot whose init mutex was free is the one that is used: a fresh one is added to the
/// source's worktrees, another is recycled. Its name and path are those of its number.
pub proof fn the_tried_slot_is_used(pre: Acquire, post: Acquire, turn: Turn, a: Acquirable)
    requires
        pre.phase matches Phase::Trying(_, candidates, next) && next < candidates@.len()
            && candidates@[next as int] == a,
        moves(pre, Reply::Tried(Ok(true)), post, turn),
    ensures
        ({
            let id = slot::slot_name(text::opt_text(pre.group), a.n as nat);
            let path = fs_paths::path_in(pre.job.pool_root@, id);
            &&& chosen_in(post.phase) matches Some(c)
            &&& c.id@ == id
            &&& c.path@ == path
            &&& c.fresh == a.is_fresh
            &&& a.is_fresh ==> turn.action is Git
            &&& !a.is_fresh ==> (turn.action matches Action::Gitdir(p) && p@ == path)
        }),
{
}

/// A slot whose init mutex is busy is passed over: the next candidate is tried, and where
/// there is none the acquire is refused.
pub proof fn busy_slots_are_passed_over(
    pre: Acquire,
    candidates: Vec<Acquirable>,
    next: usize,
    post: Acquire,
    turn: Turn,
)
    requires
        pre.phase matches Phase::Trying(_, c, n) && c == candidates && n == next,
        moves(pre, Reply::Tried(Ok(false)), post, turn),
    ensures
        next + 1 < candidates@.len() ==> (turn.action matches Action::TryLock(p) && p@
            == fs_paths::path_in(
            fs_paths::path_in(pre.job.pool_root@, ".meta/init"@),
            slot::slot_name(text::opt_text(pre.group), candidates@[next + 1].n as nat) + ".lock"@,
        )) && (post.phase matches Phase::Trying(_, c, n) && c == candidates && n == next + 1),
        next + 1 >= candidates@.len() ==> (turn.action matches Action::Finish(Err(e)) && e.kind
            == Some(ExitKind::Contended)),
{
}

/// A lock that git left in the slot is removed before the slot is reset, and only that.
pub proof fn a_left_index_lock_is_cleared(
    pre: Acquire,
    c: Chosen,
    dir: Option<String>,
    post: Acquire,
    turn: Turn,
)
    requires
        pre.phase == Phase::Recycling(c),
        moves(pre, Reply::Gitdir(dir), post, turn),
    ensures
        dir matches Some(d) ==> (turn.action matches Action::RemoveFile(p) && p@
            == fs_paths::path_in(d@, "index.lock"@)),
        dir is None ==> (turn.action matches Action::Git(g) && g.cwd@ == c.path@ && g@.args == seq![
            "reset"@,
            "--hard"@,
            c.sha@,
        ]),
{
}

/// Whatever came of removing that lock, the slot is reset; a lock that is still there is
/// warned of.
pub proof fn the_slot_is_reset_whatever_the_lock(
    pre: Acquire,
    c: Chosen,
    lock: String,
    r: Removal,
    post: Acquire,
    turn: Turn,
)
    requires
        pre.phase == Phase::Unjamming(c, lock),
        moves(pre, Reply::Removal(r), post, turn),
    ensures
        turn.action matches Action::Git(g) && g.cwd@ == c.path@ && g@.args == seq![
            "reset"@,
            "--hard"@,
            c.sha@,
        ],
        r is Missing ==> turn.notes@.len() == 0,
        r is Removed ==> text::texts(turn.notes@) == seq![
            "cleared leftover index.lock in '"@ + c.id@ + "' before recycle"@,
        ],
        r matches Removal::Failed(why) ==> text::texts(turn.notes@) == seq![
            "warn: removing "@ + lock@ + ": "@ + why@,
        ],
{
    assert(text::texts(turn.notes@).len() == turn.notes@.len());
}

/// A slot that was reset is swept of stranded directories; a reset that failed ends the run.
pub proof fn a_reset_slot_is_swept(
    pre: Acquire,
    c: Chosen,
    r: GitReply,
    post: Acquire,
    turn: Turn,
)
    requires
        pre.phase == Phase::Resetting(c),
        moves(pre, Reply::Git(r), post, turn),
    ensures
        (r matches GitReply::Finished(o) && o.success) ==> (turn.action matches Action::Sweep(p)
            && p@ == c.path@),
        !(r matches GitReply::Finished(o) && o.success) ==> turn.action matches Action::Finish(
            Err(_),
        ),
{
}

/// A worktree that could not be added is taken back, in git and on disk, and the failure of
/// the add is what is told.
pub proof fn a_failed_add_is_taken_back(
    pre: Acquire,
    c: Chosen,
    r: GitReply,
    post: Acquire,
    turn: Turn,
)
    requires
        pre.phase == Phase::Adding(c),
        moves(pre, Reply::Git(r), post, turn),
        !(r matches GitReply::Finished(o) && o.success),
    ensures
        turn.action matches Action::Git(g) && g.cwd@ == pre.job.cfg.source@ && g@.args == seq![
            "worktree"@,
            "remove"@,
            "--force"@,
            c.path@,
        ],
        post.phase matches Phase::Undoing(d, e) && d == c && e.kind is None && (
        r matches GitReply::NotStarted(_) || (r matches GitReply::Finished(o) && exists|front|
            #[trigger] crate::laws::lists::ends(e.message@, front, text::trimmed(o.stderr@)))),
{
    if let GitReply::Finished(o) = r {
        let e = post.phase->Undoing_1;
        let front = crate::git::shown(
            crate::git::worktree_add_command(pre.job.cfg@.source, c.path@, c.sha@),
        ) + " failed (exit "@ + o.status@ + "): "@;
        assert(crate::laws::lists::ends(e.message@, front, text::trimmed(o.stderr@)));
    }
}

/// What is left of the add is removed from disk, and the run ends with the add's failure.
pub proof fn what_the_add_left_goes(
    pre: Acquire,
    c: Chosen,
    e: Error,
    r: GitReply,
    post: Acquire,
    turn: Turn,
    done: Acquire,
    last: Turn,
)
    requires
        pre.phase == Phase::Undoing(c, e),
        moves(pre, Reply::Git(r), post, turn),
        moves(post, Reply::Done, done, last),
    ensures
        turn.action matches Action::RemoveDir(p) && p@ == c.path@,
        last.action matches Action::Finish(Err(f)) && f.kind == e.kind && f.message@ == e.message@,
{
}

/// With a mirror configured, the lease's branch is made in the slot as soon as it is checked
/// out; without one, the checkout's `.gitmodules` is looked for first.
pub proof fn the_branch_waits_for_the_mirror_gate(
    pre: Acquire,
    c: Chosen,
    reply: Reply,
    post: Acquire,
    turn: Turn,
)
    requires
        (pre.phase == Phase::Adding(c) && (reply matches Reply::Git(GitReply::Finished(o))
            && o.success)) || (pre.phase == Phase::Sweeping(c) && (reply matches Reply::Ended(r)
            && r is Ok)),
        moves(pre, reply, post, turn),
    ensures
        pre.job.cfg.submodule_mirror_mode is Some ==> (turn.action matches Action::Git(g) && g.cwd@
            == c.path@ && g@.args == seq![
            "update-ref"@,
            "refs/heads/"@ + pre.job.args.lease@,
            "HEAD"@,
        ]),
        pre.job.cfg.submodule_mirror_mode is None ==> (turn.action matches Action::Exists(p) && p@
            == fs_paths::path_in(c.path@, ".gitmodules"@)),
{
}

/// Without a mirror, a checkout that declares submodules is refused; one without
/// `.gitmodules`, or with one that declares none, gets its branch.
pub proof fn submodules_need_a_mirror(
    pre: Acquire,
    c: Chosen,
    o: GitOutput,
    post: Acquire,
    turn: Turn,
)
    requires
        pre.phase == Phase::Reading(c),
        o.success,
        moves(pre, Reply::Git(GitReply::Finished(o)), post, turn),
    ensures
        submodules::declared(text::trimmed(o.stdout@)).len() == 0 ==> (turn.action matches Action::Git(
            g,
        ) && g.cwd@ == c.path@ && g@.args == seq![
            "update-ref"@,
            "refs/heads/"@ + pre.job.args.lease@,
            "HEAD"@,
        ]),
        submodules::declared(text::trimmed(o.stdout@)).len() > 0 ==> (
        turn.action matches Action::Finish(Err(e)) && e.kind is None && e.message@ == "slot '"@ + c.id@
            + "' checkout declares submodules but pool has no submodule mirror configured. Set submodule_mirror_mode (source-submodules or bare-mirror) + submodule_mirror_base in "@
            + fs_paths::path_in(pre.job.pool_root@, ".meta/config.yaml"@) + ", then retry."@),
{
}

/// A checkout without `.gitmodules` gets its branch; one with it is read.
pub proof fn the_gate_reads_what_is_there(
    pre: Acquire,
    c: Chosen,
    there: bool,
    post: Acquire,
    turn: Turn,
)
    requires
        pre.phase == Phase::Gating(c),
        moves(pre, Reply::Exists(there), post, turn),
    ensures
        turn.action matches Action::Git(g) && g.cwd@ == c.path@ && if there {
            g@.args == seq![
                "config"@,
                "--file"@,
                fs_paths::path_in(c.path@, ".gitmodules"@),
                "--list"@,
            ]
        } else {
            g@.args == seq!["update-ref"@, "refs/heads/"@ + pre.job.args.lease@, "HEAD"@]
        },
{
}

/// `HEAD` is put on the branch that was made; once it is there the pool's mutex goes. A
/// failure at either ends the run.
pub proof fn the_head_is_put_on_the_lease(
    pre: Acquire,
    c: Chosen,
    r: GitReply,
    post: Acquire,
    turn: Turn,
)
    requires
        pre.phase == Phase::Branching(c) || pre.phase == Phase::Attaching(c),
        moves(pre, Reply::Git(r), post, turn),
    ensures
        !(r matches GitReply::Finished(o) && o.success) ==> turn.action matches Action::Finish(
            Err(_),
        ),
        (r matches GitReply::Finished(o) && o.success) && pre.phase is Branching ==> (
        turn.action matches Action::Git(g) && g.cwd@ == c.path@ && g@.args == seq![
            "symbolic-ref"@,
            "-m"@,
            "worktree-pool acquire"@,
            "HEAD"@,
            "refs/heads/"@ + pre.job.args.lease@,
        ]),
        (r matches GitReply::Finished(o) && o.success) && pre.phase is Attaching
            ==> turn.action is DropLock,
{
}

/// With the mutex gone the submodules of the slot are updated, from the top.
pub proof fn submodules_are_updated_from_the_top(
    pre: Acquire,
    c: Chosen,
    post: Acquire,
    turn: Turn,
)
    requires
        pre.phase == Phase::Unlocking(c),
        moves(pre, Reply::Done, post, turn),
    ensures
        turn.action matches Action::Update(p, scope) && p@ == c.path@ && scope@.len() == 0,
{
}

/// Once the submodules are there, the slot's hooks file is looked for; a failed update is told
/// with the way to recover.
pub proof fn the_hooks_file_is_looked_for(
    pre: Acquire,
    c: Chosen,
    r: Result<(), Error>,
    post: Acquire,
    turn: Turn,
)
    requires
        pre.phase == Phase::Updating(c),
        moves(pre, Reply::Ended(r), post, turn),
    ensures
        r is Ok ==> (turn.action matches Action::Exists(p) && p@ == fs_paths::path_in(
            c.path@,
            ".wt-hooks.sh"@,
        )),
        r matches Err(e) ==> (turn.action matches Action::Finish(Err(f)) && f.kind == e.kind
            && f.message@ == "submodule update failed for slot '"@ + c.id@ + "' (lease '"@
            + pre.job.args.lease@
            + "'); slot is left HELD with partial state. Recover: `worktree-pool --pool <key> release --lease "@
            + pre.job.args.lease@ + "`."@ + ": "@ + e.message@),
{
}

/// The hook runs where the file is there, told the pool's key, the lease, the path and whether
/// the slot is fresh; where it is not, the slot's path is given at once.
pub proof fn the_hook_runs_where_there_is_one(
    pre: Acquire,
    c: Chosen,
    there: bool,
    post: Acquire,
    turn: Turn,
)
    requires
        pre.phase == Phase::Hooking(c),
        moves(pre, Reply::Exists(there), post, turn),
    ensures
        there ==> (turn.action matches Action::Hook(h) && h.cwd@ == c.path@ && h.env@.len() == 6
            && h.env@[1].0@ == "WT_KEY"@ && h.env@[1].1@ == pre.job.pool_key@ && h.env@[3].0@
            == "WT_LEASE"@ && h.env@[3].1@ == pre.job.args.lease@ && h.env@[4].0@ == "WT_PATH"@
            && h.env@[4].1@ == c.path@ && h.env@[5].0@ == "WT_FRESH"@ && h.env@[5].1@ == (
        if c.fresh {
            "1"@
        } else {
            "0"@
        }) && h.script@ == "source \"$WT_HOOKS_FILE\"; set -e; if declare -F wt_post_acquire"@
            + " >/dev/null 2>&1; then wt_post_acquire; fi"@),
        !there ==> (turn.action matches Action::Finish(Ok(Some(p))) && p@ == c.path@),
{
    if there {
        let h = turn.action->Hook_0;
        let hook = "wt_post_acquire"@;
        crate::laws::hooks::a_hook_sees_its_slot(
            h,
            hook,
            c.path@,
            pre.job.pool_key@,
            pre.job.args.lease@,
            c.fresh,
        );
        reveal_strlit("wt_post_acquire");
        reveal_strlit("source \"$WT_HOOKS_FILE\"; set -e; if declare -F ");
        reveal_strlit(" >/dev/null 2>&1; then ");
        reveal_strlit("; fi");
        reveal_strlit("source \"$WT_HOOKS_FILE\"; set -e; if declare -F wt_post_acquire");
        reveal_strlit(" >/dev/null 2>&1; then wt_post_acquire; fi");
        assert("source \"$WT_HOOKS_FILE\"; set -e; if declare -F "@ + hook
            =~= "source \"$WT_HOOKS_FILE\"; set -e; if declare -F wt_post_acquire"@);
        assert(" >/dev/null 2>&1; then "@ + hook + "; fi"@
            =~= " >/dev/null 2>&1; then wt_post_acquire; fi"@);
        assert(h.script@ =~= "source \"$WT_HOOKS_FILE\"; set -e; if declare -F wt_post_acquire"@
            + " >/dev/null 2>&1; then wt_post_acquire; fi"@);
    }
}

/// The slot's path is given where the hook ended well; a hook that did not is told with the
/// way to recover.
pub proof fn the_path_is_given_after_the_hook(
    pre: Acquire,
    c: Chosen,
    r: HookReply,
    post: Acquire,
    turn: Turn,
)
    requires
        pre.phase == Phase::Running(c),
        moves(pre, Reply::Hook(r), post, turn),
    ensures
        (r matches HookReply::Ended(ok, _) && ok) ==> (turn.action matches Action::Finish(
            Ok(Some(p)),
        ) && p@ == c.path@),
        !(r matches HookReply::Ended(ok, _) && ok) ==> (turn.action matches Action::Finish(Err(e))
            && e.kind is None && exists|back|
            #[trigger] crate::laws::lists::ends(
                e.message@,
                "post-acquire hook failed for slot '"@ + c.id@ + "' (branch '"@ + pre.job.args.lease@
                    + "'); slot is left HELD. Recover: `worktree-pool --pool <key> release --lease "@
                    + pre.job.args.lease@ + "`."@ + ": "@,
                back,
            )),
{
    crate::laws::hooks::a_hook_is_good_iff_it_ended_well("wt_post_acquire"@, c.path@, r);
    if let Some(m) = crate::hooks::hook_fault("wt_post_acquire"@, c.path@, r) {
        let e = turn.action->Finish_0->Err_0;
        assert(crate::laws::lists::ends(
            e.message@,
            "post-acquire hook failed for slot '"@ + c.id@ + "' (branch '"@ + pre.job.args.lease@
                + "'); slot is left HELD. Recover: `worktree-pool --pool <key> release --lease "@
                + pre.job.args.lease@ + "`."@ + ": "@,
            m,
        ));
    }
}

/// An acquire tells the operator of a defaulted group, of a full group, and of a lock that it
/// cleared or could not; of nothing else.
pub proof fn an_acquire_tells_no_more(pre: Acquire, reply: Reply, post: Acquire, turn: Turn)
    requires
        moves(pre, reply, post, turn),
        !(pre.phase is Listing),
        !(pre.phase is Unjamming),
    ensures
        turn.notes@.len() == 0,
{
}

/// Where every candidate is taken the operator is told how to look into it; a mutex that
/// cannot be tried ends the run with the reason.
pub proof fn taken_candidates_are_told(
    pre: Acquire,
    candidates: Vec<Acquirable>,
    next: usize,
    r: Result<bool, Error>,
    post: Acquire,
    turn: Turn,
)
    requires
        pre.phase matches Phase::Trying(_, c, n) && c == candidates && n == next,
        moves(pre, Reply::Tried(r), post, turn),
    ensures
        r == Ok::<bool, Error>(false) && next + 1 >= candidates@.len() ==> (
        turn.action matches Action::Finish(Err(e)) && e.kind == Some(ExitKind::Contended)
            && e.message@
            == "all candidate slots have init mutexes held by other acquires; run `worktree-pool --pool <key> unstick` to inspect"@
            + ": "@ + "contended"@),
        r matches Err(e) ==> (turn.action matches Action::Finish(Err(f)) && f.kind == e.kind
            && f.message@ == e.message@),
{
}

/// A pool that cannot be listed ends the run with the reason.
pub proof fn an_unreadable_pool_ends_the_acquire(
    pre: Acquire,
    l: DirReply,
    post: Acquire,
    turn: Turn,
)
    requires
        pre.phase is Listing,
        moves(pre, Reply::Listing(l), post, turn),
    ensures
        l matches DirReply::Failed(why) ==> (turn.action matches Action::Finish(Err(e))
            && e.kind is None && e.message@ == "read_dir "@ + pre.job.pool_root@ + ": "@ + why@),
        l matches DirReply::Broken(why) ==> (turn.action matches Action::Finish(Err(e))
            && e.kind is None && e.message@ == why@),
{
}

/// A sweep that failed ends the run with its failure.
pub proof fn a_failed_sweep_ends_the_acquire(
    pre: Acquire,
    e: Error,
    post: Acquire,
    turn: Turn,
)
    requires
        pre.phase is Sweeping,
        moves(pre, Reply::Ended(Err(e)), post, turn),
    ensures
        turn.action matches Action::Finish(Err(f)) && f.kind == e.kind && f.message@ == e.message@,
{
}

/// A run that is over, or that gets a reply to something else than it asked for, ends with a
/// failure that no operator can mend.
pub proof fn a_misplaced_reply_ends_the_run(pre: Acquire, post: Acquire, turn: Turn, b: bool)
    requires
        pre.phase is Over,
        moves(pre, Reply::Exists(b), post, turn),
    ensures
        post.phase is Over,
        turn.action matches Action::Finish(Err(e)) && e.kind is None && e.message@
            == "internal error: a reply does not answer the action"@,
{
}

/// A run keeps its job and its group, and goes from stage to stage: from the commit to the
/// mutex, the listing, the look, the candidates, the checkout, its mirror, the branch, `HEAD`, the
/// submodules and the hook, with the same slot in hand throughout.
pub proof fn a_run_goes_from_stage_to_stage(pre: Acquire, reply: Reply, post: Acquire, turn: Turn)
    requires
        moves(pre, reply, post, turn),
    ensures
        post.job == pre.job,
        post.group == pre.group,
        post.phase is Over <==> turn.action is Finish,
        post.phase is Over || match pre.phase {
            Phase::Resolving => post.phase is Locking,
            Phase::Locking(sha) => post.phase == Phase::Listing(sha),
            Phase::Listing(_) => post.phase is Looking,
            Phase::Looking(_, _) => post.phase is Trying,
            Phase::Trying(_, _, _) => {
                ||| post.phase is Trying && turn.action is TryLock
                ||| post.phase is Adding && turn.action is Git
                ||| post.phase is Recycling && turn.action is Gitdir
            },
            Phase::Adding(c) => {
                ||| post.phase == Phase::Gating(c) && turn.action is Exists
                ||| post.phase == Phase::Branching(c) && turn.action is Git
                ||| (post.phase matches Phase::Undoing(d, _) && d == c)
            },
            Phase::Undoing(c, e) => post.phase == Phase::Clearing(c, e),
            Phase::Clearing(_, _) => false,
            Phase::Recycling(c) => {
                ||| (post.phase matches Phase::Unjamming(d, _) && d == c && turn.action is RemoveFile)
                ||| post.phase == Phase::Resetting(c) && turn.action is Git
            },
            Phase::Unjamming(c, _) => post.phase == Phase::Resetting(c),
            Phase::Resetting(c) => post.phase == Phase::Sweeping(c),
            Phase::Sweeping(c) => {
                ||| post.phase == Phase::Gating(c) && turn.action is Exists
                ||| post.phase == Phase::Branching(c) && turn.action is Git
            },
            Phase::Gating(c) => {
                ||| post.phase == Phase::Reading(c) && reply == Reply::Exists(true)
                ||| post.phase == Phase::Branching(c) && reply == Reply::Exists(false)
            },
            Phase::Reading(c) => post.phase == Phase::Branching(c),
            Phase::Branching(c) => post.phase == Phase::Attaching(c),
            Phase::Attaching(c) => post.phase == Phase::Unlocking(c),
            Phase::Unlocking(c) => post.phase == Phase::Updating(c),
            Phase::Updating(c) => post.phase == Phase::Hooking(c),
            Phase::Hooking(c) => post.phase == Phase::Running(c),
            Phase::Running(_) => false,
            Phase::Over => false,
        },
{
}

} // verus!
