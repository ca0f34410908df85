//! Laws of the runs, the locks and the flat files as they are called.
use crate::acquire;
use crate::acquire::Acquire;
use crate::cli::{AcquireArgs, ReleaseArgs};
use crate::config::{FileWrite, PoolConfig};
use crate::effect::{Action, Reply, Turn};
use crate::error::Error;
use crate::fs_paths;
use crate::lock;
use crate::lock::{Lock, Timestamp};
use crate::mutex;
use crate::mutex::{FileLock, LockTry, Wait};
use crate::parallel;
use crate::release;
use crate::release::Release;
use crate::submodules;
use crate::submodules::{DeleteBranches, Forget, Sweep, Task, Update, Worker};
use crate::text;
use crate::yaml;
use crate::yaml::Scalars;
use vstd::prelude::*;

verus! {

/// An acquire begins with its own arguments: the commit that was named, or the pool's default,
/// is asked for in the source. The submodules are updated for the lease, without those that
/// have an excluded tag.
pub proof fn an_acquire_begins(
    key: &str,
    root: &str,
    cfg: &PoolConfig,
    args: &AcquireArgs,
    r: (Acquire, Turn),
    a: &Acquire,
    task: Task,
)
    requires
        call_ensures(acquire::run, (key, root, cfg, args), r),
        call_ensures(Acquire::task, (a,), task),
    ensures
        r.0.job.pool_key == key && r.0.job.pool_root == root && r.0.job.cfg == cfg && r.0.job.args
            == args,
        r.1.action matches Action::Git(g) ==> {
            &&& g.cwd@ == cfg.source@
            &&& args.commit matches Some(c) ==> g@.args == seq![
                "rev-parse"@,
                "--verify"@,
                c@ + "^{commit}"@,
            ]
            &&& args.commit is None ==> g@.args == seq![
                "rev-parse"@,
                "--verify"@,
                cfg.default_commit@ + "^{commit}"@,
            ]
        },
        args.group is None ==> r.1.action is Git,
        task.cfg == a.job.cfg && *task.exclude_tags == a.job.args.exclude_submodule_tags
            && task.branch@ == a.job.args.lease@,
{
    let job = acquire::Job { pool_key: key, pool_root: root, cfg, args };
    crate::laws::acquire::the_named_commit_is_resolved(job, r.0, r.1);
    crate::laws::acquire::the_group_is_the_asked_one(job, r.0, r.1);
}

/// A release begins with the pool's mutex.
pub proof fn a_release_begins(
    root: &str,
    cfg: &PoolConfig,
    args: &ReleaseArgs,
    r: (Release, Turn),
)
    requires
        call_ensures(release::run, (root, cfg, args), r),
    ensures
        r.0.job.pool_root == root && r.0.job.cfg == cfg && r.0.job.args == args,
        r.1.action matches Action::TakeLock(p) && p@ == fs_paths::path_in(
            root@,
            ".meta/pool.lock"@,
        ),
{
}

/// The machines step as their runs go.
pub proof fn machines_step_as_runs_go(
    reply: Reply,
    a: Acquire,
    a2: (Acquire, Turn),
    r: Release,
    r2: (Release, Turn),
    s: Sweep,
    s2: (Sweep, Turn),
    u: Update,
    u2: (Update, Turn),
    w: Worker,
    w2: (Worker, Turn),
    f: Forget,
    f2: (Forget, Turn),
    d: DeleteBranches,
    d2: (DeleteBranches, Turn),
)
    requires
        call_ensures(Acquire::step, (a, reply), a2),
        call_ensures(Release::step, (r, reply), r2),
        call_ensures(Sweep::step, (s, reply), s2),
        call_ensures(Update::step, (u, reply), u2),
        call_ensures(Worker::step, (w, reply), w2),
        call_ensures(Forget::step, (f, reply), f2),
        call_ensures(DeleteBranches::step, (d, reply), d2),
    ensures
        acquire::moves(a, reply, a2.0, a2.1),
        release::moves(r, reply, r2.0, r2.1),
        submodules::sweep_moves(s, reply, s2.0, s2.1),
        submodules::update_moves(u, reply, u2.0, u2.1),
        submodules::worker_moves(w, reply, w2.0, w2.1),
        submodules::forget_moves(f, reply, f2.0, f2.1),
        submodules::delete_moves(d, reply, d2.0, d2.1),
{
}

/// One try has the lock, finds it busy or fails; a wait takes a free lock, pauses on a busy one
/// for a minute, and gives up then. A lock that cannot be asked for counts as held.
pub proof fn locks_are_tried_and_waited_for(
    path: String,
    t: &LockTry,
    waited: u64,
    once: Result<Option<FileLock>, Error>,
    next: Wait,
    held: bool,
)
    requires
        call_ensures(FileLock::try_acquire, (path, t), once),
        call_ensures(FileLock::acquire, (path, waited, t), next),
        call_ensures(mutex::is_held, (t,), held),
    ensures
        *t is Taken <==> (once matches Ok(Some(l)) && l.path@ == path@),
        *t is Busy <==> once == Ok::<Option<FileLock>, Error>(None),
        !(*t is Taken) && !(*t is Busy) <==> once is Err,
        *t is Taken <==> next is Taken,
        *t is Busy && waited < 60_000 ==> (next matches Wait::Again { sleep, waited: w } && sleep
            == 100 && w == waited + 100),
        *t is Busy && waited >= 60_000 ==> next is Failed,
        !(*t is Taken) && !(*t is Busy) ==> next is Failed,
        held <==> *t is Busy || *t is Failed,
{
}

/// The verdict on work done in parallel is its first failure.
pub proof fn the_first_failure_counts(
    results: Vec<Result<(), Error>>,
    r: (Result<(), Error>, Vec<String>),
    i: int,
)
    requires
        call_ensures(parallel::first_failure, (results,), r),
    ensures
        0 <= i < results@.len() && results@[i] is Err && (forall|j: int|
            0 <= j < i ==> results@[j] is Ok) ==> r.0 == results@[i],
        (forall|j: int| 0 <= j < results@.len() ==> results@[j] is Ok) ==> r.0 is Ok && r.1@.len()
            == 0,
        r.0 is Err ==> r.1@.len() + 1 == results@.filter(|x: Result<(), Error>| x is Err).len(),
{
    let told = text::texts(r.1@);
    assert(told.len() == r.1@.len());
    crate::laws::parallel::the_first_failure_is_the_verdict(results@, r.0, told, i);
    if r.0 is Err {
        crate::laws::parallel::the_other_failures_are_told(results@, r.0, told);
    }
}

/// Reading what was written gives the pairs back; a key that is not there gives nothing.
pub proof fn flat_files_are_read(
    t: &str,
    s: Scalars,
    key: &str,
    v: Option<&String>,
    n: usize,
    empty: bool,
    rest: Seq<char>,
    value: Seq<char>,
)
    requires
        call_ensures(yaml::parse, (t,), s),
        call_ensures(Scalars::get, (&s, key), v),
        call_ensures(Scalars::len, (&s,), n),
        call_ensures(Scalars::is_empty, (&s,), empty),
    ensures
        v is Some <==> yaml::mapping(text::lines_of(t@)).contains_key(key@),
        v matches Some(x) ==> x@ == yaml::mapping(text::lines_of(t@))[key@],
        v is Some ==> !empty && n > 0,
        empty ==> n == 0,
{
    let m = yaml::mapping(text::lines_of(t@));
    if v is Some {
        assert(m.dom().contains(key@));
        assert(Map::<Seq<char>, Seq<char>>::empty().dom().len() == 0);
    }
    if empty {
        assert(m.dom() =~= Set::empty());
    }
}

/// A marker keeps what it was made of; its file reads back as it, to the second.
pub proof fn markers_are_kept(
    at: Timestamp,
    sha: String,
    group: Option<String>,
    l: Lock,
    written: String,
    t: &str,
    r: Result<Lock, Error>,
)
    requires
        call_ensures(Lock::at, (at, sha, group), l),
        call_ensures(Lock::serialize, (&l,), written),
        call_ensures(Lock::parse, (t,), r),
        t@ == written@,
        lock::storable(l@),
        at@.nanos < 1_000_000_000,
    ensures
        l.full_sha == sha && l.group == group && l.started_at == at,
        r matches Ok(m) && m.full_sha@ == sha@ && text::opt_text(m.group) == text::opt_text(group)
            && m.started_at@.secs == at@.secs && m.started_at@.nanos == 0,
{
}

/// Times are kept, written and read; a marker's file tells where it could not be read.
pub proof fn times_are_kept(
    secs: i64,
    nanos: u32,
    r: Option<Timestamp>,
    at: &Timestamp,
    s: i64,
    n: u32,
    path: &str,
    content: Result<String, String>,
    l: Result<Lock, Error>,
    m: &Lock,
    w: FileWrite,
    written: String,
)
    requires
        call_ensures(Timestamp::new, (secs, nanos), r),
        call_ensures(Timestamp::secs, (at,), s),
        call_ensures(Timestamp::nanos, (at,), n),
        call_ensures(Lock::read, (path, content), l),
        call_ensures(Lock::write, (m, path), w),
        call_ensures(Lock::serialize, (m,), written),
    ensures
        r matches Some(t) ==> t@.secs == secs && t@.nanos == nanos,
        0 <= secs <= 253_402_300_799 && nanos < 1_000_000_000 ==> r is Some,
        s == at@.secs && n == at@.nanos,
        content matches Err(why) ==> (l matches Err(e) && e.kind is None && e.message@
            == "reading lock "@ + path@ + ": "@ + why@),
        content matches Ok(t) ==> (lock::lock_read(t@) matches Err(why) ==> (l matches Err(e)
            && e.kind is None && e.message@ == "parsing lock "@ + path@ + ": "@ + why)),
        content matches Ok(t) ==> (lock::lock_read(t@) matches Ok(v) ==> (l matches Ok(k) && k@
            == v)),
        w.path@ == path@ && w.content@ == written@,
{
}

/// Pairs are written one to a line, in order, without the empty ones.
pub proof fn flat_files_are_written(pairs: &[(&str, String)], r: String)
    requires
        call_ensures(yaml::serialize, (pairs,), r),
    ensures
        pairs@.len() == 0 ==> r@.len() == 0,
        pairs@.len() == 1 && pairs@[0].1@.len() > 0 ==> r@ == pairs@[0].0@ + ": "@ + pairs@[0].1@
            + "\n"@,
        pairs@.len() == 2 && pairs@[0].1@.len() > 0 && pairs@[1].1@.len() > 0 ==> r@
            == pairs@[0].0@ + ": "@ + pairs@[0].1@ + "\n"@ + pairs@[1].0@ + ": "@ + pairs@[1].1@
            + "\n"@,
        pairs@.len() == 2 && pairs@[0].1@.len() > 0 && pairs@[1].1@.len() == 0 ==> r@
            == pairs@[0].0@ + ": "@ + pairs@[0].1@ + "\n"@,
{
    let e = yaml::entries(pairs@);
    assert(e.len() == pairs@.len());
    let none = Seq::<yaml::Entry>::empty();
    crate::laws::yaml::pairs_are_written_line_by_line(none, Seq::empty(), Seq::empty());
    assert(yaml::document(none) =~= Seq::<char>::empty());
    if e.len() == 0 {
        assert(e =~= none);
    } else {
        assert(e[0] == (pairs@[0].0@, pairs@[0].1@));
        crate::laws::yaml::pairs_are_written_line_by_line(none, e[0].0, e[0].1);
        let one = none.push(e[0]);
        if e[0].1.len() > 0 {
            assert(yaml::document(one) =~= e[0].0 + ": "@ + e[0].1 + "\n"@);
        }
        if e.len() == 1 {
            assert(e =~= one);
        } else if e.len() == 2 {
            assert(e[1] == (pairs@[1].0@, pairs@[1].1@));
            crate::laws::yaml::pairs_are_written_line_by_line(one, e[1].0, e[1].1);
            assert(e =~= one.push(e[1]));
        }
    }
}

} // verus!
