//! Advisory file-lock mutexes.
//!
//! The lock is the open file's; the OS releases it on process death. No process ids,
//! no heartbeat, no staleness threshold. The lock file is never unlinked: removing it
//! would let two processes hold locks on two files of one name.
//!
//! One lock type, two disciplines:
//! - `try_acquire` (per-slot init mutex) gives `None` where another process holds the
//!   lock, so that the caller tries the next slot.
//! - `acquire` (pool-wide mutex) tries again after a pause, and gives up loudly after
//!   `MAX_WAIT` rather than hang.
use crate::error;
use crate::error::Error;
use crate::text;
use vstd::prelude::*;

verus! {

/// Milliseconds between two tries.
pub const WAIT_STEP: u64 = 100;

/// Milliseconds after which a wait is given up.
pub const MAX_WAIT: u64 = 60_000;

/// What came of one try to open a lock file and take its lock.
#[derive(Debug)]
pub enum LockTry {
    /// This process holds the lock now.
    Taken,
    /// Another process holds it.
    Busy,
    /// The lock file's directory could not be made; the directory, and why.
    NoDir(String, String),
    /// The lock file could not be opened; why.
    NotOpened(String),
    /// The lock could not be asked for; why.
    Failed(String),
}

/// A lock that this process holds.
#[derive(Debug)]
pub struct FileLock {
    pub path: String,
}

/// What one try comes to: whether the lock is held now, or a message.
pub open spec fn tried(path: Seq<char>, t: LockTry) -> Result<bool, Seq<char>> {
    match t {
        LockTry::Taken => Ok(true),
        LockTry::Busy => Ok(false),
        LockTry::NoDir(parent, why) => Err("mkdir -p "@ + parent@ + ": "@ + why@),
        LockTry::NotOpened(why) => Err("open "@ + path + ": "@ + why@),
        LockTry::Failed(why) => Err("flock "@ + path + ": "@ + why@),
    }
}

/// What the operator is told of a wait that was given up.
pub open spec fn gave_up(path: Seq<char>) -> Seq<char> {
    "pool mutex held >60s at "@ + path
        + "; another acquire/release in progress (legitimate cold submodule clone) or process is stuck. Inspect with `worktree-pool --pool <key> ls`."@
}

/// What to do next while waiting for a lock.
#[derive(Debug)]
pub enum Wait {
    Taken(FileLock),
    /// Sleep for so many milliseconds and try again; so many have been waited then.
    Again { sleep: u64, waited: u64 },
    Failed(Error),
}

/// What a try after `waited` milliseconds leads to.
pub open spec fn waits(path: Seq<char>, waited: u64, t: LockTry, next: Wait) -> bool {
    match tried(path, t) {
        Ok(true) => next matches Wait::Taken(l) && l.path@ == path,
        Ok(false) => if waited >= MAX_WAIT {
            next matches Wait::Failed(e) && error::told(e, gave_up(path))
        } else {
            next == (Wait::Again { sleep: WAIT_STEP, waited: (waited + WAIT_STEP) as u64 })
        },
        Err(m) => next matches Wait::Failed(e) && error::told(e, m),
    }
}

fn outcome(path: &str, t: &LockTry) -> (r: Result<bool, Error>)
    ensures
        match (r, tried(path@, *t)) {
            (Ok(a), Ok(b)) => a == b,
            (Err(e), Err(m)) => error::told(e, m),
            _ => false,
        },
{
    match t {
        LockTry::Taken => Ok(true),
        LockTry::Busy => Ok(false),
        LockTry::NoDir(parent, why) => {
            let mut doing = text::own("mkdir -p ");
            doing.append(parent.as_str());
            Err(Error::new(text::own(why.as_str())).context(doing.as_str()))
        },
        LockTry::NotOpened(why) => {
            let mut doing = text::own("open ");
            doing.append(path);
            Err(Error::new(text::own(why.as_str())).context(doing.as_str()))
        },
        LockTry::Failed(why) => {
            let mut doing = text::own("flock ");
            doing.append(path);
            Err(Error::new(text::own(why.as_str())).context(doing.as_str()))
        },
    }
}

impl FileLock {
    /// What one try to take the lock on `path` gives: the lock, or `None` where
    /// another process holds it.
    pub fn try_acquire(path: String, t: &LockTry) -> (r: Result<Option<FileLock>, Error>)
        ensures
            match (r, tried(path@, *t)) {
                (Ok(Some(l)), Ok(true)) => l.path == path,
                (Ok(None), Ok(false)) => true,
                (Err(e), Err(m)) => error::told(e, m),
                _ => false,
            },
    {
        match outcome(path.as_str(), t) {
            Ok(true) => Ok(Some(FileLock { path })),
            Ok(false) => Ok(None),
            Err(e) => Err(e),
        }
    }

    /// What a try to take the lock on `path`, after `waited` milliseconds of waiting,
    /// leads to.
    pub fn acquire(path: String, waited: u64, t: &LockTry) -> (r: Wait)
        ensures
            waits(path@, waited, *t, r),
    {
        match outcome(path.as_str(), t) {
            Ok(true) => Wait::Taken(FileLock { path }),
            Ok(false) => {
                if waited >= MAX_WAIT {
                    let mut m = text::own("pool mutex held >60s at ");
                    m.append(path.as_str());
                    m.append(
                        "; another acquire/release in progress (legitimate cold submodule clone) or process is stuck. Inspect with `worktree-pool --pool <key> ls`.",
                    );
                    Wait::Failed(Error::new(m))
                } else {
                    Wait::Again { sleep: WAIT_STEP, waited: waited + WAIT_STEP }
                }
            },
            Err(e) => Wait::Failed(e),
        }
    }
}

/// Whether a try shows that some process holds the lock. A file that is not there is
/// free; one whose lock cannot be asked for counts as held.
pub fn is_held(t: &LockTry) -> (r: bool)
    ensures
        r == (t is Busy || t is Failed),
{
    match t {
        LockTry::Busy => true,
        LockTry::Failed(_) => true,
        _ => false,
    }
}

/// The milliseconds waited after `k` tries that found the lock busy.
pub open spec fn waited_after(k: nat) -> int
    decreases k,
{
    if k == 0 {
        0
    } else {
        waited_after((k - 1) as nat) + WAIT_STEP
    }
}

proof fn lemma_waited_after(k: nat)
    ensures
        waited_after(k) == k * 100,
    decreases k,
{
    if k > 0 {
        lemma_waited_after((k - 1) as nat);
    }
}

/// A wait on a lock that stays busy goes on for exactly 600 pauses and then fails.
pub proof fn waiting_is_bounded(path: Seq<char>, k: nat, next: Wait)
    requires
        k <= 600,
        waits(path, waited_after(k) as u64, LockTry::Busy, next),
    ensures
        k < 600 ==> next == (Wait::Again {
            sleep: WAIT_STEP,
            waited: waited_after(k + 1) as u64,
        }),
        k == 600 ==> next is Failed,
{
    lemma_waited_after(k);
    lemma_waited_after(k + 1);
}

// ---------------------------------------------------------------------------
// Exclusion
// ---------------------------------------------------------------------------

/// What happens to locks, of one process or another.
pub enum LockEvent {
    /// A process tried to take the lock on a file.
    Tried(Seq<char>, LockTry),
    /// The process that held the lock on a file released it, or died.
    Dropped(Seq<char>),
}

/// The files whose locks are held after the first `n` events.
pub open spec fn held_after(events: Seq<LockEvent>, n: nat) -> Set<Seq<char>>
    decreases n,
{
    if n == 0 {
        Set::empty()
    } else {
        let before = held_after(events, (n - 1) as nat);
        match events[n - 1] {
            LockEvent::Tried(p, LockTry::Taken) => before.insert(p),
            LockEvent::Tried(_, _) => before,
            LockEvent::Dropped(p) => before.remove(p),
        }
    }
}

/// What the OS does: it grants a lock that no process holds, and calls one busy that some
/// process holds. A try can also fail before it asks for the lock, or in asking.
pub open spec fn is_history(events: Seq<LockEvent>) -> bool {
    forall|i: int|
        0 <= i < events.len() ==> (#[trigger] events[i] matches LockEvent::Tried(p, t) ==> {
            &&& t is Taken ==> !held_after(events, i as nat).contains(p)
            &&& t is Busy ==> held_after(events, i as nat).contains(p)
        })
}

/// The lock files that are there after the first `n` events: a try makes the file that it
/// asks for the lock on, and nothing removes it.
pub open spec fn files_after(events: Seq<LockEvent>, n: nat) -> Set<Seq<char>>
    decreases n,
{
    if n == 0 {
        Set::empty()
    } else {
        let before = files_after(events, (n - 1) as nat);
        match events[n - 1] {
            LockEvent::Tried(p, LockTry::Taken) => before.insert(p),
            LockEvent::Tried(p, LockTry::Busy) => before.insert(p),
            LockEvent::Tried(p, LockTry::Failed(_)) => before.insert(p),
            LockEvent::Tried(_, _) => before,
            LockEvent::Dropped(_) => before,
        }
    }
}

/// No process dropped the lock on a file from one event to before another.
pub open spec fn is_kept(events: Seq<LockEvent>, path: Seq<char>, from: int, to: int) -> bool {
    forall|i: int| from <= i < to ==> #[trigger] events[i] != LockEvent::Dropped(path)
}

proof fn lemma_kept(events: Seq<LockEvent>, path: Seq<char>, from: int, to: int)
    requires
        0 <= from < to <= events.len(),
        events[from] == LockEvent::Tried(path, LockTry::Taken),
        is_kept(events, path, from, to),
    ensures
        held_after(events, to as nat).contains(path),
    decreases to,
{
    assert(events[to - 1] != LockEvent::Dropped(path));
    if from + 1 < to {
        lemma_kept(events, path, from, to - 1);
    }
}

proof fn lemma_free(events: Seq<LockEvent>, path: Seq<char>, from: int, to: int)
    requires
        0 <= from < to <= events.len(),
        events[from] == LockEvent::Dropped(path),
        forall|i: int| from < i < to ==> #[trigger] events[i] != LockEvent::Tried(path, LockTry::Taken),
    ensures
        !held_after(events, to as nat).contains(path),
    decreases to,
{
    if from + 1 < to {
        assert(events[to - 1] != LockEvent::Tried(path, LockTry::Taken));
        lemma_free(events, path, from, to - 1);
    }
}

/// A lock excludes: while one process holds it, no try of another gets it, and one that is
/// answered gives `None` and shows that the lock is held.
pub proof fn held_lock_excludes(events: Seq<LockEvent>, path: Seq<char>, first: int, next: int)
    requires
        is_history(events),
        0 <= first < next < events.len(),
        events[first] == LockEvent::Tried(path, LockTry::Taken),
        is_kept(events, path, first, next),
        events[next] matches LockEvent::Tried(p, _) && p == path,
    ensures
        tried(path, events[first]->Tried_1) == Ok::<bool, Seq<char>>(true),
        tried(path, events[next]->Tried_1) != Ok::<bool, Seq<char>>(true),
        tried(path, events[next]->Tried_1) is Ok ==> tried(path, events[next]->Tried_1) == Ok::<
            bool,
            Seq<char>,
        >(false) && events[next]->Tried_1 is Busy,
{
    lemma_kept(events, path, first, next);
}

/// A dropped lock is free again: the next try that is answered gets it.
pub proof fn dropped_lock_is_free(events: Seq<LockEvent>, path: Seq<char>, drop: int, next: int)
    requires
        is_history(events),
        0 <= drop < next < events.len(),
        events[drop] == LockEvent::Dropped(path),
        forall|i: int|
            drop < i < next ==> #[trigger] events[i] != LockEvent::Tried(path, LockTry::Taken),
        events[next] matches LockEvent::Tried(p, _) && p == path,
        tried(path, events[next]->Tried_1) is Ok,
    ensures
        tried(path, events[next]->Tried_1) == Ok::<bool, Seq<char>>(true),
{
    lemma_free(events, path, drop, next);
}

/// A lock file stays: it is there from the first try that was answered on, through every
/// drop of the lock.
pub proof fn lock_file_stays(events: Seq<LockEvent>, path: Seq<char>, first: int, n: nat)
    requires
        0 <= first < n <= events.len(),
        events[first] matches LockEvent::Tried(p, t) && p == path && tried(path, t) is Ok,
    ensures
        files_after(events, n).contains(path),
    decreases n,
{
    if first + 1 < n {
        lock_file_stays(events, path, first, (n - 1) as nat);
    }
}

} // verus!
