//! Laws of the mutexes.
use crate::mutex;
use crate::mutex::{LockTry, Wait};
use vstd::prelude::*;

verus! {

/// One try has the lock, finds it with another, or fails with the reason and the place.
pub proof fn one_try_comes_to(path: Seq<char>, dir: String, why: String)
    ensures
        mutex::tried(path, LockTry::Taken) == Ok::<bool, Seq<char>>(true),
        mutex::tried(path, LockTry::Busy) == Ok::<bool, Seq<char>>(false),
        mutex::tried(path, LockTry::NoDir(dir, why)) == Err::<bool, Seq<char>>(
            "mkdir -p "@ + dir@ + ": "@ + why@,
        ),
        mutex::tried(path, LockTry::NotOpened(why)) == Err::<bool, Seq<char>>(
            "open "@ + path + ": "@ + why@,
        ),
        mutex::tried(path, LockTry::Failed(why)) == Err::<bool, Seq<char>>(
            "flock "@ + path + ": "@ + why@,
        ),
{
}

/// A wait takes a free lock at once, whatever was waited; pauses a tenth of a second on a busy
/// one for a minute, and gives up then; and fails at once where the lock cannot be asked for.
pub proof fn a_wait_lasts_a_minute(path: Seq<char>, waited: u64, t: LockTry, next: Wait)
    requires
        mutex::waits(path, waited, t, next),
    ensures
        t is Taken <==> next is Taken,
        next matches Wait::Taken(l) ==> l.path@ == path,
        t is Busy && waited < 60_000 ==> (next matches Wait::Again { sleep, waited: w } && sleep
            == 100 && w == waited + 100),
        t is Busy && waited >= 60_000 ==> (next matches Wait::Failed(e) && e.kind is None
            && e.message@ == "pool mutex held >60s at "@ + path
            + "; another acquire/release in progress (legitimate cold submodule clone) or process is stuck. Inspect with `worktree-pool --pool <key> ls`."@),
        !(t is Taken) && !(t is Busy) ==> next is Failed,
{
}

} // verus!
