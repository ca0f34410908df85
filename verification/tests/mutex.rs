//! File-lock mutexes, hooks and parallel work: what their results come to.
use worktree_pool::error::Error;
use worktree_pool::hooks::{fire, fired, hooks_file, HookReply, HOOKS_FILE};
use worktree_pool::mutex::{is_held, FileLock, LockTry, Wait, MAX_WAIT, WAIT_STEP};
use worktree_pool::parallel::first_failure;

#[test]
fn init_mutex_acquire_when_free() {
    let m = FileLock::try_acquire("/t/m.lock".into(), &LockTry::Taken).unwrap();
    assert!(m.is_some());
    assert_eq!(m.unwrap().path, "/t/m.lock");
}

#[test]
fn init_mutex_returns_none_when_held() {
    let again = FileLock::try_acquire("/t/m.lock".into(), &LockTry::Busy).unwrap();
    assert!(again.is_none());
}

#[test]
fn init_mutex_drop_releases() {
    // Once the lock is dropped, the next try finds it free.
    drop(FileLock::try_acquire("/t/m.lock".into(), &LockTry::Taken).unwrap().unwrap());
    let again = FileLock::try_acquire("/t/m.lock".into(), &LockTry::Taken).unwrap();
    assert!(again.is_some());
}

#[test]
fn is_held_true_when_locked() {
    assert!(is_held(&LockTry::Busy));
    // A lock that cannot be asked for counts as held.
    assert!(is_held(&LockTry::Failed("io".into())));
}

#[test]
fn is_held_false_when_unlocked() {
    assert!(!is_held(&LockTry::Taken));
}

#[test]
fn is_held_false_when_file_missing() {
    assert!(!is_held(&LockTry::NotOpened("missing.lock".into())));
    assert!(!is_held(&LockTry::NoDir("/t".into(), "missing".into())));
}

#[test]
fn pool_mutex_acquire_when_free() {
    assert!(matches!(
        FileLock::acquire("/t/p.lock".into(), 0, &LockTry::Taken),
        Wait::Taken(_)
    ));
}

#[test]
fn failed_tries_are_told() {
    let told = |t: LockTry| {
        FileLock::try_acquire("/t/m.lock".into(), &t).unwrap_err().message
    };
    assert_eq!(told(LockTry::Failed("io".into())), "flock /t/m.lock: io");
    assert_eq!(told(LockTry::NotOpened("denied".into())), "open /t/m.lock: denied");
    assert_eq!(told(LockTry::NoDir("/t".into(), "ro".into())), "mkdir -p /t: ro");
    match FileLock::acquire("/t/m.lock".into(), 0, &LockTry::Failed("io".into())) {
        Wait::Failed(e) => assert_eq!(e.message, "flock /t/m.lock: io"),
        w => panic!("{w:?}"),
    }
}

#[test]
fn a_wait_is_given_up_after_sixty_seconds() {
    let mut waited: u64 = 0;
    let mut pauses = 0;
    loop {
        match FileLock::acquire("/t/p.lock".into(), waited, &LockTry::Busy) {
            Wait::Again { sleep, waited: w } => {
                assert_eq!(sleep, WAIT_STEP);
                waited = w;
                pauses += 1;
            }
            Wait::Failed(e) => {
                assert_eq!(
                    e.message,
                    "pool mutex held >60s at /t/p.lock; another acquire/release in progress \
                     (legitimate cold submodule clone) or process is stuck. Inspect with \
                     `worktree-pool --pool <key> ls`."
                );
                break;
            }
            w => panic!("{w:?}"),
        }
    }
    assert_eq!(pauses, 600);
    assert_eq!(waited, MAX_WAIT);
}

#[test]
fn runs_in_slot_with_env_contract() {
    let c = fire("wt_post_acquire", "/pool/slot", "mykey", "myname", true);
    assert_eq!(c.cwd, "/pool/slot");
    let get = |k: &str| {
        c.env.iter().find(|p| p.0 == k).map(|p| p.1.as_str()).unwrap()
    };
    assert_eq!(
        format!("{}|{}|{}", get("WT_KEY"), get("WT_NAME"), get("WT_FRESH")),
        "mykey|myname|1"
    );
    assert_eq!(get("WT_LEASE"), "myname");
    assert_eq!(get("WT_PATH"), "/pool/slot");
    assert_eq!(get("WT_HOOKS_FILE"), "/pool/slot/.wt-hooks.sh");
    assert_eq!(
        c.script,
        "source \"$WT_HOOKS_FILE\"; set -e; if declare -F wt_post_acquire >/dev/null 2>&1; \
         then wt_post_acquire; fi"
    );
    let warm = fire("wt_post_acquire", "/pool/slot", "k", "n", false);
    assert_eq!(warm.env.last().unwrap(), &("WT_FRESH".to_string(), "0".to_string()));
    assert_eq!(hooks_file("/pool/slot"), format!("/pool/slot/{HOOKS_FILE}"));
}

#[test]
fn failing_hook_is_error() {
    let err = fired(
        "wt_post_acquire",
        "/s",
        &HookReply::Ended(false, "exit status: 3".into()),
    )
    .unwrap_err();
    assert!(err.message.contains("wt_post_acquire"));
    assert_eq!(
        err.message,
        "hook wt_post_acquire failed (exit status: 3); see /s/.wt-hooks.sh"
    );
    assert!(fired("h", "/s", &HookReply::Ended(true, "exit status: 0".into())).is_ok());
    let err = fired("h", "/s", &HookReply::NotStarted("no bash".into())).unwrap_err();
    assert_eq!(err.message, "spawning bash for hook h: no bash");
}

#[test]
fn try_for_each_passes_through_ok() {
    let (r, told) = first_failure(vec![Ok(()), Ok(()), Ok(())]);
    assert!(r.is_ok());
    assert!(told.is_empty());
    assert!(first_failure(vec![]).0.is_ok());
}

#[test]
fn try_for_each_returns_first_err_inline_path() {
    let boom = |x: u32| Error::new(format!("boom {x}"));
    let (r, told) = first_failure(vec![Ok(()), Err(boom(2)), Ok(())]);
    let err = r.unwrap_err();
    assert!(err.message.contains("boom 2"), "got: {}", err.message);
    assert!(told.is_empty());
    let (r, told) = first_failure(vec![Err(boom(1)), Ok(()), Err(boom(3)), Err(boom(4))]);
    assert_eq!(r.unwrap_err().message, "boom 1");
    assert_eq!(told, vec!["(also) boom 3", "(also) boom 4"]);
}

#[test]
fn a_lock_excludes_until_it_is_dropped() {
    // The OS's side: which locks some process holds.
    let mut held: Vec<String> = Vec::new();
    let ask = |held: &mut Vec<String>, path: &str| {
        if held.iter().any(|p| p == path) {
            LockTry::Busy
        } else {
            held.push(path.into());
            LockTry::Taken
        }
    };
    let first = ask(&mut held, "/t/a.lock");
    let lock = FileLock::try_acquire("/t/a.lock".into(), &first).unwrap().unwrap();
    let other = ask(&mut held, "/t/a.lock");
    assert!(FileLock::try_acquire("/t/a.lock".into(), &other).unwrap().is_none());
    assert!(is_held(&other));
    let elsewhere = ask(&mut held, "/t/b.lock");
    assert!(FileLock::try_acquire("/t/b.lock".into(), &elsewhere).unwrap().is_some());
    held.retain(|p| *p != lock.path);
    let again = ask(&mut held, "/t/a.lock");
    assert!(FileLock::try_acquire("/t/a.lock".into(), &again).unwrap().is_some());
}
