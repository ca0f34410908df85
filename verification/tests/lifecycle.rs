//! Acquire and release against a pool in memory: capacity, exit codes, recycling, hooks,
//! submodules, mirrors and the sweep.
use std::collections::{BTreeMap, BTreeSet};
use worktree_pool::acquire;
use worktree_pool::cli::{
    AcquireArgs, InitArgs, InspectArgs, LsArgs, PathArgs, ReleaseArgs, SubmoduleMirrorMode,
};
use worktree_pool::commands::{cmd_init, opened, Pool};
use worktree_pool::config::PoolConfig;
use worktree_pool::dashboard;
use worktree_pool::effect::{Action, Removal, Reply, Turn};
use worktree_pool::error::Error;
use worktree_pool::exit::ExitKind;
use worktree_pool::git::{GitCommand, GitOutput, GitReply};
use worktree_pool::hooks::HookReply;
use worktree_pool::output::{settle, Outcome, Output};
use worktree_pool::release;
use worktree_pool::slot::{DirReply, Look, Seen};
use worktree_pool::submodules::{
    delete_branch_recursive, sweep_stranded, update, Task, Worker,
};
use worktree_pool::types::{CommitIsh, GroupName};

const ROOT: &str = "/pools/app";
const SHA: &str = "1111111111111111111111111111111111111111";

#[derive(Default)]
struct World {
    /// Path of a checkout → the text of its `HEAD`.
    heads: BTreeMap<String, String>,
    /// Repository (the pool's source, or a submodule checkout) and branch.
    branches: BTreeSet<(String, String)>,
    /// Tags of the pool's source.
    tags: BTreeSet<String>,
    /// Paths that exist besides checkouts.
    files: BTreeSet<String>,
    /// `.gitmodules` path → its config listing.
    modules: BTreeMap<String, String>,
    /// Checkout → its untracked paths, NUL-separated.
    untracked: BTreeMap<String, String>,
    /// Locks that other processes hold.
    busy: BTreeSet<String>,
    /// Locks that this run has taken or tried.
    taken: Vec<String>,
    pool_locked: bool,
    /// First words of commands that fail.
    failing: BTreeSet<String>,
    hook: Option<HookReply>,
    hook_env: Vec<(String, String)>,
    commands: Vec<String>,
    notes: Vec<String>,
    removed: Vec<String>,
}

fn finished(success: bool, stdout: &str, stderr: &str) -> Reply {
    Reply::Git(GitReply::Finished(GitOutput {
        success,
        status: if success { "exit status: 0".into() } else { "exit status: 1".into() },
        stdout: stdout.into(),
        stderr: stderr.into(),
    }))
}

impl World {
    fn is_slot(&self, path: &str) -> bool {
        path.rsplit_once('/').map(|p| p.0) == Some(ROOT)
    }

    fn repo(&self, path: &str) -> String {
        if self.is_slot(path) { "source".into() } else { path.into() }
    }

    /// The branch that git shows of a `HEAD` with this text.
    fn shown(&self, head: &str) -> Option<String> {
        let name = head.trim_end().strip_prefix("ref: refs/heads/")?;
        Some(if self.tags.contains(name) { format!("heads/{name}") } else { name.into() })
    }

    fn git(&mut self, c: &GitCommand) -> Reply {
        let argv = c.argv();
        assert_eq!(argv[0], "-C");
        self.commands.push(argv[1..].join(" "));
        let words: Vec<&str> = c.args.iter().map(String::as_str).collect();
        if self.failing.contains(words[0]) {
            return finished(false, "", "refused");
        }
        let cwd = c.cwd.clone();
        match words.as_slice() {
            ["rev-parse", "--verify", _] => finished(true, &format!("{SHA}\n"), ""),
            ["rev-parse", "--git-dir"] => finished(true, ".git\n", ""),
            ["rev-parse", "HEAD"] => finished(self.heads.contains_key(&cwd), SHA, "no HEAD"),
            ["worktree", "add", "--detach", path, sha] => {
                self.heads.insert(path.to_string(), format!("{sha}\n"));
                finished(true, "", "")
            }
            ["worktree", "remove", "--force", path] => {
                self.heads.remove(*path);
                finished(true, "", "")
            }
            ["reset", "--hard", sha] => {
                assert!(self.heads.contains_key(&cwd));
                assert!(!self.files.contains(&format!("/gitdirs{cwd}/index.lock")));
                self.heads.insert(cwd, format!("{sha}\n"));
                finished(true, "", "")
            }
            ["update-ref", "--no-deref", "HEAD", sha] => {
                self.heads.insert(cwd, format!("{sha}\n"));
                finished(true, "", "")
            }
            ["update-ref", name, "HEAD"] => {
                assert!(self.pool_locked || !self.is_slot(&cwd));
                let branch = name.strip_prefix("refs/heads/").unwrap().to_string();
                let repo = self.repo(&cwd);
                self.branches.insert((repo, branch));
                finished(true, "", "")
            }
            ["symbolic-ref", "-m", "worktree-pool acquire", "HEAD", name] => {
                assert!(self.pool_locked || !self.is_slot(&cwd));
                self.heads.insert(cwd, format!("ref: {name}\n"));
                finished(true, "", "")
            }
            ["branch", "-D", name] => {
                let repo = self.repo(&cwd);
                finished(self.branches.remove(&(repo, name.to_string())), "", "no branch")
            }
            ["push", "origin", "--delete", _] => finished(false, "", "no remote"),
            ["config", "--file", file, "--list"] => match self.modules.get(*file) {
                Some(t) => finished(true, t, ""),
                None => finished(false, "", "no file"),
            },
            ["config", key, _] => finished(key.starts_with("submodule."), "", ""),
            ["submodule", "update", path] => {
                assert_eq!(c.overrides, vec![("protocol.file.allow".into(), "always".into())]);
                self.heads.insert(format!("{cwd}/{path}"), format!("{SHA}\n"));
                finished(true, "", "")
            }
            ["submodule", "deinit", "-f", _] => finished(false, "", "not initialized"),
            ["ls-files", ..] => {
                let out = self.untracked.get(&cwd).cloned().unwrap_or_default();
                finished(true, &out, "")
            }
            other => panic!("unexpected git {other:?}"),
        }
    }

    fn perform(&mut self, action: Action) -> Reply {
        match action {
            Action::Git(c) => self.git(&c),
            Action::TakeLock(p) => {
                if self.busy.contains(&p) {
                    return Reply::Taken(Err(Error::new(format!("pool mutex held >60s at {p}"))));
                }
                self.pool_locked = self.pool_locked || p.ends_with("pool.lock");
                self.taken.push(p);
                Reply::Taken(Ok(()))
            }
            Action::TryLock(p) => {
                let free = !self.busy.contains(&p);
                if free {
                    self.taken.push(p);
                }
                Reply::Tried(Ok(free))
            }
            Action::DropLock => {
                self.pool_locked = false;
                Reply::Done
            }
            Action::List(root) => {
                let prefix = format!("{root}/");
                let items = self
                    .heads
                    .iter()
                    .filter(|(p, _)| p.starts_with(&prefix) && !p[prefix.len()..].contains('/'))
                    .map(|(p, head)| Seen {
                        name: p[prefix.len()..].to_string(),
                        is_dir: true,
                        head: Some(head.clone()),
                        branch: self.shown(head),
                    })
                    .collect();
                Reply::Listing(DirReply::Items(items))
            }
            Action::Look(paths) => Reply::Looked(
                paths
                    .iter()
                    .map(|p| Look {
                        exists: self.heads.contains_key(p),
                        head: self.heads.get(p).cloned(),
                    })
                    .collect(),
            ),
            Action::Probe(p) => {
                let head = self.heads.get(&p).cloned();
                let branch = head.as_deref().and_then(|h| self.shown(h));
                Reply::Probed(head.is_some(), head, branch)
            }
            Action::Exists(p) => Reply::Exists(
                self.files.contains(&p) || self.modules.contains_key(&p),
            ),
            Action::Gitdir(p) => Reply::Gitdir(Some(format!("/gitdirs{p}"))),
            Action::RemoveFile(p) => Reply::Removal(if self.files.remove(&p) {
                Removal::Removed
            } else {
                Removal::Missing
            }),
            Action::RemoveDir(p) => {
                self.heads.remove(&p);
                self.removed.push(p);
                Reply::Done
            }
            Action::Hook(h) => {
                self.hook_env = h.env;
                Reply::Hook(self.hook.take().unwrap())
            }
            Action::Sweep(dir) => {
                let (mut m, mut turn) = sweep_stranded(&dir);
                loop {
                    match self.turn(turn) {
                        Err(r) => return Reply::Ended(r.map(drop)),
                        Ok(action) => {
                            let reply = self.perform(action);
                            (m, turn) = m.step(reply);
                        }
                    }
                }
            }
            other => panic!("unexpected action {other:?}"),
        }
    }

    /// Tells the notes; an end is an error.
    fn turn(&mut self, turn: Turn) -> Result<Action, Result<Option<String>, Error>> {
        self.notes.extend(turn.notes);
        match turn.action {
            Action::Finish(r) => Err(r),
            action => Ok(action),
        }
    }

    fn update(&mut self, task: Task, dir: &str, scope: &str) -> Result<(), Error> {
        let (mut m, mut turn) = update(task, dir, scope);
        loop {
            let reply = match self.turn(turn) {
                Err(r) => return r.map(drop),
                Ok(Action::UpdateEach(entries)) => {
                    let mut results = Vec::new();
                    for e in entries {
                        let (w, t) = m.worker(e);
                        results.push(self.work(w, t));
                    }
                    Reply::Worked(results)
                }
                Ok(action) => self.perform(action),
            };
            (m, turn) = m.step(reply);
        }
    }

    fn work(&mut self, mut m: Worker<'_>, mut turn: Turn) -> Result<(), Error> {
        loop {
            let reply = match self.turn(turn) {
                Err(r) => return r.map(drop),
                Ok(Action::Update(d, s)) => Reply::Ended(self.update(m.task, &d, &s)),
                Ok(action) => self.perform(action),
            };
            (m, turn) = m.step(reply);
        }
    }

    fn delete_branches(&mut self, dir: &str, branch: &str) {
        let (mut m, mut turn) = delete_branch_recursive(dir, branch);
        loop {
            let reply = match self.turn(turn) {
                Err(r) => {
                    assert!(r.is_ok());
                    return;
                }
                Ok(Action::DetachEach(entries)) => {
                    for e in entries {
                        let (mut f, mut t) = m.forget(&e);
                        while let Ok(action) = self.turn(t) {
                            let reply = self.perform(action);
                            (f, t) = f.step(reply);
                        }
                    }
                    Reply::Done
                }
                Ok(Action::DeleteBranches(d, b)) => {
                    self.delete_branches(&d, &b);
                    Reply::Done
                }
                Ok(action) => self.perform(action),
            };
            (m, turn) = m.step(reply);
        }
    }

    fn acquire_with(&mut self, cfg: &PoolConfig, args: &AcquireArgs) -> Result<String, Error> {
        self.taken.clear();
        let (mut m, mut turn) = acquire::run("app", ROOT, cfg, args);
        loop {
            let reply = match self.turn(turn) {
                Err(r) => {
                    self.pool_locked = false;
                    return r.map(|line| line.unwrap());
                }
                Ok(Action::Update(d, s)) => Reply::Ended(self.update(m.task(), &d, &s)),
                Ok(action) => self.perform(action),
            };
            (m, turn) = m.step(reply);
        }
    }

    fn acquire(&mut self, cfg: &PoolConfig, lease: &str, group: Option<&str>) -> Result<String, Error> {
        self.acquire_with(cfg, &args(lease, group))
    }

    fn release(&mut self, cfg: &PoolConfig, lease: &str) -> Result<(), Error> {
        let args = ReleaseArgs { lease: lease.into() };
        let (mut m, mut turn) = release::run(ROOT, cfg, &args);
        loop {
            let reply = match self.turn(turn) {
                Err(r) => {
                    self.pool_locked = false;
                    return r.map(|line| assert!(line.is_none()));
                }
                Ok(Action::DeleteBranches(d, b)) => {
                    self.delete_branches(&d, &b);
                    Reply::Done
                }
                Ok(action) => self.perform(action),
            };
            (m, turn) = m.step(reply);
        }
    }

    fn listing(&mut self) -> DirReply {
        match self.perform(Action::List(ROOT.into())) {
            Reply::Listing(l) => l,
            other => panic!("{other:?}"),
        }
    }
}

fn args(lease: &str, group: Option<&str>) -> AcquireArgs {
    AcquireArgs {
        lease: lease.into(),
        commit: None,
        group: group.map(String::from),
        exclude_submodule_tags: vec![],
    }
}

fn cfg(groups: &[&str], max_slots: u32) -> PoolConfig {
    PoolConfig {
        schema_version: 1,
        source: "/src/app".into(),
        default_commit: CommitIsh::from("main"),
        max_slots,
        groups: groups.iter().map(|g| GroupName::from(*g)).collect(),
        submodule_mirror_mode: None,
        submodule_mirror_base: None,
    }
}

fn mirrored(groups: &[&str]) -> PoolConfig {
    let mut c = cfg(groups, 4);
    c.submodule_mirror_mode = Some(SubmoduleMirrorMode::SourceSubmodules);
    c.submodule_mirror_base = Some("/src/app".into());
    c
}

fn report(r: Result<Outcome, Error>) -> serde_json::Value {
    match r.unwrap().output {
        Output::Json(j) => serde_json::from_str(&j.render()).unwrap(),
        other => panic!("{other:?}"),
    }
}

#[test]
fn lifecycle_full_lifecycle() {
    let cfg = cfg(&["ios", "android"], 4);
    let mut w = World::default();
    let path = w.acquire(&cfg, "feat-x", Some("ios")).unwrap();
    // Canonical-only: slot stays at `{group}-N`, never the lease.
    assert!(path.ends_with("/ios-0"), "expected canonical ios-0 path, got: {path}");

    let listing = w.listing();
    let ls = report(dashboard::ls(ROOT, &cfg, &LsArgs { git_status: false }, &listing, &vec![]));
    assert_eq!(ls[0]["lease"], "feat-x");
    assert_eq!(ls[0]["state"], "held");

    let at = InspectArgs { lease: "feat-x".into() };
    let e = dashboard::inspected(ROOT, &cfg, &at, &listing).unwrap();
    assert_eq!(e.group.as_deref(), Some("ios"));
    let mut answer = |c: GitCommand| match w.git(&c) {
        Reply::Git(r) => r,
        other => panic!("{other:?}"),
    };
    let sha = answer(worktree_pool::git::head_sha(&path));
    let none = GitReply::Finished(GitOutput {
        success: true,
        status: "exit status: 0".into(),
        stdout: String::new(),
        stderr: String::new(),
    });
    let shown = report(dashboard::inspect(&cfg, &at, &e, Ok("/g".into()), &sha, &none, &none));
    assert_eq!(shown["sha"], SHA, "inspect should show sha");
    assert_eq!(shown["group"], "ios");

    w.release(&cfg, "feat-x").unwrap();
    assert_eq!(w.heads[&path], format!("{SHA}\n"));
    assert!(w.branches.is_empty());
    assert_eq!(w.notes.last().unwrap(), "released 'feat-x'");

    // Idempotent re-release.
    let before = w.commands.len();
    w.release(&cfg, "feat-x").unwrap();
    assert_eq!(w.commands.len(), before);
    assert_eq!(w.notes.last().unwrap(), "release 'feat-x': no held slot (already released)");
}

#[test]
fn contended_init_mutex_exits_3() {
    let cfg = cfg(&[], 1);
    let mut w = World::default();
    w.busy.insert(format!("{ROOT}/.meta/init/slot-0.lock"));
    let e = w.acquire(&cfg, "blocked", None).unwrap_err();
    assert_eq!(e.code(), 3, "init-mutex contention must exit 3");
    assert!(e.message.contains("init mutexes held"), "got: {}", e.message);
}

#[test]
fn groupless_pool_full_lifecycle() {
    let cfg = cfg(&[], 4);
    let mut w = World::default();
    // Acquire (no --group) → slot-0.
    let path = w.acquire(&cfg, "feat-x", None).unwrap();
    assert!(path.ends_with("/slot-0"), "expected slot-0, got: {path}");
    // --group on a groupless pool is rejected.
    let e = w.acquire(&cfg, "feat-y", Some("ios")).unwrap_err();
    assert!(e.message.contains("no groups configured"), "got: {}", e.message);
    // Release by lease.
    w.release(&cfg, "feat-x").unwrap();
    // Recycle: re-acquire lands at the same slot-0.
    let path2 = w.acquire(&cfg, "feat-z", None).unwrap();
    assert_eq!(path, path2, "recycled slot must reuse the same canonical path");
}

#[test]
fn acquire_refuses_a_lease_already_held() {
    let cfg = cfg(&["ios", "android"], 4);
    let mut w = World::default();
    w.acquire(&cfg, "build-1", Some("ios")).unwrap();
    let e = w.acquire(&cfg, "build-1", Some("ios")).unwrap_err();
    assert_eq!(e.code(), 6, "duplicate lease must exit 6");
    assert_eq!(e.kind, Some(ExitKind::LeaseHeld));
    assert!(e.message.contains("already held"), "got: {}", e.message);
    // A distinct lease in a sibling group is unaffected.
    w.acquire(&cfg, "build-2", Some("android")).unwrap();
    // Released leases are reusable.
    w.release(&cfg, "build-1").unwrap();
    w.acquire(&cfg, "build-1", Some("ios")).unwrap();
}

#[test]
fn lifecycle_refuses_uninitialized_pool() {
    let p = Pool { key: "k".into(), path: "/pools/k".into() };
    let e = opened(&p, false, Err("no file".into())).unwrap_err();
    assert!(e.message.contains("not initialized"));
    assert_eq!(
        e.message,
        "pool 'k' not initialized at /pools/k; run: worktree-pool --pool k init --source <repo> --max-slots <n> ..."
    );
}

#[test]
fn re_acquire_reuses_recycled_slot() {
    let cfg = cfg(&["ios", "android"], 4);
    let mut w = World::default();
    let first = w.acquire(&cfg, "feat-1", Some("ios")).unwrap();
    w.release(&cfg, "feat-1").unwrap();
    w.commands.clear();
    let second = w.acquire(&cfg, "feat-2", Some("ios")).unwrap();
    assert_eq!(first, second);
    // Recycled in place: reset, not added again, and never cleaned.
    assert!(w.commands.iter().any(|c| c.ends_with(&format!("reset --hard {SHA}"))));
    assert!(!w.commands.iter().any(|c| c.contains("worktree add") || c.contains("clean")));
}

#[test]
fn lifecycle_parallel_acquires_get_different_slots() {
    let cfg = cfg(&["ios", "android"], 4);
    let mut w = World::default();
    let mut paths = BTreeSet::new();
    for i in 0..3 {
        paths.insert(w.acquire(&cfg, &format!("dev-{i}"), Some("ios")).unwrap());
    }
    assert_eq!(paths.len(), 3, "duplicate slot paths: {paths:?}");
}

#[test]
fn a_busy_init_mutex_falls_through_to_the_next_slot() {
    let cfg = cfg(&["ios"], 4);
    let mut w = World::default();
    w.busy.insert(format!("{ROOT}/.meta/init/ios-0.lock"));
    let path = w.acquire(&cfg, "dev", Some("ios")).unwrap();
    assert!(path.ends_with("/ios-1"));
}

#[test]
fn lifecycle_acquire_capacity_exhaustion() {
    let cfg = cfg(&["ios"], 2);
    let mut w = World::default();
    w.acquire(&cfg, "a", Some("ios")).unwrap();
    w.acquire(&cfg, "b", Some("ios")).unwrap();
    w.notes.clear();
    let e = w.acquire(&cfg, "c", Some("ios")).unwrap_err();
    assert_eq!(e.code(), 4, "capacity exhaustion must exit 4");
    assert_eq!(e.message, "all 2 ios slots are held: capacity");
    assert_eq!(
        w.notes,
        vec![
            "\nHeld slots in pool /pools/app:".to_string(),
            "  ios-0 (lease: a)".into(),
            "  ios-1 (lease: b)".into(),
            "Release one with: worktree-pool --pool app release --lease <lease>".into(),
        ]
    );
}

#[test]
fn lifecycle_parallel_releases_different_names() {
    let cfg = cfg(&["ios", "android"], 4);
    let mut w = World::default();
    w.acquire(&cfg, "a", Some("ios")).unwrap();
    w.acquire(&cfg, "b", Some("ios")).unwrap();
    for name in ["a", "b"] {
        w.release(&cfg, name).unwrap();
    }
    // Both back in the pool as ios-0 and ios-1, and no slot held.
    let listing = w.listing();
    let ls = report(dashboard::ls(ROOT, &cfg, &LsArgs { git_status: false }, &listing, &vec![]));
    assert_eq!((&ls[0]["id"], &ls[0]["state"]), (&"ios-0".into(), &"idle".into()));
    assert_eq!((&ls[1]["id"], &ls[1]["state"]), (&"ios-1".into(), &"idle".into()));
    assert!(!ls.as_array().unwrap().iter().any(|row| row["state"] == "held"));
}

#[test]
fn distinct_leases_at_one_sha_both_acquire() {
    let cfg = cfg(&["ios"], 4);
    let mut w = World::default();
    let mut first = args("b-0", Some("ios"));
    first.commit = Some("main".into());
    let mut second = args("b-1", Some("ios"));
    second.commit = Some("main".into());
    let one = w.acquire_with(&cfg, &first).unwrap();
    let two = w.acquire_with(&cfg, &second).unwrap();
    assert_ne!(one, two, "distinct leases must land on distinct slots");
}

#[test]
fn missing_file_is_noop() {
    // Without a hooks file the acquire ends without a hook.
    let cfg = cfg(&[], 1);
    let mut w = World::default();
    w.acquire(&cfg, "n", None).unwrap();
    assert!(w.hook_env.is_empty());
}

#[test]
fn post_acquire_hook_fires_in_slot() {
    let cfg = cfg(&["ios"], 4);
    let mut w = World::default();
    w.files.insert(format!("{ROOT}/ios-0/.wt-hooks.sh"));
    w.hook = Some(HookReply::Ended(true, "exit status: 0".into()));
    let path = w.acquire(&cfg, "feat-hook", Some("ios")).unwrap();
    let get = |k: &str| w.hook_env.iter().find(|p| p.0 == k).unwrap().1.clone();
    assert_eq!(format!("{}|{}", get("WT_KEY"), get("WT_LEASE")), "app|feat-hook");
    assert_eq!(get("WT_PATH"), path);
    assert_eq!(get("WT_FRESH"), "1");
}

#[test]
fn post_acquire_hook_stdout_does_not_pollute_path() {
    let cfg = cfg(&["ios", "android"], 4);
    let mut w = World::default();
    w.files.insert(format!("{ROOT}/ios-0/.wt-hooks.sh"));
    w.hook = Some(HookReply::Ended(true, "exit status: 0".into()));
    let path = w.acquire(&cfg, "feat-chatty", Some("ios")).unwrap();
    let ending = settle(Ok(Outcome::line(path)));
    assert_eq!(ending.stdout.as_deref(), Some("/pools/app/ios-0"));
    assert_eq!(ending.code, 0);
}

#[test]
fn post_acquire_hook_failure_fails_acquire() {
    let cfg = cfg(&["ios"], 4);
    let mut w = World::default();
    w.files.insert(format!("{ROOT}/ios-0/.wt-hooks.sh"));
    w.hook = Some(HookReply::Ended(false, "exit status: 1".into()));
    let e = w.acquire(&cfg, "feat-reject", Some("ios")).unwrap_err();
    assert_eq!(
        e.message,
        "post-acquire hook failed for slot 'ios-0' (branch 'feat-reject'); slot is left HELD. \
         Recover: `worktree-pool --pool <key> release --lease feat-reject`.: hook wt_post_acquire failed \
         (exit status: 1); see /pools/app/ios-0/.wt-hooks.sh"
    );
    // The slot stays held, and release finds it.
    assert_eq!(w.heads[&format!("{ROOT}/ios-0")], "ref: refs/heads/feat-reject\n");
    w.release(&cfg, "feat-reject").unwrap();
    assert_eq!(w.heads[&format!("{ROOT}/ios-0")], format!("{SHA}\n"));
}

#[test]
fn release_succeeds_despite_stale_index_lock() {
    let cfg = cfg(&["ios"], 4);
    let mut w = World::default();
    let slot = w.acquire(&cfg, "leaky", Some("ios")).unwrap();
    w.files.insert(format!("/gitdirs{slot}/index.lock"));
    w.notes.clear();
    w.release(&cfg, "leaky").unwrap();
    assert!(!w.notes.iter().any(|n| n.contains("may persist as a dangling ref")));
    assert_eq!(w.heads[&slot], format!("{SHA}\n"));
    assert!(w.branches.is_empty(), "'leaky' branch should be deleted");
}

#[test]
fn release_converges_and_slot_recycles() {
    let cfg = cfg(&["ios"], 4);
    let mut w = World::default();
    let slot = w.acquire(&cfg, "feat-half", Some("ios")).unwrap();
    assert_eq!(w.heads[&slot], "ref: refs/heads/feat-half\n");
    w.release(&cfg, "feat-half").unwrap();
    assert_eq!(w.heads[&slot], format!("{SHA}\n"));
    assert!(w.branches.is_empty(), "'feat-half' branch should be deleted");
    assert_eq!(w.acquire(&cfg, "feat-after", Some("ios")).unwrap(), slot);
}

#[test]
fn release_by_slot_id_frees_the_lease_in_it() {
    let cfg = cfg(&["ios"], 4);
    let mut w = World::default();
    let slot = w.acquire(&cfg, "feat", Some("ios")).unwrap();
    w.release(&cfg, "ios-0").unwrap();
    assert_eq!(w.heads[&slot], format!("{SHA}\n"));
    assert!(w.branches.is_empty());
    assert_eq!(w.notes.last().unwrap(), "released 'feat'");
}

#[test]
fn release_warns_where_head_is_not_detached() {
    let cfg = cfg(&["ios"], 4);
    let mut w = World::default();
    let slot = w.acquire(&cfg, "feat", Some("ios")).unwrap();
    w.failing.insert("rev-parse".into());
    w.notes.clear();
    w.release(&cfg, "feat").unwrap();
    assert_eq!(
        w.notes[0],
        format!(
            "warn: detach HEAD failed in {slot}; branch 'feat' may persist as a dangling ref. refused"
        )
    );
}

#[test]
fn acquire_does_not_disturb_live_held_slot() {
    let cfg = cfg(&["ios"], 4);
    let mut w = World::default();
    let live = w.acquire(&cfg, "live-1", Some("ios")).unwrap();
    w.commands.clear();
    w.acquire(&cfg, "live-2", Some("ios")).unwrap();
    assert_eq!(w.heads[&live], "ref: refs/heads/live-1\n");
    assert!(!w.commands.iter().any(|c| c.starts_with(&format!("{live} "))));
}

#[test]
fn recycled_acquire_clears_leftover_index_lock() {
    let cfg = cfg(&["ios"], 4);
    let mut w = World::default();
    let slot = w.acquire(&cfg, "feat-first", Some("ios")).unwrap();
    w.release(&cfg, "feat-first").unwrap();
    let lock = format!("/gitdirs{slot}/index.lock");
    w.files.insert(lock.clone());
    let recycled = w.acquire(&cfg, "feat-recycle", Some("ios")).unwrap();
    assert_eq!(recycled, slot, "should recycle the same canonical slot");
    assert!(!w.files.contains(&lock), "acquire must remove the leftover index.lock");
    assert!(w.notes.contains(&"cleared leftover index.lock in 'ios-0' before recycle".to_string()));
}

#[test]
fn a_held_slot_that_no_listing_shows_is_skipped() {
    // A group with a slash: its slots lie below the pool's directory.
    let cfg = cfg(&["a/b"], 2);
    let mut w = World::default();
    w.heads.insert(format!("{ROOT}/a/b-0"), "ref: refs/heads/other\n".into());
    let path = w.acquire(&cfg, "feat", Some("a/b")).unwrap();
    assert_eq!(path, format!("{ROOT}/a/b-1"));
    assert_eq!(w.heads[&format!("{ROOT}/a/b-0")], "ref: refs/heads/other\n");
    assert!(w.removed.is_empty());
}

#[test]
fn a_failed_add_is_undone() {
    let cfg = cfg(&["ios"], 4);
    let mut w = World::default();
    w.failing.insert("worktree".into());
    let e = w.acquire(&cfg, "feat", Some("ios")).unwrap_err();
    assert_eq!(
        e.message,
        format!(
            "git -C /src/app worktree add --detach {ROOT}/ios-0 {SHA} failed (exit exit status: 1): refused"
        )
    );
    assert_eq!(w.removed, vec![format!("{ROOT}/ios-0")]);
    assert!(w.branches.is_empty());
}

#[test]
fn failures_before_the_listing_are_told() {
    let cfg = cfg(&["ios"], 4);
    let mut w = World::default();
    w.busy.insert(format!("{ROOT}/.meta/pool.lock"));
    let e = w.acquire(&cfg, "feat", Some("ios")).unwrap_err();
    assert_eq!(
        e.message,
        "acquiring pool-wide mutex for slot allocation: pool mutex held >60s at /pools/app/.meta/pool.lock"
    );
    let e = w.release(&cfg, "feat").unwrap_err();
    assert!(e.message.starts_with("acquiring pool mutex for release: "));
    let mut w = World::default();
    w.failing.insert("rev-parse".into());
    let e = w.acquire(&cfg, "feat", Some("ios")).unwrap_err();
    assert_eq!(
        e.message,
        "resolving 'main' in /src/app: git -C /src/app rev-parse --verify main^{commit} failed \
         (exit exit status: 1): refused"
    );
}

#[test]
fn replies_that_do_not_fit_end_the_run() {
    let cfg = cfg(&["ios"], 4);
    let a = args("feat", Some("ios"));
    let (m, _) = acquire::run("app", ROOT, &cfg, &a);
    let (m, turn) = m.step(Reply::Done);
    match turn.action {
        Action::Finish(Err(e)) => {
            assert_eq!(e.message, "internal error: a reply does not answer the action");
        }
        other => panic!("{other:?}"),
    }
    assert!(matches!(m.phase, acquire::Phase::Over));
}

// ---------------------------------------------------------------------------
// Submodules
// ---------------------------------------------------------------------------

const ONE_MODULE: &str = "submodule.sub.path=sub\nsubmodule.sub.url=git@host:org/sub.git\n";

#[test]
fn acquire_branches_submodule_release_cleans_up() {
    let cfg = mirrored(&["ios"]);
    let mut w = World::default();
    w.modules.insert(format!("{ROOT}/ios-0/.gitmodules"), ONE_MODULE.into());
    let slot = w.acquire(&cfg, "feat-branch", Some("ios")).unwrap();
    let sub = format!("{slot}/sub");
    assert_eq!(w.heads[&sub], "ref: refs/heads/feat-branch\n");
    assert!(w.branches.contains(&(sub.clone(), "feat-branch".into())));
    assert!(w
        .commands
        .contains(&format!("{slot} config submodule.sub.url /src/app/.git/modules/sub")));
    assert!(w.taken.contains(&"/src/app/.git/worktree-pool-config.lock".to_string()));
    w.release(&cfg, "feat-branch").unwrap();
    assert_eq!(w.heads[&sub], format!("{SHA}\n"));
    assert!(w.branches.is_empty());
}

#[test]
fn acquire_recurses_into_nested_submodules() {
    let cfg = mirrored(&["ios"]);
    let mut w = World::default();
    w.modules.insert(
        format!("{ROOT}/ios-0/.gitmodules"),
        "submodule.outer.path=outer\nsubmodule.outer.url=u\n".into(),
    );
    w.modules.insert(
        format!("{ROOT}/ios-0/outer/.gitmodules"),
        "submodule.inner.path=inner\nsubmodule.inner.url=u\n".into(),
    );
    let slot = w.acquire(&cfg, "feat-nest", Some("ios")).unwrap();
    assert_eq!(w.heads[&format!("{slot}/outer/inner")], "ref: refs/heads/feat-nest\n");
    assert!(w.commands.contains(&format!(
        "{slot}/outer config submodule.inner.url /src/app/.git/modules/outer/modules/inner"
    )));
    w.release(&cfg, "feat-nest").unwrap();
    assert_eq!(w.heads[&format!("{slot}/outer/inner")], format!("{SHA}\n"));
    assert!(w.branches.is_empty());
}

#[test]
fn exclude_submodule_tags_skips_tagged_submodule() {
    let cfg = mirrored(&["ios"]);
    let mut w = World::default();
    w.modules.insert(
        format!("{ROOT}/ios-0/.gitmodules"),
        "submodule.runtime_sub.path=runtime_sub\nsubmodule.runtime_sub.url=u\n\
         submodule.editor_sub.path=editor_sub\nsubmodule.editor_sub.url=u\n\
         submodule.editor_sub.worktreepooltag=editor\n"
            .into(),
    );
    let mut a = args("ci-1", Some("ios"));
    a.exclude_submodule_tags = vec!["editor".into()];
    let slot = w.acquire_with(&cfg, &a).unwrap();
    assert!(w.heads.contains_key(&format!("{slot}/runtime_sub")));
    assert!(!w.heads.contains_key(&format!("{slot}/editor_sub")));
    assert_eq!(w.removed, vec![format!("{slot}/editor_sub")]);
    assert!(w
        .notes
        .contains(&"warn: submodule deinit -f editor_sub failed: not initialized".to_string()));
}

#[test]
fn parallel_submodule_init_acquires_all() {
    let cfg = mirrored(&["ios"]);
    let mut w = World::default();
    let mut listing = String::new();
    for i in 0..6 {
        listing.push_str(&format!("submodule.sub{i}.path=sub{i}\nsubmodule.sub{i}.url=u{i}\n"));
    }
    w.modules.insert(format!("{ROOT}/ios-0/.gitmodules"), listing);
    let slot = w.acquire(&cfg, "many", Some("ios")).unwrap();
    for i in 0..6 {
        assert_eq!(w.heads[&format!("{slot}/sub{i}")], "ref: refs/heads/many\n");
        assert!(w.commands.contains(&format!(
            "{slot} config submodule.sub{i}.url /src/app/.git/modules/sub{i}"
        )));
    }
}

#[test]
fn submodules_release_replay_completes_with_submodules() {
    let cfg = mirrored(&["ios"]);
    let mut w = World::default();
    w.modules.insert(format!("{ROOT}/ios-0/.gitmodules"), ONE_MODULE.into());
    let slot = w.acquire(&cfg, "feat-sub", Some("ios")).unwrap();
    let sub = format!("{slot}/sub");
    assert!(w.heads.contains_key(&sub), "submodule should be initialized");
    assert!(w.branches.contains(&(sub.clone(), "feat-sub".into())));
    assert_eq!(w.heads[&slot], "ref: refs/heads/feat-sub\n");
    w.release(&cfg, "feat-sub").unwrap();
    // Detached, and the branch is gone in the slot and in the submodule.
    assert_eq!(w.heads[&slot], format!("{SHA}\n"));
    assert!(w.branches.is_empty());
    // Releasing again changes nothing.
    w.release(&cfg, "feat-sub").unwrap();
    assert_eq!(w.heads[&sub], format!("{SHA}\n"));
}

#[test]
fn a_failed_submodule_update_leaves_the_slot_held() {
    let cfg = mirrored(&["ios"]);
    let mut w = World::default();
    w.modules.insert(format!("{ROOT}/ios-0/.gitmodules"), ONE_MODULE.into());
    w.failing.insert("submodule".into());
    let e = w.acquire(&cfg, "feat", Some("ios")).unwrap_err();
    assert_eq!(
        e.message,
        "submodule update failed for slot 'ios-0' (lease 'feat'); slot is left HELD with partial \
         state. Recover: `worktree-pool --pool <key> release --lease feat`.: submodule update sub \
         in /pools/app/ios-0: git -C /pools/app/ios-0 submodule update sub failed (exit exit \
         status: 1): refused"
    );
    assert_eq!(w.heads[&format!("{ROOT}/ios-0")], "ref: refs/heads/feat\n");
}

#[test]
fn acquire_backstop_refuses_no_mirror_submodule_pool_and_keeps_slot_idle() {
    // A config without a mirror, as from before `init` asked for one.
    let cfg = PoolConfig::parse(
        "schema_version: 1\nsource: /src/app\ndefault_commit: main\nmax_slots: 4\ngroups: ios,android\n",
    )
    .unwrap();
    let mut w = World::default();
    w.modules.insert(format!("{ROOT}/ios-0/.gitmodules"), ONE_MODULE.into());
    let e = w.acquire(&cfg, "feat", Some("ios")).unwrap_err();
    assert!(e.message.contains("submodule mirror"), "got: {}", e.message);
    assert!(e.message.contains("/pools/app/.meta/config.yaml"));
    // Materialized, then refused before the branch: detached (idle).
    assert_eq!(w.heads[&format!("{ROOT}/ios-0")], format!("{SHA}\n"));
    assert!(w.branches.is_empty());
}

#[test]
fn a_gitmodules_without_entries_passes_the_gate() {
    let cfg = cfg(&["ios"], 4);
    let mut w = World::default();
    w.modules.insert(format!("{ROOT}/ios-0/.gitmodules"), "core.bare=false\n".into());
    w.acquire(&cfg, "feat", Some("ios")).unwrap();
}

#[test]
fn recycled_acquire_sweeps_stranded_submodule_dir() {
    let cfg = mirrored(&["ios"]);
    let mut w = World::default();
    let slot = w.acquire(&cfg, "first", Some("ios")).unwrap();
    w.release(&cfg, "first").unwrap();
    w.untracked.insert(slot.clone(), "warm.txt\0warm-dir/f\0sub/\0".into());
    w.files.insert(format!("{slot}/sub/.git"));
    let again = w.acquire(&cfg, "second", Some("ios")).unwrap();
    assert_eq!(again, slot, "should recycle the same canonical slot");
    assert_eq!(w.removed, vec![format!("{slot}/sub")]);
    assert!(w.notes.contains(&format!("swept stranded git working dir {slot}/sub")));
}

#[test]
fn recycled_acquire_sweeps_stranded_nested_submodule_dir() {
    let cfg = mirrored(&["ios"]);
    let mut w = World::default();
    w.modules.insert(
        format!("{ROOT}/ios-0/.gitmodules"),
        "submodule.outer.path=outer\nsubmodule.outer.url=u\n".into(),
    );
    let slot = w.acquire(&cfg, "first", Some("ios")).unwrap();
    w.release(&cfg, "first").unwrap();
    w.untracked.insert(format!("{slot}/outer"), "inner/\0".into());
    w.files.insert(format!("{slot}/outer/inner/.git"));
    w.acquire(&cfg, "second", Some("ios")).unwrap();
    assert_eq!(w.removed, vec![format!("{slot}/outer/inner")]);
    assert!(w.heads.contains_key(&format!("{slot}/outer")), "outer itself must stay");
}

#[test]
fn sweep_keeps_white_space_in_names() {
    let cfg = mirrored(&["ios"]);
    let mut w = World::default();
    let slot = w.acquire(&cfg, "first", Some("ios")).unwrap();
    w.release(&cfg, "first").unwrap();
    w.untracked.insert(slot.clone(), " sub/\0".into());
    w.files.insert(format!("{slot}/ sub/.git"));
    w.files.insert(format!("{slot}/sub/.git"));
    w.acquire(&cfg, "second", Some("ios")).unwrap();
    assert_eq!(w.removed, vec![format!("{slot}/ sub")]);
}

#[test]
fn a_listed_directory_without_git_is_warmth() {
    let cfg = mirrored(&["ios"]);
    let mut w = World::default();
    let slot = w.acquire(&cfg, "first", Some("ios")).unwrap();
    w.release(&cfg, "first").unwrap();
    w.untracked.insert(slot, "warm-dir/\0".into());
    w.acquire(&cfg, "second", Some("ios")).unwrap();
    assert!(w.removed.is_empty());
}

// ---------------------------------------------------------------------------
// init and path
// ---------------------------------------------------------------------------

fn init_args(mode: Option<SubmoduleMirrorMode>) -> InitArgs {
    InitArgs {
        source: "/src/app".into(),
        default_commit: "main".into(),
        max_slots: 4,
        groups: vec!["ios".into(), "android".into()],
        submodule_mirror_mode: mode,
        submodule_mirror_base: mode.map(|_| "/src/app".into()),
    }
}

fn pool() -> Pool {
    Pool { key: "app".into(), path: ROOT.into() }
}

fn git_says(success: bool, stdout: &str) -> GitReply {
    GitReply::Finished(GitOutput {
        success,
        status: "exit status".into(),
        stdout: stdout.into(),
        stderr: String::new(),
    })
}

#[test]
fn init_refuses_submodule_source_without_mirror() {
    let e = cmd_init(&pool(), &init_args(None), false, true, &git_says(true, ONE_MODULE))
        .unwrap_err();
    assert!(
        e.message.contains("submodule mirror"),
        "stderr should name the mirror requirement, got: {}",
        e.message
    );
}

#[test]
fn init_accepts_submodule_source_with_git_modules_mirror() {
    let made = cmd_init(
        &pool(),
        &init_args(Some(SubmoduleMirrorMode::SourceSubmodules)),
        false,
        true,
        &git_says(true, ONE_MODULE),
    )
    .unwrap();
    assert_eq!(made.write.path, "/pools/app/.meta/config.yaml");
    assert_eq!(
        made.note,
        "initialized pool 'app' at /pools/app (source=/src/app, max_slots=4, groups=ios,android, \
         default_commit=main, submodule_mirror=source-submodules@/src/app)"
    );
    let cfg = opened(&pool(), true, Ok(made.write.content)).unwrap();
    assert_eq!(cfg.max_slots, 4);
}

#[test]
fn init_allows_submoduleless_source_without_mirror() {
    cmd_init(&pool(), &init_args(None), false, true, &git_says(true, "core.bare=false\n")).unwrap();
    // No such file at the commit.
    let made = cmd_init(&pool(), &init_args(None), false, true, &git_says(false, "")).unwrap();
    assert!(made.note.ends_with("default_commit=main)"));
}

#[test]
fn init_refusals_are_told() {
    let ok = git_says(false, "");
    let e = cmd_init(&pool(), &init_args(None), true, true, &ok).unwrap_err();
    assert_eq!(e.message, "pool 'app' already initialized at /pools/app");
    let e = cmd_init(&pool(), &init_args(None), false, false, &ok).unwrap_err();
    assert_eq!(e.message, "--source path does not exist: /src/app");
    let e = cmd_init(&pool(), &init_args(None), false, true, &GitReply::NotStarted("no git".into()))
        .unwrap_err();
    assert_eq!(
        e.message,
        "spawning git -C /src/app config --blob main:.gitmodules --list: no git"
    );
    let mut none = init_args(None);
    none.groups = vec![];
    assert!(cmd_init(&pool(), &none, false, true, &ok).unwrap().note.contains("groups=none"));
}

#[test]
fn path_prints_a_line_or_exits_silently() {
    let cfg = cfg(&["ios"], 4);
    let mut w = World::default();
    w.acquire(&cfg, "feat", Some("ios")).unwrap();
    let l = w.listing();
    let at = |lease: &str| {
        let e = settle(dashboard::path(ROOT, &cfg, &PathArgs { lease: lease.into() }, &l));
        (e.stdout, e.stderr, e.code)
    };
    assert_eq!(at("feat"), (Some("/pools/app/ios-0".into()), None, 0));
    assert_eq!(at("ios-0"), (Some("/pools/app/ios-0".into()), None, 0));
    assert_eq!(at("nobody"), (None, None, 1));
}

// ---------------------------------------------------------------------------
// Whole runs
// ---------------------------------------------------------------------------

/// A slot with a submodule `outer`, which holds `mid`, which holds `inner`.
fn nested_world() -> World {
    let mut w = World::default();
    for (dir, name) in [("", "outer"), ("/outer", "mid"), ("/outer/mid", "inner")] {
        w.modules.insert(
            format!("{ROOT}/ios-0{dir}/.gitmodules"),
            format!("submodule.{name}.path={name}\nsubmodule.{name}.url=u\n"),
        );
    }
    w
}

#[test]
fn every_submodule_is_branched_in_order_and_forgotten_again() {
    let cfg = mirrored(&["ios"]);
    let mut w = nested_world();
    let slot = w.acquire(&cfg, "deep", Some("ios")).unwrap();
    for (dir, name) in [("", "outer"), ("/outer", "mid"), ("/outer/mid", "inner")] {
        let sub = format!("{slot}{dir}/{name}");
        let at = |c: String| w.commands.iter().position(|x| *x == c).unwrap();
        let fetched = at(format!(
            "{slot}{dir} -c protocol.file.allow=always submodule update {name}"
        ));
        let created = at(format!("{sub} update-ref refs/heads/deep HEAD"));
        let attached = at(format!(
            "{sub} symbolic-ref -m worktree-pool acquire HEAD refs/heads/deep"
        ));
        assert!(fetched < created && created < attached);
        assert_eq!(w.heads[&sub], "ref: refs/heads/deep\n");
    }
    w.delete_branches(&slot, "deep");
    for sub in ["outer", "outer/mid", "outer/mid/inner"] {
        let path = format!("{slot}/{sub}");
        assert_eq!(w.heads[&path], format!("{SHA}\n"));
        assert!(!w.branches.contains(&(path, "deep".into())));
    }
    // The slot's own branch is none of a submodule's.
    assert_eq!(w.heads[&slot], "ref: refs/heads/deep\n");
    assert!(w.branches.contains(&("source".into(), "deep".into())));
}

#[test]
fn deleting_a_branch_again_changes_nothing() {
    let cfg = mirrored(&["ios"]);
    let mut w = nested_world();
    let slot = w.acquire(&cfg, "deep", Some("ios")).unwrap();
    w.branches.insert((format!("{slot}/outer"), "other".into()));
    w.delete_branches(&slot, "deep");
    let (heads, branches) = (w.heads.clone(), w.branches.clone());
    assert!(branches.contains(&(format!("{slot}/outer"), "other".into())));
    w.delete_branches(&slot, "deep");
    assert_eq!(w.heads, heads);
    assert_eq!(w.branches, branches);
}

#[test]
fn a_checkout_that_declares_nothing_is_left_as_it_is() {
    let slot = format!("{ROOT}/ios-0");
    let mut w = World::default();
    w.heads.insert(slot.clone(), format!("{SHA}\n"));
    w.delete_branches(&slot, "x");
    assert!(w.commands.is_empty());
    // One that git cannot read, and one that declares nothing.
    w.files.insert(format!("{slot}/.gitmodules"));
    w.delete_branches(&slot, "x");
    w.modules.insert(format!("{slot}/.gitmodules"), "core.bare=false\n".into());
    w.delete_branches(&slot, "x");
    let list = format!("{slot} config --file {slot}/.gitmodules --list");
    assert_eq!(w.commands, vec![list.clone(), list]);
}

#[test]
fn failures_in_submodules_do_not_surface() {
    let cfg = mirrored(&["ios"]);
    let mut w = nested_world();
    let slot = w.acquire(&cfg, "deep", Some("ios")).unwrap();
    for word in ["rev-parse", "update-ref", "branch"] {
        w.failing.insert(word.into());
    }
    w.delete_branches(&slot, "deep");
    assert!(w.branches.contains(&(format!("{slot}/outer/mid/inner"), "deep".into())));
    assert!(w.commands.contains(&format!("{slot}/outer/mid/inner branch -D deep")));
}

#[test]
fn releasing_what_was_never_acquired_runs_no_git() {
    let cfg = cfg(&["ios"], 4);
    let mut w = World::default();
    let slot = w.acquire(&cfg, "kept", Some("ios")).unwrap();
    let before = w.commands.len();
    w.release(&cfg, "stranger").unwrap();
    assert_eq!(w.commands.len(), before);
    assert_eq!(w.notes.last().unwrap(), "release 'stranger': no held slot (already released)");
    assert_eq!(w.heads[&slot], "ref: refs/heads/kept\n");
}

#[test]
fn a_detached_head_is_enough_for_a_quiet_second_release() {
    let cfg = mirrored(&["ios"]);
    let mut w = nested_world();
    let slot = w.acquire(&cfg, "deep", Some("ios")).unwrap();
    w.failing.insert("branch".into());
    w.release(&cfg, "deep").unwrap();
    assert_eq!(w.heads[&slot], format!("{SHA}\n"));
    assert!(w.branches.contains(&("source".into(), "deep".into())));
    let before = w.commands.len();
    w.release(&cfg, "deep").unwrap();
    assert_eq!(w.commands.len(), before);
    // By the slot's id it is as quiet.
    w.release(&cfg, "ios-0").unwrap();
    assert_eq!(w.commands.len(), before);
}

#[test]
fn a_lease_named_like_a_held_slot_means_that_slot_next() {
    let cfg = cfg(&["ios"], 4);
    let mut w = World::default();
    let first = w.acquire(&cfg, "plain", Some("ios")).unwrap();
    let second = w.acquire(&cfg, "ios-0", Some("ios")).unwrap();
    w.release(&cfg, "ios-0").unwrap();
    assert_eq!(w.heads[&second], format!("{SHA}\n"));
    assert_eq!(w.heads[&first], "ref: refs/heads/plain\n");
    w.release(&cfg, "ios-0").unwrap();
    assert_eq!(w.heads[&first], format!("{SHA}\n"));
}

#[test]
fn each_submodule_needs_its_result() {
    let cfg = mirrored(&["ios"]);
    let tags: Vec<String> = vec![];
    let task = Task { cfg: &cfg, exclude_tags: &tags, branch: "x" };
    for (n, ends_well) in [(0, false), (1, true), (2, false)] {
        let mut w = World::default();
        w.modules.insert("/c/.gitmodules".into(), ONE_MODULE.into());
        let (mut m, mut turn) = update(task, "/c", "/modules");
        let end = loop {
            let reply = match w.turn(turn) {
                Err(r) => break r,
                Ok(Action::UpdateEach(entries)) => {
                    assert_eq!(entries.len(), 1);
                    Reply::Worked((0..n).map(|_| Ok(())).collect())
                }
                Ok(action) => w.perform(action),
            };
            (m, turn) = m.step(reply);
        };
        assert_eq!(end.is_ok(), ends_well);
        if let Err(e) = end {
            assert_eq!(e.message, "internal error: a reply does not answer the action");
        }
    }
}

#[test]
fn a_tag_of_a_leases_name_changes_how_it_is_shown() {
    let cfg = cfg(&["ios"], 4);
    let mut w = World::default();
    w.tags.insert("v1".into());
    let slot = w.acquire(&cfg, "v1", Some("ios")).unwrap();
    let listing = w.listing();
    let ls = report(dashboard::ls(ROOT, &cfg, &LsArgs { git_status: false }, &listing, &vec![]));
    assert_eq!(ls[0]["lease"], "heads/v1");
    // Nothing is found under the plain name.
    w.release(&cfg, "v1").unwrap();
    assert_eq!(w.heads[&slot], "ref: refs/heads/v1\n");
    w.release(&cfg, "heads/v1").unwrap();
    assert_eq!(w.heads[&slot], format!("{SHA}\n"));
}
