//! The commands of `git`, and the reports of `ls`, `inspect`, `unstick`,
//! `validate-gitmodules` and `doctor`.
use worktree_pool::admin::{unstick, validate_gitmodules, InitReply, MutexFile};
use worktree_pool::cli::{Cli, Command, InspectArgs, LsArgs, UnstickArgs};
use worktree_pool::commands::{opened, route, Pool, Route};
use worktree_pool::config::PoolConfig;
use worktree_pool::dashboard::{held_paths, inspect, inspected, ls, Answers};
use worktree_pool::doctor::{run, HostFacts, PoolFacts, RootFacts};
use worktree_pool::error::Error;
use worktree_pool::fs_paths;
use worktree_pool::git;
use worktree_pool::git::{GitOutput, GitReply};
use worktree_pool::mutex::LockTry;
use worktree_pool::output::{settle, Outcome, Output};
use worktree_pool::slot::{DirReply, Seen};
use worktree_pool::types::{CommitIsh, GroupName};

const IDLE: &str = "0000000000000000000000000000000000000000\n";

fn cfg() -> PoolConfig {
    PoolConfig {
        schema_version: 1,
        source: "/src/app".into(),
        default_commit: CommitIsh::from("main"),
        max_slots: 2,
        groups: vec![GroupName::from("ios"), GroupName::from("tv")],
        submodule_mirror_mode: None,
        submodule_mirror_base: None,
    }
}

fn said(success: bool, stdout: &str, stderr: &str) -> GitReply {
    GitReply::Finished(GitOutput {
        success,
        status: "exit status: 1".into(),
        stdout: stdout.into(),
        stderr: stderr.into(),
    })
}

/// What git shows of a `HEAD` with this text.
fn shown(head: &str) -> Option<String> {
    head.trim_end().strip_prefix("ref: refs/heads/").map(String::from)
}

fn dir(name: &str, head: &str) -> Seen {
    Seen { name: name.into(), is_dir: true, head: Some(head.into()), branch: shown(head) }
}

fn text(o: &Outcome) -> String {
    match &o.output {
        Output::Json(j) => j.render(),
        other => panic!("{other:?}"),
    }
}

// ---------------------------------------------------------------------------
// git
// ---------------------------------------------------------------------------

fn argv(c: git::GitCommand) -> String {
    c.argv().join(" ")
}

#[test]
fn commands_have_their_words() {
    assert_eq!(argv(git::run("/d", &["a", "b"])), "-C /d a b");
    assert_eq!(
        argv(git::run_with_config("/d", &[("k", "v"), ("x", "y")], &["a"])),
        "-C /d -c k=v -c x=y a"
    );
    assert_eq!(argv(git::config_file_list("/d", "/f")), "-C /d config --file /f --list");
    assert_eq!(
        argv(git::gitmodules_at("/s", "main")),
        "-C /s config --blob main:.gitmodules --list"
    );
    assert_eq!(
        argv(git::resolve_full_sha("/s", "v1")),
        "-C /s rev-parse --verify v1^{commit}"
    );
    assert_eq!(
        argv(git::worktree_add("/s", "/p/ios-0", "abc")),
        "-C /s worktree add --detach /p/ios-0 abc"
    );
    assert_eq!(argv(git::worktree_move("/s", "/a", "/b")), "-C /s worktree move /a /b");
    assert_eq!(argv(git::worktree_remove("/s", "/a")), "-C /s worktree remove --force /a");
    assert_eq!(argv(git::reset_hard("/p", "abc")), "-C /p reset --hard abc");
    let (first, second) = git::checkout_force_branch("/p", "feat");
    assert_eq!(argv(first), "-C /p update-ref refs/heads/feat HEAD");
    assert_eq!(
        argv(second),
        "-C /p symbolic-ref -m worktree-pool acquire HEAD refs/heads/feat"
    );
    assert_eq!(argv(git::checkout_detach("/p")), "-C /p checkout --detach");
    assert_eq!(argv(git::head_sha("/p")), "-C /p rev-parse HEAD");
    assert_eq!(argv(git::detach_head("/p", "abc")), "-C /p update-ref --no-deref HEAD abc");
    assert_eq!(argv(git::branch_delete("/p", "feat")), "-C /p branch -D feat");
    assert_eq!(
        argv(git::push_delete("/p", "origin", "feat")),
        "-C /p push origin --delete feat"
    );
    assert_eq!(
        argv(git::untracked("/p")),
        "-C /p ls-files --others --exclude-standard -z"
    );
}

#[test]
fn replies_are_checked() {
    let c = git::run("/d", &["status", "-sb"]);
    assert_eq!(c.check(&said(true, " out \n", "")).unwrap(), "out");
    assert_eq!(
        c.check(&said(false, "", " why\n")).unwrap_err().message,
        "git -C /d status -sb failed (exit exit status: 1): why"
    );
    assert_eq!(
        c.check(&GitReply::NotStarted("no git".into())).unwrap_err().message,
        "spawning git -C /d status -sb: no git"
    );
    assert_eq!(
        c.check_lenient(&said(false, "a\n", "b\n")).unwrap(),
        (false, "a".to_string(), "b".to_string())
    );
    assert!(c.check_lenient(&GitReply::NotStarted("x".into())).is_err());
}

#[test]
fn gitdirs_and_heads_are_read() {
    let at = |t: &str| git::worktree_gitdir("/p/ios-0", Some(t));
    assert_eq!(at("gitdir: /s/.git/worktrees/x\n").as_deref(), Some("/s/.git/worktrees/x"));
    assert_eq!(at("gitdir: ../rel\n").as_deref(), Some("/p/ios-0/../rel"));
    assert_eq!(at("something else"), None);
    assert_eq!(git::worktree_gitdir("/p/ios-0", None), None);
    assert_eq!(git::gitdir_found("/s", &said(true, ".git\n", "")).unwrap(), "/s/.git");
    assert_eq!(git::gitdir_found("/s", &said(true, "/abs\n", "")).unwrap(), "/abs");
    assert!(git::gitdir_found("/s", &said(false, "", "no repo")).is_err());
    assert_eq!(argv(git::symbolic_head("/p/ios-0")), "-C /p/ios-0 symbolic-ref --short HEAD");
    assert_eq!(git::current_branch(&said(true, "a/b\n", "")).as_deref(), Some("a/b"));
    assert_eq!(git::current_branch(&said(true, "heads/v1\n", "")).as_deref(), Some("heads/v1"));
    assert_eq!(git::current_branch(&said(false, "", "ref HEAD is not a symbolic ref")), None);
    assert_eq!(git::current_branch(&GitReply::NotStarted("x".into())), None);
    assert!(git::is_held(Some("ref: refs/remotes/o/x\n")));
    assert!(!git::is_held(Some(IDLE)));
    assert_eq!(git::resolved_sha("/s", "v1", &said(true, "abc\n", "")).unwrap(), "abc");
}

#[test]
fn paths_are_where_they_belong() {
    assert_eq!(fs_paths::pool_root("/r", "k"), "/r/k");
    assert_eq!(fs_paths::pool_config("/r/k"), "/r/k/.meta/config.yaml");
    assert_eq!(fs_paths::init_mutex("/r/k", "ios-0"), "/r/k/.meta/init/ios-0.lock");
    assert_eq!(fs_paths::pool_mutex("/r/k"), "/r/k/.meta/pool.lock");
    assert_eq!(
        fs_paths::source_config_mutex("/s/.git"),
        "/s/.git/worktree-pool-config.lock"
    );
    assert_eq!(fs_paths::worktree_index_lock("/g"), "/g/index.lock");
    assert_eq!(fs_paths::join("/r/", "k"), "/r/k");
    assert_eq!(fs_paths::join("/r", "/abs"), "/abs");
    assert_eq!(fs_paths::worktree_root(Some("/w".into())).as_deref(), Some("/w"));
    assert_eq!(fs_paths::worktree_root(Some(String::new())), None);
    assert_eq!(fs_paths::worktree_root(None), None);
}

// ---------------------------------------------------------------------------
// ls and inspect
// ---------------------------------------------------------------------------

fn listing() -> DirReply {
    DirReply::Items(vec![
        dir("tv-0", "ref: refs/heads/b\n"),
        dir("ios-1", IDLE),
        dir("ios-0", "ref: refs/heads/a\n"),
        dir("junk", IDLE),
    ])
}

fn answers(path: &str, git_status: bool) -> Answers {
    Answers {
        path: path.into(),
        sha: said(true, "0123456789abcdef\n", ""),
        status: git_status.then_some(said(true, " M a\n?? b\n?? c\nD  d\n", "")),
        ahead: git_status.then_some(said(true, "3\n", "")),
    }
}

#[test]
fn ls_lists_held_then_idle_then_fresh() {
    let asked = held_paths("/p", &cfg(), &listing()).unwrap();
    assert_eq!(asked, vec!["/p/tv-0", "/p/ios-0"]);
    let o = ls(
        "/p",
        &cfg(),
        &LsArgs { git_status: false },
        &listing(),
        &vec![answers("/p/ios-0", false)],
    )
    .unwrap();
    assert!(o.failure.is_none());
    assert_eq!(
        text(&o),
        concat_rows(&[
            r#"{"group":"ios","id":"ios-0","lease":"a","path":"/p/ios-0","sha":"01234567","state":"held"}"#,
            r#"{"group":"tv","id":"tv-0","lease":"b","path":"/p/tv-0","sha":null,"state":"held"}"#,
            r#"{"group":"ios","id":"ios-1","lease":null,"path":"/p/ios-1","sha":null,"state":"idle"}"#,
            r#"{"group":"tv","id":"tv-1","lease":null,"path":null,"sha":null,"state":"fresh"}"#,
        ])
    );
}

fn concat_rows(rows: &[&str]) -> String {
    format!("[{}]", rows.join(","))
}

#[test]
fn lifecycle_ls_renders_with_git_status_for_held_only() {
    let o = ls(
        "/p",
        &cfg(),
        &LsArgs { git_status: true },
        &listing(),
        &vec![answers("/p/ios-0", true)],
    )
    .unwrap();
    let v: serde_json::Value = serde_json::from_str(&text(&o)).unwrap();
    assert_eq!(v[0]["git"]["dirty"], 2);
    assert_eq!(v[0]["git"]["untracked"], 2);
    assert_eq!(v[0]["git"]["ahead"], 3);
    // Held, but git did not answer.
    assert!(v[1]["git"]["dirty"].is_null());
    assert!(v[1]["git"]["ahead"].is_null());
    // Idle and fresh rows carry no counts.
    assert!(v[2].get("git").is_none());
    assert!(v[3].get("git").is_none());
    // The text is what serde_json itself would print.
    assert_eq!(text(&o), serde_json::to_string(&v).unwrap());
}

#[test]
fn ls_of_a_pool_without_groups() {
    let mut c = cfg();
    c.groups.clear();
    let o = ls("/p", &c, &LsArgs { git_status: false }, &DirReply::Missing, &vec![]).unwrap();
    let v: serde_json::Value = serde_json::from_str(&text(&o)).unwrap();
    assert_eq!(v.as_array().unwrap().len(), 2);
    assert_eq!(v[1]["id"], "slot-1");
    assert!(v[1]["group"].is_null());
    let e = ls("/p", &c, &LsArgs { git_status: false }, &DirReply::Failed("x".into()), &vec![])
        .unwrap_err();
    assert_eq!(e.message, "read_dir /p: x");
}

#[test]
fn inspect_reports_one_slot() {
    let at = InspectArgs { lease: "a".into() };
    let e = inspected("/p", &cfg(), &at, &listing()).unwrap();
    let o = inspect(
        &cfg(),
        &at,
        &e,
        Ok("/s/.git/worktrees/ios-0".into()),
        &said(true, "0123456789abcdef\n", ""),
        &said(true, "## a\n M x\n", ""),
        &said(true, "abc one\n", ""),
    )
    .unwrap();
    assert_eq!(
        text(&o),
        r###"{"base":"main","gitdir":"/s/.git/worktrees/ios-0","group":"ios","id":"ios-0","lease":"a","log":["abc one"],"path":"/p/ios-0","sha":"0123456789abcdef","status":["## a"," M x"]}"###
    );
    let by_id = InspectArgs { lease: "ios-0".into() };
    let e = inspected("/p", &cfg(), &by_id, &listing()).unwrap();
    let o = inspect(
        &cfg(),
        &by_id,
        &e,
        Ok("/g".into()),
        &said(false, "", "bad"),
        &said(false, "", ""),
        &said(false, "", "bad range"),
    )
    .unwrap();
    let v: serde_json::Value = serde_json::from_str(&text(&o)).unwrap();
    assert_eq!(v["lease"], "a");
    assert!(v["sha"].is_null());
    assert!(v["log"].is_null());
    assert_eq!(v["status"].as_array().unwrap().len(), 0);
}

#[test]
fn inspect_refuses_what_is_not_held() {
    let at = InspectArgs { lease: "nobody".into() };
    let e = inspected("/p", &cfg(), &at, &listing()).unwrap_err();
    assert_eq!(e.message, "no held slot with branch 'nobody' in /p");
    let at = InspectArgs { lease: "a".into() };
    let slot = inspected("/p", &cfg(), &at, &listing()).unwrap();
    let good = said(true, "", "");
    let bad = GitReply::NotStarted("no git".into());
    let e = inspect(&cfg(), &at, &slot, Err(Error::new("no dir".into())), &good, &good, &good)
        .unwrap_err();
    assert_eq!(e.message, "no dir");
    let e = inspect(&cfg(), &at, &slot, Ok("/g".into()), &good, &bad, &good).unwrap_err();
    assert_eq!(e.message, "spawning git -C /p/ios-0 status -sb: no git");
    let e = inspect(&cfg(), &at, &slot, Ok("/g".into()), &good, &good, &bad).unwrap_err();
    assert_eq!(e.message, "spawning git -C /p/ios-0 log --oneline -20 main..HEAD: no git");
}

// ---------------------------------------------------------------------------
// unstick and validate-gitmodules
// ---------------------------------------------------------------------------

fn files() -> InitReply {
    InitReply::Files(vec![
        MutexFile { name: "ios-2.lock".into(), tried: LockTry::Taken },
        MutexFile { name: "ios-0.lock".into(), tried: LockTry::Busy },
        MutexFile { name: "odd".into(), tried: LockTry::Failed("io".into()) },
    ])
}

#[test]
fn lifecycle_unstick_reports_init_mutex_state() {
    let o = unstick("/p", &UnstickArgs { slot: None }, &Some(LockTry::Taken), &files()).unwrap();
    assert_eq!(
        text(&o),
        r#"{"init_dir":"/p/.meta/init","init_mutexes":[{"held":true,"path":"/p/.meta/init/ios-0.lock","slot":"ios-0"},{"held":false,"path":"/p/.meta/init/ios-2.lock","slot":"ios-2"},{"held":true,"path":"/p/.meta/init/odd","slot":"odd"}],"pool_mutex":{"held":false,"path":"/p/.meta/pool.lock"}}"#
    );
    let one = UnstickArgs { slot: Some("ios-2".into()) };
    let o = unstick("/p", &one, &None, &files()).unwrap();
    let v: serde_json::Value = serde_json::from_str(&text(&o)).unwrap();
    assert_eq!(v["init_mutexes"].as_array().unwrap().len(), 1);
    assert!(v["pool_mutex"].is_null());
}

#[test]
fn unstick_tells_why_a_listing_failed() {
    let all = UnstickArgs { slot: None };
    let o = unstick("/p", &all, &None, &InitReply::Missing).unwrap();
    assert!(text(&o).contains("\"init_mutexes\":[]"));
    let e = unstick("/p", &all, &None, &InitReply::Failed("x".into())).unwrap_err();
    assert_eq!(e.message, "read_dir /p/.meta/init: x");
    let e = unstick("/p", &all, &None, &InitReply::Broken("y".into())).unwrap_err();
    assert_eq!(e.message, "y");
}

#[test]
fn validation_flags_misspelled_keys() {
    let raw = "submodule.a.worktreepooltag=editor\nsubmodule.a.worktreepooltags=x\n\
               submodule.b.worktreepool=y\nsubmodule.b.path=b\nsubmodule.b.worktreepooltag=z\n";
    let o = validate_gitmodules(&cfg(), true, &said(true, raw, "")).unwrap();
    let e = settle(Ok(o));
    assert_eq!(
        e.stdout.as_deref(),
        Some(r#"{"gitmodules":"/src/app/.gitmodules","tag_entries":2,"unknown_keys":["submodule.a.worktreepooltags","submodule.b.worktreepool"]}"#)
    );
    assert_eq!(
        e.stderr.as_deref(),
        Some("error: 2 unknown worktreePool* key(s) in /src/app/.gitmodules: submodule.a.worktreepooltags, submodule.b.worktreepool — did you mean 'worktreePoolTag'?")
    );
    assert_eq!(e.code, 1);
}

#[test]
fn validation_of_good_and_missing_files() {
    let good = said(true, "submodule.a.worktreepooltag=editor\n", "");
    let e = settle(validate_gitmodules(&cfg(), true, &good));
    assert_eq!(e.code, 0);
    let e = settle(validate_gitmodules(&cfg(), false, &good));
    assert_eq!(
        e.stdout.as_deref(),
        Some(r#"{"gitmodules":null,"tag_entries":0,"unknown_keys":[]}"#)
    );
    assert_eq!(e.code, 0);
    let e = settle(validate_gitmodules(&cfg(), true, &said(false, "", "bad")));
    assert_eq!((e.stdout, e.code), (None, 1));
}

// ---------------------------------------------------------------------------
// doctor
// ---------------------------------------------------------------------------

fn facts(root: Option<RootFacts>) -> HostFacts {
    HostFacts {
        os: "macos".into(),
        arch: "aarch64".into(),
        git: said(true, "git version 2.50\n", ""),
        exe: Ok("/bin/wp".into()),
        xattr: said(true, "", ""),
        root,
    }
}

fn pool_facts(key: &str, config: Result<PoolConfig, Error>, source_exists: bool, repo: bool) -> PoolFacts {
    PoolFacts { key: key.into(), config, source_exists, gitdir: said(repo, ".git\n", "no repo") }
}

#[test]
fn lifecycle_doctor_runs_without_pool() {
    let e = settle(Ok(run(&facts(Some(RootFacts {
        dir: "/w".into(),
        there: true,
        pools: vec![],
    })))));
    assert_eq!(e.code, 0);
    assert_eq!(
        e.stdout.as_deref(),
        Some(r#"[{"name":"Host","results":[{"message":"macos/aarch64","name":"arch","status":"ok"},{"message":"git version 2.50","name":"git","status":"ok"},{"message":"clean (/bin/wp)","name":"binary quarantine","status":"ok"}]},{"name":"Pools","results":[{"message":"/w (0 pool(s))","name":"pools dir","status":"ok"},{"message":"no pools initialized yet","name":"pools","status":"ok"}]}]"#)
    );
}

#[test]
fn doctor_fails_on_errors_only() {
    let e = settle(Ok(run(&facts(None))));
    assert_eq!(e.code, 1);
    assert_eq!(e.stderr.as_deref(), Some("error: 1 error(s), 0 warning(s)"));
    assert!(e.stdout.unwrap().contains("WORKTREE_ROOT unset"));
    let mut f = facts(Some(RootFacts { dir: "/w".into(), there: false, pools: vec![] }));
    f.os = "linux".into();
    f.exe = Err("gone".into());
    let e = settle(Ok(run(&f)));
    assert_eq!(e.code, 0);
    let out = e.stdout.unwrap();
    assert!(out.contains("linux/aarch64 — only macOS/aarch64 is tested"));
    assert!(out.contains("can't resolve current_exe: gone"));
    assert!(out.contains("/w not present — first init will create it"));
    f.git = GitReply::NotStarted("no such file".into());
    let e = settle(Ok(run(&f)));
    assert_eq!(e.stderr.as_deref(), Some("error: 1 error(s), 3 warning(s)"));
    assert!(e.stdout.unwrap().contains("git not found: no such file"));
    f.git = said(false, "", "broken\n");
    assert!(settle(Ok(run(&f))).stdout.unwrap().contains("git --version exited exit status: 1: broken"));
}

#[test]
fn doctor_looks_at_the_program_file() {
    let mut f = facts(Some(RootFacts { dir: "/w".into(), there: true, pools: vec![] }));
    let mut told = |x: GitReply| {
        f.xattr = x;
        settle(Ok(run(&f))).stdout.unwrap()
    };
    assert!(told(said(true, "a\ncom.apple.quarantine: 1\n", "")).contains(
        "/bin/wp has com.apple.quarantine → xattr -d com.apple.quarantine /bin/wp"
    ));
    assert!(told(said(false, "", "")).contains("xattr exited nonzero"));
    assert!(told(GitReply::NotStarted("no xattr".into())).contains("xattr not available: no xattr"));
}

#[test]
fn doctor_lists_unhealthy_pools() {
    let pools = vec![
        pool_facts("good", Ok(cfg()), true, true),
        pool_facts("bad", Err(Error::new("no file".into())), true, true),
        pool_facts("lost", Ok(cfg()), false, true),
        pool_facts("plain", Ok(cfg()), true, false),
    ];
    let f = facts(Some(RootFacts { dir: "/w".into(), there: true, pools }));
    let e = settle(Ok(run(&f)));
    assert_eq!(e.code, 0);
    let v: serde_json::Value = serde_json::from_str(&e.stdout.unwrap()).unwrap();
    assert_eq!(v[1]["results"][0]["message"], "/w (4 pool(s))");
    assert_eq!(v[1]["results"][1]["status"], "warn");
    assert_eq!(
        v[1]["results"][1]["message"],
        "3/4 unhealthy:\n      bad: config: no file\n      lost: source /src/app missing\n      plain: source /src/app is not a git repo"
    );
    let f = facts(Some(RootFacts {
        dir: "/w".into(),
        there: true,
        pools: vec![pool_facts("good", Ok(cfg()), true, true)],
    }));
    assert!(settle(Ok(run(&f))).stdout.unwrap().contains("1 pool(s), all healthy"));
}

// ---------------------------------------------------------------------------
// routes
// ---------------------------------------------------------------------------

#[test]
fn command_lines_are_routed() {
    let at = |pool: Option<&str>, command: Command| {
        route(Cli { pool: pool.map(String::from), command }, "/w")
    };
    assert!(matches!(at(None, Command::Doctor), Ok(Route::Doctor)));
    assert!(matches!(at(Some("k"), Command::Doctor), Ok(Route::Doctor)));
    let e = at(None, Command::ValidateGitmodules).unwrap_err();
    assert_eq!(e.message, "--pool is required for this subcommand");
    match at(Some("k"), Command::Ls(LsArgs { git_status: true })).unwrap() {
        Route::Work(p, Command::Ls(a)) => {
            assert_eq!((p.key.as_str(), p.path.as_str()), ("k", "/w/k"));
            assert!(a.git_status);
        }
        other => panic!("{other:?}"),
    }
}

#[test]
fn a_config_that_does_not_load_names_the_pool() {
    let p = Pool { key: "k".into(), path: "/w/k".into() };
    let e = opened(&p, true, Err("denied".into())).unwrap_err();
    assert_eq!(
        e.message,
        "loading config for pool 'k': reading config /w/k/.meta/config.yaml: denied"
    );
    let e = opened(&p, true, Ok("schema_version: 3\n".into())).unwrap_err();
    assert_eq!(
        e.message,
        "loading config for pool 'k': parsing config /w/k/.meta/config.yaml: config schema_version 3 unsupported (expected 1)"
    );
}
