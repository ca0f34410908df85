//! The way from a command line to a subcommand, and `init`.
use crate::cli::{Cli, Command, InitArgs};
use crate::config;
use crate::config::{FileWrite, PoolConfig};
use crate::error;
use crate::error::Error;
use crate::fs_paths;
use crate::git;
use crate::git::GitReply;
use crate::submodules;
use crate::text;
use vstd::prelude::*;

verus! {

/// Where a command line leads.
#[derive(Debug)]
pub enum Route {
    /// The health check, which needs no pool.
    Doctor,
    /// Make a pool.
    Init(Pool, InitArgs),
    /// Work on a pool that must be there.
    Work(Pool, Command),
}

/// A pool by name and place.
#[derive(Debug)]
pub struct Pool {
    pub key: String,
    pub path: String,
}

/// The pool that a key names.
pub open spec fn is_pool(p: Pool, root: Seq<char>, key: Seq<char>) -> bool {
    p.key@ == key && p.path@ == fs_paths::path_in(root, key)
}

/// Where a command line leads: `doctor` needs no pool, every other subcommand needs a
/// pool key.
pub open spec fn routes(cli: Cli, root: Seq<char>, r: Result<Route, Error>) -> bool {
    match (cli.command, cli.pool) {
        (Command::Doctor, _) => r matches Ok(Route::Doctor),
        (_, None) => r matches Err(e) && error::told(
            e,
            "--pool is required for this subcommand"@,
        ),
        (Command::Init(args), Some(key)) => r matches Ok(Route::Init(p, a)) && a == args && is_pool(
            p,
            root,
            key@,
        ),
        (cmd, Some(key)) => r matches Ok(Route::Work(p, c)) && c == cmd && is_pool(p, root, key@),
    }
}

/// Where a command line leads, with the pools under `worktree_root`.
pub fn route(cli: Cli, worktree_root: &str) -> (r: Result<Route, Error>)
    ensures
        routes(cli, worktree_root@, r),
{
    match (cli.command, cli.pool) {
        (Command::Doctor, _) => Ok(Route::Doctor),
        (_, None) => Err(Error::new(text::own("--pool is required for this subcommand"))),
        (Command::Init(args), Some(key)) => {
            let path = fs_paths::pool_root(worktree_root, key.as_str());
            Ok(Route::Init(Pool { key, path }, args))
        },
        (cmd, Some(key)) => {
            let path = fs_paths::pool_root(worktree_root, key.as_str());
            Ok(Route::Work(Pool { key, path }, cmd))
        },
    }
}

/// The refusal of a pool that is not there.
pub open spec fn not_initialized(p: Pool) -> Seq<char> {
    "pool '"@ + p.key@ + "' not initialized at "@ + p.path@ + "; run: worktree-pool --pool "@ + p.key@
        + " init --source <repo> --max-slots <n> ..."@
}

/// The configuration of a pool to work on. `there` says whether its config file is, and
/// `content` is what reading it gave.
pub fn opened(p: &Pool, there: bool, content: Result<String, String>) -> (r: Result<
    PoolConfig,
    Error,
>)
    ensures
        if !there {
            r matches Err(e) && error::told(e, not_initialized(*p))
        } else {
            match content {
                Ok(t) => match config::config_read(t@) {
                    Ok(c) => r matches Ok(x) && x@ == c,
                    Err(f) => r matches Err(e) && error::told(
                        e,
                        loading(*p) + ": "@ + config::load_failure(
                            "parsing config "@,
                            p.path@,
                            config::fault_message(f),
                        ),
                    ),
                },
                Err(why) => r matches Err(e) && error::told(
                    e,
                    loading(*p) + ": "@ + config::load_failure(
                        "reading config "@,
                        p.path@,
                        why@,
                    ),
                ),
            }
        },
{
    if !there {
        let mut m = text::own("pool '");
        m.append(p.key.as_str());
        m.append("' not initialized at ");
        m.append(p.path.as_str());
        m.append("; run: worktree-pool --pool ");
        m.append(p.key.as_str());
        m.append(" init --source <repo> --max-slots <n> ...");
        return Err(Error::new(m));
    }
    match config::load(p.path.as_str(), content) {
        Ok(c) => Ok(c),
        Err(e) => {
            let mut doing = text::own("loading config for pool '");
            doing.append(p.key.as_str());
            doing.append("'");
            Err(e.context(doing.as_str()))
        },
    }
}

/// What is put in front of a config that does not load.
pub open spec fn loading(p: Pool) -> Seq<char> {
    "loading config for pool '"@ + p.key@ + "'"@
}

// ---------------------------------------------------------------------------
// init
// ---------------------------------------------------------------------------

/// A pool to be made: the file to write, and what to tell the operator then.
#[derive(Debug)]
pub struct NewPool {
    pub write: FileWrite,
    pub note: String,
}

/// The refusal of a pool that is there already.
pub open spec fn already_initialized(p: Pool) -> Seq<char> {
    "pool '"@ + p.key@ + "' already initialized at "@ + p.path@
}

/// The refusal of a source with submodules where no mirror is given.
pub open spec fn mirror_required(source: Seq<char>) -> Seq<char> {
    "source "@ + source
        + " declares submodules, so the pool needs a submodule mirror: pass --submodule-mirror-mode (source-submodules or bare-mirror) and --submodule-mirror-base"@
}

/// Whether the source's default commit declares submodules, from the reply to
/// `git::gitmodules_at`; it declares none where it has no such file. Or a message.
pub open spec fn source_declares(c: config::PoolConfigView, r: GitReply) -> Result<bool, Seq<char>> {
    match git::tolerated(git::gitmodules_at_command(c.source, c.default_commit), r) {
        Err(m) => Err(m),
        Ok((ok, raw, _)) => Ok(ok && submodules::declared(raw).len() > 0),
    }
}

/// What the operator is told of a new pool.
pub open spec fn init_note(p: Pool, c: config::PoolConfigView) -> Seq<char> {
    "initialized pool '"@ + p.key@ + "' at "@ + p.path@ + " (source="@ + c.source + ", max_slots="@
        + text::decimal(c.max_slots as nat) + ", groups="@ + (if c.groups.len() == 0 {
        "none"@
    } else {
        text::joined(c.groups, ","@)
    }) + ", default_commit="@ + c.default_commit + mirror_note(c) + ")"@
}

/// What the operator is told of a new pool's mirror.
pub open spec fn mirror_note(c: config::PoolConfigView) -> Seq<char> {
    match (c.submodule_mirror_mode, c.submodule_mirror_base) {
        (Some(m), Some(b)) => ", submodule_mirror="@ + crate::cli::mode_name(m) + "@"@ + b,
        _ => seq![],
    }
}

/// What `init` comes to: the pool must not be there, the arguments must be sound, and a
/// source that declares submodules must have a mirror.
pub open spec fn initializes(
    p: Pool,
    args: InitArgs,
    there: bool,
    source_exists: bool,
    modules: GitReply,
    r: Result<NewPool, Error>,
) -> bool {
    if there {
        r matches Err(e) && error::told(e, already_initialized(p))
    } else {
        match config::requested(args, source_exists) {
            Err(f) => r matches Err(e) && error::told(e, config::fault_message(f)),
            Ok(c) => if c.submodule_mirror_mode is None && source_declares(c, modules) is Err {
                r matches Err(e) && error::told(e, source_declares(c, modules)->Err_0)
            } else if c.submodule_mirror_mode is None && source_declares(c, modules)->Ok_0 {
                r matches Err(e) && error::told(e, mirror_required(c.source))
            } else {
                r matches Ok(n) && n.write.path@ == fs_paths::config_path(p.path@)
                    && n.write.content@ == config::config_text(c) && n.note@ == init_note(p, c)
            },
        }
    }
}

fn note_of(p: &Pool, cfg: &PoolConfig) -> (r: String)
    ensures
        r@ == init_note(*p, cfg@),
{
    let mut m = text::own("initialized pool '");
    m.append(p.key.as_str());
    m.append("' at ");
    m.append(p.path.as_str());
    m.append(" (source=");
    m.append(cfg.source.as_str());
    m.append(", max_slots=");
    m.append(text::to_decimal(cfg.max_slots as u64).as_str());
    m.append(", groups=");
    let groups = if cfg.groups.len() == 0 {
        text::own("none")
    } else {
        text::join(&config::group_strings(&cfg.groups), ",")
    };
    assert(cfg@.groups.len() == cfg.groups@.len());
    m.append(groups.as_str());
    m.append(", default_commit=");
    m.append(cfg.default_commit.as_str());
    let mirror = match (cfg.submodule_mirror_mode, &cfg.submodule_mirror_base) {
        (Some(mode), Some(base)) => {
            let mut t = text::own(", submodule_mirror=");
            t.append(mode.as_str());
            t.append("@");
            t.append(base.as_str());
            t
        },
        _ => String::new(),
    };
    m.append(mirror.as_str());
    m.append(")");
    m
}

fn declares(cfg: &PoolConfig, modules: &GitReply) -> (r: Result<bool, Error>)
    ensures
        match (r, source_declares(cfg@, *modules)) {
            (Ok(a), Ok(b)) => a == b,
            (Err(e), Err(m)) => error::told(e, m),
            _ => false,
        },
{
    match git::gitmodules_at(cfg.source.as_str(), cfg.default_commit.as_str()).check_lenient(
        modules,
    ) {
        Err(e) => Err(e),
        Ok((ok, raw, _)) => Ok(ok && submodules::declares_submodules(raw.as_str())),
    }
}

/// Makes a pool. `there` says whether its config file is there already, `source_exists`
/// whether the source is, and `modules` is the reply to `git::gitmodules_at` on the
/// source's default commit. Nothing is to be written on a refusal.
pub fn cmd_init(
    p: &Pool,
    args: &InitArgs,
    there: bool,
    source_exists: bool,
    modules: &GitReply,
) -> (r: Result<NewPool, Error>)
    ensures
        initializes(*p, *args, there, source_exists, *modules, r),
{
    if there {
        let mut m = text::own("pool '");
        m.append(p.key.as_str());
        m.append("' already initialized at ");
        m.append(p.path.as_str());
        return Err(Error::new(m));
    }
    let cfg = match PoolConfig::from_init_args(args, source_exists) {
        Ok(c) => c,
        Err(f) => {
            return Err(Error::new(f.message()));
        },
    };
    if cfg.submodule_mirror_mode.is_none() {
        match declares(&cfg, modules) {
            Err(e) => {
                return Err(e);
            },
            Ok(true) => {
                let mut m = text::own("source ");
                m.append(cfg.source.as_str());
                m.append(
                    " declares submodules, so the pool needs a submodule mirror: pass --submodule-mirror-mode (source-submodules or bare-mirror) and --submodule-mirror-base",
                );
                return Err(Error::new(m));
            },
            Ok(false) => {},
        }
    }
    let write = config::write(p.path.as_str(), &cfg);
    let note = note_of(p, &cfg);
    Ok(NewPool { write, note })
}

// ---------------------------------------------------------------------------
// Laws
// ---------------------------------------------------------------------------

/// No pool is made over a source that declares submodules without a mirror.
pub proof fn init_refuses_submodules_without_a_mirror(
    p: Pool,
    args: InitArgs,
    there: bool,
    source_exists: bool,
    modules: GitReply,
    r: Result<NewPool, Error>,
)
    requires
        initializes(p, args, there, source_exists, modules, r),
        args.submodule_mirror_mode is None,
        git::tolerated(
            git::gitmodules_at_command(args.source@, args.default_commit@),
            modules,
        ) matches Ok((ok, raw, _)) && ok && submodules::declared(raw).len() > 0,
    ensures
        r is Err,
{
}

/// A pool that `init` made opens with the configuration that was asked for, where the
/// arguments can be stored in a file.
pub proof fn made_pools_open(
    p: Pool,
    args: InitArgs,
    source_exists: bool,
    modules: GitReply,
    made: NewPool,
)
    requires
        initializes(p, args, false, source_exists, modules, Ok(made)),
        config::requested(args, source_exists) matches Ok(c) && config::storable(c),
    ensures
        config::config_read(made.write.content@) == config::requested(args, source_exists),
{
    config::config_reads_back(config::requested(args, source_exists)->Ok_0);
}

} // verus!
