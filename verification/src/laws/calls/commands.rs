//! Laws of the command line as it is called.
use crate::cli::{Cli, Command, InitArgs};
use crate::commands;
use crate::commands::{NewPool, Pool, Route};
use crate::config;
use crate::config::PoolConfig;
use crate::error::Error;
use crate::fs_paths;
use crate::git::GitReply;
use crate::laws::commands as command_laws;
use crate::laws::config as config_laws;
use crate::laws::config::holdable;
use crate::submodules;
use crate::text;
use crate::text_lemmas::lacks;
use vstd::prelude::*;

verus! {

/// Where a command line leads.
pub proof fn a_command_line_is_routed(cli: Cli, root: &str, r: Result<Route, Error>)
    requires
        call_ensures(commands::route, (cli, root), r),
    ensures
        cli.command is Doctor ==> (r matches Ok(Route::Doctor)),
        !(cli.command is Doctor) && cli.pool is None ==> (r matches Err(e) && e.message@
            == "--pool is required for this subcommand"@),
        cli.command matches Command::Init(args) ==> (cli.pool matches Some(key) ==> (r matches Ok(
            Route::Init(p, a),
        ) && a == args && p.key@ == key@ && p.path@ == fs_paths::path_in(root@, key@))),
        !(cli.command is Doctor) && !(cli.command is Init) ==> (cli.pool matches Some(key) ==> (
        r matches Ok(Route::Work(p, c)) && c == cli.command && p.key@ == key@ && p.path@
            == fs_paths::path_in(root@, key@))),
{
}

/// A pool opens with the configuration in its file; one that is not there, or whose file
/// cannot be read or parsed, is told by its key.
pub proof fn a_pool_is_opened(
    p: &Pool,
    there: bool,
    content: Result<String, String>,
    r: Result<PoolConfig, Error>,
)
    requires
        call_ensures(commands::opened, (p, there, content), r),
    ensures
        !there ==> (r matches Err(e) && e.kind is None && e.message@ == "pool '"@ + p.key@
            + "' not initialized at "@ + p.path@ + "; run: worktree-pool --pool "@ + p.key@
            + " init --source <repo> --max-slots <n> ..."@),
        there ==> (content matches Ok(t) ==> (config::config_read(t@) matches Ok(c) ==> (
        r matches Ok(d) && d@ == c))),
        there ==> (content matches Err(why) ==> (r matches Err(e) && e.kind is None && e.message@
            == "loading config for pool '"@ + p.key@ + "'"@ + ": "@ + ("reading config "@
            + fs_paths::path_in(p.path@, ".meta/config.yaml"@) + ": "@ + why@))),
        there ==> (content matches Ok(t) ==> (config::config_read(t@) matches Err(f) ==> (
        r matches Err(e) && e.kind is None && e.message@ == "loading config for pool '"@ + p.key@
            + "'"@ + ": "@ + ("parsing config "@ + fs_paths::path_in(
            p.path@,
            ".meta/config.yaml"@,
        ) + ": "@ + config::fault_message(f))))),
{
}

/// `init` makes a pool exactly where there is none, its arguments are sound, and it has a
/// mirror or its source declares no submodules; what it writes reads back as its arguments.
pub proof fn init_writes_what_was_asked_for(
    p: &Pool,
    args: &InitArgs,
    there: bool,
    source_exists: bool,
    modules: &GitReply,
    r: Result<NewPool, Error>,
)
    requires
        call_ensures(commands::cmd_init, (p, args, there, source_exists, modules), r),
        holdable(args.source@),
        holdable(args.default_commit@),
        forall|i: int| 0 <= i < args.groups@.len() ==> holdable((#[trigger] args.groups@[i])@)
            && lacks(args.groups@[i]@, ','),
        args.submodule_mirror_base matches Some(b) ==> holdable(b@),
    ensures
        r matches Ok(made) ==> made.write.path@ == fs_paths::path_in(
            p.path@,
            ".meta/config.yaml"@,
        ) && (config::config_read(made.write.content@) matches Ok(c) && {
            &&& c.source == args.source@
            &&& c.default_commit == args.default_commit@
            &&& c.max_slots == args.max_slots
            &&& c.groups.len() == args.groups@.len()
            &&& forall|i: int| 0 <= i < c.groups.len() ==> #[trigger] c.groups[i] == args.groups@[i]@
            &&& c.submodule_mirror_mode == args.submodule_mirror_mode
            &&& c.submodule_mirror_base == text::opt_text(args.submodule_mirror_base)
        }),
        *modules matches GitReply::Finished(o) ==> (r is Ok <==> !there && args.max_slots > 0
            && source_exists && (args.submodule_mirror_mode is Some
            <==> args.submodule_mirror_base is Some) && (args.submodule_mirror_mode is Some || !(
        o.success && submodules::declared(text::trimmed(o.stdout@)).len() > 0))),
{
    if let Ok(made) = r {
        config_laws::init_writes_its_arguments(*p, *args, source_exists, *modules, made);
    }
    if let GitReply::Finished(o) = *modules {
        command_laws::a_pool_is_made_where(*p, *args, there, source_exists, o, r);
    }
}

} // verus!
