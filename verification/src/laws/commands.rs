//! Laws of how a command line is taken, and of `init`.
use crate::cli::{Cli, Command, InitArgs, SubmoduleMirrorMode};
use crate::commands;
use crate::commands::{NewPool, Pool, Route};
use crate::error::Error;
use crate::fs_paths;
use crate::git::{GitOutput, GitReply};
use crate::submodules;
use crate::text;
use vstd::prelude::*;

verus! {

/// The health check needs no pool. Every other subcommand is refused without one, and with
/// one works on the directory of that name, with its arguments as they are.
pub proof fn a_command_line_leads_to(cli: Cli, root: Seq<char>, r: Result<Route, Error>)
    requires
        commands::routes(cli, root, r),
    ensures
        cli.command is Doctor ==> (r matches Ok(Route::Doctor)),
        !(cli.command is Doctor) && cli.pool is None ==> (r matches Err(e) && e.kind is None
            && e.message@ == "--pool is required for this subcommand"@),
        cli.command matches Command::Init(args) ==> (cli.pool matches Some(key) ==> (r matches Ok(
            Route::Init(p, a),
        ) && a == args && p.key@ == key@ && p.path@ == fs_paths::path_in(root, key@))),
        !(cli.command is Doctor) && !(cli.command is Init) ==> (cli.pool matches Some(key) ==> (
        r matches Ok(Route::Work(p, c)) && c == cli.command && p.key@ == key@ && p.path@
            == fs_paths::path_in(root, key@))),
{
}

/// A pool that is there already is not made again.
pub proof fn a_pool_is_made_once(
    p: Pool,
    args: InitArgs,
    source_exists: bool,
    modules: GitReply,
    r: Result<NewPool, Error>,
)
    requires
        commands::initializes(p, args, true, source_exists, modules, r),
    ensures
        r matches Err(e) && e.kind is None && e.message@ == "pool '"@ + p.key@
            + "' already initialized at "@ + p.path@,
{
}

/// A pool is made exactly where it is not there, its arguments are sound, and it has a mirror
/// or its source declares no submodules. Its configuration goes under its own directory.
pub proof fn a_pool_is_made_where(
    p: Pool,
    args: InitArgs,
    there: bool,
    source_exists: bool,
    o: GitOutput,
    r: Result<NewPool, Error>,
)
    requires
        commands::initializes(p, args, there, source_exists, GitReply::Finished(o), r),
    ensures
        ({
            let declares = o.success && submodules::declared(text::trimmed(o.stdout@)).len() > 0;
            r is Ok <==> !there && args.max_slots > 0 && source_exists && (
            args.submodule_mirror_mode is Some <==> args.submodule_mirror_base is Some) && (
            args.submodule_mirror_mode is Some || !declares)
        }),
        r matches Ok(n) ==> n.write.path@ == fs_paths::path_in(p.path@, ".meta/config.yaml"@),
{
}

/// A source with submodules and no mirror is told what is missing.
pub proof fn a_missing_mirror_is_told(
    p: Pool,
    args: InitArgs,
    o: GitOutput,
    r: Result<NewPool, Error>,
)
    requires
        commands::initializes(p, args, false, true, GitReply::Finished(o), r),
        args.max_slots > 0,
        args.submodule_mirror_mode is None,
        args.submodule_mirror_base is None,
        o.success,
        submodules::declared(text::trimmed(o.stdout@)).len() > 0,
    ensures
        r matches Err(e) && e.kind is None && e.message@ == "source "@ + args.source@
            + " declares submodules, so the pool needs a submodule mirror: pass --submodule-mirror-mode (source-submodules or bare-mirror) and --submodule-mirror-base"@,
{
}

/// What the operator is told of a new pool: its key and place, and its arguments.
pub proof fn a_new_pool_is_told(
    p: Pool,
    args: InitArgs,
    modules: GitReply,
    n: NewPool,
)
    requires
        commands::initializes(p, args, false, true, modules, Ok(n)),
    ensures
        n.note@ == "initialized pool '"@ + p.key@ + "' at "@ + p.path@ + " (source="@ + args.source@
            + ", max_slots="@ + text::decimal(args.max_slots as nat) + ", groups="@ + (
        if args.groups@.len() == 0 {
            "none"@
        } else {
            text::joined(text::texts(args.groups@), ","@)
        }) + ", default_commit="@ + args.default_commit@ + (match (
            args.submodule_mirror_mode,
            args.submodule_mirror_base,
        ) {
            (Some(SubmoduleMirrorMode::BareMirror), Some(b)) => ", submodule_mirror="@
                + "bare-mirror"@ + "@"@ + b@,
            (Some(SubmoduleMirrorMode::SourceSubmodules), Some(b)) => ", submodule_mirror="@
                + "source-submodules"@ + "@"@ + b@,
            _ => Seq::empty(),
        }) + ")"@,
{
    assert(text::texts(args.groups@).len() == args.groups@.len());
}

/// Where git did not start, a pool with a mirror is made all the same, and one without is
/// refused: nobody knows what its source declares.
pub proof fn without_git_only_mirrors_are_sure(
    p: Pool,
    args: InitArgs,
    why: String,
    r: Result<NewPool, Error>,
)
    requires
        commands::initializes(p, args, false, true, GitReply::NotStarted(why), r),
        args.max_slots > 0,
        args.submodule_mirror_mode is Some <==> args.submodule_mirror_base is Some,
    ensures
        r is Ok <==> args.submodule_mirror_mode is Some,
        r matches Err(e) ==> e.kind is None,
{
}

/// Arguments that are not sound are told by their fault.
pub proof fn unsound_arguments_are_told(
    p: Pool,
    args: InitArgs,
    source_exists: bool,
    modules: GitReply,
    r: Result<NewPool, Error>,
)
    requires
        commands::initializes(p, args, false, source_exists, modules, r),
    ensures
        args.max_slots == 0 ==> (r matches Err(e) && e.kind is None && e.message@
            == "--max-slots must be > 0"@),
        args.max_slots > 0 && !source_exists ==> (r matches Err(e) && e.kind is None && e.message@
            == "--source path does not exist: "@ + args.source@),
        args.max_slots > 0 && source_exists && (args.submodule_mirror_mode is Some) != (
        args.submodule_mirror_base is Some) ==> (r matches Err(e) && e.kind is None && e.message@
            == "--submodule-mirror-mode and --submodule-mirror-base must be set together"@),
{
}

} // verus!
