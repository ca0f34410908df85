//! The command line as values.
use vstd::prelude::*;

verus! {

/// A parsed command line.
#[derive(Debug)]
pub struct Cli {
    /// Pool key. Its path is `$WORKTREE_ROOT/<key>/`. Every subcommand but
    /// `doctor` needs it.
    pub pool: Option<String>,
    pub command: Command,
}

/// A subcommand with its arguments.
#[derive(Debug)]
pub enum Command {
    /// Initialize a new pool.
    Init(InitArgs),
    /// Acquire a slot.
    Acquire(AcquireArgs),
    /// Release a held slot back to idle. Idempotent.
    Release(ReleaseArgs),
    /// List the pool's slots.
    Ls(LsArgs),
    /// Report the git state of a held slot.
    Inspect(InspectArgs),
    /// Print the path of the slot that holds a lease.
    Path(PathArgs),
    /// Report the state of the pool's mutexes.
    Unstick(UnstickArgs),
    /// Flag unknown `worktreePool*` keys in `.gitmodules`.
    ValidateGitmodules,
    /// Host-level health check. Needs no pool.
    Doctor,
}

#[derive(Debug)]
pub struct InitArgs {
    /// Source git repo path (bare or working clone).
    pub source: String,
    /// Default commit-ish for `acquire`.
    pub default_commit: String,
    /// Slot count cap per group (or total when there are no groups).
    pub max_slots: u32,
    /// Group names.
    pub groups: Vec<String>,
    /// Submodule URL rewrite mode.
    pub submodule_mirror_mode: Option<SubmoduleMirrorMode>,
    /// Base path for the submodule mirror.
    pub submodule_mirror_base: Option<String>,
}

/// Where submodules are fetched from.
#[derive(Debug, Clone, Copy, PartialEq, Eq, Structural)]
pub enum SubmoduleMirrorMode {
    /// Bare repositories under the base, by organisation and repository name.
    BareMirror,
    /// The base's own submodule object stores (`<base>/.git/modules/<name>`). The
    /// base is a working clone, usually the source itself, so it serves whatever
    /// the source references, pushed or not.
    SourceSubmodules,
}

/// The name of a mode on the command line and in the pool config.
pub open spec fn mode_name(m: SubmoduleMirrorMode) -> Seq<char> {
    match m {
        SubmoduleMirrorMode::BareMirror => "bare-mirror"@,
        SubmoduleMirrorMode::SourceSubmodules => "source-submodules"@,
    }
}

impl SubmoduleMirrorMode {
    /// The name on the command line and in the pool config.
    pub fn as_str(self) -> (r: &'static str)
        ensures
            r@ == mode_name(self),
    {
        match self {
            SubmoduleMirrorMode::BareMirror => "bare-mirror",
            SubmoduleMirrorMode::SourceSubmodules => "source-submodules",
        }
    }
}

#[derive(Debug)]
pub struct AcquireArgs {
    /// The claim on the slot: the caller's handle, and the branch created inside
    /// it. Must not already be held.
    pub lease: String,
    /// Commit-ish to check out. Default: the pool's `default_commit`.
    pub commit: Option<String>,
    /// Group to acquire from. Defaults to the pool's first.
    pub group: Option<String>,
    /// `worktreePoolTag` values to skip during submodule update.
    pub exclude_submodule_tags: Vec<String>,
}

#[derive(Debug)]
pub struct ReleaseArgs {
    /// Lease to release; a canonical slot id (`ios-0`) is accepted too.
    pub lease: String,
}

#[derive(Debug)]
pub struct LsArgs {
    /// Add dirty, untracked and ahead counts for held slots.
    pub git_status: bool,
}

#[derive(Debug)]
pub struct InspectArgs {
    /// Lease to inspect.
    pub lease: String,
}

#[derive(Debug)]
pub struct PathArgs {
    /// Lease to resolve to a slot path.
    pub lease: String,
}

#[derive(Debug)]
pub struct UnstickArgs {
    /// Specific slot id (e.g. `ios-2`). Without it, every init mutex is reported.
    pub slot: Option<String>,
}

} // verus!
