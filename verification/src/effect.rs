//! What the pool's state machines ask of the outside world, and what it answers.
//!
//! A machine's step takes the reply to its last action and gives the next action. The
//! program performs actions and hands back replies; it decides nothing.
use crate::error::Error;
use crate::exit::ExitKind;
use crate::git::{GitCommand, GitCommandView, GitReply};
use crate::hooks::{HookCommand, HookReply};
use crate::slot::{DirReply, Look};
use crate::submodules::SubmoduleEntry;
use crate::text;
use vstd::prelude::*;

verus! {

/// One thing to do. The comment names the reply that answers it.
#[derive(Debug)]
pub enum Action {
    /// Run git: `Git`.
    Git(GitCommand),
    /// Wait for the lock on a file: `Taken`.
    TakeLock(String),
    /// Try to take the lock on a file and keep it until the end: `Tried`.
    TryLock(String),
    /// Release the lock that `TakeLock` took: `Done`.
    DropLock,
    /// List a directory, with what its items are: `Listing`.
    List(String),
    /// Look at each of these paths: `Looked`.
    Look(Vec<String>),
    /// Look at one directory: `Probed`.
    Probe(String),
    /// Look whether a path exists: `Exists`.
    Exists(String),
    /// Find a worktree's git directory: `Gitdir`.
    Gitdir(String),
    /// Remove a file: `Removal`.
    RemoveFile(String),
    /// Remove a directory with all that is in it, as far as possible: `Done`.
    RemoveDir(String),
    /// Run a hook: `Hook`.
    Hook(HookCommand),
    /// Sweep stranded working directories out of a checkout: `Ended`.
    Sweep(String),
    /// Update the submodules of a checkout; its scope: `Ended`.
    Update(String, String),
    /// Update each submodule, in parallel: `Worked`.
    UpdateEach(Vec<SubmoduleEntry>),
    /// Delete a branch in every submodule of a checkout; the checkout, and the branch:
    /// `Done`.
    DeleteBranches(String, String),
    /// Detach and delete the run's branch in each submodule, in parallel: `Done`.
    DetachEach(Vec<SubmoduleEntry>),
    /// The end: a line for stdout or none, or a failure. All locks go.
    Finish(Result<Option<String>, Error>),
}

/// What came of removing a file.
#[derive(Debug)]
pub enum Removal {
    Removed,
    /// There was no such file.
    Missing,
    /// It is still there; why.
    Failed(String),
}

/// The answer to an action.
#[derive(Debug)]
pub enum Reply {
    Git(GitReply),
    Taken(Result<(), Error>),
    /// Whether the lock was free.
    Tried(Result<bool, Error>),
    Listing(DirReply),
    /// What each path showed, in their order.
    Looked(Vec<Look>),
    /// Whether the path is a directory, the text of its git `HEAD` where it can be found
    /// and read, and the branch that git shows there.
    Probed(bool, Option<String>, Option<String>),
    Exists(bool),
    Gitdir(Option<String>),
    Removal(Removal),
    Hook(HookReply),
    Ended(Result<(), Error>),
    Worked(Vec<Result<(), Error>>),
    Done,
}

/// What a step leads to: lines for stderr, then an action.
#[derive(Debug)]
pub struct Turn {
    pub notes: Vec<String>,
    pub action: Action,
}

/// The turn tells these lines.
pub open spec fn says(t: Turn, notes: Seq<Seq<char>>) -> bool {
    text::texts(t.notes@) == notes
}

/// The turn tells nothing.
pub open spec fn quiet(t: Turn) -> bool {
    t.notes@.len() == 0
}

/// The turn runs this git command.
pub open spec fn runs_git(t: Turn, c: GitCommandView) -> bool {
    t.action matches Action::Git(g) && g@ == c
}

/// The turn looks whether this path exists.
pub open spec fn looks_for(t: Turn, path: Seq<char>) -> bool {
    t.action matches Action::Exists(p) && p@ == path
}

/// The turn ends the run with a failure.
pub open spec fn fails(t: Turn, kind: Option<ExitKind>, message: Seq<char>) -> bool {
    t.action matches Action::Finish(Err(e)) && e.kind == kind && e.message@ == message
}

/// The turn ends the run well, with nothing for stdout.
pub open spec fn succeeds(t: Turn) -> bool {
    t.action matches Action::Finish(Ok(o)) && o is None
}

/// The reply is of the kind that answers the action.
pub open spec fn answers(a: Action, r: Reply) -> bool {
    match a {
        Action::Git(_) => r is Git,
        Action::TakeLock(_) => r is Taken,
        Action::TryLock(_) => r is Tried,
        Action::List(_) => r is Listing,
        Action::Look(_) => r is Looked,
        Action::Probe(_) => r is Probed,
        Action::Exists(_) => r is Exists,
        Action::Gitdir(_) => r is Gitdir,
        Action::RemoveFile(_) => r is Removal,
        Action::Hook(_) => r is Hook,
        Action::Sweep(_) | Action::Update(_, _) => r is Ended,
        Action::UpdateEach(_) => r is Worked,
        Action::DropLock | Action::RemoveDir(_) | Action::DeleteBranches(_, _)
        | Action::DetachEach(_) => r is Done,
        Action::Finish(_) => false,
    }
}

/// The turns and replies of a run from its first action to its end: each reply answers
/// the turn of its index, and only the last turn ends the run.
pub open spec fn is_whole(turns: Seq<Turn>, replies: Seq<Reply>) -> bool {
    &&& turns.len() == replies.len() + 1
    &&& turns.last().action is Finish
    &&& forall|k: int| 0 <= k < replies.len() ==> answers((#[trigger] turns[k]).action, replies[k])
}

/// What a run says that got a reply to something it did not ask.
pub open spec fn misfit_message() -> Seq<char> {
    "internal error: a reply does not answer the action"@
}

/// A turn that tells nothing.
pub fn silently(action: Action) -> (r: Turn)
    ensures
        quiet(r),
        says(r, seq![]),
        r.action == action,
{
    let notes: Vec<String> = Vec::new();
    assert(text::texts(notes@) =~= seq![]);
    Turn { notes, action }
}

/// A turn that tells one line.
pub fn telling(note: String, action: Action) -> (r: Turn)
    ensures
        says(r, seq![note@]),
        r.action == action,
{
    let mut notes: Vec<String> = Vec::new();
    notes.push(note);
    assert(text::texts(notes@) =~= seq![note@]);
    Turn { notes, action }
}

/// A turn that ends the run with a failure.
pub fn failing(e: Error) -> (r: Turn)
    ensures
        quiet(r),
        says(r, seq![]),
        fails(r, e.kind, e.message@),
{
    silently(Action::Finish(Err(e)))
}

/// A turn that ends a run that got a reply to something it did not ask.
pub fn misfit() -> (r: Turn)
    ensures
        quiet(r),
        says(r, seq![]),
        fails(r, None, misfit_message()),
{
    failing(Error::new(text::own("internal error: a reply does not answer the action")))
}

} // verus!
