//! What checkouts declare of submodules, level by level.
use crate::effect::{Action, Reply, Turn};
use crate::fs_paths;
use crate::git;
use crate::git::GitCommandView;
use crate::submodules;
use crate::submodules::SubmoduleView;
use vstd::prelude::*;

verus! {

/// What is on disk: whether a file is there, and what `git config --list` shows of the
/// `.gitmodules` of a checkout, where git can read it.
pub struct Files {
    pub there: spec_fn(Seq<char>) -> bool,
    pub listings: spec_fn(Seq<char>) -> Option<Seq<char>>,
}

/// The submodules that a checkout declares. Without a `.gitmodules`, or with one that git
/// cannot read, there are none.
pub open spec fn declares(f: Files, dir: Seq<char>) -> Seq<SubmoduleView> {
    if (f.there)(submodules::modules_file(dir)) {
        match (f.listings)(dir) {
            Some(raw) => submodules::declared(raw),
            None => seq![],
        }
    } else {
        seq![]
    }
}

/// `path` is the checkout of a submodule of `dir`, or of one nested in it at most `depth`
/// levels deep.
pub open spec fn within(f: Files, dir: Seq<char>, path: Seq<char>, depth: nat) -> bool
    decreases depth,
{
    depth > 0 && exists|e: SubmoduleView| #[trigger]
        declares(f, dir).contains(e) && (path == fs_paths::path_in(dir, e.path) || within(
            f,
            fs_paths::path_in(dir, e.path),
            path,
            (depth - 1) as nat,
        ))
}

/// `path` is the checkout of a submodule of `dir`, or of one nested in it, however deep.
pub open spec fn is_nested(f: Files, dir: Seq<char>, path: Seq<char>) -> bool {
    exists|depth: nat| #[trigger] within(f, dir, path, depth)
}

/// The reply says what is on disk.
pub open spec fn tells(f: Files, turn: Turn, reply: Reply) -> bool {
    match (turn.action, reply) {
        (Action::Exists(p), Reply::Exists(there)) => there == (f.there)(p@),
        (Action::Git(c), Reply::Git(r)) => c@ == lists(c@.cwd) ==> match git::checked(c@, r) {
            Ok(raw) => (f.listings)(c@.cwd) == Some(raw),
            Err(_) => (f.listings)(c@.cwd) is None,
        },
        _ => true,
    }
}

/// The command that reads the `.gitmodules` of a checkout.
pub open spec fn lists(dir: Seq<char>) -> GitCommandView {
    git::config_file_list_command(dir, submodules::modules_file(dir))
}

/// `entries` are the submodules that a checkout declares, in order of their paths.
pub open spec fn are_declared(f: Files, dir: Seq<char>, entries: Seq<SubmoduleView>) -> bool {
    &&& (f.there)(submodules::modules_file(dir))
    &&& (f.listings)(dir) is Some
    &&& submodules::lists_declared(entries, (f.listings)(dir)->0)
}

/// What is declared stands among `entries`.
pub proof fn lemma_listed(
    f: Files,
    dir: Seq<char>,
    entries: Seq<SubmoduleView>,
    e: SubmoduleView,
) -> (i: int)
    requires
        are_declared(f, dir, entries),
        declares(f, dir).contains(e),
    ensures
        0 <= i < entries.len(),
        entries[i] == e,
{
    broadcast use vstd::seq_lib::group_to_multiset_ensures;

    assert(declares(f, dir).to_multiset().count(e) > 0);
    assert(entries.to_multiset().count(e) > 0);
    choose|i: int| 0 <= i < entries.len() && entries[i] == e
}

/// What stands among `entries` is declared.
pub proof fn lemma_unlisted(f: Files, dir: Seq<char>, entries: Seq<SubmoduleView>, i: int)
    requires
        are_declared(f, dir, entries),
        0 <= i < entries.len(),
    ensures
        declares(f, dir).contains(entries[i]),
{
    broadcast use vstd::seq_lib::group_to_multiset_ensures;

    assert(entries.contains(entries[i]));
    assert(entries.to_multiset().count(entries[i]) > 0);
    assert(declares(f, dir).to_multiset().count(entries[i]) > 0);
}

} // verus!
