//! Laws of the git commands.
use crate::dashboard;
use crate::error;
use crate::git;
use crate::git::{GitCommandView, GitReply};
use crate::submodules;
use crate::text;
use vstd::prelude::*;

verus! {

/// The words that follow `git` begin with the directory, then come the overrides, each
/// behind `-c`, then the arguments as they are.
pub proof fn words_are_directory_overrides_arguments(
    cwd: Seq<char>,
    overrides: Seq<(Seq<char>, Seq<char>)>,
    args: Seq<Seq<char>>,
    key: Seq<char>,
    value: Seq<char>,
)
    ensures
        git::words(GitCommandView { cwd, overrides: seq![], args }) == seq!["-C"@, cwd] + args,
        git::words(GitCommandView { cwd, overrides: overrides.push((key, value)), args })
            == git::words(GitCommandView { cwd, overrides, args: seq![] }) + seq![
            "-c"@,
            key + "="@ + value,
        ] + args,
{
    let longer = overrides.push((key, value));
    assert(longer.drop_last() =~= overrides);
    assert(git::override_words(Seq::empty()) =~= Seq::<Seq<char>>::empty());
    assert(git::words(GitCommandView { cwd, overrides: seq![], args }) =~= seq!["-C"@, cwd] + args);
    assert(git::words(GitCommandView { cwd, overrides: longer, args }) =~= git::words(
        GitCommandView { cwd, overrides, args: seq![] },
    ) + seq!["-c"@, key + "="@ + value] + args);
}

/// A command that must succeed gives its stdout, trimmed, exactly where it started and
/// succeeded; else a message that shows the command, and why it failed.
pub proof fn success_gives_the_output(c: GitCommandView, r: GitReply)
    ensures
        git::checked(c, r) is Ok <==> (r matches GitReply::Finished(o) && o.success),
        git::printed(c, r) is Ok <==> (r matches GitReply::Finished(o) && o.success),
        r matches GitReply::Finished(o) ==> o.success ==> git::checked(c, r) == Ok::<
            Seq<char>,
            Seq<char>,
        >(text::trimmed(o.stdout@)) && git::printed(c, r) == Ok::<Seq<char>, Seq<char>>(o.stdout@),
        r matches GitReply::Finished(o) ==> !o.success ==> git::checked(c, r) == Err::<
            Seq<char>,
            Seq<char>,
        >(
            "git -C "@ + c.cwd + " "@ + text::joined(c.args, " "@) + " failed (exit "@ + o.status@
                + "): "@ + text::trimmed(o.stderr@),
        ),
        r matches GitReply::NotStarted(why) ==> git::checked(c, r) == Err::<Seq<char>, Seq<char>>(
            "spawning git -C "@ + c.cwd + " "@ + text::joined(c.args, " "@) + ": "@ + why@,
        ),
{
    reveal_strlit("spawning ");
    reveal_strlit("git -C ");
    reveal_strlit("spawning git -C ");
    if let GitReply::NotStarted(why) = r {
        assert("spawning "@ + ("git -C "@ + c.cwd + " "@ + text::joined(c.args, " "@)) + ": "@ + why@
            =~= "spawning git -C "@ + c.cwd + " "@ + text::joined(c.args, " "@) + ": "@ + why@);
    }
}

/// A command that may fail gives whether it succeeded and both its outputs, wherever it
/// started.
pub proof fn tolerated_failures_are_reported(c: GitCommandView, r: GitReply)
    ensures
        git::tolerated(c, r) is Ok <==> r is Finished,
        r matches GitReply::Finished(o) ==> git::tolerated(c, r) == Ok::<
            (bool, Seq<char>, Seq<char>),
            Seq<char>,
        >((o.success, text::trimmed(o.stdout@), text::trimmed(o.stderr@))),
{
}

/// What is told of a failure that has a cause is what was being done, and the cause.
pub proof fn contexts_come_first(doing: Seq<char>, what: Seq<char>, why: Seq<char>)
    ensures
        error::while_doing(doing, Err::<Seq<char>, Seq<char>>(why)) == Err::<
            Seq<char>,
            Seq<char>,
        >(doing + ": "@ + why),
        error::while_doing(doing, Ok::<Seq<char>, Seq<char>>(what)) == Ok::<
            Seq<char>,
            Seq<char>,
        >(what),
{
}

/// The words of the commands that look things up.
pub proof fn lookups_are(dir: Seq<char>, file: Seq<char>, commit: Seq<char>, base: Seq<char>)
    ensures
        git::words(git::config_file_list_command(dir, file)) == seq![
            "-C"@,
            dir,
            "config"@,
            "--file"@,
            file,
            "--list"@,
        ],
        git::words(git::gitmodules_at_command(dir, commit)) == seq![
            "-C"@,
            dir,
            "config"@,
            "--blob"@,
            commit + ":.gitmodules"@,
            "--list"@,
        ],
        git::words(git::resolve_command(dir, commit)) == seq![
            "-C"@,
            dir,
            "rev-parse"@,
            "--verify"@,
            commit + "^{commit}"@,
        ],
        git::words(git::git_dir_command(dir)) == seq!["-C"@, dir, "rev-parse"@, "--git-dir"@],
        git::words(git::head_sha_command(dir)) == seq!["-C"@, dir, "rev-parse"@, "HEAD"@],
        git::words(git::symbolic_head_command(dir)) == seq![
            "-C"@,
            dir,
            "symbolic-ref"@,
            "--short"@,
            "HEAD"@,
        ],
        git::words(git::untracked_command(dir)) == seq![
            "-C"@,
            dir,
            "ls-files"@,
            "--others"@,
            "--exclude-standard"@,
            "-z"@,
        ],
        git::words(dashboard::status_command(dir)) == seq![
            "-C"@,
            dir,
            "status"@,
            "--porcelain"@,
        ],
        git::words(dashboard::ahead_command(dir)) == seq![
            "-C"@,
            dir,
            "rev-list"@,
            "--count"@,
            "HEAD"@,
            "^refs/heads/main"@,
        ],
        git::words(dashboard::brief_status_command(dir)) == seq!["-C"@, dir, "status"@, "-sb"@],
        git::words(dashboard::log_command(dir, base)) == seq![
            "-C"@,
            dir,
            "log"@,
            "--oneline"@,
            "-20"@,
            base + "..HEAD"@,
        ],
{
    lemma_plain(dir, seq!["config"@, "--file"@, file, "--list"@]);
    lemma_plain(dir, seq!["config"@, "--blob"@, commit + ":.gitmodules"@, "--list"@]);
    lemma_plain(dir, seq!["rev-parse"@, "--verify"@, commit + "^{commit}"@]);
    lemma_plain(dir, seq!["rev-parse"@, "--git-dir"@]);
    lemma_plain(dir, seq!["rev-parse"@, "HEAD"@]);
    lemma_plain(dir, seq!["symbolic-ref"@, "--short"@, "HEAD"@]);
    lemma_plain(dir, seq!["ls-files"@, "--others"@, "--exclude-standard"@, "-z"@]);
    lemma_plain(dir, seq!["status"@, "--porcelain"@]);
    lemma_plain(dir, seq!["rev-list"@, "--count"@, "HEAD"@, "^refs/heads/main"@]);
    lemma_plain(dir, seq!["status"@, "-sb"@]);
    lemma_plain(dir, seq!["log"@, "--oneline"@, "-20"@, base + "..HEAD"@]);
}

proof fn lemma_plain(dir: Seq<char>, args: Seq<Seq<char>>)
    ensures
        git::words(git::command(dir, args)) == seq!["-C"@, dir] + args,
        forall|i: int| 0 <= i < args.len() ==> (seq!["-C"@, dir] + args)[i + 2] == #[trigger] args[i],
{
    assert(git::override_words(Seq::empty()) =~= Seq::<Seq<char>>::empty());
    assert(git::words(git::command(dir, args)) =~= seq!["-C"@, dir] + args);
}

/// The words of the commands that change a worktree.
pub proof fn worktree_changes_are(
    source: Seq<char>,
    slot: Seq<char>,
    to: Seq<char>,
    commit: Seq<char>,
)
    ensures
        git::words(git::worktree_add_command(source, slot, commit)) == seq![
            "-C"@,
            source,
            "worktree"@,
            "add"@,
            "--detach"@,
            slot,
            commit,
        ],
        git::words(git::worktree_move_command(source, slot, to)) == seq![
            "-C"@,
            source,
            "worktree"@,
            "move"@,
            slot,
            to,
        ],
        git::words(git::worktree_remove_command(source, slot)) == seq![
            "-C"@,
            source,
            "worktree"@,
            "remove"@,
            "--force"@,
            slot,
        ],
        git::words(git::reset_hard_command(slot, commit)) == seq![
            "-C"@,
            slot,
            "reset"@,
            "--hard"@,
            commit,
        ],
        git::words(git::checkout_detach_command(slot)) == seq![
            "-C"@,
            slot,
            "checkout"@,
            "--detach"@,
        ],
{
    lemma_plain(source, seq!["worktree"@, "add"@, "--detach"@, slot, commit]);
    lemma_plain(source, seq!["worktree"@, "move"@, slot, to]);
    lemma_plain(source, seq!["worktree"@, "remove"@, "--force"@, slot]);
    lemma_plain(slot, seq!["reset"@, "--hard"@, commit]);
    lemma_plain(slot, seq!["checkout"@, "--detach"@]);
}

/// The words of the commands that change refs: a lease is the branch of that name under
/// `refs/heads/`.
pub proof fn ref_changes_are(slot: Seq<char>, name: Seq<char>, sha: Seq<char>, remote: Seq<char>)
    ensures
        git::words(git::branch_at_head_command(slot, name)) == seq![
            "-C"@,
            slot,
            "update-ref"@,
            "refs/heads/"@ + name,
            "HEAD"@,
        ],
        git::words(git::attach_head_command(slot, name)) == seq![
            "-C"@,
            slot,
            "symbolic-ref"@,
            "-m"@,
            "worktree-pool acquire"@,
            "HEAD"@,
            "refs/heads/"@ + name,
        ],
        git::words(git::detach_head_command(slot, sha)) == seq![
            "-C"@,
            slot,
            "update-ref"@,
            "--no-deref"@,
            "HEAD"@,
            sha,
        ],
        git::words(git::branch_delete_command(slot, name)) == seq![
            "-C"@,
            slot,
            "branch"@,
            "-D"@,
            name,
        ],
        git::words(git::push_delete_command(slot, remote, name)) == seq![
            "-C"@,
            slot,
            "push"@,
            remote,
            "--delete"@,
            name,
        ],
{
    lemma_plain(slot, seq!["update-ref"@, "refs/heads/"@ + name, "HEAD"@]);
    lemma_plain(
        slot,
        seq!["symbolic-ref"@, "-m"@, "worktree-pool acquire"@, "HEAD"@, "refs/heads/"@ + name],
    );
    lemma_plain(slot, seq!["update-ref"@, "--no-deref"@, "HEAD"@, sha]);
    lemma_plain(slot, seq!["branch"@, "-D"@, name]);
    lemma_plain(slot, seq!["push"@, remote, "--delete"@, name]);
}

/// The words of the commands on submodules: the file protocol is allowed where one is
/// fetched, since mirrors are local.
pub proof fn submodule_changes_are(dir: Seq<char>, name: Seq<char>, url: Seq<char>, path: Seq<char>)
    ensures
        git::words(submodules::register_command(dir, name, url)) == seq![
            "-C"@,
            dir,
            "config"@,
            "submodule."@ + name + ".url"@,
            url,
        ],
        git::words(submodules::deinit_command(dir, path)) == seq![
            "-C"@,
            dir,
            "submodule"@,
            "deinit"@,
            "-f"@,
            path,
        ],
        git::words(submodules::fetch_command(dir, path)) == seq![
            "-C"@,
            dir,
            "-c"@,
            "protocol.file.allow=always"@,
            "submodule"@,
            "update"@,
            path,
        ],
{
    lemma_plain(dir, seq!["config"@, "submodule."@ + name + ".url"@, url]);
    lemma_plain(dir, seq!["submodule"@, "deinit"@, "-f"@, path]);
    let one = Seq::<(Seq<char>, Seq<char>)>::empty().push(("protocol.file.allow"@, "always"@));
    assert(seq![("protocol.file.allow"@, "always"@)] =~= one);
    words_are_directory_overrides_arguments(
        dir,
        seq![],
        seq!["submodule"@, "update"@, path],
        "protocol.file.allow"@,
        "always"@,
    );
    words_are_directory_overrides_arguments(dir, seq![], seq![], seq![], seq![]);
    reveal_strlit("protocol.file.allow");
    reveal_strlit("=");
    reveal_strlit("always");
    reveal_strlit("protocol.file.allow=always");
    assert("protocol.file.allow"@ + "="@ + "always"@ =~= "protocol.file.allow=always"@);
    assert(git::words(submodules::fetch_command(dir, path)) =~= seq![
        "-C"@,
        dir,
        "-c"@,
        "protocol.file.allow=always"@,
        "submodule"@,
        "update"@,
        path,
    ]);
}

/// A git directory that git answered with stands for itself where it is absolute, and is
/// taken below the directory that was asked about where it is relative.
pub proof fn git_directories_are_found_below(dir: Seq<char>, r: GitReply)
    requires
        r matches GitReply::Finished(o) && o.success && text::trimmed(o.stdout@).len() > 0,
        dir.len() > 0,
        dir.last() != '/',
    ensures
        r matches GitReply::Finished(o) && ({
            let p = text::trimmed(o.stdout@);
            git::git_dir_found(dir, r) == Ok::<Seq<char>, Seq<char>>(
                if p[0] == '/' {
                    p
                } else {
                    dir + seq!['/'] + p
                },
            )
        }),
{
    crate::laws::paths::paths_are_joined_by_one_separator(
        dir,
        text::trimmed(r->Finished_0.stdout@),
    );
}

/// A worktree's git directory is what its link file names behind `gitdir: `, below the slot
/// where that is relative.
pub proof fn links_name_the_git_directory(slot: Seq<char>, link: Option<Seq<char>>, p: Seq<char>)
    ensures
        text::trimmed(p).len() > 0 && text::trimmed(p)[0] == '/' ==> git::gitlink_target(
            slot,
            Some("gitdir: "@ + p),
        ) == Some(text::trimmed(p)),
        text::trimmed(p).len() > 0 && text::trimmed(p)[0] != '/' && slot.len() > 0 && slot.last()
            != '/' ==> git::gitlink_target(slot, Some("gitdir: "@ + p)) == Some(
            slot + seq!['/'] + text::trimmed(p),
        ),
        git::gitlink_target(slot, None) is None,
        git::gitlink_target(slot, link) is Some ==> (link matches Some(t) && "gitdir: "@.is_prefix_of(
            t,
        )),
{
    crate::laws::text::prefix_comes_off("gitdir: "@ + p, "gitdir: "@, p);
    if text::trimmed(p).len() > 0 {
        crate::laws::paths::paths_are_joined_by_one_separator(slot, text::trimmed(p));
    }
}

/// A slot is held where its `HEAD` is a symbolic ref, is empty or cannot be read; any other
/// text there makes it idle.
pub proof fn a_symbolic_head_holds(rest: Seq<char>, t: Seq<char>)
    ensures
        git::head_holds(Some("ref:"@ + rest)),
        git::head_holds(Some(Seq::empty())),
        git::head_holds(None),
        t.len() > 0 && t[0] != 'r' ==> !git::head_holds(Some(t)),
        git::head_holds(Some(t)) ==> t.len() == 0 || (t.len() >= 4 && t.take(4) == "ref:"@),
{
    reveal_strlit("ref:");
    assert("ref:"@.is_prefix_of("ref:"@ + rest));
    if "ref:"@.is_prefix_of(t) {
        assert(t.take(4) =~= "ref:"@);
        assert(t.take(4)[0] == t[0]);
    }
}

/// The branch of a slot is what git printed, where it succeeded.
pub proof fn the_branch_is_what_git_printed(r: GitReply)
    ensures
        git::branch_shown(r) is Some <==> (r matches GitReply::Finished(o) && o.success),
        r matches GitReply::Finished(o) ==> o.success ==> git::branch_shown(r) == Some(
            text::trimmed(o.stdout@),
        ),
{
}

/// A commit that git does not know is told by its name and the source.
pub proof fn an_unknown_commit_is_told(source: Seq<char>, commit: Seq<char>, r: GitReply)
    ensures
        git::resolved(source, commit, r) is Ok <==> (r matches GitReply::Finished(o) && o.success),
        r matches GitReply::Finished(o) ==> o.success ==> git::resolved(source, commit, r) == Ok::<
            Seq<char>,
            Seq<char>,
        >(text::trimmed(o.stdout@)),
        r matches GitReply::Finished(o) ==> !o.success ==> git::resolved(source, commit, r)
            == Err::<Seq<char>, Seq<char>>(
            "resolving '"@ + commit + "' in "@ + source + ": "@ + ("git -C "@ + source + " "@
                + text::joined(seq!["rev-parse"@, "--verify"@, commit + "^{commit}"@], " "@)
                + " failed (exit "@ + o.status@ + "): "@ + text::trimmed(o.stderr@)),
        ),
{
}

} // verus!
