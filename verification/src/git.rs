//! The git commands that the pool runs, and what their output means.
//!
//! A function that is named after what it does gives the command to run; the
//! command's `check` and `check_lenient` read the reply.
use crate::error;
use crate::error::Error;
use crate::fs_paths;
use crate::text;
use vstd::prelude::*;

verus! {

/// A git command: `git -C <cwd> -c <key>=<value> … <args>`.
#[derive(Debug)]
pub struct GitCommand {
    pub cwd: String,
    pub overrides: Vec<(String, String)>,
    pub args: Vec<String>,
}

/// A git command as text.
#[verifier::ext_equal]
pub struct GitCommandView {
    pub cwd: Seq<char>,
    pub overrides: Seq<(Seq<char>, Seq<char>)>,
    pub args: Seq<Seq<char>>,
}

/// Config overrides as text.
pub open spec fn override_texts(v: Seq<(String, String)>) -> Seq<(Seq<char>, Seq<char>)> {
    v.map_values(|p: (String, String)| (p.0@, p.1@))
}

impl View for GitCommand {
    type V = GitCommandView;

    open spec fn view(&self) -> GitCommandView {
        GitCommandView {
            cwd: self.cwd@,
            overrides: override_texts(self.overrides@),
            args: text::texts(self.args@),
        }
    }
}

/// What a finished git process left.
#[derive(Debug)]
pub struct GitOutput {
    pub success: bool,
    /// The exit status in words.
    pub status: String,
    pub stdout: String,
    pub stderr: String,
}

/// What came of running a git command.
#[derive(Debug)]
pub enum GitReply {
    /// The process did not start; why.
    NotStarted(String),
    Finished(GitOutput),
}

/// The command without config overrides.
pub open spec fn command(cwd: Seq<char>, args: Seq<Seq<char>>) -> GitCommandView {
    GitCommandView { cwd, overrides: seq![], args }
}

/// The words that config overrides become.
pub open spec fn override_words(overrides: Seq<(Seq<char>, Seq<char>)>) -> Seq<Seq<char>>
    decreases overrides.len(),
{
    if overrides.len() == 0 {
        seq![]
    } else {
        let (k, v) = overrides.last();
        override_words(overrides.drop_last()) + seq!["-c"@, k + "="@ + v]
    }
}

/// The words that follow `git`.
pub open spec fn words(c: GitCommandView) -> Seq<Seq<char>> {
    seq!["-C"@, c.cwd] + override_words(c.overrides) + c.args
}

/// How messages show a command.
pub open spec fn shown(c: GitCommandView) -> Seq<char> {
    "git -C "@ + c.cwd + " "@ + text::joined(c.args, " "@)
}

/// What a command that must succeed gives: its stdout as it is, or a message.
pub open spec fn printed(c: GitCommandView, r: GitReply) -> Result<Seq<char>, Seq<char>> {
    match r {
        GitReply::NotStarted(why) => Err("spawning "@ + shown(c) + ": "@ + why@),
        GitReply::Finished(o) => if o.success {
            Ok(o.stdout@)
        } else {
            Err(shown(c) + " failed (exit "@ + o.status@ + "): "@ + text::trimmed(o.stderr@))
        },
    }
}

/// What a command that must succeed gives: its trimmed stdout, or a message.
pub open spec fn checked(c: GitCommandView, r: GitReply) -> Result<Seq<char>, Seq<char>> {
    match printed(c, r) {
        Ok(out) => Ok(text::trimmed(out)),
        Err(m) => Err(m),
    }
}

/// What a command that may fail gives: whether it succeeded, and its trimmed
/// stdout and stderr. A message where it did not start.
pub open spec fn tolerated(c: GitCommandView, r: GitReply) -> Result<
    (bool, Seq<char>, Seq<char>),
    Seq<char>,
> {
    match r {
        GitReply::NotStarted(why) => Err("spawning "@ + shown(c) + ": "@ + why@),
        GitReply::Finished(o) => Ok(
            (o.success, text::trimmed(o.stdout@), text::trimmed(o.stderr@)),
        ),
    }
}

fn own_all(v: &[&str]) -> (r: Vec<String>)
    ensures
        text::texts(r@) == text::slices(v@),
{
    let mut out: Vec<String> = Vec::new();
    let mut i: usize = 0;
    while i < v.len()
        invariant
            i <= v.len(),
            text::texts(out@) == text::slices(v@).take(i as int),
        decreases v.len() - i,
    {
        let ghost before = text::texts(out@);
        out.push(text::own(v[i]));
        assert(text::texts(out@) =~= before.push(v@[i as int]@));
        assert(text::slices(v@).take(i + 1) =~= text::slices(v@).take(i as int).push(
            v@[i as int]@,
        ));
        i = i + 1;
    }
    assert(text::slices(v@).take(i as int) =~= text::slices(v@));
    out
}

impl GitCommand {
    /// The words that follow `git`: `-C cwd -c k=v … <args>`.
    pub fn argv(&self) -> (r: Vec<String>)
        ensures
            text::texts(r@) == words(self@),
    {
        let mut out: Vec<String> = Vec::new();
        out.push(text::own("-C"));
        out.push(text::own(self.cwd.as_str()));
        let ghost o = override_texts(self.overrides@);
        let mut i: usize = 0;
        assert(text::texts(out@) =~= seq!["-C"@, self.cwd@] + override_words(o.take(0)));
        while i < self.overrides.len()
            invariant
                i <= self.overrides.len(),
                o == override_texts(self.overrides@),
                text::texts(out@) == seq!["-C"@, self.cwd@] + override_words(o.take(i as int)),
            decreases self.overrides.len() - i,
        {
            let ghost before = text::texts(out@);
            let mut kv = text::own(self.overrides[i].0.as_str());
            kv.append("=");
            kv.append(self.overrides[i].1.as_str());
            out.push(text::own("-c"));
            out.push(kv);
            assert(o.take(i + 1).drop_last() =~= o.take(i as int));
            assert(o.take(i + 1).last() == (self.overrides@[i as int].0@, self.overrides@[
                i as int
            ].1@));
            assert(text::texts(out@) =~= before + seq!["-c"@, kv@]);
            assert(text::texts(out@) =~= seq!["-C"@, self.cwd@] + override_words(o.take(i + 1)));
            i = i + 1;
        }
        assert(o.take(i as int) =~= o);
        let ghost head = text::texts(out@);
        let mut j: usize = 0;
        assert(text::texts(out@) =~= head + text::texts(self.args@).take(0));
        while j < self.args.len()
            invariant
                j <= self.args.len(),
                text::texts(out@) == head + text::texts(self.args@).take(j as int),
            decreases self.args.len() - j,
        {
            let ghost before = text::texts(out@);
            out.push(text::own(self.args[j].as_str()));
            assert(text::texts(out@) =~= before.push(self.args@[j as int]@));
            assert(text::texts(self.args@).take(j + 1) =~= text::texts(self.args@).take(
                j as int,
            ).push(self.args@[j as int]@));
            assert(text::texts(out@) =~= head + text::texts(self.args@).take(j + 1));
            j = j + 1;
        }
        assert(text::texts(self.args@).take(j as int) =~= text::texts(self.args@));
        out
    }

    fn show(&self) -> (r: String)
        ensures
            r@ == shown(self@),
    {
        let mut m = text::own("git -C ");
        m.append(self.cwd.as_str());
        m.append(" ");
        m.append(text::join(&self.args, " ").as_str());
        m
    }

    fn not_started(&self, why: &str) -> (r: Error)
        ensures
            error::told(r, "spawning "@ + shown(self@) + ": "@ + why@),
    {
        let mut doing = text::own("spawning ");
        doing.append(self.show().as_str());
        Error::new(text::own(why)).context(doing.as_str())
    }

    /// The trimmed stdout of a run that must succeed, else a failure that shows stderr.
    pub fn check(&self, reply: &GitReply) -> (r: Result<String, Error>)
        ensures
            error::yields(r, checked(self@, *reply)),
    {
        match self.check_printed(reply) {
            Ok(out) => Ok(text::own(text::trim(out.as_str()))),
            Err(e) => Err(e),
        }
    }

    /// The stdout, as it is, of a run that must succeed, else a failure that shows stderr.
    pub fn check_printed(&self, reply: &GitReply) -> (r: Result<String, Error>)
        ensures
            error::yields(r, printed(self@, *reply)),
    {
        match reply {
            GitReply::NotStarted(why) => Err(self.not_started(why.as_str())),
            GitReply::Finished(o) => {
                if o.success {
                    Ok(text::own(o.stdout.as_str()))
                } else {
                    let mut m = self.show();
                    m.append(" failed (exit ");
                    m.append(o.status.as_str());
                    m.append("): ");
                    m.append(text::trim(o.stderr.as_str()));
                    Err(Error::new(m))
                }
            },
        }
    }

    /// Whether a run that may fail succeeded, with its trimmed stdout and stderr.
    pub fn check_lenient(&self, reply: &GitReply) -> (r: Result<(bool, String, String), Error>)
        ensures
            match (r, tolerated(self@, *reply)) {
                (Ok(a), Ok(b)) => a.0 == b.0 && a.1@ == b.1 && a.2@ == b.2,
                (Err(e), Err(m)) => error::told(e, m),
                _ => false,
            },
    {
        match reply {
            GitReply::NotStarted(why) => Err(self.not_started(why.as_str())),
            GitReply::Finished(o) => Ok(
                (
                    o.success,
                    text::own(text::trim(o.stdout.as_str())),
                    text::own(text::trim(o.stderr.as_str())),
                ),
            ),
        }
    }
}

/// `git -C cwd <args>`, to be read with `check`.
pub fn run(cwd: &str, args: &[&str]) -> (r: GitCommand)
    ensures
        r@ == command(cwd@, text::slices(args@)),
{
    let c = GitCommand { cwd: text::own(cwd), overrides: Vec::new(), args: own_all(args) };
    assert(c@.overrides =~= seq![]);
    c
}

/// `git -C cwd -c k=v … <args>`, to be read with `check`.
pub fn run_with_config(cwd: &str, overrides: &[(&str, &str)], args: &[&str]) -> (r: GitCommand)
    ensures
        r@ == (GitCommandView {
            cwd: cwd@,
            overrides: overrides@.map_values(|p: (&str, &str)| (p.0@, p.1@)),
            args: text::slices(args@),
        }),
{
    let mut out: Vec<(String, String)> = Vec::new();
    let ghost want = overrides@.map_values(|p: (&str, &str)| (p.0@, p.1@));
    let mut i: usize = 0;
    while i < overrides.len()
        invariant
            i <= overrides.len(),
            want == overrides@.map_values(|p: (&str, &str)| (p.0@, p.1@)),
            override_texts(out@) == want.take(i as int),
        decreases overrides.len() - i,
    {
        let ghost before = override_texts(out@);
        out.push((text::own(overrides[i].0), text::own(overrides[i].1)));
        assert(override_texts(out@) =~= before.push(want[i as int]));
        assert(want.take(i + 1) =~= want.take(i as int).push(want[i as int]));
        i = i + 1;
    }
    assert(want.take(i as int) =~= want);
    GitCommand { cwd: text::own(cwd), overrides: out, args: own_all(args) }
}

/// `git -C cwd <args>`, to be read with `check_lenient`.
pub fn run_lenient(cwd: &str, args: &[&str]) -> (r: GitCommand)
    ensures
        r@ == command(cwd@, text::slices(args@)),
{
    run(cwd, args)
}

/// `config --file <file> --list`.
pub open spec fn config_file_list_command(cwd: Seq<char>, file: Seq<char>) -> GitCommandView {
    command(cwd, seq!["config"@, "--file"@, file, "--list"@])
}

/// The raw `key=value` lines of a config file.
pub fn config_file_list(cwd: &str, file: &str) -> (r: GitCommand)
    ensures
        r@ == config_file_list_command(cwd@, file@),
{
    let args = ["config", "--file", file, "--list"];
    assert(text::slices(args@) =~= seq!["config"@, "--file"@, file@, "--list"@]);
    run(cwd, &args)
}

/// `config --blob <commit>:.gitmodules --list`.
pub open spec fn gitmodules_at_command(source: Seq<char>, commit: Seq<char>) -> GitCommandView {
    command(source, seq!["config"@, "--blob"@, commit + ":.gitmodules"@, "--list"@])
}

/// The raw `key=value` lines of a commit's `.gitmodules`. Works on bare repos, and
/// fails where the commit has no such file.
pub fn gitmodules_at(source: &str, commit: &str) -> (r: GitCommand)
    ensures
        r@ == gitmodules_at_command(source@, commit@),
{
    let mut blob = text::own(commit);
    blob.append(":.gitmodules");
    let args = ["config", "--blob", blob.as_str(), "--list"];
    assert(text::slices(args@) =~= seq!["config"@, "--blob"@, blob@, "--list"@]);
    run_lenient(source, &args)
}

/// `rev-parse --verify <commitish>^{commit}`.
pub open spec fn resolve_command(source: Seq<char>, commitish: Seq<char>) -> GitCommandView {
    command(source, seq!["rev-parse"@, "--verify"@, commitish + "^{commit}"@])
}

/// The full SHA that a commit-ish names, or a message.
pub open spec fn resolved(source: Seq<char>, commitish: Seq<char>, r: GitReply) -> Result<
    Seq<char>,
    Seq<char>,
> {
    error::while_doing(
        "resolving '"@ + commitish + "' in "@ + source,
        checked(resolve_command(source, commitish), r),
    )
}

/// Resolves a commit-ish to its full SHA in `source`.
pub fn resolve_full_sha(source: &str, commitish: &str) -> (r: GitCommand)
    ensures
        r@ == resolve_command(source@, commitish@),
{
    let mut spec = text::own(commitish);
    spec.append("^{commit}");
    let args = ["rev-parse", "--verify", spec.as_str()];
    assert(text::slices(args@) =~= seq!["rev-parse"@, "--verify"@, spec@]);
    run(source, &args)
}

/// The full SHA that `resolve_full_sha` found.
pub fn resolved_sha(source: &str, commitish: &str, reply: &GitReply) -> (r: Result<String, Error>)
    ensures
        error::yields(r, resolved(source@, commitish@, *reply)),
{
    match resolve_full_sha(source, commitish).check(reply) {
        Ok(sha) => Ok(sha),
        Err(e) => {
            let mut doing = text::own("resolving '");
            doing.append(commitish);
            doing.append("' in ");
            doing.append(source);
            Err(e.context(doing.as_str()))
        },
    }
}

/// `rev-parse --git-dir`.
pub open spec fn git_dir_command(dir: Seq<char>) -> GitCommandView {
    command(dir, seq!["rev-parse"@, "--git-dir"@])
}

/// The git directory that a `rev-parse --git-dir` in `dir` names. A relative one is
/// relative to `dir`.
pub open spec fn git_dir_found(dir: Seq<char>, r: GitReply) -> Result<Seq<char>, Seq<char>> {
    match checked(git_dir_command(dir), r) {
        Ok(p) => Ok(fs_paths::path_in(dir, p)),
        Err(m) => Err(m),
    }
}

/// Asks for the git directory of a repository.
pub fn source_gitdir(source: &str) -> (r: GitCommand)
    ensures
        r@ == git_dir_command(source@),
{
    let args = ["rev-parse", "--git-dir"];
    assert(text::slices(args@) =~= seq!["rev-parse"@, "--git-dir"@]);
    run(source, &args)
}

/// The git directory that `source_gitdir` found.
pub fn gitdir_found(dir: &str, reply: &GitReply) -> (r: Result<String, Error>)
    ensures
        error::yields(r, git_dir_found(dir@, *reply)),
{
    match source_gitdir(dir).check(reply) {
        Ok(p) => Ok(fs_paths::join(dir, p.as_str())),
        Err(e) => Err(e),
    }
}

/// The git directory that the text of a slot's `.git` file names: what follows
/// `gitdir: `, relative to the slot.
pub open spec fn gitlink_target(slot: Seq<char>, gitlink: Option<Seq<char>>) -> Option<Seq<char>> {
    match gitlink {
        None => None,
        Some(t) => match text::after_prefix(t, "gitdir: "@) {
            None => None,
            Some(rest) => Some(fs_paths::path_in(slot, text::trimmed(rest))),
        },
    }
}

/// The git directory of a slot, from the text of its `.git` file where that can be
/// read. `None` where git has to be asked.
pub fn worktree_gitdir(slot: &str, gitlink: Option<&str>) -> (r: Option<String>)
    ensures
        text::opt_text(r) == gitlink_target(slot@, text::opt_slice(gitlink)),
{
    match gitlink {
        None => None,
        Some(t) => match text::strip_prefix(t, "gitdir: ") {
            None => None,
            Some(rest) => Some(fs_paths::join(slot, text::trim(rest))),
        },
    }
}

/// A slot is held unless its `HEAD` can be read and holds a bare commit: on a
/// branch, unreadable and empty all count as held.
pub open spec fn head_holds(head: Option<Seq<char>>) -> bool {
    match head {
        None => true,
        Some(t) => t.len() == 0 || "ref:"@.is_prefix_of(t),
    }
}

/// Whether a slot with this `HEAD` is held. Refuses to call a slot idle whose state
/// cannot be told.
pub fn is_held(head: Option<&str>) -> (r: bool)
    ensures
        r == head_holds(text::opt_slice(head)),
{
    match head {
        None => true,
        Some(t) => t.is_empty() || text::starts_with(t, "ref:"),
    }
}

/// `symbolic-ref --short HEAD`.
pub open spec fn symbolic_head_command(slot: Seq<char>) -> GitCommandView {
    command(slot, seq!["symbolic-ref"@, "--short"@, "HEAD"@])
}

/// Asks for the branch that a slot is on.
pub fn symbolic_head(slot: &str) -> (r: GitCommand)
    ensures
        r@ == symbolic_head_command(slot@),
{
    let args = ["symbolic-ref", "--short", "HEAD"];
    assert(text::slices(args@) =~= seq!["symbolic-ref"@, "--short"@, "HEAD"@]);
    run_lenient(slot, &args)
}

/// The branch that git shows: its short name, or none where git fails, as it does on a
/// detached `HEAD`. Git puts `heads/` in front where a tag has the branch's name too.
pub open spec fn branch_shown(r: GitReply) -> Option<Seq<char>> {
    match r {
        GitReply::NotStarted(_) => None,
        GitReply::Finished(o) => if o.success {
            Some(text::trimmed(o.stdout@))
        } else {
            None
        },
    }
}

/// The branch that a slot is on, from the reply to `symbolic_head`.
pub fn current_branch(r: &GitReply) -> (b: Option<String>)
    ensures
        text::opt_text(b) == branch_shown(*r),
{
    match r {
        GitReply::NotStarted(_) => None,
        GitReply::Finished(o) => {
            if o.success {
                Some(text::own(text::trim(o.stdout.as_str())))
            } else {
                None
            }
        },
    }
}

/// `worktree add --detach <slot> <commit>`.
pub open spec fn worktree_add_command(
    source: Seq<char>,
    slot: Seq<char>,
    commit: Seq<char>,
) -> GitCommandView {
    command(source, seq!["worktree"@, "add"@, "--detach"@, slot, commit])
}

/// Creates a worktree at a detached commit.
pub fn worktree_add(source: &str, slot: &str, commit: &str) -> (r: GitCommand)
    ensures
        r@ == worktree_add_command(source@, slot@, commit@),
{
    let args = ["worktree", "add", "--detach", slot, commit];
    assert(text::slices(args@) =~= seq!["worktree"@, "add"@, "--detach"@, slot@, commit@]);
    run(source, &args)
}

/// `worktree move <from> <to>`.
pub open spec fn worktree_move_command(
    source: Seq<char>,
    from: Seq<char>,
    to: Seq<char>,
) -> GitCommandView {
    command(source, seq!["worktree"@, "move"@, from, to])
}

/// Moves a worktree.
pub fn worktree_move(source: &str, from: &str, to: &str) -> (r: GitCommand)
    ensures
        r@ == worktree_move_command(source@, from@, to@),
{
    let args = ["worktree", "move", from, to];
    assert(text::slices(args@) =~= seq!["worktree"@, "move"@, from@, to@]);
    run(source, &args)
}

/// `worktree remove --force <slot>`.
pub open spec fn worktree_remove_command(source: Seq<char>, slot: Seq<char>) -> GitCommandView {
    command(source, seq!["worktree"@, "remove"@, "--force"@, slot])
}

/// Removes a worktree. Best-effort.
pub fn worktree_remove(source: &str, slot: &str) -> (r: GitCommand)
    ensures
        r@ == worktree_remove_command(source@, slot@),
{
    let args = ["worktree", "remove", "--force", slot];
    assert(text::slices(args@) =~= seq!["worktree"@, "remove"@, "--force"@, slot@]);
    run_lenient(source, &args)
}

/// `reset --hard <commit>`.
pub open spec fn reset_hard_command(slot: Seq<char>, commit: Seq<char>) -> GitCommandView {
    command(slot, seq!["reset"@, "--hard"@, commit])
}

/// Pins a slot's tree to a commit.
pub fn reset_hard(slot: &str, commit: &str) -> (r: GitCommand)
    ensures
        r@ == reset_hard_command(slot@, commit@),
{
    let args = ["reset", "--hard", commit];
    assert(text::slices(args@) =~= seq!["reset"@, "--hard"@, commit@]);
    run(slot, &args)
}

/// The ref of a branch.
pub open spec fn branch_ref(name: Seq<char>) -> Seq<char> {
    "refs/heads/"@ + name
}

fn ref_of(name: &str) -> (r: String)
    ensures
        r@ == branch_ref(name@),
{
    let mut r = text::own("refs/heads/");
    r.append(name);
    r
}

/// `update-ref refs/heads/<name> HEAD`.
pub open spec fn branch_at_head_command(slot: Seq<char>, name: Seq<char>) -> GitCommandView {
    command(slot, seq!["update-ref"@, branch_ref(name), "HEAD"@])
}

/// `symbolic-ref -m "worktree-pool acquire" HEAD refs/heads/<name>`.
pub open spec fn attach_head_command(slot: Seq<char>, name: Seq<char>) -> GitCommandView {
    command(
        slot,
        seq!["symbolic-ref"@, "-m"@, "worktree-pool acquire"@, "HEAD"@, branch_ref(name)],
    )
}

/// Creates a branch at `HEAD`, over one of that name, and puts `HEAD` on it. Two
/// commands, the second only after the first succeeded. Neither touches the tree.
pub fn checkout_force_branch(slot: &str, name: &str) -> (r: (GitCommand, GitCommand))
    ensures
        r.0@ == branch_at_head_command(slot@, name@),
        r.1@ == attach_head_command(slot@, name@),
{
    let full = ref_of(name);
    let first = ["update-ref", full.as_str(), "HEAD"];
    assert(text::slices(first@) =~= seq!["update-ref"@, full@, "HEAD"@]);
    let second = ["symbolic-ref", "-m", "worktree-pool acquire", "HEAD", full.as_str()];
    assert(text::slices(second@) =~= seq![
        "symbolic-ref"@,
        "-m"@,
        "worktree-pool acquire"@,
        "HEAD"@,
        full@,
    ]);
    (run(slot, &first), run(slot, &second))
}

/// `checkout --detach`.
pub open spec fn checkout_detach_command(slot: Seq<char>) -> GitCommandView {
    command(slot, seq!["checkout"@, "--detach"@])
}

/// Detaches `HEAD` by a checkout.
pub fn checkout_detach(slot: &str) -> (r: GitCommand)
    ensures
        r@ == checkout_detach_command(slot@),
{
    let args = ["checkout", "--detach"];
    assert(text::slices(args@) =~= seq!["checkout"@, "--detach"@]);
    run_lenient(slot, &args)
}

/// `rev-parse HEAD`.
pub open spec fn head_sha_command(slot: Seq<char>) -> GitCommandView {
    command(slot, seq!["rev-parse"@, "HEAD"@])
}

/// Asks for the commit that `HEAD` names.
pub fn head_sha(slot: &str) -> (r: GitCommand)
    ensures
        r@ == head_sha_command(slot@),
{
    let args = ["rev-parse", "HEAD"];
    assert(text::slices(args@) =~= seq!["rev-parse"@, "HEAD"@]);
    run(slot, &args)
}

/// `update-ref --no-deref HEAD <sha>`.
pub open spec fn detach_head_command(slot: Seq<char>, sha: Seq<char>) -> GitCommandView {
    command(slot, seq!["update-ref"@, "--no-deref"@, "HEAD"@, sha])
}

/// Detaches `HEAD` at the commit that `head_sha` found. Touches refs only, never
/// the index.
pub fn detach_head(slot: &str, sha: &str) -> (r: GitCommand)
    ensures
        r@ == detach_head_command(slot@, sha@),
{
    let args = ["update-ref", "--no-deref", "HEAD", sha];
    assert(text::slices(args@) =~= seq!["update-ref"@, "--no-deref"@, "HEAD"@, sha@]);
    run_lenient(slot, &args)
}

/// `branch -D <name>`.
pub open spec fn branch_delete_command(slot: Seq<char>, name: Seq<char>) -> GitCommandView {
    command(slot, seq!["branch"@, "-D"@, name])
}

/// Best-effort branch delete.
pub fn branch_delete(slot: &str, name: &str) -> (r: GitCommand)
    ensures
        r@ == branch_delete_command(slot@, name@),
{
    let args = ["branch", "-D", name];
    assert(text::slices(args@) =~= seq!["branch"@, "-D"@, name@]);
    run_lenient(slot, &args)
}

/// `push <remote> --delete <name>`.
pub open spec fn push_delete_command(
    slot: Seq<char>,
    remote: Seq<char>,
    name: Seq<char>,
) -> GitCommandView {
    command(slot, seq!["push"@, remote, "--delete"@, name])
}

/// Best-effort remote branch delete.
pub fn push_delete(slot: &str, remote: &str, name: &str) -> (r: GitCommand)
    ensures
        r@ == push_delete_command(slot@, remote@, name@),
{
    let args = ["push", remote, "--delete", name];
    assert(text::slices(args@) =~= seq!["push"@, remote@, "--delete"@, name@]);
    run_lenient(slot, &args)
}

/// `ls-files --others --exclude-standard -z`.
pub open spec fn untracked_command(dir: Seq<char>) -> GitCommandView {
    command(dir, seq!["ls-files"@, "--others"@, "--exclude-standard"@, "-z"@])
}

/// Lists untracked paths. A repository inside the tree is listed as one path with a
/// trailing slash.
pub fn untracked(dir: &str) -> (r: GitCommand)
    ensures
        r@ == untracked_command(dir@),
{
    let args = ["ls-files", "--others", "--exclude-standard", "-z"];
    assert(text::slices(args@) =~= seq!["ls-files"@, "--others"@, "--exclude-standard"@, "-z"@]);
    run(dir, &args)
}

// ---------------------------------------------------------------------------
// Laws
// ---------------------------------------------------------------------------

/// A `HEAD` that holds a bare commit is idle: a commit's text is not empty and does
/// not begin like a ref.
pub proof fn detached_is_idle(head: Seq<char>)
    requires
        head.len() > 0,
        !"ref:"@.is_prefix_of(head),
    ensures
        !head_holds(Some(head)),
{
}

} // verus!
