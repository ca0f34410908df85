//! A model of the refs that the pool's git commands work on: what `HEAD` names in each
//! checkout, and which branches there are. The laws of whole runs are stated over it.
use crate::effect::{Action, Reply, Turn};
use crate::fs_paths;
use crate::git;
use crate::git::{GitCommandView, GitReply};
use crate::slot;
use crate::submodules;
use vstd::prelude::*;

verus! {

/// A `HEAD`: the branch that it is on, none where it is detached, and the commit that it
/// comes to.
pub struct Head {
    pub branch: Option<Seq<char>>,
    pub commit: Seq<char>,
}

/// The refs of a pool. A checkout is known by its path; checkouts of one repository share
/// its branches.
pub struct Refs {
    pub repo: spec_fn(Seq<char>) -> Seq<char>,
    pub heads: Map<Seq<char>, Head>,
    /// Repository and name.
    pub branches: Set<(Seq<char>, Seq<char>)>,
    /// How git shows a branch: by its name, or with `heads/` in front where a tag has the
    /// name too.
    pub shown: spec_fn(Seq<char>) -> Seq<char>,
    /// The `HEAD` that `submodule update` gives a submodule, by its path, from the one that
    /// it had.
    pub fetched: spec_fn(Seq<char>, Option<Head>) -> Head,
}

/// The `HEAD` of a checkout, where there is one.
pub open spec fn head_at(w: Refs, path: Seq<char>) -> Option<Head> {
    if w.heads.contains_key(path) {
        Some(w.heads[path])
    } else {
        None
    }
}

/// The text of a `HEAD`.
pub open spec fn head_text(h: Head) -> Seq<char> {
    match h.branch {
        Some(b) => slot::attached_head(b),
        None => h.commit + "\n"@,
    }
}

/// The branch that git shows of a `HEAD`.
pub open spec fn lease_of(w: Refs, h: Head) -> Option<Seq<char>> {
    match h.branch {
        Some(b) => Some((w.shown)(b)),
        None => None,
    }
}

/// A hexadecimal digit.
pub open spec fn is_hex(c: char) -> bool {
    '0' <= c <= '9' || 'a' <= c <= 'f'
}

/// The name of a commit.
pub open spec fn is_commit(sha: Seq<char>) -> bool {
    sha.len() > 0 && forall|i: int| 0 <= i < sha.len() ==> is_hex(#[trigger] sha[i])
}

/// The name of the branch that a ref is.
pub open spec fn branch_of(name: Seq<char>) -> Seq<char> {
    name.skip("refs/heads/"@.len() as int)
}

/// What a git command asks for, as far as it concerns refs.
pub enum Order {
    /// The commit of `HEAD`.
    AskHead,
    /// A branch at `HEAD`.
    CreateBranch(Seq<char>),
    /// `HEAD` on a branch.
    AttachHead(Seq<char>),
    /// `HEAD` at a commit.
    DetachHead(Seq<char>),
    /// A branch gone.
    DeleteBranch(Seq<char>),
    /// The submodule at a path of the checkout at its commit.
    Fetch(Seq<char>),
    /// None of these. The runs that the laws speak of have no such command that changes a
    /// local ref.
    Other,
}

/// What a git command asks for.
#[verifier::opaque]
pub open spec fn order_of(c: GitCommandView) -> Order {
    if c == git::head_sha_command(c.cwd) {
        Order::AskHead
    } else if c == git::branch_at_head_command(c.cwd, branch_of(c.args[1])) {
        Order::CreateBranch(branch_of(c.args[1]))
    } else if c == git::attach_head_command(c.cwd, branch_of(c.args[4])) {
        Order::AttachHead(branch_of(c.args[4]))
    } else if c == git::detach_head_command(c.cwd, c.args[3]) {
        Order::DetachHead(c.args[3])
    } else if c == git::branch_delete_command(c.cwd, c.args[2]) {
        Order::DeleteBranch(c.args[2])
    } else if c == submodules::fetch_command(c.cwd, c.args[2]) {
        Order::Fetch(c.args[2])
    } else {
        Order::Other
    }
}

/// Whether a git command succeeded.
pub open spec fn succeeded(r: GitReply) -> bool {
    r matches GitReply::Finished(o) && o.success
}

/// What a git command leaves of the refs. One that fails changes none. `HEAD` is put only
/// on a branch that was created at it, so its commit stays.
pub open spec fn after_git(w: Refs, c: GitCommandView, r: GitReply) -> Refs {
    if succeeded(r) {
        match order_of(c) {
            Order::CreateBranch(b) => Refs {
                branches: w.branches.insert(((w.repo)(c.cwd), b)),
                ..w
            },
            Order::AttachHead(b) => Refs {
                heads: w.heads.insert(
                    c.cwd,
                    Head { branch: Some(b), commit: w.heads[c.cwd].commit },
                ),
                ..w
            },
            Order::DetachHead(sha) => Refs {
                heads: w.heads.insert(c.cwd, Head { branch: None, commit: sha }),
                ..w
            },
            Order::DeleteBranch(b) => Refs {
                branches: w.branches.remove(((w.repo)(c.cwd), b)),
                ..w
            },
            Order::Fetch(sub) => {
                let path = fs_paths::path_in(c.cwd, sub);
                Refs { heads: w.heads.insert(path, (w.fetched)(path, head_at(w, path))), ..w }
            },
            Order::AskHead | Order::Other => w,
        }
    } else {
        w
    }
}

/// A command that git performed, with what came of it.
pub struct Performed {
    pub command: GitCommandView,
    pub reply: GitReply,
}

/// What the first `n` commands of a log leave of the refs.
pub open spec fn after_first(w: Refs, log: Seq<Performed>, n: nat) -> Refs
    decreases n,
{
    if n == 0 {
        w
    } else {
        let last = log[n - 1];
        after_git(after_first(w, log, (n - 1) as nat), last.command, last.reply)
    }
}

/// What a log leaves of the refs.
pub open spec fn after(w: Refs, log: Seq<Performed>) -> Refs {
    after_first(w, log, log.len())
}

/// The git command of a turn and its reply stand in the log at an index.
pub open spec fn stands_at(log: Seq<Performed>, at: int, turn: Turn, reply: Reply) -> bool {
    &&& 0 <= at < log.len()
    &&& turn.action matches Action::Git(c)
    &&& reply matches Reply::Git(r)
    &&& log[at] == (Performed { command: c@, reply: r })
}

/// The git commands of a run stand in the log, in their order: that of turn `k` at
/// `at[k]`.
pub open spec fn logged(
    log: Seq<Performed>,
    at: Seq<int>,
    turns: Seq<Turn>,
    replies: Seq<Reply>,
) -> bool {
    &&& at.len() == replies.len()
    &&& forall|k: int|
        0 <= k < replies.len() && (#[trigger] turns[k]).action is Git ==> stands_at(
            log,
            at[k],
            turns[k],
            replies[k],
        )
    &&& forall|j: int, k: int|
        0 <= j < k < replies.len() && (#[trigger] turns[j]).action is Git && (
        #[trigger] turns[k]).action is Git ==> at[j] < at[k]
}

/// The command at an index of the log is that of a step of the run itself.
pub open spec fn is_step_at(turns: Seq<Turn>, replies: Seq<Reply>, at: Seq<int>, i: int) -> bool {
    exists|k: int|
        0 <= k < replies.len() && (#[trigger] turns[k]).action is Git && at[k] == i
}

/// Git answers a command as it does where nothing stands in its way. In a checkout,
/// `rev-parse HEAD` prints the commit of `HEAD`, `HEAD` can be detached, and a branch that
/// is there can be deleted. Where there is no checkout, they fail.
pub open spec fn obliges(w: Refs, c: GitCommandView, r: GitReply) -> bool {
    let known = w.heads.contains_key(c.cwd);
    match order_of(c) {
        Order::AskHead => match git::checked(c, r) {
            Ok(sha) => known && sha == w.heads[c.cwd].commit && is_commit(sha),
            Err(_) => !known,
        },
        Order::DetachHead(_) => succeeded(r) == known,
        Order::DeleteBranch(b) => {
            &&& succeeded(r) ==> known
            &&& known && !succeeded(r) ==> !w.branches.contains(((w.repo)(c.cwd), b))
        },
        _ => true,
    }
}

/// Git obliges with every command of a log.
pub open spec fn obliging(w: Refs, log: Seq<Performed>) -> bool {
    forall|i: int|
        0 <= i < log.len() ==> obliges(
            after_first(w, log, i as nat),
            (#[trigger] log[i]).command,
            log[i].reply,
        )
}

/// Every `HEAD` comes to a commit.
pub open spec fn is_sound(w: Refs) -> bool {
    forall|p: Seq<char>| w.heads.contains_key(p) ==> is_commit((#[trigger] w.heads[p]).commit)
}

/// A branch is gone from a checkout: its `HEAD` is detached, and its repository has no
/// branch of that name.
pub open spec fn gone(w: Refs, path: Seq<char>, branch: Seq<char>) -> bool {
    &&& w.heads.contains_key(path)
    &&& w.heads[path].branch is None
    &&& !w.branches.contains(((w.repo)(path), branch))
}

/// A checkout is on a branch that its repository has.
pub open spec fn is_on_branch(w: Refs, path: Seq<char>, branch: Seq<char>) -> bool {
    &&& w.heads.contains_key(path)
    &&& w.heads[path].branch == Some(branch)
    &&& w.branches.contains(((w.repo)(path), branch))
}

/// What each command asks for.
pub proof fn lemma_orders(path: Seq<char>, name: Seq<char>)
    ensures
        order_of(git::head_sha_command(path)) == Order::AskHead,
        order_of(git::branch_at_head_command(path, name)) == Order::CreateBranch(name),
        order_of(git::attach_head_command(path, name)) == Order::AttachHead(name),
        order_of(git::detach_head_command(path, name)) == Order::DetachHead(name),
        order_of(git::branch_delete_command(path, name)) == Order::DeleteBranch(name),
        order_of(git::push_delete_command(path, "origin"@, name)) == Order::Other,
        order_of(git::config_file_list_command(path, name)) == Order::Other,
        order_of(submodules::fetch_command(path, name)) == Order::Fetch(name),
        order_of(git::git_dir_command(path)) == Order::Other,
        order_of(submodules::deinit_command(path, name)) == Order::Other,
{
    reveal(order_of);
    reveal_strlit("update-ref");
    reveal_strlit("branch");
    reveal_strlit("push");
    reveal_strlit("config");
    reveal_strlit("submodule");
    reveal_strlit("--git-dir");
    reveal_strlit("HEAD");
    reveal_strlit("refs/heads/");
    assert(branch_of(git::branch_ref(name)) =~= name);
    let ask = git::head_sha_command(path);
    let create = git::branch_at_head_command(path, name);
    let attach = git::attach_head_command(path, name);
    let detach = git::detach_head_command(path, name);
    let delete = git::branch_delete_command(path, name);
    let push = git::push_delete_command(path, "origin"@, name);
    let list = git::config_file_list_command(path, name);
    assert(ask.args.len() == 2);
    assert(create.args.len() == 3 && create.args[0] == "update-ref"@ && create.args[1]
        == git::branch_ref(name));
    assert(attach.args.len() == 5 && attach.args[4] == git::branch_ref(name));
    assert(detach.args.len() == 4 && detach.args[0] == "update-ref"@ && detach.args[3] == name);
    assert(delete.args.len() == 3 && delete.args[0] == "branch"@ && delete.args[2] == name);
    assert(push.args.len() == 4 && push.args[0] == "push"@);
    assert(list.args.len() == 4 && list.args[0] == "config"@);
    let fetch = submodules::fetch_command(path, name);
    let dir = git::git_dir_command(path);
    let deinit = submodules::deinit_command(path, name);
    assert(fetch.args.len() == 3 && fetch.args[0] == "submodule"@ && fetch.args[2] == name);
    assert(fetch.overrides.len() == 1);
    assert(dir.args.len() == 2 && dir.args[1] == "--git-dir"@ && ask.args[1] == "HEAD"@);
    assert(deinit.args.len() == 4 && deinit.args[0] == "submodule"@);
    assert("update-ref"@.len() == 10 && "branch"@.len() == 6 && "push"@.len() == 4
        && "config"@.len() == 6 && "submodule"@.len() == 9 && "--git-dir"@.len() == 9
        && "HEAD"@.len() == 4);
    lemma_words(create);
    lemma_words(attach);
    lemma_words(detach);
    lemma_words(delete);
    lemma_words(push);
    lemma_words(list);
    lemma_words(ask);
    lemma_words(fetch);
    lemma_words(dir);
    lemma_words(deinit);
}

/// Registering a URL concerns no ref.
pub proof fn lemma_register_order(path: Seq<char>, name: Seq<char>, url: Seq<char>)
    ensures
        order_of(submodules::register_command(path, name, url)) == Order::Other,
{
    reveal(order_of);
    reveal_strlit("update-ref");
    reveal_strlit("branch");
    reveal_strlit("config");
    let c = submodules::register_command(path, name, url);
    assert(c.args.len() == 3 && c.args[0] == "config"@);
    assert("update-ref"@.len() == 10 && "branch"@.len() == 6 && "config"@.len() == 6);
    assert(c.args[0][0] == 'c' && "branch"@[0] == 'b');
    assert(c.overrides.len() == 0);
    lemma_words(c);
}

/// How many words the commands have that a command is held against, and their first.
proof fn lemma_words(c: GitCommandView)
    ensures
        git::head_sha_command(c.cwd).args.len() == 2,
        git::branch_at_head_command(c.cwd, branch_of(c.args[1])).args.len() == 3,
        git::branch_at_head_command(c.cwd, branch_of(c.args[1])).args[0] == "update-ref"@,
        git::attach_head_command(c.cwd, branch_of(c.args[4])).args.len() == 5,
        git::detach_head_command(c.cwd, c.args[3]).args.len() == 4,
        git::detach_head_command(c.cwd, c.args[3]).args[0] == "update-ref"@,
        git::branch_delete_command(c.cwd, c.args[2]).args.len() == 3,
        git::branch_delete_command(c.cwd, c.args[2]).args[0] == "branch"@,
        submodules::fetch_command(c.cwd, c.args[2]).overrides.len() == 1,
        submodules::fetch_command(c.cwd, c.args[2]).args.len() == 3,
        git::head_sha_command(c.cwd).args[1] == "HEAD"@,
{
}

/// The text of a `HEAD` is that of a held slot exactly where it is on a branch.
pub proof fn text_tells_held(h: Head)
    requires
        is_commit(h.commit),
    ensures
        git::head_holds(Some(head_text(h))) <==> h.branch is Some,
{
    match h.branch {
        Some(b) => {
            slot::attached_is_held(b);
        },
        None => {
            reveal_strlit("ref:");
            let t = head_text(h);
            assert(t[0] == h.commit[0] && is_hex(h.commit[0]));
            if "ref:"@.is_prefix_of(t) {
                assert("ref:"@[0] == t[0]);
            }
            git::detached_is_idle(t);
        },
    }
}

// ---------------------------------------------------------------------------
// Tidying
// ---------------------------------------------------------------------------

/// `rev-parse HEAD` showed this commit.
pub open spec fn asked(log: Seq<Performed>, i: int, path: Seq<char>, sha: Seq<char>) -> bool {
    &&& log[i].command.cwd == path
    &&& order_of(log[i].command) is AskHead
    &&& git::checked(log[i].command, log[i].reply) == Ok::<Seq<char>, Seq<char>>(sha)
}

/// `rev-parse HEAD` showed this commit before the command at an index.
pub open spec fn asked_before(log: Seq<Performed>, i: int, path: Seq<char>, sha: Seq<char>) -> bool {
    exists|j: int| 0 <= j < i && #[trigger] asked(log, j, path, sha)
}

/// The command at an index takes part in taking a branch away from a checkout: it asks
/// for the commit of `HEAD`, detaches `HEAD` at a commit that was asked for before, or
/// deletes the branch.
pub open spec fn tidies(log: Seq<Performed>, i: int, path: Seq<char>, branch: Seq<char>) -> bool {
    &&& log[i].command.cwd == path
    &&& match order_of(log[i].command) {
        Order::AskHead => true,
        Order::DetachHead(sha) => asked_before(log, i, path, sha),
        Order::DeleteBranch(b) => b == branch,
        _ => false,
    }
}

/// Every command of the log takes part in taking a branch away from a checkout, or does
/// not concern local refs.
pub open spec fn only_tidies(log: Seq<Performed>, branch: Seq<char>) -> bool {
    forall|i: int|
        0 <= i < log.len() ==> order_of((#[trigger] log[i]).command) is Other || tidies(
            log,
            i,
            log[i].command.cwd,
            branch,
        )
}

/// What tidying leaves as it was: which checkouts there are, the commit that each is at,
/// and other branches. It puts no `HEAD` on a branch and makes no branch.
pub open spec fn tidied(w: Refs, v: Refs, branch: Seq<char>) -> bool {
    &&& v.repo == w.repo
    &&& v.shown == w.shown
    &&& v.heads.dom() == w.heads.dom()
    &&& forall|p: Seq<char>|
        w.heads.contains_key(p) ==> (#[trigger] w.heads[p]).commit == v.heads[p].commit && (
        v.heads[p].branch is Some ==> v.heads[p].branch == w.heads[p].branch)
    &&& forall|r: Seq<char>, b: Seq<char>| #[trigger]
        v.branches.contains((r, b)) ==> w.branches.contains((r, b))
    &&& forall|r: Seq<char>, b: Seq<char>|
        b != branch && #[trigger] w.branches.contains((r, b)) ==> v.branches.contains((r, b))
}

/// What the first commands of a log that only tidies leave.
pub proof fn lemma_tidied(w: Refs, log: Seq<Performed>, branch: Seq<char>, n: nat)
    requires
        only_tidies(log, branch),
        obliging(w, log),
        n <= log.len(),
    ensures
        tidied(w, after_first(w, log, n), branch),
    decreases n,
{
    if n > 0 {
        let m = (n - 1) as nat;
        let i = m as int;
        let mid = after_first(w, log, m);
        let c = log[i].command;
        lemma_tidied(w, log, branch, m);
        assert(obliges(mid, c, log[i].reply));
        if let Order::DetachHead(sha) = order_of(c) {
            let j = choose|j: int| 0 <= j < i && #[trigger] asked(log, j, c.cwd, sha);
            lemma_tidied(w, log, branch, j as nat);
            let then = after_first(w, log, j as nat);
            assert(obliges(then, log[j].command, log[j].reply));
            assert(then.heads.dom().contains(c.cwd) == w.heads.dom().contains(c.cwd));
        }
        assert(mid.heads.dom().contains(c.cwd) == w.heads.dom().contains(c.cwd));
        assert(after_first(w, log, n).heads.dom() =~= w.heads.dom());
    }
}

/// What a log that only tidies has done stays done: from the command that deletes the
/// branch, or detaches a `HEAD`, to the end.
pub proof fn lemma_stays_tidy(w: Refs, log: Seq<Performed>, branch: Seq<char>, d: int, n: nat)
    requires
        only_tidies(log, branch),
        obliging(w, log),
        0 <= d < n <= log.len(),
        w.heads.contains_key(log[d].command.cwd),
    ensures
        order_of(log[d].command) == Order::DeleteBranch(branch) ==> !after_first(
            w,
            log,
            n,
        ).branches.contains(((w.repo)(log[d].command.cwd), branch)),
        order_of(log[d].command) is DetachHead ==> after_first(
            w,
            log,
            n,
        ).heads[log[d].command.cwd].branch is None,
    decreases n,
{
    let m = (n - 1) as nat;
    let i = m as int;
    let mid = after_first(w, log, m);
    lemma_tidied(w, log, branch, m);
    assert(obliges(mid, log[i].command, log[i].reply));
    assert(mid.heads.dom().contains(log[d].command.cwd));
    assert(order_of(log[i].command) is Other || tidies(log, i, log[i].command.cwd, branch));
    if d < i {
        lemma_stays_tidy(w, log, branch, d, m);
    }
}

/// Tidying where the branch is gone already changes nothing.
pub proof fn lemma_nothing_to_tidy(w: Refs, log: Seq<Performed>, branch: Seq<char>, n: nat)
    requires
        only_tidies(log, branch),
        obliging(w, log),
        n <= log.len(),
        forall|i: int|
            0 <= i < log.len() && !(order_of((#[trigger] log[i]).command) is Other)
                && w.heads.contains_key(log[i].command.cwd) ==> gone(
                w,
                log[i].command.cwd,
                branch,
            ),
    ensures
        after_first(w, log, n) == w,
    decreases n,
{
    if n > 0 {
        let m = (n - 1) as nat;
        let i = m as int;
        let c = log[i].command;
        lemma_nothing_to_tidy(w, log, branch, m);
        assert(obliges(w, c, log[i].reply));
        if let Order::DetachHead(sha) = order_of(c) {
            let j = choose|j: int| 0 <= j < i && #[trigger] asked(log, j, c.cwd, sha);
            lemma_nothing_to_tidy(w, log, branch, j as nat);
            assert(obliges(w, log[j].command, log[j].reply));
            if w.heads.contains_key(c.cwd) {
                let h = Head { branch: None, commit: sha };
                assert(w.heads.insert(c.cwd, h) =~= w.heads);
            }
        } else if order_of(c) is DeleteBranch && w.heads.contains_key(c.cwd) {
            assert(w.branches.remove(((w.repo)(c.cwd), branch)) =~= w.branches);
        }
    }
}

/// What `rev-parse HEAD` shows is a commit.
pub open spec fn names_commits(log: Seq<Performed>) -> bool {
    forall|i: int, path: Seq<char>, sha: Seq<char>|
        0 <= i < log.len() && #[trigger] asked(log, i, path, sha) ==> is_commit(sha)
}

/// Whatever git says of its commands, tidying puts no `HEAD` on a branch.
pub proof fn lemma_attaches_nothing(w: Refs, log: Seq<Performed>, branch: Seq<char>, n: nat)
    requires
        only_tidies(log, branch),
        names_commits(log),
        n <= log.len(),
        is_sound(w),
    ensures
        is_sound(after_first(w, log, n)),
        after_first(w, log, n).shown == w.shown,
        forall|p: Seq<char>| #[trigger]
            after_first(w, log, n).heads.contains_key(p) && after_first(
                w,
                log,
                n,
            ).heads[p].branch is Some ==> w.heads.contains_key(p) && w.heads[p] == after_first(
                w,
                log,
                n,
            ).heads[p],
    decreases n,
{
    if n > 0 {
        let m = (n - 1) as nat;
        let c = log[m as int].command;
        lemma_attaches_nothing(w, log, branch, m);
        assert(order_of(c) is Other || tidies(log, m as int, c.cwd, branch));
    }
}

/// A `HEAD` that was detached stays detached.
pub proof fn lemma_stays_detached(w: Refs, log: Seq<Performed>, branch: Seq<char>, d: int, n: nat)
    requires
        only_tidies(log, branch),
        0 <= d < n <= log.len(),
        order_of(log[d].command) is DetachHead,
        succeeded(log[d].reply),
    ensures
        after_first(w, log, n).heads.contains_key(log[d].command.cwd),
        after_first(w, log, n).heads[log[d].command.cwd].branch is None,
    decreases n,
{
    let m = (n - 1) as nat;
    let c = log[m as int].command;
    assert(order_of(c) is Other || tidies(log, m as int, c.cwd, branch));
    if d < m {
        lemma_stays_detached(w, log, branch, d, m);
    }
}

/// Tidying changes a `HEAD` only by a command in its checkout.
pub proof fn lemma_head_untouched(
    w: Refs,
    log: Seq<Performed>,
    branch: Seq<char>,
    path: Seq<char>,
    n: nat,
)
    requires
        only_tidies(log, branch),
        n <= log.len(),
        forall|i: int|
            0 <= i < log.len() && (#[trigger] log[i]).command.cwd == path ==> order_of(
                log[i].command,
            ) is Other,
    ensures
        after_first(w, log, n).heads.contains_key(path) == w.heads.contains_key(path),
        w.heads.contains_key(path) ==> after_first(w, log, n).heads[path] == w.heads[path],
    decreases n,
{
    if n > 0 {
        lemma_head_untouched(w, log, branch, path, (n - 1) as nat);
        let c = log[n - 1].command;
        assert(c.cwd == path ==> order_of(c) is Other);
        assert(order_of(c) is Other || tidies(log, n - 1, c.cwd, branch));
    }
}

/// A repository's branches change only by a command in a checkout of it.
pub proof fn lemma_branches_untouched(w: Refs, log: Seq<Performed>, repo: Seq<char>, n: nat)
    requires
        n <= log.len(),
        forall|i: int|
            0 <= i < log.len() && (w.repo)((#[trigger] log[i]).command.cwd) == repo ==> order_of(
                log[i].command,
            ) is Other,
    ensures
        after_first(w, log, n).repo == w.repo,
        forall|b: Seq<char>| #[trigger]
            after_first(w, log, n).branches.contains((repo, b)) == w.branches.contains((repo, b)),
    decreases n,
{
    if n > 0 {
        lemma_branches_untouched(w, log, repo, (n - 1) as nat);
        assert((w.repo)(log[n - 1].command.cwd) == repo ==> order_of(log[n - 1].command) is Other);
    }
}

// ---------------------------------------------------------------------------
// Branching
// ---------------------------------------------------------------------------

/// The command at an index put the `HEAD` of a checkout on a branch.
pub open spec fn attaches_at(
    log: Seq<Performed>,
    i: int,
    path: Seq<char>,
    branch: Seq<char>,
) -> bool {
    &&& log[i].command.cwd == path
    &&& order_of(log[i].command) == Order::AttachHead(branch)
    &&& succeeded(log[i].reply)
}

/// The checkout's `HEAD` is put on a branch after the command at an index.
pub open spec fn attached_after(
    log: Seq<Performed>,
    i: int,
    path: Seq<char>,
    branch: Seq<char>,
) -> bool {
    exists|j: int| i < j < log.len() && #[trigger] attaches_at(log, j, path, branch)
}

/// The command at an index takes part in putting submodules on a branch: it creates the
/// branch, puts a `HEAD` on it, or fetches a submodule whose `HEAD` is put on it later.
pub open spec fn takes_part(log: Seq<Performed>, i: int, branch: Seq<char>) -> bool {
    let c = log[i].command;
    match order_of(c) {
        Order::CreateBranch(b) => b == branch,
        Order::AttachHead(b) => b == branch,
        Order::Fetch(sub) => attached_after(log, i, fs_paths::path_in(c.cwd, sub), branch),
        _ => false,
    }
}

/// Every command of the log takes part in putting submodules on a branch, or does not
/// concern refs.
pub open spec fn only_branches(log: Seq<Performed>, branch: Seq<char>) -> bool {
    forall|i: int|
        0 <= i < log.len() ==> order_of((#[trigger] log[i]).command) is Other || takes_part(
            log,
            i,
            branch,
        )
}

/// A `HEAD` that was put on the branch is on it at the end.
pub proof fn lemma_ends_attached(
    w: Refs,
    log: Seq<Performed>,
    branch: Seq<char>,
    path: Seq<char>,
    k: int,
)
    requires
        only_branches(log, branch),
        0 <= k < log.len(),
        attaches_at(log, k, path, branch),
    ensures
        after(w, log).heads.contains_key(path),
        after(w, log).heads[path].branch == Some(branch),
    decreases log.len() - k,
{
    if attached_after(log, k, path, branch) {
        let j = choose|j: int| k < j < log.len() && #[trigger] attaches_at(log, j, path, branch);
        lemma_ends_attached(w, log, branch, path, j);
    } else {
        lemma_last_attach_stays(w, log, branch, path, k, log.len());
    }
}

proof fn lemma_last_attach_stays(
    w: Refs,
    log: Seq<Performed>,
    branch: Seq<char>,
    path: Seq<char>,
    k: int,
    n: nat,
)
    requires
        only_branches(log, branch),
        0 <= k < n <= log.len(),
        attaches_at(log, k, path, branch),
        !attached_after(log, k, path, branch),
    ensures
        after_first(w, log, n).heads.contains_key(path),
        after_first(w, log, n).heads[path].branch == Some(branch),
    decreases n,
{
    let i = n - 1;
    let c = log[i].command;
    assert(order_of(c) is Other || takes_part(log, i, branch));
    if k < i {
        lemma_last_attach_stays(w, log, branch, path, k, (n - 1) as nat);
        if let Order::Fetch(sub) = order_of(c) {
            if fs_paths::path_in(c.cwd, sub) == path {
                let j = choose|j: int| i < j < log.len() && #[trigger] attaches_at(log, j, path, branch);
                assert(k < j < log.len() && attaches_at(log, j, path, branch));
            }
        }
    }
}

/// A branch that was created is there at the end.
pub proof fn lemma_ends_created(w: Refs, log: Seq<Performed>, branch: Seq<char>, d: int, n: nat)
    requires
        only_branches(log, branch),
        0 <= d < n <= log.len(),
        order_of(log[d].command) == Order::CreateBranch(branch),
        succeeded(log[d].reply),
    ensures
        after_first(w, log, n).repo == w.repo,
        after_first(w, log, n).branches.contains(((w.repo)(log[d].command.cwd), branch)),
    decreases n,
{
    lemma_repo_stays(w, log, (n - 1) as nat);
    let c = log[n - 1].command;
    assert(order_of(c) is Other || takes_part(log, n - 1, branch));
    if d < n - 1 {
        lemma_ends_created(w, log, branch, d, (n - 1) as nat);
    }
}

/// No command moves a checkout to another repository.
pub proof fn lemma_repo_stays(w: Refs, log: Seq<Performed>, n: nat)
    ensures
        after_first(w, log, n).repo == w.repo,
        after_first(w, log, n).shown == w.shown,
    decreases n,
{
    if n > 0 {
        lemma_repo_stays(w, log, (n - 1) as nat);
    }
}

} // verus!
