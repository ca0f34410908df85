//! Host-level health check. Needs no pool. Reports sections of checks, each with a name,
//! a status and a message.
use crate::config::PoolConfig;
use crate::error;
use crate::error::Error;
use crate::git;
use crate::git::GitReply;
use crate::output;
use crate::output::{Failure, Json, Outcome, Output};
use crate::text;
use vstd::prelude::*;

verus! {

/// How a check came out.
#[derive(Debug, Clone, Copy, PartialEq, Eq, Structural)]
pub enum Status {
    Good,
    Warn,
    Bad,
}

/// How a status is reported.
pub open spec fn status_name(s: Status) -> Seq<char> {
    match s {
        Status::Good => "ok"@,
        Status::Warn => "warn"@,
        Status::Bad => "error"@,
    }
}

impl Status {
    /// How the status is reported.
    pub fn as_str(self) -> (r: &'static str)
        ensures
            r@ == status_name(self),
    {
        match self {
            Status::Good => "ok",
            Status::Warn => "warn",
            Status::Bad => "error",
        }
    }
}

/// One check.
#[derive(Debug)]
pub struct Check {
    pub name: String,
    pub status: Status,
    /// A fix goes in the message as `message → fix`.
    pub message: String,
}

/// One check, as text.
#[verifier::ext_equal]
pub struct CheckView {
    pub name: Seq<char>,
    pub status: Status,
    pub message: Seq<char>,
}

impl View for Check {
    type V = CheckView;

    open spec fn view(&self) -> CheckView {
        CheckView { name: self.name@, status: self.status, message: self.message@ }
    }
}

/// Checks as text.
pub open spec fn check_views(v: Seq<Check>) -> Seq<CheckView> {
    v.map_values(|c: Check| c@)
}

fn check(name: &str, status: Status, message: String) -> (r: Check)
    ensures
        r@ == (CheckView { name: name@, status, message: message@ }),
{
    Check { name: text::own(name), status, message }
}

// ---------------------------------------------------------------------------
// The checks
// ---------------------------------------------------------------------------

/// Only one platform is tested.
pub open spec fn arch_check(os: Seq<char>, arch: Seq<char>) -> CheckView {
    let host = os + "/"@ + arch;
    if os == "macos"@ && arch == "aarch64"@ {
        CheckView { name: "arch"@, status: Status::Good, message: host }
    } else {
        CheckView {
            name: "arch"@,
            status: Status::Warn,
            message: host + " — only macOS/aarch64 is tested"@,
        }
    }
}

/// Checks the platform.
pub fn check_arch(os: &str, arch: &str) -> (r: Check)
    ensures
        r@ == arch_check(os@, arch@),
{
    let mut host = text::own(os);
    host.append("/");
    host.append(arch);
    if text::same(os, "macos") && text::same(arch, "aarch64") {
        check("arch", Status::Good, host)
    } else {
        host.append(" — only macOS/aarch64 is tested");
        check("arch", Status::Warn, host)
    }
}

/// Git must be there and work.
pub open spec fn git_check(reply: GitReply) -> CheckView {
    match reply {
        GitReply::NotStarted(why) => CheckView {
            name: "git"@,
            status: Status::Bad,
            message: "git not found: "@ + why@,
        },
        GitReply::Finished(o) => if o.success {
            CheckView {
                name: "git"@,
                status: Status::Good,
                message: text::trimmed(o.stdout@),
            }
        } else {
            CheckView {
                name: "git"@,
                status: Status::Bad,
                message: "git --version exited "@ + o.status@ + ": "@ + text::trimmed(o.stderr@),
            }
        },
    }
}

/// Checks git, from what `git --version` gave.
pub fn check_git(reply: &GitReply) -> (r: Check)
    ensures
        r@ == git_check(*reply),
{
    match reply {
        GitReply::NotStarted(why) => {
            let mut m = text::own("git not found: ");
            m.append(why.as_str());
            check("git", Status::Bad, m)
        },
        GitReply::Finished(o) => {
            if o.success {
                check("git", Status::Good, text::own(text::trim(o.stdout.as_str())))
            } else {
                let mut m = text::own("git --version exited ");
                m.append(o.status.as_str());
                m.append(": ");
                m.append(text::trim(o.stderr.as_str()));
                check("git", Status::Bad, m)
            }
        },
    }
}

/// A warning about the program file's quarantine mark.
pub open spec fn quarantine_warning(message: Seq<char>) -> CheckView {
    CheckView { name: "binary quarantine"@, status: Status::Warn, message }
}

/// The program file must not carry a quarantine mark. `exe` is its path, or why that is
/// not known; `xattr` is what listing its attributes gave.
pub open spec fn quarantine_check(exe: Result<String, String>, xattr: GitReply) -> CheckView {
    match exe {
        Err(why) => quarantine_warning("can't resolve current_exe: "@ + why@),
        Ok(path) => match xattr {
            GitReply::NotStarted(why) => quarantine_warning("xattr not available: "@ + why@),
            GitReply::Finished(o) => if !o.success {
                quarantine_warning("xattr exited nonzero"@)
            } else if text::occurrence(o.stdout@, "com.apple.quarantine"@) is Some {
                quarantine_warning(
                    path@ + " has com.apple.quarantine → xattr -d com.apple.quarantine "@ + path@,
                )
            } else {
                CheckView {
                    name: "binary quarantine"@,
                    status: Status::Good,
                    message: "clean ("@ + path@ + ")"@,
                }
            },
        },
    }
}

/// Checks the program file, from what `xattr -l <exe>` gave.
pub fn check_quarantine(exe: &Result<String, String>, xattr: &GitReply) -> (r: Check)
    ensures
        r@ == quarantine_check(*exe, *xattr),
{
    let path = match exe {
        Err(why) => {
            let mut m = text::own("can't resolve current_exe: ");
            m.append(why.as_str());
            return check("binary quarantine", Status::Warn, m);
        },
        Ok(p) => p.as_str(),
    };
    match xattr {
        GitReply::NotStarted(why) => {
            let mut m = text::own("xattr not available: ");
            m.append(why.as_str());
            check("binary quarantine", Status::Warn, m)
        },
        GitReply::Finished(o) => {
            if !o.success {
                check("binary quarantine", Status::Warn, text::own("xattr exited nonzero"))
            } else if text::find_str(o.stdout.as_str(), "com.apple.quarantine").is_some() {
                let mut m = text::own(path);
                m.append(" has com.apple.quarantine → xattr -d com.apple.quarantine ");
                m.append(path);
                check("binary quarantine", Status::Warn, m)
            } else {
                let mut m = text::own("clean (");
                m.append(path);
                m.append(")");
                check("binary quarantine", Status::Good, m)
            }
        },
    }
}

/// The directory of all pools; it need not be there yet.
pub open spec fn pools_dir_check(dir: Seq<char>, there: bool, count: nat) -> CheckView {
    if there {
        CheckView {
            name: "pools dir"@,
            status: Status::Good,
            message: dir + " ("@ + text::decimal(count) + " pool(s))"@,
        }
    } else {
        CheckView {
            name: "pools dir"@,
            status: Status::Warn,
            message: dir + " not present — first init will create it"@,
        }
    }
}

/// Checks the directory of all pools.
pub fn check_pools_dir(dir: &str, there: bool, count: usize) -> (r: Check)
    ensures
        r@ == pools_dir_check(dir@, there, count as nat),
{
    let mut m = text::own(dir);
    if there {
        m.append(" (");
        m.append(text::to_decimal(count as u64).as_str());
        m.append(" pool(s))");
        check("pools dir", Status::Good, m)
    } else {
        m.append(" not present — first init will create it");
        check("pools dir", Status::Warn, m)
    }
}

/// What is known of an initialized pool.
#[derive(Debug)]
pub struct PoolFacts {
    pub key: String,
    /// What loading its config gave.
    pub config: Result<PoolConfig, Error>,
    pub source_exists: bool,
    /// The reply to `git::source_gitdir` on its source.
    pub gitdir: GitReply,
}

/// What is wrong with a pool: a config that does not load, a source that is missing or is
/// no git repo.
pub open spec fn pool_fault(p: PoolFacts) -> Option<Seq<char>> {
    match p.config {
        Err(e) => Some(p.key@ + ": config: "@ + e.message@),
        Ok(c) => if !p.source_exists {
            Some(p.key@ + ": source "@ + c@.source + " missing"@)
        } else if git::git_dir_found(c@.source, p.gitdir) is Err {
            Some(p.key@ + ": source "@ + c@.source + " is not a git repo"@)
        } else {
            None
        },
    }
}

/// What is wrong with the pools, in their order.
pub open spec fn pool_faults(pools: Seq<PoolFacts>) -> Seq<Seq<char>>
    decreases pools.len(),
{
    if pools.len() == 0 {
        seq![]
    } else {
        let before = pool_faults(pools.drop_last());
        match pool_fault(pools.last()) {
            Some(m) => before.push(m),
            None => before,
        }
    }
}

/// Faults below each other, indented.
pub open spec fn indented(faults: Seq<Seq<char>>) -> Seq<char>
    decreases faults.len(),
{
    if faults.len() == 0 {
        seq![]
    } else {
        indented(faults.drop_last()) + "\n      "@ + faults.last()
    }
}

/// Every pool must be healthy.
pub open spec fn pools_check(pools: Seq<PoolFacts>) -> CheckView {
    let faults = pool_faults(pools);
    if pools.len() == 0 {
        CheckView { name: "pools"@, status: Status::Good, message: "no pools initialized yet"@ }
    } else if faults.len() == 0 {
        CheckView {
            name: "pools"@,
            status: Status::Good,
            message: text::decimal(pools.len()) + " pool(s), all healthy"@,
        }
    } else {
        CheckView {
            name: "pools"@,
            status: Status::Warn,
            message: text::decimal(faults.len()) + "/"@ + text::decimal(pools.len())
                + " unhealthy:"@ + indented(faults),
        }
    }
}

fn find_fault(p: &PoolFacts) -> (r: Option<String>)
    ensures
        text::opt_text(r) == pool_fault(*p),
{
    let mut m = text::own(p.key.as_str());
    match &p.config {
        Err(e) => {
            m.append(": config: ");
            m.append(e.message.as_str());
            Some(m)
        },
        Ok(c) => {
            m.append(": source ");
            m.append(c.source.as_str());
            if !p.source_exists {
                m.append(" missing");
                Some(m)
            } else if git::gitdir_found(c.source.as_str(), &p.gitdir).is_err() {
                m.append(" is not a git repo");
                Some(m)
            } else {
                None
            }
        },
    }
}

/// Checks every initialized pool.
pub fn check_pools(pools: &Vec<PoolFacts>) -> (r: Check)
    ensures
        r@ == pools_check(pools@),
{
    let mut faults: Vec<String> = Vec::new();
    let mut i: usize = 0;
    assert(text::texts(faults@) =~= pool_faults(pools@.take(0)));
    while i < pools.len()
        invariant
            i <= pools.len(),
            text::texts(faults@) == pool_faults(pools@.take(i as int)),
        decreases pools.len() - i,
    {
        assert(pools@.take(i + 1).drop_last() =~= pools@.take(i as int));
        assert(pools@.take(i + 1).last() == pools@[i as int]);
        let ghost before = text::texts(faults@);
        if let Some(m) = find_fault(&pools[i]) {
            let ghost t = m@;
            faults.push(m);
            assert(text::texts(faults@) =~= before.push(t));
        }
        i = i + 1;
    }
    assert(pools@.take(i as int) =~= pools@);
    assert(text::texts(faults@).len() == faults@.len());
    if pools.len() == 0 {
        return check("pools", Status::Good, text::own("no pools initialized yet"));
    }
    if faults.len() == 0 {
        let mut m = text::to_decimal(pools.len() as u64);
        m.append(" pool(s), all healthy");
        return check("pools", Status::Good, m);
    }
    let mut m = text::to_decimal(faults.len() as u64);
    m.append("/");
    m.append(text::to_decimal(pools.len() as u64).as_str());
    m.append(" unhealthy:");
    let ghost head = m@;
    let ghost all = text::texts(faults@);
    let mut k: usize = 0;
    assert(m@ =~= head + indented(all.take(0)));
    while k < faults.len()
        invariant
            k <= faults.len(),
            all == text::texts(faults@),
            m@ == head + indented(all.take(k as int)),
        decreases faults.len() - k,
    {
        assert(all.take(k + 1).drop_last() =~= all.take(k as int));
        assert(all.take(k + 1).last() == faults@[k as int]@);
        m.append("\n      ");
        m.append(faults[k].as_str());
        assert(m@ =~= head + indented(all.take(k + 1)));
        k = k + 1;
    }
    assert(all.take(k as int) =~= all);
    check("pools", Status::Warn, m)
}

// ---------------------------------------------------------------------------
// The report
// ---------------------------------------------------------------------------

/// What is known of the directory of all pools.
#[derive(Debug)]
pub struct RootFacts {
    pub dir: String,
    pub there: bool,
    /// The initialized pools in it.
    pub pools: Vec<PoolFacts>,
}

/// What is known of the host.
#[derive(Debug)]
pub struct HostFacts {
    pub os: String,
    pub arch: String,
    /// The reply to `git --version`.
    pub git: GitReply,
    /// The program's own path, or why it is not known.
    pub exe: Result<String, String>,
    /// The reply to `xattr -l <exe>`.
    pub xattr: GitReply,
    /// `None` where `$WORKTREE_ROOT` is not set.
    pub root: Option<RootFacts>,
}

/// The checks of the host.
pub open spec fn host_checks(f: HostFacts) -> Seq<CheckView> {
    seq![arch_check(f.os@, f.arch@), git_check(f.git), quarantine_check(f.exe, f.xattr)]
}

/// The checks of the pools.
pub open spec fn pool_checks(f: HostFacts) -> Seq<CheckView> {
    match f.root {
        Some(r) => seq![
            pools_dir_check(r.dir@, r.there, r.pools@.len()),
            pools_check(r.pools@),
        ],
        None => seq![
            CheckView {
                name: "pools dir"@,
                status: Status::Bad,
                message: "WORKTREE_ROOT unset → boxcat/env.zsh (config) defines it; run from a shell that sourced .zshenv"@,
            },
        ],
    }
}

/// The report of a check.
pub open spec fn check_text(c: CheckView) -> Seq<char> {
    output::object_text(
        seq![
            ("message"@, output::json_quote(c.message)),
            ("name"@, output::json_quote(c.name)),
            ("status"@, output::json_quote(status_name(c.status))),
        ],
    )
}

/// The report of a section.
pub open spec fn section_text(name: Seq<char>, checks: Seq<CheckView>) -> Seq<char> {
    output::object_text(
        seq![
            ("name"@, output::json_quote(name)),
            (
                "results"@,
                output::array_text(checks.map_values(|c: CheckView| check_text(c))),
            ),
        ],
    )
}

/// How many checks came out so.
pub open spec fn count_status(checks: Seq<CheckView>, s: Status) -> nat
    decreases checks.len(),
{
    if checks.len() == 0 {
        0
    } else {
        count_status(checks.drop_last(), s) + if checks.last().status == s {
            1nat
        } else {
            0nat
        }
    }
}

/// The outcome of a health check: both sections, failing where a check is bad.
pub open spec fn diagnoses(f: HostFacts, o: Outcome) -> bool {
    let host = host_checks(f);
    let pools = pool_checks(f);
    let errors = count_status(host, Status::Bad) + count_status(pools, Status::Bad);
    let warnings = count_status(host, Status::Warn) + count_status(pools, Status::Warn);
    &&& o.output matches Output::Json(j)
    &&& j@ == output::array_text(
        seq![section_text("Host"@, host), section_text("Pools"@, pools)],
    )
    &&& if errors == 0 {
        o.failure is None
    } else {
        o.failure matches Some(Failure::Reported(e)) && error::told(
            e,
            text::decimal(errors) + " error(s), "@ + text::decimal(warnings) + " warning(s)"@,
        )
    }
}

fn check_json(c: &Check) -> (r: Json)
    ensures
        r@ == check_text(c@),
{
    let mut fields: Vec<(&str, Json)> = Vec::new();
    fields.push(("message", Json::string(c.message.as_str())));
    fields.push(("name", Json::string(c.name.as_str())));
    fields.push(("status", Json::string(c.status.as_str())));
    assert(output::field_views(fields@) =~= seq![
        ("message"@, output::json_quote(c@.message)),
        ("name"@, output::json_quote(c@.name)),
        ("status"@, output::json_quote(status_name(c.status))),
    ]);
    Json::object(fields)
}

fn section_json(name: &str, checks: &Vec<Check>) -> (r: Json)
    ensures
        r@ == section_text(name@, check_views(checks@)),
{
    let ghost want = check_views(checks@).map_values(|c: CheckView| check_text(c));
    let mut items: Vec<Json> = Vec::new();
    let mut i: usize = 0;
    assert(output::json_texts(items@) =~= want.take(0));
    while i < checks.len()
        invariant
            i <= checks.len(),
            want == check_views(checks@).map_values(|c: CheckView| check_text(c)),
            output::json_texts(items@) == want.take(i as int),
        decreases checks.len() - i,
    {
        let ghost before = output::json_texts(items@);
        let j = check_json(&checks[i]);
        let ghost t = j@;
        items.push(j);
        assert(t == want[i as int]);
        assert(output::json_texts(items@) =~= before.push(t));
        assert(want.take(i + 1) =~= want.take(i as int).push(t));
        i = i + 1;
    }
    assert(want.take(i as int) =~= want);
    let mut fields: Vec<(&str, Json)> = Vec::new();
    fields.push(("name", Json::string(name)));
    fields.push(("results", Json::array(items)));
    assert(output::field_views(fields@) =~= seq![
        ("name"@, output::json_quote(name@)),
        ("results"@, output::array_text(want)),
    ]);
    Json::object(fields)
}

fn count(checks: &Vec<Check>, s: Status) -> (r: usize)
    ensures
        r == count_status(check_views(checks@), s),
        r <= checks@.len(),
{
    let ghost all = check_views(checks@);
    let mut n: usize = 0;
    let mut i: usize = 0;
    while i < checks.len()
        invariant
            i <= checks.len(),
            all == check_views(checks@),
            n == count_status(all.take(i as int), s),
            n <= i,
        decreases checks.len() - i,
    {
        assert(all.take(i + 1).drop_last() =~= all.take(i as int));
        assert(all.take(i + 1).last() == checks@[i as int]@);
        if checks[i].status == s {
            n = n + 1;
        }
        i = i + 1;
    }
    assert(all.take(i as int) =~= all);
    n
}

/// The health of a host, from what is known of it.
pub fn run(f: &HostFacts) -> (o: Outcome)
    ensures
        diagnoses(*f, o),
{
    let mut host: Vec<Check> = Vec::new();
    host.push(check_arch(f.os.as_str(), f.arch.as_str()));
    host.push(check_git(&f.git));
    host.push(check_quarantine(&f.exe, &f.xattr));
    assert(check_views(host@) =~= host_checks(*f));
    let mut pools: Vec<Check> = Vec::new();
    match &f.root {
        Some(r) => {
            pools.push(check_pools_dir(r.dir.as_str(), r.there, r.pools.len()));
            pools.push(check_pools(&r.pools));
        },
        None => {
            pools.push(
                check(
                    "pools dir",
                    Status::Bad,
                    text::own(
                        "WORKTREE_ROOT unset → boxcat/env.zsh (config) defines it; run from a shell that sourced .zshenv",
                    ),
                ),
            );
        },
    }
    assert(check_views(pools@) =~= pool_checks(*f));
    let mut sections: Vec<Json> = Vec::new();
    sections.push(section_json("Host", &host));
    sections.push(section_json("Pools", &pools));
    assert(output::json_texts(sections@) =~= seq![
        section_text("Host"@, host_checks(*f)),
        section_text("Pools"@, pool_checks(*f)),
    ]);
    let report = Json::array(sections);
    let errors: usize = count(&host, Status::Bad) + count(&pools, Status::Bad);
    let warnings: usize = count(&host, Status::Warn) + count(&pools, Status::Warn);
    if errors == 0 {
        return Outcome::json(report);
    }
    let mut m = text::to_decimal(errors as u64);
    m.append(" error(s), ");
    m.append(text::to_decimal(warnings as u64).as_str());
    m.append(" warning(s)");
    Outcome::json_failing(report, Error::new(m))
}

// ---------------------------------------------------------------------------
// Laws
// ---------------------------------------------------------------------------

/// The health check fails exactly where git does not work or the directory of all pools
/// is not known; warnings do not make it fail, and the report is printed either way.
pub proof fn warnings_do_not_fail(f: HostFacts, o: Outcome)
    requires
        diagnoses(f, o),
    ensures
        o.failure is Some <==> git_check(f.git).status == Status::Bad || f.root is None,
        o.output is Json,
{
    reveal_with_fuel(count_status, 4);
    let host = host_checks(f);
    let pools = pool_checks(f);
    assert(host.drop_last().drop_last().drop_last() =~= seq![]);
    assert(host.drop_last().last() == host[1] && host.drop_last().drop_last().last() == host[0]);
    match f.root {
        Some(r) => {
            assert(pools.drop_last().drop_last() =~= seq![]);
            assert(pools.drop_last().last() == pools[0]);
        },
        None => {
            assert(pools.drop_last() =~= seq![]);
        },
    }
}

proof fn lemma_no_faults(pools: Seq<PoolFacts>)
    ensures
        pool_faults(pools).len() == 0 <==> forall|i: int|
            0 <= i < pools.len() ==> pool_fault(#[trigger] pools[i]) is None,
    decreases pools.len(),
{
    if pools.len() > 0 {
        let rest = pools.drop_last();
        lemma_no_faults(rest);
        assert(pools[pools.len() - 1] == pools.last());
        if forall|i: int| 0 <= i < rest.len() ==> pool_fault(#[trigger] rest[i]) is None {
            if pool_fault(pools.last()) is None {
                assert forall|i: int| 0 <= i < pools.len() implies pool_fault(
                    #[trigger] pools[i],
                ) is None by {
                    if i < rest.len() {
                        assert(rest[i] == pools[i]);
                    }
                }
            }
        } else {
            let i = choose|i: int|
                0 <= i < rest.len() && !(pool_fault(#[trigger] rest[i]) is None);
            assert(pools[i] == rest[i]);
        }
    }
}

/// The pools check is good exactly where no pool has a fault.
pub proof fn pools_are_good_iff_all_are(pools: Seq<PoolFacts>)
    ensures
        pools_check(pools).status == Status::Good <==> forall|i: int|
            0 <= i < pools.len() ==> pool_fault(#[trigger] pools[i]) is None,
{
    lemma_no_faults(pools);
}

} // verus!
