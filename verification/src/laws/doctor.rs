//! Laws of the health check.
use crate::doctor;
use crate::doctor::{CheckView, HostFacts, PoolFacts, Status};
use crate::git::{GitOutput, GitReply};
use crate::laws::lists;
use crate::output;
use crate::output::{Failure, Outcome, Output};
use crate::text;
use vstd::prelude::*;

verus! {

/// Only macOS on ARM is known to be good.
pub proof fn the_host_is_told(os: Seq<char>, arch: Seq<char>)
    ensures
        doctor::arch_check(os, arch).name == "arch"@,
        doctor::arch_check("macos"@, "aarch64"@).status == Status::Good,
        doctor::arch_check(os, arch).status == Status::Good ==> os == "macos"@ && arch
            == "aarch64"@ && doctor::arch_check(os, arch).message == os + "/"@ + arch,
        doctor::arch_check(os, arch).status != Status::Good ==> doctor::arch_check(os, arch)
            == (CheckView {
            name: "arch"@,
            status: Status::Warn,
            message: os + "/"@ + arch + " — only macOS/aarch64 is tested"@,
        }),
{
}

/// git is good where it ran and ended well, and its version is told; else it is an error.
pub proof fn git_must_run(r: GitReply)
    ensures
        doctor::git_check(r).name == "git"@,
        doctor::git_check(r).status == Status::Good <==> (r matches GitReply::Finished(o)
            && o.success),
        doctor::git_check(r).status != Status::Good ==> doctor::git_check(r).status == Status::Bad,
        r matches GitReply::Finished(o) ==> o.success ==> doctor::git_check(r).message
            == text::trimmed(o.stdout@),
        r matches GitReply::Finished(o) ==> !o.success ==> doctor::git_check(r).message
            == "git --version exited "@ + o.status@ + ": "@ + text::trimmed(o.stderr@),
        r matches GitReply::NotStarted(why) ==> doctor::git_check(r).message == "git not found: "@
            + why@,
{
}

/// The binary is clean where its attributes could be read and hold no quarantine mark; in
/// every other case there is a warning.
pub proof fn a_quarantined_binary_is_warned_of(
    path: String,
    before: Seq<char>,
    after: Seq<char>,
    o: GitOutput,
    why: String,
)
    requires
        o.success,
    ensures
        o.stdout@ == before + "com.apple.quarantine"@ + after ==> doctor::quarantine_check(
            Ok(path),
            GitReply::Finished(o),
        ) == (CheckView {
            name: "binary quarantine"@,
            status: Status::Warn,
            message: path@ + " has com.apple.quarantine → xattr -d com.apple.quarantine "@ + path@,
        }),
        o.stdout@.len() < "com.apple.quarantine"@.len() ==> doctor::quarantine_check(
            Ok(path),
            GitReply::Finished(o),
        ) == (CheckView {
            name: "binary quarantine"@,
            status: Status::Good,
            message: "clean ("@ + path@ + ")"@,
        }),
        doctor::quarantine_check(Err(why), GitReply::Finished(o)) == (CheckView {
            name: "binary quarantine"@,
            status: Status::Warn,
            message: "can't resolve current_exe: "@ + why@,
        }),
        doctor::quarantine_check(Ok(path), GitReply::NotStarted(why)) == (CheckView {
            name: "binary quarantine"@,
            status: Status::Warn,
            message: "xattr not available: "@ + why@,
        }),
{
    let p = "com.apple.quarantine"@;
    crate::laws::text::pattern_is_found_where_it_stands_first(o.stdout@, p);
    if o.stdout@ == before + p + after {
        assert(o.stdout@.subrange(before.len() as int, before.len() as int + p.len()) =~= p);
    }
}

/// The directory of all pools is told with the number of pools in it; one that is not there is
/// a warning.
pub proof fn the_pools_directory_is_told(dir: Seq<char>, n: nat)
    ensures
        doctor::pools_dir_check(dir, true, n) == (CheckView {
            name: "pools dir"@,
            status: Status::Good,
            message: dir + " ("@ + text::decimal(n) + " pool(s))"@,
        }),
        doctor::pools_dir_check(dir, false, n) == (CheckView {
            name: "pools dir"@,
            status: Status::Warn,
            message: dir + " not present — first init will create it"@,
        }),
{
}

/// A pool is healthy exactly where its configuration loads, its source is there and is a git
/// repository; the first of these that fails is told.
pub proof fn a_pool_is_healthy_where(p: PoolFacts)
    ensures
        doctor::pool_fault(p) is None <==> p.config is Ok && p.source_exists && (
        p.gitdir matches GitReply::Finished(o) && o.success),
        p.config matches Err(e) ==> doctor::pool_fault(p) == Some(
            p.key@ + ": config: "@ + e.message@,
        ),
        p.config matches Ok(c) ==> !p.source_exists ==> doctor::pool_fault(p) == Some(
            p.key@ + ": source "@ + c.source@ + " missing"@,
        ),
        p.config matches Ok(c) ==> p.source_exists && !(p.gitdir matches GitReply::Finished(o)
            && o.success) ==> doctor::pool_fault(p) == Some(
            p.key@ + ": source "@ + c.source@ + " is not a git repo"@,
        ),
{
}

proof fn lemma_faults(pools: Seq<PoolFacts>)
    ensures
        doctor::pool_faults(pools) == pools.filter(
            |p: PoolFacts| doctor::pool_fault(p) is Some,
        ).map_values(|p: PoolFacts| doctor::pool_fault(p)->0),
    decreases pools.len(),
{
    let ill = |p: PoolFacts| doctor::pool_fault(p) is Some;
    let fault = |p: PoolFacts| doctor::pool_fault(p)->0;
    if pools.len() == 0 {
        lists::lemma_filter_none(ill);
        assert(pools =~= Seq::empty());
        assert(doctor::pool_faults(pools) =~= pools.filter(ill).map_values(fault));
    } else {
        lists::lemma_filter_last(pools, ill);
        lemma_faults(pools.drop_last());
        assert(doctor::pool_faults(pools) =~= pools.filter(ill).map_values(fault));
    }
}

/// The pools are told by how many of them there are, and how many are not healthy; each fault
/// stands on a line of its own.
pub proof fn unhealthy_pools_are_counted(pools: Seq<PoolFacts>)
    ensures
        ({
            let ill = pools.filter(|p: PoolFacts| doctor::pool_fault(p) is Some);
            let c = doctor::pools_check(pools);
            &&& c.name == "pools"@
            &&& pools.len() == 0 ==> c.status == Status::Good && c.message
                == "no pools initialized yet"@
            &&& pools.len() > 0 && ill.len() == 0 ==> c.status == Status::Good && c.message
                == text::decimal(pools.len()) + " pool(s), all healthy"@
            &&& ill.len() > 0 ==> c.status == Status::Warn && c.message == text::decimal(ill.len())
                + "/"@ + text::decimal(pools.len()) + " unhealthy:"@ + doctor::indented(
                ill.map_values(|p: PoolFacts| doctor::pool_fault(p)->0),
            )
        }),
{
    lemma_faults(pools);
    if pools.len() == 0 {
        lists::lemma_filter_none(|p: PoolFacts| doctor::pool_fault(p) is Some);
        assert(pools =~= Seq::empty());
    }
}

/// Each fault is put on a line of its own.
pub proof fn faults_stand_on_lines(faults: Seq<Seq<char>>, fault: Seq<char>)
    ensures
        doctor::indented(Seq::empty()).len() == 0,
        doctor::indented(faults.push(fault)) == doctor::indented(faults) + "\n      "@ + fault,
{
    assert(faults.push(fault).drop_last() =~= faults);
}

/// The outcome prints the checks of the host, in this order, and these of the pools.
pub open spec fn printed(o: Outcome, f: HostFacts, pools: Seq<CheckView>) -> bool {
    &&& o.output matches Output::Json(j)
    &&& j@ == output::array_text(
        seq![
            doctor::section_text(
                "Host"@,
                seq![
                    doctor::arch_check(f.os@, f.arch@),
                    doctor::git_check(f.git),
                    doctor::quarantine_check(f.exe, f.xattr),
                ],
            ),
            doctor::section_text("Pools"@, pools),
        ],
    )
}

/// The report has a section for the host and one for the pools, with their checks in this
/// order. It fails exactly where a check is an error, and tells how many are and how many
/// are warnings.
pub proof fn the_report_has_two_sections(f: HostFacts, o: Outcome)
    requires
        doctor::diagnoses(f, o),
    ensures
        f.root matches Some(r) ==> printed(
            o,
            f,
            seq![
                doctor::pools_dir_check(r.dir@, r.there, r.pools@.len()),
                doctor::pools_check(r.pools@),
            ],
        ),
        f.root is None ==> printed(
            o,
            f,
            seq![
                CheckView {
                    name: "pools dir"@,
                    status: Status::Bad,
                    message: "WORKTREE_ROOT unset → boxcat/env.zsh (config) defines it; run from a shell that sourced .zshenv"@,
                },
            ],
        ),
        o.failure is Some <==> !(f.git matches GitReply::Finished(g) && g.success) || f.root is None,
        o.failure matches Some(x) ==> (x matches Failure::Reported(e) && e.kind is None && e.message@
            == ({
            let all = doctor::host_checks(f) + doctor::pool_checks(f);
            text::decimal(all.filter(|c: CheckView| c.status == Status::Bad).len())
                + " error(s), "@ + text::decimal(
                all.filter(|c: CheckView| c.status == Status::Warn).len(),
            ) + " warning(s)"@
        })),
{
    doctor::warnings_do_not_fail(f, o);
    let host = doctor::host_checks(f);
    let pools = doctor::pool_checks(f);
    let bad = |c: CheckView| c.status == Status::Bad;
    let warn = |c: CheckView| c.status == Status::Warn;
    statuses_are_counted(host, Status::Bad);
    statuses_are_counted(pools, Status::Bad);
    statuses_are_counted(host, Status::Warn);
    statuses_are_counted(pools, Status::Warn);
    Seq::filter_distributes_over_add(host, pools, bad);
    Seq::filter_distributes_over_add(host, pools, warn);
    git_must_run(f.git);
    assert(printed(o, f, doctor::pool_checks(f)));
}

/// The names of the states, and the form of a check and a section.
pub proof fn checks_are_reported_as(c: CheckView, name: Seq<char>, checks: Seq<CheckView>)
    ensures
        doctor::status_name(Status::Good) == "ok"@,
        doctor::status_name(Status::Warn) == "warn"@,
        doctor::status_name(Status::Bad) == "error"@,
        doctor::check_text(c) == output::object_text(
            seq![
                ("message"@, output::json_quote(c.message)),
                ("name"@, output::json_quote(c.name)),
                ("status"@, output::json_quote(doctor::status_name(c.status))),
            ],
        ),
        doctor::section_text(name, checks) == output::object_text(
            seq![
                ("name"@, output::json_quote(name)),
                (
                    "results"@,
                    output::array_text(checks.map_values(|k: CheckView| doctor::check_text(k))),
                ),
            ],
        ),
{
    assert(checks.map_values(|k: CheckView| doctor::check_text(k)) =~= checks.map_values(
        |c: CheckView| doctor::check_text(c),
    ));
}

/// The checks with a status are counted each once.
pub proof fn statuses_are_counted(checks: Seq<CheckView>, s: Status)
    ensures
        doctor::count_status(checks, s) == checks.filter(|c: CheckView| c.status == s).len(),
    decreases checks.len(),
{
    let it = |c: CheckView| c.status == s;
    if checks.len() == 0 {
        lists::lemma_filter_none(it);
        assert(checks =~= Seq::empty());
    } else {
        lists::lemma_filter_last(checks, it);
        statuses_are_counted(checks.drop_last(), s);
    }
}

/// Attributes that could not be read are a warning.
pub proof fn unread_attributes_are_warned_of(path: String, o: GitOutput)
    requires
        !o.success,
    ensures
        doctor::quarantine_check(Ok(path), GitReply::Finished(o)) == (CheckView {
            name: "binary quarantine"@,
            status: Status::Warn,
            message: "xattr exited nonzero"@,
        }),
{
}

} // verus!
