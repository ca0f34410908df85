//! Laws of the health check as it is called.
use crate::doctor;
use crate::doctor::{Check, HostFacts, PoolFacts, Status};
use crate::git::GitReply;
use crate::laws::doctor as doctor_laws;
use crate::output::Outcome;
use crate::text;
use vstd::prelude::*;

verus! {

/// The checks of the host: macOS on ARM is good, git must run, and the binary must not be
/// quarantined.
pub proof fn the_host_is_checked(
    os: &str,
    arch: &str,
    a: Check,
    reply: &GitReply,
    g: Check,
    exe: &Result<String, String>,
    q: Check,
)
    requires
        call_ensures(doctor::check_arch, (os, arch), a),
        call_ensures(doctor::check_git, (reply,), g),
        call_ensures(doctor::check_quarantine, (exe, reply), q),
    ensures
        a.name@ == "arch"@,
        a.status == Status::Good <==> os@ == "macos"@ && arch@ == "aarch64"@,
        a.status != Status::Good ==> a.status == Status::Warn,
        g.name@ == "git"@,
        g.status == Status::Good <==> (*reply matches GitReply::Finished(o) && o.success),
        g.status != Status::Good ==> g.status == Status::Bad,
        *reply matches GitReply::Finished(o) ==> o.success ==> g.message@ == text::trimmed(o.stdout@),
        q.name@ == "binary quarantine"@,
        q.status == Status::Good ==> *exe is Ok && (*reply matches GitReply::Finished(o) && o.success
            && text::occurrence(o.stdout@, "com.apple.quarantine"@) is None),
        *exe is Ok && (*reply matches GitReply::Finished(o) && o.success && text::occurrence(
            o.stdout@,
            "com.apple.quarantine"@,
        ) is None) ==> q.status == Status::Good,
        q.status != Status::Good ==> q.status == Status::Warn,
{
}

/// The checks of the pools: a directory that is not there yet is a warning, and so is any pool
/// that is not healthy.
pub proof fn the_pools_are_checked(
    dir: &str,
    there: bool,
    count: usize,
    d: Check,
    pools: &Vec<PoolFacts>,
    p: Check,
)
    requires
        call_ensures(doctor::check_pools_dir, (dir, there, count), d),
        call_ensures(doctor::check_pools, (pools,), p),
    ensures
        d.name@ == "pools dir"@,
        there ==> d.status == Status::Good && d.message@ == dir@ + " ("@ + text::decimal(
            count as nat,
        ) + " pool(s))"@,
        !there ==> d.status == Status::Warn,
        p.name@ == "pools"@,
        p.status == Status::Good <==> forall|i: int|
            0 <= i < pools@.len() ==> (#[trigger] pools@[i]).config is Ok && pools@[i].source_exists
                && (pools@[i].gitdir matches GitReply::Finished(o) && o.success),
        p.status != Status::Good ==> p.status == Status::Warn,
{
    doctor::pools_are_good_iff_all_are(pools@);
    assert forall|i: int| 0 <= i < pools@.len() implies (doctor::pool_fault(
        #[trigger] pools@[i],
    ) is None <==> pools@[i].config is Ok && pools@[i].source_exists && (
    pools@[i].gitdir matches GitReply::Finished(o) && o.success)) by {
        doctor_laws::a_pool_is_healthy_where(pools@[i]);
    }
}

/// The health check reports always, and fails exactly where git does not run or the root of
/// all pools is not known.
pub proof fn the_health_check_fails_where(f: &HostFacts, o: Outcome)
    requires
        call_ensures(doctor::run, (f,), o),
    ensures
        o.output is Json,
        o.failure is Some <==> !(f.git matches GitReply::Finished(g) && g.success) || f.root is None,
        o.failure matches Some(x) ==> x is Reported,
        f.root matches Some(r) ==> doctor_laws::printed(
            o,
            *f,
            seq![
                doctor::pools_dir_check(r.dir@, r.there, r.pools@.len()),
                doctor::pools_check(r.pools@),
            ],
        ),
{
    doctor_laws::the_report_has_two_sections(*f, o);
}

/// The names of the states.
pub proof fn states_are_named(s: Status, name: &'static str)
    requires
        call_ensures(Status::as_str, (s,), name),
    ensures
        s == Status::Good ==> name@ == "ok"@,
        s == Status::Warn ==> name@ == "warn"@,
        s == Status::Bad ==> name@ == "error"@,
{
}

} // verus!
