//! Laws of the admin verbs as they are called.
use crate::admin;
use crate::admin::{InitReply, MutexFile, MutexView};
use crate::cli::UnstickArgs;
use crate::config::PoolConfig;
use crate::error::Error;
use crate::fs_paths;
use crate::git::GitReply;
use crate::mutex::LockTry;
use crate::output;
use crate::output::{Outcome, Output};
use crate::text;
use vstd::prelude::*;

verus! {

/// The report of `unstick` lists rows of which there is exactly one for each file that is
/// asked for: of every file, or of those of one slot.
pub proof fn unstick_reports_every_mutex(
    root: &str,
    all: &UnstickArgs,
    one: &UnstickArgs,
    pool_mutex: &Option<LockTry>,
    files: Vec<MutexFile>,
    a: Result<Outcome, Error>,
    b: Result<Outcome, Error>,
    slot: String,
)
    requires
        all.slot is None,
        one.slot == Some(slot),
        call_ensures(admin::unstick, (root, all, pool_mutex, &InitReply::Files(files)), a),
        call_ensures(admin::unstick, (root, one, pool_mutex, &InitReply::Files(files)), b),
        root@.len() > 0,
        root@.last() != '/',
        forall|i: int| 0 <= i < files@.len() ==> (#[trigger] files@[i]).name@.len() > 0
            && files@[i].name@[0] != '/',
    ensures
        exists|rows: Seq<MutexView>, part: Seq<MutexView>|
            {
                &&& #[trigger] reported(a, root@, *pool_mutex, rows)
                &&& #[trigger] reported(b, root@, *pool_mutex, part)
                &&& rows.len() == files@.len()
                &&& rows.to_multiset() == files@.map_values(
                    |f: MutexFile|
                        MutexView {
                            slot: if f.name@.len() >= 5 && f.name@.skip(f.name@.len() - 5)
                                == ".lock"@ {
                                f.name@.take(f.name@.len() - 5)
                            } else {
                                f.name@
                            },
                            path: root@ + "/.meta/init/"@ + f.name@,
                            held: match f.tried {
                                LockTry::Busy => true,
                                LockTry::Failed(_) => true,
                                _ => false,
                            },
                        },
                ).to_multiset()
                &&& forall|m: MutexView| #[trigger]
                    part.contains(m) <==> rows.contains(m) && m.slot == slot@
                &&& forall|m: MutexView| #[trigger]
                    part.to_multiset().count(m) == if m.slot == slot@ {
                        rows.to_multiset().count(m)
                    } else {
                        0
                    }
            },
{
    let rows = choose|states: Seq<MutexView>| #[trigger]
        admin::shows(states, root@, files@, None) && (a->Ok_0.output matches Output::Json(j) && j@
            == admin::unstick_text(root@, *pool_mutex, states));
    let part = choose|states: Seq<MutexView>| #[trigger]
        admin::shows(states, root@, files@, Some(slot@)) && (b->Ok_0.output matches Output::Json(j)
            && j@ == admin::unstick_text(root@, *pool_mutex, states));
    assert(reported(a, root@, *pool_mutex, rows));
    assert(reported(b, root@, *pool_mutex, part));
    crate::laws::admin::every_mutex_file_has_one_row(rows, root@, files@);
    assert forall|m: MutexView| #[trigger] part.contains(m) <==> rows.contains(m) && m.slot
        == slot@ by {
        crate::laws::admin::the_report_of_one_is_its_part_of_all(
            part,
            rows,
            root@,
            files@,
            slot@,
            m,
        );
    }
    assert forall|m: MutexView| #[trigger]
        part.to_multiset().count(m) == if m.slot == slot@ {
            rows.to_multiset().count(m)
        } else {
            0
        } by {
        crate::laws::admin::the_report_of_one_is_its_part_of_all(
            part,
            rows,
            root@,
            files@,
            slot@,
            m,
        );
    }
}

/// The result reports these rows, in this order, with the directory and the pool's mutex.
pub open spec fn reported(
    r: Result<Outcome, Error>,
    root: Seq<char>,
    pool_mutex: Option<LockTry>,
    rows: Seq<MutexView>,
) -> bool {
    &&& r matches Ok(o)
    &&& o.failure is None
    &&& o.output matches Output::Json(j)
    &&& j@ == output::object_text(
        seq![
            ("init_dir"@, output::json_quote(fs_paths::path_in(root, ".meta/init"@))),
            (
                "init_mutexes"@,
                output::array_text(rows.map_values(|m: MutexView| admin::mutex_text(m))),
            ),
            ("pool_mutex"@, admin::pool_mutex_text(root, pool_mutex)),
        ],
    )
}

/// A directory of mutexes that is not there is an empty report; one that cannot be read is an
/// error.
pub proof fn unstick_tells_what_it_cannot_read(
    root: &str,
    args: &UnstickArgs,
    pool_mutex: &Option<LockTry>,
    init: &InitReply,
    r: Result<Outcome, Error>,
)
    requires
        call_ensures(admin::unstick, (root, args, pool_mutex, init), r),
    ensures
        *init is Missing ==> r is Ok,
        *init is Files ==> r is Ok,
        *init matches InitReply::Failed(why) ==> (r matches Err(e) && e.kind is None && e.message@
            == "read_dir "@ + fs_paths::path_in(root@, ".meta/init"@) + ": "@ + why@),
        *init matches InitReply::Broken(why) ==> (r matches Err(e) && e.kind is None && e.message@
            == why@),
{
}

/// A report covers a file where no slot is asked for, or where the file is that slot's.
pub proof fn a_slots_file_is_covered(args: &UnstickArgs, name: &str, r: bool)
    requires
        call_ensures(admin::covers, (args, name), r),
    ensures
        args.slot is None ==> r,
        args.slot matches Some(s) ==> (name@ == s@ + ".lock"@ ==> r) && (r ==> name@ == s@
            + ".lock"@ || name@ == s@) && (name@ == s@ && !".lock"@.is_suffix_of(name@) ==> r),
{
    if let Some(s) = args.slot {
        crate::laws::text::suffix_comes_off(s@, ".lock"@);
        crate::laws::text::suffix_comes_off(name@, ".lock"@);
    }
}

/// A source without `.gitmodules` has nothing to validate; what git lists of one with it is
/// validated.
pub proof fn a_source_is_validated(
    cfg: &PoolConfig,
    there: bool,
    listing: &GitReply,
    r: Result<Outcome, Error>,
)
    requires
        call_ensures(admin::validate_gitmodules, (cfg, there, listing), r),
    ensures
        !there ==> (r matches Ok(o) && o.failure is None && (o.output matches Output::Json(j) && j@
            == output::object_text(
            seq![
                ("gitmodules"@, "null"@),
                ("tag_entries"@, text::decimal(0)),
                ("unknown_keys"@, output::array_text(Seq::empty())),
            ],
        ))),
        there && (*listing matches GitReply::Finished(o) && o.success) ==> (r matches Ok(o)
            && admin::validates(
            o,
            fs_paths::path_in(cfg.source@, ".gitmodules"@),
            text::trimmed(listing->Finished_0.stdout@),
        )),
        there && !(*listing matches GitReply::Finished(o) && o.success) ==> (r matches Err(e)
            && e.kind is None),
{
    let none = Seq::<Seq<char>>::empty();
    assert(none.map_values(|k: Seq<char>| output::json_quote(k)) =~= Seq::<Seq<char>>::empty());
}

} // verus!
