//! Laws of the listings as they are called.
use crate::cli::{InspectArgs, LsArgs, PathArgs};
use crate::config::PoolConfig;
use crate::dashboard;
use crate::dashboard::{Answers, GitCounts, Row, RowView, State};
use crate::error::Error;
use crate::git::{GitOutput, GitReply};
use crate::laws::dashboard as dashboard_laws;
use crate::laws::slots::shows_held;
use crate::output;
use crate::output::{Failure, Json, Outcome, Output};
use crate::slot;
use crate::slot::{DirReply, SlotEntry, SlotEntryView};
use crate::text;
use vstd::prelude::*;

verus! {

/// Every line of git's status is counted once, as untracked or as dirty.
pub proof fn status_lines_are_counted(
    path: &str,
    status: &Option<GitReply>,
    ahead: &Option<GitReply>,
    o: GitOutput,
    r: GitCounts,
)
    requires
        call_ensures(dashboard::compute_git_counts, (path, status, ahead), r),
        path@.len() > 0,
        *status == Some(GitReply::Finished(o)),
        o.success,
    ensures
        ({
            let lines = text::lines_of(text::trimmed(o.stdout@));
            let marked = lines.filter(
                |l: Seq<char>| l.len() > 1 && l[0] == '?' && l[1] == '?',
            ).len();
            let filled = lines.filter(|l: Seq<char>| l.len() > 0).len();
            &&& marked <= u32::MAX ==> r.untracked == Some(marked as u32)
            &&& filled - marked <= u32::MAX ==> r.dirty == Some((filled - marked) as u32)
            &&& filled <= u32::MAX ==> r.dirty->0 + r.untracked->0 == filled
        }),
{
    dashboard_laws::every_status_line_is_counted_once(path@, o, *ahead);
}

/// The commits ahead are what git counted; what was not answered is not counted.
pub proof fn commits_ahead_are_counted(
    path: &str,
    status: &Option<GitReply>,
    ahead: &Option<GitReply>,
    r: GitCounts,
    n: u32,
)
    requires
        call_ensures(dashboard::compute_git_counts, (path, status, ahead), r),
        path@.len() > 0,
    ensures
        (*ahead matches Some(GitReply::Finished(o)) && o.success && text::trimmed(o.stdout@)
            == text::decimal(n as nat)) ==> r.ahead == Some(n),
        !(*ahead matches Some(GitReply::Finished(o)) && o.success) ==> r.ahead is None,
        !(*status matches Some(GitReply::Finished(o)) && o.success) ==> r.dirty is None
            && r.untracked is None,
{
    crate::text_lemmas::lemma_number_decimal(n as nat);
}

/// A slot's row shows its id, group, path and branch, and what git answered.
pub proof fn a_row_is_built(
    e: &SlotEntry,
    answers: &Vec<Answers>,
    git_status: bool,
    r: Row,
    i: int,
)
    requires
        call_ensures(dashboard::build_row, (e, answers, git_status), r),
    ensures
        r.id@ == e.id@,
        text::opt_text(r.group) == text::opt_text(e.group),
        text::opt_text(r.path) == Some(e.path@),
        text::opt_text(r.lease) == text::opt_text(e.branch),
        e.branch is Some ==> r.state == State::Held,
        e.branch is None ==> r.state == State::Idle && r.sha is None && r.git is None,
        e.branch is Some && !git_status ==> r.git is None,
        e.branch is Some && 0 <= i < answers@.len() && answers@[i].path@ == e.path@ && (forall|j: int|
            0 <= j < i ==> (#[trigger] answers@[j]).path@ != e.path@) ==> {
            &&& git_status ==> r.git == Some(
                dashboard::counts_of(e.path@, answers@[i].status, answers@[i].ahead),
            )
            &&& (answers@[i].sha matches GitReply::Finished(o) && o.success) ==> ({
                let sha = text::trimmed(answers@[i].sha->Finished_0.stdout@);
                text::opt_text(r.sha) == Some(
                    if sha.len() > 8 {
                        sha.subrange(0, 8)
                    } else {
                        sha
                    },
                )
            })
        },
{
    dashboard_laws::a_row_shows_its_slot(e@, answers@, git_status);
    if e.branch is Some && 0 <= i < answers@.len() && answers@[i].path@ == e.path@ && (forall|j: int|
        0 <= j < i ==> (#[trigger] answers@[j]).path@ != e.path@) {
        dashboard_laws::a_row_shows_what_git_answered(e@, answers@, git_status, i);
    }
}

/// The rows of a listing: one for each slot, and a fresh one for each number that none has;
/// held ones first, then idle ones, then fresh ones, each by id.
pub proof fn rows_are_listed(
    entries: &Vec<SlotEntry>,
    cfg: &PoolConfig,
    answers: &Vec<Answers>,
    git_status: bool,
    r: Vec<Row>,
    i: int,
    j: int,
    k: int,
    group: Option<Seq<char>>,
    n: nat,
)
    requires
        call_ensures(dashboard::rows_of, (entries, cfg, answers, git_status), r),
        slot::usable(cfg@.groups, group),
        n < cfg.max_slots,
    ensures
        0 <= i < j < r@.len() ==> {
            &&& r@[j].state == State::Held ==> r@[i].state == State::Held
            &&& r@[i].state == State::Fresh ==> r@[j].state == State::Fresh
            &&& r@[i].state == r@[j].state ==> text::ordered(r@[i].id@, r@[j].id@)
        },
        0 <= k < entries@.len() ==> dashboard::row_views(r@).contains(
            dashboard::row_of(entries@[k]@, answers@, git_status),
        ),
        (forall|x: int|
            0 <= x < entries@.len() ==> (#[trigger] entries@[x]).id@ != slot::slot_name(group, n))
            ==> dashboard::row_views(r@).contains(
            RowView {
                id: slot::slot_name(group, n),
                state: State::Fresh,
                lease: None,
                group,
                sha: None,
                git: None,
                path: None,
            },
        ),
        r@.len() >= entries@.len(),
{
    let rows = dashboard::row_views(r@);
    let views = slot::entry_views(entries@);
    assert(rows.len() == r@.len());
    assert(views.len() == entries@.len());
    dashboard::listing_shows_the_capacity(
        rows,
        views,
        cfg@.groups,
        cfg.max_slots,
        answers@,
        git_status,
        group,
        n,
        k,
    );
    if 0 <= i < j < r@.len() {
        assert(rows[i] == r@[i]@ && rows[j] == r@[j]@);
        dashboard_laws::a_listing_is_in_order(
            rows,
            views,
            cfg@.groups,
            cfg.max_slots,
            answers@,
            git_status,
            i,
            j,
        );
    }
    if 0 <= k < entries@.len() {
        assert(views[k] == entries@[k]@);
    }
    if forall|x: int|
        0 <= x < entries@.len() ==> (#[trigger] entries@[x]).id@ != slot::slot_name(group, n) {
        if dashboard::present(views, slot::slot_name(group, n)) {
            let x = choose|x: int|
                0 <= x < views.len() && (#[trigger] views[x]).id == slot::slot_name(group, n);
            assert(views[x] == entries@[x]@);
            assert(entries@[x].id@ == slot::slot_name(group, n));
        }
    }
}

/// The report of a row, its state's name and rank, and a fresh row.
pub proof fn rows_are_reported(
    row: &Row,
    j: Json,
    id: String,
    group: Option<String>,
    fresh: Row,
    s: State,
    name: &'static str,
    rank: u8,
    t: State,
    other: u8,
)
    requires
        call_ensures(Row::to_json, (row,), j),
        call_ensures(Row::fresh, (id, group), fresh),
        call_ensures(dashboard::state_label, (s,), name),
        call_ensures(dashboard::state_order, (s,), rank),
        call_ensures(dashboard::state_order, (t,), other),
    ensures
        row.git is None ==> j@ == output::object_text(
            seq![
                ("group"@, output::opt_text(text::opt_text(row.group))),
                ("id"@, output::json_quote(row.id@)),
                ("lease"@, output::opt_text(text::opt_text(row.lease))),
                ("path"@, output::opt_text(text::opt_text(row.path))),
                ("sha"@, output::opt_text(text::opt_text(row.sha))),
                ("state"@, output::json_quote(dashboard::state_name(row.state))),
            ],
        ),
        fresh.id@ == id@ && text::opt_text(fresh.group) == text::opt_text(group) && fresh.state
            == State::Fresh && fresh.lease is None && fresh.sha is None && fresh.git is None
            && fresh.path is None,
        s == State::Held ==> name@ == "held"@,
        s == State::Idle ==> name@ == "idle"@,
        s == State::Fresh ==> name@ == "fresh"@,
        s == State::Held && t == State::Idle ==> rank < other,
        s == State::Idle && t == State::Fresh ==> rank < other,
{
    dashboard_laws::a_row_is_reported_as(
        row@,
        GitCounts { dirty: None, untracked: None, ahead: None },
    );
}

/// git is asked for the slots that show a branch; a pool that cannot be listed is an error.
pub proof fn git_is_asked_for(
    root: &str,
    cfg: &PoolConfig,
    listing: &DirReply,
    paths: Result<Vec<String>, Error>,
    args: &LsArgs,
    answers: &Vec<Answers>,
    report: Result<Outcome, Error>,
)
    requires
        call_ensures(dashboard::held_paths, (root, cfg, listing), paths),
        call_ensures(dashboard::ls, (root, cfg, args, listing, answers), report),
    ensures
        slot::enumerated(root@, cfg@.groups, *listing) matches Ok(entries) ==> (paths matches Ok(v)
            && text::texts(v@) == entries.filter(|e: SlotEntryView| e.branch is Some).map_values(
            |e: SlotEntryView| e.path,
        )),
        slot::enumerated(root@, cfg@.groups, *listing) matches Err(m) ==> (paths matches Err(e)
            && e.kind is None && e.message@ == m) && (report matches Err(e) && e.kind is None
            && e.message@ == m),
        slot::enumerated(root@, cfg@.groups, *listing) matches Ok(entries) ==> (report matches Ok(o)
            && o.failure is None && (o.output matches Output::Json(j) && exists|rows: Seq<RowView>|
            #[trigger] dashboard::lists(
                rows,
                entries,
                cfg@.groups,
                cfg.max_slots,
                answers@,
                args.git_status,
            ) && j@ == output::array_text(
                rows.map_values(|w: RowView| dashboard::row_text(w)),
            ))),
{
    if let Ok(entries) = slot::enumerated(root@, cfg@.groups, *listing) {
        dashboard_laws::git_is_asked_for_leased_slots(entries);
    }
}

/// `path` prints the path of the held slot that has the name as its lease, or as its id;
/// where there is none it is silent and fails. `inspect` takes the same slot.
pub proof fn a_name_leads_to_its_slot(
    root: &str,
    cfg: &PoolConfig,
    args: &PathArgs,
    asked: &InspectArgs,
    listing: &DirReply,
    entries: Seq<SlotEntryView>,
    r: Result<Outcome, Error>,
    s: Result<SlotEntry, Error>,
    i: int,
)
    requires
        call_ensures(dashboard::path, (root, cfg, args, listing), r),
        call_ensures(dashboard::inspected, (root, cfg, asked, listing), s),
        asked.lease@ == args.lease@,
        slot::enumerated(root@, cfg@.groups, *listing) == Ok::<Seq<SlotEntryView>, Seq<char>>(
            entries,
        ),
        0 <= i < entries.len(),
    ensures
        r matches Ok(o) && (match o.output {
            Output::Line(t) => o.failure is None && exists|k: int|
                0 <= k < entries.len() && (#[trigger] entries[k]).path == t@ && shows_held(
                    entries[k].head,
                ) && (entries[k].branch == Some(args.lease@) || entries[k].id == args.lease@),
            Output::Empty => o.failure == Some(Failure::Silent(1)) && !(shows_held(entries[i].head)
                && (entries[i].branch == Some(args.lease@) || entries[i].id == args.lease@)),
            Output::Json(_) => false,
        }),
        r matches Ok(o) && (s matches Ok(e) ==> (o.output matches Output::Line(t) && t@ == e.path@)),
        s matches Err(e) ==> e.kind is None && e.message@ == "no held slot with branch '"@
            + args.lease@ + "' in "@ + root@ && (r matches Ok(o) && o.output is Empty),
{
    crate::laws::slots::a_lease_comes_before_an_id(entries, args.lease@, i);
    if let Some(e) = slot::addressed(entries, args.lease@) {
        let k = choose|k: int| 0 <= k < entries.len() && entries[k] == e;
        assert(entries[k].path == e.path);
    }
}

/// `inspect` reports the slot with its lease, its git directory, the commit, the status and
/// the log since the pool's default commit.
pub proof fn a_slot_is_inspected(
    cfg: &PoolConfig,
    args: &InspectArgs,
    e: &SlotEntry,
    gitdir: Result<String, Error>,
    sha: &GitReply,
    status: GitOutput,
    log: GitOutput,
    r: Result<Outcome, Error>,
)
    requires
        call_ensures(
            dashboard::inspect,
            (
                cfg,
                args,
                e,
                gitdir,
                sha,
                &GitReply::Finished(status),
                &GitReply::Finished(log),
            ),
            r,
        ),
    ensures
        gitdir matches Err(x) ==> r == Err::<Outcome, Error>(x),
        gitdir matches Ok(dir) ==> (r matches Ok(o) && o.failure is None && (
        o.output matches Output::Json(j) && j@ == output::object_text(
            seq![
                ("base"@, output::json_quote(cfg.default_commit@)),
                ("gitdir"@, output::json_quote(dir@)),
                ("group"@, output::opt_text(text::opt_text(e.group))),
                ("id"@, output::json_quote(e.id@)),
                (
                    "lease"@,
                    output::json_quote(dashboard::lease_of(e@, args.lease@)),
                ),
                (
                    "log"@,
                    dashboard::opt_lines(
                        if log.success {
                            Some(text::trimmed(log.stdout@))
                        } else {
                            None
                        },
                    ),
                ),
                ("path"@, output::json_quote(e.path@)),
                (
                    "sha"@,
                    output::opt_text(
                        if *sha is Finished && sha->Finished_0.success {
                            Some(text::trimmed(sha->Finished_0.stdout@))
                        } else {
                            None
                        },
                    ),
                ),
                ("status"@, dashboard::opt_lines(Some(text::trimmed(status.stdout@)))),
            ],
        ))),
        e.branch matches Some(b) ==> dashboard::lease_of(e@, args.lease@) == b@,
        e.branch is None ==> dashboard::lease_of(e@, args.lease@) == args.lease@,
{
    crate::laws::git::success_gives_the_output(crate::git::head_sha_command(e.path@), *sha);
}

} // verus!
