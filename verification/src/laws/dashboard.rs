//! Laws of the listings.
use crate::dashboard;
use crate::dashboard::{Answers, GitCounts, RowView, State};
use crate::git::{GitOutput, GitReply};
use crate::laws::lists;
use crate::output;
use crate::slot;
use crate::slot::SlotEntryView;
use crate::text;
use vstd::prelude::*;

verus! {

proof fn lemma_counted(lines: Seq<Seq<char>>)
    ensures
        dashboard::count_lines(lines, true) == lines.filter(
            |l: Seq<char>| l.len() > 1 && l[0] == '?' && l[1] == '?',
        ).len(),
        dashboard::count_lines(lines, true) + dashboard::count_lines(lines, false) == lines.filter(
            |l: Seq<char>| l.len() > 0,
        ).len(),
    decreases lines.len(),
{
    let marked = |l: Seq<char>| l.len() > 1 && l[0] == '?' && l[1] == '?';
    let filled = |l: Seq<char>| l.len() > 0;
    if lines.len() == 0 {
        assert(lines =~= Seq::empty());
        lists::lemma_filter_none(marked);
        lists::lemma_filter_none(filled);
    } else {
        lists::lemma_filter_last(lines, marked);
        lists::lemma_filter_last(lines, filled);
        lemma_counted(lines.drop_last());
        reveal_strlit("??");
        let l = lines.last();
        if l.len() > 1 && l[0] == '?' && l[1] == '?' {
            assert("??"@ =~= l.subrange(0, 2));
            assert("??"@.is_prefix_of(l));
        } else if "??"@.is_prefix_of(l) {
            assert(l.subrange(0, 2)[0] == l[0] && l.subrange(0, 2)[1] == l[1]);
        }
    }
}

/// Every line of git's status is counted once: as untracked where it begins with two
/// question marks, else as dirty. An empty line is not counted. A count that does not fit
/// is left out.
pub proof fn every_status_line_is_counted_once(
    path: Seq<char>,
    status: GitOutput,
    ahead: Option<GitReply>,
)
    requires
        path.len() > 0,
        status.success,
    ensures
        ({
            let lines = text::lines_of(text::trimmed(status.stdout@));
            let counts = dashboard::counts_of(path, Some(GitReply::Finished(status)), ahead);
            let marked = lines.filter(|l: Seq<char>| l.len() > 1 && l[0] == '?' && l[1] == '?').len();
            let filled = lines.filter(|l: Seq<char>| l.len() > 0).len();
            &&& marked <= filled
            &&& marked <= u32::MAX ==> counts.untracked == Some(marked as u32)
            &&& marked > u32::MAX ==> counts.untracked is None
            &&& filled - marked <= u32::MAX ==> counts.dirty == Some((filled - marked) as u32)
            &&& filled - marked > u32::MAX ==> counts.dirty is None
        }),
{
    lemma_counted(text::lines_of(text::trimmed(status.stdout@)));
}

/// The commits ahead are the number that git printed, where it succeeded and printed one.
pub proof fn commits_ahead_are_what_git_counted(
    path: Seq<char>,
    status: Option<GitReply>,
    ahead: GitOutput,
    n: u32,
)
    requires
        path.len() > 0,
        ahead.success,
        text::trimmed(ahead.stdout@) == text::decimal(n as nat),
    ensures
        dashboard::counts_of(path, status, Some(GitReply::Finished(ahead))).ahead == Some(n),
{
    crate::text_lemmas::lemma_number_decimal(n as nat);
}

/// Nothing is counted where git was not asked, did not start or failed.
pub proof fn nothing_is_counted_without_an_answer(path: Seq<char>, silent: Option<GitReply>)
    requires
        silent matches Some(GitReply::Finished(o)) ==> !o.success,
    ensures
        ({
            let counts = dashboard::counts_of(path, silent, silent);
            counts.dirty is None && counts.untracked is None && counts.ahead is None
        }),
{
}

/// A slot's row shows its id, group and path as they are. It is held, under the branch that it
/// shows, exactly where it shows one; else it is idle.
pub proof fn a_row_shows_its_slot(e: SlotEntryView, answers: Seq<Answers>, git_status: bool)
    ensures
        ({
            let row = dashboard::row_of(e, answers, git_status);
            &&& row.id == e.id
            &&& row.group == e.group
            &&& row.path == Some(e.path)
            &&& row.lease == e.branch
            &&& e.branch is Some ==> row.state == State::Held
            &&& e.branch is None ==> row.state == State::Idle && row.sha is None && row.git is None
            &&& row.git is Some <==> e.branch is Some && git_status
        }),
{
}

/// A held slot's row shows the first eight characters of the commit that git answered for its
/// path, and the counts of what git answered where they were asked for.
pub proof fn a_row_shows_what_git_answered(
    e: SlotEntryView,
    answers: Seq<Answers>,
    git_status: bool,
    i: int,
)
    requires
        e.branch is Some,
        0 <= i < answers.len(),
        answers[i].path@ == e.path,
        forall|j: int| 0 <= j < i ==> (#[trigger] answers[j]).path@ != e.path,
    ensures
        ({
            let row = dashboard::row_of(e, answers, git_status);
            let a = answers[i];
            &&& a.sha matches GitReply::Finished(o) ==> o.success ==> ({
                let sha = text::trimmed(o.stdout@);
                row.sha == Some(
                    if sha.len() > 8 {
                        sha.subrange(0, 8)
                    } else {
                        sha
                    },
                )
            })
            &&& !(a.sha matches GitReply::Finished(o) && o.success) ==> row.sha is None
            &&& git_status ==> row.git == Some(dashboard::counts_of(e.path, a.status, a.ahead))
        }),
{
    lemma_answers(answers, e.path, i);
    if let GitReply::Finished(o) = answers[i].sha {
        let sha = text::trimmed(o.stdout@);
        if sha.len() > 8 {
            assert(sha.take(8) =~= sha.subrange(0, 8));
        }
    }
}

proof fn lemma_answers(answers: Seq<Answers>, path: Seq<char>, i: int)
    requires
        0 <= i < answers.len(),
        answers[i].path@ == path,
        forall|j: int| 0 <= j < i ==> (#[trigger] answers[j]).path@ != path,
    ensures
        dashboard::answers_for(answers, path) == Some(answers[i]),
    decreases answers.len(),
{
    if i > 0 {
        let rest = answers.drop_first();
        assert(answers[0].path@ != path);
        assert forall|j: int| 0 <= j < i - 1 implies (#[trigger] rest[j]).path@ != path by {
            assert(rest[j] == answers[j + 1]);
        }
        lemma_answers(rest, path, i - 1);
    }
}

/// A slot that is not there yet has a row with its id and group, and nothing else.
pub proof fn a_fresh_row_is_empty(id: Seq<char>, group: Option<Seq<char>>)
    ensures
        ({
            let row = dashboard::fresh_row(id, group);
            &&& row.id == id
            &&& row.group == group
            &&& row.state == State::Fresh
            &&& row.lease is None
            &&& row.sha is None
            &&& row.git is None
            &&& row.path is None
        }),
{
}

/// The fresh rows of a group are those of the numbers below the maximum whose names no slot
/// on disk has.
pub proof fn fresh_rows_fill_the_gaps(
    entries: Seq<SlotEntryView>,
    group: Option<Seq<char>>,
    max_slots: nat,
)
    ensures
        dashboard::fresh_rows(entries, group, max_slots) == Seq::new(
            max_slots,
            |n: int| slot::slot_name(group, n as nat),
        ).filter(
            |id: Seq<char>|
                forall|i: int| 0 <= i < entries.len() ==> (#[trigger] entries[i]).id != id,
        ).map_values(|id: Seq<char>| dashboard::fresh_row(id, group)),
    decreases max_slots,
{
    let name = |n: int| slot::slot_name(group, n as nat);
    let missing = |id: Seq<char>|
        forall|i: int| 0 <= i < entries.len() ==> (#[trigger] entries[i]).id != id;
    let row = |id: Seq<char>| dashboard::fresh_row(id, group);
    let names = Seq::new(max_slots, name);
    if max_slots == 0 {
        lists::lemma_filter_none(missing);
        assert(names =~= Seq::empty());
        assert(dashboard::fresh_rows(entries, group, max_slots) =~= names.filter(
            missing,
        ).map_values(row));
    } else {
        let less = (max_slots - 1) as nat;
        fresh_rows_fill_the_gaps(entries, group, less);
        lists::lemma_filter_last(names, missing);
        assert(names.drop_last() =~= Seq::new(less, name));
        assert(dashboard::fresh_rows(entries, group, max_slots) =~= names.filter(
            missing,
        ).map_values(row));
    }
}

/// A listing has one row for each slot on disk, then the fresh rows: of the pool without
/// groups, or of each group.
pub proof fn a_listing_holds(
    rows: Seq<RowView>,
    entries: Seq<SlotEntryView>,
    groups: Seq<Seq<char>>,
    g: Seq<char>,
    max_slots: u32,
    answers: Seq<Answers>,
    git_status: bool,
)
    ensures
        dashboard::lists(rows, entries, Seq::empty(), max_slots, answers, git_status)
            ==> rows.to_multiset() == (entries.map_values(
            |e: SlotEntryView| dashboard::row_of(e, answers, git_status),
        ) + dashboard::fresh_rows(entries, None, max_slots as nat)).to_multiset(),
        dashboard::lists(rows, entries, seq![g], max_slots, answers, git_status)
            ==> rows.to_multiset() == (entries.map_values(
            |e: SlotEntryView| dashboard::row_of(e, answers, git_status),
        ) + dashboard::fresh_rows(entries, Some(g), max_slots as nat)).to_multiset(),
        groups.len() > 0 ==> dashboard::all_rows(
            entries,
            groups.push(g),
            max_slots,
            answers,
            git_status,
        ) == dashboard::all_rows(entries, groups, max_slots, answers, git_status)
            + dashboard::fresh_rows(entries, Some(g), max_slots as nat),
        dashboard::lists(rows, entries, groups, max_slots, answers, git_status)
            ==> rows.to_multiset() == dashboard::all_rows(
            entries,
            groups,
            max_slots,
            answers,
            git_status,
        ).to_multiset(),
{
    let none = Seq::<Seq<char>>::empty();
    assert(seq![g].drop_last() =~= none);
    assert(dashboard::fresh_in_groups(entries, none, max_slots as nat) =~= Seq::empty());
    assert(dashboard::fresh_in_groups(entries, seq![g], max_slots as nat) =~= dashboard::fresh_rows(
        entries,
        Some(g),
        max_slots as nat,
    ));
    let more = groups.push(g);
    assert(more.drop_last() =~= groups);
    if groups.len() > 0 {
        assert(dashboard::all_rows(entries, more, max_slots, answers, git_status)
            =~= dashboard::all_rows(entries, groups, max_slots, answers, git_status)
            + dashboard::fresh_rows(entries, Some(g), max_slots as nat));
    }
}

/// A listing shows held slots first, then idle ones, then fresh ones, each in the order of
/// their ids.
pub proof fn a_listing_is_in_order(
    rows: Seq<RowView>,
    entries: Seq<SlotEntryView>,
    groups: Seq<Seq<char>>,
    max_slots: u32,
    answers: Seq<Answers>,
    git_status: bool,
    i: int,
    j: int,
)
    requires
        dashboard::lists(rows, entries, groups, max_slots, answers, git_status),
        0 <= i < j < rows.len(),
    ensures
        rows[j].state == State::Held ==> rows[i].state == State::Held,
        rows[i].state == State::Fresh ==> rows[j].state == State::Fresh,
        rows[i].state == rows[j].state ==> text::ordered(rows[i].id, rows[j].id),
{
    assert(dashboard::row_ordered(rows[i], rows[j]));
}

/// git is asked for each slot that shows a branch, in order, and for no other.
pub proof fn git_is_asked_for_leased_slots(entries: Seq<SlotEntryView>)
    ensures
        dashboard::asked_paths(entries) == entries.filter(
            |e: SlotEntryView| e.branch is Some,
        ).map_values(|e: SlotEntryView| e.path),
    decreases entries.len(),
{
    let on = |e: SlotEntryView| e.branch is Some;
    let path = |e: SlotEntryView| e.path;
    if entries.len() == 0 {
        lists::lemma_filter_none(on);
        assert(entries =~= Seq::empty());
        assert(dashboard::asked_paths(entries) =~= entries.filter(on).map_values(path));
    } else {
        lists::lemma_filter_last(entries, on);
        git_is_asked_for_leased_slots(entries.drop_last());
        assert(dashboard::asked_paths(entries) =~= entries.filter(on).map_values(path));
    }
}

/// The fields of a row's report; the counts are among them only where there are any.
pub proof fn a_row_is_reported_as(r: RowView, g: GitCounts)
    ensures
        dashboard::state_name(State::Held) == "held"@,
        dashboard::state_name(State::Idle) == "idle"@,
        dashboard::state_name(State::Fresh) == "fresh"@,
        dashboard::counts_text(g) == output::object_text(
            seq![
                ("ahead"@, output::opt_number(g.ahead)),
                ("dirty"@, output::opt_number(g.dirty)),
                ("untracked"@, output::opt_number(g.untracked)),
            ],
        ),
        r.git is None ==> dashboard::row_text(r) == output::object_text(
            seq![
                ("group"@, output::opt_text(r.group)),
                ("id"@, output::json_quote(r.id)),
                ("lease"@, output::opt_text(r.lease)),
                ("path"@, output::opt_text(r.path)),
                ("sha"@, output::opt_text(r.sha)),
                ("state"@, output::json_quote(dashboard::state_name(r.state))),
            ],
        ),
        r.git == Some(g) ==> dashboard::row_text(r) == output::object_text(
            seq![
                ("git"@, dashboard::counts_text(g)),
                ("group"@, output::opt_text(r.group)),
                ("id"@, output::json_quote(r.id)),
                ("lease"@, output::opt_text(r.lease)),
                ("path"@, output::opt_text(r.path)),
                ("sha"@, output::opt_text(r.sha)),
                ("state"@, output::json_quote(dashboard::state_name(r.state))),
            ],
        ),
{
    let rest = seq![
        ("group"@, output::opt_text(r.group)),
        ("id"@, output::json_quote(r.id)),
        ("lease"@, output::opt_text(r.lease)),
        ("path"@, output::opt_text(r.path)),
        ("sha"@, output::opt_text(r.sha)),
        ("state"@, output::json_quote(dashboard::state_name(r.state))),
    ];
    assert(Seq::<(Seq<char>, Seq<char>)>::empty() + rest =~= rest);
    assert(seq![("git"@, dashboard::counts_text(g))] + rest =~= seq![
        ("git"@, dashboard::counts_text(g)),
        ("group"@, output::opt_text(r.group)),
        ("id"@, output::json_quote(r.id)),
        ("lease"@, output::opt_text(r.lease)),
        ("path"@, output::opt_text(r.path)),
        ("sha"@, output::opt_text(r.sha)),
        ("state"@, output::json_quote(dashboard::state_name(r.state))),
    ]);
}

/// The fields of an inspected slot's report: its own, git's answers line by line, and the
/// commit that the log starts from.
pub proof fn an_inspected_slot_is_reported_as(
    e: SlotEntryView,
    lease: Seq<char>,
    gitdir: Seq<char>,
    sha: Option<Seq<char>>,
    status: Seq<char>,
    base: Seq<char>,
    log: Option<Seq<char>>,
)
    ensures
        dashboard::slot_text(e, lease, gitdir, sha, status, base, log) == output::object_text(
            seq![
                ("base"@, output::json_quote(base)),
                ("gitdir"@, output::json_quote(gitdir)),
                ("group"@, output::opt_text(e.group)),
                ("id"@, output::json_quote(e.id)),
                ("lease"@, output::json_quote(lease)),
                ("log"@, dashboard::opt_lines(log)),
                ("path"@, output::json_quote(e.path)),
                ("sha"@, output::opt_text(sha)),
                ("status"@, dashboard::opt_lines(Some(status))),
            ],
        ),
        dashboard::opt_lines(Some(status)) == output::array_text(
            output::quoted_lines(text::lines_of(status)),
        ),
        dashboard::opt_lines(None) == "null"@,
        e.branch matches Some(b) ==> dashboard::lease_of(e, lease) == b,
        e.branch is None ==> dashboard::lease_of(e, lease) == lease,
{
}

/// A slot without a path is not counted.
pub proof fn nothing_is_counted_nowhere(status: Option<GitReply>, ahead: Option<GitReply>)
    ensures
        ({
            let counts = dashboard::counts_of(Seq::empty(), status, ahead);
            counts.dirty is None && counts.untracked is None && counts.ahead is None
        }),
{
}

/// The commits ahead are there exactly where git succeeded and printed a number that fits.
pub proof fn commits_ahead_need_a_number(
    path: Seq<char>,
    status: Option<GitReply>,
    ahead: GitOutput,
)
    requires
        path.len() > 0,
        ahead.success,
    ensures
        ({
            let counted = dashboard::counts_of(path, status, Some(GitReply::Finished(ahead))).ahead;
            match text::number(text::trimmed(ahead.stdout@)) {
                Ok(n) => counted matches Some(k) && k == n,
                Err(_) => counted is None,
            }
        }),
{
    if text::number(text::trimmed(ahead.stdout@)) is Ok {
        crate::text_lemmas::lemma_number_bound(text::trimmed(ahead.stdout@));
    }
}

/// A held slot that git was not asked about has no commit, and no counts in its report.
pub proof fn an_unasked_slot_shows_nothing(
    e: SlotEntryView,
    answers: Seq<Answers>,
    git_status: bool,
)
    requires
        e.branch is Some,
        forall|i: int| 0 <= i < answers.len() ==> (#[trigger] answers[i]).path@ != e.path,
    ensures
        ({
            let row = dashboard::row_of(e, answers, git_status);
            &&& row.sha is None
            &&& row.git matches Some(g) ==> g.dirty is None && g.untracked is None && g.ahead is None
        }),
    decreases answers.len(),
{
    if answers.len() > 0 {
        let rest = answers.drop_first();
        assert(answers[0].path@ != e.path);
        assert forall|i: int| 0 <= i < rest.len() implies (#[trigger] rest[i]).path@ != e.path by {
            assert(rest[i] == answers[i + 1]);
        }
        an_unasked_slot_shows_nothing(e, rest, git_status);
    }
}

} // verus!
