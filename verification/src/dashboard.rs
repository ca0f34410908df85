//! Read-only subcommands: `ls` (slot array, with optional git status), `inspect` (one
//! slot's git state), `path` (lease lookup). `ls` and `inspect` report JSON; `path`
//! reports a bare line.
use crate::cli::{InspectArgs, LsArgs, PathArgs};
use crate::config::PoolConfig;
use crate::error;
use crate::error::Error;
use crate::git;
use crate::git::{GitCommand, GitReply};
use crate::order;
use crate::output;
use crate::output::{Failure, Json, Outcome, Output};
use crate::slot;
use crate::slot::{DirReply, SlotEntry};
use crate::text;
use crate::text_lemmas;
use vstd::prelude::*;

verus! {

// ---------------------------------------------------------------------------
// Rows
// ---------------------------------------------------------------------------

/// The state of a slot in a listing.
#[derive(Debug, Clone, Copy, PartialEq, Eq, Structural)]
pub enum State {
    Held,
    Idle,
    Fresh,
}

/// Held slots come first, then idle, then fresh ones.
pub open spec fn rank(s: State) -> int {
    match s {
        State::Held => 0,
        State::Idle => 1,
        State::Fresh => 2,
    }
}

/// Held slots come first, then idle, then fresh ones.
pub fn state_order(s: State) -> (r: u8)
    ensures
        r == rank(s),
{
    match s {
        State::Held => 0,
        State::Idle => 1,
        State::Fresh => 2,
    }
}

/// How a state is reported.
pub open spec fn state_name(s: State) -> Seq<char> {
    match s {
        State::Held => "held"@,
        State::Idle => "idle"@,
        State::Fresh => "fresh"@,
    }
}

/// How a state is reported.
pub fn state_label(s: State) -> (r: &'static str)
    ensures
        r@ == state_name(s),
{
    match s {
        State::Held => "held",
        State::Idle => "idle",
        State::Fresh => "fresh",
    }
}

/// Counts of a held slot's changes and commits; `None` per field where its git call
/// failed or gave no count.
#[derive(Debug, Clone, Copy, PartialEq, Eq, Structural)]
pub struct GitCounts {
    pub dirty: Option<u32>,
    pub untracked: Option<u32>,
    pub ahead: Option<u32>,
}

/// A slot in a listing.
#[derive(Debug)]
pub struct Row {
    pub id: String,
    pub state: State,
    pub lease: Option<String>,
    pub group: Option<String>,
    pub sha: Option<String>,
    /// `None` unless git status was asked for.
    pub git: Option<GitCounts>,
    /// `None` for fresh slots; nothing is on disk yet.
    pub path: Option<String>,
}

/// A slot in a listing, as text.
#[verifier::ext_equal]
pub struct RowView {
    pub id: Seq<char>,
    pub state: State,
    pub lease: Option<Seq<char>>,
    pub group: Option<Seq<char>>,
    pub sha: Option<Seq<char>>,
    pub git: Option<GitCounts>,
    pub path: Option<Seq<char>>,
}

impl View for Row {
    type V = RowView;

    open spec fn view(&self) -> RowView {
        RowView {
            id: self.id@,
            state: self.state,
            lease: text::opt_text(self.lease),
            group: text::opt_text(self.group),
            sha: text::opt_text(self.sha),
            git: self.git,
            path: text::opt_text(self.path),
        }
    }
}

/// Rows as text.
pub open spec fn row_views(v: Seq<Row>) -> Seq<RowView> {
    v.map_values(|r: Row| r@)
}

/// The report of counts.
pub open spec fn counts_text(g: GitCounts) -> Seq<char> {
    output::object_text(
        seq![
            ("ahead"@, output::opt_number(g.ahead)),
            ("dirty"@, output::opt_number(g.dirty)),
            ("untracked"@, output::opt_number(g.untracked)),
        ],
    )
}

/// The report of a row. The `git` field is there only where git status was asked for.
pub open spec fn row_text(r: RowView) -> Seq<char> {
    output::object_text(
        (match r.git {
            Some(g) => seq![("git"@, counts_text(g))],
            None => seq![],
        }) + seq![
            ("group"@, output::opt_text(r.group)),
            ("id"@, output::json_quote(r.id)),
            ("lease"@, output::opt_text(r.lease)),
            ("path"@, output::opt_text(r.path)),
            ("sha"@, output::opt_text(r.sha)),
            ("state"@, output::json_quote(state_name(r.state))),
        ],
    )
}

impl Row {
    /// The row of a slot that is not on disk yet.
    pub fn fresh(id: String, group: Option<String>) -> (r: Row)
        ensures
            r@ == fresh_row(id@, text::opt_text(group)),
    {
        Row {
            id,
            state: State::Fresh,
            lease: None,
            group,
            sha: None,
            git: None,
            path: None,
        }
    }

    /// The report of the row.
    pub fn to_json(&self) -> (r: Json)
        ensures
            r@ == row_text(self@),
    {
        let mut fields: Vec<(&str, Json)> = Vec::new();
        if let Some(g) = self.git {
            let mut counts: Vec<(&str, Json)> = Vec::new();
            counts.push(("ahead", output::opt_num(g.ahead)));
            counts.push(("dirty", output::opt_num(g.dirty)));
            counts.push(("untracked", output::opt_num(g.untracked)));
            assert(output::field_views(counts@) =~= seq![
                ("ahead"@, output::opt_number(g.ahead)),
                ("dirty"@, output::opt_number(g.dirty)),
                ("untracked"@, output::opt_number(g.untracked)),
            ]);
            fields.push(("git", Json::object(counts)));
        }
        fields.push(("group", output::opt_str(text::borrow_opt(&self.group))));
        fields.push(("id", Json::string(self.id.as_str())));
        fields.push(("lease", output::opt_str(text::borrow_opt(&self.lease))));
        fields.push(("path", output::opt_str(text::borrow_opt(&self.path))));
        fields.push(("sha", output::opt_str(text::borrow_opt(&self.sha))));
        fields.push(("state", Json::string(state_label(self.state))));
        assert(output::field_views(fields@) =~= (match self.git {
            Some(g) => seq![("git"@, counts_text(g))],
            None => seq![],
        }) + seq![
            ("group"@, output::opt_text(self@.group)),
            ("id"@, output::json_quote(self@.id)),
            ("lease"@, output::opt_text(self@.lease)),
            ("path"@, output::opt_text(self@.path)),
            ("sha"@, output::opt_text(self@.sha)),
            ("state"@, output::json_quote(state_name(self.state))),
        ]);
        Json::object(fields)
    }
}

/// The row of a slot that is not on disk yet.
pub open spec fn fresh_row(id: Seq<char>, group: Option<Seq<char>>) -> RowView {
    RowView { id, state: State::Fresh, lease: None, group, sha: None, git: None, path: None }
}

// ---------------------------------------------------------------------------
// What git says of a slot
// ---------------------------------------------------------------------------

/// What git answers of one slot.
#[derive(Debug)]
pub struct Answers {
    /// The slot's path.
    pub path: String,
    /// To `git::head_sha`.
    pub sha: GitReply,
    /// To `status_query`, where it was asked.
    pub status: Option<GitReply>,
    /// To `ahead_query`, where it was asked.
    pub ahead: Option<GitReply>,
}

/// `status --porcelain`.
pub open spec fn status_command(path: Seq<char>) -> git::GitCommandView {
    git::command(path, seq!["status"@, "--porcelain"@])
}

/// Asks for a slot's changes.
pub fn status_query(path: &str) -> (r: GitCommand)
    ensures
        r@ == status_command(path@),
{
    let args = ["status", "--porcelain"];
    assert(text::slices(args@) =~= seq!["status"@, "--porcelain"@]);
    git::run_lenient(path, &args)
}

/// `rev-list --count HEAD ^refs/heads/main`.
pub open spec fn ahead_command(path: Seq<char>) -> git::GitCommandView {
    git::command(path, seq!["rev-list"@, "--count"@, "HEAD"@, "^refs/heads/main"@])
}

/// Asks for the number of a slot's commits that `main` has not.
pub fn ahead_query(path: &str) -> (r: GitCommand)
    ensures
        r@ == ahead_command(path@),
{
    let args = ["rev-list", "--count", "HEAD", "^refs/heads/main"];
    assert(text::slices(args@) =~= seq!["rev-list"@, "--count"@, "HEAD"@, "^refs/heads/main"@]);
    git::run_lenient(path, &args)
}

/// The lines that are not empty and mark an untracked path, or do not.
pub open spec fn count_lines(lines: Seq<Seq<char>>, untracked: bool) -> nat
    decreases lines.len(),
{
    if lines.len() == 0 {
        0
    } else {
        count_lines(lines.drop_last(), untracked) + if lines.last().len() > 0
            && "??"@.is_prefix_of(lines.last()) == untracked {
            1nat
        } else {
            0nat
        }
    }
}

/// A count, where it fits.
pub open spec fn fitting(n: nat) -> Option<u32> {
    if n <= u32::MAX {
        Some(n as u32)
    } else {
        None
    }
}

/// The stdout of a run that succeeded.
pub open spec fn stdout_of(c: git::GitCommandView, r: Option<GitReply>) -> Option<Seq<char>> {
    match r {
        None => None,
        Some(reply) => match git::tolerated(c, reply) {
            Ok((true, out, _)) => Some(out),
            _ => None,
        },
    }
}

/// The counts that git's answers give; none without a path.
pub open spec fn counts_of(path: Seq<char>, status: Option<GitReply>, ahead: Option<GitReply>) -> GitCounts {
    let porcelain = stdout_of(status_command(path), status);
    if path.len() == 0 {
        GitCounts { dirty: None, untracked: None, ahead: None }
    } else {
        GitCounts {
            dirty: match porcelain {
                Some(t) => fitting(count_lines(text::lines_of(t), false)),
                None => None,
            },
            untracked: match porcelain {
                Some(t) => fitting(count_lines(text::lines_of(t), true)),
                None => None,
            },
            ahead: match stdout_of(ahead_command(path), ahead) {
                Some(t) => match text::number(t) {
                    Ok(n) => Some(n as u32),
                    Err(_) => None,
                },
                None => None,
            },
        }
    }
}

fn good_stdout(c: GitCommand, r: &Option<GitReply>) -> (t: Option<String>)
    ensures
        text::opt_text(t) == stdout_of(c@, *r),
{
    match r {
        None => None,
        Some(reply) => match c.check_lenient(reply) {
            Ok((true, out, _)) => Some(out),
            _ => None,
        },
    }
}

fn count(porcelain: &str, untracked: bool) -> (r: Option<u32>)
    ensures
        r == fitting(count_lines(text::lines_of(porcelain@), untracked)),
{
    let lines = text::lines(porcelain);
    let ghost all = text::lines_of(porcelain@);
    assert(lines@.len() == text::slices(lines@).len());
    let mut n: usize = 0;
    let mut i: usize = 0;
    while i < lines.len()
        invariant
            i <= lines.len(),
            text::slices(lines@) == all,
            n == count_lines(all.take(i as int), untracked),
            n <= i,
        decreases lines.len() - i,
    {
        assert(all.take(i + 1).drop_last() =~= all.take(i as int));
        assert(all.take(i + 1).last() == lines@[i as int]@) by {
            assert(text::slices(lines@)[i as int] == lines@[i as int]@);
        }
        if !lines[i].is_empty() && text::starts_with(lines[i], "??") == untracked {
            n = n + 1;
        }
        i = i + 1;
    }
    assert(all.take(i as int) =~= all);
    if n <= u32::MAX as usize {
        Some(n as u32)
    } else {
        None
    }
}

/// The counts that git's answers give; none without a path.
pub fn compute_git_counts(
    path: &str,
    status: &Option<GitReply>,
    ahead: &Option<GitReply>,
) -> (r: GitCounts)
    ensures
        r == counts_of(path@, *status, *ahead),
{
    if path.is_empty() {
        return GitCounts { dirty: None, untracked: None, ahead: None };
    }
    let porcelain = good_stdout(status_query(path), status);
    let (dirty, untracked) = match &porcelain {
        Some(t) => (count(t.as_str(), false), count(t.as_str(), true)),
        None => (None, None),
    };
    let ahead = match good_stdout(ahead_query(path), ahead) {
        Some(t) => match text::parse_u32(t.as_str()) {
            Ok(n) => Some(n),
            Err(_) => None,
        },
        None => None,
    };
    GitCounts { dirty, untracked, ahead }
}

/// Git's answers of the slot at a path.
pub open spec fn answers_for(answers: Seq<Answers>, path: Seq<char>) -> Option<Answers>
    decreases answers.len(),
{
    if answers.len() == 0 {
        None
    } else if answers[0].path@ == path {
        Some(answers[0])
    } else {
        answers_for(answers.drop_first(), path)
    }
}

fn find_answers<'a>(answers: &'a Vec<Answers>, path: &str) -> (r: Option<&'a Answers>)
    ensures
        match (r, answers_for(answers@, path@)) {
            (Some(a), Some(b)) => *a == b,
            (None, None) => true,
            _ => false,
        },
{
    let mut i: usize = 0;
    assert(answers@.skip(0) =~= answers@);
    while i < answers.len()
        invariant
            i <= answers.len(),
            answers_for(answers@, path@) == answers_for(answers@.skip(i as int), path@),
        decreases answers.len() - i,
    {
        assert(answers@.skip(i as int)[0] == answers@[i as int]);
        assert(answers@.skip(i as int).drop_first() =~= answers@.skip(i + 1));
        if text::same(answers[i].path.as_str(), path) {
            return Some(&answers[i]);
        }
        i = i + 1;
    }
    None
}

/// The first 8 characters of a commit's text.
pub open spec fn short(sha: Seq<char>) -> Seq<char> {
    if sha.len() > 8 {
        sha.take(8)
    } else {
        sha
    }
}

/// The row of a slot on disk: held where its `HEAD` is on a branch, else idle. Only a
/// held slot's commit is shown.
pub open spec fn row_of(e: slot::SlotEntryView, answers: Seq<Answers>, git_status: bool) -> RowView {
    let lease = e.branch;
    let held = lease is Some;
    let a = answers_for(answers, e.path);
    RowView {
        id: e.id,
        state: if held {
            State::Held
        } else {
            State::Idle
        },
        lease,
        group: e.group,
        sha: if !held {
            None
        } else {
            match a {
                None => None,
                Some(x) => match git::checked(git::head_sha_command(e.path), x.sha) {
                    Ok(sha) => Some(short(sha)),
                    Err(_) => None,
                },
            }
        },
        git: if held && git_status {
            match a {
                None => Some(counts_of(e.path, None, None)),
                Some(x) => Some(counts_of(e.path, x.status, x.ahead)),
            }
        } else {
            None
        },
        path: Some(e.path),
    }
}

fn short_text(sha: &str) -> (r: String)
    ensures
        r@ == short(sha@),
{
    if sha.unicode_len() > 8 {
        text::own(sha.substring_char(0, 8))
    } else {
        text::own(sha)
    }
}

/// The row of a slot on disk.
pub fn build_row(e: &SlotEntry, answers: &Vec<Answers>, git_status: bool) -> (r: Row)
    ensures
        r@ == row_of(e@, answers@, git_status),
{
    let lease = text::own_opt(text::borrow_opt(&e.branch));
    let held = lease.is_some();
    let mut sha: Option<String> = None;
    let mut counts: Option<GitCounts> = None;
    if held {
        let a = find_answers(answers, e.path.as_str());
        if let Some(x) = a {
            if let Ok(full) = git::head_sha(e.path.as_str()).check(&x.sha) {
                sha = Some(short_text(full.as_str()));
            }
        }
        if git_status {
            counts = Some(
                match a {
                    Some(x) => compute_git_counts(e.path.as_str(), &x.status, &x.ahead),
                    None => compute_git_counts(e.path.as_str(), &None, &None),
                },
            );
        }
    }
    Row {
        id: text::own(e.id.as_str()),
        state: if held {
            State::Held
        } else {
            State::Idle
        },
        lease,
        group: text::own_opt(text::borrow_opt(&e.group)),
        sha,
        git: counts,
        path: Some(text::own(e.path.as_str())),
    }
}

// ---------------------------------------------------------------------------
// ls
// ---------------------------------------------------------------------------

/// The rows of the slots on disk, in the listing's order.
pub open spec fn built_rows(
    entries: Seq<slot::SlotEntryView>,
    answers: Seq<Answers>,
    git_status: bool,
) -> Seq<RowView> {
    entries.map_values(|e: slot::SlotEntryView| row_of(e, answers, git_status))
}

/// Whether a slot with this id is on disk.
pub open spec fn present(entries: Seq<slot::SlotEntryView>, id: Seq<char>) -> bool {
    exists|i: int| 0 <= i < entries.len() && (#[trigger] entries[i]).id == id
}

/// The rows of a group's slots below `max_slots` that are not on disk.
pub open spec fn fresh_rows(
    entries: Seq<slot::SlotEntryView>,
    group: Option<Seq<char>>,
    max_slots: nat,
) -> Seq<RowView>
    decreases max_slots,
{
    if max_slots == 0 {
        seq![]
    } else {
        let n = (max_slots - 1) as nat;
        let before = fresh_rows(entries, group, n);
        let id = slot::slot_name(group, n);
        if present(entries, id) {
            before
        } else {
            before.push(fresh_row(id, group))
        }
    }
}

/// The rows of the slots of several groups that are not on disk.
pub open spec fn fresh_in_groups(
    entries: Seq<slot::SlotEntryView>,
    groups: Seq<Seq<char>>,
    max_slots: nat,
) -> Seq<RowView>
    decreases groups.len(),
{
    if groups.len() == 0 {
        seq![]
    } else {
        fresh_in_groups(entries, groups.drop_last(), max_slots) + fresh_rows(
            entries,
            Some(groups.last()),
            max_slots,
        )
    }
}

/// All rows of a listing: the slots on disk, and the canonical slots up to `max_slots`
/// that are not, so that the listing shows the capacity.
pub open spec fn all_rows(
    entries: Seq<slot::SlotEntryView>,
    groups: Seq<Seq<char>>,
    max_slots: u32,
    answers: Seq<Answers>,
    git_status: bool,
) -> Seq<RowView> {
    built_rows(entries, answers, git_status) + if groups.len() == 0 {
        fresh_rows(entries, None, max_slots as nat)
    } else {
        fresh_in_groups(entries, groups, max_slots as nat)
    }
}

/// The order of a listing: by state, then by id.
pub open spec fn row_ordered(a: RowView, b: RowView) -> bool {
    rank(a.state) < rank(b.state) || (rank(a.state) == rank(b.state) && text::ordered(a.id, b.id))
}

/// In the order of a listing.
pub open spec fn rows_sorted(s: Seq<RowView>) -> bool {
    forall|i: int, j: int| 0 <= i < j < s.len() ==> row_ordered(s[i], s[j])
}

/// `rows` are all rows of the listing, in its order.
pub open spec fn lists(
    rows: Seq<RowView>,
    entries: Seq<slot::SlotEntryView>,
    groups: Seq<Seq<char>>,
    max_slots: u32,
    answers: Seq<Answers>,
    git_status: bool,
) -> bool {
    rows_sorted(rows) && rows.to_multiset() == all_rows(
        entries,
        groups,
        max_slots,
        answers,
        git_status,
    ).to_multiset()
}

/// The outcome is a report with this text, and does not fail.
pub open spec fn reports(o: Outcome, report: Seq<char>) -> bool {
    o.failure is None && (o.output matches Output::Json(j) && j@ == report)
}

/// The paths of the held slots, for which git has to be asked.
pub open spec fn asked_paths(entries: Seq<slot::SlotEntryView>) -> Seq<Seq<char>>
    decreases entries.len(),
{
    if entries.len() == 0 {
        seq![]
    } else {
        let before = asked_paths(entries.drop_last());
        if entries.last().branch is Some {
            before.push(entries.last().path)
        } else {
            before
        }
    }
}

/// The paths of the held slots, for which git has to be asked before `ls`.
pub fn held_paths(pool_root: &str, cfg: &PoolConfig, listing: &DirReply) -> (r: Result<
    Vec<String>,
    Error,
>)
    ensures
        match (r, slot::enumerated(pool_root@, cfg@.groups, *listing)) {
            (Ok(v), Ok(entries)) => text::texts(v@) == asked_paths(entries),
            (Err(e), Err(m)) => error::told(e, m),
            _ => false,
        },
{
    let entries = match slot::enumerate(pool_root, cfg, listing) {
        Ok(v) => v,
        Err(e) => {
            return Err(e);
        },
    };
    let ghost views = slot::entry_views(entries@);
    let mut out: Vec<String> = Vec::new();
    let mut i: usize = 0;
    assert(text::texts(out@) =~= asked_paths(views.take(0)));
    while i < entries.len()
        invariant
            i <= entries.len(),
            views == slot::entry_views(entries@),
            text::texts(out@) == asked_paths(views.take(i as int)),
        decreases entries.len() - i,
    {
        assert(views.take(i + 1).drop_last() =~= views.take(i as int));
        assert(views.take(i + 1).last() == entries@[i as int]@);
        let ghost before = text::texts(out@);
        if entries[i].branch.is_some() {
            out.push(text::own(entries[i].path.as_str()));
            assert(text::texts(out@) =~= before.push(entries@[i as int].path@));
        }
        i = i + 1;
    }
    assert(views.take(i as int) =~= views);
    Ok(out)
}

fn in_row_order(a: &Row, b: &Row) -> (r: bool)
    ensures
        r == row_ordered(a@, b@),
{
    let x: u8 = state_order(a.state);
    let y: u8 = state_order(b.state);
    x < y || (x == y && text::in_order(a.id.as_str(), b.id.as_str()))
}

proof fn lemma_row_order(a: RowView, b: RowView, c: RowView)
    ensures
        row_ordered(a, b) || row_ordered(b, a),
        row_ordered(a, b) && row_ordered(b, c) ==> row_ordered(a, c),
{
    text_lemmas::lemma_ordered_total(a.id, b.id);
    if text::ordered(a.id, b.id) && text::ordered(b.id, c.id) {
        text_lemmas::lemma_ordered_transitive(a.id, b.id, c.id);
    }
}

fn insert_row(v: &mut Vec<Row>, e: Row)
    requires
        rows_sorted(row_views(old(v)@)),
    ensures
        rows_sorted(row_views(final(v)@)),
        row_views(final(v)@).to_multiset() == row_views(old(v)@).to_multiset().insert(e@),
{
    let ghost before = row_views(v@);
    let ghost added = e@;
    let mut i: usize = v.len();
    while i > 0 && !in_row_order(&v[i - 1], &e)
        invariant
            before == row_views(v@),
            added == e@,
            i <= v.len(),
            forall|j: int| i <= j < v.len() ==> !row_ordered(before[j], added),
        decreases i,
    {
        i = i - 1;
    }
    v.insert(i, e);
    proof {
        let le = |a: RowView, b: RowView| row_ordered(a, b);
        assert forall|a: RowView, b: RowView| #[trigger] le(a, b) || le(b, a) by {
            lemma_row_order(a, b, b);
        }
        assert forall|a: RowView, b: RowView, c: RowView|
            #[trigger] le(a, b) && #[trigger] le(b, c) implies le(a, c) by {
            lemma_row_order(a, b, c);
        }
        assert(order::sorted(before, le));
        order::lemma_insert_sorted(before, i as int, added, le);
        let after = row_views(v@);
        assert(after =~= before.insert(i as int, added));
        assert forall|x: int, y: int| 0 <= x < y < after.len() implies row_ordered(
            after[x],
            after[y],
        ) by {
            assert(le(after[x], after[y]));
        }
    }
}

fn is_present(entries: &Vec<SlotEntry>, id: &str) -> (r: bool)
    ensures
        r == present(slot::entry_views(entries@), id@),
{
    let ghost views = slot::entry_views(entries@);
    let mut i: usize = 0;
    while i < entries.len()
        invariant
            i <= entries.len(),
            views == slot::entry_views(entries@),
            forall|j: int| 0 <= j < i ==> (#[trigger] views[j]).id != id@,
        decreases entries.len() - i,
    {
        if text::same(entries[i].id.as_str(), id) {
            assert(views[i as int].id == id@);
            return true;
        }
        i = i + 1;
    }
    false
}

proof fn lemma_push_multiset(s: Seq<RowView>, t: Seq<RowView>, x: RowView)
    ensures
        (s + t.push(x)).to_multiset() == (s + t).to_multiset().insert(x),
{
    assert(s + t.push(x) =~= (s + t).push(x));
    vstd::seq_lib::to_multiset_build(s + t, x);
}

fn add_fresh(
    rows: &mut Vec<Row>,
    entries: &Vec<SlotEntry>,
    group: Option<&str>,
    max_slots: u32,
    Ghost(base): Ghost<Seq<RowView>>,
)
    requires
        rows_sorted(row_views(old(rows)@)),
        row_views(old(rows)@).to_multiset() == base.to_multiset(),
    ensures
        rows_sorted(row_views(final(rows)@)),
        row_views(final(rows)@).to_multiset() == (base + fresh_rows(
            slot::entry_views(entries@),
            text::opt_slice(group),
            max_slots as nat,
        )).to_multiset(),
{
    let ghost views = slot::entry_views(entries@);
    let ghost g = text::opt_slice(group);
    let mut n: u32 = 0;
    assert(base + fresh_rows(views, g, 0) =~= base);
    while n < max_slots
        invariant
            n <= max_slots,
            views == slot::entry_views(entries@),
            g == text::opt_slice(group),
            rows_sorted(row_views(rows@)),
            row_views(rows@).to_multiset() == (base + fresh_rows(
                views,
                g,
                n as nat,
            )).to_multiset(),
        decreases max_slots - n,
    {
        let id = slot::canonical_id(group, n);
        let ghost before = fresh_rows(views, g, n as nat);
        let ghost added = fresh_row(id@, g);
        if !is_present(entries, id.as_str()) {
            let row = Row::fresh(id, text::own_opt(group));
            insert_row(rows, row);
            proof {
                lemma_push_multiset(base, before, added);
            }
        }
        n = n + 1;
    }
}

/// The rows of a listing, in its order.
pub fn rows_of(
    entries: &Vec<SlotEntry>,
    cfg: &PoolConfig,
    answers: &Vec<Answers>,
    git_status: bool,
) -> (r: Vec<Row>)
    ensures
        lists(
            row_views(r@),
            slot::entry_views(entries@),
            cfg@.groups,
            cfg.max_slots,
            answers@,
            git_status,
        ),
{
    let ghost views = slot::entry_views(entries@);
    let ghost built = built_rows(views, answers@, git_status);
    let mut rows: Vec<Row> = Vec::new();
    let mut i: usize = 0;
    assert(row_views(rows@) =~= built.take(0));
    while i < entries.len()
        invariant
            i <= entries.len(),
            views == slot::entry_views(entries@),
            built == built_rows(views, answers@, git_status),
            rows_sorted(row_views(rows@)),
            row_views(rows@).to_multiset() == built.take(i as int).to_multiset(),
        decreases entries.len() - i,
    {
        let row = build_row(&entries[i], answers, git_status);
        let ghost added = row@;
        insert_row(&mut rows, row);
        proof {
            assert(built[i as int] == added);
            assert(built.take(i + 1) =~= built.take(i as int).push(added));
            vstd::seq_lib::to_multiset_build(built.take(i as int), added);
        }
        i = i + 1;
    }
    assert(built.take(i as int) =~= built);
    if cfg.groups.len() == 0 {
        add_fresh(&mut rows, entries, None, cfg.max_slots, Ghost(built));
        return rows;
    }
    let ghost groups = cfg@.groups;
    let max_slots: u32 = cfg.max_slots;
    let mut k: usize = 0;
    assert(built + fresh_in_groups(views, groups.take(0), max_slots as nat) =~= built);
    while k < cfg.groups.len()
        invariant
            k <= cfg.groups.len(),
            views == slot::entry_views(entries@),
            groups == cfg@.groups,
            max_slots == cfg.max_slots,
            rows_sorted(row_views(rows@)),
            row_views(rows@).to_multiset() == (built + fresh_in_groups(
                views,
                groups.take(k as int),
                max_slots as nat,
            )).to_multiset(),
        decreases cfg.groups.len() - k,
    {
        let ghost before = fresh_in_groups(views, groups.take(k as int), max_slots as nat);
        let ghost base = built + before;
        let g = cfg.groups[k].as_str();
        add_fresh(&mut rows, entries, Some(g), max_slots, Ghost(base));
        proof {
            assert(groups.take(k + 1).drop_last() =~= groups.take(k as int));
            assert(groups.take(k + 1).last() == g@);
            let more = fresh_rows(views, Some(g@), max_slots as nat);
            assert(base + more =~= built + (before + more));
        }
        k = k + 1;
    }
    assert(groups.take(k as int) =~= groups);
    rows
}

/// The report of `ls`: every slot of the pool, held ones first, each with its id, state,
/// lease, group, commit and path. `answers` are git's answers for `held_paths`.
pub fn ls(
    pool_root: &str,
    cfg: &PoolConfig,
    args: &LsArgs,
    listing: &DirReply,
    answers: &Vec<Answers>,
) -> (r: Result<Outcome, Error>)
    ensures
        match (r, slot::enumerated(pool_root@, cfg@.groups, *listing)) {
            (Ok(o), Ok(entries)) => exists|rows: Seq<RowView>| #[trigger]
                lists(rows, entries, cfg@.groups, cfg.max_slots, answers@, args.git_status)
                    && reports(o, output::array_text(rows.map_values(|w: RowView| row_text(w)))),
            (Err(e), Err(m)) => error::told(e, m),
            _ => false,
        },
{
    let entries = match slot::enumerate(pool_root, cfg, listing) {
        Ok(v) => v,
        Err(e) => {
            return Err(e);
        },
    };
    let rows = rows_of(&entries, cfg, answers, args.git_status);
    let ghost views = row_views(rows@);
    let ghost want = views.map_values(|w: RowView| row_text(w));
    let mut items: Vec<Json> = Vec::new();
    let mut i: usize = 0;
    assert(output::json_texts(items@) =~= want.take(0));
    while i < rows.len()
        invariant
            i <= rows.len(),
            views == row_views(rows@),
            want == views.map_values(|w: RowView| row_text(w)),
            output::json_texts(items@) == want.take(i as int),
        decreases rows.len() - i,
    {
        let ghost before = output::json_texts(items@);
        let j = rows[i].to_json();
        let ghost t = j@;
        items.push(j);
        assert(t == want[i as int]);
        assert(output::json_texts(items@) =~= before.push(t));
        assert(want.take(i + 1) =~= want.take(i as int).push(t));
        i = i + 1;
    }
    assert(want.take(i as int) =~= want);
    let o = Outcome::json(Json::array(items));
    assert(lists(
        views,
        slot::entry_views(entries@),
        cfg@.groups,
        cfg.max_slots,
        answers@,
        args.git_status,
    ));
    Ok(o)
}

// ---------------------------------------------------------------------------
// path and inspect
// ---------------------------------------------------------------------------

/// The slot path of a lease, or of a held slot's id, as a bare line. Exit code 1 and
/// nothing on stdout or stderr where none is held.
pub fn path(pool_root: &str, cfg: &PoolConfig, args: &PathArgs, listing: &DirReply) -> (r: Result<
    Outcome,
    Error,
>)
    ensures
        match (r, slot::enumerated(pool_root@, cfg@.groups, *listing)) {
            (Ok(o), Ok(entries)) => match slot::addressed(entries, args.lease@) {
                Some(e) => o.failure is None && (o.output matches Output::Line(s) && s@ == e.path),
                None => o.output is Empty && o.failure == Some(Failure::Silent(1)),
            },
            (Err(e), Err(m)) => error::told(e, m),
            _ => false,
        },
{
    match slot::enumerate(pool_root, cfg, listing) {
        Err(e) => Err(e),
        Ok(entries) => match slot::find_addressed(&entries, args.lease.as_str()) {
            Some(e) => Ok(Outcome::line(e.path)),
            None => Ok(Outcome::silent_exit(1)),
        },
    }
}

/// The refusal of a lease that nothing is held under.
pub open spec fn nothing_held(lease: Seq<char>, pool_root: Seq<char>) -> Seq<char> {
    "no held slot with branch '"@ + lease + "' in "@ + pool_root
}

/// The slot to inspect: the one held under the lease, or with that id.
pub fn inspected(pool_root: &str, cfg: &PoolConfig, args: &InspectArgs, listing: &DirReply) -> (r:
    Result<SlotEntry, Error>)
    ensures
        match (r, slot::enumerated(pool_root@, cfg@.groups, *listing)) {
            (Ok(a), Ok(entries)) => slot::addressed(entries, args.lease@) == Some(a@),
            (Err(e), Ok(entries)) => slot::addressed(entries, args.lease@) is None && error::told(
                e,
                nothing_held(args.lease@, pool_root@),
            ),
            (Err(e), Err(m)) => error::told(e, m),
            (Ok(_), Err(_)) => false,
        },
{
    match slot::enumerate(pool_root, cfg, listing) {
        Err(e) => Err(e),
        Ok(entries) => match slot::find_addressed(&entries, args.lease.as_str()) {
            Some(e) => Ok(e),
            None => {
                let mut m = text::own("no held slot with branch '");
                m.append(args.lease.as_str());
                m.append("' in ");
                m.append(pool_root);
                Err(Error::new(m))
            },
        },
    }
}

/// `status -sb`.
pub open spec fn brief_status_command(path: Seq<char>) -> git::GitCommandView {
    git::command(path, seq!["status"@, "-sb"@])
}

/// Asks for a slot's status in short form.
pub fn brief_status(path: &str) -> (r: GitCommand)
    ensures
        r@ == brief_status_command(path@),
{
    let args = ["status", "-sb"];
    assert(text::slices(args@) =~= seq!["status"@, "-sb"@]);
    git::run_lenient(path, &args)
}

/// `log --oneline -20 <base>..HEAD`.
pub open spec fn log_command(path: Seq<char>, base: Seq<char>) -> git::GitCommandView {
    git::command(path, seq!["log"@, "--oneline"@, "-20"@, base + "..HEAD"@])
}

/// Asks for a slot's work: its commits that the pool's base has not.
pub fn work_log(path: &str, base: &str) -> (r: GitCommand)
    ensures
        r@ == log_command(path@, base@),
{
    let mut range = text::own(base);
    range.append("..HEAD");
    let args = ["log", "--oneline", "-20", range.as_str()];
    assert(text::slices(args@) =~= seq!["log"@, "--oneline"@, "-20"@, range@]);
    git::run_lenient(path, &args)
}

/// Lines in compact form, or `null`.
pub open spec fn opt_lines(t: Option<Seq<char>>) -> Seq<char> {
    match t {
        Some(s) => output::array_text(output::quoted_lines(text::lines_of(s))),
        None => "null"@,
    }
}

/// The report of one slot.
pub open spec fn slot_text(
    e: slot::SlotEntryView,
    lease: Seq<char>,
    gitdir: Seq<char>,
    sha: Option<Seq<char>>,
    status: Seq<char>,
    base: Seq<char>,
    log: Option<Seq<char>>,
) -> Seq<char> {
    output::object_text(
        seq![
            ("base"@, output::json_quote(base)),
            ("gitdir"@, output::json_quote(gitdir)),
            ("group"@, output::opt_text(e.group)),
            ("id"@, output::json_quote(e.id)),
            ("lease"@, output::json_quote(lease)),
            ("log"@, opt_lines(log)),
            ("path"@, output::json_quote(e.path)),
            ("sha"@, output::opt_text(sha)),
            ("status"@, opt_lines(Some(status))),
        ],
    )
}

/// The lease that a slot is held under; the name it was addressed by where its `HEAD`
/// names no branch.
pub open spec fn lease_of(e: slot::SlotEntryView, name: Seq<char>) -> Seq<char> {
    match e.branch {
        Some(b) => b,
        None => name,
    }
}

/// The report of `inspect`, from the slot that `inspected` gave and git's answers: the
/// slot's git directory, and the replies to `git::head_sha`, `brief_status` and
/// `work_log`. Fails where the directory is not known or git did not start; a commit or
/// a log that git refuses is null.
pub fn inspect(
    cfg: &PoolConfig,
    args: &InspectArgs,
    e: &SlotEntry,
    gitdir: Result<String, Error>,
    sha: &GitReply,
    status: &GitReply,
    log: &GitReply,
) -> (r: Result<Outcome, Error>)
    ensures
        ({
            let base = cfg@.default_commit;
            match (
                gitdir,
                git::tolerated(brief_status_command(e.path@), *status),
                git::tolerated(log_command(e.path@, base), *log),
            ) {
                (Err(x), _, _) => r == Err::<Outcome, Error>(x),
                (Ok(_), Err(m), _) => r matches Err(x) && error::told(x, m),
                (Ok(_), Ok(_), Err(m)) => r matches Err(x) && error::told(x, m),
                (Ok(dir), Ok((_, st, _)), Ok((ok, lg, _))) => r matches Ok(o) && reports(
                    o,
                    slot_text(
                        e@,
                        lease_of(e@, args.lease@),
                        dir@,
                        match git::checked(git::head_sha_command(e.path@), *sha) {
                            Ok(s) => Some(s),
                            Err(_) => None,
                        },
                        st,
                        base,
                        if ok {
                            Some(lg)
                        } else {
                            None
                        },
                    ),
                ),
            }
        }),
{
    let dir = match gitdir {
        Err(x) => {
            return Err(x);
        },
        Ok(d) => d,
    };
    let sha = match git::head_sha(e.path.as_str()).check(sha) {
        Ok(s) => Some(s),
        Err(_) => None,
    };
    let status = match brief_status(e.path.as_str()).check_lenient(status) {
        Err(x) => {
            return Err(x);
        },
        Ok((_, out, _)) => out,
    };
    let base = cfg.default_commit.as_str();
    let log = match work_log(e.path.as_str(), base).check_lenient(log) {
        Err(x) => {
            return Err(x);
        },
        Ok((ok, out, _)) => {
            if ok {
                Some(out)
            } else {
                None
            }
        },
    };
    let lease = match &e.branch {
        Some(b) => text::own(b.as_str()),
        None => text::own(args.lease.as_str()),
    };
    let mut fields: Vec<(&str, Json)> = Vec::new();
    fields.push(("base", Json::string(base)));
    fields.push(("gitdir", output::path(dir.as_str())));
    fields.push(("group", output::opt_str(text::borrow_opt(&e.group))));
    fields.push(("id", Json::string(e.id.as_str())));
    fields.push(("lease", Json::string(lease.as_str())));
    fields.push(
        (
            "log",
            match &log {
                Some(t) => output::lines(t.as_str()),
                None => Json::null(),
            },
        ),
    );
    fields.push(("path", output::path(e.path.as_str())));
    fields.push(("sha", output::opt_str(text::borrow_opt(&sha))));
    fields.push(("status", output::lines(status.as_str())));
    assert(output::field_views(fields@) =~= seq![
        ("base"@, output::json_quote(base@)),
        ("gitdir"@, output::json_quote(dir@)),
        ("group"@, output::opt_text(e@.group)),
        ("id"@, output::json_quote(e@.id)),
        ("lease"@, output::json_quote(lease@)),
        ("log"@, opt_lines(text::opt_text(log))),
        ("path"@, output::json_quote(e@.path)),
        ("sha"@, output::opt_text(text::opt_text(sha))),
        ("status"@, opt_lines(Some(status@))),
    ]);
    Ok(Outcome::json(Json::object(fields)))
}

// ---------------------------------------------------------------------------
// Laws
// ---------------------------------------------------------------------------

proof fn lemma_fresh_members(
    entries: Seq<slot::SlotEntryView>,
    group: Option<Seq<char>>,
    max_slots: nat,
    n: nat,
)
    requires
        n < max_slots,
        !present(entries, slot::slot_name(group, n)),
    ensures
        fresh_rows(entries, group, max_slots).contains(
            fresh_row(slot::slot_name(group, n), group),
        ),
    decreases max_slots,
{
    let k = (max_slots - 1) as nat;
    let before = fresh_rows(entries, group, k);
    let all = fresh_rows(entries, group, max_slots);
    let row = fresh_row(slot::slot_name(group, n), group);
    if n == k {
        assert(all[before.len() as int] == row);
    } else {
        lemma_fresh_members(entries, group, k, n);
        let i = choose|i: int| 0 <= i < before.len() && before[i] == row;
        assert(all[i] == row);
    }
}

proof fn lemma_group_members(
    entries: Seq<slot::SlotEntryView>,
    groups: Seq<Seq<char>>,
    max_slots: nat,
    g: Seq<char>,
    row: RowView,
)
    requires
        groups.contains(g),
        fresh_rows(entries, Some(g), max_slots).contains(row),
    ensures
        fresh_in_groups(entries, groups, max_slots).contains(row),
    decreases groups.len(),
{
    let before = fresh_in_groups(entries, groups.drop_last(), max_slots);
    let own = fresh_rows(entries, Some(groups.last()), max_slots);
    let all = fresh_in_groups(entries, groups, max_slots);
    if groups.last() == g {
        let i = choose|i: int| 0 <= i < own.len() && own[i] == row;
        assert(all[before.len() + i] == row);
    } else {
        let k = choose|k: int| 0 <= k < groups.len() && groups[k] == g;
        assert(groups.drop_last()[k] == g);
        lemma_group_members(entries, groups.drop_last(), max_slots, g, row);
        let i = choose|i: int| 0 <= i < before.len() && before[i] == row;
        assert(all[i] == row);
    }
}

/// A listing shows the pool's whole capacity: every slot on disk has its row, and every
/// canonical slot below `max_slots` of every group that is not on disk has a fresh one.
pub proof fn listing_shows_the_capacity(
    rows: Seq<RowView>,
    entries: Seq<slot::SlotEntryView>,
    groups: Seq<Seq<char>>,
    max_slots: u32,
    answers: Seq<Answers>,
    git_status: bool,
    group: Option<Seq<char>>,
    n: nat,
    k: int,
)
    requires
        lists(rows, entries, groups, max_slots, answers, git_status),
        slot::usable(groups, group),
        n < max_slots,
    ensures
        0 <= k < entries.len() ==> rows.contains(row_of(entries[k], answers, git_status)),
        !present(entries, slot::slot_name(group, n)) ==> rows.contains(
            fresh_row(slot::slot_name(group, n), group),
        ),
        rows.len() >= entries.len(),
{
    broadcast use vstd::seq_lib::group_to_multiset_ensures;

    let all = all_rows(entries, groups, max_slots, answers, git_status);
    let built = built_rows(entries, answers, git_status);
    assert(rows.len() == all.len()) by {
        rows.to_multiset_ensures();
        all.to_multiset_ensures();
    }
    if 0 <= k < entries.len() {
        let row = row_of(entries[k], answers, git_status);
        assert(all[k] == row);
        assert(all.contains(row));
        assert(rows.to_multiset().count(row) > 0);
    }
    let id = slot::slot_name(group, n);
    if !present(entries, id) {
        let row = fresh_row(id, group);
        lemma_fresh_members(entries, group, max_slots as nat, n);
        let rest = if groups.len() == 0 {
            fresh_rows(entries, None, max_slots as nat)
        } else {
            fresh_in_groups(entries, groups, max_slots as nat)
        };
        match group {
            Some(g) => {
                lemma_group_members(entries, groups, max_slots as nat, g, row);
            },
            None => {},
        }
        let i = choose|i: int| 0 <= i < rest.len() && rest[i] == row;
        assert(all[built.len() + i] == row);
        assert(all.contains(row));
        assert(rows.to_multiset().count(row) > 0);
    }
}

/// A row has a lease exactly where it is held, and counts only where they were asked for.
pub proof fn leases_only_on_held_rows(
    e: slot::SlotEntryView,
    answers: Seq<Answers>,
    git_status: bool,
)
    ensures
        row_of(e, answers, git_status).lease is Some <==> row_of(e, answers, git_status).state
            == State::Held,
        row_of(e, answers, git_status).git is Some <==> git_status && row_of(
            e,
            answers,
            git_status,
        ).state == State::Held,
{
}

/// `ls`, `path` and `acquire` agree on who holds what: a row that shows a lease is found
/// by it. Git shows a branch only where `HEAD` is on one.
pub proof fn listed_lease_is_found(
    entries: Seq<slot::SlotEntryView>,
    answers: Seq<Answers>,
    git_status: bool,
    k: int,
)
    requires
        0 <= k < entries.len(),
        row_of(entries[k], answers, git_status).lease is Some,
        slot::holds(entries[k]),
    ensures
        slot::addressed(entries, row_of(entries[k], answers, git_status).lease->0) is Some,
{
    let lease = entries[k].branch->0;
    assert(slot::leased(entries[k], lease));
    slot::lease_lookup_is_complete(entries, lease);
}

} // verus!
