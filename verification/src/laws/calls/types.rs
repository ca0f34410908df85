//! Laws of the small types as they are called.
use crate::error::Error;
use crate::exit::ExitKind;
use crate::types::{BranchName, CommitIsh, FullSha, GroupName, LeaseName, SlotId};
use vstd::prelude::*;

verus! {

/// A full commit id is forty hexadecimal digits, in either case, and nothing else; it is kept
/// as it is, and shown by its first eight.
pub proof fn a_full_commit_id_is_forty_digits(
    s: &str,
    r: Result<FullSha, Error>,
    sha: &FullSha,
    whole: &str,
    short: &str,
)
    requires
        call_ensures(FullSha::parse, (s,), r),
        call_ensures(FullSha::as_str, (sha,), whole),
        call_ensures(FullSha::short, (sha,), short),
    ensures
        r is Ok <==> s@.len() == 40 && forall|i: int|
            0 <= i < 40 ==> ('0' <= #[trigger] s@[i] <= '9') || ('a' <= s@[i] <= 'f') || ('A'
                <= s@[i] <= 'F'),
        r matches Ok(x) ==> x@ == s@,
        r matches Err(e) ==> e.kind is None,
        whole@ == sha@,
        short@ == sha@.subrange(0, 8),
{
    assert(sha@.take(8) =~= sha@.subrange(0, 8));
    if s@.len() == 40 && forall|i: int|
        0 <= i < 40 ==> ('0' <= #[trigger] s@[i] <= '9') || ('a' <= s@[i] <= 'f') || ('A' <= s@[i]
            <= 'F') {
        assert(crate::types::is_full_sha(s@));
    }
    if crate::types::is_full_sha(s@) {
        assert forall|i: int| 0 <= i < 40 implies ('0' <= #[trigger] s@[i] <= '9') || ('a' <= s@[i]
            <= 'f') || ('A' <= s@[i] <= 'F') by {
            assert(crate::types::is_hex(s@[i]));
        }
    }
}

/// The named texts give back the text that they hold.
pub proof fn named_texts_hold_their_text(
    slot: &SlotId,
    a: &str,
    branch: &BranchName,
    b: &str,
    lease: &LeaseName,
    c: &str,
    group: &GroupName,
    d: &str,
    commit: &CommitIsh,
    e: &str,
)
    requires
        call_ensures(SlotId::as_str, (slot,), a),
        call_ensures(BranchName::as_str, (branch,), b),
        call_ensures(LeaseName::as_str, (lease,), c),
        call_ensures(GroupName::as_str, (group,), d),
        call_ensures(CommitIsh::as_str, (commit,), e),
    ensures
        a@ == slot@,
        b@ == branch@,
        c@ == lease@,
        d@ == group@,
        e@ == commit@,
{
}

/// What is put into a named text comes out of it as it was, owned or borrowed.
pub proof fn named_texts_give_back_what_they_were_given(
    s: String,
    slot: SlotId,
    a: String,
    branch: BranchName,
    b: String,
    lease: LeaseName,
    c: String,
    group: GroupName,
    d: String,
    commit: CommitIsh,
    e: String,
)
    requires
        call_ensures(<SlotId as From<String>>::from, (s,), slot),
        call_ensures(SlotId::to_string, (&slot,), a),
        call_ensures(<BranchName as From<String>>::from, (s,), branch),
        call_ensures(BranchName::to_string, (&branch,), b),
        call_ensures(<LeaseName as From<String>>::from, (s,), lease),
        call_ensures(LeaseName::to_string, (&lease,), c),
        call_ensures(<GroupName as From<String>>::from, (s,), group),
        call_ensures(GroupName::to_string, (&group,), d),
        call_ensures(<CommitIsh as From<String>>::from, (s,), commit),
        call_ensures(CommitIsh::to_string, (&commit,), e),
    ensures
        a@ == s@,
        b@ == s@,
        c@ == s@,
        d@ == s@,
        e@ == s@,
{
}

/// Taking the text out of a named text gives it as it was.
pub proof fn named_texts_are_taken_out(
    slot: SlotId,
    a: String,
    branch: BranchName,
    b: String,
    lease: LeaseName,
    c: String,
    group: GroupName,
    d: String,
    commit: CommitIsh,
    e: String,
)
    requires
        call_ensures(SlotId::into_string, (slot,), a),
        call_ensures(BranchName::into_string, (branch,), b),
        call_ensures(LeaseName::into_string, (lease,), c),
        call_ensures(GroupName::into_string, (group,), d),
        call_ensures(CommitIsh::into_string, (commit,), e),
    ensures
        a@ == slot@,
        b@ == branch@,
        c@ == lease@,
        d@ == group@,
        e@ == commit@,
{
}

/// An error keeps its kind and message; what was being done comes before the message; a kind's
/// name comes behind it. The exit code is the kind's, or one.
pub proof fn errors_say(
    message: String,
    kind: ExitKind,
    e: Error,
    doing: &str,
    plain: Error,
    tagged: Error,
    more: Error,
    code: i32,
    own: i32,
    label: &'static str,
)
    requires
        call_ensures(Error::new, (message,), plain),
        call_ensures(Error::tagged, (kind, message), tagged),
        call_ensures(Error::context, (e, doing), more),
        call_ensures(Error::code, (&e,), code),
        call_ensures(ExitKind::code, (kind,), own),
        call_ensures(ExitKind::label, (kind,), label),
    ensures
        plain.kind is None && plain.message@ == message@,
        tagged.kind == Some(kind) && tagged.message@ == message@ + ": "@ + label@,
        more.kind == e.kind && more.message@ == doing@ + ": "@ + e.message@,
        e.kind is None ==> code == 1,
        e.kind == Some(kind) ==> code == own,
        kind == ExitKind::Contended ==> own == 3 && label@ == "contended"@,
        kind == ExitKind::Capacity ==> own == 4 && label@ == "capacity"@,
        kind == ExitKind::LeaseHeld ==> own == 6 && label@ == "lease-held"@,
{
}

} // verus!
