//! Laws of the held marker.
use crate::lock;
use crate::lock::LockView;
use crate::yaml;
use vstd::prelude::*;

verus! {

/// A marker's file has three keys: when it began, the commit, and the group where there is
/// one.
pub proof fn a_marker_is_written_as(l: LockView, stamp: Seq<char>)
    requires
        lock::rfc3339_text(l.secs, l.nanos) == Some(stamp),
        stamp.len() > 0,
        l.full_sha.len() > 0,
    ensures
        l.group is None ==> lock::lock_text(l) == "started_at"@ + ": "@ + stamp + "\n"@ + "full_sha"@
            + ": "@ + l.full_sha + "\n"@,
        l.group matches Some(g) ==> g.len() > 0 ==> lock::lock_text(l) == "started_at"@ + ": "@
            + stamp + "\n"@ + "full_sha"@ + ": "@ + l.full_sha + "\n"@ + "group"@ + ": "@ + g + "\n"@,
{
    let a = ("started_at"@, stamp);
    let b = ("full_sha"@, l.full_sha);
    let e = lock::lock_entries(l);
    let none = Seq::<yaml::Entry>::empty();
    let one = none.push(a);
    let two = one.push(b);
    crate::laws::yaml::pairs_are_written_line_by_line(none, a.0, a.1);
    crate::laws::yaml::pairs_are_written_line_by_line(one, b.0, b.1);
    crate::laws::yaml::pairs_are_written_line_by_line(two, e[2].0, e[2].1);
    assert(e =~= two.push(e[2]));
    assert(yaml::document(none) =~= Seq::<char>::empty());
    assert(yaml::document(one) =~= "started_at"@ + ": "@ + stamp + "\n"@);
}

/// A marker is read from those keys: it needs a time that can be read and a commit; an empty
/// group is none.
pub proof fn a_marker_is_read_from(m: Map<Seq<char>, Seq<char>>)
    ensures
        lock::lock_in(m) is Ok <==> m.contains_key("started_at"@) && lock::rfc3339_read(
            m["started_at"@],
        ) is Ok && m.contains_key("full_sha"@),
        lock::lock_in(m) matches Ok(l) ==> {
            &&& lock::rfc3339_read(m["started_at"@]) == Ok::<(i64, u32), Seq<char>>((l.secs, l.nanos))
            &&& l.full_sha == m["full_sha"@]
            &&& l.group is Some <==> m.contains_key("group"@) && m["group"@].len() > 0
            &&& l.group matches Some(g) ==> g == m["group"@]
        },
        !m.contains_key("started_at"@) ==> lock::lock_in(m) == Err::<LockView, Seq<char>>(
            "lock missing `started_at`"@,
        ),
        m.contains_key("started_at"@) && lock::rfc3339_read(m["started_at"@]) is Ok
            && !m.contains_key("full_sha"@) ==> lock::lock_in(m) == Err::<LockView, Seq<char>>(
            "lock missing `full_sha`"@,
        ),
{
}

/// A time that cannot be read is told with its text and what is wrong with it.
pub proof fn an_unreadable_time_is_told(m: Map<Seq<char>, Seq<char>>, why: Seq<char>)
    requires
        m.contains_key("started_at"@),
        lock::rfc3339_read(m["started_at"@]) == Err::<(i64, u32), Seq<char>>(why),
    ensures
        lock::lock_in(m) == Err::<LockView, Seq<char>>(
            "invalid started_at: "@ + crate::debug::debug_form(m["started_at"@]) + ": "@ + why,
        ),
{
}

/// What reading back a marker loses is the fraction of a second, and nothing else.
pub proof fn a_marker_is_kept_to_the_second(l: LockView)
    ensures
        lock::to_the_second(l).secs == l.secs,
        lock::to_the_second(l).full_sha == l.full_sha,
        lock::to_the_second(l).group == l.group,
        l.nanos < 1_000_000_000 ==> lock::to_the_second(l).nanos == 0,
        l.nanos >= 1_000_000_000 ==> lock::to_the_second(l).nanos == 1_000_000_000,
{
}

} // verus!
