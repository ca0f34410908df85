//! A held marker as a file: when a slot was taken, at which commit, in which group.
//! One to three lines of the pool's line-oriented YAML.
use crate::config::FileWrite;
use crate::debug;
use crate::error;
use crate::error::Error;
use crate::text;
use crate::text_lemmas;
use crate::yaml;
use vstd::prelude::*;

verus! {

// ---------------------------------------------------------------------------
// Points in time
// ---------------------------------------------------------------------------

/// The RFC 3339 text, in UTC and to the second, that `chrono` gives a number of seconds
/// since the epoch and of nanoseconds past it. None where it has no such point in time.
pub uninterp spec fn rfc3339_text(secs: i64, nanos: u32) -> Option<Seq<char>>;

/// The seconds since the epoch, and nanoseconds past them, that `chrono` reads in an
/// RFC 3339 text; or what it says is wrong.
pub uninterp spec fn rfc3339_read(text: Seq<char>) -> Result<(i64, u32), Seq<char>>;

/// From the year 0 to the year 9999, which RFC 3339 writes in four digits.
pub open spec fn four_digit_year(secs: i64) -> bool {
    -62_167_219_200 <= secs <= 253_402_300_799
}

/// Whether there is such a point in time in a four-digit year. A leap second is a second
/// more in the last one of a minute: its nanoseconds begin at a second.
pub open spec fn is_point(secs: i64, nanos: u32) -> bool {
    nanos < 1_000_000_000 || (nanos < 2_000_000_000 && secs % 60 == 59)
}

/// The nanoseconds without their fraction of a second: a leap second stays one.
pub open spec fn whole(nanos: u32) -> u32 {
    if nanos < 1_000_000_000 {
        0
    } else {
        1_000_000_000
    }
}

/// A text that reads as a point in time, to the second.
pub open spec fn reads_as(text: Seq<char>, secs: i64, nanos: u32) -> bool {
    rfc3339_read(text) == Ok::<(i64, u32), Seq<char>>((secs, whole(nanos)))
}

/// `chrono::DateTime::from_timestamp` and `to_rfc3339_opts` with seconds and `Z`. The
/// result is named. It is one line of digits and signs without white space. In a
/// four-digit year every point in time has one, and it reads back as the same second, a
/// leap second as a leap second; the fraction of a second is not written.
#[verifier::external_body]
fn to_rfc3339(secs: i64, nanos: u32) -> (r: Option<String>)
    ensures
        text::opt_text(r) == rfc3339_text(secs, nanos),
        r is Some ==> r->0@.len() > 0 && text_lemmas::tight(r->0@) && text_lemmas::lacks(
            r->0@,
            '\n',
        ),
        four_digit_year(secs) ==> (r is Some <==> is_point(secs, nanos)),
        four_digit_year(secs) && r is Some ==> reads_as(r->0@, secs, nanos),
{
    chrono::DateTime::from_timestamp(secs, nanos).map(
        |d| d.to_rfc3339_opts(chrono::SecondsFormat::Secs, true),
    )
}

/// `chrono::DateTime::parse_from_rfc3339`, and the error's text. The result is named. What
/// it reads is a point in time that `to_rfc3339` can write.
#[verifier::external_body]
fn from_rfc3339(s: &str) -> (r: Result<(i64, u32), String>)
    ensures
        match (r, rfc3339_read(s@)) {
            (Ok(a), Ok(b)) => a == b && rfc3339_text(a.0, a.1) is Some,
            (Err(a), Err(b)) => a@ == b,
            _ => false,
        },
{
    match chrono::DateTime::parse_from_rfc3339(s) {
        Ok(d) => Ok((d.timestamp(), d.timestamp_subsec_nanos())),
        Err(e) => Err(e.to_string()),
    }
}

/// `chrono::Utc::now`. It rests on the clock, so nothing ties two calls together; what it
/// gives lies past the epoch, outside leap seconds, and can be written. Chrono panics
/// where the clock stands before the epoch.
#[verifier::external_body]
fn now() -> (r: (i64, u32))
    ensures
        r.0 >= 0,
        r.1 < 1_000_000_000,
        rfc3339_text(r.0, r.1) is Some,
{
    let d = chrono::Utc::now();
    (d.timestamp(), d.timestamp_subsec_nanos())
}

/// A point in time that has an RFC 3339 text.
#[derive(Debug, Clone, Copy, PartialEq, Eq)]
pub struct Timestamp {
    secs: i64,
    nanos: u32,
}

/// A point in time: seconds since the epoch, and nanoseconds past them.
pub struct TimestampView {
    pub secs: i64,
    pub nanos: u32,
}

impl View for Timestamp {
    type V = TimestampView;

    closed spec fn view(&self) -> TimestampView {
        TimestampView { secs: self.secs, nanos: self.nanos }
    }
}

impl Timestamp {
    #[verifier::type_invariant]
    spec fn writable(self) -> bool {
        rfc3339_text(self.secs, self.nanos) is Some
    }

    /// The point in time with these seconds and nanoseconds, where there is one.
    pub fn new(secs: i64, nanos: u32) -> (r: Option<Timestamp>)
        ensures
            r is Some <==> rfc3339_text(secs, nanos) is Some,
            four_digit_year(secs) ==> (r is Some <==> is_point(secs, nanos)),
            r matches Some(t) ==> t@ == (TimestampView { secs, nanos }),
    {
        match to_rfc3339(secs, nanos) {
            Some(_) => Some(Timestamp { secs, nanos }),
            None => None,
        }
    }

    /// Seconds since the epoch.
    pub fn secs(&self) -> (r: i64)
        ensures
            r == self@.secs,
    {
        self.secs
    }

    /// Nanoseconds past the second.
    pub fn nanos(&self) -> (r: u32)
        ensures
            r == self@.nanos,
    {
        self.nanos
    }

    /// The RFC 3339 text, in UTC and to the second.
    pub fn to_text(&self) -> (r: String)
        ensures
            Some(r@) == rfc3339_text(self@.secs, self@.nanos),
            r@.len() > 0,
            text_lemmas::tight(r@),
            text_lemmas::lacks(r@, '\n'),
            four_digit_year(self@.secs) ==> reads_as(r@, self@.secs, self@.nanos),
    {
        proof {
            use_type_invariant(self);
        }
        match to_rfc3339(self.secs, self.nanos) {
            Some(t) => t,
            None => text::own(""),
        }
    }

    /// The point in time that an RFC 3339 text names.
    pub fn parse(s: &str) -> (r: Result<Timestamp, Error>)
        ensures
            match (r, rfc3339_read(s@)) {
                (Ok(t), Ok((secs, nanos))) => t@ == (TimestampView { secs, nanos }),
                (Err(e), Err(m)) => error::told(e, m),
                _ => false,
            },
    {
        match from_rfc3339(s) {
            Ok((secs, nanos)) => Ok(Timestamp { secs, nanos }),
            Err(m) => Err(Error::new(m)),
        }
    }
}

// ---------------------------------------------------------------------------
// Locks
// ---------------------------------------------------------------------------

/// A slot's held marker.
#[derive(Debug)]
pub struct Lock {
    pub started_at: Timestamp,
    pub full_sha: String,
    /// None in a pool without groups.
    pub group: Option<String>,
}

/// A held marker as text and numbers.
#[verifier::ext_equal]
pub struct LockView {
    pub secs: i64,
    pub nanos: u32,
    pub full_sha: Seq<char>,
    pub group: Option<Seq<char>>,
}

impl View for Lock {
    type V = LockView;

    open spec fn view(&self) -> LockView {
        LockView {
            secs: self.started_at@.secs,
            nanos: self.started_at@.nanos,
            full_sha: self.full_sha@,
            group: text::opt_text(self.group),
        }
    }
}

/// The pairs that a held marker is written as.
pub open spec fn lock_entries(l: LockView) -> Seq<yaml::Entry> {
    seq![
        ("started_at"@, rfc3339_text(l.secs, l.nanos)->0),
        ("full_sha"@, l.full_sha),
        (
            "group"@,
            match l.group {
                Some(g) => g,
                None => seq![],
            },
        ),
    ]
}

/// The text that a held marker is written as.
pub open spec fn lock_text(l: LockView) -> Seq<char> {
    yaml::document(lock_entries(l))
}

/// The held marker that a mapping holds, or a message.
pub open spec fn lock_in(m: Map<Seq<char>, Seq<char>>) -> Result<LockView, Seq<char>> {
    if !m.contains_key("started_at"@) {
        Err("lock missing `started_at`"@)
    } else {
        let stamp = m["started_at"@];
        match rfc3339_read(stamp) {
            Err(why) => Err("invalid started_at: "@ + debug::debug_form(stamp) + ": "@ + why),
            Ok((secs, nanos)) => if !m.contains_key("full_sha"@) {
                Err("lock missing `full_sha`"@)
            } else {
                Ok(
                    LockView {
                        secs,
                        nanos,
                        full_sha: m["full_sha"@],
                        group: if m.contains_key("group"@) && m["group"@].len() > 0 {
                            Some(m["group"@])
                        } else {
                            None
                        },
                    },
                )
            },
        }
    }
}

/// The held marker that a text holds, or a message.
pub open spec fn lock_read(text: Seq<char>) -> Result<LockView, Seq<char>> {
    lock_in(yaml::parsed(text))
}

/// A held marker that a file can hold: a four-digit year, a commit, and no group or one
/// that is not empty, each without line breaks or white space around it.
pub open spec fn storable(l: LockView) -> bool {
    &&& four_digit_year(l.secs)
    &&& l.full_sha.len() > 0
    &&& text_lemmas::tight(l.full_sha)
    &&& text_lemmas::lacks(l.full_sha, '\n')
    &&& l.group matches Some(g) ==> g.len() > 0 && text_lemmas::tight(g) && text_lemmas::lacks(
        g,
        '\n',
    )
}

/// The same marker, to the second.
pub open spec fn to_the_second(l: LockView) -> LockView {
    LockView { secs: l.secs, nanos: whole(l.nanos), full_sha: l.full_sha, group: l.group }
}

proof fn lemma_lock_reads_back(l: LockView)
    requires
        storable(l),
        rfc3339_text(l.secs, l.nanos) matches Some(t) && t.len() > 0 && text_lemmas::tight(t)
            && text_lemmas::lacks(t, '\n') && reads_as(t, l.secs, l.nanos),
    ensures
        lock_read(lock_text(l)) == Ok::<LockView, Seq<char>>(to_the_second(l)),
{
    reveal_strlit("started_at");
    reveal_strlit("full_sha");
    reveal_strlit("group");
    let e = lock_entries(l);
    assert(e[0].0.len() == 10 && e[1].0.len() == 8 && e[2].0.len() == 5);
    assert(yaml::writable(e[0]));
    assert(yaml::writable(e[1]));
    assert(yaml::writable(e[2]));
    assert forall|i: int, j: int| 0 <= i < j < e.len() implies e[i].0 != e[j].0 by {
        assert(i == 0 || i == 1);
        assert(j == 1 || j == 2);
    }
    yaml::parse_undoes_serialize(e);
    yaml::lemma_kept(e);
    assert(e[0].0 == "started_at"@ && e[1].0 == "full_sha"@ && e[2].0 == "group"@);
}

impl Lock {
    /// A marker that begins now. Of its time only this is known: it lies past the epoch.
    pub fn new(full_sha: String, group: Option<String>) -> (r: Lock)
        ensures
            r.full_sha == full_sha,
            r.group == group,
            r@.secs >= 0,
            r@.nanos < 1_000_000_000,
    {
        let (secs, nanos) = now();
        Lock::at(Timestamp { secs, nanos }, full_sha, group)
    }

    /// A marker that began at a given time.
    pub fn at(started_at: Timestamp, full_sha: String, group: Option<String>) -> (r: Lock)
        ensures
            r.started_at == started_at,
            r.full_sha == full_sha,
            r.group == group,
    {
        Lock { started_at, full_sha, group }
    }

    /// The text that the marker is written as. A marker that a file can hold reads back
    /// the same, to the second.
    pub fn serialize(&self) -> (r: String)
        ensures
            r@ == lock_text(self@),
            storable(self@) ==> lock_read(r@) == Ok::<LockView, Seq<char>>(to_the_second(self@)),
    {
        let stamp = self.started_at.to_text();
        let group = match &self.group {
            Some(g) => text::own(g.as_str()),
            None => String::new(),
        };
        let ghost t = stamp@;
        let pairs: [(&str, String); 3] = [
            ("started_at", stamp),
            ("full_sha", text::own(self.full_sha.as_str())),
            ("group", group),
        ];
        assert(yaml::entries(pairs@) =~= lock_entries(self@));
        proof {
            if storable(self@) {
                lemma_lock_reads_back(self@);
            }
        }
        yaml::serialize(&pairs)
    }

    /// The marker that a text holds.
    pub fn parse(text: &str) -> (r: Result<Lock, Error>)
        ensures
            match (r, lock_read(text@)) {
                (Ok(l), Ok(v)) => l@ == v,
                (Err(e), Err(m)) => error::told(e, m),
                _ => false,
            },
    {
        let map = yaml::parse(text);
        let stamp = match map.get("started_at") {
            None => {
                return Err(Error::new(text::own("lock missing `started_at`")));
            },
            Some(s) => s.as_str(),
        };
        let started_at = match Timestamp::parse(stamp) {
            Err(e) => {
                let mut doing = text::own("invalid started_at: ");
                doing.append(debug::debug_text(stamp).as_str());
                return Err(e.context(doing.as_str()));
            },
            Ok(t) => t,
        };
        let full_sha = match map.get("full_sha") {
            None => {
                return Err(Error::new(text::own("lock missing `full_sha`")));
            },
            Some(s) => text::own(s.as_str()),
        };
        let group = match map.get("group") {
            None => None,
            Some(g) => {
                if g.as_str().is_empty() {
                    None
                } else {
                    Some(text::own(g.as_str()))
                }
            },
        };
        Ok(Lock { started_at, full_sha, group })
    }

    /// The write that stores the marker.
    pub fn write(&self, path: &str) -> (r: FileWrite)
        ensures
            r.path@ == path@,
            r.content@ == lock_text(self@),
            storable(self@) ==> lock_read(r.content@) == Ok::<LockView, Seq<char>>(
                to_the_second(self@),
            ),
    {
        FileWrite { path: text::own(path), content: self.serialize() }
    }

    /// The marker in a file, from what reading it gave: the text, or why there is none.
    pub fn read(path: &str, content: Result<String, String>) -> (r: Result<Lock, Error>)
        ensures
            match content {
                Ok(t) => match lock_read(t@) {
                    Ok(v) => r matches Ok(l) && l@ == v,
                    Err(m) => r matches Err(e) && error::told(
                        e,
                        "parsing lock "@ + path@ + ": "@ + m,
                    ),
                },
                Err(why) => r matches Err(e) && error::told(
                    e,
                    "reading lock "@ + path@ + ": "@ + why@,
                ),
            },
    {
        match content {
            Err(why) => {
                let mut doing = text::own("reading lock ");
                doing.append(path);
                Err(Error::new(why).context(doing.as_str()))
            },
            Ok(t) => match Lock::parse(t.as_str()) {
                Ok(l) => Ok(l),
                Err(e) => {
                    let mut doing = text::own("parsing lock ");
                    doing.append(path);
                    Err(e.context(doing.as_str()))
                },
            },
        }
    }
}

} // verus!
