//! The held marker file.
use worktree_pool::lock::{Lock, Timestamp};

#[test]
fn round_trip_with_group() {
    let l = Lock::new(
        "abc123def456abc123def456abc123def4567890".into(),
        Some("ios".into()),
    );
    let s = l.serialize();
    let parsed = Lock::parse(&s).unwrap();
    assert_eq!(parsed.full_sha, l.full_sha);
    assert_eq!(parsed.group.as_deref(), Some("ios"));
}

#[test]
fn round_trip_without_group() {
    let l = Lock::new("0".repeat(40), None);
    let s = l.serialize();
    assert!(!s.contains("group:"), "groupless lock leaked group line: {s:?}");
    let parsed = Lock::parse(&s).unwrap();
    assert_eq!(parsed.group, None);
}

#[test]
fn write_then_read() {
    let path = "/gitdir/worktree-pool/lock";
    let l = Lock::new("0".repeat(40), Some("ios".into()));
    let file = l.write(path);
    assert_eq!(file.path, path);
    let r = Lock::read(path, Ok(file.content)).unwrap();
    assert_eq!(r.full_sha, l.full_sha);
    assert_eq!(r.group.as_deref(), Some("ios"));
}

#[test]
fn parse_rejects_missing_required_fields() {
    assert!(Lock::parse("group: ios\n").is_err());
    assert!(Lock::parse("started_at: 2026-01-01T00:00:00Z\n").is_err());
}

#[test]
fn a_known_moment_is_written_exactly() {
    // 2026-05-05T03:34:56Z
    let at = Timestamp::new(1777952096, 123_456_789).unwrap();
    let l = Lock::at(at, "f".repeat(40), Some("ios".into()));
    assert_eq!(
        l.serialize(),
        format!("started_at: 2026-05-05T03:34:56Z\nfull_sha: {}\ngroup: ios\n", "f".repeat(40))
    );
    let back = Lock::parse(&l.serialize()).unwrap();
    assert_eq!((back.started_at.secs(), back.started_at.nanos()), (1777952096, 0));
}

#[test]
fn four_digit_years_read_back() {
    for secs in [-62_167_219_200i64, -1, 0, 951_782_400, 253_402_300_799] {
        let t = Timestamp::new(secs, 999_999_999).unwrap();
        let back = Timestamp::parse(&t.to_text()).unwrap();
        assert_eq!((back.secs(), back.nanos()), (secs, 0));
    }
    assert_eq!(Timestamp::new(0, 0).unwrap().to_text(), "1970-01-01T00:00:00Z");
    assert_eq!(Timestamp::new(253_402_300_800, 0).unwrap().to_text(), "+10000-01-01T00:00:00Z");
}

#[test]
fn a_leap_second_reads_back_as_one() {
    // 2016-12-31T23:59:60Z
    let at = Timestamp::new(1_483_228_799, 1_500_000_000).unwrap();
    assert_eq!(at.to_text(), "2016-12-31T23:59:60Z");
    let l = Lock::at(at, "f".repeat(40), None);
    let back = Lock::parse(&l.serialize()).unwrap();
    assert_eq!(
        (back.started_at.secs(), back.started_at.nanos()),
        (1_483_228_799, 1_000_000_000)
    );
    assert_eq!((back.full_sha, back.group), ("f".repeat(40), None));
}

#[test]
fn moments_that_chrono_lacks_are_refused() {
    assert!(Timestamp::new(i64::MAX, 0).is_none());
    assert!(Timestamp::new(0, 2_000_000_000).is_none());
    assert!(Timestamp::new(0, 1_000_000_000).is_none());
    assert!(Timestamp::new(59, 1_000_000_000).is_some());
}

#[test]
fn offsets_and_fractions_are_read() {
    let t = Timestamp::parse("1996-12-19T16:39:57.25-08:00").unwrap();
    assert_eq!((t.secs(), t.nanos()), (851042397, 250_000_000));
}

#[test]
fn now_is_past_the_epoch() {
    let l = Lock::new("0".repeat(40), None);
    assert!(l.started_at.secs() > 1_600_000_000);
    assert!(l.started_at.nanos() < 1_000_000_000);
}

#[test]
fn each_fault_of_a_lock_is_told() {
    let told = |t: &str| Lock::parse(t).unwrap_err().message;
    assert_eq!(told(""), "lock missing `started_at`");
    assert_eq!(
        told("started_at: soon\nfull_sha: a\n"),
        "invalid started_at: \"soon\": premature end of input"
    );
    assert_eq!(told("started_at: 2026-01-01T00:00:00Z\n"), "lock missing `full_sha`");
    let e = Lock::read("/l", Err("gone".into())).unwrap_err();
    assert_eq!(e.message, "reading lock /l: gone");
    let e = Lock::read("/l", Ok(String::new())).unwrap_err();
    assert_eq!(e.message, "parsing lock /l: lock missing `started_at`");
}
