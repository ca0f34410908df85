//! Slot identity, enumeration and picking.
use worktree_pool::cli::SubmoduleMirrorMode;
use worktree_pool::config::PoolConfig;
use worktree_pool::slot::{
    acquirable, canonical_id, classify, count_held_in_group, enumerate, find_addressed,
    canonical_paths, find_by_lease, find_by_name, is_held_at, resolve_group, DirReply, Look, Seen,
    SlotEntry,
};
use worktree_pool::types::{CommitIsh, GroupName, LeaseName};

const IDLE: &str = "0000000000000000000000000000000000000000\n";

fn cfg_grouped() -> PoolConfig {
    PoolConfig {
        schema_version: 1,
        source: "/x".into(),
        default_commit: CommitIsh::from("main"),
        max_slots: 4,
        groups: vec![GroupName::from("ios"), GroupName::from("android")],
        submodule_mirror_mode: None::<SubmoduleMirrorMode>,
        submodule_mirror_base: None,
    }
}

fn cfg_groupless() -> PoolConfig {
    let mut c = cfg_grouped();
    c.groups.clear();
    c
}

/// What git shows of a `HEAD` with this text.
fn shown(head: &str) -> Option<String> {
    head.trim_end().strip_prefix("ref: refs/heads/").map(String::from)
}

fn dir(name: &str, head: &str) -> Seen {
    Seen { name: name.into(), is_dir: true, head: Some(head.into()), branch: shown(head) }
}

fn there(head: &str) -> Look {
    Look { exists: true, head: Some(head.into()) }
}

fn absent() -> Look {
    Look { exists: false, head: None }
}

fn entries(cfg: &PoolConfig, items: Vec<Seen>) -> Vec<SlotEntry> {
    enumerate("/pool", cfg, &DirReply::Items(items)).unwrap()
}

#[test]
fn canonical_id_shapes() {
    assert_eq!(canonical_id(Some("ios"), 0), "ios-0");
    assert_eq!(canonical_id(Some("android"), 15), "android-15");
    assert_eq!(canonical_id(None, 7), "slot-7");
}

#[test]
fn classify_grouped() {
    let c = cfg_grouped();
    assert_eq!(classify("ios-3", &c), Some((Some("ios".into()), 3)));
    assert_eq!(classify("langpack-refactor", &c), None);
    assert_eq!(classify("ios-", &c), None);
    // Unknown group → not canonical for this pool.
    assert_eq!(classify("windows-0", &c), None);
}

#[test]
fn classify_groupless() {
    let c = cfg_groupless();
    assert_eq!(classify("slot-2", &c), Some((None, 2)));
    assert_eq!(classify("ios-0", &c), None);
}

#[test]
fn acquirable_picks_fresh() {
    let v = acquirable(None, 3, &vec![absent(), absent(), absent()], &vec![]);
    assert_eq!(
        v.iter().map(|a| (a.n, a.is_fresh)).collect::<Vec<_>>(),
        vec![(0, true), (1, true), (2, true)]
    );
}

#[test]
fn acquirable_marks_recycled_not_fresh() {
    // slot-0 idle on disk (HEAD detached); slot-1 fresh (no dir).
    let v = acquirable(None, 2, &vec![there(IDLE), absent()], &vec![]);
    assert_eq!(
        v.iter().map(|a| (a.n, a.is_fresh)).collect::<Vec<_>>(),
        vec![(0, false), (1, true)]
    );
}

#[test]
fn acquirable_skips_held() {
    // HEAD on a branch = held.
    let looks = vec![there("ref: refs/heads/my-feature\n"), absent(), absent()];
    let v = acquirable(None, 3, &looks, &vec![]);
    assert_eq!(v.iter().map(|a| a.n).collect::<Vec<_>>(), vec![1, 2]);
}

#[test]
fn is_held_treats_empty_head_as_held() {
    // Empty HEAD = corruption → conservative held (don't stomp).
    assert!(is_held_at(&Some(String::new())));
    assert!(is_held_at(&None));
    assert!(is_held_at(&Some("ref: refs/heads/x\n".into())));
    assert!(!is_held_at(&Some(IDLE.into())));
}

#[test]
fn surplus_idle_slots_are_acquirable_lowest_first() {
    let cfg = cfg_groupless();
    let items = vec![
        dir("slot-9", IDLE),
        dir("slot-5", IDLE),
        dir("slot-7", "ref: refs/heads/l\n"),
        dir("slot-1", IDLE),
    ];
    let es = entries(&cfg, items);
    let v = acquirable(None, 2, &vec![absent(), there(IDLE)], &es);
    assert_eq!(
        v.iter().map(|a| (a.n, a.is_fresh)).collect::<Vec<_>>(),
        vec![(0, true), (1, false), (5, false), (9, false)]
    );
}

#[test]
fn a_file_in_a_slots_place_is_not_acquirable() {
    let file = Look { exists: true, head: None };
    let v = acquirable(None, 2, &vec![file, absent()], &vec![]);
    assert_eq!(v.iter().map(|a| (a.n, a.is_fresh)).collect::<Vec<_>>(), vec![(1, true)]);
}

#[test]
fn ids_read_back_whatever_the_other_groups() {
    let mut c = cfg_grouped();
    c.groups = vec![GroupName::from("a"), GroupName::from("a-1"), GroupName::from("")];
    for (g, n) in [("a", 0u32), ("a-1", 2), ("a", 12), ("", 3), ("a-1", u32::MAX)] {
        let id = canonical_id(Some(g), n);
        assert_eq!(classify(&id, &c), Some((Some(g.into()), n)), "{id}");
    }
}

#[test]
fn odd_spellings_of_numbers_are_slots_too() {
    let c = cfg_groupless();
    assert_eq!(classify("slot-007", &c), Some((None, 7)));
    assert_eq!(classify("slot-+7", &c), Some((None, 7)));
    assert_eq!(classify("slot-4294967296", &c), None);
}

#[test]
fn enumerate_keeps_canonical_directories_only() {
    let cfg = cfg_grouped();
    let items = vec![
        dir(".meta", IDLE),
        dir("ios-1", IDLE),
        dir("notes", IDLE),
        Seen { name: "ios-2".into(), is_dir: false, head: None, branch: None },
        dir("android-0", "ref: refs/heads/l\n"),
    ];
    let es = entries(&cfg, items);
    let got: Vec<(&str, &str, Option<&str>, u32)> = es
        .iter()
        .map(|e| (e.id.as_str(), e.path.as_str(), e.group.as_deref(), e.n))
        .collect();
    assert_eq!(
        got,
        vec![
            ("ios-1", "/pool/ios-1", Some("ios"), 1),
            ("android-0", "/pool/android-0", Some("android"), 0)
        ]
    );
}

#[test]
fn enumerate_tells_why_a_listing_failed() {
    let cfg = cfg_grouped();
    assert!(enumerate("/pool", &cfg, &DirReply::Missing).unwrap().is_empty());
    let e = enumerate("/pool", &cfg, &DirReply::Failed("denied".into())).unwrap_err();
    assert_eq!(e.message, "read_dir /pool: denied");
    let e = enumerate("/pool", &cfg, &DirReply::Broken("bad item".into())).unwrap_err();
    assert_eq!(e.message, "bad item");
}

#[test]
fn groups_are_resolved() {
    let c = cfg_grouped();
    let (g, note) = resolve_group(&c, Some("android")).unwrap();
    assert_eq!((g.as_deref(), note.as_deref()), (Some("android"), None));
    let (g, note) = resolve_group(&c, None).unwrap();
    assert_eq!(g.as_deref(), Some("ios"));
    assert_eq!(
        note.as_deref(),
        Some("--group not given; defaulting to 'ios' (first of: ios, android)")
    );
    let e = resolve_group(&c, Some("tv")).unwrap_err();
    assert_eq!(e.message, "unknown group 'tv'; pool's groups: ios, android");
    let none = cfg_groupless();
    assert_eq!(resolve_group(&none, None).unwrap(), (None, None));
    let e = resolve_group(&none, Some("ios")).unwrap_err();
    assert_eq!(e.message, "pool has no groups configured; --group is not allowed");
}

#[test]
fn held_slots_are_counted_per_group() {
    let es = entries(
        &cfg_grouped(),
        vec![
            dir("ios-0", "ref: refs/heads/a\n"),
            dir("ios-1", IDLE),
            dir("android-0", "ref: refs/heads/b\n"),
            Seen { name: "ios-2".into(), is_dir: true, head: None, branch: None },
        ],
    );
    assert_eq!(count_held_in_group(&es, Some("ios")), 2);
    assert_eq!(count_held_in_group(&es, Some("android")), 1);
    assert_eq!(count_held_in_group(&es, None), 0);
}

#[test]
fn slots_are_found_by_lease_and_by_id() {
    let cfg = cfg_grouped();
    let listing = DirReply::Items(vec![
        dir("ios-0", "ref: refs/heads/feat-x\n"),
        dir("ios-1", IDLE),
    ]);
    let found = find_by_name("/pool", &cfg, &listing, "feat-x").unwrap().unwrap();
    assert_eq!(found.id, "ios-0");
    assert!(find_by_name("/pool", &cfg, &listing, "ios-0").unwrap().is_none());
    let lease = LeaseName::from("feat-x");
    assert!(find_by_lease("/pool", &cfg, &listing, &lease).unwrap().is_some());
    let es = enumerate("/pool", &cfg, &listing).unwrap();
    assert_eq!(find_addressed(&es, "feat-x").unwrap().id, "ios-0");
    assert_eq!(find_addressed(&es, "ios-0").unwrap().id, "ios-0");
    assert!(find_addressed(&es, "ios-1").is_none());
    assert!(find_addressed(&es, "nobody").is_none());
}

#[test]
fn below_capacity_there_is_a_candidate() {
    let cfg = cfg_grouped();
    let items = vec![
        dir("ios-0", "ref: refs/heads/a\n"),
        dir("ios-1", "ref: refs/heads/b\n"),
        dir("ios-3", "ref: refs/heads/c\n"),
    ];
    let es = entries(&cfg, items);
    assert!(count_held_in_group(&es, Some("ios")) < 4);
    let looks = vec![
        there("ref: refs/heads/a\n"),
        there("ref: refs/heads/b\n"),
        absent(),
        there("ref: refs/heads/c\n"),
    ];
    let v = acquirable(Some("ios"), 4, &looks, &es);
    assert_eq!(v.iter().map(|a| (a.n, a.is_fresh)).collect::<Vec<_>>(), vec![(2, true)]);
}

#[test]
fn the_paths_of_a_group_are_looked_at() {
    assert_eq!(canonical_paths("/pool", None, 2), vec!["/pool/slot-0", "/pool/slot-1"]);
    // A group with a slash lies below the pool's directory, where no listing shows it.
    assert_eq!(canonical_paths("/pool", Some("a/b"), 1), vec!["/pool/a/b-0"]);
    assert!(canonical_paths("/pool", None, 0).is_empty());
}
