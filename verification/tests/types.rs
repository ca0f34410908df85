//! The domain-key newtypes.
use worktree_pool::types::{BranchName, CommitIsh, FullSha, GroupName, LeaseName, SlotId};

#[test]
fn full_sha_validates_and_shortens() {
    let sha = "a".repeat(40);
    let fs = FullSha::parse(&sha).unwrap();
    assert_eq!(fs.short(), "aaaaaaaa");
    assert_eq!(fs.as_str(), sha);
    assert!(FullSha::parse("abc").is_err(), "short string must be rejected");
    assert!(FullSha::parse(&"z".repeat(40)).is_err(), "non-hex must be rejected");
}

#[test]
fn str_newtypes_roundtrip() {
    assert_eq!(SlotId::from("ios-0").as_str(), "ios-0");
    assert_eq!(GroupName::from("ios").to_string(), "ios");
    assert_eq!(BranchName::from("feat-x".to_string()).into_string(), "feat-x");
}

#[test]
fn other_newtypes_roundtrip() {
    assert_eq!(LeaseName::from("l").clone().as_str(), "l");
    assert_eq!(CommitIsh::from("main".to_string()).to_string(), "main");
}

#[test]
fn full_sha_refusal_shows_the_text() {
    let e = FullSha::parse("abc").unwrap_err();
    assert_eq!(e.message, "not a full 40-char hex SHA: \"abc\"");
    assert_eq!(e.code(), 1);
    let mixed = "0123456789abcdefABCDEF0123456789abcdef01";
    assert_eq!(FullSha::parse(mixed).unwrap().short(), "01234567");
    assert!(FullSha::parse(&"a".repeat(41)).is_err());
    assert!(FullSha::parse("").is_err());
}
