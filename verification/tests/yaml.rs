//! The line-oriented YAML.
use worktree_pool::yaml::{parse, serialize};

#[test]
fn round_trip_scalar() {
    let text = serialize(&[("kind", "build".to_string()), ("name", "abc".to_string())]);
    let map = parse(&text);
    assert_eq!(map.get("kind").map(String::as_str), Some("build"));
    assert_eq!(map.get("name").map(String::as_str), Some("abc"));
}

#[test]
fn skips_empty_values() {
    let text = serialize(&[("kind", "build".to_string()), ("group", String::new())]);
    assert!(text.contains("kind: build"));
    assert!(!text.contains("group:"));
}

#[test]
fn line_anchored_volatile_grep_contract() {
    // Scripts match with an anchored pattern on the whole line.
    let text = serialize(&[("volatile", "true".to_string())]);
    assert!(
        text.lines().any(|l| l == "volatile: true"),
        "no line-anchored 'volatile: true' in {text:?}"
    );
}

#[test]
fn parse_tolerates_comments_and_blanks() {
    let text = "
# header
kind: build

name: foo
";
    let m = parse(text);
    assert_eq!(m.get("kind").map(String::as_str), Some("build"));
    assert_eq!(m.get("name").map(String::as_str), Some("foo"));
    assert_eq!(m.len(), 2);
}

#[test]
fn parse_strips_bom_and_crlf() {
    let m = parse("\u{FEFF}kind: build\r\nname: foo\r\n");
    assert_eq!(m.get("kind").map(String::as_str), Some("build"));
    assert_eq!(m.get("name").map(String::as_str), Some("foo"));
}

#[test]
fn serialized_text_is_exact() {
    let text = serialize(&[
        ("a", "1".to_string()),
        ("b", String::new()),
        ("c", "x: y # z".to_string()),
    ]);
    assert_eq!(text, "a: 1\nc: x: y # z\n");
}

#[test]
fn values_keep_colons_and_lose_outer_space() {
    let m = parse("stamp:  2026-05-05T03:34:56Z \n");
    assert_eq!(m.get("stamp").map(String::as_str), Some("2026-05-05T03:34:56Z"));
}

#[test]
fn later_lines_replace_earlier_ones() {
    let m = parse("k: one\nk: two\n");
    assert_eq!(m.get("k").map(String::as_str), Some("two"));
    assert_eq!(m.len(), 1);
}

#[test]
fn lines_without_a_key_are_skipped() {
    let m = parse("no colon here\n: value\n   \n#k: v\n");
    assert!(m.is_empty());
    assert_eq!(m.len(), 0);
    assert!(m.get("k").is_none());
}

#[test]
fn an_empty_value_is_kept_when_read() {
    let m = parse("k:\n");
    assert_eq!(m.get("k").map(String::as_str), Some(""));
}

#[test]
fn a_second_text_overrides_the_first() {
    for a in ["k: 1\nx: 2", "k: 1\nx: 2\n", "\u{FEFF}k: 1\r\nx: 2\r"] {
        let both = parse(&format!("{a}\n{}", "\u{FEFF}k: 3\ny: 4"));
        let get = |key: &str| both.get(key).map(String::as_str);
        assert_eq!((get("k"), get("x"), get("y")), (Some("3"), Some("2"), Some("4")));
        assert_eq!(both.len(), 3);
        for line in ["", "  ", "# k: 9"] {
            let same = parse(&format!("{a}\n{line}"));
            assert_eq!(same.get("k").map(String::as_str), Some("1"));
            assert_eq!(same.len(), 2);
        }
    }
    assert!(parse("\n").is_empty());
}
