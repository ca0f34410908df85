//! Text functions, against the standard library's.
use worktree_pool::text;

const SAMPLES: [&str; 12] = [
    "",
    " ",
    "a",
    "  a b  ",
    "\u{a0}nbsp\u{2003}",
    "one\ntwo\r\nthree",
    "\n\n",
    "x\r",
    "k: v: w",
    "ünïcödé\n",
    "../foo//bar.git",
    "..a..",
];

#[test]
fn white_space_is_what_the_standard_library_says() {
    for code in 0..=0x10FFFFu32 {
        if let Some(c) = char::from_u32(code) {
            assert_eq!(text::is_white(c), c.is_whitespace(), "code {code}");
        }
    }
}

#[test]
fn trimming_and_lines_agree() {
    for s in SAMPLES {
        assert_eq!(text::trim(s), s.trim());
        assert_eq!(text::lines(s), s.lines().collect::<Vec<_>>());
        assert_eq!(text::trim_start_matches(s, '.'), s.trim_start_matches('.'));
        assert_eq!(text::trim_suffix(s, ".git"), s.strip_suffix(".git").unwrap_or(s));
    }
}

#[test]
fn splitting_agrees() {
    for s in SAMPLES {
        for c in ['.', ':', ' ', '\n'] {
            assert_eq!(text::split(s, c), s.split(c).collect::<Vec<_>>());
            assert_eq!(text::split_once(s, c), s.split_once(c));
            assert_eq!(text::rsplit_once(s, c), s.rsplit_once(c));
        }
        for p in ["", "..", "//", "two"] {
            assert_eq!(text::strip_prefix(s, p), s.strip_prefix(p));
            assert_eq!(text::starts_with(s, p), s.starts_with(p));
            assert_eq!(text::split_once_str(s, p), s.split_once(p));
        }
    }
}

#[test]
fn order_and_equality_agree() {
    for a in SAMPLES {
        for b in SAMPLES {
            assert_eq!(text::in_order(a, b), a <= b);
            assert_eq!(text::same(a, b), a == b);
        }
    }
}

#[test]
fn joining_agrees() {
    let parts: Vec<String> = vec!["a".into(), "".into(), "c".into()];
    assert_eq!(text::join(&parts, ", "), parts.join(", "));
    assert_eq!(text::join(&vec![], ", "), "");
}

#[test]
fn numbers_agree() {
    for n in [0u64, 7, 10, 4294967295, 4294967296, u64::MAX] {
        assert_eq!(text::to_decimal(n), n.to_string());
    }
    for s in ["0", "007", "+7", "4294967295", "4294967296", "", "+", "-1", "1 ", "x"] {
        assert_eq!(text::parse_u32(s).ok(), s.parse::<u32>().ok(), "{s:?}");
    }
}
