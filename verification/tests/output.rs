//! The stdout contract.
use serde_json::Value;
use worktree_pool::error::Error;
use worktree_pool::exit::ExitKind;
use worktree_pool::output::{lines, opt_num, opt_str, path, settle, Json, Outcome, Output};

fn awkward() -> Vec<&'static str> {
    vec![
        "",
        "plain",
        "quote \" backslash \\ slash /",
        "line\nbreak\r\ttab",
        "\u{0}\u{1}\u{1f}\u{7f}",
        "ünïcödé 🔴 \u{2028}",
    ]
}

#[test]
fn strings_are_quoted_like_serde_json() {
    for s in awkward() {
        let text = Json::string(s).render();
        assert_eq!(text, serde_json::to_string(s).unwrap());
        assert_eq!(serde_json::from_str::<Value>(&text).unwrap(), Value::String(s.to_string()));
        assert!(!text.contains('\n'));
        assert_ne!(text, s);
    }
}

#[test]
fn each_kind_of_character_has_its_escape() {
    let shown = |s: &str| Json::string(s).render();
    assert_eq!(shown("\"\\/"), r#""\"\\/""#);
    assert_eq!(shown("\u{8}\u{9}\u{a}\u{c}\u{d}"), r#""\b\t\n\f\r""#);
    assert_eq!(shown("\u{0}\u{b}\u{1f}"), r#""\u0000\u000b\u001f""#);
    assert_eq!(shown("\u{7f}é"), "\"\u{7f}é\"");
}

#[test]
fn values_render_like_serde_json() {
    let mut map = serde_json::Map::new();
    map.insert("a".into(), Value::Null);
    map.insert("b".into(), Value::Bool(true));
    map.insert(
        "c".into(),
        Value::Array(vec![
            Value::from(7u64),
            Value::String("x\ny".into()),
            Value::Array(vec![]),
        ]),
    );
    map.insert("d".into(), Value::Object(serde_json::Map::new()));
    map.insert("e".into(), Value::Bool(false));
    let ours = Json::object(vec![
        ("a", Json::null()),
        ("b", Json::boolean(true)),
        (
            "c",
            Json::array(vec![Json::number(7), Json::string("x\ny"), Json::array(vec![])]),
        ),
        ("d", Json::object(vec![])),
        ("e", Json::boolean(false)),
    ]);
    let theirs = Value::Object(map);
    assert_eq!(ours.render(), serde_json::to_string(&theirs).unwrap());
    assert_eq!(ours.render(), r#"{"a":null,"b":true,"c":[7,"x\ny",[]],"d":{},"e":false}"#);
}

#[test]
fn helpers_render() {
    assert_eq!(path("/a b").render(), "\"/a b\"");
    assert_eq!(opt_str(None).render(), "null");
    assert_eq!(opt_str(Some("x")).render(), "\"x\"");
    assert_eq!(opt_num(None).render(), "null");
    assert_eq!(opt_num(Some(4294967295)).render(), "4294967295");
    assert_eq!(lines("a\n\nb\n").render(), r#"["a","b"]"#);
    assert_eq!(lines("").render(), "[]");
}

#[test]
fn each_outcome_settles() {
    let e = settle(Ok(Outcome::none()));
    assert_eq!((e.stdout, e.stderr, e.code), (None, None, 0));
    let e = settle(Ok(Outcome::line("/p/ios-0".into())));
    assert_eq!((e.stdout.as_deref(), e.stderr, e.code), (Some("/p/ios-0"), None, 0));
    let e = settle(Ok(Outcome::json(Json::null())));
    assert_eq!((e.stdout.as_deref(), e.stderr, e.code), (Some("null"), None, 0));
    let e = settle(Ok(Outcome::silent_exit(1)));
    assert_eq!((e.stdout, e.stderr, e.code), (None, None, 1));
    let e = settle(Ok(Outcome::from(Output::Empty)));
    assert_eq!((e.stdout, e.stderr, e.code), (None, None, 0));
}

#[test]
fn a_report_survives_its_failure() {
    let e = settle(Ok(Outcome::json_failing(
        Json::array(vec![]),
        Error::new("1 error(s), 0 warning(s)".into()),
    )));
    assert_eq!(e.stdout.as_deref(), Some("[]"));
    assert_eq!(e.stderr.as_deref(), Some("error: 1 error(s), 0 warning(s)"));
    assert_eq!(e.code, 1);
}

#[test]
fn failures_exit_by_kind() {
    for (kind, code, label) in [
        (ExitKind::Contended, 3, "contended"),
        (ExitKind::Capacity, 4, "capacity"),
        (ExitKind::LeaseHeld, 6, "lease-held"),
    ] {
        let e = settle(Err(Error::tagged(kind, "m".into()).context("doing")));
        assert_eq!(e.code, code);
        assert_eq!(e.stdout, None);
        assert_eq!(e.stderr, Some(format!("error: doing: m: {label}")));
        assert_eq!(kind.code(), code);
        assert_eq!(kind.label(), label);
    }
    let e = settle(Err(Error::new("m".into())));
    assert_eq!((e.code, e.stderr.as_deref()), (1, Some("error: m")));
}
