//! What `.gitmodules` declares, filtering, and mirrors.
use worktree_pool::cli::SubmoduleMirrorMode;
use worktree_pool::config::PoolConfig;
use worktree_pool::submodules::{
    child_scope, declares_submodules, effective_url, extract_org_repo, iter_keys,
    parse_gitmodules_text, partition, rewrite_url, SubmoduleEntry,
};
use worktree_pool::types::CommitIsh;

fn cfg(mode: Option<SubmoduleMirrorMode>, base: Option<&str>) -> PoolConfig {
    PoolConfig {
        schema_version: 1,
        source: "/x".into(),
        default_commit: CommitIsh::from("main"),
        max_slots: 4,
        groups: vec![],
        submodule_mirror_mode: mode,
        submodule_mirror_base: base.map(String::from),
    }
}

#[test]
fn parse_gitmodules_basic() {
    let raw = "\
submodule.foo.path=path/to/foo
submodule.foo.url=git@github.com:org/foo.git
submodule.foo.worktreepooltag=editor
submodule.bar.path=bar
submodule.bar.url=https://github.com/org/bar.git
";
    let mut entries = parse_gitmodules_text(raw);
    entries.sort_by(|a, b| a.name.cmp(&b.name));
    assert_eq!(entries.len(), 2);
    assert_eq!(entries[0].name, "bar");
    assert_eq!(entries[1].name, "foo");
    assert_eq!(entries[1].tags, vec!["editor".to_string()]);
    assert!(entries[0].tags.is_empty());
}

#[test]
fn parse_gitmodules_multi_tag() {
    let raw = "\
submodule.foo.path=foo
submodule.foo.url=u
submodule.foo.worktreepooltag=editor
submodule.foo.worktreepooltag=optional
";
    let entries = parse_gitmodules_text(raw);
    assert_eq!(entries[0].tags, vec!["editor", "optional"]);
}

#[test]
fn extract_org_repo_forms() {
    assert_eq!(
        extract_org_repo("git@github.com:org/repo.git").as_deref(),
        Some("org/repo")
    );
    assert_eq!(
        extract_org_repo("https://github.com/org/repo.git").as_deref(),
        Some("org/repo")
    );
    assert_eq!(
        extract_org_repo("git://git.studioboxcat.com/org/repo.git").as_deref(),
        Some("org/repo")
    );
    assert_eq!(extract_org_repo("totally-not-a-url"), None);
}

#[test]
fn rewrite_url_bare_mirror() {
    let cfg = cfg(Some(SubmoduleMirrorMode::BareMirror), Some("/mirrors"));
    assert_eq!(
        rewrite_url(&cfg, "name", "git@github.com:org/repo.git", "").as_deref(),
        Some("/mirrors/org/repo.git")
    );
}

#[test]
fn rewrite_url_git_modules() {
    let cfg = cfg(
        Some(SubmoduleMirrorMode::SourceSubmodules),
        Some("/Users/foo/meow-tower"),
    );
    assert_eq!(
        rewrite_url(&cfg, "Packages/com.foo", "git@github.com:org/foo.git", "").as_deref(),
        Some("/Users/foo/meow-tower/.git/modules/Packages/com.foo")
    );
    // Nested
    assert_eq!(
        rewrite_url(&cfg, "child", "git@github.com:org/child.git", "Packages/com.foo/modules")
            .as_deref(),
        Some("/Users/foo/meow-tower/.git/modules/Packages/com.foo/modules/child")
    );
}

#[test]
fn entries_come_by_path_and_need_path_and_url() {
    let raw = "\
submodule.z.path=b/z
submodule.z.url=u1
submodule.z.url=u2
submodule.half.path=half
submodule.a.b.path=a
submodule.a.b.url=u=v
core.bare=false
submodule.broken
submodule.no-key=1
";
    let entries = parse_gitmodules_text(raw);
    let got: Vec<(&str, &str, &str)> = entries
        .iter()
        .map(|e| (e.name.as_str(), e.path.as_str(), e.url.as_str()))
        .collect();
    assert_eq!(got, vec![("a.b", "a", "u=v"), ("z", "b/z", "u2")]);
    assert!(declares_submodules(raw));
    assert!(!declares_submodules("submodule.half.path=half\n"));
    assert!(!declares_submodules(""));
}

#[test]
fn keys_are_listed_in_order() {
    assert_eq!(
        iter_keys("submodule.a.path=p\n\nother=1\nsubmodule.a.b.url=x=y\r\n"),
        vec![("a", "path", "p"), ("a.b", "url", "x=y")]
    );
}

#[test]
fn org_and_repo_edge_cases() {
    assert_eq!(extract_org_repo("https://host").as_deref(), None);
    assert_eq!(extract_org_repo("host:").as_deref(), Some(""));
    assert_eq!(extract_org_repo("ssh://git@host:22/o/r").as_deref(), Some("o/r"));
    assert_eq!(extract_org_repo("../sibling.git"), None);
    assert_eq!(extract_org_repo("https://h/o/r.git.git").as_deref(), Some("o/r.git"));
}

fn entry(name: &str, url: &str, tags: &[&str]) -> SubmoduleEntry {
    SubmoduleEntry {
        name: name.into(),
        path: name.into(),
        url: url.into(),
        tags: tags.iter().map(|t| t.to_string()).collect(),
    }
}

#[test]
fn urls_never_fall_back_to_the_declared_one() {
    let none = cfg(None, None);
    let e = effective_url(&none, &entry("n", "git@h:o/r.git", &[]), "").unwrap_err();
    assert_eq!(
        e.message,
        "submodule n has url `git@h:o/r.git` and no `submodule_mirror_*` rewrite applies to it. \
         Configure a mirror in pool config that does; the declared url is never fetched from."
    );
    for url in ["./r.git", "../r.git"] {
        let e = effective_url(&none, &entry("n", url, &[]), "").unwrap_err();
        assert_eq!(
            e.message,
            format!(
                "submodule n has relative url `{url}` and no `submodule_mirror_*` rewrite is \
                 configured. Either configure a mirror in pool config, or change the submodule \
                 URL to absolute."
            )
        );
    }
    let bare = cfg(Some(SubmoduleMirrorMode::BareMirror), Some("/m"));
    assert!(effective_url(&bare, &entry("n", "../r.git", &[]), "").is_err());
    assert!(effective_url(&bare, &entry("n", "plain", &[]), "").is_err());
    assert_eq!(effective_url(&bare, &entry("n", "h:o/r", &[]), "").unwrap(), "/m/o/r.git");
    let source = cfg(Some(SubmoduleMirrorMode::SourceSubmodules), Some("/s"));
    assert_eq!(
        effective_url(&source, &entry("n", "../r.git", &[]), "").unwrap(),
        "/s/.git/modules/n"
    );
}

#[test]
fn nested_mirrors_lie_under_their_parents() {
    let source = cfg(Some(SubmoduleMirrorMode::SourceSubmodules), Some("/s"));
    let top = child_scope("", "outer");
    assert_eq!(top, "outer/modules");
    let deep = child_scope(&top, "mid");
    assert_eq!(deep, "outer/modules/mid/modules");
    assert_eq!(
        rewrite_url(&source, "leaf", "u", &deep).as_deref(),
        Some("/s/.git/modules/outer/modules/mid/modules/leaf")
    );
}

#[test]
fn tags_part_the_top_level_only() {
    let all = || {
        vec![
            entry("a", "u", &["editor"]),
            entry("b", "u", &[]),
            entry("c", "u", &["x", "ci"]),
            entry("d", "u", &["Editor"]),
        ]
    };
    let names = |v: &[SubmoduleEntry]| v.iter().map(|e| e.name.clone()).collect::<Vec<_>>();
    let tags = vec!["editor".to_string(), "ci".to_string()];
    let (skip, keep) = partition(all(), &tags, "");
    assert_eq!(names(&skip), vec!["a", "c"]);
    assert_eq!(names(&keep), vec!["b", "d"]);
    let (skip, keep) = partition(all(), &tags, "outer/modules");
    assert!(skip.is_empty());
    assert_eq!(names(&keep), vec!["a", "b", "c", "d"]);
}
