//! Submodules: what `.gitmodules` declares, tag-based filtering, and the local
//! mirrors that their URLs are rewritten to.
//!
//! Updating a checkout's submodules is a machine per directory level, with one worker
//! per submodule; a worker's own nested submodules are another level.
use crate::cli::SubmoduleMirrorMode;
use crate::config;
use crate::config::PoolConfig;
use crate::effect;
use crate::effect::{Action, Reply, Turn};
use crate::error;
use crate::error::Error;
use crate::exit::ExitKind;
use crate::fs_paths;
use crate::git;
use crate::git::GitReply;
use crate::order;
use crate::parallel;
use crate::text;
use crate::text_lemmas;
use vstd::prelude::*;

verus! {

// ---------------------------------------------------------------------------
// .gitmodules
// ---------------------------------------------------------------------------

/// A submodule's name, a key of it, and the key's value.
pub type Key = (Seq<char>, Seq<char>, Seq<char>);

/// The submodule key that a line of `git config --list` holds:
/// `submodule.<name>.<key>=<value>`.
pub open spec fn key_of(line: Seq<char>) -> Option<Key> {
    match text::after_prefix(line, "submodule."@) {
        None => None,
        Some(rest) => match text::halves(rest, '=') {
            None => None,
            Some((sub_and_key, value)) => match text::last_halves(sub_and_key, '.') {
                None => None,
                Some((name, key)) => Some((name, key, value)),
            },
        },
    }
}

/// The submodule keys that lines hold, in their order.
pub open spec fn keys_in(lines: Seq<Seq<char>>) -> Seq<Key>
    decreases lines.len(),
{
    if lines.len() == 0 {
        seq![]
    } else {
        let before = keys_in(lines.drop_last());
        match key_of(lines.last()) {
            Some(k) => before.push(k),
            None => before,
        }
    }
}

/// The submodule keys that the text of a config listing holds.
pub open spec fn keys_of(raw: Seq<char>) -> Seq<Key> {
    keys_in(text::lines_of(raw))
}

/// Keys as text.
pub open spec fn key_views(v: Seq<(&str, &str, &str)>) -> Seq<Key> {
    v.map_values(|k: (&str, &str, &str)| (k.0@, k.1@, k.2@))
}

fn parse_key<'a>(line: &'a str) -> (r: Option<(&'a str, &'a str, &'a str)>)
    ensures
        match (r, key_of(line@)) {
            (Some(a), Some(b)) => (a.0@, a.1@, a.2@) == b,
            (None, None) => true,
            _ => false,
        },
{
    match text::strip_prefix(line, "submodule.") {
        None => None,
        Some(rest) => match text::split_once(rest, '=') {
            None => None,
            Some((sub_and_key, value)) => match text::rsplit_once(sub_and_key, '.') {
                None => None,
                Some((name, key)) => Some((name, key, value)),
            },
        },
    }
}

/// The `(submodule name, key, value)` of each `submodule.<name>.<key>=<value>` line.
/// Git lowercases keys on read, whatever their casing in the file.
pub fn iter_keys<'a>(raw: &'a str) -> (r: Vec<(&'a str, &'a str, &'a str)>)
    ensures
        key_views(r@) == keys_of(raw@),
{
    let lines = text::lines(raw);
    let ghost all = text::lines_of(raw@);
    let mut out: Vec<(&'a str, &'a str, &'a str)> = Vec::new();
    let mut i: usize = 0;
    assert(lines@.len() == text::slices(lines@).len());
    assert(key_views(out@) =~= keys_in(all.take(0)));
    while i < lines.len()
        invariant
            i <= lines.len(),
            text::slices(lines@) == all,
            key_views(out@) == keys_in(all.take(i as int)),
        decreases lines.len() - i,
    {
        assert(all.take(i + 1).drop_last() =~= all.take(i as int));
        assert(all.take(i + 1).last() == lines@[i as int]@) by {
            assert(text::slices(lines@)[i as int] == lines@[i as int]@);
        }
        let ghost before = key_views(out@);
        if let Some(k) = parse_key(lines[i]) {
            out.push(k);
            assert(key_views(out@) =~= before.push((k.0@, k.1@, k.2@)));
        }
        i = i + 1;
    }
    assert(all.take(i as int) =~= all);
    out
}

/// A submodule that `.gitmodules` declares.
#[derive(Debug)]
pub struct SubmoduleEntry {
    pub name: String,
    pub path: String,
    pub url: String,
    pub tags: Vec<String>,
}

/// A submodule as text.
#[verifier::ext_equal]
pub struct SubmoduleView {
    pub name: Seq<char>,
    pub path: Seq<char>,
    pub url: Seq<char>,
    pub tags: Seq<Seq<char>>,
}

impl View for SubmoduleEntry {
    type V = SubmoduleView;

    open spec fn view(&self) -> SubmoduleView {
        SubmoduleView {
            name: self.name@,
            path: self.path@,
            url: self.url@,
            tags: text::texts(self.tags@),
        }
    }
}

/// Submodules as text.
pub open spec fn module_views(v: Seq<SubmoduleEntry>) -> Seq<SubmoduleView> {
    v.map_values(|e: SubmoduleEntry| e@)
}

/// The last value of a submodule's key.
pub open spec fn last_of(keys: Seq<Key>, name: Seq<char>, key: Seq<char>) -> Option<Seq<char>>
    decreases keys.len(),
{
    if keys.len() == 0 {
        None
    } else if keys.last().0 == name && keys.last().1 == key {
        Some(keys.last().2)
    } else {
        last_of(keys.drop_last(), name, key)
    }
}

/// All values of a submodule's key, in their order.
pub open spec fn all_of(keys: Seq<Key>, name: Seq<char>, key: Seq<char>) -> Seq<Seq<char>>
    decreases keys.len(),
{
    if keys.len() == 0 {
        seq![]
    } else {
        let before = all_of(keys.drop_last(), name, key);
        if keys.last().0 == name && keys.last().1 == key {
            before.push(keys.last().2)
        } else {
            before
        }
    }
}

/// The names of the submodules, each once.
pub open spec fn names_in(keys: Seq<Key>) -> Seq<Seq<char>>
    decreases keys.len(),
{
    if keys.len() == 0 {
        seq![]
    } else {
        let before = names_in(keys.drop_last());
        if before.contains(keys.last().0) {
            before
        } else {
            before.push(keys.last().0)
        }
    }
}

/// The submodule of a name, where it has a path and a URL.
pub open spec fn module_of(keys: Seq<Key>, name: Seq<char>) -> Option<SubmoduleView> {
    match (last_of(keys, name, "path"@), last_of(keys, name, "url"@)) {
        (Some(path), Some(url)) => Some(
            SubmoduleView { name, path, url, tags: all_of(keys, name, "worktreepooltag"@) },
        ),
        _ => None,
    }
}

/// The submodules of these names that have a path and a URL.
pub open spec fn modules_of(keys: Seq<Key>, names: Seq<Seq<char>>) -> Seq<SubmoduleView>
    decreases names.len(),
{
    if names.len() == 0 {
        seq![]
    } else {
        let before = modules_of(keys, names.drop_last());
        match module_of(keys, names.last()) {
            Some(m) => before.push(m),
            None => before,
        }
    }
}

/// The submodules that the text of a `.gitmodules` listing declares.
pub open spec fn declared(raw: Seq<char>) -> Seq<SubmoduleView> {
    modules_of(keys_of(raw), names_in(keys_of(raw)))
}

/// In order of their paths.
pub open spec fn by_path(s: Seq<SubmoduleView>) -> bool {
    forall|i: int, j: int| 0 <= i < j < s.len() ==> text::ordered(s[i].path, s[j].path)
}

/// `entries` are the declared submodules, in order of their paths.
pub open spec fn lists_declared(entries: Seq<SubmoduleView>, raw: Seq<char>) -> bool {
    by_path(entries) && entries.to_multiset() == declared(raw).to_multiset()
}

fn find_last<'a>(keys: &Vec<(&'a str, &'a str, &'a str)>, name: &str, key: &str) -> (r: Option<
    String,
>)
    ensures
        text::opt_text(r) == last_of(key_views(keys@), name@, key@),
{
    let ghost all = key_views(keys@);
    let mut i: usize = keys.len();
    assert(all.take(i as int) =~= all);
    while i > 0
        invariant
            i <= keys.len(),
            all == key_views(keys@),
            last_of(all, name@, key@) == last_of(all.take(i as int), name@, key@),
        decreases i,
    {
        assert(all.take(i as int).drop_last() =~= all.take(i - 1));
        assert(all.take(i as int).last() == (keys@[i - 1].0@, keys@[i - 1].1@, keys@[i - 1].2@));
        if text::same(keys[i - 1].0, name) && text::same(keys[i - 1].1, key) {
            return Some(text::own(keys[i - 1].2));
        }
        i = i - 1;
    }
    None
}

fn find_all<'a>(keys: &Vec<(&'a str, &'a str, &'a str)>, name: &str, key: &str) -> (r: Vec<String>)
    ensures
        text::texts(r@) == all_of(key_views(keys@), name@, key@),
{
    let ghost all = key_views(keys@);
    let mut out: Vec<String> = Vec::new();
    let mut i: usize = 0;
    assert(text::texts(out@) =~= all_of(all.take(0), name@, key@));
    while i < keys.len()
        invariant
            i <= keys.len(),
            all == key_views(keys@),
            text::texts(out@) == all_of(all.take(i as int), name@, key@),
        decreases keys.len() - i,
    {
        assert(all.take(i + 1).drop_last() =~= all.take(i as int));
        assert(all.take(i + 1).last() == (
            keys@[i as int].0@,
            keys@[i as int].1@,
            keys@[i as int].2@,
        ));
        let ghost before = text::texts(out@);
        if text::same(keys[i].0, name) && text::same(keys[i].1, key) {
            out.push(text::own(keys[i].2));
            assert(text::texts(out@) =~= before.push(keys@[i as int].2@));
        }
        i = i + 1;
    }
    assert(all.take(i as int) =~= all);
    out
}

fn holds_text(v: &Vec<&str>, s: &str) -> (r: bool)
    ensures
        r == text::slices(v@).contains(s@),
{
    let mut i: usize = 0;
    while i < v.len()
        invariant
            i <= v.len(),
            forall|j: int| 0 <= j < i ==> v@[j]@ != s@,
        decreases v.len() - i,
    {
        if text::same(v[i], s) {
            assert(text::slices(v@)[i as int] == s@);
            return true;
        }
        i = i + 1;
    }
    false
}

fn find_names<'a>(keys: &Vec<(&'a str, &'a str, &'a str)>) -> (r: Vec<&'a str>)
    ensures
        text::slices(r@) == names_in(key_views(keys@)),
{
    let ghost all = key_views(keys@);
    let mut out: Vec<&'a str> = Vec::new();
    let mut i: usize = 0;
    assert(text::slices(out@) =~= names_in(all.take(0)));
    while i < keys.len()
        invariant
            i <= keys.len(),
            all == key_views(keys@),
            text::slices(out@) == names_in(all.take(i as int)),
        decreases keys.len() - i,
    {
        assert(all.take(i + 1).drop_last() =~= all.take(i as int));
        assert(all.take(i + 1).last() == (
            keys@[i as int].0@,
            keys@[i as int].1@,
            keys@[i as int].2@,
        ));
        let ghost before = text::slices(out@);
        let name = keys[i].0;
        if !holds_text(&out, name) {
            out.push(name);
            assert(text::slices(out@) =~= before.push(name@));
        }
        i = i + 1;
    }
    assert(all.take(i as int) =~= all);
    out
}

fn insert_by_path(v: &mut Vec<SubmoduleEntry>, e: SubmoduleEntry)
    requires
        by_path(module_views(old(v)@)),
    ensures
        by_path(module_views(final(v)@)),
        module_views(final(v)@).to_multiset() == module_views(old(v)@).to_multiset().insert(e@),
{
    let ghost before = module_views(v@);
    let ghost added = e@;
    let mut i: usize = v.len();
    while i > 0 && !text::in_order(v[i - 1].path.as_str(), e.path.as_str())
        invariant
            before == module_views(v@),
            added == e@,
            i <= v.len(),
            forall|j: int| i <= j < v.len() ==> !text::ordered(before[j].path, added.path),
        decreases i,
    {
        i = i - 1;
    }
    v.insert(i, e);
    proof {
        let le = |a: SubmoduleView, b: SubmoduleView| text::ordered(a.path, b.path);
        assert forall|a: SubmoduleView, b: SubmoduleView| #[trigger] le(a, b) || le(b, a) by {
            text_lemmas::lemma_ordered_total(a.path, b.path);
        }
        assert forall|a: SubmoduleView, b: SubmoduleView, c: SubmoduleView|
            #[trigger] le(a, b) && #[trigger] le(b, c) implies le(a, c) by {
            text_lemmas::lemma_ordered_transitive(a.path, b.path, c.path);
        }
        assert(order::sorted(before, le));
        order::lemma_insert_sorted(before, i as int, added, le);
        let after = module_views(v@);
        assert(after =~= before.insert(i as int, added));
        assert forall|x: int, y: int| 0 <= x < y < after.len() implies text::ordered(
            after[x].path,
            after[y].path,
        ) by {
            assert(le(after[x], after[y]));
        }
    }
}

/// The submodules that a `.gitmodules` listing declares, in order of their paths.
/// Of a key that occurs more than once the last value counts; tags add up. A
/// submodule without a path or a URL is left out.
pub fn parse_gitmodules_text(raw: &str) -> (r: Vec<SubmoduleEntry>)
    ensures
        lists_declared(module_views(r@), raw@),
{
    let keys = iter_keys(raw);
    let names = find_names(&keys);
    let ghost all = keys_of(raw@);
    let ghost order = names_in(all);
    let mut out: Vec<SubmoduleEntry> = Vec::new();
    let mut i: usize = 0;
    assert(names@.len() == text::slices(names@).len());
    assert(module_views(out@) =~= modules_of(all, order.take(0)));
    while i < names.len()
        invariant
            i <= names.len(),
            all == keys_of(raw@),
            key_views(keys@) == all,
            order == names_in(all),
            text::slices(names@) == order,
            by_path(module_views(out@)),
            module_views(out@).to_multiset() == modules_of(
                all,
                order.take(i as int),
            ).to_multiset(),
        decreases names.len() - i,
    {
        let name = names[i];
        assert(order.take(i + 1).drop_last() =~= order.take(i as int));
        assert(order.take(i + 1).last() == name@) by {
            assert(text::slices(names@)[i as int] == name@);
        }
        let ghost before = modules_of(all, order.take(i as int));
        if let Some(path) = find_last(&keys, name, "path") {
            if let Some(url) = find_last(&keys, name, "url") {
                let e = SubmoduleEntry {
                    name: text::own(name),
                    path,
                    url,
                    tags: find_all(&keys, name, "worktreepooltag"),
                };
                let ghost v = e@;
                insert_by_path(&mut out, e);
                proof {
                    vstd::seq_lib::to_multiset_build(before, v);
                    assert(module_of(all, name@) == Some(v));
                }
            }
        }
        i = i + 1;
    }
    assert(order.take(i as int) =~= order);
    out
}

/// Whether a checkout whose `.gitmodules` listing is `raw` declares submodules.
pub fn declares_submodules(raw: &str) -> (r: bool)
    ensures
        r == (declared(raw@).len() > 0),
{
    let v = parse_gitmodules_text(raw);
    proof {
        module_views(v@).to_multiset_ensures();
        declared(raw@).to_multiset_ensures();
    }
    v.len() > 0
}

// ---------------------------------------------------------------------------
// Mirrors
// ---------------------------------------------------------------------------

/// The `<org>/<repo>` of a URL: what follows the host in `scheme://host/org/repo`,
/// else what follows the first colon in `user@host:org/repo`. A `.git` at the end is
/// left out.
pub open spec fn org_repo(url: Seq<char>) -> Option<Seq<char>> {
    let u = text::without_suffix(url, ".git"@);
    match text::occurrence(u, "://"@) {
        Some(i) => match text::halves(u.skip(i + "://"@.len()), '/') {
            Some((_, path)) => Some(path),
            None => None,
        },
        None => match text::halves(u, ':') {
            Some((_, path)) => Some(path),
            None => None,
        },
    }
}

/// Extracts `<org>/<repo>` from `git@host:org/repo[.git]` or
/// `scheme://host/org/repo[.git]`.
pub fn extract_org_repo(url: &str) -> (r: Option<String>)
    ensures
        text::opt_text(r) == org_repo(url@),
{
    let u = text::trim_suffix(url, ".git");
    match text::split_once_str(u, "://") {
        Some((_scheme, after)) => match text::split_once(after, '/') {
            Some((_host, path)) => Some(text::own(path)),
            None => None,
        },
        None => match text::split_once(u, ':') {
            Some((_pre, path)) => Some(text::own(path)),
            None => None,
        },
    }
}

/// A submodule's name under the git directories of the submodules it is nested in.
/// The scope is empty at top level.
pub open spec fn composed(scope: Seq<char>, name: Seq<char>) -> Seq<char> {
    if scope.len() == 0 {
        name
    } else {
        scope + "/"@ + name
    }
}

fn compose(scope: &str, name: &str) -> (r: String)
    ensures
        r@ == composed(scope@, name@),
{
    if scope.is_empty() {
        text::own(name)
    } else {
        let mut out = text::own(scope);
        out.append("/");
        out.append(name);
        out
    }
}

/// The scope of the submodules nested in a submodule.
pub open spec fn nested_scope(scope: Seq<char>, name: Seq<char>) -> Seq<char> {
    composed(scope, name) + "/modules"@
}

/// The scope of the submodules nested in a submodule: `<composed name>/modules`.
pub fn child_scope(scope: &str, name: &str) -> (r: String)
    ensures
        r@ == nested_scope(scope@, name@),
{
    let mut out = compose(scope, name);
    out.append("/modules");
    out
}

/// The local mirror that a submodule is fetched from: `<base>/<org>/<repo>.git` in
/// bare-mirror mode, `<base>/.git/modules/<composed name>` in source-submodules mode.
/// None without a mirror, and none for a URL without an org and repo in bare-mirror mode.
pub open spec fn mirror_url(
    cfg: config::PoolConfigView,
    name: Seq<char>,
    url: Seq<char>,
    scope: Seq<char>,
) -> Option<Seq<char>> {
    match (cfg.submodule_mirror_mode, cfg.submodule_mirror_base) {
        (Some(SubmoduleMirrorMode::BareMirror), Some(base)) => match org_repo(url) {
            Some(path) => Some(base + "/"@ + path + ".git"@),
            None => None,
        },
        (Some(SubmoduleMirrorMode::SourceSubmodules), Some(base)) => Some(
            base + "/.git/modules/"@ + composed(scope, name),
        ),
        _ => None,
    }
}

/// Composes a submodule's fetch URL from the pool's mirror config. `name_scope` is the
/// prefix under `.git/modules/` for nested submodules, and empty at top level.
pub fn rewrite_url(
    cfg: &PoolConfig,
    submodule_name: &str,
    declared_url: &str,
    name_scope: &str,
) -> (r: Option<String>)
    ensures
        text::opt_text(r) == mirror_url(cfg@, submodule_name@, declared_url@, name_scope@),
{
    let mode = match cfg.submodule_mirror_mode {
        Some(m) => m,
        None => {
            return None;
        },
    };
    let base = match &cfg.submodule_mirror_base {
        Some(b) => b.as_str(),
        None => {
            return None;
        },
    };
    let mut out = text::own(base);
    match mode {
        SubmoduleMirrorMode::BareMirror => match extract_org_repo(declared_url) {
            Some(path) => {
                out.append("/");
                out.append(path.as_str());
                out.append(".git");
                Some(out)
            },
            None => None,
        },
        SubmoduleMirrorMode::SourceSubmodules => {
            out.append("/.git/modules/");
            out.append(compose(name_scope, submodule_name).as_str());
            Some(out)
        },
    }
}

/// A URL that is relative to the parent's own.
pub open spec fn relative(url: Seq<char>) -> bool {
    "./"@.is_prefix_of(url) || "../"@.is_prefix_of(url)
}

/// Why a relative URL is refused.
pub open spec fn relative_refusal(name: Seq<char>, url: Seq<char>) -> Seq<char> {
    "submodule "@ + name + " has relative url `"@ + url
        + "` and no `submodule_mirror_*` rewrite is configured. Either configure a mirror in pool config, or change the submodule URL to absolute."@
}

/// Why a URL that no mirror replaces is refused.
pub open spec fn unmirrored_refusal(name: Seq<char>, url: Seq<char>) -> Seq<char> {
    "submodule "@ + name + " has url `"@ + url
        + "` and no `submodule_mirror_*` rewrite applies to it. Configure a mirror in pool config that does; the declared url is never fetched from."@
}

/// The URL that a submodule is fetched from: its mirror. The declared URL is no fallback.
pub open spec fn fetch_url(cfg: config::PoolConfigView, e: SubmoduleView, scope: Seq<char>) -> Result<
    Seq<char>,
    Seq<char>,
> {
    match mirror_url(cfg, e.name, e.url, scope) {
        Some(u) => Ok(u),
        None => Err(
            if relative(e.url) {
                relative_refusal(e.name, e.url)
            } else {
                unmirrored_refusal(e.name, e.url)
            },
        ),
    }
}

/// The URL to register for a submodule: its local mirror. Without one the declared URL
/// would reach the network, and fail late where a pin is not pushed; so it is refused.
pub fn effective_url(cfg: &PoolConfig, e: &SubmoduleEntry, scope: &str) -> (r: Result<
    String,
    Error,
>)
    ensures
        error::yields(r, fetch_url(cfg@, e@, scope@)),
{
    match rewrite_url(cfg, e.name.as_str(), e.url.as_str(), scope) {
        Some(u) => Ok(u),
        None => {
            if text::starts_with(e.url.as_str(), "./") || text::starts_with(e.url.as_str(), "../") {
                let mut m = text::own("submodule ");
                m.append(e.name.as_str());
                m.append(" has relative url `");
                m.append(e.url.as_str());
                m.append(
                    "` and no `submodule_mirror_*` rewrite is configured. Either configure a mirror in pool config, or change the submodule URL to absolute.",
                );
                Err(Error::new(m))
            } else {
                let mut m = text::own("submodule ");
                m.append(e.name.as_str());
                m.append(" has url `");
                m.append(e.url.as_str());
                m.append(
                    "` and no `submodule_mirror_*` rewrite applies to it. Configure a mirror in pool config that does; the declared url is never fetched from.",
                );
                Err(Error::new(m))
            }
        },
    }
}

// ---------------------------------------------------------------------------
// Filtering
// ---------------------------------------------------------------------------

/// Whether a submodule carries one of the tags.
pub open spec fn tagged(e: SubmoduleView, tags: Seq<Seq<char>>) -> bool {
    exists|i: int| 0 <= i < e.tags.len() && tags.contains(#[trigger] e.tags[i])
}

/// Whether a submodule is skipped. Tags count at top level only; a nested submodule
/// comes with its parent.
pub open spec fn skipped(e: SubmoduleView, tags: Seq<Seq<char>>, scope: Seq<char>) -> bool {
    scope.len() == 0 && tagged(e, tags)
}

/// The submodules that are skipped, or those that are not, in their order.
pub open spec fn those(
    entries: Seq<SubmoduleView>,
    tags: Seq<Seq<char>>,
    scope: Seq<char>,
    skip: bool,
) -> Seq<SubmoduleView>
    decreases entries.len(),
{
    if entries.len() == 0 {
        seq![]
    } else {
        let before = those(entries.drop_last(), tags, scope, skip);
        if skipped(entries.last(), tags, scope) == skip {
            before.push(entries.last())
        } else {
            before
        }
    }
}

fn has_tag(e: &SubmoduleEntry, tags: &Vec<String>) -> (r: bool)
    ensures
        r == tagged(e@, text::texts(tags@)),
{
    let mut i: usize = 0;
    while i < e.tags.len()
        invariant
            i <= e.tags.len(),
            forall|k: int| 0 <= k < i ==> !text::texts(tags@).contains(#[trigger] e@.tags[k]),
        decreases e.tags.len() - i,
    {
        let mut j: usize = 0;
        while j < tags.len()
            invariant
                j <= tags.len(),
                i < e.tags.len(),
                forall|k: int| 0 <= k < j ==> text::texts(tags@)[k] != e@.tags[i as int],
            decreases tags.len() - j,
        {
            if text::same(e.tags[i].as_str(), tags[j].as_str()) {
                assert(text::texts(tags@)[j as int] == e@.tags[i as int]);
                return true;
            }
            j = j + 1;
        }
        i = i + 1;
    }
    false
}

/// Parts the submodules into those to skip and those to update.
pub fn partition(entries: Vec<SubmoduleEntry>, tags: &Vec<String>, scope: &str) -> (r: (
    Vec<SubmoduleEntry>,
    Vec<SubmoduleEntry>,
))
    ensures
        module_views(r.0@) == those(module_views(entries@), text::texts(tags@), scope@, true),
        module_views(r.1@) == those(module_views(entries@), text::texts(tags@), scope@, false),
{
    let ghost all = module_views(entries@);
    let ghost t = text::texts(tags@);
    let mut rest = entries;
    let mut skip: Vec<SubmoduleEntry> = Vec::new();
    let mut keep: Vec<SubmoduleEntry> = Vec::new();
    rest = reversed(rest);
    assert(all.take(0) =~= seq![]);
    assert(module_views(skip@) =~= those(all.take(0), t, scope@, true));
    assert(module_views(keep@) =~= those(all.take(0), t, scope@, false));
    while rest.len() > 0
        invariant
            t == text::texts(tags@),
            rest.len() <= all.len(),
            module_views(rest@) == all.skip(all.len() - rest.len()).reverse(),
            module_views(skip@) == those(all.take(all.len() - rest.len()), t, scope@, true),
            module_views(keep@) == those(all.take(all.len() - rest.len()), t, scope@, false),
        decreases rest.len(),
    {
        let ghost k = all.len() - rest.len();
        let ghost views = module_views(rest@);
        let ghost skip_before = module_views(skip@);
        let ghost keep_before = module_views(keep@);
        assert(views.last() == all[k]);
        match rest.pop() {
            None => {},
            Some(e) => {
                assert(module_views(rest@) =~= views.drop_last());
                assert(all.skip(k).reverse().drop_last() =~= all.skip(k + 1).reverse());
                assert(all.take(k + 1).drop_last() =~= all.take(k));
                assert(all.take(k + 1).last() == e@);
                let ghost v = e@;
                if scope.is_empty() && has_tag(&e, tags) {
                    skip.push(e);
                    assert(module_views(skip@) =~= skip_before.push(v));
                } else {
                    keep.push(e);
                    assert(module_views(keep@) =~= keep_before.push(v));
                }
            },
        }
    }
    assert(all.take(all.len() as int) =~= all);
    (skip, keep)
}

fn reversed(v: Vec<SubmoduleEntry>) -> (r: Vec<SubmoduleEntry>)
    ensures
        module_views(r@) == module_views(v@).skip(0).reverse(),
        r.len() == v.len(),
{
    let ghost all = v@;
    let mut rest = v;
    let mut out: Vec<SubmoduleEntry> = Vec::new();
    while rest.len() > 0
        invariant
            rest.len() + out.len() == all.len(),
            rest@ == all.take(rest.len() as int),
            out@ == all.skip(rest.len() as int).reverse(),
        decreases rest.len(),
    {
        let ghost k = rest.len() as int;
        match rest.pop() {
            None => {},
            Some(e) => {
                out.push(e);
                assert(out@ =~= all.skip(k - 1).reverse());
                assert(rest@ =~= all.take(k - 1));
            },
        }
    }
    assert(module_views(out@) =~= module_views(all).skip(0).reverse());
    out
}

/// The `.gitmodules` of a checkout.
pub open spec fn modules_file(dir: Seq<char>) -> Seq<char> {
    fs_paths::path_in(dir, ".gitmodules"@)
}

// ---------------------------------------------------------------------------
// The sweep of stranded working directories
// ---------------------------------------------------------------------------

/// The untracked paths that are repositories of their own: those listed with a trailing
/// slash, without it.
pub open spec fn stranded(paths: Seq<Seq<char>>) -> Seq<Seq<char>>
    decreases paths.len(),
{
    if paths.len() == 0 {
        seq![]
    } else {
        let before = stranded(paths.drop_last());
        if "/"@.is_suffix_of(paths.last()) {
            before.push(text::without_suffix(paths.last(), "/"@))
        } else {
            before
        }
    }
}

fn find_stranded(raw: &str) -> (r: Vec<String>)
    ensures
        text::texts(r@) == stranded(text::pieces(raw@, '\0')),
{
    let parts = text::split(raw, '\0');
    let ghost all = text::pieces(raw@, '\0');
    let mut out: Vec<String> = Vec::new();
    let mut i: usize = 0;
    assert(parts@.len() == text::slices(parts@).len());
    assert(text::texts(out@) =~= stranded(all.take(0)));
    while i < parts.len()
        invariant
            i <= parts.len(),
            text::slices(parts@) == all,
            text::texts(out@) == stranded(all.take(i as int)),
        decreases parts.len() - i,
    {
        assert(all.take(i + 1).drop_last() =~= all.take(i as int));
        assert(all.take(i + 1).last() == parts@[i as int]@) by {
            assert(text::slices(parts@)[i as int] == parts@[i as int]@);
        }
        let ghost before = text::texts(out@);
        let bare = text::trim_suffix(parts[i], "/");
        proof {
            reveal_strlit("/");
        }
        if bare.unicode_len() != parts[i].unicode_len() {
            out.push(text::own(bare));
            assert(text::texts(out@) =~= before.push(bare@));
        }
        i = i + 1;
    }
    assert(all.take(i as int) =~= all);
    out
}

/// A sweep that is under way.
#[derive(Debug)]
pub struct Sweep {
    pub dir: String,
    pub phase: SweepPhase,
}

/// What the last action of a sweep was.
#[derive(Debug)]
pub enum SweepPhase {
    /// Listing untracked paths.
    Listing,
    /// Looking whether the path at an index holds a `.git`.
    Looking(Vec<String>, usize),
    /// Removing it.
    Removing(Vec<String>, usize),
    Over,
}

/// The `.git` of a stranded directory.
pub open spec fn inner_git(dir: Seq<char>, path: Seq<char>) -> Seq<char> {
    fs_paths::path_in(fs_paths::path_in(dir, path), ".git"@)
}

/// Goes on with the path at an index, or ends well.
pub open spec fn looks_at(
    dir: Seq<char>,
    paths: Vec<String>,
    at: int,
    phase: SweepPhase,
    turn: Turn,
) -> bool {
    if at < paths@.len() {
        &&& phase matches SweepPhase::Looking(p, i)
        &&& p == paths
        &&& i == at
        &&& effect::looks_for(turn, inner_git(dir, paths@[at]@))
    } else {
        phase is Over && effect::succeeds(turn)
    }
}

/// How a sweep goes on.
pub open spec fn sweep_moves(pre: Sweep, reply: Reply, post: Sweep, turn: Turn) -> bool {
    let dir = pre.dir@;
    &&& post.dir == pre.dir
    &&& match (pre.phase, reply) {
        (SweepPhase::Listing, Reply::Git(r)) => effect::quiet(turn) && match git::printed(
            git::untracked_command(dir),
            r,
        ) {
            Err(m) => post.phase is Over && effect::fails(turn, None, m),
            Ok(raw) => exists|paths: Vec<String>|
                text::texts(paths@) == stranded(text::pieces(raw, '\0')) && #[trigger] looks_at(
                    dir,
                    paths,
                    0,
                    post.phase,
                    turn,
                ),
        },
        (SweepPhase::Looking(paths, at), Reply::Exists(there)) => effect::quiet(turn) && if there
            && at < paths@.len() {
            &&& post.phase == SweepPhase::Removing(paths, at)
            &&& turn.action matches Action::RemoveDir(p)
            &&& p@ == fs_paths::path_in(dir, paths@[at as int]@)
        } else {
            looks_at(dir, paths, at + 1, post.phase, turn)
        },
        (SweepPhase::Removing(paths, at), Reply::Done) => {
            &&& effect::says(
                turn,
                if at < paths@.len() {
                    seq![
                        "swept stranded git working dir "@ + fs_paths::path_in(
                            dir,
                            paths@[at as int]@,
                        ),
                    ]
                } else {
                    seq![]
                },
            )
            &&& looks_at(dir, paths, at + 1, post.phase, turn)
        },
        _ => post.phase is Over && effect::quiet(turn) && effect::fails(
            turn,
            None,
            effect::misfit_message(),
        ),
    }
}

fn look_at(dir: &str, paths: Vec<String>, at: usize, notes: Vec<String>) -> (r: (SweepPhase, Turn))
    ensures
        looks_at(dir@, paths, at as int, r.0, r.1),
        r.1.notes == notes,
{
    if at >= paths.len() {
        return (SweepPhase::Over, Turn { notes, action: Action::Finish(Ok(None)) });
    }
    let inner = fs_paths::join(fs_paths::join(dir, paths[at].as_str()).as_str(), ".git");
    (SweepPhase::Looking(paths, at), Turn { notes, action: Action::Exists(inner) })
}

fn look_after(dir: &str, paths: Vec<String>, at: usize, notes: Vec<String>) -> (r: (
    SweepPhase,
    Turn,
))
    ensures
        looks_at(dir@, paths, at + 1, r.0, r.1),
        r.1.notes == notes,
{
    if at >= paths.len() {
        return (SweepPhase::Over, Turn { notes, action: Action::Finish(Ok(None)) });
    }
    look_at(dir, paths, at + 1, notes)
}

/// Begins a sweep of a checkout: untracked directories that are repositories of their
/// own are removed. A submodule that was dropped leaves such a directory behind; a
/// checkout's consumers cannot tell it from a declared one. All other untracked files
/// are the caller's warmth and stay.
pub fn sweep_stranded(dir: &str) -> (r: (Sweep, Turn))
    ensures
        r.0.dir@ == dir@,
        r.0.phase is Listing,
        effect::quiet(r.1),
        effect::runs_git(r.1, git::untracked_command(dir@)),
{
    (
        Sweep { dir: text::own(dir), phase: SweepPhase::Listing },
        effect::silently(Action::Git(git::untracked(dir))),
    )
}

impl Sweep {
    /// Takes the reply to the last action and gives the next one.
    pub fn step(self, reply: Reply) -> (r: (Sweep, Turn))
        ensures
            sweep_moves(self, reply, r.0, r.1),
    {
        let dir = self.dir;
        let (phase, turn) = match (self.phase, reply) {
            (SweepPhase::Listing, Reply::Git(r)) => match git::untracked(dir.as_str()).check_printed(
                &r,
            ) {
                Err(e) => (SweepPhase::Over, effect::failing(e)),
                Ok(raw) => {
                    let paths = find_stranded(raw.as_str());
                    look_at(dir.as_str(), paths, 0, Vec::new())
                },
            },
            (SweepPhase::Looking(paths, at), Reply::Exists(there)) => {
                if there && at < paths.len() {
                    let p = fs_paths::join(dir.as_str(), paths[at].as_str());
                    (SweepPhase::Removing(paths, at), effect::silently(Action::RemoveDir(p)))
                } else {
                    look_after(dir.as_str(), paths, at, Vec::new())
                }
            },
            (SweepPhase::Removing(paths, at), Reply::Done) => {
                if at < paths.len() {
                    let mut note = text::own("swept stranded git working dir ");
                    note.append(fs_paths::join(dir.as_str(), paths[at].as_str()).as_str());
                    let mut notes: Vec<String> = Vec::new();
                    notes.push(note);
                    assert(text::texts(notes@) =~= seq![note@]);
                    look_after(dir.as_str(), paths, at, notes)
                } else {
                    let notes: Vec<String> = Vec::new();
                    assert(text::texts(notes@) =~= seq![]);
                    look_after(dir.as_str(), paths, at, notes)
                }
            },
            _ => (SweepPhase::Over, effect::misfit()),
        };
        (Sweep { dir, phase }, turn)
    }
}

/// A sweep removes only directories that git listed as repositories of their own and
/// that were just seen to hold a `.git`.
pub proof fn sweeps_only_repositories(pre: Sweep, reply: Reply, post: Sweep, turn: Turn)
    requires
        sweep_moves(pre, reply, post, turn),
        turn.action is RemoveDir,
    ensures
        reply == Reply::Exists(true),
        pre.phase matches SweepPhase::Looking(paths, at) && at < paths@.len() && (
        turn.action matches Action::RemoveDir(p) && p@ == fs_paths::path_in(
            pre.dir@,
            paths@[at as int]@,
        )),
{
}

// ---------------------------------------------------------------------------
// Updating one level
// ---------------------------------------------------------------------------

/// What every level of an update works with.
#[derive(Debug, Clone, Copy)]
pub struct Task<'a> {
    pub cfg: &'a PoolConfig,
    /// Tags whose submodules are skipped at top level.
    pub exclude_tags: &'a Vec<String>,
    /// The branch that every submodule is put on.
    pub branch: &'a str,
}

/// The update of one level that is under way.
#[derive(Debug)]
pub struct Update<'a> {
    pub task: Task<'a>,
    pub dir: String,
    /// Empty at top level.
    pub scope: String,
    pub phase: UpdatePhase,
}

/// What the last action of a level's update was: first the submodules to skip, then
/// those to update.
#[derive(Debug)]
pub enum UpdatePhase {
    /// Looking whether there is a `.gitmodules`.
    Looking,
    /// Reading it.
    Reading,
    /// Finding the source's git directory.
    Locating(Vec<SubmoduleEntry>, Vec<SubmoduleEntry>),
    /// Waiting for the source's config mutex.
    Locking(Vec<SubmoduleEntry>, Vec<SubmoduleEntry>),
    /// Registering the URL of the submodule at an index.
    Writing(Vec<SubmoduleEntry>, Vec<SubmoduleEntry>, usize),
    /// Releasing the source's config mutex.
    Unlocking(Vec<SubmoduleEntry>, Vec<SubmoduleEntry>),
    /// Updating each submodule; how many they are.
    Working(Vec<SubmoduleEntry>, usize),
    /// Deinitializing the skipped submodule at an index.
    Deiniting(Vec<SubmoduleEntry>, usize),
    /// Removing its directory.
    Removing(Vec<SubmoduleEntry>, usize),
    Over,
}

/// The run ends with a failure.
pub open spec fn update_stops(
    phase: UpdatePhase,
    turn: Turn,
    kind: Option<ExitKind>,
    message: Seq<char>,
) -> bool {
    phase is Over && effect::quiet(turn) && effect::fails(turn, kind, message)
}

/// `config submodule.<name>.url <url>`.
pub open spec fn register_command(dir: Seq<char>, name: Seq<char>, url: Seq<char>) -> git::GitCommandView {
    git::command(dir, seq!["config"@, "submodule."@ + name + ".url"@, url])
}

fn register(dir: &str, name: &str, url: &str) -> (r: git::GitCommand)
    ensures
        r@ == register_command(dir@, name@, url@),
{
    let mut key = text::own("submodule.");
    key.append(name);
    key.append(".url");
    let args = ["config", key.as_str(), url];
    assert(text::slices(args@) =~= seq!["config"@, key@, url@]);
    git::run(dir, &args)
}

/// `submodule deinit -f <path>`.
pub open spec fn deinit_command(dir: Seq<char>, path: Seq<char>) -> git::GitCommandView {
    git::command(dir, seq!["submodule"@, "deinit"@, "-f"@, path])
}

fn deinit(dir: &str, path: &str) -> (r: git::GitCommand)
    ensures
        r@ == deinit_command(dir@, path@),
{
    let args = ["submodule", "deinit", "-f", path];
    assert(text::slices(args@) =~= seq!["submodule"@, "deinit"@, "-f"@, path@]);
    git::run_lenient(dir, &args)
}

/// Where an update works, as text.
pub struct Place {
    pub cfg: config::PoolConfigView,
    pub tags: Seq<Seq<char>>,
    pub dir: Seq<char>,
    pub scope: Seq<char>,
}

/// Where an update works, as text.
pub open spec fn place(u: Update) -> Place {
    Place {
        cfg: u.task.cfg@,
        tags: text::texts(u.task.exclude_tags@),
        dir: u.dir@,
        scope: u.scope@,
    }
}

/// Registers the URL of the submodule at an index, or refuses it.
pub open spec fn registers(
    u: Place,
    skip: Vec<SubmoduleEntry>,
    keep: Vec<SubmoduleEntry>,
    at: int,
    phase: UpdatePhase,
    turn: Turn,
) -> bool {
    match fetch_url(u.cfg, keep@[at]@, u.scope) {
        Err(m) => update_stops(phase, turn, None, m),
        Ok(url) => {
            &&& phase matches UpdatePhase::Writing(s, k, i)
            &&& s == skip
            &&& k == keep
            &&& i == at
            &&& effect::quiet(turn)
            &&& effect::runs_git(turn, register_command(u.dir, keep@[at]@.name, url))
        },
    }
}

/// Hands the submodules to workers.
pub open spec fn works(
    skip: Vec<SubmoduleEntry>,
    keep: Vec<SubmoduleEntry>,
    phase: UpdatePhase,
    turn: Turn,
) -> bool {
    &&& phase matches UpdatePhase::Working(s, n)
    &&& s == skip
    &&& n == keep@.len()
    &&& effect::quiet(turn)
    &&& turn.action == Action::UpdateEach(keep)
}

/// Deinitializes the skipped submodule at an index, or ends well.
pub open spec fn deinits(
    dir: Seq<char>,
    skip: Vec<SubmoduleEntry>,
    at: int,
    phase: UpdatePhase,
    turn: Turn,
) -> bool {
    effect::quiet(turn) && if at < skip@.len() {
        &&& phase matches UpdatePhase::Deiniting(s, i)
        &&& s == skip
        &&& i == at
        &&& effect::runs_git(turn, deinit_command(dir, skip@[at]@.path))
    } else {
        phase is Over && effect::succeeds(turn)
    }
}

/// `skip` and `keep` are the declared submodules in order of their paths, parted by the
/// tags.
pub open spec fn parts_declared(
    u: Place,
    raw: Seq<char>,
    skip: Vec<SubmoduleEntry>,
    keep: Vec<SubmoduleEntry>,
) -> bool {
    exists|entries: Seq<SubmoduleView>| #[trigger]
        lists_declared(entries, raw) && module_views(skip@) == those(
            entries,
            u.tags,
            u.scope,
            true,
        ) && module_views(keep@) == those(
            entries,
            u.tags,
            u.scope,
            false,
        )
}

/// From what `.gitmodules` declares: nothing to do, only skipped submodules to
/// deinitialize, or URLs to register; at top level under the source's config mutex.
pub open spec fn sorts(
    u: Place,
    skip: Vec<SubmoduleEntry>,
    keep: Vec<SubmoduleEntry>,
    phase: UpdatePhase,
    turn: Turn,
) -> bool {
    if keep@.len() == 0 {
        deinits(u.dir, skip, 0, phase, turn)
    } else if u.scope.len() == 0 {
        &&& phase == UpdatePhase::Locating(skip, keep)
        &&& effect::quiet(turn)
        &&& effect::runs_git(turn, git::git_dir_command(u.cfg.source))
    } else {
        registers(u, skip, keep, 0, phase, turn)
    }
}

/// How the update of a level goes on.
pub open spec fn update_moves(pre: Update, reply: Reply, post: Update, turn: Turn) -> bool {
    let dir = pre.dir@;
    let file = modules_file(dir);
    &&& post.task == pre.task
    &&& post.dir == pre.dir
    &&& post.scope == pre.scope
    &&& match (pre.phase, reply) {
        (UpdatePhase::Looking, Reply::Exists(there)) => effect::quiet(turn) && if there {
            &&& post.phase is Reading
            &&& effect::runs_git(turn, git::config_file_list_command(dir, file))
        } else {
            post.phase is Over && effect::succeeds(turn)
        },
        (UpdatePhase::Reading, Reply::Git(r)) => match git::checked(
            git::config_file_list_command(dir, file),
            r,
        ) {
            Err(m) => update_stops(post.phase, turn, None, "reading "@ + file + ": "@ + m),
            Ok(raw) => exists|skip: Vec<SubmoduleEntry>, keep: Vec<SubmoduleEntry>| #[trigger]
                parts_declared(place(pre), raw, skip, keep) && sorts(place(pre), skip, keep, post.phase, turn),
        },
        (UpdatePhase::Locating(skip, keep), Reply::Git(r)) => match git::git_dir_found(
            pre.task.cfg@.source,
            r,
        ) {
            Err(m) => update_stops(
                post.phase,
                turn,
                None,
                "resolving source gitdir for per-source config mutex"@ + ": "@ + m,
            ),
            Ok(gitdir) => {
                &&& post.phase == UpdatePhase::Locking(skip, keep)
                &&& effect::quiet(turn)
                &&& turn.action matches Action::TakeLock(p)
                &&& p@ == fs_paths::source_config_mutex_path(gitdir)
            },
        },
        (UpdatePhase::Locking(skip, keep), Reply::Taken(r)) => match r {
            Err(e) => update_stops(
                post.phase,
                turn,
                e.kind,
                "acquiring per-source config mutex"@ + ": "@ + e.message@,
            ),
            Ok(_) => if keep@.len() == 0 {
                deinits(dir, skip, 0, post.phase, turn)
            } else {
                registers(place(pre), skip, keep, 0, post.phase, turn)
            },
        },
        (UpdatePhase::Writing(skip, keep, at), Reply::Git(r)) => if at < keep@.len() {
            match registered(place(pre), keep@[at as int]@, r) {
                Err(m) => update_stops(post.phase, turn, None, m),
                Ok(_) => if at + 1 < keep@.len() {
                    registers(place(pre), skip, keep, at + 1, post.phase, turn)
                } else if pre.scope@.len() == 0 {
                    &&& post.phase == UpdatePhase::Unlocking(skip, keep)
                    &&& effect::quiet(turn)
                    &&& turn.action is DropLock
                } else {
                    works(skip, keep, post.phase, turn)
                },
            }
        } else {
            update_stops(post.phase, turn, None, effect::misfit_message())
        },
        (UpdatePhase::Unlocking(skip, keep), Reply::Done) => works(skip, keep, post.phase, turn),
        (UpdatePhase::Working(skip, n), Reply::Worked(results)) => if results@.len() == n {
            exists|verdict: Result<(), Error>, told: Seq<Seq<char>>| #[trigger]
                parallel::comes_to(results@, verdict, told) && match verdict {
                    Err(e) => post.phase is Over && effect::says(turn, told) && effect::fails(
                        turn,
                        e.kind,
                        e.message@,
                    ),
                    Ok(_) => deinits(dir, skip, 0, post.phase, turn),
                }
        } else {
            update_stops(post.phase, turn, None, effect::misfit_message())
        },
        (UpdatePhase::Deiniting(skip, at), Reply::Git(r)) => if at < skip@.len() {
            let e = skip@[at as int]@;
            match git::tolerated(deinit_command(dir, e.path), r) {
                Err(m) => update_stops(post.phase, turn, None, m),
                Ok((ok, _, stderr)) => {
                    &&& post.phase == UpdatePhase::Removing(skip, at)
                    &&& turn.action matches Action::RemoveDir(p)
                    &&& p@ == fs_paths::path_in(dir, e.path)
                    &&& effect::says(
                        turn,
                        if ok {
                            seq![]
                        } else {
                            seq!["warn: submodule deinit -f "@ + e.path + " failed: "@ + stderr]
                        },
                    )
                },
            }
        } else {
            update_stops(post.phase, turn, None, effect::misfit_message())
        },
        (UpdatePhase::Removing(skip, at), Reply::Done) => deinits(
            dir,
            skip,
            at + 1,
            post.phase,
            turn,
        ),
        _ => update_stops(post.phase, turn, None, effect::misfit_message()),
    }
}

/// Whether a URL was registered: the reply to the command that `registers` runs.
pub open spec fn registered(u: Place, e: SubmoduleView, r: GitReply) -> Result<
    Seq<char>,
    Seq<char>,
> {
    match fetch_url(u.cfg, e, u.scope) {
        Err(m) => Err(m),
        Ok(url) => error::while_doing(
            "writing submodule."@ + e.name + ".url in "@ + u.dir,
            git::checked(register_command(u.dir, e.name, url), r),
        ),
    }
}

fn update_stop(e: Error) -> (r: (UpdatePhase, Turn))
    ensures
        update_stops(r.0, r.1, e.kind, e.message@),
{
    (UpdatePhase::Over, effect::failing(e))
}

fn register_at(
    u: Update,
    skip: Vec<SubmoduleEntry>,
    keep: Vec<SubmoduleEntry>,
    at: usize,
) -> (r: (UpdatePhase, Turn))
    requires
        at < keep@.len(),
    ensures
        registers(place(u), skip, keep, at as int, r.0, r.1),
{
    match effective_url(u.task.cfg, &keep[at], u.scope.as_str()) {
        Err(e) => update_stop(e),
        Ok(url) => {
            let cmd = register(u.dir.as_str(), keep[at].name.as_str(), url.as_str());
            (UpdatePhase::Writing(skip, keep, at), effect::silently(Action::Git(cmd)))
        },
    }
}

fn check_registered(u: &Update, e: &SubmoduleEntry, r: &GitReply) -> (t: Result<String, Error>)
    ensures
        error::yields(t, registered(place(*u), e@, *r)),
{
    match effective_url(u.task.cfg, e, u.scope.as_str()) {
        Err(x) => Err(x),
        Ok(url) => match register(u.dir.as_str(), e.name.as_str(), url.as_str()).check(r) {
            Ok(out) => Ok(out),
            Err(x) => {
                let mut doing = text::own("writing submodule.");
                doing.append(e.name.as_str());
                doing.append(".url in ");
                doing.append(u.dir.as_str());
                Err(x.context(doing.as_str()))
            },
        },
    }
}

fn deinit_at(dir: &str, skip: Vec<SubmoduleEntry>, at: usize) -> (r: (UpdatePhase, Turn))
    ensures
        deinits(dir@, skip, at as int, r.0, r.1),
{
    if at >= skip.len() {
        return (UpdatePhase::Over, effect::silently(Action::Finish(Ok(None))));
    }
    let cmd = deinit(dir, skip[at].path.as_str());
    (UpdatePhase::Deiniting(skip, at), effect::silently(Action::Git(cmd)))
}

fn sort(u: Update, raw: &str) -> (r: (UpdatePhase, Turn))
    ensures
        exists|skip: Vec<SubmoduleEntry>, keep: Vec<SubmoduleEntry>| #[trigger]
            parts_declared(place(u), raw@, skip, keep) && sorts(place(u), skip, keep, r.0, r.1),
{
    let entries = parse_gitmodules_text(raw);
    let ghost views = module_views(entries@);
    let (skip, keep) = partition(entries, u.task.exclude_tags, u.scope.as_str());
    assert(lists_declared(views, raw@));
    assert(parts_declared(place(u), raw@, skip, keep));
    if keep.len() == 0 {
        deinit_at(u.dir.as_str(), skip, 0)
    } else if u.scope.as_str().is_empty() {
        let cmd = git::source_gitdir(u.task.cfg.source.as_str());
        (UpdatePhase::Locating(skip, keep), effect::silently(Action::Git(cmd)))
    } else {
        register_at(u, skip, keep, 0)
    }
}

fn after_register(
    u: Update,
    skip: Vec<SubmoduleEntry>,
    keep: Vec<SubmoduleEntry>,
    at: usize,
    r: GitReply,
) -> (t: (UpdatePhase, Turn))
    requires
        at < keep@.len(),
    ensures
        match registered(place(u), keep@[at as int]@, r) {
            Err(m) => update_stops(t.0, t.1, None, m),
            Ok(_) => if at + 1 < keep@.len() {
                registers(place(u), skip, keep, at + 1, t.0, t.1)
            } else if u.scope@.len() == 0 {
                &&& t.0 == UpdatePhase::Unlocking(skip, keep)
                &&& effect::quiet(t.1)
                &&& t.1.action is DropLock
            } else {
                works(skip, keep, t.0, t.1)
            },
        },
{
    if let Err(e) = check_registered(&u, &keep[at], &r) {
        return update_stop(e);
    }
    if keep.len() - at > 1 {
        register_at(u, skip, keep, at + 1)
    } else if u.scope.as_str().is_empty() {
        (UpdatePhase::Unlocking(skip, keep), effect::silently(Action::DropLock))
    } else {
        let n: usize = keep.len();
        (UpdatePhase::Working(skip, n), effect::silently(Action::UpdateEach(keep)))
    }
}

fn after_deinit(dir: &str, skip: Vec<SubmoduleEntry>, at: usize, r: GitReply) -> (t: (
    UpdatePhase,
    Turn,
))
    requires
        at < skip@.len(),
    ensures
        match git::tolerated(deinit_command(dir@, skip@[at as int]@.path), r) {
            Err(m) => update_stops(t.0, t.1, None, m),
            Ok((ok, _, stderr)) => {
                &&& t.0 == UpdatePhase::Removing(skip, at)
                &&& t.1.action matches Action::RemoveDir(p)
                &&& p@ == fs_paths::path_in(dir@, skip@[at as int]@.path)
                &&& effect::says(
                    t.1,
                    if ok {
                        seq![]
                    } else {
                        seq![
                            "warn: submodule deinit -f "@ + skip@[at as int]@.path + " failed: "@
                                + stderr,
                        ]
                    },
                )
            },
        },
{
    let path = text::own(skip[at].path.as_str());
    match deinit(dir, path.as_str()).check_lenient(&r) {
        Err(e) => update_stop(e),
        Ok((ok, _, stderr)) => {
            let action = Action::RemoveDir(fs_paths::join(dir, path.as_str()));
            let turn = if ok {
                effect::silently(action)
            } else {
                let mut note = text::own("warn: submodule deinit -f ");
                note.append(path.as_str());
                note.append(" failed: ");
                note.append(stderr.as_str());
                effect::telling(note, action)
            };
            (UpdatePhase::Removing(skip, at), turn)
        },
    }
}

/// Begins the update of one level: submodules with an excluded tag are deinitialized and
/// removed, the others fetched from their mirrors and put on `branch`. Tags count at top
/// level only, where the scope is empty.
pub fn update<'a>(task: Task<'a>, dir: &str, scope: &str) -> (r: (Update<'a>, Turn))
    ensures
        r.0.task == task,
        r.0.dir@ == dir@,
        r.0.scope@ == scope@,
        r.0.phase is Looking,
        effect::quiet(r.1),
        effect::looks_for(r.1, modules_file(dir@)),
{
    (
        Update {
            task,
            dir: text::own(dir),
            scope: text::own(scope),
            phase: UpdatePhase::Looking,
        },
        effect::silently(Action::Exists(fs_paths::join(dir, ".gitmodules"))),
    )
}

impl<'a> Update<'a> {
    fn bare(&self) -> (r: Update<'a>)
        ensures
            r.task == self.task,
            place(r) == place(*self),
    {
        Update {
            task: self.task,
            dir: text::own(self.dir.as_str()),
            scope: text::own(self.scope.as_str()),
            phase: UpdatePhase::Over,
        }
    }

    /// Begins the update of one of the submodules that `UpdateEach` names.
    pub fn worker(&self, entry: SubmoduleEntry) -> (r: (Worker<'a>, Turn))
        ensures
            r.0.task == self.task,
            r.0.dir@ == self.dir@,
            r.0.scope@ == self.scope@,
            r.0.entry == entry,
            r.0.phase is Fetching,
            effect::quiet(r.1),
            effect::runs_git(r.1, fetch_command(self.dir@, entry@.path)),
    {
        update_one(self.task, self.dir.as_str(), self.scope.as_str(), entry)
    }

    /// Takes the reply to the last action and gives the next one.
    pub fn step(self, reply: Reply) -> (r: (Update<'a>, Turn))
        ensures
            update_moves(self, reply, r.0, r.1),
    {
        let here = self.bare();
        let task = self.task;
        let dir = self.dir;
        let scope = self.scope;
        let (phase, turn) = match (self.phase, reply) {
            (UpdatePhase::Looking, Reply::Exists(there)) => {
                if there {
                    let file = fs_paths::join(dir.as_str(), ".gitmodules");
                    let cmd = git::config_file_list(dir.as_str(), file.as_str());
                    (UpdatePhase::Reading, effect::silently(Action::Git(cmd)))
                } else {
                    (UpdatePhase::Over, effect::silently(Action::Finish(Ok(None))))
                }
            },
            (UpdatePhase::Reading, Reply::Git(r)) => {
                let file = fs_paths::join(dir.as_str(), ".gitmodules");
                match git::config_file_list(dir.as_str(), file.as_str()).check(&r) {
                    Err(e) => {
                        let mut doing = text::own("reading ");
                        doing.append(file.as_str());
                        update_stop(e.context(doing.as_str()))
                    },
                    Ok(raw) => sort(here, raw.as_str()),
                }
            },
            (UpdatePhase::Locating(skip, keep), Reply::Git(r)) => match git::gitdir_found(
                task.cfg.source.as_str(),
                &r,
            ) {
                Err(e) => update_stop(
                    e.context("resolving source gitdir for per-source config mutex"),
                ),
                Ok(gitdir) => {
                    let lock = fs_paths::source_config_mutex(gitdir.as_str());
                    (
                        UpdatePhase::Locking(skip, keep),
                        effect::silently(Action::TakeLock(lock)),
                    )
                },
            },
            (UpdatePhase::Locking(skip, keep), Reply::Taken(r)) => match r {
                Err(e) => update_stop(e.context("acquiring per-source config mutex")),
                Ok(_) => {
                    if keep.len() == 0 {
                        deinit_at(dir.as_str(), skip, 0)
                    } else {
                        register_at(here, skip, keep, 0)
                    }
                },
            },
            (UpdatePhase::Writing(skip, keep, at), Reply::Git(r)) => {
                if at < keep.len() {
                    after_register(here, skip, keep, at, r)
                } else {
                    (UpdatePhase::Over, effect::misfit())
                }
            },
            (UpdatePhase::Unlocking(skip, keep), Reply::Done) => {
                let n: usize = keep.len();
                (UpdatePhase::Working(skip, n), effect::silently(Action::UpdateEach(keep)))
            },
            (UpdatePhase::Working(skip, n), Reply::Worked(results)) => {
                if results.len() == n {
                    let (verdict, told) = parallel::first_failure(results);
                    match verdict {
                        Err(e) => (
                            UpdatePhase::Over,
                            Turn { notes: told, action: Action::Finish(Err(e)) },
                        ),
                        Ok(_) => deinit_at(dir.as_str(), skip, 0),
                    }
                } else {
                    (UpdatePhase::Over, effect::misfit())
                }
            },
            (UpdatePhase::Deiniting(skip, at), Reply::Git(r)) => {
                if at < skip.len() {
                    after_deinit(dir.as_str(), skip, at, r)
                } else {
                    (UpdatePhase::Over, effect::misfit())
                }
            },
            (UpdatePhase::Removing(skip, at), Reply::Done) => {
                if at < skip.len() {
                    deinit_at(dir.as_str(), skip, at + 1)
                } else {
                    (UpdatePhase::Over, effect::silently(Action::Finish(Ok(None))))
                }
            },
            _ => (UpdatePhase::Over, effect::misfit()),
        };
        (Update { task, dir, scope, phase }, turn)
    }
}

// ---------------------------------------------------------------------------
// Updating one submodule
// ---------------------------------------------------------------------------

/// The update of one submodule that is under way.
#[derive(Debug)]
pub struct Worker<'a> {
    pub task: Task<'a>,
    pub dir: String,
    pub scope: String,
    pub entry: SubmoduleEntry,
    pub phase: WorkerPhase,
}

/// What the last action of a submodule's update was.
#[derive(Debug)]
pub enum WorkerPhase {
    /// Fetching and checking out the pinned commit.
    Fetching,
    /// Creating the branch.
    Branching,
    /// Putting `HEAD` on it.
    Attaching,
    /// Sweeping the submodule's checkout.
    Sweeping,
    /// Looking whether it has a `.gitmodules` of its own.
    Looking,
    /// Updating the submodules nested in it.
    Nested,
    Over,
}

/// `-c protocol.file.allow=always submodule update <path>`: git refuses local clones
/// without the override.
pub open spec fn fetch_command(dir: Seq<char>, path: Seq<char>) -> git::GitCommandView {
    git::GitCommandView {
        cwd: dir,
        overrides: seq![("protocol.file.allow"@, "always"@)],
        args: seq!["submodule"@, "update"@, path],
    }
}

fn fetch(dir: &str, path: &str) -> (r: git::GitCommand)
    ensures
        r@ == fetch_command(dir@, path@),
{
    let overrides = [("protocol.file.allow", "always")];
    let args = ["submodule", "update", path];
    assert(text::slices(args@) =~= seq!["submodule"@, "update"@, path@]);
    assert(overrides@.map_values(|p: (&str, &str)| (p.0@, p.1@)) =~= seq![
        ("protocol.file.allow"@, "always"@),
    ]);
    git::run_with_config(dir, &overrides, &args)
}

/// The checkout of the submodule that a worker updates.
pub open spec fn checkout_of(w: Worker) -> Seq<char> {
    fs_paths::path_in(w.dir@, w.entry@.path)
}

/// The run ends with a failure.
pub open spec fn worker_stops(
    phase: WorkerPhase,
    turn: Turn,
    kind: Option<ExitKind>,
    message: Seq<char>,
) -> bool {
    phase is Over && effect::quiet(turn) && effect::fails(turn, kind, message)
}

/// What is put in front of a failure to create the branch.
pub open spec fn branching(w: Worker) -> Seq<char> {
    "creating branch '"@ + w.task.branch@ + "' in submodule "@ + checkout_of(w)
}

/// How the update of a submodule goes on.
pub open spec fn worker_moves(pre: Worker, reply: Reply, post: Worker, turn: Turn) -> bool {
    let sub = checkout_of(pre);
    let branch = pre.task.branch@;
    &&& post.task == pre.task
    &&& post.dir == pre.dir
    &&& post.scope == pre.scope
    &&& post.entry == pre.entry
    &&& effect::quiet(turn)
    &&& match (pre.phase, reply) {
        (WorkerPhase::Fetching, Reply::Git(r)) => match error::while_doing(
            "submodule update "@ + pre.entry@.path + " in "@ + pre.dir@,
            git::checked(fetch_command(pre.dir@, pre.entry@.path), r),
        ) {
            Err(m) => worker_stops(post.phase, turn, None, m),
            Ok(_) => post.phase is Branching && effect::runs_git(
                turn,
                git::branch_at_head_command(sub, branch),
            ),
        },
        (WorkerPhase::Branching, Reply::Git(r)) => match error::while_doing(
            branching(pre),
            git::checked(git::branch_at_head_command(sub, branch), r),
        ) {
            Err(m) => worker_stops(post.phase, turn, None, m),
            Ok(_) => post.phase is Attaching && effect::runs_git(
                turn,
                git::attach_head_command(sub, branch),
            ),
        },
        (WorkerPhase::Attaching, Reply::Git(r)) => match error::while_doing(
            branching(pre),
            git::checked(git::attach_head_command(sub, branch), r),
        ) {
            Err(m) => worker_stops(post.phase, turn, None, m),
            Ok(_) => post.phase is Sweeping && (turn.action matches Action::Sweep(p) && p@ == sub),
        },
        (WorkerPhase::Sweeping, Reply::Ended(r)) => match r {
            Err(e) => worker_stops(post.phase, turn, e.kind, e.message@),
            Ok(_) => post.phase is Looking && effect::looks_for(turn, modules_file(sub)),
        },
        (WorkerPhase::Looking, Reply::Exists(there)) => if there {
            post.phase is Nested && (turn.action matches Action::Update(p, s) && p@ == sub && s@
                == nested_scope(pre.scope@, pre.entry@.name))
        } else {
            post.phase is Over && effect::succeeds(turn)
        },
        (WorkerPhase::Nested, Reply::Ended(r)) => match r {
            Err(e) => worker_stops(post.phase, turn, e.kind, e.message@),
            Ok(_) => post.phase is Over && effect::succeeds(turn),
        },
        _ => worker_stops(post.phase, turn, None, effect::misfit_message()),
    }
}

/// Begins the update of one submodule: it is fetched, put on the branch and swept, and
/// its own submodules are updated.
pub fn update_one<'a>(task: Task<'a>, dir: &str, scope: &str, entry: SubmoduleEntry) -> (r: (
    Worker<'a>,
    Turn,
))
    ensures
        r.0.task == task,
        r.0.dir@ == dir@,
        r.0.scope@ == scope@,
        r.0.entry == entry,
        r.0.phase is Fetching,
        effect::quiet(r.1),
        effect::runs_git(r.1, fetch_command(dir@, entry@.path)),
{
    let cmd = fetch(dir, entry.path.as_str());
    (
        Worker {
            task,
            dir: text::own(dir),
            scope: text::own(scope),
            entry,
            phase: WorkerPhase::Fetching,
        },
        effect::silently(Action::Git(cmd)),
    )
}

impl<'a> Worker<'a> {
    fn branch_error(&self, e: Error) -> (r: Error)
        ensures
            r.kind == e.kind,
            r.message@ == branching(*self) + ": "@ + e.message@,
    {
        let mut doing = text::own("creating branch '");
        doing.append(self.task.branch);
        doing.append("' in submodule ");
        doing.append(fs_paths::join(self.dir.as_str(), self.entry.path.as_str()).as_str());
        e.context(doing.as_str())
    }

    fn next(&self, reply: Reply) -> (r: (WorkerPhase, Turn))
        ensures
            worker_moves(
                *self,
                reply,
                (Worker {
                    task: self.task,
                    dir: self.dir,
                    scope: self.scope,
                    entry: self.entry,
                    phase: r.0,
                }),
                r.1,
            ),
    {
        let path = self.entry.path.as_str();
        let sub = fs_paths::join(self.dir.as_str(), path);
        let (create, attach) = git::checkout_force_branch(sub.as_str(), self.task.branch);
        match (&self.phase, reply) {
            (WorkerPhase::Fetching, Reply::Git(r)) => match fetch(self.dir.as_str(), path).check(
                &r,
            ) {
                Err(e) => {
                    let mut doing = text::own("submodule update ");
                    doing.append(path);
                    doing.append(" in ");
                    doing.append(self.dir.as_str());
                    (WorkerPhase::Over, effect::failing(e.context(doing.as_str())))
                },
                Ok(_) => (WorkerPhase::Branching, effect::silently(Action::Git(create))),
            },
            (WorkerPhase::Branching, Reply::Git(r)) => match create.check(&r) {
                Err(e) => (WorkerPhase::Over, effect::failing(self.branch_error(e))),
                Ok(_) => (WorkerPhase::Attaching, effect::silently(Action::Git(attach))),
            },
            (WorkerPhase::Attaching, Reply::Git(r)) => match attach.check(&r) {
                Err(e) => (WorkerPhase::Over, effect::failing(self.branch_error(e))),
                Ok(_) => (WorkerPhase::Sweeping, effect::silently(Action::Sweep(sub))),
            },
            (WorkerPhase::Sweeping, Reply::Ended(r)) => match r {
                Err(e) => (WorkerPhase::Over, effect::failing(e)),
                Ok(_) => {
                    let file = fs_paths::join(sub.as_str(), ".gitmodules");
                    (WorkerPhase::Looking, effect::silently(Action::Exists(file)))
                },
            },
            (WorkerPhase::Looking, Reply::Exists(there)) => {
                if there {
                    let scope = child_scope(self.scope.as_str(), self.entry.name.as_str());
                    (WorkerPhase::Nested, effect::silently(Action::Update(sub, scope)))
                } else {
                    (WorkerPhase::Over, effect::silently(Action::Finish(Ok(None))))
                }
            },
            (WorkerPhase::Nested, Reply::Ended(r)) => match r {
                Err(e) => (WorkerPhase::Over, effect::failing(e)),
                Ok(_) => (WorkerPhase::Over, effect::silently(Action::Finish(Ok(None)))),
            },
            _ => (WorkerPhase::Over, effect::misfit()),
        }
    }

    /// Takes the reply to the last action and gives the next one.
    pub fn step(self, reply: Reply) -> (r: (Worker<'a>, Turn))
        ensures
            worker_moves(self, reply, r.0, r.1),
    {
        let (phase, turn) = self.next(reply);
        (
            Worker {
                task: self.task,
                dir: self.dir,
                scope: self.scope,
                entry: self.entry,
                phase,
            },
            turn,
        )
    }
}

// ---------------------------------------------------------------------------
// Deleting the branch again
// ---------------------------------------------------------------------------

/// The best-effort deletion of a branch in one submodule that is under way.
#[derive(Debug)]
pub struct Forget {
    pub path: String,
    pub branch: String,
    pub phase: ForgetPhase,
}

/// What the last action was.
#[derive(Debug)]
pub enum ForgetPhase {
    /// Asking for the commit of `HEAD`.
    Finding,
    /// Detaching `HEAD` there.
    Detaching,
    /// Deleting the branch.
    Deleting,
    Over,
}

/// How the deletion of a branch in one submodule goes on. Failures are absorbed: the
/// working directory of a skipped submodule is empty, so git fails there.
pub open spec fn forget_moves(pre: Forget, reply: Reply, post: Forget, turn: Turn) -> bool {
    let path = pre.path@;
    &&& post.path == pre.path
    &&& post.branch == pre.branch
    &&& effect::quiet(turn)
    &&& match (pre.phase, reply) {
        (ForgetPhase::Finding, Reply::Git(r)) => match git::checked(
            git::head_sha_command(path),
            r,
        ) {
            Ok(sha) => post.phase is Detaching && effect::runs_git(
                turn,
                git::detach_head_command(path, sha),
            ),
            Err(_) => post.phase is Deleting && effect::runs_git(
                turn,
                git::branch_delete_command(path, pre.branch@),
            ),
        },
        (ForgetPhase::Detaching, Reply::Git(_)) => post.phase is Deleting && effect::runs_git(
            turn,
            git::branch_delete_command(path, pre.branch@),
        ),
        (ForgetPhase::Deleting, Reply::Git(_)) => post.phase is Over && effect::succeeds(turn),
        _ => post.phase is Over && effect::fails(turn, None, effect::misfit_message()),
    }
}

/// Begins the best-effort deletion of a branch in one submodule.
pub fn forget_branch(path: &str, branch: &str) -> (r: (Forget, Turn))
    ensures
        r.0.path@ == path@,
        r.0.branch@ == branch@,
        r.0.phase is Finding,
        effect::quiet(r.1),
        effect::runs_git(r.1, git::head_sha_command(path@)),
{
    (
        Forget {
            path: text::own(path),
            branch: text::own(branch),
            phase: ForgetPhase::Finding,
        },
        effect::silently(Action::Git(git::head_sha(path))),
    )
}

impl Forget {
    /// Takes the reply to the last action and gives the next one.
    pub fn step(self, reply: Reply) -> (r: (Forget, Turn))
        ensures
            forget_moves(self, reply, r.0, r.1),
    {
        let path = self.path;
        let branch = self.branch;
        let delete = git::branch_delete(path.as_str(), branch.as_str());
        let (phase, turn) = match (self.phase, reply) {
            (ForgetPhase::Finding, Reply::Git(r)) => match git::head_sha(path.as_str()).check(&r) {
                Ok(sha) => {
                    let cmd = git::detach_head(path.as_str(), sha.as_str());
                    (ForgetPhase::Detaching, effect::silently(Action::Git(cmd)))
                },
                Err(_) => (ForgetPhase::Deleting, effect::silently(Action::Git(delete))),
            },
            (ForgetPhase::Detaching, Reply::Git(_)) => (
                ForgetPhase::Deleting,
                effect::silently(Action::Git(delete)),
            ),
            (ForgetPhase::Deleting, Reply::Git(_)) => (
                ForgetPhase::Over,
                effect::silently(Action::Finish(Ok(None))),
            ),
            _ => (ForgetPhase::Over, effect::misfit()),
        };
        (Forget { path, branch, phase }, turn)
    }
}

/// The recursive deletion of a branch in the submodules of a checkout that is under way.
#[derive(Debug)]
pub struct DeleteBranches {
    pub dir: String,
    pub branch: String,
    pub phase: DeletePhase,
}

/// What the last action was; the checkouts of the submodules, and an index into them.
#[derive(Debug)]
pub enum DeletePhase {
    /// Looking whether there is a `.gitmodules`.
    Looking,
    /// Reading it.
    Reading,
    /// Detaching and deleting in each submodule.
    Detaching(Vec<String>),
    /// Looking whether a submodule has a `.gitmodules` of its own.
    Checking(Vec<String>, usize),
    /// Deleting in the submodules nested in it.
    Descending(Vec<String>, usize),
    Over,
}

/// The checkouts of submodules.
pub open spec fn checkouts(dir: Seq<char>, entries: Seq<SubmoduleView>) -> Seq<Seq<char>> {
    entries.map_values(|e: SubmoduleView| fs_paths::path_in(dir, e.path))
}

/// Goes on with the submodule at an index, or ends well.
pub open spec fn checks_child(
    children: Vec<String>,
    at: int,
    phase: DeletePhase,
    turn: Turn,
) -> bool {
    if at < children@.len() {
        &&& phase matches DeletePhase::Checking(c, i)
        &&& c == children
        &&& i == at
        &&& effect::looks_for(turn, modules_file(children@[at]@))
    } else {
        phase is Over && effect::succeeds(turn)
    }
}

/// How the recursive deletion goes on. Failures are absorbed.
pub open spec fn delete_moves(
    pre: DeleteBranches,
    reply: Reply,
    post: DeleteBranches,
    turn: Turn,
) -> bool {
    let dir = pre.dir@;
    let list = git::config_file_list_command(dir, modules_file(dir));
    &&& post.dir == pre.dir
    &&& post.branch == pre.branch
    &&& effect::quiet(turn)
    &&& match (pre.phase, reply) {
        (DeletePhase::Looking, Reply::Exists(there)) => if there {
            post.phase is Reading && effect::runs_git(turn, list)
        } else {
            post.phase is Over && effect::succeeds(turn)
        },
        (DeletePhase::Reading, Reply::Git(r)) => match git::checked(list, r) {
            Err(_) => post.phase is Over && effect::succeeds(turn),
            Ok(raw) => if declared(raw).len() == 0 {
                post.phase is Over && effect::succeeds(turn)
            } else {
                &&& turn.action matches Action::DetachEach(entries)
                &&& lists_declared(module_views(entries@), raw)
                &&& post.phase matches DeletePhase::Detaching(children)
                &&& text::texts(children@) == checkouts(dir, module_views(entries@))
            },
        },
        (DeletePhase::Detaching(children), Reply::Done) => checks_child(
            children,
            0,
            post.phase,
            turn,
        ),
        (DeletePhase::Checking(children, at), Reply::Exists(there)) => if there && at
            < children@.len() {
            &&& post.phase == DeletePhase::Descending(children, at)
            &&& turn.action matches Action::DeleteBranches(p, b)
            &&& p@ == children@[at as int]@
            &&& b@ == pre.branch@
        } else {
            checks_child(children, at + 1, post.phase, turn)
        },
        (DeletePhase::Descending(children, at), Reply::Done) => checks_child(
            children,
            at + 1,
            post.phase,
            turn,
        ),
        _ => post.phase is Over && effect::fails(turn, None, effect::misfit_message()),
    }
}

fn children_of(dir: &str, entries: &Vec<SubmoduleEntry>) -> (r: Vec<String>)
    ensures
        text::texts(r@) == checkouts(dir@, module_views(entries@)),
{
    let mut out: Vec<String> = Vec::new();
    let ghost want = checkouts(dir@, module_views(entries@));
    let mut i: usize = 0;
    assert(text::texts(out@) =~= want.take(0));
    while i < entries.len()
        invariant
            i <= entries.len(),
            want == checkouts(dir@, module_views(entries@)),
            text::texts(out@) == want.take(i as int),
        decreases entries.len() - i,
    {
        let ghost before = text::texts(out@);
        out.push(fs_paths::join(dir, entries[i].path.as_str()));
        assert(text::texts(out@) =~= before.push(want[i as int]));
        assert(want.take(i + 1) =~= want.take(i as int).push(want[i as int]));
        i = i + 1;
    }
    assert(want.take(i as int) =~= want);
    out
}

fn check_child(children: Vec<String>, at: usize) -> (r: (DeletePhase, Turn))
    ensures
        checks_child(children, at as int, r.0, r.1),
        effect::quiet(r.1),
{
    if at >= children.len() {
        return (DeletePhase::Over, effect::silently(Action::Finish(Ok(None))));
    }
    let file = fs_paths::join(children[at].as_str(), ".gitmodules");
    (DeletePhase::Checking(children, at), effect::silently(Action::Exists(file)))
}

fn check_after(children: Vec<String>, at: usize) -> (r: (DeletePhase, Turn))
    ensures
        checks_child(children, at + 1, r.0, r.1),
        effect::quiet(r.1),
{
    if at >= children.len() {
        return (DeletePhase::Over, effect::silently(Action::Finish(Ok(None))));
    }
    check_child(children, at + 1)
}

/// Begins the best-effort deletion of a branch in every submodule of a checkout, nested
/// ones too: what `update` created.
pub fn delete_branch_recursive(dir: &str, branch: &str) -> (r: (DeleteBranches, Turn))
    ensures
        r.0.dir@ == dir@,
        r.0.branch@ == branch@,
        r.0.phase is Looking,
        effect::quiet(r.1),
        effect::looks_for(r.1, modules_file(dir@)),
{
    (
        DeleteBranches {
            dir: text::own(dir),
            branch: text::own(branch),
            phase: DeletePhase::Looking,
        },
        effect::silently(Action::Exists(fs_paths::join(dir, ".gitmodules"))),
    )
}

impl DeleteBranches {
    /// Begins the deletion in one of the submodules that `DetachEach` names.
    pub fn forget(&self, entry: &SubmoduleEntry) -> (r: (Forget, Turn))
        ensures
            r.0.path@ == fs_paths::path_in(self.dir@, entry@.path),
            r.0.branch@ == self.branch@,
            r.0.phase is Finding,
            effect::quiet(r.1),
            effect::runs_git(r.1, git::head_sha_command(r.0.path@)),
    {
        let path = fs_paths::join(self.dir.as_str(), entry.path.as_str());
        forget_branch(path.as_str(), self.branch.as_str())
    }

    /// Takes the reply to the last action and gives the next one.
    pub fn step(self, reply: Reply) -> (r: (DeleteBranches, Turn))
        ensures
            delete_moves(self, reply, r.0, r.1),
    {
        let dir = self.dir;
        let branch = self.branch;
        let file = fs_paths::join(dir.as_str(), ".gitmodules");
        let list = git::config_file_list(dir.as_str(), file.as_str());
        let (phase, turn) = match (self.phase, reply) {
            (DeletePhase::Looking, Reply::Exists(there)) => {
                if there {
                    (DeletePhase::Reading, effect::silently(Action::Git(list)))
                } else {
                    (DeletePhase::Over, effect::silently(Action::Finish(Ok(None))))
                }
            },
            (DeletePhase::Reading, Reply::Git(r)) => match list.check(&r) {
                Err(_) => (DeletePhase::Over, effect::silently(Action::Finish(Ok(None)))),
                Ok(raw) => {
                    let entries = parse_gitmodules_text(raw.as_str());
                    proof {
                        module_views(entries@).to_multiset_ensures();
                        declared(raw@).to_multiset_ensures();
                    }
                    if entries.len() == 0 {
                        (DeletePhase::Over, effect::silently(Action::Finish(Ok(None))))
                    } else {
                        let children = children_of(dir.as_str(), &entries);
                        (
                            DeletePhase::Detaching(children),
                            effect::silently(Action::DetachEach(entries)),
                        )
                    }
                },
            },
            (DeletePhase::Detaching(children), Reply::Done) => check_child(children, 0),
            (DeletePhase::Checking(children, at), Reply::Exists(there)) => {
                if there && at < children.len() {
                    let child = text::own(children[at].as_str());
                    let name = text::own(branch.as_str());
                    (
                        DeletePhase::Descending(children, at),
                        effect::silently(Action::DeleteBranches(child, name)),
                    )
                } else {
                    check_after(children, at)
                }
            },
            (DeletePhase::Descending(children, at), Reply::Done) => check_after(children, at),
            _ => (DeletePhase::Over, effect::misfit()),
        };
        (DeleteBranches { dir, branch, phase }, turn)
    }
}

// ---------------------------------------------------------------------------
// Laws
// ---------------------------------------------------------------------------

/// Parting by tags loses nothing and doubles nothing.
pub proof fn filter_parts_the_submodules(
    entries: Seq<SubmoduleView>,
    tags: Seq<Seq<char>>,
    scope: Seq<char>,
)
    ensures
        those(entries, tags, scope, true).to_multiset().add(
            those(entries, tags, scope, false).to_multiset(),
        ) == entries.to_multiset(),
        forall|i: int|
            0 <= i < those(entries, tags, scope, true).len() ==> skipped(
                #[trigger] those(entries, tags, scope, true)[i],
                tags,
                scope,
            ),
        forall|i: int|
            0 <= i < those(entries, tags, scope, false).len() ==> !skipped(
                #[trigger] those(entries, tags, scope, false)[i],
                tags,
                scope,
            ),
    decreases entries.len(),
{
    broadcast use vstd::seq_lib::group_to_multiset_ensures;

    if entries.len() == 0 {
        assert(those(entries, tags, scope, true).to_multiset().add(
            those(entries, tags, scope, false).to_multiset(),
        ) =~= entries.to_multiset());
    } else {
        let rest = entries.drop_last();
        let e = entries.last();
        filter_parts_the_submodules(rest, tags, scope);
        assert(rest.push(e) =~= entries);
        let skip = those(rest, tags, scope, true);
        let keep = those(rest, tags, scope, false);
        if skipped(e, tags, scope) {
            assert(skip.push(e).to_multiset().add(keep.to_multiset()) =~= skip.to_multiset().add(
                keep.to_multiset(),
            ).insert(e));
        } else {
            assert(skip.to_multiset().add(keep.push(e).to_multiset()) =~= skip.to_multiset().add(
                keep.to_multiset(),
            ).insert(e));
        }
    }
}

/// Tags count at top level only: below it no submodule is skipped.
pub proof fn nested_submodules_are_never_skipped(
    entries: Seq<SubmoduleView>,
    tags: Seq<Seq<char>>,
    scope: Seq<char>,
)
    requires
        scope.len() > 0,
    ensures
        those(entries, tags, scope, true).len() == 0,
        those(entries, tags, scope, false) == entries,
    decreases entries.len(),
{
    if entries.len() > 0 {
        nested_submodules_are_never_skipped(entries.drop_last(), tags, scope);
        assert(entries.drop_last().push(entries.last()) =~= entries);
    }
}

/// The scope below a submodule is never empty, so only the top level is top level.
pub proof fn nested_scopes_are_not_empty(scope: Seq<char>, name: Seq<char>)
    ensures
        nested_scope(scope, name).len() > 0,
{
    reveal_strlit("/modules");
}

/// A submodule is fetched from its mirror and from nowhere else. It has one in
/// source-submodules mode always, in bare-mirror mode where the URL names an org and repo,
/// and without a mode never.
pub proof fn submodules_come_from_mirrors_only(
    cfg: config::PoolConfigView,
    e: SubmoduleView,
    scope: Seq<char>,
)
    requires
        cfg.submodule_mirror_mode is Some ==> cfg.submodule_mirror_base is Some,
    ensures
        fetch_url(cfg, e, scope) matches Ok(u) ==> mirror_url(cfg, e.name, e.url, scope) == Some(u),
        fetch_url(cfg, e, scope) is Ok <==> match cfg.submodule_mirror_mode {
            Some(SubmoduleMirrorMode::SourceSubmodules) => true,
            Some(SubmoduleMirrorMode::BareMirror) => org_repo(e.url) is Some,
            None => false,
        },
{
}

/// In source-submodules mode the mirror of a nested submodule lies under its parent's:
/// `<parent's mirror>/modules/<name>`.
pub proof fn nested_mirror_lies_under_its_parents(
    cfg: config::PoolConfigView,
    parent: SubmoduleView,
    child: SubmoduleView,
    scope: Seq<char>,
)
    requires
        cfg.submodule_mirror_mode == Some(SubmoduleMirrorMode::SourceSubmodules),
        cfg.submodule_mirror_base is Some,
    ensures
        mirror_url(cfg, child.name, child.url, nested_scope(scope, parent.name)) == Some(
            mirror_url(cfg, parent.name, parent.url, scope)->0 + "/modules"@ + "/"@ + child.name,
        ),
{
    nested_scopes_are_not_empty(scope, parent.name);
    let base = cfg.submodule_mirror_base->0;
    assert(base + "/.git/modules/"@ + (composed(scope, parent.name) + "/modules"@ + "/"@
        + child.name) =~= base + "/.git/modules/"@ + composed(scope, parent.name) + "/modules"@
        + "/"@ + child.name);
}

/// Release cleans up after acquire: where a checkout declares the same submodules at both
/// times, each submodule that an update put on the lease's branch is among those that the
/// deletion of branches visits.
pub proof fn deletion_visits_what_was_branched(
    u: Place,
    raw: Seq<char>,
    skip: Vec<SubmoduleEntry>,
    keep: Vec<SubmoduleEntry>,
    visited: Seq<SubmoduleView>,
    i: int,
)
    requires
        parts_declared(u, raw, skip, keep),
        lists_declared(visited, raw),
        0 <= i < keep@.len(),
    ensures
        visited.contains(keep@[i]@),
{
    broadcast use vstd::seq_lib::group_to_multiset_ensures;

    let entries = choose|entries: Seq<SubmoduleView>| #[trigger]
        lists_declared(entries, raw) && module_views(skip@) == those(
            entries,
            u.tags,
            u.scope,
            true,
        ) && module_views(keep@) == those(entries, u.tags, u.scope, false);
    filter_parts_the_submodules(entries, u.tags, u.scope);
    let kept = those(entries, u.tags, u.scope, false);
    assert(kept[i] == keep@[i]@);
    assert(kept.contains(kept[i]));
    assert(kept.to_multiset().count(kept[i]) > 0);
    assert(visited.to_multiset().count(kept[i]) > 0);
}

/// Each name is declared once.
pub proof fn declared_names_are_distinct(raw: Seq<char>)
    ensures
        forall|i: int, j: int|
            0 <= i < j < declared(raw).len() ==> declared(raw)[i].name != declared(raw)[j].name,
{
    let keys = keys_of(raw);
    lemma_names_distinct(keys);
    lemma_modules_distinct(keys, names_in(keys));
}

proof fn lemma_names_distinct(keys: Seq<Key>)
    ensures
        names_in(keys).no_duplicates(),
    decreases keys.len(),
{
    if keys.len() > 0 {
        lemma_names_distinct(keys.drop_last());
    }
}

proof fn lemma_modules_distinct(keys: Seq<Key>, names: Seq<Seq<char>>)
    requires
        names.no_duplicates(),
    ensures
        forall|i: int, j: int|
            0 <= i < j < modules_of(keys, names).len() ==> modules_of(keys, names)[i].name
                != modules_of(keys, names)[j].name,
        forall|i: int|
            0 <= i < modules_of(keys, names).len() ==> names.contains(
                #[trigger] modules_of(keys, names)[i].name,
            ),
    decreases names.len(),
{
    if names.len() > 0 {
        let rest = names.drop_last();
        assert(rest.no_duplicates());
        lemma_modules_distinct(keys, rest);
        let before = modules_of(keys, rest);
        let all = modules_of(keys, names);
        assert forall|i: int| 0 <= i < all.len() implies names.contains(
            #[trigger] all[i].name,
        ) by {
            if i < before.len() {
                assert(all[i] == before[i]);
                let k = choose|k: int| 0 <= k < rest.len() && rest[k] == before[i].name;
                assert(names[k] == before[i].name);
            } else {
                assert(names[names.len() - 1] == all[i].name);
            }
        }
        assert forall|i: int, j: int| 0 <= i < j < all.len() implies all[i].name
            != all[j].name by {
            if j < before.len() {
                assert(all[i] == before[i] && all[j] == before[j]);
            } else {
                assert(all[i] == before[i]);
                let k = choose|k: int| 0 <= k < rest.len() && rest[k] == before[i].name;
                assert(names[k] != names[names.len() - 1]);
            }
        }
    }
}

/// Whether the source's config mutex is held in a phase.
pub open spec fn holds_source(u: Update) -> bool {
    u.scope@.len() == 0 && u.phase is Writing
}

/// At top level, URLs are registered only under the source's config mutex: it is held
/// from the reply that grants it to the action that releases it or ends the run.
pub proof fn urls_are_registered_under_the_mutex(
    pre: Update,
    reply: Reply,
    post: Update,
    turn: Turn,
)
    requires
        update_moves(pre, reply, post, turn),
        pre.scope@.len() == 0,
    ensures
        !holds_source(pre) && holds_source(post) ==> pre.phase is Locking && (
        reply matches Reply::Taken(r) && r is Ok),
        holds_source(pre) && !holds_source(post) ==> turn.action is DropLock
            || turn.action is Finish,
        turn.action is UpdateEach ==> !holds_source(post),
{
}

/// Workers start only once every URL is registered.
pub proof fn workers_follow_every_registration(
    pre: Update,
    reply: Reply,
    post: Update,
    turn: Turn,
)
    requires
        update_moves(pre, reply, post, turn),
        turn.action is UpdateEach,
    ensures
        pre.phase is Unlocking || (pre.phase matches UpdatePhase::Writing(_, keep, at) && at + 1
            == keep@.len() && pre.scope@.len() > 0),
{
}

/// An update removes only the directories of submodules that it skips.
pub proof fn update_removes_only_skipped(pre: Update, reply: Reply, post: Update, turn: Turn)
    requires
        update_moves(pre, reply, post, turn),
        turn.action is RemoveDir,
    ensures
        pre.phase matches UpdatePhase::Deiniting(skip, at) && at < skip@.len() && (
        turn.action matches Action::RemoveDir(p) && p@ == fs_paths::path_in(
            pre.dir@,
            skip@[at as int]@.path,
        )),
{
}

/// What is left of walking a list, two actions per item: `half` after the first of them.
pub open spec fn steps_left(len: nat, at: int, half: bool) -> nat {
    if at < len {
        (2 * (len - at) + if half {
            0int
        } else {
            1int
        }) as nat
    } else {
        1
    }
}

/// What is left of a sweep: its stages, and the steps within its walk.
pub open spec fn sweep_left(p: SweepPhase) -> (nat, nat) {
    match p {
        SweepPhase::Listing => (2, 0),
        SweepPhase::Looking(paths, at) => (1, steps_left(paths@.len(), at as int, false)),
        SweepPhase::Removing(paths, at) => (1, steps_left(paths@.len(), at as int, true)),
        SweepPhase::Over => (0, 0),
    }
}

/// What is left of a level's update.
pub open spec fn update_left(p: UpdatePhase) -> (nat, nat) {
    match p {
        UpdatePhase::Looking => (8, 0),
        UpdatePhase::Reading => (7, 0),
        UpdatePhase::Locating(_, _) => (6, 0),
        UpdatePhase::Locking(_, _) => (5, 0),
        UpdatePhase::Writing(_, keep, at) => (4, steps_left(keep@.len(), at as int, true)),
        UpdatePhase::Unlocking(_, _) => (3, 0),
        UpdatePhase::Working(_, _) => (2, 0),
        UpdatePhase::Deiniting(skip, at) => (1, steps_left(skip@.len(), at as int, false)),
        UpdatePhase::Removing(skip, at) => (1, steps_left(skip@.len(), at as int, true)),
        UpdatePhase::Over => (0, 0),
    }
}

/// What is left of a submodule's update.
pub open spec fn worker_left(p: WorkerPhase) -> nat {
    match p {
        WorkerPhase::Fetching => 6,
        WorkerPhase::Branching => 5,
        WorkerPhase::Attaching => 4,
        WorkerPhase::Sweeping => 3,
        WorkerPhase::Looking => 2,
        WorkerPhase::Nested => 1,
        WorkerPhase::Over => 0,
    }
}

/// What is left of a level's deletion of branches.
pub open spec fn delete_left(p: DeletePhase) -> (nat, nat) {
    match p {
        DeletePhase::Looking => (4, 0),
        DeletePhase::Reading => (3, 0),
        DeletePhase::Detaching(_) => (2, 0),
        DeletePhase::Checking(c, at) => (1, steps_left(c@.len(), at as int, false)),
        DeletePhase::Descending(c, at) => (1, steps_left(c@.len(), at as int, true)),
        DeletePhase::Over => (0, 0),
    }
}

/// What is left of a deletion in one submodule.
pub open spec fn forget_left(p: ForgetPhase) -> nat {
    match p {
        ForgetPhase::Finding => 3,
        ForgetPhase::Detaching => 2,
        ForgetPhase::Deleting => 1,
        ForgetPhase::Over => 0,
    }
}

/// Less is left: an earlier stage, or fewer steps of the same.
pub open spec fn less(a: (nat, nat), b: (nat, nat)) -> bool {
    a.0 < b.0 || (a.0 == b.0 && a.1 < b.1)
}

/// Every sweep ends, with the action that says so.
pub proof fn sweeps_end(pre: Sweep, reply: Reply, post: Sweep, turn: Turn)
    requires
        sweep_moves(pre, reply, post, turn),
    ensures
        less(sweep_left(post.phase), sweep_left(pre.phase)) || pre.phase is Over,
        post.phase is Over <==> turn.action is Finish,
{
}

/// Every update of a level ends, with the action that says so.
pub proof fn updates_end(pre: Update, reply: Reply, post: Update, turn: Turn)
    requires
        update_moves(pre, reply, post, turn),
    ensures
        less(update_left(post.phase), update_left(pre.phase)) || pre.phase is Over,
        post.phase is Over <==> turn.action is Finish,
{
}

/// Every update of a submodule ends, with the action that says so.
pub proof fn workers_end(pre: Worker, reply: Reply, post: Worker, turn: Turn)
    requires
        worker_moves(pre, reply, post, turn),
    ensures
        worker_left(post.phase) < worker_left(pre.phase) || pre.phase is Over,
        post.phase is Over <==> turn.action is Finish,
{
}

/// Every deletion of branches ends, with the action that says so.
pub proof fn deletions_end(pre: DeleteBranches, reply: Reply, post: DeleteBranches, turn: Turn)
    requires
        delete_moves(pre, reply, post, turn),
    ensures
        less(delete_left(post.phase), delete_left(pre.phase)) || pre.phase is Over,
        post.phase is Over <==> turn.action is Finish,
{
}

/// Every deletion in one submodule ends, with the action that says so.
pub proof fn forgetting_ends(pre: Forget, reply: Reply, post: Forget, turn: Turn)
    requires
        forget_moves(pre, reply, post, turn),
    ensures
        forget_left(post.phase) < forget_left(pre.phase) || pre.phase is Over,
        post.phase is Over <==> turn.action is Finish,
{
}

/// Deleting branches is best-effort: a run whose replies fit ends well whatever git says.
pub proof fn deletion_absorbs_failures(
    pre: DeleteBranches,
    r: GitReply,
    post: DeleteBranches,
    turn: Turn,
)
    requires
        pre.phase is Reading,
        delete_moves(pre, Reply::Git(r), post, turn),
    ensures
        turn.action is DetachEach || effect::succeeds(turn),
{
}

} // verus!
