//! Laws of the submodules as they are called.
use crate::cli::SubmoduleMirrorMode;
use crate::config::PoolConfig;
use crate::effect::{Action, Turn};
use crate::error::Error;
use crate::fs_paths;
use crate::laws::gitmodules;
use crate::laws::submodules as submodule_laws;
use crate::submodules;
use crate::submodules::{
    DeleteBranches, Forget, SubmoduleEntry, SubmoduleView, Sweep, Task, Update, Worker,
};
use crate::text;
use crate::text_lemmas::lacks;
use vstd::prelude::*;

verus! {

/// In bare-mirror mode the mirror is the base and the path of the URL behind the host,
/// whatever the name and the place.
pub proof fn a_bare_mirror_goes_by_the_url(
    cfg: &PoolConfig,
    base: Seq<char>,
    name: &str,
    url: &str,
    scope: &str,
    r: Option<String>,
    scheme: Seq<char>,
    host: Seq<char>,
    p: Seq<char>,
)
    requires
        call_ensures(submodules::rewrite_url, (cfg, name, url, scope), r),
        cfg.submodule_mirror_mode == Some(SubmoduleMirrorMode::BareMirror),
        text::opt_text(cfg.submodule_mirror_base) == Some(base),
        lacks(scheme, ':'),
        lacks(host, '/'),
        url@ == scheme + "://"@ + host + "/"@ + p + ".git"@ || (url@ == scheme + "://"@ + host
            + "/"@ + p && !".git"@.is_suffix_of(p)),
    ensures
        r matches Some(u) && u@ == base + "/"@ + p + ".git"@,
{
    submodule_laws::bare_mirrors_follow_the_url(cfg@, base, scheme, host, p, name@, scope@);
}

/// So it is for the short form of a URL.
pub proof fn a_bare_mirror_goes_by_the_short_url(
    cfg: &PoolConfig,
    base: Seq<char>,
    name: &str,
    url: &str,
    scope: &str,
    r: Option<String>,
    host: Seq<char>,
    p: Seq<char>,
)
    requires
        call_ensures(submodules::rewrite_url, (cfg, name, url, scope), r),
        cfg.submodule_mirror_mode == Some(SubmoduleMirrorMode::BareMirror),
        text::opt_text(cfg.submodule_mirror_base) == Some(base),
        lacks(host, ':'),
        forall|i: int|
            0 <= i <= host.len() + p.len() - 2 ==> #[trigger] (host + ":"@ + p).subrange(i, i + 3)
                != "://"@,
        url@ == host + ":"@ + p + ".git"@ || (url@ == host + ":"@ + p && !".git"@.is_suffix_of(p)),
    ensures
        r matches Some(u) && u@ == base + "/"@ + p + ".git"@,
{
    submodule_laws::bare_mirrors_follow_the_short_url(cfg@, base, host, p, name@, scope@);
}

/// Two submodules with one URL have one bare mirror, whatever their names and places.
pub proof fn one_url_has_one_bare_mirror(
    cfg: &PoolConfig,
    url: &str,
    name: &str,
    scope: &str,
    other: &str,
    place: &str,
    a: Option<String>,
    b: Option<String>,
)
    requires
        call_ensures(submodules::rewrite_url, (cfg, name, url, scope), a),
        call_ensures(submodules::rewrite_url, (cfg, other, url, place), b),
        cfg.submodule_mirror_mode == Some(SubmoduleMirrorMode::BareMirror),
    ensures
        text::opt_text(a) == text::opt_text(b),
{
    submodule_laws::bare_mirrors_depend_on_the_url_only(
        cfg@,
        url@,
        name@,
        scope@,
        other@,
        place@,
    );
}

/// In source-submodules mode the mirror is the base's own store of that name, whatever the
/// URL; without a mode there is none.
pub proof fn a_source_mirror_goes_by_the_name(
    cfg: &PoolConfig,
    base: Seq<char>,
    name: &str,
    url: &str,
    scope: &str,
    r: Option<String>,
)
    requires
        call_ensures(submodules::rewrite_url, (cfg, name, url, scope), r),
    ensures
        cfg.submodule_mirror_mode == Some(SubmoduleMirrorMode::SourceSubmodules) && text::opt_text(
            cfg.submodule_mirror_base,
        ) == Some(base) ==> (r matches Some(u) && (scope@.len() == 0 ==> u@ == base
            + "/.git/modules/"@ + name@) && (scope@.len() > 0 ==> u@ == base + "/.git/modules/"@
            + scope@ + "/"@ + name@)),
        cfg.submodule_mirror_mode is None || cfg.submodule_mirror_base is None ==> r is None,
{
    if cfg.submodule_mirror_mode == Some(SubmoduleMirrorMode::SourceSubmodules) && text::opt_text(
        cfg.submodule_mirror_base,
    ) == Some(base) {
        submodule_laws::source_mirrors_follow_the_name(cfg@, base, name@, url@, scope@);
        if scope@.len() == 0 {
            assert(scope@ =~= Seq::empty());
        }
    }
}

/// What is fetched from is the mirror; a submodule without one is refused.
pub proof fn a_submodule_is_fetched_from_its_mirror(
    cfg: &PoolConfig,
    e: &SubmoduleEntry,
    scope: &str,
    name: &str,
    url: &str,
    mirror: Option<String>,
    r: Result<String, Error>,
)
    requires
        call_ensures(submodules::effective_url, (cfg, e, scope), r),
        call_ensures(submodules::rewrite_url, (cfg, name, url, scope), mirror),
        name@ == e.name@,
        url@ == e.url@,
    ensures
        mirror matches Some(m) ==> (r matches Ok(u) && u@ == m@),
        mirror is None ==> (r matches Err(x) && x.kind is None),
{
}

/// The organisation and repository of a URL are its path behind the host.
pub proof fn a_url_has_a_path_behind_the_host(
    url: &str,
    r: Option<String>,
    scheme: Seq<char>,
    host: Seq<char>,
    p: Seq<char>,
)
    requires
        call_ensures(submodules::extract_org_repo, (url,), r),
    ensures
        lacks(scheme, ':') && lacks(host, '/') && url@ == scheme + "://"@ + host + "/"@ + p
            + ".git"@ ==> (r matches Some(t) && t@ == p),
        lacks(url@, ':') ==> r is None,
{
    if lacks(scheme, ':') && lacks(host, '/') && url@ == scheme + "://"@ + host + "/"@ + p
        + ".git"@ {
        submodule_laws::lemma_path_of_url(scheme, host, p);
        crate::laws::text::suffix_comes_off(scheme + "://"@ + host + "/"@ + p, ".git"@);
    }
    if lacks(url@, ':') {
        submodule_laws::lemma_no_path(url@);
    }
}

/// The lines of a listing give their keys in order, and what is declared follows from them.
pub proof fn a_listing_is_read(
    raw: &str,
    keys: Vec<(&str, &str, &str)>,
    r: Vec<SubmoduleEntry>,
    any: bool,
    i: int,
    j: int,
    m: SubmoduleView,
)
    requires
        call_ensures(submodules::iter_keys, (raw,), keys),
        call_ensures(submodules::parse_gitmodules_text, (raw,), r),
        call_ensures(submodules::declares_submodules, (raw,), any),
    ensures
        any <==> r@.len() > 0,
        0 <= i < j < r@.len() ==> text::ordered(r@[i].path@, r@[j].path@),
        submodules::module_views(r@).contains(m) <==> ({
            let all = submodules::key_views(keys@);
            &&& submodules::last_of(all, m.name, "path"@) == Some(m.path)
            &&& submodules::last_of(all, m.name, "url"@) == Some(m.url)
            &&& m.tags == submodules::all_of(all, m.name, "worktreepooltag"@)
        }),
        submodules::key_views(keys@) == text::lines_of(raw@).filter(
            |l: Seq<char>| submodules::key_of(l) is Some,
        ).map_values(|l: Seq<char>| submodules::key_of(l)->0),
{
    let views = submodules::module_views(r@);
    assert(views.len() == r@.len());
    gitmodules::submodules_go_by_path(views, raw@, i, j, m);
    gitmodules::a_submodule_has_a_path_and_a_url(raw@, m);
    gitmodules::keys_come_line_by_line(text::lines_of(raw@));
    if 0 <= i < j < r@.len() {
        assert(views[i] == r@[i]@ && views[j] == r@[j]@);
    }
}

/// Tagged submodules are parted from the others at the top, and only there.
pub proof fn submodules_are_parted(
    entries: Vec<SubmoduleEntry>,
    tags: &Vec<String>,
    scope: &str,
    r: (Vec<SubmoduleEntry>, Vec<SubmoduleEntry>),
    parent: &str,
    name: &str,
    child: String,
)
    requires
        call_ensures(submodules::partition, (entries, tags, scope), r),
        call_ensures(submodules::child_scope, (parent, name), child),
    ensures
        scope@.len() > 0 ==> r.0@.len() == 0 && submodules::module_views(r.1@)
            == submodules::module_views(entries@),
        scope@.len() == 0 ==> submodules::module_views(r.0@) == submodules::module_views(
            entries@,
        ).filter(
            |e: SubmoduleView|
                exists|i: int|
                    0 <= i < e.tags.len() && text::texts(tags@).contains(#[trigger] e.tags[i]),
        ),
        scope@.len() == 0 ==> submodules::module_views(r.1@) == submodules::module_views(
            entries@,
        ).filter(
            |e: SubmoduleView|
                forall|i: int|
                    0 <= i < e.tags.len() ==> !text::texts(tags@).contains(#[trigger] e.tags[i]),
        ),
        parent@.len() == 0 ==> child@ == name@ + "/modules"@,
        parent@.len() > 0 ==> child@ == parent@ + "/"@ + name@ + "/modules"@,
{
    let views = submodules::module_views(entries@);
    let want = text::texts(tags@);
    let top = scope@.len() == 0;
    gitmodules::tagged_submodules_are_skipped_at_the_top(views, want, scope@);
    let out = |e: SubmoduleView|
        scope@.len() == 0 && exists|i: int|
            0 <= i < e.tags.len() && want.contains(#[trigger] e.tags[i]);
    let stay = |e: SubmoduleView|
        scope@.len() > 0 || forall|i: int|
            0 <= i < e.tags.len() ==> !want.contains(#[trigger] e.tags[i]);
    assert(submodules::module_views(r.0@).len() == r.0@.len());
    if top {
        assert(out =~= (|e: SubmoduleView|
            exists|i: int| 0 <= i < e.tags.len() && want.contains(#[trigger] e.tags[i])));
        assert(stay =~= (|e: SubmoduleView|
            forall|i: int| 0 <= i < e.tags.len() ==> !want.contains(#[trigger] e.tags[i])));
        if parent@.len() == 0 {
            assert(parent@ =~= Seq::empty());
        }
    } else {
        lemma_all_pass(views, stay);
        lemma_none_pass(views, out);
    }
    gitmodules::scopes_nest(parent@, name@);
    if parent@.len() == 0 {
        assert(parent@ =~= Seq::empty());
    }
}

proof fn lemma_all_pass(s: Seq<SubmoduleView>, p: spec_fn(SubmoduleView) -> bool)
    requires
        forall|e: SubmoduleView| #[trigger] p(e),
    ensures
        s.filter(p) == s,
    decreases s.len(),
{
    if s.len() == 0 {
        crate::laws::lists::lemma_filter_none(p);
        assert(s =~= Seq::empty());
        assert(s.filter(p) =~= s);
    } else {
        crate::laws::lists::lemma_filter_last(s, p);
        lemma_all_pass(s.drop_last(), p);
        assert(s.filter(p) =~= s);
    }
}

proof fn lemma_none_pass(s: Seq<SubmoduleView>, p: spec_fn(SubmoduleView) -> bool)
    requires
        forall|e: SubmoduleView| !#[trigger] p(e),
    ensures
        s.filter(p).len() == 0,
    decreases s.len(),
{
    if s.len() == 0 {
        crate::laws::lists::lemma_filter_none(p);
        assert(s =~= Seq::empty());
    } else {
        crate::laws::lists::lemma_filter_last(s, p);
        lemma_none_pass(s.drop_last(), p);
    }
}

/// How the runs on submodules begin, each in its own checkout.
pub proof fn submodule_runs_begin(
    task: Task,
    dir: &str,
    scope: &str,
    branch: &str,
    entry: SubmoduleEntry,
    sweep: (Sweep, Turn),
    update: (Update, Turn),
    one: (Worker, Turn),
    forget: (Forget, Turn),
    delete: (DeleteBranches, Turn),
)
    requires
        call_ensures(submodules::sweep_stranded, (dir,), sweep),
        call_ensures(submodules::update, (task, dir, scope), update),
        call_ensures(submodules::update_one, (task, dir, scope, entry), one),
        call_ensures(submodules::forget_branch, (dir, branch), forget),
        call_ensures(submodules::delete_branch_recursive, (dir, branch), delete),
    ensures
        sweep.0.dir@ == dir@ && (sweep.1.action matches Action::Git(g) && g.cwd@ == dir@ && g@.args
            == seq!["ls-files"@, "--others"@, "--exclude-standard"@, "-z"@]),
        update.0.task == task && update.0.dir@ == dir@ && update.0.scope@ == scope@ && (
        update.1.action matches Action::Exists(p) && p@ == fs_paths::path_in(
            dir@,
            ".gitmodules"@,
        )),
        one.0.task == task && one.0.entry == entry && one.0.dir@ == dir@ && one.0.scope@ == scope@
            && (one.1.action matches Action::Git(g) && g.cwd@ == dir@ && g@.args == seq![
            "submodule"@,
            "update"@,
            entry.path@,
        ] && g@.overrides == seq![("protocol.file.allow"@, "always"@)]),
        forget.0.path@ == dir@ && forget.0.branch@ == branch@ && (
        forget.1.action matches Action::Git(g) && g.cwd@ == dir@ && g@.args == seq![
            "rev-parse"@,
            "HEAD"@,
        ]),
        delete.0.dir@ == dir@ && delete.0.branch@ == branch@ && (
        delete.1.action matches Action::Exists(p) && p@ == fs_paths::path_in(
            dir@,
            ".gitmodules"@,
        )),
{
}

/// The runs on one submodule work in its checkout, for the same task and with the same branch.
pub proof fn submodule_runs_are_handed_on(
    u: &Update,
    entry: SubmoduleEntry,
    w: (Worker, Turn),
    d: &DeleteBranches,
    e: &SubmoduleEntry,
    f: (Forget, Turn),
)
    requires
        call_ensures(Update::worker, (u, entry), w),
        call_ensures(DeleteBranches::forget, (d, e), f),
    ensures
        w.0.task == u.task && w.0.dir@ == u.dir@ && w.0.scope@ == u.scope@ && w.0.entry == entry && (
        w.1.action matches Action::Git(g) && g.cwd@ == u.dir@ && g@.args == seq![
            "submodule"@,
            "update"@,
            entry.path@,
        ]),
        f.0.path@ == fs_paths::path_in(d.dir@, e.path@) && f.0.branch@ == d.branch@ && (
        f.1.action matches Action::Git(g) && g.cwd@ == fs_paths::path_in(d.dir@, e.path@) && g@.args
            == seq!["rev-parse"@, "HEAD"@]),
{
}

} // verus!
