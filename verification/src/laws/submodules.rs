//! Laws of the submodules.
use crate::cli::SubmoduleMirrorMode;
use crate::config::PoolConfigView;
use crate::laws::text as text_laws;
use crate::submodules;
use crate::submodules::SubmoduleView;
use crate::text;
use crate::text_lemmas::lacks;
use vstd::prelude::*;

verus! {

/// A pattern that begins with a colon stands first where a text without colons ends.
proof fn lemma_scheme_at(scheme: Seq<char>, rest: Seq<char>)
    requires
        lacks(scheme, ':'),
    ensures
        text::occurrence(scheme + "://"@ + rest, "://"@) == Some(scheme.len() as int),
    decreases scheme.len(),
{
    let p = "://"@;
    let s = scheme + p + rest;
    reveal_strlit("://");
    if scheme.len() == 0 {
        assert(p =~= s.subrange(0, 3));
        assert(p.is_prefix_of(s));
    } else {
        let t = scheme.drop_first();
        assert forall|i: int| 0 <= i < t.len() implies t[i] != ':' by {
            assert(t[i] == scheme[i + 1]);
        }
        lemma_scheme_at(t, rest);
        assert(s.drop_first() =~= t + p + rest);
        assert(s[0] == scheme[0]);
        if p.is_prefix_of(s) {
            assert(s.subrange(0, 3)[0] == s[0]);
        }
    }
}

/// In bare-mirror mode a submodule comes from below the base, by the path of its URL behind
/// the host: whatever the scheme, with or without a `.git` end, and whatever the submodule's
/// name and its place. One such end is taken off, and no more.
pub proof fn bare_mirrors_follow_the_url(
    cfg: PoolConfigView,
    base: Seq<char>,
    scheme: Seq<char>,
    host: Seq<char>,
    p: Seq<char>,
    name: Seq<char>,
    scope: Seq<char>,
)
    requires
        cfg.submodule_mirror_mode == Some(SubmoduleMirrorMode::BareMirror),
        cfg.submodule_mirror_base == Some(base),
        lacks(scheme, ':'),
        lacks(host, '/'),
    ensures
        submodules::mirror_url(
            cfg,
            name,
            scheme + "://"@ + host + "/"@ + p + ".git"@,
            scope,
        ) == Some(base + "/"@ + p + ".git"@),
        !".git"@.is_suffix_of(p) ==> submodules::mirror_url(
            cfg,
            name,
            scheme + "://"@ + host + "/"@ + p,
            scope,
        ) == Some(base + "/"@ + p + ".git"@),
{
    let u = scheme + "://"@ + host + "/"@ + p;
    lemma_path_of_url(scheme, host, p);
    text_laws::suffix_comes_off(u, ".git"@);
    reveal_strlit("/");
    if !".git"@.is_suffix_of(p) {
        lemma_keeps_its_end(scheme + "://"@ + host + "/"@, p);
    }
}

/// A path that does not end in `.git` does not with a separator and more in front.
proof fn lemma_keeps_its_end(front: Seq<char>, p: Seq<char>)
    requires
        !".git"@.is_suffix_of(p),
        front.len() > 0,
        front.last() == '/' || front.last() == ':',
    ensures
        !".git"@.is_suffix_of(front + p),
{
    reveal_strlit(".git");
    let s = front + p;
    if ".git"@.is_suffix_of(s) {
        let e = s.subrange(s.len() - 4, s.len() as int);
        assert(e =~= ".git"@);
        if p.len() >= 4 {
            assert(p.subrange(p.len() - 4, p.len() as int) =~= e);
            assert(".git"@.is_suffix_of(p));
        } else {
            assert(e[3 - p.len()] == front.last());
        }
    }
}

/// The path of a URL stands behind its host.
pub proof fn lemma_path_of_url(scheme: Seq<char>, host: Seq<char>, p: Seq<char>)
    requires
        lacks(scheme, ':'),
        lacks(host, '/'),
    ensures
        text::occurrence(scheme + "://"@ + host + "/"@ + p, "://"@) == Some(scheme.len() as int),
        text::halves(
            (scheme + "://"@ + host + "/"@ + p).skip(scheme.len() as int + "://"@.len()),
            '/',
        ) == Some((host, p)),
{
    let u = scheme + "://"@ + host + "/"@ + p;
    reveal_strlit("://");
    reveal_strlit("/");
    assert("/"@ =~= seq!['/']);
    assert(u =~= scheme + "://"@ + (host + "/"@ + p));
    lemma_scheme_at(scheme, host + "/"@ + p);
    assert(u.skip(scheme.len() as int + "://"@.len()) =~= host + seq!['/'] + p);
    text_laws::splitting_is_at_the_first(host, '/', p);
}

/// So it does for the short form of a URL, which has a colon behind the host and no scheme.
pub proof fn bare_mirrors_follow_the_short_url(
    cfg: PoolConfigView,
    base: Seq<char>,
    host: Seq<char>,
    p: Seq<char>,
    name: Seq<char>,
    scope: Seq<char>,
)
    requires
        cfg.submodule_mirror_mode == Some(SubmoduleMirrorMode::BareMirror),
        cfg.submodule_mirror_base == Some(base),
        lacks(host, ':'),
        forall|i: int|
            0 <= i <= host.len() + p.len() - 2 ==> #[trigger] (host + ":"@ + p).subrange(i, i + 3)
                != "://"@,
    ensures
        submodules::mirror_url(cfg, name, host + ":"@ + p + ".git"@, scope) == Some(
            base + "/"@ + p + ".git"@,
        ),
        !".git"@.is_suffix_of(p) ==> submodules::mirror_url(cfg, name, host + ":"@ + p, scope)
            == Some(base + "/"@ + p + ".git"@),
{
    let u = host + ":"@ + p;
    reveal_strlit(":");
    reveal_strlit("://");
    assert(":"@ =~= seq![':']);
    text_laws::suffix_comes_off(u, ".git"@);
    if !".git"@.is_suffix_of(p) {
        lemma_keeps_its_end(host + ":"@, p);
    }
    text_laws::pattern_is_found_where_it_stands_first(u, "://"@);
    text_laws::splitting_is_at_the_first(host, ':', p);
}

/// The mirror of a submodule is there in bare-mirror mode exactly where its URL has a path
/// behind a host, and depends on nothing but that URL: neither on the name nor on the place.
pub proof fn bare_mirrors_depend_on_the_url_only(
    cfg: PoolConfigView,
    url: Seq<char>,
    name: Seq<char>,
    scope: Seq<char>,
    other_name: Seq<char>,
    other_scope: Seq<char>,
)
    requires
        cfg.submodule_mirror_mode == Some(SubmoduleMirrorMode::BareMirror),
    ensures
        submodules::mirror_url(cfg, name, url, scope) == submodules::mirror_url(
            cfg,
            other_name,
            url,
            other_scope,
        ),
        lacks(url, ':') ==> submodules::mirror_url(cfg, name, url, scope) is None,
{
    if lacks(url, ':') {
        lemma_no_path(url);
    }
}

/// A URL without a colon has no host, and so no path behind one.
pub proof fn lemma_no_path(url: Seq<char>)
    requires
        lacks(url, ':'),
    ensures
        submodules::org_repo(url) is None,
{
    let u = text::without_suffix(url, ".git"@);
    text_laws::suffix_comes_off(url, ".git"@);
    assert forall|i: int| 0 <= i < u.len() implies u[i] != ':' by {
        assert(u[i] == url[i]);
    }
    reveal_strlit("://");
    text_laws::pattern_is_found_where_it_stands_first(u, "://"@);
    if let Some(i) = text::occurrence(u, "://"@) {
        assert(u.subrange(i, i + 3)[0] == u[i]);
    }
    text_laws::splitting_is_at_the_first(u, ':', u);
}

/// In source-submodules mode a submodule comes from the base's own stores, by its name and
/// below its parents', whatever its URL.
pub proof fn source_mirrors_follow_the_name(
    cfg: PoolConfigView,
    base: Seq<char>,
    name: Seq<char>,
    url: Seq<char>,
    scope: Seq<char>,
)
    requires
        cfg.submodule_mirror_mode == Some(SubmoduleMirrorMode::SourceSubmodules),
        cfg.submodule_mirror_base == Some(base),
    ensures
        submodules::mirror_url(cfg, name, url, Seq::empty()) == Some(
            base + "/.git/modules/"@ + name,
        ),
        scope.len() > 0 ==> submodules::mirror_url(cfg, name, url, scope) == Some(
            base + "/.git/modules/"@ + scope + "/"@ + name,
        ),
{
    if scope.len() > 0 {
        assert(base + "/.git/modules/"@ + (scope + "/"@ + name) =~= base + "/.git/modules/"@ + scope
            + "/"@ + name);
    }
}

/// Without a mode or without a base there is no mirror, and then nothing to fetch from: the
/// declared URL is refused, a relative one by that name.
pub proof fn no_mirror_no_fetch(
    cfg: PoolConfigView,
    e: SubmoduleView,
    scope: Seq<char>,
    rest: Seq<char>,
)
    requires
        cfg.submodule_mirror_mode is None || cfg.submodule_mirror_base is None,
    ensures
        submodules::mirror_url(cfg, e.name, e.url, scope) is None,
        submodules::fetch_url(cfg, e, scope) is Err,
        e.url == "./"@ + rest || e.url == "../"@ + rest ==> submodules::fetch_url(cfg, e, scope)
            == Err::<Seq<char>, Seq<char>>(
            "submodule "@ + e.name + " has relative url `"@ + e.url
                + "` and no `submodule_mirror_*` rewrite is configured. Either configure a mirror in pool config, or change the submodule URL to absolute."@,
        ),
{
    assert("./"@.is_prefix_of("./"@ + rest));
    assert("../"@.is_prefix_of("../"@ + rest));
}

/// What is fetched from is the mirror, as it is.
pub proof fn the_mirror_is_fetched_from(cfg: PoolConfigView, e: SubmoduleView, scope: Seq<char>)
    ensures
        submodules::fetch_url(cfg, e, scope) is Ok <==> submodules::mirror_url(
            cfg,
            e.name,
            e.url,
            scope,
        ) is Some,
        submodules::fetch_url(cfg, e, scope) matches Ok(u) ==> submodules::mirror_url(
            cfg,
            e.name,
            e.url,
            scope,
        ) == Some(u),
{
}

/// A submodule that no mirror applies to is refused by its name and URL.
pub proof fn an_unmirrored_submodule_is_told(
    cfg: PoolConfigView,
    e: SubmoduleView,
    scope: Seq<char>,
)
    requires
        submodules::mirror_url(cfg, e.name, e.url, scope) is None,
        !"./"@.is_prefix_of(e.url),
        !"../"@.is_prefix_of(e.url),
    ensures
        submodules::fetch_url(cfg, e, scope) == Err::<Seq<char>, Seq<char>>(
            "submodule "@ + e.name + " has url `"@ + e.url
                + "` and no `submodule_mirror_*` rewrite applies to it. Configure a mirror in pool config that does; the declared url is never fetched from."@,
        ),
{
}

} // verus!
