//! Laws of how `.gitmodules` is read.
use crate::laws::lists;
use crate::laws::text as text_laws;
use crate::submodules;
use crate::submodules::{Key, SubmoduleView};
use crate::text;
use crate::text_lemmas::lacks;
use vstd::prelude::*;

verus! {

/// A line of git's listing is a submodule's key: its name, which may hold dots, the key, and
/// the value, which may hold anything. A line of another section, or without a value, is none.
pub proof fn a_line_is_name_key_value(
    name: Seq<char>,
    key: Seq<char>,
    value: Seq<char>,
    line: Seq<char>,
)
    requires
        lacks(name, '='),
        lacks(key, '='),
        lacks(key, '.'),
    ensures
        submodules::key_of("submodule."@ + name + "."@ + key + "="@ + value) == Some(
            (name, key, value),
        ),
        !"submodule."@.is_prefix_of(line) ==> submodules::key_of(line) is None,
        lacks(line, '=') ==> submodules::key_of(line) is None,
{
    reveal_strlit(".");
    reveal_strlit("=");
    assert("."@ =~= seq!['.']);
    assert("="@ =~= seq!['=']);
    let whole = "submodule."@ + name + "."@ + key + "="@ + value;
    let rest = name + "."@ + key + "="@ + value;
    assert(whole =~= "submodule."@ + rest);
    text_laws::prefix_comes_off(whole, "submodule."@, rest);
    let front = name + "."@ + key;
    assert(lacks(front, '='));
    assert(rest =~= front + seq!['='] + value);
    text_laws::splitting_is_at_the_first(front, '=', value);
    assert(front =~= name + seq!['.'] + key);
    text_laws::splitting_from_the_end_is_at_the_last(name, '.', key);
    if lacks(line, '=') && "submodule."@.is_prefix_of(line) {
        let tail = line.skip("submodule."@.len() as int);
        assert forall|i: int| 0 <= i < tail.len() implies tail[i] != '=' by {
            assert(tail[i] == line[i + "submodule."@.len()]);
        }
        text_laws::splitting_is_at_the_first(tail, '=', tail);
    }
}

/// The keys of a listing are those of its lines, in order.
pub proof fn keys_come_line_by_line(lines: Seq<Seq<char>>)
    ensures
        submodules::keys_in(lines) == lines.filter(
            |l: Seq<char>| submodules::key_of(l) is Some,
        ).map_values(|l: Seq<char>| submodules::key_of(l)->0),
    decreases lines.len(),
{
    let is_key = |l: Seq<char>| submodules::key_of(l) is Some;
    let key = |l: Seq<char>| submodules::key_of(l)->0;
    if lines.len() == 0 {
        lists::lemma_filter_none(is_key);
        assert(lines =~= Seq::empty());
        assert(submodules::keys_in(lines) =~= lines.filter(is_key).map_values(key));
    } else {
        lists::lemma_filter_last(lines, is_key);
        keys_come_line_by_line(lines.drop_last());
        assert(submodules::keys_in(lines) =~= lines.filter(is_key).map_values(key));
    }
}

/// Of a key that is given more than once the last value counts.
pub proof fn the_last_value_counts(keys: Seq<Key>, name: Seq<char>, key: Seq<char>)
    ensures
        submodules::last_of(keys, name, key) matches Some(v) ==> exists|i: int|
            0 <= i < keys.len() && #[trigger] keys[i] == (name, key, v) && forall|j: int|
                i < j < keys.len() ==> !((#[trigger] keys[j]).0 == name && keys[j].1 == key),
        submodules::last_of(keys, name, key) is None ==> forall|j: int|
            0 <= j < keys.len() ==> !((#[trigger] keys[j]).0 == name && keys[j].1 == key),
    decreases keys.len(),
{
    if keys.len() > 0 {
        let rest = keys.drop_last();
        let last = keys.last();
        assert(keys[keys.len() - 1] == last);
        if last.0 == name && last.1 == key {
            assert(keys[keys.len() - 1] == (name, key, last.2));
        } else {
            the_last_value_counts(rest, name, key);
            if let Some(v) = submodules::last_of(rest, name, key) {
                let i = choose|i: int|
                    0 <= i < rest.len() && #[trigger] rest[i] == (name, key, v) && forall|j: int|
                        i < j < rest.len() ==> !((#[trigger] rest[j]).0 == name && rest[j].1
                            == key);
                assert(keys[i] == (name, key, v));
                assert forall|j: int| i < j < keys.len() implies !((#[trigger] keys[j]).0 == name
                    && keys[j].1 == key) by {
                    if j < rest.len() {
                        assert(rest[j] == keys[j]);
                    }
                }
            } else {
                assert forall|j: int| 0 <= j < keys.len() implies !((#[trigger] keys[j]).0 == name
                    && keys[j].1 == key) by {
                    if j < rest.len() {
                        assert(rest[j] == keys[j]);
                    }
                }
            }
        }
    }
}

/// Of a key that may be given more than once all values count, in order.
pub proof fn all_values_count(keys: Seq<Key>, name: Seq<char>, key: Seq<char>)
    ensures
        submodules::all_of(keys, name, key) == keys.filter(
            |k: Key| k.0 == name && k.1 == key,
        ).map_values(|k: Key| k.2),
    decreases keys.len(),
{
    let it = |k: Key| k.0 == name && k.1 == key;
    let value = |k: Key| k.2;
    if keys.len() == 0 {
        lists::lemma_filter_none(it);
        assert(keys =~= Seq::empty());
        assert(submodules::all_of(keys, name, key) =~= keys.filter(it).map_values(value));
    } else {
        lists::lemma_filter_last(keys, it);
        all_values_count(keys.drop_last(), name, key);
        assert(submodules::all_of(keys, name, key) =~= keys.filter(it).map_values(value));
    }
}

proof fn lemma_names(keys: Seq<Key>, name: Seq<char>)
    ensures
        submodules::names_in(keys).contains(name) <==> exists|i: int|
            0 <= i < keys.len() && (#[trigger] keys[i]).0 == name,
    decreases keys.len(),
{
    if keys.len() > 0 {
        let rest = keys.drop_last();
        let before = submodules::names_in(rest);
        let all = submodules::names_in(keys);
        lemma_names(rest, name);
        assert(keys[keys.len() - 1] == keys.last());
        if before.contains(name) {
            let i = choose|i: int| 0 <= i < before.len() && before[i] == name;
            assert(all[i] == name);
            let k = choose|k: int| 0 <= k < rest.len() && (#[trigger] rest[k]).0 == name;
            assert(keys[k] == rest[k]);
        }
        if !before.contains(keys.last().0) {
            assert(all[before.len() as int] == keys.last().0);
        }
        if all.contains(name) && !before.contains(name) {
            let i = choose|i: int| 0 <= i < all.len() && all[i] == name;
            assert(i == before.len());
        }
        if exists|i: int| 0 <= i < keys.len() && (#[trigger] keys[i]).0 == name {
            let i = choose|i: int| 0 <= i < keys.len() && (#[trigger] keys[i]).0 == name;
            if i < rest.len() {
                assert(rest[i] == keys[i]);
            }
        }
    }
}

proof fn lemma_modules(keys: Seq<Key>, names: Seq<Seq<char>>, m: SubmoduleView)
    ensures
        submodules::modules_of(keys, names).contains(m) <==> names.contains(m.name)
            && submodules::module_of(keys, m.name) == Some(m),
    decreases names.len(),
{
    if names.len() > 0 {
        let rest = names.drop_last();
        let before = submodules::modules_of(keys, rest);
        let all = submodules::modules_of(keys, names);
        let last = names.last();
        lemma_modules(keys, rest, m);
        assert(names[names.len() - 1] == last);
        if rest.contains(m.name) {
            let i = choose|i: int| 0 <= i < rest.len() && rest[i] == m.name;
            assert(names[i] == m.name);
        }
        if names.contains(m.name) && !rest.contains(m.name) {
            let i = choose|i: int| 0 <= i < names.len() && names[i] == m.name;
            if i < rest.len() {
                assert(rest[i] == m.name);
            }
        }
        if before.contains(m) {
            let i = choose|i: int| 0 <= i < before.len() && before[i] == m;
            assert(all[i] == m);
        }
        if submodules::module_of(keys, last) == Some(m) {
            assert(all[before.len() as int] == m);
        }
        if all.contains(m) && !before.contains(m) {
            let i = choose|i: int| 0 <= i < all.len() && all[i] == m;
            assert(i == before.len());
        }
    }
}

/// A submodule is declared exactly where both a path and a URL are given under its name. Its
/// path and its URL are the last ones given, its tags are all that are given.
pub proof fn a_submodule_has_a_path_and_a_url(raw: Seq<char>, m: SubmoduleView)
    ensures
        submodules::declared(raw).contains(m) <==> ({
            let keys = submodules::keys_in(text::lines_of(raw));
            &&& submodules::last_of(keys, m.name, "path"@) == Some(m.path)
            &&& submodules::last_of(keys, m.name, "url"@) == Some(m.url)
            &&& m.tags == submodules::all_of(keys, m.name, "worktreepooltag"@)
        }),
{
    let keys = submodules::keys_of(raw);
    lemma_modules(keys, submodules::names_in(keys), m);
    lemma_names(keys, m.name);
    the_last_value_counts(keys, m.name, "path"@);
}

/// The submodules are taken in the order of their paths, each once.
pub proof fn submodules_go_by_path(
    entries: Seq<SubmoduleView>,
    raw: Seq<char>,
    i: int,
    j: int,
    m: SubmoduleView,
)
    requires
        submodules::lists_declared(entries, raw),
    ensures
        0 <= i < j < entries.len() ==> text::ordered(entries[i].path, entries[j].path),
        entries.contains(m) <==> submodules::declared(raw).contains(m),
        entries.len() == submodules::declared(raw).len(),
{
    lists::lemma_same_len(entries, submodules::declared(raw));
}

/// A submodule is skipped exactly at top level and where one of its tags is excluded; the
/// others are kept. Both lists keep the order.
pub proof fn tagged_submodules_are_skipped_at_the_top(
    entries: Seq<SubmoduleView>,
    tags: Seq<Seq<char>>,
    scope: Seq<char>,
)
    ensures
        submodules::those(entries, tags, scope, true) == entries.filter(
            |e: SubmoduleView|
                scope.len() == 0 && exists|i: int|
                    0 <= i < e.tags.len() && tags.contains(#[trigger] e.tags[i]),
        ),
        submodules::those(entries, tags, scope, false) == entries.filter(
            |e: SubmoduleView|
                scope.len() > 0 || forall|i: int|
                    0 <= i < e.tags.len() ==> !tags.contains(#[trigger] e.tags[i]),
        ),
    decreases entries.len(),
{
    let out = |e: SubmoduleView|
        scope.len() == 0 && exists|i: int|
            0 <= i < e.tags.len() && tags.contains(#[trigger] e.tags[i]);
    let stays = |e: SubmoduleView|
        scope.len() > 0 || forall|i: int|
            0 <= i < e.tags.len() ==> !tags.contains(#[trigger] e.tags[i]);
    if entries.len() == 0 {
        lists::lemma_filter_none(out);
        lists::lemma_filter_none(stays);
        assert(entries =~= Seq::empty());
        assert(submodules::those(entries, tags, scope, true) =~= entries.filter(out));
        assert(submodules::those(entries, tags, scope, false) =~= entries.filter(stays));
    } else {
        lists::lemma_filter_last(entries, out);
        lists::lemma_filter_last(entries, stays);
        tagged_submodules_are_skipped_at_the_top(entries.drop_last(), tags, scope);
    }
}

/// The place of the submodules within a submodule lies below its name, and below its parents'.
pub proof fn scopes_nest(scope: Seq<char>, name: Seq<char>)
    ensures
        submodules::nested_scope(Seq::empty(), name) == name + "/modules"@,
        scope.len() > 0 ==> submodules::nested_scope(scope, name) == scope + "/"@ + name
            + "/modules"@,
{
}

/// The stranded directories of a listing are its paths that end in a separator, without it.
pub proof fn stranded_paths_end_in_a_separator(paths: Seq<Seq<char>>)
    ensures
        submodules::stranded(paths) == paths.filter(
            |p: Seq<char>| p.len() > 0 && p.last() == '/',
        ).map_values(|p: Seq<char>| p.drop_last()),
    decreases paths.len(),
{
    let is_dir = |p: Seq<char>| p.len() > 0 && p.last() == '/';
    let bare = |p: Seq<char>| p.drop_last();
    if paths.len() == 0 {
        lists::lemma_filter_none(is_dir);
        assert(paths =~= Seq::empty());
        assert(submodules::stranded(paths) =~= paths.filter(is_dir).map_values(bare));
    } else {
        lists::lemma_filter_last(paths, is_dir);
        stranded_paths_end_in_a_separator(paths.drop_last());
        let p = paths.last();
        reveal_strlit("/");
        if p.len() > 0 && p.last() == '/' {
            assert("/"@ =~= p.subrange(p.len() - 1, p.len() as int));
            assert("/"@.is_suffix_of(p));
            assert(p.take(p.len() - 1) =~= p.drop_last());
        } else if "/"@.is_suffix_of(p) {
            assert(p.subrange(p.len() - 1, p.len() as int)[0] == p.last());
        }
        assert(submodules::stranded(paths) =~= paths.filter(is_dir).map_values(bare));
    }
}

} // verus!
