//! Laws of the admin verbs.
use crate::admin;
use crate::admin::{InitReply, MutexFile, MutexView};
use crate::fs_paths;
use crate::laws::lists;
use crate::mutex::LockTry;
use crate::output;
use crate::output::{Failure, Outcome, Output};
use crate::submodules::Key;
use crate::text;
use vstd::prelude::*;

verus! {

proof fn lemma_all_rows(pool_root: Seq<char>, files: Seq<MutexFile>)
    ensures
        admin::mutexes(pool_root, files, None) == files.map_values(
            |f: MutexFile| admin::mutex_of(pool_root, f),
        ),
    decreases files.len(),
{
    let row = |f: MutexFile| admin::mutex_of(pool_root, f);
    if files.len() > 0 {
        lemma_all_rows(pool_root, files.drop_last());
        assert(files.map_values(row) =~= files.drop_last().map_values(row).push(
            row(files.last()),
        ));
    } else {
        assert(files.map_values(row) =~= Seq::empty());
    }
}

proof fn lemma_rows_of_one(pool_root: Seq<char>, files: Seq<MutexFile>, slot: Seq<char>)
    ensures
        admin::mutexes(pool_root, files, Some(slot)) == admin::mutexes(
            pool_root,
            files,
            None,
        ).filter(|m: MutexView| m.slot == slot),
    decreases files.len(),
{
    let asked = |m: MutexView| m.slot == slot;
    let all = admin::mutexes(pool_root, files, None);
    if files.len() > 0 {
        lemma_rows_of_one(pool_root, files.drop_last(), slot);
        lists::lemma_filter_last(all, asked);
        assert(all.drop_last() =~= admin::mutexes(pool_root, files.drop_last(), None));
    } else {
        lists::lemma_filter_none(asked);
        assert(all =~= Seq::empty());
        assert(all.filter(asked) =~= Seq::empty());
    }
}

/// The report of all init mutexes has one row for each file in their directory: the slot is
/// the file's name without `.lock`, the path is the file's, and the mutex is held exactly
/// where the try showed the lock busy or failing. There is no other row.
pub proof fn every_mutex_file_has_one_row(
    states: Seq<MutexView>,
    root: Seq<char>,
    files: Seq<MutexFile>,
)
    requires
        admin::shows(states, root, files, None),
        root.len() > 0,
        root.last() != '/',
        forall|i: int| 0 <= i < files.len() ==> (#[trigger] files[i]).name@.len() > 0
            && files[i].name@[0] != '/',
    ensures
        states.to_multiset() == files.map_values(
            |f: MutexFile|
                MutexView {
                    slot: if f.name@.len() >= 5 && f.name@.skip(f.name@.len() - 5) == ".lock"@ {
                        f.name@.take(f.name@.len() - 5)
                    } else {
                        f.name@
                    },
                    path: root + "/.meta/init/"@ + f.name@,
                    held: match f.tried {
                        LockTry::Busy => true,
                        LockTry::Failed(_) => true,
                        _ => false,
                    },
                },
        ).to_multiset(),
        states.len() == files.len(),
{
    lemma_all_rows(root, files);
    let row = |f: MutexFile|
        MutexView {
            slot: if f.name@.len() >= 5 && f.name@.skip(f.name@.len() - 5) == ".lock"@ {
                f.name@.take(f.name@.len() - 5)
            } else {
                f.name@
            },
            path: root + "/.meta/init/"@ + f.name@,
            held: match f.tried {
                LockTry::Busy => true,
                LockTry::Failed(_) => true,
                _ => false,
            },
        };
    reveal_strlit(".lock");
    reveal_strlit(".meta/init");
    reveal_strlit("/.meta/init/");
    reveal_strlit("/");
    assert forall|i: int| 0 <= i < files.len() implies admin::mutex_of(
        root,
        #[trigger] files[i],
    ) == row(files[i]) by {
        let name = files[i].name@;
        assert(root + "/"@ + ".meta/init"@ + "/"@ + name =~= root + "/.meta/init/"@ + name);
        if name.len() >= 5 && name.skip(name.len() - 5) == ".lock"@ {
            assert(".lock"@.is_suffix_of(name));
        } else if ".lock"@.is_suffix_of(name) {
            assert(name.skip(name.len() - 5) =~= ".lock"@);
        }
    }
    assert(admin::mutexes(root, files, None) =~= files.map_values(row));
    lists::lemma_same_len(states, admin::mutexes(root, files, None));
}

/// The report of one slot has, of each row of the report of all, as many as that has where
/// the row is of that slot, and none where it is of another.
pub proof fn the_report_of_one_is_its_part_of_all(
    one: Seq<MutexView>,
    all: Seq<MutexView>,
    root: Seq<char>,
    files: Seq<MutexFile>,
    slot: Seq<char>,
    row: MutexView,
)
    requires
        admin::shows(one, root, files, Some(slot)),
        admin::shows(all, root, files, None),
    ensures
        one.to_multiset().count(row) == if row.slot == slot {
            all.to_multiset().count(row)
        } else {
            0
        },
        one.contains(row) <==> all.contains(row) && row.slot == slot,
{
    lemma_rows_of_one(root, files, slot);
    lists::lemma_filter_counts(
        admin::mutexes(root, files, None),
        |m: MutexView| m.slot == slot,
        row,
    );
    one.to_multiset_ensures();
    all.to_multiset_ensures();
}

/// Both reports are in the order of their slots' names.
pub proof fn reports_are_in_order(
    states: Seq<MutexView>,
    root: Seq<char>,
    files: Seq<MutexFile>,
    target: Option<Seq<char>>,
    i: int,
    j: int,
)
    requires
        admin::shows(states, root, files, target),
        0 <= i < j < states.len(),
    ensures
        text::ordered(states[i].slot, states[j].slot),
{
}

/// The fields of the report: where the mutexes lie, a row for each, and the pool's own, which
/// is null where there is none.
pub proof fn mutexes_are_reported_as(root: Seq<char>, t: LockTry, m: MutexView)
    ensures
        admin::mutex_text(m) == output::object_text(
            seq![
                ("held"@, if m.held {
                    "true"@
                } else {
                    "false"@
                }),
                ("path"@, output::json_quote(m.path)),
                ("slot"@, output::json_quote(m.slot)),
            ],
        ),
        admin::pool_mutex_text(root, None) == "null"@,
        admin::pool_mutex_text(root, Some(t)) == output::object_text(
            seq![
                ("held"@, if t is Busy || t is Failed {
                    "true"@
                } else {
                    "false"@
                }),
                (
                    "path"@,
                    output::json_quote(fs_paths::path_in(root, ".meta/pool.lock"@)),
                ),
            ],
        ),
{
}

/// The report holds the directory, every row in order, and the pool's mutex.
pub proof fn the_report_holds_every_row(
    root: Seq<char>,
    pool_mutex: Option<LockTry>,
    states: Seq<MutexView>,
)
    ensures
        admin::unstick_text(root, pool_mutex, states) == output::object_text(
            seq![
                (
                    "init_dir"@,
                    output::json_quote(fs_paths::path_in(root, ".meta/init"@)),
                ),
                (
                    "init_mutexes"@,
                    output::array_text(states.map_values(|m: MutexView| admin::mutex_text(m))),
                ),
                ("pool_mutex"@, admin::pool_mutex_text(root, pool_mutex)),
            ],
        ),
{
}

/// A directory of mutexes that is not there has none; one that cannot be read is an error.
pub proof fn unreadable_mutexes_are_told(root: Seq<char>, why: String, files: Vec<MutexFile>)
    ensures
        admin::init_files(root, InitReply::Missing) == Ok::<Seq<MutexFile>, Seq<char>>(Seq::empty()),
        admin::init_files(root, InitReply::Files(files)) == Ok::<Seq<MutexFile>, Seq<char>>(files@),
        admin::init_files(root, InitReply::Failed(why)) == Err::<Seq<MutexFile>, Seq<char>>(
            "read_dir "@ + fs_paths::path_in(root, ".meta/init"@) + ": "@ + why@,
        ),
        admin::init_files(root, InitReply::Broken(why)) == Err::<Seq<MutexFile>, Seq<char>>(why@),
{
}

/// A key is unknown where it begins like the pool's own and is not the one that there is; the
/// tags are those that are. Both are found in the order of the file, each once.
pub proof fn keys_are_validated(keys: Seq<Key>)
    ensures
        admin::tag_count(keys) == keys.filter(|k: Key| k.1 == "worktreepooltag"@).len(),
        admin::unknown_keys(keys) == keys.filter(
            |k: Key|
                k.1 != "worktreepooltag"@ && k.1.len() >= 12 && k.1.take(12) == "worktreepool"@,
        ).map_values(|k: Key| "submodule."@ + k.0 + "."@ + k.1),
    decreases keys.len(),
{
    let tag = |k: Key| k.1 == "worktreepooltag"@;
    let odd = |k: Key|
        k.1 != "worktreepooltag"@ && k.1.len() >= 12 && k.1.take(12) == "worktreepool"@;
    let name = |k: Key| "submodule."@ + k.0 + "."@ + k.1;
    reveal_strlit("worktreepool");
    if keys.len() == 0 {
        lists::lemma_filter_none(tag);
        lists::lemma_filter_none(odd);
        assert(keys =~= Seq::empty());
        assert(admin::unknown_keys(keys) =~= keys.filter(odd).map_values(name));
    } else {
        lists::lemma_filter_last(keys, tag);
        lists::lemma_filter_last(keys, odd);
        keys_are_validated(keys.drop_last());
        let k = keys.last().1;
        if "worktreepool"@.is_prefix_of(k) {
            assert(k.take(12) =~= "worktreepool"@);
        } else if k.len() >= 12 && k.take(12) == "worktreepool"@ {
            assert("worktreepool"@ =~= k.subrange(0, 12));
        }
        assert(admin::unknown_keys(keys) =~= keys.filter(odd).map_values(name));
    }
}

/// A validation reports the file, how many tags it has and which keys are unknown; it fails
/// exactly where some are, and names them.
pub proof fn a_validation_comes_to(o: Outcome, file: Seq<char>, raw: Seq<char>)
    requires
        admin::validates(o, file, raw),
    ensures
        ({
            let keys = crate::submodules::keys_in(text::lines_of(raw));
            let unknown = admin::unknown_keys(keys);
            &&& o.output matches Output::Json(j)
            &&& j@ == output::object_text(
                seq![
                    ("gitmodules"@, output::json_quote(file)),
                    ("tag_entries"@, text::decimal(admin::tag_count(keys))),
                    (
                        "unknown_keys"@,
                        output::array_text(
                            unknown.map_values(|k: Seq<char>| output::json_quote(k)),
                        ),
                    ),
                ],
            )
            &&& unknown.len() == 0 ==> o.failure is None
            &&& unknown.len() > 0 ==> (o.failure matches Some(Failure::Reported(e)) && e.kind is None
                && e.message@ == text::decimal(unknown.len()) + " unknown worktreePool* key(s) in "@
                + file + ": "@ + text::joined(unknown, ", "@)
                + " — did you mean 'worktreePoolTag'?"@)
        }),
{
}

/// A row's path is that of the file in the directory of init mutexes, wherever the pool lies.
pub proof fn a_row_has_its_files_path(root: Seq<char>, f: MutexFile)
    ensures
        admin::mutex_of(root, f).path == fs_paths::path_in(
            fs_paths::path_in(root, ".meta/init"@),
            f.name@,
        ),
        admin::mutex_of(root, f).held <==> f.tried is Busy || f.tried is Failed,
{
}

} // verus!
