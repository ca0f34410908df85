//! Admin verbs: `unstick` (report the state of the mutexes) and `validate-gitmodules`.
//! Both report JSON.
//!
//! Leftover mutex files mean nothing; the OS releases a lock on process death. So
//! `unstick` only reports which mutexes a live process holds. There is no force-clear.
use crate::cli::UnstickArgs;
use crate::config::PoolConfig;
use crate::error;
use crate::error::Error;
use crate::fs_paths;
use crate::git;
use crate::git::GitReply;
use crate::mutex;
use crate::mutex::LockTry;
use crate::order;
use crate::output;
use crate::output::{Failure, Json, Outcome, Output};
use crate::submodules;
use crate::text;
use crate::text_lemmas;
use vstd::prelude::*;

verus! {

// ---------------------------------------------------------------------------
// unstick
// ---------------------------------------------------------------------------

/// A file in the directory of init mutexes, and what a try to take its lock gave.
#[derive(Debug)]
pub struct MutexFile {
    pub name: String,
    pub tried: LockTry,
}

/// What came of listing the directory of init mutexes.
#[derive(Debug)]
pub enum InitReply {
    /// There is no such directory.
    Missing,
    /// It could not be opened; why.
    Failed(String),
    /// An item could not be read; why.
    Broken(String),
    Files(Vec<MutexFile>),
}

/// The state of an init mutex, as text.
#[verifier::ext_equal]
pub struct MutexView {
    pub slot: Seq<char>,
    pub path: Seq<char>,
    pub held: bool,
}

/// The state of an init mutex.
#[derive(Debug)]
pub struct MutexState {
    pub slot: String,
    pub path: String,
    pub held: bool,
}

impl View for MutexState {
    type V = MutexView;

    open spec fn view(&self) -> MutexView {
        MutexView { slot: self.slot@, path: self.path@, held: self.held }
    }
}

/// States as text.
pub open spec fn state_views(v: Seq<MutexState>) -> Seq<MutexView> {
    v.map_values(|s: MutexState| s@)
}

/// Whether a try shows that some process holds the lock.
pub open spec fn shows_held(t: LockTry) -> bool {
    t is Busy || t is Failed
}

/// The state of the mutex in a file. Its slot is the file's name without `.lock`.
pub open spec fn mutex_of(pool_root: Seq<char>, f: MutexFile) -> MutexView {
    MutexView {
        slot: text::without_suffix(f.name@, ".lock"@),
        path: fs_paths::path_in(fs_paths::init_dir_path(pool_root), f.name@),
        held: shows_held(f.tried),
    }
}

/// The states of the mutexes of one slot, or of all.
pub open spec fn mutexes(
    pool_root: Seq<char>,
    files: Seq<MutexFile>,
    target: Option<Seq<char>>,
) -> Seq<MutexView>
    decreases files.len(),
{
    if files.len() == 0 {
        seq![]
    } else {
        let before = mutexes(pool_root, files.drop_last(), target);
        let m = mutex_of(pool_root, files.last());
        if target is Some && target != Some(m.slot) {
            before
        } else {
            before.push(m)
        }
    }
}

/// In order of their slots.
pub open spec fn by_slot(s: Seq<MutexView>) -> bool {
    forall|i: int, j: int| 0 <= i < j < s.len() ==> text::ordered(s[i].slot, s[j].slot)
}

/// The report of an init mutex.
pub open spec fn mutex_text(m: MutexView) -> Seq<char> {
    output::object_text(
        seq![
            ("held"@, output::bool_text(m.held)),
            ("path"@, output::json_quote(m.path)),
            ("slot"@, output::json_quote(m.slot)),
        ],
    )
}

/// The report of the pool-wide mutex: null where its file is not there, which is not the
/// same as a mutex that is free.
pub open spec fn pool_mutex_text(pool_root: Seq<char>, tried: Option<LockTry>) -> Seq<char> {
    match tried {
        None => "null"@,
        Some(t) => output::object_text(
            seq![
                ("held"@, output::bool_text(shows_held(t))),
                ("path"@, output::json_quote(fs_paths::pool_mutex_path(pool_root))),
            ],
        ),
    }
}

/// The report of `unstick`.
pub open spec fn unstick_text(
    pool_root: Seq<char>,
    pool_mutex: Option<LockTry>,
    states: Seq<MutexView>,
) -> Seq<char> {
    output::object_text(
        seq![
            ("init_dir"@, output::json_quote(fs_paths::init_dir_path(pool_root))),
            (
                "init_mutexes"@,
                output::array_text(states.map_values(|m: MutexView| mutex_text(m))),
            ),
            ("pool_mutex"@, pool_mutex_text(pool_root, pool_mutex)),
        ],
    )
}

/// `states` are the states of the mutexes, in order of their slots.
pub open spec fn shows(
    states: Seq<MutexView>,
    pool_root: Seq<char>,
    files: Seq<MutexFile>,
    target: Option<Seq<char>>,
) -> bool {
    by_slot(states) && states.to_multiset() == mutexes(pool_root, files, target).to_multiset()
}

fn insert_by_slot(v: &mut Vec<MutexState>, e: MutexState)
    requires
        by_slot(state_views(old(v)@)),
    ensures
        by_slot(state_views(final(v)@)),
        state_views(final(v)@).to_multiset() == state_views(old(v)@).to_multiset().insert(e@),
{
    let ghost before = state_views(v@);
    let ghost added = e@;
    let mut i: usize = v.len();
    while i > 0 && !text::in_order(v[i - 1].slot.as_str(), e.slot.as_str())
        invariant
            before == state_views(v@),
            added == e@,
            i <= v.len(),
            forall|j: int| i <= j < v.len() ==> !text::ordered(before[j].slot, added.slot),
        decreases i,
    {
        i = i - 1;
    }
    v.insert(i, e);
    proof {
        let le = |a: MutexView, b: MutexView| text::ordered(a.slot, b.slot);
        assert forall|a: MutexView, b: MutexView| #[trigger] le(a, b) || le(b, a) by {
            text_lemmas::lemma_ordered_total(a.slot, b.slot);
        }
        assert forall|a: MutexView, b: MutexView, c: MutexView|
            #[trigger] le(a, b) && #[trigger] le(b, c) implies le(a, c) by {
            text_lemmas::lemma_ordered_transitive(a.slot, b.slot, c.slot);
        }
        assert(order::sorted(before, le));
        order::lemma_insert_sorted(before, i as int, added, le);
        let after = state_views(v@);
        assert(after =~= before.insert(i as int, added));
        assert forall|x: int, y: int| 0 <= x < y < after.len() implies text::ordered(
            after[x].slot,
            after[y].slot,
        ) by {
            assert(le(after[x], after[y]));
        }
    }
}

/// Whether the report covers the mutex in a file of this name: all of them, or one slot's.
pub fn covers(args: &UnstickArgs, name: &str) -> (r: bool)
    ensures
        r == (match args.slot {
            Some(slot) => slot@ == text::without_suffix(name@, ".lock"@),
            None => true,
        }),
{
    match &args.slot {
        Some(slot) => text::same(slot.as_str(), text::trim_suffix(name, ".lock")),
        None => true,
    }
}

fn collect(pool_root: &str, files: &Vec<MutexFile>, args: &UnstickArgs) -> (r: Vec<MutexState>)
    ensures
        shows(state_views(r@), pool_root@, files@, text::opt_text(args.slot)),
{
    let ghost t = text::opt_text(args.slot);
    let dir = fs_paths::init_dir(pool_root);
    let mut out: Vec<MutexState> = Vec::new();
    let mut i: usize = 0;
    assert(state_views(out@) =~= mutexes(pool_root@, files@.take(0), t));
    while i < files.len()
        invariant
            i <= files.len(),
            t == text::opt_text(args.slot),
            dir@ == fs_paths::init_dir_path(pool_root@),
            by_slot(state_views(out@)),
            state_views(out@).to_multiset() == mutexes(
                pool_root@,
                files@.take(i as int),
                t,
            ).to_multiset(),
        decreases files.len() - i,
    {
        let ghost before = mutexes(pool_root@, files@.take(i as int), t);
        let ghost m = mutex_of(pool_root@, files@[i as int]);
        assert(files@.take(i + 1).drop_last() =~= files@.take(i as int));
        assert(files@.take(i + 1).last() == files@[i as int]);
        let name = files[i].name.as_str();
        if covers(args, name) {
            let state = MutexState {
                slot: text::own(text::trim_suffix(name, ".lock")),
                path: fs_paths::join(dir.as_str(), name),
                held: mutex::is_held(&files[i].tried),
            };
            insert_by_slot(&mut out, state);
            proof {
                vstd::seq_lib::to_multiset_build(before, m);
            }
        }
        i = i + 1;
    }
    assert(files@.take(i as int) =~= files@);
    out
}

fn mutex_json(m: &MutexState) -> (r: Json)
    ensures
        r@ == mutex_text(m@),
{
    let mut fields: Vec<(&str, Json)> = Vec::new();
    fields.push(("held", Json::boolean(m.held)));
    fields.push(("path", output::path(m.path.as_str())));
    fields.push(("slot", Json::string(m.slot.as_str())));
    assert(output::field_views(fields@) =~= seq![
        ("held"@, output::bool_text(m.held)),
        ("path"@, output::json_quote(m.path@)),
        ("slot"@, output::json_quote(m.slot@)),
    ]);
    Json::object(fields)
}

fn pool_mutex_json(pool_root: &str, tried: &Option<LockTry>) -> (r: Json)
    ensures
        r@ == pool_mutex_text(pool_root@, *tried),
{
    match tried {
        None => Json::null(),
        Some(t) => {
            let path = fs_paths::pool_mutex(pool_root);
            let mut fields: Vec<(&str, Json)> = Vec::new();
            fields.push(("held", Json::boolean(mutex::is_held(t))));
            fields.push(("path", output::path(path.as_str())));
            assert(output::field_views(fields@) =~= seq![
                ("held"@, output::bool_text(shows_held(*t))),
                ("path"@, output::json_quote(path@)),
            ]);
            Json::object(fields)
        },
    }
}

/// The files in the directory of init mutexes, or a message.
pub open spec fn init_files(pool_root: Seq<char>, reply: InitReply) -> Result<
    Seq<MutexFile>,
    Seq<char>,
> {
    match reply {
        InitReply::Missing => Ok(seq![]),
        InitReply::Failed(why) => Err(
            "read_dir "@ + fs_paths::init_dir_path(pool_root) + ": "@ + why@,
        ),
        InitReply::Broken(why) => Err(why@),
        InitReply::Files(v) => Ok(v@),
    }
}

/// The outcome is the report of these mutexes.
pub open spec fn reports_mutexes(
    o: Outcome,
    pool_root: Seq<char>,
    target: Option<Seq<char>>,
    pool_mutex: Option<LockTry>,
    files: Seq<MutexFile>,
) -> bool {
    o.failure is None && exists|states: Seq<MutexView>| #[trigger]
        shows(states, pool_root, files, target) && (o.output matches Output::Json(j) && j@
            == unstick_text(pool_root, pool_mutex, states))
}

fn report_mutexes(
    pool_root: &str,
    args: &UnstickArgs,
    pool_mutex: &Option<LockTry>,
    files: &Vec<MutexFile>,
) -> (o: Outcome)
    ensures
        reports_mutexes(o, pool_root@, text::opt_text(args.slot), *pool_mutex, files@),
{
    let states = collect(pool_root, files, args);
    let ghost views = state_views(states@);
    let ghost want = views.map_values(|m: MutexView| mutex_text(m));
    let mut items: Vec<Json> = Vec::new();
    let mut i: usize = 0;
    assert(output::json_texts(items@) =~= want.take(0));
    while i < states.len()
        invariant
            i <= states.len(),
            views == state_views(states@),
            want == views.map_values(|m: MutexView| mutex_text(m)),
            output::json_texts(items@) == want.take(i as int),
        decreases states.len() - i,
    {
        let ghost before = output::json_texts(items@);
        let j = mutex_json(&states[i]);
        let ghost t = j@;
        items.push(j);
        assert(t == want[i as int]);
        assert(output::json_texts(items@) =~= before.push(t));
        assert(want.take(i + 1) =~= want.take(i as int).push(t));
        i = i + 1;
    }
    assert(want.take(i as int) =~= want);
    let dir = fs_paths::init_dir(pool_root);
    let mut fields: Vec<(&str, Json)> = Vec::new();
    fields.push(("init_dir", output::path(dir.as_str())));
    fields.push(("init_mutexes", Json::array(items)));
    fields.push(("pool_mutex", pool_mutex_json(pool_root, pool_mutex)));
    assert(output::field_views(fields@) =~= seq![
        ("init_dir"@, output::json_quote(dir@)),
        ("init_mutexes"@, output::array_text(want)),
        ("pool_mutex"@, pool_mutex_text(pool_root@, *pool_mutex)),
    ]);
    assert(shows(views, pool_root@, files@, text::opt_text(args.slot)));
    Outcome::json(Json::object(fields))
}

/// The report of `unstick`: the pool-wide mutex (`None` where its file is not there) and
/// the init mutexes, of all slots or of one.
pub fn unstick(
    pool_root: &str,
    args: &UnstickArgs,
    pool_mutex: &Option<LockTry>,
    init: &InitReply,
) -> (r: Result<Outcome, Error>)
    ensures
        match (r, init_files(pool_root@, *init)) {
            (Ok(o), Ok(files)) => reports_mutexes(
                o,
                pool_root@,
                text::opt_text(args.slot),
                *pool_mutex,
                files,
            ),
            (Err(e), Err(m)) => error::told(e, m),
            _ => false,
        },
{
    match init {
        InitReply::Missing => {
            let none: Vec<MutexFile> = Vec::new();
            assert(none@ =~= seq![]);
            Ok(report_mutexes(pool_root, args, pool_mutex, &none))
        },
        InitReply::Failed(why) => {
            let mut doing = text::own("read_dir ");
            doing.append(fs_paths::init_dir(pool_root).as_str());
            Err(Error::new(text::own(why.as_str())).context(doing.as_str()))
        },
        InitReply::Broken(why) => Err(Error::new(text::own(why.as_str()))),
        InitReply::Files(files) => Ok(report_mutexes(pool_root, args, pool_mutex, files)),
    }
}

// ---------------------------------------------------------------------------
// validate-gitmodules
// ---------------------------------------------------------------------------

/// The `.gitmodules` of the source's working tree.
pub open spec fn source_modules(cfg: PoolConfig) -> Seq<char> {
    fs_paths::path_in(cfg@.source, ".gitmodules"@)
}

/// How often a tag is given.
pub open spec fn tag_count(keys: Seq<submodules::Key>) -> nat
    decreases keys.len(),
{
    if keys.len() == 0 {
        0
    } else {
        tag_count(keys.drop_last()) + if keys.last().1 == "worktreepooltag"@ {
            1nat
        } else {
            0nat
        }
    }
}

/// The keys that look like the pool's own but are not.
pub open spec fn unknown_keys(keys: Seq<submodules::Key>) -> Seq<Seq<char>>
    decreases keys.len(),
{
    if keys.len() == 0 {
        seq![]
    } else {
        let before = unknown_keys(keys.drop_last());
        let (name, key, _) = keys.last();
        if key != "worktreepooltag"@ && "worktreepool"@.is_prefix_of(key) {
            before.push("submodule."@ + name + "."@ + key)
        } else {
            before
        }
    }
}

/// The report of `validate-gitmodules`.
pub open spec fn validation_text(file: Option<Seq<char>>, tags: nat, unknown: Seq<Seq<char>>) -> Seq<
    char,
> {
    output::object_text(
        seq![
            ("gitmodules"@, output::opt_text(file)),
            ("tag_entries"@, text::decimal(tags)),
            (
                "unknown_keys"@,
                output::array_text(unknown.map_values(|k: Seq<char>| output::json_quote(k))),
            ),
        ],
    )
}

/// What the operator is told of unknown keys.
pub open spec fn unknown_message(file: Seq<char>, unknown: Seq<Seq<char>>) -> Seq<char> {
    text::decimal(unknown.len()) + " unknown worktreePool* key(s) in "@ + file + ": "@ + text::joined(
        unknown,
        ", "@,
    ) + " — did you mean 'worktreePoolTag'?"@
}

/// The outcome of a validation: the report, which also fails where keys are unknown.
pub open spec fn validates(o: Outcome, file: Seq<char>, raw: Seq<char>) -> bool {
    let keys = submodules::keys_of(raw);
    let unknown = unknown_keys(keys);
    &&& o.output matches Output::Json(j)
    &&& j@ == validation_text(Some(file), tag_count(keys), unknown)
    &&& if unknown.len() == 0 {
        o.failure is None
    } else {
        o.failure matches Some(Failure::Reported(e)) && error::told(
            e,
            unknown_message(file, unknown),
        )
    }
}

fn validation_json(file: Option<&str>, tags: u64, unknown: &Vec<String>) -> (r: Json)
    ensures
        r@ == validation_text(text::opt_slice(file), tags as nat, text::texts(unknown@)),
{
    let ghost want = text::texts(unknown@).map_values(|k: Seq<char>| output::json_quote(k));
    let mut items: Vec<Json> = Vec::new();
    let mut i: usize = 0;
    assert(output::json_texts(items@) =~= want.take(0));
    while i < unknown.len()
        invariant
            i <= unknown.len(),
            want == text::texts(unknown@).map_values(|k: Seq<char>| output::json_quote(k)),
            output::json_texts(items@) == want.take(i as int),
        decreases unknown.len() - i,
    {
        let ghost before = output::json_texts(items@);
        let j = Json::string(unknown[i].as_str());
        let ghost t = j@;
        items.push(j);
        assert(t == want[i as int]);
        assert(output::json_texts(items@) =~= before.push(t));
        assert(want.take(i + 1) =~= want.take(i as int).push(t));
        i = i + 1;
    }
    assert(want.take(i as int) =~= want);
    let mut fields: Vec<(&str, Json)> = Vec::new();
    fields.push(("gitmodules", output::opt_str(file)));
    fields.push(("tag_entries", Json::number(tags)));
    fields.push(("unknown_keys", Json::array(items)));
    assert(output::field_views(fields@) =~= seq![
        ("gitmodules"@, output::opt_text(text::opt_slice(file))),
        ("tag_entries"@, text::decimal(tags as nat)),
        ("unknown_keys"@, output::array_text(want)),
    ]);
    Json::object(fields)
}

fn judge_keys(file: &str, raw: &str) -> (o: Outcome)
    ensures
        validates(o, file@, raw@),
{
    let keys = submodules::iter_keys(raw);
    let ghost all = submodules::keys_of(raw@);
    let mut unknown: Vec<String> = Vec::new();
    let mut tags: usize = 0;
    let mut i: usize = 0;
    assert(keys@.len() == submodules::key_views(keys@).len());
    assert(text::texts(unknown@) =~= unknown_keys(all.take(0)));
    while i < keys.len()
        invariant
            i <= keys.len(),
            submodules::key_views(keys@) == all,
            tags == tag_count(all.take(i as int)),
            tags <= i,
            text::texts(unknown@) == unknown_keys(all.take(i as int)),
        decreases keys.len() - i,
    {
        let (name, key, _value) = keys[i];
        assert(all.take(i + 1).drop_last() =~= all.take(i as int));
        assert(all.take(i + 1).last() == submodules::key_views(keys@)[i as int]);
        assert(all.take(i + 1).last().0 == name@ && all.take(i + 1).last().1 == key@);
        let ghost before = text::texts(unknown@);
        if text::same(key, "worktreepooltag") {
            tags = tags + 1;
        } else if text::starts_with(key, "worktreepool") {
            let mut full = text::own("submodule.");
            full.append(name);
            full.append(".");
            full.append(key);
            let ghost f = full@;
            unknown.push(full);
            assert(text::texts(unknown@) =~= before.push(f));
        }
        i = i + 1;
    }
    assert(all.take(i as int) =~= all);
    let report = validation_json(Some(file), tags as u64, &unknown);
    assert(text::texts(unknown@).len() == unknown@.len());
    if unknown.len() == 0 {
        return Outcome::json(report);
    }
    let mut m = text::to_decimal(unknown.len() as u64);
    m.append(" unknown worktreePool* key(s) in ");
    m.append(file);
    m.append(": ");
    m.append(text::join(&unknown, ", ").as_str());
    m.append(" — did you mean 'worktreePoolTag'?");
    Outcome::json_failing(report, Error::new(m))
}

/// Flags unknown `worktreePool*` keys in the source's `.gitmodules`: git silently accepts
/// misspelled keys. `there` says whether the file is there, and `listing` is the reply to
/// `git::config_file_list` on it. The report has one shape, whether or not it is.
pub fn validate_gitmodules(cfg: &PoolConfig, there: bool, listing: &GitReply) -> (r: Result<
    Outcome,
    Error,
>)
    ensures
        if !there {
            r matches Ok(o) && o.failure is None && (o.output matches Output::Json(j) && j@
                == validation_text(None, 0, seq![]))
        } else {
            match git::checked(
                git::config_file_list_command(cfg@.source, source_modules(*cfg)),
                *listing,
            ) {
                Err(m) => r matches Err(e) && error::told(e, m),
                Ok(raw) => r matches Ok(o) && validates(o, source_modules(*cfg), raw),
            }
        },
{
    if !there {
        let none: Vec<String> = Vec::new();
        assert(text::texts(none@) =~= seq![]);
        return Ok(Outcome::json(validation_json(None, 0, &none)));
    }
    let file = fs_paths::join(cfg.source.as_str(), ".gitmodules");
    match git::config_file_list(cfg.source.as_str(), file.as_str()).check(listing) {
        Err(e) => Err(e),
        Ok(raw) => Ok(judge_keys(file.as_str(), raw.as_str())),
    }
}

// ---------------------------------------------------------------------------
// Laws
// ---------------------------------------------------------------------------

/// Validation fails exactly where a key that begins like the pool's own is not the tag
/// key; and its report is printed either way.
pub proof fn validation_fails_iff_a_key_is_unknown(o: Outcome, file: Seq<char>, raw: Seq<char>)
    requires
        validates(o, file, raw),
    ensures
        o.failure is Some <==> exists|i: int|
            0 <= i < submodules::keys_of(raw).len() && "worktreepool"@.is_prefix_of(
                (#[trigger] submodules::keys_of(raw)[i]).1,
            ) && submodules::keys_of(raw)[i].1 != "worktreepooltag"@,
        o.output is Json,
{
    lemma_unknown_keys(submodules::keys_of(raw));
}

proof fn lemma_unknown_keys(keys: Seq<submodules::Key>)
    ensures
        unknown_keys(keys).len() > 0 <==> exists|i: int|
            0 <= i < keys.len() && "worktreepool"@.is_prefix_of((#[trigger] keys[i]).1)
                && keys[i].1 != "worktreepooltag"@,
    decreases keys.len(),
{
    if keys.len() > 0 {
        let rest = keys.drop_last();
        lemma_unknown_keys(rest);
        assert(keys[keys.len() - 1] == keys.last());
        if unknown_keys(rest).len() > 0 {
            let i = choose|i: int|
                0 <= i < rest.len() && "worktreepool"@.is_prefix_of((#[trigger] rest[i]).1)
                    && rest[i].1 != "worktreepooltag"@;
            assert(keys[i] == rest[i]);
        }
        if exists|i: int|
            0 <= i < keys.len() && "worktreepool"@.is_prefix_of((#[trigger] keys[i]).1)
                && keys[i].1 != "worktreepooltag"@ {
            let i = choose|i: int|
                0 <= i < keys.len() && "worktreepool"@.is_prefix_of((#[trigger] keys[i]).1)
                    && keys[i].1 != "worktreepooltag"@;
            if i < rest.len() {
                assert(rest[i] == keys[i]);
            }
        }
    }
}

} // verus!
