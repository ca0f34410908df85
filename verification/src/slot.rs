//! Slot identity, enumeration, and idle-slot picking.
//!
//! A slot is always at its canonical path `<pool>/{group}-{N}`, or
//! `<pool>/slot-{N}` in a pool without groups. It is held iff its `HEAD` is on a
//! branch, and idle when its `HEAD` is detached. The lease lives in the branch ref
//! inside the slot.
use crate::config;
use crate::config::PoolConfig;
use crate::error;
use crate::error::Error;
use crate::fs_paths;
use crate::git;
use crate::order;
use crate::text;
use crate::text_lemmas;
use crate::types::LeaseName;
use vstd::prelude::*;

verus! {

// ---------------------------------------------------------------------------
// What the disk shows
// ---------------------------------------------------------------------------

/// An item of the pool directory.
#[derive(Debug)]
pub struct Seen {
    pub name: String,
    pub is_dir: bool,
    /// The text of the item's git `HEAD`, where it can be found and read.
    pub head: Option<String>,
    /// The branch that git shows there.
    pub branch: Option<String>,
}

/// An item of the pool directory as text.
#[verifier::ext_equal]
pub struct SeenView {
    pub name: Seq<char>,
    pub is_dir: bool,
    pub head: Option<Seq<char>>,
    pub branch: Option<Seq<char>>,
}

impl View for Seen {
    type V = SeenView;

    open spec fn view(&self) -> SeenView {
        SeenView {
            name: self.name@,
            is_dir: self.is_dir,
            head: text::opt_text(self.head),
            branch: text::opt_text(self.branch),
        }
    }
}

/// What a look at a path showed.
#[derive(Debug)]
pub struct Look {
    pub exists: bool,
    /// The text of the git `HEAD` there, where it can be found and read.
    pub head: Option<String>,
}

/// What a look at a path showed, as text.
#[verifier::ext_equal]
pub struct LookView {
    pub exists: bool,
    pub head: Option<Seq<char>>,
}

impl View for Look {
    type V = LookView;

    open spec fn view(&self) -> LookView {
        LookView { exists: self.exists, head: text::opt_text(self.head) }
    }
}

/// Looks as text.
pub open spec fn look_views(v: Seq<Look>) -> Seq<LookView> {
    v.map_values(|l: Look| l@)
}

/// What came of listing a directory.
#[derive(Debug)]
pub enum DirReply {
    /// There is no such directory.
    Missing,
    /// It could not be opened; why.
    Failed(String),
    /// An item could not be read; why.
    Broken(String),
    Items(Vec<Seen>),
}

/// Items as text.
pub open spec fn seen_views(v: Seq<Seen>) -> Seq<SeenView> {
    v.map_values(|s: Seen| s@)
}

/// A canonical slot on disk.
#[derive(Debug)]
pub struct SlotEntry {
    /// Canonical id; the last component of `path`.
    pub id: String,
    pub path: String,
    pub group: Option<String>,
    pub n: u32,
    /// The text of the slot's git `HEAD`, where it can be found and read.
    pub head: Option<String>,
    /// The branch that git shows there: the lease.
    pub branch: Option<String>,
}

/// A canonical slot as text and numbers.
#[verifier::ext_equal]
pub struct SlotEntryView {
    pub id: Seq<char>,
    pub path: Seq<char>,
    pub group: Option<Seq<char>>,
    pub n: nat,
    pub head: Option<Seq<char>>,
    pub branch: Option<Seq<char>>,
}

impl View for SlotEntry {
    type V = SlotEntryView;

    open spec fn view(&self) -> SlotEntryView {
        SlotEntryView {
            id: self.id@,
            path: self.path@,
            group: text::opt_text(self.group),
            n: self.n as nat,
            head: text::opt_text(self.head),
            branch: text::opt_text(self.branch),
        }
    }
}

impl Clone for SlotEntry {
    fn clone(&self) -> (r: Self)
        ensures
            r@ == self@,
    {
        SlotEntry {
            id: text::own(self.id.as_str()),
            path: text::own(self.path.as_str()),
            group: text::own_opt(text::borrow_opt(&self.group)),
            n: self.n,
            head: text::own_opt(text::borrow_opt(&self.head)),
            branch: text::own_opt(text::borrow_opt(&self.branch)),
        }
    }
}

/// Slots as text and numbers.
pub open spec fn entry_views(v: Seq<SlotEntry>) -> Seq<SlotEntryView> {
    v.map_values(|e: SlotEntry| e@)
}

// ---------------------------------------------------------------------------
// Identity
// ---------------------------------------------------------------------------

/// What comes before the number in a slot's id.
pub open spec fn id_prefix(group: Option<Seq<char>>) -> Seq<char> {
    match group {
        Some(g) => g + "-"@,
        None => "slot-"@,
    }
}

/// Canonical slot id: `{group}-{N}` when grouped, else `slot-{N}`.
pub open spec fn slot_name(group: Option<Seq<char>>, n: nat) -> Seq<char> {
    id_prefix(group) + text::decimal(n)
}

/// Canonical slot id: `{group}-{N}` when grouped, else `slot-{N}`.
pub fn canonical_id(group: Option<&str>, n: u32) -> (r: String)
    ensures
        r@ == slot_name(text::opt_slice(group), n as nat),
{
    let mut id = match group {
        Some(g) => {
            let mut p = text::own(g);
            p.append("-");
            p
        },
        None => text::own("slot-"),
    };
    id.append(text::to_decimal(n as u64).as_str());
    id
}

/// The number that follows `prefix` in `name`.
pub open spec fn number_after(name: Seq<char>, prefix: Seq<char>) -> Option<nat> {
    match text::after_prefix(name, prefix) {
        None => None,
        Some(rest) => match text::number(rest) {
            Ok(n) => Some(n),
            Err(_) => None,
        },
    }
}

/// The first of `groups` that a name belongs to, and the name's number in it.
pub open spec fn grouped_slot(groups: Seq<Seq<char>>, name: Seq<char>) -> Option<(Seq<char>, nat)>
    decreases groups.len(),
{
    if groups.len() == 0 {
        None
    } else {
        match number_after(name, id_prefix(Some(groups[0]))) {
            Some(n) => Some((groups[0], n)),
            None => grouped_slot(groups.drop_first(), name),
        }
    }
}

/// The group and number of a name, where it has the canonical shape of a pool with
/// these groups.
pub open spec fn slot_of(groups: Seq<Seq<char>>, name: Seq<char>) -> Option<
    (Option<Seq<char>>, nat),
> {
    if groups.len() == 0 {
        match number_after(name, id_prefix(None)) {
            Some(n) => Some((None, n)),
            None => None,
        }
    } else {
        match grouped_slot(groups, name) {
            Some((g, n)) => Some((Some(g), n)),
            None => None,
        }
    }
}

fn parse_after(name: &str, prefix: &str) -> (r: Option<u32>)
    ensures
        match (r, number_after(name@, prefix@)) {
            (Some(a), Some(b)) => a == b,
            (None, None) => true,
            _ => false,
        },
{
    match text::strip_prefix(name, prefix) {
        None => None,
        Some(rest) => match text::parse_u32(rest) {
            Ok(n) => Some(n),
            Err(_) => None,
        },
    }
}

/// The group and number of a name, where it has the pool's canonical shape.
pub fn classify(name: &str, cfg: &PoolConfig) -> (r: Option<(Option<String>, u32)>)
    ensures
        match (r, slot_of(cfg@.groups, name@)) {
            (Some(a), Some(b)) => text::opt_text(a.0) == b.0 && a.1 == b.1,
            (None, None) => true,
            _ => false,
        },
{
    if cfg.groups.len() == 0 {
        return match parse_after(name, "slot-") {
            Some(n) => Some((None, n)),
            None => None,
        };
    }
    let ghost groups = cfg@.groups;
    let mut i: usize = 0;
    assert(groups.skip(0) =~= groups);
    while i < cfg.groups.len()
        invariant
            i <= cfg.groups.len(),
            groups == cfg@.groups,
            groups.len() > 0,
            grouped_slot(groups, name@) == grouped_slot(groups.skip(i as int), name@),
        decreases cfg.groups.len() - i,
    {
        let g = cfg.groups[i].as_str();
        let mut prefix = text::own(g);
        prefix.append("-");
        assert(groups.skip(i as int)[0] == g@);
        assert(groups.skip(i as int).drop_first() =~= groups.skip(i + 1));
        if let Some(n) = parse_after(name, prefix.as_str()) {
            return Some((Some(text::own(g)), n));
        }
        i = i + 1;
    }
    None
}

// ---------------------------------------------------------------------------
// The group to use
// ---------------------------------------------------------------------------

/// The group that an acquire uses: the requested one, or the first; or a message.
pub open spec fn group_chosen(groups: Seq<Seq<char>>, requested: Option<Seq<char>>) -> Result<
    Option<Seq<char>>,
    Seq<char>,
> {
    match requested {
        None => Ok(
            if groups.len() == 0 {
                None
            } else {
                Some(groups[0])
            },
        ),
        Some(g) => if groups.len() == 0 {
            Err("pool has no groups configured; --group is not allowed"@)
        } else if groups.contains(g) {
            Ok(Some(g))
        } else {
            Err("unknown group '"@ + g + "'; pool's groups: "@ + text::joined(groups, ", "@))
        },
    }
}

/// What the operator is told where the first group is taken by default.
pub open spec fn group_note(groups: Seq<Seq<char>>, requested: Option<Seq<char>>) -> Option<
    Seq<char>,
> {
    if requested is None && groups.len() > 0 {
        Some(
            "--group not given; defaulting to '"@ + groups[0] + "' (first of: "@ + text::joined(
                groups,
                ", "@,
            ) + ")"@,
        )
    } else {
        None
    }
}

/// Resolves the group to use for an acquire. If the pool has groups, defaults to the
/// first; the second part is what to tell the operator then.
pub fn resolve_group(cfg: &PoolConfig, requested: Option<&str>) -> (r: Result<
    (Option<String>, Option<String>),
    Error,
>)
    ensures
        match (r, group_chosen(cfg@.groups, text::opt_slice(requested))) {
            (Ok(a), Ok(b)) => text::opt_text(a.0) == b && text::opt_text(a.1) == group_note(
                cfg@.groups,
                text::opt_slice(requested),
            ),
            (Err(e), Err(m)) => error::told(e, m),
            _ => false,
        },
{
    let ghost groups = cfg@.groups;
    if cfg.groups.len() == 0 {
        if requested.is_some() {
            return Err(
                Error::new(text::own("pool has no groups configured; --group is not allowed")),
            );
        }
        return Ok((None, None));
    }
    let names = config::group_strings(&cfg.groups);
    match requested {
        Some(g) => {
            let mut i: usize = 0;
            while i < cfg.groups.len()
                invariant
                    i <= cfg.groups.len(),
                    groups == cfg@.groups,
                    groups.len() > 0,
                    requested == Some(g),
                    forall|j: int| 0 <= j < i ==> groups[j] != g@,
                decreases cfg.groups.len() - i,
            {
                if text::same(cfg.groups[i].as_str(), g) {
                    assert(groups[i as int] == g@);
                    return Ok((Some(cfg.groups[i].to_string()), None));
                }
                i = i + 1;
            }
            let mut m = text::own("unknown group '");
            m.append(g);
            m.append("'; pool's groups: ");
            m.append(text::join(&names, ", ").as_str());
            Err(Error::new(m))
        },
        None => {
            let first = cfg.groups[0].as_str();
            let mut note = text::own("--group not given; defaulting to '");
            note.append(first);
            note.append("' (first of: ");
            note.append(text::join(&names, ", ").as_str());
            note.append(")");
            Ok((Some(text::own(first)), Some(note)))
        },
    }
}

// ---------------------------------------------------------------------------
// Enumeration
// ---------------------------------------------------------------------------

/// The slot that an item of the pool directory is. Dotfiles, items that are no
/// directories and names without the canonical shape are none.
pub open spec fn entry_seen(
    root: Seq<char>,
    groups: Seq<Seq<char>>,
    s: SeenView,
) -> Option<SlotEntryView> {
    if "."@.is_prefix_of(s.name) || !s.is_dir {
        None
    } else {
        match slot_of(groups, s.name) {
            None => None,
            Some((group, n)) => Some(
                SlotEntryView {
                    id: s.name,
                    path: fs_paths::path_in(root, s.name),
                    group,
                    n,
                    head: s.head,
                    branch: s.branch,
                },
            ),
        }
    }
}

/// The slots among the items of the pool directory, in the listing's order.
pub open spec fn entries_seen(
    root: Seq<char>,
    groups: Seq<Seq<char>>,
    seen: Seq<SeenView>,
) -> Seq<SlotEntryView>
    decreases seen.len(),
{
    if seen.len() == 0 {
        seq![]
    } else {
        let before = entries_seen(root, groups, seen.drop_last());
        match entry_seen(root, groups, seen.last()) {
            Some(e) => before.push(e),
            None => before,
        }
    }
}

/// The items that a listing shows, or a message.
pub open spec fn listed(root: Seq<char>, reply: DirReply) -> Result<Seq<SeenView>, Seq<char>> {
    match reply {
        DirReply::Missing => Ok(seq![]),
        DirReply::Failed(why) => Err("read_dir "@ + root + ": "@ + why@),
        DirReply::Broken(why) => Err(why@),
        DirReply::Items(v) => Ok(seen_views(v@)),
    }
}

/// The slots that a listing shows, or a message.
pub open spec fn enumerated(root: Seq<char>, groups: Seq<Seq<char>>, reply: DirReply) -> Result<
    Seq<SlotEntryView>,
    Seq<char>,
> {
    match listed(root, reply) {
        Ok(seen) => Ok(entries_seen(root, groups, seen)),
        Err(m) => Err(m),
    }
}

fn entry_of(pool_root: &str, cfg: &PoolConfig, s: &Seen) -> (r: Option<SlotEntry>)
    ensures
        match (r, entry_seen(pool_root@, cfg@.groups, s@)) {
            (Some(a), Some(b)) => a@ == b,
            (None, None) => true,
            _ => false,
        },
{
    if text::starts_with(s.name.as_str(), ".") || !s.is_dir {
        return None;
    }
    match classify(s.name.as_str(), cfg) {
        None => None,
        Some((group, n)) => Some(
            SlotEntry {
                id: text::own(s.name.as_str()),
                path: fs_paths::join(pool_root, s.name.as_str()),
                group,
                n,
                head: text::own_opt(text::borrow_opt(&s.head)),
                branch: text::own_opt(text::borrow_opt(&s.branch)),
            },
        ),
    }
}

/// The slots among the items of the pool directory.
pub fn slots_among(pool_root: &str, cfg: &PoolConfig, items: &Vec<Seen>) -> (r: Vec<SlotEntry>)
    ensures
        entry_views(r@) == entries_seen(pool_root@, cfg@.groups, seen_views(items@)),
{
    let mut out: Vec<SlotEntry> = Vec::new();
    let ghost seen = seen_views(items@);
    let mut i: usize = 0;
    assert(entry_views(out@) =~= entries_seen(pool_root@, cfg@.groups, seen.take(0)));
    while i < items.len()
        invariant
            i <= items.len(),
            seen == seen_views(items@),
            entry_views(out@) == entries_seen(pool_root@, cfg@.groups, seen.take(i as int)),
        decreases items.len() - i,
    {
        assert(seen.take(i + 1).drop_last() =~= seen.take(i as int));
        assert(seen.take(i + 1).last() == items@[i as int]@);
        let ghost before = entry_views(out@);
        if let Some(e) = entry_of(pool_root, cfg, &items[i]) {
            let ghost v = e@;
            out.push(e);
            assert(entry_views(out@) =~= before.push(v));
        }
        i = i + 1;
    }
    assert(seen.take(i as int) =~= seen);
    out
}

/// The canonical slots of a pool. Anything else in the pool directory is operator
/// noise, not a slot.
pub fn enumerate(pool_root: &str, cfg: &PoolConfig, listing: &DirReply) -> (r: Result<
    Vec<SlotEntry>,
    Error,
>)
    ensures
        match (r, enumerated(pool_root@, cfg@.groups, *listing)) {
            (Ok(v), Ok(s)) => entry_views(v@) == s,
            (Err(e), Err(m)) => error::told(e, m),
            _ => false,
        },
{
    match listing {
        DirReply::Missing => {
            let none: Vec<SlotEntry> = Vec::new();
            assert(entry_views(none@) =~= seq![]);
            Ok(none)
        },
        DirReply::Failed(why) => {
            let mut doing = text::own("read_dir ");
            doing.append(pool_root);
            Err(Error::new(text::own(why.as_str())).context(doing.as_str()))
        },
        DirReply::Broken(why) => Err(Error::new(text::own(why.as_str()))),
        DirReply::Items(items) => Ok(slots_among(pool_root, cfg, items)),
    }
}

// ---------------------------------------------------------------------------
// Held slots
// ---------------------------------------------------------------------------

/// Whether a slot is held.
pub open spec fn holds(e: SlotEntryView) -> bool {
    git::head_holds(e.head)
}

/// Whether the slot with this `HEAD` is held: on a branch, or in a state that cannot
/// be told.
pub fn is_held_at(head: &Option<String>) -> (r: bool)
    ensures
        r == git::head_holds(text::opt_text(*head)),
{
    git::is_held(text::borrow_opt(head))
}

/// How many of the slots are held and in `group`.
pub open spec fn held_count(entries: Seq<SlotEntryView>, group: Option<Seq<char>>) -> nat
    decreases entries.len(),
{
    if entries.len() == 0 {
        0
    } else {
        held_count(entries.drop_last(), group) + if entries.last().group == group && holds(
            entries.last(),
        ) {
            1nat
        } else {
            0nat
        }
    }
}

/// Counts the held slots in `group`.
pub fn count_held_in_group(entries: &Vec<SlotEntry>, group: Option<&str>) -> (r: usize)
    ensures
        r == held_count(entry_views(entries@), text::opt_slice(group)),
{
    let ghost views = entry_views(entries@);
    let mut count: usize = 0;
    let mut i: usize = 0;
    while i < entries.len()
        invariant
            i <= entries.len(),
            views == entry_views(entries@),
            count == held_count(views.take(i as int), text::opt_slice(group)),
            count <= i,
        decreases entries.len() - i,
    {
        assert(views.take(i + 1).drop_last() =~= views.take(i as int));
        assert(views.take(i + 1).last() == entries@[i as int]@);
        if text::same_opt(text::borrow_opt(&entries[i].group), group) && is_held_at(
            &entries[i].head,
        ) {
            count = count + 1;
        }
        i = i + 1;
    }
    assert(views.take(i as int) =~= views);
    count
}

/// Whether a slot is held under this lease.
pub open spec fn leased(e: SlotEntryView, name: Seq<char>) -> bool {
    holds(e) && e.branch == Some(name)
}

/// The first slot held under a lease.
pub open spec fn lease_holder(entries: Seq<SlotEntryView>, name: Seq<char>) -> Option<
    SlotEntryView,
>
    decreases entries.len(),
{
    if entries.len() == 0 {
        None
    } else if leased(entries[0], name) {
        Some(entries[0])
    } else {
        lease_holder(entries.drop_first(), name)
    }
}

/// The first slot held under a lease.
pub fn holder_of(entries: &Vec<SlotEntry>, name: &str) -> (r: Option<SlotEntry>)
    ensures
        match (r, lease_holder(entry_views(entries@), name@)) {
            (Some(a), Some(b)) => a@ == b,
            (None, None) => true,
            _ => false,
        },
{
    let ghost views = entry_views(entries@);
    let mut i: usize = 0;
    assert(views.skip(0) =~= views);
    while i < entries.len()
        invariant
            i <= entries.len(),
            views == entry_views(entries@),
            lease_holder(views, name@) == lease_holder(views.skip(i as int), name@),
        decreases entries.len() - i,
    {
        assert(views.skip(i as int)[0] == entries@[i as int]@);
        assert(views.skip(i as int).drop_first() =~= views.skip(i + 1));
        if is_held_at(&entries[i].head) {
            if text::same_opt(text::borrow_opt(&entries[i].branch), Some(name)) {
                return Some(entries[i].clone());
            }
        }
        i = i + 1;
    }
    None
}

/// Looks up a held slot by its branch. `None` if no held slot is on that branch
/// (already released, never acquired, or `HEAD` detached).
pub fn find_by_name(pool_root: &str, cfg: &PoolConfig, listing: &DirReply, name: &str) -> (r: Result<
    Option<SlotEntry>,
    Error,
>)
    ensures
        match (r, enumerated(pool_root@, cfg@.groups, *listing)) {
            (Ok(found), Ok(s)) => match (found, lease_holder(s, name@)) {
                (Some(a), Some(b)) => a@ == b,
                (None, None) => true,
                _ => false,
            },
            (Err(e), Err(m)) => error::told(e, m),
            _ => false,
        },
{
    match enumerate(pool_root, cfg, listing) {
        Ok(entries) => Ok(holder_of(&entries, name)),
        Err(e) => Err(e),
    }
}

/// Looks up the slot held under a lease.
pub fn find_by_lease(
    pool_root: &str,
    cfg: &PoolConfig,
    listing: &DirReply,
    lease: &LeaseName,
) -> (r: Result<Option<SlotEntry>, Error>)
    ensures
        match (r, enumerated(pool_root@, cfg@.groups, *listing)) {
            (Ok(found), Ok(s)) => match (found, lease_holder(s, lease@)) {
                (Some(a), Some(b)) => a@ == b,
                (None, None) => true,
                _ => false,
            },
            (Err(e), Err(m)) => error::told(e, m),
            _ => false,
        },
{
    find_by_name(pool_root, cfg, listing, lease.as_str())
}

/// The first held slot with this id.
pub open spec fn held_slot(entries: Seq<SlotEntryView>, id: Seq<char>) -> Option<SlotEntryView>
    decreases entries.len(),
{
    if entries.len() == 0 {
        None
    } else if entries[0].id == id && holds(entries[0]) {
        Some(entries[0])
    } else {
        held_slot(entries.drop_first(), id)
    }
}

/// The slot that an operator means: the one held under that lease, else the held one
/// with that id.
pub open spec fn addressed(entries: Seq<SlotEntryView>, name: Seq<char>) -> Option<SlotEntryView> {
    match lease_holder(entries, name) {
        Some(e) => Some(e),
        None => held_slot(entries, name),
    }
}

/// The slot that an operator means: the one held under that lease, else the held one
/// with that id, so that a slot can be addressed straight off `ls`.
pub fn find_addressed(entries: &Vec<SlotEntry>, name: &str) -> (r: Option<SlotEntry>)
    ensures
        match (r, addressed(entry_views(entries@), name@)) {
            (Some(a), Some(b)) => a@ == b,
            (None, None) => true,
            _ => false,
        },
{
    if let Some(e) = holder_of(entries, name) {
        return Some(e);
    }
    let ghost views = entry_views(entries@);
    let mut i: usize = 0;
    assert(views.skip(0) =~= views);
    while i < entries.len()
        invariant
            i <= entries.len(),
            views == entry_views(entries@),
            lease_holder(views, name@) is None,
            held_slot(views, name@) == held_slot(views.skip(i as int), name@),
        decreases entries.len() - i,
    {
        assert(views.skip(i as int)[0] == entries@[i as int]@);
        assert(views.skip(i as int).drop_first() =~= views.skip(i + 1));
        if text::same(entries[i].id.as_str(), name) && is_held_at(&entries[i].head) {
            return Some(entries[i].clone());
        }
        i = i + 1;
    }
    None
}

// ---------------------------------------------------------------------------
// Acquirable slots
// ---------------------------------------------------------------------------

/// A canonical slot number that is currently acquirable: fresh (nothing on disk) or
/// recycled-idle (on disk, `HEAD` detached).
#[derive(Debug, Clone, Copy, PartialEq, Eq, Structural)]
pub struct Acquirable {
    pub n: u32,
    pub is_fresh: bool,
}

/// The paths of a group's slots below `max_slots`.
pub open spec fn canonical_paths_of(
    root: Seq<char>,
    group: Option<Seq<char>>,
    max_slots: nat,
) -> Seq<Seq<char>> {
    Seq::new(max_slots, |n: int| fs_paths::path_in(root, slot_name(group, n as nat)))
}

/// The paths of a group's slots below `max_slots`, to be looked at.
pub fn canonical_paths(pool_root: &str, group: Option<&str>, max_slots: u32) -> (r: Vec<String>)
    ensures
        text::texts(r@) == canonical_paths_of(
            pool_root@,
            text::opt_slice(group),
            max_slots as nat,
        ),
{
    let ghost want = canonical_paths_of(pool_root@, text::opt_slice(group), max_slots as nat);
    let mut out: Vec<String> = Vec::new();
    let mut n: u32 = 0;
    assert(text::texts(out@) =~= want.take(0));
    while n < max_slots
        invariant
            n <= max_slots,
            want == canonical_paths_of(pool_root@, text::opt_slice(group), max_slots as nat),
            text::texts(out@) == want.take(n as int),
        decreases max_slots - n,
    {
        let ghost before = text::texts(out@);
        let p = fs_paths::join(pool_root, canonical_id(group, n).as_str());
        assert(p@ == want[n as int]);
        out.push(p);
        assert(text::texts(out@) =~= before.push(want[n as int]));
        assert(want.take(n + 1) =~= want.take(n as int).push(want[n as int]));
        n = n + 1;
    }
    assert(want.take(n as int) =~= want);
    out
}

/// The slot number `n`, where a look at its path shows that it can be acquired: nothing
/// is there, or an idle slot is.
pub open spec fn canonical_candidate(look: LookView, n: u32) -> Option<Acquirable> {
    if !look.exists {
        Some(Acquirable { n, is_fresh: true })
    } else if git::head_holds(look.head) {
        None
    } else {
        Some(Acquirable { n, is_fresh: false })
    }
}

/// The acquirable numbers among those whose paths were looked at, lowest first.
pub open spec fn canonical_candidates(looks: Seq<LookView>) -> Seq<Acquirable>
    decreases looks.len(),
{
    if looks.len() == 0 {
        seq![]
    } else {
        let before = canonical_candidates(looks.drop_last());
        match canonical_candidate(looks.last(), (looks.len() - 1) as u32) {
            Some(a) => before.push(a),
            None => before,
        }
    }
}

/// An idle slot of the group past the pool's size.
pub open spec fn is_surplus(e: SlotEntryView, group: Option<Seq<char>>, max_slots: u32) -> bool {
    e.group == group && e.n >= max_slots && !holds(e)
}

/// The idle slots of the group past the pool's size, in the listing's order.
pub open spec fn surplus(
    entries: Seq<SlotEntryView>,
    group: Option<Seq<char>>,
    max_slots: u32,
) -> Seq<Acquirable>
    decreases entries.len(),
{
    if entries.len() == 0 {
        seq![]
    } else {
        let before = surplus(entries.drop_last(), group, max_slots);
        if is_surplus(entries.last(), group, max_slots) {
            before.push(Acquirable { n: entries.last().n as u32, is_fresh: false })
        } else {
            before
        }
    }
}

/// Lowest number first.
pub open spec fn by_number(s: Seq<Acquirable>) -> bool {
    forall|i: int, j: int| 0 <= i < j < s.len() ==> s[i].n <= s[j].n
}

fn insert_by_number(v: &mut Vec<Acquirable>, a: Acquirable)
    requires
        by_number(old(v)@),
    ensures
        by_number(final(v)@),
        final(v)@.to_multiset() == old(v)@.to_multiset().insert(a),
{
    let ghost before = v@;
    let mut i: usize = v.len();
    while i > 0 && v[i - 1].n > a.n
        invariant
            v@ == before,
            i <= v.len(),
            forall|j: int| i <= j < v.len() ==> v@[j].n > a.n,
        decreases i,
    {
        i = i - 1;
    }
    v.insert(i, a);
    proof {
        let le = |x: Acquirable, y: Acquirable| x.n <= y.n;
        assert(order::sorted(before, le));
        order::lemma_insert_sorted(before, i as int, a, le);
        assert(v@ == before.insert(i as int, a));
        assert forall|x: int, y: int| 0 <= x < y < v@.len() implies v@[x].n <= v@[y].n by {
            assert(le(v@[x], v@[y]));
        }
    }
}

/// Acquirable canonical slot numbers, lowest first, from a look at each path of
/// `canonical_paths` and from the pool's slots.
///
/// Fresh creation is bounded by `0..max_slots`, so the pool never grows past it.
/// Idle slots at `max_slots` and above can exist where it was lowered later; they are
/// acquirable, which eats the surplus down.
pub fn acquirable(
    group: Option<&str>,
    max_slots: u32,
    looks: &Vec<Look>,
    entries: &Vec<SlotEntry>,
) -> (r: Vec<Acquirable>)
    requires
        looks@.len() == max_slots,
    ensures
        by_number(r@),
        r@.to_multiset() == canonical_candidates(look_views(looks@)).to_multiset().add(
            surplus(entry_views(entries@), text::opt_slice(group), max_slots).to_multiset(),
        ),
{
    let ghost g = text::opt_slice(group);
    let ghost shown = look_views(looks@);
    let ghost views = entry_views(entries@);
    let mut out: Vec<Acquirable> = Vec::new();
    let mut n: u32 = 0;
    assert(shown.take(0) =~= seq![]);
    while n < max_slots
        invariant
            n <= max_slots,
            looks@.len() == max_slots,
            shown == look_views(looks@),
            out@ == canonical_candidates(shown.take(n as int)),
            by_number(out@),
            forall|i: int| 0 <= i < out@.len() ==> out@[i].n < n,
        decreases max_slots - n,
    {
        let look = &looks[n as usize];
        assert(shown.take(n + 1).drop_last() =~= shown.take(n as int));
        assert(shown.take(n + 1).last() == look@);
        if !look.exists {
            out.push(Acquirable { n, is_fresh: true });
        } else if !is_held_at(&look.head) {
            out.push(Acquirable { n, is_fresh: false });
        }
        n = n + 1;
    }
    assert(shown.take(n as int) =~= shown);
    let ghost low = out@;
    let mut i: usize = 0;
    proof {
        broadcast use vstd::seq_lib::group_to_multiset_ensures;

        assert(surplus(views.take(0), g, max_slots).to_multiset() =~= vstd::multiset::Multiset::<
            Acquirable,
        >::empty());
        assert(out@.to_multiset() =~= low.to_multiset().add(
            surplus(views.take(0), g, max_slots).to_multiset(),
        ));
    }
    while i < entries.len()
        invariant
            i <= entries.len(),
            g == text::opt_slice(group),
            views == entry_views(entries@),
            by_number(out@),
            out@.to_multiset() == low.to_multiset().add(
                surplus(views.take(i as int), g, max_slots).to_multiset(),
            ),
        decreases entries.len() - i,
    {
        let ghost before = surplus(views.take(i as int), g, max_slots);
        assert(views.take(i + 1).drop_last() =~= views.take(i as int));
        assert(views.take(i + 1).last() == entries@[i as int]@);
        if text::same_opt(text::borrow_opt(&entries[i].group), group) && entries[i].n >= max_slots
            && !is_held_at(&entries[i].head) {
            let a = Acquirable { n: entries[i].n, is_fresh: false };
            insert_by_number(&mut out, a);
            proof {
                before.to_multiset_ensures();
                assert(before.push(a).to_multiset() =~= before.to_multiset().insert(a));
                assert(low.to_multiset().add(before.to_multiset()).insert(a)
                    =~= low.to_multiset().add(before.to_multiset().insert(a)));
            }
        }
        i = i + 1;
    }
    assert(views.take(i as int) =~= views);
    out
}

// ---------------------------------------------------------------------------
// Laws
// ---------------------------------------------------------------------------

proof fn lemma_number_lacks_dash(s: Seq<char>)
    requires
        text::number(s) is Ok,
    ensures
        text_lemmas::lacks(s, '-'),
{
    text_lemmas::lemma_number_chars(s);
    assert forall|i: int| 0 <= i < s.len() implies s[i] != '-' by {
        assert(text::is_digit(s[i]) || s[i] == '+');
    }
}

proof fn lemma_name_number(prefix: Seq<char>, n: nat)
    requires
        n <= u32::MAX,
    ensures
        number_after(prefix + text::decimal(n), prefix) == Some(n),
{
    let name = prefix + text::decimal(n);
    assert(prefix =~= name.take(prefix.len() as int));
    assert(prefix.is_prefix_of(name));
    assert(name.skip(prefix.len() as int) =~= text::decimal(n));
    text_lemmas::lemma_number_decimal(n);
}

/// A name whose number follows two group prefixes has one group: the number holds no
/// dash, so both prefixes end at the name's last dash.
pub proof fn lemma_one_group(name: Seq<char>, g: Seq<char>, h: Seq<char>)
    requires
        number_after(name, id_prefix(Some(g))) is Some,
        number_after(name, id_prefix(Some(h))) is Some,
    ensures
        g == h,
{
    reveal_strlit("-");
    let pg = g + "-"@;
    let ph = h + "-"@;
    let rg = name.skip(pg.len() as int);
    let rh = name.skip(ph.len() as int);
    lemma_number_lacks_dash(rg);
    lemma_number_lacks_dash(rh);
    assert(pg[g.len() as int] == '-' && ph[h.len() as int] == '-');
    assert(name[g.len() as int] == pg[g.len() as int]);
    assert(name[h.len() as int] == ph[h.len() as int]);
    if g.len() < h.len() {
        assert(rg[h.len() - pg.len()] == name[h.len() as int]);
    }
    if h.len() < g.len() {
        assert(rh[g.len() - ph.len()] == name[g.len() as int]);
    }
    assert(pg =~= ph);
    assert(g =~= pg.take(g.len() as int));
    assert(h =~= ph.take(h.len() as int));
}

proof fn lemma_grouped_slot(groups: Seq<Seq<char>>, g: Seq<char>, n: nat)
    requires
        groups.contains(g),
        n <= u32::MAX,
    ensures
        grouped_slot(groups, slot_name(Some(g), n)) == Some((g, n)),
    decreases groups.len(),
{
    let name = slot_name(Some(g), n);
    lemma_name_number(id_prefix(Some(g)), n);
    match number_after(name, id_prefix(Some(groups[0]))) {
        Some(m) => {
            lemma_one_group(name, groups[0], g);
        },
        None => {
            let i = choose|i: int| 0 <= i < groups.len() && groups[i] == g;
            assert(i != 0);
            assert(groups.drop_first()[i - 1] == g);
            lemma_grouped_slot(groups.drop_first(), g, n);
        },
    }
}

/// The group that an acquire may use in a pool: one of its groups, or none where it
/// has none.
pub open spec fn usable(groups: Seq<Seq<char>>, group: Option<Seq<char>>) -> bool {
    match group {
        Some(g) => groups.contains(g),
        None => groups.len() == 0,
    }
}

/// The group that `resolve_group` gives is one that the pool has.
pub proof fn resolved_group_is_usable(groups: Seq<Seq<char>>, requested: Option<Seq<char>>)
    requires
        group_chosen(groups, requested) is Ok,
    ensures
        usable(groups, group_chosen(groups, requested)->Ok_0),
{
    if requested is None && groups.len() > 0 {
        assert(groups[0] == groups[0]);
    }
}

/// A canonical id reads back as the group and number it was made of, whatever other
/// groups the pool has.
pub proof fn canonical_ids_classify(groups: Seq<Seq<char>>, group: Option<Seq<char>>, n: nat)
    requires
        usable(groups, group),
        n <= u32::MAX,
    ensures
        slot_of(groups, slot_name(group, n)) == Some((group, n)),
{
    match group {
        Some(g) => {
            lemma_grouped_slot(groups, g, n);
        },
        None => {
            lemma_name_number(id_prefix(None), n);
        },
    }
}

/// In one pool, canonical ids are distinct for distinct slots.
pub proof fn canonical_ids_are_distinct(
    groups: Seq<Seq<char>>,
    g: Option<Seq<char>>,
    n: nat,
    h: Option<Seq<char>>,
    m: nat,
)
    requires
        usable(groups, g),
        usable(groups, h),
        n <= u32::MAX,
        m <= u32::MAX,
        slot_name(g, n) == slot_name(h, m),
    ensures
        g == h,
        n == m,
{
    canonical_ids_classify(groups, g, n);
    canonical_ids_classify(groups, h, m);
}

/// Looking up a lease finds a slot exactly where one is held under it, and what it
/// finds is such a slot.
pub proof fn lease_lookup_is_complete(entries: Seq<SlotEntryView>, name: Seq<char>)
    ensures
        lease_holder(entries, name) is Some <==> exists|i: int|
            0 <= i < entries.len() && leased(#[trigger] entries[i], name),
        lease_holder(entries, name) matches Some(e) ==> leased(e, name) && entries.contains(e),
    decreases entries.len(),
{
    if entries.len() > 0 {
        let rest = entries.drop_first();
        lease_lookup_is_complete(rest, name);
        if leased(entries[0], name) {
            assert(entries.contains(entries[0]));
        } else {
            if exists|i: int| 0 <= i < entries.len() && leased(#[trigger] entries[i], name) {
                let i = choose|i: int|
                    0 <= i < entries.len() && leased(#[trigger] entries[i], name);
                assert(rest[i - 1] == entries[i]);
            }
            if lease_holder(rest, name) is Some {
                let i = choose|i: int| 0 <= i < rest.len() && leased(#[trigger] rest[i], name);
                assert(entries[i + 1] == rest[i]);
                let e = lease_holder(rest, name)->0;
                let j = choose|j: int| 0 <= j < rest.len() && rest[j] == e;
                assert(entries[j + 1] == e);
            }
        }
    }
}

/// No lease holds two slots.
pub open spec fn leases_are_distinct(entries: Seq<SlotEntryView>) -> bool {
    forall|i: int, j: int, name: Seq<char>|
        0 <= i < j < entries.len() ==> !(#[trigger] leased(entries[i], name) && #[trigger] leased(
            entries[j],
            name,
        ))
}

/// The text of a `HEAD` that is on a branch.
pub open spec fn attached_head(name: Seq<char>) -> Seq<char> {
    "ref: "@ + git::branch_ref(name) + "\n"@
}

/// The slot is on the branch of that name: its `HEAD` names it, and git shows it by it, as
/// it does unless a tag or another ref has the name too.
pub open spec fn is_on(e: SlotEntryView, name: Seq<char>) -> bool {
    e.head == Some(attached_head(name)) && e.branch == Some(name)
}

/// A slot whose `HEAD` was put on a lease's branch is held under that lease, and
/// under no other.
pub proof fn attached_slot_is_leased(e: SlotEntryView, name: Seq<char>, other: Seq<char>)
    requires
        is_on(e, name),
    ensures
        leased(e, name),
        leased(e, other) ==> other == name,
{
    attached_is_held(name);
}

/// A `HEAD` that is on a branch is held.
pub proof fn attached_is_held(name: Seq<char>)
    ensures
        git::head_holds(Some(attached_head(name))),
{
    reveal_strlit("ref:");
    reveal_strlit("ref: ");
    assert("ref:"@ =~= attached_head(name).take(4));
}

/// Refusing a lease that is held keeps every lease on one slot: where no slot is held
/// under `name`, putting one slot on its branch, be it on disk already or new, leaves
/// the leases distinct.
pub proof fn acquire_keeps_leases_distinct(
    before: Seq<SlotEntryView>,
    at: int,
    slot: SlotEntryView,
    name: Seq<char>,
)
    requires
        leases_are_distinct(before),
        0 <= at < before.len(),
        lease_holder(before, name) is None,
        is_on(slot, name),
    ensures
        leases_are_distinct(before.update(at, slot)),
        leases_are_distinct(before.push(slot)),
{
    let more = before.push(slot);
    assert forall|i: int, j: int, other: Seq<char>| 0 <= i < j < more.len() implies !(
    #[trigger] leased(more[i], other) && #[trigger] leased(more[j], other)) by {
        lease_lookup_is_complete(before, name);
        attached_slot_is_leased(slot, name, other);
        assert(more[i] == before[i]);
        if j < before.len() {
            assert(more[j] == before[j]);
        } else {
            assert(!leased(before[i], name));
        }
    }
    let after = before.update(at, slot);
    assert forall|i: int, j: int, other: Seq<char>| 0 <= i < j < after.len() implies !(
    #[trigger] leased(after[i], other) && #[trigger] leased(after[j], other)) by {
        lease_lookup_is_complete(before, name);
        attached_slot_is_leased(slot, name, other);
        if i != at && j != at {
            assert(after[i] == before[i] && after[j] == before[j]);
        } else if i == at {
            assert(!leased(before[j], name));
        } else {
            assert(!leased(before[i], name));
        }
    }
}

proof fn lemma_canonical_members(looks: Seq<LookView>, a: Acquirable)
    requires
        looks.len() <= u32::MAX,
    ensures
        canonical_candidates(looks).contains(a) <==> a.n < looks.len() && canonical_candidate(
            looks[a.n as int],
            a.n,
        ) == Some(a),
    decreases looks.len(),
{
    if looks.len() > 0 {
        let rest = looks.drop_last();
        lemma_canonical_members(rest, a);
        let before = canonical_candidates(rest);
        let all = canonical_candidates(looks);
        if a.n < rest.len() {
            assert(rest[a.n as int] == looks[a.n as int]);
        }
        match canonical_candidate(looks.last(), rest.len() as u32) {
            Some(b) => {
                assert(all == before.push(b));
                assert(b.n == rest.len());
                if before.contains(a) {
                    let i = choose|i: int| 0 <= i < before.len() && before[i] == a;
                    assert(all[i] == a);
                }
                if a == b {
                    assert(all[before.len() as int] == a);
                }
                if all.contains(a) {
                    let i = choose|i: int| 0 <= i < all.len() && all[i] == a;
                    if i < before.len() {
                        assert(before[i] == a);
                    }
                }
            },
            None => {},
        }
    }
}

proof fn lemma_surplus_members(
    entries: Seq<SlotEntryView>,
    group: Option<Seq<char>>,
    max_slots: u32,
    a: Acquirable,
)
    requires
        forall|i: int| 0 <= i < entries.len() ==> (#[trigger] entries[i]).n <= u32::MAX,
    ensures
        surplus(entries, group, max_slots).contains(a) <==> !a.is_fresh && exists|i: int|
            0 <= i < entries.len() && is_surplus(#[trigger] entries[i], group, max_slots)
                && entries[i].n == a.n,
    decreases entries.len(),
{
    if entries.len() > 0 {
        let rest = entries.drop_last();
        let last = entries.last();
        assert forall|i: int| 0 <= i < rest.len() implies (#[trigger] rest[i]).n <= u32::MAX by {
            assert(rest[i] == entries[i]);
        }
        lemma_surplus_members(rest, group, max_slots, a);
        let before = surplus(rest, group, max_slots);
        let all = surplus(entries, group, max_slots);
        assert(entries[entries.len() - 1] == last);
        if is_surplus(last, group, max_slots) {
            let b = Acquirable { n: last.n as u32, is_fresh: false };
            assert(all == before.push(b));
            if before.contains(a) {
                let i = choose|i: int| 0 <= i < before.len() && before[i] == a;
                assert(all[i] == a);
            }
            if a == b {
                assert(all[before.len() as int] == a);
            }
            if all.contains(a) {
                let i = choose|i: int| 0 <= i < all.len() && all[i] == a;
                if i < before.len() {
                    assert(before[i] == a);
                }
            }
        }
        if exists|i: int|
            0 <= i < rest.len() && is_surplus(#[trigger] rest[i], group, max_slots) && rest[i].n
                == a.n {
            let i = choose|i: int|
                0 <= i < rest.len() && is_surplus(#[trigger] rest[i], group, max_slots)
                    && rest[i].n == a.n;
            assert(entries[i] == rest[i]);
        }
        if exists|i: int|
            0 <= i < entries.len() && is_surplus(#[trigger] entries[i], group, max_slots)
                && entries[i].n == a.n {
            let i = choose|i: int|
                0 <= i < entries.len() && is_surplus(#[trigger] entries[i], group, max_slots)
                    && entries[i].n == a.n;
            if i < rest.len() {
                assert(rest[i] == entries[i]);
            }
        }
    }
}

proof fn lemma_grouped_bound(groups: Seq<Seq<char>>, name: Seq<char>)
    ensures
        grouped_slot(groups, name) matches Some((_, n)) ==> n <= u32::MAX,
    decreases groups.len(),
{
    if groups.len() > 0 {
        let p = id_prefix(Some(groups[0]));
        if number_after(name, p) is Some {
            text_lemmas::lemma_number_bound(name.skip(p.len() as int));
        } else {
            lemma_grouped_bound(groups.drop_first(), name);
        }
    }
}

/// The number of a slot that a listing shows fits in 32 bits.
pub proof fn lemma_entries_bound(
    root: Seq<char>,
    groups: Seq<Seq<char>>,
    seen: Seq<SeenView>,
)
    ensures
        forall|i: int|
            0 <= i < entries_seen(root, groups, seen).len() ==> (#[trigger] entries_seen(
                root,
                groups,
                seen,
            )[i]).n <= u32::MAX,
    decreases seen.len(),
{
    if seen.len() > 0 {
        let rest = seen.drop_last();
        lemma_entries_bound(root, groups, rest);
        let name = seen.last().name;
        if groups.len() == 0 {
            if number_after(name, id_prefix(None)) is Some {
                text_lemmas::lemma_number_bound(name.skip(id_prefix(None).len() as int));
            }
        } else {
            lemma_grouped_bound(groups, name);
        }
        let all = entries_seen(root, groups, seen);
        let before = entries_seen(root, groups, rest);
        assert forall|i: int| 0 <= i < all.len() implies (#[trigger] all[i]).n <= u32::MAX by {
            if i < before.len() {
                assert(all[i] == before[i]);
            }
        }
    }
}

/// The number `a` can be acquired as it says: below `max_slots` a look at its path showed
/// nothing there (fresh) or an idle slot (recycled), and from `max_slots` on an idle slot
/// of the group is on disk.
pub open spec fn is_acquirable(
    group: Option<Seq<char>>,
    looks: Seq<LookView>,
    entries: Seq<SlotEntryView>,
    a: Acquirable,
) -> bool {
    if a.n < looks.len() {
        if looks[a.n as int].exists {
            !a.is_fresh && !git::head_holds(looks[a.n as int].head)
        } else {
            a.is_fresh
        }
    } else {
        !a.is_fresh && exists|i: int|
            0 <= i < entries.len() && (#[trigger] entries[i]).group == group && entries[i].n == a.n
                && !holds(entries[i])
    }
}

/// What `acquirable` gives, as a set. A held slot is never acquirable, every free one is,
/// and nothing fresh is made past `max_slots`.
pub proof fn acquirable_members(
    group: Option<Seq<char>>,
    looks: Seq<LookView>,
    entries: Seq<SlotEntryView>,
    max_slots: u32,
    r: Seq<Acquirable>,
    a: Acquirable,
)
    requires
        looks.len() == max_slots,
        forall|i: int| 0 <= i < entries.len() ==> (#[trigger] entries[i]).n <= u32::MAX,
        r.to_multiset() == canonical_candidates(looks).to_multiset().add(
            surplus(entries, group, max_slots).to_multiset(),
        ),
    ensures
        r.contains(a) <==> is_acquirable(group, looks, entries, a),
{
    broadcast use vstd::seq_lib::group_to_multiset_ensures;

    let low = canonical_candidates(looks);
    let high = surplus(entries, group, max_slots);
    lemma_canonical_members(looks, a);
    lemma_surplus_members(entries, group, max_slots, a);
    assert(r.to_multiset().count(a) == low.to_multiset().count(a) + high.to_multiset().count(a));
    assert(r.contains(a) <==> low.contains(a) || high.contains(a));
    if a.n >= max_slots {
        if exists|i: int|
            0 <= i < entries.len() && (#[trigger] entries[i]).group == group && entries[i].n == a.n
                && !holds(entries[i]) {
            let i = choose|i: int|
                0 <= i < entries.len() && (#[trigger] entries[i]).group == group && entries[i].n
                    == a.n && !holds(entries[i]);
            assert(is_surplus(entries[i], group, max_slots));
        }
    }
}

/// The numbers of the held slots of a group.
spec fn held_numbers(entries: Seq<SlotEntryView>, group: Option<Seq<char>>) -> Set<int>
    decreases entries.len(),
{
    if entries.len() == 0 {
        Set::empty()
    } else {
        let before = held_numbers(entries.drop_last(), group);
        if entries.last().group == group && holds(entries.last()) {
            before.insert(entries.last().n as int)
        } else {
            before
        }
    }
}

proof fn lemma_held_numbers(entries: Seq<SlotEntryView>, group: Option<Seq<char>>)
    ensures
        held_numbers(entries, group).finite(),
        held_numbers(entries, group).len() <= held_count(entries, group),
        forall|i: int|
            0 <= i < entries.len() && (#[trigger] entries[i]).group == group && holds(entries[i])
                ==> held_numbers(entries, group).contains(entries[i].n as int),
    decreases entries.len(),
{
    if entries.len() > 0 {
        let rest = entries.drop_last();
        lemma_held_numbers(rest, group);
        assert forall|i: int|
            0 <= i < entries.len() && (#[trigger] entries[i]).group == group && holds(
                entries[i],
            ) implies held_numbers(entries, group).contains(entries[i].n as int) by {
            if i < rest.len() {
                assert(rest[i] == entries[i]);
            }
        }
    }
}

/// What is at a group's canonical paths is what the pool's slots show: a path where
/// something is belongs to a slot with the same `HEAD`.
pub open spec fn looks_agree(
    group: Option<Seq<char>>,
    looks: Seq<LookView>,
    entries: Seq<SlotEntryView>,
) -> bool {
    forall|n: int|
        0 <= n < looks.len() && (#[trigger] looks[n]).exists ==> exists|k: int|
            0 <= k < entries.len() && (#[trigger] entries[k]).group == group && entries[k].n == n
                && entries[k].head == looks[n].head
}

/// A group below capacity always has an acquirable slot: where fewer than `max_slots`
/// of its slots are held, and whatever is at a canonical path is a slot of the pool, the
/// list of candidates is not empty.
pub proof fn below_capacity_a_slot_is_acquirable(
    group: Option<Seq<char>>,
    looks: Seq<LookView>,
    entries: Seq<SlotEntryView>,
    max_slots: u32,
)
    requires
        looks.len() == max_slots,
        looks_agree(group, looks, entries),
        held_count(entries, group) < max_slots,
    ensures
        canonical_candidates(looks).len() > 0,
{
    let low = canonical_candidates(looks);
    if low.len() == 0 {
        lemma_held_numbers(entries, group);
        let range = vstd::set_lib::set_int_range(0, max_slots as int);
        vstd::set_lib::lemma_int_range(0, max_slots as int);
        assert forall|n: int| range.contains(n) implies held_numbers(entries, group).contains(
            n,
        ) by {
            let fresh = Acquirable { n: n as u32, is_fresh: true };
            let idle = Acquirable { n: n as u32, is_fresh: false };
            lemma_canonical_members(looks, fresh);
            lemma_canonical_members(looks, idle);
            assert(!low.contains(fresh) && !low.contains(idle));
            assert(looks[n].exists);
            let k = choose|k: int|
                0 <= k < entries.len() && (#[trigger] entries[k]).group == group && entries[k].n
                    == n && entries[k].head == looks[n].head;
            assert(holds(entries[k]));
        }
        assert(range.subset_of(held_numbers(entries, group)));
        vstd::set_lib::lemma_len_subset(range, held_numbers(entries, group));
    }
}

} // verus!
