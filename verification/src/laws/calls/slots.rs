//! Laws of the slots as they are called.
use crate::config::PoolConfig;
use crate::error::Error;
use crate::fs_paths;
use crate::laws::slots;
use crate::laws::slots::shows_held;
use crate::slot;
use crate::slot::{Acquirable, DirReply, Look, Seen, SeenView, SlotEntry, SlotEntryView};
use crate::text;
use crate::types::LeaseName;
use vstd::prelude::*;

verus! {

/// A slot's name is made of its group and number, and tells them again.
pub proof fn names_are_made_and_read(
    g: &str,
    n: u32,
    grouped: String,
    plain: String,
    name: &str,
    cfg: &PoolConfig,
    r: Option<(Option<String>, u32)>,
)
    requires
        call_ensures(slot::canonical_id, (Some(g), n), grouped),
        call_ensures(slot::canonical_id, (None, n), plain),
        call_ensures(slot::classify, (name, cfg), r),
    ensures
        grouped@ == g@ + "-"@ + text::decimal(n as nat),
        plain@ == "slot-"@ + text::decimal(n as nat),
        name@ == grouped@ && cfg@.groups.contains(g@) ==> (r matches Some((Some(h), m)) && h@ == g@
            && m == n),
        name@ == plain@ && cfg@.groups.len() == 0 ==> (r matches Some((None, m)) && m == n),
        r matches Some((Some(h), _)) ==> cfg@.groups.contains(h@) && name@.len() > h@.len() + 1
            && name@.take(h@.len() as int + 1) == h@ + "-"@,
        r matches Some((None, _)) ==> cfg@.groups.len() == 0 && name@.len() > 5 && name@.take(5)
            == "slot-"@,
{
    slots::names_tell_group_and_number(cfg@.groups, name@, g@, text::decimal(n as nat));
    crate::text_lemmas::lemma_number_decimal(n as nat);
}

/// The group of an acquire.
pub proof fn a_group_is_resolved(
    cfg: &PoolConfig,
    g: &str,
    asked: Result<(Option<String>, Option<String>), Error>,
    unasked: Result<(Option<String>, Option<String>), Error>,
)
    requires
        call_ensures(slot::resolve_group, (cfg, Some(g)), asked),
        call_ensures(slot::resolve_group, (cfg, None), unasked),
    ensures
        cfg@.groups.contains(g@) ==> (asked matches Ok((Some(h), None)) && h@ == g@),
        !cfg@.groups.contains(g@) ==> (asked matches Err(e) && e.kind is None),
        cfg@.groups.len() > 0 ==> (unasked matches Ok((Some(h), Some(_))) && h@ == cfg@.groups[0]),
        cfg@.groups.len() == 0 ==> (unasked matches Ok((None, None))),
{
    slots::the_asked_group_is_used(cfg@.groups, g@);
}

/// The slots of a pool are the directories in it whose names are slots', in order.
pub proof fn slots_are_found(
    root: &str,
    cfg: &PoolConfig,
    items: &Vec<Seen>,
    r: Vec<SlotEntry>,
    i: int,
    k: int,
)
    requires
        call_ensures(slot::slots_among, (root, cfg, items), r),
    ensures
        0 <= k < r@.len() ==> exists|j: int|
            0 <= j < items@.len() && (#[trigger] items@[j]).is_dir && items@[j].name@ == r@[k].id@
                && r@[k].path@ == fs_paths::path_in(root@, items@[j].name@) && text::opt_text(
                r@[k].head,
            ) == text::opt_text(items@[j].head) && text::opt_text(r@[k].branch) == text::opt_text(
                items@[j].branch,
            ) && !(items@[j].name@.len() > 0 && items@[j].name@[0] == '.'),
        0 <= i < items@.len() && items@[i].is_dir && !(items@[i].name@.len() > 0 && items@[i].name@[0]
            == '.') && slot::slot_of(cfg@.groups, items@[i].name@) is Some ==> exists|j: int|
            0 <= j < r@.len() && (#[trigger] r@[j]).id@ == items@[i].name@,
{
    let seen = slot::seen_views(items@);
    let groups = cfg@.groups;
    let views = slot::entry_views(r@);
    slots::slots_are_the_directories_named_so(root@, groups, seen);
    let is_slot = |s: SeenView|
        s.is_dir && !(s.name.len() > 0 && s.name[0] == '.') && slot::slot_of(groups, s.name) is Some;
    let found = seen.filter(is_slot);
    assert(views.len() == r@.len());
    assert(found.len() == views.len());
    if 0 <= k < r@.len() {
        assert(views[k] == r@[k]@);
        seen.lemma_filter_pred(is_slot, k);
        assert(found.contains(found[k]));
        seen.lemma_filter_contains_rev(is_slot, found[k]);
        let j = choose|j: int| 0 <= j < seen.len() && seen[j] == found[k];
        assert(seen[j] == items@[j]@);
        assert(items@[j].is_dir);
    }
    if 0 <= i < items@.len() && items@[i].is_dir && !(items@[i].name@.len() > 0 && items@[i].name@[0]
        == '.') && slot::slot_of(groups, items@[i].name@) is Some {
        assert(seen[i] == items@[i]@);
        assert(is_slot(seen[i]));
        seen.lemma_filter_contains(is_slot, i);
        let j = choose|j: int| 0 <= j < found.len() && found[j] == seen[i];
        assert(views[j] == r@[j]@);
        assert(r@[j].id@ == items@[i].name@);
    }
}

/// A pool that is not there has no slots, one that cannot be read is an error, and one that
/// can has those that stand in it.
pub proof fn a_pool_is_listed(
    root: &str,
    cfg: &PoolConfig,
    listing: &DirReply,
    r: Result<Vec<SlotEntry>, Error>,
    items: &Vec<Seen>,
    among: Vec<SlotEntry>,
)
    requires
        call_ensures(slot::enumerate, (root, cfg, listing), r),
        call_ensures(slot::slots_among, (root, cfg, items), among),
    ensures
        *listing is Missing ==> (r matches Ok(v) && v@.len() == 0),
        *listing matches DirReply::Failed(why) ==> (r matches Err(e) && e.kind is None && e.message@
            == "read_dir "@ + root@ + ": "@ + why@),
        *listing matches DirReply::Broken(why) ==> (r matches Err(e) && e.kind is None && e.message@
            == why@),
        *listing == DirReply::Items(*items) ==> (r matches Ok(v) && slot::entry_views(v@)
            == slot::entry_views(among@)),
{
    if let Ok(v) = r {
        assert(slot::entry_views(v@).len() == v@.len());
    }
}

/// The held slots of a group are counted, and a `HEAD` tells which they are.
pub proof fn held_slots_are_counted(
    entries: &Vec<SlotEntry>,
    group: Option<&str>,
    n: usize,
    head: &Option<String>,
    held: bool,
)
    requires
        call_ensures(slot::count_held_in_group, (entries, group), n),
        call_ensures(slot::is_held_at, (head,), held),
    ensures
        n == slot::entry_views(entries@).filter(
            |e: SlotEntryView| e.group == text::opt_slice(group) && shows_held(e.head),
        ).len(),
        held <==> shows_held(text::opt_text(*head)),
{
    slots::held_slots_are_counted(slot::entry_views(entries@), text::opt_slice(group));
    slots::the_head_tells_held(text::opt_text(*head));
}

/// A lease is looked up the same way everywhere: the first held slot on its branch.
pub proof fn a_lease_is_found(
    root: &str,
    cfg: &PoolConfig,
    listing: &DirReply,
    entries: &Vec<SlotEntry>,
    name: &str,
    lease: &LeaseName,
    held: Option<SlotEntry>,
    named: Result<Option<SlotEntry>, Error>,
    leased: Result<Option<SlotEntry>, Error>,
    addressed: Option<SlotEntry>,
    i: int,
)
    requires
        call_ensures(slot::holder_of, (entries, name), held),
        call_ensures(slot::find_by_name, (root, cfg, listing, name), named),
        call_ensures(slot::find_by_lease, (root, cfg, listing, lease), leased),
        call_ensures(slot::find_addressed, (entries, name), addressed),
        lease@ == name@,
        slot::enumerated(root@, cfg@.groups, *listing) == Ok::<Seq<SlotEntryView>, Seq<char>>(
            slot::entry_views(entries@),
        ),
        0 <= i < entries@.len(),
    ensures
        held matches Some(e) ==> shows_held(text::opt_text(e.head)) && text::opt_text(e.branch)
            == Some(name@),
        shows_held(text::opt_text(entries@[i].head)) && text::opt_text(entries@[i].branch) == Some(
            name@,
        ) ==> held is Some && addressed is Some,
        held is Some ==> addressed is Some && addressed->0@ == held->0@,
        addressed matches Some(e) ==> shows_held(text::opt_text(e.head)) && (text::opt_text(e.branch)
            == Some(name@) || e.id@ == name@),
        shows_held(text::opt_text(entries@[i].head)) && entries@[i].id@ == name@
            ==> addressed is Some,
        named matches Ok(x) && (x is Some <==> held is Some) && (x is Some ==> x->0@ == held->0@),
        leased matches Ok(x) && (x is Some <==> held is Some) && (x is Some ==> x->0@ == held->0@),
{
    let views = slot::entry_views(entries@);
    assert(views[i] == entries@[i]@);
    slots::a_lease_is_looked_up(views, name@, i);
    slots::a_lease_comes_before_an_id(views, name@, i);
}

/// The canonical paths of a group, one for each number below the maximum.
pub proof fn canonical_paths_are(root: &str, g: &str, max_slots: u32, r: Vec<String>, n: int)
    requires
        call_ensures(slot::canonical_paths, (root, Some(g), max_slots), r),
    ensures
        r@.len() == max_slots,
        0 <= n < max_slots ==> r@[n]@ == fs_paths::path_in(
            root@,
            g@ + "-"@ + text::decimal(n as nat),
        ),
{
    assert(text::texts(r@).len() == r@.len());
    if 0 <= n < max_slots {
        assert(text::texts(r@)[n] == r@[n]@);
        slots::canonical_paths_go_by_number(root@, g@, max_slots as nat, n);
    }
}

/// What may be acquired: in the order of the numbers, everything that is free and nothing that
/// is held.
pub proof fn free_slots_may_be_acquired(
    group: Option<&str>,
    max_slots: u32,
    looks: &Vec<Look>,
    entries: &Vec<SlotEntry>,
    r: Vec<Acquirable>,
    n: u32,
    i: int,
    j: int,
)
    requires
        looks@.len() == max_slots,
        call_ensures(slot::acquirable, (group, max_slots, looks, entries), r),
    ensures
        0 <= i < j < r@.len() ==> r@[i].n <= r@[j].n,
        n < max_slots ==> (r@.contains(Acquirable { n, is_fresh: true })
            <==> !looks@[n as int].exists),
        n < max_slots ==> (r@.contains(Acquirable { n, is_fresh: false })
            <==> looks@[n as int].exists && !shows_held(text::opt_text(looks@[n as int].head))),
        n >= max_slots ==> !r@.contains(Acquirable { n, is_fresh: true }),
        n >= max_slots ==> (r@.contains(Acquirable { n, is_fresh: false }) <==> exists|k: int|
            0 <= k < entries@.len() && text::opt_text((#[trigger] entries@[k]).group)
                == text::opt_slice(group) && entries@[k].n == n && !shows_held(
                text::opt_text(entries@[k].head),
            )),
{
    let views = slot::look_views(looks@);
    let all = slot::entry_views(entries@);
    assert(views.len() == looks@.len());
    assert(all.len() == entries@.len());
    assert forall|k: int| 0 <= k < all.len() implies (#[trigger] all[k]).n <= u32::MAX by {
        assert(all[k] == entries@[k]@);
    }
    slots::free_slots_may_be_taken(text::opt_slice(group), views, all, max_slots, r@, n);
    if n < max_slots {
        assert(views[n as int] == looks@[n as int]@);
    } else {
        if exists|k: int|
            0 <= k < entries@.len() && text::opt_text((#[trigger] entries@[k]).group)
                == text::opt_slice(group) && entries@[k].n == n && !shows_held(
                text::opt_text(entries@[k].head),
            ) {
            let k = choose|k: int|
                0 <= k < entries@.len() && text::opt_text((#[trigger] entries@[k]).group)
                    == text::opt_slice(group) && entries@[k].n == n && !shows_held(
                    text::opt_text(entries@[k].head),
                );
            assert(all[k] == entries@[k]@);
        }
        if exists|k: int|
            0 <= k < all.len() && (#[trigger] all[k]).group == text::opt_slice(group) && all[k].n
                == n && !shows_held(all[k].head) {
            let k = choose|k: int|
                0 <= k < all.len() && (#[trigger] all[k]).group == text::opt_slice(group)
                    && all[k].n == n && !shows_held(all[k].head);
            assert(all[k] == entries@[k]@);
            assert(entries@[k].n == n);
        }
    }
}

} // verus!
