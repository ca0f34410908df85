//! Laws of the slots.
use crate::fs_paths;
use crate::git;
use crate::laws::lists;
use crate::slot;
use crate::slot::{Acquirable, DirReply, LookView, SeenView, SlotEntryView};
use crate::text;
use crate::text_lemmas;
use vstd::prelude::*;

verus! {

/// What a `HEAD` shows of a slot that is held: a symbolic ref, or nothing that can be read.
pub open spec fn shows_held(head: Option<Seq<char>>) -> bool {
    match head {
        None => true,
        Some(t) => t.len() == 0 || (t.len() >= 4 && t[0] == 'r' && t[1] == 'e' && t[2] == 'f' && t[3]
            == ':'),
    }
}

/// The `HEAD` of a slot tells whether it is held.
pub proof fn the_head_tells_held(head: Option<Seq<char>>)
    ensures
        git::head_holds(head) <==> shows_held(head),
{
    if let Some(t) = head {
        reveal_strlit("ref:");
        if "ref:"@.is_prefix_of(t) {
            assert(t.subrange(0, 4) =~= "ref:"@);
            assert(t.subrange(0, 4)[0] == t[0] && t.subrange(0, 4)[1] == t[1]);
            assert(t.subrange(0, 4)[2] == t[2] && t.subrange(0, 4)[3] == t[3]);
        }
        if t.len() >= 4 && t[0] == 'r' && t[1] == 'e' && t[2] == 'f' && t[3] == ':' {
            assert("ref:"@ =~= t.subrange(0, 4));
        }
    }
}

/// A slot's name is its group's, or `slot` where there are no groups, a dash and its number.
pub proof fn slot_names_are(g: Seq<char>, n: nat)
    ensures
        slot::slot_name(Some(g), n) == g + "-"@ + text::decimal(n),
        slot::slot_name(None, n) == "slot-"@ + text::decimal(n),
{
}

/// A name is a slot's exactly where it is a group of the pool's, a dash and a number; its
/// group and number are those.
pub proof fn names_tell_group_and_number(
    groups: Seq<Seq<char>>,
    name: Seq<char>,
    g: Seq<char>,
    digits: Seq<char>,
)
    ensures
        slot::slot_of(groups, name) matches Some((group, n)) ==> match group {
            Some(h) => groups.contains(h) && name.len() > h.len() + 1 && name.take(
                h.len() as int + 1,
            ) == h + "-"@ && text::number(name.skip(h.len() as int + 1)) == Ok::<
                nat,
                text::IntError,
            >(n),
            None => groups.len() == 0 && name.len() > 5 && name.take(5) == "slot-"@ && text::number(
                name.skip(5),
            ) == Ok::<nat, text::IntError>(n),
        },
        groups.contains(g) ==> (text::number(digits) matches Ok(n) ==> slot::slot_of(
            groups,
            g + "-"@ + digits,
        ) == Some((Some(g), n))),
        groups.len() == 0 ==> (text::number(digits) matches Ok(n) ==> slot::slot_of(
            groups,
            "slot-"@ + digits,
        ) == Some((None::<Seq<char>>, n))),
{
    reveal_strlit("-");
    reveal_strlit("slot-");
    if groups.len() > 0 {
        lemma_grouped_sound(groups, name);
    } else if slot::slot_of(groups, name) is Some {
        text_lemmas::lemma_number_chars(name.skip(5));
        assert(name.take(5) =~= "slot-"@);
    }
    if text::number(digits) is Ok {
        if groups.contains(g) {
            lemma_grouped_complete(groups, g, digits);
        }
        let plain = "slot-"@ + digits;
        assert("slot-"@.is_prefix_of(plain));
        assert(plain.skip(5) =~= digits);
    }
}

proof fn lemma_grouped_sound(groups: Seq<Seq<char>>, name: Seq<char>)
    ensures
        slot::grouped_slot(groups, name) matches Some((h, n)) ==> groups.contains(h) && name.len()
            > h.len() + 1 && name.take(h.len() as int + 1) == h + "-"@ && text::number(
            name.skip(h.len() as int + 1),
        ) == Ok::<nat, text::IntError>(n),
    decreases groups.len(),
{
    if groups.len() > 0 {
        let p = slot::id_prefix(Some(groups[0]));
        reveal_strlit("-");
        if slot::number_after(name, p) is Some {
            assert(groups.contains(groups[0]));
            assert(name.take(p.len() as int) =~= p);
            text_lemmas::lemma_number_chars(name.skip(p.len() as int));
        } else {
            let rest = groups.drop_first();
            lemma_grouped_sound(rest, name);
            if let Some((h, _)) = slot::grouped_slot(rest, name) {
                let i = choose|i: int| 0 <= i < rest.len() && rest[i] == h;
                assert(groups[i + 1] == h);
            }
        }
    }
}

proof fn lemma_grouped_complete(groups: Seq<Seq<char>>, g: Seq<char>, digits: Seq<char>)
    requires
        groups.contains(g),
        text::number(digits) is Ok,
    ensures
        slot::grouped_slot(groups, g + "-"@ + digits) == Some((g, text::number(digits)->Ok_0)),
    decreases groups.len(),
{
    let name = g + "-"@ + digits;
    let p = slot::id_prefix(Some(g));
    assert(p.is_prefix_of(name));
    assert(name.skip(p.len() as int) =~= digits);
    match slot::number_after(name, slot::id_prefix(Some(groups[0]))) {
        Some(_) => {
            slot::lemma_one_group(name, groups[0], g);
        },
        None => {
            let i = choose|i: int| 0 <= i < groups.len() && groups[i] == g;
            assert(i != 0);
            assert(groups.drop_first()[i - 1] == g);
            lemma_grouped_complete(groups.drop_first(), g, digits);
        },
    }
}

/// The group of an acquire is the one that was asked for, where the pool has it; the pool's
/// first where none was asked for; none in a pool without groups. Any other is refused.
pub proof fn the_asked_group_is_used(groups: Seq<Seq<char>>, g: Seq<char>)
    ensures
        groups.contains(g) ==> slot::group_chosen(groups, Some(g)) == Ok::<
            Option<Seq<char>>,
            Seq<char>,
        >(Some(g)),
        !groups.contains(g) ==> slot::group_chosen(groups, Some(g)) is Err,
        groups.len() > 0 ==> slot::group_chosen(groups, None) == Ok::<
            Option<Seq<char>>,
            Seq<char>,
        >(Some(groups[0])),
        groups.len() == 0 ==> slot::group_chosen(groups, None) == Ok::<
            Option<Seq<char>>,
            Seq<char>,
        >(None),
        groups.len() > 0 && !groups.contains(g) ==> slot::group_chosen(groups, Some(g)) == Err::<
            Option<Seq<char>>,
            Seq<char>,
        >("unknown group '"@ + g + "'; pool's groups: "@ + text::joined(groups, ", "@)),
        groups.len() == 0 ==> slot::group_chosen(groups, Some(g)) == Err::<
            Option<Seq<char>>,
            Seq<char>,
        >("pool has no groups configured; --group is not allowed"@),
        slot::group_note(groups, Some(g)) is None,
        slot::group_note(groups, None) is Some <==> groups.len() > 0,
        groups.len() > 0 ==> slot::group_note(groups, None) == Some(
            "--group not given; defaulting to '"@ + groups[0] + "' (first of: "@ + text::joined(
                groups,
                ", "@,
            ) + ")"@,
        ),
{
    if groups.contains(g) {
        let i = choose|i: int| 0 <= i < groups.len() && groups[i] == g;
        assert(groups.len() > 0);
    }
}

/// The slots of a pool are the directories in it whose names are slots', in the order of the
/// listing: each with its name, its path in the pool, the group and number of its name, and
/// the `HEAD` and branch that it shows. Hidden directories and files are none.
pub proof fn slots_are_the_directories_named_so(
    root: Seq<char>,
    groups: Seq<Seq<char>>,
    seen: Seq<SeenView>,
)
    ensures
        slot::entries_seen(root, groups, seen) == seen.filter(
            |s: SeenView|
                s.is_dir && !(s.name.len() > 0 && s.name[0] == '.') && slot::slot_of(
                    groups,
                    s.name,
                ) is Some,
        ).map_values(
            |s: SeenView|
                SlotEntryView {
                    id: s.name,
                    path: fs_paths::path_in(root, s.name),
                    group: (slot::slot_of(groups, s.name)->0).0,
                    n: (slot::slot_of(groups, s.name)->0).1,
                    head: s.head,
                    branch: s.branch,
                },
        ),
    decreases seen.len(),
{
    let is_slot = |s: SeenView|
        s.is_dir && !(s.name.len() > 0 && s.name[0] == '.') && slot::slot_of(groups, s.name) is Some;
    let entry = |s: SeenView|
        SlotEntryView {
            id: s.name,
            path: fs_paths::path_in(root, s.name),
            group: (slot::slot_of(groups, s.name)->0).0,
            n: (slot::slot_of(groups, s.name)->0).1,
            head: s.head,
            branch: s.branch,
        };
    if seen.len() == 0 {
        lists::lemma_filter_none(is_slot);
        assert(seen =~= Seq::empty());
        assert(slot::entries_seen(root, groups, seen) =~= seen.filter(is_slot).map_values(entry));
    } else {
        slots_are_the_directories_named_so(root, groups, seen.drop_last());
        lists::lemma_filter_last(seen, is_slot);
        let last = seen.last();
        reveal_strlit(".");
        if last.name.len() > 0 && last.name[0] == '.' {
            assert("."@ =~= last.name.subrange(0, 1));
            assert("."@.is_prefix_of(last.name));
        } else if "."@.is_prefix_of(last.name) {
            assert(last.name.subrange(0, 1)[0] == last.name[0]);
        }
        assert(slot::entries_seen(root, groups, seen) =~= seen.filter(is_slot).map_values(entry));
    }
}

/// A pool directory that is not there has no slots; one that cannot be read is an error.
pub proof fn unreadable_pools_are_told(root: Seq<char>, groups: Seq<Seq<char>>, why: String)
    ensures
        slot::enumerated(root, groups, DirReply::Missing) == Ok::<Seq<SlotEntryView>, Seq<char>>(
            Seq::empty(),
        ),
        slot::enumerated(root, groups, DirReply::Failed(why)) == Err::<
            Seq<SlotEntryView>,
            Seq<char>,
        >("read_dir "@ + root + ": "@ + why@),
        slot::enumerated(root, groups, DirReply::Broken(why)) == Err::<
            Seq<SlotEntryView>,
            Seq<char>,
        >(why@),
{
    assert(slot::entries_seen(root, groups, Seq::empty()) =~= Seq::empty());
}

/// The held slots of a group are counted each once.
pub proof fn held_slots_are_counted(entries: Seq<SlotEntryView>, group: Option<Seq<char>>)
    ensures
        slot::held_count(entries, group) == entries.filter(
            |e: SlotEntryView| e.group == group && shows_held(e.head),
        ).len(),
    decreases entries.len(),
{
    let counted = |e: SlotEntryView| e.group == group && shows_held(e.head);
    if entries.len() == 0 {
        lists::lemma_filter_none(counted);
        assert(entries =~= Seq::empty());
    } else {
        held_slots_are_counted(entries.drop_last(), group);
        lists::lemma_filter_last(entries, counted);
        the_head_tells_held(entries.last().head);
    }
}

/// Looking a lease up gives the first slot that is held and on that branch; nothing exactly
/// where there is none.
pub proof fn a_lease_is_looked_up(entries: Seq<SlotEntryView>, name: Seq<char>, i: int)
    requires
        0 <= i < entries.len(),
    ensures
        shows_held(entries[i].head) && entries[i].branch == Some(name) && (forall|j: int|
            0 <= j < i ==> !(shows_held((#[trigger] entries[j]).head) && entries[j].branch == Some(
                name,
            ))) ==> slot::lease_holder(entries, name) == Some(entries[i]),
        slot::lease_holder(entries, name) is None ==> !(shows_held(entries[i].head)
            && entries[i].branch == Some(name)),
        slot::lease_holder(entries, name) matches Some(e) ==> entries.contains(e) && shows_held(
            e.head,
        ) && e.branch == Some(name),
    decreases entries.len(),
{
    the_head_tells_held(entries[0].head);
    slot::lease_lookup_is_complete(entries, name);
    the_head_tells_held(entries[i].head);
    if let Some(e) = slot::lease_holder(entries, name) {
        the_head_tells_held(e.head);
    }
    if i > 0 && !slot::leased(entries[0], name) {
        let rest = entries.drop_first();
        a_lease_is_looked_up(rest, name, i - 1);
        if forall|j: int|
            0 <= j < i ==> !(shows_held((#[trigger] entries[j]).head) && entries[j].branch == Some(
                name,
            )) {
            assert forall|j: int| 0 <= j < i - 1 implies !(shows_held((#[trigger] rest[j]).head)
                && rest[j].branch == Some(name)) by {
                assert(rest[j] == entries[j + 1]);
            }
        }
    }
}

/// A name addresses the slot that holds it as a lease; else the held slot with that id.
pub proof fn a_lease_comes_before_an_id(entries: Seq<SlotEntryView>, name: Seq<char>, i: int)
    requires
        0 <= i < entries.len(),
    ensures
        slot::lease_holder(entries, name) is Some ==> slot::addressed(entries, name)
            == slot::lease_holder(entries, name),
        slot::addressed(entries, name) matches Some(e) ==> entries.contains(e) && shows_held(e.head)
            && (e.branch == Some(name) || e.id == name),
        slot::addressed(entries, name) is None ==> !(shows_held(entries[i].head) && (
        entries[i].branch == Some(name) || entries[i].id == name)),
{
    a_lease_is_looked_up(entries, name, i);
    lemma_held_slot(entries, name);
    the_head_tells_held(entries[i].head);
}

proof fn lemma_held_slot(entries: Seq<SlotEntryView>, id: Seq<char>)
    ensures
        slot::held_slot(entries, id) matches Some(e) ==> entries.contains(e) && shows_held(e.head)
            && e.id == id,
        slot::held_slot(entries, id) is None ==> forall|i: int|
            0 <= i < entries.len() ==> !(git::head_holds((#[trigger] entries[i]).head)
                && entries[i].id == id),
    decreases entries.len(),
{
    if entries.len() > 0 {
        let rest = entries.drop_first();
        lemma_held_slot(rest, id);
        the_head_tells_held(entries[0].head);
        assert(entries.contains(entries[0]));
        if let Some(e) = slot::held_slot(rest, id) {
            let j = choose|j: int| 0 <= j < rest.len() && rest[j] == e;
            assert(entries[j + 1] == e);
        } else {
            assert forall|i: int| 0 <= i < entries.len() && !(entries[0].id == id && git::head_holds(
                entries[0].head,
            )) implies !(git::head_holds((#[trigger] entries[i]).head) && entries[i].id == id) by {
                if i > 0 {
                    assert(rest[i - 1] == entries[i]);
                }
            }
        }
    }
}

/// The paths that an acquire looks at: one for each number below the maximum, in order.
pub proof fn canonical_paths_go_by_number(
    root: Seq<char>,
    g: Seq<char>,
    max_slots: nat,
    n: int,
)
    requires
        0 <= n < max_slots,
    ensures
        slot::canonical_paths_of(root, Some(g), max_slots).len() == max_slots,
        slot::canonical_paths_of(root, Some(g), max_slots)[n] == fs_paths::path_in(
            root,
            g + "-"@ + text::decimal(n as nat),
        ),
        slot::canonical_paths_of(root, None, max_slots).len() == max_slots,
        slot::canonical_paths_of(root, None, max_slots)[n] == fs_paths::path_in(
            root,
            "slot-"@ + text::decimal(n as nat),
        ),
{
}

/// What an acquire may take: each number below the maximum where nothing is, to be made, and
/// where an idle slot is, to be recycled; and the idle slots of the group past the maximum. A
/// held slot is not among them.
pub proof fn free_slots_may_be_taken(
    group: Option<Seq<char>>,
    looks: Seq<LookView>,
    entries: Seq<SlotEntryView>,
    max_slots: u32,
    r: Seq<Acquirable>,
    n: u32,
)
    requires
        looks.len() == max_slots,
        forall|i: int| 0 <= i < entries.len() ==> (#[trigger] entries[i]).n <= u32::MAX,
        r.to_multiset() == slot::canonical_candidates(looks).to_multiset().add(
            slot::surplus(entries, group, max_slots).to_multiset(),
        ),
    ensures
        n < max_slots ==> (r.contains(Acquirable { n, is_fresh: true })
            <==> !looks[n as int].exists),
        n < max_slots ==> (r.contains(Acquirable { n, is_fresh: false })
            <==> looks[n as int].exists && !shows_held(looks[n as int].head)),
        n >= max_slots ==> !r.contains(Acquirable { n, is_fresh: true }),
        n >= max_slots ==> (r.contains(Acquirable { n, is_fresh: false }) <==> exists|i: int|
            0 <= i < entries.len() && (#[trigger] entries[i]).group == group && entries[i].n == n
                && !shows_held(entries[i].head)),
{
    let fresh = Acquirable { n, is_fresh: true };
    let idle = Acquirable { n, is_fresh: false };
    slot::acquirable_members(group, looks, entries, max_slots, r, fresh);
    slot::acquirable_members(group, looks, entries, max_slots, r, idle);
    if n < max_slots {
        the_head_tells_held(looks[n as int].head);
    }
    assert forall|i: int| 0 <= i < entries.len() implies git::head_holds(
        (#[trigger] entries[i]).head,
    ) == shows_held(entries[i].head) by {
        the_head_tells_held(entries[i].head);
    }
    if n >= max_slots {
        if exists|i: int|
            0 <= i < entries.len() && (#[trigger] entries[i]).group == group && entries[i].n == n
                && !shows_held(entries[i].head) {
            let i = choose|i: int|
                0 <= i < entries.len() && (#[trigger] entries[i]).group == group && entries[i].n
                    == n && !shows_held(entries[i].head);
            assert(!slot::holds(entries[i]));
            assert(slot::is_acquirable(group, looks, entries, idle));
        }
        if slot::is_acquirable(group, looks, entries, idle) {
            let i = choose|i: int|
                0 <= i < entries.len() && (#[trigger] entries[i]).group == group && entries[i].n
                    == idle.n && !slot::holds(entries[i]);
            assert(!shows_held(entries[i].head));
        }
    }
}

} // verus!
