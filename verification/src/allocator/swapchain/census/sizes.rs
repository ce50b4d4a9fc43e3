//! The slots that have a buffer, by the size of the buffer.

use crate::allocator::format::Size;
use crate::allocator::swapchain::census::listings;
use crate::allocator::swapchain::live;
use crate::allocator::swapchain::live::{LiveSlot, LiveSlotModel, LiveSlots};
use crate::text;
use vstd::prelude::*;

verus! {

/// How a report names the DMA buffer that a slot was exported as.
pub open spec fn id_text(slot: LiveSlotModel) -> Seq<char> {
    match slot.dmabuf_id {
        Some(id) => text::decimal(id as nat),
        None => "?"@,
    }
}

/// The size of a slot's buffer.
pub open spec fn size_of(slot: LiveSlotModel) -> Size {
    Size { w: slot.width, h: slot.height }
}

/// The names for those of `listing` whose buffers have this size.
pub open spec fn ids_of(listing: Seq<LiveSlotModel>, size: Size) -> Seq<Seq<char>>
    decreases listing.len(),
{
    if listing.len() == 0 {
        Seq::empty()
    } else {
        let before = ids_of(listing.drop_last(), size);
        if size_of(listing.last()) == size {
            before.push(id_text(listing.last()))
        } else {
            before
        }
    }
}

/// `a` comes before `b`: it is narrower, or as wide and lower.
pub open spec fn smaller(a: Size, b: Size) -> bool {
    a.w < b.w || (a.w == b.w && a.h < b.h)
}

/// Nothing in `texts` stands behind what it comes before.
pub open spec fn in_order(texts: Seq<Seq<char>>) -> bool {
    forall|i: int, j: int|
        0 <= i < j < texts.len() ==> !text::precedes(#[trigger] texts[j], #[trigger] texts[i])
}

/// The slots whose buffers have one size.
#[verifier::ext_equal]
pub struct SizeGroup {
    /// The size.
    pub size: Size,
    /// The names of the slots.
    pub ids: Seq<Seq<char>>,
}

/// `groups` hold the slots of `listing` by size, the smallest first, and those of
/// each size in the order of their names.
pub open spec fn grouped(listing: Seq<LiveSlotModel>, groups: Seq<SizeGroup>) -> bool {
    &&& forall|i: int, j: int|
        0 <= i < j < groups.len() ==> smaller(
            (#[trigger] groups[i]).size,
            (#[trigger] groups[j]).size,
        )
    &&& forall|i: int|
        0 <= i < groups.len() ==> {
            let group = #[trigger] groups[i];
            &&& group.ids.len() > 0
            &&& in_order(group.ids)
            &&& group.ids.to_multiset() == ids_of(listing, group.size).to_multiset()
        }
    &&& forall|k: int|
        0 <= k < listing.len() ==> exists|i: int|
            0 <= i < groups.len() && (#[trigger] groups[i]).size == size_of(
                #[trigger] listing[k],
            )
}

/// How a report shows a group.
pub open spec fn group_text(group: SizeGroup) -> Seq<char> {
    text::signed_decimal(group.size.w as int) + "x"@ + text::signed_decimal(group.size.h as int)
        + "×"@ + text::decimal(group.ids.len()) + " ["@ + text::join(group.ids, ","@) + "]"@
}

/// The report on `total` slots in these groups.
pub open spec fn size_report(total: nat, groups: Seq<SizeGroup>) -> Seq<char> {
    "live_slots total="@ + text::decimal(total) + " {"@ + text::join(
        groups.map_values(|group: SizeGroup| group_text(group)),
        "; "@,
    ) + "}"@
}

/// `report` is the report on `slots` by size.
pub open spec fn is_size_report(
    slots: Map<usize, LiveSlotModel>,
    report: Seq<char>,
) -> bool {
    exists|listing: Seq<LiveSlotModel>, groups: Seq<SizeGroup>|
        {
            &&& #[trigger] live::listed_by(slots, listing)
            &&& #[trigger] grouped(listing, groups)
            &&& report == size_report(listing.len(), groups)
        }
}

/// The slots whose buffers have one size.
struct Group {
    size: Size,
    ids: Vec<Vec<char>>,
}

/// The characters of each of `texts`.
spec fn views(texts: Seq<Vec<char>>) -> Seq<Seq<char>> {
    texts.map_values(|text: Vec<char>| text@)
}

impl View for Group {
    type V = SizeGroup;

    closed spec fn view(&self) -> SizeGroup {
        SizeGroup { size: self.size, ids: views(self.ids@) }
    }
}

/// What each of `groups` stands for.
spec fn group_views(groups: Seq<Group>) -> Seq<SizeGroup> {
    groups.map_values(|group: Group| group@)
}

/// A size that none of `listing` has, has no names.
proof fn lemma_no_ids(listing: Seq<LiveSlotModel>, size: Size)
    requires
        forall|k: int| 0 <= k < listing.len() ==> size_of(#[trigger] listing[k]) != size,
    ensures
        ids_of(listing, size).len() == 0,
    decreases listing.len(),
{
    if listing.len() > 0 {
        assert(size_of(listing[listing.len() - 1]) != size);
        assert forall|k: int| 0 <= k < listing.drop_last().len() implies size_of(
            #[trigger] listing.drop_last()[k],
        ) != size by {
            assert(listing.drop_last()[k] == listing[k]);
        }
        lemma_no_ids(listing.drop_last(), size);
    }
}

/// Put `id` where it belongs among `ids`.
fn insert_in_order(ids: &mut Vec<Vec<char>>, id: Vec<char>)
    requires
        in_order(views(old(ids)@)),
    ensures
        in_order(views(final(ids)@)),
        final(ids)@.len() == old(ids)@.len() + 1,
        views(final(ids)@).to_multiset() == views(old(ids)@).to_multiset().insert(id@),
{
    let ghost before = views(ids@);
    let mut at: usize = 0;
    while at < ids.len() && !text::comes_before(id.as_slice(), ids[at].as_slice())
        invariant
            at <= ids@.len(),
            before == views(ids@),
            forall|i: int| 0 <= i < at ==> !text::precedes(id@, #[trigger] before[i]),
        decreases ids@.len() - at,
    {
        at = at + 1;
    }
    ids.insert(at, id);
    proof {
        let after = views(ids@);
        assert(after =~= before.insert(at as int, id@));
        listings::lemma_insert_to_multiset(before, at as int, id@);
        assert forall|i: int, j: int| 0 <= i < j < after.len() implies !text::precedes(
            #[trigger] after[j],
            #[trigger] after[i],
        ) by {
            if i == at {
                let k = j - 1;
                assert(after[j] == before[k]);
                assert(text::precedes(id@, before[at as int]));
                if text::precedes(before[k], id@) {
                    text::lemma_precedes_is_transitive(before[k], id@, before[at as int]);
                    text::lemma_precedes_is_total(before[k], before[k]);
                }
            }
        }
    }
}

/// A group that grows by the name of one more slot of its size.
proof fn lemma_group_grows(
    listing: Seq<LiveSlotModel>,
    slot: LiveSlotModel,
    before: Seq<SizeGroup>,
    after: Seq<SizeGroup>,
    at: int,
)
    requires
        grouped(listing, before),
        0 <= at < before.len(),
        before[at].size == size_of(slot),
        after.len() == before.len(),
        forall|i: int| 0 <= i < before.len() && i != at ==> #[trigger] after[i] == before[i],
        after[at].size == before[at].size,
        after[at].ids.len() > 0,
        in_order(after[at].ids),
        after[at].ids.to_multiset() == before[at].ids.to_multiset().insert(id_text(slot)),
    ensures
        grouped(listing.push(slot), after),
{
    let grown = listing.push(slot);
    assert(grown.drop_last() =~= listing);
    assert forall|i: int, j: int| 0 <= i < j < after.len() implies smaller(
        (#[trigger] after[i]).size,
        (#[trigger] after[j]).size,
    ) by {
        assert(smaller(before[i].size, before[j].size));
    }
    assert forall|i: int| 0 <= i < after.len() implies {
        let group = #[trigger] after[i];
        &&& group.ids.len() > 0
        &&& in_order(group.ids)
        &&& group.ids.to_multiset() == ids_of(grown, group.size).to_multiset()
    } by {
        assert(before[i].ids.to_multiset() == ids_of(listing, before[i].size).to_multiset());
        if i == at {
            ids_of(listing, before[i].size).to_multiset_ensures();
        } else if i < at {
            assert(smaller(before[i].size, before[at].size));
        } else {
            assert(smaller(before[at].size, before[i].size));
        }
    }
    assert forall|k: int| 0 <= k < grown.len() implies exists|i: int|
        0 <= i < after.len() && (#[trigger] after[i]).size == size_of(#[trigger] grown[k]) by {
        if k < listing.len() {
            assert(grown[k] == listing[k]);
            let i = choose|i: int|
                0 <= i < before.len() && (#[trigger] before[i]).size == size_of(listing[k]);
            assert(after[i].size == before[i].size);
        } else {
            assert(after[at].size == size_of(slot));
        }
    }
}

/// A new group for the first slot of its size.
proof fn lemma_group_appears(
    listing: Seq<LiveSlotModel>,
    slot: LiveSlotModel,
    before: Seq<SizeGroup>,
    at: int,
)
    requires
        grouped(listing, before),
        0 <= at <= before.len(),
        forall|i: int| 0 <= i < at ==> smaller((#[trigger] before[i]).size, size_of(slot)),
        forall|i: int|
            at <= i < before.len() ==> smaller(size_of(slot), (#[trigger] before[i]).size),
    ensures
        grouped(
            listing.push(slot),
            before.insert(at, SizeGroup { size: size_of(slot), ids: seq![id_text(slot)] }),
        ),
{
    let grown = listing.push(slot);
    let new = SizeGroup { size: size_of(slot), ids: seq![id_text(slot)] };
    let after = before.insert(at, new);
    assert(grown.drop_last() =~= listing);
    assert forall|k: int| 0 <= k < listing.len() implies size_of(#[trigger] listing[k]) != size_of(
        slot,
    ) by {
        let i = choose|i: int|
            0 <= i < before.len() && (#[trigger] before[i]).size == size_of(listing[k]);
        assert(before[i].size != size_of(slot));
    }
    lemma_no_ids(listing, size_of(slot));
    assert(ids_of(grown, size_of(slot)) =~= new.ids);
    assert forall|i: int| 0 <= i < after.len() implies {
        let group = #[trigger] after[i];
        &&& group.ids.len() > 0
        &&& in_order(group.ids)
        &&& group.ids.to_multiset() == ids_of(grown, group.size).to_multiset()
    } by {
        if i < at {
            assert(after[i] == before[i]);
        } else if i > at {
            assert(after[i] == before[i - 1]);
        }
    }
    assert forall|i: int, j: int| 0 <= i < j < after.len() implies smaller(
        (#[trigger] after[i]).size,
        (#[trigger] after[j]).size,
    ) by {
        let a = if i < at {
            i
        } else {
            i - 1
        };
        let b = if j < at {
            j
        } else {
            j - 1
        };
        if i == at {
            assert(after[j] == before[b]);
        } else if j == at {
            assert(after[i] == before[a]);
        } else {
            assert(after[i] == before[a] && after[j] == before[b]);
            assert(smaller(before[a].size, before[b].size));
        }
    }
    assert forall|k: int| 0 <= k < grown.len() implies exists|i: int|
        0 <= i < after.len() && (#[trigger] after[i]).size == size_of(#[trigger] grown[k]) by {
        if k < listing.len() {
            assert(grown[k] == listing[k]);
            let i = choose|i: int|
                0 <= i < before.len() && (#[trigger] before[i]).size == size_of(listing[k]);
            if i < at {
                assert(after[i] == before[i]);
            } else {
                assert(after[i + 1] == before[i]);
            }
        } else {
            assert(after[at] == new);
        }
    }
}

/// Put the name `id` of a slot with a buffer of this size into its group.
fn add_to_group(
    groups: &mut Vec<Group>,
    size: Size,
    id: Vec<char>,
    Ghost(listing): Ghost<Seq<LiveSlotModel>>,
    Ghost(slot): Ghost<LiveSlotModel>,
)
    requires
        grouped(listing, group_views(old(groups)@)),
        size_of(slot) == size,
        id_text(slot) == id@,
    ensures
        grouped(listing.push(slot), group_views(final(groups)@)),
{
    let ghost before = group_views(groups@);
    let mut at: usize = 0;
    while at < groups.len() && (groups[at].size.w < size.w || (groups[at].size.w == size.w
        && groups[at].size.h < size.h))
        invariant
            at <= groups@.len(),
            groups@ == old(groups)@,
            before == group_views(groups@),
            forall|i: int| 0 <= i < at ==> smaller((#[trigger] before[i]).size, size),
        decreases groups@.len() - at,
    {
        assert(before[at as int].size == groups@[at as int].size);
        at = at + 1;
    }
    if at < groups.len() && groups[at].size.w == size.w && groups[at].size.h == size.h {
        assert(before[at as int] == groups@[at as int]@);
        insert_in_order(&mut groups[at].ids, id);
        proof {
            let after = group_views(groups@);
            lemma_group_grows(listing, slot, before, after, at as int);
        }
    } else {
        let mut ids: Vec<Vec<char>> = Vec::new();
        ids.push(id);
        groups.insert(at, Group { size, ids });
        proof {
            let new = SizeGroup { size, ids: seq![id@] };
            assert(views(ids@) =~= new.ids);
            assert(group_views(groups@) =~= before.insert(at as int, new));
            assert forall|i: int| at <= i < before.len() implies smaller(
                size,
                (#[trigger] before[i]).size,
            ) by {
                assert(before[at as int].size == old(groups)@[at as int].size);
                if i > at {
                    assert(smaller(before[at as int].size, before[i].size));
                }
            }
            lemma_group_appears(listing, slot, before, at as int);
        }
    }
}

/// How a report names the DMA buffer that a slot was exported as.
fn id_chars(slot: &LiveSlot) -> (id: Vec<char>)
    ensures
        id@ == id_text(slot@),
{
    let mut id: Vec<char> = Vec::new();
    match slot.dmabuf_id {
        Some(number) => {
            text::push_decimal(&mut id, number);
        },
        None => {
            text::push_text(&mut id, "?");
        },
    }
    id
}

/// How a report shows a group.
fn group_chars(group: &Group) -> (shown: Vec<char>)
    ensures
        shown@ == group_text(group@),
{
    let mut shown: Vec<char> = Vec::new();
    text::push_signed_decimal(&mut shown, group.size.w);
    text::push_text(&mut shown, "x");
    text::push_signed_decimal(&mut shown, group.size.h);
    text::push_text(&mut shown, "×");
    text::push_decimal(&mut shown, group.ids.len() as u64);
    text::push_text(&mut shown, " [");
    let ids = text::joined(&group.ids, ",");
    text::push_chars(&mut shown, ids.as_slice());
    text::push_text(&mut shown, "]");
    shown
}

/// The slots that have a buffer by the size of the buffer, as one line.
///
/// `live` is `None` where the slots cannot be read. More slots of a size than the
/// swapchains can have names buffers that were left behind.
pub fn debug_live_slots(live: Option<&LiveSlots>) -> (report: String)
    requires
        live matches Some(live) ==> live@.wf(),
    ensures
        match live {
            None => report@ == "live_slots: <poisoned>"@,
            Some(live) => is_size_report(live@.slots, report@),
        },
{
    let live = match live {
        Some(live) => live,
        None => {
            let chars = text::chars_of("live_slots: <poisoned>");
            return text::string_of(chars.as_slice());
        },
    };
    let slots = live.listing();
    let ghost listing = slots@.map_values(|slot: &LiveSlot| slot@);
    let mut groups: Vec<Group> = Vec::new();
    for i in 0..slots.len()
        invariant
            listing == slots@.map_values(|slot: &LiveSlot| slot@),
            grouped(listing.take(i as int), group_views(groups@)),
    {
        let slot = slots[i];
        let size = Size { w: slot.width, h: slot.height };
        add_to_group(
            &mut groups,
            size,
            id_chars(slot),
            Ghost(listing.take(i as int)),
            Ghost(slot@),
        );
        proof {
            assert(listing.take(i + 1) =~= listing.take(i as int).push(slot@));
        }
    }
    let ghost all = group_views(groups@);
    let mut parts: Vec<Vec<char>> = Vec::new();
    for i in 0..groups.len()
        invariant
            all == group_views(groups@),
            parts@.len() == i,
            forall|j: int| 0 <= j < i ==> (#[trigger] parts@[j])@ == group_text(all[j]),
    {
        parts.push(group_chars(&groups[i]));
    }
    let mut report: Vec<char> = Vec::new();
    text::push_text(&mut report, "live_slots total=");
    text::push_decimal(&mut report, slots.len() as u64);
    text::push_text(&mut report, " {");
    let shown = text::joined(&parts, "; ");
    text::push_chars(&mut report, shown.as_slice());
    text::push_text(&mut report, "}");
    proof {
        assert(listing.take(slots@.len() as int) =~= listing);
        assert(parts@.map_values(|part: Vec<char>| part@) =~= all.map_values(
            |group: SizeGroup| group_text(group),
        ));
        assert(report@ == size_report(listing.len(), all));
        assert(live::listed_by(live@.slots, listing) && grouped(listing, all));
    }
    text::string_of(report.as_slice())
}

/// One more slot anywhere in a listing adds its name to those of its size.
proof fn lemma_ids_of_insert(
    listing: Seq<LiveSlotModel>,
    at: int,
    slot: LiveSlotModel,
    size: Size,
)
    requires
        0 <= at <= listing.len(),
    ensures
        ids_of(listing.insert(at, slot), size).to_multiset() == if size_of(slot) == size {
            ids_of(listing, size).to_multiset().insert(id_text(slot))
        } else {
            ids_of(listing, size).to_multiset()
        },
    decreases listing.len() - at,
{
    let more = listing.insert(at, slot);
    ids_of(listing, size).to_multiset_ensures();
    if at == listing.len() {
        assert(more.drop_last() =~= listing);
    } else {
        let fewer = listing.drop_last();
        lemma_ids_of_insert(fewer, at, slot, size);
        assert(more.drop_last() =~= fewer.insert(at, slot));
        assert(more.last() == listing.last());
        ids_of(fewer, size).to_multiset_ensures();
        ids_of(more.drop_last(), size).to_multiset_ensures();
        if size_of(listing.last()) == size && size_of(slot) == size {
            let names = ids_of(fewer, size).to_multiset();
            assert(names.insert(id_text(slot)).insert(id_text(listing.last())) =~= names.insert(
                id_text(listing.last()),
            ).insert(id_text(slot)));
        }
    }
}

/// Listings with equal multisets have the same names for each size.
proof fn lemma_equal_listings_agree(s: Seq<LiveSlotModel>, t: Seq<LiveSlotModel>, size: Size)
    requires
        s.to_multiset() == t.to_multiset(),
    ensures
        ids_of(s, size).to_multiset() == ids_of(t, size).to_multiset(),
    decreases s.len(),
{
    s.to_multiset_ensures();
    t.to_multiset_ensures();
    if s.len() > 0 {
        let at = listings::lemma_take_last(s, t);
        let fewer = t.remove(at);
        lemma_equal_listings_agree(s.drop_last(), fewer, size);
        lemma_ids_of_insert(fewer, at, s.last(), size);
        ids_of(s.drop_last(), size).to_multiset_ensures();
    } else {
        assert(s =~= t);
    }
}

/// Texts in order that have equal multisets are equal.
proof fn lemma_order_is_unique(s: Seq<Seq<char>>, t: Seq<Seq<char>>)
    requires
        in_order(s),
        in_order(t),
        s.to_multiset() == t.to_multiset(),
    ensures
        s == t,
{
    let leq = |a: Seq<char>, b: Seq<char>| !text::precedes(b, a);
    assert forall|a: Seq<char>| #[trigger] leq(a, a) by {
        text::lemma_precedes_is_total(a, a);
    }
    assert forall|a: Seq<char>, b: Seq<char>| #[trigger] leq(a, b) && #[trigger] leq(
        b,
        a,
    ) implies a == b by {
        text::lemma_precedes_is_total(a, b);
    }
    assert forall|a: Seq<char>, b: Seq<char>, c: Seq<char>|
        #[trigger] leq(a, b) && #[trigger] leq(b, c) implies leq(a, c) by {
        text::lemma_precedes_is_total(a, b);
        text::lemma_precedes_is_total(b, c);
        if text::precedes(c, a) {
            text::lemma_precedes_is_total(a, c);
            if a != b {
                text::lemma_precedes_is_transitive(c, a, b);
            }
        }
    }
    assert forall|a: Seq<char>, b: Seq<char>| #[trigger] leq(a, b) || #[trigger] leq(b, a) by {
        text::lemma_precedes_is_total(a, b);
    }
    vstd::seq_lib::lemma_sorted_unique(s, t, leq);
}

/// A size of which a listing has names is the size of one of its slots.
proof fn lemma_some_slot_has_size(listing: Seq<LiveSlotModel>, size: Size)
    requires
        ids_of(listing, size).len() > 0,
    ensures
        exists|k: int| 0 <= k < listing.len() && size_of(#[trigger] listing[k]) == size,
{
    if forall|k: int| 0 <= k < listing.len() ==> size_of(#[trigger] listing[k]) != size {
        lemma_no_ids(listing, size);
    }
}

/// Every size of the groups of one listing is a size of the groups of another with
/// an equal multiset.
proof fn lemma_sizes_agree(
    s: Seq<LiveSlotModel>,
    t: Seq<LiveSlotModel>,
    groups: Seq<SizeGroup>,
    others: Seq<SizeGroup>,
    i: int,
)
    requires
        s.to_multiset() == t.to_multiset(),
        grouped(s, groups),
        grouped(t, others),
        0 <= i < groups.len(),
    ensures
        exists|j: int| 0 <= j < others.len() && (#[trigger] others[j]).size == groups[i].size,
{
    let size = groups[i].size;
    lemma_equal_listings_agree(s, t, size);
    ids_of(t, size).to_multiset_ensures();
    groups[i].ids.to_multiset_ensures();
    lemma_some_slot_has_size(t, size);
    let k = choose|k: int| 0 <= k < t.len() && size_of(#[trigger] t[k]) == size;
    let j = choose|j: int| 0 <= j < others.len() && (#[trigger] others[j]).size == size_of(t[k]);
    assert(others[j].size == size);
}

/// Groups of listings with equal multisets are equal.
proof fn lemma_groups_agree(
    s: Seq<LiveSlotModel>,
    t: Seq<LiveSlotModel>,
    groups: Seq<SizeGroup>,
    others: Seq<SizeGroup>,
)
    requires
        s.to_multiset() == t.to_multiset(),
        grouped(s, groups),
        grouped(t, others),
    ensures
        groups == others,
{
    let size = |group: SizeGroup| group.size;
    let a = groups.map_values(size);
    let b = others.map_values(size);
    let leq = |x: Size, y: Size| x == y || smaller(x, y);
    assert forall|i: int, j: int| 0 <= i < j < a.len() implies #[trigger] leq(a[i], a[j]) by {
        assert(smaller(groups[i].size, groups[j].size));
    }
    assert forall|i: int, j: int| 0 <= i < j < b.len() implies #[trigger] leq(b[i], b[j]) by {
        assert(smaller(others[i].size, others[j].size));
    }
    assert forall|i: int, j: int| 0 <= i < a.len() && 0 <= j < a.len() && i != j implies a[i]
        != a[j] by {
        if i < j {
            assert(smaller(groups[i].size, groups[j].size));
        } else {
            assert(smaller(groups[j].size, groups[i].size));
        }
    }
    assert forall|i: int, j: int| 0 <= i < b.len() && 0 <= j < b.len() && i != j implies b[i]
        != b[j] by {
        if i < j {
            assert(smaller(others[i].size, others[j].size));
        } else {
            assert(smaller(others[j].size, others[i].size));
        }
    }
    assert forall|x: Size| a.contains(x) <==> #[trigger] b.contains(x) by {
        if a.contains(x) {
            let i = choose|i: int| 0 <= i < a.len() && a[i] == x;
            lemma_sizes_agree(s, t, groups, others, i);
            let j = choose|j: int|
                0 <= j < others.len() && (#[trigger] others[j]).size == groups[i].size;
            assert(b[j] == x);
        }
        if b.contains(x) {
            let i = choose|i: int| 0 <= i < b.len() && b[i] == x;
            lemma_sizes_agree(t, s, others, groups, i);
            let j = choose|j: int|
                0 <= j < groups.len() && (#[trigger] groups[j]).size == others[i].size;
            assert(a[j] == x);
        }
    }
    listings::lemma_same_set_same_multiset(a, b);
    vstd::seq_lib::lemma_sorted_unique(a, b, leq);
    assert forall|i: int| 0 <= i < groups.len() implies #[trigger] groups[i] == others[i] by {
        assert(a[i] == b[i]);
        assert(groups[i].size == others[i].size);
        lemma_equal_listings_agree(s, t, groups[i].size);
        lemma_order_is_unique(groups[i].ids, others[i].ids);
    }
    assert(groups.len() == a.len() && others.len() == b.len());
    assert(groups =~= others);
}

/// There is only one report on the slots by size.
pub proof fn law_the_size_report_is_determined(
    slots: Map<usize, LiveSlotModel>,
    report: Seq<char>,
    other: Seq<char>,
)
    requires
        is_size_report(slots, report),
        is_size_report(slots, other),
    ensures
        report == other,
{
    let (s, groups) = choose|listing: Seq<LiveSlotModel>, groups: Seq<SizeGroup>|
        {
            &&& #[trigger] live::listed_by(slots, listing)
            &&& #[trigger] grouped(listing, groups)
            &&& report == size_report(listing.len(), groups)
        };
    let (t, others) = choose|listing: Seq<LiveSlotModel>, groups: Seq<SizeGroup>|
        {
            &&& #[trigger] live::listed_by(slots, listing)
            &&& #[trigger] grouped(listing, groups)
            &&& other == size_report(listing.len(), groups)
        };
    listings::lemma_listings_agree(slots, s, t);
    lemma_groups_agree(s, t, groups, others);
}

/// The names that the groups have in all.
pub open spec fn names_in_all(groups: Seq<SizeGroup>) -> nat
    decreases groups.len(),
{
    if groups.len() == 0 {
        0
    } else {
        names_in_all(groups.drop_last()) + groups.last().ids.len()
    }
}

/// The slots of `listing` that have one of `sizes`, counted for each size.
spec fn slots_of(listing: Seq<LiveSlotModel>, sizes: Seq<Size>) -> nat
    decreases sizes.len(),
{
    if sizes.len() == 0 {
        0
    } else {
        slots_of(listing, sizes.drop_last()) + ids_of(listing, sizes.last()).len()
    }
}

/// One more slot counts once if its size is among different sizes.
proof fn lemma_slots_of_push(listing: Seq<LiveSlotModel>, slot: LiveSlotModel, sizes: Seq<Size>)
    requires
        sizes.no_duplicates(),
    ensures
        slots_of(listing.push(slot), sizes) == slots_of(listing, sizes) + if sizes.contains(
            size_of(slot),
        ) {
            1nat
        } else {
            0nat
        },
    decreases sizes.len(),
{
    if sizes.len() > 0 {
        let fewer = sizes.drop_last();
        let size = size_of(slot);
        lemma_slots_of_push(listing, slot, fewer);
        assert(listing.push(slot).drop_last() =~= listing);
        assert(sizes[sizes.len() - 1] == sizes.last());
        if fewer.contains(size) {
            let i = choose|i: int| 0 <= i < fewer.len() && fewer[i] == size;
            assert(sizes[i] == size);
            assert(sizes[i] != sizes[sizes.len() - 1]);
        } else if sizes.contains(size) {
            let i = choose|i: int| 0 <= i < sizes.len() && sizes[i] == size;
            if i < fewer.len() {
                assert(fewer[i] == size);
            }
        }
    }
}

/// Every slot counts once if all sizes are there.
proof fn lemma_slots_of_all(listing: Seq<LiveSlotModel>, sizes: Seq<Size>)
    requires
        sizes.no_duplicates(),
        forall|k: int| 0 <= k < listing.len() ==> sizes.contains(size_of(#[trigger] listing[k])),
    ensures
        slots_of(listing, sizes) == listing.len(),
    decreases listing.len(),
{
    if listing.len() == 0 {
        lemma_slots_of_none(sizes);
        assert(listing =~= Seq::empty());
    } else {
        let fewer = listing.drop_last();
        assert forall|k: int| 0 <= k < fewer.len() implies sizes.contains(
            size_of(#[trigger] fewer[k]),
        ) by {
            assert(fewer[k] == listing[k]);
        }
        lemma_slots_of_all(fewer, sizes);
        lemma_slots_of_push(fewer, listing.last(), sizes);
        assert(sizes.contains(size_of(listing[listing.len() - 1])));
        assert(listing =~= fewer.push(listing.last()));
    }
}

/// Without slots nothing counts.
proof fn lemma_slots_of_none(sizes: Seq<Size>)
    ensures
        slots_of(Seq::empty(), sizes) == 0,
    decreases sizes.len(),
{
    if sizes.len() > 0 {
        lemma_slots_of_none(sizes.drop_last());
    }
}

/// Groups have as many names as there are slots of their sizes.
proof fn lemma_names_are_slots(listing: Seq<LiveSlotModel>, groups: Seq<SizeGroup>)
    requires
        forall|i: int|
            0 <= i < groups.len() ==> (#[trigger] groups[i]).ids.to_multiset() == ids_of(
                listing,
                groups[i].size,
            ).to_multiset(),
    ensures
        names_in_all(groups) == slots_of(
            listing,
            groups.map_values(|group: SizeGroup| group.size),
        ),
    decreases groups.len(),
{
    let size = |group: SizeGroup| group.size;
    let sizes = groups.map_values(size);
    if groups.len() > 0 {
        let fewer = groups.drop_last();
        let last = groups.len() - 1;
        assert forall|i: int| 0 <= i < fewer.len() implies (
        #[trigger] fewer[i]).ids.to_multiset() == ids_of(
            listing,
            fewer[i].size,
        ).to_multiset() by {
            assert(fewer[i] == groups[i]);
        }
        lemma_names_are_slots(listing, fewer);
        assert(sizes.drop_last() =~= fewer.map_values(size));
        assert(groups[last].ids.to_multiset() == ids_of(
            listing,
            groups[last].size,
        ).to_multiset());
        groups[last].ids.to_multiset_ensures();
        ids_of(listing, groups[last].size).to_multiset_ensures();
    }
}

/// The groups of a report name every slot once: their counts add up to the total.
pub proof fn law_the_groups_add_up_to_the_total(
    listing: Seq<LiveSlotModel>,
    groups: Seq<SizeGroup>,
)
    requires
        grouped(listing, groups),
    ensures
        names_in_all(groups) == listing.len(),
{
    let sizes = groups.map_values(|group: SizeGroup| group.size);
    assert forall|i: int, j: int| 0 <= i < sizes.len() && 0 <= j < sizes.len() && i
        != j implies sizes[i] != sizes[j] by {
        if i < j {
            assert(smaller(groups[i].size, groups[j].size));
        } else {
            assert(smaller(groups[j].size, groups[i].size));
        }
    }
    assert forall|k: int| 0 <= k < listing.len() implies sizes.contains(
        size_of(#[trigger] listing[k]),
    ) by {
        let i = choose|i: int|
            0 <= i < groups.len() && (#[trigger] groups[i]).size == size_of(listing[k]);
        assert(sizes[i] == size_of(listing[k]));
    }
    lemma_names_are_slots(listing, groups);
    lemma_slots_of_all(listing, sizes);
}

/// How the number of a DMA buffer is shown: in decimal notation, or as a question mark if there
/// is none.
pub open spec fn shown(dmabuf_id: Option<u64>) -> Seq<char> {
    match dmabuf_id {
        Some(id) => text::decimal(id as nat),
        None => seq!['?'],
    }
}

/// `names` are those of the slots whose buffers have the sizes `sizes`, each as often as there
/// are slots with it, in the order of text. There is each size that a buffer has, once, the
/// narrower ones first and of those the lower ones.
pub open spec fn told_by_size(
    slots: Map<usize, LiveSlotModel>,
    sizes: Seq<Size>,
    names: Seq<Seq<Seq<char>>>,
) -> bool {
    &&& sizes.len() == names.len()
    &&& forall|i: int, j: int|
        0 <= i < j < sizes.len() ==> (#[trigger] sizes[i]).w < (#[trigger] sizes[j]).w || (
        sizes[i].w == sizes[j].w && sizes[i].h < sizes[j].h)
    &&& forall|uid: usize| #[trigger]
        slots.contains_key(uid) ==> sizes.contains(
            (Size { w: slots[uid].width, h: slots[uid].height }),
        )
    &&& forall|i: int|
        0 <= i < names.len() ==> {
            &&& (#[trigger] names[i]).len() > 0
            &&& forall|a: int, b: int|
                0 <= a < b < names[i].len() ==> !text::precedes(
                    #[trigger] names[i][b],
                    #[trigger] names[i][a],
                )
        }
    &&& forall|i: int, name: Seq<char>|
        0 <= i < names.len() ==> #[trigger] names[i].to_multiset().count(name)
            == slots.dom().filter(
            |uid: usize|
                slots[uid].width == sizes[i].w && slots[uid].height == sizes[i].h && shown(
                    slots[uid].dmabuf_id,
                ) == name,
        ).len()
}

/// The names of one size, told by the slots of a listing.
proof fn lemma_names_of_a_size(
    slots: Map<usize, LiveSlotModel>,
    uids: Seq<usize>,
    size: Size,
    name: Seq<char>,
)
    requires
        uids.no_duplicates(),
    ensures
        ids_of(uids.map_values(|uid: usize| slots[uid]), size).to_multiset().count(name)
            == uids.to_set().filter(
            |uid: usize|
                slots[uid].width == size.w && slots[uid].height == size.h && shown(
                    slots[uid].dmabuf_id,
                ) == name,
        ).len(),
        uids.to_set().filter(
            |uid: usize|
                slots[uid].width == size.w && slots[uid].height == size.h && shown(
                    slots[uid].dmabuf_id,
                ) == name,
        ).finite(),
    decreases uids.len(),
{
    let look = |uid: usize| slots[uid];
    let about = |uid: usize|
        slots[uid].width == size.w && slots[uid].height == size.h && shown(slots[uid].dmabuf_id)
            == name;
    let listing = uids.map_values(look);
    if uids.len() == 0 {
        assert(uids.to_set().filter(about) =~= Set::empty());
        ids_of(listing, size).to_multiset_ensures();
        assert(ids_of(listing, size) =~= Seq::empty());
    } else {
        let fewer = uids.drop_last();
        assert(fewer.no_duplicates());
        lemma_names_of_a_size(slots, fewer, size, name);
        listings::lemma_last_key_counts(uids, about);
        assert(listing.drop_last() =~= fewer.map_values(look));
        assert(listing.last() == slots[uids.last()]);
        ids_of(listing.drop_last(), size).to_multiset_ensures();
        reveal_strlit("?");
        assert("?"@ =~= seq!['?']);
        assert(id_text(listing.last()) == shown(listing.last().dmabuf_id));
    }
}

/// The report on the slots by size tells how many there are, and for each size that a buffer
/// has its width and height, how many slots have it, and the DMA buffers that they were
/// exported as.
pub proof fn law_the_size_report_tells_every_slot(
    slots: Map<usize, LiveSlotModel>,
    report: Seq<char>,
)
    requires
        is_size_report(slots, report),
    ensures
        exists|sizes: Seq<Size>, names: Seq<Seq<Seq<char>>>|
            {
                &&& #[trigger] told_by_size(slots, sizes, names)
                &&& report == "live_slots total="@ + text::decimal(slots.dom().len()) + " {"@
                    + text::join(
                    Seq::new(
                        sizes.len(),
                        |i: int|
                            text::signed_decimal(sizes[i].w as int) + "x"@ + text::signed_decimal(
                                sizes[i].h as int,
                            ) + "×"@ + text::decimal(names[i].len()) + " ["@ + text::join(
                                names[i],
                                ","@,
                            ) + "]"@,
                    ),
                    "; "@,
                ) + "}"@
            },
{
    let (listing, groups) = choose|listing: Seq<LiveSlotModel>, groups: Seq<SizeGroup>|
        {
            &&& #[trigger] live::listed_by(slots, listing)
            &&& #[trigger] grouped(listing, groups)
            &&& report == size_report(listing.len(), groups)
        };
    let uids = choose|uids: Seq<usize>|
        {
            &&& uids.no_duplicates()
            &&& #[trigger] uids.to_set() == slots.dom()
            &&& listing == uids.map_values(|uid: usize| slots[uid])
        };
    let sizes = groups.map_values(|group: SizeGroup| group.size);
    let names = groups.map_values(|group: SizeGroup| group.ids);
    uids.unique_seq_to_set();
    assert forall|i: int, j: int| 0 <= i < j < sizes.len() implies (#[trigger] sizes[i]).w < (
    #[trigger] sizes[j]).w || (sizes[i].w == sizes[j].w && sizes[i].h < sizes[j].h) by {
        assert(smaller(groups[i].size, groups[j].size));
    }
    assert forall|uid: usize| #[trigger] slots.contains_key(uid) implies sizes.contains(
        (Size { w: slots[uid].width, h: slots[uid].height }),
    ) by {
        assert(uids.to_set().contains(uid));
        let k = choose|k: int| 0 <= k < uids.len() && uids[k] == uid;
        assert(listing[k] == slots[uid]);
        let i = choose|i: int|
            0 <= i < groups.len() && (#[trigger] groups[i]).size == size_of(listing[k]);
        assert(sizes[i] == size_of(slots[uid]));
    }
    assert forall|i: int| 0 <= i < names.len() implies {
        &&& (#[trigger] names[i]).len() > 0
        &&& forall|a: int, b: int|
            0 <= a < b < names[i].len() ==> !text::precedes(
                #[trigger] names[i][b],
                #[trigger] names[i][a],
            )
    } by {
        assert(groups[i].ids.len() > 0 && in_order(groups[i].ids));
    }
    assert forall|i: int, name: Seq<char>|
        0 <= i < names.len() implies #[trigger] names[i].to_multiset().count(name)
        == slots.dom().filter(
        |uid: usize|
            slots[uid].width == sizes[i].w && slots[uid].height == sizes[i].h && shown(
                slots[uid].dmabuf_id,
            ) == name,
    ).len() by {
        assert(groups[i].ids.to_multiset() == ids_of(listing, groups[i].size).to_multiset());
        lemma_names_of_a_size(slots, uids, sizes[i], name);
    }
    assert(told_by_size(slots, sizes, names));
    assert(groups.map_values(|group: SizeGroup| group_text(group)) =~= Seq::new(
        sizes.len(),
        |i: int|
            text::signed_decimal(sizes[i].w as int) + "x"@ + text::signed_decimal(
                sizes[i].h as int,
            ) + "×"@ + text::decimal(names[i].len()) + " ["@ + text::join(names[i], ","@) + "]"@,
    ));
}

} // verus!
