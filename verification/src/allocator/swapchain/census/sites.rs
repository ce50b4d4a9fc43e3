//! The slots that have a buffer, by the place where they were acquired.

use crate::allocator::swapchain::census::listings;
use crate::allocator::swapchain::live;
use crate::allocator::swapchain::live::{LiveSlot, LiveSlotModel, LiveSlots};
use crate::text;
use vstd::prelude::*;

verus! {

/// How many of `listing` were acquired at `site`.
pub open spec fn occurrences(listing: Seq<LiveSlotModel>, site: Seq<char>) -> nat
    decreases listing.len(),
{
    if listing.len() == 0 {
        0
    } else {
        let before = occurrences(listing.drop_last(), site);
        if listing.last().acquired_at == site {
            before + 1
        } else {
            before
        }
    }
}

/// A place where slots were acquired.
#[verifier::ext_equal]
pub struct SiteRow {
    /// The place.
    pub site: Seq<char>,
    /// How many slots were acquired there.
    pub count: nat,
}

/// `a` stands before `b`: more slots were acquired there, or as many and its text
/// comes first.
pub open spec fn ranks_before(a: SiteRow, b: SiteRow) -> bool {
    a.count > b.count || (a.count == b.count && text::precedes(a.site, b.site))
}

/// One of `rows` is about `site`.
pub open spec fn has_row(rows: Seq<SiteRow>, site: Seq<char>) -> bool {
    exists|i: int| 0 <= i < rows.len() && (#[trigger] rows[i]).site == site
}

/// `rows` count the slots of `listing` by the place where they were acquired.
pub open spec fn counted(listing: Seq<LiveSlotModel>, rows: Seq<SiteRow>) -> bool {
    &&& forall|i: int|
        0 <= i < rows.len() ==> {
            &&& (#[trigger] rows[i]).count > 0
            &&& rows[i].count == occurrences(listing, rows[i].site)
        }
    &&& forall|k: int|
        0 <= k < listing.len() ==> has_row(rows, (#[trigger] listing[k]).acquired_at)
}

/// Every row stands before the ones behind it.
pub open spec fn ranked(rows: Seq<SiteRow>) -> bool {
    forall|i: int, j: int|
        0 <= i < j < rows.len() ==> ranks_before(#[trigger] rows[i], #[trigger] rows[j])
}

/// How a report shows a row.
pub open spec fn row_text(row: SiteRow) -> Seq<char> {
    text::decimal(row.count) + "× "@ + row.site
}

/// The report on the places in `rows`.
pub open spec fn site_report(rows: Seq<SiteRow>) -> Seq<char> {
    text::join(rows.map_values(|row: SiteRow| row_text(row)), " | "@)
}

/// `report` is the report on the places where `slots` were acquired.
pub open spec fn is_site_report(
    slots: Map<usize, LiveSlotModel>,
    report: Seq<char>,
) -> bool {
    exists|listing: Seq<LiveSlotModel>, rows: Seq<SiteRow>|
        {
            &&& #[trigger] live::listed_by(slots, listing)
            &&& #[trigger] counted(listing, rows)
            &&& ranked(rows)
            &&& report == site_report(rows)
        }
}

/// A place where slots were acquired.
struct Row {
    site: Vec<char>,
    count: usize,
}

impl View for Row {
    type V = SiteRow;

    closed spec fn view(&self) -> SiteRow {
        SiteRow { site: self.site@, count: self.count as nat }
    }
}

/// What each of `rows` stands for.
spec fn row_views(rows: Seq<Row>) -> Seq<SiteRow> {
    rows.map_values(|row: Row| row@)
}

/// No two rows are about the same place.
spec fn sites_differ(rows: Seq<SiteRow>) -> bool {
    forall|i: int, j: int|
        0 <= i < j < rows.len() ==> (#[trigger] rows[i]).site != (#[trigger] rows[j]).site
}

/// No more slots were acquired at a place than there are.
proof fn lemma_occurrences_are_bounded(listing: Seq<LiveSlotModel>, site: Seq<char>)
    ensures
        occurrences(listing, site) <= listing.len(),
    decreases listing.len(),
{
    if listing.len() > 0 {
        lemma_occurrences_are_bounded(listing.drop_last(), site);
    }
}

/// At a place where none of `listing` was acquired, none was.
proof fn lemma_no_occurrences(listing: Seq<LiveSlotModel>, site: Seq<char>)
    requires
        forall|k: int| 0 <= k < listing.len() ==> (#[trigger] listing[k]).acquired_at != site,
    ensures
        occurrences(listing, site) == 0,
    decreases listing.len(),
{
    if listing.len() > 0 {
        assert(listing[listing.len() - 1].acquired_at != site);
        assert forall|k: int| 0 <= k < listing.drop_last().len() implies (
        #[trigger] listing.drop_last()[k]).acquired_at != site by {
            assert(listing.drop_last()[k] == listing[k]);
        }
        lemma_no_occurrences(listing.drop_last(), site);
    }
}

/// Count one more slot that was acquired at `site`.
fn count_site(
    rows: &mut Vec<Row>,
    site: Vec<char>,
    Ghost(listing): Ghost<Seq<LiveSlotModel>>,
    Ghost(slot): Ghost<LiveSlotModel>,
)
    requires
        counted(listing, row_views(old(rows)@)),
        sites_differ(row_views(old(rows)@)),
        slot.acquired_at == site@,
        listing.len() < usize::MAX,
    ensures
        counted(listing.push(slot), row_views(final(rows)@)),
        sites_differ(row_views(final(rows)@)),
{
    let ghost before = row_views(rows@);
    let ghost grown = listing.push(slot);
    let mut at: usize = 0;
    while at < rows.len() && !text::same(rows[at].site.as_slice(), site.as_slice())
        invariant
            at <= rows@.len(),
            rows@ == old(rows)@,
            before == row_views(rows@),
            forall|i: int| 0 <= i < at ==> (#[trigger] before[i]).site != site@,
        decreases rows@.len() - at,
    {
        at = at + 1;
    }
    proof {
        assert(grown.drop_last() =~= listing);
    }
    if at < rows.len() {
        assert(before[at as int].site == site@);
        proof {
            lemma_occurrences_are_bounded(listing, site@);
        }
        rows[at].count = rows[at].count + 1;
        proof {
            let after = row_views(rows@);
            assert(after.len() == before.len());
            assert forall|i: int| 0 <= i < after.len() implies (#[trigger] after[i]).site
                == before[i].site by {}
            assert forall|i: int| 0 <= i < after.len() && i != at implies #[trigger] after[i]
                == before[i] by {}
            assert forall|i: int, j: int| 0 <= i < j < after.len() implies (
            #[trigger] after[i]).site != (#[trigger] after[j]).site by {
                assert(before[i].site != before[j].site);
            }
            assert forall|i: int| 0 <= i < after.len() implies {
                &&& (#[trigger] after[i]).count > 0
                &&& after[i].count == occurrences(grown, after[i].site)
            } by {
                assert(before[i].count == occurrences(listing, before[i].site));
                if i < at {
                    assert(before[i].site != before[at as int].site);
                } else if i > at {
                    assert(before[at as int].site != before[i].site);
                }
            }
            assert forall|k: int| 0 <= k < grown.len() implies has_row(
                after,
                (#[trigger] grown[k]).acquired_at,
            ) by {
                if k < listing.len() {
                    assert(grown[k] == listing[k]);
                    assert(has_row(before, listing[k].acquired_at));
                    let i = choose|i: int|
                        0 <= i < before.len() && (#[trigger] before[i]).site
                            == listing[k].acquired_at;
                    assert(after[i].site == before[i].site);
                } else {
                    assert(after[at as int].site == slot.acquired_at);
                }
            }
        }
    } else {
        rows.push(Row { site, count: 1 });
        proof {
            let new = SiteRow { site: site@, count: 1 };
            let after = row_views(rows@);
            assert(after =~= before.push(new));
            assert forall|k: int| 0 <= k < listing.len() implies (
            #[trigger] listing[k]).acquired_at != site@ by {
                assert(has_row(before, listing[k].acquired_at));
                let i = choose|i: int|
                    0 <= i < before.len() && (#[trigger] before[i]).site == listing[k].acquired_at;
                assert(before[i].site != site@);
            }
            lemma_no_occurrences(listing, site@);
            assert forall|i: int, j: int| 0 <= i < j < after.len() implies (
            #[trigger] after[i]).site != (#[trigger] after[j]).site by {
                assert(after[i] == before[i]);
                if j < before.len() {
                    assert(after[j] == before[j]);
                }
            }
            assert forall|i: int| 0 <= i < after.len() implies {
                &&& (#[trigger] after[i]).count > 0
                &&& after[i].count == occurrences(grown, after[i].site)
            } by {
                if i < before.len() {
                    assert(after[i] == before[i]);
                }
            }
            assert forall|k: int| 0 <= k < grown.len() implies has_row(
                after,
                (#[trigger] grown[k]).acquired_at,
            ) by {
                if k < listing.len() {
                    assert(grown[k] == listing[k]);
                    assert(has_row(before, listing[k].acquired_at));
                    let i = choose|i: int|
                        0 <= i < before.len() && (#[trigger] before[i]).site
                            == listing[k].acquired_at;
                    assert(after[i] == before[i]);
                } else {
                    assert(after[before.len() as int] == new);
                }
            }
        }
    }
}

/// The ranking of rows is transitive, and no row ranks before itself.
proof fn lemma_ranking_is_transitive(a: SiteRow, b: SiteRow, c: SiteRow)
    ensures
        ranks_before(a, b) && ranks_before(b, c) ==> ranks_before(a, c),
        !ranks_before(a, a),
        a.site != b.site ==> ranks_before(a, b) || ranks_before(b, a),
{
    text::lemma_precedes_is_total(a.site, b.site);
    if text::precedes(a.site, b.site) && text::precedes(b.site, c.site) {
        text::lemma_precedes_is_transitive(a.site, b.site, c.site);
    }
}

/// Put `row` where it belongs among `rows`.
fn insert_by_rank(rows: &mut Vec<Row>, row: Row)
    requires
        ranked(row_views(old(rows)@)),
        forall|i: int|
            0 <= i < old(rows)@.len() ==> (#[trigger] row_views(old(rows)@)[i]).site != row@.site,
    ensures
        ranked(row_views(final(rows)@)),
        row_views(final(rows)@).to_multiset() == row_views(old(rows)@).to_multiset().insert(row@),
{
    let ghost before = row_views(rows@);
    let mut at: usize = 0;
    while at < rows.len() && (rows[at].count > row.count || (rows[at].count == row.count
        && text::comes_before(rows[at].site.as_slice(), row.site.as_slice())))
        invariant
            at <= rows@.len(),
            rows@ == old(rows)@,
            before == row_views(rows@),
            forall|i: int| 0 <= i < at ==> ranks_before(#[trigger] before[i], row@),
        decreases rows@.len() - at,
    {
        at = at + 1;
    }
    rows.insert(at, row);
    proof {
        let after = row_views(rows@);
        assert(after =~= before.insert(at as int, row@));
        listings::lemma_insert_to_multiset(before, at as int, row@);
        assert forall|i: int| at <= i < before.len() implies ranks_before(
            row@,
            #[trigger] before[i],
        ) by {
            lemma_ranking_is_transitive(row@, before[at as int], before[i]);
            if i > at {
                assert(ranks_before(before[at as int], before[i]));
            }
        }
        assert forall|i: int, j: int| 0 <= i < j < after.len() implies ranks_before(
            #[trigger] after[i],
            #[trigger] after[j],
        ) by {
            if i == at {
                assert(after[j] == before[j - 1]);
            } else if j == at {
                assert(after[i] == before[i]);
            } else {
                let a = if i < at {
                    i
                } else {
                    i - 1
                };
                let b = if j < at {
                    j
                } else {
                    j - 1
                };
                assert(after[i] == before[a] && after[j] == before[b]);
            }
        }
    }
}

/// Rows with the same members count the same.
proof fn lemma_same_rows_count_the_same(
    listing: Seq<LiveSlotModel>,
    rows: Seq<SiteRow>,
    others: Seq<SiteRow>,
)
    requires
        counted(listing, rows),
        others.to_multiset() == rows.to_multiset(),
    ensures
        counted(listing, others),
{
    assert forall|i: int| 0 <= i < others.len() implies {
        &&& (#[trigger] others[i]).count > 0
        &&& others[i].count == occurrences(listing, others[i].site)
    } by {
        assert(others.contains(others[i]));
        listings::lemma_same_members(others, rows, others[i]);
        let j = choose|j: int| 0 <= j < rows.len() && rows[j] == others[i];
        assert(rows[j].count > 0);
    }
    assert forall|k: int| 0 <= k < listing.len() implies has_row(
        others,
        (#[trigger] listing[k]).acquired_at,
    ) by {
        assert(has_row(rows, listing[k].acquired_at));
        let i = choose|i: int|
            0 <= i < rows.len() && (#[trigger] rows[i]).site == listing[k].acquired_at;
        assert(rows.contains(rows[i]));
        listings::lemma_same_members(rows, others, rows[i]);
        let j = choose|j: int| 0 <= j < others.len() && others[j] == rows[i];
        assert(others[j].site == listing[k].acquired_at);
    }
}

/// The rows in the order of their rank.
fn rank(rows: Vec<Row>) -> (sorted: Vec<Row>)
    requires
        sites_differ(row_views(rows@)),
    ensures
        ranked(row_views(sorted@)),
        row_views(sorted@).to_multiset() == row_views(rows@).to_multiset(),
{
    let ghost all = row_views(rows@);
    let mut sorted: Vec<Row> = Vec::new();
    proof {
        assert(row_views(sorted@) =~= all.take(0));
    }
    for row in it: rows
        invariant
            it.seq() == rows@,
            all == row_views(rows@),
            sites_differ(all),
            ranked(row_views(sorted@)),
            row_views(sorted@).to_multiset() == all.take(it.index()).to_multiset(),
    {
        let ghost n = it.index();
        let ghost before = row_views(sorted@);
        proof {
            all.take(n).to_multiset_ensures();
            assert(row@ == all[n]);
            assert forall|i: int| 0 <= i < before.len() implies (#[trigger] before[i]).site
                != row@.site by {
                assert(before.contains(before[i]));
                listings::lemma_same_members(before, all.take(n), before[i]);
                let j = choose|j: int| 0 <= j < n && all.take(n)[j] == before[i];
                assert(all[j].site != all[n].site);
            }
            assert(all.take(n + 1) =~= all.take(n).push(all[n]));
        }
        insert_by_rank(&mut sorted, row);
    }
    proof {
        assert(all.take(all.len() as int) =~= all);
    }
    sorted
}

/// The places where the slots that have a buffer were acquired, as one line: the
/// one where most were acquired first.
///
/// `live` is `None` where the slots cannot be read.
pub fn debug_live_slot_sites(live: Option<&LiveSlots>) -> (report: String)
    requires
        live matches Some(live) ==> live@.wf(),
    ensures
        match live {
            None => report@ == "live_slot_sites: <poisoned>"@,
            Some(live) => is_site_report(live@.slots, report@),
        },
{
    let live = match live {
        Some(live) => live,
        None => {
            let chars = text::chars_of("live_slot_sites: <poisoned>");
            return text::string_of(chars.as_slice());
        },
    };
    let slots = live.listing();
    let total: usize = slots.len();
    let ghost listing = slots@.map_values(|slot: &LiveSlot| slot@);
    let mut rows: Vec<Row> = Vec::new();
    for i in 0..total
        invariant
            total == slots@.len(),
            listing == slots@.map_values(|slot: &LiveSlot| slot@),
            counted(listing.take(i as int), row_views(rows@)),
            sites_differ(row_views(rows@)),
    {
        let slot = slots[i];
        count_site(
            &mut rows,
            text::chars_of(slot.acquired_at.as_str()),
            Ghost(listing.take(i as int)),
            Ghost(slot@),
        );
        proof {
            assert(listing.take(i + 1) =~= listing.take(i as int).push(slot@));
        }
    }
    let ghost unsorted = row_views(rows@);
    let sorted = rank(rows);
    let ghost all = row_views(sorted@);
    let mut parts: Vec<Vec<char>> = Vec::new();
    for i in 0..sorted.len()
        invariant
            all == row_views(sorted@),
            parts@.len() == i,
            forall|j: int| 0 <= j < i ==> (#[trigger] parts@[j])@ == row_text(all[j]),
    {
        let mut part: Vec<char> = Vec::new();
        text::push_decimal(&mut part, sorted[i].count as u64);
        text::push_text(&mut part, "× ");
        text::push_chars(&mut part, sorted[i].site.as_slice());
        parts.push(part);
    }
    let report = text::joined(&parts, " | ");
    proof {
        assert(listing.take(total as int) =~= listing);
        assert(parts@.map_values(|part: Vec<char>| part@) =~= all.map_values(
            |row: SiteRow| row_text(row),
        ));
        lemma_same_rows_count_the_same(listing, unsorted, all);
        assert(live::listed_by(live@.slots, listing) && counted(listing, all));
    }
    text::string_of(report.as_slice())
}

/// One more slot anywhere in a listing adds one to the count of its place.
proof fn lemma_occurrences_insert(
    listing: Seq<LiveSlotModel>,
    at: int,
    slot: LiveSlotModel,
    site: Seq<char>,
)
    requires
        0 <= at <= listing.len(),
    ensures
        occurrences(listing.insert(at, slot), site) == occurrences(listing, site)
            + if slot.acquired_at == site {
            1nat
        } else {
            0nat
        },
    decreases listing.len() - at,
{
    let more = listing.insert(at, slot);
    if at == listing.len() {
        assert(more.drop_last() =~= listing);
    } else {
        let fewer = listing.drop_last();
        lemma_occurrences_insert(fewer, at, slot, site);
        assert(more.drop_last() =~= fewer.insert(at, slot));
        assert(more.last() == listing.last());
    }
}

/// Listings with equal multisets have the same counts for each place.
proof fn lemma_equal_listings_agree(
    s: Seq<LiveSlotModel>,
    t: Seq<LiveSlotModel>,
    site: Seq<char>,
)
    requires
        s.to_multiset() == t.to_multiset(),
    ensures
        occurrences(s, site) == occurrences(t, site),
    decreases s.len(),
{
    s.to_multiset_ensures();
    t.to_multiset_ensures();
    if s.len() > 0 {
        let at = listings::lemma_take_last(s, t);
        let fewer = t.remove(at);
        lemma_equal_listings_agree(s.drop_last(), fewer, site);
        lemma_occurrences_insert(fewer, at, s.last(), site);
    } else {
        assert(s =~= t);
    }
}

/// A place with a count is the place of one of the slots.
proof fn lemma_some_slot_has_site(listing: Seq<LiveSlotModel>, site: Seq<char>)
    requires
        occurrences(listing, site) > 0,
    ensures
        exists|k: int| 0 <= k < listing.len() && (#[trigger] listing[k]).acquired_at == site,
{
    if forall|k: int| 0 <= k < listing.len() ==> (#[trigger] listing[k]).acquired_at != site {
        lemma_no_occurrences(listing, site);
    }
}

/// Every row on one listing is a row on another with an equal multiset.
proof fn lemma_rows_agree(
    s: Seq<LiveSlotModel>,
    t: Seq<LiveSlotModel>,
    rows: Seq<SiteRow>,
    others: Seq<SiteRow>,
    i: int,
)
    requires
        s.to_multiset() == t.to_multiset(),
        counted(s, rows),
        counted(t, others),
        0 <= i < rows.len(),
    ensures
        others.contains(rows[i]),
{
    let site = rows[i].site;
    lemma_equal_listings_agree(s, t, site);
    lemma_some_slot_has_site(t, site);
    let k = choose|k: int| 0 <= k < t.len() && (#[trigger] t[k]).acquired_at == site;
    assert(has_row(others, t[k].acquired_at));
    let j = choose|j: int| 0 <= j < others.len() && (#[trigger] others[j]).site == site;
    assert(others[j] == rows[i]);
}

/// There is only one report on the places where the slots were acquired.
pub proof fn law_the_site_report_is_determined(
    slots: Map<usize, LiveSlotModel>,
    report: Seq<char>,
    other: Seq<char>,
)
    requires
        is_site_report(slots, report),
        is_site_report(slots, other),
    ensures
        report == other,
{
    let (s, rows) = choose|listing: Seq<LiveSlotModel>, rows: Seq<SiteRow>|
        {
            &&& #[trigger] live::listed_by(slots, listing)
            &&& #[trigger] counted(listing, rows)
            &&& ranked(rows)
            &&& report == site_report(rows)
        };
    let (t, others) = choose|listing: Seq<LiveSlotModel>, rows: Seq<SiteRow>|
        {
            &&& #[trigger] live::listed_by(slots, listing)
            &&& #[trigger] counted(listing, rows)
            &&& ranked(rows)
            &&& other == site_report(rows)
        };
    listings::lemma_listings_agree(slots, s, t);
    let leq = |a: SiteRow, b: SiteRow| a == b || ranks_before(a, b);
    assert forall|a: SiteRow, b: SiteRow| #[trigger] leq(a, b) && #[trigger] leq(
        b,
        a,
    ) implies a == b by {
        lemma_ranking_is_transitive(a, b, a);
    }
    assert forall|a: SiteRow, b: SiteRow, c: SiteRow|
        #[trigger] leq(a, b) && #[trigger] leq(b, c) implies leq(a, c) by {
        lemma_ranking_is_transitive(a, b, c);
    }
    assert forall|a: SiteRow, b: SiteRow| #[trigger] leq(a, b) || #[trigger] leq(b, a) by {
        lemma_ranking_is_transitive(a, b, a);
    }
    assert forall|i: int, j: int| 0 <= i < rows.len() && 0 <= j < rows.len() && i != j implies
    rows[i] != rows[j] by {
        lemma_ranking_is_transitive(rows[i], rows[j], rows[i]);
        if i < j {
            assert(ranks_before(rows[i], rows[j]));
        } else {
            assert(ranks_before(rows[j], rows[i]));
        }
    }
    assert forall|i: int, j: int| 0 <= i < others.len() && 0 <= j < others.len() && i != j implies
    others[i] != others[j] by {
        lemma_ranking_is_transitive(others[i], others[j], others[i]);
        if i < j {
            assert(ranks_before(others[i], others[j]));
        } else {
            assert(ranks_before(others[j], others[i]));
        }
    }
    assert forall|row: SiteRow| rows.contains(row) <==> #[trigger] others.contains(row) by {
        if rows.contains(row) {
            let i = choose|i: int| 0 <= i < rows.len() && rows[i] == row;
            lemma_rows_agree(s, t, rows, others, i);
        }
        if others.contains(row) {
            let i = choose|i: int| 0 <= i < others.len() && others[i] == row;
            lemma_rows_agree(t, s, others, rows, i);
        }
    }
    listings::lemma_same_set_same_multiset(rows, others);
    vstd::seq_lib::lemma_sorted_unique(rows, others, leq);
}

/// The slots that the rows count in all.
pub open spec fn counted_in_all(rows: Seq<SiteRow>) -> nat
    decreases rows.len(),
{
    if rows.len() == 0 {
        0
    } else {
        counted_in_all(rows.drop_last()) + rows.last().count
    }
}

/// The slots of `listing` acquired at one of `sites`, counted for each place.
spec fn slots_at(listing: Seq<LiveSlotModel>, sites: Seq<Seq<char>>) -> nat
    decreases sites.len(),
{
    if sites.len() == 0 {
        0
    } else {
        slots_at(listing, sites.drop_last()) + occurrences(listing, sites.last())
    }
}

/// One more slot counts once if its place is among different places.
proof fn lemma_slots_at_push(
    listing: Seq<LiveSlotModel>,
    slot: LiveSlotModel,
    sites: Seq<Seq<char>>,
)
    requires
        sites.no_duplicates(),
    ensures
        slots_at(listing.push(slot), sites) == slots_at(listing, sites) + if sites.contains(
            slot.acquired_at,
        ) {
            1nat
        } else {
            0nat
        },
    decreases sites.len(),
{
    if sites.len() > 0 {
        let fewer = sites.drop_last();
        let site = slot.acquired_at;
        lemma_slots_at_push(listing, slot, fewer);
        assert(listing.push(slot).drop_last() =~= listing);
        assert(sites[sites.len() - 1] == sites.last());
        if fewer.contains(site) {
            let i = choose|i: int| 0 <= i < fewer.len() && fewer[i] == site;
            assert(sites[i] == site);
            assert(sites[i] != sites[sites.len() - 1]);
        } else if sites.contains(site) {
            let i = choose|i: int| 0 <= i < sites.len() && sites[i] == site;
            if i < fewer.len() {
                assert(fewer[i] == site);
            }
        }
    }
}

/// Without slots nothing counts.
proof fn lemma_slots_at_none(sites: Seq<Seq<char>>)
    ensures
        slots_at(Seq::empty(), sites) == 0,
    decreases sites.len(),
{
    if sites.len() > 0 {
        lemma_slots_at_none(sites.drop_last());
    }
}

/// Every slot counts once if all places are there.
proof fn lemma_slots_at_all(listing: Seq<LiveSlotModel>, sites: Seq<Seq<char>>)
    requires
        sites.no_duplicates(),
        forall|k: int|
            0 <= k < listing.len() ==> sites.contains((#[trigger] listing[k]).acquired_at),
    ensures
        slots_at(listing, sites) == listing.len(),
    decreases listing.len(),
{
    if listing.len() == 0 {
        lemma_slots_at_none(sites);
        assert(listing =~= Seq::empty());
    } else {
        let fewer = listing.drop_last();
        assert forall|k: int| 0 <= k < fewer.len() implies sites.contains(
            (#[trigger] fewer[k]).acquired_at,
        ) by {
            assert(fewer[k] == listing[k]);
        }
        lemma_slots_at_all(fewer, sites);
        lemma_slots_at_push(fewer, listing.last(), sites);
        assert(sites.contains(listing[listing.len() - 1].acquired_at));
        assert(listing =~= fewer.push(listing.last()));
    }
}

/// Rows count as many slots as were acquired at their places.
proof fn lemma_counts_are_slots(listing: Seq<LiveSlotModel>, rows: Seq<SiteRow>)
    requires
        forall|i: int|
            0 <= i < rows.len() ==> (#[trigger] rows[i]).count == occurrences(
                listing,
                rows[i].site,
            ),
    ensures
        counted_in_all(rows) == slots_at(listing, rows.map_values(|row: SiteRow| row.site)),
    decreases rows.len(),
{
    let site = |row: SiteRow| row.site;
    if rows.len() > 0 {
        let fewer = rows.drop_last();
        assert forall|i: int| 0 <= i < fewer.len() implies (#[trigger] fewer[i]).count
            == occurrences(listing, fewer[i].site) by {
            assert(fewer[i] == rows[i]);
        }
        lemma_counts_are_slots(listing, fewer);
        assert(rows.map_values(site).drop_last() =~= fewer.map_values(site));
        assert(rows[rows.len() - 1].count == occurrences(listing, rows[rows.len() - 1].site));
    }
}

/// The rows of a report count every slot once.
pub proof fn law_the_rows_add_up_to_the_total(
    listing: Seq<LiveSlotModel>,
    rows: Seq<SiteRow>,
)
    requires
        counted(listing, rows),
        ranked(rows),
    ensures
        counted_in_all(rows) == listing.len(),
{
    let sites = rows.map_values(|row: SiteRow| row.site);
    assert forall|i: int, j: int| 0 <= i < sites.len() && 0 <= j < sites.len() && i
        != j implies sites[i] != sites[j] by {
        if sites[i] == sites[j] {
            assert(rows[i].count == rows[j].count);
            lemma_ranking_is_transitive(rows[i], rows[j], rows[i]);
            text::lemma_precedes_is_total(rows[i].site, rows[i].site);
            if i < j {
                assert(ranks_before(rows[i], rows[j]));
            } else {
                assert(ranks_before(rows[j], rows[i]));
            }
        }
    }
    assert forall|k: int| 0 <= k < listing.len() implies sites.contains(
        (#[trigger] listing[k]).acquired_at,
    ) by {
        assert(has_row(rows, listing[k].acquired_at));
        let i = choose|i: int|
            0 <= i < rows.len() && (#[trigger] rows[i]).site == listing[k].acquired_at;
        assert(sites[i] == listing[k].acquired_at);
    }
    lemma_counts_are_slots(listing, rows);
    lemma_slots_at_all(listing, sites);
}

/// `counts` tell how many slots were acquired at each of `sites`. There is each place where a
/// slot was acquired, once, those with more slots first and those with as many in the order of
/// text.
pub open spec fn told_by_site(
    slots: Map<usize, LiveSlotModel>,
    sites: Seq<Seq<char>>,
    counts: Seq<nat>,
) -> bool {
    &&& sites.len() == counts.len()
    &&& forall|i: int, j: int|
        0 <= i < j < sites.len() ==> #[trigger] counts[i] > #[trigger] counts[j] || (counts[i]
            == counts[j] && text::precedes(sites[i], sites[j]))
    &&& forall|uid: usize| #[trigger]
        slots.contains_key(uid) ==> sites.contains(slots[uid].acquired_at)
    &&& forall|i: int|
        0 <= i < sites.len() ==> {
            &&& #[trigger] counts[i] > 0
            &&& counts[i] == slots.dom().filter(
                |uid: usize| slots[uid].acquired_at == sites[i],
            ).len()
        }
}

/// The slots of one place, told by a listing.
proof fn lemma_slots_of_a_site(
    slots: Map<usize, LiveSlotModel>,
    uids: Seq<usize>,
    site: Seq<char>,
)
    requires
        uids.no_duplicates(),
    ensures
        occurrences(uids.map_values(|uid: usize| slots[uid]), site) == uids.to_set().filter(
            |uid: usize| slots[uid].acquired_at == site,
        ).len(),
        uids.to_set().filter(|uid: usize| slots[uid].acquired_at == site).finite(),
    decreases uids.len(),
{
    let look = |uid: usize| slots[uid];
    let about = |uid: usize| slots[uid].acquired_at == site;
    let listing = uids.map_values(look);
    if uids.len() == 0 {
        assert(uids.to_set().filter(about) =~= Set::empty());
    } else {
        let fewer = uids.drop_last();
        assert(fewer.no_duplicates());
        lemma_slots_of_a_site(slots, fewer, site);
        listings::lemma_last_key_counts(uids, about);
        assert(listing.drop_last() =~= fewer.map_values(look));
        assert(listing.last() == slots[uids.last()]);
    }
}

/// The report on the places where slots were acquired tells each of them, with how many slots
/// were acquired there.
pub proof fn law_the_site_report_tells_every_slot(
    slots: Map<usize, LiveSlotModel>,
    report: Seq<char>,
)
    requires
        is_site_report(slots, report),
    ensures
        exists|sites: Seq<Seq<char>>, counts: Seq<nat>|
            {
                &&& #[trigger] told_by_site(slots, sites, counts)
                &&& report == text::join(
                    Seq::new(
                        sites.len(),
                        |i: int| text::decimal(counts[i]) + "× "@ + sites[i],
                    ),
                    " | "@,
                )
            },
{
    let (listing, rows) = choose|listing: Seq<LiveSlotModel>, rows: Seq<SiteRow>|
        {
            &&& #[trigger] live::listed_by(slots, listing)
            &&& #[trigger] counted(listing, rows)
            &&& ranked(rows)
            &&& report == site_report(rows)
        };
    let uids = choose|uids: Seq<usize>|
        {
            &&& uids.no_duplicates()
            &&& #[trigger] uids.to_set() == slots.dom()
            &&& listing == uids.map_values(|uid: usize| slots[uid])
        };
    let sites = rows.map_values(|row: SiteRow| row.site);
    let counts = rows.map_values(|row: SiteRow| row.count);
    assert forall|i: int, j: int| 0 <= i < j < sites.len() implies #[trigger] counts[i]
        > #[trigger] counts[j] || (counts[i] == counts[j] && text::precedes(
        sites[i],
        sites[j],
    )) by {
        assert(ranks_before(rows[i], rows[j]));
    }
    assert forall|uid: usize| #[trigger] slots.contains_key(uid) implies sites.contains(
        slots[uid].acquired_at,
    ) by {
        assert(uids.to_set().contains(uid));
        let k = choose|k: int| 0 <= k < uids.len() && uids[k] == uid;
        assert(listing[k] == slots[uid]);
        assert(has_row(rows, listing[k].acquired_at));
        let i = choose|i: int|
            0 <= i < rows.len() && (#[trigger] rows[i]).site == listing[k].acquired_at;
        assert(sites[i] == slots[uid].acquired_at);
    }
    assert forall|i: int| 0 <= i < sites.len() implies {
        &&& #[trigger] counts[i] > 0
        &&& counts[i] == slots.dom().filter(
            |uid: usize| slots[uid].acquired_at == sites[i],
        ).len()
    } by {
        assert(rows[i].count > 0);
        lemma_slots_of_a_site(slots, uids, sites[i]);
    }
    assert(told_by_site(slots, sites, counts));
    assert(rows.map_values(|row: SiteRow| row_text(row)) =~= Seq::new(
        sites.len(),
        |i: int| text::decimal(counts[i]) + "× "@ + sites[i],
    ));
}

} // verus!
