//! Sequences that list the same things in some order.

use crate::allocator::swapchain::live;
use crate::allocator::swapchain::live::LiveSlotModel;
use vstd::prelude::*;

verus! {

/// Inserting an element adds it to the multiset.
pub proof fn lemma_insert_to_multiset<A>(s: Seq<A>, i: int, a: A)
    requires
        0 <= i <= s.len(),
    ensures
        s.insert(i, a).to_multiset() == s.to_multiset().insert(a),
{
    let inserted = s.insert(i, a);
    assert(inserted.remove(i) =~= s);
    inserted.to_multiset_ensures();
    assert(inserted[i] == a);
    assert(inserted.contains(a));
    assert(inserted.to_multiset().count(a) > 0);
    assert(inserted.to_multiset().remove(a).insert(a) =~= inserted.to_multiset());
}

/// Sequences with equal multisets have the same members.
pub proof fn lemma_same_members<A>(s: Seq<A>, t: Seq<A>, a: A)
    requires
        s.to_multiset() == t.to_multiset(),
        s.contains(a),
    ensures
        t.contains(a),
{
    s.to_multiset_ensures();
    t.to_multiset_ensures();
    assert(s.to_multiset().count(a) > 0);
    assert(t.to_multiset().count(a) > 0);
}

/// Sequences without duplicates that have the same members have equal multisets.
pub proof fn lemma_same_set_same_multiset<A>(s: Seq<A>, t: Seq<A>)
    requires
        s.no_duplicates(),
        t.no_duplicates(),
        forall|a: A| s.contains(a) <==> #[trigger] t.contains(a),
    ensures
        s.to_multiset() == t.to_multiset(),
{
    s.lemma_multiset_has_no_duplicates();
    t.lemma_multiset_has_no_duplicates();
    s.to_multiset_ensures();
    t.to_multiset_ensures();
    assert forall|a: A| #[trigger] s.to_multiset().count(a) == t.to_multiset().count(a) by {
        assert(s.contains(a) <==> s.to_multiset().count(a) > 0);
        assert(t.contains(a) <==> t.to_multiset().count(a) > 0);
        if s.contains(a) {
            assert(t.contains(a));
            assert(s.to_multiset().contains(a));
            assert(t.to_multiset().contains(a));
        } else {
            assert(!t.contains(a));
        }
    }
    assert(s.to_multiset() =~= t.to_multiset());
}

/// Of two sequences with equal multisets, the second has the last element of the
/// first somewhere, and without it they still have equal multisets.
pub proof fn lemma_take_last<A>(s: Seq<A>, t: Seq<A>) -> (at: int)
    requires
        s.len() > 0,
        s.to_multiset() == t.to_multiset(),
    ensures
        0 <= at < t.len(),
        t[at] == s.last(),
        s.drop_last().to_multiset() == t.remove(at).to_multiset(),
        t == t.remove(at).insert(at, s.last()),
{
    let last = s.len() - 1;
    assert(s[last] == s.last());
    lemma_same_members(s, t, s.last());
    let at = choose|at: int| 0 <= at < t.len() && t[at] == s.last();
    s.to_multiset_ensures();
    t.to_multiset_ensures();
    assert(s.remove(last) =~= s.drop_last());
    assert(t =~= t.remove(at).insert(at, s.last()));
    at
}

/// Mapping keeps multisets equal.
pub proof fn lemma_map_keeps_multiset<A, B>(s: Seq<A>, t: Seq<A>, f: spec_fn(A) -> B)
    requires
        s.to_multiset() == t.to_multiset(),
    ensures
        s.map_values(f).to_multiset() == t.map_values(f).to_multiset(),
    decreases s.len(),
{
    s.to_multiset_ensures();
    t.to_multiset_ensures();
    if s.len() == 0 {
        assert(s.map_values(f) =~= t.map_values(f));
    } else {
        let at = lemma_take_last(s, t);
        let fewer = t.remove(at);
        lemma_map_keeps_multiset(s.drop_last(), fewer, f);
        let image = f(s.last());
        assert(s.map_values(f) =~= s.drop_last().map_values(f).insert(s.len() - 1, image));
        assert(t.map_values(f) =~= fewer.map_values(f).insert(at, image));
        lemma_insert_to_multiset(s.drop_last().map_values(f), s.len() - 1, image);
        lemma_insert_to_multiset(fewer.map_values(f), at, image);
    }
}

/// Two listings of the same slots have equal multisets.
pub proof fn lemma_listings_agree(
    slots: Map<usize, LiveSlotModel>,
    s: Seq<LiveSlotModel>,
    t: Seq<LiveSlotModel>,
)
    requires
        live::listed_by(slots, s),
        live::listed_by(slots, t),
    ensures
        s.to_multiset() == t.to_multiset(),
        s.len() == t.len(),
{
    let look = |uid: usize| slots[uid];
    let p = choose|uids: Seq<usize>|
        {
            &&& uids.no_duplicates()
            &&& #[trigger] uids.to_set() == slots.dom()
            &&& s == uids.map_values(|uid: usize| slots[uid])
        };
    let q = choose|uids: Seq<usize>|
        {
            &&& uids.no_duplicates()
            &&& #[trigger] uids.to_set() == slots.dom()
            &&& t == uids.map_values(|uid: usize| slots[uid])
        };
    assert forall|uid: usize| p.contains(uid) <==> #[trigger] q.contains(uid) by {
        assert(p.to_set().contains(uid) <==> p.contains(uid));
        assert(q.to_set().contains(uid) <==> q.contains(uid));
    }
    lemma_same_set_same_multiset(p, q);
    lemma_map_keeps_multiset(p, q, look);
    assert(s =~= p.map_values(look));
    assert(t =~= q.map_values(look));
    s.to_multiset_ensures();
    t.to_multiset_ensures();
}

/// One more of different keys adds one to those with a property, if it has it.
pub proof fn lemma_last_key_counts<A>(keys: Seq<A>, about: spec_fn(A) -> bool)
    requires
        keys.no_duplicates(),
        keys.len() > 0,
        keys.drop_last().to_set().filter(about).finite(),
    ensures
        keys.drop_last().no_duplicates(),
        keys.to_set().filter(about).finite(),
        keys.to_set().filter(about).len() == keys.drop_last().to_set().filter(about).len()
            + if about(keys.last()) {
            1nat
        } else {
            0nat
        },
{
    let fewer = keys.drop_last();
    let last = keys.last();
    assert(keys[keys.len() - 1] == last);
    assert(!fewer.contains(last)) by {
        if fewer.contains(last) {
            let i = choose|i: int| 0 <= i < fewer.len() && fewer[i] == last;
            assert(keys[i] == keys[keys.len() - 1]);
        }
    }
    assert forall|key: A| keys.contains(key) <==> fewer.contains(key) || key == last by {
        if keys.contains(key) {
            let i = choose|i: int| 0 <= i < keys.len() && keys[i] == key;
            if i < fewer.len() {
                assert(fewer[i] == key);
            }
        }
        if fewer.contains(key) {
            let i = choose|i: int| 0 <= i < fewer.len() && fewer[i] == key;
            assert(keys[i] == key);
        }
    }
    let some = fewer.to_set().filter(about);
    if about(last) {
        assert(keys.to_set().filter(about) =~= some.insert(last));
        assert(!some.contains(last));
    } else {
        assert(keys.to_set().filter(about) =~= some);
    }
}

/// Of the images of different things, one occurs as often as there are things with that
/// image.
pub proof fn lemma_count_of_images<A, B>(
    keys: Seq<A>,
    f: spec_fn(A) -> B,
    image: B,
    about: spec_fn(A) -> bool,
)
    requires
        keys.no_duplicates(),
        forall|key: A| #[trigger] about(key) <==> f(key) == image,
    ensures
        keys.map_values(f).to_multiset().count(image) == keys.to_set().filter(about).len(),
        keys.to_set().filter(about).finite(),
    decreases keys.len(),
{
    let images = keys.map_values(f);
    images.to_multiset_ensures();
    if keys.len() == 0 {
        assert(keys.to_set().filter(about) =~= Set::empty());
        assert(images =~= Seq::empty());
    } else {
        let fewer = keys.drop_last();
        let last = keys.last();
        lemma_count_of_images(fewer, f, image, about);
        assert(images =~= fewer.map_values(f).push(f(last)));
        fewer.map_values(f).to_multiset_ensures();
        lemma_last_key_counts(keys, about);
    }
}

} // verus!
