//! Sets of video identifiers.

use crate::text::{same, text_at_most, text_le, texts};
use vstd::prelude::*;

verus! {

/// A finite set of identifiers.
pub struct IdSet {
    items: Vec<String>,
}

impl View for IdSet {
    type V = Set<Seq<char>>;

    closed spec fn view(&self) -> Set<Seq<char>> {
        texts(self.items@).to_set()
    }
}

/// Whether every text comes no later than those behind it.
pub open spec fn in_order(items: Seq<Seq<char>>) -> bool {
    forall|i: int, j: int| 0 <= i <= j < items.len() ==> text_le(items[i], items[j])
}

/// `a` comes no later than itself.
pub proof fn text_le_reflexive(a: Seq<char>)
    ensures
        text_le(a, a),
    decreases a.len(),
{
    if a.len() > 0 {
        text_le_reflexive(a.drop_first());
    }
}

/// Of two texts one comes no later than the other.
pub proof fn text_le_total(a: Seq<char>, b: Seq<char>)
    ensures
        text_le(a, b) || text_le(b, a),
    decreases a.len(),
{
    if a.len() > 0 && b.len() > 0 && a[0] == b[0] {
        text_le_total(a.drop_first(), b.drop_first());
    }
}

/// The order of texts is transitive.
pub proof fn text_le_transitive(a: Seq<char>, b: Seq<char>, c: Seq<char>)
    requires
        text_le(a, b),
        text_le(b, c),
    ensures
        text_le(a, c),
    decreases a.len(),
{
    if a.len() > 0 && a[0] == b[0] && b[0] == c[0] {
        text_le_transitive(a.drop_first(), b.drop_first(), c.drop_first());
    }
}

/// Two texts of which neither comes later are equal.
pub proof fn text_le_antisymmetric(a: Seq<char>, b: Seq<char>)
    requires
        text_le(a, b),
        text_le(b, a),
    ensures
        a == b,
    decreases a.len(),
{
    if a.len() > 0 && b.len() > 0 {
        text_le_antisymmetric(a.drop_first(), b.drop_first());
        assert(a =~= seq![a[0]] + a.drop_first());
        assert(b =~= seq![b[0]] + b.drop_first());
    } else {
        assert(a =~= b);
    }
}

/// A set of texts is listed in order in one way only.
pub proof fn ordered_listing_is_unique(a: Seq<Seq<char>>, b: Seq<Seq<char>>)
    requires
        in_order(a),
        in_order(b),
        a.no_duplicates(),
        b.no_duplicates(),
        a.to_set() == b.to_set(),
    ensures
        a == b,
    decreases a.len(),
{
    a.unique_seq_to_set();
    b.unique_seq_to_set();
    if a.len() > 0 {
        assert(a.to_set().contains(a.last()));
        assert(b.to_set().contains(b.last()));
        let i = choose|i: int| 0 <= i < b.len() && b[i] == a.last();
        let j = choose|j: int| 0 <= j < a.len() && a[j] == b.last();
        assert(text_le(b[i], b[b.len() - 1]));
        assert(text_le(a[j], a[a.len() - 1]));
        text_le_antisymmetric(a.last(), b.last());
        let (x, y) = (a.drop_last(), b.drop_last());
        assert forall|t: Seq<char>| x.to_set().contains(t) == y.to_set().contains(t) by {
            if x.to_set().contains(t) {
                let k = choose|k: int| 0 <= k < x.len() && x[k] == t;
                assert(a[k] == t);
                assert(a.to_set().contains(t));
                assert(b.to_set().contains(t));
                let m = choose|m: int| 0 <= m < b.len() && b[m] == t;
                assert(m < b.len() - 1);
                assert(y[m] == t);
            }
            if y.to_set().contains(t) {
                let k = choose|k: int| 0 <= k < y.len() && y[k] == t;
                assert(b[k] == t);
                assert(b.to_set().contains(t));
                assert(a.to_set().contains(t));
                let m = choose|m: int| 0 <= m < a.len() && a[m] == t;
                assert(m < a.len() - 1);
                assert(x[m] == t);
            }
        }
        assert(x.to_set() =~= y.to_set());
        ordered_listing_is_unique(x, y);
        assert(a =~= x.push(a.last()));
        assert(b =~= y.push(b.last()));
    } else {
        assert(a =~= b);
    }
}

/// Where `id` stands in `items`.
pub fn position(items: &Vec<String>, id: &str) -> (r: Option<usize>)
    ensures
        match r {
            Some(i) => i < items.len() && texts(items@)[i as int] == id@ && forall|j: int|
                0 <= j < i ==> texts(items@)[j] != id@,
            None => !texts(items@).contains(id@),
        },
{
    let mut i: usize = 0;
    while i < items.len()
        invariant
            i <= items.len(),
            forall|j: int| 0 <= j < i ==> texts(items@)[j] != id@,
        decreases items.len() - i,
    {
        if same(items[i].as_str(), id) {
            return Some(i);
        }
        i += 1;
    }
    None
}

impl IdSet {
    /// No identifier is held twice.
    pub closed spec fn wf(&self) -> bool {
        texts(self.items@).no_duplicates()
    }

    /// The empty set.
    pub fn new() -> (r: Self)
        ensures
            r.wf(),
            r@ == Set::<Seq<char>>::empty(),
    {
        let r = IdSet { items: Vec::new() };
        assert(r@ =~= Set::<Seq<char>>::empty());
        r
    }

    /// The set of the identifiers in `ids`.
    pub fn from_ids(ids: &Vec<String>) -> (r: Self)
        ensures
            r.wf(),
            r@ == texts(ids@).to_set(),
    {
        let mut r = IdSet::new();
        let mut i: usize = 0;
        assert(texts(ids@).take(0).to_set() =~= Set::<Seq<char>>::empty());
        while i < ids.len()
            invariant
                i <= ids.len(),
                r.wf(),
                r@ == texts(ids@).take(i as int).to_set(),
            decreases ids.len() - i,
        {
            r.insert(ids[i].as_str());
            proof {
                let before = texts(ids@).take(i as int);
                assert(texts(ids@).take(i + 1) =~= before.push(ids@[i as int]@));
                before.lemma_push_to_set_commute(ids@[i as int]@);
            }
            i += 1;
        }
        assert(texts(ids@).take(ids@.len() as int) =~= texts(ids@));
        r
    }

    /// Whether `id` is in the set.
    pub fn contains(&self, id: &str) -> (r: bool)
        ensures
            r == self@.contains(id@),
    {
        position(&self.items, id).is_some()
    }

    /// The number of identifiers in the set.
    pub fn len(&self) -> (n: usize)
        requires
            self.wf(),
        ensures
            n == self@.len(),
    {
        proof {
            texts(self.items@).unique_seq_to_set();
        }
        self.items.len()
    }

    /// Adds `id`; tells whether it was missing.
    pub fn insert(&mut self, id: &str) -> (added: bool)
        requires
            old(self).wf(),
        ensures
            final(self).wf(),
            final(self)@ == old(self)@.insert(id@),
            added == !old(self)@.contains(id@),
    {
        if self.contains(id) {
            assert(self@ =~= old(self)@.insert(id@));
            return false;
        }
        let ghost before = texts(self.items@);
        self.items.push(id.to_owned());
        assert(texts(self.items@) =~= before.push(id@));
        proof {
            before.lemma_push_to_set_commute(id@);
            assert(!before.contains(id@)) by {
                assert(!before.to_set().contains(id@));
            }
        }
        true
    }

    /// Takes `id` out; tells whether it was there.
    pub fn remove(&mut self, id: &str) -> (removed: bool)
        requires
            old(self).wf(),
        ensures
            final(self).wf(),
            final(self)@ == old(self)@.remove(id@),
            removed == old(self)@.contains(id@),
    {
        match position(&self.items, id) {
            Some(i) => {
                let ghost before = texts(self.items@);
                self.items.remove(i);
                let ghost after = texts(self.items@);
                proof {
                    assert(after =~= before.remove(i as int));
                    assert(before.to_set().contains(before[i as int]));
                    assert forall|t: Seq<char>|
                        after.to_set().contains(t) == before.to_set().remove(id@).contains(t) by {
                        if after.to_set().contains(t) {
                            let k = choose|k: int| 0 <= k < after.len() && after[k] == t;
                            let m = if k < i { k } else { k + 1 };
                            assert(before[m] == t);
                            assert(before.to_set().contains(t));
                        }
                        if before.to_set().remove(id@).contains(t) {
                            let m = choose|m: int| 0 <= m < before.len() && before[m] == t;
                            let k = if m < i { m } else { m - 1 };
                            assert(after[k] == t);
                        }
                    }
                    assert(self@ =~= old(self)@.remove(id@));
                }
                true
            },
            None => {
                assert(self@ =~= old(self)@.remove(id@));
                false
            },
        }
    }

    /// The identifiers in the order of texts.
    pub fn sorted(&self) -> (r: Vec<String>)
        requires
            self.wf(),
        ensures
            in_order(texts(r@)),
            texts(r@).no_duplicates(),
            texts(r@).to_set() == self@,
    {
        let mut r: Vec<String> = Vec::new();
        let ghost all = texts(self.items@);
        let mut i: usize = 0;
        assert(texts(r@) =~= all.take(0));
        while i < self.items.len()
            invariant
                i <= self.items.len(),
                all == texts(self.items@),
                in_order(texts(r@)),
                texts(r@).to_multiset() == all.take(i as int).to_multiset(),
            decreases self.items.len() - i,
        {
            let id = self.items[i].as_str();
            let mut at: usize = 0;
            while at < r.len() && text_at_most(r[at].as_str(), id)
                invariant
                    at <= r.len(),
                    forall|k: int| 0 <= k < at ==> text_le(#[trigger] texts(r@)[k], id@),
                decreases r.len() - at,
            {
                assert(texts(r@)[at as int] == r@[at as int]@);
                at += 1;
            }
            let ghost before = texts(r@);
            proof {
                assert(at < r.len() ==> before[at as int] == r@[at as int]@);
                assert forall|k: int| at <= k < before.len() implies text_le(id@, before[k]) by {
                    text_le_total(before[at as int], id@);
                    text_le_transitive(id@, before[at as int], before[k]);
                }
                text_le_reflexive(id@);
            }
            r.insert(at, id.to_owned());
            proof {
                broadcast use vstd::seq_lib::group_to_multiset_ensures;

                assert(texts(r@) =~= before.insert(at as int, id@));
                assert(all.take(i + 1) =~= all.take(i as int).push(id@));
            }
            i += 1;
        }
        proof {
            broadcast use vstd::seq_lib::group_to_multiset_ensures;

            assert(all.take(all.len() as int) =~= all);
            all.lemma_multiset_has_no_duplicates();
            texts(r@).lemma_multiset_has_no_duplicates_conv();
            assert forall|t: Seq<char>| texts(r@).to_set().contains(t) == all.to_set().contains(
                t,
            ) by {
                assert(texts(r@).contains(t) <==> texts(r@).to_multiset().count(t) > 0);
                assert(all.contains(t) <==> all.to_multiset().count(t) > 0);
            }
            assert(texts(r@).to_set() =~= self@);
        }
        r
    }

    /// The set of what is in either set.
    pub fn union(&self, other: &Self) -> (r: Self)
        requires
            self.wf(),
            other.wf(),
        ensures
            r.wf(),
            r@ == self@.union(other@),
    {
        let mut r = IdSet::from_ids(&self.items);
        let ghost all = texts(other.items@);
        let mut i: usize = 0;
        assert(self@.union(all.take(0).to_set()) =~= self@);
        while i < other.items.len()
            invariant
                i <= other.items.len(),
                all == texts(other.items@),
                r.wf(),
                r@ == self@.union(all.take(i as int).to_set()),
            decreases other.items.len() - i,
        {
            r.insert(other.items[i].as_str());
            proof {
                assert(all.take(i + 1) =~= all.take(i as int).push(all[i as int]));
                all.take(i as int).lemma_push_to_set_commute(all[i as int]);
                assert(r@ =~= self@.union(all.take(i + 1).to_set()));
            }
            i += 1;
        }
        assert(all.take(all.len() as int) =~= all);
        r
    }
}

impl Clone for IdSet {
    fn clone(&self) -> (r: Self)
        ensures
            r@ == self@,
            self.wf() ==> r.wf(),
    {
        let items = self.items.clone();
        assert(items@ =~= self.items@);
        IdSet { items }
    }
}

} // verus!
