//! The cards on a tab, kept in step with the videos that it shows.

use crate::data::{ids_of, VideoView};
use crate::ids::position;
use crate::text::{same, texts};
use crate::ui::cards::{
    in_shown_order, lemma_list_distinct, lemma_order_unique, shown_before, watch_later_insert_position,
    watch_later_list, watch_later_videos_are_shown_newest_first,
};
use crate::ui::state::{AppState, StateView};
use crate::ui::videos::{index_of, lemma_index_of};
use vstd::prelude::*;

verus! {

/// A change of the cards that a tab shows.
#[derive(Debug)]
pub enum CardStep {
    /// Take a card away.
    Remove { video_id: String },
    /// Put a card that is there to another place, or to the end where there is no such place.
    Move { video_id: String, position: usize },
    /// Put a new card to a place, or to the end where there is no such place.
    Insert { video_id: String, position: usize },
}

/// What a [`CardStep`] holds.
#[verifier::ext_equal]
pub enum StepView {
    Remove { video_id: Seq<char> },
    Move { video_id: Seq<char>, position: int },
    Insert { video_id: Seq<char>, position: int },
}

impl View for CardStep {
    type V = StepView;

    open spec fn view(&self) -> StepView {
        match *self {
            CardStep::Remove { video_id } => StepView::Remove { video_id: video_id@ },
            CardStep::Move { video_id, position } => StepView::Move {
                video_id: video_id@,
                position: position as int,
            },
            CardStep::Insert { video_id, position } => StepView::Insert {
                video_id: video_id@,
                position: position as int,
            },
        }
    }
}

pub open spec fn step_views(steps: Seq<CardStep>) -> Seq<StepView> {
    steps.map_values(|step: CardStep| step@)
}

/// The items of `items` that are in `set`.
pub open spec fn kept_in(items: Seq<Seq<char>>, set: Set<Seq<char>>) -> Seq<Seq<char>>
    decreases items.len(),
{
    if items.len() == 0 {
        Seq::empty()
    } else {
        let kept = kept_in(items.drop_last(), set);
        if set.contains(items.last()) {
            kept.push(items.last())
        } else {
            kept
        }
    }
}

/// `items` with one put in at a place, or at the end where there is no such place.
pub open spec fn put_at(items: Seq<Seq<char>>, position: int, item: Seq<char>) -> Seq<Seq<char>> {
    if position <= items.len() {
        items.insert(position, item)
    } else {
        items.push(item)
    }
}

/// `items` without the first that is `item`.
pub open spec fn without_first(items: Seq<Seq<char>>, item: Seq<char>) -> Seq<Seq<char>> {
    match index_of(items, item) {
        Some(i) => items.remove(i),
        None => items,
    }
}

/// The cards after a step.
pub open spec fn after_step(order: Seq<Seq<char>>, step: StepView) -> Seq<Seq<char>> {
    match step {
        StepView::Remove { video_id } => without_first(order, video_id),
        StepView::Move { video_id, position } => put_at(
            without_first(order, video_id),
            position,
            video_id,
        ),
        StepView::Insert { video_id, position } => put_at(order, position, video_id),
    }
}

/// The cards after steps.
pub open spec fn after_steps(order: Seq<Seq<char>>, steps: Seq<StepView>) -> Seq<Seq<char>>
    decreases steps.len(),
{
    if steps.len() == 0 {
        order
    } else {
        after_step(after_steps(order, steps.drop_last()), steps.last())
    }
}

/// The step that brings the card of a video to its place: none where it is there already, or
/// where there is neither a card nor the video.
pub open spec fn placing_step(
    order: Seq<Seq<char>>,
    position: int,
    video_id: Seq<char>,
    known: Seq<Seq<char>>,
) -> Option<StepView> {
    if position < order.len() && order[position] == video_id {
        None
    } else if order.contains(video_id) {
        Some(StepView::Move { video_id, position })
    } else if known.contains(video_id) {
        Some(StepView::Insert { video_id, position })
    } else {
        None
    }
}

/// The steps that take away the cards, of the first `n`, that are not to be shown.
pub open spec fn removing_steps(order: Seq<Seq<char>>, desired: Set<Seq<char>>) -> Seq<StepView>
    decreases order.len(),
{
    if order.len() == 0 {
        Seq::empty()
    } else {
        let steps = removing_steps(order.drop_last(), desired);
        if desired.contains(order.last()) {
            steps
        } else {
            steps.push(StepView::Remove { video_id: order.last() })
        }
    }
}

/// The steps that bring the cards of the first `n` videos to their places.
pub open spec fn placing_steps(
    order: Seq<Seq<char>>,
    desired: Seq<Seq<char>>,
    n: nat,
    known: Seq<Seq<char>>,
) -> Seq<StepView>
    decreases n,
{
    if n == 0 {
        Seq::empty()
    } else {
        let steps = placing_steps(order, desired, (n - 1) as nat, known);
        match placing_step(after_steps(order, steps), n - 1, desired[n - 1], known) {
            Some(step) => steps.push(step),
            None => steps,
        }
    }
}

/// The cards before they are brought to their places: those that stay.
pub open spec fn staying(order: Seq<Seq<char>>, desired: Seq<Seq<char>>) -> Seq<Seq<char>> {
    kept_in(order, desired.to_set())
}

/// The cards after the first `n` are brought to their places.
pub open spec fn placed(
    order: Seq<Seq<char>>,
    desired: Seq<Seq<char>>,
    n: nat,
    known: Seq<Seq<char>>,
) -> Seq<Seq<char>> {
    after_steps(staying(order, desired), placing_steps(staying(order, desired), desired, n, known))
}

/// The cards that a tab shows once it is brought in step with the videos it is to show.
pub open spec fn populated(
    order: Seq<Seq<char>>,
    desired: Seq<Seq<char>>,
    known: Seq<Seq<char>>,
) -> Seq<Seq<char>> {
    placed(order, desired, desired.len(), known)
}

/// The steps that bring a tab in step with the videos it is to show.
pub open spec fn populating_steps(
    order: Seq<Seq<char>>,
    desired: Seq<Seq<char>>,
    known: Seq<Seq<char>>,
) -> Seq<StepView> {
    removing_steps(order, desired.to_set()) + placing_steps(
        staying(order, desired),
        desired,
        desired.len(),
        known,
    )
}

proof fn lemma_kept_add(a: Seq<Seq<char>>, b: Seq<Seq<char>>, set: Set<Seq<char>>)
    ensures
        kept_in(a + b, set) == kept_in(a, set) + kept_in(b, set),
    decreases b.len(),
{
    if b.len() == 0 {
        assert(a + b =~= a);
        assert(kept_in(a, set) + kept_in(b, set) =~= kept_in(a, set));
    } else {
        lemma_kept_add(a, b.drop_last(), set);
        assert((a + b).drop_last() =~= a + b.drop_last());
        assert((a + b).last() == b.last());
        assert(kept_in(a + b, set) =~= kept_in(a, set) + kept_in(b, set));
    }
}

proof fn lemma_kept_alike(items: Seq<Seq<char>>, s: Set<Seq<char>>, t: Set<Seq<char>>)
    requires
        forall|i: int|
            0 <= i < items.len() ==> s.contains(#[trigger] items[i]) == t.contains(items[i]),
    ensures
        kept_in(items, s) == kept_in(items, t),
    decreases items.len(),
{
    if items.len() > 0 {
        let rest = items.drop_last();
        assert forall|i: int| 0 <= i < rest.len() implies s.contains(#[trigger] rest[i])
            == t.contains(rest[i]) by {
            assert(rest[i] == items[i]);
        }
        lemma_kept_alike(rest, s, t);
        assert(items[items.len() - 1] == items.last());
    }
}

proof fn lemma_kept_none(items: Seq<Seq<char>>, set: Set<Seq<char>>)
    requires
        forall|i: int| 0 <= i < items.len() ==> !set.contains(#[trigger] items[i]),
    ensures
        kept_in(items, set) == Seq::<Seq<char>>::empty(),
    decreases items.len(),
{
    if items.len() > 0 {
        let rest = items.drop_last();
        assert forall|i: int| 0 <= i < rest.len() implies !set.contains(#[trigger] rest[i]) by {
            assert(rest[i] == items[i]);
        }
        lemma_kept_none(rest, set);
        assert(items[items.len() - 1] == items.last());
    }
}

proof fn lemma_kept_all(items: Seq<Seq<char>>, set: Set<Seq<char>>)
    requires
        forall|i: int| 0 <= i < items.len() ==> set.contains(#[trigger] items[i]),
    ensures
        kept_in(items, set) == items,
    decreases items.len(),
{
    if items.len() > 0 {
        let rest = items.drop_last();
        assert forall|i: int| 0 <= i < rest.len() implies set.contains(#[trigger] rest[i]) by {
            assert(rest[i] == items[i]);
        }
        lemma_kept_all(rest, set);
        assert(items[items.len() - 1] == items.last());
        assert(rest.push(items.last()) =~= items);
    } else {
        assert(kept_in(items, set) =~= items);
    }
}

pub proof fn lemma_kept_contains(items: Seq<Seq<char>>, set: Set<Seq<char>>)
    ensures
        forall|item: Seq<char>| #[trigger]
            kept_in(items, set).contains(item) <==> items.contains(item) && set.contains(item),
        items.no_duplicates() ==> kept_in(items, set).no_duplicates(),
    decreases items.len(),
{
    if items.len() > 0 {
        let rest = items.drop_last();
        lemma_kept_contains(rest, set);
        let kept = kept_in(rest, set);
        let after = kept_in(items, set);
        assert forall|item: Seq<char>| #[trigger] after.contains(item) <==> items.contains(item)
            && set.contains(item) by {
            if after.contains(item) {
                let m = choose|m: int| 0 <= m < after.len() && after[m] == item;
                if m < kept.len() {
                    assert(kept[m] == item);
                    assert(kept.contains(item));
                    let k = choose|k: int| 0 <= k < rest.len() && rest[k] == item;
                    assert(items[k] == item);
                } else {
                    assert(items[items.len() - 1] == item);
                }
            }
            if items.contains(item) && set.contains(item) {
                let k = choose|k: int| 0 <= k < items.len() && items[k] == item;
                if k < rest.len() {
                    assert(rest[k] == item);
                    assert(kept.contains(item));
                    let m = choose|m: int| 0 <= m < kept.len() && kept[m] == item;
                    assert(after[m] == item);
                } else {
                    assert(after[kept.len() as int] == item);
                }
            }
        }
        if items.no_duplicates() {
            assert forall|i: int, j: int| 0 <= i < rest.len() && 0 <= j < rest.len() && i != j implies rest[i]
                != rest[j] by {
                assert(items[i] != items[j]);
            }
            assert(!kept.contains(items.last())) by {
                if kept.contains(items.last()) {
                    assert(rest.contains(items.last()));
                    let k = choose|k: int| 0 <= k < rest.len() && rest[k] == items.last();
                    assert(items[k] != items[items.len() - 1]);
                }
            }
        }
    }
}

proof fn lemma_after_more(order: Seq<Seq<char>>, a: Seq<StepView>, b: Seq<StepView>)
    ensures
        after_steps(order, a + b) == after_steps(after_steps(order, a), b),
    decreases b.len(),
{
    if b.len() == 0 {
        assert(a + b =~= a);
    } else {
        lemma_after_more(order, a, b.drop_last());
        assert((a + b).drop_last() =~= a + b.drop_last());
        assert((a + b).last() == b.last());
    }
}

proof fn lemma_removed(order: Seq<Seq<char>>, desired: Set<Seq<char>>, k: nat)
    requires
        k <= order.len(),
    ensures
        after_steps(order, removing_steps(order.take(k as int), desired)) == kept_in(
            order.take(k as int),
            desired,
        ) + order.skip(k as int),
    decreases k,
{
    if k == 0 {
        assert(order.take(0) =~= Seq::<Seq<char>>::empty());
        assert(kept_in(order.take(0), desired) + order.skip(0) =~= order);
    } else {
        let j = (k - 1) as nat;
        lemma_removed(order, desired, j);
        assert(order.take(k as int).drop_last() =~= order.take(j as int));
        let kept = kept_in(order.take(j as int), desired);
        let rest = kept + order.skip(j as int);
        let item = order[j as int];
        if desired.contains(item) {
            assert(kept.push(item) + order.skip(k as int) =~= rest);
        } else {
            let steps = removing_steps(order.take(j as int), desired);
            let step = StepView::Remove { video_id: item };
            assert(steps.push(step).drop_last() =~= steps);
            lemma_kept_contains(order.take(j as int), desired);
            lemma_index_of(rest, item);
            assert(rest[kept.len() as int] == item);
            match index_of(rest, item) {
                Some(i) => {
                    if i < kept.len() {
                        assert(kept[i] == item);
                        assert(kept.contains(item));
                    }
                    assert(i == kept.len());
                },
                None => {
                    assert(rest.contains(item));
                },
            }
            assert(rest.remove(kept.len() as int) =~= kept + order.skip(k as int));
        }
    }
}

/// Taking the steps one after another brings the cards that were shown to those that are to
/// be shown.
pub proof fn steps_lead_to_the_new_cards(
    order: Seq<Seq<char>>,
    desired: Seq<Seq<char>>,
    known: Seq<Seq<char>>,
)
    ensures
        after_steps(order, populating_steps(order, desired, known)) == populated(
            order,
            desired,
            known,
        ),
{
    lemma_removed(order, desired.to_set(), order.len());
    assert(order.take(order.len() as int) =~= order);
    assert(staying(order, desired) + order.skip(order.len() as int) =~= staying(order, desired));
    lemma_after_more(
        order,
        removing_steps(order, desired.to_set()),
        placing_steps(staying(order, desired), desired, desired.len(), known),
    );
}

/// The identifiers that can be shown: those with a card and those of known videos.
pub open spec fn available(order: Seq<Seq<char>>, known: Seq<Seq<char>>) -> Set<Seq<char>> {
    order.to_set().union(known.to_set())
}

/// How far the cards are in their places after `n` of them were brought there: those that were
/// are in the right order and stand before the place of the next.
spec fn in_place(
    order: Seq<Seq<char>>,
    desired: Seq<Seq<char>>,
    n: nat,
    known: Seq<Seq<char>>,
) -> bool {
    let now = placed(order, desired, n, known);
    let front = desired.take(n as int);
    &&& now.no_duplicates()
    &&& kept_in(now, front.to_set()) == kept_in(front, available(order, known))
    &&& forall|i: int| 0 <= i < now.len() && front.contains(#[trigger] now[i]) ==> i < n
    &&& forall|i: int|
        0 <= i < now.len() ==> desired.contains(#[trigger] now[i]) && available(
            order,
            known,
        ).contains(now[i])
    &&& forall|id: Seq<char>| #[trigger]
        staying(order, desired).contains(id) ==> now.contains(id)
}

proof fn lemma_put_in_place(
    base: Seq<Seq<char>>,
    position: int,
    id: Seq<char>,
    front: Seq<Seq<char>>,
    set: Set<Seq<char>>,
)
    requires
        0 <= position,
        base.no_duplicates(),
        !base.contains(id),
        !front.contains(id),
        set.contains(id),
        kept_in(base, front.to_set()) == kept_in(front, set),
        forall|i: int| 0 <= i < base.len() && front.contains(#[trigger] base[i]) ==> i < position,
    ensures
        ({
            let now = put_at(base, position, id);
            let next = front.push(id);
            &&& now.no_duplicates()
            &&& kept_in(now, next.to_set()) == kept_in(next, set)
            &&& forall|i: int|
                0 <= i < now.len() && next.contains(#[trigger] now[i]) ==> i < position + 1
            &&& forall|other: Seq<char>| #[trigger]
                now.contains(other) <==> base.contains(other) || other == id
        }),
{
    let now = put_at(base, position, id);
    let next = front.push(id);
    let m = if position <= base.len() { position } else { base.len() as int };
    let (a, b) = (base.take(m), base.skip(m));
    assert(now =~= a + seq![id] + b);
    assert(base =~= a + b);
    assert forall|x: Seq<char>| next.to_set().contains(x) <==> front.to_set().contains(x) || x
        == id by {
        if front.contains(x) {
            let k = choose|k: int| 0 <= k < front.len() && front[k] == x;
            assert(next[k] == x);
        }
        assert(next[front.len() as int] == id);
        if next.contains(x) {
            let k = choose|k: int| 0 <= k < next.len() && next[k] == x;
            if k < front.len() {
                assert(front[k] == x);
            }
        }
    }
    assert forall|i: int| 0 <= i < b.len() implies !front.to_set().contains(#[trigger] b[i])
        && !next.to_set().contains(b[i]) by {
        assert(b[i] == base[i + m]);
        assert(base.contains(base[i + m]));
    }
    assert forall|i: int| 0 <= i < a.len() implies front.to_set().contains(#[trigger] a[i])
        == next.to_set().contains(a[i]) by {
        assert(a[i] == base[i]);
        assert(base.contains(base[i]));
    }
    lemma_kept_add(a, b, front.to_set());
    lemma_kept_none(b, front.to_set());
    lemma_kept_add(a + seq![id], b, next.to_set());
    lemma_kept_add(a, seq![id], next.to_set());
    lemma_kept_none(b, next.to_set());
    lemma_kept_alike(a, front.to_set(), next.to_set());
    lemma_kept_all(seq![id], next.to_set());
    assert(next.drop_last() =~= front);
    assert(kept_in(now, next.to_set()) =~= kept_in(next, set));
    assert forall|i: int| 0 <= i < now.len() && next.contains(#[trigger] now[i]) implies i < position
        + 1 by {
        if i > m {
            assert(now[i] == b[i - m - 1]);
        }
    }
    assert forall|i: int, j: int| 0 <= i < now.len() && 0 <= j < now.len() && i != j implies now[i]
        != now[j] by {
        let p = if i < m { i } else { i - 1 };
        let q = if j < m { j } else { j - 1 };
        if i != m {
            assert(now[i] == base[p]);
            assert(base.contains(base[p]));
        }
        if j != m {
            assert(now[j] == base[q]);
            assert(base.contains(base[q]));
        }
        if i != m && j != m {
            assert(base[p] != base[q]);
        }
    }
    assert forall|other: Seq<char>| #[trigger] now.contains(other) <==> base.contains(other)
        || other == id by {
        if base.contains(other) {
            let k = choose|k: int| 0 <= k < base.len() && base[k] == other;
            assert(now[if k < m { k } else { k + 1 }] == other);
        }
        assert(now[m] == id);
        if now.contains(other) {
            let k = choose|k: int| 0 <= k < now.len() && now[k] == other;
            if k < m {
                assert(base[k] == other);
            } else if k > m {
                assert(base[k - 1] == other);
            }
        }
    }
}

proof fn lemma_without_first(base: Seq<Seq<char>>, id: Seq<char>, front: Set<Seq<char>>)
    requires
        base.no_duplicates(),
        base.contains(id),
        !front.contains(id),
    ensures
        without_first(base, id).no_duplicates(),
        !without_first(base, id).contains(id),
        kept_in(without_first(base, id), front) == kept_in(base, front),
        without_first(base, id).len() == base.len() - 1,
        forall|other: Seq<char>| #[trigger]
            without_first(base, id).contains(other) <==> base.contains(other) && other != id,
        forall|i: int|
            0 <= i < base.len() - 1 ==> exists|j: int|
                i <= j < base.len() && base[j] == #[trigger] without_first(base, id)[i],
{
    lemma_index_of(base, id);
    let k = index_of(base, id)->0;
    let less = base.remove(k);
    let (a, b) = (base.take(k), base.skip(k + 1));
    assert(base =~= a + seq![id] + b);
    assert(less =~= a + b);
    lemma_kept_add(a + seq![id], b, front);
    lemma_kept_add(a, seq![id], front);
    lemma_kept_none(seq![id], front);
    lemma_kept_add(a, b, front);
    assert(kept_in(less, front) =~= kept_in(base, front));
    assert forall|i: int, j: int| 0 <= i < less.len() && 0 <= j < less.len() && i != j implies less[i]
        != less[j] by {
        let p = if i < k { i } else { i + 1 };
        let q = if j < k { j } else { j + 1 };
        assert(base[p] != base[q]);
    }
    assert forall|other: Seq<char>| #[trigger] less.contains(other) <==> base.contains(other)
        && other != id by {
        if less.contains(other) {
            let i = choose|i: int| 0 <= i < less.len() && less[i] == other;
            let p = if i < k { i } else { i + 1 };
            assert(base[p] == other);
            assert(base[p] != base[k]);
        }
        if base.contains(other) && other != id {
            let p = choose|p: int| 0 <= p < base.len() && base[p] == other;
            assert(less[if p < k { p } else { p - 1 }] == other);
        }
    }
    assert forall|i: int| 0 <= i < base.len() - 1 implies exists|j: int|
        i <= j < base.len() && base[j] == #[trigger] less[i] by {
        assert(base[if i < k { i } else { i + 1 }] == less[i]);
    }
}

proof fn lemma_in_place(
    order: Seq<Seq<char>>,
    desired: Seq<Seq<char>>,
    n: nat,
    known: Seq<Seq<char>>,
)
    requires
        n <= desired.len(),
        order.no_duplicates(),
        desired.no_duplicates(),
    ensures
        in_place(order, desired, n, known),
    decreases n,
{
    let base = staying(order, desired);
    let set = available(order, known);
    if n == 0 {
        lemma_kept_contains(order, desired.to_set());
        let front = desired.take(0);
        assert(placed(order, desired, 0, known) == base);
        lemma_kept_none(base, front.to_set());
        assert(kept_in(front, set) =~= Seq::<Seq<char>>::empty());
        assert forall|i: int| 0 <= i < base.len() implies desired.contains(#[trigger] base[i])
            && set.contains(base[i]) by {
            assert(base.contains(base[i]));
        }
    } else {
        let m = (n - 1) as nat;
        lemma_in_place(order, desired, m, known);
        let before = placed(order, desired, m, known);
        let now = placed(order, desired, n, known);
        let front = desired.take(m as int);
        let next = desired.take(n as int);
        let id = desired[m as int];
        let steps = placing_steps(base, desired, m, known);
        let step = placing_step(before, m as int, id, known);
        assert(next =~= front.push(id));
        assert(!front.contains(id)) by {
            if front.contains(id) {
                let k = choose|k: int| 0 <= k < front.len() && front[k] == id;
                assert(desired[k] != desired[m as int]);
            }
        }
        match step {
            Some(s) => {
                assert(placing_steps(base, desired, n, known) == steps.push(s));
                assert(steps.push(s).drop_last() =~= steps);
                assert(now == after_step(before, s));
            },
            None => {
                assert(now == before);
            },
        }
        assert(desired.contains(id));
        if m < before.len() && before[m as int] == id {
            let less = without_first(before, id);
            assert(before.contains(id));
            lemma_without_first(before, id, front.to_set());
            lemma_index_of(before, id);
            assert(index_of(before, id) == Some(m as int)) by {
                let k = index_of(before, id)->0;
                if k != m {
                    assert(before[k] != before[m as int]);
                }
            }
            assert(put_at(less, m as int, id) =~= before);
            assert forall|i: int| 0 <= i < less.len() && front.contains(#[trigger] less[i]) implies i
                < m by {
                let j = choose|j: int| i <= j < before.len() && before[j] == less[i];
                assert(front.contains(before[j]));
            }
            lemma_put_in_place(less, m as int, id, front, set);
        } else if before.contains(id) {
            let less = without_first(before, id);
            lemma_without_first(before, id, front.to_set());
            let k = choose|k: int| 0 <= k < before.len() && before[k] == id;
            assert(set.contains(before[k]));
            assert forall|i: int| 0 <= i < less.len() && front.contains(#[trigger] less[i]) implies i
                < m by {
                let j = choose|j: int| i <= j < before.len() && before[j] == less[i];
                assert(front.contains(before[j]));
            }
            lemma_put_in_place(less, m as int, id, front, set);
            assert(now == put_at(less, m as int, id));
        } else if known.contains(id) {
            lemma_put_in_place(before, m as int, id, front, set);
            assert(now == put_at(before, m as int, id));
        } else {
            assert(!set.contains(id)) by {
                if order.contains(id) {
                    lemma_kept_contains(order, desired.to_set());
                    assert(base.contains(id));
                    assert(before.contains(id));
                }
            }
            assert(next.drop_last() =~= front);
            assert forall|i: int| 0 <= i < before.len() implies front.to_set().contains(
                #[trigger] before[i],
            ) == next.to_set().contains(before[i]) by {
                assert(before.contains(before[i]));
                if front.contains(before[i]) {
                    let k = choose|k: int| 0 <= k < front.len() && front[k] == before[i];
                    assert(next[k] == before[i]);
                }
                if next.contains(before[i]) {
                    let k = choose|k: int| 0 <= k < next.len() && next[k] == before[i];
                    if k < m {
                        assert(front[k] == before[i]);
                    }
                }
            }
            lemma_kept_alike(before, front.to_set(), next.to_set());
            assert forall|i: int| 0 <= i < now.len() && next.contains(#[trigger] now[i]) implies i
                < n by {
                assert(next.to_set().contains(before[i]));
                assert(front.to_set().contains(before[i]));
                assert(front.contains(now[i]));
            }
        }
        assert forall|i: int| 0 <= i < now.len() implies desired.contains(#[trigger] now[i])
            && set.contains(now[i]) by {
            assert(now.contains(now[i]));
            if now[i] != id {
                assert(before.contains(now[i]));
                let k = choose|k: int| 0 <= k < before.len() && before[k] == now[i];
                assert(desired.contains(before[k]));
                assert(set.contains(before[k]));
            } else if before.contains(id) {
                let k = choose|k: int| 0 <= k < before.len() && before[k] == id;
                assert(set.contains(before[k]));
            }
        }
        assert forall|other: Seq<char>| #[trigger] base.contains(other) implies now.contains(
            other,
        ) by {
            assert(before.contains(other));
        }
    }
}

/// A tab that is brought in step shows the videos that it is to show, in their order, except
/// those that there is neither a card nor a video of.
pub proof fn tabs_show_what_they_are_to_show(
    order: Seq<Seq<char>>,
    desired: Seq<Seq<char>>,
    known: Seq<Seq<char>>,
)
    requires
        order.no_duplicates(),
        desired.no_duplicates(),
    ensures
        populated(order, desired, known) == kept_in(desired, available(order, known)),
{
    lemma_in_place(order, desired, desired.len(), known);
    let now = populated(order, desired, known);
    assert(desired.take(desired.len() as int) =~= desired);
    assert forall|i: int| 0 <= i < now.len() implies desired.to_set().contains(#[trigger] now[i]) by {
        assert(desired.contains(now[i]));
    }
    lemma_kept_all(now, desired.to_set());
}

/// The cards that a tab shows, in their order.
pub struct TabCards {
    order: Vec<String>,
}

impl View for TabCards {
    type V = Seq<Seq<char>>;

    closed spec fn view(&self) -> Seq<Seq<char>> {
        texts(self.order@)
    }
}

/// The cards after the watch-later tab took note of one video: its card goes when the video is
/// not on the list; when it is, and has no card yet, the card comes in its place.
pub open spec fn synced(order: Seq<Seq<char>>, state: StateView, video_id: Seq<char>) -> Seq<
    Seq<char>,
> {
    match sync_step(order, state, video_id) {
        Some(step) => after_step(order, step),
        None => order,
    }
}

/// What the watch-later tab does to take note of one video.
pub open spec fn sync_step(
    order: Seq<Seq<char>>,
    state: StateView,
    video_id: Seq<char>,
) -> Option<StepView> {
    if !state.watch_later.contains(video_id) {
        if order.contains(video_id) {
            Some(StepView::Remove { video_id })
        } else {
            None
        }
    } else if order.contains(video_id) {
        None
    } else {
        match index_of(ids_of(watch_later_list(state.videos, state.watch_later)), video_id) {
            Some(position) => Some(StepView::Insert { video_id, position }),
            None => None,
        }
    }
}

fn owned_copy(text: &String) -> (r: String)
    ensures
        r@ == text@,
{
    text.clone()
}

proof fn lemma_put_distinct(base: Seq<Seq<char>>, position: int, id: Seq<char>)
    requires
        0 <= position,
        base.no_duplicates(),
        !base.contains(id),
    ensures
        put_at(base, position, id).no_duplicates(),
{
    let now = put_at(base, position, id);
    let m = if position <= base.len() { position } else { base.len() as int };
    assert forall|i: int, j: int| 0 <= i < now.len() && 0 <= j < now.len() && i != j implies now[i]
        != now[j] by {
        let p = if i < m { i } else { i - 1 };
        let q = if j < m { j } else { j - 1 };
        if i != m {
            assert(base.contains(base[p]));
        }
        if j != m {
            assert(base.contains(base[q]));
        }
        if i != m && j != m {
            assert(base[p] != base[q]);
        }
    }
}

impl TabCards {
    /// No video has two cards.
    pub closed spec fn wf(&self) -> bool {
        self@.no_duplicates()
    }

    /// No video has two cards.
    pub proof fn lemma_distinct(&self)
        requires
            self.wf(),
        ensures
            self@.no_duplicates(),
    {
    }

    /// No cards.
    pub fn new() -> (r: Self)
        ensures
            r.wf(),
            r@ == Seq::<Seq<char>>::empty(),
    {
        let r = TabCards { order: Vec::new() };
        assert(r@ =~= Seq::<Seq<char>>::empty());
        r
    }

    /// The videos whose cards are shown, in their order.
    pub fn order(&self) -> (r: &Vec<String>)
        ensures
            texts(r@) == self@,
    {
        &self.order
    }

    fn put(&mut self, at: usize, video_id: &str)
        requires
            old(self).wf(),
            !old(self)@.contains(video_id@),
        ensures
            final(self).wf(),
            final(self)@ == put_at(old(self)@, at as int, video_id@),
    {
        let ghost before = self@;
        proof {
            lemma_put_distinct(before, at as int, video_id@);
        }
        let id = video_id.to_owned();
        if at <= self.order.len() {
            self.order.insert(at, id);
            assert(self@ =~= before.insert(at as int, id@));
        } else {
            self.order.push(id);
            assert(self@ =~= before.push(id@));
        }
    }

    fn take_first(&mut self, video_id: &str) -> (found: bool)
        requires
            old(self).wf(),
        ensures
            final(self).wf(),
            !final(self)@.contains(video_id@),
            found == old(self)@.contains(video_id@),
            final(self)@ == without_first(old(self)@, video_id@),
    {
        let ghost before = self@;
        proof {
            lemma_index_of(before, video_id@);
        }
        match position(&self.order, video_id) {
            Some(i) => {
                assert(before[i as int] == video_id@);
                assert(before.contains(video_id@));
                assert(index_of(before, video_id@) == Some(i as int));
                self.order.remove(i);
                assert(self@ =~= before.remove(i as int));
                proof {
                    lemma_without_first(before, video_id@, Set::empty());
                }
                true
            },
            None => false,
        }
    }

    /// Takes away the cards that are not to be shown; gives the steps.
    fn remove_stale(&mut self, desired: &Vec<String>) -> (steps: Vec<CardStep>)
        requires
            old(self).wf(),
        ensures
            final(self).wf(),
            final(self)@ == staying(old(self)@, texts(desired@)),
            step_views(steps@) == removing_steps(old(self)@, texts(desired@).to_set()),
    {
        let ghost all = self@;
        let ghost set = texts(desired@).to_set();
        let mut steps: Vec<CardStep> = Vec::new();
        let mut kept: Vec<String> = Vec::new();
        let mut i: usize = 0;
        assert(texts(kept@) =~= kept_in(all.take(0), set));
        assert(step_views(steps@) =~= removing_steps(all.take(0), set));
        while i < self.order.len()
            invariant
                i <= self.order.len(),
                all == self@,
                self.wf(),
                set == texts(desired@).to_set(),
                texts(kept@) == kept_in(all.take(i as int), set),
                step_views(steps@) == removing_steps(all.take(i as int), set),
            decreases self.order.len() - i,
        {
            let ghost kept_before = texts(kept@);
            let ghost steps_before = step_views(steps@);
            assert(all.take(i + 1).drop_last() =~= all.take(i as int));
            assert(all.take(i + 1).last() == self.order@[i as int]@);
            let id = owned_copy(&self.order[i]);
            match position(desired, id.as_str()) {
                Some(k) => {
                    assert(texts(desired@)[k as int] == id@);
                    assert(texts(desired@).contains(id@));
                    kept.push(id);
                    assert(texts(kept@) =~= kept_before.push(id@));
                },
                None => {
                    assert(!set.contains(id@));
                    let step = CardStep::Remove { video_id: id };
                    steps.push(step);
                    assert(step_views(steps@) =~= steps_before.push(step@));
                },
            }
            i += 1;
        }
        proof {
            assert(all.take(all.len() as int) =~= all);
            lemma_kept_contains(all, set);
        }
        self.order = kept;
        steps
    }

    /// Brings the cards in step with the videos that are to be shown; gives the steps, in the
    /// order in which they are to be taken. Cards that stay in their places are left alone.
    pub fn populate_flow_box(&mut self, desired: &Vec<String>, state: &AppState) -> (steps: Vec<
        CardStep,
    >)
        requires
            old(self).wf(),
            state.wf(),
        ensures
            final(self).wf(),
            final(self)@ == populated(old(self)@, texts(desired@), ids_of(state@.videos)),
            step_views(steps@) == populating_steps(
                old(self)@,
                texts(desired@),
                ids_of(state@.videos),
            ),
    {
        let ghost order = self@;
        let ghost wanted = texts(desired@);
        let ghost known = ids_of(state@.videos);
        let mut steps = self.remove_stale(desired);
        let ghost base = self@;
        let ghost removing = step_views(steps@);
        let mut i: usize = 0;
        assert(step_views(steps@) =~= removing + placing_steps(base, wanted, 0, known));
        while i < desired.len()
            invariant
                i <= desired.len(),
                self.wf(),
                state.wf(),
                wanted == texts(desired@),
                known == ids_of(state@.videos),
                base == staying(order, wanted),
                self@ == placed(order, wanted, i as nat, known),
                step_views(steps@) == removing + placing_steps(base, wanted, i as nat, known),
            decreases desired.len() - i,
        {
            let ghost before = self@;
            let ghost taken = placing_steps(base, wanted, i as nat, known);
            let ghost so_far = step_views(steps@);
            let ghost id = wanted[i as int];
            proof {
                assert(id == desired@[i as int]@);
                lemma_index_of(known, id);
            }
            let in_place = i < self.order.len() && same(
                self.order[i].as_str(),
                desired[i].as_str(),
            );
            assert(in_place == (i < before.len() && before[i as int] == id));
            if !in_place {
                if self.take_first(desired[i].as_str()) {
                    let step = CardStep::Move { video_id: desired[i].clone(), position: i };
                    self.put(i, desired[i].as_str());
                    steps.push(step);
                    assert(taken.push(step@).drop_last() =~= taken);
                    assert(step_views(steps@) =~= so_far.push(step@));
                    assert(so_far.push(step@) =~= removing + taken.push(step@));
                } else if state.video_by_id(desired[i].as_str()).is_some() {
                    assert(self@ == before) by {
                        lemma_index_of(before, id);
                    }
                    assert(known.contains(id));
                    let step = CardStep::Insert { video_id: desired[i].clone(), position: i };
                    self.put(i, desired[i].as_str());
                    steps.push(step);
                    assert(taken.push(step@).drop_last() =~= taken);
                    assert(step_views(steps@) =~= so_far.push(step@));
                    assert(so_far.push(step@) =~= removing + taken.push(step@));
                } else {
                    assert(self@ == before) by {
                        lemma_index_of(before, id);
                    }
                }
            }
            i += 1;
        }
        steps
    }

    /// Lets the watch-later tab take note of one video; gives what is to be done.
    pub fn sync_watch_later_card(&mut self, state: &AppState, video_id: &str) -> (step: Option<
        CardStep,
    >)
        requires
            old(self).wf(),
            state.wf(),
        ensures
            final(self).wf(),
            final(self)@ == synced(old(self)@, state@, video_id@),
            match step {
                Some(step) => sync_step(old(self)@, state@, video_id@) == Some(step@),
                None => sync_step(old(self)@, state@, video_id@) is None,
            },
    {
        let ghost before = self@;
        proof {
            lemma_index_of(before, video_id@);
        }
        if !state.watch_later().contains(video_id) {
            if self.take_first(video_id) {
                return Some(CardStep::Remove { video_id: video_id.to_owned() });
            }
            return None;
        }
        match position(&self.order, video_id) {
            Some(i) => {
                assert(before[i as int] == video_id@);
                assert(before.contains(video_id@));
                None
            },
            None => {
                match watch_later_insert_position(state, video_id) {
                    Some(at) => {
                        self.put(at, video_id);
                        Some(CardStep::Insert { video_id: video_id.to_owned(), position: at })
                    },
                    None => None,
                }
            },
        }
    }
}

/// After a video is put on the watch-later list or taken off it, taking note of it alone
/// brings the watch-later tab in step: where the tab showed the list before, it shows the list
/// now.
pub proof fn syncing_keeps_the_watch_later_tab_in_step(
    state: StateView,
    watch_later: Set<Seq<char>>,
    video_id: Seq<char>,
)
    requires
        ids_of(state.videos).no_duplicates(),
        forall|id: Seq<char>|
            id != video_id ==> watch_later.contains(id) == state.watch_later.contains(id),
    ensures
        synced(ids_of(watch_later_list(state.videos, watch_later)), state, video_id) == ids_of(
            watch_later_list(state.videos, state.watch_later),
        ),
{
    let old_list = watch_later_list(state.videos, watch_later);
    let new_list = watch_later_list(state.videos, state.watch_later);
    watch_later_videos_are_shown_newest_first(state.videos, watch_later);
    watch_later_videos_are_shown_newest_first(state.videos, state.watch_later);
    lemma_list_distinct(state.videos, watch_later);
    lemma_list_distinct(state.videos, state.watch_later);
    lemma_index_of(ids_of(old_list), video_id);
    lemma_index_of(ids_of(new_list), video_id);
    if state.watch_later.contains(video_id) {
        match index_of(ids_of(new_list), video_id) {
            Some(p) => {
                if watch_later.contains(video_id) {
                    lemma_same_videos(old_list, new_list, state.videos, watch_later, state.watch_later);
                    assert(ids_of(old_list)[p] == video_id);
                    assert(ids_of(old_list).contains(video_id));
                } else {
                    lemma_unlisted(new_list, old_list, p, video_id);
                    assert(!ids_of(old_list).contains(video_id)) by {
                        if ids_of(old_list).contains(video_id) {
                            let k = choose|k: int|
                                0 <= k < ids_of(old_list).len() && ids_of(old_list)[k] == video_id;
                            assert(old_list.contains(old_list[k]));
                        }
                    }
                    assert(ids_of(old_list).insert(p, video_id) =~= ids_of(new_list));
                }
            },
            None => {
                assert forall|video: VideoView| old_list.contains(video) <==> new_list.contains(
                    video,
                ) by {
                    if state.videos.contains(video) && video.video_id == video_id {
                        assert(new_list.contains(video));
                        let k = choose|k: int| 0 <= k < new_list.len() && new_list[k] == video;
                        assert(ids_of(new_list)[k] == video_id);
                    }
                }
                lemma_order_unique(old_list, new_list);
            },
        }
    } else {
        match index_of(ids_of(old_list), video_id) {
            Some(p) => {
                lemma_unlisted(old_list, new_list, p, video_id);
                assert(ids_of(old_list).contains(video_id));
                assert(ids_of(old_list).remove(p) =~= ids_of(new_list));
            },
            None => {
                assert forall|video: VideoView| old_list.contains(video) <==> new_list.contains(
                    video,
                ) by {
                    if state.videos.contains(video) && video.video_id == video_id
                        && old_list.contains(video) {
                        let k = choose|k: int| 0 <= k < old_list.len() && old_list[k] == video;
                        assert(ids_of(old_list)[k] == video_id);
                    }
                }
                lemma_order_unique(old_list, new_list);
            },
        }
    }
}

proof fn lemma_same_videos(
    a: Seq<VideoView>,
    b: Seq<VideoView>,
    videos: Seq<VideoView>,
    s: Set<Seq<char>>,
    t: Set<Seq<char>>,
)
    requires
        in_shown_order(a),
        in_shown_order(b),
        ids_of(a).no_duplicates(),
        ids_of(b).no_duplicates(),
        forall|id: Seq<char>| s.contains(id) == t.contains(id),
        forall|video: VideoView| #[trigger]
            a.contains(video) <==> videos.contains(video) && s.contains(video.video_id),
        forall|video: VideoView| #[trigger]
            b.contains(video) <==> videos.contains(video) && t.contains(video.video_id),
    ensures
        a == b,
{
    assert forall|video: VideoView| a.contains(video) <==> b.contains(video) by {
        assert(s.contains(video.video_id) == t.contains(video.video_id));
    }
    lemma_order_unique(a, b);
}

proof fn lemma_unlisted(
    list: Seq<VideoView>,
    less: Seq<VideoView>,
    p: int,
    video_id: Seq<char>,
)
    requires
        in_shown_order(list),
        in_shown_order(less),
        ids_of(list).no_duplicates(),
        ids_of(less).no_duplicates(),
        0 <= p < list.len(),
        list[p].video_id == video_id,
        forall|video: VideoView| #[trigger]
            less.contains(video) <==> list.contains(video) && video.video_id != video_id,
    ensures
        list.remove(p) == less,
{
    let rest = list.remove(p);
    assert forall|i: int, j: int| 0 <= i < j < rest.len() implies shown_before(
        #[trigger] rest[i],
        #[trigger] rest[j],
    ) by {
        let a = if i < p { i } else { i + 1 };
        let b = if j < p { j } else { j + 1 };
        assert(shown_before(list[a], list[b]));
    }
    assert forall|i: int, j: int|
        0 <= i < ids_of(rest).len() && 0 <= j < ids_of(rest).len() && i != j implies ids_of(rest)[i]
        != ids_of(rest)[j] by {
        let a = if i < p { i } else { i + 1 };
        let b = if j < p { j } else { j + 1 };
        assert(ids_of(list)[a] != ids_of(list)[b]);
    }
    assert forall|video: VideoView| rest.contains(video) <==> less.contains(video) by {
        if rest.contains(video) {
            let i = choose|i: int| 0 <= i < rest.len() && rest[i] == video;
            let a = if i < p { i } else { i + 1 };
            assert(list[a] == video);
            assert(list.contains(video));
            assert(ids_of(list)[a] != ids_of(list)[p]);
        }
        if less.contains(video) {
            let a = choose|a: int| 0 <= a < list.len() && list[a] == video;
            assert(rest[if a < p { a } else { a - 1 }] == video);
        }
    }
    lemma_order_unique(rest, less);
}

/// What is kept of items stays in its order: the items of one part come before those of the
/// next, and a single item is kept where the set holds it.
pub proof fn items_are_kept_in_order(
    first: Seq<Seq<char>>,
    second: Seq<Seq<char>>,
    item: Seq<char>,
    set: Set<Seq<char>>,
)
    ensures
        kept_in(first + second, set) == kept_in(first, set) + kept_in(second, set),
        set.contains(item) ==> kept_in(seq![item], set) == seq![item],
        !set.contains(item) ==> kept_in(seq![item], set) == Seq::<Seq<char>>::empty(),
{
    lemma_kept_add(first, second, set);
    let none = Seq::<Seq<char>>::empty();
    assert(seq![item].drop_last() =~= none);
    assert(kept_in(none, set) =~= none);
    assert(none.push(item) =~= seq![item]);
}

/// A step does what it says: a card comes between those before its place and those behind it,
/// a card that goes leaves the others in their order, and to move is to go and to come again.
pub proof fn steps_do_what_they_say(
    before: Seq<Seq<char>>,
    behind: Seq<Seq<char>>,
    video_id: Seq<char>,
    position: int,
)
    requires
        !before.contains(video_id),
    ensures
        after_step(
            before + behind,
            StepView::Insert { video_id, position: before.len() as int },
        ) == before + seq![video_id] + behind,
        position >= before.len() ==> after_step(before, StepView::Insert { video_id, position })
            == before + seq![video_id],
        after_step(before + seq![video_id] + behind, StepView::Remove { video_id }) == before
            + behind,
        after_step(before, StepView::Remove { video_id }) == before,
        after_step(before + behind, StepView::Move { video_id, position }) == after_step(
            after_step(before + behind, StepView::Remove { video_id }),
            StepView::Insert { video_id, position },
        ),
{
    let with = before + seq![video_id] + behind;
    assert((before + behind).insert(before.len() as int, video_id) =~= with);
    assert(before.insert(before.len() as int, video_id) =~= before + seq![video_id]);
    assert(before.push(video_id) =~= before + seq![video_id]);
    lemma_index_of(with, video_id);
    lemma_index_of(before, video_id);
    assert(with[before.len() as int] == video_id);
    assert(with.contains(video_id));
    let k = index_of(with, video_id)->Some_0;
    if k < before.len() {
        assert(before[k] == video_id);
    }
    assert(with.remove(before.len() as int) =~= before + behind);
}

/// Steps happen one after another.
pub proof fn steps_happen_in_order(
    order: Seq<Seq<char>>,
    first: Seq<StepView>,
    second: Seq<StepView>,
    step: StepView,
)
    ensures
        after_steps(order, first + second) == after_steps(after_steps(order, first), second),
        after_steps(order, seq![step]) == after_step(order, step),
        after_steps(order, Seq::empty()) == order,
{
    lemma_after_more(order, first, second);
    let none = Seq::<StepView>::empty();
    assert(seq![step].drop_last() =~= none);
    assert(after_steps(order, none) == order);
}

/// A tab that is in step already takes no steps.
pub proof fn tabs_in_step_stay_as_they_are(
    order: Seq<Seq<char>>,
    known: Seq<Seq<char>>,
    n: nat,
)
    requires
        n <= order.len(),
    ensures
        populating_steps(order, order, known) == Seq::<StepView>::empty(),
        placing_steps(order, order, n, known) == Seq::<StepView>::empty(),
{
    assert forall|i: int| 0 <= i < order.len() implies order.to_set().contains(
        #[trigger] order[i],
    ) by {
        assert(order.contains(order[i]));
    }
    lemma_kept_all(order, order.to_set());
    lemma_nothing_removed(order, order.to_set());
    lemma_nothing_placed(order, known, order.len());
    lemma_nothing_placed(order, known, n);
    assert(populating_steps(order, order, known) =~= Seq::<StepView>::empty());
}

proof fn lemma_nothing_removed(order: Seq<Seq<char>>, desired: Set<Seq<char>>)
    requires
        forall|i: int| 0 <= i < order.len() ==> desired.contains(#[trigger] order[i]),
    ensures
        removing_steps(order, desired) == Seq::<StepView>::empty(),
    decreases order.len(),
{
    if order.len() > 0 {
        let rest = order.drop_last();
        assert forall|i: int| 0 <= i < rest.len() implies desired.contains(#[trigger] rest[i]) by {
            assert(rest[i] == order[i]);
        }
        lemma_nothing_removed(rest, desired);
        assert(order[order.len() - 1] == order.last());
    }
}

proof fn lemma_nothing_placed(order: Seq<Seq<char>>, known: Seq<Seq<char>>, n: nat)
    requires
        n <= order.len(),
    ensures
        placing_steps(order, order, n, known) == Seq::<StepView>::empty(),
    decreases n,
{
    if n > 0 {
        lemma_nothing_placed(order, known, (n - 1) as nat);
        assert(after_steps(order, Seq::<StepView>::empty()) == order);
    }
}

/// The cards that are not to be shown, and no others, are taken away, one by one.
pub proof fn cards_are_taken_away_one_by_one(
    first: Seq<Seq<char>>,
    second: Seq<Seq<char>>,
    video_id: Seq<char>,
    desired: Set<Seq<char>>,
)
    ensures
        removing_steps(first + second, desired) == removing_steps(first, desired) + removing_steps(
            second,
            desired,
        ),
        !desired.contains(video_id) ==> removing_steps(seq![video_id], desired) == seq![
            StepView::Remove { video_id },
        ],
        desired.contains(video_id) ==> removing_steps(seq![video_id], desired) == Seq::<
            StepView,
        >::empty(),
    decreases second.len(),
{
    let none = Seq::<Seq<char>>::empty();
    let no_steps = Seq::<StepView>::empty();
    assert(seq![video_id].drop_last() =~= none);
    assert(removing_steps(none, desired) =~= no_steps);
    assert(no_steps.push(StepView::Remove { video_id }) =~= seq![StepView::Remove { video_id }]);
    if second.len() == 0 {
        assert(first + second =~= first);
        assert(removing_steps(first, desired) + no_steps =~= removing_steps(first, desired));
    } else {
        cards_are_taken_away_one_by_one(first, second.drop_last(), video_id, desired);
        assert((first + second).drop_last() =~= first + second.drop_last());
        assert((first + second).last() == second.last());
        assert(removing_steps(first + second, desired) =~= removing_steps(first, desired)
            + removing_steps(second, desired));
    }
}

/// A tab that is brought in step shows a video exactly where it is to show it and there is a
/// card or the video.
pub proof fn shown_videos_are_wanted_and_there(
    order: Seq<Seq<char>>,
    desired: Seq<Seq<char>>,
    known: Seq<Seq<char>>,
    id: Seq<char>,
)
    requires
        order.no_duplicates(),
        desired.no_duplicates(),
    ensures
        populated(order, desired, known).contains(id) <==> desired.contains(id) && (order.contains(
            id,
        ) || known.contains(id)),
{
    tabs_show_what_they_are_to_show(order, desired, known);
    lemma_kept_contains(desired, available(order, known));
}

/// A video that is not on the watch-later list loses its card, one that is on it keeps the card
/// that it has, and the other cards stay.
pub proof fn syncing_touches_one_card(
    order: Seq<Seq<char>>,
    state: StateView,
    video_id: Seq<char>,
    other: Seq<char>,
)
    requires
        order.no_duplicates(),
    ensures
        !state.watch_later.contains(video_id) ==> !synced(order, state, video_id).contains(
            video_id,
        ),
        state.watch_later.contains(video_id) && order.contains(video_id) ==> synced(
            order,
            state,
            video_id,
        ) == order,
        other != video_id ==> (synced(order, state, video_id).contains(other) <==> order.contains(
            other,
        )),
{
    lemma_index_of(order, video_id);
    let after = synced(order, state, video_id);
    if !state.watch_later.contains(video_id) {
        if order.contains(video_id) {
            let k = index_of(order, video_id)->Some_0;
            assert(after =~= order.remove(k));
            assert forall|i: int| 0 <= i < after.len() implies after[i] != video_id by {
                let j = if i < k { i } else { i + 1 };
                assert(after[i] == order[j] && order[j] != order[k]);
            }
            if other != video_id && order.contains(other) {
                let j = choose|j: int| 0 <= j < order.len() && order[j] == other;
                assert(after[if j < k { j } else { j - 1 }] == other);
            }
            if other != video_id && after.contains(other) {
                let i = choose|i: int| 0 <= i < after.len() && after[i] == other;
                assert(order[if i < k { i } else { i + 1 }] == other);
            }
        }
    } else if !order.contains(video_id) {
        let list = ids_of(watch_later_list(state.videos, state.watch_later));
        lemma_index_of(list, video_id);
        if let Some(position) = index_of(list, video_id) {
            let m = if position <= order.len() { position } else { order.len() as int };
            assert(after =~= order.insert(m, video_id));
            if other != video_id && order.contains(other) {
                let j = choose|j: int| 0 <= j < order.len() && order[j] == other;
                assert(after[if j < m { j } else { j + 1 }] == other);
            }
            if other != video_id && after.contains(other) {
                let i = choose|i: int| 0 <= i < after.len() && after[i] == other;
                assert(i != m);
                assert(order[if i < m { i } else { i - 1 }] == other);
            }
        }
    }
}

} // verus!
