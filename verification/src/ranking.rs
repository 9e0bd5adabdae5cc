//! Stable insertion order: what it is, and what holds of it.

use vstd::prelude::*;

verus! {

/// `x` put into `list` behind the elements that do not stand after it, counted
/// from the end.
pub open spec fn placed<T>(list: Seq<T>, x: T, after: spec_fn(T, T) -> bool) -> Seq<T>
    decreases list.len(),
{
    if list.len() > 0 && after(list.last(), x) {
        placed(list.drop_last(), x, after).push(list.last())
    } else {
        list.push(x)
    }
}

/// The elements of `list` in order, each put in its place in turn. Elements of
/// which neither stands after the other keep their order.
pub open spec fn ranked<T>(list: Seq<T>, after: spec_fn(T, T) -> bool) -> Seq<T>
    decreases list.len(),
{
    if list.len() == 0 {
        Seq::empty()
    } else {
        placed(ranked(list.drop_last(), after), list.last(), after)
    }
}

/// No element stands after a later one.
pub open spec fn in_order<T>(list: Seq<T>, after: spec_fn(T, T) -> bool) -> bool {
    forall|i: int, j: int|
        0 <= i < j < list.len() ==> !after(#[trigger] list[i], #[trigger] list[j])
}

/// `after` orders all values, up to ties.
pub open spec fn is_ranking<T>(after: spec_fn(T, T) -> bool) -> bool {
    &&& forall|x: T, y: T| #[trigger] after(x, y) ==> !after(y, x)
    &&& forall|x: T, y: T, z: T|
        !#[trigger] after(x, y) && !#[trigger] after(y, z) ==> !after(x, z)
}

/// Where [`placed`] puts the new element: after the first `at` elements.
pub proof fn placed_at<T>(list: Seq<T>, x: T, after: spec_fn(T, T) -> bool, at: int)
    requires
        0 <= at <= list.len(),
        forall|i: int| at <= i < list.len() ==> after(#[trigger] list[i], x),
        at > 0 ==> !after(list[at - 1], x),
    ensures
        placed(list, x, after) == list.insert(at, x),
    decreases list.len() - at,
{
    if at == list.len() {
        assert(list.insert(at, x) =~= list.push(x));
    } else {
        let front = list.drop_last();
        assert(after(list[list.len() - 1], x));
        assert forall|i: int| at <= i < front.len() implies after(#[trigger] front[i], x) by {
            assert(front[i] == list[i]);
        }
        placed_at(front, x, after, at);
        assert(front.insert(at, x).push(list.last()) =~= list.insert(at, x));
    }
}

proof fn placed_holds<T>(list: Seq<T>, x: T, after: spec_fn(T, T) -> bool)
    ensures
        placed(list, x, after).len() == list.len() + 1,
        forall|i: int|
            0 <= i <= list.len() ==> #[trigger] placed(list, x, after)[i] == x || list.contains(
                placed(list, x, after)[i],
            ),
    decreases list.len(),
{
    let r = placed(list, x, after);
    if list.len() > 0 && after(list.last(), x) {
        let front = list.drop_last();
        placed_holds(front, x, after);
        assert forall|i: int| 0 <= i <= list.len() implies #[trigger] r[i] == x || list.contains(
            r[i],
        ) by {
            if i < list.len() {
                let inner = placed(front, x, after);
                assert(r[i] == inner[i]);
                if inner[i] != x {
                    let k = choose|k: int| 0 <= k < front.len() && front[k] == inner[i];
                    assert(list[k] == r[i]);
                }
            } else {
                assert(list[list.len() - 1] == r[i]);
            }
        }
    } else {
        assert forall|i: int| 0 <= i <= list.len() implies #[trigger] r[i] == x || list.contains(
            r[i],
        ) by {
            if i < list.len() {
                assert(list[i] == r[i]);
            }
        }
    }
}

proof fn placed_in_order<T>(list: Seq<T>, x: T, after: spec_fn(T, T) -> bool)
    requires
        is_ranking(after),
        in_order(list, after),
    ensures
        in_order(placed(list, x, after), after),
    decreases list.len(),
{
    let r = placed(list, x, after);
    if list.len() > 0 && after(list.last(), x) {
        let front = list.drop_last();
        assert forall|i: int, j: int| 0 <= i < j < front.len() implies !after(
            #[trigger] front[i],
            #[trigger] front[j],
        ) by {
            assert(front[i] == list[i] && front[j] == list[j]);
        }
        placed_in_order(front, x, after);
        placed_holds(front, x, after);
        let inner = placed(front, x, after);
        assert forall|i: int, j: int| 0 <= i < j < r.len() implies !after(
            #[trigger] r[i],
            #[trigger] r[j],
        ) by {
            assert(r[i] == inner[i]);
            if j < inner.len() {
                assert(r[j] == inner[j]);
            } else if inner[i] != x {
                let k = choose|k: int| 0 <= k < front.len() && front[k] == inner[i];
                assert(list[k] == r[i]);
                assert(!after(list[k], list[list.len() - 1]));
            }
        }
    } else {
        assert forall|i: int, j: int| 0 <= i < j < r.len() implies !after(
            #[trigger] r[i],
            #[trigger] r[j],
        ) by {
            if j == list.len() && i < list.len() - 1 {
                assert(!after(list[i], list[list.len() - 1]));
                assert(!after(list[list.len() - 1], x));
            }
        }
    }
}

/// Ranking puts the elements in order.
pub proof fn ranked_in_order<T>(list: Seq<T>, after: spec_fn(T, T) -> bool)
    requires
        is_ranking(after),
    ensures
        in_order(ranked(list, after), after),
    decreases list.len(),
{
    if list.len() > 0 {
        ranked_in_order(list.drop_last(), after);
        placed_in_order(ranked(list.drop_last(), after), list.last(), after);
    }
}

proof fn placed_keeps<T>(list: Seq<T>, x: T, after: spec_fn(T, T) -> bool)
    ensures
        placed(list, x, after).to_multiset() == list.to_multiset().insert(x),
    decreases list.len(),
{
    broadcast use vstd::seq_lib::group_to_multiset_ensures;

    if list.len() > 0 && after(list.last(), x) {
        placed_keeps(list.drop_last(), x, after);
        assert(list.drop_last().push(list.last()) =~= list);
        assert(placed(list, x, after).to_multiset() =~= list.to_multiset().insert(x));
    }
}

/// Ranking neither loses, adds nor repeats an element.
pub proof fn ranked_keeps<T>(list: Seq<T>, after: spec_fn(T, T) -> bool)
    ensures
        ranked(list, after).to_multiset() == list.to_multiset(),
        ranked(list, after).len() == list.len(),
    decreases list.len(),
{
    broadcast use vstd::seq_lib::group_to_multiset_ensures;

    if list.len() > 0 {
        ranked_keeps(list.drop_last(), after);
        placed_keeps(ranked(list.drop_last(), after), list.last(), after);
        placed_holds(ranked(list.drop_last(), after), list.last(), after);
        assert(list.drop_last().push(list.last()) =~= list);
    } else {
        assert(ranked(list, after) =~= list);
    }
}

/// A list that is in order is ranked already.
pub proof fn ranked_again<T>(list: Seq<T>, after: spec_fn(T, T) -> bool)
    requires
        in_order(list, after),
    ensures
        ranked(list, after) == list,
    decreases list.len(),
{
    if list.len() > 0 {
        let front = list.drop_last();
        assert forall|i: int, j: int| 0 <= i < j < front.len() implies !after(
            #[trigger] front[i],
            #[trigger] front[j],
        ) by {
            assert(front[i] == list[i] && front[j] == list[j]);
        }
        ranked_again(front, after);
        if front.len() > 0 {
            assert(!after(list[list.len() - 2], list[list.len() - 1]));
        }
        assert(front.push(list.last()) =~= list);
    } else {
        assert(ranked(list, after) =~= list);
    }
}

/// How many elements have a property.
spec fn tally<T>(list: Seq<T>, fits: spec_fn(T) -> bool) -> nat
    decreases list.len(),
{
    if list.len() == 0 {
        0
    } else {
        tally(list.drop_last(), fits) + (if fits(list.last()) {
            1nat
        } else {
            0nat
        })
    }
}

proof fn tally_without<T>(list: Seq<T>, fits: spec_fn(T) -> bool, k: int)
    requires
        0 <= k < list.len(),
    ensures
        tally(list, fits) == tally(list.remove(k), fits) + (if fits(list[k]) {
            1nat
        } else {
            0nat
        }),
    decreases list.len(),
{
    if k == list.len() - 1 {
        assert(list.remove(k) =~= list.drop_last());
    } else {
        tally_without(list.drop_last(), fits, k);
        assert(list.remove(k).drop_last() =~= list.drop_last().remove(k));
        assert(list.remove(k).last() == list.last());
    }
}

proof fn tally_of_same<T>(left: Seq<T>, right: Seq<T>, fits: spec_fn(T) -> bool)
    requires
        left.to_multiset() == right.to_multiset(),
    ensures
        left.len() == right.len(),
        tally(left, fits) == tally(right, fits),
    decreases left.len(),
{
    broadcast use vstd::seq_lib::group_to_multiset_ensures;

    assert(left.to_multiset().len() == left.len());
    assert(right.to_multiset().len() == right.len());
    if left.len() > 0 {
        let x = left.last();
        let end = left.len() - 1;
        assert(left[end] == x);
        assert(left.contains(x));
        assert(right.to_multiset().count(x) > 0);
        assert(right.contains(x));
        let k = choose|k: int| 0 <= k < right.len() && right[k] == x;
        assert(left.remove(end).to_multiset() =~= left.to_multiset().remove(x));
        assert(right.remove(k).to_multiset() =~= right.to_multiset().remove(x));
        assert(left.remove(end) =~= left.drop_last());
        tally_of_same(left.drop_last(), right.remove(k), fits);
        tally_without(right, fits, k);
    }
}

proof fn tally_of_front<T>(list: Seq<T>, fits: spec_fn(T) -> bool, count: int)
    requires
        0 <= count <= list.len(),
    ensures
        (forall|j: int| 0 <= j < count ==> fits(#[trigger] list[j])) ==> tally(list, fits) >= count,
        (forall|j: int| count <= j < list.len() ==> !fits(#[trigger] list[j])) ==> tally(list, fits)
            <= count,
    decreases list.len(),
{
    if list.len() > 0 {
        let front = list.drop_last();
        let end = list.len() - 1;
        if count == list.len() {
            tally_of_front(front, fits, count - 1);
            if forall|j: int| 0 <= j < count ==> fits(#[trigger] list[j]) {
                assert forall|j: int| 0 <= j < count - 1 implies fits(#[trigger] front[j]) by {
                    assert(front[j] == list[j]);
                }
                assert(fits(list[end]));
            }
        } else {
            tally_of_front(front, fits, count);
            if forall|j: int| 0 <= j < count ==> fits(#[trigger] list[j]) {
                assert forall|j: int| 0 <= j < count implies fits(#[trigger] front[j]) by {
                    assert(front[j] == list[j]);
                }
            }
            if forall|j: int| count <= j < list.len() ==> !fits(#[trigger] list[j]) {
                assert forall|j: int| count <= j < front.len() implies !fits(#[trigger] front[j]) by {
                    assert(front[j] == list[j]);
                }
                assert(!fits(list[end]));
            }
        }
    }
}

proof fn not_after_at<T>(left: Seq<T>, right: Seq<T>, after: spec_fn(T, T) -> bool, i: int)
    requires
        is_ranking(after),
        in_order(left, after),
        in_order(right, after),
        left.to_multiset() == right.to_multiset(),
        left.len() == right.len(),
        0 <= i < left.len(),
    ensures
        !after(left[i], right[i]),
{
    if after(left[i], right[i]) {
        let y = right[i];
        let fits = |x: T| !after(x, y);
        assert forall|j: int| 0 <= j < i + 1 implies fits(#[trigger] right[j]) by {
            if j == i {
                assert(after(y, y) ==> !after(y, y));
            }
        }
        assert forall|j: int| i <= j < left.len() implies !fits(#[trigger] left[j]) by {
            if j > i {
                assert(!after(left[i], left[j]));
                if !after(left[j], y) {
                    assert(!after(left[i], y));
                }
            }
        }
        tally_of_front(right, fits, i + 1);
        tally_of_front(left, fits, i);
        tally_of_same(left, right, fits);
    }
}

/// The order in which elements come does not matter, up to ties: ranked, the same
/// elements stand in the same places, or neither of two that stand in one place
/// comes after the other.
pub proof fn arrival_does_not_matter<T>(
    left: Seq<T>,
    right: Seq<T>,
    after: spec_fn(T, T) -> bool,
)
    requires
        is_ranking(after),
        left.to_multiset() == right.to_multiset(),
    ensures
        ranked(left, after).len() == ranked(right, after).len(),
        forall|i: int|
            0 <= i < ranked(left, after).len() ==> !after(
                #[trigger] ranked(left, after)[i],
                ranked(right, after)[i],
            ) && !after(ranked(right, after)[i], ranked(left, after)[i]),
{
    let a = ranked(left, after);
    let b = ranked(right, after);
    ranked_in_order(left, after);
    ranked_in_order(right, after);
    ranked_keeps(left, after);
    ranked_keeps(right, after);
    tally_of_same(a, b, |x: T| true);
    assert forall|i: int| 0 <= i < a.len() implies !after(#[trigger] a[i], b[i]) && !after(
        b[i],
        a[i],
    ) by {
        not_after_at(a, b, after, i);
        not_after_at(b, a, after, i);
    }
}

} // verus!
