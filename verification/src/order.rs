//! The order in which demands are packed, and a merge sort that produces it.

use crate::demand::Item;
use crate::strategy::Strategy;
use vstd::prelude::*;
use vstd::relations::*;
use vstd::seq_lib::*;

verus! {

/// The demands from the first to be packed to the last: the arrangement of
/// `items` in which every demand precedes all that come after it.
pub open spec fn decreasing_order(strategy: Strategy, items: Seq<Item>) -> Seq<Item> {
    items.sort_by(strategy.order())
}

/// `decreasing_order` keeps every demand, as often as it occurs, and puts the
/// demands in order.
pub proof fn lemma_decreasing_order(strategy: Strategy, items: Seq<Item>)
    ensures
        sorted_by(decreasing_order(strategy, items), strategy.order()),
        decreasing_order(strategy, items).to_multiset() == items.to_multiset(),
        decreasing_order(strategy, items).len() == items.len(),
{
    strategy.lemma_order_is_total();
    items.lemma_sort_by_ensures(strategy.order());
    to_multiset_len(items);
    to_multiset_len(decreasing_order(strategy, items));
}

/// There is only one way to put given demands in order: an arrangement of
/// `items` that is in order is `decreasing_order` of `items`.
pub proof fn lemma_decreasing_order_unique(
    strategy: Strategy,
    items: Seq<Item>,
    arranged: Seq<Item>,
)
    requires
        sorted_by(arranged, strategy.order()),
        arranged.to_multiset() == items.to_multiset(),
    ensures
        arranged == decreasing_order(strategy, items),
{
    strategy.lemma_order_is_total();
    lemma_decreasing_order(strategy, items);
    lemma_sorted_unique(arranged, decreasing_order(strategy, items), strategy.order());
}

/// Merges two runs that are in order into one that is.
fn merge(left: &Vec<Item>, right: &Vec<Item>, strategy: &Strategy) -> (merged: Vec<Item>)
    requires
        sorted_by(left@, strategy.order()),
        sorted_by(right@, strategy.order()),
    ensures
        sorted_by(merged@, strategy.order()),
        merged@.to_multiset() == left@.to_multiset().add(right@.to_multiset()),
{
    let ghost order = strategy.order();
    let mut merged: Vec<Item> = Vec::new();
    let mut i: usize = 0;
    let mut j: usize = 0;
    proof {
        strategy.lemma_order_is_total();
        to_multiset_len(merged@);
        to_multiset_len(left@.take(0));
        to_multiset_len(right@.take(0));
        assert(left@.take(0).to_multiset().add(right@.take(0).to_multiset())
            =~= merged@.to_multiset());
    }
    while i < left.len() || j < right.len()
        invariant
            i <= left.len(),
            j <= right.len(),
            order == strategy.order(),
            total_ordering(order),
            sorted_by(left@, order),
            sorted_by(right@, order),
            sorted_by(merged@, order),
            merged@.to_multiset() == left@.take(i as int).to_multiset().add(
                right@.take(j as int).to_multiset(),
            ),
            forall|k: int, m: int|
                0 <= k < merged.len() && i <= m < left.len() ==> #[trigger] order(
                    merged@[k],
                    left@[m],
                ),
            forall|k: int, m: int|
                0 <= k < merged.len() && j <= m < right.len() ==> #[trigger] order(
                    merged@[k],
                    right@[m],
                ),
        decreases (left.len() - i) + (right.len() - j),
    {
        let from_left: bool = if i == left.len() {
            false
        } else if j == right.len() {
            true
        } else {
            strategy.comes_first(left[i], right[j])
        };
        let ghost before = merged@;
        if from_left {
            let item: Item = left[i];
            merged.push(item);
            proof {
                assert(left@.take(i + 1) =~= left@.take(i as int).push(item));
                to_multiset_build(before, item);
                to_multiset_build(left@.take(i as int), item);
                assert(merged@.to_multiset() =~= left@.take(i + 1).to_multiset().add(
                    right@.take(j as int).to_multiset(),
                ));
                assert forall|k: int, m: int|
                    0 <= k < merged.len() && j <= m < right.len() implies #[trigger] order(
                    merged@[k],
                    right@[m],
                ) by {
                    if k == before.len() {
                        assert(order(item, right@[j as int]));
                        assert(j < m ==> order(right@[j as int], right@[m]));
                    }
                }
                assert forall|k: int, m: int|
                    0 <= k < merged.len() && i + 1 <= m < left.len() implies #[trigger] order(
                    merged@[k],
                    left@[m],
                ) by {
                    if k == before.len() {
                        assert(order(left@[i as int], left@[m]));
                    }
                }
            }
            i = i + 1;
        } else {
            let item: Item = right[j];
            merged.push(item);
            proof {
                assert(right@.take(j + 1) =~= right@.take(j as int).push(item));
                to_multiset_build(before, item);
                to_multiset_build(right@.take(j as int), item);
                assert(merged@.to_multiset() =~= left@.take(i as int).to_multiset().add(
                    right@.take(j + 1).to_multiset(),
                ));
                assert forall|k: int, m: int|
                    0 <= k < merged.len() && i <= m < left.len() implies #[trigger] order(
                    merged@[k],
                    left@[m],
                ) by {
                    if k == before.len() {
                        assert(order(item, left@[i as int]));
                        assert(i < m ==> order(left@[i as int], left@[m]));
                    }
                }
                assert forall|k: int, m: int|
                    0 <= k < merged.len() && j + 1 <= m < right.len() implies #[trigger] order(
                    merged@[k],
                    right@[m],
                ) by {
                    if k == before.len() {
                        assert(order(right@[j as int], right@[m]));
                    }
                }
            }
            j = j + 1;
        }
    }
    proof {
        assert(left@.take(i as int) =~= left@);
        assert(right@.take(j as int) =~= right@);
    }
    merged
}

/// Sorts the demands at positions `from` up to, not including, `to`.
fn sort_range(items: &Vec<Item>, from: usize, to: usize, strategy: &Strategy) -> (sorted: Vec<Item>)
    requires
        from <= to <= items.len(),
    ensures
        sorted_by(sorted@, strategy.order()),
        sorted@.to_multiset() == items@.subrange(from as int, to as int).to_multiset(),
    decreases to - from,
{
    let ghost range = items@.subrange(from as int, to as int);
    if to - from == 0 {
        let sorted: Vec<Item> = Vec::new();
        assert(sorted@ =~= range);
        sorted
    } else if to - from == 1 {
        let mut sorted: Vec<Item> = Vec::new();
        sorted.push(items[from]);
        assert(sorted@ =~= range);
        sorted
    } else {
        let middle: usize = from + (to - from) / 2;
        let left = sort_range(items, from, middle, strategy);
        let right = sort_range(items, middle, to, strategy);
        proof {
            let front = items@.subrange(from as int, middle as int);
            let back = items@.subrange(middle as int, to as int);
            assert(range =~= front + back);
            lemma_multiset_commutative(front, back);
        }
        merge(&left, &right, strategy)
    }
}

/// Returns the demands in the order in which they are packed.
pub fn sort_decreasing(items: &Vec<Item>, strategy: &Strategy) -> (sorted: Vec<Item>)
    ensures
        sorted@ == decreasing_order(*strategy, items@),
        sorted_by(sorted@, strategy.order()),
        sorted@.to_multiset() == items@.to_multiset(),
{
    let sorted = sort_range(items, 0, items.len(), strategy);
    proof {
        assert(items@.subrange(0, items.len() as int) =~= items@);
        lemma_decreasing_order_unique(*strategy, items@, sorted@);
    }
    sorted
}

} // verus!
