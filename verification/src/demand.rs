//! Demands and their totals.

use vstd::prelude::*;

verus! {

/// A demand: the cores it needs, then the disk space it needs.
pub type Item = (u32, u32);

/// The cores that a sequence of demands asks for altogether.
pub open spec fn total_cores(items: Seq<Item>) -> nat
    decreases items.len(),
{
    if items.len() == 0 {
        0
    } else {
        total_cores(items.drop_last()) + items.last().0 as nat
    }
}

/// The disk space that a sequence of demands asks for altogether.
pub open spec fn total_disk(items: Seq<Item>) -> nat
    decreases items.len(),
{
    if items.len() == 0 {
        0
    } else {
        total_disk(items.drop_last()) + items.last().1 as nat
    }
}

/// Appending one demand adds exactly that demand to both totals.
pub proof fn lemma_totals_push(items: Seq<Item>, item: Item)
    ensures
        total_cores(items.push(item)) == total_cores(items) + item.0,
        total_disk(items.push(item)) == total_disk(items) + item.1,
{
    assert(items.push(item).drop_last() =~= items);
}

/// The totals of a concatenation are the sums of the totals of its parts.
pub proof fn lemma_totals_concat(front: Seq<Item>, back: Seq<Item>)
    ensures
        total_cores(front + back) == total_cores(front) + total_cores(back),
        total_disk(front + back) == total_disk(front) + total_disk(back),
    decreases back.len(),
{
    if back.len() > 0 {
        lemma_totals_concat(front, back.drop_last());
        assert((front + back).drop_last() =~= front + back.drop_last());
    }
}

/// A prefix never asks for more than the whole sequence.
pub proof fn lemma_totals_prefix(items: Seq<Item>, n: int)
    requires
        0 <= n <= items.len(),
    ensures
        total_cores(items.take(n)) <= total_cores(items),
        total_disk(items.take(n)) <= total_disk(items),
{
    lemma_totals_concat(items.take(n), items.skip(n));
    assert(items.take(n) + items.skip(n) =~= items);
}

} // verus!
