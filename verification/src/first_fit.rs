//! First fit: what it does to a row of bins, and what that guarantees.
//!
//! Everything here is about mathematical values. The bins are taken by their
//! views, so the statements hold of any code that places demands this way.

use crate::bin::BinView;
use crate::demand::Item;
use crate::order::{decreasing_order, lemma_decreasing_order, lemma_decreasing_order_unique};
use crate::strategy::Strategy;
use vstd::prelude::*;
use vstd::seq_lib::*;

verus! {

/// An empty bin accepts the demand.
pub open spec fn placeable(
    strategy: Strategy,
    core_capacity: nat,
    disk_capacity: nat,
    item: Item,
) -> bool {
    BinView::empty(core_capacity, disk_capacity).accepts(strategy, item)
}

/// An empty bin accepts each of the demands.
pub open spec fn all_placeable(
    strategy: Strategy,
    core_capacity: nat,
    disk_capacity: nat,
    items: Seq<Item>,
) -> bool {
    forall|i: int|
        0 <= i < items.len() ==> placeable(
            strategy,
            core_capacity,
            disk_capacity,
            #[trigger] items[i],
        )
}

/// `slot` is where first fit puts the demand: the position of the first bin
/// that accepts it, or the number of bins when none does.
pub open spec fn is_first_fit(
    strategy: Strategy,
    bins: Seq<BinView>,
    item: Item,
    slot: int,
) -> bool {
    &&& 0 <= slot <= bins.len()
    &&& slot < bins.len() ==> bins[slot].accepts(strategy, item)
    &&& forall|j: int| 0 <= j < slot ==> !(#[trigger] bins[j]).accepts(strategy, item)
}

/// Where first fit puts the demand.
pub open spec fn first_fit_slot(strategy: Strategy, bins: Seq<BinView>, item: Item) -> int {
    choose|slot: int| is_first_fit(strategy, bins, item, slot)
}

/// The bins after the demand has been placed by first fit: it is added to the
/// first bin that accepts it, and otherwise goes alone into a new last bin.
pub open spec fn place(
    strategy: Strategy,
    core_capacity: nat,
    disk_capacity: nat,
    bins: Seq<BinView>,
    item: Item,
) -> Seq<BinView> {
    let slot = first_fit_slot(strategy, bins, item);
    if slot < bins.len() {
        bins.update(slot, bins[slot].with_item(item))
    } else {
        bins.push(BinView::empty(core_capacity, disk_capacity).with_item(item))
    }
}

/// The bins that first fit produces when the demands are placed in the order
/// given.
pub open spec fn first_fit(
    strategy: Strategy,
    core_capacity: nat,
    disk_capacity: nat,
    items: Seq<Item>,
) -> Seq<BinView>
    decreases items.len(),
{
    if items.len() == 0 {
        Seq::empty()
    } else {
        place(
            strategy,
            core_capacity,
            disk_capacity,
            first_fit(strategy, core_capacity, disk_capacity, items.drop_last()),
            items.last(),
        )
    }
}

/// The bins that first fit produces when the demands are placed in decreasing
/// order.
pub open spec fn first_fit_decreasing(
    strategy: Strategy,
    core_capacity: nat,
    disk_capacity: nat,
    items: Seq<Item>,
) -> Seq<BinView> {
    first_fit(strategy, core_capacity, disk_capacity, decreasing_order(strategy, items))
}

/// All demands placed in the bins, bin after bin, each bin's demands in the
/// order in which they were placed.
pub open spec fn placed_items(bins: Seq<BinView>) -> Seq<Item>
    decreases bins.len(),
{
    if bins.len() == 0 {
        Seq::empty()
    } else {
        placed_items(bins.drop_last()) + bins.last().items
    }
}

/// Every bin has the given capacities, holds at least one demand, and stays
/// within the bound that the strategy keeps.
pub open spec fn sound_bins(
    strategy: Strategy,
    core_capacity: nat,
    disk_capacity: nat,
    bins: Seq<BinView>,
) -> bool {
    forall|i: int|
        0 <= i < bins.len() ==> {
            &&& (#[trigger] bins[i]).core_capacity == core_capacity
            &&& bins[i].disk_capacity == disk_capacity
            &&& bins[i].items.len() > 0
            &&& bins[i].within_bound(strategy)
        }
}

/// `later` is `earlier` with demands added: every bin of `earlier` is still
/// there, in its place, with its capacities and with the demands it held first
/// among those it holds now.
pub open spec fn grown_from(earlier: Seq<BinView>, later: Seq<BinView>) -> bool {
    &&& earlier.len() <= later.len()
    &&& forall|i: int|
        0 <= i < earlier.len() ==> {
            &&& (#[trigger] later[i]).core_capacity == earlier[i].core_capacity
            &&& later[i].disk_capacity == earlier[i].disk_capacity
            &&& earlier[i].items.is_prefix_of(later[i].items)
        }
}

/// First fit always has a place for a demand.
pub proof fn lemma_first_fit_slot_exists(strategy: Strategy, bins: Seq<BinView>, item: Item)
    ensures
        is_first_fit(strategy, bins, item, first_fit_slot(strategy, bins, item)),
{
    lemma_first_fit_from(strategy, bins, item, 0);
}

/// The place that first fit has for a demand is the only one.
pub proof fn lemma_first_fit_slot_unique(
    strategy: Strategy,
    bins: Seq<BinView>,
    item: Item,
    slot: int,
)
    requires
        is_first_fit(strategy, bins, item, slot),
    ensures
        first_fit_slot(strategy, bins, item) == slot,
{
    // `slot` shows that a first fit exists, so the chosen place is one too. Of
    // two different first fits, the bin at the smaller would both accept and
    // refuse the demand.
    let chosen = first_fit_slot(strategy, bins, item);
    assert(is_first_fit(strategy, bins, item, chosen));
    if chosen < slot {
        assert(!bins[chosen].accepts(strategy, item));
    } else if slot < chosen {
        assert(!bins[slot].accepts(strategy, item));
    }
}

/// When the bins before `start` all refuse the demand, a first fit exists.
proof fn lemma_first_fit_from(strategy: Strategy, bins: Seq<BinView>, item: Item, start: int)
    requires
        0 <= start <= bins.len(),
        forall|j: int| 0 <= j < start ==> !(#[trigger] bins[j]).accepts(strategy, item),
    ensures
        is_first_fit(strategy, bins, item, first_fit_slot(strategy, bins, item)),
    decreases bins.len() - start,
{
    if start == bins.len() || bins[start].accepts(strategy, item) {
        assert(is_first_fit(strategy, bins, item, start));
    } else {
        lemma_first_fit_from(strategy, bins, item, start + 1);
    }
}

/// Rearranging the demands does not change whether all of them are placeable.
pub proof fn lemma_all_placeable_rearranged(
    strategy: Strategy,
    core_capacity: nat,
    disk_capacity: nat,
    items: Seq<Item>,
    arranged: Seq<Item>,
)
    requires
        arranged.to_multiset() == items.to_multiset(),
        all_placeable(strategy, core_capacity, disk_capacity, items),
    ensures
        all_placeable(strategy, core_capacity, disk_capacity, arranged),
{
    assert forall|i: int| 0 <= i < arranged.len() implies placeable(
        strategy,
        core_capacity,
        disk_capacity,
        #[trigger] arranged[i],
    ) by {
        to_multiset_contains(arranged, arranged[i]);
        to_multiset_contains(items, arranged[i]);
        assert(arranged.contains(arranged[i]));
        let j = choose|j: int| 0 <= j < items.len() && items[j] == arranged[i];
        assert(placeable(strategy, core_capacity, disk_capacity, items[j]));
    }
}

/// Adding a demand to one bin adds it once to the demands placed overall.
proof fn lemma_placed_items_update(bins: Seq<BinView>, slot: int, item: Item)
    requires
        0 <= slot < bins.len(),
    ensures
        placed_items(bins.update(slot, bins[slot].with_item(item))).to_multiset()
            == placed_items(bins).to_multiset().insert(item),
    decreases bins.len(),
{
    let after = bins.update(slot, bins[slot].with_item(item));
    let front = placed_items(bins.drop_last());
    if slot == bins.len() - 1 {
        assert(after.drop_last() =~= bins.drop_last());
        to_multiset_build(placed_items(bins), item);
    } else {
        assert(after.drop_last() =~= bins.drop_last().update(
            slot,
            bins.drop_last()[slot].with_item(item),
        ));
        lemma_placed_items_update(bins.drop_last(), slot, item);
        lemma_multiset_commutative(front, bins.last().items);
        lemma_multiset_commutative(placed_items(after.drop_last()), bins.last().items);
        assert(placed_items(after).to_multiset() =~= placed_items(bins).to_multiset().insert(
            item,
        ));
    }
}

/// Placing a demand by first fit adds it once to the demands placed overall,
/// and removes none.
pub proof fn lemma_place_conserves_items(
    strategy: Strategy,
    core_capacity: nat,
    disk_capacity: nat,
    bins: Seq<BinView>,
    item: Item,
)
    ensures
        placed_items(place(strategy, core_capacity, disk_capacity, bins, item)).to_multiset()
            == placed_items(bins).to_multiset().insert(item),
{
    let slot = first_fit_slot(strategy, bins, item);
    let after = place(strategy, core_capacity, disk_capacity, bins, item);
    lemma_first_fit_slot_exists(strategy, bins, item);
    if slot < bins.len() {
        lemma_placed_items_update(bins, slot, item);
    } else {
        assert(after.drop_last() =~= bins);
        assert(placed_items(after) =~= placed_items(bins).push(item));
        to_multiset_build(placed_items(bins), item);
    }
}

/// Conservation: the demands that first fit has placed are exactly the demands
/// it was given, each as often as it was given.
pub proof fn lemma_first_fit_conserves_items(
    strategy: Strategy,
    core_capacity: nat,
    disk_capacity: nat,
    items: Seq<Item>,
)
    ensures
        placed_items(first_fit(strategy, core_capacity, disk_capacity, items)).to_multiset()
            == items.to_multiset(),
    decreases items.len(),
{
    if items.len() == 0 {
        to_multiset_len(items);
        to_multiset_len(placed_items(first_fit(strategy, core_capacity, disk_capacity, items)));
    } else {
        let earlier = first_fit(strategy, core_capacity, disk_capacity, items.drop_last());
        lemma_first_fit_conserves_items(
            strategy,
            core_capacity,
            disk_capacity,
            items.drop_last(),
        );
        lemma_place_conserves_items(strategy, core_capacity, disk_capacity, earlier, items.last());
        assert(items.drop_last().push(items.last()) =~= items);
        to_multiset_build(items.drop_last(), items.last());
    }
}

/// Conservation: the demands that first fit decreasing has placed are exactly
/// the demands it was given, each as often as it was given.
pub proof fn lemma_first_fit_decreasing_conserves_items(
    strategy: Strategy,
    core_capacity: nat,
    disk_capacity: nat,
    items: Seq<Item>,
)
    ensures
        placed_items(
            first_fit_decreasing(strategy, core_capacity, disk_capacity, items),
        ).to_multiset() == items.to_multiset(),
{
    lemma_decreasing_order(strategy, items);
    lemma_first_fit_conserves_items(
        strategy,
        core_capacity,
        disk_capacity,
        decreasing_order(strategy, items),
    );
}

/// Placing a placeable demand by first fit keeps the bins sound.
pub proof fn lemma_place_keeps_bins_sound(
    strategy: Strategy,
    core_capacity: nat,
    disk_capacity: nat,
    bins: Seq<BinView>,
    item: Item,
)
    requires
        strategy.valid(),
        placeable(strategy, core_capacity, disk_capacity, item),
        sound_bins(strategy, core_capacity, disk_capacity, bins),
    ensures
        sound_bins(
            strategy,
            core_capacity,
            disk_capacity,
            place(strategy, core_capacity, disk_capacity, bins, item),
        ),
{
    let slot = first_fit_slot(strategy, bins, item);
    let after = place(strategy, core_capacity, disk_capacity, bins, item);
    lemma_first_fit_slot_exists(strategy, bins, item);
    let target = if slot < bins.len() {
        bins[slot]
    } else {
        BinView::empty(core_capacity, disk_capacity)
    };
    assert(target.within_bound(strategy));
    target.lemma_accepted_item_keeps_bound(strategy, item);
    assert forall|i: int| 0 <= i < after.len() implies {
        &&& (#[trigger] after[i]).core_capacity == core_capacity
        &&& after[i].disk_capacity == disk_capacity
        &&& after[i].items.len() > 0
        &&& after[i].within_bound(strategy)
    } by {
        if i != slot {
            assert(after[i] == bins[i]);
        }
    }
}

/// Capacity: when an empty bin accepts each demand, every bin that first fit
/// fills has the given capacities, is not empty, and stays within the bound
/// that the strategy keeps.
pub proof fn lemma_first_fit_bins_sound(
    strategy: Strategy,
    core_capacity: nat,
    disk_capacity: nat,
    items: Seq<Item>,
)
    requires
        strategy.valid(),
        all_placeable(strategy, core_capacity, disk_capacity, items),
    ensures
        sound_bins(
            strategy,
            core_capacity,
            disk_capacity,
            first_fit(strategy, core_capacity, disk_capacity, items),
        ),
    decreases items.len(),
{
    if items.len() > 0 {
        assert forall|i: int| 0 <= i < items.drop_last().len() implies placeable(
            strategy,
            core_capacity,
            disk_capacity,
            #[trigger] items.drop_last()[i],
        ) by {
            assert(items.drop_last()[i] == items[i]);
        }
        lemma_first_fit_bins_sound(strategy, core_capacity, disk_capacity, items.drop_last());
        lemma_place_keeps_bins_sound(
            strategy,
            core_capacity,
            disk_capacity,
            first_fit(strategy, core_capacity, disk_capacity, items.drop_last()),
            items.last(),
        );
    }
}

/// Capacity: when an empty bin accepts each demand, every bin that first fit
/// decreasing fills has the given capacities, is not empty, and stays within
/// the bound that the strategy keeps.
pub proof fn lemma_first_fit_decreasing_bins_sound(
    strategy: Strategy,
    core_capacity: nat,
    disk_capacity: nat,
    items: Seq<Item>,
)
    requires
        strategy.valid(),
        all_placeable(strategy, core_capacity, disk_capacity, items),
    ensures
        sound_bins(
            strategy,
            core_capacity,
            disk_capacity,
            first_fit_decreasing(strategy, core_capacity, disk_capacity, items),
        ),
{
    lemma_decreasing_order(strategy, items);
    lemma_all_placeable_rearranged(
        strategy,
        core_capacity,
        disk_capacity,
        items,
        decreasing_order(strategy, items),
    );
    lemma_first_fit_bins_sound(
        strategy,
        core_capacity,
        disk_capacity,
        decreasing_order(strategy, items),
    );
}

/// Order of input: first fit decreasing gives the same bins for any two
/// arrangements of the same demands.
pub proof fn lemma_first_fit_decreasing_ignores_arrangement(
    strategy: Strategy,
    core_capacity: nat,
    disk_capacity: nat,
    items: Seq<Item>,
    rearranged: Seq<Item>,
)
    requires
        rearranged.to_multiset() == items.to_multiset(),
    ensures
        first_fit_decreasing(strategy, core_capacity, disk_capacity, rearranged)
            == first_fit_decreasing(strategy, core_capacity, disk_capacity, items),
{
    lemma_decreasing_order(strategy, rearranged);
    lemma_decreasing_order_unique(strategy, items, decreasing_order(strategy, rearranged));
}

/// Placing a demand by first fit only adds to the bins: each bin keeps its
/// demands where they were, and no bin is removed.
pub proof fn lemma_place_grows_bins(
    strategy: Strategy,
    core_capacity: nat,
    disk_capacity: nat,
    bins: Seq<BinView>,
    item: Item,
)
    ensures
        grown_from(bins, place(strategy, core_capacity, disk_capacity, bins, item)),
{
    let after = place(strategy, core_capacity, disk_capacity, bins, item);
    lemma_first_fit_slot_exists(strategy, bins, item);
    assert forall|i: int| 0 <= i < bins.len() implies {
        &&& (#[trigger] after[i]).core_capacity == bins[i].core_capacity
        &&& after[i].disk_capacity == bins[i].disk_capacity
        &&& bins[i].items.is_prefix_of(after[i].items)
    } by {
        assert(bins[i].items =~= after[i].items.subrange(0, bins[i].items.len() as int));
    }
}

/// First fit never closes a bin: placing further demands after the ones
/// already placed leaves every bin with the demands it had, where they were,
/// and leaves at least as many bins.
pub proof fn lemma_first_fit_grows_bins(
    strategy: Strategy,
    core_capacity: nat,
    disk_capacity: nat,
    items: Seq<Item>,
    more: Seq<Item>,
)
    ensures
        grown_from(
            first_fit(strategy, core_capacity, disk_capacity, items),
            first_fit(strategy, core_capacity, disk_capacity, items + more),
        ),
    decreases more.len(),
{
    let before = first_fit(strategy, core_capacity, disk_capacity, items);
    if more.len() == 0 {
        assert forall|i: int| 0 <= i < before.len() implies (#[trigger] before[i]).items.is_prefix_of(
            before[i].items,
        ) by {
            assert(before[i].items =~= before[i].items.subrange(
                0,
                before[i].items.len() as int,
            ));
        }
    } else {
        let between = first_fit(
            strategy,
            core_capacity,
            disk_capacity,
            items + more.drop_last(),
        );
        let after = first_fit(strategy, core_capacity, disk_capacity, items + more);
        lemma_first_fit_grows_bins(
            strategy,
            core_capacity,
            disk_capacity,
            items,
            more.drop_last(),
        );
        assert((items + more).drop_last() =~= items + more.drop_last());
        lemma_place_grows_bins(strategy, core_capacity, disk_capacity, between, more.last());
        assert forall|i: int| 0 <= i < before.len() implies (#[trigger] before[i]).items.is_prefix_of(
            after[i].items,
        ) by {
            assert(before[i].items.is_prefix_of(between[i].items));
            assert(between[i].items.is_prefix_of(after[i].items));
        }
    }
}

/// Monotonicity: adding demands, none of which is packed before any of the
/// demands already there, never lowers the number of bins that first fit
/// decreasing fills. The bins filled before keep their demands, where they
/// were.
pub proof fn lemma_first_fit_decreasing_grows_bins(
    strategy: Strategy,
    core_capacity: nat,
    disk_capacity: nat,
    items: Seq<Item>,
    more: Seq<Item>,
)
    requires
        forall|i: int, j: int|
            0 <= i < items.len() && 0 <= j < more.len() ==> strategy.precedes(
                #[trigger] items[i],
                #[trigger] more[j],
            ),
    ensures
        grown_from(
            first_fit_decreasing(strategy, core_capacity, disk_capacity, items),
            first_fit_decreasing(strategy, core_capacity, disk_capacity, items + more),
        ),
        first_fit_decreasing(strategy, core_capacity, disk_capacity, items + more).len()
            >= first_fit_decreasing(strategy, core_capacity, disk_capacity, items).len(),
{
    let order = strategy.order();
    let front = decreasing_order(strategy, items);
    let back = decreasing_order(strategy, more);
    lemma_decreasing_order(strategy, items);
    lemma_decreasing_order(strategy, more);
    assert forall|a: int, b: int| 0 <= a < b < (front + back).len() implies #[trigger] order(
        (front + back)[a],
        (front + back)[b],
    ) by {
        if a < front.len() && b >= front.len() {
            let x = front[a];
            let y = back[b - front.len()];
            to_multiset_contains(front, x);
            to_multiset_contains(items, x);
            to_multiset_contains(back, y);
            to_multiset_contains(more, y);
            assert(front.contains(x));
            assert(back.contains(y));
            let i = choose|i: int| 0 <= i < items.len() && items[i] == x;
            let j = choose|j: int| 0 <= j < more.len() && more[j] == y;
            assert(strategy.precedes(items[i], more[j]));
        }
    }
    lemma_multiset_commutative(front, back);
    lemma_multiset_commutative(items, more);
    lemma_decreasing_order_unique(strategy, items + more, front + back);
    lemma_first_fit_grows_bins(strategy, core_capacity, disk_capacity, front, back);
}

} // verus!
