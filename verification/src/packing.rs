//! First-fit-decreasing packing.
//!
//! The demands are put in decreasing order and placed one by one. Each goes
//! into the first bin, in order of creation, that accepts it; when none does, a
//! new bin is opened for it.

use crate::bin::{Bin, BinView};
use crate::demand::Item;
use crate::first_fit::{
    all_placeable, first_fit, first_fit_decreasing, grown_from, lemma_all_placeable_rearranged,
    lemma_first_fit_decreasing_bins_sound, lemma_first_fit_decreasing_conserves_items,
    lemma_first_fit_decreasing_grows_bins, lemma_first_fit_slot_unique, place, placeable,
    placed_items, sound_bins,
};
use crate::order::{lemma_decreasing_order, sort_decreasing};
use crate::strategy::{Strategy, WEIGHT_SCALE};
use vstd::prelude::*;

verus! {

/// Why a packing was refused.
#[derive(Clone, Copy, Debug, PartialEq, Eq)]
pub enum PackError {
    /// A capacity is zero, or the weights are not fractions that sum to one.
    InvalidConfiguration,
    /// The demand at position `index` of the input, which asks for `cores` and
    /// `disk`, is more than an empty bin accepts.
    UnplaceableItem { index: usize, cores: u32, disk: u32 },
}

/// The bins as mathematical values.
pub open spec fn bin_views(bins: Seq<Bin>) -> Seq<BinView> {
    bins.map_values(|bin: Bin| bin@)
}

/// Both capacities are positive and the strategy's weights are valid.
pub open spec fn valid_configuration(
    strategy: Strategy,
    core_capacity: nat,
    disk_capacity: nat,
) -> bool {
    core_capacity > 0 && disk_capacity > 0 && strategy.valid()
}

/// `index` is the position of the first demand that no empty bin accepts.
pub open spec fn is_first_unplaceable(
    strategy: Strategy,
    core_capacity: nat,
    disk_capacity: nat,
    items: Seq<Item>,
    index: int,
) -> bool {
    &&& 0 <= index < items.len()
    &&& !placeable(strategy, core_capacity, disk_capacity, items[index])
    &&& all_placeable(strategy, core_capacity, disk_capacity, items.take(index))
}

/// What packing owes for given inputs. A configuration that is not valid is
/// refused as such. Otherwise the first demand that no empty bin accepts is
/// reported. Otherwise the result is the first-fit-decreasing packing.
pub open spec fn is_outcome(
    strategy: Strategy,
    core_capacity: nat,
    disk_capacity: nat,
    items: Seq<Item>,
    outcome: Result<Seq<BinView>, PackError>,
) -> bool {
    match outcome {
        Ok(bins) => {
            &&& valid_configuration(strategy, core_capacity, disk_capacity)
            &&& all_placeable(strategy, core_capacity, disk_capacity, items)
            &&& bins == first_fit_decreasing(strategy, core_capacity, disk_capacity, items)
        },
        Err(PackError::InvalidConfiguration) => !valid_configuration(
            strategy,
            core_capacity,
            disk_capacity,
        ),
        Err(PackError::UnplaceableItem { index, cores, disk }) => {
            &&& valid_configuration(strategy, core_capacity, disk_capacity)
            &&& is_first_unplaceable(strategy, core_capacity, disk_capacity, items, index as int)
            &&& items[index as int] == (cores, disk)
        },
    }
}

/// A result of packing with its bins taken as mathematical values.
pub open spec fn outcome_view(result: Result<Vec<Bin>, PackError>) -> Result<
    Seq<BinView>,
    PackError,
> {
    match result {
        Ok(bins) => Ok(bin_views(bins@)),
        Err(error) => Err(error),
    }
}

/// What a packing that succeeded guarantees: the bins hold exactly the demands
/// that were given, each as often as it was given, and every bin has the given
/// capacities, is not empty, and stays within the bound that the strategy
/// keeps.
pub open spec fn is_sound_packing(
    strategy: Strategy,
    core_capacity: nat,
    disk_capacity: nat,
    items: Seq<Item>,
    bins: Seq<BinView>,
) -> bool {
    &&& placed_items(bins).to_multiset() == items.to_multiset()
    &&& sound_bins(strategy, core_capacity, disk_capacity, bins)
}

/// Determinism: the inputs decide the outcome. Any two outcomes of packing the
/// same demands with the same capacities under the same strategy are equal,
/// bin for bin and demand for demand.
pub proof fn lemma_outcome_unique(
    strategy: Strategy,
    core_capacity: nat,
    disk_capacity: nat,
    items: Seq<Item>,
    first: Result<Seq<BinView>, PackError>,
    second: Result<Seq<BinView>, PackError>,
)
    requires
        is_outcome(strategy, core_capacity, disk_capacity, items, first),
        is_outcome(strategy, core_capacity, disk_capacity, items, second),
    ensures
        first == second,
{
    // The three kinds of outcome exclude each other. Of two first unplaceable
    // demands, the earlier would lie among the placeable ones before the later.
    if let Err(PackError::UnplaceableItem { index, .. }) = first {
        if let Err(PackError::UnplaceableItem { index: other, .. }) = second {
            if index < other {
                assert(items.take(other as int)[index as int] == items[index as int]);
            } else if other < index {
                assert(items.take(index as int)[other as int] == items[other as int]);
            }
        }
    }
}

/// A packing that succeeded is sound.
pub proof fn lemma_outcome_sound(
    strategy: Strategy,
    core_capacity: nat,
    disk_capacity: nat,
    items: Seq<Item>,
    bins: Seq<BinView>,
)
    requires
        is_outcome(strategy, core_capacity, disk_capacity, items, Ok(bins)),
    ensures
        is_sound_packing(strategy, core_capacity, disk_capacity, items, bins),
{
    lemma_first_fit_decreasing_conserves_items(strategy, core_capacity, disk_capacity, items);
    lemma_first_fit_decreasing_bins_sound(strategy, core_capacity, disk_capacity, items);
}

/// Monotonicity: when demands are added, none of which is packed before any
/// of the demands already there, a packing that succeeds fills at least as
/// many bins as it did without them, and the bins filled before keep their
/// demands. Added demands that are packed earlier can lower the number of
/// bins, so nothing is claimed of them.
pub proof fn lemma_later_demands_keep_bins(
    strategy: Strategy,
    core_capacity: nat,
    disk_capacity: nat,
    items: Seq<Item>,
    more: Seq<Item>,
    before: Seq<BinView>,
    after: Seq<BinView>,
)
    requires
        is_outcome(strategy, core_capacity, disk_capacity, items, Ok(before)),
        is_outcome(strategy, core_capacity, disk_capacity, items + more, Ok(after)),
        forall|i: int, j: int|
            0 <= i < items.len() && 0 <= j < more.len() ==> strategy.precedes(
                #[trigger] items[i],
                #[trigger] more[j],
            ),
    ensures
        after.len() >= before.len(),
        grown_from(before, after),
{
    lemma_first_fit_decreasing_grows_bins(strategy, core_capacity, disk_capacity, items, more);
}

/// Looks for the first demand that no empty bin accepts.
fn find_unplaceable(
    items: &Vec<Item>,
    core_capacity: u32,
    disk_capacity: u32,
    strategy: &Strategy,
) -> (found: Option<usize>)
    ensures
        match found {
            Some(index) => is_first_unplaceable(
                *strategy,
                core_capacity as nat,
                disk_capacity as nat,
                items@,
                index as int,
            ),
            None => all_placeable(*strategy, core_capacity as nat, disk_capacity as nat, items@),
        },
{
    let mut i: usize = 0;
    while i < items.len()
        invariant
            i <= items.len(),
            all_placeable(
                *strategy,
                core_capacity as nat,
                disk_capacity as nat,
                items@.take(i as int),
            ),
        decreases items.len() - i,
    {
        if !strategy.fit_test(core_capacity, disk_capacity, items[i]) {
            return Some(i);
        }
        assert forall|j: int| 0 <= j < i + 1 implies placeable(
            *strategy,
            core_capacity as nat,
            disk_capacity as nat,
            #[trigger] items@.take(i + 1)[j],
        ) by {
            if j < i {
                assert(items@.take(i + 1)[j] == items@.take(i as int)[j]);
            }
        }
        i = i + 1;
    }
    assert(items@.take(i as int) =~= items@);
    None
}

/// Places one demand by first fit.
fn place_first_fit(
    bins: &mut Vec<Bin>,
    item: Item,
    core_capacity: u32,
    disk_capacity: u32,
    strategy: &Strategy,
)
    requires
        placeable(*strategy, core_capacity as nat, disk_capacity as nat, item),
    ensures
        bin_views(final(bins)@) == place(
            *strategy,
            core_capacity as nat,
            disk_capacity as nat,
            bin_views(old(bins)@),
            item,
        ),
{
    let ghost before = bin_views(bins@);
    let mut i: usize = 0;
    while i < bins.len()
        invariant
            i <= bins.len(),
            before == bin_views(old(bins)@),
            bin_views(bins@) == before,
            forall|j: int| 0 <= j < i ==> !(#[trigger] before[j]).accepts(*strategy, item),
        decreases bins.len() - i,
    {
        let placed: bool = bins[i].try_place(item, strategy);
        if placed {
            proof {
                lemma_first_fit_slot_unique(*strategy, before, item, i as int);
                assert(bin_views(bins@) =~= before.update(
                    i as int,
                    before[i as int].with_item(item),
                ));
            }
            return ;
        }
        i = i + 1;
    }
    let mut bin = Bin::new(core_capacity, disk_capacity);
    bin.try_place(item, strategy);
    bins.push(bin);
    proof {
        lemma_first_fit_slot_unique(*strategy, before, item, before.len() as int);
        assert(bin_views(bins@) =~= before.push(
            BinView::empty(core_capacity as nat, disk_capacity as nat).with_item(item),
        ));
    }
}

/// Packs the demands by first fit decreasing under the given strategy.
///
/// The configuration is checked first, then the demands; nothing is placed
/// unless all of it is in order. A zero capacity or weights that are not valid
/// give `InvalidConfiguration`. Otherwise the first demand of the input that
/// an empty bin does not accept gives `UnplaceableItem`. Otherwise the bins
/// are returned in the order in which they were opened, each with its demands
/// in the order in which they were placed.
pub fn pack(
    items: &Vec<Item>,
    core_capacity: u32,
    disk_capacity: u32,
    strategy: &Strategy,
) -> (result: Result<Vec<Bin>, PackError>)
    ensures
        is_outcome(
            *strategy,
            core_capacity as nat,
            disk_capacity as nat,
            items@,
            outcome_view(result),
        ),
        result matches Ok(bins) ==> is_sound_packing(
            *strategy,
            core_capacity as nat,
            disk_capacity as nat,
            items@,
            bin_views(bins@),
        ),
{
    if core_capacity == 0 || disk_capacity == 0 || !strategy.is_valid() {
        return Err(PackError::InvalidConfiguration);
    }
    match find_unplaceable(items, core_capacity, disk_capacity, strategy) {
        Some(index) => {
            let item: Item = items[index];
            return Err(PackError::UnplaceableItem { index, cores: item.0, disk: item.1 });
        },
        None => {},
    }
    let sorted = sort_decreasing(items, strategy);
    proof {
        lemma_decreasing_order(*strategy, items@);
        lemma_all_placeable_rearranged(
            *strategy,
            core_capacity as nat,
            disk_capacity as nat,
            items@,
            sorted@,
        );
    }
    let mut bins: Vec<Bin> = Vec::new();
    let mut k: usize = 0;
    while k < sorted.len()
        invariant
            k <= sorted.len(),
            all_placeable(*strategy, core_capacity as nat, disk_capacity as nat, sorted@),
            bin_views(bins@) == first_fit(
                *strategy,
                core_capacity as nat,
                disk_capacity as nat,
                sorted@.take(k as int),
            ),
        decreases sorted.len() - k,
    {
        place_first_fit(&mut bins, sorted[k], core_capacity, disk_capacity, strategy);
        assert(sorted@.take(k + 1).drop_last() =~= sorted@.take(k as int));
        k = k + 1;
    }
    proof {
        assert(sorted@.take(k as int) =~= sorted@);
        lemma_outcome_sound(
            *strategy,
            core_capacity as nat,
            disk_capacity as nat,
            items@,
            bin_views(bins@),
        );
    }
    Ok(bins)
}

/// Packs the demands by first fit decreasing: largest first by cores, then by
/// disk, each into the first bin that has room for it in both dimensions.
///
/// A zero capacity gives `InvalidConfiguration`; otherwise the first demand of
/// the input that exceeds a capacity gives `UnplaceableItem`. On success every
/// demand is in exactly one bin and no bin holds more than its capacities.
pub fn bin_packing_ffd(
    items: Vec<Item>,
    core_capacity: u32,
    disk_capacity: u32,
) -> (result: Result<Vec<Bin>, PackError>)
    ensures
        is_outcome(
            Strategy::Unweighted,
            core_capacity as nat,
            disk_capacity as nat,
            items@,
            outcome_view(result),
        ),
        result matches Ok(bins) ==> {
            &&& placed_items(bin_views(bins@)).to_multiset() == items@.to_multiset()
            &&& forall|i: int| 0 <= i < bins.len() ==> (#[trigger] bins[i])@.within_capacity()
        },
{
    let result = pack(&items, core_capacity, disk_capacity, &Strategy::Unweighted);
    proof {
        if result is Ok {
            let bins = result->Ok_0;
            assert forall|i: int| 0 <= i < bins.len() implies (#[trigger] bins[i])@
                .within_capacity() by {
                assert(bin_views(bins@)[i].within_bound(Strategy::Unweighted));
            }
        }
    }
    result
}

/// Packs the demands by weighted first fit decreasing: highest weighted score
/// first, each into the first bin whose remaining capacity covers the demand
/// scaled by the weights. The weights are fractions of `WEIGHT_SCALE`.
///
/// A zero capacity, a weight above one, or weights that do not sum to one
/// within the tolerance give `InvalidConfiguration`; otherwise the first
/// demand of the input that, scaled by the weights, exceeds a capacity gives
/// `UnplaceableItem`. On success every demand is in exactly one bin. A bin may
/// hold more than its nominal capacity, but never more than the capacity
/// divided by the weight.
pub fn bin_packing_weighted_ffd(
    items: Vec<Item>,
    core_capacity: u32,
    disk_capacity: u32,
    core_weight: u32,
    disk_weight: u32,
) -> (result: Result<Vec<Bin>, PackError>)
    ensures
        is_outcome(
            (Strategy::Weighted { core_weight, disk_weight }),
            core_capacity as nat,
            disk_capacity as nat,
            items@,
            outcome_view(result),
        ),
        result matches Ok(bins) ==> {
            &&& placed_items(bin_views(bins@)).to_multiset() == items@.to_multiset()
            &&& forall|i: int|
                0 <= i < bins.len() ==> {
                    &&& (#[trigger] bins[i])@.used_cores() * core_weight <= core_capacity
                        * WEIGHT_SCALE
                    &&& bins[i]@.used_disk() * disk_weight <= disk_capacity * WEIGHT_SCALE
                }
        },
{
    let strategy = Strategy::Weighted { core_weight, disk_weight };
    let result = pack(&items, core_capacity, disk_capacity, &strategy);
    proof {
        if result is Ok {
            let bins = result->Ok_0;
            assert forall|i: int| 0 <= i < bins.len() implies {
                &&& (#[trigger] bins[i])@.used_cores() * core_weight <= core_capacity
                    * WEIGHT_SCALE
                &&& bins[i]@.used_disk() * disk_weight <= disk_capacity * WEIGHT_SCALE
            } by {
                assert(bin_views(bins@)[i].within_bound(strategy));
            }
        }
    }
    result
}

} // verus!
