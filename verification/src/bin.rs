//! Bins: fixed capacities and the demands placed so far.

use crate::demand::{lemma_totals_prefix, lemma_totals_push, total_cores, total_disk, Item};
use crate::strategy::{Strategy, WEIGHT_SCALE};
use vstd::prelude::*;

verus! {

/// A bin as a mathematical value: its two capacities and the demands placed in
/// it, in the order in which they were placed.
pub struct BinView {
    pub core_capacity: nat,
    pub disk_capacity: nat,
    pub items: Seq<Item>,
}

impl BinView {
    /// A bin with the given capacities and nothing in it.
    pub open spec fn empty(core_capacity: nat, disk_capacity: nat) -> BinView {
        BinView { core_capacity, disk_capacity, items: Seq::empty() }
    }

    /// The cores that the placed demands ask for.
    pub open spec fn used_cores(self) -> nat {
        total_cores(self.items)
    }

    /// The disk space that the placed demands ask for.
    pub open spec fn used_disk(self) -> nat {
        total_disk(self.items)
    }

    /// The cores that are left; zero once the placed demands reach or exceed
    /// the capacity.
    pub open spec fn free_cores(self) -> nat {
        if self.used_cores() <= self.core_capacity {
            (self.core_capacity - self.used_cores()) as nat
        } else {
            0
        }
    }

    /// The disk space that is left; zero once the placed demands reach or
    /// exceed the capacity.
    pub open spec fn free_disk(self) -> nat {
        if self.used_disk() <= self.disk_capacity {
            (self.disk_capacity - self.used_disk()) as nat
        } else {
            0
        }
    }

    /// Whether the bin takes the demand under the strategy's fit test.
    pub open spec fn accepts(self, strategy: Strategy, item: Item) -> bool {
        strategy.admits(self.free_cores(), self.free_disk(), item)
    }

    /// The bin with one more demand placed last.
    pub open spec fn with_item(self, item: Item) -> BinView {
        BinView { items: self.items.push(item), ..self }
    }

    /// The placed demands stay within both capacities.
    pub open spec fn within_capacity(self) -> bool {
        self.used_cores() <= self.core_capacity && self.used_disk() <= self.disk_capacity
    }

    /// The bound that the strategy keeps on a bin. Without weights it is the
    /// capacity itself. With weights it is the capacity divided by the weight:
    /// the placed demands, scaled by the weight, stay within the capacity. A
    /// weight of zero leaves that dimension unbounded.
    pub open spec fn within_bound(self, strategy: Strategy) -> bool {
        match strategy {
            Strategy::Unweighted => self.within_capacity(),
            Strategy::Weighted { core_weight, disk_weight } => {
                &&& self.used_cores() * core_weight <= self.core_capacity * WEIGHT_SCALE
                &&& self.used_disk() * disk_weight <= self.disk_capacity * WEIGHT_SCALE
            },
        }
    }

    /// A bin that accepts a demand stays within the strategy's bound.
    pub proof fn lemma_accepted_item_keeps_bound(self, strategy: Strategy, item: Item)
        requires
            strategy.valid(),
            self.within_bound(strategy),
            self.accepts(strategy, item),
        ensures
            self.with_item(item).within_bound(strategy),
    {
        lemma_totals_push(self.items, item);
        match strategy {
            Strategy::Unweighted => {},
            Strategy::Weighted { core_weight, disk_weight } => {
                lemma_scaled_bound(
                    self.core_capacity,
                    self.used_cores(),
                    item.0 as nat,
                    core_weight as nat,
                );
                lemma_scaled_bound(
                    self.disk_capacity,
                    self.used_disk(),
                    item.1 as nat,
                    disk_weight as nat,
                );
            },
        }
    }
}

/// One dimension of the weighted bound: if the demand scaled by the weight fits
/// in what is left, the new total scaled by the weight fits in the capacity.
proof fn lemma_scaled_bound(capacity: nat, used: nat, demand: nat, weight: nat)
    requires
        weight <= WEIGHT_SCALE,
        used * weight <= capacity * WEIGHT_SCALE,
        (if used <= capacity {
            capacity - used
        } else {
            0
        }) * WEIGHT_SCALE >= demand * weight,
    ensures
        (used + demand) * weight <= capacity * WEIGHT_SCALE,
{
    assert((used + demand) * weight == used * weight + demand * weight) by (nonlinear_arith);
    if used <= capacity {
        assert(used * weight <= used * WEIGHT_SCALE) by (nonlinear_arith)
            requires
                weight <= WEIGHT_SCALE,
        ;
    }
}

/// A bin: fixed capacities and the demands placed in it so far.
#[derive(Debug)]
pub struct Bin {
    core_capacity: u32,
    disk_capacity: u32,
    items: Vec<Item>,
}

impl View for Bin {
    type V = BinView;

    closed spec fn view(&self) -> BinView {
        BinView {
            core_capacity: self.core_capacity as nat,
            disk_capacity: self.disk_capacity as nat,
            items: self.items@,
        }
    }
}

impl Bin {
    /// Makes an empty bin with the given capacities.
    pub fn new(core_capacity: u32, disk_capacity: u32) -> (bin: Self)
        ensures
            bin@ == BinView::empty(core_capacity as nat, disk_capacity as nat),
    {
        Bin { core_capacity, disk_capacity, items: Vec::new() }
    }

    /// The core capacity that the bin was made with.
    pub fn core_capacity(&self) -> (capacity: u32)
        ensures
            capacity == self@.core_capacity,
    {
        self.core_capacity
    }

    /// The disk capacity that the bin was made with.
    pub fn disk_capacity(&self) -> (capacity: u32)
        ensures
            capacity == self@.disk_capacity,
    {
        self.disk_capacity
    }

    /// The demands placed in the bin, in the order in which they were placed.
    pub fn items(&self) -> (items: &Vec<Item>)
        ensures
            items@ == self@.items,
    {
        &self.items
    }

    /// The cores that are left, zero when the placed demands exceed the
    /// capacity.
    pub fn remaining_core_capacity(&self) -> (free: u32)
        ensures
            free == self@.free_cores(),
    {
        let mut free: u32 = self.core_capacity;
        let mut i: usize = 0;
        while i < self.items.len()
            invariant
                i <= self.items.len(),
                free + total_cores(self.items@.take(i as int)) == self.core_capacity,
            decreases self.items.len() - i,
        {
            let cores: u32 = self.items[i].0;
            proof {
                let seen = self.items@.take(i as int);
                assert(self.items@.take(i + 1) =~= seen.push(self.items@[i as int]));
                lemma_totals_push(seen, self.items@[i as int]);
                lemma_totals_prefix(self.items@, i + 1);
            }
            if cores > free {
                return 0;
            }
            free = free - cores;
            i = i + 1;
        }
        proof {
            assert(self.items@.take(i as int) =~= self.items@);
        }
        free
    }

    /// The disk space that is left, zero when the placed demands exceed the
    /// capacity.
    pub fn remaining_disk_capacity(&self) -> (free: u32)
        ensures
            free == self@.free_disk(),
    {
        let mut free: u32 = self.disk_capacity;
        let mut i: usize = 0;
        while i < self.items.len()
            invariant
                i <= self.items.len(),
                free + total_disk(self.items@.take(i as int)) == self.disk_capacity,
            decreases self.items.len() - i,
        {
            let disk: u32 = self.items[i].1;
            proof {
                let seen = self.items@.take(i as int);
                assert(self.items@.take(i + 1) =~= seen.push(self.items@[i as int]));
                lemma_totals_push(seen, self.items@[i as int]);
                lemma_totals_prefix(self.items@, i + 1);
            }
            if disk > free {
                return 0;
            }
            free = free - disk;
            i = i + 1;
        }
        proof {
            assert(self.items@.take(i as int) =~= self.items@);
        }
        free
    }

    /// Places the demand if the bin accepts it under the strategy's fit test,
    /// and says whether it did. A bin that refuses is left as it was. A bin
    /// within the bound of a valid strategy stays within it.
    pub fn try_place(&mut self, item: Item, strategy: &Strategy) -> (placed: bool)
        ensures
            placed == old(self)@.accepts(*strategy, item),
            placed ==> final(self)@ == old(self)@.with_item(item),
            !placed ==> final(self)@ == old(self)@,
            strategy.valid() && old(self)@.within_bound(*strategy)
                ==> final(self)@.within_bound(*strategy),
    {
        let free_cores: u32 = self.remaining_core_capacity();
        let free_disk: u32 = self.remaining_disk_capacity();
        if strategy.fit_test(free_cores, free_disk, item) {
            proof {
                if strategy.valid() && self@.within_bound(*strategy) {
                    self@.lemma_accepted_item_keeps_bound(*strategy, item);
                }
            }
            self.items.push(item);
            true
        } else {
            false
        }
    }

    /// Places a demand of `cores` and `disk` under the weighted fit test: the
    /// bin takes it when the cores left cover `cores` scaled by `core_weight`
    /// and the disk left covers `disk` scaled by `disk_weight`. Says whether
    /// the demand was placed; a bin that refuses is left as it was. A bin
    /// within the bound of valid weights stays within it.
    pub fn add_item(
        &mut self,
        cores: u32,
        disk: u32,
        core_weight: u32,
        disk_weight: u32,
    ) -> (placed: bool)
        ensures
            placed == old(self)@.accepts(
                (Strategy::Weighted { core_weight, disk_weight }),
                (cores, disk),
            ),
            placed ==> final(self)@ == old(self)@.with_item((cores, disk)),
            !placed ==> final(self)@ == old(self)@,
            ({
                let strategy = Strategy::Weighted { core_weight, disk_weight };
                strategy.valid() && old(self)@.within_bound(strategy)
                    ==> final(self)@.within_bound(strategy)
            }),
    {
        let strategy = Strategy::Weighted { core_weight, disk_weight };
        self.try_place((cores, disk), &strategy)
    }
}

} // verus!
