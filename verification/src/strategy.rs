//! Packing strategies: how demands are ordered and when a bin accepts one.
//!
//! Weights are fixed-point fractions. A weight `w` stands for the fraction
//! `w / WEIGHT_SCALE`, so `WEIGHT_SCALE` itself stands for one. All comparisons
//! are made on exact integer products; nothing is rounded.
//!
//! The order is total. Demands with equal scores are ordered by cores, then by
//! disk, so two demands that are not told apart by the order are the same
//! demand. The order in which demands are packed therefore depends only on
//! which demands there are, never on how the input was arranged.

use crate::demand::Item;
use vstd::prelude::*;
use vstd::relations::*;

verus! {

/// The weight that stands for one.
pub const WEIGHT_SCALE: u32 = 1_000_000_000;

/// A pair of weights is accepted when its sum differs from `WEIGHT_SCALE` by
/// less than this, which is one millionth of the scale.
pub const WEIGHT_TOLERANCE: u32 = 1_000;

/// How demands are ordered and tested against a bin.
#[derive(Clone, Copy, Debug, PartialEq, Eq)]
pub enum Strategy {
    /// Demands are ordered by cores, then disk, and must fit in what a bin has left.
    Unweighted,
    /// Demands are ordered by their weighted score, and a bin accepts a demand
    /// when what it has left covers the demand scaled by the weights.
    Weighted { core_weight: u32, disk_weight: u32 },
}

impl Strategy {
    /// Whether the strategy can be packed with: each weight is at most one, and
    /// the two weights sum to one within the tolerance.
    pub open spec fn valid(self) -> bool {
        match self {
            Strategy::Unweighted => true,
            Strategy::Weighted { core_weight, disk_weight } => {
                &&& core_weight <= WEIGHT_SCALE
                &&& disk_weight <= WEIGHT_SCALE
                &&& WEIGHT_SCALE - WEIGHT_TOLERANCE < core_weight + disk_weight
                &&& core_weight + disk_weight < WEIGHT_SCALE + WEIGHT_TOLERANCE
            },
        }
    }

    /// The weighted score of a demand, in units of one over `WEIGHT_SCALE`.
    /// Without weights every demand scores zero.
    pub open spec fn score(self, item: Item) -> nat {
        match self {
            Strategy::Unweighted => 0,
            Strategy::Weighted { core_weight, disk_weight } => (item.0 * core_weight
                + item.1 * disk_weight) as nat,
        }
    }

    /// Whether `a` is packed no later than `b`: the higher score goes first, and
    /// among equal scores the demand with more cores, then with more disk.
    pub open spec fn precedes(self, a: Item, b: Item) -> bool {
        ||| self.score(a) > self.score(b)
        ||| self.score(a) == self.score(b) && a.0 > b.0
        ||| self.score(a) == self.score(b) && a.0 == b.0 && a.1 >= b.1
    }

    /// `precedes` as a relation.
    pub open spec fn order(self) -> spec_fn(Item, Item) -> bool {
        |a: Item, b: Item| self.precedes(a, b)
    }

    /// The fit test: whether a bin with the given free cores and free disk
    /// accepts the demand.
    pub open spec fn admits(self, free_cores: nat, free_disk: nat, item: Item) -> bool {
        match self {
            Strategy::Unweighted => free_cores >= item.0 && free_disk >= item.1,
            Strategy::Weighted { core_weight, disk_weight } => {
                &&& free_cores * WEIGHT_SCALE >= item.0 * core_weight
                &&& free_disk * WEIGHT_SCALE >= item.1 * disk_weight
            },
        }
    }

    /// Checks the weights of the strategy.
    pub fn is_valid(&self) -> (ok: bool)
        ensures
            ok == self.valid(),
    {
        match *self {
            Strategy::Unweighted => true,
            Strategy::Weighted { core_weight, disk_weight } => {
                if core_weight > WEIGHT_SCALE || disk_weight > WEIGHT_SCALE {
                    false
                } else {
                    let sum: u32 = core_weight + disk_weight;
                    WEIGHT_SCALE - WEIGHT_TOLERANCE < sum && sum < WEIGHT_SCALE + WEIGHT_TOLERANCE
                }
            },
        }
    }

    /// Decides whether `a` is packed no later than `b`.
    pub fn comes_first(&self, a: Item, b: Item) -> (first: bool)
        ensures
            first == self.precedes(a, b),
    {
        match *self {
            Strategy::Unweighted => a.0 > b.0 || (a.0 == b.0 && a.1 >= b.1),
            Strategy::Weighted { core_weight, disk_weight } => {
                let score_a: u128 = weighted_sum(a, core_weight, disk_weight);
                let score_b: u128 = weighted_sum(b, core_weight, disk_weight);
                score_a > score_b || (score_a == score_b && (a.0 > b.0 || (a.0 == b.0 && a.1
                    >= b.1)))
            },
        }
    }

    /// Runs the fit test on what a bin has left.
    pub fn fit_test(&self, free_cores: u32, free_disk: u32, item: Item) -> (fits: bool)
        ensures
            fits == self.admits(free_cores as nat, free_disk as nat, item),
    {
        match *self {
            Strategy::Unweighted => free_cores >= item.0 && free_disk >= item.1,
            Strategy::Weighted { core_weight, disk_weight } => {
                scaled(free_cores, WEIGHT_SCALE) >= scaled(item.0, core_weight) && scaled(
                    free_disk,
                    WEIGHT_SCALE,
                ) >= scaled(item.1, disk_weight)
            },
        }
    }

    /// The order in which demands are packed is total: any two demands are
    /// comparable, and two demands that precede each other are the same demand.
    pub proof fn lemma_order_is_total(self)
        ensures
            total_ordering(self.order()),
    {
        let order = self.order();
        assert forall|a: Item, b: Item| #[trigger] order(a, b) && #[trigger] order(b, a) implies a
            == b by {}
    }
}

/// The exact product of a quantity and a weight.
fn scaled(quantity: u32, weight: u32) -> (product: u64)
    ensures
        product == quantity * weight,
{
    assert(quantity * weight <= 0xffff_ffff * 0xffff_ffff) by (nonlinear_arith)
        requires
            quantity <= 0xffff_ffff,
            weight <= 0xffff_ffff,
    ;
    quantity as u64 * weight as u64
}

/// The exact weighted score of a demand.
fn weighted_sum(item: Item, core_weight: u32, disk_weight: u32) -> (sum: u128)
    ensures
        sum == item.0 * core_weight + item.1 * disk_weight,
{
    scaled(item.0, core_weight) as u128 + scaled(item.1, disk_weight) as u128
}

} // verus!
