//! First-fit-decreasing packing of two-dimensional demands into fixed-capacity bins.
//!
//! A demand asks for a number of cores and an amount of disk. Bins all share one
//! core capacity and one disk capacity. Packing orders the demands from largest
//! to smallest and puts each into the first bin that still accepts it, opening a
//! new bin when none does.
//!
//! Two strategies are offered. The unweighted one compares demands against what
//! a bin has left. The weighted one scales each demand by a weight first, so a
//! bin may take more than its nominal capacity in a dimension whose weight is
//! below one; it is a heuristic, not a physical limit. Weights are fixed-point
//! fractions, and every comparison is made on exact integers.
//!
//! - `demand`: demands and their totals.
//! - `strategy`: the order of packing and the fit test.
//! - `bin`: bins, what they hold and what they have left.
//! - `order`: putting demands in decreasing order.
//! - `first_fit`: first fit on mathematical values, and what it guarantees.
//! - `packing`: the packing functions, their outcomes and their errors.

pub mod bin;
pub mod demand;
pub mod first_fit;
pub mod order;
pub mod packing;
pub mod strategy;
