use bin_packing::bin::Bin;
use bin_packing::packing::{bin_packing_ffd, bin_packing_weighted_ffd, pack, PackError};
use bin_packing::strategy::Strategy;

fn sample() -> Vec<(u32, u32)> {
    vec![(4, 100), (2, 50), (6, 150), (1, 30), (3, 80), (5, 120), (2, 60), (4, 90)]
}

fn contents(bins: &Vec<Bin>) -> Vec<Vec<(u32, u32)>> {
    bins.iter().map(|bin| bin.items().clone()).collect()
}

fn remaining(bins: &Vec<Bin>) -> Vec<(u32, u32)> {
    bins.iter().map(|bin| (bin.remaining_core_capacity(), bin.remaining_disk_capacity())).collect()
}

fn all_items(bins: &Vec<Bin>) -> Vec<(u32, u32)> {
    let mut items: Vec<(u32, u32)> = Vec::new();
    for bin in bins {
        items.extend(bin.items().iter().copied());
    }
    items.sort();
    items
}

fn sorted(items: &Vec<(u32, u32)>) -> Vec<(u32, u32)> {
    let mut items = items.clone();
    items.sort();
    items
}

fn scrambled(count: usize, seed: u64, bound: u32) -> Vec<(u32, u32)> {
    let mut state: u64 = seed;
    let mut items: Vec<(u32, u32)> = Vec::new();
    for _ in 0..count {
        state = state.wrapping_mul(6364136223846793005).wrapping_add(1442695040888963407);
        let cores: u32 = ((state >> 33) as u32) % bound + 1;
        state = state.wrapping_mul(6364136223846793005).wrapping_add(1442695040888963407);
        let disk: u32 = ((state >> 33) as u32) % bound + 1;
        items.push((cores, disk));
    }
    items
}

#[test]
fn unweighted_packing_of_the_sample() {
    let bins = bin_packing_ffd(sample(), 10, 200).unwrap();
    assert_eq!(
        contents(&bins),
        vec![
            vec![(6, 150), (2, 50)],
            vec![(5, 120), (3, 80)],
            vec![(4, 100), (4, 90)],
            vec![(2, 60), (1, 30)],
        ]
    );
    assert_eq!(remaining(&bins), vec![(2, 0), (2, 0), (2, 10), (7, 110)]);
    for bin in &bins {
        assert_eq!(bin.core_capacity(), 10);
        assert_eq!(bin.disk_capacity(), 200);
        let cores: u32 = bin.items().iter().map(|item| item.0).sum();
        let disk: u32 = bin.items().iter().map(|item| item.1).sum();
        assert!(cores <= 10);
        assert!(disk <= 200);
    }
}

#[test]
fn weighted_packing_of_the_sample_favouring_cores() {
    let bins = bin_packing_weighted_ffd(sample(), 10, 200, 600_000_000, 400_000_000).unwrap();
    assert_eq!(
        contents(&bins),
        vec![
            vec![(6, 150), (5, 120)],
            vec![(4, 100), (4, 90)],
            vec![(3, 80), (2, 60), (2, 50)],
            vec![(1, 30)],
        ]
    );
    assert_eq!(remaining(&bins), vec![(0, 0), (2, 10), (3, 10), (9, 170)]);
}

#[test]
fn weighted_packing_of_the_sample_favouring_disk() {
    let bins = bin_packing_weighted_ffd(sample(), 10, 200, 200_000_000, 800_000_000).unwrap();
    assert_eq!(
        contents(&bins),
        vec![
            vec![(6, 150), (2, 60)],
            vec![(5, 120), (4, 100)],
            vec![(4, 90), (3, 80), (1, 30)],
            vec![(2, 50)],
        ]
    );
    assert_eq!(remaining(&bins), vec![(2, 0), (1, 0), (2, 0), (8, 150)]);
}

#[test]
fn different_weights_give_different_packings() {
    let cores_first =
        bin_packing_weighted_ffd(sample(), 10, 200, 600_000_000, 400_000_000).unwrap();
    let disk_first =
        bin_packing_weighted_ffd(sample(), 10, 200, 200_000_000, 800_000_000).unwrap();
    assert_ne!(contents(&cores_first), contents(&disk_first));
    assert_eq!(all_items(&cores_first), all_items(&disk_first));
}

#[test]
fn weights_change_the_order_of_packing() {
    let items: Vec<(u32, u32)> = vec![(3, 3), (1, 9), (3, 7), (2, 2), (3, 7)];
    let plain = bin_packing_ffd(items.clone(), 6, 16).unwrap();
    assert_eq!(contents(&plain), vec![vec![(3, 7), (3, 7)], vec![(3, 3), (2, 2), (1, 9)]]);
    let even = bin_packing_weighted_ffd(items, 6, 16, 500_000_000, 500_000_000).unwrap();
    assert_eq!(contents(&even), vec![vec![(3, 7), (3, 7)], vec![(1, 9), (3, 3), (2, 2)]]);
}

#[test]
fn demand_equal_to_the_capacity_fills_one_bin() {
    let bins = bin_packing_ffd(vec![(10, 200)], 10, 200).unwrap();
    assert_eq!(contents(&bins), vec![vec![(10, 200)]]);
    assert_eq!(bins[0].remaining_core_capacity(), 0);
    assert_eq!(bins[0].remaining_disk_capacity(), 0);
}

#[test]
fn demand_above_the_capacity_is_reported() {
    let result = bin_packing_ffd(vec![(11, 50)], 10, 200);
    assert_eq!(result.unwrap_err(), PackError::UnplaceableItem { index: 0, cores: 11, disk: 50 });
}

#[test]
fn demand_above_the_disk_capacity_is_reported() {
    let result = bin_packing_ffd(vec![(1, 1), (10, 201), (11, 1)], 10, 200);
    assert_eq!(result.unwrap_err(), PackError::UnplaceableItem { index: 1, cores: 10, disk: 201 });
}

#[test]
fn first_unplaceable_demand_in_input_order_is_reported() {
    let result = bin_packing_ffd(vec![(3, 3), (12, 1), (50, 50), (1, 1)], 10, 200);
    assert_eq!(result.unwrap_err(), PackError::UnplaceableItem { index: 1, cores: 12, disk: 1 });
}

#[test]
fn weights_that_sum_to_nine_tenths_are_refused() {
    let result = bin_packing_weighted_ffd(sample(), 10, 200, 500_000_000, 400_000_000);
    assert_eq!(result.unwrap_err(), PackError::InvalidConfiguration);
}

#[test]
fn weights_are_refused_before_any_demand_is_looked_at() {
    let result = bin_packing_weighted_ffd(vec![(11, 50)], 10, 200, 500_000_000, 400_000_000);
    assert_eq!(result.unwrap_err(), PackError::InvalidConfiguration);
    let nothing: Vec<(u32, u32)> = Vec::new();
    let result = bin_packing_weighted_ffd(nothing, 10, 200, 500_000_000, 400_000_000);
    assert_eq!(result.unwrap_err(), PackError::InvalidConfiguration);
}

#[test]
fn weight_above_one_is_refused() {
    let result = bin_packing_weighted_ffd(sample(), 10, 200, 1_000_000_500, 0);
    assert_eq!(result.unwrap_err(), PackError::InvalidConfiguration);
}

#[test]
fn weight_sum_within_the_tolerance_is_accepted() {
    let bins = bin_packing_weighted_ffd(sample(), 10, 200, 600_000_024, 400_000_006).unwrap();
    assert_eq!(all_items(&bins), sorted(&sample()));
    assert!(bin_packing_weighted_ffd(sample(), 10, 200, 600_000_000, 400_000_999).is_ok());
    assert!(bin_packing_weighted_ffd(sample(), 10, 200, 600_000_000, 400_001_000).is_err());
    assert!(bin_packing_weighted_ffd(sample(), 10, 200, 600_000_000, 399_999_001).is_ok());
    assert!(bin_packing_weighted_ffd(sample(), 10, 200, 600_000_000, 399_999_000).is_err());
}

#[test]
fn zero_capacity_is_refused() {
    assert_eq!(bin_packing_ffd(sample(), 0, 200).unwrap_err(), PackError::InvalidConfiguration);
    assert_eq!(bin_packing_ffd(sample(), 10, 0).unwrap_err(), PackError::InvalidConfiguration);
    assert_eq!(bin_packing_ffd(Vec::new(), 0, 0).unwrap_err(), PackError::InvalidConfiguration);
    assert_eq!(
        bin_packing_weighted_ffd(vec![(0, 0)], 0, 200, 600_000_000, 400_000_000).unwrap_err(),
        PackError::InvalidConfiguration
    );
}

#[test]
fn packing_nothing_opens_no_bin() {
    assert!(bin_packing_ffd(Vec::new(), 10, 200).unwrap().is_empty());
    assert!(bin_packing_weighted_ffd(Vec::new(), 10, 200, 600_000_000, 400_000_000)
        .unwrap()
        .is_empty());
}

#[test]
fn weighted_demand_is_placeable_up_to_capacity_over_weight() {
    // 6 * 0.5 = 3 fits an empty bin of 3 cores; 7 * 0.5 = 3.5 does not.
    let bins = bin_packing_weighted_ffd(vec![(6, 10)], 3, 10, 500_000_000, 500_000_000).unwrap();
    assert_eq!(contents(&bins), vec![vec![(6, 10)]]);
    assert_eq!(remaining(&bins), vec![(0, 0)]);
    let result = bin_packing_weighted_ffd(vec![(6, 10), (7, 10)], 3, 10, 500_000_000, 500_000_000);
    assert_eq!(result.unwrap_err(), PackError::UnplaceableItem { index: 1, cores: 7, disk: 10 });
    let result = bin_packing_weighted_ffd(vec![(6, 21)], 3, 10, 500_000_000, 500_000_000);
    assert_eq!(result.unwrap_err(), PackError::UnplaceableItem { index: 0, cores: 6, disk: 21 });
}

#[test]
fn weighted_placeability_is_decided_on_exact_products() {
    assert!(bin_packing_weighted_ffd(vec![(5, 10)], 3, 10, 600_000_000, 400_000_000).is_ok());
    let result = bin_packing_weighted_ffd(vec![(5, 10)], 3, 10, 600_000_024, 400_000_006);
    assert_eq!(result.unwrap_err(), PackError::UnplaceableItem { index: 0, cores: 5, disk: 10 });
}

#[test]
fn weight_of_zero_leaves_a_dimension_unbounded() {
    let items: Vec<(u32, u32)> =
        vec![(4_000_000_000, 1), (4_000_000_000, 1), (4_000_000_000, 1), (1, 1)];
    let bins = bin_packing_weighted_ffd(items, 10, 3, 0, 1_000_000_000).unwrap();
    assert_eq!(
        contents(&bins),
        vec![vec![(4_000_000_000, 1), (4_000_000_000, 1), (4_000_000_000, 1)], vec![(1, 1)]]
    );
    assert_eq!(remaining(&bins), vec![(0, 0), (9, 2)]);
}

#[test]
fn pack_agrees_with_the_named_entry_points() {
    let plain = pack(&sample(), 10, 200, &Strategy::Unweighted).unwrap();
    assert_eq!(contents(&plain), contents(&bin_packing_ffd(sample(), 10, 200).unwrap()));
    let strategy = Strategy::Weighted { core_weight: 600_000_000, disk_weight: 400_000_000 };
    let weighted = pack(&sample(), 10, 200, &strategy).unwrap();
    assert_eq!(
        contents(&weighted),
        contents(&bin_packing_weighted_ffd(sample(), 10, 200, 600_000_000, 400_000_000).unwrap())
    );
    assert_eq!(
        pack(&sample(), 10, 200, &Strategy::Weighted { core_weight: 1, disk_weight: 1 })
            .unwrap_err(),
        PackError::InvalidConfiguration
    );
}

#[test]
fn every_demand_is_placed_exactly_once() {
    for seed in 0u64..20 {
        let items = scrambled(60, seed, 20);
        let bins = bin_packing_ffd(items.clone(), 20, 20).unwrap();
        assert_eq!(all_items(&bins), sorted(&items));
        let bins =
            bin_packing_weighted_ffd(items.clone(), 20, 20, 300_000_000, 700_000_000).unwrap();
        assert_eq!(all_items(&bins), sorted(&items));
    }
}

#[test]
fn duplicates_are_each_placed() {
    let items: Vec<(u32, u32)> = vec![(5, 5); 7];
    let bins = bin_packing_ffd(items.clone(), 10, 10).unwrap();
    assert_eq!(
        contents(&bins),
        vec![vec![(5, 5), (5, 5)], vec![(5, 5), (5, 5)], vec![(5, 5), (5, 5)], vec![(5, 5)]]
    );
}

#[test]
fn unweighted_bins_stay_within_capacity() {
    for seed in 0u64..20 {
        let items = scrambled(80, 100 + seed, 30);
        let bins = bin_packing_ffd(items, 30, 45).unwrap();
        for bin in &bins {
            assert!(!bin.items().is_empty());
            let cores: u64 = bin.items().iter().map(|item| item.0 as u64).sum();
            let disk: u64 = bin.items().iter().map(|item| item.1 as u64).sum();
            assert!(cores <= 30);
            assert!(disk <= 45);
            assert_eq!(bin.remaining_core_capacity() as u64, 30 - cores);
            assert_eq!(bin.remaining_disk_capacity() as u64, 45 - disk);
        }
    }
}

#[test]
fn weighted_bins_stay_within_capacity_over_weight() {
    let weights: Vec<(u32, u32)> =
        vec![(600_000_000, 400_000_000), (200_000_000, 800_000_000), (0, 1_000_000_000)];
    for (core_weight, disk_weight) in weights {
        for seed in 0u64..10 {
            let items = scrambled(80, 200 + seed, 30);
            let bins = bin_packing_weighted_ffd(items, 30, 45, core_weight, disk_weight).unwrap();
            for bin in &bins {
                assert!(!bin.items().is_empty());
                let cores: u64 = bin.items().iter().map(|item| item.0 as u64).sum();
                let disk: u64 = bin.items().iter().map(|item| item.1 as u64).sum();
                assert!(cores * core_weight as u64 <= 30 * 1_000_000_000);
                assert!(disk * disk_weight as u64 <= 45 * 1_000_000_000);
                assert_eq!(bin.remaining_core_capacity() as u64, 30u64.saturating_sub(cores));
                assert_eq!(bin.remaining_disk_capacity() as u64, 45u64.saturating_sub(disk));
            }
        }
    }
}

#[test]
fn weighted_bin_may_exceed_its_nominal_capacity() {
    let bins = bin_packing_weighted_ffd(sample(), 10, 200, 600_000_000, 400_000_000).unwrap();
    let cores: u32 = bins[0].items().iter().map(|item| item.0).sum();
    let disk: u32 = bins[0].items().iter().map(|item| item.1).sum();
    assert_eq!((cores, disk), (11, 270));
    assert_eq!(bins[0].remaining_core_capacity(), 0);
    assert_eq!(bins[0].remaining_disk_capacity(), 0);
}

#[test]
fn packing_twice_gives_the_same_bins() {
    let items = scrambled(100, 5, 25);
    let first = bin_packing_ffd(items.clone(), 25, 25).unwrap();
    let second = bin_packing_ffd(items.clone(), 25, 25).unwrap();
    assert_eq!(contents(&first), contents(&second));
    let first = bin_packing_weighted_ffd(items.clone(), 25, 25, 500_000_000, 500_000_000).unwrap();
    let second = bin_packing_weighted_ffd(items, 25, 25, 500_000_000, 500_000_000).unwrap();
    assert_eq!(contents(&first), contents(&second));
}

#[test]
fn packing_does_not_depend_on_the_arrangement_of_the_input() {
    let items = scrambled(100, 9, 25);
    let mut reversed = items.clone();
    reversed.reverse();
    let mut rotated = items.clone();
    rotated.rotate_left(37);
    let bins = bin_packing_ffd(items.clone(), 25, 25).unwrap();
    assert_eq!(contents(&bins), contents(&bin_packing_ffd(reversed.clone(), 25, 25).unwrap()));
    assert_eq!(contents(&bins), contents(&bin_packing_ffd(rotated.clone(), 25, 25).unwrap()));
    let bins = bin_packing_weighted_ffd(items, 25, 25, 500_000_000, 500_000_000).unwrap();
    assert_eq!(
        contents(&bins),
        contents(&bin_packing_weighted_ffd(reversed, 25, 25, 500_000_000, 500_000_000).unwrap())
    );
    assert_eq!(
        contents(&bins),
        contents(&bin_packing_weighted_ffd(rotated, 25, 25, 500_000_000, 500_000_000).unwrap())
    );
}

#[test]
fn adding_smaller_demands_never_lowers_the_number_of_bins() {
    let items: Vec<(u32, u32)> = vec![(6, 150), (5, 120), (4, 100)];
    let before = bin_packing_ffd(items.clone(), 10, 200).unwrap();
    assert_eq!(before.len(), 3);
    let mut more = items.clone();
    more.extend(vec![(1, 30), (2, 50)]);
    let after = bin_packing_ffd(more, 10, 200).unwrap();
    assert_eq!(
        contents(&after),
        vec![vec![(6, 150), (2, 50)], vec![(5, 120), (1, 30)], vec![(4, 100)]]
    );
    for seed in 0u64..20 {
        let large: Vec<(u32, u32)> =
            scrambled(30, 300 + seed, 10).iter().map(|item| (item.0 + 10, item.1)).collect();
        let small = scrambled(30, 400 + seed, 10);
        let before = bin_packing_ffd(large.clone(), 40, 25).unwrap();
        let mut both = large.clone();
        both.extend(small);
        let after = bin_packing_ffd(both, 40, 25).unwrap();
        assert!(after.len() >= before.len());
    }
}

#[test]
fn adding_a_larger_demand_can_lower_the_number_of_bins() {
    let items: Vec<(u32, u32)> = vec![(16, 5), (8, 10), (10, 1), (1, 12)];
    let before = bin_packing_ffd(items.clone(), 28, 17).unwrap();
    assert_eq!(contents(&before), vec![vec![(16, 5), (10, 1)], vec![(8, 10)], vec![(1, 12)]]);
    let mut more = items;
    more.push((17, 1));
    let after = bin_packing_ffd(more, 28, 17).unwrap();
    assert_eq!(contents(&after), vec![vec![(17, 1), (10, 1), (1, 12)], vec![(16, 5), (8, 10)]]);
}

#[test]
fn first_fit_prefers_the_earliest_bin_with_room() {
    let bins = bin_packing_ffd(vec![(7, 1), (6, 1), (4, 1), (3, 1), (3, 1)], 10, 10).unwrap();
    assert_eq!(contents(&bins), vec![vec![(7, 1), (3, 1)], vec![(6, 1), (4, 1)], vec![(3, 1)]]);
}

#[test]
fn largest_demands_are_packed_without_overflow() {
    let items: Vec<(u32, u32)> = vec![(u32::MAX, u32::MAX), (u32::MAX, 1), (1, u32::MAX)];
    let bins = bin_packing_ffd(items.clone(), u32::MAX, u32::MAX).unwrap();
    assert_eq!(
        contents(&bins),
        vec![vec![(u32::MAX, u32::MAX)], vec![(u32::MAX, 1)], vec![(1, u32::MAX)]]
    );
    let bins =
        bin_packing_weighted_ffd(items, u32::MAX, u32::MAX, 500_000_000, 500_000_000).unwrap();
    assert_eq!(
        contents(&bins),
        vec![vec![(u32::MAX, u32::MAX)], vec![(u32::MAX, 1)], vec![(1, u32::MAX)]]
    );
}
