use bin_packing::order::sort_decreasing;
use bin_packing::strategy::Strategy;

fn key(strategy: &Strategy, item: &(u32, u32)) -> (u128, u32, u32) {
    let score: u128 = match strategy {
        Strategy::Unweighted => 0,
        Strategy::Weighted { core_weight, disk_weight } => {
            (item.0 as u128) * (*core_weight as u128) + (item.1 as u128) * (*disk_weight as u128)
        }
    };
    (score, item.0, item.1)
}

fn sorted_by_key(strategy: &Strategy, items: &Vec<(u32, u32)>) -> Vec<(u32, u32)> {
    let mut sorted = items.clone();
    sorted.sort_by_key(|item| key(strategy, item));
    sorted.reverse();
    sorted
}

fn scrambled(count: usize, seed: u64, bound: u32) -> Vec<(u32, u32)> {
    let mut state: u64 = seed;
    let mut items: Vec<(u32, u32)> = Vec::new();
    for _ in 0..count {
        state = state.wrapping_mul(6364136223846793005).wrapping_add(1442695040888963407);
        let cores: u32 = ((state >> 33) as u32) % bound;
        state = state.wrapping_mul(6364136223846793005).wrapping_add(1442695040888963407);
        let disk: u32 = ((state >> 33) as u32) % bound;
        items.push((cores, disk));
    }
    items
}

#[test]
fn sort_of_nothing_is_nothing() {
    let items: Vec<(u32, u32)> = Vec::new();
    assert!(sort_decreasing(&items, &Strategy::Unweighted).is_empty());
}

#[test]
fn sort_of_one_demand_is_that_demand() {
    let items: Vec<(u32, u32)> = vec![(7, 3)];
    assert_eq!(sort_decreasing(&items, &Strategy::Unweighted), vec![(7, 3)]);
}

#[test]
fn unweighted_sort_is_decreasing_by_cores_then_disk() {
    let items: Vec<(u32, u32)> =
        vec![(4, 100), (2, 50), (6, 150), (1, 30), (3, 80), (5, 120), (2, 60), (4, 90)];
    let sorted = sort_decreasing(&items, &Strategy::Unweighted);
    assert_eq!(
        sorted,
        vec![(6, 150), (5, 120), (4, 100), (4, 90), (3, 80), (2, 60), (2, 50), (1, 30)]
    );
}

#[test]
fn sort_leaves_its_input_as_it_was() {
    let items: Vec<(u32, u32)> = vec![(1, 1), (3, 3), (2, 2)];
    let sorted = sort_decreasing(&items, &Strategy::Unweighted);
    assert_eq!(items, vec![(1, 1), (3, 3), (2, 2)]);
    assert_eq!(sorted, vec![(3, 3), (2, 2), (1, 1)]);
}

#[test]
fn weighted_sort_is_decreasing_by_score() {
    let items: Vec<(u32, u32)> = vec![(3, 3), (1, 9), (3, 7), (2, 2), (3, 7)];
    let unweighted = sort_decreasing(&items, &Strategy::Unweighted);
    assert_eq!(unweighted, vec![(3, 7), (3, 7), (3, 3), (2, 2), (1, 9)]);
    let strategy = Strategy::Weighted { core_weight: 500_000_000, disk_weight: 500_000_000 };
    let weighted = sort_decreasing(&items, &strategy);
    assert_eq!(weighted, vec![(3, 7), (3, 7), (1, 9), (3, 3), (2, 2)]);
}

#[test]
fn weighted_sort_breaks_ties_by_cores_then_disk() {
    let items: Vec<(u32, u32)> = vec![(2, 4), (4, 2), (3, 3)];
    let strategy = Strategy::Weighted { core_weight: 500_000_000, disk_weight: 500_000_000 };
    assert_eq!(sort_decreasing(&items, &strategy), vec![(4, 2), (3, 3), (2, 4)]);
}

#[test]
fn sort_keeps_duplicates() {
    let items: Vec<(u32, u32)> = vec![(2, 2), (5, 5), (2, 2), (5, 5), (2, 2)];
    assert_eq!(
        sort_decreasing(&items, &Strategy::Unweighted),
        vec![(5, 5), (5, 5), (2, 2), (2, 2), (2, 2)]
    );
}

#[test]
fn sort_does_not_depend_on_the_arrangement_of_its_input() {
    let strategy = Strategy::Weighted { core_weight: 600_000_000, disk_weight: 400_000_000 };
    let items: Vec<(u32, u32)> = scrambled(200, 7, 50);
    let mut reversed = items.clone();
    reversed.reverse();
    assert_eq!(sort_decreasing(&items, &strategy), sort_decreasing(&reversed, &strategy));
}

#[test]
fn sort_agrees_with_a_sort_by_key_on_many_inputs() {
    let strategies: Vec<Strategy> = vec![
        Strategy::Unweighted,
        Strategy::Weighted { core_weight: 600_000_000, disk_weight: 400_000_000 },
        Strategy::Weighted { core_weight: 200_000_000, disk_weight: 800_000_000 },
        Strategy::Weighted { core_weight: 0, disk_weight: 1_000_000_000 },
        Strategy::Weighted { core_weight: u32::MAX, disk_weight: u32::MAX },
    ];
    for (round, strategy) in strategies.iter().enumerate() {
        for count in [0usize, 1, 2, 3, 5, 8, 64, 257, 1000] {
            let small = scrambled(count, 11 + round as u64, 10);
            assert_eq!(sort_decreasing(&small, strategy), sorted_by_key(strategy, &small));
            let large = scrambled(count, 23 + round as u64, u32::MAX);
            assert_eq!(sort_decreasing(&large, strategy), sorted_by_key(strategy, &large));
        }
    }
}
