use solana_program::pubkey::Pubkey as SolanaPubkey;
use wayfinder::error::WayfinderError;
use wayfinder::pathfinding::AStarPathfinder;
use wayfinder::pubkey::Pubkey;
use wayfinder::state::PoolInfo;

fn unique() -> Pubkey {
    Pubkey::new_from_array(SolanaPubkey::new_unique().to_bytes())
}

fn key(n: u8) -> Pubkey {
    Pubkey::new_from_array([n; 32])
}

fn pool(address: Pubkey, token_a: Pubkey, token_b: Pubkey, reserve_a: u64, reserve_b: u64) -> PoolInfo {
    PoolInfo { address, token_a, token_b, fee_bps: 30, reserve_a, reserve_b }
}

/// A pool with nothing on side a pays out all of side b for any input.
fn fixed(address: Pubkey, token_a: Pubkey, token_b: Pubkey, pays: u64) -> PoolInfo {
    PoolInfo { address, token_a, token_b, fee_bps: 0, reserve_a: 0, reserve_b: pays }
}

#[test]
fn test_pathfinding_direct_route() {
    let token_a = unique();
    let token_b = unique();
    let pool_addr = unique();

    let pools = vec![PoolInfo {
        address: pool_addr,
        token_a,
        token_b,
        fee_bps: 30,
        reserve_a: 1_000_000,
        reserve_b: 2_000_000,
    }];

    let pathfinder = AStarPathfinder::new(&pools, 3);
    let result = pathfinder.find_optimal_route(&token_a, &token_b, 1000);

    assert!(result.is_ok());
    let (route, amount_out) = result.unwrap();
    assert_eq!(route.len(), 1);
    assert_eq!(route[0], pool_addr);
    assert!(amount_out > 0);
}

#[test]
fn test_pathfinding_multi_hop() {
    let token_a = unique();
    let token_b = unique();
    let token_c = unique();
    let pool1 = unique();
    let pool2 = unique();

    let pools = vec![
        PoolInfo {
            address: pool1,
            token_a,
            token_b,
            fee_bps: 30,
            reserve_a: 1_000_000,
            reserve_b: 1_000_000,
        },
        PoolInfo {
            address: pool2,
            token_a: token_b,
            token_b: token_c,
            fee_bps: 30,
            reserve_a: 1_000_000,
            reserve_b: 1_000_000,
        },
    ];

    let pathfinder = AStarPathfinder::new(&pools, 3);
    let result = pathfinder.find_optimal_route(&token_a, &token_c, 1000);

    assert!(result.is_ok());
    let (route, _) = result.unwrap();
    assert_eq!(route.len(), 2);
}

#[test]
fn direct_route_amount_is_exact_and_below_twice_the_input() {
    let (a, b, p) = (key(1), key(2), key(10));
    let pools = vec![pool(p, a, b, 1_000_000, 2_000_000)];
    let (route, amount_out) =
        AStarPathfinder::new(&pools, 3).find_optimal_route(&a, &b, 1000).unwrap();
    assert_eq!(route, vec![p]);
    assert_eq!(amount_out, 1992);
    assert!(amount_out > 0);
    assert!(amount_out < 2 * 1000);
}

#[test]
fn direct_route_works_from_either_side() {
    let (a, b, p) = (key(1), key(2), key(10));
    let pools = vec![pool(p, a, b, 1_000_000, 2_000_000)];
    let (route, amount_out) =
        AStarPathfinder::new(&pools, 3).find_optimal_route(&b, &a, 1000).unwrap();
    assert_eq!(route, vec![p]);
    // 1000 * 9970 * 1_000_000 / (2_000_000 * 10000 + 1000 * 9970)
    assert_eq!(amount_out, 498);
}

#[test]
fn multi_hop_route_lists_the_pools_in_order() {
    let (a, b, c) = (key(1), key(2), key(3));
    let (pool1, pool2) = (key(10), key(11));
    let pools = vec![
        pool(pool1, a, b, 1_000_000, 1_000_000),
        pool(pool2, b, c, 1_000_000, 1_000_000),
    ];
    let (route, amount_out) =
        AStarPathfinder::new(&pools, 3).find_optimal_route(&a, &c, 1000).unwrap();
    assert_eq!(route, vec![pool1, pool2]);
    // first hop pays 996, second hop pays 992 for it
    assert_eq!(amount_out, 992);
}

#[test]
fn multi_hop_route_does_not_depend_on_list_order() {
    let (a, b, c) = (key(1), key(2), key(3));
    let (pool1, pool2) = (key(10), key(11));
    let pools = vec![
        pool(pool2, c, b, 1_000_000, 1_000_000),
        pool(pool1, b, a, 1_000_000, 1_000_000),
    ];
    let (route, amount_out) =
        AStarPathfinder::new(&pools, 3).find_optimal_route(&a, &c, 1000).unwrap();
    assert_eq!(route, vec![pool1, pool2]);
    assert_eq!(amount_out, 992);
}

#[test]
fn no_path_when_nothing_connects_the_assets() {
    let (a, b, c, d) = (key(1), key(2), key(3), key(4));
    let pools = vec![
        pool(key(10), a, b, 1_000_000, 1_000_000),
        pool(key(11), c, d, 1_000_000, 1_000_000),
    ];
    let finder = AStarPathfinder::new(&pools, 3);
    assert_eq!(finder.find_optimal_route(&a, &c, 1000), Err(WayfinderError::NoValidPath));
    assert_eq!(finder.find_optimal_route(&a, &d, 1000), Err(WayfinderError::NoValidPath));
    assert_eq!(finder.find_optimal_route(&a, &key(9), 1000), Err(WayfinderError::NoValidPath));
}

#[test]
fn no_path_in_an_empty_pool_list() {
    let pools: Vec<PoolInfo> = Vec::new();
    let finder = AStarPathfinder::new(&pools, 3);
    assert_eq!(finder.find_optimal_route(&key(1), &key(2), 1000), Err(WayfinderError::NoValidPath));
}

#[test]
fn same_input_and_output_is_an_invalid_route() {
    let (a, b) = (key(1), key(2));
    let pools = vec![pool(key(10), a, b, 1_000_000, 1_000_000)];
    let finder = AStarPathfinder::new(&pools, 3);
    assert_eq!(finder.find_optimal_route(&a, &a, 1000), Err(WayfinderError::InvalidRoute));
    assert_eq!(finder.find_optimal_route(&b, &b, 0), Err(WayfinderError::InvalidRoute));

    let none: Vec<PoolInfo> = Vec::new();
    let finder = AStarPathfinder::new(&none, 0);
    assert_eq!(finder.find_optimal_route(&a, &a, 1000), Err(WayfinderError::InvalidRoute));
}

fn chain(length: u8) -> Vec<PoolInfo> {
    let mut pools = Vec::new();
    for i in 0..length {
        pools.push(pool(key(100 + i), key(i), key(i + 1), 1_000_000_000, 1_000_000_000));
    }
    pools
}

#[test]
fn hop_bound_hides_a_longer_path() {
    let pools = chain(4);
    let (a, z) = (key(0), key(4));
    assert_eq!(
        AStarPathfinder::new(&pools, 3).find_optimal_route(&a, &z, 1_000_000),
        Err(WayfinderError::NoValidPath)
    );
    let (route, _) =
        AStarPathfinder::new(&pools, 4).find_optimal_route(&a, &z, 1_000_000).unwrap();
    assert_eq!(route, vec![key(100), key(101), key(102), key(103)]);
}

#[test]
fn hop_bound_of_zero_finds_nothing() {
    let (a, b) = (key(1), key(2));
    let pools = vec![pool(key(10), a, b, 1_000_000, 1_000_000)];
    assert_eq!(
        AStarPathfinder::new(&pools, 0).find_optimal_route(&a, &b, 1000),
        Err(WayfinderError::NoValidPath)
    );
}

#[test]
fn hop_bound_is_capped_at_five() {
    let five = chain(5);
    let (route, _) =
        AStarPathfinder::new(&five, 200).find_optimal_route(&key(0), &key(5), 1_000_000).unwrap();
    assert_eq!(route.len(), 5);

    let six = chain(6);
    assert_eq!(
        AStarPathfinder::new(&six, 6).find_optimal_route(&key(0), &key(6), 1_000_000),
        Err(WayfinderError::NoValidPath)
    );
    assert_eq!(
        AStarPathfinder::new(&six, 255).find_optimal_route(&key(0), &key(6), 1_000_000),
        Err(WayfinderError::NoValidPath)
    );
}

#[test]
fn the_better_of_two_routes_wins() {
    let (a, b, c) = (key(1), key(2), key(3));
    let (direct, first, second) = (key(10), key(11), key(12));
    let pools = vec![
        pool(direct, a, c, 1_000_000, 500_000),
        pool(first, a, b, 1_000_000, 1_000_000),
        pool(second, b, c, 1_000_000, 1_000_000),
    ];
    let (route, amount_out) =
        AStarPathfinder::new(&pools, 3).find_optimal_route(&a, &c, 1000).unwrap();
    assert_eq!(route, vec![first, second]);
    assert_eq!(amount_out, 992);

    // with a single hop only the direct pool is left
    let (route, amount_out) =
        AStarPathfinder::new(&pools, 1).find_optimal_route(&a, &c, 1000).unwrap();
    assert_eq!(route, vec![direct]);
    assert_eq!(amount_out, 498);
}

#[test]
fn a_longer_route_replaces_a_worse_direct_one() {
    let (a, b, c) = (key(1), key(2), key(3));
    let (direct, first, second) = (key(10), key(11), key(12));
    let pools = vec![
        fixed(direct, a, c, 400),
        fixed(first, a, b, 700),
        fixed(second, b, c, 500),
    ];
    let (route, amount_out) =
        AStarPathfinder::new(&pools, 3).find_optimal_route(&a, &c, 1000).unwrap();
    assert_eq!(route, vec![first, second]);
    assert_eq!(amount_out, 500);
}

#[test]
fn equal_amounts_prefer_fewer_hops() {
    let (a, b, c) = (key(1), key(2), key(3));
    let (direct, first, second) = (key(10), key(11), key(12));
    let pools = vec![
        fixed(first, a, b, 700),
        fixed(second, b, c, 500),
        fixed(direct, a, c, 500),
    ];
    let (route, amount_out) =
        AStarPathfinder::new(&pools, 3).find_optimal_route(&a, &c, 1000).unwrap();
    assert_eq!(route, vec![direct]);
    assert_eq!(amount_out, 500);
}

#[test]
fn equal_routes_keep_the_first_in_list_order() {
    let (a, c) = (key(1), key(3));
    let (one, two) = (key(10), key(11));
    let pools = vec![fixed(one, a, c, 500), fixed(two, a, c, 500)];
    let (route, amount_out) =
        AStarPathfinder::new(&pools, 3).find_optimal_route(&a, &c, 1000).unwrap();
    assert_eq!(route, vec![one]);
    assert_eq!(amount_out, 500);
}

#[test]
fn pools_that_pay_nothing_are_skipped() {
    let (a, b, c) = (key(1), key(2), key(3));
    let pools = vec![
        // an empty pool pays nothing
        pool(key(10), a, c, 0, 0),
        // a pool whose price does not fit is no edge either
        PoolInfo {
            address: key(11),
            token_a: a,
            token_b: c,
            fee_bps: 0,
            reserve_a: 1,
            reserve_b: u64::MAX,
        },
        pool(key(12), a, b, 1_000_000, 1_000_000),
    ];
    let finder = AStarPathfinder::new(&pools, 3);
    assert_eq!(
        finder.find_optimal_route(&a, &c, u64::MAX),
        Err(WayfinderError::NoValidPath)
    );
}

#[test]
fn nothing_in_finds_no_path() {
    let (a, b) = (key(1), key(2));
    let pools = vec![pool(key(10), a, b, 1_000_000, 1_000_000)];
    assert_eq!(
        AStarPathfinder::new(&pools, 3).find_optimal_route(&a, &b, 0),
        Err(WayfinderError::NoValidPath)
    );
}

#[test]
fn routes_do_not_walk_in_circles() {
    let (a, b, c) = (key(1), key(2), key(3));
    let pools = vec![
        // crossing back and forth between a and b would pay more each time
        fixed(key(10), a, b, 1_000),
        fixed(key(11), b, a, 1_000_000),
        fixed(key(12), a, c, 10),
    ];
    let (route, amount_out) =
        AStarPathfinder::new(&pools, 5).find_optimal_route(&a, &c, 5).unwrap();
    assert_eq!(route, vec![key(12)]);
    assert_eq!(amount_out, 10);
}

#[test]
fn heuristic_is_the_cost_of_the_best_direct_pool() {
    let (a, b, c) = (key(1), key(2), key(3));
    let pools = vec![
        pool(key(10), a, b, 1_000_000, 2_000_000),
        pool(key(11), b, a, 1_000_000, 1_000_000),
        pool(key(12), a, c, 1_000_000, 9_000_000),
    ];
    let finder = AStarPathfinder::new(&pools, 3);
    // the first pool pays 1992, the second 996, the third links other assets
    assert_eq!(finder._heuristic(&a, &b, 1000), u64::MAX - 1992);
    assert_eq!(finder._heuristic(&b, &a, 1000), u64::MAX - 996);
    assert_eq!(finder._heuristic(&b, &c, 1000), u64::MAX);
    assert_eq!(finder._heuristic(&a, &b, 0), u64::MAX);
}

#[test]
fn an_asset_is_explored_only_once() {
    let (a, x, y, z) = (key(1), key(2), key(3), key(4));
    let (ax, ay, yx, xz) = (key(10), key(11), key(12), key(13));
    let pools = vec![
        fixed(ax, a, x, 100),
        fixed(ay, a, y, 50),
        fixed(yx, y, x, 1000),
        PoolInfo {
            address: xz,
            token_a: x,
            token_b: z,
            fee_bps: 0,
            reserve_a: 1_000_000_000,
            reserve_b: 1_000_000_000,
        },
    ];
    // x is explored with the 100 that reach it first; the 1000 that would
    // reach it through y come too late to be carried on to z
    let (route, amount_out) =
        AStarPathfinder::new(&pools, 3).find_optimal_route(&a, &z, 10).unwrap();
    assert_eq!(route, vec![ax, xz]);
    assert_eq!(amount_out, 99);
}

#[test]
fn a_later_and_better_arrival_replaces_the_solution() {
    let (a, b, c) = (key(1), key(2), key(3));
    let (ab, ac, cb) = (key(10), key(11), key(12));
    let pools = vec![fixed(ab, a, b, 100), fixed(ac, a, c, 50), fixed(cb, c, b, 200)];
    let (route, amount_out) =
        AStarPathfinder::new(&pools, 2).find_optimal_route(&a, &b, 10).unwrap();
    assert_eq!(route, vec![ac, cb]);
    assert_eq!(amount_out, 200);
}
