use wayfinder::error::WayfinderError;
use wayfinder::processor::Processor;
use wayfinder::pubkey::Pubkey;
use wayfinder::state::{
    PoolInfo, RouteState, STATUS_EXECUTED, STATUS_INITIALIZED, STATUS_ROUTE_FOUND,
    STATUS_UNINITIALIZED,
};

fn key(n: u8) -> Pubkey {
    Pubkey::new_from_array([n; 32])
}

fn pools() -> Vec<PoolInfo> {
    vec![
        PoolInfo {
            address: key(10),
            token_a: key(1),
            token_b: key(2),
            fee_bps: 30,
            reserve_a: 1_000_000,
            reserve_b: 1_000_000,
        },
        PoolInfo {
            address: key(11),
            token_a: key(2),
            token_b: key(3),
            fee_bps: 30,
            reserve_a: 1_000_000,
            reserve_b: 1_000_000,
        },
    ]
}

fn fresh(max_hops: u8) -> RouteState {
    Processor::process_initialize_route(key(50), true, true, [1; 32], [3; 32], 1000, 900, max_hops)
        .unwrap()
}

#[test]
fn a_record_is_created_waiting_for_a_search() {
    let state = fresh(3);
    assert_eq!(state.discriminator, 1);
    assert_eq!(state.input_mint, key(1));
    assert_eq!(state.output_mint, key(3));
    assert_eq!(state.amount_in, 1000);
    assert_eq!(state.min_amount_out, 900);
    assert_eq!(state.max_hops, 3);
    assert_eq!(state.hops, 0);
    assert!(state.route.is_empty());
    assert_eq!(state.status, STATUS_INITIALIZED);
    assert_eq!(state.authority, key(50));
}

#[test]
fn creation_needs_a_signer_and_a_writable_account() {
    let create = |signer, writable| {
        Processor::process_initialize_route(key(50), signer, writable, [1; 32], [3; 32], 1000, 900, 3)
            .map(|state| state.status)
    };
    assert_eq!(create(false, true), Err(WayfinderError::AccountNotSigner));
    assert_eq!(create(false, false), Err(WayfinderError::AccountNotSigner));
    assert_eq!(create(true, false), Err(WayfinderError::AccountNotWritable));
    assert_eq!(create(true, true), Ok(STATUS_INITIALIZED));
}

#[test]
fn a_record_goes_from_created_to_found_to_executed() {
    let mut state = fresh(3);
    let amount = Processor::process_find_optimal_route(&mut state, &pools(), true);
    assert_eq!(amount, Ok(992));
    assert_eq!(state.status, STATUS_ROUTE_FOUND);
    assert_eq!(state.route, vec![key(10), key(11)]);
    assert_eq!(state.hops, 2);
    assert_eq!(state.input_mint, key(1));
    assert_eq!(state.output_mint, key(3));
    assert_eq!(state.amount_in, 1000);
    assert_eq!(state.min_amount_out, 900);
    assert_eq!(state.max_hops, 3);
    assert_eq!(state.authority, key(50));

    assert_eq!(Processor::process_execute_route(&mut state, &key(50), true), Ok(()));
    assert_eq!(state.status, STATUS_EXECUTED);
    assert_eq!(state.route, vec![key(10), key(11)]);
    assert_eq!(state.hops, 2);
}

#[test]
fn a_record_cannot_be_executed_before_its_search() {
    let mut state = fresh(3);
    assert_eq!(
        Processor::process_execute_route(&mut state, &key(50), true),
        Err(WayfinderError::InvalidRoute)
    );
    assert_eq!(state.status, STATUS_INITIALIZED);
    assert!(state.route.is_empty());
}

#[test]
fn an_executed_record_is_final() {
    let mut state = fresh(3);
    Processor::process_find_optimal_route(&mut state, &pools(), true).unwrap();
    Processor::process_execute_route(&mut state, &key(50), true).unwrap();

    assert_eq!(
        Processor::process_find_optimal_route(&mut state, &pools(), true),
        Err(WayfinderError::InvalidRoute)
    );
    assert_eq!(state.status, STATUS_EXECUTED);
    assert_eq!(
        Processor::process_execute_route(&mut state, &key(50), true),
        Err(WayfinderError::InvalidRoute)
    );
    assert_eq!(state.status, STATUS_EXECUTED);
    assert_eq!(state.route, vec![key(10), key(11)]);
}

#[test]
fn a_found_route_is_not_searched_again() {
    let mut state = fresh(3);
    Processor::process_find_optimal_route(&mut state, &pools(), true).unwrap();
    let none: Vec<PoolInfo> = Vec::new();
    assert_eq!(
        Processor::process_find_optimal_route(&mut state, &none, true),
        Err(WayfinderError::InvalidRoute)
    );
    assert_eq!(state.status, STATUS_ROUTE_FOUND);
    assert_eq!(state.route, vec![key(10), key(11)]);
}

#[test]
fn a_failed_search_leaves_the_record_as_it_was() {
    let mut state = fresh(1);
    assert_eq!(
        Processor::process_find_optimal_route(&mut state, &pools(), true),
        Err(WayfinderError::NoValidPath)
    );
    assert_eq!(state.status, STATUS_INITIALIZED);
    assert_eq!(state.hops, 0);
    assert!(state.route.is_empty());

    assert_eq!(
        Processor::process_find_optimal_route(&mut state, &pools(), false),
        Err(WayfinderError::AccountNotWritable)
    );
    assert_eq!(state.status, STATUS_INITIALIZED);

    let mut same = Processor::process_initialize_route(
        key(50), true, true, [1; 32], [1; 32], 1000, 900, 3,
    )
    .unwrap();
    assert_eq!(
        Processor::process_find_optimal_route(&mut same, &pools(), true),
        Err(WayfinderError::InvalidRoute)
    );
    assert_eq!(same.status, STATUS_INITIALIZED);

    // the search can be tried again with other pools
    let mut more = pools();
    more.push(PoolInfo {
        address: key(12),
        token_a: key(3),
        token_b: key(1),
        fee_bps: 30,
        reserve_a: 1_000_000,
        reserve_b: 2_000_000,
    });
    assert_eq!(Processor::process_find_optimal_route(&mut state, &more, true), Ok(498));
    assert_eq!(state.route, vec![key(12)]);
    assert_eq!(state.hops, 1);
    assert_eq!(state.status, STATUS_ROUTE_FOUND);
}

#[test]
fn the_hop_budget_of_the_record_is_capped_at_five() {
    let mut chain = Vec::new();
    for i in 0..6u8 {
        chain.push(PoolInfo {
            address: key(100 + i),
            token_a: key(i),
            token_b: key(i + 1),
            fee_bps: 0,
            reserve_a: 1_000_000_000,
            reserve_b: 1_000_000_000,
        });
    }
    let mut far =
        Processor::process_initialize_route(key(50), true, true, [0; 32], [6; 32], 1_000_000, 0, 255)
            .unwrap();
    assert_eq!(
        Processor::process_find_optimal_route(&mut far, &chain, true),
        Err(WayfinderError::NoValidPath)
    );
    let mut near =
        Processor::process_initialize_route(key(50), true, true, [0; 32], [5; 32], 1_000_000, 0, 255)
            .unwrap();
    assert!(Processor::process_find_optimal_route(&mut near, &chain, true).is_ok());
    assert_eq!(near.hops, 5);
    assert_eq!(near.route.len(), 5);
}

#[test]
fn execution_is_for_the_owner_who_signed() {
    let mut state = fresh(3);
    Processor::process_find_optimal_route(&mut state, &pools(), true).unwrap();

    assert_eq!(
        Processor::process_execute_route(&mut state, &key(50), false),
        Err(WayfinderError::AccountNotSigner)
    );
    assert_eq!(
        Processor::process_execute_route(&mut state, &key(51), true),
        Err(WayfinderError::AccountNotSigner)
    );
    assert_eq!(state.status, STATUS_ROUTE_FOUND);
    assert_eq!(Processor::process_execute_route(&mut state, &key(50), true), Ok(()));
}

#[test]
fn an_unsigned_execution_is_refused_before_the_status_is_looked_at() {
    let mut state = fresh(3);
    assert_eq!(
        Processor::process_execute_route(&mut state, &key(50), false),
        Err(WayfinderError::AccountNotSigner)
    );
    // a stranger who signed learns that there is no route before anything else
    assert_eq!(
        Processor::process_execute_route(&mut state, &key(51), true),
        Err(WayfinderError::InvalidRoute)
    );
}

#[test]
fn an_empty_record_cannot_be_searched_or_executed() {
    let mut state = fresh(3);
    state.status = STATUS_UNINITIALIZED;
    assert_eq!(
        Processor::process_find_optimal_route(&mut state, &pools(), true),
        Err(WayfinderError::InvalidRoute)
    );
    assert_eq!(
        Processor::process_execute_route(&mut state, &key(50), true),
        Err(WayfinderError::InvalidRoute)
    );
    assert_eq!(state.status, STATUS_UNINITIALIZED);
}

#[test]
fn registering_a_pool_is_accepted() {
    assert_eq!(Processor::process_register_pool([1; 32], [2; 32], 30), Ok(()));
    assert_eq!(Processor::process_register_pool([1; 32], [1; 32], u16::MAX), Ok(()));
}

#[test]
fn access_checks_name_what_is_missing() {
    assert_eq!(Processor::require_signer(true), Ok(()));
    assert_eq!(Processor::require_signer(false), Err(WayfinderError::AccountNotSigner));
    assert_eq!(Processor::require_writable(true), Ok(()));
    assert_eq!(Processor::require_writable(false), Err(WayfinderError::AccountNotWritable));
}
