//! What it means for a sequence of pools to be a route.

use vstd::prelude::*;
use crate::pubkey::Pubkey;
use crate::state::PoolInfo;

verus! {

/// Crossing one pool from `token` with `amount` in hand: the asset on the
/// other side and the amount paid out. A pool that does not touch `token`,
/// gives no price, or pays nothing cannot be crossed.
pub open spec fn cross(pool: PoolInfo, token: Pubkey, amount: u64) -> Option<(Pubkey, u64)> {
    match (pool.connected_asset(token), pool.quote(token, amount)) {
        (Some(next), Some(out)) => if out > 0 {
            Some((next, out))
        } else {
            None
        },
        _ => None,
    }
}

/// Crossing the pools at positions `hops` of `pools`, one after the other,
/// starting from `token` with `amount`: where the walk ends and with how much.
pub open spec fn walk(pools: Seq<PoolInfo>, hops: Seq<int>, token: Pubkey, amount: u64) -> Option<
    (Pubkey, u64),
>
    decreases hops.len(),
{
    if hops.len() == 0 {
        Some((token, amount))
    } else {
        match walk(pools, hops.drop_last(), token, amount) {
            Some((at, held)) => if 0 <= hops.last() < pools.len() {
                cross(pools[hops.last()], at, held)
            } else {
                None
            },
            None => None,
        }
    }
}

/// `hops` picks, position by position, pools of the list whose addresses are
/// those of `route`, and walking them turns `amount_in` of `input` into
/// `amount_out` of `output`.
pub open spec fn traces(
    pools: Seq<PoolInfo>,
    hops: Seq<int>,
    route: Seq<Pubkey>,
    input: Pubkey,
    amount_in: u64,
    output: Pubkey,
    amount_out: u64,
) -> bool {
    &&& hops.len() == route.len()
    &&& forall|i: int|
        0 <= i < hops.len() ==> 0 <= #[trigger] hops[i] < pools.len() && pools[hops[i]].address
            == route[i]
    &&& walk(pools, hops, input, amount_in) == Some((output, amount_out))
}

/// `route` is a sequence of pool addresses along which `amount_in` of
/// `input` becomes `amount_out` of `output`, every hop paying out something.
pub open spec fn is_route(
    pools: Seq<PoolInfo>,
    route: Seq<Pubkey>,
    input: Pubkey,
    amount_in: u64,
    output: Pubkey,
    amount_out: u64,
) -> bool {
    exists|hops: Seq<int>| traces(pools, hops, route, input, amount_in, output, amount_out)
}

/// The assets that a walk stands on, from its start to its end.
pub open spec fn stops(pools: Seq<PoolInfo>, hops: Seq<int>, token: Pubkey, amount: u64) -> Seq<Pubkey>
    decreases hops.len(),
{
    if hops.len() == 0 {
        seq![token]
    } else {
        match walk(pools, hops, token, amount) {
            Some((at, _)) => stops(pools, hops.drop_last(), token, amount).push(at),
            None => stops(pools, hops.drop_last(), token, amount),
        }
    }
}

/// `route` is a route that stands on no asset twice.
pub open spec fn is_simple_route(
    pools: Seq<PoolInfo>,
    route: Seq<Pubkey>,
    input: Pubkey,
    amount_in: u64,
    output: Pubkey,
    amount_out: u64,
) -> bool {
    exists|hops: Seq<int>|
        traces(pools, hops, route, input, amount_in, output, amount_out) && stops(
            pools,
            hops,
            input,
            amount_in,
        ).no_duplicates()
}

/// A walk that arrives stands on one asset more than it crosses pools, and
/// the last of them is where it arrives.
pub proof fn lemma_stops_of_walk(pools: Seq<PoolInfo>, hops: Seq<int>, token: Pubkey, amount: u64)
    requires
        walk(pools, hops, token, amount) is Some,
    ensures
        stops(pools, hops, token, amount).len() == hops.len() + 1,
        stops(pools, hops, token, amount).last() == walk(pools, hops, token, amount).unwrap().0,
        stops(pools, hops, token, amount)[0] == token,
    decreases hops.len(),
{
    if hops.len() > 0 {
        lemma_stops_of_walk(pools, hops.drop_last(), token, amount);
    }
}

/// A route that stands on no asset twice is a route.
pub proof fn lemma_simple_route_is_route(
    pools: Seq<PoolInfo>,
    route: Seq<Pubkey>,
    input: Pubkey,
    amount_in: u64,
    output: Pubkey,
    amount_out: u64,
)
    requires
        is_simple_route(pools, route, input, amount_in, output, amount_out),
    ensures
        is_route(pools, route, input, amount_in, output, amount_out),
{
    let hops = choose|hops: Seq<int>|
        traces(pools, hops, route, input, amount_in, output, amount_out) && stops(
            pools,
            hops,
            input,
            amount_in,
        ).no_duplicates();
    assert(traces(pools, hops, route, input, amount_in, output, amount_out));
}

/// A route between two different assets crosses at least one pool, and one
/// that crosses a pool never ends with an empty hand.
pub proof fn lemma_route_leaves_and_pays(
    pools: Seq<PoolInfo>,
    route: Seq<Pubkey>,
    input: Pubkey,
    amount_in: u64,
    output: Pubkey,
    amount_out: u64,
)
    requires
        is_route(pools, route, input, amount_in, output, amount_out),
    ensures
        input != output ==> route.len() >= 1,
        route.len() >= 1 ==> amount_out > 0,
{
    let hops = choose|hops: Seq<int>|
        traces(pools, hops, route, input, amount_in, output, amount_out);
    assert(hops.len() == route.len());
    assert(walk(pools, hops, input, amount_in) == Some((output, amount_out)));
}

} // verus!
