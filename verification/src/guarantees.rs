//! When the search is sure to succeed, and when it is sure to fail.

use vstd::prelude::*;
use crate::error::WayfinderError;
use crate::pathfinding::links;
use crate::pubkey::Pubkey;
use crate::route::{cross, is_simple_route, lemma_simple_route_is_route, traces, walk};
use crate::search::{
    drain, expand, initial_state, is_stale, leader, lemma_leader_among, lemma_step_progress,
    relax, search, sides_unvisited, step, successor, visiting, without, Candidate, SearchState,
};
use crate::soundness::{lemma_no_route_no_path, lemma_search_sound};
use crate::state::PoolInfo;

verus! {

/// A way to `token` that yields at least `floor` is known.
pub open spec fn reached(token: Pubkey, floor: u64, st: SearchState) -> bool {
    st.best.contains_key(token) && st.best[token].0 >= floor
}

/// Looking at one pool never makes what is known of an asset worse.
pub proof fn lemma_relax_keeps_known(
    token: Pubkey,
    floor: u64,
    st: SearchState,
    cur: Candidate,
    pool: PoolInfo,
)
    requires
        reached(token, floor, st),
    ensures
        reached(token, floor, relax(st, cur, pool)),
{
}

/// Looking at the pools from `from` on never makes what is known of an asset
/// worse.
pub proof fn lemma_expand_keeps_known(
    pools: Seq<PoolInfo>,
    token: Pubkey,
    floor: u64,
    st: SearchState,
    cur: Candidate,
    from: int,
)
    requires
        reached(token, floor, st),
    ensures
        reached(token, floor, expand(pools, st, cur, from)),
    decreases pools.len() - from,
{
    if 0 <= from < pools.len() {
        lemma_relax_keeps_known(token, floor, st, cur, pools[from]);
        lemma_expand_keeps_known(pools, token, floor, relax(st, cur, pools[from]), cur, from + 1);
    }
}

/// One step never makes what is known of an asset worse.
pub proof fn lemma_step_keeps_known(
    pools: Seq<PoolInfo>,
    max_hops: u8,
    output: Pubkey,
    token: Pubkey,
    floor: u64,
    st: SearchState,
)
    requires
        reached(token, floor, st),
        st.frontier.len() > 0,
    ensures
        reached(token, floor, step(pools, max_hops, output, st)),
{
    let cur = st.frontier[leader(st.frontier)];
    let opened = visiting(without(st, leader(st.frontier)), cur.token);
    lemma_expand_keeps_known(pools, token, floor, opened, cur, 0);
}

/// Dominance: over the whole search, what is known of an asset never gets
/// worse. A way that yields at least `floor`, once known, is only ever
/// replaced by one that yields at least as much.
pub proof fn lemma_drain_keeps_known(
    pools: Seq<PoolInfo>,
    max_hops: u8,
    output: Pubkey,
    token: Pubkey,
    floor: u64,
    st: SearchState,
)
    requires
        reached(token, floor, st),
    ensures
        reached(token, floor, drain(pools, max_hops, output, st)),
    decreases sides_unvisited(pools, st.visited), st.frontier.len(),
{
    if st.frontier.len() != 0 {
        lemma_step_keeps_known(pools, max_hops, output, token, floor, st);
        lemma_step_progress(pools, max_hops, output, st);
        lemma_drain_keeps_known(
            pools,
            max_hops,
            output,
            token,
            floor,
            step(pools, max_hops, output, st),
        );
    }
}

/// Looking at a pool that can be crossed from the candidate to an unvisited
/// asset makes a way to that asset known that yields at least what the pool
/// pays.
pub proof fn lemma_expand_reaches(
    pools: Seq<PoolInfo>,
    st: SearchState,
    cur: Candidate,
    from: int,
    index: int,
)
    requires
        0 <= from <= index < pools.len(),
        cross(pools[index], cur.token, cur.amount_out) is Some,
        !st.visited.contains(cross(pools[index], cur.token, cur.amount_out).unwrap().0),
    ensures
        reached(
            cross(pools[index], cur.token, cur.amount_out).unwrap().0,
            cross(pools[index], cur.token, cur.amount_out).unwrap().1,
            expand(pools, st, cur, from),
        ),
    decreases pools.len() - from,
{
    let (token, floor) = cross(pools[index], cur.token, cur.amount_out).unwrap();
    let after = relax(st, cur, pools[from]);
    if from == index {
        assert(reached(token, floor, after));
        lemma_expand_keeps_known(pools, token, floor, after, cur, from + 1);
    } else {
        lemma_expand_reaches(pools, after, cur, from + 1, index);
    }
}

/// The destination is never explored, and what is known of it is not lost:
/// either the solution holds at least as much as the best known way to the
/// destination, or the candidate that stands for that way still waits.
pub open spec fn follows(output: Pubkey, st: SearchState) -> bool {
    &&& !st.visited.contains(output)
    &&& st.best.contains_key(output) ==> {
        ||| (st.solution matches Some((_, amount)) && amount >= st.best[output].0)
        ||| exists|i: int|
            0 <= i < st.frontier.len() && (#[trigger] st.frontier[i]).token == output
                && st.frontier[i].amount_out == st.best[output].0 && st.frontier[i].hops
                == st.best[output].1
    }
}

/// Looking at one pool loses nothing that is known of the destination.
pub proof fn lemma_relax_follows(output: Pubkey, st: SearchState, cur: Candidate, pool: PoolInfo)
    requires
        follows(output, st),
    ensures
        follows(output, relax(st, cur, pool)),
{
    let after = relax(st, cur, pool);
    if after != st {
        let next = pool.connected_asset(cur.token).unwrap();
        let out = pool.quote(cur.token, cur.amount_out).unwrap();
        let entered = successor(cur, pool, next, out);
        assert(after.frontier == st.frontier.push(entered));
        if next == output {
            assert(after.frontier[st.frontier.len() as int] == entered);
        } else if st.best.contains_key(output) {
            if !(st.solution matches Some((_, amount)) && amount >= st.best[output].0) {
                let i = choose|i: int|
                    0 <= i < st.frontier.len() && (#[trigger] st.frontier[i]).token == output
                        && st.frontier[i].amount_out == st.best[output].0 && st.frontier[i].hops
                        == st.best[output].1;
                assert(after.frontier[i] == st.frontier[i]);
            }
        }
    }
}

/// Looking at the pools from `from` on loses nothing that is known of the
/// destination.
pub proof fn lemma_expand_follows(
    pools: Seq<PoolInfo>,
    output: Pubkey,
    st: SearchState,
    cur: Candidate,
    from: int,
)
    requires
        follows(output, st),
    ensures
        follows(output, expand(pools, st, cur, from)),
    decreases pools.len() - from,
{
    if 0 <= from < pools.len() {
        lemma_relax_follows(output, st, cur, pools[from]);
        lemma_expand_follows(pools, output, relax(st, cur, pools[from]), cur, from + 1);
    }
}

/// One step loses nothing that is known of the destination.
pub proof fn lemma_step_follows(pools: Seq<PoolInfo>, max_hops: u8, output: Pubkey, st: SearchState)
    requires
        follows(output, st),
        st.frontier.len() > 0,
    ensures
        follows(output, step(pools, max_hops, output, st)),
{
    let k = leader(st.frontier);
    lemma_leader_among(st.frontier, st.frontier.len() as int);
    let cur = st.frontier[k];
    let rest = without(st, k);
    let held = st.best.contains_key(output) && !(st.solution matches Some((_, amount)) && amount
        >= st.best[output].0);
    if held {
        let i = choose|i: int|
            0 <= i < st.frontier.len() && (#[trigger] st.frontier[i]).token == output
                && st.frontier[i].amount_out == st.best[output].0 && st.frontier[i].hops
                == st.best[output].1;
        if i < k {
            assert(rest.frontier[i] == st.frontier[i]);
        } else if i > k {
            assert(rest.frontier[i - 1] == st.frontier[i]);
        }
    }
    if is_stale(st.best, cur) {
        assert(follows(output, rest));
    } else if cur.token == output {
    } else if cur.hops >= max_hops || st.visited.contains(cur.token) {
        assert(follows(output, rest));
    } else {
        let opened = visiting(rest, cur.token);
        assert(follows(output, opened));
        lemma_expand_follows(pools, output, opened, cur, 0);
    }
}

/// Draining the frontier loses nothing that is known of the destination,
/// and leaves no candidate waiting: in the end the solution holds at least
/// as much as the best known way to the destination.
pub proof fn lemma_drain_follows(pools: Seq<PoolInfo>, max_hops: u8, output: Pubkey, st: SearchState)
    requires
        follows(output, st),
    ensures
        follows(output, drain(pools, max_hops, output, st)),
        drain(pools, max_hops, output, st).frontier.len() == 0,
    decreases sides_unvisited(pools, st.visited), st.frontier.len(),
{
    if st.frontier.len() != 0 {
        lemma_step_follows(pools, max_hops, output, st);
        lemma_step_progress(pools, max_hops, output, st);
        lemma_drain_follows(pools, max_hops, output, step(pools, max_hops, output, st));
    }
}

/// A pool that links the input to the output and pays out something is
/// enough: with a hop budget of at least one the search succeeds, and what
/// it returns yields at least what that pool pays.
pub proof fn lemma_direct_pool_found(
    pools: Seq<PoolInfo>,
    max_hops: u8,
    input: Pubkey,
    output: Pubkey,
    amount_in: u64,
    index: int,
)
    requires
        input != output,
        max_hops >= 1,
        0 <= index < pools.len(),
        links(pools[index], input, output),
        pools[index].quote(input, amount_in) matches Some(out) && out > 0,
    ensures
        search(pools, max_hops, input, output, amount_in) matches Ok((_, amount)) && amount
            >= pools[index].quote(input, amount_in).unwrap(),
{
    let start = initial_state(input, amount_in);
    let floor = pools[index].quote(input, amount_in).unwrap();
    let cur = start.frontier[0];
    let opened = visiting(without(start, 0), input);
    let first = step(pools, max_hops, output, start);
    assert(leader(start.frontier) == 0);
    assert(first == expand(pools, opened, cur, 0));
    assert(follows(output, opened));
    assert(cross(pools[index], input, amount_in) == Some((output, floor)));
    lemma_expand_follows(pools, output, opened, cur, 0);
    lemma_expand_reaches(pools, opened, cur, 0, index);
    lemma_drain_follows(pools, max_hops, output, first);
    lemma_drain_keeps_known(pools, max_hops, output, output, floor, first);
    assert(drain(pools, max_hops, output, start) == drain(pools, max_hops, output, first));
}

/// Starting with nothing, no pool can be crossed.
pub proof fn lemma_walk_from_nothing(pools: Seq<PoolInfo>, hops: Seq<int>, token: Pubkey)
    requires
        hops.len() >= 1,
    ensures
        walk(pools, hops, token, 0) is None,
    decreases hops.len(),
{
    if hops.len() == 1 {
        assert(hops.drop_last().len() == 0);
        if 0 <= hops.last() < pools.len() {
            let pool = pools[hops.last()];
            if pool.has_token(token) && pool.fee_bps <= 10000 {
                pool.lemma_quote_of_nothing(token);
            }
        }
    } else {
        lemma_walk_from_nothing(pools, hops.drop_last(), token);
    }
}

/// A search with nothing to trade ends without a path.
pub proof fn lemma_nothing_in_no_path(
    pools: Seq<PoolInfo>,
    max_hops: u8,
    input: Pubkey,
    output: Pubkey,
)
    requires
        input != output,
    ensures
        search(pools, max_hops, input, output, 0) == Err::<(Seq<Pubkey>, u64), WayfinderError>(
            WayfinderError::NoValidPath,
        ),
{
    assert forall|route: Seq<Pubkey>, amount: u64| !is_simple_route(
        pools,
        route,
        input,
        0,
        output,
        amount,
    ) by {
        if is_simple_route(pools, route, input, 0, output, amount) {
            lemma_simple_route_is_route(pools, route, input, 0, output, amount);
            let hops = choose|hops: Seq<int>| traces(pools, hops, route, input, 0, output, amount);
            if hops.len() >= 1 {
                lemma_walk_from_nothing(pools, hops, input);
            }
        }
    }
    lemma_no_route_no_path(pools, max_hops, input, output, 0);
}

/// A search that may cross no pool ends without a path.
pub proof fn lemma_no_hops_no_path(
    pools: Seq<PoolInfo>,
    input: Pubkey,
    output: Pubkey,
    amount_in: u64,
)
    requires
        input != output,
    ensures
        search(pools, 0, input, output, amount_in) == Err::<(Seq<Pubkey>, u64), WayfinderError>(
            WayfinderError::NoValidPath,
        ),
{
    lemma_search_sound(pools, 0, input, output, amount_in);
}

/// A destination that no pool touches cannot be reached.
pub proof fn lemma_untouched_output_no_path(
    pools: Seq<PoolInfo>,
    max_hops: u8,
    input: Pubkey,
    output: Pubkey,
    amount_in: u64,
)
    requires
        input != output,
        forall|i: int| 0 <= i < pools.len() ==> !(#[trigger] pools[i]).has_token(output),
    ensures
        search(pools, max_hops, input, output, amount_in) == Err::<
            (Seq<Pubkey>, u64),
            WayfinderError,
        >(WayfinderError::NoValidPath),
{
    assert forall|route: Seq<Pubkey>, amount: u64| !is_simple_route(
        pools,
        route,
        input,
        amount_in,
        output,
        amount,
    ) by {
        if is_simple_route(pools, route, input, amount_in, output, amount) {
            lemma_simple_route_is_route(pools, route, input, amount_in, output, amount);
            let hops = choose|hops: Seq<int>|
                traces(pools, hops, route, input, amount_in, output, amount);
            if hops.len() >= 1 {
                let pool = pools[hops.last()];
                assert(0 <= hops[hops.len() - 1] < pools.len());
                assert(!pool.has_token(output));
            }
        }
    }
    lemma_no_route_no_path(pools, max_hops, input, output, amount_in);
}

} // verus!
