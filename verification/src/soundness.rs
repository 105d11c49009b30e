//! Whatever the search returns is a route that exists.

use vstd::prelude::*;
use crate::error::WayfinderError;
use crate::pubkey::Pubkey;
use crate::route::{
    cross, is_route, is_simple_route, lemma_route_leaves_and_pays, lemma_simple_route_is_route,
    lemma_stops_of_walk, stops, traces, walk,
};
use crate::search::{
    drain, expand, initial_state, leader, lemma_leader_among, lemma_step_progress, relax, search,
    sides_unvisited, step, successor, visiting, without, Candidate, SearchState,
};
use crate::state::PoolInfo;

verus! {

/// `hops` spells out the candidate's path as a walk from the input to where
/// the candidate stands; the walk stands on no asset twice, and every asset
/// it left behind has been visited.
pub open spec fn explains(
    pools: Seq<PoolInfo>,
    input: Pubkey,
    amount_in: u64,
    visited: Set<Pubkey>,
    c: Candidate,
    hops: Seq<int>,
) -> bool {
    &&& traces(pools, hops, c.path, input, amount_in, c.token, c.amount_out)
    &&& stops(pools, hops, input, amount_in).no_duplicates()
    &&& forall|j: int|
        0 <= j < hops.len() ==> visited.contains(#[trigger] stops(pools, hops, input, amount_in)[j])
}

/// The candidate's path is a route from the input to where the candidate
/// stands that never comes back to an asset, its hop count is the length of
/// that path, and it is within the hop budget.
pub open spec fn sound_candidate(
    pools: Seq<PoolInfo>,
    max_hops: u8,
    input: Pubkey,
    amount_in: u64,
    visited: Set<Pubkey>,
    c: Candidate,
) -> bool {
    &&& c.path.len() == c.hops
    &&& c.hops <= max_hops
    &&& exists|hops: Seq<int>| explains(pools, input, amount_in, visited, c, hops)
}

/// Every waiting candidate is sound, and so is the solution if there is one.
pub open spec fn sound_state(
    pools: Seq<PoolInfo>,
    max_hops: u8,
    input: Pubkey,
    amount_in: u64,
    output: Pubkey,
    st: SearchState,
) -> bool {
    &&& forall|i: int|
        0 <= i < st.frontier.len() ==> sound_candidate(
            pools,
            max_hops,
            input,
            amount_in,
            st.visited,
            #[trigger] st.frontier[i],
        )
    &&& st.solution matches Some((route, amount)) ==> route.len() <= max_hops && is_simple_route(
        pools,
        route,
        input,
        amount_in,
        output,
        amount,
    )
}

/// A candidate stays sound while more assets are visited.
pub proof fn lemma_sound_candidate_kept(
    pools: Seq<PoolInfo>,
    max_hops: u8,
    input: Pubkey,
    amount_in: u64,
    visited: Set<Pubkey>,
    more: Set<Pubkey>,
    c: Candidate,
)
    requires
        sound_candidate(pools, max_hops, input, amount_in, visited, c),
        visited.subset_of(more),
    ensures
        sound_candidate(pools, max_hops, input, amount_in, more, c),
{
    let hops = choose|hops: Seq<int>| explains(pools, input, amount_in, visited, c, hops);
    assert(explains(pools, input, amount_in, more, c, hops));
}

/// Looking at one pool keeps the state sound.
pub proof fn lemma_relax_sound(
    pools: Seq<PoolInfo>,
    max_hops: u8,
    input: Pubkey,
    amount_in: u64,
    output: Pubkey,
    st: SearchState,
    cur: Candidate,
    index: int,
)
    requires
        sound_state(pools, max_hops, input, amount_in, output, st),
        sound_candidate(pools, max_hops, input, amount_in, st.visited, cur),
        st.visited.contains(cur.token),
        cur.hops < max_hops,
        0 <= index < pools.len(),
    ensures
        sound_state(pools, max_hops, input, amount_in, output, relax(st, cur, pools[index])),
{
    let pool = pools[index];
    let after = relax(st, cur, pool);
    if after != st {
        let next = pool.connected_asset(cur.token).unwrap();
        let out = pool.quote(cur.token, cur.amount_out).unwrap();
        let entered = successor(cur, pool, next, out);
        assert(cross(pool, cur.token, cur.amount_out) == Some((next, out)));
        let hops = choose|hops: Seq<int>| explains(pools, input, amount_in, st.visited, cur, hops);
        let longer = hops.push(index);
        let before = stops(pools, hops, input, amount_in);
        let along = stops(pools, longer, input, amount_in);
        assert(longer.drop_last() =~= hops);
        lemma_stops_of_walk(pools, hops, input, amount_in);
        assert(walk(pools, longer, input, amount_in) == Some((next, out)));
        assert(along == before.push(next));
        assert(traces(pools, longer, entered.path, input, amount_in, next, out));
        assert forall|j: int| 0 <= j < longer.len() implies st.visited.contains(
            #[trigger] along[j],
        ) by {
            assert(along[j] == before[j]);
            if j == hops.len() {
                assert(before[j] == before.last());
            }
        }
        assert(along.no_duplicates()) by {
            assert forall|i: int, j: int| 0 <= i < along.len() && 0 <= j < along.len() && i
                != j implies along[i] != along[j] by {
                if i < before.len() && j < before.len() {
                    assert(before[i] != before[j]);
                } else if i < before.len() {
                    assert(st.visited.contains(along[i]));
                } else {
                    assert(st.visited.contains(along[j]));
                }
            }
        }
        assert(explains(pools, input, amount_in, st.visited, entered, longer));
        assert(sound_candidate(pools, max_hops, input, amount_in, st.visited, entered));
        assert(after.frontier == st.frontier.push(entered));
        assert forall|i: int| 0 <= i < after.frontier.len() implies sound_candidate(
            pools,
            max_hops,
            input,
            amount_in,
            after.visited,
            #[trigger] after.frontier[i],
        ) by {
            if i < st.frontier.len() {
                assert(after.frontier[i] == st.frontier[i]);
            }
        }
    }
}

/// Looking at the pools from `from` on keeps the state sound.
pub proof fn lemma_expand_sound(
    pools: Seq<PoolInfo>,
    max_hops: u8,
    input: Pubkey,
    amount_in: u64,
    output: Pubkey,
    st: SearchState,
    cur: Candidate,
    from: int,
)
    requires
        sound_state(pools, max_hops, input, amount_in, output, st),
        sound_candidate(pools, max_hops, input, amount_in, st.visited, cur),
        st.visited.contains(cur.token),
        cur.hops < max_hops,
    ensures
        sound_state(pools, max_hops, input, amount_in, output, expand(pools, st, cur, from)),
    decreases pools.len() - from,
{
    if 0 <= from < pools.len() {
        lemma_relax_sound(pools, max_hops, input, amount_in, output, st, cur, from);
        lemma_expand_sound(
            pools,
            max_hops,
            input,
            amount_in,
            output,
            relax(st, cur, pools[from]),
            cur,
            from + 1,
        );
    }
}

/// One step keeps the state sound.
pub proof fn lemma_step_sound(
    pools: Seq<PoolInfo>,
    max_hops: u8,
    input: Pubkey,
    amount_in: u64,
    output: Pubkey,
    st: SearchState,
)
    requires
        sound_state(pools, max_hops, input, amount_in, output, st),
        st.frontier.len() > 0,
    ensures
        sound_state(pools, max_hops, input, amount_in, output, step(pools, max_hops, output, st)),
{
    let k = leader(st.frontier);
    lemma_leader_among(st.frontier, st.frontier.len() as int);
    let cur = st.frontier[k];
    let rest = without(st, k);
    assert(sound_candidate(pools, max_hops, input, amount_in, st.visited, cur));
    assert forall|i: int| 0 <= i < rest.frontier.len() implies sound_candidate(
        pools,
        max_hops,
        input,
        amount_in,
        st.visited,
        #[trigger] rest.frontier[i],
    ) by {
        if i < k {
            assert(rest.frontier[i] == st.frontier[i]);
        } else {
            assert(rest.frontier[i] == st.frontier[i + 1]);
        }
    }
    assert(sound_state(pools, max_hops, input, amount_in, output, rest));
    if cur.token == output {
        let hops = choose|hops: Seq<int>| explains(pools, input, amount_in, st.visited, cur, hops);
        assert(is_simple_route(pools, cur.path, input, amount_in, output, cur.amount_out));
    }
    let opened = visiting(rest, cur.token);
    assert forall|i: int| 0 <= i < opened.frontier.len() implies sound_candidate(
        pools,
        max_hops,
        input,
        amount_in,
        opened.visited,
        #[trigger] opened.frontier[i],
    ) by {
        lemma_sound_candidate_kept(
            pools,
            max_hops,
            input,
            amount_in,
            st.visited,
            opened.visited,
            rest.frontier[i],
        );
    }
    lemma_sound_candidate_kept(pools, max_hops, input, amount_in, st.visited, opened.visited, cur);
    if cur.hops < max_hops {
        lemma_expand_sound(pools, max_hops, input, amount_in, output, opened, cur, 0);
    }
}

/// Draining the frontier keeps the state sound.
pub proof fn lemma_drain_sound(
    pools: Seq<PoolInfo>,
    max_hops: u8,
    input: Pubkey,
    amount_in: u64,
    output: Pubkey,
    st: SearchState,
)
    requires
        sound_state(pools, max_hops, input, amount_in, output, st),
    ensures
        sound_state(pools, max_hops, input, amount_in, output, drain(pools, max_hops, output, st)),
    decreases sides_unvisited(pools, st.visited), st.frontier.len(),
{
    if st.frontier.len() != 0 {
        lemma_step_sound(pools, max_hops, input, amount_in, output, st);
        lemma_step_progress(pools, max_hops, output, st);
        lemma_drain_sound(
            pools,
            max_hops,
            input,
            amount_in,
            output,
            step(pools, max_hops, output, st),
        );
    }
}

/// The search is sound. A search from an asset to itself is refused as an
/// invalid route, and nothing else is. A route that comes back exists in the
/// pool list: it leads from the input to the output without standing on any
/// asset twice, crosses at least one pool and no more than the hop budget,
/// every hop pays out something, and the amount that comes back is what
/// walking it yields. Every other search ends without a path.
pub proof fn lemma_search_sound(
    pools: Seq<PoolInfo>,
    max_hops: u8,
    input: Pubkey,
    output: Pubkey,
    amount_in: u64,
)
    ensures
        match search(pools, max_hops, input, output, amount_in) {
            Ok((route, amount)) => {
                &&& input != output
                &&& is_simple_route(pools, route, input, amount_in, output, amount)
                &&& is_route(pools, route, input, amount_in, output, amount)
                &&& 1 <= route.len() <= max_hops
                &&& amount > 0
            },
            Err(e) => if input == output {
                e == WayfinderError::InvalidRoute
            } else {
                e == WayfinderError::NoValidPath
            },
        },
{
    if input != output {
        let start = initial_state(input, amount_in);
        let first = start.frontier[0];
        let none = Seq::<int>::empty();
        assert(stops(pools, none, input, amount_in) =~= seq![input]);
        assert(traces(pools, none, first.path, input, amount_in, input, amount_in));
        assert(explains(pools, input, amount_in, start.visited, first, none));
        assert(sound_candidate(pools, max_hops, input, amount_in, start.visited, first));
        lemma_drain_sound(pools, max_hops, input, amount_in, output, start);
        match drain(pools, max_hops, output, start).solution {
            Some((route, amount)) => {
                lemma_simple_route_is_route(pools, route, input, amount_in, output, amount);
                lemma_route_leaves_and_pays(pools, route, input, amount_in, output, amount);
            },
            None => {},
        }
    }
}

/// Where no route within the hop budget leads from the input to the output
/// without standing on an asset twice, the search ends without a path.
pub proof fn lemma_no_route_no_path(
    pools: Seq<PoolInfo>,
    max_hops: u8,
    input: Pubkey,
    output: Pubkey,
    amount_in: u64,
)
    requires
        input != output,
        forall|route: Seq<Pubkey>, amount: u64|
            route.len() <= max_hops ==> !is_simple_route(
                pools,
                route,
                input,
                amount_in,
                output,
                amount,
            ),
    ensures
        search(pools, max_hops, input, output, amount_in) == Err::<
            (Seq<Pubkey>, u64),
            WayfinderError,
        >(WayfinderError::NoValidPath),
{
    lemma_search_sound(pools, max_hops, input, output, amount_in);
}

} // verus!
