//! The best-first search, stated as a function on mathematical values.
//!
//! The frontier is a sequence of candidates in the order in which they
//! entered. The next candidate to leave is the one with the largest amount;
//! among equal amounts the one with the fewest hops; among those the one that
//! entered first.

use vstd::prelude::*;
use crate::error::WayfinderError;
use crate::pubkey::Pubkey;
use crate::state::PoolInfo;

verus! {

/// A partial route: where it stands, what it holds, and how it got there.
pub struct Candidate {
    pub token: Pubkey,
    pub amount_out: u64,
    pub hops: u8,
    pub path: Seq<Pubkey>,
}

/// Everything the search knows between two steps.
pub struct SearchState {
    /// Candidates waiting to be looked at, oldest first.
    pub frontier: Seq<Candidate>,
    /// Assets whose pools have been explored.
    pub visited: Set<Pubkey>,
    /// For each asset reached so far, the best amount and its hop count.
    pub best: Map<Pubkey, (u64, u8)>,
    /// The best complete route seen so far, with its amount.
    pub solution: Option<(Seq<Pubkey>, u64)>,
}

/// `a` is looked at before `b`: more in hand, or as much with fewer hops.
pub open spec fn precedes(a: Candidate, b: Candidate) -> bool {
    a.amount_out > b.amount_out || (a.amount_out == b.amount_out && a.hops < b.hops)
}

/// Position of the candidate that leaves next among the first `n`.
pub open spec fn leader_among(frontier: Seq<Candidate>, n: int) -> int
    decreases n,
{
    if n <= 1 {
        0
    } else {
        let earlier = leader_among(frontier, n - 1);
        if precedes(frontier[n - 1], frontier[earlier]) {
            n - 1
        } else {
            earlier
        }
    }
}

/// Position of the candidate that leaves the frontier next.
pub open spec fn leader(frontier: Seq<Candidate>) -> int {
    leader_among(frontier, frontier.len() as int)
}

/// `k` is the first position holding a candidate that none precedes.
pub open spec fn is_leader(frontier: Seq<Candidate>, n: int, k: int) -> bool {
    &&& 0 <= k < n
    &&& forall|j: int| 0 <= j < n ==> !precedes(#[trigger] frontier[j], frontier[k])
    &&& forall|j: int| 0 <= j < k ==> precedes(frontier[k], #[trigger] frontier[j])
}

/// The next candidate to leave is the first that no other precedes.
pub proof fn lemma_leader_among(frontier: Seq<Candidate>, n: int)
    requires
        1 <= n <= frontier.len(),
    ensures
        is_leader(frontier, n, leader_among(frontier, n)),
    decreases n,
{
    if n > 1 {
        lemma_leader_among(frontier, n - 1);
    }
}

/// Only one position can be the first that holds a candidate that none
/// precedes: which candidate leaves next is fully decided.
pub proof fn lemma_leader_unique(frontier: Seq<Candidate>, n: int, k: int, other: int)
    requires
        is_leader(frontier, n, k),
        is_leader(frontier, n, other),
    ensures
        k == other,
{
    if k < other {
        assert(precedes(frontier[other], frontier[k]));
    } else if other < k {
        assert(precedes(frontier[k], frontier[other]));
    }
}

/// A candidate is stale once a strictly better way to its asset is known.
pub open spec fn is_stale(best: Map<Pubkey, (u64, u8)>, c: Candidate) -> bool {
    best.contains_key(c.token) && (c.amount_out < best[c.token].0 || (c.amount_out
        == best[c.token].0 && c.hops > best[c.token].1))
}

/// Reaching `token` with `amount` after `hops` beats what is known of it:
/// nothing known, more in hand, or as much with fewer hops.
pub open spec fn improves(best: Map<Pubkey, (u64, u8)>, token: Pubkey, amount: u64, hops: u8) -> bool {
    !best.contains_key(token) || amount > best[token].0 || (amount == best[token].0 && hops
        < best[token].1)
}

/// The best complete route after a candidate reached the destination: the
/// first one found stays unless the new one holds strictly more.
pub open spec fn better_solution(solution: Option<(Seq<Pubkey>, u64)>, c: Candidate) -> Option<
    (Seq<Pubkey>, u64),
> {
    match solution {
        None => Some((c.path, c.amount_out)),
        Some((_, amount)) => if c.amount_out > amount {
            Some((c.path, c.amount_out))
        } else {
            solution
        },
    }
}

/// The candidate that crossing `pool` from `cur` produces, given the amount
/// that the pool pays out.
pub open spec fn successor(cur: Candidate, pool: PoolInfo, next: Pubkey, out: u64) -> Candidate {
    Candidate {
        token: next,
        amount_out: out,
        hops: (cur.hops + 1) as u8,
        path: cur.path.push(pool.address),
    }
}

/// Looks at one pool from `cur`: if it leads to an unvisited asset, pays out
/// something, and beats what is known of that asset, the successor enters
/// the frontier and becomes what is known.
pub open spec fn relax(st: SearchState, cur: Candidate, pool: PoolInfo) -> SearchState {
    match pool.connected_asset(cur.token) {
        None => st,
        Some(next) => if st.visited.contains(next) {
            st
        } else {
            match pool.quote(cur.token, cur.amount_out) {
                None => st,
                Some(out) => if out > 0 && improves(st.best, next, out, (cur.hops + 1) as u8) {
                    SearchState {
                        frontier: st.frontier.push(successor(cur, pool, next, out)),
                        visited: st.visited,
                        best: st.best.insert(next, (out, (cur.hops + 1) as u8)),
                        solution: st.solution,
                    }
                } else {
                    st
                },
            }
        },
    }
}

/// Looks at the pools from position `from` on, in list order.
pub open spec fn expand(pools: Seq<PoolInfo>, st: SearchState, cur: Candidate, from: int) -> SearchState
    decreases pools.len() - from,
{
    if 0 <= from < pools.len() {
        expand(pools, relax(st, cur, pools[from]), cur, from + 1)
    } else {
        st
    }
}

/// The state once the candidate at `k` has left the frontier.
pub open spec fn without(st: SearchState, k: int) -> SearchState {
    SearchState {
        frontier: st.frontier.remove(k),
        visited: st.visited,
        best: st.best,
        solution: st.solution,
    }
}

/// The state once `token` counts as visited.
pub open spec fn visiting(st: SearchState, token: Pubkey) -> SearchState {
    SearchState {
        frontier: st.frontier,
        visited: st.visited.insert(token),
        best: st.best,
        solution: st.solution,
    }
}

/// One step: the leader leaves the frontier. A stale candidate is dropped. One
/// at the destination competes for the solution. One that used up its hops,
/// or whose asset was explored before, is dropped. Any other has its asset
/// marked visited and its pools looked at.
pub open spec fn step(pools: Seq<PoolInfo>, max_hops: u8, output: Pubkey, st: SearchState) -> SearchState {
    let k = leader(st.frontier);
    let cur = st.frontier[k];
    let rest = without(st, k);
    if is_stale(st.best, cur) {
        rest
    } else if cur.token == output {
        SearchState {
            frontier: rest.frontier,
            visited: rest.visited,
            best: rest.best,
            solution: better_solution(st.solution, cur),
        }
    } else if cur.hops >= max_hops || st.visited.contains(cur.token) {
        rest
    } else {
        expand(pools, visiting(rest, cur.token), cur, 0)
    }
}

/// How many pool sides are not visited yet.
pub open spec fn sides_unvisited(pools: Seq<PoolInfo>, visited: Set<Pubkey>) -> nat
    decreases pools.len(),
{
    if pools.len() == 0 {
        0
    } else {
        sides_unvisited(pools.drop_last(), visited) + (if visited.contains(pools.last().token_a) {
            0nat
        } else {
            1nat
        }) + (if visited.contains(pools.last().token_b) {
            0nat
        } else {
            1nat
        })
    }
}

/// Steps until the frontier is empty.
pub open spec fn drain(pools: Seq<PoolInfo>, max_hops: u8, output: Pubkey, st: SearchState) -> SearchState
    decreases sides_unvisited(pools, st.visited), st.frontier.len(),
    via drain_terminates
{
    if st.frontier.len() == 0 {
        st
    } else {
        drain(pools, max_hops, output, step(pools, max_hops, output, st))
    }
}

#[via_fn]
proof fn drain_terminates(pools: Seq<PoolInfo>, max_hops: u8, output: Pubkey, st: SearchState) {
    if st.frontier.len() != 0 {
        lemma_step_progress(pools, max_hops, output, st);
    }
}

/// The state the search starts from: the input asset alone, with the whole
/// input amount and no hop made.
pub open spec fn initial_state(input: Pubkey, amount_in: u64) -> SearchState {
    SearchState {
        frontier: seq![
            Candidate { token: input, amount_out: amount_in, hops: 0, path: Seq::empty() },
        ],
        visited: Set::empty(),
        best: Map::empty().insert(input, (amount_in, 0u8)),
        solution: None,
    }
}

/// The search as a whole: no route from an asset to itself; otherwise the
/// best complete route seen while the frontier drains, if any was.
pub open spec fn search(
    pools: Seq<PoolInfo>,
    max_hops: u8,
    input: Pubkey,
    output: Pubkey,
    amount_in: u64,
) -> Result<(Seq<Pubkey>, u64), WayfinderError> {
    if input == output {
        Err(WayfinderError::InvalidRoute)
    } else {
        match drain(pools, max_hops, output, initial_state(input, amount_in)).solution {
            Some(found) => Ok(found),
            None => Err(WayfinderError::NoValidPath),
        }
    }
}

/// Looking at pools never changes what is visited, never shrinks the
/// frontier, and leaves the solution alone.
pub proof fn lemma_expand_frame(pools: Seq<PoolInfo>, st: SearchState, cur: Candidate, from: int)
    ensures
        expand(pools, st, cur, from).visited == st.visited,
        expand(pools, st, cur, from).solution == st.solution,
        expand(pools, st, cur, from).frontier.len() >= st.frontier.len(),
    decreases pools.len() - from,
{
    if 0 <= from < pools.len() {
        lemma_expand_frame(pools, relax(st, cur, pools[from]), cur, from + 1);
    }
}

/// From an asset that no remaining pool touches, nothing is found.
pub proof fn lemma_expand_isolated(pools: Seq<PoolInfo>, st: SearchState, cur: Candidate, from: int)
    requires
        forall|i: int| from <= i < pools.len() ==> !(#[trigger] pools[i]).has_token(cur.token),
    ensures
        expand(pools, st, cur, from) == st,
    decreases pools.len() - from,
{
    if 0 <= from < pools.len() {
        assert(!pools[from].has_token(cur.token));
        lemma_expand_isolated(pools, st, cur, from + 1);
    }
}

/// Visiting one more asset leaves no more sides unvisited than before, and
/// strictly fewer if the asset is new and a side of some pool.
pub proof fn lemma_visiting_shrinks(pools: Seq<PoolInfo>, visited: Set<Pubkey>, token: Pubkey)
    ensures
        sides_unvisited(pools, visited.insert(token)) <= sides_unvisited(pools, visited),
        !visited.contains(token) && (exists|i: int|
            0 <= i < pools.len() && (#[trigger] pools[i]).has_token(token)) ==> sides_unvisited(
            pools,
            visited.insert(token),
        ) < sides_unvisited(pools, visited),
    decreases pools.len(),
{
    if pools.len() > 0 {
        let front = pools.drop_last();
        lemma_visiting_shrinks(front, visited, token);
        if !visited.contains(token) && (exists|i: int|
            0 <= i < pools.len() && (#[trigger] pools[i]).has_token(token)) {
            let i = choose|i: int| 0 <= i < pools.len() && (#[trigger] pools[i]).has_token(token);
            if i < pools.len() - 1 {
                assert(front[i].has_token(token));
            }
        }
    }
}

/// Every step brings the search closer to its end: either an asset with
/// pools is visited for the first time, or the frontier loses a candidate
/// while nothing is unvisited.
pub proof fn lemma_step_progress(pools: Seq<PoolInfo>, max_hops: u8, output: Pubkey, st: SearchState)
    requires
        st.frontier.len() > 0,
    ensures
        ({
            let next = step(pools, max_hops, output, st);
            let before = sides_unvisited(pools, st.visited);
            let after = sides_unvisited(pools, next.visited);
            after < before || (after == before && next.frontier.len() < st.frontier.len())
        }),
{
    let k = leader(st.frontier);
    lemma_leader_among(st.frontier, st.frontier.len() as int);
    let cur = st.frontier[k];
    let rest = without(st, k);
    if !is_stale(st.best, cur) && cur.token != output && cur.hops < max_hops
        && !st.visited.contains(cur.token) {
        let opened = visiting(rest, cur.token);
        lemma_expand_frame(pools, opened, cur, 0);
        lemma_visiting_shrinks(pools, st.visited, cur.token);
        if !(exists|i: int| 0 <= i < pools.len() && (#[trigger] pools[i]).has_token(cur.token)) {
            lemma_expand_isolated(pools, opened, cur, 0);
        }
    }
}

} // verus!
