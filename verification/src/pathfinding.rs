//! The route search engine.

use vstd::prelude::*;
use crate::error::WayfinderError;
use crate::frontier::{Frontier, PathNode};
use crate::guarantees::{lemma_direct_pool_found, lemma_nothing_in_no_path};
use crate::pubkey::Pubkey;
use crate::route::is_simple_route;
use crate::route_table::RouteTable;
use crate::search::{
    drain, expand, improves, initial_state, is_stale, leader, lemma_step_progress, relax, search,
    sides_unvisited, step, visiting, without, SearchState,
};
use crate::soundness::lemma_search_sound;
use crate::state::{PoolInfo, MAX_ROUTE_HOPS};
use crate::token_set::TokenSet;

verus! {

/// The hop budget that a request for `max_hops` gets: never more than the
/// hard ceiling.
pub open spec fn clamp_hops(max_hops: u8) -> u8 {
    if max_hops <= MAX_ROUTE_HOPS {
        max_hops
    } else {
        MAX_ROUTE_HOPS as u8
    }
}

/// The pool links exactly these two assets.
pub open spec fn links(pool: PoolInfo, from: Pubkey, to: Pubkey) -> bool {
    (pool.token_a == from && pool.token_b == to) || (pool.token_b == from && pool.token_a == to)
}

/// The most that a single pool linking `from` and `to` pays for `amount` of
/// `from`; zero where no such pool gives a price.
pub open spec fn best_direct_rate(pools: Seq<PoolInfo>, from: Pubkey, to: Pubkey, amount: u64) -> u64
    decreases pools.len(),
{
    if pools.len() == 0 {
        0
    } else {
        let earlier = best_direct_rate(pools.drop_last(), from, to, amount);
        match pools.last().quote(from, amount) {
            Some(out) => if links(pools.last(), from, to) && out > earlier {
                out
            } else {
                earlier
            },
            None => earlier,
        }
    }
}

/// The best direct rate is an upper bound on what every linking pool pays,
/// and unless it is zero some linking pool pays exactly that.
pub proof fn lemma_best_direct_rate(pools: Seq<PoolInfo>, from: Pubkey, to: Pubkey, amount: u64)
    ensures
        forall|i: int|
            0 <= i < pools.len() && links(#[trigger] pools[i], from, to) ==> (pools[i].quote(
                from,
                amount,
            ) matches Some(out) ==> out <= best_direct_rate(pools, from, to, amount)),
        best_direct_rate(pools, from, to, amount) == 0 || exists|i: int|
            0 <= i < pools.len() && links(#[trigger] pools[i], from, to) && pools[i].quote(
                from,
                amount,
            ) == Some(best_direct_rate(pools, from, to, amount)),
    decreases pools.len(),
{
    if pools.len() > 0 {
        let front = pools.drop_last();
        lemma_best_direct_rate(front, from, to, amount);
        let earlier = best_direct_rate(front, from, to, amount);
        let rate = best_direct_rate(pools, from, to, amount);
        assert forall|i: int| 0 <= i < pools.len() && links(#[trigger] pools[i], from, to) implies (
        pools[i].quote(from, amount) matches Some(out) ==> out <= rate) by {
            if i < pools.len() - 1 {
                assert(front[i] == pools[i]);
            }
        }
        if rate != 0 {
            if rate == earlier {
                let i = choose|i: int|
                    0 <= i < front.len() && links(#[trigger] front[i], from, to) && front[i].quote(
                        from,
                        amount,
                    ) == Some(earlier);
                assert(pools[i] == front[i]);
            } else {
                assert(pools[pools.len() - 1] == pools.last());
            }
        }
    }
}

/// What the working sets of a running search stand for.
pub open spec fn state_of(
    open_set: Frontier,
    visited: TokenSet,
    best_routes: RouteTable,
    best_solution: Option<(Vec<Pubkey>, u64)>,
) -> SearchState {
    SearchState {
        frontier: open_set@,
        visited: visited@,
        best: best_routes@,
        solution: match best_solution {
            Some((path, amount)) => Some((path@, amount)),
            None => None,
        },
    }
}

/// A copy of a path.
fn copy_path(path: &Vec<Pubkey>) -> (copy: Vec<Pubkey>)
    ensures
        copy@ == path@,
{
    let mut copy: Vec<Pubkey> = Vec::new();
    let mut i: usize = 0;
    while i < path.len()
        invariant
            i <= path.len(),
            copy@ == path@.take(i as int),
        decreases path.len() - i,
    {
        copy.push(path[i]);
        assert(copy@ =~= path@.take(i + 1));
        i = i + 1;
    }
    assert(path@.take(path.len() as int) =~= path@);
    copy
}

/// A search over a fixed list of pools with a fixed hop budget.
pub struct AStarPathfinder<'a> {
    pools: &'a [PoolInfo],
    max_hops: u8,
}

impl<'a> AStarPathfinder<'a> {
    /// The pools that the search may cross.
    pub closed spec fn pools(&self) -> Seq<PoolInfo> {
        self.pools@
    }

    /// The most pools that a route may cross.
    pub closed spec fn max_hops(&self) -> u8 {
        self.max_hops
    }

    /// A search over `pools` that crosses at most `max_hops` pools, and never
    /// more than the hard ceiling of five.
    pub fn new(pools: &'a [PoolInfo], max_hops: u8) -> (finder: Self)
        ensures
            finder.pools() == pools@,
            finder.max_hops() == clamp_hops(max_hops),
            finder.max_hops() <= max_hops,
            finder.max_hops() <= MAX_ROUTE_HOPS,
    {
        let ceiling = MAX_ROUTE_HOPS as u8;
        Self { pools, max_hops: if max_hops <= ceiling { max_hops } else { ceiling } }
    }

    /// Finds the route that turns `amount_in` of `input_mint` into the most
    /// of `output_mint`, as the best-first search sees it. Returns the
    /// addresses of the pools to cross, in order, and the final amount.
    ///
    /// The result is exactly what `search` says. In particular a search from
    /// an asset to itself, and no other, is an invalid route; a route that
    /// comes back exists in the pool list, stands on no asset twice, crosses
    /// between one pool and the hop budget, and yields the amount that comes
    /// back with it; any other search ends without a path. Nothing in finds
    /// nothing. Where the budget allows a hop and a single pool leads from
    /// the input to the output and pays out something, a route comes back
    /// that yields at least as much.
    pub fn find_optimal_route(&self, input_mint: &Pubkey, output_mint: &Pubkey, amount_in: u64) -> (r:
        Result<(Vec<Pubkey>, u64), WayfinderError>)
        ensures
            match r {
                Ok((route, amount)) => search(
                    self.pools(),
                    self.max_hops(),
                    *input_mint,
                    *output_mint,
                    amount_in,
                ) == Ok::<(Seq<Pubkey>, u64), WayfinderError>((route@, amount)),
                Err(e) => search(
                    self.pools(),
                    self.max_hops(),
                    *input_mint,
                    *output_mint,
                    amount_in,
                ) == Err::<(Seq<Pubkey>, u64), WayfinderError>(e),
            },
            (r matches Err(e) && e == WayfinderError::InvalidRoute) <==> *input_mint
                == *output_mint,
            r matches Err(e) ==> e == WayfinderError::InvalidRoute || e
                == WayfinderError::NoValidPath,
            r matches Ok((route, amount)) ==> {
                &&& is_simple_route(
                    self.pools(),
                    route@,
                    *input_mint,
                    amount_in,
                    *output_mint,
                    amount,
                )
                &&& 1 <= route@.len() <= self.max_hops()
                &&& amount > 0
            },
            amount_in == 0 ==> r is Err,
            forall|i: int|
                0 <= i < self.pools().len() && links(
                    #[trigger] self.pools()[i],
                    *input_mint,
                    *output_mint,
                ) && *input_mint != *output_mint && self.max_hops() >= 1 ==> (
                self.pools()[i].quote(*input_mint, amount_in) matches Some(out) ==> out > 0 ==> (
                r matches Ok((_, amount)) && amount >= out)),
    {
        proof {
            lemma_search_sound(self.pools@, self.max_hops, *input_mint, *output_mint, amount_in);
            if amount_in == 0 && *input_mint != *output_mint {
                lemma_nothing_in_no_path(self.pools@, self.max_hops, *input_mint, *output_mint);
            }
            assert forall|i: int|
                0 <= i < self.pools@.len() && links(
                    #[trigger] self.pools@[i],
                    *input_mint,
                    *output_mint,
                ) && *input_mint != *output_mint && self.max_hops >= 1 && (self.pools@[i].quote(
                    *input_mint,
                    amount_in,
                ) matches Some(out) && out > 0) implies (search(
                self.pools@,
                self.max_hops,
                *input_mint,
                *output_mint,
                amount_in,
            ) matches Ok((_, amount)) && amount >= self.pools@[i].quote(
                *input_mint,
                amount_in,
            ).unwrap()) by {
                lemma_direct_pool_found(
                    self.pools@,
                    self.max_hops,
                    *input_mint,
                    *output_mint,
                    amount_in,
                    i,
                );
            }
        }
        if *input_mint == *output_mint {
            return Err(WayfinderError::InvalidRoute);
        }
        let ghost pools = self.pools@;
        let ghost start = initial_state(*input_mint, amount_in);

        let mut open_set = Frontier::new();
        let mut visited = TokenSet::new();
        let mut best_routes = RouteTable::new();

        open_set.push(
            PathNode { token: *input_mint, amount_out: amount_in, hops: 0, path: Vec::new() },
        );
        best_routes.insert(*input_mint, amount_in, 0);

        let mut best_solution: Option<(Vec<Pubkey>, u64)> = None;
        assert(state_of(open_set, visited, best_routes, best_solution).frontier =~= start.frontier);
        assert(state_of(open_set, visited, best_routes, best_solution) == start);

        loop
            invariant
                pools == self.pools@,
                visited.wf(),
                best_routes.wf(),
                drain(
                    pools,
                    self.max_hops,
                    *output_mint,
                    state_of(open_set, visited, best_routes, best_solution),
                ) == drain(pools, self.max_hops, *output_mint, start),
            ensures
                open_set@.len() == 0,
            decreases sides_unvisited(pools, visited@), open_set@.len(),
        {
            let ghost before = state_of(open_set, visited, best_routes, best_solution);
            let current = match open_set.pop() {
                Some(node) => node,
                None => { break ; },
            };
            proof {
                lemma_step_progress(pools, self.max_hops, *output_mint, before);
            }
            let ghost cur = current@;
            let ghost rest = without(before, leader(before.frontier));
            assert(state_of(open_set, visited, best_routes, best_solution) == rest);

            // Skip if a better way to this token is known
            let stale = match best_routes.get(&current.token) {
                Some((best_amount, best_hops)) => current.amount_out < best_amount || (
                current.amount_out == best_amount && current.hops > best_hops),
                None => false,
            };
            assert(stale == is_stale(before.best, cur));
            if stale {
                // dropped
            } else if current.token == *output_mint {
                // Reached the destination
                let replace = match &best_solution {
                    None => true,
                    Some((_, best_amount)) => current.amount_out > *best_amount,
                };
                if replace {
                    best_solution = Some((current.path, current.amount_out));
                }
            } else if current.hops >= self.max_hops || visited.contains(&current.token) {
                // Out of hops, or explored before
            } else {
                visited.insert(current.token);
                let ghost opened = visiting(rest, cur.token);
                assert(state_of(open_set, visited, best_routes, best_solution) == opened);

                // Explore the pools connected to the current token
                let mut i: usize = 0;
                while i < self.pools.len()
                    invariant
                        0 <= i <= self.pools.len(),
                        pools == self.pools@,
                        cur == current@,
                        cur.hops < self.max_hops,
                        visited.wf(),
                        best_routes.wf(),
                        expand(
                            pools,
                            state_of(open_set, visited, best_routes, best_solution),
                            cur,
                            i as int,
                        ) == expand(pools, opened, cur, 0),
                    decreases self.pools.len() - i,
                {
                    let ghost here = state_of(open_set, visited, best_routes, best_solution);
                    let pool = &self.pools[i];
                    match pool.get_other_token(&current.token) {
                        None => {},
                        Some(next_token) => {
                            if !visited.contains(&next_token) {
                                match pool.get_output_amount(&current.token, current.amount_out) {
                                    None => {},
                                    Some(amount_out) => {
                                        let hops: u8 = current.hops + 1;
                                        let should_explore = amount_out > 0 && match best_routes.get(
                                            &next_token,
                                        ) {
                                            None => true,
                                            Some((best_amount, best_hops)) => amount_out
                                                > best_amount || (amount_out == best_amount && hops
                                                < best_hops),
                                        };
                                        assert(should_explore == (amount_out > 0 && improves(
                                            here.best,
                                            next_token,
                                            amount_out,
                                            hops,
                                        )));
                                        if should_explore {
                                            best_routes.insert(next_token, amount_out, hops);
                                            let mut new_path = copy_path(&current.path);
                                            new_path.push(pool.address);
                                            open_set.push(
                                                PathNode {
                                                    token: next_token,
                                                    amount_out,
                                                    hops,
                                                    path: new_path,
                                                },
                                            );
                                        }
                                    },
                                }
                            }
                        },
                    }
                    assert(state_of(open_set, visited, best_routes, best_solution) == relax(
                        here,
                        cur,
                        pools[i as int],
                    ));
                    i = i + 1;
                }
            }
            assert(state_of(open_set, visited, best_routes, best_solution) == step(
                pools,
                self.max_hops,
                *output_mint,
                before,
            ));
        }
        match best_solution {
            Some(found) => Ok(found),
            None => Err(WayfinderError::NoValidPath),
        }
    }

    /// An estimate of what is still to be had between two assets, as a cost:
    /// the largest amount minus the best direct rate for `amount`. The
    /// smaller the cost, the better the best single pool between the two.
    pub fn _heuristic(&self, from_token: &Pubkey, to_token: &Pubkey, amount: u64) -> (cost: u64)
        ensures
            cost == u64::MAX - best_direct_rate(self.pools(), *from_token, *to_token, amount),
    {
        let mut best_rate: u64 = 0;
        let mut i: usize = 0;
        while i < self.pools.len()
            invariant
                0 <= i <= self.pools.len(),
                best_rate == best_direct_rate(
                    self.pools@.take(i as int),
                    *from_token,
                    *to_token,
                    amount,
                ),
            decreases self.pools.len() - i,
        {
            let pool = &self.pools[i];
            assert(self.pools@.take(i + 1).drop_last() =~= self.pools@.take(i as int));
            if (pool.token_a == *from_token && pool.token_b == *to_token) || (pool.token_b
                == *from_token && pool.token_a == *to_token) {
                match pool.get_output_amount(from_token, amount) {
                    Some(out) => {
                        if out > best_rate {
                            best_rate = out;
                        }
                    },
                    None => {},
                }
            }
            i = i + 1;
        }
        assert(self.pools@.take(self.pools@.len() as int) =~= self.pools@);
        u64::MAX - best_rate
    }
}

} // verus!
