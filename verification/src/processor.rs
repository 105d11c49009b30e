//! The transitions of a route record.
//!
//! A record is created waiting for a search; a successful search stores its
//! route; the owner then executes the route. No other order is possible, and
//! a refused operation leaves the record as it was.

use vstd::prelude::*;
use crate::error::WayfinderError;
use crate::pathfinding::{clamp_hops, AStarPathfinder};
use crate::pubkey::Pubkey;
use crate::search::search;
use crate::state::{
    PoolInfo, RouteRecord, RouteState, ROUTE_STATE_DISCRIMINATOR, STATUS_EXECUTED,
    STATUS_INITIALIZED, STATUS_ROUTE_FOUND,
};

verus! {

/// What creating a record comes to: refused unless the authority signed and
/// the record's account can be written.
pub open spec fn initialize_outcome(
    authority: Pubkey,
    authority_is_signer: bool,
    state_is_writable: bool,
    input_mint: Pubkey,
    output_mint: Pubkey,
    amount_in: u64,
    min_amount_out: u64,
    max_hops: u8,
) -> Result<RouteRecord, WayfinderError> {
    if !authority_is_signer {
        Err(WayfinderError::AccountNotSigner)
    } else if !state_is_writable {
        Err(WayfinderError::AccountNotWritable)
    } else {
        Ok(
            RouteRecord::created(
                authority,
                input_mint,
                output_mint,
                amount_in,
                min_amount_out,
                max_hops,
            ),
        )
    }
}

/// What a search on a record comes to: the record with the route found and
/// the amount that the route yields. Refused if the record's account cannot
/// be written, if the record does not wait for a search, or if the search
/// fails.
pub open spec fn find_outcome(record: RouteRecord, pools: Seq<PoolInfo>, state_is_writable: bool) -> Result<
    (RouteRecord, u64),
    WayfinderError,
> {
    if !state_is_writable {
        Err(WayfinderError::AccountNotWritable)
    } else if record.status != STATUS_INITIALIZED {
        Err(WayfinderError::InvalidRoute)
    } else {
        match search(
            pools,
            clamp_hops(record.max_hops),
            record.input_mint,
            record.output_mint,
            record.amount_in,
        ) {
            Ok((route, amount)) => Ok((record.found(route), amount)),
            Err(e) => Err(e),
        }
    }
}

/// What executing a record comes to. Refused if the caller did not sign, if
/// the record holds no route that waits for execution, or if the caller is
/// not the record's owner.
pub open spec fn execute_outcome(record: RouteRecord, authority: Pubkey, authority_is_signer: bool) -> Result<
    RouteRecord,
    WayfinderError,
> {
    if !authority_is_signer {
        Err(WayfinderError::AccountNotSigner)
    } else if record.status != STATUS_ROUTE_FOUND {
        Err(WayfinderError::InvalidRoute)
    } else if record.authority != authority {
        Err(WayfinderError::AccountNotSigner)
    } else {
        Ok(record.executed())
    }
}

/// The operations on route records.
pub struct Processor;

impl Processor {
    /// Refuses a caller who did not sign.
    pub fn require_signer(is_signer: bool) -> (r: Result<(), WayfinderError>)
        ensures
            r == (if is_signer {
                Ok::<(), WayfinderError>(())
            } else {
                Err::<(), WayfinderError>(WayfinderError::AccountNotSigner)
            }),
    {
        if is_signer {
            Ok(())
        } else {
            Err(WayfinderError::AccountNotSigner)
        }
    }

    /// Refuses an account that cannot be written.
    pub fn require_writable(is_writable: bool) -> (r: Result<(), WayfinderError>)
        ensures
            r == (if is_writable {
                Ok::<(), WayfinderError>(())
            } else {
                Err::<(), WayfinderError>(WayfinderError::AccountNotWritable)
            }),
    {
        if is_writable {
            Ok(())
        } else {
            Err(WayfinderError::AccountNotWritable)
        }
    }

    /// Creates the record of a routing request.
    pub fn process_initialize_route(
        authority: Pubkey,
        authority_is_signer: bool,
        state_is_writable: bool,
        input_mint: [u8; 32],
        output_mint: [u8; 32],
        amount_in: u64,
        min_amount_out: u64,
        max_hops: u8,
    ) -> (r: Result<RouteState, WayfinderError>)
        ensures
            match r {
                Ok(state) => initialize_outcome(
                    authority,
                    authority_is_signer,
                    state_is_writable,
                    Pubkey::of(input_mint),
                    Pubkey::of(output_mint),
                    amount_in,
                    min_amount_out,
                    max_hops,
                ) == Ok::<RouteRecord, WayfinderError>(state@) && state@.wf(),
                Err(e) => initialize_outcome(
                    authority,
                    authority_is_signer,
                    state_is_writable,
                    Pubkey::of(input_mint),
                    Pubkey::of(output_mint),
                    amount_in,
                    min_amount_out,
                    max_hops,
                ) == Err::<RouteRecord, WayfinderError>(e),
            },
    {
        match Self::require_signer(authority_is_signer) {
            Ok(()) => {},
            Err(e) => { return Err(e); },
        }
        match Self::require_writable(state_is_writable) {
            Ok(()) => {},
            Err(e) => { return Err(e); },
        }
        let route_state = RouteState {
            discriminator: ROUTE_STATE_DISCRIMINATOR,
            input_mint: Pubkey::new_from_array(input_mint),
            output_mint: Pubkey::new_from_array(output_mint),
            amount_in,
            min_amount_out,
            max_hops,
            hops: 0,
            route: Vec::new(),
            status: STATUS_INITIALIZED,
            authority,
        };
        Ok(route_state)
    }

    /// Searches the pools for the record's request and stores the route. On
    /// success returns the amount that the route yields; the caller holds it
    /// against the record's floor. On failure the record is unchanged.
    pub fn process_find_optimal_route(
        route_state: &mut RouteState,
        pools: &[PoolInfo],
        state_is_writable: bool,
    ) -> (r: Result<u64, WayfinderError>)
        ensures
            match r {
                Ok(amount) => find_outcome(old(route_state)@, pools@, state_is_writable) == Ok::<
                    (RouteRecord, u64),
                    WayfinderError,
                >((final(route_state)@, amount)),
                Err(e) => find_outcome(old(route_state)@, pools@, state_is_writable) == Err::<
                    (RouteRecord, u64),
                    WayfinderError,
                >(e) && final(route_state)@ == old(route_state)@,
            },
            r is Ok ==> final(route_state)@.wf(),
    {
        match Self::require_writable(state_is_writable) {
            Ok(()) => {},
            Err(e) => { return Err(e); },
        }
        if route_state.status != STATUS_INITIALIZED {
            return Err(WayfinderError::InvalidRoute);
        }
        let pathfinder = AStarPathfinder::new(pools, route_state.max_hops);
        let found = pathfinder.find_optimal_route(
            &route_state.input_mint,
            &route_state.output_mint,
            route_state.amount_in,
        );
        match found {
            Ok((optimal_route, amount_out)) => {
                let hops = optimal_route.len() as u8;
                route_state.route = optimal_route;
                route_state.hops = hops;
                route_state.status = STATUS_ROUTE_FOUND;
                Ok(amount_out)
            },
            Err(e) => Err(e),
        }
    }

    /// Marks the record's route as executed, for the record's owner only.
    pub fn process_execute_route(
        route_state: &mut RouteState,
        authority: &Pubkey,
        authority_is_signer: bool,
    ) -> (r: Result<(), WayfinderError>)
        ensures
            match r {
                Ok(()) => execute_outcome(old(route_state)@, *authority, authority_is_signer)
                    == Ok::<RouteRecord, WayfinderError>(final(route_state)@),
                Err(e) => execute_outcome(old(route_state)@, *authority, authority_is_signer)
                    == Err::<RouteRecord, WayfinderError>(e) && final(route_state)@ == old(
                    route_state,
                )@,
            },
            r is Ok && old(route_state)@.wf() ==> final(route_state)@.wf(),
    {
        match Self::require_signer(authority_is_signer) {
            Ok(()) => {},
            Err(e) => { return Err(e); },
        }
        if route_state.status != STATUS_ROUTE_FOUND {
            return Err(WayfinderError::InvalidRoute);
        }
        if route_state.authority != *authority {
            return Err(WayfinderError::AccountNotSigner);
        }
        route_state.status = STATUS_EXECUTED;
        Ok(())
    }

    /// Accepts the registration of a pool. Registered pools are not kept:
    /// every search works on the pools it is handed.
    pub fn process_register_pool(token_a_mint: [u8; 32], token_b_mint: [u8; 32], fee_bps: u16) -> (r:
        Result<(), WayfinderError>)
        ensures
            r is Ok,
    {
        Ok(())
    }
}

} // verus!
