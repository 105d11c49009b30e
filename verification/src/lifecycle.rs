//! What holds of every record over its lifetime.

use vstd::prelude::*;
use crate::error::WayfinderError;
use crate::pathfinding::clamp_hops;
use crate::processor::{execute_outcome, find_outcome, initialize_outcome};
use crate::pubkey::Pubkey;
use crate::search::search;
use crate::soundness::lemma_search_sound;
use crate::state::{
    PoolInfo, RouteRecord, STATUS_EXECUTED, STATUS_INITIALIZED, STATUS_ROUTE_FOUND,
};

verus! {

/// A record is created consistent and waiting for a search.
pub proof fn lemma_created_waits(
    authority: Pubkey,
    input_mint: Pubkey,
    output_mint: Pubkey,
    amount_in: u64,
    min_amount_out: u64,
    max_hops: u8,
)
    ensures
        RouteRecord::created(
            authority,
            input_mint,
            output_mint,
            amount_in,
            min_amount_out,
            max_hops,
        ).wf(),
        RouteRecord::created(
            authority,
            input_mint,
            output_mint,
            amount_in,
            min_amount_out,
            max_hops,
        ).status == STATUS_INITIALIZED,
{
}

/// The status only moves forward, one state at a time: a search succeeds
/// only on a record that waits for it and leaves it with a route found; an
/// execution succeeds only on a record with a route found and leaves it
/// executed.
pub proof fn lemma_status_advances(
    record: RouteRecord,
    pools: Seq<PoolInfo>,
    state_is_writable: bool,
    authority: Pubkey,
    authority_is_signer: bool,
)
    ensures
        find_outcome(record, pools, state_is_writable) matches Ok((next, _)) ==> record.status
            == STATUS_INITIALIZED && next.status == STATUS_ROUTE_FOUND,
        execute_outcome(record, authority, authority_is_signer) matches Ok(next) ==> record.status
            == STATUS_ROUTE_FOUND && next.status == STATUS_EXECUTED,
{
}

/// A record that still waits for a search cannot be executed.
pub proof fn lemma_no_execution_before_search(
    record: RouteRecord,
    authority: Pubkey,
    authority_is_signer: bool,
)
    requires
        record.status == STATUS_INITIALIZED,
    ensures
        execute_outcome(record, authority, authority_is_signer) is Err,
{
}

/// An executed record is final: it can be neither searched nor executed
/// again.
pub proof fn lemma_executed_is_final(
    record: RouteRecord,
    pools: Seq<PoolInfo>,
    state_is_writable: bool,
    authority: Pubkey,
    authority_is_signer: bool,
)
    requires
        record.status == STATUS_EXECUTED,
    ensures
        find_outcome(record, pools, state_is_writable) is Err,
        execute_outcome(record, authority, authority_is_signer) is Err,
{
}

/// A route, once found, is never replaced: no search succeeds on a record
/// that has one, and execution keeps it.
pub proof fn lemma_found_route_stays(
    record: RouteRecord,
    pools: Seq<PoolInfo>,
    state_is_writable: bool,
    authority: Pubkey,
    authority_is_signer: bool,
)
    requires
        record.status >= STATUS_ROUTE_FOUND,
    ensures
        find_outcome(record, pools, state_is_writable) is Err,
        execute_outcome(record, authority, authority_is_signer) matches Ok(next) ==> next.route
            == record.route && next.hops == record.hops,
{
}

/// No operation touches the request itself: assets, amounts, hop budget and
/// owner stay as they were at creation.
pub proof fn lemma_request_is_fixed(
    record: RouteRecord,
    pools: Seq<PoolInfo>,
    state_is_writable: bool,
    authority: Pubkey,
    authority_is_signer: bool,
)
    ensures
        find_outcome(record, pools, state_is_writable) matches Ok((next, _)) ==> same_request(
            record,
            next,
        ),
        execute_outcome(record, authority, authority_is_signer) matches Ok(next) ==> same_request(
            record,
            next,
        ),
{
}

/// Two records speak of the same request.
pub open spec fn same_request(a: RouteRecord, b: RouteRecord) -> bool {
    &&& a.discriminator == b.discriminator
    &&& a.input_mint == b.input_mint
    &&& a.output_mint == b.output_mint
    &&& a.amount_in == b.amount_in
    &&& a.min_amount_out == b.min_amount_out
    &&& a.max_hops == b.max_hops
    &&& a.authority == b.authority
}

/// Every successful operation leaves a consistent record consistent.
pub proof fn lemma_consistency_kept(
    record: RouteRecord,
    pools: Seq<PoolInfo>,
    state_is_writable: bool,
    authority: Pubkey,
    authority_is_signer: bool,
)
    requires
        record.wf(),
    ensures
        find_outcome(record, pools, state_is_writable) matches Ok((next, _)) ==> next.wf(),
        execute_outcome(record, authority, authority_is_signer) matches Ok(next) ==> next.wf(),
{
    lemma_search_sound(
        pools,
        clamp_hops(record.max_hops),
        record.input_mint,
        record.output_mint,
        record.amount_in,
    );
}

/// The whole lifetime is possible: where the search finds a route for a
/// fresh record, the record takes it, and its owner can then execute it.
pub proof fn lemma_lifetime_completes(
    authority: Pubkey,
    input_mint: Pubkey,
    output_mint: Pubkey,
    amount_in: u64,
    min_amount_out: u64,
    max_hops: u8,
    pools: Seq<PoolInfo>,
)
    requires
        search(pools, clamp_hops(max_hops), input_mint, output_mint, amount_in) is Ok,
    ensures
        ({
            let fresh = RouteRecord::created(
                authority,
                input_mint,
                output_mint,
                amount_in,
                min_amount_out,
                max_hops,
            );
            let found = find_outcome(fresh, pools, true);
            &&& initialize_outcome(
                authority,
                true,
                true,
                input_mint,
                output_mint,
                amount_in,
                min_amount_out,
                max_hops,
            ) == Ok::<RouteRecord, WayfinderError>(fresh)
            &&& found is Ok
            &&& found.unwrap().0.status == STATUS_ROUTE_FOUND
            &&& execute_outcome(found.unwrap().0, authority, true) == Ok::<
                RouteRecord,
                WayfinderError,
            >(found.unwrap().0.executed())
            &&& found.unwrap().0.executed().status == STATUS_EXECUTED
        }),
{
}

} // verus!
