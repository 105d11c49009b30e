//! Pool snapshots and the pricing model.

use vstd::prelude::*;
use crate::pricing::{
    lemma_fee_scaling_fits, lemma_swap_nothing_in, lemma_swap_output_below_reserve,
    lemma_swap_output_bounded, lemma_swap_output_monotonic, swap_numerator, swap_quote,
    BPS_DENOMINATOR,
};
use crate::pubkey::Pubkey;

verus! {

/// Hard ceiling on the number of pools a route may traverse.
pub const MAX_ROUTE_HOPS: usize = 5;

/// The record holds nothing yet.
pub const STATUS_UNINITIALIZED: u8 = 0;

/// The record was created and waits for a search.
pub const STATUS_INITIALIZED: u8 = 1;

/// A search has stored its route in the record.
pub const STATUS_ROUTE_FOUND: u8 = 2;

/// The stored route was executed; nothing more happens to the record.
pub const STATUS_EXECUTED: u8 = 3;

/// The discriminator of a route record.
pub const ROUTE_STATE_DISCRIMINATOR: u8 = 1;

/// One routing request over its lifetime.
#[derive(Debug, Clone)]
pub struct RouteState {
    /// Discriminator for account type
    pub discriminator: u8,
    /// Input token mint
    pub input_mint: Pubkey,
    /// Output token mint
    pub output_mint: Pubkey,
    /// Input amount
    pub amount_in: u64,
    /// Minimum output amount
    pub min_amount_out: u64,
    /// Most pools that the route may cross, as asked for at creation
    pub max_hops: u8,
    /// Number of hops in the route
    pub hops: u8,
    /// Route path (pool addresses)
    pub route: Vec<Pubkey>,
    /// Route status: 0 = uninitialized, 1 = initialized, 2 = route_found,
    /// 3 = executed
    pub status: u8,
    /// Authority
    pub authority: Pubkey,
}

/// What a route record holds, as mathematical values.
pub struct RouteRecord {
    pub discriminator: u8,
    pub input_mint: Pubkey,
    pub output_mint: Pubkey,
    pub amount_in: u64,
    pub min_amount_out: u64,
    pub max_hops: u8,
    pub hops: u8,
    pub route: Seq<Pubkey>,
    pub status: u8,
    pub authority: Pubkey,
}

impl View for RouteState {
    type V = RouteRecord;

    open spec fn view(&self) -> RouteRecord {
        RouteRecord {
            discriminator: self.discriminator,
            input_mint: self.input_mint,
            output_mint: self.output_mint,
            amount_in: self.amount_in,
            min_amount_out: self.min_amount_out,
            max_hops: self.max_hops,
            hops: self.hops,
            route: self.route@,
            status: self.status,
            authority: self.authority,
        }
    }
}

impl RouteRecord {
    /// The record of a fresh request: no route yet, waiting for a search.
    pub open spec fn created(
        authority: Pubkey,
        input_mint: Pubkey,
        output_mint: Pubkey,
        amount_in: u64,
        min_amount_out: u64,
        max_hops: u8,
    ) -> RouteRecord {
        RouteRecord {
            discriminator: ROUTE_STATE_DISCRIMINATOR,
            input_mint,
            output_mint,
            amount_in,
            min_amount_out,
            max_hops,
            hops: 0,
            route: Seq::empty(),
            status: STATUS_INITIALIZED,
            authority,
        }
    }

    /// The record once a search has found `route`: the request is unchanged.
    pub open spec fn found(self, route: Seq<Pubkey>) -> RouteRecord {
        RouteRecord {
            hops: route.len() as u8,
            route,
            status: STATUS_ROUTE_FOUND,
            ..self
        }
    }

    /// The record once its route was executed: only the status moves.
    pub open spec fn executed(self) -> RouteRecord {
        RouteRecord { status: STATUS_EXECUTED, ..self }
    }

    /// The record is consistent: its hop count is the length of its route,
    /// which crosses at most five pools; it has a route exactly from the
    /// moment one was found.
    pub open spec fn wf(self) -> bool {
        &&& self.route.len() == self.hops
        &&& self.hops <= MAX_ROUTE_HOPS
        &&& self.status <= STATUS_EXECUTED
        &&& self.status < STATUS_ROUTE_FOUND ==> self.route.len() == 0
        &&& self.status >= STATUS_ROUTE_FOUND ==> self.route.len() >= 1
    }
}

/// The pools known to the program.
#[derive(Debug, Clone)]
pub struct PoolRegistry {
    /// Discriminator
    pub discriminator: u8,
    /// Authority
    pub authority: Pubkey,
    /// Registered pools
    pub pools: Vec<PoolInfo>,
}

/// A snapshot of one exchange venue: an edge between its two assets.
#[derive(Clone, Copy, Debug, PartialEq, Eq)]
pub struct PoolInfo {
    /// Pool account address
    pub address: Pubkey,
    /// Token A mint
    pub token_a: Pubkey,
    /// Token B mint
    pub token_b: Pubkey,
    /// Fee in basis points (1 bps = 0.01%)
    pub fee_bps: u16,
    /// Token A reserve
    pub reserve_a: u64,
    /// Token B reserve
    pub reserve_b: u64,
}

impl PoolInfo {
    /// Whether `token` is one of the two sides of the pool.
    pub open spec fn has_token(&self, token: Pubkey) -> bool {
        token == self.token_a || token == self.token_b
    }

    /// The asset on the other side of the pool from `token`.
    pub open spec fn connected_asset(&self, token: Pubkey) -> Option<Pubkey> {
        if token == self.token_a {
            Some(self.token_b)
        } else if token == self.token_b {
            Some(self.token_a)
        } else {
            None
        }
    }

    /// Reserve of the side that `token` is paid into.
    pub open spec fn reserve_in(&self, token: Pubkey) -> u64 {
        if token == self.token_a {
            self.reserve_a
        } else {
            self.reserve_b
        }
    }

    /// Reserve of the side that is paid out when `token` is paid in.
    pub open spec fn reserve_out(&self, token: Pubkey) -> u64 {
        if token == self.token_a {
            self.reserve_b
        } else {
            self.reserve_a
        }
    }

    /// The price query: what the pool pays for `amount_in` of `input_mint`.
    pub open spec fn quote(&self, input_mint: Pubkey, amount_in: u64) -> Option<u64> {
        if self.has_token(input_mint) {
            swap_quote(
                self.reserve_in(input_mint),
                self.reserve_out(input_mint),
                self.fee_bps,
                amount_in,
            )
        } else {
            None
        }
    }

    /// Prices a trade of `amount_in` of `input_mint` through this pool without
    /// changing it.
    pub fn get_output_amount(&self, input_mint: &Pubkey, amount_in: u64) -> (r: Option<u64>)
        ensures
            r == self.quote(*input_mint, amount_in),
            !self.has_token(*input_mint) ==> r is None,
            self.has_token(*input_mint) && self.fee_bps <= 10000 && amount_in == 0 ==> r == Some(
                0u64,
            ),
            r matches Some(out) ==> out <= self.reserve_out(*input_mint),
    {
        let (reserve_in, reserve_out) = if *input_mint == self.token_a {
            (self.reserve_a, self.reserve_b)
        } else if *input_mint == self.token_b {
            (self.reserve_b, self.reserve_a)
        } else {
            return None;
        };
        let keep_bps = match BPS_DENOMINATOR.checked_sub(self.fee_bps as u128) {
            Some(k) => k,
            None => { return None; },
        };
        proof {
            lemma_fee_scaling_fits(reserve_in, self.fee_bps, amount_in);
            lemma_swap_output_bounded(
                reserve_in as int,
                reserve_out as int,
                self.fee_bps as int,
                amount_in as int,
            );
            lemma_swap_nothing_in(reserve_in as int, reserve_out as int, self.fee_bps as int);
        }
        let amount_in_with_fee = match (amount_in as u128).checked_mul(keep_bps) {
            Some(a) => a,
            None => { return None; },
        };
        let numerator = match amount_in_with_fee.checked_mul(reserve_out as u128) {
            Some(n) => n,
            None => { return None; },
        };
        let scaled_reserve = match (reserve_in as u128).checked_mul(BPS_DENOMINATOR) {
            Some(s) => s,
            None => { return None; },
        };
        let denominator = match scaled_reserve.checked_add(amount_in_with_fee) {
            Some(d) => d,
            None => { return None; },
        };
        if denominator == 0 {
            return Some(0);
        }
        let amount_out = numerator / denominator;
        if amount_out > u64::MAX as u128 {
            None
        } else {
            Some(amount_out as u64)
        }
    }

    /// A price is given exactly when the asset is a side of the pool, the fee
    /// is at most one hundred percent, and the fee-scaled input times the
    /// reserve paid out fits in 128 bits.
    pub proof fn lemma_quote_given(self, asset: Pubkey, amount_in: u64)
        ensures
            self.quote(asset, amount_in) is Some <==> {
                &&& self.has_token(asset)
                &&& self.fee_bps <= 10000
                &&& swap_numerator(
                    self.reserve_out(asset) as int,
                    self.fee_bps as int,
                    amount_in as int,
                ) <= u128::MAX
            },
    {
        if self.fee_bps <= 10000 {
            lemma_swap_output_bounded(
                self.reserve_in(asset) as int,
                self.reserve_out(asset) as int,
                self.fee_bps as int,
                amount_in as int,
            );
        }
    }

    /// No price for an asset that is neither side of the pool.
    pub proof fn lemma_quote_needs_side(self, asset: Pubkey, amount_in: u64)
        requires
            !self.has_token(asset),
        ensures
            self.quote(asset, amount_in) is None,
    {
    }

    /// Nothing in, nothing out: the price of zero is zero.
    pub proof fn lemma_quote_of_nothing(self, asset: Pubkey)
        requires
            self.has_token(asset),
            self.fee_bps <= 10000,
        ensures
            self.quote(asset, 0) == Some(0u64),
    {
        lemma_swap_nothing_in(
            self.reserve_in(asset) as int,
            self.reserve_out(asset) as int,
            self.fee_bps as int,
        );
    }

    /// The price never falls as the input grows: where the larger input has
    /// a price, the smaller has one too, and it is no higher.
    pub proof fn lemma_quote_monotonic(self, asset: Pubkey, smaller: u64, larger: u64)
        requires
            smaller <= larger,
            self.quote(asset, larger) is Some,
        ensures
            self.quote(asset, smaller) is Some,
            self.quote(asset, smaller).unwrap() <= self.quote(asset, larger).unwrap(),
    {
        let reserve_in = self.reserve_in(asset) as int;
        let reserve_out = self.reserve_out(asset) as int;
        let fee = self.fee_bps as int;
        lemma_swap_output_monotonic(reserve_in, reserve_out, fee, smaller as int, larger as int);
        lemma_swap_output_bounded(reserve_in, reserve_out, fee, smaller as int);
        lemma_swap_output_bounded(reserve_in, reserve_out, fee, larger as int);
    }

    /// While both reserves hold something and the fee is below one hundred
    /// percent, the price stays strictly below the reserve paid out.
    pub proof fn lemma_quote_below_reserve(self, asset: Pubkey, amount_in: u64)
        requires
            self.fee_bps < 10000,
            self.reserve_in(asset) > 0,
            self.reserve_out(asset) > 0,
            self.quote(asset, amount_in) is Some,
        ensures
            self.quote(asset, amount_in).unwrap() < self.reserve_out(asset),
    {
        lemma_swap_output_below_reserve(
            self.reserve_in(asset) as int,
            self.reserve_out(asset) as int,
            self.fee_bps as int,
            amount_in as int,
        );
    }

    /// The asset reached by crossing this pool from `token`, if `token` is one
    /// of its sides.
    pub fn get_other_token(&self, token: &Pubkey) -> (r: Option<Pubkey>)
        ensures
            r == self.connected_asset(*token),
            r is Some <==> self.has_token(*token),
    {
        if *token == self.token_a {
            Some(self.token_b)
        } else if *token == self.token_b {
            Some(self.token_a)
        } else {
            None
        }
    }
}

} // verus!
