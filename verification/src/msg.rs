//! Views returned by the report queries.

use vstd::prelude::*;

use crate::models::Snapshot;

verus! {

/// Migration message: the engine carries no migration payload.
#[derive(Clone, Debug, PartialEq, Eq, Structural)]
pub struct MigrateMsg {}

/// Total delegation amounts of the two pools.
#[derive(Clone, Copy, Debug, PartialEq, Eq, Structural)]
pub struct PoolsView {
    /// Growth-pool total stake.
    pub growth: u128,
    /// Profit-pool total stake.
    pub profit: u128,
}

/// Top-level record counts.
#[derive(Clone, Copy, Debug, PartialEq, Eq, Structural)]
pub struct StatsView {
    /// Number of delegator accounts.
    pub n_delegation_accounts: u64,
    /// Number of client accounts.
    pub n_client_accounts: u64,
    /// Number of live snapshots.
    pub n_snapshots: u64,
}

/// Per-wallet report: delegation amounts, claimable amounts and client
/// payment tallies.
#[derive(Clone, Copy, Debug, PartialEq, Eq, Structural)]
pub struct AccountView {
    /// Current Growth-pool checkpoint amount.
    pub growth_delegation: u128,
    /// Current Profit-pool checkpoint amount.
    pub profit_delegation: u128,
    /// Claimable profit, memoized part included.
    pub profit_claimable: u128,
    /// Claimable loss, memoized part included.
    pub loss_claimable: u128,
    /// Claimable gain, memoized part included.
    pub growth_claimable: u128,
    /// Lifetime outgoing payments as a client.
    pub liquidity_spent: u128,
    /// Lifetime incoming payments as a client.
    pub revenue_generated: u128,
}

/// Projected report; each part is present when selected.
#[derive(Clone, Debug, PartialEq)]
pub struct SelectResponse {
    /// Total spendable liquidity.
    pub total_liquidity: Option<u128>,
    /// Total unclaimed profit.
    pub total_profit_claimable: Option<u128>,
    /// The 20 most recent snapshots, newest first.
    pub snapshots: Option<Vec<Snapshot>>,
    /// Total delegation amounts of both pools.
    pub pools: Option<PoolsView>,
    /// Per-wallet report, when a wallet was given.
    pub account: Option<AccountView>,
    /// Top-level record counts.
    pub stats: Option<StatsView>,
}

} // verus!
