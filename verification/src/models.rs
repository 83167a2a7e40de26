use vstd::prelude::*;

verus! {

/// The two pools a delegator can stake into.
#[derive(Clone, Copy, Debug, PartialEq, Eq, Structural)]
pub enum DelegationType {
    /// Absorbs both income and outlay; supplies the spendable liquidity.
    Growth,
    /// Receives only its pro-rata share of income.
    Profit,
}

/// One per-owner stake checkpoint.  A record with `i_snapshot = a` followed
/// by one with `i_snapshot = b` means the owner held `amount` over the
/// snapshot indices `[a, b)`; the final checkpoint extends to the next
/// snapshot index observed at claim time.
#[derive(Clone, Copy, Debug, PartialEq, Eq, Structural)]
pub struct Delegation {
    /// The owner's total pool stake as of `i_snapshot`.
    pub amount: u128,
    /// Index of the first snapshot this checkpoint spans.
    pub i_snapshot: u128,
}

/// An epoch record of pool totals and per-epoch income and outlay,
/// reference-counted by `claims_remaining`.
#[derive(Clone, Copy, Debug, PartialEq, Eq, Structural)]
pub struct Snapshot {
    /// Epoch counter at creation; used to decide coalescing.
    pub seq_no: u128,
    /// Remaining consuming claims; the snapshot is deleted when it hits 0.
    pub claims_remaining: u32,
    /// Growth-pool total stake at creation; immutable thereafter.
    pub growth_delegation: u128,
    /// Profit-pool total stake at creation; immutable thereafter.
    pub profit_delegation: u128,
    /// Income accumulated in this epoch; may grow by coalescing.
    pub income: u128,
    /// Outlay accumulated in this epoch; may grow by coalescing.
    pub outlay: u128,
}

/// A snapshot together with its monotonic index in the log.
#[derive(Clone, Copy, Debug, PartialEq, Eq, Structural)]
pub struct SnapshotEntry {
    /// Monotonic log index.
    pub index: u128,
    /// The snapshot stored at that index.
    pub snapshot: Snapshot,
}

impl Snapshot {
    /// Combined stake of both pools captured at snapshot creation; the
    /// divisor of every income share.
    pub open spec fn spec_total_delegation(self) -> int {
        self.growth_delegation + self.profit_delegation
    }

    pub fn get_total_delegation(&self) -> (r: u128)
        requires
            self.spec_total_delegation() <= u128::MAX,
        ensures
            r == self.spec_total_delegation(),
    {
        self.growth_delegation + self.profit_delegation
    }
}

/// Per-delegator account: memoized partial claims plus the checkpoint
/// lists of both pools.
#[derive(Clone, Debug)]
pub struct DelegationAccount {
    /// The owning wallet address.
    pub owner: String,
    /// Creation time handed in by the caller (nanoseconds).
    pub created_at: u64,
    /// Profit-pool claim amount accrued by the amortizer.
    pub memoized_profit: u128,
    /// Growth-pool gain accrued by the amortizer.
    pub memoized_growth: u128,
    /// Growth-pool loss accrued by the amortizer.
    pub memoized_loss: u128,
    /// Growth-pool checkpoints, ascending by `i_snapshot`.
    pub growth_delegations: Vec<Delegation>,
    /// Profit-pool checkpoints, ascending by `i_snapshot`.
    pub profit_delegations: Vec<Delegation>,
}

/// Mathematical image of a [`DelegationAccount`].
#[verifier::ext_equal]
pub struct DelegationAccountView {
    /// The owning wallet address.
    pub owner: Seq<char>,
    /// Creation time handed in by the caller (nanoseconds).
    pub created_at: u64,
    /// Profit-pool claim amount accrued by the amortizer.
    pub memoized_profit: u128,
    /// Growth-pool gain accrued by the amortizer.
    pub memoized_growth: u128,
    /// Growth-pool loss accrued by the amortizer.
    pub memoized_loss: u128,
    /// Growth-pool checkpoints, ascending by `i_snapshot`.
    pub growth_delegations: Seq<Delegation>,
    /// Profit-pool checkpoints, ascending by `i_snapshot`.
    pub profit_delegations: Seq<Delegation>,
}

impl View for DelegationAccount {
    type V = DelegationAccountView;

    open spec fn view(&self) -> DelegationAccountView {
        DelegationAccountView {
            owner: self.owner@,
            created_at: self.created_at,
            memoized_profit: self.memoized_profit,
            memoized_growth: self.memoized_growth,
            memoized_loss: self.memoized_loss,
            growth_delegations: self.growth_delegations@,
            profit_delegations: self.profit_delegations@,
        }
    }
}

impl DelegationAccountView {
    /// The checkpoint list of the given pool.
    pub open spec fn delegations(self, target: DelegationType) -> Seq<Delegation> {
        match target {
            DelegationType::Growth => self.growth_delegations,
            DelegationType::Profit => self.profit_delegations,
        }
    }

    /// Latest checkpoint amount of the given pool, 0 if none.
    pub open spec fn latest_amount(self, target: DelegationType) -> int {
        let d = self.delegations(target);
        if d.len() == 0 {
            0
        } else {
            d.last().amount as int
        }
    }
}

impl DelegationAccount {
    /// Fresh account with no memoized amounts and no checkpoints.
    pub fn new(owner: &String, created_at: u64) -> (r: DelegationAccount)
        ensures
            r@.owner == owner@,
            r@.created_at == created_at,
            r@.memoized_profit == 0,
            r@.memoized_growth == 0,
            r@.memoized_loss == 0,
            r@.growth_delegations =~= Seq::<Delegation>::empty(),
            r@.profit_delegations =~= Seq::<Delegation>::empty(),
    {
        DelegationAccount {
            owner: owner.clone(),
            created_at,
            memoized_profit: 0,
            memoized_growth: 0,
            memoized_loss: 0,
            growth_delegations: Vec::new(),
            profit_delegations: Vec::new(),
        }
    }

    /// Whether the owner holds any checkpoint in the given pool.
    pub fn has_delegation(&self, target: DelegationType) -> (r: bool)
        ensures
            r == (self@.delegations(target).len() > 0),
    {
        match target {
            DelegationType::Growth => self.growth_delegations.len() > 0,
            DelegationType::Profit => self.profit_delegations.len() > 0,
        }
    }

    /// The owner's most recent checkpoint in the given pool, if any.
    pub fn get_latest_delegation(&self, target: DelegationType) -> (r: Option<Delegation>)
        ensures
            match r {
                Some(d) => self@.delegations(target).len() > 0 && d == self@.delegations(
                    target,
                ).last(),
                None => self@.delegations(target).len() == 0,
            },
    {
        let delegations = match target {
            DelegationType::Growth => &self.growth_delegations,
            DelegationType::Profit => &self.profit_delegations,
        };
        let n = delegations.len();
        if n == 0 {
            None
        } else {
            Some(delegations[n - 1])
        }
    }

    /// Current checkpoint amounts in the Growth and Profit pools.
    pub fn get_delegation_amounts(&self) -> (r: (u128, u128))
        ensures
            r.0 == self@.latest_amount(DelegationType::Growth),
            r.1 == self@.latest_amount(DelegationType::Profit),
    {
        let growth = match self.get_latest_delegation(DelegationType::Growth) {
            Some(d) => d.amount,
            None => 0,
        };
        let profit = match self.get_latest_delegation(DelegationType::Profit) {
            Some(d) => d.amount,
            None => 0,
        };
        (growth, profit)
    }
}

/// Per-client account: the liquidity fraction the client may spend and its
/// lifetime payment tallies.
#[derive(Clone, Debug)]
pub struct ClientAccount {
    /// The client's wallet address.
    pub owner: String,
    /// Permitted fraction of the spendable liquidity, in thousandths
    /// (0 ..= 1000).
    pub pct_liquidity: u32,
    /// Creation time handed in by the caller (nanoseconds).
    pub created_at: u64,
    /// Lifetime total of outgoing payments sent by this client.
    pub amount_spent: u128,
    /// Lifetime total of incoming payments received through this client.
    pub amount_received: u128,
}

/// Mathematical image of a [`ClientAccount`].
#[verifier::ext_equal]
pub struct ClientAccountView {
    /// The client's wallet address.
    pub owner: Seq<char>,
    /// Permitted fraction of the spendable liquidity, in thousandths.
    pub pct_liquidity: u32,
    /// Creation time handed in by the caller (nanoseconds).
    pub created_at: u64,
    /// Lifetime total of outgoing payments sent by this client.
    pub amount_spent: u128,
    /// Lifetime total of incoming payments received through this client.
    pub amount_received: u128,
}

impl View for ClientAccount {
    type V = ClientAccountView;

    open spec fn view(&self) -> ClientAccountView {
        ClientAccountView {
            owner: self.owner@,
            pct_liquidity: self.pct_liquidity,
            created_at: self.created_at,
            amount_spent: self.amount_spent,
            amount_received: self.amount_received,
        }
    }
}

} // verus!
