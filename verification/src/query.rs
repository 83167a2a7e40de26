//! Read-only report queries over the engine state.

use vstd::prelude::*;

use crate::claim::claim_gain;
use crate::claim::claim_loss;
use crate::claim::claim_ok;
use crate::error::ContractError;
use crate::models::ClientAccount;
use crate::models::DelegationType;
use crate::models::Snapshot;
use crate::msg::AccountView;
use crate::msg::PoolsView;
use crate::msg::SelectResponse;
use crate::msg::StatsView;
use crate::state::lemma_account_idx;
use crate::state::lemma_client_idx;
use crate::state::House;
use crate::state::HouseView;

verus! {

/// Whether a projection names this field; an absent projection selects
/// every field.
pub open spec fn wants(fields: Option<Vec<String>>, name: Seq<char>) -> bool {
    fields is None || exists|i: int|
        0 <= i < fields->Some_0@.len() && (#[trigger] fields->Some_0@[i])@ == name
}

/// Whether a read-only claim of this pool is computable.
pub open spec fn readonly_ok(h: HouseView, owner: Seq<char>, target: DelegationType) -> bool {
    claim_ok(
        h.snapshots,
        h.account(owner).delegations(target),
        h.snapshots_index + 1,
        false,
        target == DelegationType::Growth,
    )
}

/// The read-only claim gain of this pool.
pub open spec fn readonly_gain(h: HouseView, owner: Seq<char>, target: DelegationType) -> int {
    claim_gain(h.snapshots, h.account(owner).delegations(target), h.snapshots_index + 1, false)
}

/// The read-only claim loss of the Growth pool.
pub open spec fn readonly_loss(h: HouseView, owner: Seq<char>) -> int {
    claim_loss(
        h.snapshots,
        h.account(owner).growth_delegations,
        h.snapshots_index + 1,
        false,
    )
}

/// A sum capped at the largest 128-bit value.
pub open spec fn saturating(v: int) -> int {
    if v > u128::MAX {
        u128::MAX as int
    } else {
        v
    }
}

/// Claimable gain shown for a wallet: the computable read-only claim
/// plus the memoized part, zeroing the claim when it is not computable.
pub open spec fn view_growth_claimable(h: HouseView, owner: Seq<char>) -> int {
    if !h.has_account(owner) {
        0
    } else {
        let g = if readonly_ok(h, owner, DelegationType::Growth) {
            readonly_gain(h, owner, DelegationType::Growth)
        } else {
            0
        };
        saturating(g + h.account(owner).memoized_growth)
    }
}

/// Claimable loss shown for a wallet.
pub open spec fn view_loss_claimable(h: HouseView, owner: Seq<char>) -> int {
    if !h.has_account(owner) {
        0
    } else {
        let l = if readonly_ok(h, owner, DelegationType::Growth) {
            readonly_loss(h, owner)
        } else {
            0
        };
        saturating(l + h.account(owner).memoized_loss)
    }
}

/// Claimable profit shown for a wallet.
pub open spec fn view_profit_claimable(h: HouseView, owner: Seq<char>) -> int {
    if !h.has_account(owner) {
        0
    } else {
        let p = if readonly_ok(h, owner, DelegationType::Profit) {
            readonly_gain(h, owner, DelegationType::Profit)
        } else {
            0
        };
        saturating(p + h.account(owner).memoized_profit)
    }
}

/// Whether the projection asks for this field.
fn wants_field(fields: &Option<Vec<String>>, name: &str) -> (r: bool)
    ensures
        r == wants(*fields, name@),
{
    match fields {
        Option::None => true,
        Option::Some(list) => {
            let needle: String = name.to_owned();
            let n = list.len();
            let mut i: usize = 0;
            while i < n
                invariant
                    *fields == Option::Some(*list),
                    n == list@.len(),
                    i <= n,
                    needle@ == name@,
                    forall|j: int| 0 <= j < i ==> (#[trigger] list@[j])@ != name@,
                decreases n - i,
            {
                if list[i] == needle {
                    proof {
                        assert((*fields)->Some_0 == *list);
                        assert(((*fields)->Some_0@[i as int])@ == name@);
                        assert(wants(*fields, name@));
                    }
                    return true;
                }
                i += 1;
            }
            false
        },
    }
}

/// The stored client account, or `NotFound`.
pub fn get_client(h: &House, client_address: &String) -> (r: Result<ClientAccount, ContractError>)
    requires
        h@.wf(),
    ensures
        match r {
            Ok(c) => h@.has_client(client_address@) && c@ == h@.client(client_address@),
            Err(e) => e == ContractError::NotFound && !h@.has_client(client_address@),
        },
{
    match h.find_client(client_address) {
        Option::None => Err(ContractError::NotFound),
        Option::Some(k) => {
            proof {
                lemma_client_idx(h@, client_address@, k as int);
            }
            Ok(
                ClientAccount {
                    owner: h.clients[k].owner.clone(),
                    pct_liquidity: h.clients[k].pct_liquidity,
                    created_at: h.clients[k].created_at,
                    amount_spent: h.clients[k].amount_spent,
                    amount_received: h.clients[k].amount_received,
                },
            )
        },
    }
}

/// Project a report of the engine state: liquidity and profit totals,
/// the 20 most recent snapshots (newest first), pool totals, record
/// counts, and — when a wallet is given — that wallet's delegation and
/// claimable amounts together with its client tallies.
pub fn select(h: &House, fields: &Option<Vec<String>>, wallet: &Option<String>) -> (r:
    SelectResponse)
    requires
        h@.wf(),
    ensures
        r.total_liquidity == (if wants(*fields, "liquidity"@) {
            Option::Some(h@.net_liquidity)
        } else {
            Option::None::<u128>
        }),
        r.total_profit_claimable == (if wants(*fields, "profit"@) {
            Option::Some(h@.net_profit)
        } else {
            Option::None::<u128>
        }),
        match r.snapshots {
            Option::Some(s) => {
                &&& wants(*fields, "snapshots"@)
                &&& s@.len() == (if h@.snapshots.len() < 20 {
                    h@.snapshots.len() as int
                } else {
                    20
                })
                &&& forall|i: int|
                    0 <= i < s@.len() ==> #[trigger] s@[i] == h@.snapshots[h@.snapshots.len() - 1
                        - i].snapshot
            },
            Option::None => !wants(*fields, "snapshots"@),
        },
        r.pools == (if wants(*fields, "pools"@) {
            Option::Some(
                PoolsView {
                    growth: h@.net_growth_delegation,
                    profit: h@.net_profit_delegation,
                },
            )
        } else {
            Option::None::<PoolsView>
        }),
        match r.stats {
            Option::Some(s) => wants(*fields, "stats"@) && s.n_delegation_accounts
                == h@.accounts.len() && s.n_client_accounts == h@.clients.len() && s.n_snapshots
                == h@.snapshots.len(),
            Option::None => !wants(*fields, "stats"@),
        },
        match (r.account, *wallet) {
            (Option::Some(a), Option::Some(w)) => {
                &&& wants(*fields, "account"@)
                &&& a.growth_delegation as int == crate::execute::latest_of(
                    h@,
                    w@,
                    DelegationType::Growth,
                )
                &&& a.profit_delegation as int == crate::execute::latest_of(
                    h@,
                    w@,
                    DelegationType::Profit,
                )
                &&& a.growth_claimable as int == view_growth_claimable(h@, w@)
                &&& a.loss_claimable as int == view_loss_claimable(h@, w@)
                &&& a.profit_claimable as int == view_profit_claimable(h@, w@)
                &&& a.liquidity_spent == (if h@.has_client(w@) {
                    h@.client(w@).amount_spent
                } else {
                    0
                })
                &&& a.revenue_generated == (if h@.has_client(w@) {
                    h@.client(w@).amount_received
                } else {
                    0
                })
            },
            (Option::None, _) => wallet is None || !wants(*fields, "account"@),
            (Option::Some(_), Option::None) => false,
        },
{
    let total_liquidity = if wants_field(fields, "liquidity") {
        Some(h.net_liquidity)
    } else {
        None
    };
    let total_profit_claimable = if wants_field(fields, "profit") {
        Some(h.net_profit)
    } else {
        None
    };
    let snapshots = if wants_field(fields, "snapshots") {
        let n = h.snapshots.len();
        let take = if n < 20 {
            n
        } else {
            20
        };
        let mut out: Vec<Snapshot> = Vec::new();
        let mut i: usize = 0;
        while i < take
            invariant
                take <= n,
                n == h@.snapshots.len(),
                i <= take,
                out@.len() == i,
                forall|j: int|
                    0 <= j < i ==> #[trigger] out@[j] == h@.snapshots[n - 1 - j].snapshot,
            decreases take - i,
        {
            out.push(h.snapshots[n - 1 - i].snapshot);
            i += 1;
        }
        Some(out)
    } else {
        None
    };
    let pools = if wants_field(fields, "pools") {
        Some(
            PoolsView {
                growth: h.net_growth_delegation,
                profit: h.net_profit_delegation,
            },
        )
    } else {
        None
    };
    let stats = if wants_field(fields, "stats") {
        Some(
            StatsView {
                n_delegation_accounts: h.accounts.len() as u64,
                n_client_accounts: h.clients.len() as u64,
                n_snapshots: h.snapshots.len() as u64,
            },
        )
    } else {
        None
    };
    let account = match wallet {
        Option::None => None,
        Option::Some(w) => {
            if wants_field(fields, "account") {
                Some(build_account_view(h, w))
            } else {
                None
            }
        },
    };
    SelectResponse { total_liquidity, total_profit_claimable, snapshots, pools, account, stats }
}

/// Assemble the per-wallet report part.
fn build_account_view(h: &House, wallet: &String) -> (a: AccountView)
    requires
        h@.wf(),
    ensures
        a.growth_delegation as int == crate::execute::latest_of(
            h@,
            wallet@,
            DelegationType::Growth,
        ),
        a.profit_delegation as int == crate::execute::latest_of(
            h@,
            wallet@,
            DelegationType::Profit,
        ),
        a.growth_claimable as int == view_growth_claimable(h@, wallet@),
        a.loss_claimable as int == view_loss_claimable(h@, wallet@),
        a.profit_claimable as int == view_profit_claimable(h@, wallet@),
        a.liquidity_spent == (if h@.has_client(wallet@) {
            h@.client(wallet@).amount_spent
        } else {
            0
        }),
        a.revenue_generated == (if h@.has_client(wallet@) {
            h@.client(wallet@).amount_received
        } else {
            0
        }),
{
    let mut growth_delegation: u128 = 0;
    let mut profit_delegation: u128 = 0;
    let mut growth_claimable: u128 = 0;
    let mut loss_claimable: u128 = 0;
    let mut profit_claimable: u128 = 0;
    match h.find_account(wallet) {
        Option::None => {},
        Option::Some(k) => {
            proof {
                lemma_account_idx(h@, wallet@, k as int);
            }
            let amounts = h.accounts[k].get_delegation_amounts();
            growth_delegation = amounts.0;
            profit_delegation = amounts.1;
            let growth_claim = match h.accounts[k].claim_readonly(
                &h.snapshots,
                h.snapshots_index,
                DelegationType::Growth,
            ) {
                Ok(v) => v,
                Err(_) => (0, 0),
            };
            let profit_claim = match h.accounts[k].claim_readonly(
                &h.snapshots,
                h.snapshots_index,
                DelegationType::Profit,
            ) {
                Ok(v) => v,
                Err(_) => (0, 0),
            };
            growth_claimable = match growth_claim.0.checked_add(h.accounts[k].memoized_growth) {
                Some(v) => v,
                None => u128::MAX,
            };
            loss_claimable = match growth_claim.1.checked_add(h.accounts[k].memoized_loss) {
                Some(v) => v,
                None => u128::MAX,
            };
            profit_claimable = match profit_claim.0.checked_add(h.accounts[k].memoized_profit) {
                Some(v) => v,
                None => u128::MAX,
            };
        },
    }
    let (liquidity_spent, revenue_generated) = match h.find_client(wallet) {
        Option::None => (0u128, 0u128),
        Option::Some(k) => {
            proof {
                lemma_client_idx(h@, wallet@, k as int);
            }
            (h.clients[k].amount_spent, h.clients[k].amount_received)
        },
    };
    AccountView {
        growth_delegation,
        profit_delegation,
        profit_claimable,
        loss_claimable,
        growth_claimable,
        liquidity_spent,
        revenue_generated,
    }
}

} // verus!
