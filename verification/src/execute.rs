//! The message-surface operations: client registry, staking, claims,
//! cash flows and withdrawal.

use vstd::pervasive::VecAdditionalExecFns;
use vstd::prelude::*;

use crate::claim::claim_pool;
use crate::claim::delegs_wf;
use crate::error::ContractError;
use crate::models::ClientAccount;
use crate::models::ClientAccountView;
use crate::models::Delegation;
use crate::models::DelegationAccount;
use crate::models::DelegationAccountView;
use crate::models::DelegationType;
use crate::models::SnapshotEntry;
use crate::util::copy_vec;
use crate::state::lemma_account_idx;
use crate::state::upsert_ok;
use crate::state::upsert_post;
use crate::models::Snapshot;
use crate::state::lemma_client_idx;
use crate::state::lemma_sum_by_le;
use crate::state::lemma_sum_by_remove;
use crate::state::lemma_sum_by_update;
use crate::state::House;
use crate::state::HouseView;

verus! {

/// What the allocated liquidity fractions would add up to after setting
/// this client's fraction.
pub open spec fn set_client_new_total(h: HouseView, address: Seq<char>, pct_liquidity: u32) -> int {
    h.net_pct_allocated - (if h.has_client(address) {
        h.client(address).pct_liquidity as int
    } else {
        0
    }) + pct_liquidity
}

/// The engine state after registering or re-registering a client.
pub open spec fn set_client_post(
    h: HouseView,
    address: Seq<char>,
    pct_liquidity: u32,
    created_at: u64,
) -> HouseView {
    let clients = if h.has_client(address) {
        h.clients.update(
            h.client_idx(address),
            ClientAccountView { pct_liquidity, ..h.client(address) },
        )
    } else {
        h.clients.push(
            ClientAccountView {
                owner: address,
                pct_liquidity,
                created_at,
                amount_spent: 0,
                amount_received: 0,
            },
        )
    };
    HouseView {
        clients,
        net_pct_allocated: set_client_new_total(h, address, pct_liquidity) as u32,
        ..h
    }
}

/// A checkpoint list after staking `delta` more at the frontier
/// `next_index`: the open checkpoint is topped up when no snapshot was
/// created since it was written, otherwise a new checkpoint is appended.
pub open spec fn delegate_delegs(d: Seq<Delegation>, next_index: u128, delta: u128) -> Seq<
    Delegation,
> {
    let amount = ((if d.len() > 0 {
        d.last().amount
    } else {
        0
    }) + delta) as u128;
    if d.len() > 0 && d.last().i_snapshot == next_index {
        d.update(d.len() - 1, Delegation { amount, i_snapshot: next_index })
    } else {
        d.push(Delegation { amount, i_snapshot: next_index })
    }
}

/// An account with the given pool's checkpoint list replaced.
pub open spec fn acct_with_delegs(
    a: DelegationAccountView,
    target: DelegationType,
    d: Seq<Delegation>,
) -> DelegationAccountView {
    match target {
        DelegationType::Growth => DelegationAccountView { growth_delegations: d, ..a },
        DelegationType::Profit => DelegationAccountView { profit_delegations: d, ..a },
    }
}

impl DelegationAccount {
    /// Stake `delta` more into one pool: top up the open checkpoint or
    /// append a new one anchored at the next snapshot index.  Returns the
    /// owner's new total stake in the pool and whether this was the
    /// owner's first checkpoint there.
    pub fn delegate(&mut self, target: DelegationType, delta: u128, i_next_snapshot: u128) -> (r:
        Result<(u128, bool), ContractError>)
        requires
            delta >= 1,
            delegs_wf(old(self)@.delegations(target), i_next_snapshot as int),
        ensures
            match r {
                Ok(out) => {
                    &&& old(self)@.latest_amount(target) + delta <= u128::MAX
                    &&& out.0 == old(self)@.latest_amount(target) + delta
                    &&& out.1 == (old(self)@.delegations(target).len() == 0)
                    &&& final(self)@ == acct_with_delegs(
                        old(self)@,
                        target,
                        delegate_delegs(old(self)@.delegations(target), i_next_snapshot, delta),
                    )
                    &&& delegs_wf(final(self)@.delegations(target), i_next_snapshot as int)
                    &&& final(self)@.latest_amount(target) == out.0
                    &&& final(self)@.delegations(target).len() > 0
                },
                Err(e) => {
                    &&& e == ContractError::Overflow
                    &&& old(self)@.latest_amount(target) + delta > u128::MAX
                    &&& *final(self) == *old(self)
                },
            },
    {
        let ghost a0 = self@;
        let ghost d0 = a0.delegations(target);
        let prev = self.get_latest_delegation(target);
        let prev_amount: u128 = match prev {
            Some(d) => d.amount,
            None => 0,
        };
        let amount = match prev_amount.checked_add(delta) {
            Some(v) => v,
            None => {
                return Err(ContractError::Overflow);
            },
        };
        let is_first = match prev {
            Some(_) => false,
            None => true,
        };
        let record = Delegation { amount, i_snapshot: i_next_snapshot };
        let coalesce = match prev {
            Some(d) => d.i_snapshot == i_next_snapshot,
            None => false,
        };
        let delegations = match target {
            DelegationType::Growth => &mut self.growth_delegations,
            DelegationType::Profit => &mut self.profit_delegations,
        };
        if coalesce {
            let n = delegations.len();
            delegations.set(n - 1, record);
        } else {
            delegations.push(record);
        }
        proof {
            let d1 = self@.delegations(target);
            assert(d1 =~= delegate_delegs(d0, i_next_snapshot, delta));
            assert(self@ =~~= acct_with_delegs(
                a0,
                target,
                delegate_delegs(d0, i_next_snapshot, delta),
            ));
            assert forall|i: int, j: int|
                0 <= i < j < d1.len() implies (#[trigger] d1[i].i_snapshot) < (
            #[trigger] d1[j].i_snapshot) by {
                if j < d0.len() - 1 || (coalesce && j == d0.len() - 1) {
                    assert(d0[i].i_snapshot < d0[j].i_snapshot);
                } else {
                    assert(d1[i] == d0[i]);
                    assert(d0[i].i_snapshot <= i_next_snapshot);
                    if d0.len() > 0 && i < d0.len() - 1 {
                        assert(d0[i].i_snapshot < d0[d0.len() - 1].i_snapshot);
                    }
                }
            }
        }
        Ok((amount, is_first))
    }
}

/// How often a stake call bumps the epoch: once per pool actually staked.
pub open spec fn stake_bumps(growth: u128, profit: u128) -> int {
    (if growth > 0 {
        1int
    } else {
        0
    }) + (if profit > 0 {
        1int
    } else {
        0
    })
}

/// The caller's account before staking: the stored one, or a fresh one.
pub open spec fn stake_acct_base(h: HouseView, owner: Seq<char>, created_at: u64)
    -> DelegationAccountView {
    if h.has_account(owner) {
        h.account(owner)
    } else {
        DelegationAccountView {
            owner,
            created_at,
            memoized_profit: 0,
            memoized_growth: 0,
            memoized_loss: 0,
            growth_delegations: Seq::empty(),
            profit_delegations: Seq::empty(),
        }
    }
}

/// The caller's account after staking into both pools.
pub open spec fn stake_acct_post(
    a: DelegationAccountView,
    next_index: u128,
    growth: u128,
    profit: u128,
) -> DelegationAccountView {
    let a1 = if growth > 0 {
        acct_with_delegs(
            a,
            DelegationType::Growth,
            delegate_delegs(a.growth_delegations, next_index, growth),
        )
    } else {
        a
    };
    if profit > 0 {
        acct_with_delegs(
            a1,
            DelegationType::Profit,
            delegate_delegs(a1.profit_delegations, next_index, profit),
        )
    } else {
        a1
    }
}

/// The caller's current checkpoint amount in one pool, 0 without one.
pub open spec fn latest_of(h: HouseView, owner: Seq<char>, target: DelegationType) -> int {
    if h.has_account(owner) {
        h.account(owner).latest_amount(target)
    } else {
        0
    }
}

/// The arithmetic side conditions under which a stake goes through.
pub open spec fn stake_ok(h: HouseView, owner: Seq<char>, growth: u128, profit: u128) -> bool {
    &&& h.net_liquidity + growth <= u128::MAX
    &&& h.snapshot_seq_no + stake_bumps(growth, profit) <= u128::MAX
    &&& (growth > 0 ==> h.net_growth_delegation + growth <= u128::MAX && latest_of(
        h,
        owner,
        DelegationType::Growth,
    ) + growth <= u128::MAX)
    &&& (profit > 0 ==> h.net_profit_delegation + profit <= u128::MAX && latest_of(
        h,
        owner,
        DelegationType::Profit,
    ) + profit <= u128::MAX)
    &&& (growth > 0 && latest_of(h, owner, DelegationType::Growth) == 0
        ==> h.growth_delegator_count + 1 <= u32::MAX)
    &&& (profit > 0 && latest_of(h, owner, DelegationType::Profit) == 0
        ==> h.profit_delegator_count + 1 <= u32::MAX)
}

/// The engine state after a successful stake.
pub open spec fn stake_post(
    h: HouseView,
    owner: Seq<char>,
    created_at: u64,
    growth: u128,
    profit: u128,
) -> HouseView {
    let a0 = stake_acct_base(h, owner, created_at);
    let a1 = stake_acct_post(a0, h.snapshots_index, growth, profit);
    let accounts = if h.has_account(owner) {
        h.accounts.update(h.account_idx(owner), a1)
    } else {
        h.accounts.push(a1)
    };
    let memo_queue = if h.has_account(owner) {
        h.memo_queue
    } else {
        h.memo_queue.push(owner)
    };
    HouseView {
        net_growth_delegation: (h.net_growth_delegation + growth) as u128,
        net_profit_delegation: (h.net_profit_delegation + profit) as u128,
        net_liquidity: (h.net_liquidity + growth) as u128,
        snapshot_seq_no: (h.snapshot_seq_no + stake_bumps(growth, profit)) as u128,
        growth_delegator_count: (h.growth_delegator_count + (if growth > 0
            && a0.growth_delegations.len() == 0 {
            1int
        } else {
            0
        })) as u32,
        profit_delegator_count: (h.profit_delegator_count + (if profit > 0
            && a0.profit_delegations.len() == 0 {
            1int
        } else {
            0
        })) as u32,
        accounts,
        memo_queue,
        ..h
    }
}

impl House {
    /// Register a client or change its liquidity fraction.  `authorized`
    /// is the authority oracle's verdict on the caller for this action.
    ///
    /// Fails with `NotAuthorized` when the oracle said no, and with
    /// `InsufficientLiquidity` when the new fraction would push the
    /// allocated total above 100 % (1000 thousandths).
    pub fn set_client(
        &mut self,
        authorized: bool,
        address: &String,
        pct_liquidity: u32,
        created_at: u64,
    ) -> (r: Result<(), ContractError>)
        requires
            old(self)@.wf(),
        ensures
            final(self)@.wf(),
            match r {
                Ok(_) => {
                    &&& authorized
                    &&& set_client_new_total(old(self)@, address@, pct_liquidity) <= 1000
                    &&& final(self)@ == set_client_post(
                        old(self)@,
                        address@,
                        pct_liquidity,
                        created_at,
                    )
                },
                Err(e) => {
                    &&& *final(self) == *old(self)
                    &&& (e == ContractError::NotAuthorized <==> !authorized)
                    &&& (e == ContractError::InsufficientLiquidity <==> authorized
                        && set_client_new_total(old(self)@, address@, pct_liquidity) > 1000)
                    &&& (e == ContractError::NotAuthorized || e
                        == ContractError::InsufficientLiquidity)
                },
            },
    {
        if !authorized {
            return Err(ContractError::NotAuthorized);
        }
        let ghost h0 = self@;
        let ghost pcts = (|c: ClientAccountView| c.pct_liquidity as int);
        match self.find_client(address) {
            Some(k) => {
                proof {
                    lemma_client_idx(h0, address@, k as int);
                    assert(forall|i: int|
                        0 <= i < h0.clients.len() ==> pcts(#[trigger] h0.clients[i]) >= 0);
                    lemma_sum_by_le(h0.clients, k as int, pcts);
                }
                let prev_pct = self.clients[k].pct_liquidity;
                let base = self.net_pct_allocated - prev_pct;
                let total64: u64 = base as u64 + pct_liquidity as u64;
                if total64 > 1000 {
                    return Err(ContractError::InsufficientLiquidity);
                }
                let c_created = self.clients[k].created_at;
                let c_spent = self.clients[k].amount_spent;
                let c_received = self.clients[k].amount_received;
                self.clients.set(
                    k,
                    ClientAccount {
                        owner: address.clone(),
                        pct_liquidity,
                        created_at: c_created,
                        amount_spent: c_spent,
                        amount_received: c_received,
                    },
                );
                self.net_pct_allocated = total64 as u32;
                proof {
                    let h1 = self@;
                    assert(h1.clients =~= h0.clients.update(
                        k as int,
                        ClientAccountView { pct_liquidity, ..h0.client(address@) },
                    ));
                    assert(h1 =~~= set_client_post(h0, address@, pct_liquidity, created_at));
                    lemma_sum_by_update(
                        h0.clients,
                        k as int,
                        ClientAccountView { pct_liquidity, ..h0.client(address@) },
                        pcts,
                    );
                    assert forall|i: int, j: int|
                        0 <= i < j < h1.clients.len() implies (#[trigger] h1.clients[i]).owner != (
                    #[trigger] h1.clients[j]).owner by {
                        assert(h0.clients[i].owner != h0.clients[j].owner);
                    }
                    assert forall|i: int|
                        0 <= i < h1.clients.len() implies (#[trigger] h1.clients[i]).pct_liquidity
                        <= 1000 by {
                        assert(h0.clients[i].pct_liquidity <= 1000);
                    }
                }
                Ok(())
            },
            None => {
                let total64: u64 = self.net_pct_allocated as u64 + pct_liquidity as u64;
                if total64 > 1000 {
                    return Err(ContractError::InsufficientLiquidity);
                }
                self.clients.push(
                    ClientAccount {
                        owner: address.clone(),
                        pct_liquidity,
                        created_at,
                        amount_spent: 0,
                        amount_received: 0,
                    },
                );
                self.net_pct_allocated = total64 as u32;
                proof {
                    let h1 = self@;
                    let c = ClientAccountView {
                        owner: address@,
                        pct_liquidity,
                        created_at,
                        amount_spent: 0,
                        amount_received: 0,
                    };
                    assert(h1.clients =~= h0.clients.push(c));
                    assert(h1 =~~= set_client_post(h0, address@, pct_liquidity, created_at));
                    assert(h1.clients.drop_last() =~= h0.clients);
                    assert forall|i: int, j: int|
                        0 <= i < j < h1.clients.len() implies (#[trigger] h1.clients[i]).owner != (
                    #[trigger] h1.clients[j]).owner by {
                        if j < h0.clients.len() {
                            assert(h0.clients[i].owner != h0.clients[j].owner);
                        } else {
                            assert(h1.clients[i] == h0.clients[i]);
                        }
                    }
                    assert forall|i: int|
                        0 <= i < h1.clients.len() implies (#[trigger] h1.clients[i]).pct_liquidity
                        <= 1000 by {
                        if i < h0.clients.len() {
                            assert(h0.clients[i].pct_liquidity <= 1000);
                        }
                    }
                }
                Ok(())
            },
        }
    }

    /// Stake `growth` and `profit` more into the two pools.  Creates the
    /// caller's account on first contact, writes or tops up one
    /// checkpoint per pool, raises the pool totals, adds the growth stake
    /// to the spendable liquidity, and bumps the epoch once per staked
    /// pool.  Returns the caller's new total stake in each pool.
    ///
    /// Rejects a zero total with `MissingAmount`; token funding is
    /// arranged by the caller.
    pub fn stake(&mut self, owner: &String, created_at: u64, growth: u128, profit: u128) -> (r:
        Result<(u128, u128), ContractError>)
        requires
            old(self)@.wf(),
        ensures
            final(self)@.wf(),
            match r {
                Ok(out) => {
                    &&& growth + profit > 0
                    &&& stake_ok(old(self)@, owner@, growth, profit)
                    &&& out.0 == latest_of(old(self)@, owner@, DelegationType::Growth) + growth
                    &&& out.1 == latest_of(old(self)@, owner@, DelegationType::Profit) + profit
                    &&& final(self)@ == stake_post(old(self)@, owner@, created_at, growth, profit)
                },
                Err(e) => {
                    &&& *final(self) == *old(self)
                    &&& (e == ContractError::MissingAmount <==> growth == 0 && profit == 0)
                    &&& (e == ContractError::Overflow <==> growth + profit > 0 && !stake_ok(
                        old(self)@,
                        owner@,
                        growth,
                        profit,
                    ))
                    &&& (e == ContractError::MissingAmount || e == ContractError::Overflow)
                },
            },
    {
        let ghost h0 = self@;
        if growth == 0 && profit == 0 {
            return Err(ContractError::MissingAmount);
        }
        let new_liquidity = match self.net_liquidity.checked_add(growth) {
            Some(v) => v,
            None => {
                return Err(ContractError::Overflow);
            },
        };
        let bumps: u128 = if growth > 0 && profit > 0 {
            2
        } else {
            1
        };
        proof {
            assert(bumps as int == stake_bumps(growth, profit));
        }
        let new_seq = match self.snapshot_seq_no.checked_add(bumps) {
            Some(v) => v,
            None => {
                return Err(ContractError::Overflow);
            },
        };
        let new_net_g = if growth > 0 {
            match self.net_growth_delegation.checked_add(growth) {
                Some(v) => v,
                None => {
                    return Err(ContractError::Overflow);
                },
            }
        } else {
            self.net_growth_delegation
        };
        let new_net_p = if profit > 0 {
            match self.net_profit_delegation.checked_add(profit) {
                Some(v) => v,
                None => {
                    return Err(ContractError::Overflow);
                },
            }
        } else {
            self.net_profit_delegation
        };
        let found = self.find_account(owner);
        let acc_exists = match found {
            Some(_) => true,
            None => false,
        };
        let k: usize = match found {
            Some(k) => k,
            None => 0,
        };
        proof {
            if acc_exists {
                lemma_account_idx(h0, owner@, k as int);
            }
        }
        let (g_latest, p_latest) = if acc_exists {
            self.accounts[k].get_delegation_amounts()
        } else {
            (0u128, 0u128)
        };
        proof {
            assert(g_latest as int == latest_of(h0, owner@, DelegationType::Growth));
            assert(p_latest as int == latest_of(h0, owner@, DelegationType::Profit));
        }
        if growth > 0 {
            match g_latest.checked_add(growth) {
                Some(_) => {},
                None => {
                    return Err(ContractError::Overflow);
                },
            };
        }
        if profit > 0 {
            match p_latest.checked_add(profit) {
                Some(_) => {},
                None => {
                    return Err(ContractError::Overflow);
                },
            };
        }
        let g_first = growth > 0 && (if acc_exists {
            !self.accounts[k].has_delegation(DelegationType::Growth)
        } else {
            true
        });
        let p_first = profit > 0 && (if acc_exists {
            !self.accounts[k].has_delegation(DelegationType::Profit)
        } else {
            true
        });
        proof {
            if acc_exists && h0.account(owner@).growth_delegations.len() > 0 {
                let d = h0.account(owner@).growth_delegations;
                assert(d[d.len() - 1].amount >= 1);
            }
            if acc_exists && h0.account(owner@).profit_delegations.len() > 0 {
                let d = h0.account(owner@).profit_delegations;
                assert(d[d.len() - 1].amount >= 1);
            }
        }
        let new_g_count = if g_first {
            match self.growth_delegator_count.checked_add(1) {
                Some(v) => v,
                None => {
                    return Err(ContractError::Overflow);
                },
            }
        } else {
            self.growth_delegator_count
        };
        let new_p_count = if p_first {
            match self.profit_delegator_count.checked_add(1) {
                Some(v) => v,
                None => {
                    return Err(ContractError::Overflow);
                },
            }
        } else {
            self.profit_delegator_count
        };
        // every side condition holds; commit
        proof {
            assert(stake_ok(h0, owner@, growth, profit));
        }
        let mut acc = if acc_exists {
            self.accounts.remove(k)
        } else {
            DelegationAccount::new(owner, created_at)
        };
        proof {
            assert(acc@ =~~= stake_acct_base(h0, owner@, created_at));
        }
        let ghost a0 = acc@;
        let mut out_g = g_latest;
        let mut out_p = p_latest;
        if growth > 0 {
            match acc.delegate(DelegationType::Growth, growth, self.snapshots_index) {
                Ok(out) => {
                    out_g = out.0;
                },
                Err(_) => {
                    proof {
                        assert(false);
                    }
                    return Err(ContractError::Overflow);
                },
            }
        }
        if profit > 0 {
            match acc.delegate(DelegationType::Profit, profit, self.snapshots_index) {
                Ok(out) => {
                    out_p = out.0;
                },
                Err(_) => {
                    proof {
                        assert(false);
                    }
                    return Err(ContractError::Overflow);
                },
            }
        }
        let ghost a1 = acc@;
        proof {
            assert(a1 =~~= stake_acct_post(a0, h0.snapshots_index, growth, profit));
        }
        if acc_exists {
            self.accounts.insert(k, acc);
        } else {
            self.accounts.push(acc);
            self.memo_queue.push(owner.clone());
        }
        self.net_growth_delegation = new_net_g;
        self.net_profit_delegation = new_net_p;
        self.net_liquidity = new_liquidity;
        self.snapshot_seq_no = new_seq;
        self.growth_delegator_count = new_g_count;
        self.profit_delegator_count = new_p_count;
        proof {
            let h1 = self@;
            if acc_exists {
                assert(h1.accounts =~= h0.accounts.update(k as int, a1));
                assert(h1.memo_queue =~= h0.memo_queue);
            } else {
                assert(h1.accounts =~= h0.accounts.push(a1));
                assert(h1.memo_queue =~= h0.memo_queue.push(owner@));
            }
            assert(h1 =~~= stake_post(h0, owner@, created_at, growth, profit));
            lemma_stake_post_wf(h0, owner@, created_at, growth, profit);
        }
        Ok((out_g, out_p))
    }
}

impl DelegationAccount {
    /// Destructive claim of one pool against the snapshot log.  For the
    /// Growth pool the pair is (gain, loss); for Profit the loss is 0.
    pub fn claim(
        &mut self,
        snaps: &mut Vec<SnapshotEntry>,
        next_index: u128,
        target: DelegationType,
        is_amortizing: bool,
    ) -> (r: Result<(u128, u128), ContractError>)
        requires
            crate::claim::snaps_wf(old(snaps)@, next_index as int),
            delegs_wf(old(self)@.delegations(target), next_index as int),
        ensures
            match r {
                Ok(out) => {
                    &&& crate::claim::claim_ok(
                        old(snaps)@,
                        old(self)@.delegations(target),
                        next_index + 1,
                        is_amortizing,
                        target == DelegationType::Growth,
                    )
                    &&& out.0 as int == crate::claim::claim_gain(
                        old(snaps)@,
                        old(self)@.delegations(target),
                        next_index + 1,
                        is_amortizing,
                    )
                    &&& out.1 as int == (if target == DelegationType::Growth {
                        crate::claim::claim_loss(
                            old(snaps)@,
                            old(self)@.delegations(target),
                            next_index + 1,
                            is_amortizing,
                        )
                    } else {
                        0
                    })
                    &&& final(snaps)@ == crate::claim::claim_snaps(
                        old(snaps)@,
                        old(self)@.delegations(target),
                        next_index + 1,
                        is_amortizing,
                    )
                    &&& final(self)@ == acct_with_delegs(
                        old(self)@,
                        target,
                        crate::claim::claim_delegs(
                            old(self)@.delegations(target),
                            next_index,
                            is_amortizing,
                        ),
                    )
                    &&& crate::claim::snaps_wf(final(snaps)@, next_index as int)
                    &&& crate::claim::all_consumed_from(final(snaps)@, old(snaps)@)
                },
                Err(e) => {
                    &&& e == ContractError::Overflow
                    &&& !crate::claim::claim_ok(
                        old(snaps)@,
                        old(self)@.delegations(target),
                        next_index + 1,
                        is_amortizing,
                        target == DelegationType::Growth,
                    )
                    &&& *final(snaps) == *old(snaps)
                    &&& *final(self) == *old(self)
                },
            },
    {
        let r = match target {
            DelegationType::Growth => claim_pool(
                snaps,
                &mut self.growth_delegations,
                next_index,
                true,
                is_amortizing,
            ),
            DelegationType::Profit => claim_pool(
                snaps,
                &mut self.profit_delegations,
                next_index,
                false,
                is_amortizing,
            ),
        };
        r
    }

    /// Read-only mirror of [`DelegationAccount::claim`]: the same
    /// amounts, with nothing consumed.
    pub fn claim_readonly(
        &self,
        snaps: &Vec<SnapshotEntry>,
        next_index: u128,
        target: DelegationType,
    ) -> (r: Result<(u128, u128), ContractError>)
        requires
            crate::claim::snaps_wf(snaps@, next_index as int),
            delegs_wf(self@.delegations(target), next_index as int),
        ensures
            match r {
                Ok(out) => {
                    &&& crate::claim::claim_ok(
                        snaps@,
                        self@.delegations(target),
                        next_index + 1,
                        false,
                        target == DelegationType::Growth,
                    )
                    &&& out.0 as int == crate::claim::claim_gain(
                        snaps@,
                        self@.delegations(target),
                        next_index + 1,
                        false,
                    )
                    &&& out.1 as int == (if target == DelegationType::Growth {
                        crate::claim::claim_loss(
                            snaps@,
                            self@.delegations(target),
                            next_index + 1,
                            false,
                        )
                    } else {
                        0
                    })
                },
                Err(e) => {
                    &&& e == ContractError::Overflow
                    &&& !crate::claim::claim_ok(
                        snaps@,
                        self@.delegations(target),
                        next_index + 1,
                        false,
                        target == DelegationType::Growth,
                    )
                },
            },
    {
        let mut s2 = copy_vec(snaps);
        let mut d2 = match target {
            DelegationType::Growth => copy_vec(&self.growth_delegations),
            DelegationType::Profit => copy_vec(&self.profit_delegations),
        };
        let is_growth = match target {
            DelegationType::Growth => true,
            DelegationType::Profit => false,
        };
        claim_pool(&mut s2, &mut d2, next_index, is_growth, false)
    }
}

/// The snapshot log after the amortizer's Growth-pool pass of one
/// account.
pub open spec fn memoize_snaps_mid(
    snaps: Seq<SnapshotEntry>,
    a: DelegationAccountView,
    hf: int,
) -> Seq<SnapshotEntry> {
    crate::claim::claim_snaps(snaps, a.growth_delegations, hf, true)
}

/// The side conditions under which one amortizer pass over an account is
/// computable.
pub open spec fn memoize_ok(snaps: Seq<SnapshotEntry>, a: DelegationAccountView, hf: int) -> bool {
    let mid = memoize_snaps_mid(snaps, a, hf);
    &&& crate::claim::claim_ok(snaps, a.growth_delegations, hf, true, true)
    &&& crate::claim::claim_ok(mid, a.profit_delegations, hf, true, false)
    &&& a.memoized_growth + crate::claim::claim_gain(snaps, a.growth_delegations, hf, true)
        <= u128::MAX
    &&& a.memoized_loss + crate::claim::claim_loss(snaps, a.growth_delegations, hf, true)
        <= u128::MAX
    &&& a.memoized_profit + crate::claim::claim_gain(mid, a.profit_delegations, hf, true)
        <= u128::MAX
}

/// The account after one amortizer pass: partial claims memoized, both
/// checkpoint lists collapsed to their open record.
pub open spec fn memoize_acct_post(
    snaps: Seq<SnapshotEntry>,
    a: DelegationAccountView,
    next_index: u128,
) -> DelegationAccountView {
    let hf = next_index + 1;
    let mid = memoize_snaps_mid(snaps, a, hf);
    DelegationAccountView {
        memoized_growth: (a.memoized_growth + crate::claim::claim_gain(
            snaps,
            a.growth_delegations,
            hf,
            true,
        )) as u128,
        memoized_loss: (a.memoized_loss + crate::claim::claim_loss(
            snaps,
            a.growth_delegations,
            hf,
            true,
        )) as u128,
        memoized_profit: (a.memoized_profit + crate::claim::claim_gain(
            mid,
            a.profit_delegations,
            hf,
            true,
        )) as u128,
        growth_delegations: crate::claim::claim_delegs(a.growth_delegations, next_index, true),
        profit_delegations: crate::claim::claim_delegs(a.profit_delegations, next_index, true),
        ..a
    }
}

/// The snapshot log after one full amortizer pass over an account.
pub open spec fn memoize_snaps_post(
    snaps: Seq<SnapshotEntry>,
    a: DelegationAccountView,
    hf: int,
) -> Seq<SnapshotEntry> {
    crate::claim::claim_snaps(memoize_snaps_mid(snaps, a, hf), a.profit_delegations, hf, true)
}

impl DelegationAccount {
    /// One amortizer pass: claim both pools in amortizing mode and fold
    /// the amounts into the memoized fields.
    pub fn memoize_claim_amounts(&mut self, snaps: &mut Vec<SnapshotEntry>, next_index: u128) -> (r:
        Result<(), ContractError>)
        requires
            crate::claim::snaps_wf(old(snaps)@, next_index as int),
            delegs_wf(old(self)@.growth_delegations, next_index as int),
            delegs_wf(old(self)@.profit_delegations, next_index as int),
        ensures
            match r {
                Ok(_) => {
                    &&& memoize_ok(old(snaps)@, old(self)@, next_index + 1)
                    &&& final(self)@ == memoize_acct_post(old(snaps)@, old(self)@, next_index)
                    &&& final(snaps)@ == memoize_snaps_post(
                        old(snaps)@,
                        old(self)@,
                        next_index + 1,
                    )
                    &&& crate::claim::snaps_wf(final(snaps)@, next_index as int)
                    &&& crate::claim::all_consumed_from(final(snaps)@, old(snaps)@)
                },
                Err(e) => {
                    &&& e == ContractError::Overflow
                    &&& !memoize_ok(old(snaps)@, old(self)@, next_index + 1)
                    &&& *final(snaps) == *old(snaps)
                    &&& *final(self) == *old(self)
                },
            },
    {
        let ghost s0 = snaps@;
        let ghost a0 = self@;
        let mut s2 = copy_vec(snaps);
        let mut gd2 = copy_vec(&self.growth_delegations);
        let mut pd2 = copy_vec(&self.profit_delegations);
        let growth_out = match claim_pool(&mut s2, &mut gd2, next_index, true, true) {
            Ok(v) => v,
            Err(e) => {
                return Err(e);
            },
        };
        let profit_out = match claim_pool(&mut s2, &mut pd2, next_index, false, true) {
            Ok(v) => v,
            Err(e) => {
                return Err(e);
            },
        };
        let mg = match self.memoized_growth.checked_add(growth_out.0) {
            Some(v) => v,
            None => {
                return Err(ContractError::Overflow);
            },
        };
        let ml = match self.memoized_loss.checked_add(growth_out.1) {
            Some(v) => v,
            None => {
                return Err(ContractError::Overflow);
            },
        };
        let mp = match self.memoized_profit.checked_add(profit_out.0) {
            Some(v) => v,
            None => {
                return Err(ContractError::Overflow);
            },
        };
        self.memoized_growth = mg;
        self.memoized_loss = ml;
        self.memoized_profit = mp;
        self.growth_delegations = gd2;
        self.profit_delegations = pd2;
        proof {
            crate::claim::lemma_all_consumed_trans(s2@, memoize_snaps_mid(s0, a0, next_index + 1), s0);
        }
        *snaps = s2;
        proof {
            assert(self@ =~~= memoize_acct_post(s0, a0, next_index));
        }
        Ok(())
    }
}

/// What the amortizer may change: nothing among the ledger totals,
/// counters, epoch, frontier and clients; accounts keep their owner,
/// creation time, latest checkpoint amounts and pool membership; every
/// surviving snapshot descends from one already stored.
pub open spec fn amortize_frame(h0: HouseView, h1: HouseView) -> bool {
    &&& h1.net_growth_delegation == h0.net_growth_delegation
    &&& h1.net_profit_delegation == h0.net_profit_delegation
    &&& h1.net_liquidity == h0.net_liquidity
    &&& h1.net_profit == h0.net_profit
    &&& h1.net_pct_allocated == h0.net_pct_allocated
    &&& h1.growth_delegator_count == h0.growth_delegator_count
    &&& h1.profit_delegator_count == h0.profit_delegator_count
    &&& h1.snapshots_index == h0.snapshots_index
    &&& h1.snapshot_seq_no == h0.snapshot_seq_no
    &&& h1.clients == h0.clients
    &&& h1.accounts.len() == h0.accounts.len()
    &&& forall|i: int|
        0 <= i < h1.accounts.len() ==> {
            &&& (#[trigger] h1.accounts[i]).owner == h0.accounts[i].owner
            &&& h1.accounts[i].created_at == h0.accounts[i].created_at
            &&& h1.accounts[i].latest_amount(DelegationType::Growth) == h0.accounts[
                i
            ].latest_amount(DelegationType::Growth)
            &&& h1.accounts[i].latest_amount(DelegationType::Profit) == h0.accounts[
                i
            ].latest_amount(DelegationType::Profit)
            &&& (h1.accounts[i].growth_delegations.len() > 0) == (h0.accounts[
                i
            ].growth_delegations.len() > 0)
            &&& (h1.accounts[i].profit_delegations.len() > 0) == (h0.accounts[
                i
            ].profit_delegations.len() > 0)
        }
    &&& crate::claim::all_consumed_from(h1.snapshots, h0.snapshots)
}

/// An updated account that keeps its owner, latest amounts and pool
/// membership keeps the whole state well-formed.
proof fn lemma_account_update_wf(h0: HouseView, a1: DelegationAccountView, k: int, h1: HouseView)
    requires
        h0.wf(),
        0 <= k < h0.accounts.len(),
        a1.owner == h0.accounts[k].owner,
        a1.latest_amount(DelegationType::Growth) == h0.accounts[k].latest_amount(
            DelegationType::Growth,
        ),
        a1.latest_amount(DelegationType::Profit) == h0.accounts[k].latest_amount(
            DelegationType::Profit,
        ),
        (a1.growth_delegations.len() > 0) == (h0.accounts[k].growth_delegations.len() > 0),
        (a1.profit_delegations.len() > 0) == (h0.accounts[k].profit_delegations.len() > 0),
        delegs_wf(a1.growth_delegations, h0.snapshots_index as int),
        delegs_wf(a1.profit_delegations, h0.snapshots_index as int),
        crate::claim::snaps_wf(h1.snapshots, h0.snapshots_index as int),
        h1 == (HouseView { snapshots: h1.snapshots, accounts: h0.accounts.update(k, a1), ..h0 }),
    ensures
        h1.wf(),
{
    let n = h0.snapshots_index as int;
    let growth_latest = (|a: DelegationAccountView| a.latest_amount(DelegationType::Growth));
    let profit_latest = (|a: DelegationAccountView| a.latest_amount(DelegationType::Profit));
    let growth_has = (|a: DelegationAccountView|
        if a.delegations(DelegationType::Growth).len() > 0 {
            1int
        } else {
            0int
        });
    let profit_has = (|a: DelegationAccountView|
        if a.delegations(DelegationType::Profit).len() > 0 {
            1int
        } else {
            0int
        });
    lemma_sum_by_update(h0.accounts, k, a1, growth_latest);
    lemma_sum_by_update(h0.accounts, k, a1, profit_latest);
    lemma_sum_by_update(h0.accounts, k, a1, growth_has);
    lemma_sum_by_update(h0.accounts, k, a1, profit_has);
    assert forall|i: int, j: int|
        0 <= i < j < h1.accounts.len() implies (#[trigger] h1.accounts[i]).owner != (
    #[trigger] h1.accounts[j]).owner by {
        assert(h0.accounts[i].owner != h0.accounts[j].owner);
    }
    assert forall|i: int|
        0 <= i < h1.accounts.len() implies delegs_wf(
        (#[trigger] h1.accounts[i]).growth_delegations,
        n,
    ) && delegs_wf((#[trigger] h1.accounts[i]).profit_delegations, n) by {
        if i != k {
            assert(h1.accounts[i] == h0.accounts[i]);
            assert(delegs_wf(h0.accounts[i].growth_delegations, n));
            assert(delegs_wf(h0.accounts[i].profit_delegations, n));
        }
    }
}

/// One attempt of the amortizer's retry loop: hand back the state, the
/// owners already visited in this call, and whether the whole call stops.
/// An empty queue or exhausted retries leave the state alone and let the
/// caller move on; a front owner already visited in this call stops the
/// call (the queue is fully covered); a front owner without an account is
/// dropped and the attempt retried; a front owner with an account gets
/// one amortizer pass — or none, when the pass is not computable — and
/// rotates to the back of the queue.
pub open spec fn amortize_inner(h: HouseView, visited: Seq<Seq<char>>, retries: nat) -> (
    HouseView,
    Seq<Seq<char>>,
    bool,
)
    decreases retries,
{
    if retries == 0 || h.memo_queue.len() == 0 {
        (h, visited, false)
    } else {
        let owner = h.memo_queue[0];
        if visited.contains(owner) {
            (h, visited, true)
        } else if !h.has_account(owner) {
            amortize_inner(
                HouseView { memo_queue: h.memo_queue.drop_first(), ..h },
                visited,
                (retries - 1) as nat,
            )
        } else {
            let k = h.account_idx(owner);
            let a = h.accounts[k];
            let rotated = h.memo_queue.drop_first().push(owner);
            let processed = if memoize_ok(h.snapshots, a, h.snapshots_index + 1) {
                HouseView {
                    snapshots: memoize_snaps_post(h.snapshots, a, h.snapshots_index + 1),
                    accounts: h.accounts.update(
                        k,
                        memoize_acct_post(h.snapshots, a, h.snapshots_index),
                    ),
                    memo_queue: rotated,
                    ..h
                }
            } else {
                HouseView { memo_queue: rotated, ..h }
            };
            (processed, visited.push(owner), false)
        }
    }
}

/// The amortizer's full run: up to `count` advanced accounts, 5 retries
/// each, stopping early on a revisited owner.
pub open spec fn amortize_go(h: HouseView, visited: Seq<Seq<char>>, count: nat) -> HouseView
    decreases count,
{
    if count == 0 {
        h
    } else {
        let attempt = amortize_inner(h, visited, 5);
        if attempt.2 {
            attempt.0
        } else {
            amortize_go(attempt.0, attempt.1, (count - 1) as nat)
        }
    }
}

/// The engine state after one amortizer call of `count` steps.
pub open spec fn amortize_model(h: HouseView, count: u32) -> HouseView {
    amortize_go(h, Seq::empty(), count as nat)
}

impl House {
    /// Advance up to `count` accounts of the round-robin memoization
    /// queue, with up to 5 no-op retries per step.  Each advanced account
    /// gets one amortizer pass and rotates to the back of the queue; a
    /// popped owner without an account is dropped; a revisited owner
    /// stops the call.  An account whose pass is not computable is left
    /// untouched and revisited later, so the settlement surfaces at its
    /// own claim instead.
    pub fn amortize(&mut self, count: u32)
        requires
            old(self)@.wf(),
        ensures
            final(self)@.wf(),
            final(self)@ == amortize_model(old(self)@, count),
            amortize_frame(old(self)@, final(self)@),
    {
        let ghost h0 = self@;
        proof {
            assert forall|j: int| 0 <= j < h0.snapshots.len() implies crate::claim::descends(
                #[trigger] h0.snapshots[j],
                h0.snapshots,
            ) by {
                assert(crate::claim::consumed_from(h0.snapshots[j], h0.snapshots[j]));
            }
        }
        let mut visited: Vec<String> = Vec::new();
        let ghost mut vmodel: Seq<Seq<char>> = Seq::empty();
        let mut step: u32 = 0;
        while step < count
            invariant
                h0 == old(self)@,
                step <= count,
                self@.wf(),
                amortize_frame(h0, self@),
                vmodel.len() == visited@.len(),
                forall|i: int| 0 <= i < vmodel.len() ==> vmodel[i] == (#[trigger] visited@[i])@,
                amortize_model(h0, count) == amortize_go(self@, vmodel, (count - step) as nat),
            decreases count - step,
        {
            let mut retry: u32 = 0;
            let mut done = false;
            while retry < 5 && !done
                invariant
                    h0 == old(self)@,
                    step < count,
                    retry <= 5,
                    self@.wf(),
                    amortize_frame(h0, self@),
                    vmodel.len() == visited@.len(),
                    forall|i: int| 0 <= i < vmodel.len() ==> vmodel[i] == (#[trigger] visited@[i])@,
                    amortize_model(h0, count) == (if done {
                        amortize_go(self@, vmodel, (count - step - 1) as nat)
                    } else {
                        let attempt = amortize_inner(self@, vmodel, (5 - retry) as nat);
                        if attempt.2 {
                            attempt.0
                        } else {
                            amortize_go(attempt.0, attempt.1, (count - step - 1) as nat)
                        }
                    }),
                decreases 5 - retry,
            {
                if self.memo_queue.len() == 0 {
                    proof {
                        assert(amortize_inner(self@, vmodel, (5 - retry) as nat) == (
                        self@,
                        vmodel,
                        false,
                        ));
                    }
                    done = true;
                } else {
                    let ghost hprev = self@;
                    let ghost retries: nat = (5 - retry) as nat;
                    let owner = self.memo_queue.remove(0);
                    proof {
                        assert(owner@ == hprev.memo_queue[0]);
                        assert(self@.accounts =~= hprev.accounts);
                        assert(self@.clients =~= hprev.clients);
                        assert(self@ =~~= (HouseView {
                            memo_queue: hprev.memo_queue.drop_first(),
                            ..hprev
                        }));
                        assert(amortize_frame(h0, self@));
                    }
                    let revisited = contains_owner(&visited, &owner);
                    proof {
                        if revisited {
                            let i = choose|i: int|
                                0 <= i < visited@.len() && (#[trigger] visited@[i])@ == owner@;
                            assert(vmodel[i] == owner@);
                            assert(vmodel.contains(owner@));
                        } else {
                            assert forall|i: int| 0 <= i < vmodel.len() implies #[trigger] vmodel[i]
                                != owner@ by {
                                assert(visited@[i]@ != owner@);
                            }
                            assert(!vmodel.contains(owner@));
                        }
                    }
                    if revisited {
                        let ghost hmid = self@;
                        self.memo_queue.insert(0, owner);
                        proof {
                            assert(self@.accounts =~= hmid.accounts);
                            assert(self@.clients =~= hmid.clients);
                            assert(self@ =~~= hprev);
                            assert(amortize_inner(hprev, vmodel, retries) == (
                            hprev,
                            vmodel,
                            true,
                            ));
                            assert(amortize_frame(h0, self@));
                        }
                        return ;
                    }
                    match self.find_account(&owner) {
                        None => {
                            proof {
                                assert(forall|i: int|
                                    0 <= i < hprev.accounts.len() ==> (
                                    #[trigger] hprev.accounts[i]).owner != owner@);
                                assert(!hprev.has_account(owner@));
                                assert(amortize_inner(hprev, vmodel, retries) == amortize_inner(
                                    self@,
                                    vmodel,
                                    (retries - 1) as nat,
                                ));
                            }
                        },
                        Some(k) => {
                            let ghost hmid = self@;
                            let ghost oview = owner@;
                            proof {
                                lemma_account_idx(hprev, oview, k as int);
                            }
                            let mut acc = self.accounts.remove(k);
                            let ghost aprev = acc@;
                            let res = acc.memoize_claim_amounts(
                                &mut self.snapshots,
                                self.snapshots_index,
                            );
                            self.accounts.insert(k, acc);
                            self.memo_queue.push(owner.clone());
                            visited.push(owner);
                            proof {
                                let h1 = self@;
                                let a1 = acc@;
                                let ak = hmid.accounts[k as int];
                                assert(aprev == hprev.accounts[k as int]);
                                assert(h1.accounts =~= hmid.accounts.update(k as int, a1));
                                assert(h1.clients =~= hmid.clients);
                                assert(h1.memo_queue =~= hprev.memo_queue.drop_first().push(
                                    oview,
                                ));
                                assert(a1.latest_amount(DelegationType::Growth) == ak.latest_amount(
                                    DelegationType::Growth,
                                ));
                                assert(a1.latest_amount(DelegationType::Profit) == ak.latest_amount(
                                    DelegationType::Profit,
                                ));
                                assert((a1.growth_delegations.len() > 0) == (
                                ak.growth_delegations.len() > 0));
                                assert((a1.profit_delegations.len() > 0) == (
                                ak.profit_delegations.len() > 0));
                                let base = HouseView { memo_queue: h1.memo_queue, ..hmid };
                                assert(base.wf());
                                assert(h1 =~~= (HouseView {
                                    snapshots: h1.snapshots,
                                    accounts: hmid.accounts.update(k as int, a1),
                                    ..base
                                }));
                                lemma_account_update_wf(base, a1, k as int, h1);
                                if res is Ok {
                                    crate::claim::lemma_all_consumed_trans(
                                        h1.snapshots,
                                        hmid.snapshots,
                                        h0.snapshots,
                                    );
                                }
                                assert forall|i: int|
                                    0 <= i < h1.accounts.len() implies {
                                    &&& (#[trigger] h1.accounts[i]).owner == h0.accounts[i].owner
                                    &&& h1.accounts[i].created_at == h0.accounts[i].created_at
                                    &&& h1.accounts[i].latest_amount(DelegationType::Growth)
                                        == h0.accounts[i].latest_amount(DelegationType::Growth)
                                    &&& h1.accounts[i].latest_amount(DelegationType::Profit)
                                        == h0.accounts[i].latest_amount(DelegationType::Profit)
                                    &&& (h1.accounts[i].growth_delegations.len() > 0) == (
                                    h0.accounts[i].growth_delegations.len() > 0)
                                    &&& (h1.accounts[i].profit_delegations.len() > 0) == (
                                    h0.accounts[i].profit_delegations.len() > 0)
                                } by {
                                    assert(hmid.accounts[i].owner == h0.accounts[i].owner);
                                    assert(hmid.accounts[i].created_at == h0.accounts[
                                        i
                                    ].created_at);
                                    if i != k {
                                        assert(h1.accounts[i] == hmid.accounts[i]);
                                    }
                                }
                                assert(amortize_frame(h0, h1));
                                // the step matches the model's processed branch
                                assert(hprev.account_idx(oview) == k);
                                assert(hprev.account(oview) == aprev);
                                match res {
                                    Result::Ok(_) => {
                                        assert(memoize_ok(
                                            hprev.snapshots,
                                            aprev,
                                            hprev.snapshots_index + 1,
                                        ));
                                        assert(h1 =~~= (HouseView {
                                            snapshots: memoize_snaps_post(
                                                hprev.snapshots,
                                                aprev,
                                                hprev.snapshots_index + 1,
                                            ),
                                            accounts: hprev.accounts.update(
                                                k as int,
                                                memoize_acct_post(
                                                    hprev.snapshots,
                                                    aprev,
                                                    hprev.snapshots_index,
                                                ),
                                            ),
                                            memo_queue: hprev.memo_queue.drop_first().push(oview),
                                            ..hprev
                                        }));
                                    },
                                    Result::Err(_) => {
                                        assert(!memoize_ok(
                                            hprev.snapshots,
                                            aprev,
                                            hprev.snapshots_index + 1,
                                        ));
                                        assert(h1.accounts =~= hprev.accounts);
                                        assert(h1 =~~= (HouseView {
                                            memo_queue: hprev.memo_queue.drop_first().push(oview),
                                            ..hprev
                                        }));
                                    },
                                }
                                assert(amortize_inner(hprev, vmodel, retries) == (
                                h1,
                                vmodel.push(oview),
                                false,
                                ));
                                vmodel = vmodel.push(oview);
                                assert forall|i: int| 0 <= i < vmodel.len() implies vmodel[i] == (
                                #[trigger] visited@[i])@ by {}
                            }
                            done = true;
                        },
                    }
                }
                retry += 1;
            }
            step += 1;
        }
    }
}

/// Whether the owner is among the already visited ones.
fn contains_owner(visited: &Vec<String>, owner: &String) -> (r: bool)
    ensures
        r == exists|i: int| 0 <= i < visited@.len() && (#[trigger] visited@[i])@ == owner@,
{
    let n = visited.len();
    let mut i: usize = 0;
    while i < n
        invariant
            n == visited@.len(),
            i <= n,
            forall|j: int| 0 <= j < i ==> (#[trigger] visited@[j])@ != owner@,
        decreases n - i,
    {
        if visited[i] == *owner {
            proof {
                assert(0 <= i < visited@.len() && (#[trigger] visited@[i as int])@ == owner@);
            }
            return true;
        }
        i += 1;
    }
    false
}

/// Whether the profit-pool claim of `take_profit` is computable.
pub open spec fn take_profit_claim_ok(h: HouseView, owner: Seq<char>) -> bool {
    crate::claim::claim_ok(
        h.snapshots,
        h.account(owner).profit_delegations,
        h.snapshots_index + 1,
        false,
        false,
    )
}

/// The profit-pool claim amount of `take_profit`.
pub open spec fn take_profit_gain(h: HouseView, owner: Seq<char>) -> int {
    crate::claim::claim_gain(
        h.snapshots,
        h.account(owner).profit_delegations,
        h.snapshots_index + 1,
        false,
    )
}

/// The side conditions under which `take_profit` goes through.
pub open spec fn take_profit_ok(h: HouseView, owner: Seq<char>) -> bool {
    h.has_account(owner) ==> {
        &&& h.snapshot_seq_no < u128::MAX
        &&& take_profit_claim_ok(h, owner)
        &&& take_profit_gain(h, owner) + h.account(owner).memoized_profit <= u128::MAX
    }
}

/// The amount paid out of the unclaimed-profit pot, before dust: the
/// claimed plus memoized profit, capped by what the pot holds.
pub open spec fn take_profit_base(h: HouseView, owner: Seq<char>) -> int {
    if h.has_account(owner) {
        let amount = take_profit_gain(h, owner) + h.account(owner).memoized_profit;
        if amount < h.net_profit {
            amount
        } else {
            h.net_profit as int
        }
    } else {
        0
    }
}

/// What `take_profit` transfers to the owner: the base amount, plus the
/// whole remaining pot when the owner's account is the last claimant.
/// A caller without an account is no claimant and receives nothing.
pub open spec fn take_profit_value(h: HouseView, owner: Seq<char>) -> int {
    if !h.has_account(owner) {
        0
    } else {
        let base = take_profit_base(h, owner);
        if h.accounts.len() == 1 {
            base + (h.net_profit - base)
        } else {
            base
        }
    }
}

/// The engine state after a successful `take_profit`; unchanged for a
/// caller without an account.
pub open spec fn take_profit_post(h: HouseView, owner: Seq<char>) -> HouseView {
    if !h.has_account(owner) {
        h
    } else {
        let net1 = (h.net_profit - take_profit_base(h, owner)) as u128;
        let net2: u128 = if h.accounts.len() == 1 {
            0
        } else {
            net1
        };
        let a0 = h.account(owner);
        let a1 = DelegationAccountView {
            memoized_profit: 0,
            profit_delegations: crate::claim::claim_delegs(
                a0.profit_delegations,
                h.snapshots_index,
                false,
            ),
            ..a0
        };
        HouseView {
            net_profit: net2,
            snapshot_seq_no: (h.snapshot_seq_no + 1) as u128,
            snapshots: crate::claim::claim_snaps(
                h.snapshots,
                a0.profit_delegations,
                h.snapshots_index + 1,
                false,
            ),
            accounts: h.accounts.update(h.account_idx(owner), a1),
            ..h
        }
    }
}

impl House {
    /// Claim the caller's profit-pool share, add the amortizer's memoized
    /// profit, pay it out of the unclaimed-profit pot, and bump the
    /// epoch.  When the caller's account is the last one, the pot's
    /// remaining dust goes with it.  A caller without an account is no
    /// claimant: it receives 0 and nothing changes.  Returns the amount
    /// to transfer.
    pub fn take_profit(&mut self, owner: &String) -> (r: Result<u128, ContractError>)
        requires
            old(self)@.wf(),
        ensures
            final(self)@.wf(),
            match r {
                Ok(v) => {
                    &&& take_profit_ok(old(self)@, owner@)
                    &&& v == take_profit_value(old(self)@, owner@)
                    &&& final(self)@ == take_profit_post(old(self)@, owner@)
                },
                Err(e) => {
                    &&& e == ContractError::Overflow
                    &&& !take_profit_ok(old(self)@, owner@)
                    &&& final(self)@ == old(self)@
                },
            },
    {
        let ghost h0 = self@;
        let found = self.find_account(owner);
        match found {
            None => {
                // a caller without an account is no claimant: nothing is
                // owed and nothing changes
                proof {
                    assert(!h0.has_account(owner@));
                    assert(self@ =~~= take_profit_post(h0, owner@));
                }
                Ok(0)
            },
            Some(k) => {
                proof {
                    lemma_account_idx(h0, owner@, k as int);
                }
                if self.snapshot_seq_no == u128::MAX {
                    return Err(ContractError::Overflow);
                }
                let mut snaps2 = copy_vec(&self.snapshots);
                let mut pdelegs = copy_vec(&self.accounts[k].profit_delegations);
                let memo = self.accounts[k].memoized_profit;
                match claim_pool(&mut snaps2, &mut pdelegs, self.snapshots_index, false, false) {
                    Err(e) => {
                        proof {
                            assert(self@ =~~= h0);
                        }
                        Err(e)
                    },
                    Ok(out) => {
                        let gain = out.0;
                        let amount0 = match gain.checked_add(memo) {
                            Some(v) => v,
                            None => {
                                proof {
                                    assert(self@ =~~= h0);
                                }
                                return Err(ContractError::Overflow);
                            },
                        };
                        let mut amount = amount0;
                        if amount > 0 {
                            let pay = if amount < self.net_profit {
                                amount
                            } else {
                                self.net_profit
                            };
                            self.net_profit = self.net_profit - pay;
                            amount = pay;
                        }
                        let mut acc = self.accounts.remove(k);
                        acc.memoized_profit = 0;
                        acc.profit_delegations = pdelegs;
                        self.accounts.insert(k, acc);
                        self.snapshots = snaps2;
                        self.snapshot_seq_no = self.snapshot_seq_no + 1;
                        if self.accounts.len() == 1 {
                            let dust = self.net_profit;
                            self.net_profit = 0;
                            proof {
                                assert(amount + dust <= h0.net_profit);
                            }
                            amount = amount + dust;
                        }
                        proof {
                            let h1 = self@;
                            assert(h1.accounts =~= h0.accounts.update(
                                k as int,
                                take_profit_post(h0, owner@).accounts[k as int],
                            ));
                            assert(h1 =~~= take_profit_post(h0, owner@));
                            lemma_take_profit_post_wf(h0, owner@);
                            assert(amount == take_profit_value(h0, owner@));
                        }
                        Ok(amount)
                    },
                }
            },
        }
    }
}

/// The Growth pool's share of an incoming payment: pro-rata by pool
/// stake, or the whole payment when no stake is active.
pub open spec fn receive_growth_delta(h: HouseView, amount: u128) -> int {
    if h.net_delegation() == 0 {
        amount as int
    } else {
        (amount * h.net_growth_delegation) / h.net_delegation()
    }
}

/// The Profit pool's share of an incoming payment: the remainder.
pub open spec fn receive_profit_delta(h: HouseView, amount: u128) -> int {
    if h.net_delegation() == 0 {
        0
    } else {
        amount - receive_growth_delta(h, amount)
    }
}

/// The arithmetic side conditions under which an incoming payment goes
/// through (for a registered client and a nonzero amount).
pub open spec fn receive_ok(h: HouseView, client: Seq<char>, amount: u128) -> bool {
    &&& h.client(client).amount_received + amount <= u128::MAX
    &&& h.net_delegation() <= u128::MAX
    &&& h.net_liquidity + receive_growth_delta(h, amount) <= u128::MAX
    &&& h.net_profit + receive_profit_delta(h, amount) <= u128::MAX
    &&& upsert_ok(h, amount, 0)
}

/// The engine state after an incoming payment, before amortization.
pub open spec fn receive_core_post(h: HouseView, client: Seq<char>, amount: u128) -> HouseView {
    let c0 = h.client(client);
    HouseView {
        net_liquidity: (h.net_liquidity + receive_growth_delta(h, amount)) as u128,
        net_profit: (h.net_profit + receive_profit_delta(h, amount)) as u128,
        clients: h.clients.update(
            h.client_idx(client),
            ClientAccountView { amount_received: (c0.amount_received + amount) as u128, ..c0 },
        ),
        ..upsert_post(h, amount, 0)
    }
}

/// A client's permitted outgoing amount: its fraction of the spendable
/// liquidity, in thousandths.
pub open spec fn send_ceiling(h: HouseView, client: Seq<char>) -> int {
    (h.net_liquidity * h.client(client).pct_liquidity) / 1000
}

/// The arithmetic side conditions under which an outgoing payment goes
/// through (for a registered client, a nonzero amount within the
/// allowance).
pub open spec fn send_ok(h: HouseView, client: Seq<char>, amount: u128) -> bool {
    &&& h.client(client).amount_spent + amount <= u128::MAX
    &&& upsert_ok(h, 0, amount)
}

/// The engine state after an outgoing payment, before amortization.
pub open spec fn send_core_post(h: HouseView, client: Seq<char>, amount: u128) -> HouseView {
    let c0 = h.client(client);
    HouseView {
        net_liquidity: (h.net_liquidity - amount) as u128,
        clients: h.clients.update(
            h.client_idx(client),
            ClientAccountView { amount_spent: (c0.amount_spent + amount) as u128, ..c0 },
        ),
        ..upsert_post(h, 0, amount)
    }
}

impl House {
    /// Record an incoming payment from a registered client: tally it on
    /// the client, split it pro-rata between spendable liquidity and
    /// unclaimed profit, record it in the snapshot log, and let the
    /// amortizer advance.  Token funding is verified by the caller.
    pub fn receive_payment(&mut self, client: &String, amount: u128) -> (r: Result<
        (),
        ContractError,
    >)
        requires
            old(self)@.wf(),
        ensures
            final(self)@.wf(),
            match r {
                Ok(_) => {
                    &&& old(self)@.has_client(client@)
                    &&& amount > 0
                    &&& receive_ok(old(self)@, client@, amount)
                    &&& final(self)@ == amortize_model(
                        receive_core_post(old(self)@, client@, amount),
                        5,
                    )
                    &&& amortize_frame(
                        receive_core_post(old(self)@, client@, amount),
                        final(self)@,
                    )
                },
                Err(e) => {
                    &&& final(self)@ == old(self)@
                    &&& (e == ContractError::NotAuthorized <==> !old(self)@.has_client(client@))
                    &&& (e == ContractError::MissingAmount <==> old(self)@.has_client(client@)
                        && amount == 0)
                    &&& (e == ContractError::Overflow <==> old(self)@.has_client(client@) && amount
                        > 0 && !receive_ok(old(self)@, client@, amount))
                    &&& (e == ContractError::NotAuthorized || e == ContractError::MissingAmount
                        || e == ContractError::Overflow)
                },
            },
    {
        let ghost h0 = self@;
        let k = match self.find_client(client) {
            Some(k) => k,
            None => {
                return Err(ContractError::NotAuthorized);
            },
        };
        proof {
            lemma_client_idx(h0, client@, k as int);
        }
        if amount == 0 {
            return Err(ContractError::MissingAmount);
        }
        let new_received = match self.clients[k].amount_received.checked_add(amount) {
            Some(v) => v,
            None => {
                return Err(ContractError::Overflow);
            },
        };
        let net = match self.net_growth_delegation.checked_add(self.net_profit_delegation) {
            Some(v) => v,
            None => {
                return Err(ContractError::Overflow);
            },
        };
        let growth_delta: u128;
        let profit_delta: u128;
        if net == 0 {
            growth_delta = amount;
            profit_delta = 0;
        } else {
            proof {
                crate::util::lemma_mul_div_le_self(
                    amount as int,
                    self.net_growth_delegation as int,
                    net as int,
                );
            }
            growth_delta = match crate::util::mul_ratio(
                amount,
                self.net_growth_delegation,
                net,
            ) {
                Some(v) => v,
                None => {
                    proof {
                        assert(false);
                    }
                    return Err(ContractError::Overflow);
                },
            };
            profit_delta = amount - growth_delta;
        }
        let new_liquidity = match self.net_liquidity.checked_add(growth_delta) {
            Some(v) => v,
            None => {
                return Err(ContractError::Overflow);
            },
        };
        let new_profit = match self.net_profit.checked_add(profit_delta) {
            Some(v) => v,
            None => {
                return Err(ContractError::Overflow);
            },
        };
        match Snapshot::upsert(self, amount, 0) {
            Err(e) => {
                return Err(e);
            },
            Ok(_) => {},
        }
        self.net_liquidity = new_liquidity;
        self.net_profit = new_profit;
        let c_owner = self.clients[k].owner.clone();
        let c_pct = self.clients[k].pct_liquidity;
        let c_created = self.clients[k].created_at;
        let c_spent = self.clients[k].amount_spent;
        self.clients.set(
            k,
            ClientAccount {
                owner: c_owner,
                pct_liquidity: c_pct,
                created_at: c_created,
                amount_spent: c_spent,
                amount_received: new_received,
            },
        );
        proof {
            let hc = self@;
            let core = receive_core_post(h0, client@, amount);
            assert(hc.clients =~= core.clients);
            assert(hc =~~= core);
            lemma_clients_update_wf(upsert_post(h0, amount, 0), hc, k as int);
        }
        self.amortize(5);
        Ok(())
    }

    /// Pay `amount` out of the spendable liquidity on behalf of a
    /// registered client, within the client's allowance: tally it on the
    /// client, record the outlay in the snapshot log, reduce the
    /// liquidity, and let the amortizer advance.  The caller performs the
    /// transfer to the recipient.
    pub fn send_payment(&mut self, client: &String, amount: u128) -> (r: Result<(), ContractError>)
        requires
            old(self)@.wf(),
        ensures
            final(self)@.wf(),
            match r {
                Ok(_) => {
                    &&& old(self)@.has_client(client@)
                    &&& amount > 0
                    &&& amount <= send_ceiling(old(self)@, client@)
                    &&& send_ok(old(self)@, client@, amount)
                    &&& final(self)@ == amortize_model(
                        send_core_post(old(self)@, client@, amount),
                        5,
                    )
                    &&& amortize_frame(send_core_post(old(self)@, client@, amount), final(self)@)
                },
                Err(e) => {
                    &&& final(self)@ == old(self)@
                    &&& (e == ContractError::NotAuthorized <==> !old(self)@.has_client(client@))
                    &&& (e == ContractError::MissingAmount <==> old(self)@.has_client(client@)
                        && amount == 0)
                    &&& (e == ContractError::InsufficientAllowance <==> old(self)@.has_client(
                        client@,
                    ) && amount > 0 && amount > send_ceiling(old(self)@, client@))
                    &&& (e == ContractError::Overflow <==> old(self)@.has_client(client@) && amount
                        > 0 && amount <= send_ceiling(old(self)@, client@) && !send_ok(
                        old(self)@,
                        client@,
                        amount,
                    ))
                    &&& (e == ContractError::NotAuthorized || e == ContractError::MissingAmount
                        || e == ContractError::InsufficientAllowance || e
                        == ContractError::Overflow)
                },
            },
    {
        let ghost h0 = self@;
        let k = match self.find_client(client) {
            Some(k) => k,
            None => {
                return Err(ContractError::NotAuthorized);
            },
        };
        proof {
            lemma_client_idx(h0, client@, k as int);
        }
        if amount == 0 {
            return Err(ContractError::MissingAmount);
        }
        let pct = self.clients[k].pct_liquidity;
        let ceiling = crate::util::mul_pct(self.net_liquidity, pct as u128);
        if amount > ceiling {
            return Err(ContractError::InsufficientAllowance);
        }
        let new_spent = match self.clients[k].amount_spent.checked_add(amount) {
            Some(v) => v,
            None => {
                return Err(ContractError::Overflow);
            },
        };
        match Snapshot::upsert(self, 0, amount) {
            Err(e) => {
                return Err(e);
            },
            Ok(_) => {},
        }
        self.net_liquidity = self.net_liquidity - amount;
        let c_owner = self.clients[k].owner.clone();
        let c_created = self.clients[k].created_at;
        let c_received = self.clients[k].amount_received;
        self.clients.set(
            k,
            ClientAccount {
                owner: c_owner,
                pct_liquidity: pct,
                created_at: c_created,
                amount_spent: new_spent,
                amount_received: c_received,
            },
        );
        proof {
            let hc = self@;
            let core = send_core_post(h0, client@, amount);
            assert(hc.clients =~= core.clients);
            assert(hc =~~= core);
            lemma_clients_update_wf(upsert_post(h0, 0, amount), hc, k as int);
        }
        self.amortize(5);
        Ok(())
    }
}

/// Updating one client's payment tallies (owner and fraction unchanged)
/// keeps the state well-formed; nor do the liquidity and profit pots
/// affect well-formedness.
proof fn lemma_clients_update_wf(h0: HouseView, h1: HouseView, k: int)
    requires
        h0.wf(),
        0 <= k < h0.clients.len(),
        h1.clients == h0.clients.update(k, h1.clients[k]),
        h1.clients[k].owner == h0.clients[k].owner,
        h1.clients[k].pct_liquidity == h0.clients[k].pct_liquidity,
        h1 == (HouseView {
            net_liquidity: h1.net_liquidity,
            net_profit: h1.net_profit,
            clients: h1.clients,
            ..h0
        }),
    ensures
        h1.wf(),
{
    let pcts = (|c: ClientAccountView| c.pct_liquidity as int);
    lemma_sum_by_update(h0.clients, k, h1.clients[k], pcts);
    assert forall|i: int, j: int|
        0 <= i < j < h1.clients.len() implies (#[trigger] h1.clients[i]).owner != (
    #[trigger] h1.clients[j]).owner by {
        assert(h0.clients[i].owner != h0.clients[j].owner);
    }
    assert forall|i: int|
        0 <= i < h1.clients.len() implies (#[trigger] h1.clients[i]).pct_liquidity <= 1000 by {
        assert(h0.clients[i].pct_liquidity <= 1000);
    }
}

/// The snapshot log after the Growth-pool claim of a withdrawal.
pub open spec fn withdraw_snaps_mid(h: HouseView, owner: Seq<char>) -> Seq<SnapshotEntry> {
    crate::claim::claim_snaps(
        h.snapshots,
        h.account(owner).growth_delegations,
        h.snapshots_index + 1,
        false,
    )
}

/// The snapshot log after both claims of a withdrawal.
pub open spec fn withdraw_snaps_post(h: HouseView, owner: Seq<char>) -> Seq<SnapshotEntry> {
    crate::claim::claim_snaps(
        withdraw_snaps_mid(h, owner),
        h.account(owner).profit_delegations,
        h.snapshots_index + 1,
        false,
    )
}

/// Growth-pool gain claimed by a withdrawal.
pub open spec fn withdraw_g_gain(h: HouseView, owner: Seq<char>) -> int {
    crate::claim::claim_gain(
        h.snapshots,
        h.account(owner).growth_delegations,
        h.snapshots_index + 1,
        false,
    )
}

/// Growth-pool loss claimed by a withdrawal.
pub open spec fn withdraw_g_loss(h: HouseView, owner: Seq<char>) -> int {
    crate::claim::claim_loss(
        h.snapshots,
        h.account(owner).growth_delegations,
        h.snapshots_index + 1,
        false,
    )
}

/// Profit-pool gain claimed by a withdrawal (against the log as the
/// Growth claim left it).
pub open spec fn withdraw_p_gain(h: HouseView, owner: Seq<char>) -> int {
    crate::claim::claim_gain(
        withdraw_snaps_mid(h, owner),
        h.account(owner).profit_delegations,
        h.snapshots_index + 1,
        false,
    )
}

/// Stake plus claimed and memoized growth of the withdrawing account.
pub open spec fn withdraw_pos(h: HouseView, owner: Seq<char>) -> int {
    let a = h.account(owner);
    a.latest_amount(DelegationType::Growth) + a.latest_amount(DelegationType::Profit)
        + withdraw_g_gain(h, owner) + a.memoized_growth
}

/// Claimed and memoized loss of the withdrawing account.
pub open spec fn withdraw_neg(h: HouseView, owner: Seq<char>) -> int {
    withdraw_g_loss(h, owner) + h.account(owner).memoized_loss
}

/// The withdrawing account's growth-side balance.
pub open spec fn withdraw_balance0(h: HouseView, owner: Seq<char>) -> int {
    withdraw_pos(h, owner) - withdraw_neg(h, owner)
}

/// Profit paid out by a withdrawal: claimed plus memoized profit, capped
/// by the unclaimed-profit pot.
pub open spec fn withdraw_profit_delta(h: HouseView, owner: Seq<char>) -> int {
    let raw = withdraw_p_gain(h, owner) + h.account(owner).memoized_profit;
    if raw < h.net_profit {
        raw
    } else {
        h.net_profit as int
    }
}

/// The growth-only portion of the withdrawing balance: the Growth-pool
/// stake and net claimed growth, without the Profit-pool stake.
pub open spec fn withdraw_liquidity_part(h: HouseView, owner: Seq<char>) -> int {
    withdraw_pos(h, owner) - h.account(owner).latest_amount(DelegationType::Profit)
        - withdraw_neg(h, owner)
}

/// How far the growth-only portion overshoots the spendable liquidity;
/// the overshoot is absorbed by reducing the payout.
pub open spec fn withdraw_overflow_amt(h: HouseView, owner: Seq<char>) -> int {
    if withdraw_liquidity_part(h, owner) > h.net_liquidity {
        withdraw_liquidity_part(h, owner) - h.net_liquidity
    } else {
        0
    }
}

/// What a withdrawal takes out of the spendable liquidity.
pub open spec fn withdraw_liquidity_delta(h: HouseView, owner: Seq<char>) -> int {
    withdraw_liquidity_part(h, owner) - withdraw_overflow_amt(h, owner)
}

/// The payout before dust reconciliation.
pub open spec fn withdraw_balance2(h: HouseView, owner: Seq<char>) -> int {
    withdraw_balance0(h, owner) + withdraw_profit_delta(h, owner) - withdraw_overflow_amt(h, owner)
}

/// What `withdraw` transfers to the owner: the balance, plus both pots'
/// residual dust when this was the last account.
pub open spec fn withdraw_value(h: HouseView, owner: Seq<char>) -> int {
    if !h.has_account(owner) {
        0
    } else if h.accounts.len() == 1 {
        withdraw_balance2(h, owner) + (h.net_profit - withdraw_profit_delta(h, owner)) + (
        h.net_liquidity - withdraw_liquidity_delta(h, owner))
    } else {
        withdraw_balance2(h, owner)
    }
}

/// The side conditions under which a withdrawal goes through.
pub open spec fn withdraw_ok(h: HouseView, owner: Seq<char>) -> bool {
    h.has_account(owner) ==> {
        let a = h.account(owner);
        &&& h.snapshot_seq_no < u128::MAX
        &&& crate::claim::claim_ok(
            h.snapshots,
            a.growth_delegations,
            h.snapshots_index + 1,
            false,
            true,
        )
        &&& crate::claim::claim_ok(
            withdraw_snaps_mid(h, owner),
            a.profit_delegations,
            h.snapshots_index + 1,
            false,
            false,
        )
        &&& a.latest_amount(DelegationType::Growth) + a.latest_amount(DelegationType::Profit)
            <= u128::MAX
        &&& a.latest_amount(DelegationType::Growth) + a.latest_amount(DelegationType::Profit)
            + withdraw_g_gain(h, owner) <= u128::MAX
        &&& withdraw_pos(h, owner) <= u128::MAX
        &&& withdraw_p_gain(h, owner) + a.memoized_profit <= u128::MAX
        &&& withdraw_neg(h, owner) <= u128::MAX
        &&& withdraw_pos(h, owner) - a.latest_amount(DelegationType::Profit) >= withdraw_neg(
            h,
            owner,
        )
        &&& withdraw_balance0(h, owner) + withdraw_profit_delta(h, owner) <= u128::MAX
        &&& withdraw_value(h, owner) <= u128::MAX
    }
}

/// The engine state after a successful withdrawal.
pub open spec fn withdraw_post(h: HouseView, owner: Seq<char>) -> HouseView {
    if !h.has_account(owner) {
        h
    } else {
        let a = h.account(owner);
        let np1 = (h.net_profit - withdraw_profit_delta(h, owner)) as u128;
        let nl1 = (h.net_liquidity - withdraw_liquidity_delta(h, owner)) as u128;
        HouseView {
            net_growth_delegation: (h.net_growth_delegation - a.latest_amount(
                DelegationType::Growth,
            )) as u128,
            net_profit_delegation: (h.net_profit_delegation - a.latest_amount(
                DelegationType::Profit,
            )) as u128,
            net_liquidity: if h.accounts.len() == 1 {
                0
            } else {
                nl1
            },
            net_profit: if h.accounts.len() == 1 {
                0
            } else {
                np1
            },
            growth_delegator_count: (h.growth_delegator_count - (if a.growth_delegations.len()
                > 0 {
                1int
            } else {
                0
            })) as u32,
            profit_delegator_count: (h.profit_delegator_count - (if a.profit_delegations.len()
                > 0 {
                1int
            } else {
                0
            })) as u32,
            snapshot_seq_no: (h.snapshot_seq_no + 1) as u128,
            snapshots: withdraw_snaps_post(h, owner),
            accounts: h.accounts.remove(h.account_idx(owner)),
            ..h
        }
    }
}

impl House {
    /// Close the caller's account: claim both pools in full, return the
    /// stake plus net gains plus capped profit, absorb any liquidity
    /// overshoot, drop all the account's records, and bump the epoch.
    /// The last account to leave also takes both pots' residual dust.
    /// Returns the amount to transfer; a caller without an account gets
    /// 0 and nothing changes.
    pub fn withdraw(&mut self, owner: &String) -> (r: Result<u128, ContractError>)
        requires
            old(self)@.wf(),
        ensures
            final(self)@.wf(),
            match r {
                Ok(v) => {
                    &&& withdraw_ok(old(self)@, owner@)
                    &&& v == withdraw_value(old(self)@, owner@)
                    &&& final(self)@ == withdraw_post(old(self)@, owner@)
                },
                Err(e) => {
                    &&& e == ContractError::Overflow
                    &&& !withdraw_ok(old(self)@, owner@)
                    &&& final(self)@ == old(self)@
                },
            },
    {
        let ghost h0 = self@;
        let k = match self.find_account(owner) {
            Some(k) => k,
            None => {
                return Ok(0);
            },
        };
        proof {
            lemma_account_idx(h0, owner@, k as int);
        }
        if self.snapshot_seq_no == u128::MAX {
            return Err(ContractError::Overflow);
        }
        let mut s2 = copy_vec(&self.snapshots);
        let mut gd2 = copy_vec(&self.accounts[k].growth_delegations);
        let mut pd2 = copy_vec(&self.accounts[k].profit_delegations);
        let growth_out = match claim_pool(&mut s2, &mut gd2, self.snapshots_index, true, false) {
            Ok(v) => v,
            Err(e) => {
                return Err(e);
            },
        };
        let profit_out = match claim_pool(&mut s2, &mut pd2, self.snapshots_index, false, false) {
            Ok(v) => v,
            Err(e) => {
                return Err(e);
            },
        };
        let g_gain = growth_out.0;
        let g_loss = growth_out.1;
        let p_gain = profit_out.0;
        let amounts = self.accounts[k].get_delegation_amounts();
        let x_g = amounts.0;
        let x_p = amounts.1;
        let memo_g = self.accounts[k].memoized_growth;
        let memo_l = self.accounts[k].memoized_loss;
        let memo_p = self.accounts[k].memoized_profit;
        let x_deleg = match x_g.checked_add(x_p) {
            Some(v) => v,
            None => {
                return Err(ContractError::Overflow);
            },
        };
        let pos1 = match x_deleg.checked_add(g_gain) {
            Some(v) => v,
            None => {
                return Err(ContractError::Overflow);
            },
        };
        let pos = match pos1.checked_add(memo_g) {
            Some(v) => v,
            None => {
                return Err(ContractError::Overflow);
            },
        };
        let profit_delta0 = match p_gain.checked_add(memo_p) {
            Some(v) => v,
            None => {
                return Err(ContractError::Overflow);
            },
        };
        let neg = match g_loss.checked_add(memo_l) {
            Some(v) => v,
            None => {
                return Err(ContractError::Overflow);
            },
        };
        let growth_pos = pos - x_p;
        if growth_pos < neg {
            return Err(ContractError::Overflow);
        }
        let liquidity_part = growth_pos - neg;
        let balance0 = pos - neg;
        let profit_delta = if profit_delta0 < self.net_profit {
            profit_delta0
        } else {
            self.net_profit
        };
        let balance1 = match balance0.checked_add(profit_delta) {
            Some(v) => v,
            None => {
                return Err(ContractError::Overflow);
            },
        };
        let overflow_amt = if liquidity_part > self.net_liquidity {
            liquidity_part - self.net_liquidity
        } else {
            0
        };
        let liquidity_delta = liquidity_part - overflow_amt;
        let balance2 = balance1 - overflow_amt;
        let is_last = self.accounts.len() == 1;
        let np1 = self.net_profit - profit_delta;
        let nl1 = self.net_liquidity - liquidity_delta;
        let value = if is_last {
            let v1 = match balance2.checked_add(np1) {
                Some(v) => v,
                None => {
                    return Err(ContractError::Overflow);
                },
            };
            match v1.checked_add(nl1) {
                Some(v) => v,
                None => {
                    return Err(ContractError::Overflow);
                },
            }
        } else {
            balance2
        };
        proof {
            assert(withdraw_ok(h0, owner@));
            assert(value == withdraw_value(h0, owner@));
            let growth_latest = (|a: DelegationAccountView| a.latest_amount(
                DelegationType::Growth,
            ));
            let profit_latest = (|a: DelegationAccountView| a.latest_amount(
                DelegationType::Profit,
            ));
            let growth_has = (|a: DelegationAccountView|
                if a.delegations(DelegationType::Growth).len() > 0 {
                    1int
                } else {
                    0int
                });
            let profit_has = (|a: DelegationAccountView|
                if a.delegations(DelegationType::Profit).len() > 0 {
                    1int
                } else {
                    0int
                });
            assert(forall|i: int|
                0 <= i < h0.accounts.len() ==> growth_latest(#[trigger] h0.accounts[i]) >= 0);
            assert(forall|i: int|
                0 <= i < h0.accounts.len() ==> profit_latest(#[trigger] h0.accounts[i]) >= 0);
            assert(forall|i: int|
                0 <= i < h0.accounts.len() ==> growth_has(#[trigger] h0.accounts[i]) >= 0);
            assert(forall|i: int|
                0 <= i < h0.accounts.len() ==> profit_has(#[trigger] h0.accounts[i]) >= 0);
            lemma_sum_by_le(h0.accounts, k as int, growth_latest);
            lemma_sum_by_le(h0.accounts, k as int, profit_latest);
            lemma_sum_by_le(h0.accounts, k as int, growth_has);
            lemma_sum_by_le(h0.accounts, k as int, profit_has);
        }
        let has_g = self.accounts[k].has_delegation(DelegationType::Growth);
        let has_p = self.accounts[k].has_delegation(DelegationType::Profit);
        self.net_growth_delegation = self.net_growth_delegation - x_g;
        self.net_profit_delegation = self.net_profit_delegation - x_p;
        self.net_liquidity = if is_last {
            0
        } else {
            nl1
        };
        self.net_profit = if is_last {
            0
        } else {
            np1
        };
        if has_g {
            self.growth_delegator_count = self.growth_delegator_count - 1;
        }
        if has_p {
            self.profit_delegator_count = self.profit_delegator_count - 1;
        }
        self.snapshot_seq_no = self.snapshot_seq_no + 1;
        self.snapshots = s2;
        let removed = self.accounts.remove(k);
        proof {
            let h1 = self@;
            assert(h1.accounts =~= h0.accounts.remove(k as int));
            assert(h1 =~~= withdraw_post(h0, owner@));
            lemma_withdraw_post_wf(h0, owner@);
        }
        Ok(value)
    }
}

/// After a computable withdrawal, the state is well-formed again: the
/// removed account's contributions leave the pool sums and delegator
/// counts.
proof fn lemma_withdraw_post_wf(h0: HouseView, owner: Seq<char>)
    requires
        h0.wf(),
        h0.has_account(owner),
        withdraw_ok(h0, owner),
    ensures
        withdraw_post(h0, owner).wf(),
{
    let h1 = withdraw_post(h0, owner);
    let k = h0.account_idx(owner);
    let n = h0.snapshots_index as int;
    let growth_latest = (|a: DelegationAccountView| a.latest_amount(DelegationType::Growth));
    let profit_latest = (|a: DelegationAccountView| a.latest_amount(DelegationType::Profit));
    let growth_has = (|a: DelegationAccountView|
        if a.delegations(DelegationType::Growth).len() > 0 {
            1int
        } else {
            0int
        });
    let profit_has = (|a: DelegationAccountView|
        if a.delegations(DelegationType::Profit).len() > 0 {
            1int
        } else {
            0int
        });
    assert(forall|i: int|
        0 <= i < h0.accounts.len() ==> growth_latest(#[trigger] h0.accounts[i]) >= 0);
    assert(forall|i: int|
        0 <= i < h0.accounts.len() ==> profit_latest(#[trigger] h0.accounts[i]) >= 0);
    assert(forall|i: int|
        0 <= i < h0.accounts.len() ==> growth_has(#[trigger] h0.accounts[i]) >= 0);
    assert(forall|i: int|
        0 <= i < h0.accounts.len() ==> profit_has(#[trigger] h0.accounts[i]) >= 0);
    lemma_sum_by_le(h0.accounts, k, growth_latest);
    lemma_sum_by_le(h0.accounts, k, profit_latest);
    lemma_sum_by_le(h0.accounts, k, growth_has);
    lemma_sum_by_le(h0.accounts, k, profit_has);
    lemma_sum_by_remove(h0.accounts, k, growth_latest);
    lemma_sum_by_remove(h0.accounts, k, profit_latest);
    lemma_sum_by_remove(h0.accounts, k, growth_has);
    lemma_sum_by_remove(h0.accounts, k, profit_has);
    crate::claim::lemma_claim_snaps_wf(
        h0.snapshots,
        h0.account(owner).growth_delegations,
        h0.snapshots_index + 1,
        false,
        n,
    );
    crate::claim::lemma_claim_snaps_wf(
        withdraw_snaps_mid(h0, owner),
        h0.account(owner).profit_delegations,
        h0.snapshots_index + 1,
        false,
        n,
    );
    assert forall|i: int, j: int|
        0 <= i < j < h1.accounts.len() implies (#[trigger] h1.accounts[i]).owner != (
    #[trigger] h1.accounts[j]).owner by {
        let i0 = if i < k {
            i
        } else {
            i + 1
        };
        let j0 = if j < k {
            j
        } else {
            j + 1
        };
        assert(h1.accounts[i] == h0.accounts[i0]);
        assert(h1.accounts[j] == h0.accounts[j0]);
        assert(h0.accounts[i0].owner != h0.accounts[j0].owner);
    }
    assert forall|i: int|
        0 <= i < h1.accounts.len() implies delegs_wf(
        (#[trigger] h1.accounts[i]).growth_delegations,
        n,
    ) && delegs_wf((#[trigger] h1.accounts[i]).profit_delegations, n) by {
        let i0 = if i < k {
            i
        } else {
            i + 1
        };
        assert(h1.accounts[i] == h0.accounts[i0]);
        assert(delegs_wf(h0.accounts[i0].growth_delegations, n));
        assert(delegs_wf(h0.accounts[i0].profit_delegations, n));
    }
}

/// After a computable `take_profit`, the state is well-formed again.
pub proof fn lemma_take_profit_post_wf(h0: HouseView, owner: Seq<char>)
    requires
        h0.wf(),
        h0.has_account(owner),
        take_profit_ok(h0, owner),
    ensures
        take_profit_post(h0, owner).wf(),
{
    let h1 = take_profit_post(h0, owner);
    let k = h0.account_idx(owner);
    let a0 = h0.account(owner);
    let a1 = h1.accounts[k];
    let n = h0.snapshots_index as int;
    crate::claim::lemma_claim_snaps_wf(
        h0.snapshots,
        a0.profit_delegations,
        h0.snapshots_index + 1,
        false,
        n,
    );
    let d0 = a0.profit_delegations;
    let d1 = a1.profit_delegations;
    if d0.len() > 0 {
        assert(d0[d0.len() - 1].amount >= 1);
        assert(d1 =~= seq![
            Delegation { amount: d0.last().amount, i_snapshot: h0.snapshots_index },
        ]);
    }
    assert(delegs_wf(d1, n));
    assert(a1.latest_amount(DelegationType::Profit) == a0.latest_amount(DelegationType::Profit));
    assert(a1.latest_amount(DelegationType::Growth) == a0.latest_amount(DelegationType::Growth));
    let growth_latest = (|a: DelegationAccountView| a.latest_amount(DelegationType::Growth));
    let profit_latest = (|a: DelegationAccountView| a.latest_amount(DelegationType::Profit));
    let growth_has = (|a: DelegationAccountView|
        if a.delegations(DelegationType::Growth).len() > 0 {
            1int
        } else {
            0int
        });
    let profit_has = (|a: DelegationAccountView|
        if a.delegations(DelegationType::Profit).len() > 0 {
            1int
        } else {
            0int
        });
    lemma_sum_by_update(h0.accounts, k, a1, growth_latest);
    lemma_sum_by_update(h0.accounts, k, a1, profit_latest);
    lemma_sum_by_update(h0.accounts, k, a1, growth_has);
    lemma_sum_by_update(h0.accounts, k, a1, profit_has);
    assert forall|i: int, j: int|
        0 <= i < j < h1.accounts.len() implies (#[trigger] h1.accounts[i]).owner != (
    #[trigger] h1.accounts[j]).owner by {
        assert(h0.accounts[i].owner != h0.accounts[j].owner);
    }
    assert forall|i: int|
        0 <= i < h1.accounts.len() implies delegs_wf(
        (#[trigger] h1.accounts[i]).growth_delegations,
        n,
    ) && delegs_wf((#[trigger] h1.accounts[i]).profit_delegations, n) by {
        if i != k {
            assert(h1.accounts[i] == h0.accounts[i]);
            assert(delegs_wf(h0.accounts[i].growth_delegations, n));
            assert(delegs_wf(h0.accounts[i].profit_delegations, n));
        }
    }
}

/// After a stake whose side conditions hold, the state is well-formed
/// again: the pool sums and delegator counts match the updated records.
proof fn lemma_stake_post_wf(
    h0: HouseView,
    owner: Seq<char>,
    created_at: u64,
    growth: u128,
    profit: u128,
)
    requires
        h0.wf(),
        growth + profit > 0,
        stake_ok(h0, owner, growth, profit),
    ensures
        stake_post(h0, owner, created_at, growth, profit).wf(),
{
    let h1 = stake_post(h0, owner, created_at, growth, profit);
    let a0 = stake_acct_base(h0, owner, created_at);
    let a1 = stake_acct_post(a0, h0.snapshots_index, growth, profit);
    let n = h0.snapshots_index as int;
    let growth_latest = (|a: DelegationAccountView| a.latest_amount(DelegationType::Growth));
    let profit_latest = (|a: DelegationAccountView| a.latest_amount(DelegationType::Profit));
    let growth_has = (|a: DelegationAccountView|
        if a.delegations(DelegationType::Growth).len() > 0 {
            1int
        } else {
            0int
        });
    let profit_has = (|a: DelegationAccountView|
        if a.delegations(DelegationType::Profit).len() > 0 {
            1int
        } else {
            0int
        });
    // the updated account's checkpoint lists are well-formed and their
    // latest amounts grew by the staked deltas
    if h0.has_account(owner) {
        let k = h0.account_idx(owner);
        assert(0 <= k < h0.accounts.len() && h0.accounts[k] == a0);
        assert(delegs_wf(a0.growth_delegations, n));
        assert(delegs_wf(a0.profit_delegations, n));
    }
    assert(a1.owner == a0.owner);
    assert(delegs_wf(a1.growth_delegations, n));
    assert(delegs_wf(a1.profit_delegations, n));
    assert(a1.latest_amount(DelegationType::Growth) == a0.latest_amount(DelegationType::Growth)
        + growth);
    assert(a1.latest_amount(DelegationType::Profit) == a0.latest_amount(DelegationType::Profit)
        + profit);
    assert(growth_has(a1) == (if growth > 0 && a0.growth_delegations.len() == 0 {
        growth_has(a0) + 1
    } else {
        growth_has(a0)
    }));
    assert(profit_has(a1) == (if profit > 0 && a0.profit_delegations.len() == 0 {
        profit_has(a0) + 1
    } else {
        profit_has(a0)
    }));
    if h0.has_account(owner) {
        let k = h0.account_idx(owner);
        lemma_sum_by_update(h0.accounts, k, a1, growth_latest);
        lemma_sum_by_update(h0.accounts, k, a1, profit_latest);
        lemma_sum_by_update(h0.accounts, k, a1, growth_has);
        lemma_sum_by_update(h0.accounts, k, a1, profit_has);
        assert forall|i: int, j: int|
            0 <= i < j < h1.accounts.len() implies (#[trigger] h1.accounts[i]).owner != (
        #[trigger] h1.accounts[j]).owner by {
            assert(h0.accounts[i].owner != h0.accounts[j].owner);
        }
        assert forall|i: int|
            0 <= i < h1.accounts.len() implies delegs_wf(
            (#[trigger] h1.accounts[i]).growth_delegations,
            n,
        ) && delegs_wf((#[trigger] h1.accounts[i]).profit_delegations, n) by {
            if i != k {
                assert(h1.accounts[i] == h0.accounts[i]);
                assert(delegs_wf(h0.accounts[i].growth_delegations, n));
                assert(delegs_wf(h0.accounts[i].profit_delegations, n));
            }
        }
    } else {
        assert(h1.accounts.drop_last() =~= h0.accounts);
        assert forall|i: int, j: int|
            0 <= i < j < h1.accounts.len() implies (#[trigger] h1.accounts[i]).owner != (
        #[trigger] h1.accounts[j]).owner by {
            if j < h0.accounts.len() {
                assert(h0.accounts[i].owner != h0.accounts[j].owner);
            } else {
                assert(h1.accounts[i] == h0.accounts[i]);
            }
        }
        assert forall|i: int|
            0 <= i < h1.accounts.len() implies delegs_wf(
            (#[trigger] h1.accounts[i]).growth_delegations,
            n,
        ) && delegs_wf((#[trigger] h1.accounts[i]).profit_delegations, n) by {
            if i < h0.accounts.len() {
                assert(h1.accounts[i] == h0.accounts[i]);
                assert(delegs_wf(h0.accounts[i].growth_delegations, n));
                assert(delegs_wf(h0.accounts[i].profit_delegations, n));
            }
        }
    }
}

} // verus!
