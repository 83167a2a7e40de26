//! Laws of the engine that relate several operations, stated over the
//! mathematical models and proved once and for all.

use vstd::prelude::*;

use crate::claim::claim_delegs;
use crate::claim::claim_gain;
use crate::claim::claim_ok;
use crate::claim::entry_in_range;
use crate::claim::lemma_range_untouched;
use crate::execute::receive_core_post;
use crate::execute::receive_growth_delta;
use crate::execute::receive_ok;
use crate::execute::send_ceiling;
use crate::execute::send_core_post;
use crate::execute::send_ok;
use crate::execute::take_profit_base;
use crate::execute::take_profit_ok;
use crate::execute::withdraw_ok;
use crate::execute::withdraw_post;
use crate::execute::withdraw_value;
use crate::execute::take_profit_post;
use crate::execute::take_profit_value;
use crate::execute::lemma_take_profit_post_wf;
use crate::models::DelegationType;
use crate::state::lemma_account_idx;
use crate::state::lemma_pool_sums;
use crate::state::upsert_coalesces;
use crate::state::upsert_post;
use crate::state::HouseView;

verus! {

/// Taking profit twice back to back yields the first amount and then
/// zero: a second `take_profit` right after a successful one is itself
/// successful, returns 0, and leaves the pots and pool totals where the
/// first call left them.
pub proof fn lemma_take_profit_twice(h: HouseView, owner: Seq<char>)
    requires
        h.wf(),
        take_profit_ok(h, owner),
        h.snapshot_seq_no + 2 <= u128::MAX,
    ensures
        take_profit_post(h, owner).wf(),
        take_profit_ok(take_profit_post(h, owner), owner),
        take_profit_value(take_profit_post(h, owner), owner) == 0,
        take_profit_post(take_profit_post(h, owner), owner).net_profit == take_profit_post(
            h,
            owner,
        ).net_profit,
        take_profit_post(take_profit_post(h, owner), owner).net_liquidity == take_profit_post(
            h,
            owner,
        ).net_liquidity,
        take_profit_post(take_profit_post(h, owner), owner).net_growth_delegation
            == take_profit_post(h, owner).net_growth_delegation,
        take_profit_post(take_profit_post(h, owner), owner).net_profit_delegation
            == take_profit_post(h, owner).net_profit_delegation,
{
    let h1 = take_profit_post(h, owner);
    if !h.has_account(owner) {
        assert(h1 == h);
        assert(take_profit_value(h1, owner) == 0);
    } else {
        let k = h.account_idx(owner);
        lemma_account_idx(h, owner, k);
        lemma_take_profit_post_wf(h, owner);
        let a0 = h.account(owner);
        let a1 = h1.accounts[k];
        assert(a1.owner == owner);
        lemma_account_idx(h1, owner, k);
        assert(h1.account(owner) == a1);
        assert(a1.memoized_profit == 0);
        let d1 = a1.profit_delegations;
        assert(d1 == claim_delegs(a0.profit_delegations, h.snapshots_index, false));
        assert(h1.snapshots_index == h.snapshots_index);
        let idx = h1.snapshots_index as int;
        assert(forall|i: int|
            0 <= i < h1.snapshots.len() ==> !entry_in_range(
                #[trigger] h1.snapshots[i],
                idx,
                idx + 1,
            ));
        if d1.len() > 0 {
            assert(d1.len() == 1);
            lemma_range_untouched(h1.snapshots, idx, idx + 1, d1[0].amount, false);
            assert(claim_gain(h1.snapshots, d1, idx + 1, false) == 0);
            assert(claim_ok(h1.snapshots, d1, idx + 1, false, false));
        } else {
            assert(claim_gain(h1.snapshots, d1, idx + 1, false) == 0);
            assert(claim_ok(h1.snapshots, d1, idx + 1, false, false));
        }
        assert(take_profit_ok(h1, owner));
        assert(h1.accounts.len() == h.accounts.len());
        if h.accounts.len() == 1 {
            assert(h1.net_profit == 0);
        }
        assert(take_profit_value(h1, owner) == 0);
    }
}

/// An incoming payment while no stake is active routes the full amount
/// to the spendable liquidity, leaves the unclaimed-profit pot alone,
/// and adds no live snapshot: the snapshot it creates has no claimant
/// and is dropped on the spot.
pub proof fn lemma_receive_payment_no_delegators(h: HouseView, client: Seq<char>, amount: u128)
    requires
        h.wf(),
        h.has_client(client),
        amount > 0,
        h.net_delegation() == 0,
        receive_ok(h, client, amount),
    ensures
        receive_core_post(h, client, amount).net_liquidity == h.net_liquidity + amount,
        receive_core_post(h, client, amount).net_profit == h.net_profit,
        receive_core_post(h, client, amount).snapshots.len() == h.snapshots.len(),
        forall|j: int|
            0 <= j < h.snapshots.len() ==> (#[trigger] receive_core_post(
                h,
                client,
                amount,
            ).snapshots[j]).index == h.snapshots[j].index,
        !upsert_coalesces(h) ==> receive_core_post(h, client, amount).snapshots == h.snapshots,
{
    assert(receive_growth_delta(h, amount) == amount);
    let post = receive_core_post(h, client, amount);
    if !upsert_coalesces(h) {
        lemma_pool_sums(h.accounts, DelegationType::Growth, h.snapshots_index as int);
        lemma_pool_sums(h.accounts, DelegationType::Profit, h.snapshots_index as int);
        assert(h.growth_delegator_count == 0);
        assert(h.profit_delegator_count == 0);
        assert(upsert_post(h, amount, 0).snapshots == h.snapshots);
    }
}

/// Sending the whole spendable liquidity in one payment is permitted
/// exactly when the client's allowance covers it (the success conditions
/// stand in `send_payment`'s contract), and a permitted full-liquidity
/// payment leaves the spendable liquidity at zero.
pub proof fn lemma_send_full_liquidity(h: HouseView, client: Seq<char>, amount: u128)
    requires
        h.wf(),
        h.has_client(client),
        amount == h.net_liquidity,
        amount > 0,
        amount <= send_ceiling(h, client),
        send_ok(h, client, amount),
    ensures
        send_core_post(h, client, amount).net_liquidity == 0,
{
}

/// Every live snapshot still has a claimant and a positive combined pool
/// total, so no income share ever divides by zero.
pub proof fn lemma_live_snapshot_invariant(h: HouseView)
    requires
        h.wf(),
    ensures
        forall|i: int|
            0 <= i < h.snapshots.len() ==> (#[trigger] h.snapshots[i]).snapshot.claims_remaining
                >= 1 && h.snapshots[i].snapshot.spec_total_delegation() >= 1,
{
}

/// The ledger counters agree with the records: each pool total is the
/// sum of the owners' latest checkpoint amounts, each delegator count is
/// the number of owners holding any checkpoint in that pool, and the
/// allocated liquidity fractions sum to the tracked total, within 100 %.
pub proof fn lemma_ledger_counters_match(h: HouseView)
    requires
        h.wf(),
    ensures
        h.net_growth_delegation as int == crate::state::sum_latest(
            h.accounts,
            DelegationType::Growth,
        ),
        h.net_profit_delegation as int == crate::state::sum_latest(
            h.accounts,
            DelegationType::Profit,
        ),
        h.growth_delegator_count as int == crate::state::count_delegators(
            h.accounts,
            DelegationType::Growth,
        ),
        h.profit_delegator_count as int == crate::state::count_delegators(
            h.accounts,
            DelegationType::Profit,
        ),
        h.net_pct_allocated as int == crate::state::sum_pct(h.clients),
        h.net_pct_allocated <= 1000,
{
}

/// Conservation at an incoming payment: the two pots together grow by
/// exactly the amount received.
pub proof fn lemma_receive_payment_conserves(h: HouseView, client: Seq<char>, amount: u128)
    requires
        h.wf(),
        h.has_client(client),
        amount > 0,
        receive_ok(h, client, amount),
    ensures
        receive_core_post(h, client, amount).net_liquidity + receive_core_post(
            h,
            client,
            amount,
        ).net_profit == h.net_liquidity + h.net_profit + amount,
{
    if h.net_delegation() != 0 {
        crate::util::lemma_mul_div_le_self(
            amount as int,
            h.net_growth_delegation as int,
            h.net_delegation(),
        );
    }
}

/// Conservation at `take_profit`: what the owner receives is exactly
/// what leaves the unclaimed-profit pot.
pub proof fn lemma_take_profit_conserves(h: HouseView, owner: Seq<char>)
    requires
        h.wf(),
        take_profit_ok(h, owner),
    ensures
        take_profit_value(h, owner) == h.net_profit - take_profit_post(h, owner).net_profit,
{
    if h.has_account(owner) {
        crate::claim::lemma_claim_nonneg(
            h.snapshots,
            h.account(owner).profit_delegations,
            h.snapshots_index + 1,
            false,
            false,
            h.snapshots_index as int,
        );
    }
    let base = take_profit_base(h, owner);
    assert(0 <= base <= h.net_profit);
    if h.has_account(owner) && h.accounts.len() == 1 {
        assert(take_profit_post(h, owner).net_profit == 0);
        assert(take_profit_value(h, owner) == base + (h.net_profit - base));
    }
}

/// Conservation at `withdraw`: what the owner receives is exactly what
/// leaves the liquidity pot, plus what leaves the profit pot, plus the
/// owner's returned Profit-pool stake (which never entered the pots).
pub proof fn lemma_withdraw_conserves(h: HouseView, owner: Seq<char>)
    requires
        h.wf(),
        h.has_account(owner),
        withdraw_ok(h, owner),
    ensures
        withdraw_value(h, owner) == (h.net_liquidity - withdraw_post(h, owner).net_liquidity) + (
        h.net_profit - withdraw_post(h, owner).net_profit) + h.account(owner).latest_amount(
            DelegationType::Profit,
        ),
{
    let a = h.account(owner);
    let n = h.snapshots_index as int;
    crate::claim::lemma_claim_nonneg(
        h.snapshots,
        a.growth_delegations,
        h.snapshots_index + 1,
        false,
        true,
        n,
    );
    crate::claim::lemma_claim_snaps_wf(
        h.snapshots,
        a.growth_delegations,
        h.snapshots_index + 1,
        false,
        n,
    );
    crate::claim::lemma_claim_nonneg(
        crate::execute::withdraw_snaps_mid(h, owner),
        a.profit_delegations,
        h.snapshots_index + 1,
        false,
        false,
        n,
    );
    let lp = crate::execute::withdraw_liquidity_part(h, owner);
    let ov = crate::execute::withdraw_overflow_amt(h, owner);
    let pd = crate::execute::withdraw_profit_delta(h, owner);
    let ld = crate::execute::withdraw_liquidity_delta(h, owner);
    assert(0 <= ov <= lp);
    assert(ld == lp - ov);
    assert(0 <= ld <= h.net_liquidity);
    assert(0 <= pd <= h.net_profit);
    assert(crate::execute::withdraw_balance0(h, owner) == lp + a.latest_amount(
        DelegationType::Profit,
    ));
    assert(crate::execute::withdraw_balance2(h, owner) == ld + pd + a.latest_amount(
        DelegationType::Profit,
    ));
    if h.accounts.len() == 1 {
        assert(withdraw_post(h, owner).net_liquidity == 0);
        assert(withdraw_post(h, owner).net_profit == 0);
    }
}

} // verus!
