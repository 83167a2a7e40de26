use house_staking::error::ContractError;
use house_staking::models::DelegationType;
use house_staking::query::get_client;
use house_staking::query::select;
use house_staking::state::initialize;

fn owner(s: &str) -> String {
    s.to_string()
}

#[test]
fn payments_need_a_registered_client() {
    let mut h = initialize();
    assert_eq!(
        h.receive_payment(&owner("X"), 5),
        Err(ContractError::NotAuthorized)
    );
    assert_eq!(
        h.send_payment(&owner("X"), 5),
        Err(ContractError::NotAuthorized)
    );
}

#[test]
fn set_client_needs_authority() {
    let mut h = initialize();
    assert_eq!(
        h.set_client(false, &owner("C"), 10, 7),
        Err(ContractError::NotAuthorized)
    );
    assert_eq!(h.clients.len(), 0);
}

#[test]
fn zero_cash_flows_are_rejected() {
    let mut h = initialize();
    h.set_client(true, &owner("C"), 1000, 7).unwrap();
    assert_eq!(
        h.receive_payment(&owner("C"), 0),
        Err(ContractError::MissingAmount)
    );
    assert_eq!(
        h.send_payment(&owner("C"), 0),
        Err(ContractError::MissingAmount)
    );
}

#[test]
fn overflowing_pool_totals_are_rejected() {
    let mut h = initialize();
    h.stake(&owner("A"), 1, u128::MAX, 0).unwrap();
    assert_eq!(
        h.stake(&owner("B"), 1, 1, 0),
        Err(ContractError::Overflow)
    );
    assert_eq!(h.net_growth_delegation, u128::MAX);
    assert_eq!(h.accounts.len(), 1);
}

#[test]
fn get_client_reports_missing_accounts() {
    let mut h = initialize();
    assert_eq!(
        get_client(&h, &owner("C")).map(|c| c.pct_liquidity),
        Err(ContractError::NotFound)
    );
    h.set_client(true, &owner("C"), 321, 7).unwrap();
    let c = get_client(&h, &owner("C")).unwrap();
    assert_eq!(c.pct_liquidity, 321);
    assert_eq!(c.owner, owner("C"));
    assert_eq!(c.amount_spent, 0);
    assert_eq!(c.amount_received, 0);
}

#[test]
fn select_projects_requested_fields() {
    let mut h = initialize();
    h.set_client(true, &owner("C"), 1000, 7).unwrap();
    h.stake(&owner("A"), 1, 100, 20).unwrap();
    h.receive_payment(&owner("C"), 60).unwrap();

    let all = select(&h, &None, &None);
    // income splits 60 * 100 / 120 = 50 growth, remainder 10 profit
    assert_eq!(all.total_liquidity, Some(150));
    assert_eq!(all.total_profit_claimable, Some(10));
    assert_eq!(
        all.pools.map(|p| (p.growth, p.profit)),
        Some((100, 20))
    );
    let stats = all.stats.unwrap();
    assert_eq!(stats.n_delegation_accounts, 1);
    assert_eq!(stats.n_client_accounts, 1);
    assert_eq!(stats.n_snapshots, 1);
    assert_eq!(all.snapshots.as_ref().map(|s| s.len()), Some(1));
    let snap = all.snapshots.unwrap()[0];
    assert_eq!(snap.income, 60);
    assert_eq!(snap.outlay, 0);
    assert_eq!(snap.growth_delegation, 100);
    assert_eq!(snap.profit_delegation, 20);
    assert_eq!(snap.claims_remaining, 2);
    assert!(all.account.is_none());

    let some = select(&h, &Some(vec![owner("liquidity")]), &None);
    assert_eq!(some.total_liquidity, Some(150));
    assert!(some.total_profit_claimable.is_none());
    assert!(some.snapshots.is_none());
    assert!(some.pools.is_none());
    assert!(some.stats.is_none());
}

#[test]
fn select_reports_claimable_amounts_per_wallet() {
    let mut h = initialize();
    h.set_client(true, &owner("C"), 1000, 7).unwrap();
    h.stake(&owner("A"), 1, 100, 0).unwrap();
    h.receive_payment(&owner("C"), 100).unwrap();
    h.stake(&owner("B"), 1, 100, 0).unwrap();
    h.receive_payment(&owner("C"), 100).unwrap();

    let view = select(&h, &None, &Some(owner("A"))).account.unwrap();
    assert_eq!(view.growth_delegation, 100);
    assert_eq!(view.profit_delegation, 0);
    // 100 * 100 / 100 from the first snapshot, 100 * 100 / 200 from the second
    assert_eq!(view.growth_claimable, 150);
    assert_eq!(view.loss_claimable, 0);
    assert_eq!(view.profit_claimable, 0);

    let client_view = select(&h, &None, &Some(owner("C"))).account.unwrap();
    assert_eq!(client_view.revenue_generated, 200);
    assert_eq!(client_view.liquidity_spent, 0);
    assert_eq!(client_view.growth_delegation, 0);

    // the read-only report consumed nothing: a real claim still pays out
    assert_eq!(h.withdraw(&owner("A")).unwrap(), 250);
}

#[test]
fn amortizer_collects_spent_snapshots() {
    let mut h = initialize();
    h.set_client(true, &owner("C"), 1000, 7).unwrap();
    h.stake(&owner("A"), 1, 100, 0).unwrap();
    h.receive_payment(&owner("C"), 100).unwrap();
    // A's claim decrements the snapshot's last reference and deletes it
    assert_eq!(h.snapshots.len(), 1);
    h.withdraw(&owner("A")).unwrap();
    assert_eq!(h.snapshots.len(), 0);
}

#[test]
fn amortizer_rotates_the_queue_and_memoizes() {
    let mut h = initialize();
    h.set_client(true, &owner("C"), 1000, 7).unwrap();
    h.stake(&owner("A"), 1, 100, 0).unwrap();
    h.receive_payment(&owner("C"), 100).unwrap();
    h.stake(&owner("A"), 1, 100, 0).unwrap();
    h.stake(&owner("B"), 1, 100, 0).unwrap();
    assert_eq!(h.memo_queue, vec![owner("A"), owner("B")]);
    h.amortize(1);
    // A's settled checkpoint is memoized and A rotates to the back
    assert_eq!(h.memo_queue, vec![owner("B"), owner("A")]);
    let a = h.accounts.iter().find(|x| x.owner == owner("A")).unwrap();
    assert_eq!(a.memoized_growth, 100);
    assert_eq!(a.growth_delegations.len(), 1);
    assert_eq!(h.snapshots.len(), 0);
    // a withdrawn owner's stale queue entry is dropped when popped
    h.withdraw(&owner("B")).unwrap();
    assert_eq!(h.memo_queue, vec![owner("B"), owner("A")]);
    h.amortize(1);
    assert_eq!(h.memo_queue, vec![owner("A")]);
}

#[test]
fn memoized_gains_count_toward_withdrawal() {
    let mut h = initialize();
    h.set_client(true, &owner("C"), 1000, 7).unwrap();
    h.stake(&owner("A"), 1, 100, 0).unwrap();
    h.receive_payment(&owner("C"), 100).unwrap();
    h.stake(&owner("A"), 1, 100, 0).unwrap();
    // this payment's amortizer pass settles A's first checkpoint:
    // the whole first snapshot's income is memoized
    h.receive_payment(&owner("C"), 60).unwrap();
    assert_eq!(h.accounts[0].memoized_growth, 100);
    assert_eq!(h.accounts[0].growth_delegations.len(), 1);
    h.stake(&owner("B"), 1, 200, 0).unwrap();
    h.receive_payment(&owner("C"), 120).unwrap();
    // A: 200 stake + 100 + 60 sole income shares + half of 120
    assert_eq!(h.withdraw(&owner("A")).unwrap(), 420);
    // B: 200 stake + half of 120
    assert_eq!(h.withdraw(&owner("B")).unwrap(), 260);
    assert_eq!(h.net_liquidity, 0);
    assert_eq!(h.snapshots.len(), 0);
}

#[test]
fn memoized_losses_count_against_withdrawal() {
    let mut h = initialize();
    h.set_client(true, &owner("C"), 1000, 7).unwrap();
    h.stake(&owner("A"), 1, 100, 0).unwrap();
    h.send_payment(&owner("C"), 40).unwrap();
    h.stake(&owner("A"), 1, 100, 0).unwrap();
    // the amortizer settles A's first checkpoint: the outlay is memoized
    h.receive_payment(&owner("C"), 200).unwrap();
    assert_eq!(h.accounts[0].memoized_loss, 40);
    // A: 200 stake + 200 income - 40 outlay
    assert_eq!(h.withdraw(&owner("A")).unwrap(), 360);
    assert_eq!(h.net_liquidity, 0);
}

#[test]
fn delegation_checkpoints_coalesce_within_an_epoch() {
    let mut h = initialize();
    h.set_client(true, &owner("C"), 1000, 7).unwrap();
    h.stake(&owner("A"), 1, 10, 0).unwrap();
    // no snapshot was created in between: the open checkpoint is topped up
    h.stake(&owner("A"), 1, 5, 0).unwrap();
    assert_eq!(h.accounts[0].growth_delegations.len(), 1);
    assert_eq!(h.accounts[0].growth_delegations[0].amount, 15);
    h.receive_payment(&owner("C"), 30).unwrap();
    // a snapshot exists now: the next stake writes a new checkpoint
    h.stake(&owner("A"), 1, 5, 0).unwrap();
    assert_eq!(h.accounts[0].growth_delegations.len(), 2);
    assert_eq!(h.accounts[0].growth_delegations[1].amount, 20);
    assert_eq!(h.net_growth_delegation, 20);
    assert_eq!(h.accounts[0].has_delegation(DelegationType::Profit), false);
}
