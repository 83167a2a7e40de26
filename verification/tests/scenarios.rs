use house_staking::error::ContractError;
use house_staking::state::initialize;
use house_staking::state::House;
use house_staking::util::mul_pct;

fn owner(s: &str) -> String {
    s.to_string()
}

fn with_client(pct: u32) -> House {
    let mut h = initialize();
    h.set_client(true, &owner("C"), pct, 7).unwrap();
    h
}

#[test]
fn single_staker_income_and_full_withdrawal() {
    // instantiate; set_client(C, 1000); stake A (growth 100, profit 0);
    // receive_payment(C, 50); take_profit(A) -> 0; withdraw(A) -> 150
    let mut h = with_client(1000);
    h.stake(&owner("A"), 1, 100, 0).unwrap();
    assert_eq!(h.net_liquidity, 100);
    h.receive_payment(&owner("C"), 50).unwrap();
    assert_eq!(h.net_liquidity, 150);
    assert_eq!(h.take_profit(&owner("A")).unwrap(), 0);
    assert_eq!(h.withdraw(&owner("A")).unwrap(), 150);
    assert_eq!(h.net_liquidity, 0);
    assert_eq!(h.accounts.len(), 0);
}

#[test]
fn two_equal_stakers_split_profit() {
    // A and B stake (50, 50) each; receive_payment(C, 100);
    // each take_profit -> 25; liquidity is 100 stakes + 50 growth
    let mut h = with_client(1000);
    h.stake(&owner("A"), 1, 50, 50).unwrap();
    h.stake(&owner("B"), 1, 50, 50).unwrap();
    h.receive_payment(&owner("C"), 100).unwrap();
    assert_eq!(h.net_liquidity, 150);
    assert_eq!(h.take_profit(&owner("A")).unwrap(), 25);
    assert_eq!(h.take_profit(&owner("B")).unwrap(), 25);
    assert_eq!(h.net_profit, 0);
}

#[test]
fn growth_stakers_absorb_outlay() {
    // A=100, B=300 growth-only; send_payment(C, 40);
    // withdraw(A) -> 90; withdraw(B) -> 270
    let mut h = with_client(1000);
    h.stake(&owner("A"), 1, 100, 0).unwrap();
    h.stake(&owner("B"), 1, 300, 0).unwrap();
    h.send_payment(&owner("C"), 40).unwrap();
    assert_eq!(h.net_liquidity, 360);
    assert_eq!(h.withdraw(&owner("A")).unwrap(), 90);
    assert_eq!(h.withdraw(&owner("B")).unwrap(), 270);
    assert_eq!(h.net_liquidity, 0);
}

#[test]
fn late_staker_shares_only_later_income() {
    // A stakes (100, 0); receive 100; B stakes (100, 0); receive 100;
    // A claims -> 0 profit; withdraw(A) -> 250; withdraw(B) -> 150
    let mut h = with_client(1000);
    h.stake(&owner("A"), 1, 100, 0).unwrap();
    h.receive_payment(&owner("C"), 100).unwrap();
    h.stake(&owner("B"), 1, 100, 0).unwrap();
    h.receive_payment(&owner("C"), 100).unwrap();
    assert_eq!(h.take_profit(&owner("A")).unwrap(), 0);
    assert_eq!(h.withdraw(&owner("A")).unwrap(), 250);
    assert_eq!(h.withdraw(&owner("B")).unwrap(), 150);
}

#[test]
fn allowance_boundary() {
    // set_client(C, 200); liquidity 1000; send 201 is refused, send 200 is not
    let mut h = with_client(200);
    h.stake(&owner("A"), 1, 1000, 0).unwrap();
    assert_eq!(h.net_liquidity, 1000);
    assert_eq!(
        h.send_payment(&owner("C"), 201),
        Err(ContractError::InsufficientAllowance)
    );
    assert_eq!(h.net_liquidity, 1000);
    h.send_payment(&owner("C"), 200).unwrap();
    assert_eq!(h.net_liquidity, 800);
}

#[test]
fn allocated_fractions_capped() {
    // set_client(C1, 600); set_client(C2, 500) -> InsufficientLiquidity
    let mut h = initialize();
    h.set_client(true, &owner("C1"), 600, 7).unwrap();
    assert_eq!(
        h.set_client(true, &owner("C2"), 500, 7),
        Err(ContractError::InsufficientLiquidity)
    );
    assert_eq!(h.net_pct_allocated, 600);
    h.set_client(true, &owner("C2"), 400, 7).unwrap();
    assert_eq!(h.net_pct_allocated, 1000);
    // re-registering replaces the old fraction instead of stacking it
    h.set_client(true, &owner("C1"), 100, 7).unwrap();
    assert_eq!(h.net_pct_allocated, 500);
}

#[test]
fn take_profit_twice_returns_value_then_zero() {
    let mut h = with_client(1000);
    h.stake(&owner("A"), 1, 50, 50).unwrap();
    h.stake(&owner("B"), 1, 50, 50).unwrap();
    h.receive_payment(&owner("C"), 100).unwrap();
    assert_eq!(h.take_profit(&owner("A")).unwrap(), 25);
    assert_eq!(h.take_profit(&owner("A")).unwrap(), 0);
}

#[test]
fn non_claimant_take_profit_gets_nothing() {
    let mut h = with_client(1000);
    h.stake(&owner("A"), 1, 50, 50).unwrap();
    h.receive_payment(&owner("C"), 100).unwrap();
    assert_eq!(h.net_profit, 50);
    // X holds no delegation account while exactly one account (A's)
    // exists: the pot belongs to A and stays put
    assert_eq!(h.take_profit(&owner("X")).unwrap(), 0);
    assert_eq!(h.net_profit, 50);
    assert_eq!(h.take_profit(&owner("A")).unwrap(), 50);
    assert_eq!(h.net_profit, 0);
}

#[test]
fn zero_stake_is_rejected_and_changes_nothing() {
    let mut h = with_client(1000);
    h.stake(&owner("A"), 1, 30, 12).unwrap();
    let seq = h.snapshot_seq_no;
    assert_eq!(h.stake(&owner("A"), 1, 0, 0), Err(ContractError::MissingAmount));
    assert_eq!(h.net_growth_delegation, 30);
    assert_eq!(h.net_profit_delegation, 12);
    assert_eq!(h.net_liquidity, 30);
    assert_eq!(h.snapshot_seq_no, seq);
}

#[test]
fn income_without_delegators_goes_to_liquidity() {
    let mut h = with_client(1000);
    h.receive_payment(&owner("C"), 77).unwrap();
    assert_eq!(h.net_liquidity, 77);
    assert_eq!(h.net_profit, 0);
    // the snapshot had no claimant and was dropped on the spot
    assert_eq!(h.snapshots.len(), 0);
    assert_eq!(h.snapshots_index, 1);
}

#[test]
fn sending_full_liquidity_leaves_zero() {
    let mut h = with_client(1000);
    h.stake(&owner("A"), 1, 500, 0).unwrap();
    h.send_payment(&owner("C"), 500).unwrap();
    assert_eq!(h.net_liquidity, 0);
}

#[test]
fn sending_full_liquidity_needs_full_allowance() {
    let mut h = with_client(999);
    h.stake(&owner("A"), 1, 500, 0).unwrap();
    // ceiling is 500 * 999 / 1000 = 499
    assert_eq!(
        h.send_payment(&owner("C"), 500),
        Err(ContractError::InsufficientAllowance)
    );
}

#[test]
fn fraction_multiplication_truncates() {
    assert_eq!(mul_pct(1001, 250), 250);
    assert_eq!(mul_pct(1000, 1000), 1000);
    assert_eq!(mul_pct(999, 0), 0);
    assert_eq!(mul_pct(5, 990), 4);
}

#[test]
fn last_withdrawer_takes_the_dust() {
    // income 10 over three growth stakes of 1 each leaves sub-unit dust
    let mut h = with_client(1000);
    h.stake(&owner("A"), 1, 1, 0).unwrap();
    h.stake(&owner("B"), 1, 1, 0).unwrap();
    h.stake(&owner("D"), 1, 1, 0).unwrap();
    h.receive_payment(&owner("C"), 10).unwrap();
    assert_eq!(h.net_liquidity, 13);
    // each staker's share is 10 / 3 = 3; the last one also gets the rest
    assert_eq!(h.withdraw(&owner("A")).unwrap(), 4);
    assert_eq!(h.withdraw(&owner("B")).unwrap(), 4);
    let rest = h.withdraw(&owner("D")).unwrap();
    assert_eq!(rest, 5);
    assert_eq!(h.net_liquidity, 0);
    assert_eq!(h.net_profit, 0);
}
