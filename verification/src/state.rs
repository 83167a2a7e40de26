//! The engine state: ledger totals, the snapshot log, delegation and
//! client accounts, and the amortization queue.

use vstd::pervasive::VecAdditionalExecFns;
use vstd::prelude::*;

use crate::claim::delegs_wf;
use crate::claim::entry_wf;
use crate::claim::snaps_wf;
use crate::error::ContractError;
use crate::models::ClientAccount;
use crate::models::ClientAccountView;
use crate::models::DelegationAccount;
use crate::models::DelegationAccountView;
use crate::models::DelegationType;
use crate::models::Snapshot;
use crate::models::SnapshotEntry;

verus! {

/// The whole engine state.  One value of this type is the single
/// instance the storage collaborator persists between messages.
pub struct House {
    /// Sum of active Growth-pool stakes.
    pub net_growth_delegation: u128,
    /// Sum of active Profit-pool stakes.
    pub net_profit_delegation: u128,
    /// Total spendable Growth-pool liquidity.
    pub net_liquidity: u128,
    /// Total unclaimed profit held on behalf of delegators.
    pub net_profit: u128,
    /// Sum of client `pct_liquidity` values, at most 1000.
    pub net_pct_allocated: u32,
    /// Number of owners with any Growth-pool checkpoint.
    pub growth_delegator_count: u32,
    /// Number of owners with any Profit-pool checkpoint.
    pub profit_delegator_count: u32,
    /// Index the next created snapshot will receive.
    pub snapshots_index: u128,
    /// Epoch counter: bumped by stake, withdraw and take_profit so the
    /// next cash-flow event opens a fresh snapshot.
    pub snapshot_seq_no: u128,
    /// The live snapshot log, ascending by index.
    pub snapshots: Vec<SnapshotEntry>,
    /// Delegator accounts, owners unique.
    pub accounts: Vec<DelegationAccount>,
    /// Client accounts, owners unique.
    pub clients: Vec<ClientAccount>,
    /// Round-robin cursor of the amortizer.
    pub memo_queue: Vec<String>,
}

/// Mathematical image of the whole engine state.
#[verifier::ext_equal]
pub struct HouseView {
    /// Sum of active Growth-pool stakes.
    pub net_growth_delegation: u128,
    /// Sum of active Profit-pool stakes.
    pub net_profit_delegation: u128,
    /// Total spendable Growth-pool liquidity.
    pub net_liquidity: u128,
    /// Total unclaimed profit held on behalf of delegators.
    pub net_profit: u128,
    /// Sum of client `pct_liquidity` values.
    pub net_pct_allocated: u32,
    /// Number of owners with any Growth-pool checkpoint.
    pub growth_delegator_count: u32,
    /// Number of owners with any Profit-pool checkpoint.
    pub profit_delegator_count: u32,
    /// Index the next created snapshot will receive.
    pub snapshots_index: u128,
    /// Epoch counter.
    pub snapshot_seq_no: u128,
    /// The live snapshot log.
    pub snapshots: Seq<SnapshotEntry>,
    /// Delegator accounts.
    pub accounts: Seq<DelegationAccountView>,
    /// Client accounts.
    pub clients: Seq<ClientAccountView>,
    /// Round-robin cursor of the amortizer.
    pub memo_queue: Seq<Seq<char>>,
}

impl View for House {
    type V = HouseView;

    open spec fn view(&self) -> HouseView {
        HouseView {
            net_growth_delegation: self.net_growth_delegation,
            net_profit_delegation: self.net_profit_delegation,
            net_liquidity: self.net_liquidity,
            net_profit: self.net_profit,
            net_pct_allocated: self.net_pct_allocated,
            growth_delegator_count: self.growth_delegator_count,
            profit_delegator_count: self.profit_delegator_count,
            snapshots_index: self.snapshots_index,
            snapshot_seq_no: self.snapshot_seq_no,
            snapshots: self.snapshots@,
            accounts: Seq::new(self.accounts@.len(), |i: int| self.accounts@[i]@),
            clients: Seq::new(self.clients@.len(), |i: int| self.clients@[i]@),
            memo_queue: Seq::new(self.memo_queue@.len(), |i: int| self.memo_queue@[i]@),
        }
    }
}

/// Sum of a measure over a sequence.
pub open spec fn sum_by<A>(s: Seq<A>, f: spec_fn(A) -> int) -> int
    decreases s.len(),
{
    if s.len() == 0 {
        0
    } else {
        sum_by(s.drop_last(), f) + f(s.last())
    }
}

/// Updating one element moves the sum by the measures' difference.
pub proof fn lemma_sum_by_update<A>(s: Seq<A>, k: int, x: A, f: spec_fn(A) -> int)
    requires
        0 <= k < s.len(),
    ensures
        sum_by(s.update(k, x), f) == sum_by(s, f) - f(s[k]) + f(x),
    decreases s.len(),
{
    let t = s.update(k, x);
    if k == s.len() - 1 {
        assert(t.drop_last() =~= s.drop_last());
        assert(t.last() == x);
    } else {
        assert(t.drop_last() =~= s.drop_last().update(k, x));
        assert(t.last() == s.last());
        lemma_sum_by_update(s.drop_last(), k, x, f);
    }
}

/// Removing one element takes its measure out of the sum.
pub proof fn lemma_sum_by_remove<A>(s: Seq<A>, k: int, f: spec_fn(A) -> int)
    requires
        0 <= k < s.len(),
    ensures
        sum_by(s.remove(k), f) == sum_by(s, f) - f(s[k]),
    decreases s.len(),
{
    let t = s.remove(k);
    if k == s.len() - 1 {
        assert(t =~= s.drop_last());
    } else {
        assert(t.drop_last() =~= s.drop_last().remove(k));
        assert(t.last() == s.last());
        lemma_sum_by_remove(s.drop_last(), k, f);
    }
}

/// A sum of nonnegative measures is nonnegative.
pub proof fn lemma_sum_by_nonneg<A>(s: Seq<A>, f: spec_fn(A) -> int)
    requires
        forall|i: int| 0 <= i < s.len() ==> f(#[trigger] s[i]) >= 0,
    ensures
        sum_by(s, f) >= 0,
    decreases s.len(),
{
    if s.len() == 0 {
    } else {
        let prev = s.drop_last();
        assert(forall|i: int| 0 <= i < prev.len() ==> prev[i] == s[i]);
        lemma_sum_by_nonneg(prev, f);
    }
}

/// With nonnegative measures, each element's measure is at most the sum.
pub proof fn lemma_sum_by_le<A>(s: Seq<A>, k: int, f: spec_fn(A) -> int)
    requires
        0 <= k < s.len(),
        forall|i: int| 0 <= i < s.len() ==> f(#[trigger] s[i]) >= 0,
    ensures
        f(s[k]) <= sum_by(s, f),
    decreases s.len(),
{
    let prev = s.drop_last();
    assert(forall|i: int| 0 <= i < prev.len() ==> prev[i] == s[i]);
    if k == s.len() - 1 {
        lemma_sum_by_nonneg(prev, f);
    } else {
        lemma_sum_by_le(prev, k, f);
    }
}

/// Sum of the latest checkpoint amounts of one pool over all accounts.
pub open spec fn sum_latest(accts: Seq<DelegationAccountView>, target: DelegationType) -> int {
    sum_by(accts, |a: DelegationAccountView| a.latest_amount(target))
}

/// Number of accounts holding any checkpoint in one pool.
pub open spec fn count_delegators(accts: Seq<DelegationAccountView>, target: DelegationType) -> int {
    sum_by(
        accts,
        |a: DelegationAccountView|
            if a.delegations(target).len() > 0 {
                1int
            } else {
                0int
            },
    )
}

/// Sum of the clients' liquidity fractions.
pub open spec fn sum_pct(clients: Seq<ClientAccountView>) -> int {
    sum_by(clients, |c: ClientAccountView| c.pct_liquidity as int)
}

/// With well-formed checkpoint lists, pool sums and delegator counts are
/// nonnegative, and a pool with any delegator holds a positive total.
pub proof fn lemma_pool_sums(
    accts: Seq<DelegationAccountView>,
    target: DelegationType,
    next_index: int,
)
    requires
        forall|i: int|
            0 <= i < accts.len() ==> delegs_wf(
                (#[trigger] accts[i]).delegations(target),
                next_index,
            ),
    ensures
        sum_latest(accts, target) >= 0,
        count_delegators(accts, target) >= 0,
        count_delegators(accts, target) > 0 ==> sum_latest(accts, target) >= 1,
        count_delegators(accts, target) <= accts.len(),
    decreases accts.len(),
{
    if accts.len() == 0 {
    } else {
        let prev = accts.drop_last();
        let a = accts.last();
        assert(forall|i: int| 0 <= i < prev.len() ==> prev[i] == accts[i]);
        lemma_pool_sums(prev, target, next_index);
        let d = a.delegations(target);
        if d.len() > 0 {
            assert(d[d.len() - 1].amount >= 1);
        }
    }
}

impl HouseView {
    /// Whether a delegator account with this owner exists.
    pub open spec fn has_account(self, owner: Seq<char>) -> bool {
        exists|i: int| 0 <= i < self.accounts.len() && (#[trigger] self.accounts[i]).owner == owner
    }

    /// Index of the delegator account with this owner.
    pub open spec fn account_idx(self, owner: Seq<char>) -> int {
        choose|i: int| 0 <= i < self.accounts.len() && (#[trigger] self.accounts[i]).owner == owner
    }

    /// The delegator account with this owner.
    pub open spec fn account(self, owner: Seq<char>) -> DelegationAccountView {
        self.accounts[self.account_idx(owner)]
    }

    /// Whether a client account with this owner exists.
    pub open spec fn has_client(self, owner: Seq<char>) -> bool {
        exists|i: int| 0 <= i < self.clients.len() && (#[trigger] self.clients[i]).owner == owner
    }

    /// Index of the client account with this owner.
    pub open spec fn client_idx(self, owner: Seq<char>) -> int {
        choose|i: int| 0 <= i < self.clients.len() && (#[trigger] self.clients[i]).owner == owner
    }

    /// The client account with this owner.
    pub open spec fn client(self, owner: Seq<char>) -> ClientAccountView {
        self.clients[self.client_idx(owner)]
    }

    /// Combined stake of both pools.
    pub open spec fn net_delegation(self) -> int {
        self.net_growth_delegation + self.net_profit_delegation
    }

    /// Global well-formedness: the snapshot log and every checkpoint list
    /// are well-formed, owners are unique, the ledger counters agree with
    /// the records, and the allocated liquidity fractions stay within
    /// 100 %.
    pub open spec fn wf(self) -> bool {
        &&& snaps_wf(self.snapshots, self.snapshots_index as int)
        &&& forall|i: int, j: int|
            0 <= i < j < self.accounts.len() ==> (#[trigger] self.accounts[i]).owner != (
            #[trigger] self.accounts[j]).owner
        &&& forall|i: int|
            0 <= i < self.accounts.len() ==> delegs_wf(
                (#[trigger] self.accounts[i]).growth_delegations,
                self.snapshots_index as int,
            )
        &&& forall|i: int|
            0 <= i < self.accounts.len() ==> delegs_wf(
                (#[trigger] self.accounts[i]).profit_delegations,
                self.snapshots_index as int,
            )
        &&& forall|i: int, j: int|
            0 <= i < j < self.clients.len() ==> (#[trigger] self.clients[i]).owner != (
            #[trigger] self.clients[j]).owner
        &&& forall|i: int| 0 <= i < self.clients.len() ==> (#[trigger] self.clients[i]).pct_liquidity <= 1000
        &&& self.net_growth_delegation as int == sum_latest(self.accounts, DelegationType::Growth)
        &&& self.net_profit_delegation as int == sum_latest(self.accounts, DelegationType::Profit)
        &&& self.growth_delegator_count as int == count_delegators(
            self.accounts,
            DelegationType::Growth,
        )
        &&& self.profit_delegator_count as int == count_delegators(
            self.accounts,
            DelegationType::Profit,
        )
        &&& self.net_pct_allocated as int == sum_pct(self.clients)
        &&& self.net_pct_allocated <= 1000
    }
}

/// If the account at position `k` carries this owner and owners are
/// unique, then `k` is the account index the specification names.
pub proof fn lemma_account_idx(h: HouseView, owner: Seq<char>, k: int)
    requires
        h.wf(),
        0 <= k < h.accounts.len(),
        h.accounts[k].owner == owner,
    ensures
        h.has_account(owner),
        h.account_idx(owner) == k,
{
    assert(h.has_account(owner));
    let i = h.account_idx(owner);
    if i != k {
        if i < k {
            assert(h.accounts[i].owner != h.accounts[k].owner);
        } else {
            assert(h.accounts[k].owner != h.accounts[i].owner);
        }
    }
}

/// If the client at position `k` carries this owner and owners are
/// unique, then `k` is the client index the specification names.
pub proof fn lemma_client_idx(h: HouseView, owner: Seq<char>, k: int)
    requires
        h.wf(),
        0 <= k < h.clients.len(),
        h.clients[k].owner == owner,
    ensures
        h.has_client(owner),
        h.client_idx(owner) == k,
{
    assert(h.has_client(owner));
    let i = h.client_idx(owner);
    if i != k {
        if i < k {
            assert(h.clients[i].owner != h.clients[k].owner);
        } else {
            assert(h.clients[k].owner != h.clients[i].owner);
        }
    }
}

/// The empty, freshly instantiated engine state.
pub fn initialize() -> (h: House)
    ensures
        h@.wf(),
        h@.net_growth_delegation == 0,
        h@.net_profit_delegation == 0,
        h@.net_liquidity == 0,
        h@.net_profit == 0,
        h@.net_pct_allocated == 0,
        h@.growth_delegator_count == 0,
        h@.profit_delegator_count == 0,
        h@.snapshots_index == 0,
        h@.snapshot_seq_no == 0,
        h@.snapshots =~= Seq::<SnapshotEntry>::empty(),
        h@.accounts =~= Seq::<DelegationAccountView>::empty(),
        h@.clients =~= Seq::<ClientAccountView>::empty(),
        h@.memo_queue =~= Seq::<Seq<char>>::empty(),
{
    House {
        net_growth_delegation: 0,
        net_profit_delegation: 0,
        net_liquidity: 0,
        net_profit: 0,
        net_pct_allocated: 0,
        growth_delegator_count: 0,
        profit_delegator_count: 0,
        snapshots_index: 0,
        snapshot_seq_no: 0,
        snapshots: Vec::new(),
        accounts: Vec::new(),
        clients: Vec::new(),
        memo_queue: Vec::new(),
    }
}

impl DelegationAccount {
    /// Number of delegator accounts.
    pub fn get_count(h: &House) -> (r: usize)
        ensures
            r == h@.accounts.len(),
    {
        h.accounts.len()
    }
}

impl House {
    /// Position of the delegator account with this owner, if any.
    pub fn find_account(&self, owner: &String) -> (r: Option<usize>)
        ensures
            match r {
                Some(k) => 0 <= k < self@.accounts.len() && self@.accounts[k as int].owner
                    == owner@,
                None => forall|i: int|
                    0 <= i < self@.accounts.len() ==> (#[trigger] self@.accounts[i]).owner
                        != owner@,
            },
    {
        let n = self.accounts.len();
        let mut i: usize = 0;
        while i < n
            invariant
                n == self@.accounts.len(),
                i <= n,
                forall|j: int| 0 <= j < i ==> (#[trigger] self@.accounts[j]).owner != owner@,
            decreases n - i,
        {
            if self.accounts[i].owner == *owner {
                return Some(i);
            }
            i += 1;
        }
        None
    }

    /// Position of the client account with this owner, if any.
    pub fn find_client(&self, owner: &String) -> (r: Option<usize>)
        ensures
            match r {
                Some(k) => 0 <= k < self@.clients.len() && self@.clients[k as int].owner == owner@,
                None => forall|i: int|
                    0 <= i < self@.clients.len() ==> (#[trigger] self@.clients[i]).owner != owner@,
            },
    {
        let n = self.clients.len();
        let mut i: usize = 0;
        while i < n
            invariant
                n == self@.clients.len(),
                i <= n,
                forall|j: int| 0 <= j < i ==> (#[trigger] self@.clients[j]).owner != owner@,
            decreases n - i,
        {
            if self.clients[i].owner == *owner {
                return Some(i);
            }
            i += 1;
        }
        None
    }
}

/// Checkpoint-list well-formedness is monotone in the frontier.
pub proof fn lemma_delegs_wf_mono(d: Seq<crate::models::Delegation>, n1: int, n2: int)
    requires
        delegs_wf(d, n1),
        n1 <= n2,
    ensures
        delegs_wf(d, n2),
{
}

/// Whether a cash-flow event coalesces into the currently open snapshot:
/// the latest snapshot exists and carries the current epoch.
pub open spec fn upsert_coalesces(h: HouseView) -> bool {
    h.snapshots.len() > 0 && h.snapshots.last().snapshot.seq_no == h.snapshot_seq_no
}

/// The arithmetic side conditions under which a snapshot upsert goes
/// through.
pub open spec fn upsert_ok(h: HouseView, income: u128, outlay: u128) -> bool {
    if upsert_coalesces(h) {
        &&& h.snapshots.last().snapshot.income + income <= u128::MAX
        &&& h.snapshots.last().snapshot.outlay + outlay <= u128::MAX
    } else {
        &&& h.snapshots_index < u128::MAX
        &&& h.growth_delegator_count + h.profit_delegator_count <= u32::MAX
        &&& (h.growth_delegator_count + h.profit_delegator_count > 0
            ==> h.net_growth_delegation + h.net_profit_delegation <= u128::MAX)
    }
}

/// The snapshot a successful upsert returns: the open snapshot with the
/// event's income and outlay folded in, or a fresh one stamped with the
/// current epoch, pool totals and delegator count.
pub open spec fn upsert_snapshot(h: HouseView, income: u128, outlay: u128) -> Snapshot {
    if upsert_coalesces(h) {
        Snapshot {
            income: (h.snapshots.last().snapshot.income + income) as u128,
            outlay: (h.snapshots.last().snapshot.outlay + outlay) as u128,
            ..h.snapshots.last().snapshot
        }
    } else {
        Snapshot {
            seq_no: h.snapshot_seq_no,
            claims_remaining: (h.growth_delegator_count + h.profit_delegator_count) as u32,
            growth_delegation: h.net_growth_delegation,
            profit_delegation: h.net_profit_delegation,
            income,
            outlay,
        }
    }
}

/// The engine state after a successful upsert.  A fresh snapshot with no
/// claimants is dropped on the spot: only the index moves.
pub open spec fn upsert_post(h: HouseView, income: u128, outlay: u128) -> HouseView {
    if upsert_coalesces(h) {
        HouseView {
            snapshots: h.snapshots.update(
                h.snapshots.len() - 1,
                SnapshotEntry {
                    index: h.snapshots.last().index,
                    snapshot: upsert_snapshot(h, income, outlay),
                },
            ),
            ..h
        }
    } else if h.growth_delegator_count + h.profit_delegator_count == 0 {
        HouseView { snapshots_index: (h.snapshots_index + 1) as u128, ..h }
    } else {
        HouseView {
            snapshots: h.snapshots.push(
                SnapshotEntry {
                    index: h.snapshots_index,
                    snapshot: upsert_snapshot(h, income, outlay),
                },
            ),
            snapshots_index: (h.snapshots_index + 1) as u128,
            ..h
        }
    }
}

impl Snapshot {
    /// The most recent live snapshot with its index, if any exists.
    pub fn get_latest(h: &House) -> (r: Option<SnapshotEntry>)
        ensures
            match r {
                Some(e) => h@.snapshots.len() > 0 && e == h@.snapshots.last(),
                None => h@.snapshots.len() == 0,
            },
    {
        let n = h.snapshots.len();
        if n == 0 {
            None
        } else {
            Some(h.snapshots[n - 1])
        }
    }

    /// The index the next created snapshot will receive.
    pub fn get_next_index(h: &House) -> (r: u128)
        ensures
            r == h@.snapshots_index,
    {
        h.snapshots_index
    }

    /// Number of live snapshots.
    pub fn get_count(h: &House) -> (r: usize)
        ensures
            r == h@.snapshots.len(),
    {
        h.snapshots.len()
    }

    /// Allocate the next snapshot index.
    pub fn get_next_index_and_increment(h: &mut House) -> (r: Result<u128, ContractError>)
        requires
            old(h)@.wf(),
        ensures
            match r {
                Ok(i) => {
                    &&& old(h)@.snapshots_index < u128::MAX
                    &&& i == old(h)@.snapshots_index
                    &&& final(h)@ == (HouseView {
                        snapshots_index: (old(h)@.snapshots_index + 1) as u128,
                        ..old(h)@
                    })
                    &&& final(h)@.wf()
                },
                Err(e) => {
                    &&& e == ContractError::Overflow
                    &&& old(h)@.snapshots_index == u128::MAX
                    &&& *final(h) == *old(h)
                },
            },
    {
        let ghost h0 = h@;
        match h.snapshots_index.checked_add(1) {
            Some(next) => {
                let i = h.snapshots_index;
                h.snapshots_index = next;
                proof {
                    let h1 = h@;
                    assert(h1 =~~= HouseView {
                        snapshots_index: (h0.snapshots_index + 1) as u128,
                        ..h0
                    });
                    lemma_upsert_frontier_wf(h0, h1);
                }
                Ok(i)
            },
            None => Err(ContractError::Overflow),
        }
    }
}

impl Snapshot {
    /// Record a cash-flow event in the snapshot log: fold it into the
    /// open snapshot when the epoch has not moved, otherwise create a
    /// fresh snapshot stamped with the current pool totals and delegator
    /// count — and drop it on the spot when there is no claimant.
    pub fn upsert(h: &mut House, income: u128, outlay: u128) -> (r: Result<Snapshot, ContractError>)
        requires
            old(h)@.wf(),
        ensures
            match r {
                Ok(s) => {
                    &&& upsert_ok(old(h)@, income, outlay)
                    &&& s == upsert_snapshot(old(h)@, income, outlay)
                    &&& final(h)@ == upsert_post(old(h)@, income, outlay)
                    &&& final(h)@.wf()
                },
                Err(e) => {
                    &&& e == ContractError::Overflow
                    &&& !upsert_ok(old(h)@, income, outlay)
                    &&& *final(h) == *old(h)
                },
            },
    {
        let ghost h0 = h@;
        let n = h.snapshots.len();
        if n > 0 {
            let last = h.snapshots[n - 1];
            proof {
                assert(last == h0.snapshots.last());
            }
            if last.snapshot.seq_no == h.snapshot_seq_no {
                let income2 = match last.snapshot.income.checked_add(income) {
                    Some(v) => v,
                    None => {
                        return Err(ContractError::Overflow);
                    },
                };
                let outlay2 = match last.snapshot.outlay.checked_add(outlay) {
                    Some(v) => v,
                    None => {
                        return Err(ContractError::Overflow);
                    },
                };
                let snap = Snapshot { income: income2, outlay: outlay2, ..last.snapshot };
                h.snapshots.set(n - 1, SnapshotEntry { index: last.index, snapshot: snap });
                proof {
                    let h1 = h@;
                    assert(h1 =~~= upsert_post(h0, income, outlay));
                    assert forall|i: int, j: int|
                        0 <= i < j < h1.snapshots.len() implies (#[trigger] h1.snapshots[i].index)
                        < (#[trigger] h1.snapshots[j].index) by {
                        assert(h0.snapshots[i].index < h0.snapshots[j].index);
                        assert(h1.snapshots[i].index == h0.snapshots[i].index);
                        assert(h1.snapshots[j].index == h0.snapshots[j].index);
                    }
                    assert forall|i: int| 0 <= i < h1.snapshots.len() implies entry_wf(
                        #[trigger] h1.snapshots[i],
                        h1.snapshots_index as int,
                    ) by {
                        assert(entry_wf(h0.snapshots[i], h0.snapshots_index as int));
                    }
                }
                return Ok(snap);
            }
        }
        let i_next = match h.snapshots_index.checked_add(1) {
            Some(v) => v,
            None => {
                return Err(ContractError::Overflow);
            },
        };
        let claims = match h.growth_delegator_count.checked_add(h.profit_delegator_count) {
            Some(c) => c,
            None => {
                return Err(ContractError::Overflow);
            },
        };
        let snap = Snapshot {
            seq_no: h.snapshot_seq_no,
            claims_remaining: claims,
            growth_delegation: h.net_growth_delegation,
            profit_delegation: h.net_profit_delegation,
            income,
            outlay,
        };
        if claims == 0 {
            h.snapshots_index = i_next;
            proof {
                let h1 = h@;
                assert(h1 =~~= upsert_post(h0, income, outlay));
                lemma_upsert_frontier_wf(h0, h1);
            }
            return Ok(snap);
        }
        match h.net_growth_delegation.checked_add(h.net_profit_delegation) {
            Some(_) => {},
            None => {
                return Err(ContractError::Overflow);
            },
        };
        h.snapshots.push(SnapshotEntry { index: h.snapshots_index, snapshot: snap });
        h.snapshots_index = i_next;
        proof {
            let h1 = h@;
            assert(h1 =~~= upsert_post(h0, income, outlay));
            let e = SnapshotEntry { index: h0.snapshots_index, snapshot: snap };
            assert(h1.snapshots =~= h0.snapshots.push(e));
            assert forall|i: int, j: int|
                0 <= i < j < h1.snapshots.len() implies (#[trigger] h1.snapshots[i].index) < (
            #[trigger] h1.snapshots[j].index) by {
                if j < h0.snapshots.len() {
                    assert(h0.snapshots[i].index < h0.snapshots[j].index);
                } else {
                    assert(h1.snapshots[i] == h0.snapshots[i]);
                    assert((h0.snapshots[i].index as int) < h0.snapshots_index as int);
                }
            }
            lemma_pool_sums(h0.accounts, DelegationType::Growth, h0.snapshots_index as int);
            lemma_pool_sums(h0.accounts, DelegationType::Profit, h0.snapshots_index as int);
            assert(1 <= e.snapshot.spec_total_delegation() <= u128::MAX);
            assert forall|i: int| 0 <= i < h1.snapshots.len() implies entry_wf(
                #[trigger] h1.snapshots[i],
                h1.snapshots_index as int,
            ) by {
                if i < h0.snapshots.len() {
                    assert(entry_wf(h0.snapshots[i], h0.snapshots_index as int));
                }
            }
            assert forall|i: int| 0 <= i < h1.accounts.len() implies delegs_wf(
                (#[trigger] h1.accounts[i]).growth_delegations,
                h1.snapshots_index as int,
            ) && delegs_wf(
                (#[trigger] h1.accounts[i]).profit_delegations,
                h1.snapshots_index as int,
            ) by {
                lemma_delegs_wf_mono(
                    h0.accounts[i].growth_delegations,
                    h0.snapshots_index as int,
                    h1.snapshots_index as int,
                );
                lemma_delegs_wf_mono(
                    h0.accounts[i].profit_delegations,
                    h0.snapshots_index as int,
                    h1.snapshots_index as int,
                );
            }
        }
        Ok(snap)
    }
}

/// Raising the snapshot frontier (and nothing else) keeps the state
/// well-formed.
proof fn lemma_upsert_frontier_wf(h0: HouseView, h1: HouseView)
    requires
        h0.wf(),
        h0.snapshots_index <= h1.snapshots_index,
        h1 == (HouseView { snapshots_index: h1.snapshots_index, ..h0 }),
    ensures
        h1.wf(),
{
    assert forall|i: int| 0 <= i < h1.snapshots.len() implies entry_wf(
        #[trigger] h1.snapshots[i],
        h1.snapshots_index as int,
    ) by {
        assert(entry_wf(h0.snapshots[i], h0.snapshots_index as int));
    }
    assert forall|i: int| 0 <= i < h1.accounts.len() implies delegs_wf(
        (#[trigger] h1.accounts[i]).growth_delegations,
        h1.snapshots_index as int,
    ) && delegs_wf((#[trigger] h1.accounts[i]).profit_delegations, h1.snapshots_index as int) by {
        lemma_delegs_wf_mono(
            h0.accounts[i].growth_delegations,
            h0.snapshots_index as int,
            h1.snapshots_index as int,
        );
        lemma_delegs_wf_mono(
            h0.accounts[i].profit_delegations,
            h0.snapshots_index as int,
            h1.snapshots_index as int,
        );
    }
}

} // verus!
