//! The claim algorithm: folding a delegator's checkpoint segments over the
//! snapshot log.
//!
//! A checkpoint list `[d_0, .., d_m]` describes stake levels over snapshot
//! ranges: `d_i` spans `[d_i.i_snapshot, d_{i+1}.i_snapshot)`, and the final
//! checkpoint spans up to the current snapshot frontier.  Claiming walks
//! each segment over the snapshots that still exist, accumulating
//!
//! * `gain  += income * amount / (growth_delegation + profit_delegation)`
//! * `loss  += outlay * amount / growth_delegation`   (Growth pool only)
//!
//! and decrements each visited snapshot's reference count, deleting it at
//! zero.  Consumed checkpoints are deleted; the final checkpoint is left
//! open (amortizing mode) or re-anchored at the frontier.

use vstd::prelude::*;

use crate::error::ContractError;
use crate::models::Delegation;
use crate::models::Snapshot;
use crate::models::SnapshotEntry;
use crate::util::copy_vec;
use crate::util::mul_ratio;

verus! {

/// Well-formedness of one stored snapshot: its index is below the next
/// free index, it still has a live reference, and its combined pool total
/// is a usable divisor.
pub open spec fn entry_wf(e: SnapshotEntry, next_index: int) -> bool {
    &&& (e.index as int) < next_index
    &&& e.snapshot.claims_remaining >= 1
    &&& 1 <= e.snapshot.spec_total_delegation() <= u128::MAX
}

/// Snapshot indices are strictly ascending.
pub open spec fn snaps_sorted(snaps: Seq<SnapshotEntry>) -> bool {
    forall|i: int, j: int|
        0 <= i < j < snaps.len() ==> #[trigger] snaps[i].index < #[trigger] snaps[j].index
}

/// Well-formedness of the snapshot log.
pub open spec fn snaps_wf(snaps: Seq<SnapshotEntry>, next_index: int) -> bool {
    &&& snaps_sorted(snaps)
    &&& forall|i: int| 0 <= i < snaps.len() ==> entry_wf(#[trigger] snaps[i], next_index)
}

/// Well-formedness of a checkpoint list: anchors strictly ascending and at
/// most the next free snapshot index, amounts positive.
pub open spec fn delegs_wf(d: Seq<Delegation>, next_index: int) -> bool {
    &&& forall|i: int, j: int|
        0 <= i < j < d.len() ==> #[trigger] d[i].i_snapshot < #[trigger] d[j].i_snapshot
    &&& forall|i: int| 0 <= i < d.len() ==> (#[trigger] d[i].i_snapshot as int) <= next_index
    &&& forall|i: int| 0 <= i < d.len() ==> (#[trigger] d[i].amount) >= 1
}

/// Whether a snapshot entry falls in the half-open index range `[lo, hi)`.
pub open spec fn entry_in_range(e: SnapshotEntry, lo: int, hi: int) -> bool {
    lo <= e.index < hi
}

/// Income share of one snapshot for a stake of `amount`.
pub open spec fn entry_gain(e: SnapshotEntry, amount: u128) -> int {
    (e.snapshot.income * amount) / e.snapshot.spec_total_delegation()
}

/// Outlay share of one snapshot for a Growth stake of `amount`.
pub open spec fn entry_loss(e: SnapshotEntry, amount: u128) -> int {
    (e.snapshot.outlay * amount) / (e.snapshot.growth_delegation as int)
}

/// Whether one snapshot's shares are computable and fit in 128 bits.
pub open spec fn entry_ok(e: SnapshotEntry, amount: u128, is_growth: bool) -> bool {
    &&& entry_gain(e, amount) <= u128::MAX
    &&& (is_growth ==> e.snapshot.growth_delegation >= 1 && entry_loss(e, amount) <= u128::MAX)
}

/// All snapshots of the range have computable shares.
pub open spec fn range_ok(
    snaps: Seq<SnapshotEntry>,
    lo: int,
    hi: int,
    amount: u128,
    is_growth: bool,
) -> bool {
    forall|i: int|
        0 <= i < snaps.len() && entry_in_range(#[trigger] snaps[i], lo, hi) ==> entry_ok(
            snaps[i],
            amount,
            is_growth,
        )
}

/// Total income share over the snapshots of the range.
pub open spec fn range_gain(snaps: Seq<SnapshotEntry>, lo: int, hi: int, amount: u128) -> int
    decreases snaps.len(),
{
    if snaps.len() == 0 {
        0
    } else {
        range_gain(snaps.drop_last(), lo, hi, amount) + (if entry_in_range(
            snaps.last(),
            lo,
            hi,
        ) {
            entry_gain(snaps.last(), amount)
        } else {
            0
        })
    }
}

/// Total outlay share over the snapshots of the range.
pub open spec fn range_loss(snaps: Seq<SnapshotEntry>, lo: int, hi: int, amount: u128) -> int
    decreases snaps.len(),
{
    if snaps.len() == 0 {
        0
    } else {
        range_loss(snaps.drop_last(), lo, hi, amount) + (if entry_in_range(
            snaps.last(),
            lo,
            hi,
        ) {
            entry_loss(snaps.last(), amount)
        } else {
            0
        })
    }
}

/// One consuming visit: the reference count goes down by one.
pub open spec fn consume_entry(e: SnapshotEntry) -> SnapshotEntry {
    SnapshotEntry {
        index: e.index,
        snapshot: Snapshot {
            claims_remaining: (e.snapshot.claims_remaining - 1) as u32,
            ..e.snapshot
        },
    }
}

/// The snapshot log after a consuming pass over the range: every snapshot
/// in `[lo, hi)` loses one reference and is dropped when none remain.
pub open spec fn consume_range(snaps: Seq<SnapshotEntry>, lo: int, hi: int) -> Seq<SnapshotEntry>
    decreases snaps.len(),
{
    if snaps.len() == 0 {
        snaps
    } else {
        let rest = consume_range(snaps.drop_last(), lo, hi);
        let e = snaps.last();
        if entry_in_range(e, lo, hi) {
            if e.snapshot.claims_remaining <= 1 {
                rest
            } else {
                rest.push(consume_entry(e))
            }
        } else {
            rest.push(e)
        }
    }
}

/// Total gain of a destructive claim: the checkpoint pairs' segments in
/// order, then (outside amortizing mode) the final open segment up to
/// `hi_final`, against the log as consumed so far.
pub open spec fn claim_gain(
    snaps: Seq<SnapshotEntry>,
    d: Seq<Delegation>,
    hi_final: int,
    amortizing: bool,
) -> int
    decreases d.len(),
{
    if d.len() == 0 {
        0
    } else if d.len() == 1 {
        if amortizing {
            0
        } else {
            range_gain(snaps, d[0].i_snapshot as int, hi_final, d[0].amount)
        }
    } else {
        range_gain(snaps, d[0].i_snapshot as int, d[1].i_snapshot as int, d[0].amount)
            + claim_gain(
            consume_range(snaps, d[0].i_snapshot as int, d[1].i_snapshot as int),
            d.drop_first(),
            hi_final,
            amortizing,
        )
    }
}

/// Total loss of a destructive claim (Growth pool).
pub open spec fn claim_loss(
    snaps: Seq<SnapshotEntry>,
    d: Seq<Delegation>,
    hi_final: int,
    amortizing: bool,
) -> int
    decreases d.len(),
{
    if d.len() == 0 {
        0
    } else if d.len() == 1 {
        if amortizing {
            0
        } else {
            range_loss(snaps, d[0].i_snapshot as int, hi_final, d[0].amount)
        }
    } else {
        range_loss(snaps, d[0].i_snapshot as int, d[1].i_snapshot as int, d[0].amount)
            + claim_loss(
            consume_range(snaps, d[0].i_snapshot as int, d[1].i_snapshot as int),
            d.drop_first(),
            hi_final,
            amortizing,
        )
    }
}

/// The snapshot log after a destructive claim.
pub open spec fn claim_snaps(
    snaps: Seq<SnapshotEntry>,
    d: Seq<Delegation>,
    hi_final: int,
    amortizing: bool,
) -> Seq<SnapshotEntry>
    decreases d.len(),
{
    if d.len() == 0 {
        snaps
    } else if d.len() == 1 {
        if amortizing {
            snaps
        } else {
            consume_range(snaps, d[0].i_snapshot as int, hi_final)
        }
    } else {
        claim_snaps(
            consume_range(snaps, d[0].i_snapshot as int, d[1].i_snapshot as int),
            d.drop_first(),
            hi_final,
            amortizing,
        )
    }
}

/// Every processed segment's snapshots have computable shares.
pub open spec fn claim_segs_ok(
    snaps: Seq<SnapshotEntry>,
    d: Seq<Delegation>,
    hi_final: int,
    amortizing: bool,
    is_growth: bool,
) -> bool
    decreases d.len(),
{
    if d.len() == 0 {
        true
    } else if d.len() == 1 {
        amortizing || range_ok(snaps, d[0].i_snapshot as int, hi_final, d[0].amount, is_growth)
    } else {
        range_ok(snaps, d[0].i_snapshot as int, d[1].i_snapshot as int, d[0].amount, is_growth)
            && claim_segs_ok(
            consume_range(snaps, d[0].i_snapshot as int, d[1].i_snapshot as int),
            d.drop_first(),
            hi_final,
            amortizing,
            is_growth,
        )
    }
}

/// A destructive claim is fully computable: every share exists and the
/// accumulated totals fit in 128 bits.
pub open spec fn claim_ok(
    snaps: Seq<SnapshotEntry>,
    d: Seq<Delegation>,
    hi_final: int,
    amortizing: bool,
    is_growth: bool,
) -> bool {
    &&& claim_segs_ok(snaps, d, hi_final, amortizing, is_growth)
    &&& claim_gain(snaps, d, hi_final, amortizing) <= u128::MAX
    &&& (is_growth ==> claim_loss(snaps, d, hi_final, amortizing) <= u128::MAX)
}

/// The checkpoint list after a destructive claim: all but the final
/// checkpoint are consumed; the final one stays open, re-anchored at the
/// frontier outside amortizing mode.
pub open spec fn claim_delegs(d: Seq<Delegation>, next_index: u128, amortizing: bool) -> Seq<
    Delegation,
> {
    if d.len() == 0 {
        d
    } else if amortizing {
        seq![d.last()]
    } else {
        seq![Delegation { amount: d.last().amount, i_snapshot: next_index }]
    }
}

/// The entry `e2` is `e1` after zero or more consuming visits.
pub open spec fn consumed_from(e2: SnapshotEntry, e1: SnapshotEntry) -> bool {
    &&& e2.index == e1.index
    &&& e2.snapshot.seq_no == e1.snapshot.seq_no
    &&& e2.snapshot.growth_delegation == e1.snapshot.growth_delegation
    &&& e2.snapshot.profit_delegation == e1.snapshot.profit_delegation
    &&& e2.snapshot.income == e1.snapshot.income
    &&& e2.snapshot.outlay == e1.snapshot.outlay
    &&& e2.snapshot.claims_remaining <= e1.snapshot.claims_remaining
}

/// The entry `e` descends from some entry of `s1`.
pub open spec fn descends(e: SnapshotEntry, s1: Seq<SnapshotEntry>) -> bool {
    exists|i: int| 0 <= i < s1.len() && #[trigger] consumed_from(e, s1[i])
}

/// Every entry of `s2` descends from an entry of `s1`.
pub open spec fn all_consumed_from(s2: Seq<SnapshotEntry>, s1: Seq<SnapshotEntry>) -> bool {
    forall|j: int| 0 <= j < s2.len() ==> descends(#[trigger] s2[j], s1)
}

/// Computable shares of one snapshot are between 0 and `u128::MAX`.
proof fn lemma_entry_nonneg(e: SnapshotEntry, amount: u128, is_growth: bool)
    requires
        1 <= e.snapshot.spec_total_delegation(),
        entry_ok(e, amount, is_growth),
    ensures
        0 <= entry_gain(e, amount) <= u128::MAX,
        is_growth ==> 0 <= entry_loss(e, amount) <= u128::MAX,
{
    vstd::arithmetic::mul::lemma_mul_nonnegative(e.snapshot.income as int, amount as int);
    vstd::arithmetic::div_mod::lemma_div_pos_is_pos(
        e.snapshot.income * amount,
        e.snapshot.spec_total_delegation(),
    );
    if is_growth {
        vstd::arithmetic::mul::lemma_mul_nonnegative(e.snapshot.outlay as int, amount as int);
        vstd::arithmetic::div_mod::lemma_div_pos_is_pos(
            e.snapshot.outlay * amount,
            e.snapshot.growth_delegation as int,
        );
    }
}

/// A prefix of a computable range accumulates between 0 and the range's
/// total.
pub proof fn lemma_range_prefix(
    snaps: Seq<SnapshotEntry>,
    j: int,
    lo: int,
    hi: int,
    amount: u128,
    is_growth: bool,
)
    requires
        0 <= j <= snaps.len(),
        forall|i: int| 0 <= i < snaps.len() ==> 1 <= #[trigger] snaps[i].snapshot.spec_total_delegation(),
        range_ok(snaps, lo, hi, amount, is_growth),
    ensures
        0 <= range_gain(snaps.take(j), lo, hi, amount) <= range_gain(snaps, lo, hi, amount),
        is_growth ==> 0 <= range_loss(snaps.take(j), lo, hi, amount) <= range_loss(
            snaps,
            lo,
            hi,
            amount,
        ),
    decreases snaps.len(),
{
    if snaps.len() == 0 {
        assert(snaps.take(j) =~= snaps);
    } else {
        let prev = snaps.drop_last();
        assert(forall|i: int| 0 <= i < prev.len() ==> prev[i] == snaps[i]);
        if entry_in_range(snaps.last(), lo, hi) {
            lemma_entry_nonneg(snaps.last(), amount, is_growth);
        }
        if j == snaps.len() {
            assert(snaps.take(j) =~= snaps);
            lemma_range_prefix(prev, prev.len() as int, lo, hi, amount, is_growth);
            assert(prev.take(prev.len() as int) =~= prev);
        } else {
            lemma_range_prefix(prev, j, lo, hi, amount, is_growth);
            assert(prev.take(j) =~= snaps.take(j));
        }
    }
}

/// A range's totals are nonnegative (prefix form at full length).
pub proof fn lemma_range_nonneg(
    snaps: Seq<SnapshotEntry>,
    lo: int,
    hi: int,
    amount: u128,
    is_growth: bool,
)
    requires
        forall|i: int| 0 <= i < snaps.len() ==> 1 <= #[trigger] snaps[i].snapshot.spec_total_delegation(),
        range_ok(snaps, lo, hi, amount, is_growth),
    ensures
        0 <= range_gain(snaps, lo, hi, amount),
        is_growth ==> 0 <= range_loss(snaps, lo, hi, amount),
{
    lemma_range_prefix(snaps, snaps.len() as int, lo, hi, amount, is_growth);
    assert(snaps.take(snaps.len() as int) =~= snaps);
}

/// A range that covers none of the log's entries contributes nothing and
/// leaves the log unchanged.
pub proof fn lemma_range_untouched(
    snaps: Seq<SnapshotEntry>,
    lo: int,
    hi: int,
    amount: u128,
    is_growth: bool,
)
    requires
        forall|i: int| 0 <= i < snaps.len() ==> !entry_in_range(#[trigger] snaps[i], lo, hi),
    ensures
        range_gain(snaps, lo, hi, amount) == 0,
        range_loss(snaps, lo, hi, amount) == 0,
        range_ok(snaps, lo, hi, amount, is_growth),
        consume_range(snaps, lo, hi) == snaps,
    decreases snaps.len(),
{
    if snaps.len() == 0 {
    } else {
        let prev = snaps.drop_last();
        assert(forall|i: int| 0 <= i < prev.len() ==> prev[i] == snaps[i]);
        lemma_range_untouched(prev, lo, hi, amount, is_growth);
        assert(consume_range(snaps, lo, hi) =~= snaps);
    }
}

/// Every entry surviving a consuming pass descends from an input entry.
pub proof fn lemma_consume_range_from(snaps: Seq<SnapshotEntry>, lo: int, hi: int)
    ensures
        all_consumed_from(consume_range(snaps, lo, hi), snaps),
        consume_range(snaps, lo, hi).len() <= snaps.len(),
    decreases snaps.len(),
{
    let out = consume_range(snaps, lo, hi);
    if snaps.len() == 0 {
    } else {
        let prev = snaps.drop_last();
        let e = snaps.last();
        assert(forall|i: int| 0 <= i < prev.len() ==> prev[i] == snaps[i]);
        lemma_consume_range_from(prev, lo, hi);
        let rest = consume_range(prev, lo, hi);
        assert forall|j: int| 0 <= j < out.len() implies descends(#[trigger] out[j], snaps) by {
            if j < rest.len() {
                assert(out[j] == rest[j]);
                let i = choose|i: int| 0 <= i < prev.len() && consumed_from(rest[j], prev[i]);
                assert(consumed_from(out[j], snaps[i]));
            } else {
                assert(consumed_from(out[j], snaps[snaps.len() - 1]));
            }
        }
    }
}

/// A consuming pass keeps the snapshot indices strictly ascending.
proof fn lemma_consume_range_sorted(snaps: Seq<SnapshotEntry>, lo: int, hi: int)
    requires
        snaps_sorted(snaps),
    ensures
        snaps_sorted(consume_range(snaps, lo, hi)),
    decreases snaps.len(),
{
    let out = consume_range(snaps, lo, hi);
    if snaps.len() == 0 {
    } else {
        let prev = snaps.drop_last();
        let e = snaps.last();
        assert(forall|i: int| 0 <= i < prev.len() ==> prev[i] == snaps[i]);
        lemma_consume_range_sorted(prev, lo, hi);
        lemma_consume_range_from(prev, lo, hi);
        let rest = consume_range(prev, lo, hi);
        assert forall|j: int| 0 <= j < rest.len() implies (#[trigger] rest[j].index) < e.index by {
            let i = choose|i: int| 0 <= i < prev.len() && consumed_from(rest[j], prev[i]);
            assert(prev[i].index < e.index);
        }
        assert forall|i: int, j: int| 0 <= i < j < out.len() implies (#[trigger] out[i].index) < (
        #[trigger] out[j].index) by {
            if j < rest.len() {
                assert(out[i] == rest[i] && out[j] == rest[j]);
            } else if j == rest.len() && out.len() == rest.len() + 1 {
                assert(out[i] == rest[i]);
            }
        }
    }
}

/// A consuming pass keeps every stored snapshot well-formed.
proof fn lemma_consume_range_entries(snaps: Seq<SnapshotEntry>, lo: int, hi: int, next_index: int)
    requires
        forall|i: int| 0 <= i < snaps.len() ==> entry_wf(#[trigger] snaps[i], next_index),
    ensures
        forall|i: int|
            0 <= i < consume_range(snaps, lo, hi).len() ==> entry_wf(
                #[trigger] consume_range(snaps, lo, hi)[i],
                next_index,
            ),
    decreases snaps.len(),
{
    let out = consume_range(snaps, lo, hi);
    if snaps.len() == 0 {
    } else {
        let prev = snaps.drop_last();
        let e = snaps.last();
        assert(forall|i: int| 0 <= i < prev.len() ==> prev[i] == snaps[i]);
        lemma_consume_range_entries(prev, lo, hi, next_index);
        let rest = consume_range(prev, lo, hi);
        assert(entry_wf(e, next_index));
        assert forall|i: int| 0 <= i < out.len() implies entry_wf(
            #[trigger] out[i],
            next_index,
        ) by {
            if i < rest.len() {
                assert(out[i] == rest[i]);
            }
        }
    }
}

/// Consuming a range preserves well-formedness of the log, and every
/// surviving entry descends from an entry of the input.
pub proof fn lemma_consume_range_wf(snaps: Seq<SnapshotEntry>, lo: int, hi: int, next_index: int)
    requires
        snaps_wf(snaps, next_index),
    ensures
        snaps_wf(consume_range(snaps, lo, hi), next_index),
        all_consumed_from(consume_range(snaps, lo, hi), snaps),
        consume_range(snaps, lo, hi).len() <= snaps.len(),
{
    lemma_consume_range_from(snaps, lo, hi);
    lemma_consume_range_sorted(snaps, lo, hi);
    lemma_consume_range_entries(snaps, lo, hi, next_index);
}

/// `consumed_from` composes.
pub proof fn lemma_all_consumed_trans(
    s3: Seq<SnapshotEntry>,
    s2: Seq<SnapshotEntry>,
    s1: Seq<SnapshotEntry>,
)
    requires
        all_consumed_from(s3, s2),
        all_consumed_from(s2, s1),
    ensures
        all_consumed_from(s3, s1),
{
    assert forall|j: int| 0 <= j < s3.len() implies descends(#[trigger] s3[j], s1) by {
        let i = choose|i: int| 0 <= i < s2.len() && consumed_from(s3[j], s2[i]);
        let k = choose|k: int| 0 <= k < s1.len() && consumed_from(s2[i], s1[k]);
        assert(consumed_from(s3[j], s1[k]));
    }
}

/// A computable destructive claim accumulates nonnegative totals.
pub proof fn lemma_claim_nonneg(
    snaps: Seq<SnapshotEntry>,
    d: Seq<Delegation>,
    hi_final: int,
    amortizing: bool,
    is_growth: bool,
    next_index: int,
)
    requires
        snaps_wf(snaps, next_index),
        claim_segs_ok(snaps, d, hi_final, amortizing, is_growth),
    ensures
        0 <= claim_gain(snaps, d, hi_final, amortizing),
        is_growth ==> 0 <= claim_loss(snaps, d, hi_final, amortizing),
    decreases d.len(),
{
    if d.len() == 0 {
    } else if d.len() == 1 {
        if !amortizing {
            lemma_range_nonneg(snaps, d[0].i_snapshot as int, hi_final, d[0].amount, is_growth);
        }
    } else {
        let lo = d[0].i_snapshot as int;
        let hi = d[1].i_snapshot as int;
        lemma_range_nonneg(snaps, lo, hi, d[0].amount, is_growth);
        lemma_consume_range_wf(snaps, lo, hi, next_index);
        lemma_claim_nonneg(
            consume_range(snaps, lo, hi),
            d.drop_first(),
            hi_final,
            amortizing,
            is_growth,
            next_index,
        );
    }
}

/// A destructive claim preserves well-formedness of the log, and every
/// surviving entry descends from an entry of the input.
pub proof fn lemma_claim_snaps_wf(
    snaps: Seq<SnapshotEntry>,
    d: Seq<Delegation>,
    hi_final: int,
    amortizing: bool,
    next_index: int,
)
    requires
        snaps_wf(snaps, next_index),
    ensures
        snaps_wf(claim_snaps(snaps, d, hi_final, amortizing), next_index),
        all_consumed_from(claim_snaps(snaps, d, hi_final, amortizing), snaps),
    decreases d.len(),
{
    let out = claim_snaps(snaps, d, hi_final, amortizing);
    if d.len() == 0 {
        assert forall|j: int| 0 <= j < out.len() implies descends(#[trigger] out[j], snaps) by {
            assert(consumed_from(out[j], snaps[j]));
        }
    } else if d.len() == 1 {
        if amortizing {
            assert forall|j: int| 0 <= j < out.len() implies descends(#[trigger] out[j], snaps) by {
                assert(consumed_from(out[j], snaps[j]));
            }
        } else {
            lemma_consume_range_wf(snaps, d[0].i_snapshot as int, hi_final, next_index);
        }
    } else {
        let lo = d[0].i_snapshot as int;
        let hi = d[1].i_snapshot as int;
        lemma_consume_range_wf(snaps, lo, hi, next_index);
        lemma_claim_snaps_wf(
            consume_range(snaps, lo, hi),
            d.drop_first(),
            hi_final,
            amortizing,
            next_index,
        );
        lemma_all_consumed_trans(out, consume_range(snaps, lo, hi), snaps);
    }
}

/// One consuming pass over the snapshots of `[lo, hi)` (or `[lo, ..)` when
/// unbounded), accumulating shares for a stake of `amount` on top of
/// `gain0` / `loss0` and building the consumed log.  Fails exactly when a
/// share cannot be computed or an accumulated total leaves 128 bits.
fn consume_segment(
    cur: &Vec<SnapshotEntry>,
    lo: u128,
    hi: u128,
    bounded: bool,
    amount: u128,
    is_growth: bool,
    gain0: u128,
    loss0: u128,
    Ghost(hi_spec): Ghost<int>,
) -> (r: Result<(Vec<SnapshotEntry>, u128, u128), ContractError>)
    requires
        forall|i: int|
            0 <= i < cur@.len() ==> 1 <= (#[trigger] cur@[i].snapshot.spec_total_delegation())
                <= u128::MAX,
        forall|i: int| 0 <= i < cur@.len() ==> (#[trigger] cur@[i].snapshot.claims_remaining) >= 1,
        bounded ==> hi_spec == hi as int,
        !bounded ==> forall|i: int| 0 <= i < cur@.len() ==> (#[trigger] cur@[i].index as int) < hi_spec,
    ensures
        match r {
            Ok(out) => {
                &&& range_ok(cur@, lo as int, hi_spec, amount, is_growth)
                &&& gain0 + range_gain(cur@, lo as int, hi_spec, amount) <= u128::MAX
                &&& (is_growth ==> loss0 + range_loss(cur@, lo as int, hi_spec, amount)
                    <= u128::MAX)
                &&& out.1 == gain0 + range_gain(cur@, lo as int, hi_spec, amount)
                &&& out.2 as int == loss0 + (if is_growth {
                    range_loss(cur@, lo as int, hi_spec, amount)
                } else {
                    0
                })
                &&& out.0@ == consume_range(cur@, lo as int, hi_spec)
            },
            Err(e) => {
                &&& e == ContractError::Overflow
                &&& !({
                    &&& range_ok(cur@, lo as int, hi_spec, amount, is_growth)
                    &&& gain0 + range_gain(cur@, lo as int, hi_spec, amount) <= u128::MAX
                    &&& (is_growth ==> loss0 + range_loss(cur@, lo as int, hi_spec, amount)
                        <= u128::MAX)
                })
            },
        },
{
    let mut out: Vec<SnapshotEntry> = Vec::new();
    let mut gain = gain0;
    let mut loss = loss0;
    let mut j: usize = 0;
    while j < cur.len()
        invariant
            j <= cur@.len(),
            forall|i: int|
                0 <= i < cur@.len() ==> 1 <= (#[trigger] cur@[i].snapshot.spec_total_delegation())
                    <= u128::MAX,
            forall|i: int|
                0 <= i < cur@.len() ==> (#[trigger] cur@[i].snapshot.claims_remaining) >= 1,
            bounded ==> hi_spec == hi as int,
            !bounded ==> forall|i: int|
                0 <= i < cur@.len() ==> (#[trigger] cur@[i].index as int) < hi_spec,
            range_ok(cur@.take(j as int), lo as int, hi_spec, amount, is_growth),
            gain == gain0 + range_gain(cur@.take(j as int), lo as int, hi_spec, amount),
            loss as int == loss0 + (if is_growth {
                range_loss(cur@.take(j as int), lo as int, hi_spec, amount)
            } else {
                0
            }),
            out@ == consume_range(cur@.take(j as int), lo as int, hi_spec),
        decreases cur@.len() - j,
    {
        let ghost pre = cur@.take(j as int);
        let ghost cut = cur@.take(j + 1);
        proof {
            assert(cut.drop_last() =~= pre);
            assert(cut.last() == cur@[j as int]);
            assert(forall|i: int| 0 <= i < pre.len() ==> #[trigger] pre[i] == cur@[i]);
        }
        let e = cur[j];
        let in_range = lo <= e.index && (!bounded || e.index < hi);
        proof {
            assert(in_range == entry_in_range(e, lo as int, hi_spec));
        }
        if in_range {
            let total = e.snapshot.get_total_delegation();
            let term = match mul_ratio(e.snapshot.income, amount, total) {
                Some(t) => t,
                None => {
                    proof {
                        assert(!entry_ok(cur@[j as int], amount, is_growth));
                    }
                    return Err(ContractError::Overflow);
                },
            };
            gain = match gain.checked_add(term) {
                Some(g) => g,
                None => {
                    proof {
                        if range_ok(cur@, lo as int, hi_spec, amount, is_growth) {
                            lemma_range_prefix(
                                cur@,
                                j + 1,
                                lo as int,
                                hi_spec,
                                amount,
                                is_growth,
                            );
                        }
                    }
                    return Err(ContractError::Overflow);
                },
            };
            if is_growth {
                if e.snapshot.growth_delegation == 0 {
                    proof {
                        assert(!entry_ok(cur@[j as int], amount, is_growth));
                    }
                    return Err(ContractError::Overflow);
                }
                let lterm = match mul_ratio(e.snapshot.outlay, amount, e.snapshot.growth_delegation) {
                    Some(t) => t,
                    None => {
                        proof {
                            assert(!entry_ok(cur@[j as int], amount, is_growth));
                        }
                        return Err(ContractError::Overflow);
                    },
                };
                loss = match loss.checked_add(lterm) {
                    Some(l) => l,
                    None => {
                        proof {
                            if range_ok(cur@, lo as int, hi_spec, amount, is_growth) {
                                lemma_range_prefix(
                                    cur@,
                                    j + 1,
                                    lo as int,
                                    hi_spec,
                                    amount,
                                    is_growth,
                                );
                            }
                        }
                        return Err(ContractError::Overflow);
                    },
                };
            }
            let cr = e.snapshot.claims_remaining - 1;
            if cr > 0 {
                out.push(
                    SnapshotEntry {
                        index: e.index,
                        snapshot: Snapshot { claims_remaining: cr, ..e.snapshot },
                    },
                );
                proof {
                    assert(out@.last() == consume_entry(cur@[j as int]));
                }
            }
        } else {
            out.push(e);
        }
        j += 1;
    }
    proof {
        assert(cur@.take(cur@.len() as int) =~= cur@);
    }
    Ok((out, gain, loss))
}

/// Destructive claim of one pool: folds the checkpoint list over the
/// snapshot log, consuming snapshot references and checkpoints.
///
/// On success the returned pair holds the accumulated (gain, loss), the
/// log is the consumed one, and the checkpoint list has collapsed to its
/// final open record (re-anchored at `next_index` outside amortizing
/// mode).  On failure — a share not computable or a total past 128 bits —
/// nothing is changed.
#[verifier::rlimit(100)]
#[verifier::spinoff_prover]
pub(crate) fn claim_pool(
    snaps: &mut Vec<SnapshotEntry>,
    delegs: &mut Vec<Delegation>,
    next_index: u128,
    is_growth: bool,
    is_amortizing: bool,
) -> (r: Result<(u128, u128), ContractError>)
    requires
        snaps_wf(old(snaps)@, next_index as int),
        delegs_wf(old(delegs)@, next_index as int),
    ensures
        match r {
            Ok(out) => {
                &&& claim_ok(old(snaps)@, old(delegs)@, next_index + 1, is_amortizing, is_growth)
                &&& out.0 as int == claim_gain(
                    old(snaps)@,
                    old(delegs)@,
                    next_index + 1,
                    is_amortizing,
                )
                &&& out.1 as int == (if is_growth {
                    claim_loss(old(snaps)@, old(delegs)@, next_index + 1, is_amortizing)
                } else {
                    0
                })
                &&& final(snaps)@ == claim_snaps(
                    old(snaps)@,
                    old(delegs)@,
                    next_index + 1,
                    is_amortizing,
                )
                &&& final(delegs)@ == claim_delegs(old(delegs)@, next_index, is_amortizing)
                &&& snaps_wf(final(snaps)@, next_index as int)
                &&& delegs_wf(final(delegs)@, next_index as int)
                &&& all_consumed_from(final(snaps)@, old(snaps)@)
            },
            Err(e) => {
                &&& e == ContractError::Overflow
                &&& !claim_ok(old(snaps)@, old(delegs)@, next_index + 1, is_amortizing, is_growth)
                &&& *final(snaps) == *old(snaps)
                &&& *final(delegs) == *old(delegs)
            },
        },
{
    let ghost s0 = snaps@;
    let ghost d0 = delegs@;
    let ghost hf: int = next_index as int + 1;
    let m = delegs.len();
    if m == 0 {
        proof {
            assert forall|j: int| 0 <= j < snaps@.len() implies descends(
                #[trigger] snaps@[j],
                s0,
            ) by {
                assert(consumed_from(snaps@[j], s0[j]));
            }
        }
        return Ok((0, 0));
    }
    let mut cur = copy_vec(snaps);
    let mut gain: u128 = 0;
    let mut loss: u128 = 0;
    let mut k: usize = 0;
    proof {
        assert(d0.skip(0) =~= d0);
        assert forall|j: int| 0 <= j < cur@.len() implies descends(#[trigger] cur@[j], s0) by {
            assert(consumed_from(cur@[j], s0[j]));
        }
    }
    while k + 1 < m
        invariant
            m == d0.len(),
            0 <= k < m,
            hf == next_index as int + 1,
            s0 == old(snaps)@,
            d0 == old(delegs)@,
            snaps@ == old(snaps)@,
            delegs@ == d0,
            delegs_wf(d0, next_index as int),
            snaps_wf(cur@, next_index as int),
            all_consumed_from(cur@, s0),
            claim_segs_ok(s0, d0, hf, is_amortizing, is_growth) == claim_segs_ok(
                cur@,
                d0.skip(k as int),
                hf,
                is_amortizing,
                is_growth,
            ),
            claim_gain(s0, d0, hf, is_amortizing) == gain + claim_gain(
                cur@,
                d0.skip(k as int),
                hf,
                is_amortizing,
            ),
            is_growth ==> claim_loss(s0, d0, hf, is_amortizing) == loss + claim_loss(
                cur@,
                d0.skip(k as int),
                hf,
                is_amortizing,
            ),
            !is_growth ==> loss == 0,
            claim_snaps(s0, d0, hf, is_amortizing) == claim_snaps(
                cur@,
                d0.skip(k as int),
                hf,
                is_amortizing,
            ),
        decreases m - k,
    {
        let dk = delegs[k];
        let dk1 = delegs[k + 1];
        let ghost dsk = d0.skip(k as int);
        let ghost lo = dk.i_snapshot as int;
        let ghost hi = dk1.i_snapshot as int;
        proof {
            assert(dsk.len() == m - k);
            assert(dsk[0] == d0[k as int]);
            assert(dsk[1] == d0[k as int + 1]);
            assert(dsk.drop_first() =~= d0.skip(k as int + 1));
        }
        match consume_segment(
            &cur,
            dk.i_snapshot,
            dk1.i_snapshot,
            true,
            dk.amount,
            is_growth,
            gain,
            loss,
            Ghost(hi),
        ) {
            Ok((next, g2, l2)) => {
                proof {
                    lemma_consume_range_wf(cur@, lo, hi, next_index as int);
                    lemma_all_consumed_trans(next@, cur@, s0);
                }
                cur = next;
                gain = g2;
                loss = l2;
                k += 1;
            },
            Err(e) => {
                proof {
                    let rest = dsk.drop_first();
                    let csr = consume_range(cur@, lo, hi);
                    assert(claim_gain(cur@, dsk, hf, is_amortizing) == range_gain(
                        cur@,
                        lo,
                        hi,
                        dk.amount,
                    ) + claim_gain(csr, rest, hf, is_amortizing));
                    assert(claim_segs_ok(cur@, dsk, hf, is_amortizing, is_growth) == (range_ok(
                        cur@,
                        lo,
                        hi,
                        dk.amount,
                        is_growth,
                    ) && claim_segs_ok(csr, rest, hf, is_amortizing, is_growth)));
                    if claim_segs_ok(s0, d0, hf, is_amortizing, is_growth) {
                        lemma_consume_range_wf(cur@, lo, hi, next_index as int);
                        lemma_claim_nonneg(
                            csr,
                            rest,
                            hf,
                            is_amortizing,
                            is_growth,
                            next_index as int,
                        );
                        assert(claim_gain(s0, d0, hf, is_amortizing) > u128::MAX || (is_growth
                            && claim_loss(s0, d0, hf, is_amortizing) > u128::MAX));
                    }
                    assert(!claim_ok(s0, d0, hf, is_amortizing, is_growth));
                }
                return Err(e);
            },
        }
    }
    let dlast = delegs[m - 1];
    let ghost dsk = d0.skip(m - 1);
    proof {
        assert(dsk.len() == 1);
        assert(dsk[0] == d0[m - 1]);
        assert(dlast == d0[m - 1]);
    }
    if !is_amortizing {
        proof {
            assert(forall|i: int|
                0 <= i < cur@.len() ==> (#[trigger] cur@[i].index as int) < hf);
        }
        match consume_segment(&cur, dlast.i_snapshot, 0, false, dlast.amount, is_growth, gain, loss, Ghost(hf)) {
            Ok((next, g2, l2)) => {
                proof {
                    lemma_consume_range_wf(cur@, dlast.i_snapshot as int, hf, next_index as int);
                    lemma_all_consumed_trans(next@, cur@, s0);
                }
                cur = next;
                gain = g2;
                loss = l2;
            },
            Err(e) => {
                return Err(e);
            },
        }
    }
    let mut newd: Vec<Delegation> = Vec::new();
    newd.push(
        Delegation {
            amount: dlast.amount,
            i_snapshot: if is_amortizing {
                dlast.i_snapshot
            } else {
                next_index
            },
        },
    );
    proof {
        assert(newd@ =~= claim_delegs(d0, next_index, is_amortizing));
    }
    *snaps = cur;
    *delegs = newd;
    Ok((gain, loss))
}

} // verus!
