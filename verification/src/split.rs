//! Split arithmetic: dividing an amount among members by weight, scaling an
//! incoming amount by a prism's outlay factor, and charging a member's outlay
//! after a payout. All of it is exact integer arithmetic.

use vstd::prelude::*;

use crate::types::{splits_sum, total_splits_of, FeesIncurredBy, Member, FACTOR_SCALE};

verus! {

/// A member's share of `total`: `floor(total * split / total_splits)`,
/// and nothing when the weights sum to zero.
pub open spec fn share_of(total: nat, split: nat, total_splits: nat) -> nat {
    if total_splits == 0 {
        0
    } else {
        total * split / total_splits
    }
}

/// Sum of the shares of `total` that the members of `members` receive when
/// the weights are divided by `total_splits`.
pub open spec fn shares_sum(total: nat, members: Seq<Member>, total_splits: nat) -> nat
    decreases members.len(),
{
    if members.len() == 0 {
        0
    } else {
        shares_sum(total, members.drop_last(), total_splits) + share_of(
            total,
            members.last().split as nat,
            total_splits,
        )
    }
}

/// `amount` scaled by an outlay factor given in parts per million, rounded
/// down; a factor at or below zero gives nothing, and a result beyond the
/// range of `u64` is capped at `u64::MAX`.
pub open spec fn scaled_amount(amount: nat, outlay_factor: int) -> nat {
    if outlay_factor <= 0 {
        0
    } else if amount * outlay_factor / (FACTOR_SCALE as int) > u64::MAX {
        u64::MAX as nat
    } else {
        (amount * outlay_factor / (FACTOR_SCALE as int)) as nat
    }
}

/// What a member's outlay is charged for a payout: everything sent when the
/// member bears the fees, only what arrived when the host does.
pub open spec fn outlay_deduction(fees_incurred_by: FeesIncurredBy, amount_msat: u64, amount_sent_msat: u64) -> i64 {
    match fees_incurred_by {
        FeesIncurredBy::Remote => amount_sent_msat as i64,
        FeesIncurredBy::Local => amount_msat as i64,
    }
}

pub(crate) proof fn lemma_split_within_sum(members: Seq<Member>, i: int)
    requires
        0 <= i < members.len(),
    ensures
        members[i].split <= splits_sum(members),
    decreases members.len(),
{
    if i < members.len() - 1 {
        lemma_split_within_sum(members.drop_last(), i);
    }
}

pub(crate) proof fn lemma_share_within_total(total: nat, split: nat, total_splits: nat)
    requires
        split <= total_splits,
    ensures
        share_of(total, split, total_splits) <= total,
{
    if total_splits > 0 {
        assert(total * split <= total * total_splits) by (nonlinear_arith)
            requires split <= total_splits;
        assert(total * split / total_splits <= total * total_splits / total_splits) by (nonlinear_arith)
            requires total * split <= total * total_splits, total_splits > 0;
        assert(total * total_splits / total_splits == total) by (nonlinear_arith)
            requires total_splits > 0;
    }
}

/// Each member's payout, in member order, when `total_msat` is divided by
/// split weight: member `i` gets `floor(total_msat * split_i / sum of splits)`.
///
/// Example: splits `[1, 1, 2]` and `total_msat = 1000` give `250, 250, 500`.
pub fn calculate_member_payouts(members: &[Member], total_msat: u64) -> (payouts: Vec<(String, u64)>)
    ensures
        payouts@.len() == members@.len(),
        forall|i: int|
            0 <= i < members@.len() ==> {
                &&& (#[trigger] payouts@[i]).0 == members@[i].id
                &&& payouts@[i].1 == share_of(
                    total_msat as nat,
                    members@[i].split as nat,
                    splits_sum(members@),
                )
            },
{
    let total_splits = total_splits_of(members);
    let n = members.len();
    let mut payouts: Vec<(String, u64)> = Vec::new();
    let mut i: usize = 0;
    while i < n
        invariant
            n == members@.len(),
            i <= n,
            total_splits == splits_sum(members@),
            payouts@.len() == i,
            forall|j: int|
                0 <= j < i ==> {
                    &&& (#[trigger] payouts@[j]).0 == members@[j].id
                    &&& payouts@[j].1 == share_of(
                        total_msat as nat,
                        members@[j].split as nat,
                        splits_sum(members@),
                    )
                },
        decreases n - i,
    {
        let member = &members[i];
        let amount: u64 = if total_splits == 0 {
            0
        } else {
            proof {
                lemma_split_within_sum(members@, i as int);
                lemma_share_within_total(total_msat as nat, member.split as nat, total_splits as nat);
                assert((total_msat as nat) * (member.split as nat) <= (u64::MAX as nat) * (u64::MAX as nat))
                    by (nonlinear_arith)
                    requires total_msat <= u64::MAX, member.split <= u64::MAX;
            }
            let product: u128 = (total_msat as u128) * (member.split as u128);
            (product / total_splits) as u64
        };
        payouts.push((member.id.clone(), amount));
        i = i + 1;
    }
    payouts
}

/// Scales an incoming amount by an outlay factor in parts per million
/// (`FACTOR_SCALE` is a factor of 1), rounding down to the millisatoshi.
///
/// Below `FACTOR_SCALE` the host keeps a portion; at `FACTOR_SCALE` the amount
/// passes through whole; above it the host adds matching funds.
pub fn apply_outlay_factor(amount_msat: u64, outlay_factor: i64) -> (scaled: u64)
    ensures
        scaled == scaled_amount(amount_msat as nat, outlay_factor as int),
        0 < outlay_factor && (amount_msat as int) * (outlay_factor as int) < (u64::MAX as int + 1) * (
        FACTOR_SCALE as int) ==> {
            &&& (scaled as int) * (FACTOR_SCALE as int) <= (amount_msat as int) * (outlay_factor as int)
            &&& (amount_msat as int) * (outlay_factor as int) < (scaled as int + 1) * (FACTOR_SCALE as int)
        },
{
    if outlay_factor <= 0 {
        return 0;
    }
    proof {
        if (amount_msat as int) * (outlay_factor as int) < (u64::MAX as int + 1) * (FACTOR_SCALE as int) {
            lemma_outlay_factor_scales_exactly(amount_msat as nat, outlay_factor as int);
        }
    }
    proof {
        assert((amount_msat as nat) * (outlay_factor as nat) <= (u64::MAX as nat) * (i64::MAX as nat))
            by (nonlinear_arith)
            requires amount_msat <= u64::MAX, 0 < outlay_factor <= i64::MAX;
    }
    let product: u128 = (amount_msat as u128) * (outlay_factor as u128);
    let scaled: u128 = product / (FACTOR_SCALE as u128);
    if scaled > u64::MAX as u128 {
        u64::MAX
    } else {
        scaled as u64
    }
}

/// The member's outlay after a successful payout of `amount_msat` that cost
/// the node `amount_sent_msat` (fees included), under the member's fee policy.
pub fn new_outlay_after_payment(
    current_outlay: i64,
    fees_incurred_by: &FeesIncurredBy,
    amount_msat: u64,
    amount_sent_msat: u64,
) -> (outlay: i64)
    requires
        i64::MIN <= current_outlay - outlay_deduction(*fees_incurred_by, amount_msat, amount_sent_msat) <= i64::MAX,
    ensures
        outlay == current_outlay - outlay_deduction(*fees_incurred_by, amount_msat, amount_sent_msat),
{
    let deduction: i64 = match fees_incurred_by {
        FeesIncurredBy::Remote => amount_sent_msat as i64,
        FeesIncurredBy::Local => amount_msat as i64,
    };
    current_outlay - deduction
}

proof fn lemma_share_bounds(total: nat, split: nat, w: nat)
    requires
        w > 0,
    ensures
        share_of(total, split, w) * w <= total * split,
        share_of(total, split, w) * w + w >= total * split + 1,
{
    let x = total * split;
    vstd::arithmetic::div_mod::lemma_fundamental_div_mod(x as int, w as int);
    vstd::arithmetic::div_mod::lemma_mod_bound(x as int, w as int);
    assert((x / w) * w == w * (x / w)) by (nonlinear_arith);
}

proof fn lemma_shares_sum_bounds(total: nat, members: Seq<Member>, w: nat)
    requires
        w > 0,
    ensures
        shares_sum(total, members, w) * w <= total * splits_sum(members),
        shares_sum(total, members, w) * w + members.len() * w >= total * splits_sum(members) + members.len(),
    decreases members.len(),
{
    if members.len() > 0 {
        let rest = members.drop_last();
        let s = members.last().split as nat;
        lemma_shares_sum_bounds(total, rest, w);
        lemma_share_bounds(total, s, w);
        let q = share_of(total, s, w);
        let qs = shares_sum(total, rest, w);
        let ss = splits_sum(rest);
        assert(shares_sum(total, members, w) == qs + q);
        assert(splits_sum(members) == ss + s);
        assert((qs + q) * w == qs * w + q * w) by (nonlinear_arith);
        assert(total * (ss + s) == total * ss + total * s) by (nonlinear_arith);
        assert(members.len() * w == rest.len() * w + w) by (nonlinear_arith)
            requires members.len() == rest.len() + 1;
    } else {
        assert(total * splits_sum(members) == 0) by (nonlinear_arith)
            requires splits_sum(members) == 0;
        assert(members.len() * w == 0) by (nonlinear_arith)
            requires members.len() == 0;
    }
}

/// Dividing an amount among members never pays out more than the amount,
/// and rounding down loses less than one millisatoshi per member.
pub proof fn lemma_payouts_conserve_total(total: nat, members: Seq<Member>)
    requires
        splits_sum(members) > 0,
    ensures
        shares_sum(total, members, splits_sum(members)) <= total,
        total < shares_sum(total, members, splits_sum(members)) + members.len(),
{
    let w = splits_sum(members);
    let q = shares_sum(total, members, w);
    let n = members.len();
    lemma_shares_sum_bounds(total, members, w);
    assert(q <= total) by (nonlinear_arith)
        requires q * w <= total * w, w > 0;
    assert(n > 0) by {
        if n == 0 {
            assert(w == 0);
        }
    }
    assert(total < q + n) by (nonlinear_arith)
        requires q * w + n * w >= total * w + n, w > 0, n > 0;
}

proof fn lemma_splits_sum_scaled(members: Seq<Member>, scaled: Seq<Member>, factor: nat)
    requires
        scaled.len() == members.len(),
        forall|i: int| 0 <= i < members.len() ==> scaled[i].split == factor * members[i].split,
    ensures
        splits_sum(scaled) == factor * splits_sum(members),
    decreases members.len(),
{
    if members.len() > 0 {
        let m0 = members.drop_last();
        let s0 = scaled.drop_last();
        assert forall|i: int| 0 <= i < m0.len() implies s0[i].split == factor * m0[i].split by {
            assert(s0[i] == scaled[i]);
            assert(m0[i] == members[i]);
        }
        lemma_splits_sum_scaled(m0, s0, factor);
        assert(scaled.last().split == factor * members.last().split);
        assert(splits_sum(scaled) == splits_sum(s0) + scaled.last().split);
        assert(splits_sum(members) == splits_sum(m0) + members.last().split);
        assert(factor * (splits_sum(members.drop_last()) + members.last().split) == factor
            * splits_sum(members.drop_last()) + factor * members.last().split) by (nonlinear_arith);
    } else {
        assert(factor * splits_sum(members) == 0) by (nonlinear_arith)
            requires splits_sum(members) == 0;
    }
}

/// Splits are relative weights: multiplying every member's split by the same
/// positive factor leaves every member's share unchanged.
pub proof fn lemma_shares_depend_on_ratios(total: nat, members: Seq<Member>, scaled: Seq<Member>, factor: nat)
    requires
        factor > 0,
        scaled.len() == members.len(),
        forall|i: int| 0 <= i < members.len() ==> scaled[i].split == factor * members[i].split,
    ensures
        forall|i: int|
            0 <= i < members.len() ==> share_of(total, scaled[i].split as nat, splits_sum(scaled))
                == share_of(total, members[i].split as nat, splits_sum(members)),
{
    lemma_splits_sum_scaled(members, scaled, factor);
    let w = splits_sum(members);
    assert forall|i: int| 0 <= i < members.len() implies share_of(total, scaled[i].split as nat, splits_sum(scaled))
        == share_of(total, members[i].split as nat, w) by {
        let s = members[i].split as nat;
        if w > 0 {
            assert(total * (factor * s) == factor * (total * s)) by (nonlinear_arith);
            vstd::arithmetic::div_mod::lemma_div_multiples_vanish_quotient(factor as int, (total * s) as int, w as int);
        } else {
            assert(factor * w == 0) by (nonlinear_arith)
                requires w == 0;
        }
    }
}

/// A member with a larger split never receives a smaller share.
pub proof fn lemma_share_monotone_in_split(total: nat, split: nat, larger: nat, total_splits: nat)
    requires
        split <= larger,
    ensures
        share_of(total, split, total_splits) <= share_of(total, larger, total_splits),
{
    if total_splits > 0 {
        assert(total * split <= total * larger) by (nonlinear_arith)
            requires split <= larger;
        vstd::arithmetic::div_mod::lemma_div_is_ordered((total * split) as int, (total * larger) as int, total_splits as int);
    }
}

/// An outlay factor of exactly one passes an amount through unchanged, a
/// smaller positive factor never adds to it, a larger one never takes from it,
/// and a larger amount is never scaled to less.
pub proof fn lemma_outlay_factor_bounds(amount: nat, larger_amount: nat, outlay_factor: int)
    requires
        amount <= larger_amount,
        larger_amount <= u64::MAX,
    ensures
        outlay_factor == FACTOR_SCALE ==> scaled_amount(amount, outlay_factor) == amount,
        0 < outlay_factor <= FACTOR_SCALE ==> scaled_amount(amount, outlay_factor) <= amount,
        outlay_factor >= FACTOR_SCALE ==> scaled_amount(amount, outlay_factor) >= amount,
        scaled_amount(amount, outlay_factor) <= scaled_amount(larger_amount, outlay_factor),
{
    let d = FACTOR_SCALE as int;
    if outlay_factor > 0 {
        assert(amount * outlay_factor <= larger_amount * outlay_factor) by (nonlinear_arith)
            requires amount <= larger_amount, outlay_factor > 0;
        vstd::arithmetic::div_mod::lemma_div_is_ordered(amount * outlay_factor, larger_amount * outlay_factor, d);
        if outlay_factor == FACTOR_SCALE {
            assert(amount * outlay_factor / d == amount) by (nonlinear_arith)
                requires outlay_factor == d, d > 0;
        }
        if outlay_factor <= FACTOR_SCALE {
            assert(amount * outlay_factor <= amount * d) by (nonlinear_arith)
                requires outlay_factor <= d;
            vstd::arithmetic::div_mod::lemma_div_is_ordered(amount * outlay_factor, amount * d, d);
            assert(amount * d / d == amount) by (nonlinear_arith)
                requires d > 0;
        }
        if outlay_factor >= FACTOR_SCALE {
            assert(amount * outlay_factor >= amount * d) by (nonlinear_arith)
                requires outlay_factor >= d;
            vstd::arithmetic::div_mod::lemma_div_is_ordered(amount * d, amount * outlay_factor, d);
            assert(amount * d / d == amount) by (nonlinear_arith)
                requires d > 0;
        }
    }
}

/// Scaling by an outlay factor is exact: for a positive factor whose result
/// fits in a `u64`, the scaled amount is the whole number of millisatoshi
/// `q` with `q * FACTOR_SCALE <= amount * factor < (q + 1) * FACTOR_SCALE`,
/// whatever the size of the factor.
pub proof fn lemma_outlay_factor_scales_exactly(amount: nat, outlay_factor: int)
    requires
        0 < outlay_factor,
        amount * outlay_factor < (u64::MAX as int + 1) * (FACTOR_SCALE as int),
    ensures
        scaled_amount(amount, outlay_factor) * (FACTOR_SCALE as int) <= amount * outlay_factor,
        amount * outlay_factor < (scaled_amount(amount, outlay_factor) + 1) * (FACTOR_SCALE as int),
{
    let x = amount * outlay_factor;
    let d = FACTOR_SCALE as int;
    assert(x >= 0) by (nonlinear_arith)
        requires amount >= 0, outlay_factor > 0, x == amount * outlay_factor;
    vstd::arithmetic::div_mod::lemma_fundamental_div_mod(x, d);
    vstd::arithmetic::div_mod::lemma_mod_bound(x, d);
    let q = x / d;
    assert(q * d == d * q) by (nonlinear_arith);
    assert(q <= u64::MAX) by (nonlinear_arith)
        requires x == d * q + x % d, 0 <= x % d, x < (u64::MAX as int + 1) * d, d > 0;
    assert(scaled_amount(amount, outlay_factor) == q);
    assert((q + 1) * d == q * d + d) by (nonlinear_arith);
}

/// A whole outlay factor multiplies: a factor of `k * FACTOR_SCALE` pays out
/// exactly `k` times the amount (a factor of two doubles it: the host matches
/// the payment), as long as the result fits in a `u64`.
pub proof fn lemma_whole_outlay_factor_multiplies(amount: nat, k: nat)
    requires
        0 < k,
        k * amount <= u64::MAX,
    ensures
        scaled_amount(amount, k * (FACTOR_SCALE as int)) == k * amount,
{
    let d = FACTOR_SCALE as int;
    let f = k * d;
    assert(f > 0) by (nonlinear_arith)
        requires k > 0, d > 0, f == k * d;
    assert(amount * f == (k * amount) * d) by (nonlinear_arith)
        requires f == k * d;
    vstd::arithmetic::div_mod::lemma_div_multiples_vanish((k * amount) as int, d);
    assert((k * amount) * d == d * (k * amount)) by (nonlinear_arith);
}

/// When the member bears the fees its outlay is charged exactly the routing
/// fee more than when the host bears them.
pub proof fn lemma_fee_policies_differ_by_fee(amount_msat: u64, amount_sent_msat: u64)
    requires
        amount_msat <= i64::MAX,
        amount_sent_msat <= i64::MAX,
    ensures
        outlay_deduction(FeesIncurredBy::Remote, amount_msat, amount_sent_msat) - outlay_deduction(
            FeesIncurredBy::Local,
            amount_msat,
            amount_sent_msat,
        ) == amount_sent_msat - amount_msat,
{
}

/// Paying a member exactly its outlay settles it: to zero when the host bears
/// the fees, to minus the routing fee (owed to the host) when the member does.
pub proof fn lemma_payout_settles_outlay(outlay: i64, amount_sent_msat: u64)
    requires
        0 < outlay,
        outlay <= amount_sent_msat <= i64::MAX,
    ensures
        outlay - outlay_deduction(FeesIncurredBy::Local, outlay as u64, amount_sent_msat) == 0,
        outlay - outlay_deduction(FeesIncurredBy::Remote, outlay as u64, amount_sent_msat) == -(amount_sent_msat
            - outlay),
{
}

} // verus!
