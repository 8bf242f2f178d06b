use prism_core::split::{apply_outlay_factor, calculate_member_payouts, new_outlay_after_payment};
use prism_core::types::{Destination, FeesIncurredBy, Member, Prism};

fn make_member(id: &str, split: u64) -> Member {
    Member {
        id: id.to_string(),
        description: "test".to_string(),
        destination: Destination::Empty,
        split,
        fees_incurred_by: FeesIncurredBy::Remote,
        payout_threshold_msat: 0,
    }
}

#[test]
fn equal_splits_three_members() {
    // splits of 1.0 each, in millionths
    let members = vec![make_member("a", 1_000_000), make_member("b", 1_000_000), make_member("c", 1_000_000)];
    let payouts = calculate_member_payouts(&members, 1000);
    assert_eq!(payouts[0].1, 333);
    assert_eq!(payouts[1].1, 333);
    assert_eq!(payouts[2].1, 333);
}

#[test]
fn weighted_splits() {
    // splits of 1.0, 1.0 and 2.0, in millionths
    let members = vec![make_member("a", 1_000_000), make_member("b", 1_000_000), make_member("c", 2_000_000)];
    let payouts = calculate_member_payouts(&members, 1000);
    assert_eq!(payouts[0].1, 250);
    assert_eq!(payouts[1].1, 250);
    assert_eq!(payouts[2].1, 500);
}

#[test]
fn outlay_factor_below_one() {
    // 0.75 in millionths
    assert_eq!(apply_outlay_factor(1000, 750_000), 750);
}

#[test]
fn outlay_factor_above_one() {
    // 1.1 in millionths
    assert_eq!(apply_outlay_factor(1000, 1_100_000), 1100);
}

#[test]
fn fee_accounting_remote() {
    // member bears fees: deduct amount_sent (which includes fees)
    let result = new_outlay_after_payment(1000, &FeesIncurredBy::Remote, 990, 1005);
    assert_eq!(result, -5); // 1000 - 1005
}

#[test]
fn fee_accounting_local() {
    // host bears fees: deduct only amount received
    let result = new_outlay_after_payment(1000, &FeesIncurredBy::Local, 990, 1005);
    assert_eq!(result, 10); // 1000 - 990
}

#[test]
fn payouts_never_exceed_total_and_lose_less_than_one_per_member() {
    let members = vec![make_member("a", 3), make_member("b", 5), make_member("c", 7)];
    for total in [0u64, 1, 2, 14, 15, 16, 999, 1000, 123_456_789] {
        let payouts = calculate_member_payouts(&members, total);
        let sum: u64 = payouts.iter().map(|p| p.1).sum();
        assert!(sum <= total);
        assert!(total < sum + members.len() as u64);
    }
}

#[test]
fn payouts_keep_member_order_and_ids() {
    let members = vec![make_member("x", 1), make_member("y", 3)];
    let payouts = calculate_member_payouts(&members, 100);
    assert_eq!(payouts, vec![("x".to_string(), 25), ("y".to_string(), 75)]);
}

#[test]
fn splits_are_relative_weights() {
    let small = vec![make_member("a", 1), make_member("b", 2)];
    let large = vec![make_member("a", 1_000_000), make_member("b", 2_000_000)];
    assert_eq!(calculate_member_payouts(&small, 999), calculate_member_payouts(&large, 999));
}

#[test]
fn larger_split_never_gets_less() {
    let members = vec![make_member("a", 2), make_member("b", 3), make_member("c", 3)];
    let payouts = calculate_member_payouts(&members, 1001);
    assert!(payouts[0].1 <= payouts[1].1);
    assert_eq!(payouts[1].1, payouts[2].1);
}

#[test]
fn zero_weights_pay_nothing() {
    let members = vec![make_member("a", 0), make_member("b", 0)];
    let payouts = calculate_member_payouts(&members, 1000);
    assert_eq!(payouts[0].1, 0);
    assert_eq!(payouts[1].1, 0);
    assert!(calculate_member_payouts(&[], 1000).is_empty());
}

#[test]
fn huge_amounts_do_not_overflow() {
    let members = vec![make_member("a", u64::MAX), make_member("b", u64::MAX)];
    let payouts = calculate_member_payouts(&members, u64::MAX);
    assert_eq!(payouts[0].1, u64::MAX / 2);
    assert_eq!(payouts[1].1, u64::MAX / 2);
}

#[test]
fn outlay_factor_one_passes_through() {
    assert_eq!(apply_outlay_factor(123_456, 1_000_000), 123_456);
    assert_eq!(apply_outlay_factor(u64::MAX, 1_000_000), u64::MAX);
}

#[test]
fn outlay_factor_rounds_down_and_caps() {
    assert_eq!(apply_outlay_factor(3, 500_000), 1);
    assert_eq!(apply_outlay_factor(u64::MAX, 10_000_000), u64::MAX);
    assert_eq!(apply_outlay_factor(1000, 0), 0);
    assert_eq!(apply_outlay_factor(1000, -5), 0);
}

#[test]
fn fee_policies_differ_by_the_routing_fee() {
    let remote = new_outlay_after_payment(5000, &FeesIncurredBy::Remote, 5000, 5012);
    let local = new_outlay_after_payment(5000, &FeesIncurredBy::Local, 5000, 5012);
    assert_eq!(local, 0);
    assert_eq!(remote, -12);
    assert_eq!(local - remote, 12);
}

#[test]
fn total_splits_sums_weights() {
    let prism = Prism {
        id: "p".to_string(),
        description: "d".to_string(),
        timestamp: 0,
        outlay_factor: 1_000_000,
        members: vec![make_member("a", u64::MAX), make_member("b", 5)],
    };
    assert_eq!(prism.total_splits(), u64::MAX as u128 + 5);
}

#[test]
fn default_fee_policy_is_remote() {
    assert_eq!(FeesIncurredBy::default(), FeesIncurredBy::Remote);
    assert_eq!(FeesIncurredBy::Local.as_text(), "local");
    assert_eq!(FeesIncurredBy::Remote.as_text(), "remote");
}
