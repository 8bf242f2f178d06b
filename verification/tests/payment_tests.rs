use prism_core::node::{PaymentAction, PaymentResult, PaymentStatus};
use prism_core::payment::{
    increment_outlays, member_payment, member_payout, outlays_can_be_credited, BindingPayRun, PayStep,
    PrismPayRun,
};
use prism_core::strmap::StrMap;
use prism_core::types::{Destination, FeesIncurredBy, Member, Prism, PrismBinding, PrismError};

fn pubkey(c: char) -> String {
    format!("02{}", c.to_string().repeat(64))
}

fn member(id: &str, destination: Destination, split: u64, fees: FeesIncurredBy, threshold: u64) -> Member {
    Member {
        id: id.to_string(),
        description: format!("member {}", id),
        destination,
        split,
        fees_incurred_by: fees,
        payout_threshold_msat: threshold,
    }
}

fn prism(members: Vec<Member>, outlay_factor: i64) -> Prism {
    Prism { id: "prism1".to_string(), description: "test".to_string(), timestamp: 1, outlay_factor, members }
}

fn binding_for(p: &Prism) -> PrismBinding {
    let mut outlays = StrMap::new();
    for m in &p.members {
        outlays.insert(m.id.clone(), 0i64);
    }
    PrismBinding { offer_id: "offer1".to_string(), prism_id: p.id.clone(), timestamp: 2, outlays }
}

fn complete(amount: u64, sent: u64) -> Result<PaymentResult, PrismError> {
    Ok(PaymentResult { payment_hash: "h".to_string(), amount_msat: amount, amount_sent_msat: sent, status: PaymentStatus::Complete })
}

fn action_amount(a: &PaymentAction) -> u64 {
    match a {
        PaymentAction::FetchAndPayBolt12 { amount_msat, .. } => *amount_msat,
        PaymentAction::Keysend { amount_msat, .. } => *amount_msat,
    }
}

#[test]
fn member_payment_routes_by_destination() {
    assert_eq!(
        member_payment("a", &Destination::Bolt12Offer("lno1x".to_string()), 5).unwrap(),
        PaymentAction::FetchAndPayBolt12 { offer: "lno1x".to_string(), amount_msat: 5 }
    );
    assert_eq!(
        member_payment("a", &Destination::NodePubkey(pubkey('a')), 7).unwrap(),
        PaymentAction::Keysend { pubkey: pubkey('a'), amount_msat: 7 }
    );
    match member_payment("a", &Destination::Empty, 7) {
        Err(PrismError::Validation(m)) => assert_eq!(m, "member a has no destination set; skipping"),
        other => panic!("unexpected {:?}", other),
    }
}

#[test]
fn member_payout_copies_the_node_report() {
    let p = PaymentResult { payment_hash: "abc".to_string(), amount_msat: 10, amount_sent_msat: 11, status: PaymentStatus::Pending };
    let r = member_payout("m".to_string(), p);
    assert_eq!(r.member_id, "m");
    assert_eq!(r.payment_hash, "abc");
    assert_eq!((r.amount_msat, r.amount_sent_msat, r.status), (10, 11, PaymentStatus::Pending));
    assert_eq!(PaymentStatus::Complete.as_text(), "complete");
    assert_eq!(PaymentStatus::Failed.as_text(), "failed");
}

#[test]
fn prism_pay_ignores_thresholds_and_skips_empty_destinations() {
    let p = prism(
        vec![
            member("a", Destination::NodePubkey(pubkey('a')), 1, FeesIncurredBy::Remote, 1_000_000),
            member("b", Destination::Empty, 1, FeesIncurredBy::Remote, 0),
            member("c", Destination::Bolt12Offer("lno1qqq2qqq".to_string()), 2, FeesIncurredBy::Local, 0),
        ],
        500_000,
    );
    let mut run = PrismPayRun::start(&p, 2000);
    let mut actions = Vec::new();
    loop {
        match run.step(&p) {
            PayStep::Done => break,
            PayStep::Skipped => {}
            PayStep::Pay(a) => {
                let amount = action_amount(&a);
                actions.push(a);
                run.record(complete(amount, amount + 1));
            }
        }
    }
    // 2000 * 0.5 = 1000 split 1:1:2
    assert_eq!(
        actions,
        vec![
            PaymentAction::Keysend { pubkey: pubkey('a'), amount_msat: 250 },
            PaymentAction::FetchAndPayBolt12 { offer: "lno1qqq2qqq".to_string(), amount_msat: 500 },
        ]
    );
    let results = run.into_results();
    assert_eq!(results.len(), 3);
    assert_eq!(results.get(&"a".to_string()).unwrap().as_ref().unwrap().amount_msat, 250);
    assert!(results.get(&"b".to_string()).unwrap().is_none());
    assert_eq!(results.get(&"c".to_string()).unwrap().as_ref().unwrap().amount_sent_msat, 501);
}

#[test]
fn prism_pay_records_failures_as_none() {
    let p = prism(vec![member("a", Destination::NodePubkey(pubkey('a')), 1, FeesIncurredBy::Remote, 0)], 1_000_000);
    let mut run = PrismPayRun::start(&p, 10);
    match run.step(&p) {
        PayStep::Pay(_) => run.record(Err(PrismError::NodeRpc("down".to_string()))),
        other => panic!("unexpected {:?}", other),
    }
    assert!(matches!(run.step(&p), PayStep::Done));
    let results = run.into_results();
    assert!(results.get(&"a".to_string()).unwrap().is_none());
}

#[test]
fn prism_pay_uses_first_member_with_an_id() {
    let p = prism(
        vec![
            member("a", Destination::NodePubkey(pubkey('a')), 1, FeesIncurredBy::Remote, 0),
            member("a", Destination::NodePubkey(pubkey('b')), 3, FeesIncurredBy::Remote, 0),
        ],
        1_000_000,
    );
    let mut run = PrismPayRun::start(&p, 400);
    let mut actions = Vec::new();
    loop {
        match run.step(&p) {
            PayStep::Done => break,
            PayStep::Skipped => {}
            PayStep::Pay(a) => {
                actions.push(a);
                run.record(Err(PrismError::NodeRpc("x".to_string())));
            }
        }
    }
    assert_eq!(
        actions,
        vec![
            PaymentAction::Keysend { pubkey: pubkey('a'), amount_msat: 100 },
            PaymentAction::Keysend { pubkey: pubkey('a'), amount_msat: 300 },
        ]
    );
}

#[test]
fn increment_outlays_credits_shares() {
    let p = prism(
        vec![
            member("a", Destination::Empty, 1, FeesIncurredBy::Remote, 0),
            member("b", Destination::Empty, 3, FeesIncurredBy::Remote, 0),
        ],
        1_000_000,
    );
    let mut b = binding_for(&p);
    b.outlays.insert("a".to_string(), -10);
    increment_outlays(&p, &mut b, 1000).unwrap();
    assert_eq!(*b.outlays.get(&"a".to_string()).unwrap(), 240);
    assert_eq!(*b.outlays.get(&"b".to_string()).unwrap(), 750);
}

#[test]
fn increment_outlays_reports_out_of_sync_and_keeps_earlier_credits() {
    let p = prism(
        vec![
            member("a", Destination::Empty, 1, FeesIncurredBy::Remote, 0),
            member("z", Destination::Empty, 1, FeesIncurredBy::Remote, 0),
            member("b", Destination::Empty, 2, FeesIncurredBy::Remote, 0),
        ],
        1_000_000,
    );
    let mut outlays = StrMap::new();
    outlays.insert("a".to_string(), 0i64);
    outlays.insert("b".to_string(), 0i64);
    let mut b = PrismBinding { offer_id: "o".to_string(), prism_id: "prism1".to_string(), timestamp: 0, outlays };
    match increment_outlays(&p, &mut b, 400) {
        Err(PrismError::Validation(m)) => {
            assert_eq!(m, "binding and prism out of sync: member z not found in binding outlays")
        }
        other => panic!("unexpected {:?}", other),
    }
    assert_eq!(*b.outlays.get(&"a".to_string()).unwrap(), 100);
    assert_eq!(*b.outlays.get(&"b".to_string()).unwrap(), 0);
}

#[test]
fn crediting_overflow_is_detected() {
    let p = prism(vec![member("a", Destination::Empty, 1, FeesIncurredBy::Remote, 0)], 1_000_000);
    let mut b = binding_for(&p);
    assert!(outlays_can_be_credited(&p, &b, 1000));
    b.outlays.insert("a".to_string(), i64::MAX - 10);
    assert!(!outlays_can_be_credited(&p, &b, 1000));
    assert!(outlays_can_be_credited(&p, &b, 10));
}

fn drive(run: &mut BindingPayRun, p: &Prism, b: &mut PrismBinding, outcome: impl Fn(&PaymentAction) -> Result<PaymentResult, PrismError>) -> Vec<PaymentAction> {
    let mut actions = Vec::new();
    loop {
        match run.step(p, b) {
            PayStep::Done => break,
            PayStep::Skipped => {}
            PayStep::Pay(a) => {
                let o = outcome(&a);
                assert!(run.charge_is_in_range(p, &o));
                actions.push(a);
                run.record(p, b, o);
            }
        }
    }
    actions
}

#[test]
fn binding_pay_accumulates_until_threshold() {
    let p = prism(
        vec![
            member("a", Destination::NodePubkey(pubkey('a')), 1, FeesIncurredBy::Remote, 600),
            member("b", Destination::NodePubkey(pubkey('b')), 1, FeesIncurredBy::Local, 0),
        ],
        1_000_000,
    );
    let mut b = binding_for(&p);
    // first payment: 500 each; a stays below its threshold of 600
    let mut run = BindingPayRun::start(&p, &mut b, 1000).unwrap();
    let actions = drive(&mut run, &p, &mut b, |a| complete(action_amount(a), action_amount(a) + 3));
    assert_eq!(actions, vec![PaymentAction::Keysend { pubkey: pubkey('b'), amount_msat: 500 }]);
    let results = run.into_results();
    assert!(results.get(&"a".to_string()).unwrap().is_none());
    assert_eq!(*b.outlays.get(&"a".to_string()).unwrap(), 500);
    // host bears b's fees: b's outlay is settled to zero
    assert_eq!(*b.outlays.get(&"b".to_string()).unwrap(), 0);

    // second payment: a reaches 1000 and is paid its whole outlay; it bears the fee
    let mut run = BindingPayRun::start(&p, &mut b, 1000).unwrap();
    let actions = drive(&mut run, &p, &mut b, |a| complete(action_amount(a), action_amount(a) + 3));
    assert_eq!(
        actions,
        vec![
            PaymentAction::Keysend { pubkey: pubkey('a'), amount_msat: 1000 },
            PaymentAction::Keysend { pubkey: pubkey('b'), amount_msat: 500 },
        ]
    );
    assert_eq!(*b.outlays.get(&"a".to_string()).unwrap(), -3);
    assert_eq!(*b.outlays.get(&"b".to_string()).unwrap(), 0);
}

#[test]
fn binding_pay_keeps_outlay_when_payment_fails_or_is_pending() {
    let p = prism(
        vec![
            member("a", Destination::NodePubkey(pubkey('a')), 1, FeesIncurredBy::Remote, 0),
            member("b", Destination::NodePubkey(pubkey('b')), 1, FeesIncurredBy::Remote, 0),
            member("c", Destination::Empty, 1, FeesIncurredBy::Remote, 0),
        ],
        1_000_000,
    );
    let mut b = binding_for(&p);
    let mut run = BindingPayRun::start(&p, &mut b, 300).unwrap();
    let actions = drive(&mut run, &p, &mut b, |a| match a {
        PaymentAction::Keysend { pubkey: k, amount_msat } if *k == pubkey('a') => Err(PrismError::NodeRpc(format!("failed {}", amount_msat))),
        _ => Ok(PaymentResult { payment_hash: "h".to_string(), amount_msat: 100, amount_sent_msat: 100, status: PaymentStatus::Pending }),
    });
    assert_eq!(actions.len(), 2);
    let results = run.into_results();
    assert!(results.get(&"a".to_string()).unwrap().is_none());
    assert_eq!(results.get(&"b".to_string()).unwrap().as_ref().unwrap().status, PaymentStatus::Pending);
    assert!(results.get(&"c".to_string()).unwrap().is_none());
    for id in ["a", "b", "c"] {
        assert_eq!(*b.outlays.get(&id.to_string()).unwrap(), 100);
    }
}

#[test]
fn binding_pay_fails_when_binding_is_out_of_sync() {
    let p = prism(vec![member("a", Destination::Empty, 1, FeesIncurredBy::Remote, 0)], 1_000_000);
    let mut b = PrismBinding { offer_id: "o".to_string(), prism_id: "prism1".to_string(), timestamp: 0, outlays: StrMap::new() };
    assert!(matches!(BindingPayRun::start(&p, &mut b, 10), Err(PrismError::Validation(_))));
}

#[test]
fn prism_pay_is_the_same_whatever_the_thresholds() {
    let members = vec![
        member("a", Destination::NodePubkey(pubkey('a')), 1, FeesIncurredBy::Remote, 0),
        member("b", Destination::Bolt12Offer("lno1qqq2qqq".to_string()), 3, FeesIncurredBy::Local, 0),
    ];
    let mut raised = members.clone();
    raised[0].payout_threshold_msat = u64::MAX;
    raised[1].payout_threshold_msat = 1_000_000;
    let run_all = |p: &Prism| {
        let mut run = PrismPayRun::start(p, 1000);
        let mut actions = Vec::new();
        loop {
            match run.step(p) {
                PayStep::Done => break,
                PayStep::Skipped => {}
                PayStep::Pay(a) => {
                    let amount = action_amount(&a);
                    actions.push(a);
                    run.record(complete(amount, amount));
                }
            }
        }
        let results = run.into_results();
        let ids: Vec<String> = (0..results.len()).map(|i| results.key_at(i).clone()).collect();
        (actions, ids)
    };
    assert_eq!(run_all(&prism(members, 1_000_000)), run_all(&prism(raised, 1_000_000)));
}

#[test]
fn binding_pay_never_pays_below_a_top_of_range_threshold() {
    let p = prism(
        vec![
            member("a", Destination::NodePubkey(pubkey('a')), 1, FeesIncurredBy::Remote, u64::MAX),
            member("b", Destination::NodePubkey(pubkey('b')), 1, FeesIncurredBy::Remote, 1u64 << 63),
        ],
        1_000_000,
    );
    let mut b = binding_for(&p);
    b.outlays.insert("a".to_string(), i64::MAX - 1_000);
    b.outlays.insert("b".to_string(), i64::MAX - 1_000);
    let mut run = BindingPayRun::start(&p, &mut b, 1000).unwrap();
    let actions = drive(&mut run, &p, &mut b, |a| complete(action_amount(a), action_amount(a)));
    assert!(actions.is_empty());
    let results = run.into_results();
    assert_eq!(results.len(), 2);
    assert!(results.get(&"a".to_string()).unwrap().is_none());
    assert!(results.get(&"b".to_string()).unwrap().is_none());
    assert_eq!(*b.outlays.get(&"a".to_string()).unwrap(), i64::MAX - 500);
}
