use prism_core::ids::{generate_id, id_from_seed};
use prism_core::requests::{
    check_pay_amount, check_prism_unbound, classify_invoice_payment, member_from_fields, member_list, new_binding,
    new_prism, parse_member, set_member_outlay, InvoicePayment, MemberFields, RequestError,
};
use prism_core::strmap::StrMap;
use prism_core::text::to_hex_lower;
use prism_core::types::{Destination, FeesIncurredBy, Prism, PrismBinding, PrismError};

fn fields(id: Option<&str>, description: Option<&str>, destination: Option<&str>, split: Option<u64>) -> MemberFields {
    MemberFields {
        member_id: id.map(|s| s.to_string()),
        description: description.map(|s| s.to_string()),
        destination: destination.map(|s| s.to_string()),
        split,
        fees_incurred_by: None,
        payout_threshold_msat: None,
    }
}

fn validation(r: Result<prism_core::types::Member, PrismError>) -> String {
    match r {
        Err(PrismError::Validation(m)) => m,
        other => panic!("unexpected {:?}", other),
    }
}

#[test]
fn member_fields_are_checked_in_order() {
    assert_eq!(validation(parse_member(&fields(None, None, None, None), false)), "member missing 'description'");
    assert_eq!(validation(parse_member(&fields(None, Some(""), None, None), false)), "member missing 'destination'");
    assert_eq!(validation(parse_member(&fields(None, Some(""), Some(""), None), false)), "member missing or invalid 'split'");
    assert_eq!(validation(parse_member(&fields(None, Some(""), Some("bad"), Some(0)), false)), "member description must not be empty");
    assert_eq!(validation(parse_member(&fields(None, Some("A"), Some("bad"), Some(0)), false)), "member split must be a positive number");
    let mut f = fields(None, Some("A"), Some("bad"), Some(1));
    f.fees_incurred_by = Some("both".to_string());
    assert_eq!(validation(parse_member(&f, false)), "fees_incurred_by must be 'local' or 'remote', got 'both'");
    assert_eq!(
        validation(parse_member(&fields(None, Some("A"), Some("bad"), Some(1)), false)),
        "destination 'bad' is not a valid BOLT12 offer, node pubkey, or empty string"
    );
    assert_eq!(
        validation(parse_member(&fields(None, Some("A"), Some(""), Some(1)), true)),
        "member missing 'member_id' (required for update)"
    );
}

#[test]
fn member_defaults_and_ids() {
    let m = parse_member(&fields(Some("m7"), Some("Alice"), Some(""), Some(2)), true).unwrap();
    assert_eq!(m.id, "m7");
    assert_eq!(m.description, "Alice");
    assert_eq!(m.destination, Destination::Empty);
    assert_eq!(m.split, 2);
    assert_eq!(m.fees_incurred_by, FeesIncurredBy::Remote);
    assert_eq!(m.payout_threshold_msat, 0);
    let generated = parse_member(&fields(None, Some("Bob"), Some(""), Some(1)), false).unwrap();
    assert_eq!(generated.id.len(), 64);
    assert!(generated.id.chars().all(|c| c.is_ascii_hexdigit() && !c.is_ascii_uppercase()));
    let mut f = fields(None, Some("Carol"), Some(""), Some(1));
    f.fees_incurred_by = Some("local".to_string());
    f.payout_threshold_msat = Some(5000);
    let m = member_from_fields(&f, false, "fresh".to_string()).unwrap();
    assert_eq!(m.id, "fresh");
    assert_eq!(m.fees_incurred_by, FeesIncurredBy::Local);
    assert_eq!(m.payout_threshold_msat, 5000);
}

#[test]
fn ids_are_hex_sha256() {
    assert_eq!(id_from_seed("abc"), "ba7816bf8f01cfea414140de5dae2223b00361a396177a9cb410ff61f20015ad");
    assert_eq!(id_from_seed(""), "e3b0c44298fc1c149afbf4c8996fb92427ae41e4649b934ca495991b7852b855");
    let a = generate_id();
    let b = generate_id();
    assert_eq!(a.len(), 64);
    assert_ne!(a, b);
    assert_eq!(to_hex_lower(&[0x00, 0xbe, 0xef, 0x0f]), "00beef0f");
}

fn rejected(e: RequestError) -> String {
    match e {
        RequestError::Rejected(m) => m,
        RequestError::Invalid(PrismError::Validation(m)) => format!("invalid: {}", m),
        other => panic!("unexpected {:?}", other),
    }
}

#[test]
fn member_lists() {
    assert_eq!(rejected(member_list(&None, false).unwrap_err()), "'members' must be an array");
    assert_eq!(rejected(member_list(&Some(vec![]), false).unwrap_err()), "invalid: a prism must have at least one member");
    let list = vec![fields(Some("a"), Some("A"), Some(""), Some(1)), fields(Some("b"), None, None, None)];
    assert_eq!(rejected(member_list(&Some(list), true).unwrap_err()), "invalid: member missing 'description'");
    let list = vec![fields(Some("a"), Some("A"), Some(""), Some(1)), fields(Some("b"), Some("B"), Some(""), Some(3))];
    let members = member_list(&Some(list), true).unwrap();
    assert_eq!(members.iter().map(|m| m.id.as_str()).collect::<Vec<_>>(), vec!["a", "b"]);
}

#[test]
fn new_prism_checks_and_defaults() {
    let members = Some(vec![fields(None, Some("A"), Some(""), Some(1))]);
    assert_eq!(
        rejected(new_prism(None, None, members.clone(), 1).unwrap_err()),
        "invalid: prism description must not be empty"
    );
    assert_eq!(
        rejected(new_prism(Some("d".to_string()), Some(0), None, 1).unwrap_err()),
        "invalid: outlay_factor must be between 0.0 (exclusive) and 10.0 (inclusive), got 0"
    );
    assert_eq!(rejected(new_prism(Some("d".to_string()), None, None, 1).unwrap_err()), "'members' must be an array");
    let p = new_prism(Some("d".to_string()), None, members, 42).unwrap();
    assert_eq!(p.outlay_factor, 1_000_000);
    assert_eq!(p.timestamp, 42);
    assert_eq!(p.id.len(), 64);
    assert_eq!(p.members.len(), 1);
    assert_eq!(p.members[0].id.len(), 64);
}

fn binding(prism_id: &str) -> PrismBinding {
    PrismBinding { offer_id: "o".to_string(), prism_id: prism_id.to_string(), timestamp: 0, outlays: StrMap::new() }
}

#[test]
fn delete_refused_while_bound() {
    assert!(check_prism_unbound(&vec![binding("x")], "p").is_ok());
    assert_eq!(
        rejected(check_prism_unbound(&vec![binding("x"), binding("p")], "p").unwrap_err()),
        "prism 'p' has existing bindings; remove them first with prism-deletebinding"
    );
}

#[test]
fn pay_amount_checks() {
    assert_eq!(rejected(check_pay_amount(None).unwrap_err()), "missing or invalid 'amount_msat'");
    assert_eq!(rejected(check_pay_amount(Some(0)).unwrap_err()), "amount_msat must be greater than 0");
    assert_eq!(check_pay_amount(Some(5)).unwrap(), 5);
}

#[test]
fn new_binding_starts_at_zero_and_setoutlay_changes_one() {
    let members = Some(vec![fields(Some("a"), Some("A"), Some(""), Some(1)), fields(Some("b"), Some("B"), Some(""), Some(1))]);
    let prism: Prism = new_prism(Some("d".to_string()), None, members, 1).unwrap();
    let mut b = new_binding(&prism, "offer9", 3);
    assert_eq!(b.offer_id, "offer9");
    assert_eq!(b.prism_id, prism.id);
    assert_eq!(b.outlays.len(), 2);
    assert_eq!(*b.outlays.get(&"a".to_string()).unwrap(), 0);
    set_member_outlay(&mut b, "b", Some(-70)).unwrap();
    assert_eq!(*b.outlays.get(&"b".to_string()).unwrap(), -70);
    set_member_outlay(&mut b, "b", None).unwrap();
    assert_eq!(*b.outlays.get(&"b".to_string()).unwrap(), 0);
    assert_eq!(rejected(set_member_outlay(&mut b, "zz", Some(1)).unwrap_err()), "member 'zz' not found in binding");
}

#[test]
fn invoice_payments_are_classified() {
    assert_eq!(classify_invoice_payment(None, Some(5)), InvoicePayment::NotBolt12);
    assert_eq!(classify_invoice_payment(Some("o".to_string()), None), InvoicePayment::MissingAmount);
    assert_eq!(
        classify_invoice_payment(Some("o".to_string()), Some(5)),
        InvoicePayment::Bolt12 { offer_id: "o".to_string(), amount_msat: 5 }
    );
}
