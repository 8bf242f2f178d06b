use prism_core::types::{Destination, PrismError};
use prism_core::validation::{parse_destination, starts_with_offer_prefix, validate_outlay_factor};

#[test]
fn destination_empty_pubkey_offer() {
    assert_eq!(parse_destination("").unwrap(), Destination::Empty);
    let pk = format!("02{}", "a".repeat(64));
    assert_eq!(parse_destination(&pk).unwrap(), Destination::NodePubkey(pk.clone()));
    let offer = "lno1qgsqvgnwgcg35z6ee2h3yczraddm72xrfua9uve2rlrm9deu7xyfzrc2q";
    assert_eq!(parse_destination(offer).unwrap(), Destination::Bolt12Offer(offer.to_string()));
    match parse_destination("nonsense") {
        Err(PrismError::Validation(m)) => assert_eq!(
            m,
            "destination 'nonsense' is not a valid BOLT12 offer, node pubkey, or empty string"
        ),
        other => panic!("unexpected {:?}", other),
    }
}

#[test]
fn outlay_factor_message_shows_value() {
    match validate_outlay_factor(10_500_000) {
        Err(PrismError::Validation(m)) => assert_eq!(
            m,
            "outlay_factor must be between 0.0 (exclusive) and 10.0 (inclusive), got 10.5"
        ),
        other => panic!("unexpected {:?}", other),
    }
    assert!(validate_outlay_factor(10_000_000).is_ok());
}

use prism_core::types::FeesIncurredBy;
use prism_core::validation::{
    validate_fees_incurred_by, validate_member_count, validate_member_description, validate_member_split,
    validate_prism_description,
};

fn message(e: PrismError) -> String {
    match e {
        PrismError::Validation(m) => m,
        other => panic!("unexpected {:?}", other),
    }
}

#[test]
fn pubkey_shapes() {
    let good = format!("03{}", "0123456789abcdefABCDEF0123456789abcdef0123456789abcdef0123456789");
    assert_eq!(good.len(), 66);
    assert_eq!(parse_destination(&good).unwrap(), Destination::NodePubkey(good.clone()));
    // wrong prefix, wrong length and non-hex digits are neither pubkeys nor offers
    for bad in [format!("04{}", "a".repeat(64)), format!("02{}", "a".repeat(63)), format!("02{}g", "a".repeat(63))] {
        assert!(parse_destination(&bad).is_err());
    }
}

#[test]
fn offer_shapes() {
    assert!(matches!(parse_destination("lno1pg257enxv4ezqcneype82um50ynhxgrwdajx283qfwdpl28qqmc78ymlvhmxcsywdk5wrjnj36jryg488qwlrnzyjczlqs85ck65ycmkdk92smwt9zuewdzfe7v4aavvaz5kgv9mkk63v3s0ge0f099kssh3yc95qztx504hu92hnx8ctzhtt08pgksq0q2ntd6ez7l9h7sx3hfqcyqhwulrzggzdvj0nl2z2z7fsnuzvcvdxfy3se8zq0x8uvatuqj00gmpryeqm3upmr6qlgc5j9tgszgeuy5utt36uug82vhqdwc73q4ewuvcqgcq"),
        Ok(Destination::Bolt12Offer(_))));
    // a single digit after the prefix is not enough
    assert!(parse_destination("lno1").is_err());
    assert!(parse_destination("lnoffer").is_err());
}

#[test]
fn descriptions_must_not_be_empty() {
    assert!(validate_member_description("Alice").is_ok());
    assert_eq!(message(validate_member_description("").unwrap_err()), "member description must not be empty");
    assert!(validate_prism_description("my prism").is_ok());
    assert_eq!(message(validate_prism_description("").unwrap_err()), "prism description must not be empty");
}

#[test]
fn splits_must_be_positive() {
    assert!(validate_member_split(1).is_ok());
    assert_eq!(message(validate_member_split(0).unwrap_err()), "member split must be a positive number");
}

#[test]
fn fee_policy_names() {
    assert_eq!(validate_fees_incurred_by("local").unwrap(), FeesIncurredBy::Local);
    assert_eq!(validate_fees_incurred_by("remote").unwrap(), FeesIncurredBy::Remote);
    assert_eq!(
        message(validate_fees_incurred_by("Local").unwrap_err()),
        "fees_incurred_by must be 'local' or 'remote', got 'Local'"
    );
}

#[test]
fn outlay_factor_bounds() {
    assert!(validate_outlay_factor(1).is_ok());
    assert!(validate_outlay_factor(1_000_000).is_ok());
    assert_eq!(
        message(validate_outlay_factor(0).unwrap_err()),
        "outlay_factor must be between 0.0 (exclusive) and 10.0 (inclusive), got 0"
    );
    assert_eq!(
        message(validate_outlay_factor(-250_000).unwrap_err()),
        "outlay_factor must be between 0.0 (exclusive) and 10.0 (inclusive), got -0.25"
    );
    assert_eq!(
        message(validate_outlay_factor(12_000_000).unwrap_err()),
        "outlay_factor must be between 0.0 (exclusive) and 10.0 (inclusive), got 12"
    );
    assert_eq!(
        message(validate_outlay_factor(10_000_001).unwrap_err()),
        "outlay_factor must be between 0.0 (exclusive) and 10.0 (inclusive), got 10.000001"
    );
}

#[test]
fn member_count_must_be_positive() {
    assert!(validate_member_count(1).is_ok());
    assert_eq!(message(validate_member_count(0).unwrap_err()), "a prism must have at least one member");
}

#[test]
fn bolt11_invoices_are_not_offers() {
    assert_eq!(
        message(parse_destination("lnbc2500u1pvjluez").unwrap_err()),
        "destination 'lnbc2500u1pvjluez' is not a valid BOLT12 offer, node pubkey, or empty string"
    );
    assert!(parse_destination("lntb1500n1pw8dl3xpp5").is_err());
    // an offer is read only with the lno prefix
    assert!(matches!(parse_destination("lno1qqq2qqq"), Ok(Destination::Bolt12Offer(_))));
    assert!(parse_destination("lni1qqq2qqq").is_err());
}

#[test]
fn offer_prefix_check() {
    assert!(starts_with_offer_prefix("lno1abc"));
    assert!(starts_with_offer_prefix("lno"));
    assert!(!starts_with_offer_prefix("ln"));
    assert!(!starts_with_offer_prefix("lnbc1"));
    assert!(!starts_with_offer_prefix(""));
}
