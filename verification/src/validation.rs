//! Input validation: destinations, member fields and prism fields.

use vstd::prelude::*;
use vstd::string::StrSliceExecFns;

use crate::text::{millionths_text, push_millionths, same_text};
use crate::types::{Destination, DestinationView, FeesIncurredBy, PrismError, PrismErrorView, FACTOR_SCALE};

verus! {

#[verifier::external_type_specification]
#[verifier::external_body]
pub struct ExRegex(regex::Regex);

/// Whether `regex::Regex::new` accepts `pattern`.
pub uninterp spec fn regex_compiles(pattern: Seq<char>) -> bool;

/// Whether `regex::Regex::is_match` reports a match of `text` for the regex
/// compiled from `pattern`.
pub uninterp spec fn regex_is_match(pattern: Seq<char>, text: Seq<char>) -> bool;

/// A compiled regular expression together with the pattern it came from.
pub struct Pattern {
    source: Ghost<Seq<char>>,
    compiled: regex::Regex,
}

impl Pattern {
    /// The pattern this regular expression was compiled from.
    pub closed spec fn source(&self) -> Seq<char> {
        self.source@
    }
}

/// Compiles `pattern` with `regex::Regex::new`. Claims: the result is present
/// exactly when the crate accepts the pattern, and it remembers the pattern.
#[verifier::external_body]
fn compile_pattern(pattern: &str) -> (p: Option<Pattern>)
    ensures
        p is Some <==> regex_compiles(pattern@),
        p matches Some(p) ==> p.source() == pattern@,
{
    regex::Regex::new(pattern).ok().map(|compiled| Pattern { source: Ghost(pattern@), compiled })
}

/// Matches `text` with `regex::Regex::is_match`. Claims: the answer is the
/// crate's answer for the pattern the regex was compiled from.
#[verifier::external_body]
fn pattern_is_match(p: &Pattern, text: &str) -> (m: bool)
    ensures
        m == regex_is_match(p.source(), text@),
{
    p.compiled.is_match(text)
}

/// Shape of a node public key: `0`, then `2` or `3`, then 64 hex digits.
pub const PUBKEY_PATTERN: &'static str = r"^0[2-3][0-9a-fA-F]{64}$";

/// Shape of a BOLT12 offer string.
pub const BOLT12_PATTERN: &'static str = r"^ln([a-zA-Z0-9]{1,90})[0-9]+[munp]?[a-zA-Z0-9]+[0-9]+[munp]?[a-zA-Z0-9]*$";

/// `text` matches `pattern` (a pattern that does not compile matches nothing).
pub open spec fn pattern_accepts(pattern: Seq<char>, text: Seq<char>) -> bool {
    regex_compiles(pattern) && regex_is_match(pattern, text)
}

fn matches_pattern(pattern: &str, text: &str) -> (m: bool)
    ensures
        m == pattern_accepts(pattern@, text@),
{
    match compile_pattern(pattern) {
        Some(p) => pattern_is_match(&p, text),
        None => false,
    }
}

/// `raw` starts with `lno`, the prefix of a BOLT12 offer.
pub open spec fn has_offer_prefix(raw: Seq<char>) -> bool {
    raw.len() >= 3 && raw[0] == 'l' && raw[1] == 'n' && raw[2] == 'o'
}

/// `raw` has the shape of a BOLT12 offer: the `lno` prefix, and a match of
/// the offer pattern.
pub open spec fn is_offer_shaped(raw: Seq<char>) -> bool {
    has_offer_prefix(raw) && pattern_accepts(BOLT12_PATTERN@, raw)
}

/// Whether `raw` starts with `lno`.
pub fn starts_with_offer_prefix(raw: &str) -> (b: bool)
    ensures
        b == has_offer_prefix(raw@),
{
    if raw.unicode_len() < 3 {
        return false;
    }
    raw.get_char(0) == 'l' && raw.get_char(1) == 'n' && raw.get_char(2) == 'o'
}

pub open spec fn invalid_destination_message(raw: Seq<char>) -> Seq<char> {
    "destination '"@ + raw + "' is not a valid BOLT12 offer, node pubkey, or empty string"@
}

/// What parsing `raw` gives, given whether it has the shape of a node public
/// key and whether it has the shape of a BOLT12 offer.
pub open spec fn destination_outcome(
    raw: Seq<char>,
    is_pubkey: bool,
    is_offer: bool,
    r: Result<Destination, PrismError>,
) -> bool {
    if raw.len() == 0 {
        r matches Ok(d) && d@ == DestinationView::Empty
    } else if is_pubkey {
        r matches Ok(d) && d@ == DestinationView::NodePubkey(raw)
    } else if is_offer {
        r matches Ok(d) && d@ == DestinationView::Bolt12Offer(raw)
    } else {
        r matches Err(e) && e@ == PrismErrorView::Validation(invalid_destination_message(raw))
    }
}

/// The destination that `raw` names, given whether it has the shape of a node
/// public key and whether it has the shape of a BOLT12 offer.
pub fn classify_destination(raw: &str, is_pubkey: bool, is_offer: bool) -> (r: Result<Destination, PrismError>)
    ensures
        destination_outcome(raw@, is_pubkey, is_offer, r),
{
    if raw.is_empty() {
        return Ok(Destination::Empty);
    }
    if is_pubkey {
        return Ok(Destination::NodePubkey(raw.to_owned()));
    }
    if is_offer {
        return Ok(Destination::Bolt12Offer(raw.to_owned()));
    }
    let mut msg = String::from_str("destination '");
    msg.append(raw);
    msg.append("' is not a valid BOLT12 offer, node pubkey, or empty string");
    Err(PrismError::Validation(msg))
}

/// Parses a raw destination string: empty, a node public key, or a BOLT12
/// offer (which starts with `lno`), tried in that order. An offer still has
/// to be confirmed by the node.
pub fn parse_destination(raw: &str) -> (r: Result<Destination, PrismError>)
    ensures
        destination_outcome(raw@, pattern_accepts(PUBKEY_PATTERN@, raw@), is_offer_shaped(raw@), r),
        r matches Ok(d) && d@ is Bolt12Offer ==> has_offer_prefix(raw@),
{
    if raw.is_empty() {
        return classify_destination(raw, false, false);
    }
    if matches_pattern(PUBKEY_PATTERN, raw) {
        return classify_destination(raw, true, false);
    }
    let is_offer = starts_with_offer_prefix(raw) && matches_pattern(BOLT12_PATTERN, raw);
    classify_destination(raw, false, is_offer)
}

/// A member needs a non-empty description.
pub fn validate_member_description(description: &str) -> (r: Result<(), PrismError>)
    ensures
        r is Ok <==> description@.len() > 0,
        r matches Err(e) ==> e@ == PrismErrorView::Validation("member description must not be empty"@),
{
    if description.is_empty() {
        return Err(PrismError::Validation(String::from_str("member description must not be empty")));
    }
    Ok(())
}

/// A member's split weight must be positive.
pub fn validate_member_split(split: u64) -> (r: Result<(), PrismError>)
    ensures
        r is Ok <==> split > 0,
        r matches Err(e) ==> e@ == PrismErrorView::Validation("member split must be a positive number"@),
{
    if split == 0 {
        return Err(PrismError::Validation(String::from_str("member split must be a positive number")));
    }
    Ok(())
}

pub open spec fn fees_incurred_by_message(raw: Seq<char>) -> Seq<char> {
    "fees_incurred_by must be 'local' or 'remote', got '"@ + raw + "'"@
}

/// Reads a fee policy: `local` or `remote`.
pub fn validate_fees_incurred_by(raw: &str) -> (r: Result<FeesIncurredBy, PrismError>)
    ensures
        raw@ == "local"@ ==> r == Ok::<FeesIncurredBy, PrismError>(FeesIncurredBy::Local),
        raw@ != "local"@ && raw@ == "remote"@ ==> r == Ok::<FeesIncurredBy, PrismError>(FeesIncurredBy::Remote),
        raw@ != "local"@ && raw@ != "remote"@ ==> (r matches Err(e) && e@ == PrismErrorView::Validation(
            fees_incurred_by_message(raw@),
        )),
{
    if same_text(raw, "local") {
        return Ok(FeesIncurredBy::Local);
    }
    if same_text(raw, "remote") {
        return Ok(FeesIncurredBy::Remote);
    }
    let mut msg = String::from_str("fees_incurred_by must be 'local' or 'remote', got '");
    msg.append(raw);
    msg.append("'");
    Err(PrismError::Validation(msg))
}

/// A prism needs a non-empty description.
pub fn validate_prism_description(description: &str) -> (r: Result<(), PrismError>)
    ensures
        r is Ok <==> description@.len() > 0,
        r matches Err(e) ==> e@ == PrismErrorView::Validation("prism description must not be empty"@),
{
    if description.is_empty() {
        return Err(PrismError::Validation(String::from_str("prism description must not be empty")));
    }
    Ok(())
}

/// The largest outlay factor, ten, in millionths.
pub const MAX_OUTLAY_FACTOR: i64 = 10_000_000;

pub open spec fn outlay_factor_message(factor: int) -> Seq<char> {
    "outlay_factor must be between 0.0 (exclusive) and 10.0 (inclusive), got "@ + millionths_text(factor)
}

/// An outlay factor (in millionths) must lie in `(0, 10]`.
pub fn validate_outlay_factor(factor: i64) -> (r: Result<(), PrismError>)
    ensures
        r is Ok <==> 0 < factor <= 10 * FACTOR_SCALE,
        r matches Err(e) ==> e@ == PrismErrorView::Validation(outlay_factor_message(factor as int)),
{
    if factor <= 0 || factor > MAX_OUTLAY_FACTOR {
        let mut msg = String::from_str("outlay_factor must be between 0.0 (exclusive) and 10.0 (inclusive), got ");
        push_millionths(&mut msg, factor);
        return Err(PrismError::Validation(msg));
    }
    Ok(())
}

/// A prism needs at least one member.
pub fn validate_member_count(count: usize) -> (r: Result<(), PrismError>)
    ensures
        r is Ok <==> count > 0,
        r matches Err(e) ==> e@ == PrismErrorView::Validation("a prism must have at least one member"@),
{
    if count == 0 {
        return Err(PrismError::Validation(String::from_str("a prism must have at least one member")));
    }
    Ok(())
}

} // verus!
