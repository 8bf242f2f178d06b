//! The decisions behind the plugin's commands: reading members and prisms
//! from request fields, and the checks each command makes before it touches
//! storage or the node. Requests arrive as plain values; a field that is absent
//! or of the wrong type arrives as `None`.

use vstd::prelude::*;

use crate::ids::{generate_id, is_generated_id, is_uuid_id};
use crate::strmap::StrMap;
use crate::text::same_text;
use crate::types::{
    Destination, DestinationView, FeesIncurredBy, Member, Prism, PrismBinding, PrismError, PrismErrorView,
    FACTOR_SCALE,
};
use crate::validation::{
    fees_incurred_by_message, invalid_destination_message, outlay_factor_message, parse_destination,
    destination_outcome, is_offer_shaped, pattern_accepts, validate_fees_incurred_by, validate_member_count, validate_member_description,
    validate_member_split, validate_outlay_factor, validate_prism_description, PUBKEY_PATTERN,
};

verus! {

/// A member as given in a request.
#[derive(Debug, Clone)]
pub struct MemberFields {
    pub member_id: Option<String>,
    pub description: Option<String>,
    pub destination: Option<String>,
    /// The split weight, when given as a number.
    pub split: Option<u64>,
    pub fees_incurred_by: Option<String>,
    pub payout_threshold_msat: Option<u64>,
}

/// The text of an optional field, or `default` when it is absent.
pub open spec fn text_or(t: Option<String>, default: Seq<char>) -> Seq<char> {
    match t {
        Some(s) => s@,
        None => default,
    }
}

/// The destination that `raw` names, if it names one.
pub open spec fn parsed_destination(raw: Seq<char>) -> Option<DestinationView> {
    if raw.len() == 0 {
        Some(DestinationView::Empty)
    } else if pattern_accepts(PUBKEY_PATTERN@, raw) {
        Some(DestinationView::NodePubkey(raw))
    } else if is_offer_shaped(raw) {
        Some(DestinationView::Bolt12Offer(raw))
    } else {
        None
    }
}

/// The fee policy that `raw` names, if it names one.
pub open spec fn parsed_fees(raw: Seq<char>) -> Option<FeesIncurredBy> {
    if raw == "local"@ {
        Some(FeesIncurredBy::Local)
    } else if raw == "remote"@ {
        Some(FeesIncurredBy::Remote)
    } else {
        None
    }
}

/// Why `f` is not a valid member, checked in this order: missing description,
/// destination or split; empty description; zero split; unknown fee policy
/// (absent means `remote`); invalid destination; and, when ids must be kept,
/// a missing id. `None` when it is valid.
pub open spec fn member_error(f: MemberFields, preserve_id: bool) -> Option<Seq<char>> {
    if f.description is None {
        Some("member missing 'description'"@)
    } else if f.destination is None {
        Some("member missing 'destination'"@)
    } else if f.split is None {
        Some("member missing or invalid 'split'"@)
    } else if f.description->0@.len() == 0 {
        Some("member description must not be empty"@)
    } else if f.split->0 == 0 {
        Some("member split must be a positive number"@)
    } else if parsed_fees(text_or(f.fees_incurred_by, "remote"@)) is None {
        Some(fees_incurred_by_message(text_or(f.fees_incurred_by, "remote"@)))
    } else if parsed_destination(f.destination->0@) is None {
        Some(invalid_destination_message(f.destination->0@))
    } else if preserve_id && f.member_id is None {
        Some("member missing 'member_id' (required for update)"@)
    } else {
        None
    }
}

/// `m` is the member that valid fields `f` describe; without an id of its
/// own it takes `fresh_id`. An absent threshold is zero.
pub open spec fn member_built(f: MemberFields, fresh_id: Seq<char>, m: Member) -> bool {
    &&& m.description@ == f.description->0@
    &&& parsed_destination(f.destination->0@) == Some(m.destination@)
    &&& m.split == f.split->0
    &&& parsed_fees(text_or(f.fees_incurred_by, "remote"@)) == Some(m.fees_incurred_by)
    &&& m.payout_threshold_msat == match f.payout_threshold_msat {
        Some(t) => t,
        None => 0,
    }
    &&& m.id@ == text_or(f.member_id, fresh_id)
}

/// What reading fields `f` as a member gives.
pub open spec fn member_outcome(f: MemberFields, preserve_id: bool, fresh_id: Seq<char>, r: Result<Member, PrismError>) -> bool {
    match member_error(f, preserve_id) {
        Some(msg) => r matches Err(e) && e@ == PrismErrorView::Validation(msg),
        None => r matches Ok(m) && member_built(f, fresh_id, m),
    }
}

fn validation_error(msg: &str) -> (e: PrismError)
    ensures
        e@ == PrismErrorView::Validation(msg@),
{
    PrismError::Validation(String::from_str(msg))
}

/// Reads a member from request fields; a member without an id of its own
/// gets `fresh_id`.
pub fn member_from_fields(fields: &MemberFields, preserve_id: bool, fresh_id: String) -> (r: Result<Member, PrismError>)
    ensures
        member_outcome(*fields, preserve_id, fresh_id@, r),
        r matches Ok(m) ==> fields.destination is Some && destination_outcome(
            fields.destination->0@,
            pattern_accepts(PUBKEY_PATTERN@, fields.destination->0@),
            is_offer_shaped(fields.destination->0@),
            Ok::<Destination, PrismError>(m.destination),
        ),
{
    let description = match &fields.description {
        Some(d) => d,
        None => return Err(validation_error("member missing 'description'")),
    };
    let destination_text = match &fields.destination {
        Some(d) => d,
        None => return Err(validation_error("member missing 'destination'")),
    };
    let split = match fields.split {
        Some(s) => s,
        None => return Err(validation_error("member missing or invalid 'split'")),
    };
    let fees_text: &str = match &fields.fees_incurred_by {
        Some(f) => f.as_str(),
        None => "remote",
    };
    let payout_threshold_msat: u64 = match fields.payout_threshold_msat {
        Some(t) => t,
        None => 0,
    };
    if let Err(e) = validate_member_description(description.as_str()) {
        return Err(e);
    }
    if let Err(e) = validate_member_split(split) {
        return Err(e);
    }
    let fees_incurred_by = match validate_fees_incurred_by(fees_text) {
        Ok(f) => f,
        Err(e) => return Err(e),
    };
    let destination = match parse_destination(destination_text.as_str()) {
        Ok(d) => d,
        Err(e) => return Err(e),
    };
    let id = match &fields.member_id {
        Some(id) => id.clone(),
        None => {
            if preserve_id {
                return Err(validation_error("member missing 'member_id' (required for update)"));
            }
            fresh_id
        },
    };
    Ok(Member {
        id,
        description: description.clone(),
        destination,
        split,
        fees_incurred_by,
        payout_threshold_msat,
    })
}

/// Reads a member from request fields; a member without an id of its own
/// gets a freshly generated one unless ids must be kept.
pub fn parse_member(fields: &MemberFields, preserve_id: bool) -> (r: Result<Member, PrismError>)
    ensures
        match member_error(*fields, preserve_id) {
            Some(msg) => r matches Err(e) && e@ == PrismErrorView::Validation(msg),
            None => r matches Ok(m) && member_read(*fields, m),
        },
{
    let needs_id = !preserve_id && fields.member_id.is_none();
    let fresh = if needs_id {
        generate_id()
    } else {
        String::new()
    };
    let r = member_from_fields(fields, preserve_id, fresh);
    proof {
        if needs_id {
            assert(is_generated_id(fresh@));
            assert(is_uuid_id(fresh@));
            if r is Ok {
                assert(member_built(*fields, fresh@, r->Ok_0));
            }
        }
    }
    r
}

/// A member read from request fields has exactly the destination its text
/// names: none for an empty text, the node public key itself for a text of
/// that shape, and otherwise the BOLT12 offer itself, which then has the shape
/// of an offer.
pub proof fn lemma_member_destination_is_parsed(f: MemberFields, fresh_id: Seq<char>, m: Member)
    requires
        f.destination is Some,
        member_built(f, fresh_id, m),
    ensures
        f.destination->0@.len() == 0 ==> m.destination@ == DestinationView::Empty,
        f.destination->0@.len() > 0 && pattern_accepts(PUBKEY_PATTERN@, f.destination->0@) ==> m.destination@
            == DestinationView::NodePubkey(f.destination->0@),
        f.destination->0@.len() > 0 && !pattern_accepts(PUBKEY_PATTERN@, f.destination->0@) ==> {
            &&& is_offer_shaped(f.destination->0@)
            &&& m.destination@ == DestinationView::Bolt12Offer(f.destination->0@)
        },
{
}

/// The id of a member read from request fields: the id the fields give, or,
/// when they give none, one made from a version-4 UUID.
pub proof fn lemma_member_id_is_given_or_generated(f: MemberFields, m: Member)
    requires
        member_read(f, m),
    ensures
        f.member_id matches Some(id) ==> m.id@ == id@,
        f.member_id is None ==> is_uuid_id(m.id@) && is_generated_id(m.id@),
{
}

/// The first position at or after `from` whose fields are not a valid member,
/// or the end of the list.
pub open spec fn first_invalid_member(list: Seq<MemberFields>, preserve_id: bool, from: int) -> int
    decreases list.len() - from,
{
    if from >= list.len() {
        list.len() as int
    } else if member_error(list[from], preserve_id) is Some {
        from
    } else {
        first_invalid_member(list, preserve_id, from + 1)
    }
}

proof fn lemma_first_invalid_member(list: Seq<MemberFields>, preserve_id: bool, from: int, k: int)
    requires
        0 <= from <= k <= list.len(),
        k < list.len() ==> member_error(list[k], preserve_id) is Some,
        forall|j: int| from <= j < k ==> member_error(#[trigger] list[j], preserve_id) is None,
    ensures
        first_invalid_member(list, preserve_id, from) == k,
    decreases k - from,
{
    if from < k {
        lemma_first_invalid_member(list, preserve_id, from + 1, k);
    }
}

/// `m` is the member that valid fields `f` describe: with the id the fields
/// give, or else with a generated one.
pub open spec fn member_read(f: MemberFields, m: Member) -> bool {
    match f.member_id {
        Some(_) => member_built(f, Seq::empty(), m),
        None => exists|fresh_id: Seq<char>| #[trigger] is_generated_id(fresh_id) && is_uuid_id(fresh_id) && member_built(f, fresh_id, m),
    }
}

/// `members` are the members that the valid fields `list` describe.
pub open spec fn members_built(list: Seq<MemberFields>, members: Seq<Member>) -> bool {
    &&& members.len() == list.len()
    &&& forall|i: int| 0 <= i < list.len() ==> member_read(list[i], #[trigger] members[i])
}

/// Reads every member of `list`, in order; the first invalid member's error
/// ends the reading.
pub fn parse_members(list: &Vec<MemberFields>, preserve_id: bool) -> (r: Result<Vec<Member>, PrismError>)
    ensures
        ({
            let k = first_invalid_member(list@, preserve_id, 0);
            if k < list@.len() {
                r matches Err(e) && e@ == PrismErrorView::Validation(member_error(list@[k], preserve_id)->0)
            } else {
                r matches Ok(ms) && members_built(list@, ms@)
            }
        }),
{
    let n = list.len();
    let mut members: Vec<Member> = Vec::new();
    let mut i: usize = 0;
    while i < n
        invariant
            n == list@.len(),
            i <= n,
            forall|j: int| 0 <= j < i ==> member_error(#[trigger] list@[j], preserve_id) is None,
            members@.len() == i,
            forall|j: int| 0 <= j < i ==> member_read(list@[j], #[trigger] members@[j]),
        decreases n - i,
    {
        let r = parse_member(&list[i], preserve_id);
        match r {
            Ok(m) => {
                assert(member_error(list@[i as int], preserve_id) is None);
                members.push(m);
                assert(member_read(list@[i as int], members@[i as int]));
            },
            Err(e) => {
                proof {
                    lemma_first_invalid_member(list@, preserve_id, 0, i as int);
                }
                return Err(e);
            },
        }
        i = i + 1;
    }
    proof {
        lemma_first_invalid_member(list@, preserve_id, 0, n as int);
    }
    Ok(members)
}

/// A command refused: with a message of its own, or with a library error.
#[derive(Debug)]
pub enum RequestError {
    Rejected(String),
    Invalid(PrismError),
}

/// The mathematical value of a [`RequestError`].
pub enum RequestErrorView {
    Rejected(Seq<char>),
    Invalid(PrismErrorView),
}

impl View for RequestError {
    type V = RequestErrorView;

    open spec fn view(&self) -> RequestErrorView {
        match self {
            RequestError::Rejected(m) => RequestErrorView::Rejected(m@),
            RequestError::Invalid(e) => RequestErrorView::Invalid(e@),
        }
    }
}

fn rejected(msg: &str) -> (e: RequestError)
    ensures
        e@ == RequestErrorView::Rejected(msg@),
{
    RequestError::Rejected(String::from_str(msg))
}

/// Why a member list is refused: it is not a list, it is empty, or one of its
/// members is invalid (the first such). `None` when every member is valid.
pub open spec fn member_list_error(list: Option<Seq<MemberFields>>, preserve_id: bool) -> Option<RequestErrorView> {
    match list {
        None => Some(RequestErrorView::Rejected("'members' must be an array"@)),
        Some(l) => if l.len() == 0 {
            Some(RequestErrorView::Invalid(PrismErrorView::Validation("a prism must have at least one member"@)))
        } else if first_invalid_member(l, preserve_id, 0) < l.len() {
            Some(
                RequestErrorView::Invalid(
                    PrismErrorView::Validation(member_error(l[first_invalid_member(l, preserve_id, 0)], preserve_id)->0),
                ),
            )
        } else {
            None
        },
    }
}

pub open spec fn list_view(list: Option<Vec<MemberFields>>) -> Option<Seq<MemberFields>> {
    match list {
        Some(l) => Some(l@),
        None => None,
    }
}

/// Reads the member list of a create or update request (`None` when the
/// request's members are not a list). On update every member must carry its id.
pub fn member_list(list: &Option<Vec<MemberFields>>, preserve_id: bool) -> (r: Result<Vec<Member>, RequestError>)
    ensures
        match member_list_error(list_view(*list), preserve_id) {
            Some(ev) => r matches Err(e) && e@ == ev,
            None => r matches Ok(ms) && members_built(list->0@, ms@),
        },
{
    let l = match list {
        Some(l) => l,
        None => return Err(rejected("'members' must be an array")),
    };
    if let Err(e) = validate_member_count(l.len()) {
        return Err(RequestError::Invalid(e));
    }
    match parse_members(l, preserve_id) {
        Ok(ms) => Ok(ms),
        Err(e) => Err(RequestError::Invalid(e)),
    }
}

/// Why a create request is refused, checked in this order: empty description
/// (absent means empty), outlay factor outside `(0, 10]` (absent means one),
/// then the member list.
pub open spec fn new_prism_error(
    description: Option<String>,
    outlay_factor: Option<i64>,
    members: Option<Seq<MemberFields>>,
) -> Option<RequestErrorView> {
    let factor: int = match outlay_factor {
        Some(f) => f as int,
        None => FACTOR_SCALE as int,
    };
    if text_or(description, Seq::empty()).len() == 0 {
        Some(RequestErrorView::Invalid(PrismErrorView::Validation("prism description must not be empty"@)))
    } else if !(0 < factor <= 10 * FACTOR_SCALE) {
        Some(RequestErrorView::Invalid(PrismErrorView::Validation(outlay_factor_message(factor))))
    } else {
        member_list_error(members, false)
    }
}

/// Builds a new prism from a create request, with a generated id and the
/// given timestamp.
pub fn new_prism(
    description: Option<String>,
    outlay_factor: Option<i64>,
    members: Option<Vec<MemberFields>>,
    timestamp: u64,
) -> (r: Result<Prism, RequestError>)
    ensures
        match new_prism_error(description, outlay_factor, list_view(members)) {
            Some(ev) => r matches Err(e) && e@ == ev,
            None => r matches Ok(p) && {
                &&& is_generated_id(p.id@)
                &&& is_uuid_id(p.id@)
                &&& p.description@ == text_or(description, Seq::empty())
                &&& p.timestamp == timestamp
                &&& p.outlay_factor == match outlay_factor {
                    Some(f) => f,
                    None => FACTOR_SCALE as i64,
                }
                &&& members_built(members->0@, p.members@)
            },
        },
{
    let description = match description {
        Some(d) => d,
        None => String::new(),
    };
    let outlay_factor: i64 = match outlay_factor {
        Some(f) => f,
        None => 1_000_000,
    };
    if let Err(e) = validate_prism_description(description.as_str()) {
        return Err(RequestError::Invalid(e));
    }
    if let Err(e) = validate_outlay_factor(outlay_factor) {
        return Err(RequestError::Invalid(e));
    }
    let members = match member_list(&members, false) {
        Ok(ms) => ms,
        Err(e) => return Err(e),
    };
    Ok(Prism { id: generate_id(), description, timestamp, outlay_factor, members })
}

pub open spec fn bound_prism_message(prism_id: Seq<char>) -> Seq<char> {
    "prism '"@ + prism_id + "' has existing bindings; remove them first with prism-deletebinding"@
}

/// A prism may be deleted only while no binding refers to it.
pub fn check_prism_unbound(bindings: &Vec<PrismBinding>, prism_id: &str) -> (r: Result<(), RequestError>)
    ensures
        r is Ok <==> forall|i: int| 0 <= i < bindings@.len() ==> (#[trigger] bindings@[i]).prism_id@ != prism_id@,
        r matches Err(e) ==> e@ == RequestErrorView::Rejected(bound_prism_message(prism_id@)),
{
    let n = bindings.len();
    let mut i: usize = 0;
    while i < n
        invariant
            n == bindings@.len(),
            i <= n,
            forall|j: int| 0 <= j < i ==> (#[trigger] bindings@[j]).prism_id@ != prism_id@,
        decreases n - i,
    {
        if same_text(bindings[i].prism_id.as_str(), prism_id) {
            let mut msg = String::from_str("prism '");
            msg.append(prism_id);
            msg.append("' has existing bindings; remove them first with prism-deletebinding");
            return Err(RequestError::Rejected(msg));
        }
        i = i + 1;
    }
    Ok(())
}

/// The amount of a pay request: it must be given, as a whole number, and be
/// positive.
pub fn check_pay_amount(amount_msat: Option<u64>) -> (r: Result<u64, RequestError>)
    ensures
        match amount_msat {
            None => r matches Err(e) && e@ == RequestErrorView::Rejected("missing or invalid 'amount_msat'"@),
            Some(a) => if a == 0 {
                r matches Err(e) && e@ == RequestErrorView::Rejected("amount_msat must be greater than 0"@)
            } else {
                r matches Ok(v) && v == a
            },
        },
{
    match amount_msat {
        None => Err(rejected("missing or invalid 'amount_msat'")),
        Some(a) => {
            if a == 0 {
                Err(rejected("amount_msat must be greater than 0"))
            } else {
                Ok(a)
            }
        },
    }
}

/// A new binding of `prism` to `offer_id`: every member starts with a zero
/// outlay.
pub fn new_binding(prism: &Prism, offer_id: &str, timestamp: u64) -> (b: PrismBinding)
    ensures
        b.offer_id@ == offer_id@,
        b.prism_id@ == prism.id@,
        b.timestamp == timestamp,
        forall|k: Seq<char>| #[trigger] b.outlays@.contains_key(k) <==> exists|i: int| 0 <= i < prism.members@.len() && prism.members@[i].id@ == k,
        forall|k: Seq<char>| #[trigger] b.outlays@.contains_key(k) ==> b.outlays@[k] == 0,
{
    let mut outlays: StrMap<i64> = StrMap::new();
    let n = prism.members.len();
    let mut i: usize = 0;
    while i < n
        invariant
            n == prism.members@.len(),
            i <= n,
            forall|k: Seq<char>| #[trigger] outlays@.contains_key(k) <==> exists|j: int| 0 <= j < i && prism.members@[j].id@ == k,
            forall|k: Seq<char>| #[trigger] outlays@.contains_key(k) ==> outlays@[k] == 0,
        decreases n - i,
    {
        outlays.insert(prism.members[i].id.clone(), 0);
        proof {
            assert forall|k: Seq<char>| #[trigger] outlays@.contains_key(k) <==> exists|j: int| 0 <= j < i + 1 && prism.members@[j].id@ == k by {
                if k == prism.members@[i as int].id@ {
                    assert(0 <= i < i + 1 && prism.members@[i as int].id@ == k);
                }
                if exists|j: int| 0 <= j < i + 1 && prism.members@[j].id@ == k {
                    let j = choose|j: int| 0 <= j < i + 1 && prism.members@[j].id@ == k;
                    if j < i {
                        assert(exists|j2: int| 0 <= j2 < i && prism.members@[j2].id@ == k);
                    }
                }
            }
        }
        i = i + 1;
    }
    PrismBinding {
        offer_id: String::from_str(offer_id),
        prism_id: prism.id.clone(),
        timestamp,
        outlays,
    }
}

pub open spec fn unknown_member_message(member_id: Seq<char>) -> Seq<char> {
    "member '"@ + member_id + "' not found in binding"@
}

/// Sets a member's outlay in a binding (absent means zero); the member must
/// already have one.
pub fn set_member_outlay(binding: &mut PrismBinding, member_id: &str, new_outlay_msat: Option<i64>) -> (r: Result<(), RequestError>)
    ensures
        r is Ok <==> old(binding).outlays@.contains_key(member_id@),
        r matches Err(e) ==> e@ == RequestErrorView::Rejected(unknown_member_message(member_id@)),
        r is Ok ==> final(binding).outlays@ == old(binding).outlays@.insert(
            member_id@,
            match new_outlay_msat {
                Some(v) => v,
                None => 0,
            },
        ),
        r is Err ==> final(binding).outlays@ == old(binding).outlays@,
        final(binding).offer_id == old(binding).offer_id,
        final(binding).prism_id == old(binding).prism_id,
        final(binding).timestamp == old(binding).timestamp,
{
    let key = String::from_str(member_id);
    if !binding.outlays.contains_key(&key) {
        let mut msg = String::from_str("member '");
        msg.append(member_id);
        msg.append("' not found in binding");
        return Err(RequestError::Rejected(msg));
    }
    let value: i64 = match new_outlay_msat {
        Some(v) => v,
        None => 0,
    };
    binding.outlays.insert(key, value);
    Ok(())
}

/// What the payment hook does with an incoming invoice payment.
#[derive(Debug, Clone, PartialEq, Eq)]
pub enum InvoicePayment {
    /// Not a BOLT12 payment: ignored.
    NotBolt12,
    /// A BOLT12 payment without an amount: ignored with a warning.
    MissingAmount,
    /// A BOLT12 payment of `amount_msat` to the offer `offer_id`.
    Bolt12 { offer_id: String, amount_msat: u64 },
}

/// Classifies an incoming invoice payment by its local offer id and amount.
pub fn classify_invoice_payment(local_offer_id: Option<String>, amount_msat: Option<u64>) -> (p: InvoicePayment)
    ensures
        p == match local_offer_id {
            None => InvoicePayment::NotBolt12,
            Some(o) => match amount_msat {
                None => InvoicePayment::MissingAmount,
                Some(a) => (InvoicePayment::Bolt12 { offer_id: o, amount_msat: a }),
            },
        },
{
    match local_offer_id {
        None => InvoicePayment::NotBolt12,
        Some(offer_id) => match amount_msat {
            None => InvoicePayment::MissingAmount,
            Some(amount_msat) => InvoicePayment::Bolt12 { offer_id, amount_msat },
        },
    }
}

} // verus!
