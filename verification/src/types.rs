//! The data model: prisms, their members, bindings to offers, and errors.

use vstd::prelude::*;

use crate::strmap::StrMap;

verus! {

#[verifier::external_type_specification]
#[verifier::external_body]
pub struct ExJsonError(serde_json::Error);

/// Who pays the routing fees of a member's payout.
#[derive(Debug, Clone, Copy, PartialEq, Eq, Structural)]
pub enum FeesIncurredBy {
    /// The host absorbs the fees; the member's outlay is charged what it received.
    Local,
    /// The member bears the fees; its outlay is charged everything that was sent.
    Remote,
}

impl Default for FeesIncurredBy {
    fn default() -> (f: Self)
        ensures
            f == FeesIncurredBy::Remote,
    {
        FeesIncurredBy::Remote
    }
}

impl FeesIncurredBy {
    /// The policy's name: `local` or `remote`.
    pub fn as_text(&self) -> (s: &'static str)
        ensures
            s@ == match self {
                FeesIncurredBy::Local => "local"@,
                FeesIncurredBy::Remote => "remote"@,
            },
    {
        match self {
            FeesIncurredBy::Local => "local",
            FeesIncurredBy::Remote => "remote",
        }
    }
}

/// Where a member receives its payouts.
#[derive(Debug, Clone, PartialEq, Eq)]
pub enum Destination {
    Bolt12Offer(String),
    NodePubkey(String),
    Empty,
}

impl Destination {
    /// The destination as the text it was given as: the offer, the public
    /// key, or the empty text.
    pub fn as_text(&self) -> (s: &str)
        ensures
            s@ == match self {
                Destination::Bolt12Offer(t) => t@,
                Destination::NodePubkey(t) => t@,
                Destination::Empty => ""@,
            },
    {
        match self {
            Destination::Bolt12Offer(t) => t.as_str(),
            Destination::NodePubkey(t) => t.as_str(),
            Destination::Empty => "",
        }
    }
}

/// The mathematical value of a [`Destination`].
pub enum DestinationView {
    Bolt12Offer(Seq<char>),
    NodePubkey(Seq<char>),
    Empty,
}

impl View for Destination {
    type V = DestinationView;

    open spec fn view(&self) -> DestinationView {
        match self {
            Destination::Bolt12Offer(s) => DestinationView::Bolt12Offer(s@),
            Destination::NodePubkey(s) => DestinationView::NodePubkey(s@),
            Destination::Empty => DestinationView::Empty,
        }
    }
}

/// One recipient of a prism.
///
/// `split` is a relative weight: a member's share of a payout is
/// `split / (sum of all splits)`. Weights are whole numbers; a caller holding
/// fractional weights scales them by a common factor first.
#[derive(Debug, Clone)]
pub struct Member {
    pub id: String,
    pub description: String,
    pub destination: Destination,
    pub split: u64,
    pub fees_incurred_by: FeesIncurredBy,
    pub payout_threshold_msat: u64,
}

/// The mathematical value of a [`Member`].
pub struct MemberView {
    pub id: Seq<char>,
    pub description: Seq<char>,
    pub destination: DestinationView,
    pub split: u64,
    pub fees_incurred_by: FeesIncurredBy,
    pub payout_threshold_msat: u64,
}

impl View for Member {
    type V = MemberView;

    open spec fn view(&self) -> MemberView {
        MemberView {
            id: self.id@,
            description: self.description@,
            destination: self.destination@,
            split: self.split,
            fees_incurred_by: self.fees_incurred_by,
            payout_threshold_msat: self.payout_threshold_msat,
        }
    }
}

/// The number of parts per unit in which an outlay factor is expressed:
/// an `outlay_factor` of `FACTOR_SCALE` means a factor of exactly 1.
pub const FACTOR_SCALE: u64 = 1_000_000;

/// A payment policy: a list of members and a multiplier for incoming amounts.
///
/// `outlay_factor` is in parts per million (see [`FACTOR_SCALE`]).
#[derive(Debug, Clone)]
pub struct Prism {
    pub id: String,
    pub description: String,
    pub timestamp: u64,
    pub outlay_factor: i64,
    pub members: Vec<Member>,
}

/// Sum of the weights of a sequence of members.
pub open spec fn splits_sum(members: Seq<Member>) -> nat
    decreases members.len(),
{
    if members.len() == 0 {
        0
    } else {
        splits_sum(members.drop_last()) + members.last().split as nat
    }
}

proof fn lemma_splits_sum_bound(members: Seq<Member>)
    ensures
        splits_sum(members) <= members.len() * (u64::MAX as nat),
    decreases members.len(),
{
    if members.len() > 0 {
        lemma_splits_sum_bound(members.drop_last());
        assert(members.last().split <= u64::MAX);
        assert((members.len() - 1) * (u64::MAX as nat) + (u64::MAX as nat) == members.len() * (u64::MAX as nat))
            by (nonlinear_arith);
    }
}

impl Prism {
    /// Sum of all member splits: the denominator of every member's share.
    pub fn total_splits(&self) -> (t: u128)
        ensures
            t == splits_sum(self.members@),
    {
        total_splits_of(self.members.as_slice())
    }
}

/// Sum of the splits of `members`.
pub fn total_splits_of(members: &[Member]) -> (t: u128)
    ensures
        t == splits_sum(members@),
{
    let n = members.len();
    let mut total: u128 = 0;
    let mut i: usize = 0;
    while i < n
        invariant
            n == members@.len(),
            i <= n,
            total == splits_sum(members@.take(i as int)),
        decreases n - i,
    {
        proof {
            assert(members@.take(i + 1).drop_last() =~= members@.take(i as int));
            lemma_splits_sum_bound(members@.take(i as int));
            assert(i * (u64::MAX as nat) <= (usize::MAX as nat) * (u64::MAX as nat)) by (nonlinear_arith)
                requires i <= usize::MAX;
        }
        total = total + members[i].split as u128;
        i = i + 1;
    }
    assert(members@.take(n as int) =~= members@);
    total
}

/// A prism bound to an offer, with each member's running outlay.
///
/// Outlays are signed: a negative outlay means the member owes the host.
#[derive(Debug)]
pub struct PrismBinding {
    pub offer_id: String,
    pub prism_id: String,
    pub timestamp: u64,
    pub outlays: StrMap<i64>,
}

/// Errors of the library.
#[derive(Debug)]
pub enum PrismError {
    NotFound(String),
    BindingNotFound(String),
    Validation(String),
    PaymentFailed { member_id: String, reason: String },
    NodeRpc(String),
    Serialization(serde_json::Error),
}

/// The mathematical value of a [`PrismError`].
pub enum PrismErrorView {
    NotFound(Seq<char>),
    BindingNotFound(Seq<char>),
    Validation(Seq<char>),
    PaymentFailed { member_id: Seq<char>, reason: Seq<char> },
    NodeRpc(Seq<char>),
    Serialization,
}

impl View for PrismError {
    type V = PrismErrorView;

    open spec fn view(&self) -> PrismErrorView {
        match self {
            PrismError::NotFound(s) => PrismErrorView::NotFound(s@),
            PrismError::BindingNotFound(s) => PrismErrorView::BindingNotFound(s@),
            PrismError::Validation(s) => PrismErrorView::Validation(s@),
            PrismError::PaymentFailed { member_id, reason } => PrismErrorView::PaymentFailed {
                member_id: member_id@,
                reason: reason@,
            },
            PrismError::NodeRpc(s) => PrismErrorView::NodeRpc(s@),
            PrismError::Serialization(_) => PrismErrorView::Serialization,
        }
    }
}

} // verus!
