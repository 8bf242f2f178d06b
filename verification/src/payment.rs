//! Payout execution. A payout alternates decisions with payments made by the
//! node, so each kind of payout is a run driven step by step: `step` says which
//! payment to make next (or that the run is over), the caller makes it and
//! hands the outcome to `record`.

use vstd::prelude::*;

use crate::node::{PaymentAction, PaymentResult, PaymentStatus};
use crate::split::{
    apply_outlay_factor, calculate_member_payouts, lemma_share_within_total, lemma_split_within_sum,
    new_outlay_after_payment, outlay_deduction, scaled_amount, share_of,
};
use crate::strmap::StrMap;
use crate::types::{splits_sum, Destination, Member, Prism, PrismBinding, PrismError, PrismErrorView};

verus! {

/// What one member received from a payout.
#[derive(Debug, Clone)]
pub struct MemberPayoutResult {
    pub member_id: String,
    pub amount_msat: u64,
    pub amount_sent_msat: u64,
    pub payment_hash: String,
    pub status: PaymentStatus,
}

/// Per-member outcome of a payout: `None` when the member was skipped or its
/// payment failed.
pub type PayoutResults = StrMap<Option<MemberPayoutResult>>;

/// The payment that reaches `destination` with `amount_msat`; none for an
/// empty destination.
pub open spec fn action_for(destination: Destination, amount_msat: u64) -> Option<PaymentAction> {
    match destination {
        Destination::Bolt12Offer(offer) => Some(PaymentAction::FetchAndPayBolt12 { offer, amount_msat }),
        Destination::NodePubkey(pubkey) => Some(PaymentAction::Keysend { pubkey, amount_msat }),
        Destination::Empty => None,
    }
}

pub open spec fn no_destination_message(member_id: Seq<char>) -> Seq<char> {
    "member "@ + member_id + " has no destination set; skipping"@
}

/// The payment that pays a member `amount_msat` at its destination; an error
/// when the member has no destination.
pub fn member_payment(member_id: &str, destination: &Destination, amount_msat: u64) -> (r: Result<PaymentAction, PrismError>)
    ensures
        action_for(*destination, amount_msat) matches Some(a) ==> r == Ok::<PaymentAction, PrismError>(a),
        action_for(*destination, amount_msat) is None ==> (r matches Err(e) && e@ == PrismErrorView::Validation(
            no_destination_message(member_id@),
        )),
{
    match destination {
        Destination::Bolt12Offer(offer) => Ok(PaymentAction::FetchAndPayBolt12 { offer: offer.clone(), amount_msat }),
        Destination::NodePubkey(pubkey) => Ok(PaymentAction::Keysend { pubkey: pubkey.clone(), amount_msat }),
        Destination::Empty => {
            let mut msg = String::from_str("member ");
            msg.append(member_id);
            msg.append(" has no destination set; skipping");
            Err(PrismError::Validation(msg))
        },
    }
}

/// The record of a member's payout made from what the node reported.
pub open spec fn payout_record(member_id: String, payment: PaymentResult) -> MemberPayoutResult {
    MemberPayoutResult {
        member_id,
        amount_msat: payment.amount_msat,
        amount_sent_msat: payment.amount_sent_msat,
        payment_hash: payment.payment_hash,
        status: payment.status,
    }
}

/// Records what the node reported for a member's payment.
pub fn member_payout(member_id: String, payment: PaymentResult) -> (r: MemberPayoutResult)
    ensures
        r == payout_record(member_id, payment),
{
    MemberPayoutResult {
        member_id,
        amount_msat: payment.amount_msat,
        amount_sent_msat: payment.amount_sent_msat,
        payment_hash: payment.payment_hash,
        status: payment.status,
    }
}

/// Each member's share of `total`, in member order: the member's id and amount.
pub open spec fn payout_plan(members: Seq<Member>, total: nat) -> Seq<(Seq<char>, u64)> {
    Seq::new(
        members.len(),
        |i: int| (members[i].id@, share_of(total, members[i].split as nat, splits_sum(members)) as u64),
    )
}

/// Outlays after the first `k` entries of `plan` have been credited.
pub open spec fn credited(outlays: Map<Seq<char>, i64>, plan: Seq<(Seq<char>, u64)>, k: nat) -> Map<Seq<char>, i64>
    decreases k,
{
    if k == 0 || k > plan.len() {
        outlays
    } else {
        let before = credited(outlays, plan, (k - 1) as nat);
        let id = plan[k - 1].0;
        before.insert(id, (before[id] + (plan[k - 1].1 as i64)) as i64)
    }
}

/// `k` is where crediting `plan` stops: the first entry whose member has no
/// outlay, or the end of the plan.
pub open spec fn credit_stops_at(outlays: Map<Seq<char>, i64>, plan: Seq<(Seq<char>, u64)>, k: int) -> bool {
    &&& 0 <= k <= plan.len()
    &&& k < plan.len() ==> !outlays.contains_key(plan[k].0)
    &&& forall|j: int| 0 <= j < k ==> outlays.contains_key(#[trigger] plan[j].0)
}

pub open spec fn credit_stop(outlays: Map<Seq<char>, i64>, plan: Seq<(Seq<char>, u64)>) -> int {
    choose|k: int| credit_stops_at(outlays, plan, k)
}

/// Crediting `plan` up to where it stops never leaves the range of `i64`.
pub open spec fn credits_fit(outlays: Map<Seq<char>, i64>, plan: Seq<(Seq<char>, u64)>) -> bool {
    forall|j: int|
        0 <= j < credit_stop(outlays, plan) ==> i64::MIN <= #[trigger] credited(outlays, plan, j as nat)[plan[j].0]
            + (plan[j].1 as i64) <= i64::MAX
}

pub open spec fn out_of_sync_message(member_id: Seq<char>) -> Seq<char> {
    "binding and prism out of sync: member "@ + member_id + " not found in binding outlays"@
}

proof fn lemma_credit_stop_unique(outlays: Map<Seq<char>, i64>, plan: Seq<(Seq<char>, u64)>, k: int)
    requires
        credit_stops_at(outlays, plan, k),
    ensures
        credit_stop(outlays, plan) == k,
{
    let c = credit_stop(outlays, plan);
    assert(credit_stops_at(outlays, plan, c));
    if c < k {
        assert(outlays.contains_key(plan[c].0));
    }
    if k < c {
        assert(outlays.contains_key(plan[k].0));
    }
}

proof fn lemma_credited_keeps_keys(outlays: Map<Seq<char>, i64>, plan: Seq<(Seq<char>, u64)>, k: nat)
    requires
        k <= plan.len(),
        forall|j: int| 0 <= j < k ==> outlays.contains_key(#[trigger] plan[j].0),
    ensures
        credited(outlays, plan, k).dom() == outlays.dom(),
    decreases k,
{
    if k > 0 {
        lemma_credited_keeps_keys(outlays, plan, (k - 1) as nat);
        assert(outlays.contains_key(plan[k - 1].0));
        assert(credited(outlays, plan, k).dom() =~= outlays.dom());
    }
}

proof fn lemma_credited_values(o: Map<Seq<char>, i64>, plan: Seq<(Seq<char>, u64)>, k: nat)
    requires
        k <= plan.len(),
        forall|i: int, j: int| 0 <= i < j < plan.len() ==> plan[i].0 != plan[j].0,
        forall|j: int|
            0 <= j < plan.len() ==> {
                &&& o.contains_key(#[trigger] plan[j].0)
                &&& plan[j].1 <= i64::MAX
                &&& o[plan[j].0] + plan[j].1 <= i64::MAX
            },
    ensures
        forall|i: int|
            0 <= i < plan.len() ==> #[trigger] credited(o, plan, k)[plan[i].0] == o[plan[i].0] + (if i < k {
                plan[i].1 as int
            } else {
                0int
            }),
        forall|x: Seq<char>|
            (forall|j: int| 0 <= j < plan.len() ==> plan[j].0 != x) ==> #[trigger] credited(o, plan, k)[x] == o[x],
    decreases k,
{
    if k > 0 {
        lemma_credited_values(o, plan, (k - 1) as nat);
        let before = credited(o, plan, (k - 1) as nat);
        let id = plan[k - 1].0;
        assert(before[id] == o[id]);
        assert(credited(o, plan, k) == before.insert(id, (before[id] + (plan[k - 1].1 as i64)) as i64));
        assert forall|i: int| 0 <= i < plan.len() implies #[trigger] credited(o, plan, k)[plan[i].0] == o[plan[i].0] + (
        if i < k {
            plan[i].1 as int
        } else {
            0int
        }) by {
            if i != k - 1 {
                assert(plan[i].0 != id);
                assert(before[plan[i].0] == o[plan[i].0] + (if i < k - 1 {
                    plan[i].1 as int
                } else {
                    0int
                }));
            }
        }
        assert forall|x: Seq<char>| (forall|j: int| 0 <= j < plan.len() ==> plan[j].0 != x) implies #[trigger] credited(
            o,
            plan,
            k,
        )[x] == o[x] by {
            assert(plan[k - 1].0 != x);
            assert(before[x] == o[x]);
        }
    }
}

/// No two members of `members` share an id.
pub open spec fn distinct_ids(members: Seq<Member>) -> bool {
    forall|i: int, j: int| 0 <= i < j < members.len() ==> members[i].id@ != members[j].id@
}

/// Every member of `members` has an outlay in `outlays`, and adding its share
/// `floor(total * split / sum of splits)` to that outlay stays within `i64`.
pub open spec fn shares_fit(outlays: Map<Seq<char>, i64>, members: Seq<Member>, total: nat) -> bool {
    forall|i: int|
        0 <= i < members.len() ==> {
            &&& outlays.contains_key(#[trigger] members[i].id@)
            &&& total * members[i].split / (splits_sum(members) as int) <= i64::MAX
            &&& outlays[members[i].id@] + total * members[i].split / (splits_sum(members) as int) <= i64::MAX
        }
}

/// Crediting a payment to a binding gives every member its whole weighted
/// share: each member's outlay grows by exactly
/// `floor(total * split / sum of splits)`, however large, the binding keeps
/// the same members, and outlays of ids outside the prism stay as they were.
pub proof fn lemma_crediting_adds_each_share(outlays: Map<Seq<char>, i64>, members: Seq<Member>, total: nat)
    requires
        total <= u64::MAX,
        splits_sum(members) > 0,
        distinct_ids(members),
        shares_fit(outlays, members, total),
    ensures
        credit_stop(outlays, payout_plan(members, total)) == members.len(),
        credited(outlays, payout_plan(members, total), members.len()).dom() == outlays.dom(),
        forall|i: int|
            0 <= i < members.len() ==> #[trigger] credited(outlays, payout_plan(members, total), members.len())[members[i].id@]
                == outlays[members[i].id@] + total * members[i].split / (splits_sum(members) as int),
        forall|x: Seq<char>|
            (forall|j: int| 0 <= j < members.len() ==> members[j].id@ != x) ==> #[trigger] credited(
                outlays,
                payout_plan(members, total),
                members.len(),
            )[x] == outlays[x],
{
    let plan = payout_plan(members, total);
    let w = splits_sum(members);
    assert forall|j: int| 0 <= j < plan.len() implies {
        &&& outlays.contains_key(#[trigger] plan[j].0)
        &&& plan[j].1 <= i64::MAX
        &&& outlays[plan[j].0] + plan[j].1 <= i64::MAX
        &&& plan[j].1 == total * members[j].split / (w as int)
    } by {
        assert(outlays.contains_key(members[j].id@));
        lemma_split_within_sum(members, j);
        lemma_share_within_total(total, members[j].split as nat, w);
    }
    assert forall|i: int, j: int| 0 <= i < j < plan.len() implies plan[i].0 != plan[j].0 by {
        assert(members[i].id@ != members[j].id@);
    }
    assert(credit_stops_at(outlays, plan, plan.len() as int));
    lemma_credit_stop_unique(outlays, plan, plan.len() as int);
    lemma_credited_keeps_keys(outlays, plan, plan.len());
    lemma_credited_values(outlays, plan, plan.len());
    assert forall|i: int| 0 <= i < members.len() implies #[trigger] credited(outlays, plan, members.len())[members[i].id@]
        == outlays[members[i].id@] + total * members[i].split / (w as int) by {
        assert(plan[i].0 == members[i].id@);
        assert(credited(outlays, plan, plan.len())[plan[i].0] == outlays[plan[i].0] + plan[i].1);
    }
    assert forall|x: Seq<char>| (forall|j: int| 0 <= j < members.len() ==> members[j].id@ != x) implies #[trigger] credited(
        outlays,
        plan,
        members.len(),
    )[x] == outlays[x] by {
        assert forall|j: int| 0 <= j < plan.len() implies plan[j].0 != x by {
            assert(members[j].id@ != x);
        }
    }
}

/// Credits each member's outlay with its share of `total_outlays`, in member
/// order. Stops with an error at the first member that has no outlay in the
/// binding; the members before it stay credited.
pub fn increment_outlays(prism: &Prism, binding: &mut PrismBinding, total_outlays: u64) -> (r: Result<(), PrismError>)
    requires
        credits_fit(old(binding).outlays@, payout_plan(prism.members@, total_outlays as nat)),
    ensures
        ({
            let plan = payout_plan(prism.members@, total_outlays as nat);
            let stop = credit_stop(old(binding).outlays@, plan);
            &&& credit_stops_at(old(binding).outlays@, plan, stop)
            &&& final(binding).outlays@ == credited(old(binding).outlays@, plan, stop as nat)
            &&& (r is Ok <==> stop == plan.len())
            &&& r matches Err(e) ==> e@ == PrismErrorView::Validation(out_of_sync_message(plan[stop].0))
        }),
        final(binding).offer_id == old(binding).offer_id,
        final(binding).prism_id == old(binding).prism_id,
        final(binding).timestamp == old(binding).timestamp,
        distinct_ids(prism.members@) && splits_sum(prism.members@) > 0 && shares_fit(
            old(binding).outlays@,
            prism.members@,
            total_outlays as nat,
        ) ==> {
            &&& r is Ok
            &&& final(binding).outlays@.dom() == old(binding).outlays@.dom()
            &&& forall|i: int|
                0 <= i < prism.members@.len() ==> #[trigger] final(binding).outlays@[prism.members@[i].id@]
                    == old(binding).outlays@[prism.members@[i].id@] + total_outlays * prism.members@[i].split / (
                splits_sum(prism.members@) as int)
        },
{
    let ghost o = binding.outlays@;
    let ghost plan = payout_plan(prism.members@, total_outlays as nat);
    let ghost whole = distinct_ids(prism.members@) && splits_sum(prism.members@) > 0 && shares_fit(
        o,
        prism.members@,
        total_outlays as nat,
    );
    proof {
        lemma_first_missing(o, plan, 0);
        assert(credit_stops_at(o, plan, first_missing(o, plan, 0)));
        if whole {
            lemma_crediting_adds_each_share(o, prism.members@, total_outlays as nat);
        }
    }
    let ghost stop = credit_stop(o, plan);
    assert(credit_stops_at(o, plan, stop));
    let payouts = calculate_member_payouts(prism.members.as_slice(), total_outlays);
    assert(payouts@.len() == plan.len());
    let n = payouts.len();
    let mut i: usize = 0;
    while i < n
        invariant
            n == payouts@.len(),
            n == plan.len(),
            i <= stop,
            plan == payout_plan(prism.members@, total_outlays as nat),
            stop == credit_stop(o, plan),
            credit_stops_at(o, plan, stop),
            forall|j: int| 0 <= j < n ==> (#[trigger] payouts@[j]).0@ == plan[j].0 && payouts@[j].1 == plan[j].1,
            binding.outlays@ == credited(o, plan, i as nat),
            credits_fit(o, plan),
            binding.offer_id == old(binding).offer_id,
            binding.prism_id == old(binding).prism_id,
            binding.timestamp == old(binding).timestamp,
            o == old(binding).outlays@,
            whole ==> stop == n,
        decreases n - i,
    {
        let id = &payouts[i].0;
        let amount = payouts[i].1;
        assert(id@ == plan[i as int].0);
        proof {
            assert forall|j: int| 0 <= j < i implies o.contains_key(#[trigger] plan[j].0) by {}
            lemma_credited_keeps_keys(o, plan, i as nat);
        }
        if !binding.outlays.contains_key(id) {
            assert(i == stop);
            let mut msg = String::from_str("binding and prism out of sync: member ");
            msg.append(id.as_str());
            msg.append(" not found in binding outlays");
            return Err(PrismError::Validation(msg));
        }
        assert(i < stop);
        let current: i64 = match binding.outlays.get(id) {
            Some(v) => *v,
            None => 0,
        };
        proof {
            let j = i as int;
            assert(0 <= j < credit_stop(o, plan));
            assert(i64::MIN <= credited(o, plan, j as nat)[plan[j].0] + (plan[j].1 as i64) <= i64::MAX);
            assert(j as nat == i as nat);
        }
        binding.outlays.insert(id.clone(), current + amount as i64);
        proof {
            assert(binding.outlays@ =~= credited(o, plan, (i + 1) as nat));
        }
        i = i + 1;
    }
    proof {
        if whole {
            lemma_crediting_adds_each_share(o, prism.members@, total_outlays as nat);
        }
    }
    Ok(())
}

/// The first index at or after `from` whose member has no outlay, or the end.
pub open spec fn first_missing(outlays: Map<Seq<char>, i64>, plan: Seq<(Seq<char>, u64)>, from: int) -> int
    decreases plan.len() - from,
{
    if from >= plan.len() {
        plan.len() as int
    } else if !outlays.contains_key(plan[from].0) {
        from
    } else {
        first_missing(outlays, plan, from + 1)
    }
}

proof fn lemma_first_missing(outlays: Map<Seq<char>, i64>, plan: Seq<(Seq<char>, u64)>, from: int)
    requires
        0 <= from <= plan.len(),
        forall|j: int| 0 <= j < from ==> outlays.contains_key(#[trigger] plan[j].0),
    ensures
        credit_stops_at(outlays, plan, first_missing(outlays, plan, from)),
    decreases plan.len() - from,
{
    if from < plan.len() && outlays.contains_key(plan[from].0) {
        assert forall|j: int| 0 <= j < from + 1 implies outlays.contains_key(#[trigger] plan[j].0) by {}
        lemma_first_missing(outlays, plan, from + 1);
    }
}

/// Whether crediting `total_outlays` to the binding's outlays (as
/// `increment_outlays` does) stays within the range of `i64`.
pub fn outlays_can_be_credited(prism: &Prism, binding: &PrismBinding, total_outlays: u64) -> (fits: bool)
    ensures
        fits == credits_fit(binding.outlays@, payout_plan(prism.members@, total_outlays as nat)),
{
    let ghost o = binding.outlays@;
    let ghost plan = payout_plan(prism.members@, total_outlays as nat);
    proof {
        lemma_first_missing(o, plan, 0);
        assert(credit_stops_at(o, plan, first_missing(o, plan, 0)));
    }
    let ghost stop = credit_stop(o, plan);
    assert(credit_stops_at(o, plan, stop));
    let mut outlays = binding.outlays.copied();
    let payouts = calculate_member_payouts(prism.members.as_slice(), total_outlays);
    let n = payouts.len();
    let mut i: usize = 0;
    while i < n
        invariant
            n == payouts@.len(),
            n == plan.len(),
            i <= stop,
            plan == payout_plan(prism.members@, total_outlays as nat),
            stop == credit_stop(o, plan),
            credit_stops_at(o, plan, stop),
            forall|j: int| 0 <= j < n ==> (#[trigger] payouts@[j]).0@ == plan[j].0 && payouts@[j].1 == plan[j].1,
            outlays@ == credited(o, plan, i as nat),
            o == binding.outlays@,
            forall|j: int|
                0 <= j < i ==> i64::MIN <= #[trigger] credited(o, plan, j as nat)[plan[j].0] + (plan[j].1 as i64)
                    <= i64::MAX,
        decreases n - i,
    {
        let id = &payouts[i].0;
        let amount = payouts[i].1;
        assert(id@ == plan[i as int].0);
        proof {
            assert forall|j: int| 0 <= j < i implies o.contains_key(#[trigger] plan[j].0) by {}
            lemma_credited_keeps_keys(o, plan, i as nat);
        }
        if !outlays.contains_key(id) {
            assert(i == stop);
            return true;
        }
        assert(i < stop);
        let current: i64 = match outlays.get(id) {
            Some(v) => *v,
            None => 0,
        };
        match current.checked_add(amount as i64) {
            Some(next) => {
                outlays.insert(id.clone(), next);
                proof {
                    assert(outlays@ =~= credited(o, plan, (i + 1) as nat));
                    let k = i as int;
                    assert(i64::MIN <= credited(o, plan, k as nat)[plan[k].0] + (plan[k].1 as i64) <= i64::MAX);
                }
            },
            None => {
                proof {
                    let k = i as int;
                    assert(!(i64::MIN <= credited(o, plan, k as nat)[plan[k].0] + (plan[k].1 as i64) <= i64::MAX));
                    assert(0 <= k < credit_stop(o, plan));
                }
                return false;
            },
        }
        i = i + 1;
    }
    true
}

/// What a run asks for next.
#[derive(Debug)]
pub enum PayStep {
    /// Every member has been handled.
    Done,
    /// The current member was handled without a payment; step again.
    Skipped,
    /// The node should make this payment; hand its outcome to `record`.
    Pay(PaymentAction),
}

/// `i` is the first position in `members` of a member with id `id`.
pub open spec fn is_first_with_id(members: Seq<Member>, id: Seq<char>, i: int) -> bool {
    &&& 0 <= i < members.len()
    &&& members[i].id@ == id
    &&& forall|j: int| 0 <= j < i ==> (#[trigger] members[j]).id@ != id
}

/// The position of the first member with id `id`.
pub open spec fn recipient_index(members: Seq<Member>, id: Seq<char>) -> int {
    choose|i: int| is_first_with_id(members, id, i)
}

proof fn lemma_recipient_index_unique(members: Seq<Member>, id: Seq<char>, i: int)
    requires
        is_first_with_id(members, id, i),
    ensures
        recipient_index(members, id) == i,
{
    let r = recipient_index(members, id);
    assert(is_first_with_id(members, id, r));
    if r < i {
        assert(members[r].id@ != id);
    }
    if i < r {
        assert(members[i].id@ != id);
    }
}

/// The position of the first member whose id equals `id`, given that the
/// member at `bound` has it.
fn find_recipient(members: &Vec<Member>, id: &String, bound: usize) -> (i: usize)
    requires
        bound < members@.len(),
        members@[bound as int].id@ == id@,
    ensures
        is_first_with_id(members@, id@, i as int),
        recipient_index(members@, id@) == i,
{
    let mut i: usize = 0;
    while i < bound
        invariant
            bound < members@.len(),
            members@[bound as int].id@ == id@,
            i <= bound,
            forall|j: int| 0 <= j < i ==> (#[trigger] members@[j]).id@ != id@,
        decreases bound - i,
    {
        if members[i].id == *id {
            proof {
                lemma_recipient_index_unique(members@, id@, i as int);
            }
            return i;
        }
        i = i + 1;
    }
    proof {
        lemma_recipient_index_unique(members@, id@, bound as int);
    }
    bound
}

/// A payout of a prism without a binding: the incoming amount, scaled by the
/// outlay factor, is divided among all members by weight and each member with
/// a destination is paid its share at once. Payout thresholds play no part.
pub struct PrismPayRun {
    members: Ghost<Seq<Member>>,
    plan: Vec<(String, u64)>,
    next: usize,
    history: Ghost<Seq<Option<Result<PaymentResult, PrismError>>>>,
    results: PayoutResults,
}

/// The ids of the first `n` members.
pub open spec fn first_ids(members: Seq<Member>, n: int) -> Set<Seq<char>> {
    Set::new(|k: Seq<char>| exists|j: int| 0 <= j < n && (#[trigger] members[j]).id@ == k)
}

/// The payment asked for entry `j` of `plan` in a payout without a binding:
/// the entry's share, at the destination of the first member with its id;
/// none when that member has no destination.
pub open spec fn pay_request(members: Seq<Member>, plan: Seq<(Seq<char>, u64)>, j: int) -> Option<PaymentAction> {
    action_for(members[recipient_index(members, plan[j].0)].destination, plan[j].1)
}

/// What is recorded for entry `j`, given what happened to it: its payout
/// when the node made one, `None` when it was skipped or its payment failed.
pub open spec fn entry_result(members: Seq<Member>, j: int, happened: Option<Result<PaymentResult, PrismError>>) -> Option<MemberPayoutResult> {
    match happened {
        Some(Ok(p)) => Some(payout_record(members[j].id, p)),
        _ => None,
    }
}

/// The results of a payout without a binding after the entries of `plan`
/// have been handled as `history` says (`None` for an entry without a
/// payment, the node's outcome for the others).
pub open spec fn replay(
    members: Seq<Member>,
    plan: Seq<(Seq<char>, u64)>,
    history: Seq<Option<Result<PaymentResult, PrismError>>>,
) -> Map<Seq<char>, Option<MemberPayoutResult>>
    decreases history.len(),
{
    if history.len() == 0 {
        Map::empty()
    } else {
        let k = history.len() - 1;
        replay(members, plan, history.drop_last()).insert(plan[k].0, entry_result(members, k, history[k]))
    }
}

/// `history` is a possible record of the first entries of a payout without a
/// binding: an entry has an outcome exactly when a payment was asked for it.
pub open spec fn history_fits(
    members: Seq<Member>,
    plan: Seq<(Seq<char>, u64)>,
    history: Seq<Option<Result<PaymentResult, PrismError>>>,
) -> bool {
    &&& history.len() <= plan.len()
    &&& forall|j: int| 0 <= j < history.len() ==> ((#[trigger] history[j]) is None <==> pay_request(members, plan, j) is None)
}

proof fn lemma_first_ids_step(members: Seq<Member>, j: int)
    requires
        0 <= j < members.len(),
    ensures
        first_ids(members, j + 1) == first_ids(members, j).insert(members[j].id@),
{
    assert forall|x: Seq<char>| first_ids(members, j + 1).contains(x) implies first_ids(members, j).insert(
        members[j].id@,
    ).contains(x) by {
        let i = choose|i: int| 0 <= i < j + 1 && (#[trigger] members[i]).id@ == x;
        if i < j {
            assert(first_ids(members, j).contains(x));
        }
    }
    assert forall|x: Seq<char>| first_ids(members, j).insert(members[j].id@).contains(x) implies first_ids(
        members,
        j + 1,
    ).contains(x) by {
        if x == members[j].id@ {
            assert(0 <= j < j + 1 && members[j].id@ == x);
        } else {
            let i = choose|i: int| 0 <= i < j && (#[trigger] members[i]).id@ == x;
            assert(0 <= i < j + 1 && members[i].id@ == x);
        }
    }
    assert(first_ids(members, j + 1) =~= first_ids(members, j).insert(members[j].id@));
}

proof fn lemma_replay_keys(members: Seq<Member>, plan: Seq<(Seq<char>, u64)>, history: Seq<Option<Result<PaymentResult, PrismError>>>)
    requires
        history.len() <= plan.len(),
        plan.len() == members.len(),
        forall|i: int| 0 <= i < plan.len() ==> (#[trigger] plan[i]).0 == members[i].id@,
    ensures
        replay(members, plan, history).dom() == first_ids(members, history.len() as int),
    decreases history.len(),
{
    if history.len() > 0 {
        let k = history.len() - 1;
        lemma_replay_keys(members, plan, history.drop_last());
        assert(replay(members, plan, history).dom() =~= first_ids(members, history.len() as int)) by {
            assert(plan[k].0 == members[k].id@);
            assert forall|x: Seq<char>| first_ids(members, history.len() as int).contains(x) implies
                replay(members, plan, history).dom().contains(x) by {
                let j = choose|j: int| 0 <= j < history.len() && (#[trigger] members[j]).id@ == x;
                if j < k {
                    assert(first_ids(members, k).contains(x));
                }
            }
            assert forall|x: Seq<char>| replay(members, plan, history).dom().contains(x) implies
                first_ids(members, history.len() as int).contains(x) by {
                if x != plan[k].0 {
                    assert(first_ids(members, k).contains(x));
                    let j = choose|j: int| 0 <= j < k && (#[trigger] members[j]).id@ == x;
                    assert(0 <= j < history.len() && members[j].id@ == x);
                } else {
                    assert(0 <= k < history.len() && members[k].id@ == x);
                }
            }
        }
    } else {
        assert(first_ids(members, 0) =~= Set::<Seq<char>>::empty());
        assert(replay(members, plan, history).dom() =~= Set::<Seq<char>>::empty());
    }
}

impl PrismPayRun {
    /// The members of the prism being paid out.
    pub closed spec fn members(self) -> Seq<Member> {
        self.members@
    }

    /// Each member's id and share, in member order.
    pub closed spec fn plan(self) -> Seq<(Seq<char>, u64)> {
        self.plan@.map_values(|e: (String, u64)| (e.0@, e.1))
    }

    /// How many entries of the plan have been handled.
    pub closed spec fn position(self) -> int {
        self.next as int
    }

    /// What happened to each handled entry: `None` when no payment was asked
    /// for it, the node's outcome otherwise.
    pub closed spec fn history(self) -> Seq<Option<Result<PaymentResult, PrismError>>> {
        self.history@
    }

    /// The outcomes recorded so far.
    pub closed spec fn results(self) -> Map<Seq<char>, Option<MemberPayoutResult>> {
        self.results@
    }

    pub closed spec fn wf(self) -> bool {
        &&& self.plan@.len() == self.members@.len()
        &&& forall|i: int| 0 <= i < self.plan@.len() ==> (#[trigger] self.plan@[i]).0 == self.members@[i].id
        &&& self.next <= self.plan@.len()
        &&& self.history@.len() == self.next
        &&& history_fits(self.members@, self.plan(), self.history@)
        &&& self.results@ == replay(self.members@, self.plan(), self.history@)
    }

    /// The run's results are what its history gives, and they hold one entry
    /// for each member id handled so far.
    pub open spec fn accounted(self) -> bool {
        &&& self.history().len() == self.position()
        &&& history_fits(self.members(), self.plan(), self.history())
        &&& self.results() == replay(self.members(), self.plan(), self.history())
        &&& self.results().dom() == first_ids(self.members(), self.position())
    }

    /// The member paid at the current position: the first member with the
    /// id of the current plan entry.
    pub open spec fn current_recipient(self) -> Member {
        self.members()[recipient_index(self.members(), self.plan()[self.position()].0)]
    }

    /// The run waits for the outcome of the payment to the current member.
    pub open spec fn awaiting_payment(self) -> bool {
        &&& 0 <= self.position() < self.plan().len()
        &&& pay_request(self.members(), self.plan(), self.position()) is Some
    }

    proof fn lemma_accounted(self)
        requires
            self.wf(),
        ensures
            self.accounted(),
    {
        let plan = self.plan();
        assert forall|i: int| 0 <= i < plan.len() implies (#[trigger] plan[i]).0 == self.members@[i].id@ by {
            assert(self.plan@[i].0 == self.members@[i].id);
        }
        lemma_replay_keys(self.members@, plan, self.history@);
    }

    /// Starts paying out `amount_msat` through `prism`.
    pub fn start(prism: &Prism, amount_msat: u64) -> (run: Self)
        ensures
            run.wf(),
            run.accounted(),
            run.members() == prism.members@,
            run.plan() == payout_plan(prism.members@, scaled_amount(amount_msat as nat, prism.outlay_factor as int)),
            run.position() == 0,
            run.history() == Seq::<Option<Result<PaymentResult, PrismError>>>::empty(),
            run.results() == Map::<Seq<char>, Option<MemberPayoutResult>>::empty(),
    {
        let total = apply_outlay_factor(amount_msat, prism.outlay_factor);
        let plan = calculate_member_payouts(prism.members.as_slice(), total);
        let run = PrismPayRun {
            members: Ghost(prism.members@),
            plan,
            next: 0,
            history: Ghost(Seq::empty()),
            results: StrMap::new(),
        };
        assert(run.plan() =~= payout_plan(prism.members@, total as nat));
        assert(run.results@ =~= replay(run.members@, run.plan(), run.history@));
        proof {
            run.lemma_accounted();
        }
        run
    }

    /// Decides the next step: the run is over, the current member has no
    /// destination (recorded as skipped), or the current member is to be paid
    /// its share at its destination.
    pub fn step(&mut self, prism: &Prism) -> (s: PayStep)
        requires
            old(self).wf(),
            prism.members@ == old(self).members(),
        ensures
            final(self).wf(),
            final(self).accounted(),
            final(self).members() == old(self).members(),
            final(self).plan() == old(self).plan(),
            old(self).position() == old(self).plan().len() ==> s is Done && *final(self) == *old(self),
            s is Done ==> final(self).results().dom() == first_ids(final(self).members(), final(self).members().len() as int),
            old(self).position() < old(self).plan().len() ==> ({
                let j = old(self).position();
                let entry = old(self).plan()[j];
                match pay_request(old(self).members(), old(self).plan(), j) {
                    Some(a) => s == PayStep::Pay(a) && *final(self) == *old(self) && final(self).awaiting_payment(),
                    None => {
                        &&& s is Skipped
                        &&& final(self).position() == j + 1
                        &&& final(self).history() == old(self).history().push(None)
                        &&& final(self).results() == old(self).results().insert(entry.0, None)
                    },
                }
            }),
    {
        proof {
            self.lemma_accounted();
        }
        if self.next == self.plan.len() {
            return PayStep::Done;
        }
        let j = self.next;
        let ghost entry = self.plan()[j as int];
        let k = find_recipient(&prism.members, &self.plan[j].0, j);
        let amount = self.plan[j].1;
        let member = &prism.members[k];
        match member_payment(member.id.as_str(), &member.destination, amount) {
            Ok(action) => PayStep::Pay(action),
            Err(_) => {
                let ghost pre = *self;
                let id = self.plan[j].0.clone();
                self.results.insert(id, None);
                self.next = j + 1;
                self.history = Ghost(self.history@.push(None));
                proof {
                    let h = self.history@;
                    assert(h.drop_last() =~= pre.history@);
                    assert(self.plan() == pre.plan());
                    assert forall|i: int| 0 <= i < h.len() implies ((#[trigger] h[i]) is None <==> pay_request(self.members@, self.plan(), i) is None) by {
                        if i < j {
                            assert(h[i] == pre.history@[i]);
                        }
                    }
                    assert(self.results@ =~= replay(self.members@, self.plan(), h));
                    self.lemma_accounted();
                }
                PayStep::Skipped
            },
        }
    }

    /// Records the outcome of the payment to the current member and moves on:
    /// its payout when the node made one, `None` when the payment failed.
    pub fn record(&mut self, outcome: Result<PaymentResult, PrismError>)
        requires
            old(self).wf(),
            old(self).awaiting_payment(),
        ensures
            final(self).wf(),
            final(self).accounted(),
            final(self).members() == old(self).members(),
            final(self).plan() == old(self).plan(),
            final(self).position() == old(self).position() + 1,
            final(self).history() == old(self).history().push(Some(outcome)),
            final(self).results() == old(self).results().insert(
                old(self).plan()[old(self).position()].0,
                match outcome {
                    Ok(p) => Some(payout_record(old(self).members()[old(self).position()].id, p)),
                    Err(_) => None,
                },
            ),
    {
        let ghost pre = *self;
        let ghost happened = Some(outcome);
        let j = self.next;
        let n = self.plan.len();
        assert(j < n);
        let id = self.plan[j].0.clone();
        let entry = match outcome {
            Ok(payment) => Some(member_payout(self.plan[j].0.clone(), payment)),
            Err(_) => None,
        };
        self.results.insert(id, entry);
        self.next = j + 1;
        self.history = Ghost(self.history@.push(happened));
        proof {
            let h = self.history@;
            assert(h.drop_last() =~= pre.history@);
            assert(self.plan() == pre.plan());
            assert(self.members@[j as int].id == self.plan@[j as int].0);
            assert forall|i: int| 0 <= i < h.len() implies ((#[trigger] h[i]) is None <==> pay_request(self.members@, self.plan(), i) is None) by {
                if i < j {
                    assert(h[i] == pre.history@[i]);
                }
            }
            assert(self.results@ =~= replay(self.members@, self.plan(), h));
            self.lemma_accounted();
        }
    }

    /// The per-member outcomes of the run.
    pub fn into_results(self) -> (r: PayoutResults)
        ensures
            r@ == self.results(),
    {
        self.results
    }
}

/// A member's outlay in a binding; zero when the binding has none for it.
pub open spec fn outlay_of(outlays: Map<Seq<char>, i64>, id: Seq<char>) -> i64 {
    if outlays.contains_key(id) {
        outlays[id]
    } else {
        0
    }
}

/// A payout through a binding: the incoming amount, scaled by the outlay
/// factor, is first credited to the members' outlays by weight; then each
/// member whose outlay exceeds its payout threshold is paid its whole outlay.
/// A completed payment charges the outlay under the member's fee policy; a
/// failed or unfinished one leaves it for the next time.
pub struct BindingPayRun {
    members: Ghost<Seq<Member>>,
    next: usize,
    pending: Option<i64>,
    results: PayoutResults,
}

impl BindingPayRun {
    /// The members of the prism being paid out.
    pub closed spec fn members(self) -> Seq<Member> {
        self.members@
    }

    /// How many members have been handled.
    pub closed spec fn position(self) -> int {
        self.next as int
    }

    /// The outlay of the current member while its payment is under way.
    pub closed spec fn pending(self) -> Option<i64> {
        self.pending
    }

    /// The outcomes recorded so far.
    pub closed spec fn results(self) -> Map<Seq<char>, Option<MemberPayoutResult>> {
        self.results@
    }

    pub closed spec fn wf(self) -> bool {
        &&& self.next <= self.members@.len()
        &&& self.pending is Some ==> self.next < self.members@.len()
        &&& self.results@.dom() == first_ids(self.members@, self.next as int)
    }

    /// The results hold one entry for each member handled so far.
    pub open spec fn accounted(self) -> bool {
        self.results().dom() == first_ids(self.members(), self.position())
    }

    /// The charge that a completed `payment` to the current member makes to
    /// its outlay stays within the range of `i64`.
    pub open spec fn charge_fits(self, outcome: Result<PaymentResult, PrismError>) -> bool {
        match outcome {
            Ok(p) => p.status == PaymentStatus::Complete ==> i64::MIN <= self.pending()->0 - outlay_deduction(
                self.members()[self.position()].fees_incurred_by,
                p.amount_msat,
                p.amount_sent_msat,
            ) <= i64::MAX,
            Err(_) => true,
        }
    }

    /// Starts paying out `amount_msat` through `binding`: scales it by the
    /// outlay factor and credits every member's outlay with its share (see
    /// `increment_outlays`); fails, with the members before it credited, at the
    /// first member that has no outlay in the binding.
    pub fn start(prism: &Prism, binding: &mut PrismBinding, amount_msat: u64) -> (r: Result<Self, PrismError>)
        requires
            credits_fit(
                old(binding).outlays@,
                payout_plan(prism.members@, scaled_amount(amount_msat as nat, prism.outlay_factor as int)),
            ),
        ensures
            ({
                let plan = payout_plan(prism.members@, scaled_amount(amount_msat as nat, prism.outlay_factor as int));
                let stop = credit_stop(old(binding).outlays@, plan);
                &&& credit_stops_at(old(binding).outlays@, plan, stop)
                &&& final(binding).outlays@ == credited(old(binding).outlays@, plan, stop as nat)
                &&& (r is Ok <==> stop == plan.len())
                &&& r matches Err(e) ==> e@ == PrismErrorView::Validation(out_of_sync_message(plan[stop].0))
            }),
            final(binding).offer_id == old(binding).offer_id,
            final(binding).prism_id == old(binding).prism_id,
            final(binding).timestamp == old(binding).timestamp,
            r matches Ok(run) ==> {
                &&& run.wf()
                &&& run.accounted()
                &&& run.members() == prism.members@
                &&& run.position() == 0
                &&& run.pending() is None
                &&& run.results() == Map::<Seq<char>, Option<MemberPayoutResult>>::empty()
            },
    {
        let total = apply_outlay_factor(amount_msat, prism.outlay_factor);
        proof {
            assert(first_ids(prism.members@, 0) =~= Set::<Seq<char>>::empty());
        }
        match increment_outlays(prism, binding, total) {
            Ok(()) => Ok(BindingPayRun { members: Ghost(prism.members@), next: 0, pending: None, results: StrMap::new() }),
            Err(e) => Err(e),
        }
    }

    /// Decides the next step: the run is over; the current member's outlay
    /// does not exceed its threshold, or it has no destination (recorded as
    /// skipped, outlay kept); or the current member is to be paid its whole
    /// outlay at its destination.
    pub fn step(&mut self, prism: &Prism, binding: &PrismBinding) -> (s: PayStep)
        requires
            old(self).wf(),
            prism.members@ == old(self).members(),
            old(self).pending() is None,
        ensures
            final(self).wf(),
            final(self).accounted(),
            final(self).members() == old(self).members(),
            old(self).position() == old(self).members().len() ==> s is Done && *final(self) == *old(self),
            s is Done ==> final(self).results().dom() == first_ids(final(self).members(), final(self).members().len() as int),
            old(self).position() < old(self).members().len() ==> ({
                let member = old(self).members()[old(self).position()];
                let outlay = outlay_of(binding.outlays@, member.id@);
                if outlay <= member.payout_threshold_msat {
                    &&& s is Skipped
                    &&& final(self).position() == old(self).position() + 1
                    &&& final(self).pending() is None
                    &&& final(self).results() == old(self).results().insert(member.id@, None)
                } else {
                    match action_for(member.destination, outlay as u64) {
                        Some(a) => {
                            &&& s == PayStep::Pay(a)
                            &&& final(self).position() == old(self).position()
                            &&& final(self).pending() == Some(outlay)
                            &&& final(self).results() == old(self).results()
                        },
                        None => {
                            &&& s is Skipped
                            &&& final(self).position() == old(self).position() + 1
                            &&& final(self).pending() is None
                            &&& final(self).results() == old(self).results().insert(member.id@, None)
                        },
                    }
                }
            }),
    {
        if self.next == prism.members.len() {
            return PayStep::Done;
        }
        let j = self.next;
        let member = &prism.members[j];
        let current_outlay: i64 = match binding.outlays.get(&member.id) {
            Some(v) => *v,
            None => 0,
        };
        proof {
            lemma_first_ids_step(prism.members@, j as int);
        }
        if current_outlay < 0 || (current_outlay as u64) <= member.payout_threshold_msat {
            self.results.insert(member.id.clone(), None);
            self.next = j + 1;
            return PayStep::Skipped;
        }
        let member_msat = current_outlay as u64;
        match member_payment(member.id.as_str(), &member.destination, member_msat) {
            Ok(action) => {
                self.pending = Some(current_outlay);
                PayStep::Pay(action)
            },
            Err(_) => {
                self.results.insert(member.id.clone(), None);
                self.next = j + 1;
                PayStep::Skipped
            },
        }
    }

    /// Whether recording `outcome` keeps the current member's outlay within
    /// the range of `i64`.
    pub fn charge_is_in_range(&self, prism: &Prism, outcome: &Result<PaymentResult, PrismError>) -> (ok: bool)
        requires
            self.wf(),
            prism.members@ == self.members(),
            self.pending() is Some,
        ensures
            ok == self.charge_fits(*outcome),
    {
        match outcome {
            Ok(p) => {
                if p.status == PaymentStatus::Complete {
                    let current = match self.pending {
                        Some(v) => v,
                        None => 0,
                    };
                    let member = &prism.members[self.next];
                    let deduction: i64 = match member.fees_incurred_by {
                        crate::types::FeesIncurredBy::Remote => p.amount_sent_msat as i64,
                        crate::types::FeesIncurredBy::Local => p.amount_msat as i64,
                    };
                    current.checked_sub(deduction).is_some()
                } else {
                    true
                }
            },
            Err(_) => true,
        }
    }

    /// Records the outcome of the payment to the current member and moves on.
    /// A completed payment charges the member's outlay (see
    /// `new_outlay_after_payment`) and is recorded; an unfinished one is
    /// recorded and leaves the outlay as it was; a failed one is recorded as
    /// `None` and leaves the outlay as it was.
    pub fn record(&mut self, prism: &Prism, binding: &mut PrismBinding, outcome: Result<PaymentResult, PrismError>)
        requires
            old(self).wf(),
            prism.members@ == old(self).members(),
            old(self).pending() is Some,
            old(self).charge_fits(outcome),
        ensures
            final(self).wf(),
            final(self).accounted(),
            final(self).members() == old(self).members(),
            final(self).position() == old(self).position() + 1,
            final(self).pending() is None,
            final(binding).offer_id == old(binding).offer_id,
            final(binding).prism_id == old(binding).prism_id,
            final(binding).timestamp == old(binding).timestamp,
            ({
                let member = old(self).members()[old(self).position()];
                match outcome {
                    Ok(p) => {
                        &&& final(self).results() == old(self).results().insert(
                            member.id@,
                            Some(payout_record(member.id, p)),
                        )
                        &&& p.status == PaymentStatus::Complete ==> final(binding).outlays@ == old(binding).outlays@.insert(
                            member.id@,
                            (old(self).pending()->0 - outlay_deduction(
                                member.fees_incurred_by,
                                p.amount_msat,
                                p.amount_sent_msat,
                            )) as i64,
                        )
                        &&& p.status != PaymentStatus::Complete ==> final(binding).outlays@ == old(binding).outlays@
                    },
                    Err(_) => {
                        &&& final(self).results() == old(self).results().insert(member.id@, None)
                        &&& final(binding).outlays@ == old(binding).outlays@
                    },
                }
            }),
    {
        let j = self.next;
        let current_outlay = match self.pending {
            Some(v) => v,
            None => 0,
        };
        let n = prism.members.len();
        assert(j < n);
        proof {
            lemma_first_ids_step(prism.members@, j as int);
        }
        let member = &prism.members[j];
        match outcome {
            Ok(payment) => {
                if payment.status == PaymentStatus::Complete {
                    let new_outlay = new_outlay_after_payment(
                        current_outlay,
                        &member.fees_incurred_by,
                        payment.amount_msat,
                        payment.amount_sent_msat,
                    );
                    binding.outlays.insert(member.id.clone(), new_outlay);
                }
                let payout = member_payout(member.id.clone(), payment);
                self.results.insert(member.id.clone(), Some(payout));
            },
            Err(_) => {
                self.results.insert(member.id.clone(), None);
            },
        }
        self.pending = None;
        self.next = j + 1;
    }

    /// The per-member outcomes of the run.
    pub fn into_results(self) -> (r: PayoutResults)
        ensures
            r@ == self.results(),
    {
        self.results
    }
}

/// A binding that holds an outlay for every member of its prism (as a new
/// binding does) is credited in full: crediting never stops early.
pub proof fn lemma_binding_in_sync_credits_everyone(outlays: Map<Seq<char>, i64>, members: Seq<Member>, total: nat)
    requires
        forall|i: int| 0 <= i < members.len() ==> outlays.contains_key(#[trigger] members[i].id@),
    ensures
        credit_stop(outlays, payout_plan(members, total)) == members.len(),
{
    let plan = payout_plan(members, total);
    assert forall|j: int| 0 <= j < plan.len() implies outlays.contains_key(#[trigger] plan[j].0) by {
        assert(plan[j].0 == members[j].id@);
    }
    assert(credit_stops_at(outlays, plan, plan.len() as int));
    lemma_credit_stop_unique(outlays, plan, plan.len() as int);
}

/// Some member before or at `bound` carries `id` first.
proof fn lemma_first_with_id_exists(members: Seq<Member>, id: Seq<char>, bound: int)
    requires
        0 <= bound < members.len(),
        members[bound].id@ == id,
    ensures
        is_first_with_id(members, id, recipient_index(members, id)),
        recipient_index(members, id) <= bound,
    decreases bound,
{
    if exists|j: int| 0 <= j < bound && (#[trigger] members[j]).id@ == id {
        let j = choose|j: int| 0 <= j < bound && (#[trigger] members[j]).id@ == id;
        lemma_first_with_id_exists(members, id, j);
    } else {
        assert(is_first_with_id(members, id, bound));
        lemma_recipient_index_unique(members, id, bound);
    }
}

/// `other` is `members` with only payout thresholds possibly changed.
pub open spec fn same_but_thresholds(members: Seq<Member>, other: Seq<Member>) -> bool {
    &&& other.len() == members.len()
    &&& forall|i: int|
        0 <= i < members.len() ==> {
            &&& (#[trigger] other[i]).id == members[i].id
            &&& other[i].description == members[i].description
            &&& other[i].destination == members[i].destination
            &&& other[i].split == members[i].split
            &&& other[i].fees_incurred_by == members[i].fees_incurred_by
        }
}

proof fn lemma_splits_sum_ignores_thresholds(members: Seq<Member>, other: Seq<Member>)
    requires
        same_but_thresholds(members, other),
    ensures
        splits_sum(other) == splits_sum(members),
    decreases members.len(),
{
    if members.len() > 0 {
        let m0 = members.drop_last();
        let o0 = other.drop_last();
        assert forall|i: int| 0 <= i < m0.len() implies {
            &&& (#[trigger] o0[i]).id == m0[i].id
            &&& o0[i].description == m0[i].description
            &&& o0[i].destination == m0[i].destination
            &&& o0[i].split == m0[i].split
            &&& o0[i].fees_incurred_by == m0[i].fees_incurred_by
        } by {
            assert(o0[i] == other[i]);
            assert(m0[i] == members[i]);
        }
        lemma_splits_sum_ignores_thresholds(m0, o0);
        assert(other.last() == other[other.len() - 1]);
    }
}

/// Payout thresholds play no part in a payout without a binding: two prisms
/// that differ only in their members' thresholds plan the same shares, pay
/// each entry at the same destination, and record the same member ids.
pub proof fn lemma_prism_pay_ignores_thresholds(members: Seq<Member>, other: Seq<Member>, total: nat)
    requires
        same_but_thresholds(members, other),
    ensures
        payout_plan(other, total) == payout_plan(members, total),
        forall|j: int|
            0 <= j < members.len() ==> {
                &&& (#[trigger] other[recipient_index(other, payout_plan(members, total)[j].0)]).destination
                    == members[recipient_index(members, payout_plan(members, total)[j].0)].destination
                &&& other[j].id == members[j].id
            },
{
    lemma_splits_sum_ignores_thresholds(members, other);
    let plan = payout_plan(members, total);
    assert(payout_plan(other, total) =~= plan) by {
        assert forall|i: int| 0 <= i < plan.len() implies payout_plan(other, total)[i] == plan[i] by {
            assert(other[i].id == members[i].id);
            assert(other[i].split == members[i].split);
        }
    }
    assert forall|j: int| 0 <= j < members.len() implies {
        &&& (#[trigger] other[recipient_index(other, plan[j].0)]).destination
            == members[recipient_index(members, plan[j].0)].destination
        &&& other[j].id == members[j].id
    } by {
        let id = plan[j].0;
        assert(other[j].id == members[j].id);
        lemma_first_with_id_exists(members, id, j);
        let k = recipient_index(members, id);
        assert(is_first_with_id(other, id, k)) by {
            assert(other[k].id == members[k].id);
            assert forall|i: int| 0 <= i < k implies (#[trigger] other[i]).id@ != id by {
                assert(other[i].id == members[i].id);
                assert(members[i].id@ != id);
            }
        }
        lemma_recipient_index_unique(other, id, k);
        assert(other[k].destination == members[k].destination);
    }
}

proof fn lemma_replay_ignores_thresholds(
    members: Seq<Member>,
    other: Seq<Member>,
    plan: Seq<(Seq<char>, u64)>,
    history: Seq<Option<Result<PaymentResult, PrismError>>>,
)
    requires
        same_but_thresholds(members, other),
        history.len() <= members.len(),
    ensures
        replay(other, plan, history) == replay(members, plan, history),
    decreases history.len(),
{
    if history.len() > 0 {
        let k = history.len() - 1;
        lemma_replay_ignores_thresholds(members, other, plan, history.drop_last());
        assert(other[k].id == members[k].id);
        assert(entry_result(other, k, history[k]) == entry_result(members, k, history[k]));
    }
}

/// Payout thresholds play no part in a whole payout without a binding: for
/// two prisms that differ only in their members' thresholds, the runs plan the
/// same shares, ask for the same payment (or none) at every entry, and, when
/// the node answers both alike, end with the same results.
pub proof fn lemma_prism_pay_run_ignores_thresholds(
    members: Seq<Member>,
    other: Seq<Member>,
    total: nat,
    history: Seq<Option<Result<PaymentResult, PrismError>>>,
)
    requires
        same_but_thresholds(members, other),
    ensures
        payout_plan(other, total) == payout_plan(members, total),
        forall|j: int|
            0 <= j < members.len() ==> #[trigger] pay_request(other, payout_plan(members, total), j) == pay_request(
                members,
                payout_plan(members, total),
                j,
            ),
        history_fits(other, payout_plan(members, total), history) == history_fits(
            members,
            payout_plan(members, total),
            history,
        ),
        history.len() <= members.len() ==> replay(other, payout_plan(members, total), history) == replay(
            members,
            payout_plan(members, total),
            history,
        ),
{
    let plan = payout_plan(members, total);
    lemma_prism_pay_ignores_thresholds(members, other, total);
    assert forall|j: int| 0 <= j < members.len() implies #[trigger] pay_request(other, plan, j) == pay_request(members, plan, j) by {
        assert(other[recipient_index(other, plan[j].0)].destination == members[recipient_index(members, plan[j].0)].destination);
    }
    if history.len() <= members.len() {
        lemma_replay_ignores_thresholds(members, other, plan, history);
    }
}

} // verus!
