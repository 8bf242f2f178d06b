//! What the library asks of a Lightning node, and what the node reports back.
//! The node itself is driven by the caller: the library decides which payment
//! to make, the caller makes it and hands the outcome back.

use vstd::prelude::*;

verus! {

/// Outcome of one payment leg made by the node.
#[derive(Debug, Clone)]
pub struct PaymentResult {
    pub payment_hash: String,
    /// Amount received by the destination, fees excluded.
    pub amount_msat: u64,
    /// Total spent by the node, fees included.
    pub amount_sent_msat: u64,
    pub status: PaymentStatus,
}

/// State of a payment as the node reports it.
#[derive(Debug, Clone, Copy, PartialEq, Eq, Structural)]
pub enum PaymentStatus {
    Complete,
    Failed,
    Pending,
}

impl PaymentStatus {
    /// The status in lowercase words, as the plugin reports it.
    pub fn as_text(&self) -> (s: &'static str)
        ensures
            s@ == match self {
                PaymentStatus::Complete => "complete"@,
                PaymentStatus::Failed => "failed"@,
                PaymentStatus::Pending => "pending"@,
            },
    {
        match self {
            PaymentStatus::Complete => "complete",
            PaymentStatus::Failed => "failed",
            PaymentStatus::Pending => "pending",
        }
    }
}

/// A payment that the node is asked to make.
#[derive(Debug, Clone, PartialEq, Eq)]
pub enum PaymentAction {
    /// Fetch an invoice for `offer` from its issuer, then pay it.
    FetchAndPayBolt12 { offer: String, amount_msat: u64 },
    /// Send a spontaneous payment to the node `pubkey`.
    Keysend { pubkey: String, amount_msat: u64 },
}

} // verus!
