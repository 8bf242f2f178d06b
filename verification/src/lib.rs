//! Core logic of a Lightning payment splitter: prisms divide incoming
//! payments among members by weight, bindings tie a prism to an offer and
//! accumulate per-member outlays until a payout threshold is crossed.

pub mod strmap;
pub mod types;
pub mod split;
pub mod text;
pub mod validation;
pub mod node;
pub mod payment;
pub mod store;
pub mod ids;
pub mod requests;
