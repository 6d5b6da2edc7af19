//! The quote a human reads before signing a transaction.
use vstd::prelude::*;

verus! {

/// Quote for a simulated transaction, shown to the human before signing.
///
/// The human confirms after reading the quote; the assistant never signs.
/// On an anomaly, `anomaly` carries the reason and the assistant declines to
/// sponsor the gas, while the human can still pay it and proceed.
#[derive(Debug, Clone)]
pub struct TransactionQuote {
    /// Human-readable description of the action.
    pub action: String,
    /// Estimated gas cost in BTC (the exSat gas token).
    pub gas_btc: String,
    /// Equivalent cost in b-token (kernel accounting).
    pub b_cost: String,
    /// The user's current b-token balance, for display.
    pub b_balance: String,
    /// Whether the user has a sufficient b-token balance.
    pub sufficient: bool,
    /// Anomaly reason, if one was detected.
    pub anomaly: Option<String>,
}

} // verus!
