//! BNRi inscription explorer library: the HexRect packed codec and the
//! integer side of hex-pixel rendering, the correlation state of the local
//! LLM sidecar protocol, the transaction quote, and the explorer's view
//! model.

pub mod agent;
pub mod explorer;
pub mod hex_renderer;
pub mod quote;

pub use quote::TransactionQuote;
