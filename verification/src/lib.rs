//! A small verified payments ledger.
//!
//! The ledger consumes an ordered stream of per-client transaction records
//! (deposits, withdrawals, disputes, resolves, chargebacks), maintains for
//! every client an account whose funds are split into an available and a held
//! part, and renders a final per-client balance report.
//!
//! Monetary amounts are fixed-point decimals carried as a signed count of
//! ten-thousandths (four fractional digits), the precision the report is
//! rendered at.

pub mod account;
pub mod account_manager;
pub mod codec;
pub mod laws;
