//! Core of a zap-receipt tracker: it validates relay-broadcast payment
//! receipts, resolves the zapped amount, deduplicates re-deliveries and
//! answers freshness queries over the persisted records.
//!
//! All amounts are held in millisatoshis, the smallest subunit that both the
//! amount tag and a bolt11 invoice declare; timestamps are UNIX seconds.
use vstd::prelude::*;

pub mod amount;
pub mod events;
pub mod filters;
pub mod identity;
pub mod ingest;
pub mod store;
pub mod validate;

verus! {

/// Listening address of the web-facing collaborator, loaded once at startup.
#[derive(Clone, Debug)]
pub struct ServerConfig {
    pub host: String,
    pub port: u16,
    pub domain: Option<String>,
}

} // verus!
