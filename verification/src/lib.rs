//! Verified core of the Guild Network: byte padding, identities and their
//! authentication, allowlist filters, and the runtime logic of the guild,
//! identity and oracle pallets.
pub mod allowlist;
pub mod balances;
pub mod chains;
pub mod codec;
pub mod collections;
pub mod common;
pub mod dispatch;
pub mod dummy;
pub mod filter;
pub mod gate;
pub mod hash;
pub mod identity;
pub mod merkle;
pub mod oracle_client;
pub mod pad;
pub mod pallet_guild;
pub mod pallet_guild_identity;
pub mod pallet_oracle;
pub mod requests;
pub mod utils;

