//! Achievement tracking for a canister: a stable map of unlock records keyed
//! by a fixed-width composite of user and achievement identifiers, with an
//! idempotent validation step and per-user prefix listing.

pub mod byte_order;
pub mod decimal;
pub mod key_codec;
pub mod minting;
pub mod records;
pub mod solana_bridge;
pub mod stable_map;
pub mod store;
