//! Cross-chain lending market and packet relay: a ledger of positions, a
//! bridge saga that locks, fans out and restores them, and a relay that
//! escrows a transfer until its acknowledgement settles it.

pub mod coin;
pub mod error;
pub mod ledger;
pub mod table;
pub mod market;
pub mod relay;
pub mod proto;
pub mod paging;
pub mod order;
pub mod oracle;
