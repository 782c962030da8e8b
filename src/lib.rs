//! A ledger of token classes and semi-fungible tokens: class registry, token
//! minting with optional royalties, balance-preserving transfers and atomic
//! transfer batches, plus a thin contract front end over it.

pub mod account;
pub mod contract;
pub mod holdings;
pub mod ids;
pub mod ledger;
