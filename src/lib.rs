//! A replicated ledger of wallets, changed only by signed transactions:
//! creating a wallet, issuing currency, transfers, and two-phase
//! multisignature transfers that earmark funds before moving them.
pub mod keys;
pub mod wallet;
pub mod ledger;
pub mod transactions;
pub mod laws;
