//! A verified model of a two-party atomic escrow protocol and a companion
//! personal-vault pattern, over an abstract ledger of token accounts.
//!
//! A maker locks an offered asset in a holding vault whose sole authority is
//! a deterministically derived address; a taker settles the swap atomically,
//! or the maker refunds it. Every operation either performs all of its
//! effects or leaves the ledger unchanged.

pub mod accounts;
pub mod derive;
pub mod errors;
pub mod escrow;
pub mod ident;
pub mod staking;
pub mod storage;
pub mod vault;
