//! A pari-mutuel wagering pool.
//!
//! Participants stake value on one of several mutually exclusive outcomes of
//! an event; once the outcome is known, the stakes of the losing participants
//! are redistributed proportionally to the winners.
//!
//! The crate is organised around the host services it expects but does not
//! perform itself: a ledger that persists the pool's records between calls,
//! an identity service that names the current caller, and a token service
//! that moves stake. The [`contract::BetContract`] state machine owns the
//! persistent records and decides every operation; token movements are
//! returned to the host as explicit [`types::Transfer`] values for it to
//! carry out.

pub mod contract;
pub mod settlement;
pub mod types;

pub use contract::BetContract;
pub use types::{Bet, BetResult, BetStatus, Bettor, Error, Transfer};
