//! Settlement core of a coin-flip wagering game: a custodial ledger with stake locks and a
//! house fee, a commit-reveal randomness protocol that third parties can audit, and a
//! coordinator that ties a stake, a draw and a payout together exactly once per game.

pub mod error;
pub mod fairness;
pub mod game;
pub mod pool;
