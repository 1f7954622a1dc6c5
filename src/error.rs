use vstd::prelude::*;

verus! {

/// Every failure that an operation of the arcade can report.
#[derive(Clone, Copy, Debug, PartialEq, Eq, Structural)]
pub enum ArcadeError {
    /// An amount or stake that is not strictly positive.
    InvalidAmount,
    /// A coin side other than 0 (A) or 1 (B).
    InvalidChoice,
    /// A fee above 10000 basis points.
    InvalidFee,
    /// The caller could not be authenticated, or is not the required identity.
    Unauthorized,
    /// The amount exceeds the account's available (unlocked) funds.
    InsufficientFunds,
    /// The pool already has an admin.
    AlreadyInitialized,
    /// A commitment already exists for this game id.
    AlreadyCommitted,
    /// No commitment exists for this game id.
    NotCommitted,
    /// The revealed seed does not hash to the stored commitment.
    CommitMismatch,
    /// No game with this id exists.
    NotFound,
    /// The game (or its draw) has already been settled.
    AlreadySettled,
    /// An internal consistency check failed.
    InvariantViolation,
    /// The result would not fit in a 128-bit signed integer.
    Overflow,
}

} // verus!
