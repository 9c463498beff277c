//! The error taxonomy of the engine. Every fallible operation returns one
//! of these kinds; each operation's contract says exactly which kind comes
//! on which inputs.

use vstd::prelude::*;

verus! {

/// Why an engine operation was refused. Each failure is terminal for the
/// triggering call: no partial leaderboard or session mutation is retained,
/// except that an expired or key-rejected submission intentionally marks the
/// session completed so it cannot be retried.
#[derive(Clone, Copy, Debug, PartialEq, Eq, Structural)]
pub enum ErrorCode {
    /// A new session was requested while one is still open for the player.
    GameAlreadyStarted,
    /// A score arrived for a player with no session on record.
    GameNotStarted,
    /// A score was submitted more than 600 seconds after the session start.
    GameExpired,
    /// The submitted anti-cheat key does not match the session's derived key.
    InvalidGameKey,
    /// The session is already in a terminal state.
    ScoreAlreadyLogged,
    /// The display name exceeds the 10-character cap.
    NameTooLong,
    /// The three prize shares do not sum to 100.
    InvalidPrizeDistribution,
    /// The prize ratio is not below 100, so no commission remainder exists.
    InvalidEntryFee,
    /// An administrative operation was attempted by a non-administrator.
    Unauthorized,
    /// A rank lookup or claim for a player absent from the top ten.
    PlayerNotInLeaderboard,
    /// The player is ranked, but outside the three paid positions.
    NotEligibleForPrize,
    /// The player's prize for this round was already paid out once.
    PrizeAlreadyClaimed,
    /// The underlying ledger transfer failed; raised by the surrounding
    /// runtime, never by the verified engine itself.
    TransferFailed,
}

} // verus!
