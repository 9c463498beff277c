//! The per-player game session: one timed attempt, opened by `start_game`
//! and closed exactly once, by a successful submission, by expiry, or by a
//! rejected key.

use vstd::prelude::*;

verus! {

/// Where a session stands. `Active` is the initial state; the three
/// completed states are terminal, and no operation leaves them.
#[derive(Clone, Copy, Debug, PartialEq, Eq, Structural)]
pub enum SessionStatus {
    /// The session is open and a score may still be submitted.
    Active,
    /// A score was accepted onto the leaderboard.
    CompletedSuccess,
    /// The 600-second window ran out before a valid submission.
    CompletedExpired,
    /// A submission carried a key other than the derived one.
    CompletedRejected,
}

/// One timed attempt by one player. The derived key is held here, never
/// revealed to the player: a submission must echo it back.
pub struct GameSession {
    /// The player this session belongs to.
    pub player_address: [u8; 32],
    /// The display name the player chose, at most 10 characters.
    pub name: String,
    /// When the session was opened, in seconds.
    pub start_time: i64,
    /// The anti-cheat key derived at the start of the session.
    pub game_key: [u8; 32],
    /// Where the session stands in its lifecycle.
    pub status: SessionStatus,
}

impl GameSession {
    /// A session is well formed when its display name respects the cap.
    pub open spec fn wf(self) -> bool {
        self.name@.len() <= 10
    }

    /// Whether the session has reached a terminal state.
    pub open spec fn completed(self) -> bool {
        self.status != SessionStatus::Active
    }
}

} // verus!
