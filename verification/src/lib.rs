//! A verified engine for timed, skill-based game rounds: players pay an
//! entry fee into a shared pool, play a session guarded by a derived
//! anti-cheat key and a 600-second expiry window, submit a score onto a
//! bounded descending leaderboard, and the top three split the prize pool
//! either per-claim or in one end-of-round settlement.
//!
//! The engine works on plain values. Identity checks, durable storage and
//! the token transfers themselves are the surrounding runtime's: it moves
//! the tokens a contract here has already computed, and hands back plain
//! results.

pub mod board;
pub mod bytes;
pub mod errors;
pub mod leaderboard;
pub mod session;
pub mod session_key;
