//! Derivation of the per-session anti-cheat key: a Keccak-256 digest over
//! the player's address, the session start time, and the pool-wide secret.
//! A client can echo the right key back only if the submission flowed
//! through a legitimately issued session.

use vstd::prelude::*;

verus! {

/// The 32-byte key derived for a session, as a function of the player's
/// address, the start time, and the pool secret, and of nothing else.
pub uninterp spec fn session_key_of(player_address: Seq<u8>, start_time: i64, secret_key: Seq<u8>) -> Seq<u8>;

/// Relies on solana_program::keccak::hashv: a 32-byte Keccak-256 digest
/// determined by the concatenated input bytes alone.
#[verifier::external_body]
pub(crate) fn derive_game_key(player_address: &[u8; 32], start_time: i64, secret_key: &[u8; 32]) -> (key: [u8; 32])
    ensures
        key@ == session_key_of(player_address@, start_time, secret_key@),
{
    solana_program::keccak::hashv(&[
        player_address.as_slice(),
        start_time.to_le_bytes().as_slice(),
        secret_key.as_slice(),
    ])
    .to_bytes()
}

} // verus!
