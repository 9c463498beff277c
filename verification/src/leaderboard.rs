//! The leaderboard aggregate: configuration, the two pools, the bounded
//! board of top scorers, and every operation a round goes through, from
//! `initialize` to `claim_prize` or `end_game`. All mutation of a round's
//! state happens through these methods; the surrounding runtime only moves
//! tokens and hands plain values in and out.

use vstd::prelude::*;

use crate::board::{
    entry_views, insert_pos, lb_insert, lemma_entry_views_drop_last, lemma_entry_views_insert,
    lemma_entry_views_update, lemma_insert_pos_properties, lemma_lb_insert_entries,
    lemma_lb_insert_wf, lemma_rank_of_properties, rank_of, sorted_desc, Player, PlayerView,
};
use crate::bytes::bytes32_eq;
use crate::errors::ErrorCode;
use crate::session::{GameSession, SessionStatus};
use crate::session_key::{derive_game_key, session_key_of};
use vstd::arithmetic::div_mod::{lemma_fundamental_div_mod, lemma_mod_division_less_than_divisor};

verus! {

/// The sum of the three rank shares of a prize distribution.
pub open spec fn dist_sum(d: Seq<u8>) -> int {
    d[0] + d[1] + d[2]
}

/// The share paid for one rank: the pool times the rank's percentage,
/// divided by 100 and truncated.
pub open spec fn share(pool: u64, percent: u8) -> int {
    pool * percent / 100
}

/// How many entries are paid at settlement: every entry, up to three.
pub open spec fn winner_count(entries: int) -> int {
    if entries < 3 {
        entries
    } else {
        3
    }
}

/// The sum of the shares for the ranks from `from` up to 3: what a
/// settlement rolls over to the owner when fewer than three entries exist.
pub open spec fn unpaid_shares(pool: u64, d: Seq<u8>, from: int) -> int
    decreases 3 - from,
{
    if from >= 3 {
        0
    } else {
        share(pool, d[from]) + unpaid_shares(pool, d, from + 1)
    }
}

/// The sum of the amounts in a payout plan.
pub open spec fn payout_total(s: Seq<([u8; 32], u64)>) -> int
    decreases s.len(),
{
    if s.len() == 0 {
        0
    } else {
        payout_total(s.drop_last()) + s.last().1
    }
}

/// One game instance: its immutable parameters, the rotatable secret, the
/// account wiring, the two pools, and the board of top scorers.
pub struct Leaderboard {
    /// The fee charged when a session starts.
    pub entry_fee: u64,
    /// The percentage of each fee credited to the prize pool, below 100.
    pub prize_ratio: u8,
    /// The remainder of the split, always 100 minus the prize ratio.
    pub commission_ratio: u8,
    /// The balance payouts are computed from.
    pub prize_pool: u64,
    /// The operator's accrued take, untouched by settlement.
    pub commission_pool: u64,
    /// The percentages for ranks 0, 1 and 2; they sum to 100.
    pub prize_distribution: [u8; 3],
    /// The board of top scorers, sorted by score descending, at most ten.
    pub players: Vec<Player>,
    /// The pool-wide secret that session keys are derived from.
    pub secret_key: [u8; 32],
    /// The mint of the token the game is played in.
    pub token_mint: [u8; 32],
    /// The account holding the pooled tokens.
    pub token_pool: [u8; 32],
    /// The owner's account, paid the settlement rollover.
    pub owner_token_account: [u8; 32],
    /// The administrator who initialized the game.
    pub authority: [u8; 32],
}

/// The parameters set at initialization agree.
pub open spec fn same_config(a: Leaderboard, b: Leaderboard) -> bool {
    &&& a.entry_fee == b.entry_fee
    &&& a.prize_ratio == b.prize_ratio
    &&& a.commission_ratio == b.commission_ratio
    &&& a.prize_distribution@ == b.prize_distribution@
}

/// The account wiring set at initialization agrees.
pub open spec fn same_wiring(a: Leaderboard, b: Leaderboard) -> bool {
    &&& a.token_mint@ == b.token_mint@
    &&& a.owner_token_account@ == b.owner_token_account@
    &&& a.authority@ == b.authority@
}

/// Both pool balances agree.
pub open spec fn same_pools(a: Leaderboard, b: Leaderboard) -> bool {
    &&& a.prize_pool == b.prize_pool
    &&& a.commission_pool == b.commission_pool
}

impl Leaderboard {
    /// The board as a sequence of entry images.
    pub open spec fn board(self) -> Seq<PlayerView> {
        entry_views(self.players@)
    }

    /// The aggregate's invariant: the fee split covers the whole fee, the
    /// three shares cover the whole prize pool, and the board is a sorted
    /// top ten of capped names.
    pub open spec fn wf(self) -> bool {
        &&& self.prize_ratio < 100
        &&& self.commission_ratio == 100 - self.prize_ratio
        &&& dist_sum(self.prize_distribution@) == 100
        &&& self.board().len() <= 10
        &&& sorted_desc(self.board())
        &&& forall|i: int| 0 <= i < self.board().len() ==> (#[trigger] self.board()[i]).name.len() <= 10
    }

    /// Sets up a new game. Refuses a prize ratio of 100 or more, since the
    /// commission is its remainder, and a distribution whose shares do not
    /// sum to 100. On success every balance starts at zero, the board is
    /// empty, the secret is all zeroes until rotated, and the token pool
    /// is unset until `set_token_pool`.
    pub fn initialize(
        entry_fee: u64,
        prize_ratio: u8,
        prize_distribution: [u8; 3],
        token_mint: [u8; 32],
        owner_token_account: [u8; 32],
        authority: [u8; 32],
    ) -> (r: Result<Leaderboard, ErrorCode>)
        ensures
            prize_ratio >= 100 ==> r == Err::<Leaderboard, ErrorCode>(ErrorCode::InvalidEntryFee),
            prize_ratio < 100 && dist_sum(prize_distribution@) != 100 ==> r == Err::<
                Leaderboard,
                ErrorCode,
            >(ErrorCode::InvalidPrizeDistribution),
            prize_ratio < 100 && dist_sum(prize_distribution@) == 100 ==> (r matches Ok(lb) && ({
                &&& lb.wf()
                &&& lb.entry_fee == entry_fee
                &&& lb.prize_ratio == prize_ratio
                &&& lb.commission_ratio == 100 - prize_ratio
                &&& lb.prize_distribution@ == prize_distribution@
                &&& lb.prize_pool == 0
                &&& lb.commission_pool == 0
                &&& lb.board() == Seq::<PlayerView>::empty()
                &&& lb.secret_key@ == Seq::new(32, |_i: int| 0u8)
                &&& lb.token_mint@ == token_mint@
                &&& lb.token_pool@ == Seq::new(32, |_i: int| 0u8)
                &&& lb.owner_token_account@ == owner_token_account@
                &&& lb.authority@ == authority@
            })),
    {
        if prize_ratio >= 100 {
            return Err(ErrorCode::InvalidEntryFee);
        }
        let total: u64 = prize_distribution[0] as u64 + prize_distribution[1] as u64
            + prize_distribution[2] as u64;
        if total != 100 {
            return Err(ErrorCode::InvalidPrizeDistribution);
        }
        let lb = Leaderboard {
            entry_fee,
            prize_ratio,
            commission_ratio: 100 - prize_ratio,
            prize_pool: 0,
            commission_pool: 0,
            prize_distribution,
            players: Vec::new(),
            secret_key: [0u8; 32],
            token_mint,
            token_pool: [0u8; 32],
            owner_token_account,
            authority,
        };
        proof {
            assert(lb.board() =~= Seq::<PlayerView>::empty());
            assert(lb.secret_key@ =~= Seq::new(32, |_i: int| 0u8));
            assert(lb.token_pool@ =~= Seq::new(32, |_i: int| 0u8));
        }
        Ok(lb)
    }

    /// Overwrites the pool-wide secret. Future sessions derive their keys
    /// from the new secret; already-issued sessions keep their keys.
    pub fn set_secret_key(&mut self, new_secret_key: [u8; 32])
        ensures
            final(self).secret_key@ == new_secret_key@,
            same_config(*final(self), *old(self)),
            same_wiring(*final(self), *old(self)),
            same_pools(*final(self), *old(self)),
            final(self).token_pool@ == old(self).token_pool@,
            final(self).players == old(self).players,
            old(self).wf() ==> final(self).wf(),
    {
        self.secret_key = new_secret_key;
    }

    /// Records the account that holds the pooled tokens.
    pub fn set_token_pool(&mut self, token_pool: [u8; 32])
        ensures
            final(self).token_pool@ == token_pool@,
            same_config(*final(self), *old(self)),
            same_wiring(*final(self), *old(self)),
            same_pools(*final(self), *old(self)),
            final(self).secret_key@ == old(self).secret_key@,
            final(self).players == old(self).players,
            old(self).wf() ==> final(self).wf(),
    {
        self.token_pool = token_pool;
    }

    /// Credits a sponsor's contribution to the prize pool. The transfer
    /// into the token pool must already have succeeded; this is the purely
    /// additive bookkeeping step.
    pub fn add_prize_pool(&mut self, amount: u64)
        requires
            old(self).prize_pool + amount <= u64::MAX,
        ensures
            final(self).prize_pool == old(self).prize_pool + amount,
            final(self).commission_pool == old(self).commission_pool,
            same_config(*final(self), *old(self)),
            same_wiring(*final(self), *old(self)),
            final(self).secret_key@ == old(self).secret_key@,
            final(self).token_pool@ == old(self).token_pool@,
            final(self).players == old(self).players,
            old(self).wf() ==> final(self).wf(),
    {
        self.prize_pool = self.prize_pool + amount;
    }

    /// Places one entry on the board: it goes after every entry of equal
    /// or higher score, and an eleventh entry pushes the lowest one off.
    pub fn update_leaderboard(&mut self, player: Player)
        requires
            old(self).wf(),
            player@.name.len() <= 10,
        ensures
            final(self).board() == lb_insert(old(self).board(), player@),
            final(self).wf(),
            same_config(*final(self), *old(self)),
            same_wiring(*final(self), *old(self)),
            same_pools(*final(self), *old(self)),
            final(self).secret_key@ == old(self).secret_key@,
            final(self).token_pool@ == old(self).token_pool@,
    {
        let ghost s = old(self).board();
        let score = player.score;
        let n = self.players.len();
        let mut i: usize = 0;
        while i < n && self.players[i].score >= score
            invariant
                0 <= i <= n,
                n == self.players@.len(),
                s == self.board(),
                forall|j: int| 0 <= j < i ==> s[j].score >= score,
            decreases n - i,
        {
            proof {
                assert(s[i as int] == self.players@[i as int]@);
            }
            i += 1;
        }
        proof {
            lemma_insert_pos_properties(s, score);
            let pos = insert_pos(s, score);
            if i < pos {
                assert(s[i as int].score >= score);
                assert(s[i as int] == self.players@[i as int]@);
                assert(false);
            }
            if pos < i {
                assert(s[pos].score >= score);
                assert(false);
            }
        }
        self.players.insert(i, player);
        proof {
            lemma_entry_views_insert(old(self).players@, i as int, player);
        }
        if self.players.len() > 10 {
            let ghost grown = self.players@;
            self.players.pop();
            proof {
                lemma_entry_views_drop_last(grown);
            }
        }
        proof {
            lemma_lb_insert_wf(s, player@);
            lemma_lb_insert_entries(s, player@);
            assert(self.board() == lb_insert(s, player@));
            assert forall|k: int| 0 <= k < self.board().len() implies (#[trigger] self.board()[k]).name.len()
                <= 10 by {
                if self.board()[k] != player@ {
                    let j = choose|j: int| 0 <= j < s.len() && s[j] == self.board()[k];
                    assert(s[j].name.len() <= 10);
                }
            }
        }
    }

    /// The zero-based rank of a player on the board, or `None` when the
    /// player was evicted or never entered.
    pub fn rank(&self, player_address: &[u8; 32]) -> (r: Option<usize>)
        ensures
            match r {
                Some(i) => i < self.board().len() && i as int == rank_of(
                    self.board(),
                    player_address@,
                ),
                None => rank_of(self.board(), player_address@) == -1,
            },
    {
        let ghost s = self.board();
        proof {
            lemma_rank_of_properties(s, player_address@);
        }
        let n = self.players.len();
        let mut i: usize = 0;
        while i < n
            invariant
                0 <= i <= n,
                n == self.players@.len(),
                s == self.board(),
                rank_of(s, player_address@) == -1 || 0 <= rank_of(s, player_address@) < s.len(),
                forall|j: int| 0 <= j < i ==> (#[trigger] s[j]).address != player_address@,
            decreases n - i,
        {
            proof {
                assert(s[i as int] == self.players@[i as int]@);
            }
            if bytes32_eq(&self.players[i].address, player_address) {
                proof {
                    lemma_rank_of_properties(s, player_address@);
                    let rk = rank_of(s, player_address@);
                    assert(s[i as int].address == player_address@);
                    if rk == -1 {
                        assert(false);
                    }
                    if rk < i {
                        assert(s[rk].address == player_address@);
                        assert(false);
                    }
                    if i < rk {
                        assert(s[i as int].address != player_address@);
                        assert(false);
                    }
                }
                return Some(i);
            }
            i += 1;
        }
        proof {
            lemma_rank_of_properties(s, player_address@);
            let rk = rank_of(s, player_address@);
            if rk >= 0 {
                assert(s[rk].address != player_address@);
                assert(false);
            }
        }
        None
    }

    /// Opens a session for a player whose entry fee was already collected
    /// into the token pool. Refuses a display name over ten characters,
    /// and a player whose previous session is still open. On success the
    /// fee is split between the pools by the configured ratios, truncating
    /// each side, and the session carries the key derived from the player,
    /// the start time and the current secret.
    pub fn start_game(
        &mut self,
        player_address: [u8; 32],
        name: String,
        now: i64,
        prior: Option<&GameSession>,
    ) -> (r: Result<GameSession, ErrorCode>)
        requires
            old(self).wf(),
            old(self).entry_fee * 100 <= u64::MAX,
            old(self).prize_pool + old(self).entry_fee * old(self).prize_ratio / 100 <= u64::MAX,
            old(self).commission_pool + old(self).entry_fee * old(self).commission_ratio / 100
                <= u64::MAX,
        ensures
            final(self).wf(),
            same_config(*final(self), *old(self)),
            same_wiring(*final(self), *old(self)),
            final(self).secret_key@ == old(self).secret_key@,
            final(self).token_pool@ == old(self).token_pool@,
            final(self).players == old(self).players,
            name@.len() > 10 ==> r == Err::<GameSession, ErrorCode>(ErrorCode::NameTooLong)
                && same_pools(*final(self), *old(self)),
            name@.len() <= 10 && prior_is_active(prior) ==> r == Err::<GameSession, ErrorCode>(
                ErrorCode::GameAlreadyStarted,
            ) && same_pools(*final(self), *old(self)),
            name@.len() <= 10 && !prior_is_active(prior) ==> (r matches Ok(session) && ({
                &&& session.player_address@ == player_address@
                &&& session.name@ == name@
                &&& session.start_time == now
                &&& session.status == SessionStatus::Active
                &&& session.game_key@ == session_key_of(
                    player_address@,
                    now,
                    old(self).secret_key@,
                )
                &&& session.wf()
                &&& final(self).prize_pool == old(self).prize_pool + old(self).entry_fee * old(
                    self,
                ).prize_ratio / 100
                &&& final(self).commission_pool == old(self).commission_pool + old(self).entry_fee
                    * old(self).commission_ratio / 100
            })),
    {
        if name.as_str().unicode_len() > 10 {
            return Err(ErrorCode::NameTooLong);
        }
        match prior {
            Some(session) => {
                if session.status == SessionStatus::Active {
                    return Err(ErrorCode::GameAlreadyStarted);
                }
            },
            None => {},
        }
        let entry_fee = self.entry_fee;
        proof {
            assert(self.prize_ratio <= 100 && self.commission_ratio <= 100);
            assert((entry_fee as int) * (self.prize_ratio as int) <= (entry_fee as int)
                * 100) by (nonlinear_arith)
                requires
                    0 <= entry_fee as int,
                    0 <= self.prize_ratio as int <= 100,
            ;
            assert((entry_fee as int) * (self.commission_ratio as int) <= (entry_fee as int)
                * 100) by (nonlinear_arith)
                requires
                    0 <= entry_fee as int,
                    0 <= self.commission_ratio as int <= 100,
            ;
        }
        let prize_addition = entry_fee * (self.prize_ratio as u64) / 100;
        let commission_addition = entry_fee * (self.commission_ratio as u64) / 100;
        self.prize_pool = self.prize_pool + prize_addition;
        self.commission_pool = self.commission_pool + commission_addition;
        let game_key = derive_game_key(&player_address, now, &self.secret_key);
        Ok(
            GameSession {
                player_address,
                name,
                start_time: now,
                game_key,
                status: SessionStatus::Active,
            },
        )
    }

    /// Accepts or refuses a submitted score. Expiry is checked first, so a
    /// stale session cannot be rescued by a valid key; then the key, so a
    /// forged submission never reaches the board; then single use, so a
    /// completed session is never scored twice. An expired or key-rejected
    /// session is marked completed even though the call fails; a session
    /// already completed keeps its terminal state. Only the one successful
    /// submission of a session ever changes the board.
    pub fn log_score(
        &mut self,
        session: &mut GameSession,
        score: u32,
        submitted_game_key: &[u8; 32],
        now: i64,
    ) -> (r: Result<(), ErrorCode>)
        requires
            old(self).wf(),
            old(session).wf(),
            old(session).start_time <= now,
            now - old(session).start_time <= i64::MAX,
        ensures
            final(self).wf(),
            final(session).wf(),
            same_config(*final(self), *old(self)),
            same_wiring(*final(self), *old(self)),
            same_pools(*final(self), *old(self)),
            final(self).secret_key@ == old(self).secret_key@,
            final(self).token_pool@ == old(self).token_pool@,
            final(session).player_address == old(session).player_address,
            final(session).name == old(session).name,
            final(session).start_time == old(session).start_time,
            final(session).game_key == old(session).game_key,
            now - old(session).start_time > 600 ==> ({
                &&& r == Err::<(), ErrorCode>(ErrorCode::GameExpired)
                &&& final(self).players == old(self).players
                &&& final(session).status == (if old(session).completed() {
                    old(session).status
                } else {
                    SessionStatus::CompletedExpired
                })
            }),
            now - old(session).start_time <= 600 && old(session).game_key@ != submitted_game_key@
                ==> ({
                &&& r == Err::<(), ErrorCode>(ErrorCode::InvalidGameKey)
                &&& final(self).players == old(self).players
                &&& final(session).status == (if old(session).completed() {
                    old(session).status
                } else {
                    SessionStatus::CompletedRejected
                })
            }),
            now - old(session).start_time <= 600 && old(session).game_key@ == submitted_game_key@
                && old(session).completed() ==> ({
                &&& r == Err::<(), ErrorCode>(ErrorCode::ScoreAlreadyLogged)
                &&& final(self).players == old(self).players
                &&& final(session).status == old(session).status
            }),
            now - old(session).start_time <= 600 && old(session).game_key@ == submitted_game_key@
                && !old(session).completed() ==> ({
                &&& r == Ok::<(), ErrorCode>(())
                &&& final(session).status == SessionStatus::CompletedSuccess
                &&& final(self).board() == lb_insert(
                    old(self).board(),
                    (PlayerView {
                        address: old(session).player_address@,
                        score,
                        name: old(session).name@,
                        claimed: false,
                    }),
                )
            }),
    {
        let elapsed = now - session.start_time;
        if elapsed > 600 {
            if session.status == SessionStatus::Active {
                session.status = SessionStatus::CompletedExpired;
            }
            return Err(ErrorCode::GameExpired);
        }
        if !bytes32_eq(&session.game_key, submitted_game_key) {
            if session.status == SessionStatus::Active {
                session.status = SessionStatus::CompletedRejected;
            }
            return Err(ErrorCode::InvalidGameKey);
        }
        if session.status != SessionStatus::Active {
            return Err(ErrorCode::ScoreAlreadyLogged);
        }
        let entry = Player {
            address: session.player_address,
            score,
            name: session.name.as_str().to_string(),
            claimed: false,
        };
        self.update_leaderboard(entry);
        session.status = SessionStatus::CompletedSuccess;
        Ok(())
    }

    /// Pays one ranked player on demand. Only the top three ranks are
    /// eligible, and each entry is paid at most once: the claimed flag is
    /// set here and never cleared. The share is computed against the live
    /// prize pool, so top-ups after the score still raise an unclaimed
    /// payout; the pool itself is not decremented, the round's funds leave
    /// through the token pool. The caller performs the transfer of the
    /// returned amount after this call succeeds.
    pub fn claim_prize(&mut self, player_address: &[u8; 32]) -> (r: Result<u64, ErrorCode>)
        requires
            old(self).wf(),
            old(self).prize_pool * 100 <= u64::MAX,
        ensures
            final(self).wf(),
            same_config(*final(self), *old(self)),
            same_wiring(*final(self), *old(self)),
            same_pools(*final(self), *old(self)),
            final(self).secret_key@ == old(self).secret_key@,
            final(self).token_pool@ == old(self).token_pool@,
            rank_of(old(self).board(), player_address@) == -1 ==> r == Err::<u64, ErrorCode>(
                ErrorCode::PlayerNotInLeaderboard,
            ) && final(self).players == old(self).players,
            rank_of(old(self).board(), player_address@) >= 3 ==> r == Err::<u64, ErrorCode>(
                ErrorCode::NotEligibleForPrize,
            ) && final(self).players == old(self).players,
            0 <= rank_of(old(self).board(), player_address@) < 3 && old(self).board()[rank_of(
                old(self).board(),
                player_address@,
            )].claimed ==> r == Err::<u64, ErrorCode>(ErrorCode::PrizeAlreadyClaimed)
                && final(self).players == old(self).players,
            0 <= rank_of(old(self).board(), player_address@) < 3 && !old(self).board()[rank_of(
                old(self).board(),
                player_address@,
            )].claimed ==> (r matches Ok(amount) && ({
                let rk = rank_of(old(self).board(), player_address@);
                &&& amount == share(old(self).prize_pool, old(self).prize_distribution@[rk])
                &&& final(self).board() == old(self).board().update(
                    rk,
                    (PlayerView { claimed: true, ..old(self).board()[rk] }),
                )
            })),
    {
        let rank_idx = match self.rank(player_address) {
            None => {
                return Err(ErrorCode::PlayerNotInLeaderboard);
            },
            Some(i) => i,
        };
        if rank_idx >= 3 {
            return Err(ErrorCode::NotEligibleForPrize);
        }
        if self.players[rank_idx].claimed {
            return Err(ErrorCode::PrizeAlreadyClaimed);
        }
        let percent = self.prize_distribution[rank_idx];
        proof {
            assert(percent <= 100);
            assert((self.prize_pool as int) * (percent as int) <= (self.prize_pool as int)
                * 100) by (nonlinear_arith)
                requires
                    0 <= self.prize_pool as int,
                    0 <= percent as int <= 100,
            ;
        }
        let prize_amount = self.prize_pool * (percent as u64) / 100;
        let ghost pre = self.players@;
        let ghost rk = rank_idx as int;
        self.players[rank_idx].claimed = true;
        proof {
            let updated = Player {
                address: pre[rk].address,
                score: pre[rk].score,
                name: pre[rk].name,
                claimed: true,
            };
            assert(self.players@ =~= pre.update(rk, updated));
            lemma_entry_views_update(pre, rk, updated);
            assert(self.board() =~= old(self).board().update(
                rk,
                (PlayerView { claimed: true, ..old(self).board()[rk] }),
            ));
            assert forall|i: int, j: int| 0 <= i < j < self.board().len() implies self.board()[i].score
                >= self.board()[j].score by {
                assert(old(self).board()[i].score >= old(self).board()[j].score);
            }
            assert forall|i: int| 0 <= i < self.board().len() implies (#[trigger] self.board()[i]).name.len()
                <= 10 by {
                assert(old(self).board()[i].name.len() <= 10);
            }
        }
        Ok(prize_amount)
    }

    /// The settlement plan for the current round: one payout per ranked
    /// entry up to three, each its rank's share of the prize pool, and the
    /// summed shares of the unfilled ranks, owed to the pool owner.
    pub fn distribute_prizes(&self) -> (r: (Vec<([u8; 32], u64)>, u64))
        requires
            self.wf(),
            self.prize_pool * 100 <= u64::MAX,
        ensures
            r.0@.len() == winner_count(self.board().len() as int),
            forall|i: int| 0 <= i < r.0@.len() ==> (#[trigger] r.0@[i]).0@
                == self.board()[i].address,
            forall|i: int| 0 <= i < r.0@.len() ==> (#[trigger] r.0@[i]).1 == share(
                self.prize_pool,
                self.prize_distribution@[i],
            ),
            r.1 == unpaid_shares(
                self.prize_pool,
                self.prize_distribution@,
                winner_count(self.board().len() as int),
            ),
            payout_total(r.0@) + r.1 == unpaid_shares(
                self.prize_pool,
                self.prize_distribution@,
                0,
            ),
    {
        let pool = self.prize_pool;
        let ghost d = self.prize_distribution@;
        let winners = if self.players.len() < 3 {
            self.players.len()
        } else {
            3
        };
        let mut payouts: Vec<([u8; 32], u64)> = Vec::new();
        let mut i: usize = 0;
        while i < winners
            invariant
                0 <= i <= winners,
                winners == winner_count(self.board().len() as int),
                winners <= self.players@.len(),
                winners <= 3,
                pool == self.prize_pool,
                self.wf(),
                pool * 100 <= u64::MAX,
                d == self.prize_distribution@,
                payouts@.len() == i,
                forall|k: int| 0 <= k < i ==> (#[trigger] payouts@[k]).0@
                    == self.board()[k].address,
                forall|k: int| 0 <= k < i ==> (#[trigger] payouts@[k]).1 == share(
                    pool,
                    self.prize_distribution@[k],
                ),
                payout_total(payouts@) == unpaid_shares(pool, d, 0) - unpaid_shares(
                    pool,
                    d,
                    i as int,
                ),
            decreases winners - i,
        {
            let percent = self.prize_distribution[i];
            proof {
                assert(percent <= 100);
                assert((pool as int) * (percent as int) <= (pool as int) * 100) by (nonlinear_arith)
                    requires
                        0 <= pool as int,
                        0 <= percent as int <= 100,
                ;
                assert(self.board()[i as int].address == self.players@[i as int]@.address);
            }
            let amount = pool * (percent as u64) / 100;
            let ghost before = payouts@;
            payouts.push((self.players[i].address, amount));
            proof {
                assert(payouts@.drop_last() =~= before);
                assert(unpaid_shares(pool, d, i as int) == share(pool, d[i as int])
                    + unpaid_shares(pool, d, i as int + 1));
            }
            i += 1;
        }
        proof {
            lemma_unpaid_in_range(pool, d, winners as int);
        }
        let mut remaining: u64 = 0;
        let mut j: usize = winners;
        while j < 3
            invariant
                winners <= j <= 3,
                winners == winner_count(self.board().len() as int),
                pool == self.prize_pool,
                self.wf(),
                pool * 100 <= u64::MAX,
                d == self.prize_distribution@,
                remaining == unpaid_shares(pool, d, winners as int) - unpaid_shares(
                    pool,
                    d,
                    j as int,
                ),
                unpaid_shares(pool, d, winners as int) <= pool,
            decreases 3 - j,
        {
            let percent = self.prize_distribution[j];
            proof {
                assert(percent <= 100);
                assert((pool as int) * (percent as int) <= (pool as int) * 100) by (nonlinear_arith)
                    requires
                        0 <= pool as int,
                        0 <= percent as int <= 100,
                ;
                lemma_unpaid_in_range(pool, d, j as int + 1);
                assert(unpaid_shares(pool, d, j as int) == share(pool, d[j as int])
                    + unpaid_shares(pool, d, j as int + 1));
            }
            remaining = remaining + pool * (percent as u64) / 100;
            j += 1;
        }
        (payouts, remaining)
    }

    /// Settles the round: computes the payout plan, then clears the board
    /// and resets the prize pool to zero. The commission pool is the
    /// operator's take and is untouched. The caller executes the returned
    /// transfers; a new round starts on the emptied board.
    pub fn end_game(&mut self) -> (r: (Vec<([u8; 32], u64)>, u64))
        requires
            old(self).wf(),
            old(self).prize_pool * 100 <= u64::MAX,
        ensures
            final(self).wf(),
            final(self).board() == Seq::<PlayerView>::empty(),
            final(self).prize_pool == 0,
            final(self).commission_pool == old(self).commission_pool,
            same_config(*final(self), *old(self)),
            same_wiring(*final(self), *old(self)),
            final(self).secret_key@ == old(self).secret_key@,
            final(self).token_pool@ == old(self).token_pool@,
            r.0@.len() == winner_count(old(self).board().len() as int),
            forall|i: int| 0 <= i < r.0@.len() ==> (#[trigger] r.0@[i]).0@ == old(
                self,
            ).board()[i].address,
            forall|i: int| 0 <= i < r.0@.len() ==> (#[trigger] r.0@[i]).1 == share(
                old(self).prize_pool,
                old(self).prize_distribution@[i],
            ),
            r.1 == unpaid_shares(
                old(self).prize_pool,
                old(self).prize_distribution@,
                winner_count(old(self).board().len() as int),
            ),
            payout_total(r.0@) + r.1 == unpaid_shares(
                old(self).prize_pool,
                old(self).prize_distribution@,
                0,
            ),
            payout_total(r.0@) + r.1 <= old(self).prize_pool,
    {
        let plan = self.distribute_prizes();
        self.players.clear();
        self.prize_pool = 0;
        proof {
            assert(self.board() =~= Seq::<PlayerView>::empty());
            lemma_settle_conservation(old(self).prize_pool, old(self).prize_distribution@);
        }
        plan
    }
}

/// Whether a previous session for the same player is still open.
pub open spec fn prior_is_active(prior: Option<&GameSession>) -> bool {
    match prior {
        Some(session) => !session.completed(),
        None => false,
    }
}

/// One rank's truncated share never goes negative and never exceeds the
/// pool, as long as the rank's percentage is at most 100.
proof fn lemma_share_bounds(pool: u64, percent: u8)
    requires
        percent <= 100,
    ensures
        0 <= share(pool, percent) <= pool,
{
    assert(0 <= (pool as int) * (percent as int) && (pool as int) * (percent as int) <= (
    pool as int) * 100) by (nonlinear_arith)
        requires
            0 <= pool as int,
            0 <= percent as int <= 100,
    ;
    lemma_fundamental_div_mod((pool as int) * (percent as int), 100);
    lemma_mod_division_less_than_divisor((pool as int) * (percent as int), 100);
}

/// The summed shares of the ranks from `from` on stay within the pool.
proof fn lemma_unpaid_in_range(pool: u64, d: Seq<u8>, from: int)
    requires
        d.len() == 3,
        dist_sum(d) == 100,
        0 <= from <= 3,
    ensures
        0 <= unpaid_shares(pool, d, from) <= pool,
{
    lemma_share_bounds(pool, d[0]);
    lemma_share_bounds(pool, d[1]);
    lemma_share_bounds(pool, d[2]);
    lemma_settle_conservation(pool, d);
    assert(unpaid_shares(pool, d, 3) == 0);
    assert(unpaid_shares(pool, d, 2) == share(pool, d[2]));
    assert(unpaid_shares(pool, d, 1) == share(pool, d[1]) + share(pool, d[2]));
}

/// Settle conservation: the three rank shares of a distribution that sums
/// to 100 add up to at most the pool, and the only shortfall is the
/// truncation of the three integer divisions, strictly below three units.
pub proof fn lemma_settle_conservation(pool: u64, d: Seq<u8>)
    requires
        d.len() == 3,
        dist_sum(d) == 100,
    ensures
        unpaid_shares(pool, d, 0) == share(pool, d[0]) + share(pool, d[1]) + share(pool, d[2]),
        unpaid_shares(pool, d, 0) <= pool,
        pool - 3 < unpaid_shares(pool, d, 0),
{
    assert((pool as int) * (d[0] as int) >= 0 && (pool as int) * (d[1] as int) >= 0 && (
    pool as int) * (d[2] as int) >= 0 && (pool as int) * (d[0] as int) + (pool as int) * (
    d[1] as int) + (pool as int) * (d[2] as int) == (pool as int) * 100) by (nonlinear_arith)
        requires
            0 <= pool as int,
            0 <= d[0] as int,
            0 <= d[1] as int,
            0 <= d[2] as int,
            d[0] as int + d[1] as int + d[2] as int == 100,
    ;
    lemma_fundamental_div_mod((pool as int) * (d[0] as int), 100);
    lemma_fundamental_div_mod((pool as int) * (d[1] as int), 100);
    lemma_fundamental_div_mod((pool as int) * (d[2] as int), 100);
    lemma_mod_division_less_than_divisor((pool as int) * (d[0] as int), 100);
    lemma_mod_division_less_than_divisor((pool as int) * (d[1] as int), 100);
    lemma_mod_division_less_than_divisor((pool as int) * (d[2] as int), 100);
    assert(unpaid_shares(pool, d, 3) == 0);
    assert(unpaid_shares(pool, d, 2) == share(pool, d[2]));
    assert(unpaid_shares(pool, d, 1) == share(pool, d[1]) + share(pool, d[2]));
}

} // verus!
