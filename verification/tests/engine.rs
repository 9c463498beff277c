use game_leaderboard::board::Player;
use game_leaderboard::errors::ErrorCode;
use game_leaderboard::leaderboard::Leaderboard;
use game_leaderboard::session::SessionStatus;

fn addr(b: u8) -> [u8; 32] {
    [b; 32]
}

fn new_board(entry_fee: u64, prize_ratio: u8, distribution: [u8; 3]) -> Leaderboard {
    Leaderboard::initialize(entry_fee, prize_ratio, distribution, addr(201), addr(202), addr(203))
        .expect("valid configuration")
}

fn assert_sorted_desc(lb: &Leaderboard) {
    for w in lb.players.windows(2) {
        assert!(w[0].score >= w[1].score);
    }
}

#[test]
fn initialize_rejects_prize_ratio_of_100_or_more() {
    let r = Leaderboard::initialize(100, 100, [50, 30, 20], addr(1), addr(2), addr(3));
    assert_eq!(r.err(), Some(ErrorCode::InvalidEntryFee));
    let r = Leaderboard::initialize(100, 255, [50, 30, 20], addr(1), addr(2), addr(3));
    assert_eq!(r.err(), Some(ErrorCode::InvalidEntryFee));
}

#[test]
fn initialize_rejects_distribution_not_summing_to_100() {
    let r = Leaderboard::initialize(100, 70, [50, 30, 30], addr(1), addr(2), addr(3));
    assert_eq!(r.err(), Some(ErrorCode::InvalidPrizeDistribution));
    let r = Leaderboard::initialize(100, 70, [0, 0, 0], addr(1), addr(2), addr(3));
    assert_eq!(r.err(), Some(ErrorCode::InvalidPrizeDistribution));
    // A sum that would wrap an eight-bit counter still counts as its true value.
    let r = Leaderboard::initialize(100, 70, [200, 200, 200], addr(1), addr(2), addr(3));
    assert_eq!(r.err(), Some(ErrorCode::InvalidPrizeDistribution));
}

#[test]
fn initialize_checks_ratio_before_distribution() {
    let r = Leaderboard::initialize(100, 100, [1, 2, 3], addr(1), addr(2), addr(3));
    assert_eq!(r.err(), Some(ErrorCode::InvalidEntryFee));
}

#[test]
fn initialize_sets_ratios_that_sum_to_100() {
    let lb = new_board(100, 70, [50, 30, 20]);
    assert_eq!(lb.prize_ratio, 70);
    assert_eq!(lb.commission_ratio, 30);
    assert_eq!(lb.prize_ratio as u16 + lb.commission_ratio as u16, 100);
    assert_eq!(lb.prize_distribution.iter().map(|d| *d as u16).sum::<u16>(), 100);
    assert_eq!(lb.prize_pool, 0);
    assert_eq!(lb.commission_pool, 0);
    assert!(lb.players.is_empty());
    assert_eq!(lb.secret_key, [0u8; 32]);
    assert_eq!(lb.token_mint, addr(201));
    assert_eq!(lb.owner_token_account, addr(202));
    assert_eq!(lb.authority, addr(203));
}

#[test]
fn setters_overwrite_secret_and_token_pool() {
    let mut lb = new_board(100, 70, [50, 30, 20]);
    lb.set_secret_key([7u8; 32]);
    assert_eq!(lb.secret_key, [7u8; 32]);
    lb.set_token_pool(addr(99));
    assert_eq!(lb.token_pool, addr(99));
}

#[test]
fn board_holds_at_most_ten_sorted_entries() {
    let mut lb = new_board(100, 70, [50, 30, 20]);
    let scores = [5u32, 93, 12, 41, 87, 41, 3, 66, 100, 29, 58, 7];
    for (i, score) in scores.iter().enumerate() {
        lb.update_leaderboard(Player {
            address: addr(i as u8),
            score: *score,
            name: format!("p{}", i),
            claimed: false,
        });
        assert!(lb.players.len() <= 10);
        assert_sorted_desc(&lb);
    }
    assert_eq!(lb.players.len(), 10);
    assert_eq!(lb.players[0].score, 100);
}

#[test]
fn eleventh_entry_below_minimum_is_evicted() {
    let mut lb = new_board(100, 70, [50, 30, 20]);
    for i in 0..10u32 {
        lb.update_leaderboard(Player {
            address: addr(i as u8),
            score: 100 + i,
            name: format!("p{}", i),
            claimed: false,
        });
    }
    let before: Vec<(u32, [u8; 32])> =
        lb.players.iter().map(|p| (p.score, p.address)).collect();
    lb.update_leaderboard(Player {
        address: addr(42),
        score: 99,
        name: String::from("late"),
        claimed: false,
    });
    let after: Vec<(u32, [u8; 32])> =
        lb.players.iter().map(|p| (p.score, p.address)).collect();
    assert_eq!(before, after);
}

#[test]
fn equal_scores_keep_order_of_arrival() {
    let mut lb = new_board(100, 70, [50, 30, 20]);
    for i in 0..3u8 {
        lb.update_leaderboard(Player {
            address: addr(i),
            score: 50,
            name: format!("p{}", i),
            claimed: false,
        });
    }
    let order: Vec<[u8; 32]> = lb.players.iter().map(|p| p.address).collect();
    assert_eq!(order, vec![addr(0), addr(1), addr(2)]);
}

#[test]
fn start_game_rejects_long_names_by_character_count() {
    let mut lb = new_board(100, 70, [50, 30, 20]);
    let r = lb.start_game(addr(1), String::from("elevenchars"), 1000, None);
    assert_eq!(r.err(), Some(ErrorCode::NameTooLong));
    assert_eq!(lb.prize_pool, 0);
    // Ten two-byte characters are within the cap: it counts characters.
    let r = lb.start_game(addr(1), String::from("éééééééééé"), 1000, None);
    assert!(r.is_ok());
}

#[test]
fn start_game_rejects_player_with_open_session() {
    let mut lb = new_board(100, 70, [50, 30, 20]);
    let open = lb.start_game(addr(1), String::from("one"), 1000, None).unwrap();
    let r = lb.start_game(addr(1), String::from("one"), 1200, Some(&open));
    assert_eq!(r.err(), Some(ErrorCode::GameAlreadyStarted));
    assert_eq!(lb.prize_pool, 70);
}

#[test]
fn start_game_allows_new_session_after_completion() {
    let mut lb = new_board(100, 70, [50, 30, 20]);
    let mut open = lb.start_game(addr(1), String::from("one"), 1000, None).unwrap();
    let key = open.game_key;
    lb.log_score(&mut open, 5, &key, 1010).unwrap();
    let r = lb.start_game(addr(1), String::from("one"), 1200, Some(&open));
    assert!(r.is_ok());
}

#[test]
fn start_game_splits_fee_between_pools() {
    let mut lb = new_board(100, 70, [50, 30, 20]);
    lb.start_game(addr(1), String::from("a"), 1000, None).unwrap();
    assert_eq!(lb.prize_pool, 70);
    assert_eq!(lb.commission_pool, 30);
    lb.start_game(addr(2), String::from("b"), 1001, None).unwrap();
    assert_eq!(lb.prize_pool, 140);
    assert_eq!(lb.commission_pool, 60);
}

#[test]
fn fee_split_truncates_each_side() {
    let mut lb = new_board(99, 70, [50, 30, 20]);
    lb.start_game(addr(1), String::from("a"), 1000, None).unwrap();
    // 99 * 70 / 100 == 69 and 99 * 30 / 100 == 29; the remainder is dropped.
    assert_eq!(lb.prize_pool, 69);
    assert_eq!(lb.commission_pool, 29);
}

#[test]
fn submitted_score_lands_on_the_board_once() {
    let mut lb = new_board(100, 70, [50, 30, 20]);
    let mut session = lb.start_game(addr(1), String::from("ann"), 1000, None).unwrap();
    let key = session.game_key;
    assert_eq!(lb.log_score(&mut session, 42, &key, 1300), Ok(()));
    assert_eq!(session.status, SessionStatus::CompletedSuccess);
    assert_eq!(lb.players.len(), 1);
    assert_eq!(lb.players[0].score, 42);
    assert_eq!(lb.players[0].address, addr(1));
    assert_eq!(lb.players[0].name, "ann");
    assert!(!lb.players[0].claimed);
    // The session is spent: a second submission changes nothing.
    let r = lb.log_score(&mut session, 9000, &key, 1301);
    assert_eq!(r, Err(ErrorCode::ScoreAlreadyLogged));
    assert_eq!(lb.players.len(), 1);
    assert_eq!(lb.players[0].score, 42);
}

#[test]
fn submission_on_the_600_second_boundary_still_counts() {
    let mut lb = new_board(100, 70, [50, 30, 20]);
    let mut session = lb.start_game(addr(1), String::from("ann"), 1000, None).unwrap();
    let key = session.game_key;
    assert_eq!(lb.log_score(&mut session, 1, &key, 1600), Ok(()));
}

#[test]
fn expiry_beats_a_correct_key() {
    let mut lb = new_board(100, 70, [50, 30, 20]);
    let mut session = lb.start_game(addr(1), String::from("ann"), 1000, None).unwrap();
    let key = session.game_key;
    let r = lb.log_score(&mut session, 42, &key, 1601);
    assert_eq!(r, Err(ErrorCode::GameExpired));
    assert_eq!(session.status, SessionStatus::CompletedExpired);
    assert!(lb.players.is_empty());
    // The expired session stays spent even inside a fresh window reading.
    let r = lb.log_score(&mut session, 42, &key, 1602);
    assert_eq!(r, Err(ErrorCode::GameExpired));
    assert!(lb.players.is_empty());
}

#[test]
fn forged_key_is_rejected_and_spends_the_session() {
    let mut lb = new_board(100, 70, [50, 30, 20]);
    lb.set_secret_key([7u8; 32]);
    let mut session = lb.start_game(addr(1), String::from("ann"), 1000, None).unwrap();
    let mut forged = session.game_key;
    forged[0] = forged[0].wrapping_add(1);
    let r = lb.log_score(&mut session, 42, &forged, 1100);
    assert_eq!(r, Err(ErrorCode::InvalidGameKey));
    assert_eq!(session.status, SessionStatus::CompletedRejected);
    assert!(lb.players.is_empty());
    // Even the right key cannot revive a rejected session.
    let key = session.game_key;
    let r = lb.log_score(&mut session, 42, &key, 1100);
    assert_eq!(r, Err(ErrorCode::ScoreAlreadyLogged));
    assert!(lb.players.is_empty());
}

#[test]
fn derived_keys_depend_on_player_time_and_secret() {
    let mut lb = new_board(100, 70, [50, 30, 20]);
    lb.set_secret_key([7u8; 32]);
    let s1 = lb.start_game(addr(1), String::from("a"), 1000, None).unwrap();
    // The key is a digest, not any input echoed back.
    assert_ne!(s1.game_key, [7u8; 32]);
    assert_ne!(s1.game_key, addr(1));
    // The same inputs derive the same key.
    let s2 = lb.start_game(addr(1), String::from("a"), 1000, None).unwrap();
    assert_eq!(s1.game_key, s2.game_key);
    // A different start time, player, or secret each changes the key.
    let s3 = lb.start_game(addr(1), String::from("a"), 1001, None).unwrap();
    assert_ne!(s1.game_key, s3.game_key);
    let s4 = lb.start_game(addr(2), String::from("a"), 1000, None).unwrap();
    assert_ne!(s1.game_key, s4.game_key);
    lb.set_secret_key([8u8; 32]);
    let s5 = lb.start_game(addr(1), String::from("a"), 1000, None).unwrap();
    assert_ne!(s1.game_key, s5.game_key);
}

#[test]
fn rank_reports_position_or_absence() {
    let mut lb = new_board(100, 70, [50, 30, 20]);
    for (i, score) in [30u32, 10, 20].iter().enumerate() {
        lb.update_leaderboard(Player {
            address: addr(i as u8),
            score: *score,
            name: format!("p{}", i),
            claimed: false,
        });
    }
    assert_eq!(lb.rank(&addr(0)), Some(0));
    assert_eq!(lb.rank(&addr(2)), Some(1));
    assert_eq!(lb.rank(&addr(1)), Some(2));
    assert_eq!(lb.rank(&addr(9)), None);
}

#[test]
fn claim_pays_the_rank_share_once() {
    let mut lb = new_board(100, 70, [50, 30, 20]);
    lb.add_prize_pool(1000);
    for (i, score) in [30u32, 20, 10].iter().enumerate() {
        lb.update_leaderboard(Player {
            address: addr(i as u8),
            score: *score,
            name: format!("p{}", i),
            claimed: false,
        });
    }
    assert_eq!(lb.claim_prize(&addr(0)), Ok(500));
    assert!(lb.players[0].claimed);
    assert_eq!(lb.claim_prize(&addr(0)), Err(ErrorCode::PrizeAlreadyClaimed));
    assert_eq!(lb.claim_prize(&addr(1)), Ok(300));
    assert_eq!(lb.claim_prize(&addr(2)), Ok(200));
    // The pool is not decremented by claims in this design.
    assert_eq!(lb.prize_pool, 1000);
}

#[test]
fn claim_rejects_absent_and_unranked_players() {
    let mut lb = new_board(100, 70, [50, 30, 20]);
    lb.add_prize_pool(1000);
    for (i, score) in [40u32, 30, 20, 10].iter().enumerate() {
        lb.update_leaderboard(Player {
            address: addr(i as u8),
            score: *score,
            name: format!("p{}", i),
            claimed: false,
        });
    }
    assert_eq!(lb.claim_prize(&addr(9)), Err(ErrorCode::PlayerNotInLeaderboard));
    assert_eq!(lb.claim_prize(&addr(3)), Err(ErrorCode::NotEligibleForPrize));
}

#[test]
fn claim_is_computed_against_the_live_pool() {
    let mut lb = new_board(100, 70, [50, 30, 20]);
    lb.add_prize_pool(100);
    lb.update_leaderboard(Player {
        address: addr(1),
        score: 10,
        name: String::from("solo"),
        claimed: false,
    });
    lb.add_prize_pool(100);
    // The later top-up raises the not-yet-claimed share.
    assert_eq!(lb.claim_prize(&addr(1)), Ok(100));
}

#[test]
fn settle_clears_the_round_and_conserves_the_pool() {
    let mut lb = new_board(100, 70, [50, 30, 20]);
    lb.add_prize_pool(997);
    let commission_before = lb.commission_pool;
    for (i, score) in [30u32, 20, 10].iter().enumerate() {
        lb.update_leaderboard(Player {
            address: addr(i as u8),
            score: *score,
            name: format!("p{}", i),
            claimed: false,
        });
    }
    let (payouts, rollover) = lb.end_game();
    assert_eq!(
        payouts,
        vec![(addr(0), 498), (addr(1), 299), (addr(2), 199)]
    );
    assert_eq!(rollover, 0);
    let total: u64 = payouts.iter().map(|p| p.1).sum::<u64>() + rollover;
    assert!(total <= 997);
    assert!(total > 997 - 3);
    assert_eq!(lb.prize_pool, 0);
    assert!(lb.players.is_empty());
    assert_eq!(lb.commission_pool, commission_before);
}

#[test]
fn settle_rolls_unfilled_ranks_over_to_the_owner() {
    let mut lb = new_board(100, 70, [50, 30, 20]);
    lb.add_prize_pool(1000);
    lb.update_leaderboard(Player {
        address: addr(1),
        score: 10,
        name: String::from("solo"),
        claimed: false,
    });
    let (payouts, rollover) = lb.end_game();
    assert_eq!(payouts, vec![(addr(1), 500)]);
    assert_eq!(rollover, 300 + 200);
    assert_eq!(lb.prize_pool, 0);
    assert!(lb.players.is_empty());
}

#[test]
fn settle_of_an_empty_round_rolls_everything_over() {
    let mut lb = new_board(100, 70, [50, 30, 20]);
    lb.add_prize_pool(1000);
    let (payouts, rollover) = lb.end_game();
    assert!(payouts.is_empty());
    assert_eq!(rollover, 1000);
    assert_eq!(lb.prize_pool, 0);
}

#[test]
fn rotating_the_secret_keeps_issued_sessions_valid() {
    let mut lb = new_board(100, 70, [50, 30, 20]);
    lb.set_secret_key([7u8; 32]);
    let mut session = lb.start_game(addr(1), String::from("ann"), 1000, None).unwrap();
    lb.set_secret_key([8u8; 32]);
    let key = session.game_key;
    assert_eq!(lb.log_score(&mut session, 42, &key, 1100), Ok(()));
}

#[test]
fn name_cap_counts_characters_not_bytes() {
    let mut lb = new_board(100, 70, [50, 30, 20]);
    // Eleven two-byte characters exceed the cap.
    let r = lb.start_game(addr(1), String::from("ééééééééééé"), 1000, None);
    assert_eq!(r.err(), Some(ErrorCode::NameTooLong));
}

#[test]
fn a_new_round_starts_on_the_settled_board() {
    let mut lb = new_board(100, 70, [50, 30, 20]);
    lb.update_leaderboard(Player {
        address: addr(1),
        score: 10,
        name: String::from("solo"),
        claimed: false,
    });
    lb.end_game();
    assert!(lb.players.is_empty());
    let mut session = lb.start_game(addr(1), String::from("solo"), 5000, None).unwrap();
    let key = session.game_key;
    assert_eq!(lb.log_score(&mut session, 7, &key, 5001), Ok(()));
    assert_eq!(lb.players.len(), 1);
    assert_eq!(lb.prize_pool, 70);
}

#[test]
fn full_round_from_initialize_to_claim() {
    let mut lb = new_board(100, 70, [50, 30, 20]);
    lb.set_secret_key([5u8; 32]);
    let scores = [(addr(1), 10u32), (addr(2), 20), (addr(3), 30)];
    for (i, (player, score)) in scores.iter().enumerate() {
        let now = 1000 + i as i64;
        let mut session = lb.start_game(*player, format!("p{}", i), now, None).unwrap();
        let key = session.game_key;
        assert_eq!(lb.log_score(&mut session, *score, &key, now + 60), Ok(()));
    }
    let order: Vec<u32> = lb.players.iter().map(|p| p.score).collect();
    assert_eq!(order, vec![30, 20, 10]);
    assert_eq!(lb.prize_pool, 210);
    assert_eq!(lb.commission_pool, 90);
    assert_eq!(lb.claim_prize(&addr(3)), Ok(105));
}
