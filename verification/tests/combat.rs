use risk_core::map::territory::{Territory, TerritoryState};
use risk_core::map::GameMap;
use risk_core::{Game, TurnPhase};

fn territory(troops: u32, neighbors: Vec<u32>) -> Territory {
    Territory {
        vertices: vec![0, 1, 2],
        center: 1,
        color: 0,
        troops,
        state: TerritoryState::Dormant,
        neighbors,
    }
}

/// Two mutually adjacent territories; round-robin gives territory 0 to
/// player 0 and territory 1 to player 1.
fn duel_map(attacker_troops: u32, defender_troops: u32) -> GameMap {
    GameMap {
        width: 4,
        height: 4,
        territories: vec![
            territory(attacker_troops, vec![1]),
            territory(defender_troops, vec![0]),
        ],
        background_color: 0,
        background_index: 1000,
        troops_to_place: 0,
        placement_cache: vec![0, 0],
    }
}

fn select_and_target(game: &mut Game) {
    game.attack_phase();
    assert!(game.map_click_action(0));
    assert!(game.map_click_action(1));
    assert!(game.target_selected());
}

#[test]
fn attack_with_captures_or_spares_exactly() {
    let mut captures = 0;
    for seed in 0..40u64 {
        let mut game = Game::new(seed, duel_map(5, 1));
        select_and_target(&mut game);
        game.attack_with(4);
        let troops: Vec<u32> = game.get_map().troops();
        if game.is_over() {
            captures += 1;
            // The origin keeps reserve(1) + adjusted survivors: 3 when the
            // whole pool of 4 survived (survivors - 2), else 2.
            assert!(troops[0] == 2 || troops[0] == 3);
            // The captured territory receives min(survivors, 3).
            assert!(troops[1] >= 1 && troops[1] <= 3);
            if troops[0] == 3 {
                // All four survived, so three of them marched on.
                assert_eq!(troops[1], 3);
            }
            assert_eq!(game.active_players(), vec![0]);
            // The origin keeps more than one troop, so the forced
            // post-attack fortification begins.
            assert_eq!(game.turn_phase(), TurnPhase::PostAttackFortify);
        } else {
            // The defender survived: the whole pool of 4 died, the reserve
            // stays behind.
            assert_eq!(troops[0], 1);
            assert_eq!(troops[1], 1);
            assert_eq!(game.active_players(), vec![0, 1]);
        }
    }
    // A 1-troop defender falls to a 4-troop pool for almost every seed.
    assert!(captures > 0);
}

#[test]
fn attacker_never_drops_below_one_troop() {
    for seed in 0..30u64 {
        let mut game = Game::new(seed, duel_map(4, 8));
        select_and_target(&mut game);
        game.attack_with(3);
        let troops: Vec<u32> = game.get_map().troops();
        assert!(troops[0] >= 1);
        assert!(troops[1] >= 1);
    }
}

#[test]
fn attack_with_zero_troops_is_refused() {
    let mut game = Game::new(7, duel_map(5, 1));
    select_and_target(&mut game);
    game.attack_with(0);
    let troops: Vec<u32> = game.get_map().troops();
    assert_eq!(troops, vec![5, 1]);
    assert!(!game.is_over());
}

#[test]
fn attack_with_whole_garrison_is_refused() {
    let mut game = Game::new(7, duel_map(5, 1));
    select_and_target(&mut game);
    // Committing all 5 troops would leave no reserve behind.
    game.attack_with(5);
    let troops: Vec<u32> = game.get_map().troops();
    assert_eq!(troops, vec![5, 1]);
}

#[test]
fn attack_without_target_is_refused() {
    let mut game = Game::new(7, duel_map(5, 1));
    game.attack_phase();
    assert!(game.map_click_action(0));
    game.attack_with(3);
    let troops: Vec<u32> = game.get_map().troops();
    assert_eq!(troops, vec![5, 1]);
}

#[test]
fn attack_against_non_neighbor_is_refused() {
    // Territory 2 is no neighbor of 0; it can never even be targeted, so
    // force the marker through the fortify rules cannot happen either: the
    // guard inside attackWith is what keeps this a no-op.
    let map = GameMap {
        width: 4,
        height: 4,
        territories: vec![
            territory(5, vec![1]),
            territory(1, vec![0]),
            territory(1, vec![]),
        ],
        background_color: 0,
        background_index: 1000,
        troops_to_place: 0,
        placement_cache: vec![0, 0, 0],
    };
    let mut game = Game::new(3, map);
    game.attack_phase();
    assert!(game.map_click_action(0));
    // Clicking territory 2 does nothing: it is not highlighted.
    assert!(!game.map_click_action(2));
    game.attack_with(3);
    let troops: Vec<u32> = game.get_map().troops();
    assert_eq!(troops, vec![5, 1, 1]);
}

#[test]
fn forced_rolls_favor_the_attacker() {
    // The highest pair 6 vs 1 costs the defender its die.
    let r = risk_core::resolve_dice(&vec![6, 6, 6], &vec![1]);
    assert_eq!(r.attack_dice, 0);
    assert_eq!(r.defend_dice, 1);
}

#[test]
fn ties_favor_the_defender() {
    // Pairs: 6 vs 6 (tie, attacker loses) and 2 vs 5 (attacker loses).
    let r = risk_core::resolve_dice(&vec![1, 2, 6], &vec![5, 6]);
    assert_eq!(r.attack_dice, 2);
    assert_eq!(r.defend_dice, 0);
}

#[test]
fn one_pair_when_one_defender_die() {
    let r = risk_core::resolve_dice(&vec![2, 3, 4], &vec![3]);
    // 4 vs 3: defender loses the single compared pair.
    assert_eq!(r.attack_dice, 0);
    assert_eq!(r.defend_dice, 1);
}

#[test]
fn attack_all_commits_everything() {
    for seed in 0..20u64 {
        let mut game = Game::new(seed, duel_map(4, 1));
        select_and_target(&mut game);
        game.attack_all();
        let troops: Vec<u32> = game.get_map().troops();
        if game.is_over() {
            assert_eq!(troops[0], 2);
            assert!(troops[1] >= 1 && troops[1] <= 3);
        } else {
            assert_eq!(troops[0], 1);
            assert_eq!(troops[1], 1);
        }
    }
}

#[test]
fn attack_tail_settles_the_post_attack_transfer() {
    for seed in 0..20u64 {
        let mut game = Game::new(seed, duel_map(6, 1));
        select_and_target(&mut game);
        game.attack_tail();
        assert!(game.turn_phase() != TurnPhase::PostAttackFortify);
    }
}

#[test]
fn capture_transfers_ownership_exactly() {
    let mut seen = false;
    for seed in 0..40u64 {
        let mut game = Game::new(seed, duel_map(5, 1));
        select_and_target(&mut game);
        game.attack_with(4);
        // Ownership is observable through active_players for this
        // two-territory duel: a capture leaves player 1 with nothing.
        if game.is_over() {
            seen = true;
            assert_eq!(game.active_players(), vec![0]);
        }
    }
    assert!(seen);
}
