use risk_core::map::territory::{Territory, TerritoryState};
use risk_core::map::GameMap;
use risk_core::{Game, TurnPhase};

fn territory(troops: u32, neighbors: Vec<u32>) -> Territory {
    Territory {
        vertices: vec![0, 1, 2],
        center: 1,
        color: 0,
        troops,
        state: TerritoryState::Dormant,
        neighbors,
    }
}

fn ring_map() -> GameMap {
    GameMap {
        width: 4,
        height: 4,
        territories: vec![
            territory(6, vec![1, 3]),
            territory(4, vec![0, 2]),
            territory(5, vec![1, 3]),
            territory(2, vec![0, 2]),
        ],
        background_color: 0,
        background_index: 1000,
        troops_to_place: 0,
        placement_cache: vec![0, 0, 0, 0],
    }
}

/// One fixed command sequence: place, commit, attack, fortify, end turn.
fn run_session(seed: u64) -> (Vec<u32>, Vec<usize>, TurnPhase, usize, u32) {
    let mut game = Game::new(seed, ring_map());
    game.map_click_action(0);
    game.map_click_action(0);
    game.commit_placement_cache();
    game.attack_phase();
    game.map_click_action(0);
    game.map_click_action(1);
    game.attack_with(4);
    game.attack_with(2);
    game.fortify_troops(1);
    game.init_turn();
    game.map_click_action(1);
    game.commit_placement_cache();
    let troops: Vec<u32> = game.get_map().troops();
    (
        troops,
        game.active_players(),
        game.turn_phase(),
        game.on_player_index(),
        game.new_troops(),
    )
}

#[test]
fn a_fixed_seed_replays_bit_identically() {
    for seed in [0u64, 1, 7, 1234, 0xDEADBEEF] {
        let first = run_session(seed);
        let second = run_session(seed);
        assert_eq!(first.0, second.0);
        assert_eq!(first.1, second.1);
        assert_eq!(first.2, second.2);
        assert_eq!(first.3, second.3);
        assert_eq!(first.4, second.4);
    }
}

#[test]
fn clicks_out_of_range_do_nothing() {
    let mut game = Game::new(3, ring_map());
    assert!(!game.map_click_action(4));
    assert!(!game.map_click_action(1000));
    assert_eq!(game.troops_staged_for_placement(), 0);
}

#[test]
fn attack_clicks_highlight_only_enemy_neighbors() {
    let mut game = Game::new(3, ring_map());
    game.attack_phase();
    // Player 0 owns 0 and 2; player 1 owns 1 and 3.
    assert!(game.map_click_action(0));
    let map = game.get_map();
    assert!(map.is_selected(0));
    assert!(map.is_highlighted(1));
    assert!(map.is_highlighted(3));
    assert!(!map.is_highlighted(2));
}

#[test]
fn targeting_leaves_exactly_one_target() {
    let mut game = Game::new(3, ring_map());
    game.attack_phase();
    assert!(game.map_click_action(0));
    assert!(game.map_click_action(1));
    let map = game.get_map();
    assert!(map.is_targeted(1));
    assert!(!map.is_targeted(3));
    assert!(map.is_selected(0));
    // Retargeting among dormant enemies is refused: 3 went dormant.
    assert!(!game.map_click_action(3));
}

#[test]
fn clicking_the_selected_attacker_cancels() {
    let mut game = Game::new(3, ring_map());
    game.attack_phase();
    assert!(game.map_click_action(0));
    assert!(game.map_click_action(0));
    let map = game.get_map();
    for i in 0..map.territory_count() {
        assert!(!map.is_highlighted(i));
    }
}

#[test]
fn a_second_owned_territory_cannot_take_the_selection() {
    let mut game = Game::new(3, ring_map());
    game.attack_phase();
    assert!(game.map_click_action(0));
    assert!(!game.map_click_action(2));
    let map = game.get_map();
    assert!(map.is_selected(0));
    assert!(!map.is_selected(2));
}

#[test]
fn is_over_tracks_active_players() {
    let game = Game::new(3, ring_map());
    assert_eq!(game.active_players(), vec![0, 1]);
    assert!(!game.is_over());
    let mut lone = Game::new(
        3,
        GameMap {
            width: 4,
            height: 4,
            territories: vec![territory(2, vec![])],
            background_color: 0,
            background_index: 1000,
            troops_to_place: 0,
            placement_cache: vec![0],
        },
    );
    // One territory: player 0 owns everything, player 1 never had any.
    assert_eq!(lone.active_players(), vec![0]);
    assert!(lone.is_over());
    assert!(!lone.map_click_action(1));
}

#[test]
fn ownership_is_conserved_across_a_capture() {
    let mut captured = 0;
    for seed in 0..30u64 {
        let mut game = Game::new(seed, ring_map());
        game.attack_phase();
        assert!(game.map_click_action(0));
        assert!(game.map_click_action(1));
        game.attack_with(5);
        let survivors = game.active_players().len();
        // Two players, four territories: sets always cover the whole board.
        let troops: Vec<u32> = game.get_map().troops();
        assert_eq!(troops.len(), 4);
        for t in &troops {
            assert!(*t >= 1);
        }
        if game.turn_phase() == TurnPhase::PostAttackFortify {
            captured += 1;
        }
        assert!(survivors >= 1 && survivors <= 2);
    }
    assert!(captured > 0);
}
