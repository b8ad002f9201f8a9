use risk_core::map::territory::{Territory, TerritoryState};
use risk_core::map::GameMap;
use risk_core::{Game, TurnPhase};

fn territory(troops: u32, neighbors: Vec<u32>) -> Territory {
    Territory {
        vertices: vec![0, 1, 2],
        center: 1,
        color: 0,
        troops,
        state: TerritoryState::Dormant,
        neighbors,
    }
}

fn pair_map(troops0: u32, troops1: u32) -> GameMap {
    GameMap {
        width: 4,
        height: 4,
        territories: vec![territory(troops0, vec![1]), territory(troops1, vec![0])],
        background_color: 0,
        background_index: 1000,
        troops_to_place: 0,
        placement_cache: vec![0, 0],
    }
}

#[test]
fn new_grants_the_fixed_allowance() {
    let game = Game::new(1, pair_map(3, 3));
    assert_eq!(game.new_troops(), 5);
    assert_eq!(game.calc_troop_bonus(), 5);
    assert_eq!(game.turn_phase(), TurnPhase::Place);
    assert_eq!(game.on_player_index(), 0);
}

#[test]
fn staging_accumulates_and_respects_the_allowance() {
    let mut game = Game::new(1, pair_map(3, 3));
    for k in 0..5 {
        assert_eq!(game.troops_staged_for_placement(), k);
        assert!(!game.hit_troop_placement_limit());
        assert!(game.map_click_action(0));
    }
    assert_eq!(game.troops_staged_for_placement(), 5);
    assert!(game.hit_troop_placement_limit());
    assert_eq!(game.troops_available_for_placement(), 0);
    // The allowance is exhausted: a sixth stage is refused.
    assert!(!game.map_click_action(0));
    assert_eq!(game.troops_staged_for_placement(), 5);
}

#[test]
fn staging_on_an_enemy_territory_is_refused() {
    let mut game = Game::new(1, pair_map(3, 3));
    assert!(!game.map_click_action(1));
    assert_eq!(game.troops_staged_for_placement(), 0);
}

#[test]
fn staged_troops_show_in_the_display_totals() {
    let mut game = Game::new(1, pair_map(3, 3));
    assert!(game.map_click_action(0));
    assert!(game.map_click_action(0));
    let troops: Vec<u32> = game.get_map().troops();
    assert_eq!(troops, vec![5, 3]);
    assert!(game.get_map().is_selected(0));
}

#[test]
fn clear_placement_restores_a_clean_slate() {
    let mut game = Game::new(1, pair_map(3, 3));
    for _ in 0..3 {
        assert!(game.map_click_action(0));
    }
    assert_eq!(game.troops_staged_for_placement(), 3);
    game.clear_placement_cache();
    assert_eq!(game.troops_staged_for_placement(), 0);
    let map = game.get_map();
    for i in 0..map.territory_count() {
        assert!(!map.is_highlighted(i));
    }
    let troops: Vec<u32> = map.troops();
    assert_eq!(troops, vec![3, 3]);
}

#[test]
fn commit_spends_the_allowance_and_applies_the_stage() {
    let mut game = Game::new(1, pair_map(3, 3));
    assert!(game.map_click_action(0));
    assert!(game.map_click_action(0));
    game.commit_placement_cache();
    assert_eq!(game.new_troops(), 3);
    assert_eq!(game.troops_staged_for_placement(), 0);
    let map = game.get_map();
    let troops: Vec<u32> = map.troops();
    assert_eq!(troops, vec![5, 3]);
    for i in 0..map.territory_count() {
        assert!(!map.is_highlighted(i));
    }
}

#[test]
fn init_turn_rotates_and_regrants() {
    let mut game = Game::new(1, pair_map(3, 3));
    assert!(game.map_click_action(0));
    game.commit_placement_cache();
    game.attack_phase();
    game.init_turn();
    assert_eq!(game.on_player_index(), 1);
    assert_eq!(game.turn_phase(), TurnPhase::Place);
    assert_eq!(game.new_troops(), 5);
    assert_eq!(game.troops_staged_for_placement(), 0);
    game.init_turn();
    assert_eq!(game.on_player_index(), 0);
}

#[test]
fn staged_troops_survive_the_end_of_turn() {
    let mut game = Game::new(1, pair_map(3, 3));
    assert!(game.map_click_action(0));
    assert!(game.map_click_action(0));
    game.init_turn();
    // Only the explicit clear or commit commands close the placement
    // transaction; ending the turn leaves the ledger as it is.
    assert_eq!(game.troops_staged_for_placement(), 2);
    assert_eq!(game.troops_available_for_placement(), 3);
    // The stale selection markers, though, are gone.
    let map = game.get_map();
    for i in 0..map.territory_count() {
        assert!(!map.is_highlighted(i));
    }
}

#[test]
fn troops_to_place_round_trips() {
    let mut game = Game::new(1, pair_map(3, 3));
    assert_eq!(game.get_troops_to_place(), 0);
    game.set_troops_to_place(9);
    assert_eq!(game.get_troops_to_place(), 9);
}

#[test]
fn phase_commands_switch_but_respect_the_forced_transfer() {
    let mut game = Game::new(1, pair_map(3, 3));
    game.attack_phase();
    assert!(game.is_attack_phase());
    game.fortify_phase();
    assert!(game.is_fortify_phase());
    game.place_phase();
    assert!(game.is_place_phase());
    assert!(!game.is_attack_phase());
    assert!(!game.is_fortify_phase());
}
