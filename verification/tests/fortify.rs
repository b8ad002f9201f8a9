use risk_core::map::territory::{Territory, TerritoryState};
use risk_core::map::GameMap;
use risk_core::{Game, TurnPhase};

fn territory(troops: u32, neighbors: Vec<u32>) -> Territory {
    Territory {
        vertices: vec![0, 1, 2],
        center: 1,
        color: 0,
        troops,
        state: TerritoryState::Dormant,
        neighbors,
    }
}

/// Three territories in a triangle; round-robin gives 0 and 2 to player 0
/// and 1 to player 1, so player 0 can fortify between 0 and 2.
fn triangle_map(t0: u32, t1: u32, t2: u32) -> GameMap {
    GameMap {
        width: 4,
        height: 4,
        territories: vec![
            territory(t0, vec![1, 2]),
            territory(t1, vec![0, 2]),
            territory(t2, vec![0, 1]),
        ],
        background_color: 0,
        background_index: 1000,
        troops_to_place: 0,
        placement_cache: vec![0, 0, 0],
    }
}

fn select_fortify_pair(game: &mut Game) {
    game.fortify_phase();
    assert!(game.map_click_action(0));
    assert!(game.map_click_action(2));
    assert!(game.target_selected());
}

#[test]
fn fortify_all_leaves_one_behind() {
    let mut game = Game::new(5, triangle_map(4, 2, 1));
    select_fortify_pair(&mut game);
    game.fortify_all();
    let troops: Vec<u32> = game.get_map().troops();
    assert_eq!(troops, vec![1, 2, 4]);
    let map = game.get_map();
    for i in 0..map.territory_count() {
        assert!(!map.is_highlighted(i));
    }
}

#[test]
fn fortify_troops_moves_the_exact_amount() {
    let mut game = Game::new(5, triangle_map(4, 2, 1));
    select_fortify_pair(&mut game);
    game.fortify_troops(2);
    let troops: Vec<u32> = game.get_map().troops();
    assert_eq!(troops, vec![2, 2, 3]);
}

#[test]
fn fortify_that_would_empty_the_source_is_refused() {
    let mut game = Game::new(5, triangle_map(4, 2, 1));
    select_fortify_pair(&mut game);
    game.fortify_troops(4);
    let troops: Vec<u32> = game.get_map().troops();
    assert_eq!(troops, vec![4, 2, 1]);
    // The refusal leaves the selection alone.
    assert!(game.target_selected());
}

#[test]
fn fortify_without_a_pair_is_refused() {
    let mut game = Game::new(5, triangle_map(4, 2, 1));
    game.fortify_phase();
    game.fortify_troops(2);
    let troops: Vec<u32> = game.get_map().troops();
    assert_eq!(troops, vec![4, 2, 1]);
}

#[test]
fn fortify_highlights_only_owned_neighbors() {
    let mut game = Game::new(5, triangle_map(4, 2, 1));
    game.fortify_phase();
    assert!(game.map_click_action(0));
    let map = game.get_map();
    assert!(map.is_selected(0));
    // Territory 1 belongs to the enemy: not highlighted in fortify.
    assert!(!map.is_highlighted(1));
    assert!(map.is_highlighted(2));
}

#[test]
fn clicking_the_selected_source_cancels() {
    let mut game = Game::new(5, triangle_map(4, 2, 1));
    game.fortify_phase();
    assert!(game.map_click_action(0));
    assert!(game.map_click_action(0));
    let map = game.get_map();
    for i in 0..map.territory_count() {
        assert!(!map.is_highlighted(i));
    }
}

#[test]
fn fortify_settles_the_post_attack_transfer() {
    // Reach the forced transfer through a real capture, then settle it.
    for seed in 0..40u64 {
        let mut game = Game::new(seed, triangle_map(6, 1, 2));
        game.attack_phase();
        assert!(game.map_click_action(0));
        assert!(game.map_click_action(1));
        game.attack_with(5);
        if game.turn_phase() == TurnPhase::PostAttackFortify {
            // The engagement resolved as a capture; clicks do nothing now.
            assert!(!game.map_click_action(0));
            game.fortify_troops(1);
            assert_eq!(game.turn_phase(), TurnPhase::Attack);
            return;
        }
    }
    panic!("no seed captured the 1-troop defender");
}

#[test]
fn retargeting_keeps_a_single_target() {
    // Player 0 owns 0, 2 and 4; territory 0 borders both of its others.
    let map = GameMap {
        width: 4,
        height: 4,
        territories: vec![
            territory(4, vec![2, 4]),
            territory(1, vec![]),
            territory(1, vec![0]),
            territory(1, vec![]),
            territory(1, vec![0]),
        ],
        background_color: 0,
        background_index: 1000,
        troops_to_place: 0,
        placement_cache: vec![0, 0, 0, 0, 0],
    };
    let mut game = Game::new(9, map);
    game.fortify_phase();
    assert!(game.map_click_action(0));
    let m = game.get_map();
    assert!(m.is_highlighted(2));
    assert!(m.is_highlighted(4));
    // Targeting 2 resets the other owned candidates: exactly one target.
    assert!(game.map_click_action(2));
    let m = game.get_map();
    assert!(m.is_targeted(2));
    assert!(!m.is_highlighted(4));
    assert!(m.is_selected(0));
    // Territory 4 went dormant, so a second targeting click is refused.
    assert!(!game.map_click_action(4));
    let m = game.get_map();
    assert!(m.is_targeted(2));
    assert!(!m.is_targeted(4));
}

#[test]
fn movement_query_reports_the_selected_garrison() {
    let mut game = Game::new(5, triangle_map(4, 2, 1));
    assert_eq!(game.troops_available_for_movement(), 0);
    game.fortify_phase();
    assert!(game.map_click_action(0));
    assert_eq!(game.troops_available_for_movement(), 4);
}
