use risk_core::map::territory::{Territory, TerritoryState};
use risk_core::map::GameMap;
use risk_core::Game;

fn territory(troops: u32, neighbors: Vec<u32>) -> Territory {
    Territory {
        vertices: vec![0, 1, 2],
        center: 1,
        color: 0,
        troops,
        state: TerritoryState::Dormant,
        neighbors,
    }
}

#[test]
fn the_allowance_is_clamped_near_the_representable_total() {
    let map = GameMap {
        width: 4,
        height: 4,
        territories: vec![
            territory(u32::MAX - 3, vec![1]),
            territory(2, vec![0]),
        ],
        background_color: 0,
        background_index: 1000,
        troops_to_place: 0,
        placement_cache: vec![0, 0],
    };
    let game = Game::new(1, map);
    // The board already carries MAX - 1 troops: only one more fits.
    assert_eq!(game.new_troops(), 1);
}

#[test]
fn new_paints_territories_with_the_owners_colors() {
    let game = Game::new(1, GameMap::new());
    let map = game.get_map();
    assert_eq!(map.color_for(0), 0xAA1111);
    assert_eq!(map.color_for(1), 0x11AA11);
    assert_eq!(map.color_for(2), 0xAA1111);
    assert_eq!(map.color_for(3), 0x11AA11);
    assert_eq!(map.color_for(4), 0xAA1111);
}

#[test]
fn selection_queries_report_the_marked_pair() {
    let mut game = Game::new(1, GameMap::new());
    game.attack_phase();
    assert_eq!(game.selected_territory_index(), None);
    assert_eq!(game.targeted_territory_index(), None);
    assert!(game.map_click_action(0));
    assert_eq!(game.selected_territory_index(), Some(0));
    match game.selected_territory_with_index() {
        Some((i, t)) => {
            assert_eq!(i, 0);
            assert_eq!(t.troops(), 167);
        },
        None => panic!("a territory was selected"),
    }
    // Territory 1 belongs to the other player and neighbors 0.
    assert!(game.map_click_action(1));
    assert_eq!(game.targeted_territory_index(), Some(1));
    match game.targeted_territory_with_index() {
        Some((i, t)) => {
            assert_eq!(i, 1);
            assert_eq!(t.troops(), 289);
        },
        None => panic!("a territory was targeted"),
    }
}

#[test]
fn raw_troop_mutators_edit_one_garrison() {
    let mut game = Game::new(1, GameMap::new());
    game.add_troops(&2, &4);
    let troops: Vec<u32> = game.get_map().troops();
    assert_eq!(troops[2], 7);
    game.sub_troops(&2, &5);
    let troops: Vec<u32> = game.get_map().troops();
    assert_eq!(troops[2], 2);
    // An underflowing removal is rejected as a no-op.
    game.sub_troops(&2, &9);
    let troops: Vec<u32> = game.get_map().troops();
    assert_eq!(troops[2], 2);
    game.set_troops(&2, &11);
    let troops: Vec<u32> = game.get_map().troops();
    assert_eq!(troops[2], 11);
}

#[test]
fn assign_territory_moves_a_claim_between_players() {
    let mut game = Game::new(1, GameMap::new());
    // Territory 0 starts with player 0; hand it to player 1.
    game.assign_territory(0, 1);
    game.update_colors();
    assert_eq!(game.get_map().color_for(0), 0x11AA11);
    // Handing it over again changes nothing.
    game.assign_territory(0, 1);
    game.update_colors();
    assert_eq!(game.get_map().color_for(0), 0x11AA11);
    // Strip player 0 of everything: the game ends.
    game.assign_territory(2, 1);
    game.assign_territory(4, 1);
    assert_eq!(game.active_players(), vec![1]);
    assert!(game.is_over());
}

#[test]
fn on_player_reports_the_roster_entry() {
    let mut game = Game::new(1, GameMap::new());
    assert_eq!(game.on_player().index, 0);
    assert_eq!(game.on_player().color, 0xAA1111);
    game.init_turn();
    assert_eq!(game.on_player().index, 1);
    assert_eq!(game.on_player().color, 0x11AA11);
}

#[test]
fn the_copied_board_matches_the_live_one() {
    let game = Game::new(1, GameMap::new());
    let a = game.get_map();
    let b = game.get_map();
    assert_eq!(a.territory_count(), b.territory_count());
    let ta: Vec<u32> = a.troops();
    let tb: Vec<u32> = b.troops();
    assert_eq!(ta, tb);
    assert_eq!(a.vertices(), b.vertices());
    assert_eq!(a.background_color(), b.background_color());
}
