use risk_core::map::territory::{Territory, TerritoryState};
use risk_core::map::GameMap;
use risk_core::player::Player;

fn territory(troops: u32, neighbors: Vec<u32>) -> Territory {
    Territory {
        vertices: vec![7, 8, 9],
        center: 8,
        color: 3,
        troops,
        state: TerritoryState::Dormant,
        neighbors,
    }
}

#[test]
fn built_map_holds_the_authored_board() {
    let map = GameMap::new();
    assert_eq!(map.territory_count(), 5);
    assert_eq!(map.width(), 16);
    assert_eq!(map.height(), 16);
    assert_eq!(map.background_color(), 0);
    let troops: Vec<u32> = map.troops();
    assert_eq!(troops, vec![167, 289, 3, 4, 5]);
    assert_eq!(map.vertices_for(0), vec![17, 23, 39, 85, 66, 17]);
    let centers: Vec<u32> = map.centers();
    assert_eq!(centers, vec![52, 75, 104, 148, 156]);
    assert_eq!(map.color_for(2), 0x00FFCC);
}

#[test]
fn vertices_lays_the_outlines_end_to_end() {
    let map = GameMap {
        width: 2,
        height: 2,
        territories: vec![territory(1, vec![1]), territory(1, vec![0])],
        background_color: 0,
        background_index: 99,
        troops_to_place: 0,
        placement_cache: vec![0, 0],
    };
    assert_eq!(map.vertices(), vec![7, 8, 9, 7, 8, 9]);
}

#[test]
fn color_picking_round_trips_through_the_ramp() {
    let map = GameMap::new();
    assert_eq!(map.bg_color_for(2), 3);
    assert_eq!(map.territory_with_color(3), 2);
    assert_eq!(map.territory_with_color(0), 16777215);
    assert_eq!(map.territory_with_color(6), 16777215);
}

#[test]
fn ramp_matching_follows_the_base_blue() {
    // Base blue below 128: the ramp ascends.
    assert!(GameMap::match_color_with_index(&3, 100, 103));
    assert!(!GameMap::match_color_with_index(&3, 100, 97));
    // Base blue above 128: the ramp descends.
    assert!(GameMap::match_color_with_index(&3, 200, 197));
    // Base blue exactly 128: the ramp is flat.
    assert!(GameMap::match_color_with_index(&5, 128, 128));
}

#[test]
fn select_as_source_toggles() {
    let mut map = GameMap::new();
    assert!(map.select_as_source(1));
    assert!(map.is_selected(1));
    // Another territory cannot take the selection while 1 holds it.
    assert!(!map.select_as_source(2));
    assert!(!map.is_selected(2));
    // Selecting the holder again releases it.
    assert!(map.select_as_source(1));
    assert!(!map.is_highlighted(1));
    assert_eq!(map.find_selected_index(), None);
}

#[test]
fn movement_arrow_runs_from_selected_to_targeted() {
    let mut map = GameMap::new();
    assert!(!map.movement_eminent());
    assert!(map.select_as_source(0));
    map.unselect(0);
    assert!(map.select_as_source(3));
    assert_eq!(map.find_selected_index(), Some(3));
    assert!(!map.movement_eminent());
    map.territories[4].state = TerritoryState::Targeted;
    assert!(map.movement_eminent());
    assert_eq!(map.get_movement_arrow_start(), 148);
    assert_eq!(map.get_movement_arrow_end(), 156);
    assert!(map.is_targeted(4));
}

#[test]
fn can_attack_reads_the_adjacency() {
    let map = GameMap::new();
    assert!(map.can_attack(0, 3));
    let map = GameMap::new();
    assert!(!map.can_attack(3, 4));
}

#[test]
fn ledger_methods_stage_and_commit_raw_counts() {
    let mut map = GameMap::new();
    assert_eq!(map.cache_troop_placement(2, 2), 2);
    assert_eq!(map.troop_placement_cache(&2, 3), 5);
    assert!(map.is_selected(2));
    map.commit_troop_placement();
    // The raw board-level commit adds the staged amount to the garrison and
    // clears the marker.
    assert!(!map.is_highlighted(2));
    let troops: Vec<u32> = map.troops();
    assert_eq!(troops, vec![167, 289, 8, 4, 5]);
}

#[test]
fn territory_troop_arithmetic_is_guarded() {
    let mut t = territory(5, vec![]);
    t.add_troops(3);
    assert_eq!(t.troops(), 8);
    t.sub_troops(6);
    assert_eq!(t.troops(), 2);
    // An underflowing removal is rejected as a no-op.
    t.sub_troops(3);
    assert_eq!(t.troops(), 2);
    t.set_troops(9);
    assert_eq!(t.troops(), 9);
    assert_eq!(t.vertices(), &vec![7, 8, 9]);
}

#[test]
fn territory_markers_report_their_state() {
    let mut t = territory(1, vec![]);
    assert!(!t.is_selected());
    assert!(!t.is_targeted());
    assert!(!t.is_highlighted());
    t.state = TerritoryState::Selected;
    assert!(t.is_selected());
    assert!(t.is_highlighted());
    t.state = TerritoryState::Targeted;
    assert!(t.is_targeted());
    assert!(t.is_highlighted());
}

#[test]
fn player_elimination_follows_the_list() {
    let mut p = Player { index: 0, color: 1, territories: vec![] };
    assert!(p.is_eliminated());
    p.capture_territory(4);
    assert!(!p.is_eliminated());
}

#[test]
fn set_all_territory_colors_paints_by_owner() {
    let mut map = GameMap::new();
    let players = vec![
        Player { index: 0, color: 0xAA1111, territories: vec![0, 2, 4] },
        Player { index: 1, color: 0x11AA11, territories: vec![1, 3] },
    ];
    map.set_all_territory_colors(&players);
    assert_eq!(map.color_for(0), 0xAA1111);
    assert_eq!(map.color_for(1), 0x11AA11);
    assert_eq!(map.color_for(2), 0xAA1111);
    assert_eq!(map.color_for(3), 0x11AA11);
    assert_eq!(map.color_for(4), 0xAA1111);
}
