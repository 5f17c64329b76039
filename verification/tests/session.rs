//! Session construction, the transition map, and live events.

use rusty_map_view::data::load_mapdata;
use rusty_map_view::data::transition::Transition;
use rusty_map_view::data::MapData;
use rusty_map_view::data::RawRoom;
use rusty_map_view::data::StaticDataError;
use rusty_map_view::event::apply_event;
use rusty_map_view::event::Event;
use rusty_map_view::state::build_rando_data;
use rusty_map_view::state::GameState;
use rusty_map_view::state::SavePayload;

fn raw_room(id: &str, transitions: Vec<(String, Transition)>) -> RawRoom {
    RawRoom {
        id: id.to_string(),
        area: None,
        benches: Vec::new(),
        items: Vec::new(),
        name: None,
        randomizer_area: None,
        split_room: None,
        transitions: transitions,
    }
}

fn vanilla_map() -> MapData {
    let r1 = raw_room(
        "R1",
        vec![("door1".to_string(), Transition { to: Some("R2".to_string()), x: 0, y: 0 })],
    );
    let r2 = raw_room("R2", Vec::new());
    let r3 = raw_room(
        "R3",
        vec![("door2".to_string(), Transition { to: None, x: 0, y: 0 })],
    );
    load_mapdata(Vec::new(), vec![r1, r2, r3]).ok().unwrap()
}

#[test]
fn placement_overrides_vanilla_destination() {
    let map = vanilla_map();
    let placements = vec![("R1[door1]".to_string(), "R3[door2]".to_string())];
    let rd = build_rando_data(&map, &placements, &Vec::new());
    let resolved = rd.transition_map.get(&"R1[door1]".to_string()).unwrap();
    assert_eq!(resolved.as_str(), "R3[door2]");
    assert_ne!(resolved.as_str(), "R2");
}

#[test]
fn vanilla_destination_stands_without_placement() {
    let map = vanilla_map();
    let rd = build_rando_data(&map, &Vec::new(), &Vec::new());
    let resolved = rd.transition_map.get(&"R1[door1]".to_string()).unwrap();
    assert_eq!(resolved.as_str(), "R2");
    assert!(rd.transition_map.get(&"R3[door2]".to_string()).is_none());
}

#[test]
fn later_placement_wins_over_earlier() {
    let map = vanilla_map();
    let placements = vec![
        ("R1[door1]".to_string(), "R3[door2]".to_string()),
        ("R1[door1]".to_string(), "R2[left1]".to_string()),
    ];
    let rd = build_rando_data(&map, &placements, &Vec::new());
    let resolved = rd.transition_map.get(&"R1[door1]".to_string()).unwrap();
    assert_eq!(resolved.as_str(), "R2[left1]");
}

#[test]
fn visited_pairs_insert_both_endpoints() {
    let map = vanilla_map();
    let visited = vec![("R1[door1]".to_string(), "R3[door2]".to_string())];
    let rd = build_rando_data(&map, &Vec::new(), &visited);
    assert!(rd.visited_transitions.contains(&"R1[door1]".to_string()));
    assert!(rd.visited_transitions.contains(&"R3[door2]".to_string()));
    assert!(!rd.visited_transitions.contains(&"R2".to_string()));
}

fn loaded(map: &MapData) -> GameState {
    let mut gs = GameState::Unloaded;
    let payload = SavePayload {
        start_room: "R1".to_string(),
        placements: Vec::new(),
        visited_transitions: Vec::new(),
    };
    apply_event(&mut gs, map, Event::SaveLoaded(payload));
    gs
}

#[test]
fn save_loaded_builds_fresh_state() {
    let map = vanilla_map();
    let gs = loaded(&map);
    match gs {
        GameState::Loaded(st) => {
            assert_eq!(st.current_room.as_str(), "R1");
            assert_eq!(st.player_x, 0);
            assert_eq!(st.player_y, 0);
            assert!(!st.dragging_room);
            assert!(st.selected_room.is_none());
            assert_eq!(st.rando_data.room_positions.len(), 3);
            assert!(st.rando_data.room_positions.iter().all(|p| p.is_none()));
        },
        GameState::Unloaded => panic!("save did not load"),
    }
}

#[test]
fn save_unloaded_clears_state() {
    let map = vanilla_map();
    let mut gs = loaded(&map);
    apply_event(&mut gs, &map, Event::SaveUnloaded);
    assert!(matches!(gs, GameState::Unloaded));
}

#[test]
fn reveal_inserts_both_endpoints_through_the_map() {
    let map = vanilla_map();
    let mut gs = loaded(&map);
    apply_event(
        &mut gs,
        &map,
        Event::TransitionRevealed { id: "R1[door1]".to_string(), paired: None },
    );
    match gs {
        GameState::Loaded(st) => {
            assert!(st.rando_data.visited_transitions.contains(&"R1[door1]".to_string()));
            // the vanilla mapping names R2, so it is revealed alongside
            assert!(st.rando_data.visited_transitions.contains(&"R2".to_string()));
        },
        GameState::Unloaded => panic!("state lost"),
    }
}

#[test]
fn reveal_with_explicit_pair_uses_the_pair() {
    let map = vanilla_map();
    let mut gs = loaded(&map);
    apply_event(
        &mut gs,
        &map,
        Event::TransitionRevealed {
            id: "R3[door2]".to_string(),
            paired: Some("R1[door1]".to_string()),
        },
    );
    match gs {
        GameState::Loaded(st) => {
            assert!(st.rando_data.visited_transitions.contains(&"R3[door2]".to_string()));
            assert!(st.rando_data.visited_transitions.contains(&"R1[door1]".to_string()));
        },
        GameState::Unloaded => panic!("state lost"),
    }
}

#[test]
fn player_move_clears_positions_and_changes_room() {
    let map = vanilla_map();
    let mut gs = loaded(&map);
    match &mut gs {
        GameState::Loaded(st) => {
            st.observe_room(&map, 0);
            st.observe_room(&map, 1);
        },
        GameState::Unloaded => panic!(),
    }
    let changed = apply_event(
        &mut gs,
        &map,
        Event::PlayerMovedRoom { room: "R2".to_string(), x: 1500, y: -2500 },
    );
    assert!(changed);
    match gs {
        GameState::Loaded(st) => {
            assert_eq!(st.current_room.as_str(), "R2");
            assert_eq!(st.player_x, 1500);
            assert_eq!(st.player_y, -2500);
            assert!(st.rando_data.room_positions.iter().all(|p| p.is_none()));
        },
        GameState::Unloaded => panic!("state lost"),
    }
}

#[test]
fn player_position_updates_are_clamped() {
    let map = vanilla_map();
    let mut gs = loaded(&map);
    apply_event(&mut gs, &map, Event::PlayerPositionUpdate { x: i64::MAX, y: i64::MIN });
    match gs {
        GameState::Loaded(st) => {
            assert_eq!(st.player_x, 1_000_000_000);
            assert_eq!(st.player_y, -1_000_000_000);
        },
        GameState::Unloaded => panic!("state lost"),
    }
}

#[test]
fn item_collected_changes_nothing() {
    let map = vanilla_map();
    let mut gs = loaded(&map);
    apply_event(
        &mut gs,
        &map,
        Event::ItemCollected { item: "charm".to_string(), location: "R1".to_string() },
    );
    match gs {
        GameState::Loaded(st) => assert_eq!(st.current_room.as_str(), "R1"),
        GameState::Unloaded => panic!("state lost"),
    }
}

#[test]
fn duplicate_room_ids_are_rejected() {
    let rooms = vec![raw_room("Twice", Vec::new()), raw_room("Twice", Vec::new())];
    match load_mapdata(Vec::new(), rooms) {
        Err(StaticDataError::DuplicateRoomId(id)) => assert_eq!(id.as_str(), "Twice"),
        _ => panic!("duplicate id accepted"),
    }
}

#[test]
fn duplicate_transition_names_are_rejected() {
    let rooms = vec![raw_room(
        "R",
        vec![
            ("door1".to_string(), Transition { to: None, x: 0, y: 0 }),
            ("door1".to_string(), Transition { to: None, x: 5, y: 5 }),
        ],
    )];
    match load_mapdata(Vec::new(), rooms) {
        Err(StaticDataError::DuplicateTransitionName(id)) => assert_eq!(id.as_str(), "R"),
        _ => panic!("duplicate transition name accepted"),
    }
}

#[test]
fn out_of_range_coordinates_are_rejected() {
    let rooms = vec![raw_room(
        "Far",
        vec![("door1".to_string(), Transition { to: None, x: 2_000_000_000, y: 0 })],
    )];
    match load_mapdata(Vec::new(), rooms) {
        Err(StaticDataError::CoordinateOutOfRange(id)) => assert_eq!(id.as_str(), "Far"),
        _ => panic!("out-of-range coordinate accepted"),
    }
}
