//! Layout relaxation behavior.

use rusty_map_view::data::load_mapdata;
use rusty_map_view::data::transition::Transition;
use rusty_map_view::data::MapData;
use rusty_map_view::data::RawRoom;
use rusty_map_view::event::apply_event;
use rusty_map_view::event::Event;
use rusty_map_view::layout::rough_factor;
use rusty_map_view::layout::update_room_positions;
use rusty_map_view::state::GameState;
use rusty_map_view::state::LoadedState;
use rusty_map_view::state::SavePayload;

fn raw_room(id: &str, transitions: Vec<(&str, &str)>) -> RawRoom {
    RawRoom {
        id: id.to_string(),
        area: None,
        benches: Vec::new(),
        items: Vec::new(),
        name: None,
        randomizer_area: None,
        split_room: None,
        transitions: transitions
            .into_iter()
            .map(|(name, to)| {
                (
                    name.to_string(),
                    Transition {
                        to: if to.is_empty() { None } else { Some(to.to_string()) },
                        x: 0,
                        y: 0,
                    },
                )
            })
            .collect(),
    }
}

/// Start (the current room, no exits), and rooms A, B joined by an
/// opposite-facing revealed doorway pair.
fn aligned_world() -> (MapData, LoadedState) {
    let start = raw_room("Start", Vec::new());
    let a = raw_room("A", vec![("left1", "B[right1]")]);
    let b = raw_room("B", vec![("right1", "A[left1]")]);
    let map = load_mapdata(Vec::new(), vec![start, a, b]).ok().unwrap();
    let mut gs = GameState::Unloaded;
    let payload = SavePayload {
        start_room: "Start".to_string(),
        placements: Vec::new(),
        visited_transitions: vec![("A[left1]".to_string(), "B[right1]".to_string())],
    };
    apply_event(&mut gs, &map, Event::SaveLoaded(payload));
    let mut st = match gs {
        GameState::Loaded(st) => st,
        GameState::Unloaded => panic!("save did not load"),
    };
    st.observe_room(&map, 0);
    st.observe_room(&map, 1);
    st.observe_room(&map, 2);
    (map, st)
}

fn drag_room_to(st: &mut LoadedState, map: &MapData, room: usize, dx: i64, dy: i64) {
    st.press_select(map, Some(room));
    st.drag_selected(map, dx, dy);
    st.release_drag(map);
    st.press_select(map, None);
    st.release_drag(map);
}

#[test]
fn rough_factor_matches_the_settling_bump() {
    assert_eq!(rough_factor(500), 1_000_000);
    assert_eq!(rough_factor(0), 750_000);
    assert_eq!(rough_factor(700), 960_000);
    assert_eq!(rough_factor(1500), 0);
    assert_eq!(rough_factor(60_000), 0);
}

#[test]
fn current_room_is_pinned_to_origin() {
    let (map, mut st) = aligned_world();
    drag_room_to(&mut st, &map, 0, 40_000, -25_000);
    update_room_positions(&map, &mut st, 10_000);
    assert_eq!(st.rando_data.room_positions[0], Some((0, 0)));
}

#[test]
fn alignment_pulls_rooms_together_exactly() {
    let (map, mut st) = aligned_world();
    drag_room_to(&mut st, &map, 2, 100_000, 0);
    // long after the last room change the rough factor is zero
    update_room_positions(&map, &mut st, 100_000);
    // A is pulled toward B with the forced horizontal strength:
    // 100000 * 0.005 * 2.0 / 1000 scaling = 1000 milli-units
    assert_eq!(st.rando_data.room_positions[1], Some((1000, 0)));
    // B then sees A's fresh position: (1000 - 100000) * 0.005 * 2.0 = -990
    assert_eq!(st.rando_data.room_positions[2], Some((99_010, 0)));
    assert_eq!(st.rando_data.room_positions[0], Some((0, 0)));
}

#[test]
fn dragged_selected_room_does_not_move_in_a_tick() {
    let (map, mut st) = aligned_world();
    drag_room_to(&mut st, &map, 2, 100_000, 0);
    st.press_select(&map, Some(2));
    assert!(st.dragging_room);
    update_room_positions(&map, &mut st, 100_000);
    // the dragged room stays; the free room still moves
    assert_eq!(st.rando_data.room_positions[2], Some((100_000, 0)));
    assert_eq!(st.rando_data.room_positions[1], Some((1000, 0)));
}

#[test]
fn drag_moves_only_by_the_drag_delta() {
    let (map, mut st) = aligned_world();
    st.press_select(&map, Some(2));
    st.drag_selected(&map, 12_345, -6_789);
    assert_eq!(st.rando_data.room_positions[2], Some((12_345, -6_789)));
    st.drag_selected(&map, -345, 6_789);
    assert_eq!(st.rando_data.room_positions[2], Some((12_000, 0)));
}

#[test]
fn positions_stay_within_bounds_over_many_ticks() {
    let (map, mut st) = aligned_world();
    drag_room_to(&mut st, &map, 2, 900_000, 900_000);
    drag_room_to(&mut st, &map, 1, -900_000, -900_000);
    for tick in 0..200u64 {
        update_room_positions(&map, &mut st, tick * 16);
        for p in st.rando_data.room_positions.iter() {
            if let Some((x, y)) = p {
                assert!(-1_000_000 <= *x && *x <= 1_000_000);
                assert!(-1_000_000 <= *y && *y <= 1_000_000);
            }
        }
    }
}

#[test]
fn unobserved_rooms_stay_unplaced() {
    let (map, mut st) = aligned_world();
    // forget B's position again by reloading, then observe only Start and A
    let mut gs = GameState::Loaded(st);
    apply_event(
        &mut gs,
        &map,
        Event::PlayerMovedRoom { room: "Start".to_string(), x: 0, y: 0 },
    );
    st = match gs {
        GameState::Loaded(s) => s,
        GameState::Unloaded => panic!(),
    };
    st.observe_room(&map, 0);
    st.observe_room(&map, 1);
    update_room_positions(&map, &mut st, 100_000);
    assert_eq!(st.rando_data.room_positions[2], None);
    assert_eq!(st.rando_data.room_positions[1], Some((0, 0)));
}

#[test]
fn overlapping_rooms_push_apart() {
    // two unconnected rooms stacked on each other separate once settled
    let start = raw_room("Start", Vec::new());
    let a = raw_room("A", Vec::new());
    let b = raw_room("B", Vec::new());
    let map = load_mapdata(Vec::new(), vec![start, a, b]).ok().unwrap();
    let mut gs = GameState::Unloaded;
    let payload = SavePayload {
        start_room: "Start".to_string(),
        placements: Vec::new(),
        visited_transitions: Vec::new(),
    };
    apply_event(&mut gs, &map, Event::SaveLoaded(payload));
    let mut st = match gs {
        GameState::Loaded(st) => st,
        GameState::Unloaded => panic!(),
    };
    st.observe_room(&map, 1);
    st.observe_room(&map, 2);
    drag_room_to(&mut st, &map, 1, 30_000, 0);
    drag_room_to(&mut st, &map, 2, 36_000, 0);
    let before = (st.rando_data.room_positions[2].unwrap().0
        - st.rando_data.room_positions[1].unwrap().0)
        .abs();
    for _ in 0..50 {
        update_room_positions(&map, &mut st, 100_000);
    }
    let after = (st.rando_data.room_positions[2].unwrap().0
        - st.rando_data.room_positions[1].unwrap().0)
        .abs();
    assert!(after > before);
}
