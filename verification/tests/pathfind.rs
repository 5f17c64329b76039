//! Shortest-path behavior over the revealed subgraph.

use rusty_map_view::data::load_mapdata;
use rusty_map_view::data::transition::Transition;
use rusty_map_view::data::MapData;
use rusty_map_view::data::RawRoom;
use rusty_map_view::event::apply_event;
use rusty_map_view::event::Event;
use rusty_map_view::path::find_path;
use rusty_map_view::state::GameState;
use rusty_map_view::state::SavePayload;

fn raw_room(id: &str, transitions: Vec<(&str, &str)>) -> RawRoom {
    RawRoom {
        id: id.to_string(),
        area: None,
        benches: Vec::new(),
        items: Vec::new(),
        name: None,
        randomizer_area: None,
        split_room: None,
        transitions: transitions
            .into_iter()
            .map(|(name, to)| {
                (
                    name.to_string(),
                    Transition {
                        to: if to.is_empty() { None } else { Some(to.to_string()) },
                        x: 0,
                        y: 0,
                    },
                )
            })
            .collect(),
    }
}

/// A -> B -> C chain plus an island D; all chain transitions revealed.
fn chain_map() -> MapData {
    let a = raw_room("A", vec![("left1", "B[right1]")]);
    let b = raw_room("B", vec![("right1", "A[left1]"), ("left1", "C[right1]")]);
    let c = raw_room("C", vec![("right1", "B[left1]")]);
    let d = raw_room("D", vec![("door1", "A[left1]")]);
    load_mapdata(Vec::new(), vec![a, b, c, d]).ok().unwrap()
}

fn loaded_with_revealed(map: &MapData, revealed: Vec<(&str, &str)>) -> GameState {
    let mut gs = GameState::Unloaded;
    let payload = SavePayload {
        start_room: "A".to_string(),
        placements: Vec::new(),
        visited_transitions: revealed
            .into_iter()
            .map(|(a, b)| (a.to_string(), b.to_string()))
            .collect(),
    };
    apply_event(&mut gs, map, Event::SaveLoaded(payload));
    gs
}

#[test]
fn two_hop_chain_gives_length_two() {
    let map = chain_map();
    let gs = loaded_with_revealed(
        &map,
        vec![("A[left1]", "B[right1]"), ("B[left1]", "C[right1]")],
    );
    let p = find_path(&map, &gs, &"A".to_string(), &"C".to_string()).unwrap();
    assert_eq!(p.len(), 2);
    assert_eq!(p[0].as_str(), "A[left1]");
    assert_eq!(p[1].as_str(), "B[left1]");
}

#[test]
fn path_to_self_is_empty() {
    let map = chain_map();
    let gs = loaded_with_revealed(&map, vec![("A[left1]", "B[right1]")]);
    let p = find_path(&map, &gs, &"A".to_string(), &"A".to_string()).unwrap();
    assert!(p.is_empty());
}

#[test]
fn unreachable_destination_gives_no_path() {
    let map = chain_map();
    let gs = loaded_with_revealed(
        &map,
        vec![("A[left1]", "B[right1]"), ("B[left1]", "C[right1]")],
    );
    // nothing revealed leads into the island
    assert!(find_path(&map, &gs, &"A".to_string(), &"D".to_string()).is_none());
}

#[test]
fn unrevealed_edges_are_not_used() {
    let map = chain_map();
    // only the A-B pair is revealed: C stays unreachable
    let gs = loaded_with_revealed(&map, vec![("A[left1]", "B[right1]")]);
    assert!(find_path(&map, &gs, &"A".to_string(), &"C".to_string()).is_none());
    assert!(find_path(&map, &gs, &"A".to_string(), &"B".to_string()).is_some());
}

#[test]
fn no_session_means_no_path() {
    let map = chain_map();
    let gs = GameState::Unloaded;
    assert!(find_path(&map, &gs, &"A".to_string(), &"B".to_string()).is_none());
}

#[test]
fn unknown_rooms_give_no_path() {
    let map = chain_map();
    let gs = loaded_with_revealed(&map, vec![("A[left1]", "B[right1]")]);
    assert!(find_path(&map, &gs, &"Nowhere".to_string(), &"B".to_string()).is_none());
    assert!(find_path(&map, &gs, &"A".to_string(), &"Nowhere".to_string()).is_none());
}

#[test]
fn paths_follow_randomized_placements() {
    let map = chain_map();
    let mut gs = GameState::Unloaded;
    // the randomizer reroutes A[left1] straight to C
    let payload = SavePayload {
        start_room: "A".to_string(),
        placements: vec![("A[left1]".to_string(), "C[right1]".to_string())],
        visited_transitions: vec![("A[left1]".to_string(), "C[right1]".to_string())],
    };
    apply_event(&mut gs, &map, Event::SaveLoaded(payload));
    let p = find_path(&map, &gs, &"A".to_string(), &"C".to_string()).unwrap();
    assert_eq!(p.len(), 1);
    assert_eq!(p[0].as_str(), "A[left1]");
}

#[test]
fn shorter_of_two_routes_wins() {
    // a diamond: A -> B -> D in two hops, A -> C1 -> C2 -> D in three
    let a = raw_room("A", vec![("left1", "B[right1]"), ("top1", "C1[bot1]")]);
    let b = raw_room("B", vec![("right1", "A[left1]"), ("left1", "D[right1]")]);
    let c1 = raw_room("C1", vec![("bot1", "A[top1]"), ("top1", "C2[bot1]")]);
    let c2 = raw_room("C2", vec![("bot1", "C1[top1]"), ("top1", "D[bot1]")]);
    let d = raw_room("D", vec![("right1", "B[left1]"), ("bot1", "C2[top1]")]);
    let map = load_mapdata(Vec::new(), vec![a, b, c1, c2, d]).ok().unwrap();
    let mut gs = GameState::Unloaded;
    let payload = SavePayload {
        start_room: "A".to_string(),
        placements: Vec::new(),
        visited_transitions: vec![
            ("A[left1]".to_string(), "B[right1]".to_string()),
            ("B[left1]".to_string(), "D[right1]".to_string()),
            ("A[top1]".to_string(), "C1[bot1]".to_string()),
            ("C1[top1]".to_string(), "C2[bot1]".to_string()),
            ("C2[top1]".to_string(), "D[bot1]".to_string()),
        ],
    };
    apply_event(&mut gs, &map, Event::SaveLoaded(payload));
    let p = find_path(&map, &gs, &"A".to_string(), &"D".to_string()).unwrap();
    assert_eq!(p.len(), 2);
    assert_eq!(p[0].as_str(), "A[left1]");
    assert_eq!(p[1].as_str(), "B[left1]");
}
