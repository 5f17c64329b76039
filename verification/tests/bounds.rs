//! Bounding rectangle behavior.

use rusty_map_view::data::item::Item;
use rusty_map_view::data::load_mapdata;
use rusty_map_view::data::transition::Transition;
use rusty_map_view::data::RawRoom;

fn raw_room(
    id: &str,
    benches: Vec<(i64, i64)>,
    items: Vec<(String, Item)>,
    transitions: Vec<(String, Transition)>,
) -> RawRoom {
    RawRoom {
        id: id.to_string(),
        area: None,
        benches,
        items,
        name: None,
        randomizer_area: None,
        split_room: None,
        transitions,
    }
}

fn single_room_bounds(room: RawRoom) -> rusty_map_view::geom::Rect {
    let map = load_mapdata(Vec::new(), vec![room]).ok().unwrap();
    map.rooms[0].calc_bounds()
}

#[test]
fn empty_room_gets_canonical_rect() {
    let b = single_room_bounds(raw_room("Empty", Vec::new(), Vec::new(), Vec::new()));
    assert_eq!((b.x, b.y, b.w, b.h), (-10000, -10000, 20000, 20000));
}

#[test]
fn single_item_centers_min_rect_on_inverted_y() {
    // an item at local (5, 5): exactly 20x20 centered on (5, -5)
    let item = Item { x: 5000, y: 5000, rand_pool: String::new() };
    let b = single_room_bounds(raw_room(
        "OneItem",
        Vec::new(),
        vec![("shiny".to_string(), item)],
        Vec::new(),
    ));
    assert_eq!((b.x, b.y, b.w, b.h), (-5000, -15000, 20000, 20000));
}

#[test]
fn single_bench_expands_like_an_item() {
    let b = single_room_bounds(raw_room("OneBench", vec![(0, 0)], Vec::new(), Vec::new()));
    assert_eq!((b.x, b.y, b.w, b.h), (-10000, -10000, 20000, 20000));
}

#[test]
fn wide_rooms_keep_their_extent() {
    let t1 = ("left1".to_string(), Transition { to: None, x: -40000, y: 0 });
    let t2 = ("right1".to_string(), Transition { to: None, x: 40000, y: 0 });
    let b = single_room_bounds(raw_room("Wide", Vec::new(), Vec::new(), vec![t1, t2]));
    // x spans the transitions; y is a degenerate point expanded to 20 units
    assert_eq!((b.x, b.w), (-40000, 80000));
    assert_eq!((b.y, b.h), (-10000, 20000));
}

#[test]
fn minimum_size_holds_for_various_rooms() {
    let rooms = vec![
        raw_room("R0", Vec::new(), Vec::new(), Vec::new()),
        raw_room("R1", vec![(7000, -3000)], Vec::new(), Vec::new()),
        raw_room(
            "R2",
            vec![(0, 0), (100000, 2000)],
            vec![("i".to_string(), Item { x: -50000, y: 60000, rand_pool: String::new() })],
            vec![("door1".to_string(), Transition { to: None, x: 3000, y: 4000 })],
        ),
    ];
    let map = load_mapdata(Vec::new(), rooms).ok().unwrap();
    for room in &map.rooms {
        let b = room.calc_bounds();
        assert!(b.w >= 20000);
        assert!(b.h >= 20000);
    }
}

#[test]
fn transitions_contribute_points_with_inverted_y() {
    let t = ("top1".to_string(), Transition { to: None, x: 0, y: 30000 });
    let b = single_room_bounds(raw_room("T", Vec::new(), Vec::new(), vec![t]));
    // stored y 30 inverts to -30; the single point expands to 20x20 around it
    assert_eq!((b.x, b.y, b.w, b.h), (-10000, -40000, 20000, 20000));
}
