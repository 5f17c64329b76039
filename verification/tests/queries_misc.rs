//! Hit-testing, render sets, ids, the camera, and small utilities.

use rusty_map_view::data::load_mapdata;
use rusty_map_view::data::transition::DoorClass;
use rusty_map_view::data::transition::Transition;
use rusty_map_view::data::transition::door_class_of;
use rusty_map_view::data::MapData;
use rusty_map_view::data::RawRoom;
use rusty_map_view::event::apply_event;
use rusty_map_view::event::Event;
use rusty_map_view::kv::StrMap;
use rusty_map_view::kv::StrSet;
use rusty_map_view::query::get_room_at_window_position;
use rusty_map_view::query::render_rooms;
use rusty_map_view::settings::Settings;
use rusty_map_view::state::CameraTarget;
use rusty_map_view::state::GameState;
use rusty_map_view::state::LoadedState;
use rusty_map_view::state::SavePayload;
use rusty_map_view::util::split::GetSplit;

fn raw_room(id: &str, transitions: Vec<(&str, &str)>) -> RawRoom {
    RawRoom {
        id: id.to_string(),
        area: None,
        benches: Vec::new(),
        items: Vec::new(),
        name: None,
        randomizer_area: None,
        split_room: None,
        transitions: transitions
            .into_iter()
            .map(|(name, to)| {
                (
                    name.to_string(),
                    Transition {
                        to: if to.is_empty() { None } else { Some(to.to_string()) },
                        x: 0,
                        y: 0,
                    },
                )
            })
            .collect(),
    }
}

fn world() -> (MapData, LoadedState) {
    let a = raw_room("A", vec![("left1", "B[right1]")]);
    let b = raw_room("B", vec![("right1", "A[left1]")]);
    let c = raw_room("C", Vec::new());
    let map = load_mapdata(Vec::new(), vec![a, b, c]).ok().unwrap();
    let mut gs = GameState::Unloaded;
    let payload = SavePayload {
        start_room: "A".to_string(),
        placements: Vec::new(),
        visited_transitions: vec![("A[left1]".to_string(), "B[right1]".to_string())],
    };
    apply_event(&mut gs, &map, Event::SaveLoaded(payload));
    match gs {
        GameState::Loaded(st) => (map, st),
        GameState::Unloaded => panic!("save did not load"),
    }
}

#[test]
fn transition_info_splits_qualified_ids() {
    let (room, name) = Transition::get_transition_info("R1[door1]").unwrap();
    assert_eq!(room.as_str(), "R1");
    assert_eq!(name.as_str(), "door1");
    assert!(Transition::get_transition_info("R2").is_none());
    // split at the first bracket; only trailing brackets are trimmed
    let (room, name) = Transition::get_transition_info("A[b[c]]").unwrap();
    assert_eq!(room.as_str(), "A");
    assert_eq!(name.as_str(), "b[c");
}

#[test]
fn door_classes_follow_name_prefixes() {
    assert_eq!(door_class_of("right2"), DoorClass::Rightward);
    assert_eq!(door_class_of("left1"), DoorClass::Leftward);
    assert_eq!(door_class_of("top3"), DoorClass::Upward);
    assert_eq!(door_class_of("bot1"), DoorClass::Downward);
    assert_eq!(door_class_of("bottom1"), DoorClass::Downward);
    assert_eq!(door_class_of("door1"), DoorClass::Doorway);
    assert_eq!(door_class_of("room4"), DoorClass::Doorway);
    assert_eq!(door_class_of("secret"), DoorClass::Other);
}

#[test]
fn hit_test_finds_the_room_under_the_pointer() {
    let (map, mut st) = world();
    st.observe_room(&map, 0);
    // window 800x600 units, camera at the origin: room A sits centered
    let w = 800_000;
    let h = 600_000;
    assert_eq!(get_room_at_window_position(&map, &st, w, h, 400_000, 320_000), Some(0));
    assert_eq!(get_room_at_window_position(&map, &st, w, h, 500_000, 320_000), None);
}

#[test]
fn hit_test_ignores_rooms_without_positions() {
    let (map, st) = world();
    assert_eq!(
        get_room_at_window_position(&map, &st, 800_000, 600_000, 400_000, 320_000),
        None,
    );
}

#[test]
fn render_set_grows_with_depth() {
    let (map, st) = world();
    let d0 = render_rooms(&map, &st, 0);
    assert_eq!(d0, vec![true, false, false]);
    let d1 = render_rooms(&map, &st, 1);
    assert_eq!(d1, vec![true, true, false]);
    let d2 = render_rooms(&map, &st, 2);
    assert_eq!(d2, vec![true, true, false]);
}

#[test]
fn render_set_is_empty_for_an_unknown_room() {
    let (map, mut st) = world();
    st.current_room = "Nowhere".to_string();
    let d1 = render_rooms(&map, &st, 3);
    assert_eq!(d1, vec![false, false, false]);
}

#[test]
fn camera_eases_toward_a_point_target() {
    let (map, mut st) = world();
    st.camera.target = CameraTarget::Point { x: 800, y: -1600 };
    st.update(&map);
    assert_eq!((st.camera.x, st.camera.y), (100, -200));
    st.update(&map);
    assert_eq!((st.camera.x, st.camera.y), (187, -375));
}

#[test]
fn camera_retargets_when_a_followed_room_is_unplaced() {
    let (map, mut st) = world();
    st.camera.target = CameraTarget::Room("B".to_string());
    st.update(&map);
    assert!(matches!(st.camera.target, CameraTarget::PlayerRoom));
}

#[test]
fn path_source_prefers_the_selection() {
    let (map, mut st) = world();
    assert_eq!(st.path_source(&map).as_str(), "A");
    st.press_select(&map, Some(2));
    assert_eq!(st.path_source(&map).as_str(), "C");
}

#[test]
fn default_settings_match_the_shipped_view() {
    let s = Settings::default();
    assert_eq!(s.depth, 2);
    assert!(s.draw_room_names);
    assert!(!s.debug_show_room_origins);
}

#[test]
fn split_gives_the_element_and_skips_it_among_others() {
    let v: Vec<i64> = vec![10, 20, 30];
    let w = v.split(1).unwrap();
    assert_eq!(*w.inner(), 20);
    assert_eq!(w.other(0).copied(), Some(10));
    assert_eq!(w.other(1), None);
    assert_eq!(w.other(2).copied(), Some(30));
    assert_eq!(w.other(3), None);
    assert!(v.split(5).is_none());
}

#[test]
fn str_map_overrides_and_misses() {
    let mut m = StrMap::new();
    m.insert("a".to_string(), "1".to_string());
    m.insert("b".to_string(), "2".to_string());
    m.insert("a".to_string(), "3".to_string());
    assert_eq!(m.get(&"a".to_string()).unwrap().as_str(), "3");
    assert_eq!(m.get(&"b".to_string()).unwrap().as_str(), "2");
    assert!(m.get(&"c".to_string()).is_none());
}

#[test]
fn str_set_deduplicates() {
    let mut s = StrSet::new();
    s.insert("x".to_string());
    s.insert("x".to_string());
    s.insert("y".to_string());
    assert!(s.contains(&"x".to_string()));
    assert!(s.contains(&"y".to_string()));
    assert!(!s.contains(&"z".to_string()));
}
