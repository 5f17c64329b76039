//! The live session events and how each one changes the game state.
//!
//! The transport worker decodes its wire messages into this closed variant
//! type; applying an event is total and either fully updates the state or
//! leaves it untouched.

use vstd::prelude::*;
use vstd::pervasive::VecAdditionalExecFns;

use crate::data::MapData;
use crate::data::COORD_LIMIT;
use crate::fixed::clamp_i64;
use crate::fixed::spec_clamp;
use crate::state::load_loaded_state;
use crate::state::spec_transition_map;
use crate::state::spec_visited;
use crate::state::GameState;
use crate::state::SavePayload;

verus! {

/// One live session event, fully typed.
pub enum Event {
    /// A save was loaded: rebuild the whole session state.
    SaveLoaded(SavePayload),
    /// The save was unloaded: clear the session state.
    SaveUnloaded,
    /// The player entered another room at a local position.
    PlayerMovedRoom { room: String, x: i64, y: i64 },
    /// The player moved within the current room.
    PlayerPositionUpdate { x: i64, y: i64 },
    /// A transition was revealed; the paired endpoint may accompany it,
    /// otherwise the resolved destination (if mapped) is revealed with it.
    TransitionRevealed { id: String, paired: Option<String> },
    /// An item was collected; display-only, no session state changes.
    ItemCollected { item: String, location: String },
}

/// The visited set after revealing `id`: the id itself, its explicit pair
/// when one came along, else its mapped destination when there is one.
pub open spec fn spec_reveal(
    visited: Set<Seq<char>>,
    tmap: Map<Seq<char>, Seq<char>>,
    id: Seq<char>,
    paired: Option<String>,
) -> Set<Seq<char>> {
    match paired {
        Some(p) => visited.insert(id).insert(p@),
        None => if tmap.contains_key(id) {
            visited.insert(id).insert(tmap[id])
        } else {
            visited.insert(id)
        },
    }
}

/// Applies one session event.  Returns whether the player changed rooms,
/// which restarts the layout's settling window.
#[verifier::loop_isolation(false)]
pub fn apply_event(gs: &mut GameState, map: &MapData, ev: Event) -> (room_changed: bool)
    requires
        map.wf(),
        old(gs).wf(*map),
    ensures
        final(gs).wf(*map),
        room_changed == (ev is PlayerMovedRoom && *old(gs) is Loaded),
        match ev {
            Event::SaveLoaded(p) => *final(gs) matches GameState::Loaded(st) && {
                &&& st.current_room == p.start_room
                &&& st.player_x == 0 && st.player_y == 0
                &&& st.rando_data.transition_map@ == spec_transition_map(*map, p.placements@)
                &&& st.rando_data.visited_transitions@ == spec_visited(p.visited_transitions@)
                &&& forall|i: int|
                    0 <= i < map.rooms@.len() ==> st.rando_data.room_positions@[i] is None
                &&& st.selected_room is None && !st.dragging_room
            },
            Event::SaveUnloaded => *final(gs) is Unloaded,
            Event::PlayerMovedRoom { room, x, y } => match *old(gs) {
                GameState::Loaded(st0) => *final(gs) matches GameState::Loaded(st) && {
                    &&& st.current_room == room
                    &&& st.player_x == spec_clamp(x as int, -COORD_LIMIT as int, COORD_LIMIT as int)
                    &&& st.player_y == spec_clamp(y as int, -COORD_LIMIT as int, COORD_LIMIT as int)
                    &&& st.rando_data.room_positions@.len()
                        == st0.rando_data.room_positions@.len()
                    &&& forall|i: int|
                        0 <= i < st.rando_data.room_positions@.len()
                            ==> st.rando_data.room_positions@[i] is None
                    &&& st.rando_data.transition_map == st0.rando_data.transition_map
                    &&& st.rando_data.visited_transitions == st0.rando_data.visited_transitions
                    &&& st.camera == st0.camera
                    &&& st.hovered_room == st0.hovered_room
                    &&& st.selected_room == st0.selected_room
                    &&& st.dragging_room == st0.dragging_room
                },
                GameState::Unloaded => *final(gs) is Unloaded,
            },
            Event::PlayerPositionUpdate { x, y } => match *old(gs) {
                GameState::Loaded(st0) => *final(gs) matches GameState::Loaded(st) && {
                    &&& st.player_x == spec_clamp(x as int, -COORD_LIMIT as int, COORD_LIMIT as int)
                    &&& st.player_y == spec_clamp(y as int, -COORD_LIMIT as int, COORD_LIMIT as int)
                    &&& st.current_room == st0.current_room
                    &&& st.rando_data == st0.rando_data
                    &&& st.camera == st0.camera
                    &&& st.hovered_room == st0.hovered_room
                    &&& st.selected_room == st0.selected_room
                    &&& st.dragging_room == st0.dragging_room
                },
                GameState::Unloaded => *final(gs) is Unloaded,
            },
            Event::TransitionRevealed { id, paired } => match *old(gs) {
                GameState::Loaded(st0) => *final(gs) matches GameState::Loaded(st) && {
                    &&& st.rando_data.visited_transitions@ == spec_reveal(
                        st0.rando_data.visited_transitions@,
                        st0.rando_data.transition_map@,
                        id@,
                        paired,
                    )
                    &&& st.rando_data.transition_map == st0.rando_data.transition_map
                    &&& st.rando_data.room_positions == st0.rando_data.room_positions
                    &&& st.current_room == st0.current_room
                    &&& st.player_x == st0.player_x && st.player_y == st0.player_y
                    &&& st.camera == st0.camera
                    &&& st.hovered_room == st0.hovered_room
                    &&& st.selected_room == st0.selected_room
                    &&& st.dragging_room == st0.dragging_room
                },
                GameState::Unloaded => *final(gs) is Unloaded,
            },
            Event::ItemCollected { .. } => *final(gs) == *old(gs),
        },
{
    match ev {
        Event::SaveLoaded(p) => {
            *gs = GameState::Loaded(load_loaded_state(map, p));
            false
        },
        Event::SaveUnloaded => {
            *gs = GameState::Unloaded;
            false
        },
        Event::PlayerMovedRoom { room, x, y } => {
            match gs {
                GameState::Loaded(st) => {
                    st.current_room = room;
                    st.player_x = clamp_i64(x, -COORD_LIMIT, COORD_LIMIT);
                    st.player_y = clamp_i64(y, -COORD_LIMIT, COORD_LIMIT);
                    let ghost snap = *st;
                    let n = st.rando_data.room_positions.len();
                    let mut i: usize = 0;
                    while i < n
                        invariant
                            0 <= i <= n,
                            n == st.rando_data.room_positions@.len(),
                            forall|j: int|
                                0 <= j < i ==> st.rando_data.room_positions@[j] is None,
                            st.current_room == snap.current_room,
                            st.player_x == snap.player_x,
                            st.player_y == snap.player_y,
                            st.rando_data.transition_map == snap.rando_data.transition_map,
                            st.rando_data.visited_transitions
                                == snap.rando_data.visited_transitions,
                            st.camera == snap.camera,
                            st.hovered_room == snap.hovered_room,
                            st.selected_room == snap.selected_room,
                            st.dragging_room == snap.dragging_room,
                        decreases n - i,
                    {
                        st.rando_data.room_positions.set(i, None);
                        i = i + 1;
                    }
                    true
                },
                GameState::Unloaded => false,
            }
        },
        Event::PlayerPositionUpdate { x, y } => {
            match gs {
                GameState::Loaded(st) => {
                    st.player_x = clamp_i64(x, -COORD_LIMIT, COORD_LIMIT);
                    st.player_y = clamp_i64(y, -COORD_LIMIT, COORD_LIMIT);
                },
                GameState::Unloaded => {},
            }
            false
        },
        Event::TransitionRevealed { id, paired } => {
            match gs {
                GameState::Loaded(st) => {
                    match paired {
                        Some(p) => {
                            st.rando_data.visited_transitions.insert(id);
                            st.rando_data.visited_transitions.insert(p);
                        },
                        None => {
                            let other: Option<String> = match st.rando_data.transition_map.get(
                                &id,
                            ) {
                                Some(dest) => Some(dest.clone()),
                                None => None,
                            };
                            st.rando_data.visited_transitions.insert(id);
                            match other {
                                Some(dest) => {
                                    st.rando_data.visited_transitions.insert(dest);
                                },
                                None => {},
                            }
                        },
                    }
                },
                GameState::Unloaded => {},
            }
            false
        },
        Event::ItemCollected { .. } => false,
    }
}

} // verus!
