//! Per-playthrough session state and its construction from a save payload.

use vstd::prelude::*;

use crate::data::room::spec_bounds;
use crate::data::room::Room;
use crate::data::room::RoomTransition;
use crate::data::MapData;
use crate::data::RandoData;
use crate::data::COORD_LIMIT;
use crate::data::POSITION_LIMIT;
use crate::fixed::clamp_i64;
use crate::fixed::div_floor;
use crate::fixed::spec_clamp;
use crate::kv::StrMap;
use crate::kv::StrSet;

verus! {

/// Magnitude cap on camera coordinates; wide enough for any target the
/// update can ease toward.
pub const CAMERA_LIMIT: i64 = 8_000_000_000;

/// The camera's position and what it follows.
pub struct Camera {
    pub x: i64,
    pub y: i64,
    pub target: CameraTarget,
}

pub enum CameraTarget {
    Point { x: i64, y: i64 },
    Room(String),
    Player,
    PlayerRoom,
}

impl CameraTarget {
    pub open spec fn wf(self) -> bool {
        match self {
            CameraTarget::Point { x, y } => {
                &&& -CAMERA_LIMIT <= x <= CAMERA_LIMIT
                &&& -CAMERA_LIMIT <= y <= CAMERA_LIMIT
            },
            _ => true,
        }
    }
}

/// The state of one loaded playthrough.
pub struct LoadedState {
    pub current_room: String,
    pub player_x: i64,
    pub player_y: i64,
    pub rando_data: RandoData,
    pub camera: Camera,
    pub hovered_room: Option<usize>,
    pub selected_room: Option<usize>,
    pub dragging_room: bool,
}

impl LoadedState {
    pub open spec fn wf(self, map: MapData) -> bool {
        &&& self.rando_data.positions_wf(map.rooms@.len() as int)
        &&& -COORD_LIMIT <= self.player_x <= COORD_LIMIT
        &&& -COORD_LIMIT <= self.player_y <= COORD_LIMIT
        &&& -CAMERA_LIMIT <= self.camera.x <= CAMERA_LIMIT
        &&& -CAMERA_LIMIT <= self.camera.y <= CAMERA_LIMIT
        &&& self.camera.target.wf()
        &&& match self.hovered_room {
            Some(i) => i < map.rooms@.len(),
            None => true,
        }
        &&& match self.selected_room {
            Some(i) => i < map.rooms@.len(),
            None => true,
        }
    }
}

/// Either no save is loaded, or one playthrough is.
pub enum GameState {
    Unloaded,
    Loaded(LoadedState),
}

impl GameState {
    pub open spec fn wf(self, map: MapData) -> bool {
        match self {
            GameState::Unloaded => true,
            GameState::Loaded(st) => st.wf(map),
        }
    }
}

/// What a save delivers to the core, already decoded: the starting room,
/// the randomizer's transition placements (source id, target id), and the
/// already-visited transition pairs.
pub struct SavePayload {
    pub start_room: String,
    pub placements: Vec<(String, String)>,
    pub visited_transitions: Vec<(String, String)>,
}

/// One room's vanilla seeding: each transition that has a vanilla
/// destination binds its qualified id to that destination.
pub open spec fn room_vanilla(
    m0: Map<Seq<char>, Seq<char>>,
    trs: Seq<RoomTransition>,
) -> Map<Seq<char>, Seq<char>>
    decreases trs.len(),
{
    if trs.len() == 0 {
        m0
    } else {
        let m1 = room_vanilla(m0, trs.drop_last());
        match trs.last().tr.to {
            Some(d) => m1.insert(trs.last().qualified@, d@),
            None => m1,
        }
    }
}

/// The vanilla seeding of every room, in room order.
pub open spec fn seed_vanilla(
    m0: Map<Seq<char>, Seq<char>>,
    rooms: Seq<Room>,
) -> Map<Seq<char>, Seq<char>>
    decreases rooms.len(),
{
    if rooms.len() == 0 {
        m0
    } else {
        room_vanilla(seed_vanilla(m0, rooms.drop_last()), rooms.last().transitions@)
    }
}

/// Randomizer placements overlaid in order: each binds its source id to its
/// target id, replacing whatever was there.
pub open spec fn apply_placements(
    m0: Map<Seq<char>, Seq<char>>,
    ps: Seq<(String, String)>,
) -> Map<Seq<char>, Seq<char>>
    decreases ps.len(),
{
    if ps.len() == 0 {
        m0
    } else {
        apply_placements(m0, ps.drop_last()).insert(ps.last().0@, ps.last().1@)
    }
}

/// The session's resolved transition mapping: vanilla destinations seeded
/// first, then every placement record overlaid.
pub open spec fn spec_transition_map(
    map: MapData,
    ps: Seq<(String, String)>,
) -> Map<Seq<char>, Seq<char>> {
    apply_placements(seed_vanilla(Map::empty(), map.rooms@), ps)
}

/// Both endpoints of every recorded visited pair.
pub open spec fn spec_visited(vs: Seq<(String, String)>) -> Set<Seq<char>>
    decreases vs.len(),
{
    if vs.len() == 0 {
        Set::empty()
    } else {
        spec_visited(vs.drop_last()).insert(vs.last().0@).insert(vs.last().1@)
    }
}

/// A placement record always wins over the vanilla seeding, and over any
/// earlier placement: whatever the seed `m0` bound a source id to, the
/// resolved destination for that id is the last placement's target.
pub proof fn lemma_placement_overrides(
    m0: Map<Seq<char>, Seq<char>>,
    ps: Seq<(String, String)>,
    i: int,
)
    requires
        0 <= i < ps.len(),
        forall|j: int| i < j < ps.len() ==> ps[j].0@ != ps[i].0@,
    ensures
        apply_placements(m0, ps).contains_key(ps[i].0@),
        apply_placements(m0, ps)[ps[i].0@] == ps[i].1@,
    decreases ps.len(),
{
    if i == ps.len() - 1 {
    } else {
        let dl = ps.drop_last();
        assert(dl[i] == ps[i]);
        lemma_placement_overrides(m0, dl, i);
        assert(ps.last().0@ != ps[i].0@);
    }
}

/// Builds the session tables from the save payload: the transition map is
/// the vanilla seeding overlaid with every placement, the visited set holds
/// both endpoints of every visited pair, and no room has a position yet.
#[verifier::loop_isolation(false)]
pub fn build_rando_data(
    map: &MapData,
    placements: &Vec<(String, String)>,
    visited: &Vec<(String, String)>,
) -> (rd: RandoData)
    requires
        map.wf(),
    ensures
        rd.transition_map@ == spec_transition_map(*map, placements@),
        rd.visited_transitions@ == spec_visited(visited@),
        rd.positions_wf(map.rooms@.len() as int),
        forall|i: int| 0 <= i < map.rooms@.len() ==> rd.room_positions@[i] is None,
{
    let mut tm = StrMap::new();
    let nr = map.rooms.len();
    let mut i: usize = 0;
    while i < nr
        invariant
            0 <= i <= nr,
            tm@ == seed_vanilla(Map::empty(), map.rooms@.subrange(0, i as int)),
        decreases nr - i,
    {
        let room = &map.rooms[i];
        let nt = room.transitions.len();
        let mut k: usize = 0;
        proof {
            assert(map.rooms@.subrange(0, i + 1).drop_last() =~= map.rooms@.subrange(0, i as int));
            assert(room.transitions@.subrange(0, 0) =~= Seq::<RoomTransition>::empty());
        }
        while k < nt
            invariant
                0 <= k <= nt,
                tm@ == room_vanilla(
                    seed_vanilla(Map::empty(), map.rooms@.subrange(0, i as int)),
                    room.transitions@.subrange(0, k as int),
                ),
            decreases nt - k,
        {
            proof {
                assert(room.transitions@.subrange(0, k + 1).drop_last() =~= room.transitions@
                    .subrange(0, k as int));
                assert(room.transitions@.subrange(0, k + 1).last() == room.transitions@[k as int]);
            }
            let rt = &room.transitions[k];
            match &rt.tr.to {
                Some(dest) => {
                    tm.insert(rt.qualified.clone(), dest.clone());
                },
                None => {},
            }
            k = k + 1;
        }
        proof {
            assert(room.transitions@.subrange(0, nt as int) =~= room.transitions@);
        }
        i = i + 1;
    }
    proof {
        assert(map.rooms@.subrange(0, nr as int) =~= map.rooms@);
    }

    let np = placements.len();
    let mut i: usize = 0;
    while i < np
        invariant
            0 <= i <= np,
            tm@ == apply_placements(
                seed_vanilla(Map::empty(), map.rooms@),
                placements@.subrange(0, i as int),
            ),
        decreases np - i,
    {
        proof {
            assert(placements@.subrange(0, i + 1).drop_last() =~= placements@.subrange(
                0,
                i as int,
            ));
            assert(placements@.subrange(0, i + 1).last() == placements@[i as int]);
        }
        let src = placements[i].0.clone();
        let dst = placements[i].1.clone();
        tm.insert(src, dst);
        i = i + 1;
    }
    proof {
        assert(placements@.subrange(0, np as int) =~= placements@);
    }

    let mut vset = StrSet::new();
    let nv = visited.len();
    let mut i: usize = 0;
    while i < nv
        invariant
            0 <= i <= nv,
            vset@ == spec_visited(visited@.subrange(0, i as int)),
        decreases nv - i,
    {
        proof {
            assert(visited@.subrange(0, i + 1).drop_last() =~= visited@.subrange(0, i as int));
            assert(visited@.subrange(0, i + 1).last() == visited@[i as int]);
        }
        vset.insert(visited[i].0.clone());
        vset.insert(visited[i].1.clone());
        i = i + 1;
    }
    proof {
        assert(visited@.subrange(0, nv as int) =~= visited@);
    }

    let mut positions: Vec<Option<(i64, i64)>> = Vec::new();
    let mut i: usize = 0;
    while i < nr
        invariant
            0 <= i <= nr,
            positions@.len() == i,
            forall|j: int| 0 <= j < i ==> positions@[j] is None,
        decreases nr - i,
    {
        positions.push(None);
        i = i + 1;
    }

    RandoData { transition_map: tm, visited_transitions: vset, room_positions: positions }
}

/// What the camera aims at this tick, and the (possibly corrected) target
/// it keeps: a `Room` target whose room has no recorded position falls back
/// to following the player's room.
pub open spec fn spec_camera_goal(
    t: CameraTarget,
    map: MapData,
    rd: RandoData,
    player_x: int,
    player_y: int,
    current: Seq<char>,
) -> ((int, int), CameraTarget) {
    match t {
        CameraTarget::Point { x, y } => ((x as int, y as int), t),
        CameraTarget::Room(r) => match map.spec_room_index(r@) {
            Some(i) => match rd.room_positions@[i] {
                Some(p) => ((p.0 as int, p.1 as int), t),
                None => ((0, 0), CameraTarget::PlayerRoom),
            },
            None => ((0, 0), CameraTarget::PlayerRoom),
        },
        CameraTarget::Player => match map.spec_room_index(current) {
            Some(i) => match rd.room_positions@[i] {
                Some(p) => (
                    (p.0 + player_x, p.1 - player_y + spec_bounds(map.rooms@[i]).3),
                    t,
                ),
                None => ((player_x, player_y), t),
            },
            None => ((player_x, player_y), t),
        },
        CameraTarget::PlayerRoom => match map.spec_room_index(current) {
            Some(i) => match rd.room_positions@[i] {
                Some(p) => ((p.0 as int, p.1 as int), t),
                None => ((0, 0), t),
            },
            None => ((0, 0), t),
        },
    }
}

/// One easing step toward a bounded target stays bounded.
proof fn lemma_ease_bounded(x: int, t: int, lim: int)
    requires
        lim >= 0,
        -lim <= x <= lim,
        -lim <= t <= lim,
    ensures
        -lim <= x + (t - x) / 8 <= lim,
{
    let d = t - x;
    let q = d / 8;
    vstd::arithmetic::div_mod::lemma_fundamental_div_mod(d, 8);
    vstd::arithmetic::div_mod::lemma_mod_bound(d, 8);
    assert(d == 8 * q + d % 8);
}

impl Camera {
    /// Eases one eighth of the way toward the resolved target each tick,
    /// retargeting to the player's room when a followed room has no
    /// position yet.
    pub fn update(
        &mut self,
        map_data: &MapData,
        rando_data: &RandoData,
        player_x: i64,
        player_y: i64,
        current_room: &String,
    )
        requires
            map_data.wf(),
            rando_data.positions_wf(map_data.rooms@.len() as int),
            -COORD_LIMIT <= player_x <= COORD_LIMIT,
            -COORD_LIMIT <= player_y <= COORD_LIMIT,
            -CAMERA_LIMIT <= old(self).x <= CAMERA_LIMIT,
            -CAMERA_LIMIT <= old(self).y <= CAMERA_LIMIT,
            old(self).target.wf(),
        ensures
            final(self).target == spec_camera_goal(
                old(self).target,
                *map_data,
                *rando_data,
                player_x as int,
                player_y as int,
                current_room@,
            ).1,
            final(self).x as int == old(self).x + (spec_camera_goal(
                old(self).target,
                *map_data,
                *rando_data,
                player_x as int,
                player_y as int,
                current_room@,
            ).0.0 - old(self).x) / 8,
            final(self).y as int == old(self).y + (spec_camera_goal(
                old(self).target,
                *map_data,
                *rando_data,
                player_x as int,
                player_y as int,
                current_room@,
            ).0.1 - old(self).y) / 8,
            -CAMERA_LIMIT <= final(self).x <= CAMERA_LIMIT,
            -CAMERA_LIMIT <= final(self).y <= CAMERA_LIMIT,
            final(self).target.wf(),
    {
        let ghost goal = spec_camera_goal(
            old(self).target,
            *map_data,
            *rando_data,
            player_x as int,
            player_y as int,
            current_room@,
        );
        let (tx, ty): (i64, i64) = match &self.target {
            CameraTarget::Point { x, y } => (*x, *y),
            CameraTarget::Room(r) => {
                let mut found: Option<(i64, i64)> = None;
                match map_data.room_index(r) {
                    Some(i) => {
                        found = self.position_of(rando_data, i);
                    },
                    None => {},
                }
                match found {
                    Some(p) => p,
                    None => {
                        self.target = CameraTarget::PlayerRoom;
                        (0, 0)
                    },
                }
            },
            CameraTarget::Player => {
                let mut found: Option<(i64, i64, i64)> = None;
                match map_data.room_index(current_room) {
                    Some(i) => {
                        match self.position_of(rando_data, i) {
                            Some(p) => {
                                let bounds = map_data.rooms[i].calc_bounds();
                                found = Some((p.0, p.1, bounds.h));
                            },
                            None => {},
                        }
                    },
                    None => {},
                }
                match found {
                    Some(p) => (p.0 + player_x, p.1 - player_y + p.2),
                    None => (player_x, player_y),
                }
            },
            CameraTarget::PlayerRoom => {
                let mut found: Option<(i64, i64)> = None;
                match map_data.room_index(current_room) {
                    Some(i) => {
                        found = self.position_of(rando_data, i);
                    },
                    None => {},
                }
                match found {
                    Some(p) => p,
                    None => (0, 0),
                }
            },
        };
        assert(tx as int == goal.0.0 && ty as int == goal.0.1);
        proof {
            lemma_ease_bounded(self.x as int, tx as int, CAMERA_LIMIT as int);
            lemma_ease_bounded(self.y as int, ty as int, CAMERA_LIMIT as int);
        }
        self.x = self.x + div_floor(tx - self.x, 8);
        self.y = self.y + div_floor(ty - self.y, 8);
    }

    /// Reads a room's recorded position.
    fn position_of(&self, rando_data: &RandoData, i: usize) -> (p: Option<(i64, i64)>)
        requires
            i < rando_data.room_positions@.len(),
        ensures
            p == rando_data.room_positions@[i as int],
    {
        rando_data.room_positions[i]
    }
}

impl LoadedState {
    /// Per-tick state maintenance: advances the camera toward its target.
    pub fn update(&mut self, map_data: &MapData)
        requires
            map_data.wf(),
            old(self).wf(*map_data),
        ensures
            final(self).wf(*map_data),
            final(self).camera.target == spec_camera_goal(
                old(self).camera.target,
                *map_data,
                old(self).rando_data,
                old(self).player_x as int,
                old(self).player_y as int,
                old(self).current_room@,
            ).1,
            final(self).camera.x as int == old(self).camera.x + (spec_camera_goal(
                old(self).camera.target,
                *map_data,
                old(self).rando_data,
                old(self).player_x as int,
                old(self).player_y as int,
                old(self).current_room@,
            ).0.0 - old(self).camera.x) / 8,
            final(self).camera.y as int == old(self).camera.y + (spec_camera_goal(
                old(self).camera.target,
                *map_data,
                old(self).rando_data,
                old(self).player_x as int,
                old(self).player_y as int,
                old(self).current_room@,
            ).0.1 - old(self).camera.y) / 8,
            final(self).current_room == old(self).current_room,
            final(self).player_x == old(self).player_x,
            final(self).player_y == old(self).player_y,
            final(self).rando_data == old(self).rando_data,
            final(self).hovered_room == old(self).hovered_room,
            final(self).selected_room == old(self).selected_room,
            final(self).dragging_room == old(self).dragging_room,
    {
        let current = self.current_room.clone();
        self.camera.update(map_data, &self.rando_data, self.player_x, self.player_y, &current);
    }
}

/// Rebuilds the whole loaded state from a save payload: the player starts
/// at the payload's starting room with everything else fresh.
pub fn load_loaded_state(map: &MapData, save: SavePayload) -> (st: LoadedState)
    requires
        map.wf(),
    ensures
        st.wf(*map),
        st.current_room == save.start_room,
        st.player_x == 0 && st.player_y == 0,
        st.rando_data.transition_map@ == spec_transition_map(*map, save.placements@),
        st.rando_data.visited_transitions@ == spec_visited(save.visited_transitions@),
        forall|i: int| 0 <= i < map.rooms@.len() ==> st.rando_data.room_positions@[i] is None,
        st.camera.x == 0 && st.camera.y == 0 && st.camera.target is Player,
        st.hovered_room is None && st.selected_room is None && !st.dragging_room,
{
    let rando_data = build_rando_data(map, &save.placements, &save.visited_transitions);
    LoadedState {
        current_room: save.start_room,
        player_x: 0,
        player_y: 0,
        rando_data,
        camera: Camera { x: 0, y: 0, target: CameraTarget::Player },
        hovered_room: None,
        selected_room: None,
        dragging_room: false,
    }
}

impl LoadedState {
    /// Records a room's position slot the first time the room is observed:
    /// a room without a position starts at the origin.
    pub fn observe_room(&mut self, map: &MapData, i: usize)
        requires
            old(self).wf(*map),
            (i as int) < map.rooms@.len(),
        ensures
            final(self).wf(*map),
            final(self).rando_data.room_positions@ == if old(
                self,
            ).rando_data.room_positions@[i as int] is None {
                old(self).rando_data.room_positions@.update(i as int, Some((0i64, 0i64)))
            } else {
                old(self).rando_data.room_positions@
            },
            final(self).current_room == old(self).current_room,
            final(self).player_x == old(self).player_x,
            final(self).player_y == old(self).player_y,
            final(self).rando_data.transition_map == old(self).rando_data.transition_map,
            final(self).rando_data.visited_transitions == old(self).rando_data.visited_transitions,
            final(self).camera == old(self).camera,
            final(self).hovered_room == old(self).hovered_room,
            final(self).selected_room == old(self).selected_room,
            final(self).dragging_room == old(self).dragging_room,
    {
        let missing = match self.rando_data.room_positions[i] {
            None => true,
            Some(_) => false,
        };
        if missing {
            self.rando_data.room_positions.set(i, Some((0, 0)));
        }
    }

    /// Moves the selected room by the drag delta, clamped to the position
    /// cap; within a tick this is the only way a dragged room moves.
    pub fn drag_selected(&mut self, map: &MapData, dx: i64, dy: i64)
        requires
            old(self).wf(*map),
            -1_000_000_000 <= dx <= 1_000_000_000,
            -1_000_000_000 <= dy <= 1_000_000_000,
        ensures
            final(self).wf(*map),
            final(self).rando_data.room_positions@ == match old(self).selected_room {
                Some(s) => if old(self).rando_data.room_positions@[s as int] is Some {
                    old(self).rando_data.room_positions@.update(
                        s as int,
                        Some(
                            (
                                spec_clamp(
                                    (old(self).rando_data.room_positions@[s as int]->0).0 + dx,
                                    -POSITION_LIMIT as int,
                                    POSITION_LIMIT as int,
                                ) as i64,
                                spec_clamp(
                                    (old(self).rando_data.room_positions@[s as int]->0).1 + dy,
                                    -POSITION_LIMIT as int,
                                    POSITION_LIMIT as int,
                                ) as i64,
                            ),
                        ),
                    )
                } else {
                    old(self).rando_data.room_positions@
                },
                None => old(self).rando_data.room_positions@,
            },
            final(self).current_room == old(self).current_room,
            final(self).player_x == old(self).player_x,
            final(self).player_y == old(self).player_y,
            final(self).rando_data.transition_map == old(self).rando_data.transition_map,
            final(self).rando_data.visited_transitions == old(self).rando_data.visited_transitions,
            final(self).camera == old(self).camera,
            final(self).hovered_room == old(self).hovered_room,
            final(self).selected_room == old(self).selected_room,
            final(self).dragging_room == old(self).dragging_room,
            old(self).selected_room matches Some(s)
                ==> old(self).rando_data.room_positions@[s as int] matches Some(p)
                ==> (-POSITION_LIMIT <= p.0 + dx <= POSITION_LIMIT && -POSITION_LIMIT <= p.1 + dy
                <= POSITION_LIMIT)
                ==> final(self).rando_data.room_positions@[s as int]
                == Some((((p.0 + dx) as i64), ((p.1 + dy) as i64))),
    {
        match self.selected_room {
            Some(s) => {
                match self.rando_data.room_positions[s] {
                    Some(p) => {
                        let nx = clamp_i64(p.0 + dx, -POSITION_LIMIT, POSITION_LIMIT);
                        let ny = clamp_i64(p.1 + dy, -POSITION_LIMIT, POSITION_LIMIT);
                        self.rando_data.room_positions.set(s, Some((nx, ny)));
                    },
                    None => {},
                }
            },
            None => {},
        }
    }

    /// A primary press over `hit` begins a drag and both hovers and
    /// selects that room.
    pub fn press_select(&mut self, map: &MapData, hit: Option<usize>)
        requires
            old(self).wf(*map),
            match hit {
                Some(i) => (i as int) < map.rooms@.len(),
                None => true,
            },
        ensures
            final(self).wf(*map),
            final(self).dragging_room,
            final(self).hovered_room == hit,
            final(self).selected_room == hit,
            final(self).current_room == old(self).current_room,
            final(self).player_x == old(self).player_x,
            final(self).player_y == old(self).player_y,
            final(self).rando_data == old(self).rando_data,
            final(self).camera == old(self).camera,
    {
        self.dragging_room = true;
        self.hovered_room = hit;
        self.selected_room = hit;
    }

    /// Releasing the primary button ends the drag.
    pub fn release_drag(&mut self, map: &MapData)
        requires
            old(self).wf(*map),
        ensures
            final(self).wf(*map),
            !final(self).dragging_room,
            final(self).current_room == old(self).current_room,
            final(self).player_x == old(self).player_x,
            final(self).player_y == old(self).player_y,
            final(self).rando_data == old(self).rando_data,
            final(self).camera == old(self).camera,
            final(self).hovered_room == old(self).hovered_room,
            final(self).selected_room == old(self).selected_room,
    {
        self.dragging_room = false;
    }

    /// Where a path request starts: the selected room if there is one,
    /// else the current room.
    pub fn path_source(&self, map: &MapData) -> (r: String)
        requires
            self.wf(*map),
        ensures
            r@ == match self.selected_room {
                Some(s) => map.rooms@[s as int].id@,
                None => self.current_room@,
            },
    {
        match self.selected_room {
            Some(s) => map.rooms[s].id.clone(),
            None => self.current_room.clone(),
        }
    }
}

} // verus!
