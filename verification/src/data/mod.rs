//! The static world model: areas, rooms, and the per-session tables.

use vstd::prelude::*;

pub mod item;
pub mod room;
pub mod transition;

use crate::data::item::Item;
use crate::data::room::Room;
use crate::data::room::RoomTransition;
use crate::data::transition::door_class_of;
use crate::data::transition::Transition;
use crate::kv::StrMap;
use crate::kv::StrSet;
use crate::text::qualified_id;

verus! {

/// Magnitude cap, in milli-units, on world coordinates accepted at load
/// time.  A million units is far beyond any real map and keeps every bounds
/// computation inside `i64`.
pub const COORD_LIMIT: i64 = 1_000_000_000;

/// The immutable world graph: area labels and all rooms, loaded once.
pub struct MapData {
    pub areas: Vec<(String, String)>,
    pub rooms: Vec<Room>,
}

impl MapData {
    /// Every room well formed, with pairwise distinct ids and per-room
    /// distinct transition names.
    pub open spec fn wf(self) -> bool {
        &&& forall|i: int| 0 <= i < self.rooms@.len() ==> (#[trigger] self.rooms@[i]).wf()
        &&& forall|i: int, j: int|
            0 <= i < j < self.rooms@.len() ==> self.rooms@[i].id@ != self.rooms@[j].id@
        &&& forall|i: int, a: int, b: int|
            0 <= i < self.rooms@.len() && 0 <= a < b < self.rooms@[i].transitions@.len()
                ==> (#[trigger] self.rooms@[i].transitions@[a]).name@
                != (#[trigger] self.rooms@[i].transitions@[b]).name@
    }

    /// The index of the room with the given id, if any.
    pub open spec fn spec_room_index(self, id: Seq<char>) -> Option<int> {
        if exists|i: int| 0 <= i < self.rooms@.len() && self.rooms@[i].id@ == id {
            Some(choose|i: int| 0 <= i < self.rooms@.len() && self.rooms@[i].id@ == id)
        } else {
            None
        }
    }

    /// A found room index is in range and names the id it was found by.
    pub proof fn lemma_room_index_range(self, id: Seq<char>)
        ensures
            self.spec_room_index(id) matches Some(i) ==> 0 <= i < self.rooms@.len()
                && self.rooms@[i].id@ == id,
    {
    }

    /// Finds the room with the given id.
    pub fn room_index(&self, id: &String) -> (r: Option<usize>)
        requires
            self.wf(),
        ensures
            match r {
                Some(i) => {
                    &&& self.spec_room_index(id@) == Some(i as int)
                    &&& i < self.rooms@.len()
                    &&& self.rooms@[i as int].id@ == id@
                },
                None => self.spec_room_index(id@) is None,
            },
    {
        let n = self.rooms.len();
        let mut i: usize = 0;
        while i < n
            invariant
                self.wf(),
                0 <= i <= n,
                n == self.rooms@.len(),
                forall|j: int| 0 <= j < i ==> self.rooms@[j].id@ != id@,
            decreases n - i,
        {
            if self.rooms[i].id.eq(id) {
                return Some(i);
            }
            i = i + 1;
        }
        None
    }
}

/// Magnitude cap, in milli-units, on live room positions: the layout keeps
/// every room within a thousand units of the current room.
pub const POSITION_LIMIT: i64 = 1_000_000;

/// The per-session mutable tables: the resolved transition mapping, the set
/// of revealed transitions, and the live room positions (indexed like
/// `MapData::rooms`; `None` until a room is first observed).
pub struct RandoData {
    pub transition_map: StrMap,
    pub visited_transitions: StrSet,
    pub room_positions: Vec<Option<(i64, i64)>>,
}

impl RandoData {
    /// One position slot per room, every recorded position within the
    /// position cap.
    pub open spec fn positions_wf(self, room_count: int) -> bool {
        &&& self.room_positions@.len() == room_count
        &&& forall|i: int|
            0 <= i < self.room_positions@.len() && (#[trigger] self.room_positions@[i]) is Some
                ==> {
                &&& -POSITION_LIMIT <= (self.room_positions@[i]->0).0 <= POSITION_LIMIT
                &&& -POSITION_LIMIT <= (self.room_positions@[i]->0).1 <= POSITION_LIMIT
            }
    }
}

/// Why the static world input was rejected; each variant names the
/// offending room.
pub enum StaticDataError {
    DuplicateRoomId(String),
    DuplicateTransitionName(String),
    CoordinateOutOfRange(String),
}

/// A room as the world description delivers it, before validation:
/// transitions are plain name/data pairs.
pub struct RawRoom {
    pub id: String,
    pub area: Option<String>,
    pub benches: Vec<(i64, i64)>,
    pub items: Vec<(String, Item)>,
    pub name: Option<String>,
    pub randomizer_area: Option<String>,
    pub split_room: Option<Vec<Vec<String>>>,
    pub transitions: Vec<(String, Transition)>,
}

/// All coordinates of the raw room within the load-time cap.
pub open spec fn raw_coords_ok(w: RawRoom) -> bool {
    &&& forall|i: int|
        0 <= i < w.benches@.len() ==> {
            &&& -COORD_LIMIT <= (#[trigger] w.benches@[i]).0 <= COORD_LIMIT
            &&& -COORD_LIMIT <= w.benches@[i].1 <= COORD_LIMIT
        }
    &&& forall|i: int| 0 <= i < w.items@.len() ==> (#[trigger] w.items@[i]).1.wf()
    &&& forall|i: int| 0 <= i < w.transitions@.len() ==> (#[trigger] w.transitions@[i]).1.wf()
}

/// The raw room's transition names are pairwise distinct.
pub open spec fn raw_names_distinct(w: RawRoom) -> bool {
    forall|a: int, b: int|
        0 <= a < b < w.transitions@.len() ==> (#[trigger] w.transitions@[a]).0@ != (
        #[trigger] w.transitions@[b]).0@
}

/// The raw room is acceptable on its own.
pub open spec fn raw_room_ok(w: RawRoom) -> bool {
    raw_coords_ok(w) && raw_names_distinct(w)
}

/// The whole world description is accepted: distinct room ids and every
/// room acceptable on its own.
pub open spec fn spec_loadable(raws: Seq<RawRoom>) -> bool {
    &&& forall|i: int, j: int| 0 <= i < j < raws.len() ==> raws[i].id@ != raws[j].id@
    &&& forall|i: int| 0 <= i < raws.len() ==> raw_room_ok(#[trigger] raws[i])
}

/// The built room carries exactly the raw room's fields, with each
/// transition enriched by its qualified id and orientation class.
pub open spec fn room_matches_raw(r: Room, w: RawRoom) -> bool {
    &&& r.id == w.id
    &&& r.area == w.area
    &&& r.benches == w.benches
    &&& r.items == w.items
    &&& r.name == w.name
    &&& r.randomizer_area == w.randomizer_area
    &&& r.split_room == w.split_room
    &&& r.transitions@.len() == w.transitions@.len()
    &&& forall|k: int|
        0 <= k < w.transitions@.len() ==> {
            &&& (#[trigger] r.transitions@[k]).name == w.transitions@[k].0
            &&& r.transitions@[k].tr == w.transitions@[k].1
        }
}

/// Validates one raw room and enriches its transitions.
fn build_room(w: RawRoom) -> (r: Result<Room, StaticDataError>)
    ensures
        match r {
            Ok(room) => raw_room_ok(w) && room.wf() && room_matches_raw(room, w),
            Err(e) => match e {
                StaticDataError::CoordinateOutOfRange(id) => id@ == w.id@ && !raw_coords_ok(w),
                StaticDataError::DuplicateTransitionName(id) => id@ == w.id@ && !raw_names_distinct(
                    w,
                ),
                StaticDataError::DuplicateRoomId(_) => false,
            },
        },
{
    let RawRoom { id, area, benches, items, name, randomizer_area, split_room, transitions } = w;

    let mut i: usize = 0;
    let nb = benches.len();
    while i < nb
        invariant
            0 <= i <= nb,
            nb == benches@.len(),
            benches@ == w.benches@,
            id@ == w.id@,
            forall|j: int|
                0 <= j < i ==> {
                    &&& -COORD_LIMIT <= (#[trigger] benches@[j]).0 <= COORD_LIMIT
                    &&& -COORD_LIMIT <= benches@[j].1 <= COORD_LIMIT
                },
        decreases nb - i,
    {
        let (bx, by) = benches[i];
        if bx < -COORD_LIMIT || bx > COORD_LIMIT || by < -COORD_LIMIT || by > COORD_LIMIT {
            return Err(StaticDataError::CoordinateOutOfRange(id));
        }
        i = i + 1;
    }

    let mut i: usize = 0;
    let ni = items.len();
    while i < ni
        invariant
            0 <= i <= ni,
            ni == items@.len(),
            items@ == w.items@,
            id@ == w.id@,
            forall|j: int| 0 <= j < i ==> (#[trigger] items@[j]).1.wf(),
        decreases ni - i,
    {
        let ix = items[i].1.x;
        let iy = items[i].1.y;
        if ix < -COORD_LIMIT || ix > COORD_LIMIT || iy < -COORD_LIMIT || iy > COORD_LIMIT {
            return Err(StaticDataError::CoordinateOutOfRange(id));
        }
        i = i + 1;
    }

    let ghost t0 = transitions@;
    let mut trs = transitions;
    let mut rts: Vec<RoomTransition> = Vec::new();
    while trs.len() > 0
        invariant
            rts@.len() + trs@.len() == t0.len(),
            trs@ == t0.subrange(rts@.len() as int, t0.len() as int),
            t0 == w.transitions@,
            id@ == w.id@,
            forall|k: int|
                0 <= k < rts@.len() ==> {
                    &&& (#[trigger] rts@[k]).name == t0[k].0
                    &&& rts@[k].tr == t0[k].1
                    &&& rts@[k].wf(id@)
                },
            forall|a: int, b: int| 0 <= a < b < rts@.len() ==> rts@[a].name@ != rts@[b].name@,
        decreases trs@.len(),
    {
        let ghost k = rts@.len() as int;
        let (nm, tr) = trs.remove(0);
        proof {
            assert(t0.subrange(k, t0.len() as int)[0] == t0[k]);
            assert(t0.subrange(k, t0.len() as int).remove(0) =~= t0.subrange(
                k + 1,
                t0.len() as int,
            ));
        }
        if tr.x < -COORD_LIMIT || tr.x > COORD_LIMIT || tr.y < -COORD_LIMIT || tr.y > COORD_LIMIT {
            return Err(StaticDataError::CoordinateOutOfRange(id));
        }
        let mut j: usize = 0;
        let built = rts.len();
        while j < built
            invariant
                0 <= j <= built,
                built == rts@.len(),
                built == k,
                0 <= k < t0.len(),
                t0 == w.transitions@,
                id@ == w.id@,
                nm == t0[k].0,
                forall|a: int| 0 <= a < built ==> (#[trigger] rts@[a]).name == t0[a].0,
                forall|a: int| 0 <= a < j ==> rts@[a].name@ != nm@,
            decreases built - j,
        {
            if rts[j].name.eq(&nm) {
                proof {
                    assert(t0[j as int].0@ == t0[k].0@);
                    assert(!raw_names_distinct(w));
                }
                return Err(StaticDataError::DuplicateTransitionName(id));
            }
            j = j + 1;
        }
        let qualified = qualified_id(id.as_str(), nm.as_str());
        let class = door_class_of(nm.as_str());
        rts.push(RoomTransition { name: nm, qualified, class, tr });
    }
    proof {
        assert(rts@.len() == t0.len());
        assert forall|a: int, b: int| 0 <= a < b < t0.len() implies (#[trigger] t0[a]).0@ != (
        #[trigger] t0[b]).0@ by {
            assert(rts@[a].name == t0[a].0);
            assert(rts@[b].name == t0[b].0);
            assert(rts@[a].name@ != rts@[b].name@);
        }
        assert forall|i0: int| 0 <= i0 < t0.len() implies (#[trigger] t0[i0]).1.wf() by {
            assert(rts@[i0].tr == t0[i0].1);
            assert(rts@[i0].wf(id@));
        }
    }
    Ok(Room { id, area, benches, items, name, randomizer_area, split_room, transitions: rts })
}

/// Builds the immutable world graph from its raw description.  Returns the
/// world iff the description has distinct room ids, in-range coordinates,
/// and per-room distinct transition names; the error names the offending
/// room.
#[verifier::loop_isolation(false)]
pub fn load_mapdata(areas: Vec<(String, String)>, rooms: Vec<RawRoom>) -> (r: Result<
    MapData,
    StaticDataError,
>)
    ensures
        match r {
            Ok(m) => {
                &&& spec_loadable(rooms@)
                &&& m.wf()
                &&& m.areas == areas
                &&& m.rooms@.len() == rooms@.len()
                &&& forall|i: int|
                    0 <= i < rooms@.len() ==> room_matches_raw(#[trigger] m.rooms@[i], rooms@[i])
            },
            Err(e) => {
                &&& !spec_loadable(rooms@)
                &&& match e {
                    StaticDataError::DuplicateRoomId(id) => exists|i: int, j: int|
                        0 <= i < j < rooms@.len() && (#[trigger] rooms@[i]).id@ == (
                        #[trigger] rooms@[j]).id@ && rooms@[j].id@ == id@,
                    StaticDataError::CoordinateOutOfRange(id) => exists|i: int|
                        0 <= i < rooms@.len() && (#[trigger] rooms@[i]).id@ == id@
                            && !raw_coords_ok(rooms@[i]),
                    StaticDataError::DuplicateTransitionName(id) => exists|i: int|
                        0 <= i < rooms@.len() && (#[trigger] rooms@[i]).id@ == id@
                            && !raw_names_distinct(rooms@[i]),
                }
            },
        },
{
    let n = rooms.len();
    let mut i: usize = 0;
    while i < n
        invariant
            0 <= i <= n,
            n == rooms@.len(),
            forall|a: int, b: int| 0 <= a < b < i ==> rooms@[a].id@ != rooms@[b].id@,
        decreases n - i,
    {
        let mut j: usize = 0;
        while j < i
            invariant
                0 <= j <= i < n,
                n == rooms@.len(),
                forall|a: int| 0 <= a < j ==> rooms@[a].id@ != rooms@[i as int].id@,
            decreases i - j,
        {
            if rooms[j].id.eq(&rooms[i].id) {
                let dup = rooms[i].id.clone();
                proof {
                    assert(rooms@[j as int].id@ == rooms@[i as int].id@);
                }
                return Err(StaticDataError::DuplicateRoomId(dup));
            }
            j = j + 1;
        }
        i = i + 1;
    }

    let ghost raws0 = rooms@;
    let mut src = rooms;
    let mut out: Vec<Room> = Vec::new();
    while src.len() > 0
        invariant
            out@.len() + src@.len() == raws0.len(),
            src@ == raws0.subrange(out@.len() as int, raws0.len() as int),
            forall|a: int, b: int| 0 <= a < b < raws0.len() ==> raws0[a].id@ != raws0[b].id@,
            forall|k: int|
                0 <= k < out@.len() ==> {
                    &&& room_matches_raw(#[trigger] out@[k], raws0[k])
                    &&& out@[k].wf()
                    &&& raw_room_ok(raws0[k])
                },
        decreases src@.len(),
    {
        let ghost k = out@.len() as int;
        let w = src.remove(0);
        let ghost w0 = w;
        proof {
            assert(raws0.subrange(k, raws0.len() as int)[0] == raws0[k]);
            assert(raws0.subrange(k, raws0.len() as int).remove(0) =~= raws0.subrange(
                k + 1,
                raws0.len() as int,
            ));
            assert(w0 == raws0[k]);
        }
        match build_room(w) {
            Ok(room) => {
                out.push(room);
            },
            Err(e) => {
                proof {
                    assert(!raw_room_ok(w0));
                    if spec_loadable(raws0) {
                        assert(raw_room_ok(raws0[k]));
                    }
                    assert(!spec_loadable(raws0));
                    assert(raws0[k].id@ == w0.id@);
                }
                return Err(e);
            },
        }
    }
    let m = MapData { areas, rooms: out };
    proof {
        assert forall|i0: int| 0 <= i0 < raws0.len() implies raw_room_ok(#[trigger] raws0[i0]) by {
            assert(room_matches_raw(out@[i0], raws0[i0]));
        }
        assert forall|a: int, b: int|
            0 <= a < b < m.rooms@.len() implies m.rooms@[a].id@ != m.rooms@[b].id@ by {
            assert(m.rooms@[a].id == raws0[a].id);
            assert(m.rooms@[b].id == raws0[b].id);
        }
        assert forall|i0: int, a: int, b: int|
            0 <= i0 < m.rooms@.len() && 0 <= a < b < m.rooms@[i0].transitions@.len() implies (
        #[trigger] m.rooms@[i0].transitions@[a]).name@ != (
        #[trigger] m.rooms@[i0].transitions@[b]).name@ by {
            assert(raw_room_ok(raws0[i0]));
            assert(m.rooms@[i0].transitions@[a].name == raws0[i0].transitions@[a].0);
            assert(m.rooms@[i0].transitions@[b].name == raws0[i0].transitions@[b].0);
        }
    }
    Ok(m)
}

} // verus!
