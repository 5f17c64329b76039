//! A room and its point-of-interest bounding rectangle.

use vstd::prelude::*;

use crate::data::item::Item;
use crate::data::transition::spec_door_class;
use crate::data::transition::DoorClass;
use crate::data::transition::Transition;
use crate::data::COORD_LIMIT;
use crate::fixed::div_floor;
use crate::geom::Rect;
use vstd::math::max;
use vstd::math::min;

verus! {

/// Half extent, in milli-units, that a bench or item contributes to the
/// bounding rectangle on each side of its position.
pub const POI_HALF_EXTENT: i64 = 5000;

/// Minimum width and height, in milli-units, of a room's bounding rectangle.
pub const MIN_ROOM_SIZE: i64 = 20000;

/// A transition as a room holds it: its local name, its precomputed
/// qualified id `"<room>[<name>]"`, its orientation class, and its data.
pub struct RoomTransition {
    pub name: String,
    pub qualified: String,
    pub class: DoorClass,
    pub tr: Transition,
}

impl RoomTransition {
    pub open spec fn wf(self, room_id: Seq<char>) -> bool {
        &&& self.tr.wf()
        &&& self.qualified@ == room_id + "["@ + self.name@ + "]"@
        &&& self.class == spec_door_class(self.name@)
    }
}

/// A map location: identity, tags, and local geometry.  Immutable after the
/// world is loaded.
pub struct Room {
    pub id: String,
    pub area: Option<String>,
    pub benches: Vec<(i64, i64)>,
    pub items: Vec<(String, Item)>,
    pub name: Option<String>,
    pub randomizer_area: Option<String>,
    pub split_room: Option<Vec<Vec<String>>>,
    pub transitions: Vec<RoomTransition>,
}

/// The horizontal and vertical extents one point of interest contributes,
/// as `(lo_x, hi_x, lo_y, hi_y)`.  Stored y is inverted: render y grows
/// opposite to stored y.
pub open spec fn bench_box(b: (i64, i64)) -> (int, int, int, int) {
    (
        b.0 - POI_HALF_EXTENT,
        b.0 + POI_HALF_EXTENT,
        -b.1 - POI_HALF_EXTENT,
        -b.1 + POI_HALF_EXTENT,
    )
}

pub open spec fn item_box(it: (String, Item)) -> (int, int, int, int) {
    (
        it.1.x - POI_HALF_EXTENT,
        it.1.x + POI_HALF_EXTENT,
        -it.1.y - POI_HALF_EXTENT,
        -it.1.y + POI_HALF_EXTENT,
    )
}

pub open spec fn transition_box(rt: RoomTransition) -> (int, int, int, int) {
    (rt.tr.x as int, rt.tr.x as int, -rt.tr.y as int, -rt.tr.y as int)
}

/// Every point of interest of the room, in the order benches, items,
/// transitions.
pub open spec fn room_boxes(r: Room) -> Seq<(int, int, int, int)> {
    r.benches@.map_values(|b: (i64, i64)| bench_box(b)) + r.items@.map_values(
        |it: (String, Item)| item_box(it),
    ) + r.transitions@.map_values(|rt: RoomTransition| transition_box(rt))
}

/// Componentwise min/max merge of an accumulated extent and one more box.
pub open spec fn merge_box(m: Option<(int, int, int, int)>, b: (int, int, int, int)) -> (
    int,
    int,
    int,
    int,
) {
    match m {
        None => b,
        Some(a) => (min(a.0, b.0), max(a.1, b.1), min(a.2, b.2), max(a.3, b.3)),
    }
}

/// The componentwise extents of a box sequence, `None` when it is empty.
pub open spec fn mins_of(s: Seq<(int, int, int, int)>) -> Option<(int, int, int, int)>
    decreases s.len(),
{
    if s.len() == 0 {
        None
    } else {
        Some(merge_box(mins_of(s.drop_last()), s.last()))
    }
}

/// Expands the interval `[lo, hi]` symmetrically about its (grid-rounded)
/// center to exactly the minimum room size, when it is narrower than that.
pub open spec fn spec_expand(lo: int, hi: int) -> (int, int) {
    if hi - lo < MIN_ROOM_SIZE {
        let c = (lo + hi) / 2;
        (c - MIN_ROOM_SIZE / 2, c + MIN_ROOM_SIZE / 2)
    } else {
        (lo, hi)
    }
}

/// The room's bounding rectangle `(x, y, w, h)`: the extents of all points
/// of interest, each axis expanded to the minimum size; the canonical
/// origin-centered square when the room has no points of interest.
pub open spec fn spec_bounds(r: Room) -> (int, int, int, int) {
    match mins_of(room_boxes(r)) {
        None => (
            -(MIN_ROOM_SIZE / 2),
            -(MIN_ROOM_SIZE / 2),
            MIN_ROOM_SIZE as int,
            MIN_ROOM_SIZE as int,
        ),
        Some(m) => {
            let ex = spec_expand(m.0, m.1);
            let ey = spec_expand(m.2, m.3);
            (ex.0, ey.0, ex.1 - ex.0, ey.1 - ey.0)
        },
    }
}

/// The view of an accumulated extent held in 64-bit components.
pub open spec fn acc_view(a: Option<(i64, i64, i64, i64)>) -> Option<(int, int, int, int)> {
    match a {
        None => None,
        Some(b) => Some((b.0 as int, b.1 as int, b.2 as int, b.3 as int)),
    }
}

/// All components of an accumulated extent stay within the coordinate cap
/// plus the half extent, and each axis is a nonempty interval.
pub open spec fn acc_bounded(a: Option<(i64, i64, i64, i64)>) -> bool {
    match a {
        None => true,
        Some(b) => {
            &&& -COORD_LIMIT - POI_HALF_EXTENT <= b.0 <= b.1 <= COORD_LIMIT + POI_HALF_EXTENT
            &&& -COORD_LIMIT - POI_HALF_EXTENT <= b.2 <= b.3 <= COORD_LIMIT + POI_HALF_EXTENT
        },
    }
}

/// Merges one bounded box into the running extents.
fn merge_acc(acc: Option<(i64, i64, i64, i64)>, b: (i64, i64, i64, i64)) -> (r: Option<
    (i64, i64, i64, i64),
>)
    requires
        acc_bounded(acc),
        -COORD_LIMIT - POI_HALF_EXTENT <= b.0 <= b.1 <= COORD_LIMIT + POI_HALF_EXTENT,
        -COORD_LIMIT - POI_HALF_EXTENT <= b.2 <= b.3 <= COORD_LIMIT + POI_HALF_EXTENT,
    ensures
        acc_view(r) == Some(merge_box(acc_view(acc), (b.0 as int, b.1 as int, b.2 as int, b.3 as int))),
        acc_bounded(r),
{
    match acc {
        None => Some(b),
        Some(a) => Some(
            (
                if a.0 <= b.0 {
                    a.0
                } else {
                    b.0
                },
                if a.1 >= b.1 {
                    a.1
                } else {
                    b.1
                },
                if a.2 <= b.2 {
                    a.2
                } else {
                    b.2
                },
                if a.3 >= b.3 {
                    a.3
                } else {
                    b.3
                },
            ),
        ),
    }
}

impl Room {
    /// All coordinates bounded and every transition entry consistent with
    /// this room's id.
    pub open spec fn wf(self) -> bool {
        &&& forall|i: int|
            0 <= i < self.benches@.len() ==> {
                &&& -COORD_LIMIT <= #[trigger] self.benches@[i].0 <= COORD_LIMIT
                &&& -COORD_LIMIT <= self.benches@[i].1 <= COORD_LIMIT
            }
        &&& forall|i: int| 0 <= i < self.items@.len() ==> (#[trigger] self.items@[i]).1.wf()
        &&& forall|i: int|
            0 <= i < self.transitions@.len() ==> (#[trigger] self.transitions@[i]).wf(self.id@)
    }

    /// No points of interest at all.
    pub open spec fn has_no_pois(self) -> bool {
        self.benches@.len() == 0 && self.items@.len() == 0 && self.transitions@.len() == 0
    }

    /// The index of this room's transition with the given name, if any.
    pub open spec fn spec_find_transition(self, name: Seq<char>) -> Option<int> {
        if exists|k: int| 0 <= k < self.transitions@.len() && self.transitions@[k].name@ == name {
            Some(
                choose|k: int|
                    0 <= k < self.transitions@.len() && self.transitions@[k].name@ == name,
            )
        } else {
            None
        }
    }

    /// Finds this room's transition with the given name.  Distinct names
    /// make the answer unique.
    pub fn find_transition(&self, name: &String) -> (r: Option<usize>)
        requires
            forall|a: int, b: int|
                0 <= a < b < self.transitions@.len() ==> (#[trigger] self.transitions@[a]).name@
                    != (#[trigger] self.transitions@[b]).name@,
        ensures
            match r {
                Some(k) => {
                    &&& self.spec_find_transition(name@) == Some(k as int)
                    &&& k < self.transitions@.len()
                    &&& self.transitions@[k as int].name@ == name@
                },
                None => self.spec_find_transition(name@) is None,
            },
    {
        let n = self.transitions.len();
        let mut k: usize = 0;
        while k < n
            invariant
                0 <= k <= n,
                n == self.transitions@.len(),
                forall|a: int, b: int|
                    0 <= a < b < self.transitions@.len() ==> (
                    #[trigger] self.transitions@[a]).name@ != (
                    #[trigger] self.transitions@[b]).name@,
                forall|j: int| 0 <= j < k ==> self.transitions@[j].name@ != name@,
            decreases n - k,
        {
            if self.transitions[k].name.eq(name) {
                return Some(k);
            }
            k = k + 1;
        }
        None
    }

    /// Computes the room's bounding rectangle from its benches (half extent
    /// 5 units), items (half extent 5 units) and transitions (points), with
    /// stored y inverted; each axis is expanded symmetrically to at least 20
    /// units, and a room with no points of interest gets the canonical
    /// square of size 20 centered on the origin.
    pub fn calc_bounds(&self) -> (b: Rect)
        requires
            self.wf(),
        ensures
            b.x as int == spec_bounds(*self).0,
            b.y as int == spec_bounds(*self).1,
            b.w as int == spec_bounds(*self).2,
            b.h as int == spec_bounds(*self).3,
            b.w >= MIN_ROOM_SIZE,
            b.h >= MIN_ROOM_SIZE,
            -COORD_LIMIT - 15000 <= b.x,
            b.x + b.w <= COORD_LIMIT + 15000,
            -COORD_LIMIT - 15000 <= b.y,
            b.y + b.h <= COORD_LIMIT + 15000,
            b.bounded(),
            self.has_no_pois() ==> b.x == -10000 && b.y == -10000 && b.w == MIN_ROOM_SIZE
                && b.h == MIN_ROOM_SIZE,
    {
        let ghost total = room_boxes(*self);
        let nb = self.benches.len();
        let ni = self.items.len();
        let nt = self.transitions.len();
        proof {
            assert(total.len() == nb + ni + nt);
        }
        let mut acc: Option<(i64, i64, i64, i64)> = None;
        proof {
            assert(total.subrange(0, 0) =~= Seq::<(int, int, int, int)>::empty());
        }

        let mut i: usize = 0;
        while i < nb
            invariant
                self.wf(),
                total == room_boxes(*self),
                nb == self.benches@.len(),
                ni == self.items@.len(),
                nt == self.transitions@.len(),
                total.len() == nb + ni + nt,
                0 <= i <= nb,
                acc_view(acc) == mins_of(total.subrange(0, i as int)),
                acc_bounded(acc),
            decreases nb - i,
        {
            let (bx, by) = self.benches[i];
            let bb = (bx - POI_HALF_EXTENT, bx + POI_HALF_EXTENT, -by - POI_HALF_EXTENT, -by
                + POI_HALF_EXTENT);
            proof {
                let k = i as int;
                assert(total[k] == bench_box(self.benches@[k]));
                assert(total.subrange(0, k + 1).drop_last() =~= total.subrange(0, k));
                assert(total.subrange(0, k + 1).last() == total[k]);
            }
            acc = merge_acc(acc, bb);
            i = i + 1;
        }

        let mut i: usize = 0;
        while i < ni
            invariant
                self.wf(),
                total == room_boxes(*self),
                nb == self.benches@.len(),
                ni == self.items@.len(),
                nt == self.transitions@.len(),
                total.len() == nb + ni + nt,
                0 <= i <= ni,
                acc_view(acc) == mins_of(total.subrange(0, nb + i as int)),
                acc_bounded(acc),
            decreases ni - i,
        {
            let ix = self.items[i].1.x;
            let iy = self.items[i].1.y;
            let bb = (ix - POI_HALF_EXTENT, ix + POI_HALF_EXTENT, -iy - POI_HALF_EXTENT, -iy
                + POI_HALF_EXTENT);
            proof {
                let k = nb + i as int;
                assert(self.items@[i as int].1.wf());
                assert(total[k] == item_box(self.items@[i as int]));
                assert(total.subrange(0, k + 1).drop_last() =~= total.subrange(0, k));
                assert(total.subrange(0, k + 1).last() == total[k]);
            }
            acc = merge_acc(acc, bb);
            i = i + 1;
        }

        let mut i: usize = 0;
        while i < nt
            invariant
                self.wf(),
                total == room_boxes(*self),
                nb == self.benches@.len(),
                ni == self.items@.len(),
                nt == self.transitions@.len(),
                total.len() == nb + ni + nt,
                0 <= i <= nt,
                acc_view(acc) == mins_of(total.subrange(0, nb + ni + i as int)),
                acc_bounded(acc),
            decreases nt - i,
        {
            let tx = self.transitions[i].tr.x;
            let ty = self.transitions[i].tr.y;
            let bb = (tx, tx, -ty, -ty);
            proof {
                let k = nb + ni + i as int;
                assert(self.transitions@[i as int].wf(self.id@));
                assert(total[k] == transition_box(self.transitions@[i as int]));
                assert(total.subrange(0, k + 1).drop_last() =~= total.subrange(0, k));
                assert(total.subrange(0, k + 1).last() == total[k]);
            }
            acc = merge_acc(acc, bb);
            i = i + 1;
        }

        proof {
            assert(total.subrange(0, total.len() as int) =~= total);
        }

        match acc {
            None => {
                proof {
                    assert(total.len() == 0);
                }
                Rect::new(-10000, -10000, MIN_ROOM_SIZE, MIN_ROOM_SIZE)
            },
            Some(a) => {
                let (lo_x, hi_x) = expand_axis(a.0, a.1);
                let (lo_y, hi_y) = expand_axis(a.2, a.3);
                proof {
                    if self.has_no_pois() {
                        assert(total.len() == 0);
                    }
                }
                Rect::new(lo_x, lo_y, hi_x - lo_x, hi_y - lo_y)
            },
        }
    }
}

/// Expands one axis interval to the minimum room size about its center.
fn expand_axis(lo: i64, hi: i64) -> (r: (i64, i64))
    requires
        -COORD_LIMIT - POI_HALF_EXTENT <= lo <= hi <= COORD_LIMIT + POI_HALF_EXTENT,
    ensures
        (r.0 as int, r.1 as int) == spec_expand(lo as int, hi as int),
        r.0 <= r.1,
        r.1 - r.0 >= MIN_ROOM_SIZE,
        -COORD_LIMIT - 15000 <= r.0 <= r.1 <= COORD_LIMIT + 15000,
{
    if hi - lo < MIN_ROOM_SIZE {
        let c = div_floor(lo + hi, 2);
        assert(lo <= c <= hi) by {
            assert(2 * lo <= lo + hi <= 2 * hi);
            vstd::arithmetic::div_mod::lemma_div_multiples_vanish(lo as int, 2);
            vstd::arithmetic::div_mod::lemma_div_multiples_vanish(hi as int, 2);
            vstd::arithmetic::div_mod::lemma_div_is_ordered(2 * lo, lo + hi, 2);
            vstd::arithmetic::div_mod::lemma_div_is_ordered(lo + hi, 2 * hi, 2);
        }
        (c - 10000, c + 10000)
    } else {
        (lo, hi)
    }
}

} // verus!
