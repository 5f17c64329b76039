//! The incremental force-relaxation layout engine.
//!
//! Every simulation tick adjusts each positioned room so that revealed
//! transitions line up with their resolved destinations while overlapping
//! rooms push apart.  The current room is the fixed reference frame and is
//! pinned to the origin; a room being dragged by the user is left alone.
//!
//! All factors are exact integers: strengths in parts per million, lengths
//! in milli-units, each contribution rounded once with floor division.

use vstd::prelude::*;
use vstd::math::abs;

use crate::data::room::spec_bounds;
use crate::data::transition::DoorClass;
use crate::data::transition::Transition;
use crate::text::spec_transition_info;
use vstd::math::max;
use vstd::math::min;
use crate::data::MapData;
use crate::data::POSITION_LIMIT;
use crate::fixed::clamp_i64;
use crate::fixed::clamp_wide;
use crate::fixed::div_floor;
use crate::fixed::div_floor_wide;
use crate::fixed::spec_clamp;
use crate::geom::Rect;
use crate::state::LoadedState;

verus! {

/// Base alignment strength, in parts per million.
pub const ALIGN_BASE_PPM: i64 = 5_000;

/// How much of the rough factor is added to the alignment strength, ppm.
pub const ALIGN_ROUGH_PPM: i64 = 400_000;

/// Axis strength for a forced correction, ppm.
pub const FORCED_PPM: i64 = 2_000_000;

/// Cap of the soft axis strength falloff, ppm.
pub const SOFT_CAP_PPM: i64 = 500_000;

/// Falloff start for opposite-facing doorway pairs, milli-units.
pub const FALLOFF_NEAR: i64 = 200_000;

/// Falloff start for all other pairings, milli-units.
pub const FALLOFF_FAR: i64 = 400_000;

/// Bounding-box inflation of the close overlap pass, milli-units.
pub const INFLATE_NEAR: i64 = 10_000;

/// Bounding-box inflation of the wide overlap pass, milli-units.
pub const INFLATE_WIDE: i64 = 25_000;

/// Per-tick movement cap on each axis, milli-units.
pub const MOVE_LIMIT: i64 = 100_000;

/// The time-decaying settling factor, in parts per million: a bump centered
/// half a second after the last room change, zero from one and a half
/// seconds on.
pub open spec fn spec_rough(elapsed_ms: int) -> int {
    let t = elapsed_ms - 500;
    if t * t >= 1_000_000 {
        0
    } else {
        1_000_000 - t * t
    }
}

/// Computes the rough factor from the milliseconds since the last room
/// change.
pub fn rough_factor(elapsed_ms: u64) -> (r: i64)
    ensures
        r == spec_rough(elapsed_ms as int),
        0 <= r <= 1_000_000,
{
    if elapsed_ms >= 1500 {
        proof {
            let t = elapsed_ms as int - 500;
            assert(t >= 1000);
            assert(t * t >= 1_000_000) by (nonlinear_arith)
                requires
                    t >= 1000,
            ;
        }
        0
    } else {
        let t: i64 = elapsed_ms as i64 - 500;
        proof {
            assert(t * t <= 1_000_000) by (nonlinear_arith)
                requires
                    -500 <= t <= 1000,
            ;
            assert(t * t >= 0) by (nonlinear_arith);
        }
        let sq: i64 = t * t;
        if sq >= 1_000_000 {
            0
        } else {
            1_000_000 - sq
        }
    }
}

/// The alignment strength for a given rough factor, ppm.
pub open spec fn spec_align_strength(rough: int) -> int {
    ALIGN_BASE_PPM + (ALIGN_ROUGH_PPM * rough) / 1_000_000
}

/// The per-axis strengths of one alignment pair, ppm.  Opposite-facing
/// horizontal doorways enforce x strongly (forcibly when the rooms sit on
/// the wrong side of each other) and leave y forced; vertical doorways
/// symmetrically; all other pairings use a softer falloff on both axes.
pub open spec fn spec_axis_strengths(
    kc: DoorClass,
    tc: DoorClass,
    dx: int,
    dy: int,
) -> (int, int) {
    if (kc is Rightward && tc is Leftward) || (kc is Leftward && tc is Rightward) {
        let soft = spec_clamp((abs(dx) - FALLOFF_NEAR) * 5, 0, SOFT_CAP_PPM as int);
        let sx = if (kc is Rightward && dx < 0) || (kc is Leftward && dx > 0) {
            FORCED_PPM as int
        } else {
            soft
        };
        (sx, FORCED_PPM as int)
    } else if (kc is Upward && tc is Downward) || (kc is Downward && tc is Upward) {
        let soft = spec_clamp((abs(dy) - FALLOFF_NEAR) * 5, 0, SOFT_CAP_PPM as int);
        let sy = if (kc is Upward && dy > 0) || (kc is Downward && dy < 0) {
            FORCED_PPM as int
        } else {
            soft
        };
        (FORCED_PPM as int, sy)
    } else {
        (
            spec_clamp(((abs(dx) - FALLOFF_FAR) * 5) / 2, 0, SOFT_CAP_PPM as int),
            spec_clamp(((abs(dy) - FALLOFF_FAR) * 5) / 2, 0, SOFT_CAP_PPM as int),
        )
    }
}

/// Computes the per-axis strengths.
pub fn axis_strengths(kc: DoorClass, tc: DoorClass, dx: i64, dy: i64) -> (r: (i64, i64))
    requires
        -8_000_000_000 <= dx <= 8_000_000_000,
        -8_000_000_000 <= dy <= 8_000_000_000,
    ensures
        (r.0 as int, r.1 as int) == spec_axis_strengths(kc, tc, dx as int, dy as int),
        0 <= r.0 <= FORCED_PPM,
        0 <= r.1 <= FORCED_PPM,
{
    let adx: i64 = if dx < 0 {
        -dx
    } else {
        dx
    };
    let ady: i64 = if dy < 0 {
        -dy
    } else {
        dy
    };
    let horiz = (matches!(kc, DoorClass::Rightward) && matches!(tc, DoorClass::Leftward))
        || (matches!(kc, DoorClass::Leftward) && matches!(tc, DoorClass::Rightward));
    let vert = (matches!(kc, DoorClass::Upward) && matches!(tc, DoorClass::Downward))
        || (matches!(kc, DoorClass::Downward) && matches!(tc, DoorClass::Upward));
    if horiz {
        let soft = clamp_i64((adx - FALLOFF_NEAR) * 5, 0, SOFT_CAP_PPM);
        let forced = (matches!(kc, DoorClass::Rightward) && dx < 0) || (matches!(
            kc,
            DoorClass::Leftward,
        ) && dx > 0);
        let sx = if forced {
            FORCED_PPM
        } else {
            soft
        };
        (sx, FORCED_PPM)
    } else if vert {
        let soft = clamp_i64((ady - FALLOFF_NEAR) * 5, 0, SOFT_CAP_PPM);
        let forced = (matches!(kc, DoorClass::Upward) && dy > 0) || (matches!(
            kc,
            DoorClass::Downward,
        ) && dy < 0);
        let sy = if forced {
            FORCED_PPM
        } else {
            soft
        };
        (FORCED_PPM, sy)
    } else {
        let sx = clamp_i64(div_floor((adx - FALLOFF_FAR) * 5, 2), 0, SOFT_CAP_PPM);
        let sy = clamp_i64(div_floor((ady - FALLOFF_FAR) * 5, 2), 0, SOFT_CAP_PPM);
        (sx, sy)
    }
}

/// One alignment contribution: displacement times total strength, divided
/// once by the ppm-squared scale.
pub open spec fn spec_align_term(d: int, s: int, sa: int) -> int {
    (d * s * sa) / 1_000_000_000_000
}

/// Computes one alignment contribution.
pub fn align_term(d: i64, s: i64, sa: i64) -> (r: i64)
    requires
        -8_000_000_000 <= d <= 8_000_000_000,
        0 <= s <= 1_000_000,
        0 <= sa <= FORCED_PPM,
    ensures
        r == spec_align_term(d as int, s as int, sa as int),
        -17_000_000_000 <= r <= 17_000_000_000,
{
    proof {
        assert((d as int) * (s as int) * (sa as int) <= 16_000_000_000_000_000_000_000
            && (d as int) * (s as int) * (sa as int) >= -16_000_000_000_000_000_000_000
            && (d as int) * (s as int) <= 8_000_000_000_000_000
            && (d as int) * (s as int) >= -8_000_000_000_000_000) by (nonlinear_arith)
            requires
                -8_000_000_000 <= d as int <= 8_000_000_000,
                0 <= s as int <= 1_000_000,
                0 <= sa as int <= 2_000_000,
        ;
    }
    let num: i128 = (d as i128) * (s as i128) * (sa as i128);
    let q = div_floor_wide(num, 1_000_000_000_000);
    proof {
        vstd::arithmetic::div_mod::lemma_div_is_ordered(
            -16_000_000_000_000_000_000_000,
            num as int,
            1_000_000_000_000,
        );
        vstd::arithmetic::div_mod::lemma_div_is_ordered(
            num as int,
            16_000_000_000_000_000_000_000,
            1_000_000_000_000,
        );
        assert(-16_000_000_000_000_000_000_000int / 1_000_000_000_000int == -16_000_000_000int);
        assert(16_000_000_000_000_000_000_000int / 1_000_000_000_000int == 16_000_000_000int);
    }
    q as i64
}

/// One overlap-removal contribution: the centroid offset times the overlap
/// area, the pass factor (50 per million for the close pass, 0.5 per
/// million for the wide pass) and the settled share of the rough factor.
pub open spec fn spec_overlap_term(cd: int, w: int, h: int, ir: int, wide: bool) -> int {
    if wide {
        (cd * w * h * ir * 5) / 10_000_000_000_000_000_000
    } else {
        (cd * w * h * ir * 5) / 100_000_000_000_000_000
    }
}

/// Computes one overlap-removal contribution.
pub fn overlap_term(cd: i64, w: i64, h: i64, ir: i64, wide: bool) -> (r: i64)
    requires
        -10_000_000_000 <= cd <= 10_000_000_000,
        0 <= w <= 4_000_000_000,
        0 <= h <= 4_000_000_000,
        0 <= ir <= 1_000_000,
    ensures
        r == spec_overlap_term(cd as int, w as int, h as int, ir as int, wide),
        !wide ==> -8_000_000_000_000_000_000 <= r <= 8_000_000_000_000_000_000,
        wide ==> -80_000_000_000_000_000 <= r <= 80_000_000_000_000_000,
{
    proof {
        assert((cd as int) * (w as int) * (h as int) * (ir as int) * 5
            <= 800_000_000_000_000_000_000_000_000_000_000_000 && (cd as int) * (w as int) * (
        h as int) * (ir as int) * 5 >= -800_000_000_000_000_000_000_000_000_000_000_000 && (
        cd as int) * (w as int) <= 40_000_000_000_000_000_000 && (cd as int) * (w as int)
            >= -40_000_000_000_000_000_000 && (cd as int) * (w as int) * (h as int)
            <= 160_000_000_000_000_000_000_000_000_000 && (cd as int) * (w as int) * (h as int)
            >= -160_000_000_000_000_000_000_000_000_000 && (cd as int) * (w as int) * (h as int)
            * (ir as int) <= 160_000_000_000_000_000_000_000_000_000_000_000 && (cd as int) * (
        w as int) * (h as int) * (ir as int) >= -160_000_000_000_000_000_000_000_000_000_000_000)
            by (nonlinear_arith)
            requires
                -10_000_000_000 <= cd as int <= 10_000_000_000,
                0 <= w as int <= 4_000_000_000,
                0 <= h as int <= 4_000_000_000,
                0 <= ir as int <= 1_000_000,
        ;
    }
    let num: i128 = (cd as i128) * (w as i128) * (h as i128) * (ir as i128) * 5;
    let divisor: i128 = if wide {
        10_000_000_000_000_000_000
    } else {
        100_000_000_000_000_000
    };
    let q = div_floor_wide(num, divisor);
    proof {
        vstd::arithmetic::div_mod::lemma_div_is_ordered(
            -800_000_000_000_000_000_000_000_000_000_000_000,
            num as int,
            divisor as int,
        );
        vstd::arithmetic::div_mod::lemma_div_is_ordered(
            num as int,
            800_000_000_000_000_000_000_000_000_000_000_000,
            divisor as int,
        );
        if wide {
            assert(-800_000_000_000_000_000_000_000_000_000_000_000int
                / 10_000_000_000_000_000_000int == -80_000_000_000_000_000int);
            assert(800_000_000_000_000_000_000_000_000_000_000_000int
                / 10_000_000_000_000_000_000int == 80_000_000_000_000_000int);
        } else {
            assert(-800_000_000_000_000_000_000_000_000_000_000_000int
                / 100_000_000_000_000_000int == -8_000_000_000_000_000_000int);
            assert(800_000_000_000_000_000_000_000_000_000_000_000int
                / 100_000_000_000_000_000int == 8_000_000_000_000_000_000int);
        }
    }
    q as i64
}

/// A bounding rectangle translated to a live position and inflated, as
/// `(x, y, w, h)`: the room's local origin is the bottom-left of its box.
pub open spec fn spec_placed_box(
    b: (int, int, int, int),
    px: int,
    py: int,
    infl: int,
) -> (int, int, int, int) {
    (b.0 + px - infl, b.1 + py + b.3 - infl, b.2 + 2 * infl, b.3 + 2 * infl)
}

pub open spec fn spec_boxes_overlap(a: (int, int, int, int), c: (int, int, int, int)) -> bool {
    &&& a.0 <= c.0 + c.2
    &&& c.0 <= a.0 + a.2
    &&& a.1 <= c.1 + c.3
    &&& c.1 <= a.1 + a.3
}

pub open spec fn spec_box_intersection(
    a: (int, int, int, int),
    c: (int, int, int, int),
) -> (int, int, int, int) {
    let lx = max(a.0, c.0);
    let ty = max(a.1, c.1);
    let rx = min(a.0 + a.2, c.0 + c.2);
    let by = min(a.1 + a.3, c.1 + c.3);
    (lx, ty, rx - lx, by - ty)
}

pub open spec fn spec_box_center(a: (int, int, int, int)) -> (int, int) {
    (a.0 + a.2 / 2, a.1 + a.3 / 2)
}

/// The alignment contribution of one revealed transition of room `i`: the
/// displacement that would make the two transition points coincide, scaled
/// by the rough-dependent strength and the orientation-aware axis gates.
/// Zero when the transition is not revealed or its destination cannot be
/// resolved to a positioned other room.
pub open spec fn spec_align_delta(
    map: MapData,
    tm: Map<Seq<char>, Seq<char>>,
    vis: Set<Seq<char>>,
    ps: Seq<Option<(i64, i64)>>,
    rough: int,
    i: int,
    k: int,
) -> (int, int) {
    let room = map.rooms@[i];
    let rt = room.transitions@[k];
    let this = ps[i]->0;
    if !vis.contains(rt.qualified@) {
        (0, 0)
    } else {
        let target = if tm.contains_key(rt.qualified@) {
            tm[rt.qualified@]
        } else {
            rt.qualified@
        };
        match spec_transition_info(target) {
            None => (0, 0),
            Some(info) => match map.spec_room_index(info.0) {
                None => (0, 0),
                Some(j) => if j == i || ps[j] is None {
                    (0, 0)
                } else {
                    match map.rooms@[j].spec_find_transition(info.1) {
                        None => (0, 0),
                        Some(tk) => {
                            let to = map.rooms@[j].transitions@[tk];
                            let other = ps[j]->0;
                            let dx = (-rt.tr.x + to.tr.x) - this.0 + other.0;
                            let dy = (-(spec_bounds(room).3 - rt.tr.y) + (spec_bounds(
                                map.rooms@[j],
                            ).3 - to.tr.y)) - this.1 + other.1;
                            let st = spec_align_strength(rough);
                            let sa = spec_axis_strengths(rt.class, to.class, dx, dy);
                            (spec_align_term(dx, st, sa.0), spec_align_term(dy, st, sa.1))
                        },
                    }
                },
            },
        }
    }
}

/// The alignment contributions of room `i`'s first `k` transitions.
pub open spec fn spec_align_sum(
    map: MapData,
    tm: Map<Seq<char>, Seq<char>>,
    vis: Set<Seq<char>>,
    ps: Seq<Option<(i64, i64)>>,
    rough: int,
    i: int,
    k: int,
) -> (int, int)
    decreases k,
{
    if k <= 0 {
        (0, 0)
    } else {
        let p = spec_align_sum(map, tm, vis, ps, rough, i, k - 1);
        let d = spec_align_delta(map, tm, vis, ps, rough, i, k - 1);
        (p.0 + d.0, p.1 + d.1)
    }
}

/// The overlap-removal contribution of the positioned room `j` against room
/// `i`: a close pass pushing away from the overlap's centroid, and a wide
/// pass pushing away from the other room's centroid, both fading in as the
/// rough factor fades out.
pub open spec fn spec_overlap_delta(
    map: MapData,
    ps: Seq<Option<(i64, i64)>>,
    rough: int,
    i: int,
    j: int,
) -> (int, int) {
    if j == i || ps[j] is None {
        (0, 0)
    } else {
        let this = ps[i]->0;
        let other = ps[j]->0;
        let bi = spec_bounds(map.rooms@[i]);
        let bj = spec_bounds(map.rooms@[j]);
        let ir = 1_000_000 - rough;
        let a1 = spec_placed_box(bi, this.0 as int, this.1 as int, INFLATE_NEAR as int);
        let c1 = spec_placed_box(bj, other.0 as int, other.1 as int, INFLATE_NEAR as int);
        let near = if spec_boxes_overlap(a1, c1) {
            let o = spec_box_intersection(a1, c1);
            (
                spec_overlap_term(spec_box_center(a1).0 - spec_box_center(o).0, o.2, o.3, ir, false),
                spec_overlap_term(spec_box_center(a1).1 - spec_box_center(o).1, o.2, o.3, ir, false),
            )
        } else {
            (0, 0)
        };
        let a2 = spec_placed_box(bi, this.0 as int, this.1 as int, INFLATE_WIDE as int);
        let c2 = spec_placed_box(bj, other.0 as int, other.1 as int, INFLATE_WIDE as int);
        let wide = if spec_boxes_overlap(a2, c2) {
            let o = spec_box_intersection(a2, c2);
            (
                spec_overlap_term(spec_box_center(a2).0 - spec_box_center(c2).0, o.2, o.3, ir, true),
                spec_overlap_term(spec_box_center(a2).1 - spec_box_center(c2).1, o.2, o.3, ir, true),
            )
        } else {
            (0, 0)
        };
        (near.0 + wide.0, near.1 + wide.1)
    }
}

/// The overlap contributions of the first `j` rooms against room `i`.
pub open spec fn spec_overlap_sum(
    map: MapData,
    ps: Seq<Option<(i64, i64)>>,
    rough: int,
    i: int,
    j: int,
) -> (int, int)
    decreases j,
{
    if j <= 0 {
        (0, 0)
    } else {
        let p = spec_overlap_sum(map, ps, rough, i, j - 1);
        let d = spec_overlap_delta(map, ps, rough, i, j - 1);
        (p.0 + d.0, p.1 + d.1)
    }
}

/// Room `i`'s per-tick movement: all alignment and overlap contributions
/// summed, clamped to the per-tick cap on each axis.
pub open spec fn spec_move(
    map: MapData,
    tm: Map<Seq<char>, Seq<char>>,
    vis: Set<Seq<char>>,
    ps: Seq<Option<(i64, i64)>>,
    rough: int,
    i: int,
) -> (int, int) {
    let a = spec_align_sum(map, tm, vis, ps, rough, i, map.rooms@[i].transitions@.len() as int);
    let o = spec_overlap_sum(map, ps, rough, i, map.rooms@.len() as int);
    (
        spec_clamp(a.0 + o.0, -MOVE_LIMIT as int, MOVE_LIMIT as int),
        spec_clamp(a.1 + o.1, -MOVE_LIMIT as int, MOVE_LIMIT as int),
    )
}

/// Room `i`'s new position: the movement applied and the result clamped to
/// the position cap.
pub open spec fn spec_new_pos(
    map: MapData,
    tm: Map<Seq<char>, Seq<char>>,
    vis: Set<Seq<char>>,
    ps: Seq<Option<(i64, i64)>>,
    rough: int,
    i: int,
) -> (i64, i64) {
    let this = ps[i]->0;
    let mv = spec_move(map, tm, vis, ps, rough, i);
    (
        spec_clamp(this.0 + mv.0, -POSITION_LIMIT as int, POSITION_LIMIT as int) as i64,
        spec_clamp(this.1 + mv.1, -POSITION_LIMIT as int, POSITION_LIMIT as int) as i64,
    )
}

/// One room's step of the tick: the current room is pinned to the origin,
/// a room without a position or being dragged is left alone, every other
/// room moves by its clamped force sum.
pub open spec fn spec_step_room(
    map: MapData,
    st: LoadedState,
    ps: Seq<Option<(i64, i64)>>,
    rough: int,
    i: int,
) -> Seq<Option<(i64, i64)>> {
    if map.rooms@[i].id@ == st.current_room@ {
        ps.update(i, Some((0i64, 0i64)))
    } else if ps[i] is None {
        ps
    } else if st.dragging_room && st.selected_room is Some && st.selected_room->0 == i {
        ps
    } else {
        ps.update(
            i,
            Some(
                spec_new_pos(
                    map,
                    st.rando_data.transition_map@,
                    st.rando_data.visited_transitions@,
                    ps,
                    rough,
                    i,
                ),
            ),
        )
    }
}

/// The positions after the first `n` rooms' steps, each step seeing the
/// previous steps' updates.
pub open spec fn spec_tick_upto(
    map: MapData,
    st: LoadedState,
    rough: int,
    n: int,
) -> Seq<Option<(i64, i64)>>
    decreases n,
{
    if n <= 0 {
        st.rando_data.room_positions@
    } else {
        spec_step_room(map, st, spec_tick_upto(map, st, rough, n - 1), rough, n - 1)
    }
}

/// The positions after one whole layout tick.
pub open spec fn spec_tick(map: MapData, st: LoadedState, rough: int) -> Seq<Option<(i64, i64)>> {
    spec_tick_upto(map, st, rough, map.rooms@.len() as int)
}

/// The alignment strength for a rough factor.
fn align_strength(rough: i64) -> (s: i64)
    requires
        0 <= rough <= 1_000_000,
    ensures
        s as int == spec_align_strength(rough as int),
        0 <= s <= 405_000,
{
    let q = div_floor(ALIGN_ROUGH_PPM * rough, 1_000_000);
    proof {
        vstd::arithmetic::div_mod::lemma_div_pos_is_pos(ALIGN_ROUGH_PPM as int * rough, 1_000_000);
        vstd::arithmetic::div_mod::lemma_div_is_ordered(
            ALIGN_ROUGH_PPM as int * rough,
            400_000_000_000,
            1_000_000,
        );
        assert(400_000_000_000int / 1_000_000int == 400_000int);
    }
    ALIGN_BASE_PPM + q
}

/// Computes room `i`'s per-tick movement against the current positions.
#[verifier::loop_isolation(false)]
#[verifier::rlimit(100)]
fn room_move(map: &MapData, st: &LoadedState, rough: i64, i: usize) -> (mv: (i64, i64))
    requires
        map.wf(),
        st.rando_data.positions_wf(map.rooms@.len() as int),
        0 <= rough <= 1_000_000,
        i < map.rooms@.len(),
        st.rando_data.room_positions@[i as int] is Some,
    ensures
        (mv.0 as int, mv.1 as int) == spec_move(
            *map,
            st.rando_data.transition_map@,
            st.rando_data.visited_transitions@,
            st.rando_data.room_positions@,
            rough as int,
            i as int,
        ),
        -MOVE_LIMIT <= mv.0 <= MOVE_LIMIT,
        -MOVE_LIMIT <= mv.1 <= MOVE_LIMIT,
{
    let ghost tmg = st.rando_data.transition_map@;
    let ghost visg = st.rando_data.visited_transitions@;
    let ghost ps = st.rando_data.room_positions@;
    let room = &map.rooms[i];
    proof {
        assert(map.rooms@[i as int].wf());
    }
    let bounds = room.calc_bounds();
    let (this_x, this_y) = match st.rando_data.room_positions[i] {
        Some(p) => p,
        None => (0, 0),
    };
    let strength = align_strength(rough);

    let mut acc_x: i128 = 0;
    let mut acc_y: i128 = 0;
    let nt = room.transitions.len();
    let mut k: usize = 0;
    while k < nt
        invariant
            0 <= k <= nt,
            acc_x == spec_align_sum(*map, tmg, visg, ps, rough as int, i as int, k as int).0,
            acc_y == spec_align_sum(*map, tmg, visg, ps, rough as int, i as int, k as int).1,
            -17_000_000_000 * k <= acc_x <= 17_000_000_000 * k,
            -17_000_000_000 * k <= acc_y <= 17_000_000_000 * k,
        decreases nt - k,
    {
        let ghost d = spec_align_delta(*map, tmg, visg, ps, rough as int, i as int, k as int);
        let rt = &room.transitions[k];
        proof {
            assert(map.rooms@[i as int].transitions@[k as int].wf(map.rooms@[i as int].id@));
        }
        let mut dxy: Option<(i64, i64)> = None;
        if st.rando_data.visited_transitions.contains(&rt.qualified) {
            let target: String = match st.rando_data.transition_map.get(&rt.qualified) {
                Some(dest) => dest.clone(),
                None => rt.qualified.clone(),
            };
            match Transition::get_transition_info(target.as_str()) {
                Some(info) => {
                    match map.room_index(&info.0) {
                        Some(j) => {
                            if j != i {
                                match st.rando_data.room_positions[j] {
                                    Some(other) => {
                                        match map.rooms[j].find_transition(&info.1) {
                                            Some(tk) => {
                                                proof {
                                                    assert(map.rooms@[j as int].wf());
                                                    assert(map.rooms@[j as int]
                                                        .transitions@[tk as int].wf(
                                                        map.rooms@[j as int].id@,
                                                    ));
                                                }
                                                let next_bounds = map.rooms[j].calc_bounds();
                                                let to_tr = &map.rooms[j].transitions[tk];
                                                let dx = (-rt.tr.x + to_tr.tr.x) - this_x
                                                    + other.0;
                                                let dy = (-(bounds.h - rt.tr.y) + (next_bounds.h
                                                    - to_tr.tr.y)) - this_y + other.1;
                                                let (sx, sy) = axis_strengths(
                                                    rt.class,
                                                    to_tr.class,
                                                    dx,
                                                    dy,
                                                );
                                                let tx = align_term(dx, strength, sx);
                                                let ty = align_term(dy, strength, sy);
                                                dxy = Some((tx, ty));
                                            },
                                            None => {},
                                        }
                                    },
                                    None => {},
                                }
                            }
                        },
                        None => {},
                    }
                },
                None => {},
            }
        }
        match dxy {
            Some(t) => {
                proof {
                    assert(d == (t.0 as int, t.1 as int));
                }
                acc_x = acc_x + (t.0 as i128);
                acc_y = acc_y + (t.1 as i128);
            },
            None => {
                proof {
                    assert(d == (0int, 0int));
                }
            },
        }
        k = k + 1;
    }

    let ghost align_total = spec_align_sum(*map, tmg, visg, ps, rough as int, i as int, nt as int);
    let ghost acap = 17_000_000_000int * nt as int;
    let ir = 1_000_000 - rough;
    let n = map.rooms.len();
    let mut j: usize = 0;
    while j < n
        invariant
            0 <= j <= n,
            acc_x == align_total.0 + spec_overlap_sum(*map, ps, rough as int, i as int, j as int).0,
            acc_y == align_total.1 + spec_overlap_sum(*map, ps, rough as int, i as int, j as int).1,
            -acap - 8_080_000_000_000_000_000 * j <= acc_x <= acap + 8_080_000_000_000_000_000 * j,
            -acap - 8_080_000_000_000_000_000 * j <= acc_y <= acap + 8_080_000_000_000_000_000 * j,
        decreases n - j,
    {
        let ghost d = spec_overlap_delta(*map, ps, rough as int, i as int, j as int);
        let mut dxy: Option<(i64, i64)> = None;
        if j != i {
            match st.rando_data.room_positions[j] {
                Some(other) => {
                    proof {
                        assert(map.rooms@[j as int].wf());
                    }
                    let other_bounds = map.rooms[j].calc_bounds();
                    let a1 = bounds.translate(this_x, this_y + bounds.h).inflate(INFLATE_NEAR);
                    let c1 = other_bounds.translate(other.0, other.1 + other_bounds.h).inflate(
                        INFLATE_NEAR,
                    );
                    let mut ox: i64 = 0;
                    let mut oy: i64 = 0;
                    if a1.overlaps(&c1) {
                        let o = a1.intersection(&c1);
                        let ac = a1.center();
                        let oc = o.center();
                        let t1 = overlap_term(ac.0 - oc.0, o.w, o.h, ir, false);
                        let t2 = overlap_term(ac.1 - oc.1, o.w, o.h, ir, false);
                        ox = t1;
                        oy = t2;
                    }
                    let a2 = bounds.translate(this_x, this_y + bounds.h).inflate(INFLATE_WIDE);
                    let c2 = other_bounds.translate(other.0, other.1 + other_bounds.h).inflate(
                        INFLATE_WIDE,
                    );
                    if a2.overlaps(&c2) {
                        let o = a2.intersection(&c2);
                        let ac = a2.center();
                        let cc = c2.center();
                        let t1 = overlap_term(ac.0 - cc.0, o.w, o.h, ir, true);
                        let t2 = overlap_term(ac.1 - cc.1, o.w, o.h, ir, true);
                        ox = ox + t1;
                        oy = oy + t2;
                    }
                    dxy = Some((ox, oy));
                },
                None => {},
            }
        }
        match dxy {
            Some(t) => {
                proof {
                    assert(d == (t.0 as int, t.1 as int));
                }
                acc_x = acc_x + (t.0 as i128);
                acc_y = acc_y + (t.1 as i128);
            },
            None => {
                proof {
                    assert(d == (0int, 0int));
                }
            },
        }
        j = j + 1;
    }

    let mx = clamp_wide(acc_x, -MOVE_LIMIT, MOVE_LIMIT);
    let my = clamp_wide(acc_y, -MOVE_LIMIT, MOVE_LIMIT);
    (mx, my)
}

/// One layout tick: adjusts every positioned room's position so revealed
/// transitions line up and overlapping rooms separate; pins the current
/// room to the origin; leaves a dragged selected room alone; keeps every
/// position within the position cap.
#[verifier::loop_isolation(false)]
pub fn update_room_positions(map: &MapData, st: &mut LoadedState, elapsed_ms: u64)
    requires
        map.wf(),
        old(st).wf(*map),
    ensures
        final(st).wf(*map),
        final(st).rando_data.room_positions@ == spec_tick(
            *map,
            *old(st),
            spec_rough(elapsed_ms as int),
        ),
        final(st).current_room == old(st).current_room,
        final(st).player_x == old(st).player_x,
        final(st).player_y == old(st).player_y,
        final(st).rando_data.transition_map == old(st).rando_data.transition_map,
        final(st).rando_data.visited_transitions == old(st).rando_data.visited_transitions,
        final(st).camera == old(st).camera,
        final(st).hovered_room == old(st).hovered_room,
        final(st).selected_room == old(st).selected_room,
        final(st).dragging_room == old(st).dragging_room,
        forall|q: int|
            0 <= q < map.rooms@.len() && map.rooms@[q].id@ == old(st).current_room@
                ==> final(st).rando_data.room_positions@[q] == Some((0i64, 0i64)),
        forall|q: int|
            0 <= q < map.rooms@.len() && old(st).dragging_room
                && old(st).selected_room == Some(q as usize)
                && map.rooms@[q].id@ != old(st).current_room@
                ==> final(st).rando_data.room_positions@[q]
                == old(st).rando_data.room_positions@[q],
        forall|q: int|
            0 <= q < map.rooms@.len() && (#[trigger] final(st).rando_data.room_positions@[q])
                is Some ==> {
                &&& -POSITION_LIMIT <= (final(st).rando_data.room_positions@[q]->0).0
                    <= POSITION_LIMIT
                &&& -POSITION_LIMIT <= (final(st).rando_data.room_positions@[q]->0).1
                    <= POSITION_LIMIT
            },
{
    let rough = rough_factor(elapsed_ms);
    let ghost st0 = *st;
    let n = map.rooms.len();
    let mut i: usize = 0;
    while i < n
        invariant
            0 <= i <= n,
            st.rando_data.room_positions@ == spec_tick_upto(*map, st0, rough as int, i as int),
            st.rando_data.room_positions@.len() == n,
            st.rando_data.positions_wf(map.rooms@.len() as int),
            st.current_room == st0.current_room,
            st.player_x == st0.player_x,
            st.player_y == st0.player_y,
            st.rando_data.transition_map == st0.rando_data.transition_map,
            st.rando_data.visited_transitions == st0.rando_data.visited_transitions,
            st.camera == st0.camera,
            st.hovered_room == st0.hovered_room,
            st.selected_room == st0.selected_room,
            st.dragging_room == st0.dragging_room,
        decreases n - i,
    {
        let ghost ps = st.rando_data.room_positions@;
        if map.rooms[i].id.eq(&st.current_room) {
            st.rando_data.room_positions.set(i, Some((0, 0)));
        } else {
            let has_pos = match st.rando_data.room_positions[i] {
                Some(_) => true,
                None => false,
            };
            if has_pos {
                let dragged = st.dragging_room && match st.selected_room {
                    Some(s) => s == i,
                    None => false,
                };
                if !dragged {
                    let (this_x, this_y) = match st.rando_data.room_positions[i] {
                        Some(p) => p,
                        None => (0, 0),
                    };
                    let mv = room_move(map, st, rough, i);
                    let nx = clamp_i64(this_x + mv.0, -POSITION_LIMIT, POSITION_LIMIT);
                    let ny = clamp_i64(this_y + mv.1, -POSITION_LIMIT, POSITION_LIMIT);
                    st.rando_data.room_positions.set(i, Some((nx, ny)));
                    proof {
                        assert(st.rando_data.room_positions@ == spec_step_room(
                            *map,
                            st0,
                            ps,
                            rough as int,
                            i as int,
                        ));
                    }
                }
            }
        }
        i = i + 1;
    }
    proof {
        assert forall|q: int|
            0 <= q < map.rooms@.len() && map.rooms@[q].id@ == st0.current_room@ implies st
            .rando_data.room_positions@[q] == Some((0i64, 0i64)) by {
            lemma_tick_pins_current(*map, st0, rough as int, q);
        }
        assert forall|q: int|
            0 <= q < map.rooms@.len() && st0.dragging_room && st0.selected_room == Some(q as usize)
                && map.rooms@[q].id@ != st0.current_room@ implies st.rando_data.room_positions@[q]
            == st0.rando_data.room_positions@[q] by {
            lemma_tick_keeps_dragged(*map, st0, rough as int, q as usize);
        }
    }
}

/// A room's step leaves every other room's position alone.
pub proof fn lemma_step_room_frame(
    map: MapData,
    st: LoadedState,
    ps: Seq<Option<(i64, i64)>>,
    rough: int,
    i: int,
    q: int,
)
    requires
        0 <= i < ps.len(),
        0 <= q < ps.len(),
        q != i,
    ensures
        spec_step_room(map, st, ps, rough, i).len() == ps.len(),
        spec_step_room(map, st, ps, rough, i)[q] == ps[q],
{
}

/// The first `n` steps never touch a room at or past `n`.
pub proof fn lemma_tick_upto_untouched(map: MapData, st: LoadedState, rough: int, n: int, q: int)
    requires
        0 <= n <= q < st.rando_data.room_positions@.len(),
        n <= map.rooms@.len(),
    ensures
        spec_tick_upto(map, st, rough, n).len() == st.rando_data.room_positions@.len(),
        spec_tick_upto(map, st, rough, n)[q] == st.rando_data.room_positions@[q],
    decreases n,
{
    if n > 0 {
        lemma_tick_upto_untouched(map, st, rough, n - 1, q);
        lemma_step_room_frame(map, st, spec_tick_upto(map, st, rough, n - 1), rough, n - 1, q);
    }
}

/// The tick's steps preserve the length of the position table.
pub proof fn lemma_tick_upto_len(map: MapData, st: LoadedState, rough: int, n: int)
    requires
        0 <= n <= map.rooms@.len(),
        n <= st.rando_data.room_positions@.len(),
    ensures
        spec_tick_upto(map, st, rough, n).len() == st.rando_data.room_positions@.len(),
    decreases n,
{
    if n > 0 {
        lemma_tick_upto_len(map, st, rough, n - 1);
    }
}

/// After room `q`'s own step, later steps leave its position alone: the
/// whole prefix of `n` steps gives room `q` exactly its step's outcome.
pub proof fn lemma_tick_upto_after(map: MapData, st: LoadedState, rough: int, n: int, q: int)
    requires
        0 <= q < n <= map.rooms@.len(),
        map.rooms@.len() == st.rando_data.room_positions@.len(),
    ensures
        spec_tick_upto(map, st, rough, n)[q] == spec_step_room(
            map,
            st,
            spec_tick_upto(map, st, rough, q),
            rough,
            q,
        )[q],
    decreases n,
{
    lemma_tick_upto_len(map, st, rough, q);
    if n == q + 1 {
    } else {
        lemma_tick_upto_after(map, st, rough, n - 1, q);
        lemma_tick_upto_len(map, st, rough, n - 1);
        lemma_step_room_frame(map, st, spec_tick_upto(map, st, rough, n - 1), rough, n - 1, q);
    }
}

/// The current room is the fixed reference frame: after a whole tick its
/// position is exactly the origin.
pub proof fn lemma_tick_pins_current(map: MapData, st: LoadedState, rough: int, ci: int)
    requires
        map.rooms@.len() == st.rando_data.room_positions@.len(),
        0 <= ci < map.rooms@.len(),
        map.rooms@[ci].id@ == st.current_room@,
    ensures
        spec_tick(map, st, rough)[ci] == Some((0i64, 0i64)),
{
    lemma_tick_upto_after(map, st, rough, map.rooms@.len() as int, ci);
    lemma_tick_upto_len(map, st, rough, ci);
}

/// A dragged, selected room is never moved by the tick: within a tick its
/// position can change only through the drag itself.
pub proof fn lemma_tick_keeps_dragged(map: MapData, st: LoadedState, rough: int, s: usize)
    requires
        map.rooms@.len() == st.rando_data.room_positions@.len(),
        (s as int) < map.rooms@.len(),
        st.dragging_room,
        st.selected_room == Some(s),
        map.rooms@[s as int].id@ != st.current_room@,
    ensures
        spec_tick(map, st, rough)[s as int] == st.rando_data.room_positions@[s as int],
{
    lemma_tick_upto_after(map, st, rough, map.rooms@.len() as int, s as int);
    lemma_tick_upto_untouched(map, st, rough, s as int, s as int);
    lemma_tick_upto_len(map, st, rough, s as int);
}

} // verus!
