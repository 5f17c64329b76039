//! View queries: which room sits under a window point, and which rooms are
//! rendered around the current room.

use vstd::prelude::*;
use vstd::pervasive::VecAdditionalExecFns;

use crate::data::room::spec_bounds;
use crate::data::MapData;
use crate::fixed::div_floor;
use crate::path::edge_dest;
use crate::path::spec_edge_dest;
use crate::state::LoadedState;
use crate::util::transform_stack::spec_solve;
use crate::util::transform_stack::Affine;
use crate::util::transform_stack::TransformStack;

verus! {

/// Magnitude cap on window sizes and mouse coordinates, milli-units.
pub const WINDOW_LIMIT: i64 = 1_000_000_000;

/// Extra border, in milli-units, a room's bounds get for hit-testing.
pub const HIT_SLACK: i64 = 5_000;

/// Whether the window point `(mx, my)` falls on room `i`: the room has a
/// recorded position, and the point mapped back into the room's frame lies
/// within its bounds inflated by the hit slack.  The room's frame is the
/// window center, shifted by the camera and the room position; the test
/// point's y is taken relative to the box height, matching the room's
/// bottom-left local origin.
pub open spec fn spec_hit(
    map: MapData,
    st: LoadedState,
    win_w: int,
    win_h: int,
    mx: int,
    my: int,
    i: int,
) -> bool {
    let ps = st.rando_data.room_positions@;
    if ps[i] is None {
        false
    } else {
        let p = ps[i]->0;
        let tx = win_w / 2 - st.camera.x + p.0;
        let ty = win_h / 2 - st.camera.y + p.1;
        let b = spec_bounds(map.rooms@[i]);
        let rel_x = mx - tx;
        let rel_y = my - ty - b.3;
        &&& b.0 - HIT_SLACK <= rel_x <= b.0 + b.2 + HIT_SLACK
        &&& b.1 - HIT_SLACK <= rel_y <= b.1 + b.3 + HIT_SLACK
    }
}

/// Finds the room under a window point, preferring the lowest room index.
/// `win_w`, `win_h` are the window size and `mx`, `my` the point, all in
/// milli-units.
#[verifier::loop_isolation(false)]
pub fn get_room_at_window_position(
    map: &MapData,
    st: &LoadedState,
    win_w: i64,
    win_h: i64,
    mx: i64,
    my: i64,
) -> (r: Option<usize>)
    requires
        map.wf(),
        st.wf(*map),
        0 <= win_w <= WINDOW_LIMIT,
        0 <= win_h <= WINDOW_LIMIT,
        -WINDOW_LIMIT <= mx <= WINDOW_LIMIT,
        -WINDOW_LIMIT <= my <= WINDOW_LIMIT,
    ensures
        match r {
            Some(i) => {
                &&& (i as int) < map.rooms@.len()
                &&& spec_hit(*map, *st, win_w as int, win_h as int, mx as int, my as int, i as int)
                &&& forall|j: int|
                    0 <= j < i ==> !spec_hit(
                        *map,
                        *st,
                        win_w as int,
                        win_h as int,
                        mx as int,
                        my as int,
                        j,
                    )
            },
            None => forall|j: int|
                0 <= j < map.rooms@.len() ==> !spec_hit(
                    *map,
                    *st,
                    win_w as int,
                    win_h as int,
                    mx as int,
                    my as int,
                    j,
                ),
        },
{
    let mut transform = TransformStack::new();
    transform.push();
    let hw = div_floor(win_w, 2);
    let hh = div_floor(win_h, 2);
    proof {
        vstd::arithmetic::div_mod::lemma_div_multiples_vanish(hw as int, 1000);
        vstd::arithmetic::div_mod::lemma_div_multiples_vanish(hh as int, 1000);
    }
    transform.translate(hw, hh);
    proof {
        vstd::arithmetic::div_mod::lemma_div_multiples_vanish(-st.camera.x as int, 1000);
        vstd::arithmetic::div_mod::lemma_div_multiples_vanish(-st.camera.y as int, 1000);
    }
    transform.translate(-st.camera.x, -st.camera.y);
    let ghost base = transform.top();
    proof {
        assert(base.a == 1000 && base.b == 0 && base.c == 0 && base.d == 1000);
        assert(base.tx == win_w as int / 2 - st.camera.x);
        assert(base.ty == win_h as int / 2 - st.camera.y);
    }

    let n = map.rooms.len();
    let mut i: usize = 0;
    while i < n
        invariant
            0 <= i <= n,
            transform.wf(),
            transform.top() == base,
            transform.depth() == 2,
            forall|j: int|
                0 <= j < i ==> !spec_hit(
                    *map,
                    *st,
                    win_w as int,
                    win_h as int,
                    mx as int,
                    my as int,
                    j,
                ),
        decreases n - i,
    {
        let pos = st.rando_data.room_positions[i];
        match pos {
            Some(p) => {
                transform.push();
                proof {
                    vstd::arithmetic::div_mod::lemma_div_multiples_vanish(p.0 as int, 1000);
                    vstd::arithmetic::div_mod::lemma_div_multiples_vanish(p.1 as int, 1000);
                }
                transform.translate(p.0, p.1);
                let bounds = map.rooms[i].calc_bounds();
                let inflated = bounds.inflate(HIT_SLACK);
                let ghost frame = transform.top();
                proof {
                    assert(frame.a == 1000 && frame.b == 0 && frame.c == 0 && frame.d == 1000);
                    lemma_translation_solve(frame, mx as int, my as int);
                }
                match transform.inv_transform(mx, my) {
                    Ok(rel) => {
                        if inflated.contains(rel.0, rel.1 - bounds.h) {
                            proof {
                                assert(spec_hit(
                                    *map,
                                    *st,
                                    win_w as int,
                                    win_h as int,
                                    mx as int,
                                    my as int,
                                    i as int,
                                ));
                            }
                            return Some(i);
                        }
                    },
                    Err(_) => {
                        // unreachable: a pure translation frame always has a
                        // nonzero determinant and an in-range solution here
                        proof {
                            assert(false);
                        }
                    },
                }
                transform.pop();
            },
            None => {},
        }
        i = i + 1;
    }
    None
}

/// A solved inverse through a pure translation subtracts the offset.
proof fn lemma_translation_solve(m: Affine, x: int, y: int)
    requires
        m.a == 1000,
        m.b == 0,
        m.c == 0,
        m.d == 1000,
    ensures
        crate::util::transform_stack::spec_det(m) == 1_000_000,
        spec_solve(m, x, y) == (x - m.tx, y - m.ty),
{
    assert(m.a * m.d - m.b * m.c == 1_000_000) by (nonlinear_arith)
        requires
            m.a == 1000,
            m.b == 0,
            m.c == 0,
            m.d == 1000,
    ;
    let rx = 1000 * (x - m.tx);
    let ry = 1000 * (y - m.ty);
    assert(m.d * rx - m.b * ry == 1_000_000 * (x - m.tx) && m.a * ry - m.c * rx == 1_000_000 * (y
        - m.ty)) by (nonlinear_arith)
        requires
            m.a == 1000,
            m.b == 0,
            m.c == 0,
            m.d == 1000,
            rx == 1000 * (x - m.tx),
            ry == 1000 * (y - m.ty),
    ;
    vstd::arithmetic::div_mod::lemma_div_multiples_vanish(x - m.tx, 1_000_000);
    vstd::arithmetic::div_mod::lemma_div_multiples_vanish(y - m.ty, 1_000_000);
}

/// The set a boolean mask denotes.
pub open spec fn mask_set(s: Seq<bool>) -> Set<int> {
    Set::new(|j: int| 0 <= j < s.len() && s[j])
}

/// The rooms rendered around the current room: the current room itself,
/// expanded `depth` times across revealed transitions to their resolved
/// destination rooms.
pub open spec fn spec_render_set(
    map: MapData,
    tm: Map<Seq<char>, Seq<char>>,
    vis: Set<Seq<char>>,
    current: Seq<char>,
    depth: nat,
) -> Set<int>
    decreases depth,
{
    if depth == 0 {
        match map.spec_room_index(current) {
            Some(i) => Set::empty().insert(i),
            None => Set::empty(),
        }
    } else {
        let s = spec_render_set(map, tm, vis, current, (depth - 1) as nat);
        s.union(
            Set::new(
                |j: int|
                    exists|i: int, k: int|
                        s.contains(i) && 0 <= k < map.rooms@[i].transitions@.len() && (
                        #[trigger] spec_edge_dest(map, tm, vis, i, k)) == Some(j),
            ),
        )
    }
}

/// Every rendered room is a real room index.
proof fn lemma_render_set_range(
    map: MapData,
    tm: Map<Seq<char>, Seq<char>>,
    vis: Set<Seq<char>>,
    current: Seq<char>,
    depth: nat,
)
    ensures
        forall|j: int|
            spec_render_set(map, tm, vis, current, depth).contains(j) ==> 0 <= j
                < map.rooms@.len(),
    decreases depth,
{
    map.lemma_room_index_range(current);
    if depth > 0 {
        lemma_render_set_range(map, tm, vis, current, (depth - 1) as nat);
        assert forall|j: int|
            spec_render_set(map, tm, vis, current, depth).contains(j) implies 0 <= j
            < map.rooms@.len() by {
            let s = spec_render_set(map, tm, vis, current, (depth - 1) as nat);
            if !s.contains(j) {
                let (i, k): (int, int) = choose|i: int, k: int|
                    s.contains(i) && 0 <= k < map.rooms@[i].transitions@.len() && (
                    #[trigger] spec_edge_dest(map, tm, vis, i, k)) == Some(j);
                let rt = map.rooms@[i].transitions@[k];
                let target = crate::path::spec_resolved_target(tm, rt.qualified@);
                let info = crate::text::spec_transition_info(target)->0;
                map.lemma_room_index_range(info.0);
            }
        }
    }
}

/// Computes the render mask: one flag per room, set for every room the
/// view draws at the given exploration depth.
#[verifier::loop_isolation(false)]
#[verifier::rlimit(60)]
pub fn render_rooms(map: &MapData, st: &LoadedState, depth: u8) -> (r: Vec<bool>)
    requires
        map.wf(),
    ensures
        r@.len() == map.rooms@.len(),
        forall|j: int|
            0 <= j < map.rooms@.len() ==> (r@[j] <==> spec_render_set(
                *map,
                st.rando_data.transition_map@,
                st.rando_data.visited_transitions@,
                st.current_room@,
                depth as nat,
            ).contains(j)),
{
    let ghost tm = st.rando_data.transition_map@;
    let ghost vis = st.rando_data.visited_transitions@;
    let n = map.rooms.len();
    let mut included: Vec<bool> = Vec::new();
    let mut q: usize = 0;
    while q < n
        invariant
            0 <= q <= n,
            included@.len() == q,
            forall|j: int| 0 <= j < q ==> !included@[j],
        decreases n - q,
    {
        included.push(false);
        q = q + 1;
    }
    match map.room_index(&st.current_room) {
        Some(ci) => {
            included.set(ci, true);
        },
        None => {},
    }
    proof {
        assert(mask_set(included@) =~= spec_render_set(*map, tm, vis, st.current_room@, 0));
    }

    let mut round: usize = 0;
    let dlim: usize = depth as usize;
    while round < dlim
        invariant
            0 <= round <= dlim,
            included@.len() == n,
            mask_set(included@) == spec_render_set(*map, tm, vis, st.current_room@, round as nat),
        decreases dlim - round,
    {
        let ghost snap_set = mask_set(included@);
        let mut snap: Vec<bool> = Vec::new();
        let mut q: usize = 0;
        while q < n
            invariant
                0 <= q <= n,
                included@.len() == n,
                snap@.len() == q,
                forall|j: int| 0 <= j < q ==> snap@[j] == included@[j],
            decreases n - q,
        {
            let v = included[q];
            snap.push(v);
            q = q + 1;
        }
        proof {
            assert(snap@ =~= included@);
        }

        let mut i: usize = 0;
        while i < n
            invariant
                0 <= i <= n,
                included@.len() == n,
                snap@.len() == n,
                snap_set == mask_set(snap@),
                forall|j: int|
                    0 <= j < n ==> (included@[j] <==> (snap@[j] || exists|i2: int, k2: int|
                        0 <= i2 < i && snap@[i2] && 0 <= k2 < map.rooms@[i2].transitions@.len()
                            && (#[trigger] spec_edge_dest(*map, tm, vis, i2, k2)) == Some(j))),
            decreases n - i,
        {
            if snap[i] {
                let nt = map.rooms[i].transitions.len();
                let mut k: usize = 0;
                while k < nt
                    invariant
                        0 <= k <= nt,
                        nt == map.rooms@[i as int].transitions@.len(),
                        included@.len() == n,
                        forall|j: int|
                            0 <= j < n ==> (included@[j] <==> (snap@[j] || exists|
                                i2: int,
                                k2: int,
                            |
                                (0 <= i2 < i || (i2 == i && 0 <= k2 < k)) && 0 <= i2 < n
                                    && snap@[i2] && 0 <= k2 < map.rooms@[
                                    i2
                                ].transitions@.len() && (#[trigger] spec_edge_dest(
                                    *map,
                                    tm,
                                    vis,
                                    i2,
                                    k2,
                                )) == Some(j))),
                    decreases nt - k,
                {
                    match edge_dest(map, st, i, k) {
                        Some(j) => {
                            included.set(j, true);
                        },
                        None => {},
                    }
                    k = k + 1;
                }
            }
            i = i + 1;
        }
        proof {
            assert(mask_set(included@) =~= spec_render_set(
                *map,
                tm,
                vis,
                st.current_room@,
                (round + 1) as nat,
            )) by {
                lemma_render_set_range(*map, tm, vis, st.current_room@, (round + 1) as nat);
                lemma_render_set_range(*map, tm, vis, st.current_room@, round as nat);
            }
        }
        round = round + 1;
    }
    included
}

} // verus!
