//! Shortest-path search over the revealed subgraph.
//!
//! An edge exists from room `A` to room `B` for every transition of `A`
//! that the player has revealed and whose resolved destination lies in `B`;
//! every edge costs one hop.  The search is a uniform-cost sweep with a
//! linear scan for the cheapest frontier room (ample at this graph's
//! scale); ties go to the lowest room index.

use vstd::prelude::*;
use vstd::pervasive::VecAdditionalExecFns;

use crate::data::transition::Transition;
use crate::data::MapData;
use crate::state::GameState;
use crate::state::LoadedState;
use crate::text::spec_transition_info;

verus! {

/// Where a transition id leads: its remapped destination when the session
/// has one, else the id itself.
pub open spec fn spec_resolved_target(tm: Map<Seq<char>, Seq<char>>, qid: Seq<char>) -> Seq<char> {
    if tm.contains_key(qid) {
        tm[qid]
    } else {
        qid
    }
}

/// The room that the `k`-th transition of room `u` connects to, if that
/// transition is revealed and its resolved destination names a known room.
pub open spec fn spec_edge_dest(
    map: MapData,
    tm: Map<Seq<char>, Seq<char>>,
    vis: Set<Seq<char>>,
    u: int,
    k: int,
) -> Option<int> {
    let rt = map.rooms@[u].transitions@[k];
    if !vis.contains(rt.qualified@) {
        None
    } else {
        match spec_transition_info(spec_resolved_target(tm, rt.qualified@)) {
            None => None,
            Some(info) => map.spec_room_index(info.0),
        }
    }
}

/// A revealed edge from room `u` to room `v` through the transition with
/// qualified id `t`.
pub open spec fn spec_edge(
    map: MapData,
    tm: Map<Seq<char>, Seq<char>>,
    vis: Set<Seq<char>>,
    u: int,
    v: int,
    t: Seq<char>,
) -> bool {
    exists|k: int|
        0 <= k < map.rooms@[u].transitions@.len() && map.rooms@[u].transitions@[k].qualified@ == t
            && (#[trigger] spec_edge_dest(map, tm, vis, u, k)) == Some(v)
}

/// `path` is a sequence of revealed transitions leading from room `u` to
/// room `dst`.
pub open spec fn spec_path_ok(
    map: MapData,
    tm: Map<Seq<char>, Seq<char>>,
    vis: Set<Seq<char>>,
    u: int,
    dst: int,
    path: Seq<Seq<char>>,
) -> bool
    decreases path.len(),
{
    if path.len() == 0 {
        u == dst
    } else {
        exists|v: int|
            #[trigger] spec_edge(map, tm, vis, u, v, path[0]) && spec_path_ok(
                map,
                tm,
                vis,
                v,
                dst,
                path.drop_first(),
            )
    }
}

/// The character sequences of a string sequence.
pub open spec fn views_of(p: Seq<String>) -> Seq<Seq<char>> {
    p.map_values(|s: String| s@)
}

/// How many rooms a sweep has settled.
pub open spec fn count_false(s: Seq<bool>) -> int
    decreases s.len(),
{
    if s.len() == 0 {
        0int
    } else {
        count_false(s.drop_last()) + if s.last() {
            0int
        } else {
            1int
        }
    }
}

proof fn lemma_count_false_update(s: Seq<bool>, u: int)
    requires
        0 <= u < s.len(),
        s[u],
    ensures
        count_false(s.update(u, false)) == count_false(s) + 1,
    decreases s.len(),
{
    if u == s.len() - 1 {
        assert(s.update(u, false).drop_last() =~= s.drop_last());
    } else {
        assert(s.update(u, false).drop_last() =~= s.drop_last().update(u, false));
        lemma_count_false_update(s.drop_last(), u);
    }
}

proof fn lemma_count_false_bound(s: Seq<bool>)
    ensures
        0 <= count_false(s) <= s.len(),
        count_false(s) == s.len() ==> forall|j: int| 0 <= j < s.len() ==> !s[j],
    decreases s.len(),
{
    if s.len() > 0 {
        lemma_count_false_bound(s.drop_last());
        if count_false(s) == s.len() {
            assert forall|j: int| 0 <= j < s.len() implies !s[j] by {
                if j < s.len() - 1 {
                    assert(s.drop_last()[j] == s[j]);
                }
            }
        }
    }
}

/// Every room a revealed path can reach from a settled frontier already
/// has a recorded distance: with no frontier candidates left, anything
/// with a distance is settled, and settled rooms' edges lead only to rooms
/// with distances.
proof fn lemma_reachable_has_dist(
    map: MapData,
    tm: Map<Seq<char>, Seq<char>>,
    vis: Set<Seq<char>>,
    dist: Seq<Option<usize>>,
    unvisited: Seq<bool>,
    u: int,
    dst: int,
    path: Seq<Seq<char>>,
)
    requires
        dist.len() == map.rooms@.len(),
        unvisited.len() == map.rooms@.len(),
        forall|q: int| 0 <= q < unvisited.len() ==> !(unvisited[q] && dist[q] is Some),
        forall|q: int, k: int|
            0 <= q < unvisited.len() && !unvisited[q] && 0 <= k
                < map.rooms@[q].transitions@.len() && (#[trigger] spec_edge_dest(
                map,
                tm,
                vis,
                q,
                k,
            )) is Some ==> dist[spec_edge_dest(map, tm, vis, q, k)->0] is Some,
        0 <= u < map.rooms@.len(),
        dist[u] is Some,
        spec_path_ok(map, tm, vis, u, dst, path),
    ensures
        0 <= dst < map.rooms@.len() && dist[dst] is Some,
    decreases path.len(),
{
    if path.len() == 0 {
    } else {
        let v = lemma_path_uncons(map, tm, vis, u, dst, path);
        let k = lemma_edge_witness(map, tm, vis, u, v, path[0]);
        assert(!(unvisited[u] && dist[u] is Some));
        assert(!unvisited[u]);
        assert(dist[spec_edge_dest(map, tm, vis, u, k)->0] is Some);
        assert(dist[v] is Some);
        let rt = map.rooms@[u].transitions@[k];
        let info = spec_transition_info(spec_resolved_target(tm, rt.qualified@))->0;
        map.lemma_room_index_range(info.0);
        assert(0 <= v < map.rooms@.len());
        lemma_reachable_has_dist(map, tm, vis, dist, unvisited, v, dst, path.drop_first());
    }
}

/// Prepending a revealed edge to a valid path gives a valid path.
proof fn lemma_path_cons(
    map: MapData,
    tm: Map<Seq<char>, Seq<char>>,
    vis: Set<Seq<char>>,
    a: int,
    b: int,
    dst: int,
    t: Seq<char>,
    rest: Seq<Seq<char>>,
)
    requires
        spec_edge(map, tm, vis, a, b, t),
        spec_path_ok(map, tm, vis, b, dst, rest),
    ensures
        spec_path_ok(map, tm, vis, a, dst, seq![t].add(rest)),
{
    let path = seq![t].add(rest);
    assert(path[0] == t);
    assert(path.drop_first() =~= rest);
    assert(spec_edge(map, tm, vis, a, b, path[0]) && spec_path_ok(
        map,
        tm,
        vis,
        b,
        dst,
        path.drop_first(),
    ));
}

/// A nonempty valid path starts with a revealed edge to a room the rest of
/// the path leads on from.
proof fn lemma_path_uncons(
    map: MapData,
    tm: Map<Seq<char>, Seq<char>>,
    vis: Set<Seq<char>>,
    u: int,
    dst: int,
    path: Seq<Seq<char>>,
) -> (v: int)
    requires
        path.len() > 0,
        spec_path_ok(map, tm, vis, u, dst, path),
    ensures
        spec_edge(map, tm, vis, u, v, path[0]),
        spec_path_ok(map, tm, vis, v, dst, path.drop_first()),
{
    assert(exists|v: int|
        #[trigger] spec_edge(map, tm, vis, u, v, path[0]) && spec_path_ok(
            map,
            tm,
            vis,
            v,
            dst,
            path.drop_first(),
        ));
    choose|v: int|
        #[trigger] spec_edge(map, tm, vis, u, v, path[0]) && spec_path_ok(
            map,
            tm,
            vis,
            v,
            dst,
            path.drop_first(),
        )
}

/// A revealed edge names one of the source room's transitions.
proof fn lemma_edge_witness(
    map: MapData,
    tm: Map<Seq<char>, Seq<char>>,
    vis: Set<Seq<char>>,
    u: int,
    v: int,
    t: Seq<char>,
) -> (k: int)
    requires
        spec_edge(map, tm, vis, u, v, t),
    ensures
        0 <= k < map.rooms@[u].transitions@.len(),
        map.rooms@[u].transitions@[k].qualified@ == t,
        spec_edge_dest(map, tm, vis, u, k) == Some(v),
{
    choose|k: int|
        0 <= k < map.rooms@[u].transitions@.len() && map.rooms@[u].transitions@[k].qualified@ == t
            && spec_edge_dest(map, tm, vis, u, k) == Some(v)
}

/// Resolves the room that the `k`-th transition of room `u` connects to.
pub(crate) fn edge_dest(map: &MapData, st: &LoadedState, u: usize, k: usize) -> (r: Option<usize>)
    requires
        map.wf(),
        u < map.rooms@.len(),
        k < map.rooms@[u as int].transitions@.len(),
    ensures
        match r {
            Some(j) => spec_edge_dest(
                *map,
                st.rando_data.transition_map@,
                st.rando_data.visited_transitions@,
                u as int,
                k as int,
            ) == Some(j as int) && j < map.rooms@.len(),
            None => spec_edge_dest(
                *map,
                st.rando_data.transition_map@,
                st.rando_data.visited_transitions@,
                u as int,
                k as int,
            ) is None,
        },
{
    let rt = &map.rooms[u].transitions[k];
    if !st.rando_data.visited_transitions.contains(&rt.qualified) {
        return None;
    }
    let target: String = match st.rando_data.transition_map.get(&rt.qualified) {
        Some(d) => d.clone(),
        None => rt.qualified.clone(),
    };
    match Transition::get_transition_info(target.as_str()) {
        Some(info) => map.room_index(&info.0),
        None => None,
    }
}

/// Picks the unsettled room with the smallest recorded distance, lowest
/// index first.
fn pick_min(dist: &Vec<Option<usize>>, unvisited: &Vec<bool>) -> (r: Option<usize>)
    requires
        dist@.len() == unvisited@.len(),
    ensures
        match r {
            Some(u) => {
                &&& u < dist@.len()
                &&& unvisited@[u as int]
                &&& dist@[u as int] is Some
                &&& forall|q: int|
                    0 <= q < dist@.len() && unvisited@[q] && dist@[q] is Some ==> dist@[
                        u as int
                    ]->0 <= dist@[q]->0
            },
            None => forall|q: int| 0 <= q < dist@.len() ==> !(unvisited@[q] && dist@[q] is Some),
        },
{
    let n = dist.len();
    let mut best: Option<usize> = None;
    let mut q: usize = 0;
    while q < n
        invariant
            0 <= q <= n,
            n == dist@.len(),
            n == unvisited@.len(),
            match best {
                Some(u) => {
                    &&& u < n
                    &&& unvisited@[u as int]
                    &&& dist@[u as int] is Some
                    &&& forall|p: int|
                        0 <= p < q && unvisited@[p] && dist@[p] is Some ==> dist@[u as int]->0
                            <= dist@[p]->0
                },
                None => forall|p: int| 0 <= p < q ==> !(unvisited@[p] && dist@[p] is Some),
            },
        decreases n - q,
    {
        if unvisited[q] {
            match dist[q] {
                Some(d) => {
                    match best {
                        Some(u) => {
                            let bd = match dist[u] {
                                Some(b) => b,
                                None => 0,
                            };
                            if d < bd {
                                best = Some(q);
                            }
                        },
                        None => {
                            best = Some(q);
                        },
                    }
                },
                None => {},
            }
        }
        q = q + 1;
    }
    best
}


/// With `dmin` the least recorded distance on the frontier, any revealed
/// path that starts at a settled room of distance at most `depth_d` and
/// ends on an unsettled room is at least `dmin - depth_d` long: its first
/// step out of the settled region lands on a frontier room, whose recorded
/// distance is at least `dmin` yet at most one above its predecessor's.
proof fn lemma_frontier_paths_at_least(
    map: MapData,
    tm: Map<Seq<char>, Seq<char>>,
    vis: Set<Seq<char>>,
    dist: Seq<Option<usize>>,
    unvisited: Seq<bool>,
    dmin: int,
    a: int,
    dst: int,
    depth_d: int,
    q: Seq<Seq<char>>,
)
    requires
        dist.len() == map.rooms@.len(),
        unvisited.len() == map.rooms@.len(),
        forall|w: int| 0 <= w < unvisited.len() && !unvisited[w] ==> dist[w] is Some,
        forall|w: int, k: int|
            0 <= w < unvisited.len() && !unvisited[w] && 0 <= k
                < map.rooms@[w].transitions@.len() && (#[trigger] spec_edge_dest(
                map,
                tm,
                vis,
                w,
                k,
            )) is Some ==> dist[spec_edge_dest(map, tm, vis, w, k)->0] is Some && dist[
                spec_edge_dest(map, tm, vis, w, k)->0
            ]->0 <= dist[w]->0 + 1,
        forall|w: int|
            0 <= w < unvisited.len() && unvisited[w] && dist[w] is Some ==> dmin <= dist[w]->0,
        0 <= a < map.rooms@.len(),
        !unvisited[a],
        dist[a]->0 <= depth_d,
        0 <= dst < map.rooms@.len(),
        unvisited[dst],
        spec_path_ok(map, tm, vis, a, dst, q),
    ensures
        dmin <= depth_d + q.len(),
    decreases q.len(),
{
    if q.len() == 0 {
        assert(a == dst);
        assert(false);
    } else {
        let v = lemma_path_uncons(map, tm, vis, a, dst, q);
        let k = lemma_edge_witness(map, tm, vis, a, v, q[0]);
        let rt = map.rooms@[a].transitions@[k];
        let info = spec_transition_info(spec_resolved_target(tm, rt.qualified@))->0;
        map.lemma_room_index_range(info.0);
        assert(0 <= v < map.rooms@.len());
        assert(dist[v] is Some && dist[v]->0 <= dist[a]->0 + 1);
        if unvisited[v] {
            assert(dmin <= dist[v]->0);
        } else {
            lemma_frontier_paths_at_least(
                map,
                tm,
                vis,
                dist,
                unvisited,
                dmin,
                v,
                dst,
                depth_d + 1,
                q.drop_first(),
            );
        }
    }
}

/// When the sweep settles the frontier room with the least recorded
/// distance, that distance is optimal: no revealed path from the source is
/// shorter.
proof fn lemma_popped_is_optimal(
    map: MapData,
    tm: Map<Seq<char>, Seq<char>>,
    vis: Set<Seq<char>>,
    dist: Seq<Option<usize>>,
    unvisited: Seq<bool>,
    si: int,
    u: int,
)
    requires
        dist.len() == map.rooms@.len(),
        unvisited.len() == map.rooms@.len(),
        0 <= si < map.rooms@.len(),
        0 <= u < map.rooms@.len(),
        dist[si] == Some(0usize),
        unvisited[u],
        dist[u] is Some,
        forall|w: int| 0 <= w < unvisited.len() && !unvisited[w] ==> dist[w] is Some,
        forall|w: int, k: int|
            0 <= w < unvisited.len() && !unvisited[w] && 0 <= k
                < map.rooms@[w].transitions@.len() && (#[trigger] spec_edge_dest(
                map,
                tm,
                vis,
                w,
                k,
            )) is Some ==> dist[spec_edge_dest(map, tm, vis, w, k)->0] is Some && dist[
                spec_edge_dest(map, tm, vis, w, k)->0
            ]->0 <= dist[w]->0 + 1,
        forall|w: int|
            0 <= w < unvisited.len() && unvisited[w] && dist[w] is Some ==> dist[u]->0 <= dist[
                w
            ]->0,
        forall|j: int|
            0 <= j < dist.len() && dist[j] is Some && dist[j]->0 == 0 ==> j == si,
    ensures
        forall|q: Seq<Seq<char>>|
            #[trigger] spec_path_ok(map, tm, vis, si, u, q) ==> dist[u]->0 <= q.len(),
{
    assert forall|q: Seq<Seq<char>>|
        #[trigger] spec_path_ok(map, tm, vis, si, u, q) implies dist[u]->0 <= q.len() by {
        if si == u {
            assert(dist[u]->0 == 0);
        } else {
            assert(!unvisited[si]) by {
                if unvisited[si] {
                    assert(dist[u]->0 <= dist[si]->0);
                    assert(dist[u]->0 == 0);
                }
            }
            lemma_frontier_paths_at_least(
                map,
                tm,
                vis,
                dist,
                unvisited,
                dist[u]->0 as int,
                si,
                u,
                0,
                q,
            );
        }
    }
}

/// Walks the recorded predecessors back from `di` to `si` and returns the
/// forward transition sequence.
#[verifier::loop_isolation(false)]
fn reconstruct_path(
    map: &MapData,
    dist: &Vec<Option<usize>>,
    prev: &Vec<Option<(usize, String)>>,
    si: usize,
    di: usize,
    Ghost(tm): Ghost<Map<Seq<char>, Seq<char>>>,
    Ghost(vis): Ghost<Set<Seq<char>>>,
) -> (out: Vec<String>)
    requires
        dist@.len() == map.rooms@.len(),
        prev@.len() == map.rooms@.len(),
        (si as int) < map.rooms@.len(),
        (di as int) < map.rooms@.len(),
        dist@[si as int] == Some(0usize),
        dist@[di as int] is Some,
        forall|j: int|
            0 <= j < dist@.len() && #[trigger] prev@[j] is Some ==> {
                &&& ((prev@[j]->0).0 as int) < dist@.len()
                &&& dist@[(prev@[j]->0).0 as int] is Some
                &&& dist@[j] is Some
                &&& dist@[j]->0 == dist@[(prev@[j]->0).0 as int]->0 + 1
                &&& spec_edge(*map, tm, vis, (prev@[j]->0).0 as int, j, (prev@[j]->0).1@)
            },
        forall|j: int| 0 <= j < dist@.len() && dist@[j] is Some && j != si ==> prev@[j] is Some,
    ensures
        spec_path_ok(*map, tm, vis, si as int, di as int, views_of(out@)),
        out@.len() == dist@[di as int]->0,
{
    let n = dist.len();
    let mut rev: Vec<String> = Vec::new();
    let mut cur: usize = di;
    let ghost mut suffix = Seq::<Seq<char>>::empty();
    proof {
        assert(spec_path_ok(*map, tm, vis, cur as int, di as int, suffix));
    }
    let mut steps: usize = 0;
    let mut done = false;
    while !done
        invariant
            cur < n,
            dist@[cur as int] is Some,
            steps == rev@.len(),
            dist@[cur as int]->0 + steps == dist@[di as int]->0,
            suffix.len() == rev@.len(),
            forall|m: int| 0 <= m < suffix.len() ==> suffix[m] == rev@[rev@.len() - 1 - m]@,
            spec_path_ok(*map, tm, vis, cur as int, di as int, suffix),
            done ==> cur == si,
        decreases dist@[cur as int]->0 + if done {
            0int
        } else {
            1int
        },
    {
        let step: Option<(usize, String)> = match &prev[cur] {
            Some(pt) => Some((pt.0, pt.1.clone())),
            None => None,
        };
        match step {
            Some(pt) => {
                let ghost suffix0 = suffix;
                rev.push(pt.1);
                proof {
                    suffix = seq![pt.1@].add(suffix0);
                    assert(spec_edge(*map, tm, vis, pt.0 as int, cur as int, pt.1@));
                    lemma_path_cons(*map, tm, vis, pt.0 as int, cur as int, di as int, pt.1@, suffix0);
                    assert(spec_path_ok(*map, tm, vis, pt.0 as int, di as int, suffix));
                    assert forall|m: int|
                        0 <= m < suffix.len() implies suffix[m] == rev@[rev@.len() - 1 - m]@ by {
                        if m > 0 {
                            assert(suffix[m] == suffix0[m - 1]);
                        }
                    }
                }
                cur = pt.0;
                steps = steps + 1;
            },
            None => {
                proof {
                    assert(cur == si);
                }
                done = true;
            },
        }
    }
    let m0 = rev.len();
    let mut out: Vec<String> = Vec::new();
    let mut m: usize = m0;
    while m > 0
        invariant
            0 <= m <= m0,
            m0 == rev@.len(),
            out@.len() == m0 - m,
            forall|t: int| 0 <= t < out@.len() ==> out@[t] == rev@[m0 - 1 - t],
        decreases m,
    {
        m = m - 1;
        let s = rev[m].clone();
        out.push(s);
    }
    proof {
        assert(views_of(out@) =~= suffix);
    }
    out
}

/// Settles room `u`: relaxes every revealed edge out of it, recording a
/// shorter distance and the incoming transition for each improved room.
#[verifier::rlimit(100)]
fn relax_edges(
    map: &MapData,
    st: &LoadedState,
    dist: &mut Vec<Option<usize>>,
    prev: &mut Vec<Option<(usize, String)>>,
    unvisited: &Vec<bool>,
    u: usize,
    si: usize,
    cap: usize,
)
    requires
        map.wf(),
        old(dist)@.len() == map.rooms@.len(),
        old(prev)@.len() == map.rooms@.len(),
        unvisited@.len() == map.rooms@.len(),
        (u as int) < map.rooms@.len(),
        !unvisited@[u as int],
        old(dist)@[u as int] is Some,
        old(dist)@[u as int]->0 + 1 <= cap,
        (si as int) < map.rooms@.len(),
        old(dist)@[si as int] == Some(0usize),
        forall|j: int|
            0 <= j < old(dist)@.len() && !unvisited@[j] ==> old(dist)@[j] is Some,
        forall|j: int|
            0 <= j < old(dist)@.len() && old(dist)@[j] is Some ==> old(dist)@[j]->0 <= cap,
        forall|j: int|
            0 <= j < old(dist)@.len() && old(dist)@[j] is Some && old(dist)@[j]->0 == 0 ==> j
                == si,
        forall|j: int|
            0 <= j < old(dist)@.len() && #[trigger] old(prev)@[j] is Some ==> {
                &&& ((old(prev)@[j]->0).0 as int) < old(dist)@.len()
                &&& old(dist)@[(old(prev)@[j]->0).0 as int] is Some
                &&& !unvisited@[(old(prev)@[j]->0).0 as int]
                &&& old(dist)@[j] is Some
                &&& old(dist)@[j]->0 == old(dist)@[(old(prev)@[j]->0).0 as int]->0 + 1
                &&& spec_edge(
                    *map,
                    st.rando_data.transition_map@,
                    st.rando_data.visited_transitions@,
                    (old(prev)@[j]->0).0 as int,
                    j,
                    (old(prev)@[j]->0).1@,
                )
            },
        forall|j: int|
            0 <= j < old(dist)@.len() && old(dist)@[j] is Some && j != si ==> old(prev)@[j]
                is Some,
        forall|q2: int, k2: int|
            0 <= q2 < old(dist)@.len() && !unvisited@[q2] && q2 != u && 0 <= k2 < map.rooms@[
                q2
            ].transitions@.len() && (#[trigger] spec_edge_dest(
                *map,
                st.rando_data.transition_map@,
                st.rando_data.visited_transitions@,
                q2,
                k2,
            )) is Some ==> old(dist)@[spec_edge_dest(
                *map,
                st.rando_data.transition_map@,
                st.rando_data.visited_transitions@,
                q2,
                k2,
            )->0] is Some && old(dist)@[spec_edge_dest(
                *map,
                st.rando_data.transition_map@,
                st.rando_data.visited_transitions@,
                q2,
                k2,
            )->0]->0 <= old(dist)@[q2]->0 + 1,
        forall|w: int|
            0 <= w < old(dist)@.len() && !unvisited@[w] ==> old(dist)@[w]->0 <= old(dist)@[
                u as int
            ]->0,
        forall|j: int|
            0 <= j < old(dist)@.len() && unvisited@[j] && old(dist)@[j] is Some ==> old(dist)@[
                u as int
            ]->0 <= old(dist)@[j]->0,
    ensures
        final(dist)@.len() == old(dist)@.len(),
        final(prev)@.len() == old(prev)@.len(),
        final(dist)@[si as int] == Some(0usize),
        forall|j: int|
            0 <= j < old(dist)@.len() && old(dist)@[j] is Some
                ==> #[trigger] final(dist)@[j] is Some,
        forall|j: int|
            0 <= j < old(dist)@.len() && !unvisited@[j] ==> final(dist)@[j] is Some,
        forall|j: int|
            0 <= j < old(dist)@.len() && #[trigger] final(dist)@[j] is Some
                ==> final(dist)@[j]->0 <= cap,
        forall|j: int|
            0 <= j < old(dist)@.len() && final(dist)@[j] is Some && final(dist)@[j]->0 == 0 ==> j
                == si,
        forall|j: int|
            0 <= j < old(dist)@.len() && #[trigger] final(prev)@[j] is Some ==> {
                &&& ((final(prev)@[j]->0).0 as int) < old(dist)@.len()
                &&& final(dist)@[(final(prev)@[j]->0).0 as int] is Some
                &&& !unvisited@[(final(prev)@[j]->0).0 as int]
                &&& final(dist)@[j] is Some
                &&& final(dist)@[j]->0 == final(dist)@[(final(prev)@[j]->0).0 as int]->0 + 1
                &&& spec_edge(
                    *map,
                    st.rando_data.transition_map@,
                    st.rando_data.visited_transitions@,
                    (final(prev)@[j]->0).0 as int,
                    j,
                    (final(prev)@[j]->0).1@,
                )
            },
        forall|j: int|
            0 <= j < old(dist)@.len() && final(dist)@[j] is Some && j != si ==> final(prev)@[j]
                is Some,
        forall|q2: int, k2: int|
            0 <= q2 < old(dist)@.len() && !unvisited@[q2] && 0 <= k2 < map.rooms@[
                q2
            ].transitions@.len() && (#[trigger] spec_edge_dest(
                *map,
                st.rando_data.transition_map@,
                st.rando_data.visited_transitions@,
                q2,
                k2,
            )) is Some ==> final(dist)@[spec_edge_dest(
                *map,
                st.rando_data.transition_map@,
                st.rando_data.visited_transitions@,
                q2,
                k2,
            )->0] is Some && final(dist)@[spec_edge_dest(
                *map,
                st.rando_data.transition_map@,
                st.rando_data.visited_transitions@,
                q2,
                k2,
            )->0]->0 <= final(dist)@[q2]->0 + 1,
        forall|j: int|
            0 <= j < old(dist)@.len() && !unvisited@[j] ==> final(dist)@[j] == old(dist)@[j],
        forall|j: int|
            0 <= j < old(dist)@.len() && unvisited@[j] && #[trigger] final(dist)@[j] is Some
                ==> old(dist)@[u as int]->0 <= final(dist)@[j]->0,
{
    let ghost tm = st.rando_data.transition_map@;
    let ghost vis = st.rando_data.visited_transitions@;
    let n = dist.len();
    let du: usize = match dist[u] {
        Some(d) => d,
        None => 0,
    };
    let nt = map.rooms[u].transitions.len();
    let mut k: usize = 0;
    while k < nt
        invariant
            0 <= k <= nt,
            map.wf(),
            tm == st.rando_data.transition_map@,
            vis == st.rando_data.visited_transitions@,
            n == map.rooms@.len(),
            nt == map.rooms@[u as int].transitions@.len(),
            unvisited@.len() == n,
            (u as int) < n,
            !unvisited@[u as int],
            (si as int) < n,
            du + 1 <= cap,
            dist@.len() == n,
            prev@.len() == n,
            dist@[u as int] == Some(du),
            dist@[si as int] == Some(0usize),
            forall|j: int|
                0 <= j < n && old(dist)@[j] is Some ==> #[trigger] dist@[j] is Some,
            forall|j: int| 0 <= j < n && !unvisited@[j] ==> dist@[j] == old(dist)@[j],
            forall|j: int| 0 <= j < n && !unvisited@[j] ==> dist@[j] is Some,
            forall|j: int| 0 <= j < n && !unvisited@[j] ==> dist@[j]->0 <= du,
            forall|j: int|
                0 <= j < n && unvisited@[j] && #[trigger] dist@[j] is Some ==> du <= dist@[
                    j
                ]->0,
            forall|j: int|
                0 <= j < n && #[trigger] dist@[j] is Some ==> dist@[j]->0 <= cap,
            forall|j: int|
                0 <= j < n && dist@[j] is Some && dist@[j]->0 == 0 ==> j == si,
            forall|j: int|
                0 <= j < n && #[trigger] prev@[j] is Some ==> {
                    &&& ((prev@[j]->0).0 as int) < n
                    &&& dist@[(prev@[j]->0).0 as int] is Some
                    &&& !unvisited@[(prev@[j]->0).0 as int]
                    &&& dist@[j] is Some
                    &&& dist@[j]->0 == dist@[(prev@[j]->0).0 as int]->0 + 1
                    &&& spec_edge(*map, tm, vis, (prev@[j]->0).0 as int, j, (prev@[j]->0).1@)
                },
            forall|j: int| 0 <= j < n && dist@[j] is Some && j != si ==> prev@[j] is Some,
            forall|q2: int, k2: int|
                0 <= q2 < n && !unvisited@[q2] && q2 != u && 0 <= k2 < map.rooms@[
                    q2
                ].transitions@.len() && (#[trigger] spec_edge_dest(*map, tm, vis, q2, k2))
                    is Some ==> dist@[spec_edge_dest(*map, tm, vis, q2, k2)->0] is Some
                    && dist@[spec_edge_dest(*map, tm, vis, q2, k2)->0]->0 <= dist@[q2]->0 + 1,
            forall|k2: int|
                0 <= k2 < k && (#[trigger] spec_edge_dest(*map, tm, vis, u as int, k2)) is Some
                    ==> dist@[spec_edge_dest(*map, tm, vis, u as int, k2)->0] is Some && dist@[
                        spec_edge_dest(*map, tm, vis, u as int, k2)->0
                    ]->0 <= du + 1,
        decreases nt - k,
    {
        let ghost dk = spec_edge_dest(*map, tm, vis, u as int, k as int);
        let rt = &map.rooms[u].transitions[k];
        let dest: Option<usize> = edge_dest(map, st, u, k);
        match dest {
            Some(j) => {
                if unvisited[j] {
                    let cost = du + 1;
                    let better = match dist[j] {
                        Some(v) => cost < v,
                        None => true,
                    };
                    if better {
                        dist.set(j, Some(cost));
                        prev.set(j, Some((u, rt.qualified.clone())));
                        proof {
                            assert(map.rooms@[u as int].transitions@[k as int].qualified@ == rt
                                .qualified@);
                            assert(spec_edge(*map, tm, vis, u as int, j as int, rt.qualified@));
                        }
                    } else {
                        proof {
                            assert(dist@[j as int] is Some);
                            assert(dist@[j as int]->0 <= du + 1);
                        }
                    }
                } else {
                    proof {
                        assert(dist@[j as int] is Some);
                        assert(dist@[j as int]->0 <= du + 1);
                    }
                }
            },
            None => {},
        }
        k = k + 1;
    }
}

/// Finds an ordered sequence of revealed transitions leading from `src` to
/// `dst`, or `None` when no session is loaded, a given room id is unknown,
/// or no revealed path reaches `dst`.  With `src == dst` the path is
/// empty.  Among equally short paths the choice is unspecified.
#[verifier::loop_isolation(false)]
#[verifier::rlimit(100)]
pub fn find_path(map: &MapData, gs: &GameState, src: &String, dst: &String) -> (r: Option<
    Vec<String>,
>)
    requires
        map.wf(),
    ensures
        match *gs {
            GameState::Unloaded => r is None,
            GameState::Loaded(st) => {
                let tm = st.rando_data.transition_map@;
                let vis = st.rando_data.visited_transitions@;
                &&& r matches Some(p) ==> {
                    &&& map.spec_room_index(src@) is Some
                    &&& map.spec_room_index(dst@) is Some
                    &&& spec_path_ok(
                        *map,
                        tm,
                        vis,
                        map.spec_room_index(src@)->0,
                        map.spec_room_index(dst@)->0,
                        views_of(p@),
                    )
                }
                &&& r is None ==> {
                    ||| map.spec_room_index(src@) is None
                    ||| map.spec_room_index(dst@) is None
                    ||| forall|path: Seq<Seq<char>>|
                        !spec_path_ok(
                            *map,
                            tm,
                            vis,
                            map.spec_room_index(src@)->0,
                            map.spec_room_index(dst@)->0,
                            path,
                        )
                }
                &&& (map.spec_room_index(src@) is Some && map.spec_room_index(src@)
                    == map.spec_room_index(dst@)) ==> (r matches Some(p) && p@.len() == 0)
                &&& r matches Some(p) ==> forall|q: Seq<Seq<char>>|
                    #[trigger] spec_path_ok(
                        *map,
                        tm,
                        vis,
                        map.spec_room_index(src@)->0,
                        map.spec_room_index(dst@)->0,
                        q,
                    ) ==> p@.len() <= q.len()
            },
        },
{
    let st: &LoadedState = match gs {
        GameState::Loaded(st) => st,
        GameState::Unloaded => {
            return None;
        },
    };
    let ghost tm = st.rando_data.transition_map@;
    let ghost vis = st.rando_data.visited_transitions@;

    let si: usize = match map.room_index(src) {
        Some(i) => i,
        None => {
            return None;
        },
    };
    let di: usize = match map.room_index(dst) {
        Some(i) => i,
        None => {
            return None;
        },
    };

    let n = map.rooms.len();
    let mut dist: Vec<Option<usize>> = Vec::new();
    let mut prev: Vec<Option<(usize, String)>> = Vec::new();
    let mut unvisited: Vec<bool> = Vec::new();
    let mut q: usize = 0;
    while q < n
        invariant
            0 <= q <= n,
            dist@.len() == q,
            prev@.len() == q,
            unvisited@.len() == q,
            forall|j: int| 0 <= j < q ==> dist@[j] is None,
            forall|j: int| 0 <= j < q ==> prev@[j] is None,
            forall|j: int| 0 <= j < q ==> unvisited@[j],
            count_false(unvisited@) == 0,
        decreases n - q,
    {
        let ghost uv0 = unvisited@;
        dist.push(None);
        prev.push(None);
        unvisited.push(true);
        proof {
            assert(unvisited@.drop_last() =~= uv0);
        }
        q = q + 1;
    }
    dist.set(si, Some(0));

    let mut rounds: usize = 0;
    while rounds < n
        invariant
            0 <= rounds <= n,
            dist@.len() == n,
            prev@.len() == n,
            unvisited@.len() == n,
            dist@[si as int] == Some(0usize),
            count_false(unvisited@) == rounds,
            unvisited@[di as int],
            forall|j: int| 0 <= j < n && !unvisited@[j] ==> dist@[j] is Some,
            forall|j: int| 0 <= j < n && dist@[j] is Some ==> dist@[j]->0 <= rounds,
            forall|j: int|
                0 <= j < n && dist@[j] is Some && dist@[j]->0 == 0 ==> j == si,
            forall|j: int|
                0 <= j < n && #[trigger] prev@[j] is Some ==> {
                    &&& (prev@[j]->0).0 < n
                    &&& dist@[(prev@[j]->0).0 as int] is Some
                    &&& !unvisited@[(prev@[j]->0).0 as int]
                    &&& dist@[j] is Some
                    &&& dist@[j]->0 == dist@[(prev@[j]->0).0 as int]->0 + 1
                    &&& spec_edge(*map, tm, vis, (prev@[j]->0).0 as int, j, (prev@[j]->0).1@)
                },
            forall|j: int| 0 <= j < n && dist@[j] is Some && j != si ==> prev@[j] is Some,
            forall|u2: int, k2: int|
                0 <= u2 < n && !unvisited@[u2] && 0 <= k2 < map.rooms@[u2].transitions@.len()
                    && (#[trigger] spec_edge_dest(*map, tm, vis, u2, k2)) is Some ==> dist@[
                    spec_edge_dest(*map, tm, vis, u2, k2)->0
                ] is Some && dist@[spec_edge_dest(*map, tm, vis, u2, k2)->0]->0 <= dist@[u2]->0
                    + 1,
            forall|w: int, j: int|
                0 <= w < n && 0 <= j < n && !unvisited@[w] && unvisited@[j] && dist@[j] is Some
                    ==> dist@[w]->0 <= dist@[j]->0,
            forall|w: int, q3: Seq<Seq<char>>|
                0 <= w < n && !unvisited@[w] && #[trigger] spec_path_ok(
                    *map,
                    tm,
                    vis,
                    si as int,
                    w,
                    q3,
                ) ==> dist@[w]->0 <= q3.len(),
        decreases n - rounds,
    {
        let u: usize = match pick_min(&dist, &unvisited) {
            Some(u) => u,
            None => {
                proof {
                    assert(dist@[di as int] is None);
                    assert forall|path: Seq<Seq<char>>|
                        !spec_path_ok(*map, tm, vis, si as int, di as int, path) by {
                        if spec_path_ok(*map, tm, vis, si as int, di as int, path) {
                            lemma_reachable_has_dist(
                                *map,
                                tm,
                                vis,
                                dist@,
                                unvisited@,
                                si as int,
                                di as int,
                                path,
                            );
                        }
                    }
                }
                return None;
            },
        };
        let ghost uv0 = unvisited@;
        unvisited.set(u, false);
        let ghost dpre = dist@;
        let ghost dug = dpre[u as int]->0 as int;
        proof {
            lemma_count_false_update(uv0, u as int);
            // every settled room's distance is at most the popped minimum,
            // and the popped room's own distance is optimal
            assert forall|w: int| 0 <= w < n && !unvisited@[w] implies dpre[w]->0 <= dug by {
                if w != u as int {
                    assert(uv0[w] == unvisited@[w]);
                }
            }
            lemma_popped_is_optimal(*map, tm, vis, dpre, uv0, si as int, u as int);
            assert forall|w: int, q3: Seq<Seq<char>>|
                0 <= w < n && !unvisited@[w] && #[trigger] spec_path_ok(
                    *map,
                    tm,
                    vis,
                    si as int,
                    w,
                    q3,
                ) implies dpre[w]->0 <= q3.len() by {
                if w != u as int {
                    assert(uv0[w] == unvisited@[w]);
                }
            }
        }

        if u == di {
            // reached the destination: walk the recorded predecessors back
            // to the source
            let out = reconstruct_path(map, &dist, &prev, si, di, Ghost(tm), Ghost(vis));
            proof {
                assert forall|q3: Seq<Seq<char>>|
                    #[trigger] spec_path_ok(*map, tm, vis, si as int, di as int, q3)
                    implies out@.len() <= q3.len() by {
                    assert(dpre[di as int]->0 <= q3.len());
                }
            }
            return Some(out);
        }

        // relax every revealed edge out of the settled room
        relax_edges(map, st, &mut dist, &mut prev, &unvisited, u, si, rounds + 1);
        proof {
            // the relaxation left every settled distance alone and kept the
            // frontier at or above the popped minimum
            assert forall|w: int, j: int|
                0 <= w < n && 0 <= j < n && !unvisited@[w] && unvisited@[j] && dist@[j]
                    is Some implies dist@[w]->0 <= dist@[j]->0 by {
                assert(dist@[w] == dpre[w]);
                assert(dug <= dist@[j]->0);
            }
            assert forall|w: int, q3: Seq<Seq<char>>|
                0 <= w < n && !unvisited@[w] && #[trigger] spec_path_ok(
                    *map,
                    tm,
                    vis,
                    si as int,
                    w,
                    q3,
                ) implies dist@[w]->0 <= q3.len() by {
                assert(dist@[w] == dpre[w]);
            }
        }
        rounds = rounds + 1;
    }
    proof {
        lemma_count_false_bound(unvisited@);
        assert(dist@[di as int] is None);
        assert forall|path: Seq<Seq<char>>|
            !spec_path_ok(*map, tm, vis, si as int, di as int, path) by {
            if spec_path_ok(*map, tm, vis, si as int, di as int, path) {
                lemma_reachable_has_dist(*map, tm, vis, dist@, unvisited@, si as int, di as int, path);
            }
        }
    }
    None
}

} // verus!
