//! Eight-way stepping rules and breadth-first pursuit routes.

use super::{direction_delta, Direction};
use crate::world::{count_false, lemma_count_false_bounded};
use crate::world::{
    cheb, grid_index, in_grid, lemma_grid_index_bounds, lemma_grid_index_injective, shifted, walkable, DungeonMap, Position,
    PositionSet, Tile,
};
use vstd::prelude::*;

verus! {

/// A single step from `from` to `to` is allowed: `to` is traversable, and a
/// diagonal step does not cut a corner that is not walkable.
pub open spec fn step_ok(map: &DungeonMap, from: Position, to: Position) -> bool {
    let dx = to.x - from.x;
    let dy = to.y - from.y;
    &&& map.is_traversable_at(to)
    &&& (dx == 0 || dy == 0 || (map.is_walkable_at(shifted(from, dx, 0)) && map.is_walkable_at(shifted(from, 0, dy))))
}

/// One move of a pursuer: to a neighbouring tile it may step onto, not
/// held by another hostile unless it is the quarry's tile.
pub open spec fn pursuit_move(map: &DungeonMap, occupied: Set<Position>, target: Position, a: Position, b: Position) -> bool {
    &&& cheb(a, b) == 1
    &&& step_ok(map, a, b)
    &&& (b == target || !occupied.contains(b))
}

/// A chain of pursuit moves.
pub open spec fn is_route(map: &DungeonMap, occupied: Set<Position>, target: Position, path: Seq<Position>) -> bool {
    &&& path.len() >= 1
    &&& forall|i: int| 1 <= i < path.len() ==> pursuit_move(map, occupied, target, path[i - 1], #[trigger] path[i])
}

/// `p` can be reached from `start` by pursuit moves.
pub open spec fn route_reaches(map: &DungeonMap, occupied: Set<Position>, target: Position, start: Position, p: Position) -> bool {
    exists|path: Seq<Position>| #[trigger] is_route(map, occupied, target, path) && path[0] == start && path.last() == p
}

/// `path` is a route from `start` to `end` with no more moves than any
/// other such route.
pub open spec fn is_shortest_route_to(map: &DungeonMap, occupied: Set<Position>, target: Position, start: Position,
    end: Position, path: Seq<Position>) -> bool {
    &&& is_route(map, occupied, target, path)
    &&& path[0] == start
    &&& path.last() == end
    &&& forall|other: Seq<Position>| #[trigger] is_route(map, occupied, target, other) && other[0] == start
        && other.last() == end ==> path.len() <= other.len()
}

/// The number of the direction of a step from `a` to a neighbour `b`, in the
/// order north, north-east, east, south-east, south, south-west, west,
/// north-west (as `neighbour` numbers them).
pub open spec fn dir_index(a: Position, b: Position) -> int {
    let dx = b.x - a.x;
    let dy = b.y - a.y;
    if dx == 0 && dy == -1 { 0 } else if dx == 1 && dy == -1 { 1 } else if dx == 1 && dy == 0 { 2 }
    else if dx == 1 && dy == 1 { 3 } else if dx == 0 && dy == 1 { 4 } else if dx == -1 && dy == 1 { 5 }
    else if dx == -1 && dy == 0 { 6 } else { 7 }
}

/// `s` is the first step of a shortest route from `start` to `end`, and of
/// all such first steps the one that comes first in direction order.
pub open spec fn first_step_to(map: &DungeonMap, occupied: Set<Position>, target: Position, start: Position,
    end: Position, s: Position) -> bool {
    &&& exists|path: Seq<Position>| #[trigger] is_shortest_route_to(map, occupied, target, start, end, path)
        && path.len() >= 2 && path[1] == s
    &&& forall|path: Seq<Position>| #[trigger] is_shortest_route_to(map, occupied, target, start, end, path)
        && path.len() >= 2 ==> dir_index(start, s) <= dir_index(start, path[1])
}

/// Two steps from the same tile in the same direction reach the same tile.
pub proof fn lemma_direction_fixes_step(a: Position, b: Position, c: Position)
    requires
        cheb(a, b) == 1,
        cheb(a, c) == 1,
        dir_index(a, b) == dir_index(a, c),
    ensures
        b == c,
{
}

/// Whether a step from `from` to `to` is allowed.
pub fn can_step(map: &DungeonMap, from: Position, to: Position) -> (b: bool)
    requires
        super::visibility::coords_small(from),
    ensures
        b == step_ok(map, from, to),
{
    let traversable = match map.tile(to) {
        Some(t) => t.is_traversable(),
        None => false,
    };
    if !traversable {
        return false;
    }
    proof {
        map.lemma_tile_exists_any(to);
    }
    let dx = to.x - from.x;
    let dy = to.y - from.y;
    if dx != 0 && dy != 0 {
        let h = match map.tile(from.offset(dx, 0)) {
            Some(t) => t.is_walkable(),
            None => false,
        };
        let v = match map.tile(from.offset(0, dy)) {
            Some(t) => t.is_walkable(),
            None => false,
        };
        h && v
    } else {
        true
    }
}

/// The eight neighbours in direction order.
pub open spec fn neighbour(p: Position, k: int) -> Position {
    step_from_index(p, k)
}

pub open spec fn step_from_index(p: Position, k: int) -> Position {
    let d = if k == 0 { Direction::North } else if k == 1 { Direction::NorthEast } else if k == 2 { Direction::East }
        else if k == 3 { Direction::SouthEast } else if k == 4 { Direction::South } else if k == 5 { Direction::SouthWest }
        else if k == 6 { Direction::West } else { Direction::NorthWest };
    shifted(p, direction_delta(d).0, direction_delta(d).1)
}

proof fn lemma_neighbours_cover(p: Position, r: Position)
    requires
        cheb(p, r) == 1,
    ensures
        exists|k: int| 0 <= k < 8 && #[trigger] neighbour(p, k) == r,
{
    let dx = r.x - p.x;
    let dy = r.y - p.y;
    if dx == 0 && dy == -1 { assert(neighbour(p, 0) == r); }
    else if dx == 1 && dy == -1 { assert(neighbour(p, 1) == r); }
    else if dx == 1 && dy == 0 { assert(neighbour(p, 2) == r); }
    else if dx == 1 && dy == 1 { assert(neighbour(p, 3) == r); }
    else if dx == 0 && dy == 1 { assert(neighbour(p, 4) == r); }
    else if dx == -1 && dy == 1 { assert(neighbour(p, 5) == r); }
    else if dx == -1 && dy == 0 { assert(neighbour(p, 6) == r); }
    else { assert(neighbour(p, 7) == r); }
}

/// A set holding `start` and closed under pursuit moves (from its
/// members) holds every tile a route from `start` reaches.
proof fn lemma_closed_contains_route(map: &DungeonMap, occupied: Set<Position>, target: Position, start: Position,
    seen: Set<Position>, path: Seq<Position>)
    requires
        seen.contains(start),
        forall|q: Position, r: Position| seen.contains(q) && #[trigger] pursuit_move(map, occupied, target, q, r) ==> seen.contains(r),
        is_route(map, occupied, target, path),
        path[0] == start,
    ensures
        seen.contains(path.last()),
    decreases path.len(),
{
    if path.len() > 1 {
        let prefix = path.drop_last();
        assert(is_route(map, occupied, target, prefix)) by {
            assert forall|i: int| 1 <= i < prefix.len() implies pursuit_move(map, occupied, target, prefix[i - 1], #[trigger] prefix[i]) by {
                assert(prefix[i] == path[i]);
                assert(pursuit_move(map, occupied, target, path[i - 1], path[i]));
            }
        }
        lemma_closed_contains_route(map, occupied, target, start, seen, prefix);
        assert(pursuit_move(map, occupied, target, path[path.len() - 2], path[path.len() - 1]));
    }
}

/// Breadth-first depths bound every route: a route from `start` either
/// reaches past the depth of the queue entry at `head`, or ends on a seen
/// tile whose depth is at most its number of moves.
proof fn lemma_bfs_depth_bounds_route(map: &DungeonMap, occupied: Set<Position>, target: Position, start: Position,
    width: int, queue: Seq<Position>, depth: Seq<u64>, seen: Set<Position>, head: int, other: Seq<Position>)
    requires
        0 <= head < queue.len(),
        forall|j: int, k: int| 0 <= j <= k < queue.len() ==>
            depth[grid_index(width, #[trigger] queue[j])] <= depth[grid_index(width, #[trigger] queue[k])],
        forall|j: int, r: Position| 0 <= j < head && #[trigger] pursuit_move(map, occupied, target, queue[j], r)
            ==> seen.contains(r) && depth[grid_index(width, r)] <= depth[grid_index(width, queue[j])] + 1,
        forall|p: Position| seen.contains(p) ==> exists|j: int| 0 <= j < queue.len() && queue[j] == p,
        seen.contains(start),
        depth[grid_index(width, start)] == 0,
        is_route(map, occupied, target, other),
        other[0] == start,
    ensures
        depth[grid_index(width, queue[head])] <= other.len() - 1
            || (seen.contains(other.last()) && depth[grid_index(width, other.last())] <= other.len() - 1),
    decreases other.len(),
{
    if other.len() > 1 {
        let prefix = other.drop_last();
        assert(is_route(map, occupied, target, prefix)) by {
            assert forall|i: int| 1 <= i < prefix.len() implies pursuit_move(map, occupied, target, prefix[i - 1], #[trigger] prefix[i]) by {
                assert(prefix[i] == other[i]);
                assert(pursuit_move(map, occupied, target, other[i - 1], other[i]));
            }
        }
        lemma_bfs_depth_bounds_route(map, occupied, target, start, width, queue, depth, seen, head, prefix);
        let p = prefix.last();
        if !(depth[grid_index(width, queue[head])] <= other.len() - 1) {
            assert(seen.contains(p) && depth[grid_index(width, p)] <= prefix.len() - 1);
            let m = choose|j: int| 0 <= j < queue.len() && queue[j] == p;
            if m >= head {
                assert(depth[grid_index(width, queue[head])] <= depth[grid_index(width, queue[m])]);
            }
            assert(m < head);
            assert(p == other[other.len() - 2]);
            assert(pursuit_move(map, occupied, target, other[other.len() - 2], other[other.len() - 1]));
            assert(pursuit_move(map, occupied, target, queue[m], other.last()));
        }
    }
}

/// At most one tile is the first step toward `end`: where a pursuer steps
/// is decided.
pub proof fn lemma_first_step_unique(map: &DungeonMap, occupied: Set<Position>, target: Position, start: Position,
    end: Position, s1: Position, s2: Position)
    requires
        first_step_to(map, occupied, target, start, end, s1),
        first_step_to(map, occupied, target, start, end, s2),
    ensures
        s1 == s2,
{
    let p1 = choose|path: Seq<Position>| #[trigger] is_shortest_route_to(map, occupied, target, start, end, path)
        && path.len() >= 2 && path[1] == s1;
    let p2 = choose|path: Seq<Position>| #[trigger] is_shortest_route_to(map, occupied, target, start, end, path)
        && path.len() >= 2 && path[1] == s2;
    assert(pursuit_move(map, occupied, target, p1[1 - 1], p1[1]));
    assert(pursuit_move(map, occupied, target, p2[1 - 1], p2[1]));
    lemma_direction_fixes_step(start, s1, s2);
}

/// A route extended by a pursuit move from its end is a route.
proof fn lemma_route_extend(map: &DungeonMap, occupied: Set<Position>, target: Position, path: Seq<Position>, c: Position)
    requires
        is_route(map, occupied, target, path),
        pursuit_move(map, occupied, target, path.last(), c),
    ensures
        is_route(map, occupied, target, path.push(c)),
{
    let longer = path.push(c);
    assert forall|m: int| 1 <= m < longer.len() implies pursuit_move(map, occupied, target, longer[m - 1], #[trigger] longer[m]) by {
        if m < path.len() {
            assert(longer[m] == path[m]);
            assert(longer[m - 1] == path[m - 1]);
        }
    }
}

/// A route without its last tile is a route, and its last move is a
/// pursuit move.
proof fn lemma_route_prefix(map: &DungeonMap, occupied: Set<Position>, target: Position, path: Seq<Position>)
    requires
        is_route(map, occupied, target, path),
        path.len() >= 2,
    ensures
        is_route(map, occupied, target, path.drop_last()),
        pursuit_move(map, occupied, target, path[path.len() - 2], path[path.len() - 1]),
{
    let prefix = path.drop_last();
    assert forall|i: int| 1 <= i < prefix.len() implies pursuit_move(map, occupied, target, prefix[i - 1], #[trigger] prefix[i]) by {
        assert(prefix[i] == path[i]);
        assert(pursuit_move(map, occupied, target, path[i - 1], path[i]));
    }
    assert(pursuit_move(map, occupied, target, path[path.len() - 2], path[path.len() - 1]));
}

/// While the queue entry at `head` is being expanded, a route to a tile not
/// yet seen has at least two more tiles than that entry's depth.
proof fn lemma_unseen_route_is_long(map: &DungeonMap, occupied: Set<Position>, target: Position, start: Position,
    width: int, queue: Seq<Position>, depth: Seq<u64>, seen: Set<Position>, head: int, route: Seq<Position>)
    requires
        0 <= head < queue.len(),
        forall|j: int, k: int| 0 <= j <= k < queue.len() ==>
            depth[grid_index(width, #[trigger] queue[j])] <= depth[grid_index(width, #[trigger] queue[k])],
        forall|j: int, r: Position| 0 <= j < head && #[trigger] pursuit_move(map, occupied, target, queue[j], r)
            ==> seen.contains(r) && depth[grid_index(width, r)] <= depth[grid_index(width, queue[j])] + 1,
        forall|p: Position| seen.contains(p) ==> exists|j: int| 0 <= j < queue.len() && queue[j] == p,
        seen.contains(start),
        depth[grid_index(width, start)] == 0,
        is_route(map, occupied, target, route),
        route[0] == start,
        !seen.contains(route.last()),
    ensures
        route.len() >= depth[grid_index(width, queue[head])] + 2,
{
    assert(route.len() >= 2) by {
        if route.len() == 1 {
            assert(route.last() == start);
        }
    }
    lemma_route_prefix(map, occupied, target, route);
    let prefix = route.drop_last();
    lemma_bfs_depth_bounds_route(map, occupied, target, start, width, queue, depth, seen, head, prefix);
    let w = prefix.last();
    if !(depth[grid_index(width, queue[head])] <= prefix.len() - 1) {
        let m = choose|j: int| 0 <= j < queue.len() && queue[j] == w;
        if m >= head {
            assert(depth[grid_index(width, queue[head])] <= depth[grid_index(width, queue[m])]);
        } else {
            assert(w == route[route.len() - 2]);
            assert(pursuit_move(map, occupied, target, queue[m], route.last()));
        }
    }
}

/// No shortest route to the newly found `cand` starts in a direction
/// before `q`'s first direction (`k` when `q` is the start).
#[verifier::rlimit(100)]
#[verifier::spinoff_prover]
proof fn lemma_discovery_first(map: &DungeonMap, occupied: Set<Position>, target: Position, start: Position, width: int,
    queue: Seq<Position>, depth: Seq<u64>, root: Seq<int>, seen: Set<Position>, head: int, cand: Position, k: int,
    path: Seq<Position>)
    requires
        0 <= head < queue.len(),
        queue[0] == start,
        forall|j: int, k2: int| 0 <= j <= k2 < queue.len() ==>
            depth[grid_index(width, #[trigger] queue[j])] <= depth[grid_index(width, #[trigger] queue[k2])],
        forall|j: int, r: Position| 0 <= j < head && #[trigger] pursuit_move(map, occupied, target, queue[j], r)
            ==> seen.contains(r) && depth[grid_index(width, r)] <= depth[grid_index(width, queue[j])] + 1,
        forall|p: Position| seen.contains(p) ==> exists|j: int| 0 <= j < queue.len() && queue[j] == p,
        forall|j: int| 0 <= j < queue.len() ==> seen.contains(#[trigger] queue[j]),
        seen.contains(start),
        depth[grid_index(width, start)] == 0,
        forall|p: Position| #[trigger] seen.contains(p) && p != start ==> 1 <= depth[grid_index(width, p)]
            && exists|path: Seq<Position>| #[trigger] is_shortest_route_to(map, occupied, target, start, p, path)
                && path.len() == depth[grid_index(width, p)] + 1 && dir_index(start, path[1]) == root[grid_index(width, p)],
        forall|p: Position, path: Seq<Position>| seen.contains(p) && p != start
            && #[trigger] is_shortest_route_to(map, occupied, target, start, p, path) && path.len() >= 2
            ==> root[grid_index(width, p)] <= dir_index(start, path[1]),
        forall|j: int, k2: int| 0 <= j <= k2 < queue.len() && #[trigger] queue[j] != start
            && depth[grid_index(width, queue[j])] == depth[grid_index(width, #[trigger] queue[k2])]
            ==> root[grid_index(width, queue[j])] <= root[grid_index(width, queue[k2])],
        !seen.contains(cand),
        pursuit_move(map, occupied, target, queue[head], cand),
        dir_index(queue[head], cand) == k,
        is_shortest_route_to(map, occupied, target, start, cand, path),
        path.len() == depth[grid_index(width, queue[head])] + 2,
    ensures
        (if queue[head] == start { k } else { root[grid_index(width, queue[head])] }) <= dir_index(start, path[1]),
{
    let q = queue[head];
    let dq = depth[grid_index(width, q)];
    if q == start {
        assert(path.len() == 2);
        assert(path[1] == cand);
    } else {
        assert(seen.contains(q));
        lemma_route_prefix(map, occupied, target, path);
        let prefix = path.drop_last();
        let u = prefix.last();
        assert(u == path[path.len() - 2]);
        assert forall|other: Seq<Position>| #[trigger] is_route(map, occupied, target, other) && other[0] == start
            && other.last() == u implies prefix.len() <= other.len() by {
            lemma_route_extend(map, occupied, target, other, cand);
            assert(other.push(cand)[0] == start);
        }
        assert(is_shortest_route_to(map, occupied, target, start, u, prefix));
        lemma_route_prefix(map, occupied, target, prefix);
        let before = prefix.drop_last();
        let w = before.last();
        assert(w == prefix[prefix.len() - 2]);
        lemma_bfs_depth_bounds_route(map, occupied, target, start, width, queue, depth, seen, head, before);
        let mw = choose|j: int| 0 <= j < queue.len() && queue[j] == w;
        if mw >= head {
            assert(dq <= depth[grid_index(width, queue[mw])]);
        }
        assert(pursuit_move(map, occupied, target, queue[mw], u));
        assert(seen.contains(u));
        let mu = choose|j: int| 0 <= j < queue.len() && queue[j] == u;
        if mu < head {
            assert(pursuit_move(map, occupied, target, queue[mu], cand));
        }
        assert(dq <= depth[grid_index(width, queue[mu])]);
        assert(u != start);
        assert(prefix[1] == path[1]);
        assert(root[grid_index(width, u)] <= dir_index(start, prefix[1]));
        assert(queue[head] != start);
        assert(root[grid_index(width, queue[head])] <= root[grid_index(width, queue[mu])]);
    }
}

/// Expanding the queue entry `q` at `head` to an unseen neighbour `cand`
/// in direction `k`: every route to `cand` is at least two tiles longer
/// than `q`'s depth, one of exactly that length starts in `q`'s first
/// direction (`k` when `q` is the start), and no shortest route starts in
/// an earlier direction.
#[verifier::rlimit(100)]
#[verifier::spinoff_prover]
proof fn lemma_discovery(map: &DungeonMap, occupied: Set<Position>, target: Position, start: Position, width: int,
    queue: Seq<Position>, depth: Seq<u64>, root: Seq<int>, seen: Set<Position>, head: int, cand: Position, k: int)
    requires
        0 <= head < queue.len(),
        queue[0] == start,
        forall|j: int, k2: int| 0 <= j <= k2 < queue.len() ==>
            depth[grid_index(width, #[trigger] queue[j])] <= depth[grid_index(width, #[trigger] queue[k2])],
        forall|j: int, r: Position| 0 <= j < head && #[trigger] pursuit_move(map, occupied, target, queue[j], r)
            ==> seen.contains(r) && depth[grid_index(width, r)] <= depth[grid_index(width, queue[j])] + 1,
        forall|p: Position| seen.contains(p) ==> exists|j: int| 0 <= j < queue.len() && queue[j] == p,
        forall|j: int| 0 <= j < queue.len() ==> seen.contains(#[trigger] queue[j]),
        seen.contains(start),
        depth[grid_index(width, start)] == 0,
        forall|p: Position| #[trigger] seen.contains(p) && p != start ==> 1 <= depth[grid_index(width, p)]
            && exists|path: Seq<Position>| #[trigger] is_shortest_route_to(map, occupied, target, start, p, path)
                && path.len() == depth[grid_index(width, p)] + 1 && dir_index(start, path[1]) == root[grid_index(width, p)],
        forall|p: Position, path: Seq<Position>| seen.contains(p) && p != start
            && #[trigger] is_shortest_route_to(map, occupied, target, start, p, path) && path.len() >= 2
            ==> root[grid_index(width, p)] <= dir_index(start, path[1]),
        forall|j: int, k2: int| 0 <= j <= k2 < queue.len() && #[trigger] queue[j] != start
            && depth[grid_index(width, queue[j])] == depth[grid_index(width, #[trigger] queue[k2])]
            ==> root[grid_index(width, queue[j])] <= root[grid_index(width, queue[k2])],
        !seen.contains(cand),
        pursuit_move(map, occupied, target, queue[head], cand),
        dir_index(queue[head], cand) == k,
    ensures
        forall|route: Seq<Position>| #[trigger] is_route(map, occupied, target, route) && route[0] == start
            && route.last() == cand ==> route.len() >= depth[grid_index(width, queue[head])] + 2,
        exists|path: Seq<Position>| #[trigger] is_shortest_route_to(map, occupied, target, start, cand, path)
            && path.len() == depth[grid_index(width, queue[head])] + 2
            && dir_index(start, path[1]) == if queue[head] == start { k } else { root[grid_index(width, queue[head])] },
        forall|path: Seq<Position>| #[trigger] is_shortest_route_to(map, occupied, target, start, cand, path)
            && path.len() >= 2 ==> (if queue[head] == start { k } else { root[grid_index(width, queue[head])] })
                <= dir_index(start, path[1]),
{
    let q = queue[head];
    let dq = depth[grid_index(width, q)];
    let rc = if q == start { k } else { root[grid_index(width, q)] };
    assert forall|route: Seq<Position>| #[trigger] is_route(map, occupied, target, route) && route[0] == start
        && route.last() == cand implies route.len() >= dq + 2 by {
        lemma_unseen_route_is_long(map, occupied, target, start, width, queue, depth, seen, head, route);
    }
    let best: Seq<Position> = if q == start {
        seq![start, cand]
    } else {
        let t = choose|path: Seq<Position>| #[trigger] is_shortest_route_to(map, occupied, target, start, q, path)
            && path.len() == dq + 1 && dir_index(start, path[1]) == root[grid_index(width, q)];
        t.push(cand)
    };
    if q == start {
        assert(is_route(map, occupied, target, best)) by {
            assert(pursuit_move(map, occupied, target, best[0], best[1]));
        }
    } else {
        assert(seen.contains(q));
        let t = choose|path: Seq<Position>| #[trigger] is_shortest_route_to(map, occupied, target, start, q, path)
            && path.len() == dq + 1 && dir_index(start, path[1]) == root[grid_index(width, q)];
        lemma_route_extend(map, occupied, target, t, cand);
        assert(best[1] == t[1]);
    }
    assert(is_shortest_route_to(map, occupied, target, start, cand, best));
    assert forall|path: Seq<Position>| #[trigger] is_shortest_route_to(map, occupied, target, start, cand, path)
        && path.len() >= 2 implies rc <= dir_index(start, path[1]) by {
        assert(path.len() == dq + 2);
        lemma_discovery_first(map, occupied, target, start, width, queue, depth, root, seen, head, cand, k, path);
    }
}

/// Pushing the unseen neighbour `cand` of the entry `q` at `head`, found in
/// direction `k`, keeps every fact the search keeps.
#[verifier::rlimit(100)]
#[verifier::spinoff_prover]
proof fn lemma_push_keeps_search(map: &DungeonMap, occ: Set<Position>, target: Position, start: Position,
    width: int, height: int, head: int, q: Position, k: int, cand: Position,
    queue0: Seq<Position>, seen0: Set<Position>, depth0: Seq<u64>, parent0: Seq<Position>, root0: Seq<int>,
    queue1: Seq<Position>, seen1: Set<Position>, depth1: Seq<u64>, parent1: Seq<Position>, root1: Seq<int>)
    requires
        forall|j: int| 0 <= j < queue0.len() ==> seen0.contains(#[trigger] queue0[j]),
        forall|p: Position| seen0.contains(p) ==> exists|j: int| 0 <= j < queue0.len() && queue0[j] == p,
        forall|j: int, k2: int| 0 <= j < k2 < queue0.len() ==> #[trigger] queue0[j] != #[trigger] queue0[k2],
        forall|p: Position| #[trigger] seen0.contains(p) && p != start ==> {
            let pq = parent0[grid_index(width, p)];
            &&& seen0.contains(pq)
            &&& pursuit_move(map, occ, target, pq, p)
            &&& depth0[grid_index(width, pq)] + 1 == depth0[grid_index(width, p)]
            &&& exists|j: int| 0 <= j <= head && queue0[j] == pq
            &&& (depth0[grid_index(width, p)] == 1 ==> pq == start && root0[grid_index(width, p)] == dir_index(start, p))
            &&& (depth0[grid_index(width, p)] >= 2 ==> root0[grid_index(width, p)] == root0[grid_index(width, pq)])
        },
        forall|p: Position| #[trigger] seen0.contains(p) && p != start ==> 1 <= depth0[grid_index(width, p)]
            && exists|path: Seq<Position>| #[trigger] is_shortest_route_to(map, occ, target, start, p, path)
                && path.len() == depth0[grid_index(width, p)] + 1 && dir_index(start, path[1]) == root0[grid_index(width, p)],
        forall|p: Position, path: Seq<Position>| seen0.contains(p) && p != start
            && #[trigger] is_shortest_route_to(map, occ, target, start, p, path) && path.len() >= 2
            ==> root0[grid_index(width, p)] <= dir_index(start, path[1]),
        forall|j: int, k2: int| 0 <= j <= k2 < queue0.len() && #[trigger] queue0[j] != start
            && depth0[grid_index(width, queue0[j])] == depth0[grid_index(width, #[trigger] queue0[k2])]
            ==> root0[grid_index(width, queue0[j])] <= root0[grid_index(width, queue0[k2])],
        q == start ==> forall|j: int| 0 <= j < queue0.len() && #[trigger] queue0[j] != start
            ==> root0[grid_index(width, queue0[j])] < k,
        forall|j: int, r: Position| 0 <= j < head && #[trigger] pursuit_move(map, occ, target, queue0[j], r)
            ==> seen0.contains(r) && depth0[grid_index(width, r)] <= depth0[grid_index(width, queue0[j])] + 1,
        forall|m: int| 0 <= m < k && #[trigger] pursuit_move(map, occ, target, q, neighbour(q, m))
            ==> seen0.contains(neighbour(q, m)) && depth0[grid_index(width, neighbour(q, m))] <= depth0[grid_index(width, q)] + 1,
        forall|j: int| 0 <= j < queue0.len() ==> depth0[grid_index(width, #[trigger] queue0[j])] <= queue0.len(),
        forall|j: int, k2: int| 0 <= j <= k2 < queue0.len() ==> depth0[grid_index(width, #[trigger] queue0[j])]
            <= depth0[grid_index(width, #[trigger] queue0[k2])],
        forall|k2: int| head <= k2 < queue0.len() ==> depth0[grid_index(width, #[trigger] queue0[k2])] <= depth0[grid_index(width, q)] + 1,
        forall|j: int| 0 <= j < head ==> #[trigger] queue0[j] != target,
        head < queue0.len(),
        queue0[head] == q,
        queue0[0] == start,
        seen0.contains(start),
        depth0[grid_index(width, start)] == 0,
        forall|p: Position| #[trigger] seen0.contains(p) ==> in_grid(width, height, p),
        0 <= head,
        0 <= k < 8,
        1 <= width <= 65535,
        1 <= height <= 65535,
        depth0.len() == width * height,
        parent0.len() == width * height,
        root0.len() == width * height,
        q == start ==> head == 0,
        !seen0.contains(cand),
        in_grid(width, height, cand),
        cand == neighbour(q, k),
        pursuit_move(map, occ, target, q, cand),
        dir_index(q, cand) == k,
        depth0[grid_index(width, q)] + 1 <= u64::MAX,
        queue1 == queue0.push(cand),
        seen1 == seen0.insert(cand),
        depth1 == depth0.update(grid_index(width, cand), (depth0[grid_index(width, q)] + 1) as u64),
        parent1 == parent0.update(grid_index(width, cand), q),
        root1 == root0.update(grid_index(width, cand), if q == start { k } else { root0[grid_index(width, q)] }),
    ensures
        forall|j: int| 0 <= j < queue1.len() ==> seen1.contains(#[trigger] queue1[j]),
        forall|p: Position| seen1.contains(p) ==> exists|j: int| 0 <= j < queue1.len() && queue1[j] == p,
        forall|j: int, k2: int| 0 <= j < k2 < queue1.len() ==> #[trigger] queue1[j] != #[trigger] queue1[k2],
        forall|p: Position| #[trigger] seen1.contains(p) && p != start ==> {
            let pq = parent1[grid_index(width, p)];
            &&& seen1.contains(pq)
            &&& pursuit_move(map, occ, target, pq, p)
            &&& depth1[grid_index(width, pq)] + 1 == depth1[grid_index(width, p)]
            &&& exists|j: int| 0 <= j <= head && queue1[j] == pq
            &&& (depth1[grid_index(width, p)] == 1 ==> pq == start && root1[grid_index(width, p)] == dir_index(start, p))
            &&& (depth1[grid_index(width, p)] >= 2 ==> root1[grid_index(width, p)] == root1[grid_index(width, pq)])
        },
        forall|p: Position| #[trigger] seen1.contains(p) && p != start ==> 1 <= depth1[grid_index(width, p)]
            && exists|path: Seq<Position>| #[trigger] is_shortest_route_to(map, occ, target, start, p, path)
                && path.len() == depth1[grid_index(width, p)] + 1 && dir_index(start, path[1]) == root1[grid_index(width, p)],
        forall|p: Position, path: Seq<Position>| seen1.contains(p) && p != start
            && #[trigger] is_shortest_route_to(map, occ, target, start, p, path) && path.len() >= 2
            ==> root1[grid_index(width, p)] <= dir_index(start, path[1]),
        forall|j: int, k2: int| 0 <= j <= k2 < queue1.len() && #[trigger] queue1[j] != start
            && depth1[grid_index(width, queue1[j])] == depth1[grid_index(width, #[trigger] queue1[k2])]
            ==> root1[grid_index(width, queue1[j])] <= root1[grid_index(width, queue1[k2])],
        q == start ==> forall|j: int| 0 <= j < queue1.len() && #[trigger] queue1[j] != start
            ==> root1[grid_index(width, queue1[j])] < k + 1,
        forall|j: int, r: Position| 0 <= j < head && #[trigger] pursuit_move(map, occ, target, queue1[j], r)
            ==> seen1.contains(r) && depth1[grid_index(width, r)] <= depth1[grid_index(width, queue1[j])] + 1,
        forall|m: int| 0 <= m < k + 1 && #[trigger] pursuit_move(map, occ, target, q, neighbour(q, m))
            ==> seen1.contains(neighbour(q, m)) && depth1[grid_index(width, neighbour(q, m))] <= depth1[grid_index(width, q)] + 1,
        forall|j: int| 0 <= j < queue1.len() ==> depth1[grid_index(width, #[trigger] queue1[j])] <= queue1.len(),
        forall|j: int, k2: int| 0 <= j <= k2 < queue1.len() ==> depth1[grid_index(width, #[trigger] queue1[j])]
            <= depth1[grid_index(width, #[trigger] queue1[k2])],
        forall|k2: int| head <= k2 < queue1.len() ==> depth1[grid_index(width, #[trigger] queue1[k2])] <= depth1[grid_index(width, q)] + 1,
        forall|j: int| 0 <= j < head ==> #[trigger] queue1[j] != target,
        head < queue1.len(),
        queue1[head] == q,
        queue1[0] == start,
        seen1.contains(start),
        depth1[grid_index(width, start)] == 0,
        forall|p: Position| #[trigger] seen1.contains(p) ==> in_grid(width, height, p),
{
    let gq = grid_index(width, q);
    let gc = grid_index(width, cand);
    let rc = if q == start { k } else { root0[gq] };
    lemma_grid_index_bounds(width, height, cand);
    assert(seen0.contains(q));
    lemma_grid_index_bounds(width, height, q);
    lemma_discovery(map, occ, target, start, width, queue0, depth0, root0, seen0, head, cand, k);
    assert forall|p: Position| #[trigger] seen0.contains(p) implies
        depth1[grid_index(width, p)] == depth0[grid_index(width, p)]
        && parent1[grid_index(width, p)] == parent0[grid_index(width, p)]
        && root1[grid_index(width, p)] == root0[grid_index(width, p)] by {
        lemma_grid_index_bounds(width, height, p);
        if grid_index(width, p) == gc {
            lemma_grid_index_injective(width, height, p, cand);
        }
    }
    assert(depth1[gc] == depth0[gq] + 1);
    assert(parent1[gc] == q);
    assert(root1[gc] == rc);
    assert(queue1[queue0.len() as int] == cand);
    assert forall|j: int| 0 <= j < queue1.len() implies seen1.contains(#[trigger] queue1[j]) by {
        if j < queue0.len() {
            assert(queue1[j] == queue0[j]);
        }
    }
    assert forall|p: Position| seen1.contains(p) implies exists|j: int| 0 <= j < queue1.len() && queue1[j] == p by {
        if p == cand {
            assert(queue1[queue1.len() - 1] == cand);
        } else {
            let j = choose|j: int| 0 <= j < queue0.len() && queue0[j] == p;
            assert(queue1[j] == p);
        }
    }
    assert forall|j: int, k2: int| 0 <= j < k2 < queue1.len() implies #[trigger] queue1[j] != #[trigger] queue1[k2] by {
        assert(queue1[j] == queue0[j]);
        if k2 < queue0.len() {
            assert(queue1[k2] == queue0[k2]);
        } else {
            assert(seen0.contains(queue0[j]));
        }
    }
    assert forall|p: Position| #[trigger] seen1.contains(p) && p != start implies {
        let pq = parent1[grid_index(width, p)];
        &&& seen1.contains(pq)
        &&& pursuit_move(map, occ, target, pq, p)
        &&& depth1[grid_index(width, pq)] + 1 == depth1[grid_index(width, p)]
        &&& exists|j: int| 0 <= j <= head && queue1[j] == pq
        &&& (depth1[grid_index(width, p)] == 1 ==> pq == start && root1[grid_index(width, p)] == dir_index(start, p))
        &&& (depth1[grid_index(width, p)] >= 2 ==> root1[grid_index(width, p)] == root1[grid_index(width, pq)])
    } by {
        if p == cand {
            assert(queue1[head] == q);
            if q != start {
                assert(1 <= depth0[gq]);
            }
        } else {
            let pq = parent0[grid_index(width, p)];
            assert(seen0.contains(pq));
            let j = choose|j: int| 0 <= j <= head && queue0[j] == pq;
            assert(queue1[j] == pq);
        }
    }
    assert forall|p: Position| #[trigger] seen1.contains(p) && p != start implies 1 <= depth1[grid_index(width, p)]
        && exists|path: Seq<Position>| #[trigger] is_shortest_route_to(map, occ, target, start, p, path)
            && path.len() == depth1[grid_index(width, p)] + 1 && dir_index(start, path[1]) == root1[grid_index(width, p)] by {
        if p == cand {
            let w = choose|path: Seq<Position>| #[trigger] is_shortest_route_to(map, occ, target, start, cand, path)
                && path.len() == depth0[gq] + 2 && dir_index(start, path[1]) == rc;
            assert(is_shortest_route_to(map, occ, target, start, p, w));
        }
    }
    assert forall|p: Position, path: Seq<Position>| seen1.contains(p) && p != start
        && #[trigger] is_shortest_route_to(map, occ, target, start, p, path) && path.len() >= 2
        implies root1[grid_index(width, p)] <= dir_index(start, path[1]) by {
        if p != cand {
            assert(seen0.contains(p));
        }
    }
    assert forall|j: int, k2: int| 0 <= j <= k2 < queue1.len() && #[trigger] queue1[j] != start
        && depth1[grid_index(width, queue1[j])] == depth1[grid_index(width, #[trigger] queue1[k2])]
        implies root1[grid_index(width, queue1[j])] <= root1[grid_index(width, queue1[k2])] by {
        if j < queue0.len() {
            assert(queue1[j] == queue0[j]);
            assert(seen0.contains(queue0[j]));
            if k2 < queue0.len() {
                assert(queue1[k2] == queue0[k2]);
                assert(seen0.contains(queue0[k2]));
            } else {
                let e = queue0[j];
                if q == start {
                    assert(root0[grid_index(width, e)] < k);
                } else {
                    let pe = parent0[grid_index(width, e)];
                    assert(seen0.contains(pe));
                    let m = choose|m: int| 0 <= m <= head && queue0[m] == pe;
                    assert(depth0[grid_index(width, e)] >= 2);
                    assert(queue0[m] != start);
                    assert(root0[grid_index(width, queue0[m])] <= root0[grid_index(width, queue0[head])]);
                }
            }
        }
    }
    if q == start {
        assert forall|j: int| 0 <= j < queue1.len() && #[trigger] queue1[j] != start
            implies root1[grid_index(width, queue1[j])] < k + 1 by {
            if j < queue0.len() {
                assert(queue1[j] == queue0[j]);
                assert(seen0.contains(queue0[j]));
            }
        }
    }
    assert forall|j: int, r: Position| 0 <= j < head && #[trigger] pursuit_move(map, occ, target, queue1[j], r)
        implies seen1.contains(r) && depth1[grid_index(width, r)] <= depth1[grid_index(width, queue1[j])] + 1 by {
        assert(queue1[j] == queue0[j]);
        assert(pursuit_move(map, occ, target, queue0[j], r));
        assert(seen0.contains(queue0[j]));
        assert(seen0.contains(r));
    }
    assert forall|m: int| 0 <= m < k + 1 && #[trigger] pursuit_move(map, occ, target, q, neighbour(q, m))
        implies seen1.contains(neighbour(q, m)) && depth1[grid_index(width, neighbour(q, m))] <= depth1[gq] + 1 by {
        if m < k {
            assert(seen0.contains(neighbour(q, m)));
        }
    }
    assert forall|j: int| 0 <= j < queue1.len() implies depth1[grid_index(width, #[trigger] queue1[j])] <= queue1.len() by {
        if j < queue0.len() {
            assert(queue1[j] == queue0[j]);
            assert(seen0.contains(queue0[j]));
        } else {
            assert(depth0[grid_index(width, queue0[head])] <= queue0.len());
        }
    }
    assert forall|j: int, k2: int| 0 <= j <= k2 < queue1.len() implies depth1[grid_index(width, #[trigger] queue1[j])]
        <= depth1[grid_index(width, #[trigger] queue1[k2])] by {
        if j < queue0.len() {
            assert(queue1[j] == queue0[j]);
            assert(seen0.contains(queue0[j]));
            if k2 < queue0.len() {
                assert(queue1[k2] == queue0[k2]);
                assert(seen0.contains(queue0[k2]));
            } else if j < head {
                assert(depth0[grid_index(width, queue0[j])] <= depth0[grid_index(width, queue0[head])]);
            }
        }
    }
    assert forall|k2: int| head <= k2 < queue1.len() implies depth1[grid_index(width, #[trigger] queue1[k2])] <= depth1[gq] + 1 by {
        if k2 < queue0.len() {
            assert(queue1[k2] == queue0[k2]);
            assert(seen0.contains(queue0[k2]));
        }
    }
    assert forall|j: int| 0 <= j < head implies #[trigger] queue1[j] != target by {
        assert(queue1[j] == queue0[j]);
    }
    assert(queue1[head] == q);
    assert(queue1[0] == start);
    assert(depth1[grid_index(width, start)] == 0);
    assert forall|p: Position| #[trigger] seen1.contains(p) implies in_grid(width, height, p) by {
        if p != cand {
            assert(seen0.contains(p));
        }
    }
}

/// The neighbour in direction `k` lies one step away in that direction.
proof fn lemma_dir_of_neighbour(q: Position, k: int)
    requires
        0 <= k < 8,
        0 <= q.x <= 65535,
        0 <= q.y <= 65535,
    ensures
        dir_index(q, neighbour(q, k)) == k,
        cheb(q, neighbour(q, k)) == 1,
{
    if k == 0 {} else if k == 1 {} else if k == 2 {} else if k == 3 {} else if k == 4 {} else if k == 5 {} else if k == 6 {} else {}
}

/// Row-major storage index of an on-grid position.
fn cell_index(width: u16, height: u16, p: Position) -> (i: usize)
    requires
        crate::world::in_grid(width as int, height as int, p),
    ensures
        i == grid_index(width as int, p),
        i < width * height,
{
    proof {
        lemma_grid_index_bounds(width as int, height as int, p);
        assert((width as int) * (height as int) <= 65535 * 65535) by (nonlinear_arith)
            requires width <= 65535, height <= 65535;
    }
    (p.y as usize) * (width as usize) + (p.x as usize)
}

/// The next step from `start` toward `target` along a shortest route of
/// pursuit moves, the first in direction order (north, north-east, east,
/// south-east, south, south-west, west, north-west) among the first steps
/// of shortest routes; found breadth-first. `None` when no route reaches
/// `target`.
#[verifier::rlimit(100)]
#[verifier::spinoff_prover]
pub fn next_step_toward(map: &DungeonMap, start: Position, target: Position, occupied: &PositionSet) -> (r: Option<Position>)
    requires
        map.wf(),
        map.in_bounds(start),
    ensures
        r is Some <==> route_reaches(map, occupied@, target, start, target),
        r matches Some(s) ==> (s == start && start == target) || first_step_to(map, occupied@, target, start, target, s),
{
    let width = map.width;
    let height = map.height;
    let mut seen = PositionSet::new(width, height);
    proof {
        assert((width as int) * (height as int) <= 65535 * 65535) by (nonlinear_arith)
            requires width <= 65535, height <= 65535;
    }
    let n: usize = (width as usize) * (height as usize);
    let mut parent: Vec<Position> = Vec::new();
    let mut depth: Vec<u64> = Vec::new();
    let mut i: usize = 0;
    while i < n
        invariant
            i <= n,
            n == width * height,
            parent@.len() == i,
            depth@.len() == i,
            forall|j: int| 0 <= j < i ==> #[trigger] depth@[j] == 0,
        decreases n - i,
    {
        parent.push(start);
        depth.push(0);
        i = i + 1;
    }
    proof {
        lemma_grid_index_bounds(width as int, height as int, start);
    }
    seen.insert(start);
    let mut queue: Vec<Position> = Vec::new();
    queue.push(start);
    let mut head: usize = 0;
    let mut found = start == target;
    let ghost occ = occupied@;
    let ghost mut root: Seq<int> = Seq::new(n as nat, |j: int| 0int);
    proof {
        assert(is_route(map, occ, target, seq![start]));
        assert forall|p: Position| seen@.contains(p) implies exists|j: int| 0 <= j < queue@.len() && queue@[j] == p by {
            assert(queue@[0] == p);
        }
    }
    while head < queue.len() && !found
        invariant
            map.wf(),
            map.in_bounds(start),
            occ == occupied@,
            n == width * height,
            width == map.width,
            height == map.height,
            seen.wf(),
            seen.width == width,
            seen.height == height,
            parent@.len() == n,
            depth@.len() == n,
            root.len() == n,
            head <= queue@.len(),
            queue@.len() >= 1,
            queue@[0] == start,
            head == 0 ==> queue@.len() == 1,
            seen@.contains(start),
            found ==> seen@.contains(target),
            depth@[grid_index(width as int, start)] == 0,
            forall|j: int| 0 <= j < queue@.len() ==> seen@.contains(#[trigger] queue@[j]),
            forall|p: Position| seen@.contains(p) ==> exists|j: int| 0 <= j < queue@.len() && queue@[j] == p,
            forall|j: int, k: int| 0 <= j < k < queue@.len() ==> #[trigger] queue@[j] != #[trigger] queue@[k],
            forall|p: Position| #[trigger] seen@.contains(p) ==> map.in_bounds(p) && route_reaches(map, occ, target, start, p),
            forall|p: Position| #[trigger] seen@.contains(p) && p != start ==> {
                let q = parent@[grid_index(width as int, p)];
                &&& seen@.contains(q)
                &&& pursuit_move(map, occ, target, q, p)
                &&& depth@[grid_index(width as int, q)] + 1 == depth@[grid_index(width as int, p)]
                &&& exists|j: int| 0 <= j < head && queue@[j] == q
                &&& (depth@[grid_index(width as int, p)] == 1 ==> q == start
                    && root[grid_index(width as int, p)] == dir_index(start, p))
                &&& (depth@[grid_index(width as int, p)] >= 2 ==> root[grid_index(width as int, p)]
                    == root[grid_index(width as int, q)])
            },
            forall|p: Position| #[trigger] seen@.contains(p) && p != start ==> 1 <= depth@[grid_index(width as int, p)]
                && exists|path: Seq<Position>| #[trigger] is_shortest_route_to(map, occ, target, start, p, path)
                    && path.len() == depth@[grid_index(width as int, p)] + 1
                    && dir_index(start, path[1]) == root[grid_index(width as int, p)],
            forall|p: Position, path: Seq<Position>| seen@.contains(p) && p != start
                && #[trigger] is_shortest_route_to(map, occ, target, start, p, path) && path.len() >= 2
                ==> root[grid_index(width as int, p)] <= dir_index(start, path[1]),
            forall|j: int, k: int| 0 <= j <= k < queue@.len() && #[trigger] queue@[j] != start
                && depth@[grid_index(width as int, queue@[j])] == depth@[grid_index(width as int, #[trigger] queue@[k])]
                ==> root[grid_index(width as int, queue@[j])] <= root[grid_index(width as int, queue@[k])],
            forall|j: int, r: Position| 0 <= j < head && #[trigger] pursuit_move(map, occ, target, queue@[j], r)
                ==> seen@.contains(r) && depth@[grid_index(width as int, r)] <= depth@[grid_index(width as int, queue@[j])] + 1,
            queue@.len() + count_false(seen.cells@) == width * height,
            forall|j: int| 0 <= j < queue@.len() ==> depth@[grid_index(width as int, #[trigger] queue@[j])] <= queue@.len(),
            forall|j: int, k: int| 0 <= j <= k < queue@.len() ==> depth@[grid_index(width as int, #[trigger] queue@[j])]
                <= depth@[grid_index(width as int, #[trigger] queue@[k])],
            head < queue@.len() ==> forall|k: int| head <= k < queue@.len() ==> depth@[grid_index(width as int, #[trigger] queue@[k])]
                <= depth@[grid_index(width as int, queue@[head as int])] + 1,
            forall|j: int| 0 <= j < head ==> #[trigger] queue@[j] != target,
            found ==> head < queue@.len() && queue@[head as int] == target,
        decreases 2 * count_false(seen.cells@) + queue@.len() - head, if found { 0int } else { 1int },
    {
        let q = queue[head];
        if q == target {
            found = true;
        } else {
            let ghost measure0 = 2 * count_false(seen.cells@) + queue@.len();
            proof {
                if q == start {
                    if head > 0 {
                        assert(queue@[0] == queue@[head as int]);
                    }
                }
            }
            let dirs = Direction::all();
            let mut k: usize = 0;
            while k < 8
                invariant
                    map.wf(),
                    map.in_bounds(start),
                    occ == occupied@,
                    n == width * height,
                    width == map.width,
                    height == map.height,
                    seen.wf(),
                    seen.width == width,
                    seen.height == height,
                    parent@.len() == n,
                    depth@.len() == n,
                    root.len() == n,
                    q == start ==> head == 0,
                    seen@.contains(q),
                    map.in_bounds(q),
                    dirs@ == seq![
                        Direction::North, Direction::NorthEast, Direction::East, Direction::SouthEast,
                        Direction::South, Direction::SouthWest, Direction::West, Direction::NorthWest
                    ],
                    forall|p: Position| #[trigger] seen@.contains(p) ==> map.in_bounds(p) && route_reaches(map, occ, target, start, p),
                    forall|j: int| 0 <= j < queue@.len() ==> seen@.contains(#[trigger] queue@[j]),
                    forall|p: Position| seen@.contains(p) ==> exists|j: int| 0 <= j < queue@.len() && queue@[j] == p,
                    forall|j: int, k2: int| 0 <= j < k2 < queue@.len() ==> #[trigger] queue@[j] != #[trigger] queue@[k2],
                    forall|p: Position| #[trigger] seen@.contains(p) && p != start ==> {
            let pq = parent@[grid_index(width as int, p)];
            &&& seen@.contains(pq)
            &&& pursuit_move(map, occ, target, pq, p)
            &&& depth@[grid_index(width as int, pq)] + 1 == depth@[grid_index(width as int, p)]
            &&& exists|j: int| 0 <= j <= head && queue@[j] == pq
            &&& (depth@[grid_index(width as int, p)] == 1 ==> pq == start && root[grid_index(width as int, p)] == dir_index(start, p))
            &&& (depth@[grid_index(width as int, p)] >= 2 ==> root[grid_index(width as int, p)] == root[grid_index(width as int, pq)])
        },
                    forall|p: Position| #[trigger] seen@.contains(p) && p != start ==> 1 <= depth@[grid_index(width as int, p)]
            && exists|path: Seq<Position>| #[trigger] is_shortest_route_to(map, occ, target, start, p, path)
                && path.len() == depth@[grid_index(width as int, p)] + 1 && dir_index(start, path[1]) == root[grid_index(width as int, p)],
                    forall|p: Position, path: Seq<Position>| seen@.contains(p) && p != start
            && #[trigger] is_shortest_route_to(map, occ, target, start, p, path) && path.len() >= 2
            ==> root[grid_index(width as int, p)] <= dir_index(start, path[1]),
                    forall|j: int, k2: int| 0 <= j <= k2 < queue@.len() && #[trigger] queue@[j] != start
            && depth@[grid_index(width as int, queue@[j])] == depth@[grid_index(width as int, #[trigger] queue@[k2])]
            ==> root[grid_index(width as int, queue@[j])] <= root[grid_index(width as int, queue@[k2])],
                    q == start ==> forall|j: int| 0 <= j < queue@.len() && #[trigger] queue@[j] != start
            ==> root[grid_index(width as int, queue@[j])] < k,
                    forall|j: int, r: Position| 0 <= j < head && #[trigger] pursuit_move(map, occ, target, queue@[j], r)
            ==> seen@.contains(r) && depth@[grid_index(width as int, r)] <= depth@[grid_index(width as int, queue@[j])] + 1,
                    forall|m: int| 0 <= m < k && #[trigger] pursuit_move(map, occ, target, q, neighbour(q, m))
            ==> seen@.contains(neighbour(q, m)) && depth@[grid_index(width as int, neighbour(q, m))] <= depth@[grid_index(width as int, q)] + 1,
                    forall|j: int| 0 <= j < queue@.len() ==> depth@[grid_index(width as int, #[trigger] queue@[j])] <= queue@.len(),
                    forall|j: int, k2: int| 0 <= j <= k2 < queue@.len() ==> depth@[grid_index(width as int, #[trigger] queue@[j])]
            <= depth@[grid_index(width as int, #[trigger] queue@[k2])],
                    forall|k2: int| (head as int) <= k2 < queue@.len() ==> depth@[grid_index(width as int, #[trigger] queue@[k2])] <= depth@[grid_index(width as int, q)] + 1,
                    forall|j: int| 0 <= j < head ==> #[trigger] queue@[j] != target,
                    head < queue@.len(),
                    queue@[head as int] == q,
                    queue@[0] == start,
                    seen@.contains(start),
                    depth@[grid_index(width as int, start)] == 0,
                    forall|p: Position| #[trigger] seen@.contains(p) ==> in_grid(width as int, height as int, p),
                    queue@.len() + count_false(seen.cells@) == width * height,
                    q != target,
                    k <= 8,
                    2 * count_false(seen.cells@) + queue@.len() <= measure0,
                decreases 8 - k,
            {
                let (dx, dy) = dirs[k].delta();
                let cand = q.offset(dx, dy);
                assert(cand == neighbour(q, k as int));
                let step = can_step(map, q, cand);
                let blocked = cand != target && occupied.contains(&cand);
                if step && !blocked && !seen.contains(&cand) {
                    proof {
                        map.lemma_tile_exists_any(cand);
                        lemma_grid_index_bounds(width as int, height as int, cand);
                        lemma_grid_index_bounds(width as int, height as int, q);
                        lemma_count_false_bounded(seen.cells@);
                        lemma_dir_of_neighbour(q, k as int);
                        let path = choose|path: Seq<Position>| #[trigger] is_route(map, occ, target, path) && path[0] == start && path.last() == q;
                        lemma_route_extend(map, occ, target, path, cand);
                        assert(path.push(cand)[0] == start && path.push(cand).last() == cand);
                        assert(depth@[grid_index(width as int, queue@[head as int])] <= queue@.len());
                    }
                    let ghost before_queue = queue@;
                    let ghost before_seen = seen@;
                    let ghost before_depth = depth@;
                    let ghost before_parent = parent@;
                    let ghost before_root = root;
                    let ghost rc: int = if q == start { k as int } else { root[grid_index(width as int, q)] };
                    let qi = cell_index(width, height, q);
                    let ci = cell_index(width, height, cand);
                    let qd = depth[qi];
                    seen.insert(cand);
                    queue.push(cand);
                    parent.set(ci, q);
                    depth.set(ci, qd + 1);
                    proof {
                        root = root.update(ci as int, rc);
                        lemma_push_keeps_search(map, occ, target, start, width as int, height as int, head as int, q, k as int,
                            cand, before_queue, before_seen, before_depth, before_parent, before_root, queue@, seen@, depth@,
                            parent@, root);
                        assert forall|p: Position| #[trigger] seen@.contains(p) implies map.in_bounds(p)
                            && route_reaches(map, occ, target, start, p) by {
                            if p != cand {
                                assert(before_seen.contains(p));
                            }
                        }
                    }
                } else {
                    proof {
                        if pursuit_move(map, occ, target, q, cand) {
                            assert(seen@.contains(cand));
                            let m2 = choose|j: int| 0 <= j < queue@.len() && queue@[j] == cand;
                            if m2 <= head {
                                assert(depth@[grid_index(width as int, queue@[m2])] <= depth@[grid_index(width as int, queue@[head as int])]);
                            } else {
                                assert(depth@[grid_index(width as int, queue@[m2])] <= depth@[grid_index(width as int, q)] + 1);
                            }
                        }
                    }
                }
                k = k + 1;
            }
            proof {
                assert forall|j: int, r: Position| 0 <= j < head + 1 && #[trigger] pursuit_move(map, occ, target, queue@[j], r)
                    implies seen@.contains(r)
                    && depth@[grid_index(width as int, r)] <= depth@[grid_index(width as int, queue@[j])] + 1 by {
                    if j == head {
                        lemma_neighbours_cover(q, r);
                        let m = choose|m: int| 0 <= m < 8 && #[trigger] neighbour(q, m) == r;
                        assert(pursuit_move(map, occ, target, q, neighbour(q, m)));
                    }
                }
                if head + 1 < queue@.len() {
                    assert(depth@[grid_index(width as int, queue@[head as int])]
                        <= depth@[grid_index(width as int, queue@[head + 1])]);
                }
            }
            head = head + 1;
        }
    }
    if !seen.contains(&target) {
        proof {
            assert(!found);
            assert forall|q: Position, r: Position| seen@.contains(q) && #[trigger] pursuit_move(map, occ, target, q, r)
                implies seen@.contains(r) by {
                let j = choose|j: int| 0 <= j < queue@.len() && queue@[j] == q;
                assert(pursuit_move(map, occ, target, queue@[j], r));
            }
            if route_reaches(map, occ, target, start, target) {
                let path = choose|path: Seq<Position>| #[trigger] is_route(map, occ, target, path) && path[0] == start && path.last() == target;
                lemma_closed_contains_route(map, occ, target, start, seen@, path);
            }
        }
        return None;
    }
    let mut step = target;
    while step != start && parent[cell_index(width, height, step)] != start
        invariant
            step != start || step == target,
            map.wf(),
            width == map.width,
            height == map.height,
            occ == occupied@,
            parent@.len() == n,
            depth@.len() == n,
            root.len() == n,
            n == width * height,
            seen@.contains(step),
            seen@.contains(start),
            seen@.contains(target),
            step != start ==> root[grid_index(width as int, step)] == root[grid_index(width as int, target)],
            forall|p: Position| #[trigger] seen@.contains(p) ==> map.in_bounds(p) && route_reaches(map, occ, target, start, p),
            forall|p: Position| #[trigger] seen@.contains(p) && p != start ==> {
                let pq = parent@[grid_index(width as int, p)];
                &&& seen@.contains(pq)
                &&& pursuit_move(map, occ, target, pq, p)
                &&& depth@[grid_index(width as int, pq)] + 1 == depth@[grid_index(width as int, p)]
                &&& (depth@[grid_index(width as int, p)] == 1 ==> pq == start
                    && root[grid_index(width as int, p)] == dir_index(start, p))
                &&& (depth@[grid_index(width as int, p)] >= 2 ==> root[grid_index(width as int, p)]
                    == root[grid_index(width as int, pq)])
            },
            forall|p: Position| #[trigger] seen@.contains(p) && p != start ==> 1 <= depth@[grid_index(width as int, p)],
        decreases depth@[grid_index(width as int, step)],
    {
        let si = cell_index(width, height, step);
        let prev = parent[si];
        step = prev;
    }
    proof {
        if step != start {
            lemma_grid_index_bounds(width as int, height as int, step);
            assert(seen@.contains(target) && target != start);
            let t = choose|path: Seq<Position>| #[trigger] is_shortest_route_to(map, occ, target, start, target, path)
                && path.len() == depth@[grid_index(width as int, target)] + 1
                && dir_index(start, path[1]) == root[grid_index(width as int, target)];
            assert(depth@[grid_index(width as int, step)] == 1);
            assert(dir_index(start, step) == root[grid_index(width as int, target)]);
            lemma_route_prefix(map, occ, target, t.subrange(0, 2));
            assert(t.subrange(0, 2)[1] == t[1]);
            assert(pursuit_move(map, occ, target, t[0], t[1])) by {
                assert(pursuit_move(map, occ, target, t[1 - 1], t[1]));
            }
            lemma_direction_fixes_step(start, step, t[1]);
            assert(is_shortest_route_to(map, occ, target, start, target, t) && t.len() >= 2 && t[1] == step);
            assert forall|path: Seq<Position>| #[trigger] is_shortest_route_to(map, occ, target, start, target, path)
                && path.len() >= 2 implies dir_index(start, step) <= dir_index(start, path[1]) by {
            }
        }
    }
    Some(step)
}

} // verus!
