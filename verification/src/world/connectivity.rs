//! Reachability from the player start and structural map validation.

use super::cells::{count_false, lemma_count_false_bounded, PositionSet, ReachedSet};
use super::{
    cardinally_adjacent, cheb, grid_index, in_grid, lemma_grid_index_bounds, offset_fits, shifted, traversable,
    DungeonMap, GenerationError, Position, Tile,
};
use vstd::prelude::*;

verus! {

/// Minimum Chebyshev distance between the start and the exit.
pub const MIN_START_EXIT_DISTANCE: i32 = 12;

/// Minimum number of hostile spawn candidates on a valid map.
pub const MIN_SPAWN_CANDIDATES: usize = 15;

impl DungeonMap {
    /// A walk from the start through orthogonal steps onto traversable tiles.
    pub open spec fn is_traversal_path(&self, path: Seq<Position>) -> bool {
        &&& path.len() >= 1
        &&& path[0] == self.player_start
        &&& forall|i: int|
            1 <= i < path.len() ==> cardinally_adjacent(path[i - 1], #[trigger] path[i])
                && self.is_traversable_at(path[i])
    }

    /// Reachable from the start by orthogonal steps through traversable terrain.
    pub open spec fn reachable_from_start(&self, p: Position) -> bool {
        exists|path: Seq<Position>| self.is_traversal_path(path) && path.last() == p
    }

    /// Every traversable tile is reachable from the start.
    pub open spec fn is_connected(&self) -> bool {
        forall|p: Position| #[trigger] self.is_traversable_at(p) ==> self.reachable_from_start(p)
    }

    /// The spawn candidate list has no repeats and names only plain floor
    /// away from the start and the exit.
    pub open spec fn spawn_candidates_valid(&self) -> bool {
        &&& forall|i: int, j: int|
            0 <= i < j < self.spawn_candidates@.len() ==> self.spawn_candidates@[i]
                != self.spawn_candidates@[j]
        &&& forall|i: int|
            0 <= i < self.spawn_candidates@.len() ==> {
                let p = #[trigger] self.spawn_candidates@[i];
                &&& self.tile_is(p, Tile::Floor)
                &&& p != self.player_start
                &&& p != self.exit
            }
    }

    /// The message of the first structural invariant the map breaks, if any.
    pub open spec fn invariant_failure(&self) -> Option<Seq<char>> {
        if self.tiles@.len() != self.width * self.height {
            Some("tile storage size mismatch"@)
        } else if self.player_start == self.exit {
            Some("start and exit overlap"@)
        } else if !self.tile_is(self.player_start, Tile::Floor) || !self.tile_is(self.exit, Tile::Exit) {
            Some("start or exit has invalid terrain"@)
        } else if cheb(self.player_start, self.exit) < MIN_START_EXIT_DISTANCE {
            Some("start and exit are too close"@)
        } else if !self.tiles@.contains(Tile::ClosedDoor) {
            Some("dungeon has no closed door"@)
        } else if !self.is_connected() {
            Some("traversable terrain is disconnected"@)
        } else if self.spawn_candidates@.len() < MIN_SPAWN_CANDIDATES {
            Some("fewer than 15 spawn candidates"@)
        } else if !self.spawn_candidates_valid() {
            Some("invalid spawn candidate"@)
        } else {
            None
        }
    }

    /// The checks that precede the connectivity and spawn checks all pass.
    pub open spec fn passes_layout_checks(&self) -> bool {
        &&& self.tiles@.len() == self.width * self.height
        &&& self.player_start != self.exit
        &&& self.tile_is(self.player_start, Tile::Floor)
        &&& self.tile_is(self.exit, Tile::Exit)
        &&& cheb(self.player_start, self.exit) >= MIN_START_EXIT_DISTANCE
        &&& self.tiles@.contains(Tile::ClosedDoor)
    }

    /// A map that passes every structural check.
    pub open spec fn is_valid(&self) -> bool {
        self.invariant_failure() is None
    }

    proof fn lemma_reachable_step(&self, q: Position, p: Position)
        requires
            self.reachable_from_start(q),
            cardinally_adjacent(q, p),
            self.is_traversable_at(p),
        ensures
            self.reachable_from_start(p),
    {
        let path = choose|path: Seq<Position>| self.is_traversal_path(path) && path.last() == q;
        let next = path.push(p);
        assert forall|i: int| 1 <= i < next.len() implies cardinally_adjacent(next[i - 1], #[trigger] next[i])
            && self.is_traversable_at(next[i]) by {
            if i < path.len() {
                assert(next[i] == path[i]);
                assert(next[i - 1] == path[i - 1]);
            }
        }
        assert(self.is_traversal_path(next) && next.last() == p);
    }

    proof fn lemma_closed_set_contains_path_prefix(&self, s: Set<Position>, path: Seq<Position>, k: int)
        requires
            s.contains(self.player_start),
            forall|q: Position, r: Position|
                s.contains(q) && #[trigger] cardinally_adjacent(q, r) && self.is_traversable_at(r) ==> s.contains(r),
            self.is_traversal_path(path),
            0 <= k < path.len(),
        ensures
            s.contains(path[k]),
        decreases k,
    {
        if k > 0 {
            self.lemma_closed_set_contains_path_prefix(s, path, k - 1);
            assert(cardinally_adjacent(path[k - 1], path[k]) && self.is_traversable_at(path[k]));
        }
    }

    /// A set holding the start and closed under traversable orthogonal steps
    /// holds every reachable position.
    proof fn lemma_closed_set_contains_reachable(&self, s: Set<Position>, p: Position)
        requires
            s.contains(self.player_start),
            forall|q: Position, r: Position|
                s.contains(q) && #[trigger] cardinally_adjacent(q, r) && self.is_traversable_at(r) ==> s.contains(r),
            self.reachable_from_start(p),
        ensures
            s.contains(p),
    {
        let path = choose|path: Seq<Position>| self.is_traversal_path(path) && path.last() == p;
        self.lemma_closed_set_contains_path_prefix(s, path, path.len() - 1);
    }

    /// Positions reachable from the start through traversable terrain: the
    /// start itself (on the map or not) and every map position a walk of
    /// orthogonal steps onto traversable tiles reaches from it. The start's
    /// neighbours must have representable coordinates.
    pub fn traversable_positions(&self) -> (reached: ReachedSet)
        requires
            offset_fits(self.player_start, 1, 1),
            offset_fits(self.player_start, -1, -1),
        ensures
            reached.grid.wf(),
            reached.grid.width == self.width,
            reached.grid.height == self.height,
            forall|p: Position| #[trigger] reached@.contains(p) <==> self.reachable_from_start(p),
    {
        let mut visited = ReachedSet::holding(self.width, self.height, self.player_start);
        let mut queue: Vec<Position> = Vec::new();
        let ghost spare: int = if in_grid(self.width as int, self.height as int, self.player_start) { 0 } else { 1 };
        queue.push(self.player_start);
        proof {
            let path = seq![self.player_start];
            assert(self.is_traversal_path(path) && path.last() == self.player_start);
            assert forall|p: Position| visited@.contains(p) implies exists|i: int| 0 <= i < queue@.len() && queue@[i] == p by {
                assert(queue@[0] == p);
            }
        }
        let mut head: usize = 0;
        while head < queue.len()
            invariant
                visited.grid.wf(),
                visited.grid.width == self.width,
                visited.grid.height == self.height,
                head <= queue@.len(),
                visited@.contains(self.player_start),
                forall|i: int| 0 <= i < queue@.len() ==> visited@.contains(#[trigger] queue@[i]),
                forall|p: Position| visited@.contains(p) ==> exists|i: int| 0 <= i < queue@.len() && queue@[i] == p,
                forall|p: Position| #[trigger] visited@.contains(p) ==> self.reachable_from_start(p)
                    && (self.in_bounds(p) || p == self.player_start),
                forall|i: int, r: Position|
                    0 <= i < head && #[trigger] cardinally_adjacent(queue@[i], r) && self.is_traversable_at(r)
                        ==> visited@.contains(r),
                queue@.len() + count_false(visited.grid.cells@) == self.width * self.height + spare,
                spare == if in_grid(self.width as int, self.height as int, self.player_start) { 0int } else { 1int },
                offset_fits(self.player_start, 1, 1),
                offset_fits(self.player_start, -1, -1),
            decreases 2 * count_false(visited.grid.cells@) + queue@.len() - head,
        {
            let q = queue[head];
            assert(visited@.contains(q));
            let ghost measure0 = 2 * count_false(visited.grid.cells@) + queue@.len();
            let neighbors = q.cardinal_neighbors();
            let mut k: usize = 0;
            while k < 4
                invariant
                    visited.grid.wf(),
                    visited.grid.width == self.width,
                    visited.grid.height == self.height,
                    head < queue@.len(),
                    queue@[head as int] == q,
                    self.in_bounds(q) || q == self.player_start,
                    self.reachable_from_start(q),
                    neighbors@ == seq![shifted(q, 0, -1), shifted(q, 1, 0), shifted(q, 0, 1), shifted(q, -1, 0)],
                    visited@.contains(self.player_start),
                    forall|i: int| 0 <= i < queue@.len() ==> visited@.contains(#[trigger] queue@[i]),
                    forall|p: Position| visited@.contains(p) ==> exists|i: int| 0 <= i < queue@.len() && queue@[i] == p,
                    forall|p: Position| #[trigger] visited@.contains(p) ==> self.reachable_from_start(p)
                    && (self.in_bounds(p) || p == self.player_start),
                    forall|i: int, r: Position|
                        0 <= i < head && #[trigger] cardinally_adjacent(queue@[i], r) && self.is_traversable_at(r)
                            ==> visited@.contains(r),
                    forall|j: int| 0 <= j < k && self.is_traversable_at(#[trigger] neighbors@[j]) ==> visited@.contains(neighbors@[j]),
                    queue@.len() + count_false(visited.grid.cells@) == self.width * self.height + spare,
                    spare == if in_grid(self.width as int, self.height as int, self.player_start) { 0int } else { 1int },
                    offset_fits(self.player_start, 1, 1),
                    offset_fits(self.player_start, -1, -1),
                    k <= 4,
                    2 * count_false(visited.grid.cells@) + queue@.len() <= measure0,
                decreases 4 - k,
            {
                let n = neighbors[k];
                let traversable_here = match self.tile(n) {
                    Some(t) => t.is_traversable(),
                    None => false,
                };
                if traversable_here && !visited.contains(&n) {
                    proof {
                        self.lemma_reachable_step(q, n);
                        self.lemma_tile_exists_any(n);
                        lemma_grid_index_bounds(self.width as int, self.height as int, n);
                    }
                    let ghost before_queue = queue@;
                    let ghost before_visited = visited@;
                    let added = visited.insert(n);
                    queue.push(n);
                    proof {
                        assert forall|p: Position| visited@.contains(p) implies exists|i: int| 0 <= i < queue@.len() && queue@[i] == p by {
                            if p == n {
                                assert(queue@[queue@.len() - 1] == n);
                            } else {
                                assert(before_visited.contains(p));
                                let i = choose|i: int| 0 <= i < before_queue.len() && before_queue[i] == p;
                                assert(queue@[i] == p);
                            }
                        }
                        assert forall|i: int| 0 <= i < queue@.len() implies visited@.contains(#[trigger] queue@[i]) by {
                            if i < before_queue.len() {
                                assert(queue@[i] == before_queue[i]);
                            }
                        }
                        assert forall|i: int, r: Position|
                            0 <= i < head && #[trigger] cardinally_adjacent(queue@[i], r) && self.is_traversable_at(r)
                                implies visited@.contains(r) by {
                            assert(queue@[i] == before_queue[i]);
                            assert(cardinally_adjacent(before_queue[i], r));
                        }
                    }
                }
                k = k + 1;
            }
            proof {
                assert forall|i: int, r: Position|
                    0 <= i < head + 1 && #[trigger] cardinally_adjacent(queue@[i], r) && self.is_traversable_at(r)
                        implies visited@.contains(r) by {
                    if i == head {
                        assert(r == neighbors@[0] || r == neighbors@[1] || r == neighbors@[2] || r == neighbors@[3]);
                    }
                }
            }
            head = head + 1;
        }
        proof {
            assert forall|q: Position, r: Position|
                visited@.contains(q) && #[trigger] cardinally_adjacent(q, r) && self.is_traversable_at(r)
                    implies visited@.contains(r) by {
                let i = choose|i: int| 0 <= i < queue@.len() && queue@[i] == q;
                assert(cardinally_adjacent(queue@[i], r));
            }
            assert forall|p: Position| #[trigger] visited@.contains(p) <== self.reachable_from_start(p) by {
                if self.reachable_from_start(p) {
                    self.lemma_closed_set_contains_reachable(visited@, p);
                }
            }
        }
        visited
    }

    /// Validate structural invariants, reporting the first one broken.
    pub fn validate(&self) -> (r: Result<(), GenerationError>)
        ensures
            match r {
                Ok(()) => self.invariant_failure() is None,
                Err(GenerationError::Invariant(m)) => self.invariant_failure() == Some(m@),
                Err(_) => false,
            },
    {
        proof {
            assert((self.width as int) * (self.height as int) <= 65535 * 65535) by (nonlinear_arith)
                requires self.width <= 65535, self.height <= 65535;
        }
        if self.tiles.len() != (self.width as usize) * (self.height as usize) {
            return Err(GenerationError::Invariant("tile storage size mismatch"));
        }
        if self.player_start == self.exit {
            return Err(GenerationError::Invariant("start and exit overlap"));
        }
        let start_ok = match self.tile(self.player_start) {
            Some(Tile::Floor) => true,
            _ => false,
        };
        let exit_ok = match self.tile(self.exit) {
            Some(Tile::Exit) => true,
            _ => false,
        };
        if !start_ok || !exit_ok {
            return Err(GenerationError::Invariant("start or exit has invalid terrain"));
        }
        proof {
            self.lemma_tile_exists_any(self.player_start);
            self.lemma_tile_exists_any(self.exit);
        }
        if self.player_start.chebyshev_distance(self.exit) < MIN_START_EXIT_DISTANCE {
            return Err(GenerationError::Invariant("start and exit are too close"));
        }
        let mut has_door = false;
        let mut i: usize = 0;
        while i < self.tiles.len()
            invariant
                i <= self.tiles@.len(),
                has_door <==> self.tiles@.subrange(0, i as int).contains(Tile::ClosedDoor),
            decreases self.tiles@.len() - i,
        {
            if matches!(self.tiles[i], Tile::ClosedDoor) {
                has_door = true;
            }
            proof {
                let next = self.tiles@.subrange(0, i + 1);
                let prev = self.tiles@.subrange(0, i as int);
                assert(next =~= prev.push(self.tiles@[i as int]));
                assert(next[i as int] == self.tiles@[i as int]);
                if prev.contains(Tile::ClosedDoor) {
                    let k = choose|k: int| 0 <= k < prev.len() && prev[k] == Tile::ClosedDoor;
                    assert(next[k] == Tile::ClosedDoor);
                }
                if next.contains(Tile::ClosedDoor) {
                    let k = choose|k: int| 0 <= k < next.len() && next[k] == Tile::ClosedDoor;
                    if k < prev.len() {
                        assert(prev[k] == Tile::ClosedDoor);
                    }
                }
            }
            i = i + 1;
        }
        assert(self.tiles@.subrange(0, self.tiles@.len() as int) =~= self.tiles@);
        if !has_door {
            return Err(GenerationError::Invariant("dungeon has no closed door"));
        }
        let reachable = self.traversable_positions();
        let width = self.width as i32;
        let height = self.height as i32;
        let mut y: i32 = 0;
        while y < height
            invariant
                self.wf(),
                self.passes_layout_checks(),
                0 <= y <= height,
                width == self.width,
                height == self.height,
                forall|p: Position| #[trigger] reachable@.contains(p) <==> self.reachable_from_start(p),
                forall|p: Position|
                    self.in_bounds(p) && p.y < y && #[trigger] self.is_traversable_at(p) ==> self.reachable_from_start(p),
            decreases height - y,
        {
            let mut x: i32 = 0;
            while x < width
                invariant
                    self.wf(),
                    self.passes_layout_checks(),
                    0 <= y < height,
                    0 <= x <= width,
                    width == self.width,
                    height == self.height,
                    forall|p: Position| #[trigger] reachable@.contains(p) <==> self.reachable_from_start(p),
                    forall|p: Position|
                        self.in_bounds(p) && (p.y < y || (p.y == y && p.x < x)) && #[trigger] self.is_traversable_at(p)
                            ==> self.reachable_from_start(p),
                decreases width - x,
            {
                let p = Position::new(x, y);
                let traversable_here = match self.tile(p) {
                    Some(t) => t.is_traversable(),
                    None => false,
                };
                if traversable_here && !reachable.contains(&p) {
                    assert(self.is_traversable_at(p) && !self.reachable_from_start(p));
                    assert(!self.is_connected());
                    return Err(GenerationError::Invariant("traversable terrain is disconnected"));
                }
                x = x + 1;
            }
            y = y + 1;
        }
        proof {
            assert forall|p: Position| #[trigger] self.is_traversable_at(p) implies self.reachable_from_start(p) by {
                self.lemma_tile_exists(p);
            }
        }
        if self.spawn_candidates.len() < MIN_SPAWN_CANDIDATES {
            return Err(GenerationError::Invariant("fewer than 15 spawn candidates"));
        }
        let mut seen = PositionSet::new(self.width, self.height);
        let mut i: usize = 0;
        while i < self.spawn_candidates.len()
            invariant
                self.wf(),
                self.passes_layout_checks(),
                self.is_connected(),
                self.spawn_candidates@.len() >= MIN_SPAWN_CANDIDATES,
                seen.wf(),
                seen.width == self.width,
                seen.height == self.height,
                i <= self.spawn_candidates@.len(),
                self.invariant_failure() is None <==> self.spawn_candidates_valid(),
                forall|p: Position| #[trigger] seen@.contains(p) <==> exists|k: int| 0 <= k < i && self.spawn_candidates@[k] == p,
                forall|a: int, b: int| 0 <= a < b < i ==> self.spawn_candidates@[a] != self.spawn_candidates@[b],
                forall|k: int| 0 <= k < i ==> {
                    let p = #[trigger] self.spawn_candidates@[k];
                    &&& self.tile_is(p, Tile::Floor)
                    &&& p != self.player_start
                    &&& p != self.exit
                },
            decreases self.spawn_candidates@.len() - i,
        {
            let p = self.spawn_candidates[i];
            let floor = match self.tile(p) {
                Some(Tile::Floor) => true,
                _ => false,
            };
            if !floor || p == self.player_start || p == self.exit || seen.contains(&p) {
                proof {
                    if floor && p != self.player_start && p != self.exit {
                        let k = choose|k: int| 0 <= k < i && self.spawn_candidates@[k] == p;
                        assert(self.spawn_candidates@[k] == self.spawn_candidates@[i as int]);
                    }
                }
                return Err(GenerationError::Invariant("invalid spawn candidate"));
            }
            proof {
                self.lemma_tile_exists(p);
                lemma_grid_index_bounds(self.width as int, self.height as int, p);
            }
            let ghost before = seen@;
            seen.insert(p);
            proof {
                assert forall|q: Position| #[trigger] seen@.contains(q) <==> exists|k: int| 0 <= k < i + 1 && self.spawn_candidates@[k] == q by {
                    if seen@.contains(q) && q != p {
                        assert(before.contains(q));
                    }
                    if exists|k: int| 0 <= k < i + 1 && self.spawn_candidates@[k] == q {
                        let k = choose|k: int| 0 <= k < i + 1 && self.spawn_candidates@[k] == q;
                        if k < i {
                            assert(before.contains(q));
                        }
                    }
                }
                assert forall|a: int, b: int| 0 <= a < b < i + 1 implies self.spawn_candidates@[a] != self.spawn_candidates@[b] by {
                    if b == i {
                        if self.spawn_candidates@[a] == p {
                            assert(before.contains(p));
                        }
                    }
                }
            }
            i = i + 1;
        }
        Ok(())
    }
}

} // verus!
