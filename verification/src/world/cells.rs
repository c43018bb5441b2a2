//! A set of map positions backed by a grid of flags.

use super::{grid_index, in_grid, lemma_grid_index_bounds, lemma_grid_index_injective, Position};
use vstd::prelude::*;

verus! {

/// Number of `false` entries in a flag sequence.
pub open spec fn count_false(s: Seq<bool>) -> nat
    decreases s.len(),
{
    if s.len() == 0 {
        0
    } else {
        count_false(s.drop_last()) + if s.last() { 0nat } else { 1nat }
    }
}

pub proof fn lemma_count_false_bounded(s: Seq<bool>)
    ensures
        count_false(s) <= s.len(),
    decreases s.len(),
{
    if s.len() > 0 {
        lemma_count_false_bounded(s.drop_last());
    }
}

pub proof fn lemma_count_false_set(s: Seq<bool>, i: int)
    requires
        0 <= i < s.len(),
        !s[i],
    ensures
        count_false(s.update(i, true)) + 1 == count_false(s),
    decreases s.len(),
{
    let t = s.update(i, true);
    if i == s.len() - 1 {
        assert(t.drop_last() =~= s.drop_last());
    } else {
        assert(t.drop_last() =~= s.drop_last().update(i, true));
        lemma_count_false_set(s.drop_last(), i);
    }
}

/// Positions of a fixed-size grid; positions off the grid are never members.
#[derive(Clone, Debug, PartialEq, Eq)]
pub struct PositionSet {
    pub width: u16,
    pub height: u16,
    pub cells: Vec<bool>,
}

impl View for PositionSet {
    type V = Set<Position>;

    open spec fn view(&self) -> Set<Position> {
        Set::new(|p: Position| self.has(p))
    }
}

impl PositionSet {
    pub open spec fn wf(&self) -> bool {
        self.cells@.len() == self.width * self.height
    }

    pub open spec fn has(&self, p: Position) -> bool {
        &&& in_grid(self.width as int, self.height as int, p)
        &&& grid_index(self.width as int, p) < self.cells@.len()
        &&& self.cells@[grid_index(self.width as int, p)]
    }

    /// An empty set sized for a `width` by `height` grid.
    pub fn new(width: u16, height: u16) -> (s: Self)
        ensures
            s.wf(),
            s.width == width,
            s.height == height,
            s@ == Set::<Position>::empty(),
            count_false(s.cells@) == width * height,
    {
        proof {
            assert((width as int) * (height as int) <= 65535 * 65535) by (nonlinear_arith)
                requires width <= 65535, height <= 65535;
        }
        let n: usize = (width as usize) * (height as usize);
        let mut cells: Vec<bool> = Vec::new();
        let mut i: usize = 0;
        while i < n
            invariant
                i <= n,
                n == width * height,
                cells@.len() == i,
                forall|j: int| 0 <= j < i ==> !#[trigger] cells@[j],
                count_false(cells@) == i,
            decreases n - i,
        {
            let ghost before = cells@;
            cells.push(false);
            i = i + 1;
            assert(cells@.drop_last() =~= before);
        }
        let s = PositionSet { width, height, cells };
        assert(s@ =~= Set::<Position>::empty());
        s
    }

    pub fn contains(&self, p: &Position) -> (b: bool)
        ensures
            b == self@.contains(*p),
    {
        match self.index(*p) {
            Some(i) => self.cells[i],
            None => false,
        }
    }

    fn index(&self, p: Position) -> (r: Option<usize>)
        ensures
            r is Some <==> (in_grid(self.width as int, self.height as int, p)
                && grid_index(self.width as int, p) < self.cells@.len()),
            r matches Some(i) ==> i == grid_index(self.width as int, p),
    {
        if p.x < 0 || p.y < 0 || p.x >= self.width as i32 || p.y >= self.height as i32 {
            return None;
        }
        proof {
            lemma_grid_index_bounds(self.width as int, self.height as int, p);
            assert((self.height - 1) * self.width + (self.width - 1) <= 65534 * 65535 + 65534) by (nonlinear_arith)
                requires self.height <= 65535, self.width <= 65535, self.height >= 1, self.width >= 1;
        }
        let i = (p.y as usize) * (self.width as usize) + (p.x as usize);
        if i < self.cells.len() {
            Some(i)
        } else {
            None
        }
    }

    /// Add a position; positions off the grid are ignored. Returns whether
    /// the set grew.
    pub fn insert(&mut self, p: Position) -> (added: bool)
        ensures
            final(self).width == old(self).width,
            final(self).height == old(self).height,
            final(self).cells@.len() == old(self).cells@.len(),
            added == (!old(self)@.contains(p) && in_grid(old(self).width as int, old(self).height as int, p)
                && grid_index(old(self).width as int, p) < old(self).cells@.len()),
            final(self)@ == if in_grid(old(self).width as int, old(self).height as int, p)
                && grid_index(old(self).width as int, p) < old(self).cells@.len() {
                old(self)@.insert(p)
            } else {
                old(self)@
            },
            added ==> count_false(final(self).cells@) + 1 == count_false(old(self).cells@),
            !added ==> final(self).cells@ == old(self).cells@,
    {
        match self.index(p) {
            Some(i) => {
                let was = self.cells[i];
                if !was {
                    proof { lemma_count_false_set(self.cells@, i as int); }
                    self.cells.set(i, true);
                }
                proof {
                    assert forall|q: Position| self.has(q) == (old(self).has(q) || q == p) by {
                        if in_grid(self.width as int, self.height as int, q) && grid_index(self.width as int, q) == i {
                            lemma_grid_index_injective(self.width as int, self.height as int, p, q);
                        }
                    }
                    assert(self@ =~= old(self)@.insert(p));
                }
                !was
            },
            None => false,
        }
    }

    /// Remove a position; returns whether it was present.
    pub fn remove(&mut self, p: &Position) -> (removed: bool)
        ensures
            final(self).width == old(self).width,
            final(self).height == old(self).height,
            final(self).cells@.len() == old(self).cells@.len(),
            removed == old(self)@.contains(*p),
            final(self)@ == old(self)@.remove(*p),
    {
        match self.index(*p) {
            Some(i) => {
                let was = self.cells[i];
                self.cells.set(i, false);
                proof {
                    assert forall|q: Position| self.has(q) == (old(self).has(q) && q != *p) by {
                        if in_grid(self.width as int, self.height as int, q) && grid_index(self.width as int, q) == i {
                            lemma_grid_index_injective(self.width as int, self.height as int, *p, q);
                        }
                    }
                    assert(self@ =~= old(self)@.remove(*p));
                }
                was
            },
            None => {
                assert(self@ =~= old(self)@.remove(*p));
                false
            },
        }
    }

    /// Remove every position.
    pub fn clear(&mut self)
        ensures
            final(self).width == old(self).width,
            final(self).height == old(self).height,
            final(self).cells@.len() == old(self).cells@.len(),
            final(self)@ == Set::<Position>::empty(),
    {
        let n = self.cells.len();
        let mut i: usize = 0;
        while i < n
            invariant
                i <= n,
                n == self.cells@.len(),
                self.width == old(self).width,
                self.height == old(self).height,
                self.cells@.len() == old(self).cells@.len(),
                forall|j: int| 0 <= j < i ==> !#[trigger] self.cells@[j],
            decreases n - i,
        {
            self.cells.set(i, false);
            i = i + 1;
        }
        assert(self@ =~= Set::<Position>::empty());
    }
}

/// The positions a search reached: those of a grid set, and at most one
/// further position off that grid (a start that lies off the map).
#[derive(Clone, Debug, PartialEq, Eq)]
pub struct ReachedSet {
    pub grid: PositionSet,
    pub outside: Option<Position>,
}

impl View for ReachedSet {
    type V = Set<Position>;

    open spec fn view(&self) -> Set<Position> {
        Set::new(|p: Position| self.grid@.contains(p) || self.outside == Some(p))
    }
}

impl ReachedSet {
    /// A set over a `width` by `height` grid holding `p` alone: in the grid,
    /// or as the outside position when `p` lies off it.
    pub fn holding(width: u16, height: u16, p: Position) -> (s: Self)
        ensures
            s.grid.wf(),
            s.grid.width == width,
            s.grid.height == height,
            s@ == Set::<Position>::empty().insert(p),
            s.outside == if in_grid(width as int, height as int, p) { None::<Position> } else { Some(p) },
            count_false(s.grid.cells@) + (if in_grid(width as int, height as int, p) { 1int } else { 0int }) == width * height,
    {
        let mut grid = PositionSet::new(width, height);
        proof {
            if in_grid(width as int, height as int, p) {
                lemma_grid_index_bounds(width as int, height as int, p);
            }
        }
        let added = grid.insert(p);
        let outside = if added { None } else { Some(p) };
        let s = ReachedSet { grid, outside };
        assert(s@ =~= Set::<Position>::empty().insert(p));
        s
    }

    pub fn contains(&self, p: &Position) -> (b: bool)
        ensures
            b == self@.contains(*p),
    {
        self.grid.contains(p) || match self.outside {
            Some(o) => o == *p,
            None => false,
        }
    }

    /// Add a position of the grid; positions off the grid are ignored.
    /// Returns whether the grid set grew.
    pub fn insert(&mut self, p: Position) -> (added: bool)
        ensures
            final(self).outside == old(self).outside,
            final(self).grid.width == old(self).grid.width,
            final(self).grid.height == old(self).grid.height,
            final(self).grid.cells@.len() == old(self).grid.cells@.len(),
            added == (!old(self).grid@.contains(p) && in_grid(old(self).grid.width as int, old(self).grid.height as int, p)
                && grid_index(old(self).grid.width as int, p) < old(self).grid.cells@.len()),
            final(self)@ == if in_grid(old(self).grid.width as int, old(self).grid.height as int, p)
                && grid_index(old(self).grid.width as int, p) < old(self).grid.cells@.len() {
                old(self)@.insert(p)
            } else {
                old(self)@
            },
            added ==> count_false(final(self).grid.cells@) + 1 == count_false(old(self).grid.cells@),
            !added ==> final(self).grid.cells@ == old(self).grid.cells@,
    {
        let added = self.grid.insert(p);
        proof {
            if in_grid(old(self).grid.width as int, old(self).grid.height as int, p)
                && grid_index(old(self).grid.width as int, p) < old(self).grid.cells@.len() {
                assert(self@ =~= old(self)@.insert(p));
            } else {
                assert(self@ =~= old(self)@);
            }
        }
        added
    }
}

} // verus!
