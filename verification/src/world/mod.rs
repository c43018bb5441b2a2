//! Deterministic dungeon terrain, positions, and map invariants.

mod cells;
mod connectivity;
mod generation;
mod render;

pub use cells::{count_false, lemma_count_false_bounded, PositionSet, ReachedSet};
pub use generation::{
    config_supported, default_config, generated, layout_of, layout_valid, lemma_validity_by_layout, realizes,
    DungeonGenerator, GeneratorConfig, Layout, MAX_ATTEMPTS, MAX_HEIGHT, MAX_ROOMS, MAX_WIDTH,
};
pub use render::{ascii_cell, ascii_row, ascii_rows, fixture_rows_ok, fixture_tile};
pub use connectivity::{MIN_SPAWN_CANDIDATES, MIN_START_EXIT_DISTANCE};
use vstd::prelude::*;

verus! {

/// The version of the generation algorithm recorded in every map.
pub const GENERATOR_VERSION: u32 = 1;

/// A seed that fully identifies a deterministic dungeon run.
#[derive(Clone, Copy, Debug, PartialEq, Eq, Structural, Hash)]
pub struct RunSeed(pub u64);

/// A map coordinate; `y` grows downward.
#[derive(Clone, Copy, Debug, PartialEq, Eq, Structural, Hash, PartialOrd, Ord)]
pub struct Position {
    pub x: i32,
    pub y: i32,
}

/// Absolute value on mathematical integers.
pub open spec fn abs_int(v: int) -> int {
    if v < 0 { -v } else { v }
}

/// The larger of two mathematical integers.
pub open spec fn max_int(a: int, b: int) -> int {
    if a >= b { a } else { b }
}

/// Chebyshev (king-move) distance between two positions.
pub open spec fn cheb(a: Position, b: Position) -> int {
    max_int(abs_int(a.x - b.x), abs_int(a.y - b.y))
}

/// Whether the Chebyshev distance between two positions fits in an `i32`.
pub open spec fn distance_fits(a: Position, b: Position) -> bool {
    &&& -i32::MAX <= a.x - b.x <= i32::MAX
    &&& -i32::MAX <= a.y - b.y <= i32::MAX
}

/// The position shifted by a delta.
pub open spec fn shifted(p: Position, dx: int, dy: int) -> Position {
    Position { x: (p.x + dx) as i32, y: (p.y + dy) as i32 }
}

/// Whether shifting a position by a delta stays within `i32`.
pub open spec fn offset_fits(p: Position, dx: int, dy: int) -> bool {
    &&& i32::MIN <= p.x + dx <= i32::MAX
    &&& i32::MIN <= p.y + dy <= i32::MAX
}

/// Two positions that differ by one step along exactly one axis.
pub open spec fn cardinally_adjacent(a: Position, b: Position) -> bool {
    abs_int(a.x - b.x) + abs_int(a.y - b.y) == 1
}

impl Position {
    pub fn new(x: i32, y: i32) -> (p: Self)
        ensures
            p.x == x,
            p.y == y,
    {
        Position { x, y }
    }

    pub fn offset(self, dx: i32, dy: i32) -> (p: Self)
        requires
            offset_fits(self, dx as int, dy as int),
        ensures
            p == shifted(self, dx as int, dy as int),
            p.x == self.x + dx,
            p.y == self.y + dy,
    {
        Position { x: self.x + dx, y: self.y + dy }
    }

    pub fn chebyshev_distance(self, other: Self) -> (d: i32)
        requires
            distance_fits(self, other),
        ensures
            d == cheb(self, other),
            d >= 0,
    {
        let dx = if self.x >= other.x { self.x - other.x } else { other.x - self.x };
        let dy = if self.y >= other.y { self.y - other.y } else { other.y - self.y };
        if dx > dy { dx } else { dy }
    }

    /// The four orthogonal neighbours: north, east, south, west.
    pub fn cardinal_neighbors(self) -> (n: [Self; 4])
        requires
            offset_fits(self, 1, 1),
            offset_fits(self, -1, -1),
        ensures
            n@ == seq![shifted(self, 0, -1), shifted(self, 1, 0), shifted(self, 0, 1), shifted(self, -1, 0)],
    {
        [self.offset(0, -1), self.offset(1, 0), self.offset(0, 1), self.offset(-1, 0)]
    }
}

/// Terrain kinds.
#[derive(Clone, Copy, Debug, PartialEq, Eq, Structural)]
pub enum Tile {
    Wall,
    Floor,
    ClosedDoor,
    OpenDoor,
    Exit,
}

/// Authoritative static metadata for a terrain kind.
#[derive(Clone, Copy, Debug, PartialEq, Eq)]
pub struct TileDefinition {
    pub name: &'static str,
    pub description: &'static str,
    pub glyph_ascii: char,
    pub glyph_unicode: char,
    pub walkable: bool,
    pub opaque: bool,
}

/// Whether a creature may stand on the tile.
pub open spec fn walkable(t: Tile) -> bool {
    t == Tile::Floor || t == Tile::OpenDoor || t == Tile::Exit
}

/// Whether the tile is part of the connected dungeon (doors included).
pub open spec fn traversable(t: Tile) -> bool {
    walkable(t) || t == Tile::ClosedDoor
}

/// Whether the tile blocks sight.
pub open spec fn opaque(t: Tile) -> bool {
    t == Tile::Wall || t == Tile::ClosedDoor
}

/// The plain-map glyph of a tile.
pub open spec fn tile_glyph(t: Tile) -> char {
    match t {
        Tile::Wall => '#',
        Tile::Floor => '.',
        Tile::ClosedDoor => '+',
        Tile::OpenDoor => '/',
        Tile::Exit => '>',
    }
}

/// Display name of a terrain kind.
pub open spec fn tile_name(t: Tile) -> Seq<char> {
    match t {
        Tile::Wall => "Ossuary Wall"@,
        Tile::Floor => "Crypt Floor"@,
        Tile::ClosedDoor => "Sealed Door"@,
        Tile::OpenDoor => "Open Door"@,
        Tile::Exit => "Stair to Dying Light"@,
    }
}

/// Flavor text of a terrain kind.
pub open spec fn tile_description(t: Tile) -> Seq<char> {
    match t {
        Tile::Wall => "Mortared bone and lightless stone."@,
        Tile::Floor => "Dust lies thick across worn flagstones."@,
        Tile::ClosedDoor => "An ancient door swollen shut with damp."@,
        Tile::OpenDoor => "A forced doorway yawns into the dark."@,
        Tile::Exit => "The only path out of the ossuary."@,
    }
}

impl Tile {
    pub fn definition(self) -> (d: TileDefinition)
        ensures
            d.walkable == walkable(self),
            d.opaque == opaque(self),
            d.glyph_ascii == tile_glyph(self),
            d.glyph_unicode == match self {
                Tile::Wall => '▓',
                Tile::Floor => '·',
                Tile::ClosedDoor => '╬',
                Tile::OpenDoor => '/',
                Tile::Exit => '>',
            },
            d.name@ == tile_name(self),
            d.description@ == tile_description(self),
    {
        match self {
            Tile::Wall => TileDefinition {
                name: "Ossuary Wall",
                description: "Mortared bone and lightless stone.",
                glyph_ascii: '#',
                glyph_unicode: '▓',
                walkable: false,
                opaque: true,
            },
            Tile::Floor => TileDefinition {
                name: "Crypt Floor",
                description: "Dust lies thick across worn flagstones.",
                glyph_ascii: '.',
                glyph_unicode: '·',
                walkable: true,
                opaque: false,
            },
            Tile::ClosedDoor => TileDefinition {
                name: "Sealed Door",
                description: "An ancient door swollen shut with damp.",
                glyph_ascii: '+',
                glyph_unicode: '╬',
                walkable: false,
                opaque: true,
            },
            Tile::OpenDoor => TileDefinition {
                name: "Open Door",
                description: "A forced doorway yawns into the dark.",
                glyph_ascii: '/',
                glyph_unicode: '/',
                walkable: true,
                opaque: false,
            },
            Tile::Exit => TileDefinition {
                name: "Stair to Dying Light",
                description: "The only path out of the ossuary.",
                glyph_ascii: '>',
                glyph_unicode: '>',
                walkable: true,
                opaque: false,
            },
        }
    }

    pub fn is_walkable(self) -> (b: bool)
        ensures
            b == walkable(self),
    {
        matches!(self, Tile::Floor | Tile::OpenDoor | Tile::Exit)
    }

    pub fn is_traversable(self) -> (b: bool)
        ensures
            b == traversable(self),
    {
        self.is_walkable() || matches!(self, Tile::ClosedDoor)
    }

    pub fn is_opaque(self) -> (b: bool)
        ensures
            b == opaque(self),
    {
        matches!(self, Tile::Wall | Tile::ClosedDoor)
    }

    pub fn glyph(self) -> (c: char)
        ensures
            c == tile_glyph(self),
    {
        match self {
            Tile::Wall => '#',
            Tile::Floor => '.',
            Tile::ClosedDoor => '+',
            Tile::OpenDoor => '/',
            Tile::Exit => '>',
        }
    }
}


/// Largest map side accepted anywhere in the library.
pub const MAX_MAP_SIDE: u16 = 65535;

/// A rectangular grid of tiles with its special positions.
#[derive(Clone, Debug, PartialEq, Eq)]
pub struct DungeonMap {
    /// Number of columns.
    pub width: u16,
    /// Number of rows.
    pub height: u16,
    /// Row-major terrain, `width * height` entries.
    pub tiles: Vec<Tile>,
    pub player_start: Position,
    pub exit: Position,
    pub spawn_candidates: Vec<Position>,
    pub seed: RunSeed,
    pub generator_version: u32,
}

/// Row-major index of an in-bounds position.
pub open spec fn grid_index(width: int, p: Position) -> int {
    p.y * width + p.x
}

/// Whether a position lies inside a `width` by `height` grid.
pub open spec fn in_grid(width: int, height: int, p: Position) -> bool {
    0 <= p.x < width && 0 <= p.y < height
}

/// The position at row-major index `i` of a grid `w` cells wide.
pub open spec fn cell_position(w: int, i: int) -> Position {
    Position { x: (i % w) as i32, y: (i / w) as i32 }
}

/// Every position of a `w` by `h` grid, in row-major order.
pub open spec fn grid_positions(w: int, h: int) -> Seq<Position> {
    Seq::new((w * h) as nat, |i: int| cell_position(w, i))
}

/// The terrain at `p` of a `w` by `h` grid stored row-major in `tiles`.
pub open spec fn cell_tile(tiles: Seq<Tile>, w: int, h: int, p: Position) -> Option<Tile> {
    if in_grid(w, h, p) && grid_index(w, p) < tiles.len() {
        Some(tiles[grid_index(w, p)])
    } else {
        None
    }
}

/// `tiles` with the terrain at `p` set to `t`, when `p` is on the grid.
pub open spec fn set_cell(tiles: Seq<Tile>, w: int, h: int, p: Position, t: Tile) -> Seq<Tile> {
    if in_grid(w, h, p) && grid_index(w, p) < tiles.len() {
        tiles.update(grid_index(w, p), t)
    } else {
        tiles
    }
}

/// The row-major index `i` of a grid names an on-grid position whose index
/// is `i`.
pub proof fn lemma_cell_position(w: int, h: int, i: int)
    requires
        1 <= w <= 65535,
        1 <= h <= 65535,
        0 <= i < w * h,
    ensures
        in_grid(w, h, cell_position(w, i)),
        grid_index(w, cell_position(w, i)) == i,
{
    vstd::arithmetic::div_mod::lemma_fundamental_div_mod(i, w);
    vstd::arithmetic::div_mod::lemma_mod_pos_bound(i, w);
    let q = i / w;
    let r = i % w;
    assert(0 <= q < h) by (nonlinear_arith)
        requires
            i == w * q + r,
            0 <= r < w,
            0 <= i < w * h,
            w >= 1,
    {
        if q < 0 {
            assert(w * q <= -w);
        }
        if q >= h {
            assert(w * q >= w * h);
        }
    }
    assert(q * w == w * q) by (nonlinear_arith);
}

pub proof fn lemma_grid_index_bounds(width: int, height: int, p: Position)
    requires
        in_grid(width, height, p),
    ensures
        0 <= grid_index(width, p) < width * height,
        grid_index(width, p) <= (height - 1) * width + (width - 1),
{
    assert(p.y * width <= (height - 1) * width) by (nonlinear_arith)
        requires 0 <= p.y <= height - 1, width >= 0;
    assert((height - 1) * width + (width - 1) < width * height) by (nonlinear_arith)
        requires width >= 1;
    assert(0 <= p.y * width) by (nonlinear_arith)
        requires 0 <= p.y, width >= 0;
}

pub proof fn lemma_grid_index_injective(width: int, height: int, p: Position, q: Position)
    requires
        in_grid(width, height, p),
        in_grid(width, height, q),
        grid_index(width, p) == grid_index(width, q),
    ensures
        p == q,
{
    assert(p.y == q.y) by (nonlinear_arith)
        requires
            0 <= p.x < width,
            0 <= q.x < width,
            p.y * width + p.x == q.y * width + q.x,
    {
        if p.y < q.y {
            assert(p.y * width + width <= q.y * width);
        } else if p.y > q.y {
            assert(q.y * width + width <= p.y * width);
        }
    }
}

impl DungeonMap {
    /// Storage is consistent with the dimensions.
    pub open spec fn wf(&self) -> bool {
        &&& self.tiles@.len() == self.width * self.height
        &&& self.width >= 1
        &&& self.height >= 1
    }

    pub open spec fn spec_width(&self) -> int {
        self.width as int
    }

    pub open spec fn spec_height(&self) -> int {
        self.height as int
    }

    pub open spec fn in_bounds(&self, p: Position) -> bool {
        in_grid(self.spec_width(), self.spec_height(), p)
    }

    /// The terrain at a position, or `None` off the map.
    pub open spec fn tile_at(&self, p: Position) -> Option<Tile> {
        if self.in_bounds(p) && grid_index(self.width as int, p) < self.tiles@.len() {
            Some(self.tiles@[grid_index(self.width as int, p)])
        } else {
            None
        }
    }

    /// Whether the tile at `p` exists and equals `t`.
    pub open spec fn tile_is(&self, p: Position, t: Tile) -> bool {
        self.tile_at(p) == Some(t)
    }

    pub open spec fn is_walkable_at(&self, p: Position) -> bool {
        self.tile_at(p) is Some && walkable(self.tile_at(p).unwrap())
    }

    pub open spec fn is_traversable_at(&self, p: Position) -> bool {
        self.tile_at(p) is Some && traversable(self.tile_at(p).unwrap())
    }

    /// Opaque, or off the map.
    pub open spec fn blocks_sight_at(&self, p: Position) -> bool {
        self.tile_at(p) is None || opaque(self.tile_at(p).unwrap())
    }

    /// `self` is `before` with at most some closed doors opened: the same
    /// dimensions, start, exit, candidates and seed, and every other tile
    /// as it was.
    pub open spec fn keeps_terrain_of(&self, before: &DungeonMap) -> bool {
        &&& self.spec_width() == before.spec_width()
        &&& self.spec_height() == before.spec_height()
        &&& self.player_start == before.player_start
        &&& self.exit == before.exit
        &&& self.spawn_candidates@ == before.spawn_candidates@
        &&& self.seed == before.seed
        &&& forall|q: Position| #[trigger] self.tile_at(q) == before.tile_at(q)
            || (before.tile_at(q) == Some(Tile::ClosedDoor) && self.tile_at(q) == Some(Tile::OpenDoor))
    }

    /// Everything but the terrain at `p` is unchanged; `p` now holds `t`
    /// (when it is on the map).
    pub open spec fn same_except_tile(&self, other: &DungeonMap, p: Position, t: Tile) -> bool {
        &&& self.spec_width() == other.spec_width()
        &&& self.spec_height() == other.spec_height()
        &&& self.player_start == other.player_start
        &&& self.exit == other.exit
        &&& self.spawn_candidates@ == other.spawn_candidates@
        &&& self.seed == other.seed
        &&& self.generator_version == other.generator_version
        &&& (self.wf() <==> other.wf())
        &&& forall|q: Position| #[trigger] self.tile_at(q) == if q == p && other.tile_at(q) is Some {
            Some(t)
        } else {
            other.tile_at(q)
        }
    }

    /// A tile exists only at in-bounds positions.
    pub proof fn lemma_tile_exists_any(&self, p: Position)
        ensures
            self.tile_at(p) is Some ==> self.in_bounds(p),
    {
    }

    /// On a well-formed map a tile exists exactly at in-bounds positions.
    pub proof fn lemma_tile_exists(&self, p: Position)
        requires
            self.wf(),
        ensures
            self.tile_at(p) is Some <==> self.in_bounds(p),
    {
        if self.in_bounds(p) {
            lemma_grid_index_bounds(self.width as int, self.height as int, p);
        }
    }

    pub fn width(&self) -> (w: u16)
        ensures
            w == self.width,
    {
        self.width
    }

    pub fn height(&self) -> (h: u16)
        ensures
            h == self.height,
    {
        self.height
    }

    pub fn contains(&self, p: Position) -> (b: bool)
        ensures
            b == self.in_bounds(p),
    {
        p.x >= 0 && p.y >= 0 && p.x < self.width as i32 && p.y < self.height as i32
    }

    fn index(&self, p: Position) -> (r: Option<usize>)
        ensures
            r is Some <==> self.tile_at(p) is Some,
            r matches Some(i) ==> i == grid_index(self.width as int, p) && i < self.tiles@.len(),
    {
        if !self.contains(p) {
            return None;
        }
        proof {
            lemma_grid_index_bounds(self.width as int, self.height as int, p);
            assert((self.height - 1) * self.width + (self.width - 1) <= 65534 * 65535 + 65534) by (nonlinear_arith)
                requires self.height <= 65535, self.width <= 65535, self.height >= 1, self.width >= 1;
        }
        let i = (p.y as usize) * (self.width as usize) + (p.x as usize);
        if i < self.tiles.len() {
            Some(i)
        } else {
            None
        }
    }

    pub fn tile(&self, p: Position) -> (t: Option<Tile>)
        ensures
            t == self.tile_at(p),
    {
        match self.index(p) {
            Some(i) => Some(self.tiles[i]),
            None => None,
        }
    }

    fn set_tile(&mut self, p: Position, tile: Tile)
        ensures
            final(self).same_except_tile(old(self), p, tile),
            final(self).tiles@ == set_cell(old(self).tiles@, old(self).width as int, old(self).height as int, p, tile),
    {
        if let Some(i) = self.index(p) {
            self.tiles.set(i, tile);
            proof {
                assert forall|q: Position| #[trigger] self.tile_at(q) == if q == p && old(self).tile_at(q) is Some {
                    Some(tile)
                } else {
                    old(self).tile_at(q)
                } by {
                    if self.in_bounds(q) && grid_index(self.width as int, q) == grid_index(self.width as int, p) {
                        lemma_grid_index_injective(self.width as int, self.height as int, p, q);
                    }
                }
            }
        }
    }

    /// Open a closed door at `position`; returns whether a door changed state.
    pub fn open_door(&mut self, position: Position) -> (opened: bool)
        ensures
            opened == old(self).tile_is(position, Tile::ClosedDoor),
            opened ==> final(self).same_except_tile(old(self), position, Tile::OpenDoor),
            !opened ==> *final(self) == *old(self),
    {
        match self.tile(position) {
            Some(Tile::ClosedDoor) => {
                self.set_tile(position, Tile::OpenDoor);
                true
            },
            _ => false,
        }
    }
}

} // verus!

verus! {

/// Reasons dungeon construction or validation can fail.
#[derive(Clone, Debug, PartialEq, Eq)]
pub enum GenerationError {
    /// The generator configuration cannot support a valid dungeon.
    InvalidConfig,
    /// A structural invariant failed; the message names it.
    Invariant(&'static str),
    /// Every bounded attempt for the seed failed.
    Exhausted { seed: RunSeed, attempts: usize },
}

} // verus!
