//! Plain-text views of a map and fixture construction from text rows.

use super::{cell_position, grid_index, grid_positions, in_grid, lemma_cell_position, lemma_grid_index_injective, tile_glyph, DungeonMap, Position, RunSeed, Tile, GENERATOR_VERSION};
use vstd::prelude::*;
use vstd::string::StringSliceAdditionalSpecFns;

verus! {

/// The glyph a plain-text dump shows at a position.
pub open spec fn ascii_cell(map: &DungeonMap, p: Position) -> char {
    if p == map.player_start {
        '@'
    } else {
        match map.tile_at(p) {
            Some(t) => tile_glyph(t),
            None => ' ',
        }
    }
}

/// One row of the plain-text dump.
pub open spec fn ascii_row(map: &DungeonMap, y: int) -> Seq<char> {
    Seq::new(map.width as nat, |x: int| ascii_cell(map, Position { x: x as i32, y: y as i32 }))
}

/// The first `n` rows of the plain-text dump, separated by newlines.
pub open spec fn ascii_rows(map: &DungeonMap, n: int) -> Seq<char>
    decreases n,
{
    if n <= 0 {
        Seq::empty()
    } else if n == 1 {
        ascii_row(map, 0)
    } else {
        ascii_rows(map, n - 1) + seq!['\n'] + ascii_row(map, n - 1)
    }
}

/// A one-character string for the glyphs a map dump uses.
fn glyph_text(c: char) -> (s: &'static str)
    requires
        c == '\n' || c == '@' || c == '#' || c == '.' || c == '+' || c == '/' || c == '>' || c == ' ',
    ensures
        s@ == seq![c],
{
    if c == '\n' {
        proof { reveal_strlit("\n"); }
        "\n"
    } else if c == '@' {
        proof { reveal_strlit("@"); }
        "@"
    } else if c == '#' {
        proof { reveal_strlit("#"); }
        "#"
    } else if c == '.' {
        proof { reveal_strlit("."); }
        "."
    } else if c == '+' {
        proof { reveal_strlit("+"); }
        "+"
    } else if c == '/' {
        proof { reveal_strlit("/"); }
        "/"
    } else if c == '>' {
        proof { reveal_strlit(">"); }
        ">"
    } else {
        proof { reveal_strlit(" "); }
        " "
    }
}

/// The tile a fixture byte stands for.
pub open spec fn fixture_tile(b: u8) -> Tile {
    if b == '#' as u8 {
        Tile::Wall
    } else if b == '+' as u8 {
        Tile::ClosedDoor
    } else if b == '/' as u8 {
        Tile::OpenDoor
    } else if b == '>' as u8 {
        Tile::Exit
    } else {
        Tile::Floor
    }
}

/// A byte accepted in fixture rows.
pub open spec fn fixture_byte(b: u8) -> bool {
    b == '#' as u8 || b == '.' as u8 || b == '+' as u8 || b == '/' as u8 || b == '>' as u8 || b == '@' as u8
}

/// The fixture byte at a position.
pub open spec fn fixture_at(rows: Seq<&str>, p: Position) -> u8 {
    rows[p.y as int].spec_bytes()[p.x as int]
}

/// Fixture rows: a non-empty rectangle of accepted bytes holding a start
/// (`@`) and an exit (`>`).
pub open spec fn fixture_rows_ok(rows: Seq<&str>) -> bool {
    &&& 1 <= rows.len() <= 65535
    &&& 1 <= rows[0].spec_bytes().len() <= 65535
    &&& forall|y: int| 0 <= y < rows.len() ==> #[trigger] rows[y].spec_bytes().len() == rows[0].spec_bytes().len()
    &&& forall|y: int, x: int|
        0 <= y < rows.len() && 0 <= x < rows[0].spec_bytes().len() ==> fixture_byte(#[trigger] rows[y].spec_bytes()[x])
    &&& exists|y: int, x: int|
        0 <= y < rows.len() && 0 <= x < rows[0].spec_bytes().len() && #[trigger] rows[y].spec_bytes()[x] == '@' as u8
    &&& exists|y: int, x: int|
        0 <= y < rows.len() && 0 <= x < rows[0].spec_bytes().len() && #[trigger] rows[y].spec_bytes()[x] == '>' as u8
}

impl DungeonMap {
    /// Row-major list of every position on the map.
    pub fn positions(&self) -> (ps: Vec<Position>)
        ensures
            ps@.len() == self.width * self.height,
            forall|p: Position| #[trigger] ps@.contains(p) <==> self.in_bounds(p),
            forall|i: int| 0 <= i < ps@.len() ==> grid_index(self.width as int, #[trigger] ps@[i]) == i
                && self.in_bounds(ps@[i]),
            ps@ == grid_positions(self.width as int, self.height as int),
    {
        let mut ps: Vec<Position> = Vec::new();
        let width = self.width as i32;
        let height = self.height as i32;
        let mut y: i32 = 0;
        while y < height
            invariant
                0 <= y <= height,
                width == self.width,
                height == self.height,
                ps@.len() == y * width,
                forall|i: int| 0 <= i < ps@.len() ==> grid_index(self.width as int, #[trigger] ps@[i]) == i
                    && self.in_bounds(ps@[i]) && ps@[i].y < y,
                forall|p: Position| self.in_bounds(p) && p.y < y ==> #[trigger] ps@.contains(p),
            decreases height - y,
        {
            let mut x: i32 = 0;
            while x < width
                invariant
                    0 <= y < height,
                    0 <= x <= width,
                    width == self.width,
                    height == self.height,
                    ps@.len() == y * width + x,
                    forall|i: int| 0 <= i < ps@.len() ==> grid_index(self.width as int, #[trigger] ps@[i]) == i
                        && self.in_bounds(ps@[i]) && (ps@[i].y < y || (ps@[i].y == y && ps@[i].x < x)),
                    forall|p: Position| self.in_bounds(p) && (p.y < y || (p.y == y && p.x < x)) ==> #[trigger] ps@.contains(p),
                decreases width - x,
            {
                let ghost before = ps@;
                ps.push(Position::new(x, y));
                proof {
                    assert(ps@[ps@.len() - 1] == Position { x, y });
                    assert forall|p: Position| self.in_bounds(p) && (p.y < y || (p.y == y && p.x < x + 1)) implies #[trigger] ps@.contains(p) by {
                        if p.y == y && p.x == x {
                            assert(ps@[ps@.len() - 1] == p);
                        } else {
                            assert(before.contains(p));
                            let k = choose|k: int| 0 <= k < before.len() && before[k] == p;
                            assert(ps@[k] == p);
                        }
                    }
                }
                x = x + 1;
            }
            proof {
                assert((y + 1) * width == y * width + width) by (nonlinear_arith);
            }
            y = y + 1;
        }
        proof {
            assert((height as int) * (width as int) == (width as int) * (height as int)) by (nonlinear_arith);
            assert forall|p: Position| #[trigger] ps@.contains(p) implies self.in_bounds(p) by {
                let k = choose|k: int| 0 <= k < ps@.len() && ps@[k] == p;
            }
            assert forall|i: int| 0 <= i < ps@.len() implies ps@[i] == #[trigger] cell_position(self.width as int, i) by {
                assert(self.width >= 1 && self.height >= 1) by (nonlinear_arith)
                    requires
                        0 <= i < (self.width as int) * (self.height as int),
                        self.width >= 0,
                        self.height >= 0;
                lemma_cell_position(self.width as int, self.height as int, i);
                lemma_grid_index_injective(self.width as int, self.height as int, ps@[i], cell_position(self.width as int, i));
            }
            assert(ps@ =~= grid_positions(self.width as int, self.height as int));
        }
        ps
    }

    /// A plain-text dump with `@` at the start and one line per row.
    pub fn to_ascii(&self) -> (out: String)
        ensures
            out@ == ascii_rows(self, self.height as int),
    {
        let mut out = String::new();
        let width = self.width as i32;
        let height = self.height as i32;
        let mut y: i32 = 0;
        while y < height
            invariant
                0 <= y <= height,
                width == self.width,
                height == self.height,
                out@ == ascii_rows(self, y as int),
            decreases height - y,
        {
            if y > 0 {
                out.append(glyph_text('\n'));
            }
            let ghost prefix = out@;
            let mut x: i32 = 0;
            while x < width
                invariant
                    0 <= y < height,
                    0 <= x <= width,
                    width == self.width,
                    height == self.height,
                    out@ == prefix + ascii_row(self, y as int).take(x as int),
                decreases width - x,
            {
                let p = Position::new(x, y);
                let c = if p == self.player_start {
                    '@'
                } else {
                    match self.tile(p) {
                        Some(t) => t.glyph(),
                        None => ' ',
                    }
                };
                out.append(glyph_text(c));
                assert(ascii_row(self, y as int).take(x + 1) =~= ascii_row(self, y as int).take(x as int).push(c));
                x = x + 1;
            }
            assert(ascii_row(self, y as int).take(width as int) =~= ascii_row(self, y as int));
            y = y + 1;
        }
        out
    }

    /// Build a fixture map from text rows: `#` wall, `.` floor, `+` closed
    /// door, `/` open door, `>` exit, `@` floor holding the start. The last
    /// `@` and `>` in row-major order become the start and the exit.
    pub fn from_test_rows(rows: &[&str], seed: RunSeed) -> (map: Self)
        requires
            fixture_rows_ok(rows@),
        ensures
            map.wf(),
            map.width == rows@[0].spec_bytes().len(),
            map.height == rows@.len(),
            forall|p: Position| #[trigger] map.in_bounds(p) ==> map.tile_at(p) == Some(fixture_tile(fixture_at(rows@, p))),
            map.in_bounds(map.player_start),
            fixture_at(rows@, map.player_start) == '@' as u8,
            forall|p: Position| #[trigger] map.in_bounds(p) && fixture_at(rows@, p) == '@' as u8
                ==> grid_index(map.width as int, p) <= grid_index(map.width as int, map.player_start),
            map.in_bounds(map.exit),
            fixture_at(rows@, map.exit) == '>' as u8,
            forall|p: Position| #[trigger] map.in_bounds(p) && fixture_at(rows@, p) == '>' as u8
                ==> grid_index(map.width as int, p) <= grid_index(map.width as int, map.exit),
            map.spawn_candidates@.len() == 0,
            map.seed == seed,
            map.generator_version == GENERATOR_VERSION,
    {
        let height = rows.len();
        let width = rows[0].as_bytes().len();
        let mut tiles: Vec<Tile> = Vec::new();
        let mut start: Option<Position> = None;
        let mut exit: Option<Position> = None;
        let mut y: usize = 0;
        while y < height
            invariant
                fixture_rows_ok(rows@),
                height == rows@.len(),
                width == rows@[0].spec_bytes().len(),
                0 <= y <= height,
                tiles@.len() == y * width,
                forall|p: Position| in_grid(width as int, height as int, p) && p.y < y
                    ==> tiles@[#[trigger] grid_index(width as int, p)] == fixture_tile(fixture_at(rows@, p)),
                start matches Some(s) ==> in_grid(width as int, height as int, s) && s.y < y && fixture_at(rows@, s) == '@' as u8,
                forall|p: Position| #[trigger] in_grid(width as int, height as int, p) && p.y < y && fixture_at(rows@, p) == '@' as u8
                    ==> (start matches Some(s) && grid_index(width as int, p) <= grid_index(width as int, s)),
                exit matches Some(s) ==> in_grid(width as int, height as int, s) && s.y < y && fixture_at(rows@, s) == '>' as u8,
                forall|p: Position| #[trigger] in_grid(width as int, height as int, p) && p.y < y && fixture_at(rows@, p) == '>' as u8
                    ==> (exit matches Some(s) && grid_index(width as int, p) <= grid_index(width as int, s)),
            decreases height - y,
        {
            let bytes = rows[y].as_bytes();
            assert(bytes@.len() == width);
            let mut x: usize = 0;
            while x < width
                invariant
                    fixture_rows_ok(rows@),
                    height == rows@.len(),
                    width == rows@[0].spec_bytes().len(),
                    0 <= y < height,
                    0 <= x <= width,
                    bytes@ == rows@[y as int].spec_bytes(),
                    tiles@.len() == y * width + x,
                    forall|p: Position| in_grid(width as int, height as int, p) && (p.y < y || (p.y == y && p.x < x))
                        ==> tiles@[#[trigger] grid_index(width as int, p)] == fixture_tile(fixture_at(rows@, p)),
                    start matches Some(s) ==> in_grid(width as int, height as int, s) && (s.y < y || (s.y == y && s.x < x))
                        && fixture_at(rows@, s) == '@' as u8,
                    forall|p: Position| #[trigger] in_grid(width as int, height as int, p) && (p.y < y || (p.y == y && p.x < x))
                        && fixture_at(rows@, p) == '@' as u8
                        ==> (start matches Some(s) && grid_index(width as int, p) <= grid_index(width as int, s)),
                    exit matches Some(s) ==> in_grid(width as int, height as int, s) && (s.y < y || (s.y == y && s.x < x))
                        && fixture_at(rows@, s) == '>' as u8,
                    forall|p: Position| #[trigger] in_grid(width as int, height as int, p) && (p.y < y || (p.y == y && p.x < x))
                        && fixture_at(rows@, p) == '>' as u8
                        ==> (exit matches Some(s) && grid_index(width as int, p) <= grid_index(width as int, s)),
                decreases width - x,
            {
                let b = bytes[x];
                let here = Position::new(x as i32, y as i32);
                assert(fixture_at(rows@, here) == b);
                let tile = if b == 35u8 {
                    Tile::Wall
                } else if b == 43u8 {
                    Tile::ClosedDoor
                } else if b == 47u8 {
                    Tile::OpenDoor
                } else if b == 62u8 {
                    exit = Some(here);
                    Tile::Exit
                } else {
                    if b == 64u8 {
                        start = Some(here);
                    }
                    Tile::Floor
                };
                let ghost before = tiles@;
                tiles.push(tile);
                proof {
                    assert(grid_index(width as int, here) == y * width + x);
                    assert forall|p: Position| in_grid(width as int, height as int, p) && (p.y < y || (p.y == y && p.x < x + 1))
                        implies tiles@[#[trigger] grid_index(width as int, p)] == fixture_tile(fixture_at(rows@, p)) by {
                        if p.y < y {
                            assert(grid_index(width as int, p) < y * width) by (nonlinear_arith)
                                requires 0 <= p.x < width, p.y < y, p.y >= 0, grid_index(width as int, p) == p.y * width + p.x;
                        }
                    }
                    assert forall|p: Position| #[trigger] in_grid(width as int, height as int, p) && (p.y < y || (p.y == y && p.x < x + 1))
                        && fixture_at(rows@, p) == '@' as u8
                        implies (start matches Some(s) && grid_index(width as int, p) <= grid_index(width as int, s)) by {
                        if p.y < y {
                            assert(grid_index(width as int, p) < y * width) by (nonlinear_arith)
                                requires 0 <= p.x < width, p.y < y, p.y >= 0, grid_index(width as int, p) == p.y * width + p.x;
                        }
                    }
                    assert forall|p: Position| #[trigger] in_grid(width as int, height as int, p) && (p.y < y || (p.y == y && p.x < x + 1))
                        && fixture_at(rows@, p) == '>' as u8
                        implies (exit matches Some(s) && grid_index(width as int, p) <= grid_index(width as int, s)) by {
                        if p.y < y {
                            assert(grid_index(width as int, p) < y * width) by (nonlinear_arith)
                                requires 0 <= p.x < width, p.y < y, p.y >= 0, grid_index(width as int, p) == p.y * width + p.x;
                        }
                    }
                }
                x = x + 1;
            }
            proof {
                assert((y + 1) * width == y * width + width) by (nonlinear_arith);
            }
            y = y + 1;
        }
        proof {
            let (ya, xa) = choose|ya: int, xa: int| 0 <= ya < rows@.len() && 0 <= xa < rows@[0].spec_bytes().len()
                && #[trigger] rows@[ya].spec_bytes()[xa] == '@' as u8;
            let pa = Position { x: xa as i32, y: ya as i32 };
            assert(fixture_at(rows@, pa) == '@' as u8 && in_grid(width as int, height as int, pa));
            let (yb, xb) = choose|yb: int, xb: int| 0 <= yb < rows@.len() && 0 <= xb < rows@[0].spec_bytes().len()
                && #[trigger] rows@[yb].spec_bytes()[xb] == '>' as u8;
            let pb = Position { x: xb as i32, y: yb as i32 };
            assert(fixture_at(rows@, pb) == '>' as u8 && in_grid(width as int, height as int, pb));
            assert((height as int) * (width as int) == (width as int) * (height as int)) by (nonlinear_arith);
        }
        let map = DungeonMap {
            width: width as u16,
            height: height as u16,
            tiles,
            player_start: start.unwrap(),
            exit: exit.unwrap(),
            spawn_candidates: Vec::new(),
            seed,
            generator_version: GENERATOR_VERSION,
        };
        proof {
            assert forall|p: Position| #[trigger] map.in_bounds(p) implies map.tile_at(p) == Some(fixture_tile(fixture_at(rows@, p))) by {
                super::lemma_grid_index_bounds(width as int, height as int, p);
            }
        }
        map
    }
}

} // verus!
