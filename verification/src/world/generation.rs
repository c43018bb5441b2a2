//! Validated deterministic room-and-corridor generation.

use super::{
    cardinally_adjacent, cell_position, cell_tile, cheb, grid_index, grid_positions, in_grid, lemma_cell_position, set_cell, shifted,
    DungeonMap, GenerationError, Position, RunSeed, Tile, GENERATOR_VERSION,
};
use crate::rng::{draw_coin, draw_i32, drawn_coin, drawn_i32, shuffle_positions, shuffled};
use vstd::prelude::*;

verus! {

/// Generation attempts per seed before giving up.
pub const MAX_ATTEMPTS: usize = 32;
/// Widest supported map.
pub const MAX_WIDTH: u16 = 200;
/// Tallest supported map.
pub const MAX_HEIGHT: u16 = 120;
/// Most rooms a configuration may ask for.
pub const MAX_ROOMS: usize = 64;
/// Room placement tries per attempt.
const ROOM_TRIES: usize = 300;

/// Dimensions and room counts for the generator.
#[derive(Clone, Copy, Debug, PartialEq, Eq, Structural)]
pub struct GeneratorConfig {
    pub width: u16,
    pub height: u16,
    pub min_rooms: usize,
    pub max_rooms: usize,
}

/// The configuration `GeneratorConfig::default()` returns.
pub open spec fn default_config() -> GeneratorConfig {
    GeneratorConfig { width: 60, height: 28, min_rooms: 7, max_rooms: 14 }
}

/// The parameter ranges the generator supports.
pub open spec fn config_supported(c: GeneratorConfig) -> bool {
    &&& 20 <= c.width <= MAX_WIDTH
    &&& 14 <= c.height <= MAX_HEIGHT
    &&& c.min_rooms >= 2
    &&& c.max_rooms >= c.min_rooms
    &&& c.max_rooms <= MAX_ROOMS
}

impl Default for GeneratorConfig {
    fn default() -> (c: Self)
        ensures
            c == default_config(),
    {
        GeneratorConfig { width: 60, height: 28, min_rooms: 7, max_rooms: 14 }
    }
}

/// What a generated map holds besides its dimensions, seed and version.
pub struct Layout {
    pub tiles: Seq<Tile>,
    pub player_start: Position,
    pub exit: Position,
    pub spawn_candidates: Seq<Position>,
}

/// The layout of a map.
pub open spec fn layout_of(m: DungeonMap) -> Layout {
    Layout {
        tiles: m.tiles@,
        player_start: m.player_start,
        exit: m.exit,
        spawn_candidates: m.spawn_candidates@,
    }
}

/// `m` is a map of configuration `c` and seed `seed` with layout `l`.
pub open spec fn realizes(m: DungeonMap, c: GeneratorConfig, seed: RunSeed, l: Layout) -> bool {
    &&& m.width == c.width
    &&& m.height == c.height
    &&& m.seed == seed
    &&& m.generator_version == GENERATOR_VERSION
    &&& layout_of(m) == l
}

/// A map with this layout passes every structural check.
pub open spec fn layout_valid(c: GeneratorConfig, seed: RunSeed, l: Layout) -> bool {
    exists|m: DungeonMap| realizes(m, c, seed, l) && m.is_valid()
}

/// Whether a map passes its checks depends on its dimensions and layout
/// alone.
pub proof fn lemma_validity_by_layout(a: DungeonMap, b: DungeonMap)
    requires
        a.width == b.width,
        a.height == b.height,
        layout_of(a) == layout_of(b),
    ensures
        a.is_valid() == b.is_valid(),
{
    assert(a.tiles@ == b.tiles@);
    assert(a.spawn_candidates@ == b.spawn_candidates@);
    assert forall|q: Position| #[trigger] a.is_traversable_at(q) == b.is_traversable_at(q) by {
        assert(a.tile_at(q) == b.tile_at(q));
    }
    assert forall|path: Seq<Position>| #[trigger] a.is_traversal_path(path) == b.is_traversal_path(path) by {
        if a.is_traversal_path(path) {
            assert forall|i: int| 1 <= i < path.len() implies cardinally_adjacent(path[i - 1], #[trigger] path[i])
                && b.is_traversable_at(path[i]) by {
                assert(a.is_traversable_at(path[i]));
            }
        }
        if b.is_traversal_path(path) {
            assert forall|i: int| 1 <= i < path.len() implies cardinally_adjacent(path[i - 1], #[trigger] path[i])
                && a.is_traversable_at(path[i]) by {
                assert(b.is_traversable_at(path[i]));
            }
        }
    }
    assert forall|p: Position| #[trigger] a.reachable_from_start(p) == b.reachable_from_start(p) by {
        if a.reachable_from_start(p) {
            let path = choose|path: Seq<Position>| a.is_traversal_path(path) && path.last() == p;
            assert(b.is_traversal_path(path));
        }
        if b.reachable_from_start(p) {
            let path = choose|path: Seq<Position>| b.is_traversal_path(path) && path.last() == p;
            assert(a.is_traversal_path(path));
        }
    }
    assert(a.is_connected() == b.is_connected()) by {
        if a.is_connected() {
            assert forall|p: Position| #[trigger] b.is_traversable_at(p) implies b.reachable_from_start(p) by {
                assert(a.is_traversable_at(p));
                assert(a.reachable_from_start(p));
            }
        }
        if b.is_connected() {
            assert forall|p: Position| #[trigger] a.is_traversable_at(p) implies a.reachable_from_start(p) by {
                assert(b.is_traversable_at(p));
                assert(b.reachable_from_start(p));
            }
        }
    }
    assert(a.spawn_candidates_valid() == b.spawn_candidates_valid()) by {
        assert forall|i: int| 0 <= i < a.spawn_candidates@.len() implies
            a.tile_is(#[trigger] a.spawn_candidates@[i], Tile::Floor) == b.tile_is(a.spawn_candidates@[i], Tile::Floor) by {
            assert(a.tile_at(a.spawn_candidates@[i]) == b.tile_at(a.spawn_candidates@[i]));
        }
    }
    assert(a.tile_at(a.player_start) == b.tile_at(a.player_start));
    assert(a.tile_at(a.exit) == b.tile_at(a.exit));
}

/// A grid of `n` wall tiles.
spec fn wall_grid(n: nat) -> Seq<Tile> {
    Seq::new(n, |j: int| Tile::Wall)
}

/// Whether `room` comes too close to one of `rooms`.
spec fn overlaps_any(rooms: Seq<Rect>, room: Rect) -> bool {
    exists|k: int| 0 <= k < rooms.len() && room.overlaps_spec(rooms[k])
}

/// Room placement from try `tries` on, at word `word` of stream `seed`:
/// each try draws a width, a height and a corner; a room that keeps clear
/// of the rooms so far is carved and, after the first, joined to the
/// previous room by a corridor. Stops after the last try or at the most
/// rooms. Gives the tiles, the rooms and the next word position.
spec fn place_rooms(c: GeneratorConfig, seed: u64, word: u128, tiles: Seq<Tile>, rooms: Seq<Rect>, tries: int)
    -> (Seq<Tile>, Seq<Rect>, u128)
    decreases ROOM_TRIES - tries,
{
    if tries >= ROOM_TRIES || rooms.len() >= c.max_rooms {
        (tiles, rooms, word)
    } else {
        let dw = drawn_i32(seed, word, 5, 10);
        let dh = drawn_i32(seed, dw.1, 4, 8);
        let dx = drawn_i32(seed, dh.1, 1, (c.width - dw.0 - 2) as i32);
        let dy = drawn_i32(seed, dx.1, 1, (c.height - dh.0 - 2) as i32);
        let room = Rect { x: dx.0, y: dy.0, width: dw.0, height: dh.0 };
        if overlaps_any(rooms, room) {
            place_rooms(c, seed, dy.1, tiles, rooms, tries + 1)
        } else if rooms.len() > 0 {
            let coin = drawn_coin(seed, dy.1);
            let carved = carve_corridor_tiles(
                carve_room_tiles(tiles, c.width as int, room),
                c.width as int,
                coin.0,
                rooms.last().spec_center(),
                room.spec_center(),
            );
            place_rooms(c, seed, coin.1, carved, rooms.push(room), tries + 1)
        } else {
            place_rooms(c, seed, dy.1, carve_room_tiles(tiles, c.width as int, room), rooms.push(room), tries + 1)
        }
    }
}

/// The exit: from room `k` on, the centre farthest from the start, later
/// rooms winning ties.
spec fn farthest_from(start: Position, rooms: Seq<Rect>, k: int, exit: Position) -> Position
    decreases rooms.len() - k,
{
    if k < 0 || k >= rooms.len() {
        exit
    } else {
        let cand = rooms[k].spec_center();
        farthest_from(start, rooms, k + 1, if cheb(start, cand) >= cheb(start, exit) { cand } else { exit })
    }
}

/// How many corridor doors a map with `rooms` rooms closes: one fewer than
/// its rooms, between one and six.
spec fn wanted_doors(rooms: int) -> int {
    if rooms - 1 < 1 {
        1
    } else if rooms - 1 > 6 {
        6
    } else {
        rooms - 1
    }
}

/// `tiles` with the first `n` of `doors` closed.
spec fn close_first(tiles: Seq<Tile>, w: int, h: int, doors: Seq<Position>, n: int) -> Seq<Tile>
    decreases n,
{
    if n <= 0 {
        tiles
    } else {
        set_cell(close_first(tiles, w, h, doors, n - 1), w, h, doors[n - 1], Tile::ClosedDoor)
    }
}

/// The room phase of an attempt from word `word`.
spec fn attempt_rooms(c: GeneratorConfig, seed: RunSeed, word: u128) -> (Seq<Tile>, Seq<Rect>, u128) {
    place_rooms(c, seed.0, word, wall_grid((c.width * c.height) as nat), Seq::empty(), 0)
}

/// The layout an attempt from word `word` builds once it has enough rooms,
/// and the next word position: the start at the first room's centre, the
/// exit, the shuffled closable corridor doors of which the wanted number
/// are closed, and the shuffled spawn cells.
spec fn attempt_outcome(c: GeneratorConfig, seed: RunSeed, word: u128) -> (Layout, u128) {
    let w = c.width as int;
    let h = c.height as int;
    let placed = attempt_rooms(c, seed, word);
    let rooms = placed.1;
    let start = rooms[0].spec_center();
    let exit = farthest_from(start, rooms, 1, start);
    let t1 = set_cell(placed.0, w, h, exit, Tile::Exit);
    let doors = shuffled(seed.0, placed.2, grid_positions(w, h).filter(door_spot_pred(t1, w, h)).filter(closable_pred(start, exit)));
    let wanted = wanted_doors(rooms.len() as int);
    let n = if doors.0.len() < wanted { doors.0.len() as int } else { wanted };
    let t2 = close_first(t1, w, h, doors.0, n);
    let spawns = shuffled(seed.0, doors.1, grid_positions(w, h).filter(spawn_spot_pred(t2, w, h, start, exit)));
    (Layout { tiles: t2, player_start: start, exit, spawn_candidates: spawns.0 }, spawns.1)
}

/// One attempt from word `word`: its layout when it has enough rooms and
/// passes the checks, and the next word position.
spec fn attempt(c: GeneratorConfig, seed: RunSeed, word: u128) -> (Option<Layout>, u128) {
    let placed = attempt_rooms(c, seed, word);
    if placed.1.len() < c.min_rooms {
        (None, placed.2)
    } else {
        let o = attempt_outcome(c, seed, word);
        (if layout_valid(c, seed, o.0) { Some(o.0) } else { None }, o.1)
    }
}

/// The first successful attempt from attempt `n` on, at word `word`.
spec fn attempts_from(c: GeneratorConfig, seed: RunSeed, word: u128, n: int) -> Option<Layout>
    decreases MAX_ATTEMPTS - n,
{
    if n >= MAX_ATTEMPTS {
        None
    } else {
        let a = attempt(c, seed, word);
        if a.0 is Some {
            a.0
        } else {
            attempts_from(c, seed, a.1, n + 1)
        }
    }
}

/// The layout the generator makes for configuration `c` and seed `seed`:
/// the first of at most `MAX_ATTEMPTS` attempts along the seed's stream
/// (word position 0 onwards) that passes the checks, or none. It is a
/// function of the configuration and the seed alone.
pub closed spec fn generated(c: GeneratorConfig, seed: RunSeed) -> Option<Layout> {
    attempts_from(c, seed, 0, 0)
}

/// A generator whose configuration is known to be supported.
#[derive(Debug)]
pub struct DungeonGenerator {
    config: GeneratorConfig,
}

impl DungeonGenerator {
    #[verifier::type_invariant]
    spec fn supported(&self) -> bool {
        config_supported(self.config)
    }

    /// The configuration the generator was built from.
    pub closed spec fn spec_config(&self) -> GeneratorConfig {
        self.config
    }

    /// Construct a validated generator.
    pub fn new(config: GeneratorConfig) -> (r: Result<Self, GenerationError>)
        ensures
            r is Ok <==> config_supported(config),
            r matches Ok(g) ==> g.spec_config() == config,
            r matches Err(e) ==> e == GenerationError::InvalidConfig,
    {
        if config.width < 20 || config.width > MAX_WIDTH || config.height < 14 || config.height > MAX_HEIGHT
            || config.min_rooms < 2 || config.max_rooms < config.min_rooms || config.max_rooms > MAX_ROOMS
        {
            return Err(GenerationError::InvalidConfig);
        }
        Ok(DungeonGenerator { config })
    }

    /// Generate one validated dungeon from an explicit seed: the layout
    /// `generated` names for this configuration and seed, or, when every
    /// bounded attempt fails, `Exhausted`.
    pub fn generate(&self, seed: RunSeed) -> (r: Result<DungeonMap, GenerationError>)
        ensures
            r is Ok <==> generated(self.spec_config(), seed) is Some,
            r matches Ok(map) ==> {
                &&& map.is_valid()
                &&& map.wf()
                &&& map.width == self.spec_config().width
                &&& map.height == self.spec_config().height
                &&& map.seed == seed
                &&& map.generator_version == GENERATOR_VERSION
                &&& generated(self.spec_config(), seed) == Some(layout_of(map))
            },
            r matches Err(e) ==> e == (GenerationError::Exhausted { seed, attempts: MAX_ATTEMPTS }),
    {
        let mut word: u128 = 0;
        let mut attempt: usize = 0;
        while attempt < MAX_ATTEMPTS
            invariant
                attempt <= MAX_ATTEMPTS,
                attempts_from(self.spec_config(), seed, word, attempt as int) == generated(self.spec_config(), seed),
            decreases MAX_ATTEMPTS - attempt,
        {
            let (result, next) = self.generate_once(seed, word);
            match result {
                Ok(map) => return Ok(map),
                Err(_) => {},
            }
            word = next;
            attempt = attempt + 1;
        }
        Err(GenerationError::Exhausted { seed, attempts: MAX_ATTEMPTS })
    }

    /// One attempt from word position `word` of the seed's stream: place
    /// rooms and corridors, pick the exit, close some corridor doors, list
    /// spawn cells, then validate. Returns the outcome and the next word
    /// position; both are those `attempt` names.
    #[verifier::rlimit(60)]
    fn generate_once(&self, seed: RunSeed, word: u128) -> (r: (Result<DungeonMap, GenerationError>, u128))
        ensures
            r.1 == attempt(self.spec_config(), seed, word).1,
            r.0 is Ok <==> attempt(self.spec_config(), seed, word).0 is Some,
            r.0 matches Ok(map) ==> {
                &&& map.is_valid()
                &&& map.wf()
                &&& map.width == self.spec_config().width
                &&& map.height == self.spec_config().height
                &&& map.seed == seed
                &&& map.generator_version == GENERATOR_VERSION
                &&& attempt(self.spec_config(), seed, word).0 == Some(layout_of(map))
            },
            r.0 matches Err(e) ==> e is Invariant,
    {
        proof { use_type_invariant(self); }
        let c = self.config;
        let ghost w = c.width as int;
        let ghost h = c.height as int;
        proof {
            assert((c.width as int) * (c.height as int) <= 200 * 120) by (nonlinear_arith)
                requires c.width <= 200, c.height <= 120;
        }
        let total: usize = (c.width as usize) * (c.height as usize);
        let mut tiles: Vec<Tile> = Vec::new();
        let mut i: usize = 0;
        while i < total
            invariant
                i <= total,
                total == c.width * c.height,
                tiles@.len() == i,
                forall|j: int| 0 <= j < i ==> tiles@[j] == Tile::Wall,
            decreases total - i,
        {
            tiles.push(Tile::Wall);
            i = i + 1;
        }
        let ghost blank = tiles@;
        assert(blank =~= wall_grid((w * h) as nat));
        let mut map = DungeonMap {
            width: c.width,
            height: c.height,
            tiles,
            player_start: Position::new(0, 0),
            exit: Position::new(0, 0),
            spawn_candidates: Vec::new(),
            seed,
            generator_version: GENERATOR_VERSION,
        };
        let mut rooms: Vec<Rect> = Vec::new();
        let mut tries: usize = 0;
        let ghost word0 = word;
        let mut word = word;
        let ghost placed = place_rooms(c, seed.0, word, blank, Seq::empty(), 0);
        assert(placed == attempt_rooms(c, seed, word0));
        while tries < ROOM_TRIES && rooms.len() < c.max_rooms
            invariant
                config_supported(c),
                c == self.spec_config(),
                map.wf(),
                map.width == c.width,
                map.height == c.height,
                map.seed == seed,
                map.generator_version == GENERATOR_VERSION,
                map.spawn_candidates@.len() == 0,
                tries <= ROOM_TRIES,
                rooms@.len() <= c.max_rooms,
                forall|k: int| 0 <= k < rooms@.len() ==> (#[trigger] rooms@[k]).inside(c.width as int, c.height as int),
                place_rooms(c, seed.0, word, map.tiles@, rooms@, tries as int) == placed,
            decreases ROOM_TRIES - tries,
        {
            let (width, w1) = draw_i32(seed.0, word, 5, 10);
            let (height, w2) = draw_i32(seed.0, w1, 4, 8);
            let (x, w3) = draw_i32(seed.0, w2, 1, c.width as i32 - width - 2);
            let (y, w4) = draw_i32(seed.0, w3, 1, c.height as i32 - height - 2);
            let room = Rect::new(x, y, width, height);
            let ghost before_tiles = map.tiles@;
            let ghost before_rooms = rooms@;
            let ghost before_tries = tries as int;
            let ghost before_word = word;
            tries = tries + 1;
            if any_overlap(&rooms, room) {
                word = w4;
                proof {
                    assert(place_rooms(c, seed.0, before_word, before_tiles, before_rooms, before_tries)
                        == place_rooms(c, seed.0, word, map.tiles@, rooms@, tries as int));
                }
            } else {
                carve_room(&mut map, room);
                if rooms.len() > 0 {
                    let previous = rooms[rooms.len() - 1];
                    word = carve_corridor(&mut map, previous.center(), room.center(), seed.0, w4);
                } else {
                    word = w4;
                }
                rooms.push(room);
                proof {
                    assert(before_rooms.push(room) == rooms@);
                    if before_rooms.len() > 0 {
                        assert(before_rooms.last() == before_rooms[before_rooms.len() - 1]);
                    }
                    assert(place_rooms(c, seed.0, before_word, before_tiles, before_rooms, before_tries)
                        == place_rooms(c, seed.0, word, map.tiles@, rooms@, tries as int));
                }
            }
        }
        assert(place_rooms(c, seed.0, word, map.tiles@, rooms@, tries as int) == (map.tiles@, rooms@, word));
        let ghost t0 = map.tiles@;
        if rooms.len() < c.min_rooms {
            return (Err(GenerationError::Invariant("too few rooms")), word);
        }
        let start = rooms[0].center();
        map.player_start = start;
        let mut exit = start;
        let mut best = map.player_start.chebyshev_distance(exit);
        let mut k: usize = 1;
        while k < rooms.len()
            invariant
                1 <= k <= rooms@.len(),
                forall|j: int| 0 <= j < rooms@.len() ==> (#[trigger] rooms@[j]).inside(c.width as int, c.height as int),
                config_supported(c),
                start == rooms@[0].spec_center(),
                map.player_start == start,
                exit.x >= 0 && exit.y >= 0 && exit.x < 200 && exit.y < 120,
                best == cheb(map.player_start, exit),
                farthest_from(start, rooms@, k as int, exit) == farthest_from(start, rooms@, 1, start),
            decreases rooms@.len() - k,
        {
            let candidate = rooms[k].center();
            let distance = map.player_start.chebyshev_distance(candidate);
            if distance >= best {
                best = distance;
                exit = candidate;
            }
            k = k + 1;
        }
        map.exit = exit;
        map.set_tile(exit, Tile::Exit);
        let ghost t1 = map.tiles@;
        assert(rooms@[0].inside(c.width as int, c.height as int));
        assert(map.in_bounds(map.player_start));

        let all_doors = door_candidates(&map);
        let mut doors: Vec<Position> = Vec::new();
        let mut d: usize = 0;
        while d < all_doors.len()
            invariant
                d <= all_doors@.len(),
                forall|j: int| 0 <= j < all_doors@.len() ==> #[trigger] map.in_bounds(all_doors@[j]),
                forall|j: int| 0 <= j < doors@.len() ==> #[trigger] map.in_bounds(doors@[j]),
                map.in_bounds(map.player_start),
                doors@ == all_doors@.subrange(0, d as int).filter(closable_pred(map.player_start, map.exit)),
            decreases all_doors@.len() - d,
        {
            let p = all_doors[d];
            assert(map.in_bounds(all_doors@[d as int]));
            if p != map.player_start && p != map.exit && p.chebyshev_distance(map.player_start) > 2 {
                doors.push(p);
            }
            proof {
                let sub = all_doors@.subrange(0, d as int + 1);
                assert(sub.drop_last() =~= all_doors@.subrange(0, d as int));
                assert(sub.last() == p);
                assert(doors@ == sub.filter(closable_pred(map.player_start, map.exit))) by {
                    reveal(Seq::filter);
                }
            }
            d = d + 1;
        }
        assert(all_doors@.subrange(0, all_doors@.len() as int) =~= all_doors@);
        let ghost unshuffled = doors@;
        let word2 = shuffle_positions(seed.0, word, &mut doors);
        let wanted: usize = if rooms.len() - 1 < 1 {
            1
        } else if rooms.len() - 1 > 6 {
            6
        } else {
            rooms.len() - 1
        };
        proof {
            broadcast use vstd::seq_lib::group_to_multiset_ensures;
            assert forall|j: int| 0 <= j < doors@.len() implies #[trigger] map.in_bounds(doors@[j]) by {
                assert(doors@.contains(doors@[j]));
                assert(doors@.to_multiset().count(doors@[j]) > 0);
                assert(unshuffled.to_multiset().count(doors@[j]) > 0);
                assert(unshuffled.contains(doors@[j]));
            }
        }
        let mut d: usize = 0;
        while d < doors.len() && d < wanted
            invariant
                map.wf(),
                map.width == c.width,
                map.height == c.height,
                map.seed == seed,
                map.generator_version == GENERATOR_VERSION,
                map.player_start == start,
                map.exit == exit,
                map.spawn_candidates@.len() == 0,
                0 <= map.player_start.x < 200 && 0 <= map.player_start.y < 120,
                0 <= map.exit.x < 200 && 0 <= map.exit.y < 120,
                d <= doors@.len(),
                d <= wanted,
                map.tiles@ == close_first(t1, c.width as int, c.height as int, doors@, d as int),
            decreases doors@.len() - d,
        {
            map.set_tile(doors[d], Tile::ClosedDoor);
            d = d + 1;
        }
        let mut candidates = spawn_floor(&map);
        let word3 = shuffle_positions(seed.0, word2, &mut candidates);
        map.spawn_candidates = candidates;
        let ghost layout = layout_of(map);
        proof {
            let pl = attempt_rooms(c, seed, word0);
            assert(pl.1 == rooms@);
            assert(pl.0 == t0);
            assert(pl.2 == word);
            assert(start == pl.1[0].spec_center());
            assert(exit == farthest_from(start, pl.1, 1, start));
            assert(t1 == set_cell(pl.0, c.width as int, c.height as int, exit, Tile::Exit));
            assert(unshuffled == grid_positions(c.width as int, c.height as int).filter(door_spot_pred(t1, c.width as int, c.height as int)).filter(closable_pred(start, exit)));
            assert(wanted == wanted_doors(rooms@.len() as int));
            assert(layout.tiles == attempt_outcome(c, seed, word0).0.tiles);
            assert(layout.spawn_candidates == attempt_outcome(c, seed, word0).0.spawn_candidates);
            assert(layout == attempt_outcome(c, seed, word0).0);
            assert(word3 == attempt_outcome(c, seed, word0).1);
        }
        match map.validate() {
            Ok(()) => {
                proof {
                    assert(realizes(map, c, seed, layout));
                    assert(map.is_valid());
                    assert(layout_valid(c, seed, layout));
                    assert(attempt(c, seed, word0).0 == Some(layout));
                }
                (Ok(map), word3)
            },
            Err(e) => {
                proof {
                    assert forall|m: DungeonMap| realizes(m, c, seed, layout) implies !m.is_valid() by {
                        lemma_validity_by_layout(m, map);
                    }
                    assert(!layout_valid(c, seed, layout));
                    assert(attempt(c, seed, word0).0 is None);
                }
                (Err(e), word3)
            },
        }
    }
}

impl Default for DungeonGenerator {
    /// The generator for the default configuration.
    fn default() -> (g: Self)
        ensures
            g.spec_config() == default_config(),
    {
        DungeonGenerator { config: GeneratorConfig::default() }
    }
}

/// An axis-aligned room.
#[derive(Clone, Copy, Debug)]
struct Rect {
    x: i32,
    y: i32,
    width: i32,
    height: i32,
}

impl Rect {
    /// The room and a one-tile margin fit inside the map interior.
    spec fn inside(&self, map_width: int, map_height: int) -> bool {
        &&& 1 <= self.x
        &&& 1 <= self.y
        &&& 1 <= self.width <= 10
        &&& 1 <= self.height <= 10
        &&& self.x + self.width + 1 <= map_width
        &&& self.y + self.height + 1 <= map_height
    }

    spec fn spec_center(&self) -> Position {
        Position { x: (self.x + self.width / 2) as i32, y: (self.y + self.height / 2) as i32 }
    }

    fn new(x: i32, y: i32, width: i32, height: i32) -> (r: Self)
        ensures
            r.x == x && r.y == y && r.width == width && r.height == height,
    {
        Rect { x, y, width, height }
    }

    fn center(self) -> (p: Position)
        requires
            self.inside(200, 120),
        ensures
            p == self.spec_center(),
            self.x <= p.x < self.x + self.width,
            self.y <= p.y < self.y + self.height,
    {
        Position::new(self.x + self.width / 2, self.y + self.height / 2)
    }

    fn overlaps(self, other: Self, margin: i32) -> (b: bool)
        requires
            self.inside(200, 120),
            other.inside(200, 120),
            0 <= margin <= 1,
        ensures
            b == (self.x - margin < other.x + other.width && self.x + self.width + margin > other.x
                && self.y - margin < other.y + other.height && self.y + self.height + margin > other.y),
    {
        self.x - margin < other.x + other.width && self.x + self.width + margin > other.x
            && self.y - margin < other.y + other.height && self.y + self.height + margin > other.y
    }
}

fn any_overlap(rooms: &Vec<Rect>, room: Rect) -> (b: bool)
    requires
        room.inside(200, 120),
        forall|k: int| 0 <= k < rooms@.len() ==> (#[trigger] rooms@[k]).inside(200, 120),
    ensures
        b == exists|k: int| 0 <= k < rooms@.len() && room.overlaps_spec(rooms@[k]),
{
    let mut k: usize = 0;
    while k < rooms.len()
        invariant
            k <= rooms@.len(),
            room.inside(200, 120),
            forall|j: int| 0 <= j < rooms@.len() ==> (#[trigger] rooms@[j]).inside(200, 120),
            forall|j: int| 0 <= j < k ==> !room.overlaps_spec(#[trigger] rooms@[j]),
        decreases rooms@.len() - k,
    {
        if room.overlaps(rooms[k], 1) {
            return true;
        }
        k = k + 1;
    }
    false
}

impl Rect {
    spec fn overlaps_spec(&self, other: Rect) -> bool {
        self.x - 1 < other.x + other.width && self.x + self.width + 1 > other.x
            && self.y - 1 < other.y + other.height && self.y + self.height + 1 > other.y
    }
}

/// `after` is `before` with every on-map cell that `cells` picks turned to
/// floor, and nothing else changed.
spec fn carved_from(after: DungeonMap, before: DungeonMap, cells: spec_fn(Position) -> bool) -> bool {
    &&& after.width == before.width
    &&& after.height == before.height
    &&& after.player_start == before.player_start
    &&& after.exit == before.exit
    &&& after.spawn_candidates@ == before.spawn_candidates@
    &&& after.seed == before.seed
    &&& after.generator_version == before.generator_version
    &&& forall|q: Position| #[trigger] after.tile_at(q) == if cells(q) && before.tile_at(q) is Some {
        Some(Tile::Floor)
    } else {
        before.tile_at(q)
    }
}

/// The cells of a room.
spec fn in_room(room: Rect, q: Position) -> bool {
    room.x <= q.x < room.x + room.width && room.y <= q.y < room.y + room.height
}

/// The room cells in full rows above `y`, and in row `y` left of `x`.
spec fn room_prefix(room: Rect, y: int, x: int, q: Position) -> bool {
    &&& room.x <= q.x < room.x + room.width
    &&& room.y <= q.y
    &&& (q.y < y || (q.y == y && q.x < x))
}

/// The cells of row `y` between columns `a` and `b`, both included.
spec fn on_row(a: int, b: int, y: int, q: Position) -> bool {
    q.y == y && (if a < b { a } else { b }) <= q.x <= (if a < b { b } else { a })
}

/// The cells of column `x` between rows `a` and `b`, both included.
spec fn on_column(a: int, b: int, x: int, q: Position) -> bool {
    q.x == x && (if a < b { a } else { b }) <= q.y <= (if a < b { b } else { a })
}

/// The L-shaped corridor from `from` to `to` that runs along `from`'s row
/// first and then along `to`'s column.
spec fn row_then_column(from: Position, to: Position, q: Position) -> bool {
    on_row(from.x as int, to.x as int, from.y as int, q) || on_column(from.y as int, to.y as int, to.x as int, q)
}

/// The L-shaped corridor from `from` to `to` that runs along `from`'s column
/// first and then along `to`'s row.
spec fn column_then_row(from: Position, to: Position, q: Position) -> bool {
    on_column(from.y as int, to.y as int, from.x as int, q) || on_row(from.x as int, to.x as int, to.y as int, q)
}

/// Turn every on-map cell of the room to floor.
fn carve_room(map: &mut DungeonMap, room: Rect)
    requires
        old(map).wf(),
        room.inside(200, 120),
    ensures
        final(map).wf(),
        final(map).width == old(map).width,
        final(map).height == old(map).height,
        final(map).seed == old(map).seed,
        final(map).generator_version == old(map).generator_version,
        carved_from(*final(map), *old(map), |q: Position| in_room(room, q)),
        final(map).tiles@ == carve_room_tiles(old(map).tiles@, old(map).width as int, room),
{
    let ghost start = *map;
    let mut y = room.y;
    while y < room.y + room.height
        invariant
            map.wf(),
            start == *old(map),
            room.inside(200, 120),
            room.y <= y <= room.y + room.height,
            carved_from(*map, start, |q: Position| room_prefix(room, y as int, room.x as int, q)),
        decreases room.y + room.height - y,
    {
        let mut x = room.x;
        while x < room.x + room.width
            invariant
                map.wf(),
                start == *old(map),
                room.inside(200, 120),
                room.y <= y < room.y + room.height,
                room.x <= x <= room.x + room.width,
                carved_from(*map, start, |q: Position| room_prefix(room, y as int, x as int, q)),
            decreases room.x + room.width - x,
        {
            let ghost prev = *map;
            map.set_tile(Position::new(x, y), Tile::Floor);
            proof {
                assert forall|q: Position| #[trigger] map.tile_at(q) == if room_prefix(room, y as int, x + 1, q)
                    && start.tile_at(q) is Some {
                    Some(Tile::Floor)
                } else {
                    start.tile_at(q)
                } by {
                    assert(prev.tile_at(q) == if room_prefix(room, y as int, x as int, q) && start.tile_at(q) is Some {
                        Some(Tile::Floor)
                    } else {
                        start.tile_at(q)
                    });
                }
            }
            x = x + 1;
        }
        proof {
            assert forall|q: Position| #[trigger] map.tile_at(q) == if room_prefix(room, y + 1, room.x as int, q)
                && start.tile_at(q) is Some {
                Some(Tile::Floor)
            } else {
                start.tile_at(q)
            } by {
                assert(room_prefix(room, y as int, x as int, q) == room_prefix(room, y + 1, room.x as int, q));
            }
        }
        y = y + 1;
    }
    proof {
        assert forall|q: Position| #[trigger] map.tile_at(q) == if in_room(room, q) && start.tile_at(q) is Some {
            Some(Tile::Floor)
        } else {
            start.tile_at(q)
        } by {
            assert(room_prefix(room, y as int, room.x as int, q) == in_room(room, q));
        }
        lemma_carved_tiles(*map, start, |q: Position| in_room(room, q));
        assert(map.tiles@ =~= carve_room_tiles(start.tiles@, start.width as int, room));
    }
}

/// The cells of the corridor from `from` to `to`: along the row first when
/// `row_first`, else along the column first.
spec fn corridor_cell(row_first: bool, from: Position, to: Position, q: Position) -> bool {
    if row_first {
        row_then_column(from, to, q)
    } else {
        column_then_row(from, to, q)
    }
}

/// `tiles` of a grid `w` cells wide with every cell that `cells` picks
/// turned to floor.
spec fn carve_cells(tiles: Seq<Tile>, w: int, cells: spec_fn(Position) -> bool) -> Seq<Tile> {
    Seq::new(tiles.len(), |i: int| if cells(cell_position(w, i)) { Tile::Floor } else { tiles[i] })
}

/// `tiles` with the cells of `room` turned to floor.
spec fn carve_room_tiles(tiles: Seq<Tile>, w: int, room: Rect) -> Seq<Tile> {
    Seq::new(tiles.len(), |i: int| if in_room(room, cell_position(w, i)) { Tile::Floor } else { tiles[i] })
}

/// `tiles` with the corridor from `from` to `to` turned to floor.
spec fn carve_corridor_tiles(tiles: Seq<Tile>, w: int, row_first: bool, from: Position, to: Position) -> Seq<Tile> {
    Seq::new(tiles.len(), |i: int| if corridor_cell(row_first, from, to, cell_position(w, i)) { Tile::Floor } else { tiles[i] })
}

/// Carving by cells is carving the tile sequence.
proof fn lemma_carved_tiles(after: DungeonMap, before: DungeonMap, cells: spec_fn(Position) -> bool)
    requires
        before.wf(),
        carved_from(after, before, cells),
        after.tiles@.len() == before.tiles@.len(),
    ensures
        after.tiles@ == carve_cells(before.tiles@, before.width as int, cells),
{
    let w = before.width as int;
    let h = before.height as int;
    assert forall|i: int| 0 <= i < after.tiles@.len() implies after.tiles@[i]
        == #[trigger] carve_cells(before.tiles@, w, cells)[i] by {
        lemma_cell_position(w, h, i);
        let p = cell_position(w, i);
        assert(after.tile_at(p) == if cells(p) && before.tile_at(p) is Some {
            Some(Tile::Floor)
        } else {
            before.tile_at(p)
        });
    }
    assert(after.tiles@ =~= carve_cells(before.tiles@, w, cells));
}

/// Carve an L-shaped corridor between two cells, along the row or the column
/// first as the coin drawn at word `word` of stream `seed` decides; returns
/// the word position after the draw.
fn carve_corridor(map: &mut DungeonMap, from: Position, to: Position, seed: u64, word: u128) -> (next: u128)
    requires
        old(map).wf(),
        0 <= from.x < 200 && 0 <= from.y < 120,
        0 <= to.x < 200 && 0 <= to.y < 120,
    ensures
        final(map).wf(),
        final(map).width == old(map).width,
        final(map).height == old(map).height,
        final(map).seed == old(map).seed,
        final(map).generator_version == old(map).generator_version,
        next == drawn_coin(seed, word).1,
        carved_from(*final(map), *old(map), |q: Position| corridor_cell(drawn_coin(seed, word).0, from, to, q)),
        final(map).tiles@ == carve_corridor_tiles(old(map).tiles@, old(map).width as int, drawn_coin(seed, word).0, from, to),
{
    let ghost start = *map;
    let (row_first, next) = draw_coin(seed, word);
    if row_first {
        carve_horizontal(map, from.x, to.x, from.y);
        let ghost mid = *map;
        carve_vertical(map, from.y, to.y, to.x);
        proof {
            assert forall|q: Position| #[trigger] map.tile_at(q) == if row_then_column(from, to, q)
                && start.tile_at(q) is Some {
                Some(Tile::Floor)
            } else {
                start.tile_at(q)
            } by {
                assert(mid.tile_at(q) == if on_row(from.x as int, to.x as int, from.y as int, q) && start.tile_at(q) is Some {
                    Some(Tile::Floor)
                } else {
                    start.tile_at(q)
                });
            }
        }
    } else {
        carve_vertical(map, from.y, to.y, from.x);
        let ghost mid = *map;
        carve_horizontal(map, from.x, to.x, to.y);
        proof {
            assert forall|q: Position| #[trigger] map.tile_at(q) == if column_then_row(from, to, q)
                && start.tile_at(q) is Some {
                Some(Tile::Floor)
            } else {
                start.tile_at(q)
            } by {
                assert(mid.tile_at(q) == if on_column(from.y as int, to.y as int, from.x as int, q) && start.tile_at(q) is Some {
                    Some(Tile::Floor)
                } else {
                    start.tile_at(q)
                });
            }
        }
    }
    proof {
        let cells = |q: Position| corridor_cell(row_first, from, to, q);
        assert(carved_from(*map, start, cells));
        lemma_carved_tiles(*map, start, cells);
        assert(map.tiles@ =~= carve_corridor_tiles(start.tiles@, start.width as int, row_first, from, to));
    }
    next
}

/// Turn the on-map cells of row `y` between columns `a` and `b` to floor.
fn carve_horizontal(map: &mut DungeonMap, a: i32, b: i32, y: i32)
    requires
        old(map).wf(),
        0 <= a < 200 && 0 <= b < 200,
    ensures
        final(map).wf(),
        final(map).width == old(map).width,
        final(map).height == old(map).height,
        final(map).seed == old(map).seed,
        final(map).generator_version == old(map).generator_version,
        carved_from(*final(map), *old(map), |q: Position| on_row(a as int, b as int, y as int, q)),
{
    let ghost start = *map;
    let low = if a < b { a } else { b };
    let high = if a < b { b } else { a };
    let mut x = low;
    while x <= high
        invariant
            map.wf(),
            start == *old(map),
            low == (if a < b { a } else { b }),
            high == (if a < b { b } else { a }),
            low <= x <= high + 1,
            high < 200,
            carved_from(*map, start, |q: Position| on_row(low as int, (x - 1) as int, y as int, q) && x > low),
        decreases high + 1 - x,
    {
        let ghost prev = *map;
        map.set_tile(Position::new(x, y), Tile::Floor);
        proof {
            assert forall|q: Position| #[trigger] map.tile_at(q) == if (on_row(low as int, x as int, y as int, q) && x + 1 > low)
                && start.tile_at(q) is Some {
                Some(Tile::Floor)
            } else {
                start.tile_at(q)
            } by {
                assert(prev.tile_at(q) == if (on_row(low as int, (x - 1) as int, y as int, q) && x > low)
                    && start.tile_at(q) is Some {
                    Some(Tile::Floor)
                } else {
                    start.tile_at(q)
                });
            }
        }
        x = x + 1;
    }
    proof {
        assert forall|q: Position| #[trigger] map.tile_at(q) == if on_row(a as int, b as int, y as int, q)
            && start.tile_at(q) is Some {
            Some(Tile::Floor)
        } else {
            start.tile_at(q)
        } by {
            assert((on_row(low as int, (x - 1) as int, y as int, q) && x > low) == on_row(a as int, b as int, y as int, q));
        }
    }
}

/// Turn the on-map cells of column `x` between rows `a` and `b` to floor.
fn carve_vertical(map: &mut DungeonMap, a: i32, b: i32, x: i32)
    requires
        old(map).wf(),
        0 <= a < 200 && 0 <= b < 200,
    ensures
        final(map).wf(),
        final(map).width == old(map).width,
        final(map).height == old(map).height,
        final(map).seed == old(map).seed,
        final(map).generator_version == old(map).generator_version,
        carved_from(*final(map), *old(map), |q: Position| on_column(a as int, b as int, x as int, q)),
{
    let ghost start = *map;
    let low = if a < b { a } else { b };
    let high = if a < b { b } else { a };
    let mut y = low;
    while y <= high
        invariant
            map.wf(),
            start == *old(map),
            low == (if a < b { a } else { b }),
            high == (if a < b { b } else { a }),
            low <= y <= high + 1,
            high < 200,
            carved_from(*map, start, |q: Position| on_column(low as int, (y - 1) as int, x as int, q) && y > low),
        decreases high + 1 - y,
    {
        let ghost prev = *map;
        map.set_tile(Position::new(x, y), Tile::Floor);
        proof {
            assert forall|q: Position| #[trigger] map.tile_at(q) == if (on_column(low as int, y as int, x as int, q) && y + 1 > low)
                && start.tile_at(q) is Some {
                Some(Tile::Floor)
            } else {
                start.tile_at(q)
            } by {
                assert(prev.tile_at(q) == if (on_column(low as int, (y - 1) as int, x as int, q) && y > low)
                    && start.tile_at(q) is Some {
                    Some(Tile::Floor)
                } else {
                    start.tile_at(q)
                });
            }
        }
        y = y + 1;
    }
    proof {
        assert forall|q: Position| #[trigger] map.tile_at(q) == if on_column(a as int, b as int, x as int, q)
            && start.tile_at(q) is Some {
            Some(Tile::Floor)
        } else {
            start.tile_at(q)
        } by {
            assert((on_column(low as int, (y - 1) as int, x as int, q) && y > low) == on_column(a as int, b as int, x as int, q));
        }
    }
}

/// Whether the tile at `p` is plain floor.
fn is_floor(map: &DungeonMap, p: Position) -> (b: bool)
    ensures
        b == map.tile_is(p, Tile::Floor),
{
    match map.tile(p) {
        Some(Tile::Floor) => true,
        _ => false,
    }
}

/// A floor tile in a one-wide corridor: floor on exactly the two opposite
/// sides along one axis and not on the other axis.
spec fn is_door_spot(tiles: Seq<Tile>, w: int, h: int, p: Position) -> bool {
    let n = cell_tile(tiles, w, h, shifted(p, 0, -1)) == Some(Tile::Floor);
    let e = cell_tile(tiles, w, h, shifted(p, 1, 0)) == Some(Tile::Floor);
    let s = cell_tile(tiles, w, h, shifted(p, 0, 1)) == Some(Tile::Floor);
    let west = cell_tile(tiles, w, h, shifted(p, -1, 0)) == Some(Tile::Floor);
    &&& cell_tile(tiles, w, h, p) == Some(Tile::Floor)
    &&& ((n && s && !e && !west) || (e && west && !n && !s))
}

/// A floor tile far enough from the start and the exit to hold a hostile.
spec fn is_spawn_spot(tiles: Seq<Tile>, w: int, h: int, start: Position, exit: Position, p: Position) -> bool {
    &&& cell_tile(tiles, w, h, p) == Some(Tile::Floor)
    &&& p != start
    &&& cheb(p, start) >= 6
    &&& cheb(p, exit) >= 2
}

/// The door-spot test for a grid of tiles.
spec fn door_spot_pred(tiles: Seq<Tile>, w: int, h: int) -> spec_fn(Position) -> bool {
    |p: Position| is_door_spot(tiles, w, h, p)
}

/// The spawn-spot test for a grid of tiles with its start and exit.
spec fn spawn_spot_pred(tiles: Seq<Tile>, w: int, h: int, start: Position, exit: Position) -> spec_fn(Position) -> bool {
    |p: Position| is_spawn_spot(tiles, w, h, start, exit, p)
}

/// Door spots that may be closed: away from the start and not the exit.
spec fn closable_pred(start: Position, exit: Position) -> spec_fn(Position) -> bool {
    |p: Position| p != start && p != exit && cheb(p, start) > 2
}

/// `list` holds exactly the on-map positions that `pick` selects, each
/// once, in row-major order.
spec fn row_major_selection(map: DungeonMap, list: Seq<Position>, pick: spec_fn(Position) -> bool) -> bool {
    &&& forall|j: int| 0 <= j < list.len() ==> #[trigger] map.in_bounds(list[j]) && pick(list[j])
    &&& forall|p: Position| map.in_bounds(p) && pick(p) ==> #[trigger] list.contains(p)
    &&& forall|j: int, k: int| 0 <= j < k < list.len() ==> grid_index(map.width as int, #[trigger] list[j])
        < grid_index(map.width as int, #[trigger] list[k])
}

/// Floor tiles that sit in a one-wide corridor, in row-major order.
#[verifier::spinoff_prover]
fn door_candidates(map: &DungeonMap) -> (doors: Vec<Position>)
    ensures
        forall|j: int| 0 <= j < doors@.len() ==> #[trigger] map.in_bounds(doors@[j]) && map.tile_is(doors@[j], Tile::Floor),
        row_major_selection(*map, doors@, door_spot_pred(map.tiles@, map.width as int, map.height as int)),
        doors@ == grid_positions(map.width as int, map.height as int).filter(door_spot_pred(map.tiles@, map.width as int, map.height as int)),
{
    let all = map.positions();
    let mut doors: Vec<Position> = Vec::new();
    let mut i: usize = 0;
    while i < all.len()
        invariant
            i <= all@.len(),
            forall|j: int| 0 <= j < all@.len() ==> grid_index(map.width as int, #[trigger] all@[j]) == j
                && map.in_bounds(all@[j]),
            forall|p: Position| #[trigger] all@.contains(p) <==> map.in_bounds(p),
            all@ == grid_positions(map.width as int, map.height as int),
            doors@ == all@.subrange(0, i as int).filter(door_spot_pred(map.tiles@, map.width as int, map.height as int)),
            forall|j: int| 0 <= j < doors@.len() ==> #[trigger] map.in_bounds(doors@[j]) && is_door_spot(map.tiles@, map.width as int, map.height as int, doors@[j])
                && grid_index(map.width as int, doors@[j]) < i,
            forall|j: int, k: int| 0 <= j < k < doors@.len() ==> grid_index(map.width as int, #[trigger] doors@[j])
                < grid_index(map.width as int, #[trigger] doors@[k]),
            forall|k: int| 0 <= k < i && is_door_spot(map.tiles@, map.width as int, map.height as int, #[trigger] all@[k]) ==> doors@.contains(all@[k]),
        decreases all@.len() - i,
    {
        let p = all[i];
        assert(map.in_bounds(all@[i as int]));
        let ghost before = doors@;
        if is_floor(map, p) {
            let n = is_floor(map, p.offset(0, -1));
            let e = is_floor(map, p.offset(1, 0));
            let s = is_floor(map, p.offset(0, 1));
            let w = is_floor(map, p.offset(-1, 0));
            if (n && s && !e && !w) || (e && w && !n && !s) {
                doors.push(p);
                proof {
                    assert forall|k: int| 0 <= k < i && is_door_spot(map.tiles@, map.width as int, map.height as int, #[trigger] all@[k]) implies doors@.contains(all@[k]) by {
                        assert(before.contains(all@[k]));
                        let m = choose|m: int| 0 <= m < before.len() && before[m] == all@[k];
                        assert(doors@[m] == all@[k]);
                    }
                    assert(doors@[doors@.len() - 1] == p);
                    assert(grid_index(map.width as int, all@[i as int]) == i as int);
                    assert(is_door_spot(map.tiles@, map.width as int, map.height as int, p));
                    assert(forall|j: int| 0 <= j < before.len() ==> doors@[j] == before[j]);
                    assert forall|j: int| 0 <= j < doors@.len() implies #[trigger] map.in_bounds(doors@[j]) && is_door_spot(map.tiles@, map.width as int, map.height as int, doors@[j])
                        && grid_index(map.width as int, doors@[j]) < i + 1 by {
                        if j < before.len() {
                            assert(map.in_bounds(before[j]));
                        }
                    }
                    assert forall|j: int, k: int| 0 <= j < k < doors@.len() implies grid_index(map.width as int, #[trigger] doors@[j])
                        < grid_index(map.width as int, #[trigger] doors@[k]) by {
                        assert(map.in_bounds(before[j]));
                        if k < before.len() {
                            assert(grid_index(map.width as int, before[j]) < grid_index(map.width as int, before[k]));
                        }
                    }
                }
            }
        }
        proof {
            let sub = all@.subrange(0, i as int + 1);
            assert(sub.drop_last() =~= all@.subrange(0, i as int));
            assert(sub.last() == p);
            assert(doors@ == sub.filter(door_spot_pred(map.tiles@, map.width as int, map.height as int))) by {
                reveal(Seq::filter);
            }
            assert forall|k: int| 0 <= k < i + 1 && is_door_spot(map.tiles@, map.width as int, map.height as int, #[trigger] all@[k]) implies doors@.contains(all@[k]) by {
                if k == i {
                    assert(doors@[doors@.len() - 1] == all@[k]);
                }
            }
        }
        let ghost d0 = doors@;
        i = i + 1;
        assert forall|j: int| 0 <= j < doors@.len() implies #[trigger] map.in_bounds(doors@[j])
            && is_door_spot(map.tiles@, map.width as int, map.height as int, doors@[j])
            && grid_index(map.width as int, doors@[j]) < i by {
            assert(map.in_bounds(d0[j]));
        }
    }
    proof {
        assert forall|p: Position| map.in_bounds(p) && is_door_spot(map.tiles@, map.width as int, map.height as int, p) implies #[trigger] doors@.contains(p) by {
            assert(all@.contains(p));
            let k = choose|k: int| 0 <= k < all@.len() && all@[k] == p;
            assert(is_door_spot(map.tiles@, map.width as int, map.height as int, all@[k]));
        }
    }
    assert(all@.subrange(0, all@.len() as int) =~= all@);
    doors
}

/// Floor tiles far enough from the start and the exit to hold a hostile, in
/// row-major order.
#[verifier::spinoff_prover]
fn spawn_floor(map: &DungeonMap) -> (floor: Vec<Position>)
    requires
        0 <= map.player_start.x < 200 && 0 <= map.player_start.y < 120,
        0 <= map.exit.x < 200 && 0 <= map.exit.y < 120,
    ensures
        forall|j: int| 0 <= j < floor@.len() ==> {
            let p = #[trigger] floor@[j];
            &&& map.tile_is(p, Tile::Floor)
            &&& p != map.player_start
            &&& cheb(p, map.player_start) >= 6
            &&& cheb(p, map.exit) >= 2
        },
        row_major_selection(*map, floor@, spawn_spot_pred(map.tiles@, map.width as int, map.height as int, map.player_start, map.exit)),
        floor@ == grid_positions(map.width as int, map.height as int).filter(spawn_spot_pred(map.tiles@, map.width as int, map.height as int, map.player_start, map.exit)),
{
    let all = map.positions();
    let mut floor: Vec<Position> = Vec::new();
    let mut i: usize = 0;
    while i < all.len()
        invariant
            i <= all@.len(),
            0 <= map.player_start.x < 200 && 0 <= map.player_start.y < 120,
            0 <= map.exit.x < 200 && 0 <= map.exit.y < 120,
            forall|j: int| 0 <= j < all@.len() ==> grid_index(map.width as int, #[trigger] all@[j]) == j
                && map.in_bounds(all@[j]),
            forall|p: Position| #[trigger] all@.contains(p) <==> map.in_bounds(p),
            all@ == grid_positions(map.width as int, map.height as int),
            floor@ == all@.subrange(0, i as int).filter(spawn_spot_pred(map.tiles@, map.width as int, map.height as int, map.player_start, map.exit)),
            forall|j: int| 0 <= j < floor@.len() ==> #[trigger] map.in_bounds(floor@[j]) && is_spawn_spot(map.tiles@, map.width as int, map.height as int, map.player_start, map.exit, floor@[j])
                && grid_index(map.width as int, floor@[j]) < i,
            forall|j: int, k: int| 0 <= j < k < floor@.len() ==> grid_index(map.width as int, #[trigger] floor@[j])
                < grid_index(map.width as int, #[trigger] floor@[k]),
            forall|k: int| 0 <= k < i && is_spawn_spot(map.tiles@, map.width as int, map.height as int, map.player_start, map.exit, #[trigger] all@[k]) ==> floor@.contains(all@[k]),
        decreases all@.len() - i,
    {
        let p = all[i];
        assert(map.in_bounds(all@[i as int]));
        let ghost before = floor@;
        if is_floor(map, p) && p != map.player_start && p.chebyshev_distance(map.player_start) >= 6
            && p.chebyshev_distance(map.exit) >= 2
        {
            floor.push(p);
            proof {
                assert forall|k: int| 0 <= k < i && is_spawn_spot(map.tiles@, map.width as int, map.height as int, map.player_start, map.exit, #[trigger] all@[k]) implies floor@.contains(all@[k]) by {
                    assert(before.contains(all@[k]));
                    let m = choose|m: int| 0 <= m < before.len() && before[m] == all@[k];
                    assert(floor@[m] == all@[k]);
                }
                assert(floor@[floor@.len() - 1] == p);
                assert(grid_index(map.width as int, all@[i as int]) == i as int);
                assert(is_spawn_spot(map.tiles@, map.width as int, map.height as int, map.player_start, map.exit, p));
                assert(forall|j: int| 0 <= j < before.len() ==> floor@[j] == before[j]);
                assert forall|j: int| 0 <= j < floor@.len() implies #[trigger] map.in_bounds(floor@[j]) && is_spawn_spot(map.tiles@, map.width as int, map.height as int, map.player_start, map.exit, floor@[j])
                    && grid_index(map.width as int, floor@[j]) < i + 1 by {
                    if j < before.len() {
                        assert(map.in_bounds(before[j]));
                    }
                }
                assert forall|j: int, k: int| 0 <= j < k < floor@.len() implies grid_index(map.width as int, #[trigger] floor@[j])
                    < grid_index(map.width as int, #[trigger] floor@[k]) by {
                    assert(map.in_bounds(before[j]));
                    if k < before.len() {
                        assert(grid_index(map.width as int, before[j]) < grid_index(map.width as int, before[k]));
                    }
                }
            }
        }
        proof {
            let sub = all@.subrange(0, i as int + 1);
            assert(sub.drop_last() =~= all@.subrange(0, i as int));
            assert(sub.last() == p);
            assert(floor@ == sub.filter(spawn_spot_pred(map.tiles@, map.width as int, map.height as int, map.player_start, map.exit))) by {
                reveal(Seq::filter);
            }
            assert forall|k: int| 0 <= k < i + 1 && is_spawn_spot(map.tiles@, map.width as int, map.height as int, map.player_start, map.exit, #[trigger] all@[k]) implies floor@.contains(all@[k]) by {
                if k == i {
                    assert(floor@[floor@.len() - 1] == all@[k]);
                }
            }
        }
        let ghost f0 = floor@;
        i = i + 1;
        assert forall|j: int| 0 <= j < floor@.len() implies #[trigger] map.in_bounds(floor@[j]) && is_spawn_spot(map.tiles@, map.width as int, map.height as int, map.player_start, map.exit, floor@[j])
            && grid_index(map.width as int, floor@[j]) < i by {
            assert(map.in_bounds(f0[j]));
        }
    }
    proof {
        assert forall|p: Position| map.in_bounds(p) && is_spawn_spot(map.tiles@, map.width as int, map.height as int, map.player_start, map.exit, p) implies #[trigger] floor@.contains(p) by {
            assert(all@.contains(p));
            let k = choose|k: int| 0 <= k < all@.len() && all@[k] == p;
            assert(is_spawn_spot(map.tiles@, map.width as int, map.height as int, map.player_start, map.exit, all@[k]));
        }
    }
    assert(all@.subrange(0, all@.len() as int) =~= all@);
    floor
}

} // verus!
