//! Field-of-view discovery and terrain-aware line of sight.

use crate::world::{opaque, walkable, DungeonMap, Position, Tile};
use vstd::prelude::*;

verus! {

/// Coordinates small enough for the sight-line arithmetic.
pub open spec fn coords_small(p: Position) -> bool {
    -0x10_0000 <= p.x <= 0x10_0000 && -0x10_0000 <= p.y <= 0x10_0000
}

pub open spec fn sign(v: int) -> int {
    if v > 0 { 1 } else if v < 0 { -1 } else { 0 }
}

/// Division rounding toward zero, for a positive divisor.
pub open spec fn trunc_div(a: int, b: int) -> int {
    if a >= 0 { a / b } else { -((-a) / b) }
}

/// Number of steps of the sight line from `from` to `to`.
pub open spec fn los_steps(from: Position, to: Position) -> int {
    if abs(to.x - from.x) >= abs(to.y - from.y) { abs(to.x - from.x) } else { abs(to.y - from.y) }
}

pub open spec fn abs(v: int) -> int {
    if v < 0 { -v } else { v }
}

/// Offset along one axis of the rounded sight-line point at `step`.
pub open spec fn los_offset(d: int, step: int, steps: int) -> int {
    trunc_div(d * step + (steps / 2) * sign(d), steps)
}

/// The rounded sight-line point at `step` (1 through the step count).
pub open spec fn los_point(from: Position, to: Position, step: int) -> Position {
    let steps = los_steps(from, to);
    Position {
        x: (from.x + los_offset(to.x - from.x, step, steps)) as i32,
        y: (from.y + los_offset(to.y - from.y, step, steps)) as i32,
    }
}

/// The point before `step` on the sight line.
pub open spec fn los_previous(from: Position, to: Position, step: int) -> Position {
    if step <= 1 { from } else { los_point(from, to, step - 1) }
}

/// Step `step` of the sight line crosses a blocking corner or lands on a
/// blocking tile short of the target.
pub open spec fn los_blocked_at(map: &DungeonMap, from: Position, to: Position, step: int) -> bool {
    let p = los_point(from, to, step);
    let q = los_previous(from, to, step);
    ||| (p.x != q.x && p.y != q.y && (map.blocks_sight_at(Position { x: p.x, y: q.y })
        || map.blocks_sight_at(Position { x: q.x, y: p.y })))
    ||| (p != to && map.blocks_sight_at(p))
}

/// Nothing opaque stands between `from` and `to`; diagonal steps may not
/// squeeze between two corners.
pub open spec fn line_of_sight(map: &DungeonMap, from: Position, to: Position) -> bool {
    from == to || forall|s: int| 1 <= s <= los_steps(from, to) ==> !#[trigger] los_blocked_at(map, from, to, s)
}

proof fn lemma_offset_bounds(d: int, step: int, steps: int)
    requires
        1 <= step <= steps,
        abs(d) <= steps,
    ensures
        abs(los_offset(d, step, steps)) <= abs(d),
        sign(los_offset(d, step, steps)) * sign(d) >= 0,
{
    let h = steps / 2;
    assert(0 <= h < steps);
    if d > 0 {
        let n = d * step + h;
        assert(0 <= n < (d + 1) * steps) by (nonlinear_arith)
            requires d > 0, 1 <= step <= steps, 0 <= h < steps, n == d * step + h;
        assert(n / steps <= d) by (nonlinear_arith)
            requires 0 <= n < (d + 1) * steps, steps >= 1;
        assert(n / steps >= 0) by (nonlinear_arith)
            requires 0 <= n, steps >= 1;
    } else if d < 0 {
        let n = (-d) * step + h;
        assert(0 <= n < ((-d) + 1) * steps) by (nonlinear_arith)
            requires d < 0, 1 <= step <= steps, 0 <= h < steps, n == (-d) * step + h;
        assert(n / steps <= -d) by (nonlinear_arith)
            requires 0 <= n < ((-d) + 1) * steps, steps >= 1;
        assert(n / steps >= 0) by (nonlinear_arith)
            requires 0 <= n, steps >= 1;
        assert(d * step + h * sign(d) == -n) by (nonlinear_arith)
            requires d < 0, n == (-d) * step + h, sign(d) == -1;
    } else {
        assert(d * step + h * sign(d) == 0) by (nonlinear_arith)
            requires d == 0;
    }
}

/// Truncating division of a small value by a positive step count.
fn trunc_div_exec(a: i64, b: i64) -> (q: i64)
    requires
        b >= 1,
        -0x4000_0000_0000 <= a <= 0x4000_0000_0000,
    ensures
        q == trunc_div(a as int, b as int),
{
    if a >= 0 {
        a / b
    } else {
        let m = -a;
        let r = m / b;
        -r
    }
}

/// Whether the tile at `p` blocks sight (off-map positions do).
fn blocks_sight(map: &DungeonMap, p: Position) -> (b: bool)
    ensures
        b == map.blocks_sight_at(p),
{
    match map.tile(p) {
        Some(t) => t.is_opaque(),
        None => true,
    }
}

/// Whether `to` is visible from `from` across `map`.
pub fn has_line_of_sight(map: &DungeonMap, from: Position, to: Position) -> (b: bool)
    requires
        coords_small(from),
        coords_small(to),
    ensures
        b == line_of_sight(map, from, to),
{
    if from == to {
        return true;
    }
    let dx: i64 = to.x as i64 - from.x as i64;
    let dy: i64 = to.y as i64 - from.y as i64;
    let adx: i64 = if dx < 0 { -dx } else { dx };
    let ady: i64 = if dy < 0 { -dy } else { dy };
    let steps: i64 = if adx >= ady { adx } else { ady };
    let sx: i64 = if dx > 0 { 1 } else if dx < 0 { -1 } else { 0 };
    let sy: i64 = if dy > 0 { 1 } else if dy < 0 { -1 } else { 0 };
    let half: i64 = steps / 2;
    assert(steps == los_steps(from, to));
    assert(steps >= 1);
    let mut previous = from;
    let mut step: i64 = 1;
    while step <= steps
        invariant
            coords_small(from),
            coords_small(to),
            from != to,
            dx == to.x - from.x,
            dy == to.y - from.y,
            steps == los_steps(from, to),
            steps >= 1,
            steps <= 0x20_0000,
            half == steps / 2,
            sx == sign(dx as int),
            sy == sign(dy as int),
            1 <= step <= steps + 1,
            previous == los_previous(from, to, step as int),
            coords_small(previous),
            forall|s: int| 1 <= s < step ==> !#[trigger] los_blocked_at(map, from, to, s),
        decreases steps + 1 - step,
    {
        proof {
            lemma_offset_bounds(dx as int, step as int, steps as int);
            lemma_offset_bounds(dy as int, step as int, steps as int);
            assert(-0x2000_0000_0000 <= dx * step <= 0x2000_0000_0000) by (nonlinear_arith)
                requires -0x20_0000 <= dx <= 0x20_0000, 1 <= step <= 0x20_0001;
            assert(-0x2000_0000_0000 <= dy * step <= 0x2000_0000_0000) by (nonlinear_arith)
                requires -0x20_0000 <= dy <= 0x20_0000, 1 <= step <= 0x20_0001;
        }
        let ox = trunc_div_exec(dx * step + half * sx, steps);
        let oy = trunc_div_exec(dy * step + half * sy, steps);
        let x = (from.x as i64 + ox) as i32;
        let y = (from.y as i64 + oy) as i32;
        let position = Position::new(x, y);
        assert(position == los_point(from, to, step as int));
        if position.x != previous.x && position.y != previous.y {
            let side_x = Position::new(position.x, previous.y);
            let side_y = Position::new(previous.x, position.y);
            if blocks_sight(map, side_x) || blocks_sight(map, side_y) {
                assert(los_blocked_at(map, from, to, step as int));
                return false;
            }
        }
        if position != to && blocks_sight(map, position) {
            assert(los_blocked_at(map, from, to, step as int));
            return false;
        }
        assert(!los_blocked_at(map, from, to, step as int));
        previous = position;
        step = step + 1;
    }
    true
}

/// Ground a creature can stand on never blocks sight, and walls and closed
/// doors always do.
pub proof fn lemma_standing_ground_is_see_through(t: Tile)
    ensures
        walkable(t) ==> !opaque(t),
        (t == Tile::Wall || t == Tile::ClosedDoor) ==> opaque(t),
{
}

/// On a sight line along one row, step `s` is `s` tiles from the start
/// toward the target.
proof fn lemma_row_point(from: Position, to: Position, s: int)
    requires
        from.y == to.y,
        from.x != to.x,
        coords_small(from),
        coords_small(to),
        0 <= s <= los_steps(from, to),
    ensures
        s >= 1 ==> los_point(from, to, s) == (Position {
            x: (from.x + s * sign(to.x - from.x)) as i32,
            y: from.y,
        }),
        los_previous(from, to, s + 1) == (Position {
            x: (from.x + s * sign(to.x - from.x)) as i32,
            y: from.y,
        }),
{
    let d = to.x - from.x;
    let steps = los_steps(from, to);
    assert(steps == abs(d));
    assert(steps >= 1);
    assert forall|k: int| 1 <= k <= steps implies #[trigger] los_point(from, to, k) == (Position {
        x: (from.x + k * sign(d)) as i32,
        y: from.y,
    }) by {
        let h = steps / 2;
        assert(0 <= h < steps);
        assert(los_offset(0, k, steps) == 0) by {
            assert(0 * k + h * sign(0) == 0);
            assert(trunc_div(0, steps) == 0);
        }
        if d > 0 {
            assert(d * k + h * sign(d) == d * k + h);
            assert(d * k >= 0 && d * k == k * d) by (nonlinear_arith)
                requires d > 0, k >= 1;
            vstd::arithmetic::div_mod::lemma_fundamental_div_mod_converse(d * k + h, d, k, h);
            assert(trunc_div(d * k + h, steps) == k);
            assert(los_offset(d, k, steps) == k * sign(d));
        } else {
            assert(d * k + h * sign(d) == d * k - h);
            assert(d * k - h < 0) by (nonlinear_arith)
                requires d < 0, k >= 1, h >= 0;
            assert(-(d * k - h) == k * steps + h) by (nonlinear_arith)
                requires steps == -d;
            vstd::arithmetic::div_mod::lemma_fundamental_div_mod_converse(k * steps + h, steps, k, h);
            assert(trunc_div(d * k - h, steps) == -k);
            assert(los_offset(d, k, steps) == k * sign(d));
        }
        assert(los_offset(to.y - from.y, k, steps) == 0);
    }
    if s >= 1 {
        assert(los_point(from, to, s) == (Position { x: (from.x + s * sign(d)) as i32, y: from.y }));
    }
    if s + 1 <= 1 {
        assert(s == 0);
        assert(los_previous(from, to, s + 1) == from);
    } else {
        assert(los_previous(from, to, s + 1) == los_point(from, to, s));
    }
}

/// Sight runs along a row over ground a creature can stand on: when every
/// tile strictly between two positions of one row is floor, an open door or
/// the exit, the far position is in sight, whatever it holds.
pub proof fn lemma_clear_row_in_sight(map: &DungeonMap, from: Position, to: Position)
    requires
        from.y == to.y,
        coords_small(from),
        coords_small(to),
        forall|x: int| (if from.x < to.x { from.x < x < to.x } else { to.x < x < from.x })
            ==> #[trigger] map.is_walkable_at(Position { x: x as i32, y: from.y }),
    ensures
        line_of_sight(map, from, to),
{
    if from != to {
        let steps = los_steps(from, to);
        let d = to.x - from.x;
        assert forall|s: int| 1 <= s <= steps implies !#[trigger] los_blocked_at(map, from, to, s) by {
            lemma_row_point(from, to, s);
            lemma_row_point(from, to, s - 1);
            let p = los_point(from, to, s);
            let x = from.x + s * sign(d);
            assert(p == Position { x: x as i32, y: from.y });
            if s < steps {
                assert(if from.x < to.x { from.x < x < to.x } else { to.x < x < from.x }) by (nonlinear_arith)
                    requires
                        1 <= s < steps,
                        steps == abs(d),
                        d == to.x - from.x,
                        d != 0,
                        x == from.x + s * sign(d);
                assert(map.is_walkable_at(Position { x: x as i32, y: from.y }));
                let t = map.tile_at(Position { x: x as i32, y: from.y }).unwrap();
                assert(walkable(t));
                assert(!opaque(t));
                assert(!map.blocks_sight_at(p));
            } else {
                assert(s * sign(d) == d) by (nonlinear_arith)
                    requires s == steps, steps == abs(d), d != 0;
                assert(p == to);
            }
        }
    }
}

/// A diagonal step of a sight line past a corner that blocks sight cuts
/// the line: the far end is out of sight.
pub proof fn lemma_corner_blocks_sight(map: &DungeonMap, from: Position, to: Position, s: int)
    requires
        1 <= s <= los_steps(from, to),
        ({
            let p = los_point(from, to, s);
            let q = los_previous(from, to, s);
            &&& p.x != q.x
            &&& p.y != q.y
            &&& (map.blocks_sight_at(Position { x: p.x, y: q.y }) || map.blocks_sight_at(Position { x: q.x, y: p.y }))
        }),
    ensures
        !line_of_sight(map, from, to),
{
    assert(from != to);
    assert(los_blocked_at(map, from, to, s));
}

/// Between diagonal neighbours, sight passes exactly when neither of the
/// two corner tiles blocks it.
pub proof fn lemma_diagonal_neighbour_in_sight(map: &DungeonMap, from: Position, to: Position)
    requires
        coords_small(from),
        coords_small(to),
        abs(to.x - from.x) == 1,
        abs(to.y - from.y) == 1,
    ensures
        line_of_sight(map, from, to) <==> !map.blocks_sight_at(Position { x: to.x, y: from.y })
            && !map.blocks_sight_at(Position { x: from.x, y: to.y }),
{
    assert(los_steps(from, to) == 1);
    let dx = to.x - from.x;
    let dy = to.y - from.y;
    assert(los_offset(dx, 1, 1) == dx) by {
        assert(dx * 1 + (1int / 2) * sign(dx) == dx);
        if dx >= 0 {
            vstd::arithmetic::div_mod::lemma_fundamental_div_mod_converse(dx, 1, dx, 0);
        } else {
            vstd::arithmetic::div_mod::lemma_fundamental_div_mod_converse(-dx, 1, -dx, 0);
        }
    }
    assert(los_offset(dy, 1, 1) == dy) by {
        assert(dy * 1 + (1int / 2) * sign(dy) == dy);
        if dy >= 0 {
            vstd::arithmetic::div_mod::lemma_fundamental_div_mod_converse(dy, 1, dy, 0);
        } else {
            vstd::arithmetic::div_mod::lemma_fundamental_div_mod_converse(-dy, 1, -dy, 0);
        }
    }
    assert(los_point(from, to, 1) == to);
    assert(los_previous(from, to, 1) == from);
    if line_of_sight(map, from, to) {
        assert(!los_blocked_at(map, from, to, 1));
    } else {
        let s = choose|s: int| 1 <= s <= los_steps(from, to) && #[trigger] los_blocked_at(map, from, to, s);
        assert(s == 1);
    }
}

} // verus!
