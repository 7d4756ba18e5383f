use vstd::prelude::*;
use crate::arith::{
    abs, clamped_i32, integer_sqrt_up, isqrt_up, lemma_portion_bounded, lemma_sqrt_up,
    lemma_square_monotonic, lemma_square_of_negation, lemma_square_strict, portion,
};

verus! {

/// Length of one world unit.
pub const UNIT: i64 = 1_000_000;

/// Edge length of a grid cell: 32 world units.
pub const CELL_SIZE: i64 = 32_000_000;

/// Half the edge length of a grid cell.
pub const HALF_CELL_SIZE: i64 = 16_000_000;

/// A cell of the grid.
#[derive(Clone, Copy, Debug, PartialEq, Eq, Structural)]
pub struct Coord {
    pub x: i32,
    pub y: i32,
}

/// A point of the world.
#[derive(Clone, Copy, Debug, PartialEq, Eq, Structural)]
pub struct WorldPosition {
    pub x: i64,
    pub y: i64,
}

/// A displacement between two points of the world; also used for
/// directions and, per millisecond, for velocities.
#[derive(Clone, Copy, Debug, PartialEq, Eq, Structural)]
pub struct Offset {
    pub dx: i64,
    pub dy: i64,
}

impl Coord {
    /// The cell in column `x` and row `y`.
    pub fn new(x: i32, y: i32) -> (c: Coord)
        ensures
            c.x == x,
            c.y == y,
    {
        Coord { x, y }
    }

    /// The world position of the centre of this cell.
    pub open spec fn world_spec(self) -> WorldPosition {
        WorldPosition { x: (self.x * CELL_SIZE) as i64, y: (self.y * CELL_SIZE) as i64 }
    }

    /// The world position of the centre of this cell: the cell scaled by
    /// `CELL_SIZE`.
    pub fn world(self) -> (p: WorldPosition)
        ensures
            p == self.world_spec(),
            p.x == self.x * CELL_SIZE,
            p.y == self.y * CELL_SIZE,
    {
        WorldPosition { x: self.x as i64 * CELL_SIZE, y: self.y as i64 * CELL_SIZE }
    }

    /// Manhattan distance between two cells, in cells.
    pub open spec fn manhattan(self, other: Coord) -> int {
        abs(other.x - self.x) + abs(other.y - self.y)
    }
}

/// Square of the Euclidean distance between two points.
pub open spec fn dist_sq(a: WorldPosition, b: WorldPosition) -> int {
    (a.x - b.x) * (a.x - b.x) + (a.y - b.y) * (a.y - b.y)
}

/// The cell in whose square `v` lies on one axis. The square of a cell is
/// centred on the cell's world position, so this is `v`, shifted by half
/// a cell and divided by the cell size, rounded down.
pub open spec fn cell_index(v: int) -> int {
    (v + HALF_CELL_SIZE) / (CELL_SIZE as int)
}

/// The cell of a point that lies `v` from the centre of the window, on one
/// axis.
fn cell_on_axis(v: i128) -> (cell: i32)
    requires
        -0x1_0000_0000_0000_0000 <= v <= 0x1_0000_0000_0000_0000,
    ensures
        cell == clamped_i32(cell_index(v as int)),
{
    let shifted: i128 = v + HALF_CELL_SIZE as i128;
    let quotient: i128 = shifted / (CELL_SIZE as i128);
    let floor: i128 = if shifted % (CELL_SIZE as i128) < 0 {
        quotient - 1
    } else {
        quotient
    };
    if floor > i32::MAX as i128 {
        i32::MAX
    } else if floor < i32::MIN as i128 {
        i32::MIN
    } else {
        floor as i32
    }
}

/// The cell under the cursor. `cursor` is where the cursor stands in the
/// window, measured from a corner of it; the middle of the window, at
/// `half_width` and `half_height`, shows the origin of the world. Cells
/// beyond the range of `i32` are answered with the last cell in range.
pub fn cursor_coord(cursor: WorldPosition, half_width: i64, half_height: i64) -> (cell: Coord)
    ensures
        cell.x == clamped_i32(cell_index(cursor.x - half_width)),
        cell.y == clamped_i32(cell_index(cursor.y - half_height)),
{
    Coord {
        x: cell_on_axis(cursor.x as i128 - half_width as i128),
        y: cell_on_axis(cursor.y as i128 - half_height as i128),
    }
}

/// The cell under a cursor that stands on the centre of a cell is that
/// cell.
pub proof fn lemma_cell_of_centre(cell: Coord)
    ensures
        clamped_i32(cell_index(cell.world_spec().x as int)) == cell.x,
        clamped_i32(cell_index(cell.world_spec().y as int)) == cell.y,
{
}

impl WorldPosition {
    /// The displacement that leads from `self` to `to`.
    pub open spec fn offset_to(self, to: WorldPosition) -> Offset {
        Offset { dx: (to.x - self.x) as i64, dy: (to.y - self.y) as i64 }
    }
}

/// One component of a displacement that is brought to the length `to`,
/// against the component `span` that it is taken from: it has the sign of
/// that component, stays within `to`, and its share of `to` is no larger
/// than the component's share of the length, and smaller by less than one.
proof fn lemma_component_scaled(span: int, to: int, length: int)
    requires
        0 < length,
        abs(span) <= length,
        0 <= to,
    ensures
        abs(portion(span, to, length)) <= to,
        span >= 0 ==> portion(span, to, length) >= 0,
        span <= 0 ==> portion(span, to, length) <= 0,
        portion(span, to, length) * portion(span, to, length) * (length * length) <= to * to * (
        span * span),
        (abs(portion(span, to, length)) + 1) * length > abs(span) * to,
{
    let size = abs(span);
    let share = size * to / length;
    lemma_portion_bounded(size, to, length);
    assert(size == 0 ==> size * to == 0) by (nonlinear_arith);
    assert(0int / length == 0);
    vstd::arithmetic::div_mod::lemma_fundamental_div_mod(size * to, length);
    assert(share * length <= size * to) by (nonlinear_arith)
        requires
            size * to == length * share + (size * to) % length,
            0 <= (size * to) % length,
    ;
    assert(0 <= share * length) by (nonlinear_arith)
        requires
            0 <= share,
            0 < length,
    ;
    assert((share + 1) * length > size * to) by (nonlinear_arith)
        requires
            size * to == length * share + (size * to) % length,
            (size * to) % length < length,
    ;
    lemma_square_monotonic(share * length, size * to);
    assert((share * length) * (share * length) == share * share * (length * length))
        by (nonlinear_arith);
    assert((size * to) * (size * to) == to * to * (span * span)) by (nonlinear_arith)
        requires
            size == span || size == -span,
    ;
    let part = portion(span, to, length);
    assert(part == share || part == -share);
    assert(part * part == share * share) by (nonlinear_arith)
        requires
            part == share || part == -share,
    ;
}

/// A displacement that was brought to the length `to` is no longer than
/// `to`. Each component has the sign that it had, and falls short of the
/// old component, brought to `to` by the rounded length, by less than one.
/// Only the displacement without length has a rounded length of zero.
pub proof fn lemma_scaled_length(offset: Offset, to: int)
    requires
        0 <= to <= i64::MAX,
    ensures
        ({
            let length = integer_sqrt_up(offset.length_squared_spec());
            let scaled = offset.scaled_to_spec(to);
            &&& scaled.length_squared_spec() <= to * to
            &&& -to <= scaled.dx <= to
            &&& -to <= scaled.dy <= to
            &&& offset.dx >= 0 ==> scaled.dx >= 0
            &&& offset.dx <= 0 ==> scaled.dx <= 0
            &&& offset.dy >= 0 ==> scaled.dy >= 0
            &&& offset.dy <= 0 ==> scaled.dy <= 0
            &&& length > 0 ==> (abs(scaled.dx as int) + 1) * length > abs(offset.dx as int) * to
            &&& length > 0 ==> (abs(scaled.dy as int) + 1) * length > abs(offset.dy as int) * to
            &&& length == 0 <==> offset.dx == 0 && offset.dy == 0
        }),
{
    let dx = offset.dx as int;
    let dy = offset.dy as int;
    let n = offset.length_squared_spec();
    lemma_square_of_negation(dx);
    lemma_square_of_negation(dy);
    lemma_sqrt_up(n);
    let length = integer_sqrt_up(n);
    if dx != 0 {
        lemma_square_monotonic(1, abs(dx));
    }
    if dy != 0 {
        lemma_square_monotonic(1, abs(dy));
    }
    assert(dx == 0 ==> dx * dx == 0) by (nonlinear_arith);
    assert(dy == 0 ==> dy * dy == 0) by (nonlinear_arith);
    assert(to * to >= 0) by (nonlinear_arith);
    if length != 0 {
        if abs(dx) > length {
            lemma_square_strict(length, abs(dx));
        }
        if abs(dy) > length {
            lemma_square_strict(length, abs(dy));
        }
        lemma_component_scaled(dx, to, length);
        lemma_component_scaled(dy, to, length);
        let sx = portion(dx, to, length);
        let sy = portion(dy, to, length);
        let square = length * length;
        assert(square > 0) by (nonlinear_arith)
            requires
                square == length * length,
                length > 0,
        ;
        assert((sx * sx + sy * sy) * square <= to * to * square) by (nonlinear_arith)
            requires
                sx * sx * square <= to * to * (dx * dx),
                sy * sy * square <= to * to * (dy * dy),
                dx * dx + dy * dy <= square,
                to * to >= 0,
        ;
        assert(sx * sx + sy * sy <= to * to) by (nonlinear_arith)
            requires
                (sx * sx + sy * sy) * square <= to * to * square,
                square > 0,
        ;
    }
}

/// One component of a displacement of the given length, brought to the
/// length `to`.
fn component_scaled(span: i64, to: u32, length: u128) -> (v: i64)
    requires
        0 < length <= 0x1_0000_0000_0000_0000,
        -length <= span <= length,
    ensures
        v == portion(span as int, to as int, length as int),
        -to <= v <= to,
{
    proof {
        let magnitude = if span >= 0 {
            span as int
        } else {
            -span as int
        };
        lemma_portion_bounded(magnitude, to as int, length as int);
        assert(magnitude * to <= 0x8000_0000_0000_0000 * 0x1_0000_0000) by (nonlinear_arith)
            requires
                0 <= magnitude <= 0x8000_0000_0000_0000,
                0 <= to <= 0x1_0000_0000,
        ;
        assert((-span) * to == -(span * to)) by (nonlinear_arith);
    }
    (span as i128 * (to as i128) / (length as i128)) as i64
}

impl Offset {
    /// Square of the length of this displacement.
    pub open spec fn length_squared_spec(self) -> int {
        self.dx * self.dx + self.dy * self.dy
    }

    /// This displacement brought to the length `to`: each component is
    /// taken times `to` and divided by the length of the displacement,
    /// which is the square root of its squared length, rounded up; the
    /// quotient is rounded towards zero. So the result is never longer
    /// than `to`. The displacement without length is left as it is.
    pub open spec fn scaled_to_spec(self, to: int) -> Offset {
        let length = integer_sqrt_up(self.length_squared_spec());
        if length == 0 {
            Offset { dx: 0, dy: 0 }
        } else {
            Offset {
                dx: portion(self.dx as int, to, length) as i64,
                dy: portion(self.dy as int, to, length) as i64,
            }
        }
    }

    /// The direction of this displacement: the displacement brought to
    /// the length of one world unit, and never longer than that.
    pub open spec fn normalized_spec(self) -> Offset {
        self.scaled_to_spec(UNIT as int)
    }

    /// Brings this displacement to the length `to`.
    pub fn scaled_to(self, to: u32) -> (scaled: Offset)
        ensures
            scaled == self.scaled_to_spec(to as int),
            scaled.length_squared_spec() <= to * to,
            -to <= scaled.dx <= to,
            -to <= scaled.dy <= to,
    {
        let length = isqrt_up(self.length_squared());
        proof {
            let dx = self.dx as int;
            let dy = self.dy as int;
            lemma_scaled_length(self, to as int);
            lemma_square_of_negation(dx);
            lemma_square_of_negation(dy);
            lemma_sqrt_up(self.length_squared_spec());
            if dx > length {
                lemma_square_strict(length as int, dx);
            }
            if -dx > length {
                lemma_square_strict(length as int, -dx);
            }
            if dy > length {
                lemma_square_strict(length as int, dy);
            }
            if -dy > length {
                lemma_square_strict(length as int, -dy);
            }
        }
        if length == 0 {
            Offset { dx: 0, dy: 0 }
        } else {
            Offset {
                dx: component_scaled(self.dx, to, length),
                dy: component_scaled(self.dy, to, length),
            }
        }
    }

    /// The direction of this displacement: the displacement brought to
    /// the length of one world unit.
    pub fn normalized(self) -> (direction: Offset)
        ensures
            direction == self.normalized_spec(),
            direction.length_squared_spec() <= UNIT * UNIT,
            -UNIT <= direction.dx <= UNIT,
            -UNIT <= direction.dy <= UNIT,
    {
        self.scaled_to(UNIT as u32)
    }

    /// Square of the length of this displacement.
    pub fn length_squared(self) -> (d: u128)
        ensures
            d == self.length_squared_spec(),
    {
        let dx: i128 = self.dx as i128;
        let dy: i128 = self.dy as i128;
        proof {
            lemma_square_of_negation(dx as int);
            lemma_square_of_negation(dy as int);
            if dx >= 0 {
                lemma_square_monotonic(dx as int, 0x8000_0000_0000_0000);
            } else {
                lemma_square_monotonic(-dx as int, 0x8000_0000_0000_0000);
            }
            if dy >= 0 {
                lemma_square_monotonic(dy as int, 0x8000_0000_0000_0000);
            } else {
                lemma_square_monotonic(-dy as int, 0x8000_0000_0000_0000);
            }
        }
        let sx: i128 = dx * dx;
        let sy: i128 = dy * dy;
        sx as u128 + sy as u128
    }
}

impl WorldPosition {
    /// The displacement from `self` to `to` where the two lie at most
    /// `radius` apart, and `None` where they lie further apart.
    pub fn offset_within(self, to: WorldPosition, radius: u32) -> (r: Option<Offset>)
        ensures
            dist_sq(self, to) <= radius * radius ==> r == Some(self.offset_to(to)),
            dist_sq(self, to) > radius * radius ==> r.is_none(),
            r matches Some(d) ==> d.dx == to.x - self.x && d.dy == to.y - self.y
                && d.length_squared_spec() == dist_sq(self, to),
    {
        let dx: i128 = to.x as i128 - self.x as i128;
        let dy: i128 = to.y as i128 - self.y as i128;
        let limit: i128 = radius as i128;
        proof {
            lemma_square_of_negation(dx as int);
            lemma_square_of_negation(dy as int);
            lemma_square_monotonic(0, limit as int);
            lemma_square_monotonic(limit as int, 0x1_0000_0000);
        }
        if dx > limit || dx < -limit || dy > limit || dy < -limit {
            proof {
                if dx > limit {
                    lemma_square_strict(limit as int, dx as int);
                }
                if dx < -limit {
                    lemma_square_strict(limit as int, -dx as int);
                }
                if dy > limit {
                    lemma_square_strict(limit as int, dy as int);
                }
                if dy < -limit {
                    lemma_square_strict(limit as int, -dy as int);
                }
            }
            return None;
        }
        proof {
            if dx >= 0 {
                lemma_square_monotonic(dx as int, limit as int);
            } else {
                lemma_square_monotonic(-dx as int, limit as int);
            }
            if dy >= 0 {
                lemma_square_monotonic(dy as int, limit as int);
            } else {
                lemma_square_monotonic(-dy as int, limit as int);
            }
        }
        let d: i128 = dx * dx + dy * dy;
        if d <= limit * limit {
            Some(Offset { dx: dx as i64, dy: dy as i64 })
        } else {
            None
        }
    }
}

} // verus!
