//! Basic values shared by every part of the library: identifiers, points, sizes and areas.
//!
//! Coordinates are machine integers. Moving a point wraps around at the ends of the integer
//! range, so that a move can always be undone by the opposite one.

use vstd::prelude::*;
use vstd::wrapping::isize_specs;

verus! {

/// Identifier of a surface. Zero is reserved and names no surface.
#[derive(Clone, Copy, Debug, PartialEq, Eq, Structural, Hash)]
pub struct SurfaceId {
    pub value: u64,
}

impl SurfaceId {
    /// True when the identifier may name a surface.
    pub open spec fn valid(self) -> bool {
        self.value != 0
    }

    /// The reserved identifier that names no surface.
    pub fn invalid() -> (sid: SurfaceId)
        ensures
            sid.value == 0,
            !sid.valid(),
    {
        SurfaceId { value: 0 }
    }

    /// Identifier with the given number.
    pub fn new(value: u64) -> (sid: SurfaceId)
        ensures
            sid.value == value,
    {
        SurfaceId { value }
    }

    /// Tells whether the identifier may name a surface.
    pub fn is_valid(&self) -> (valid: bool)
        ensures
            valid == self.valid(),
    {
        self.value != 0
    }

    /// The identifier's number.
    pub fn as_number(&self) -> (value: u64)
        ensures
            value == self.value,
    {
        self.value
    }
}

/// Identifier of a memory pool. Pools are numbered upwards from the initial identifier.
#[derive(Clone, Copy, Debug, PartialEq, Eq, Structural, Hash)]
pub struct MemoryPoolId {
    pub value: u64,
}

impl MemoryPoolId {
    /// The identifier from which numbering starts. It is never handed out itself.
    pub fn initial() -> (id: MemoryPoolId)
        ensures
            id.value == 0,
    {
        MemoryPoolId { value: 0 }
    }

    /// Advances to the next identifier and returns it.
    pub fn increment(&mut self) -> (id: MemoryPoolId)
        requires
            old(self).value < u64::MAX,
        ensures
            final(self).value == old(self).value + 1,
            id == *final(self),
    {
        self.value = self.value + 1;
        *self
    }
}

/// Identifier of a memory view. Views are numbered upwards from the initial identifier.
#[derive(Clone, Copy, Debug, PartialEq, Eq, Structural, Hash)]
pub struct MemoryViewId {
    pub value: u64,
}

impl MemoryViewId {
    /// The identifier from which numbering starts. It is never handed out itself.
    pub fn initial() -> (id: MemoryViewId)
        ensures
            id.value == 0,
    {
        MemoryViewId { value: 0 }
    }

    /// Advances to the next identifier and returns it.
    pub fn increment(&mut self) -> (id: MemoryViewId)
        requires
            old(self).value < u64::MAX,
        ensures
            final(self).value == old(self).value + 1,
            id == *final(self),
    {
        self.value = self.value + 1;
        *self
    }
}

/// A point of the plane, or the difference of two points.
#[derive(Clone, Copy, Debug, PartialEq, Eq, Structural)]
pub struct Position {
    pub x: isize,
    pub y: isize,
}

/// A displacement is written as the point it moves the origin to.
pub type Vector = Position;

impl Position {
    /// The point reached from `self` by the displacement `vector`, each coordinate wrapping.
    pub open spec fn plus(self, vector: Vector) -> Position {
        Position {
            x: isize_specs::wrapping_add(self.x, vector.x),
            y: isize_specs::wrapping_add(self.y, vector.y),
        }
    }

    /// The displacement that leads from `origin` to `self`, each coordinate wrapping.
    pub open spec fn minus(self, origin: Position) -> Vector {
        Position {
            x: isize_specs::wrapping_sub(self.x, origin.x),
            y: isize_specs::wrapping_sub(self.y, origin.y),
        }
    }

    /// The point reached from `self` by going `right` to the right and `down` downwards,
    /// each coordinate wrapping.
    pub open spec fn advanced(self, right: usize, down: usize) -> Position {
        Position {
            x: isize_specs::wrapping_add_unsigned(self.x, right),
            y: isize_specs::wrapping_add_unsigned(self.y, down),
        }
    }

    /// Point with the given coordinates.
    pub fn new(x: isize, y: isize) -> (position: Position)
        ensures
            position.x == x,
            position.y == y,
    {
        Position { x, y }
    }

    /// The origin, which is also the displacement that moves nothing.
    pub fn origin() -> (position: Position)
        ensures
            position.x == 0,
            position.y == 0,
    {
        Position { x: 0, y: 0 }
    }

    /// Moves the point by `vector`.
    pub fn moved_by(&self, vector: Vector) -> (position: Position)
        ensures
            position == self.plus(vector),
    {
        Position { x: self.x.wrapping_add(vector.x), y: self.y.wrapping_add(vector.y) }
    }

    /// The displacement that leads from `origin` to this point.
    pub fn vector_from(&self, origin: Position) -> (vector: Vector)
        ensures
            vector == self.minus(origin),
    {
        Position { x: self.x.wrapping_sub(origin.x), y: self.y.wrapping_sub(origin.y) }
    }

    /// Moves the point `right` to the right and `down` downwards.
    pub fn advanced_by(&self, right: usize, down: usize) -> (position: Position)
        ensures
            position == self.advanced(right, down),
    {
        Position {
            x: self.x.wrapping_add_unsigned(right),
            y: self.y.wrapping_add_unsigned(down),
        }
    }

    /// The nearest point of `area` to this one: the point itself when the area contains it.
    /// In a direction in which the area has no extent the point is brought to the area's
    /// position.
    pub fn casted(&self, area: &Area) -> (position: Position)
        ensures
            position == area.nearest(*self),
    {
        Position {
            x: clamp_into(self.x, area.pos.x, area.size.width),
            y: clamp_into(self.y, area.pos.y, area.size.height),
        }
    }
}

/// A move that stays within the range of the coordinates adds up as numbers do.
pub proof fn lemma_plus_exact(point: Position, vector: Vector)
    requires
        isize::MIN <= point.x + vector.x <= isize::MAX,
        isize::MIN <= point.y + vector.y <= isize::MAX,
    ensures
        point.plus(vector).x == point.x + vector.x,
        point.plus(vector).y == point.y + vector.y,
        point.plus(vector).minus(point) == vector,
{
}

/// An advance that stays within the range of the coordinates adds up as numbers do.
pub proof fn lemma_advanced_exact(point: Position, right: usize, down: usize)
    requires
        point.x + right <= isize::MAX,
        point.y + down <= isize::MAX,
    ensures
        point.advanced(right, down).x == point.x + right,
        point.advanced(right, down).y == point.y + down,
{
}

/// The number of the range that starts at `start` and holds `extent` numbers which is
/// nearest to `value`; `start` where the range is empty.
pub open spec fn clamped(value: isize, start: isize, extent: usize) -> isize {
    if extent == 0 || value < start {
        start
    } else if value >= start + extent {
        (start + extent - 1) as isize
    } else {
        value
    }
}

/// Brings `value` into the range that starts at `start` and holds `extent` numbers.
pub fn clamp_into(value: isize, start: isize, extent: usize) -> (nearest: isize)
    ensures
        nearest == clamped(value, start, extent),
        extent > 0 ==> start <= nearest < start + extent,
        extent > 0 && start <= value < start + extent ==> nearest == value,
{
    if extent == 0 || value < start {
        start
    } else {
        let end: i128 = start as i128 + extent as i128;
        if value as i128 >= end {
            start.wrapping_add_unsigned(extent - 1)
        } else {
            value
        }
    }
}

/// Width and height of a rectangle.
#[derive(Clone, Copy, Debug, PartialEq, Eq, Structural)]
pub struct Size {
    pub width: usize,
    pub height: usize,
}

impl Size {
    /// Size with the given width and height.
    pub fn new(width: usize, height: usize) -> (size: Size)
        ensures
            size.width == width,
            size.height == height,
    {
        Size { width, height }
    }
}

/// A rectangle: the position of its top left corner and its size. It holds the points from
/// its position up to, and without, the position advanced by its size.
#[derive(Clone, Copy, Debug, PartialEq, Eq, Structural)]
pub struct Area {
    pub pos: Position,
    pub size: Size,
}

impl Area {
    /// True when `point` lies in the rectangle.
    pub open spec fn holds(self, point: Position) -> bool {
        &&& self.pos.x <= point.x < self.pos.x + self.size.width
        &&& self.pos.y <= point.y < self.pos.y + self.size.height
    }

    /// The point of the rectangle nearest to `point`.
    pub open spec fn nearest(self, point: Position) -> Position {
        Position {
            x: clamped(point.x, self.pos.x, self.size.width),
            y: clamped(point.y, self.pos.y, self.size.height),
        }
    }

    /// The middle of the rectangle: its position advanced by half its size, rounded down.
    pub open spec fn center(self) -> Position {
        self.pos.advanced(self.size.width / 2, self.size.height / 2)
    }

    /// True when no coordinate of the rectangle's points leaves the integer range.
    pub open spec fn in_range(self) -> bool {
        &&& self.pos.x + self.size.width <= isize::MAX
        &&& self.pos.y + self.size.height <= isize::MAX
    }

    /// Rectangle at `pos` with size `size`.
    pub fn new(pos: Position, size: Size) -> (area: Area)
        ensures
            area.pos == pos,
            area.size == size,
    {
        Area { pos, size }
    }

    /// Tells whether `point` lies in the rectangle.
    pub fn contains(&self, point: &Position) -> (inside: bool)
        ensures
            inside == self.holds(*point),
    {
        in_span(point.x, self.pos.x, self.size.width) && in_span(
            point.y,
            self.pos.y,
            self.size.height,
        )
    }

    /// The middle of the rectangle.
    pub fn calculate_center(&self) -> (center: Position)
        ensures
            center == self.center(),
    {
        self.pos.advanced_by(self.size.width / 2, self.size.height / 2)
    }
}

/// Tells whether `value` is one of the `extent` numbers that start at `start`.
pub fn in_span(value: isize, start: isize, extent: usize) -> (inside: bool)
    ensures
        inside == (start <= value < start + extent),
{
    if value < start {
        false
    } else {
        let end: i128 = start as i128 + extent as i128;
        (value as i128) < end
    }
}

/// Directions in which a neighbouring frame is looked for.
#[derive(Clone, Copy, Debug, PartialEq, Eq, Structural)]
pub enum Direction {
    North,
    East,
    South,
    West,
    Up,
}

} // verus!
