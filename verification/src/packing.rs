//! Laying out the frame tree: moving a frame with what it holds, giving it a size, and
//! dividing a frame among its children.

use vstd::prelude::*;
use vstd::wrapping::isize_specs;
use crate::coordinator::{CoordinatorModel, InnerCoordinator};
use crate::defs::{Area, Position, Size, SurfaceId, Vector};
use crate::frame::{Frame, FrameTree, Geometry};
use crate::surface_state::MAXIMIZED;

verus! {

/// The area `area` moved by `vector`.
pub open spec fn shifted(area: Area, vector: Vector) -> Area {
    Area { pos: area.pos.plus(vector), size: area.size }
}

/// The point reached from `start` by `steps` steps of `right` to the right and `down`
/// downwards.
pub open spec fn stride_pos(start: Position, right: usize, down: usize, steps: nat) -> Position
    decreases steps,
{
    if steps == 0 {
        start
    } else {
        stride_pos(start, right, down, (steps - 1) as nat).advanced(right, down)
    }
}

/// Moving a point by the way from a place to itself leaves the point where it is.
pub proof fn lemma_plus_nothing(point: Position, place: Position)
    ensures
        point.plus(place.minus(place)) == point,
{
}

/// Moving a point by the way from it to a target leads to the target.
pub proof fn lemma_plus_minus(point: Position, target: Position)
    ensures
        point.plus(target.minus(point)) == target,
{
}

/// A wrapping sum differs from the sum by a multiple of the size of the integer range.
proof fn lemma_wrapping_add_shape(a: isize, b: isize) -> (k: int)
    ensures
        isize_specs::wrapping_add(a, b) == a + b + k * (usize::MAX + 1),
        -1 <= k <= 1,
{
    if a + b > isize::MAX {
        -1
    } else if a + b < isize::MIN {
        1
    } else {
        0
    }
}

/// A wrapping difference differs from the difference by a multiple of the size of the
/// integer range.
proof fn lemma_wrapping_sub_shape(a: isize, b: isize) -> (k: int)
    ensures
        isize_specs::wrapping_sub(a, b) == a - b + k * (usize::MAX + 1),
        -1 <= k <= 1,
{
    if a - b > isize::MAX {
        -1
    } else if a - b < isize::MIN {
        1
    } else {
        0
    }
}

/// The same as `lemma_plus_twice`, of one coordinate.
proof fn lemma_wrap_twice(x: isize, from: isize, to: isize, v: isize)
    ensures
        isize_specs::wrapping_add(
            isize_specs::wrapping_add(x, isize_specs::wrapping_sub(to, from)),
            v,
        ) == isize_specs::wrapping_add(
            x,
            isize_specs::wrapping_sub(isize_specs::wrapping_add(to, v), from),
        ),
{
    let r: int = usize::MAX + 1;
    let s1 = isize_specs::wrapping_sub(to, from);
    let t1 = isize_specs::wrapping_add(x, s1);
    let lhs = isize_specs::wrapping_add(t1, v);
    let u = isize_specs::wrapping_add(to, v);
    let s2 = isize_specs::wrapping_sub(u, from);
    let rhs = isize_specs::wrapping_add(x, s2);
    let a = lemma_wrapping_sub_shape(to, from);
    let b = lemma_wrapping_add_shape(x, s1);
    let c = lemma_wrapping_add_shape(t1, v);
    let d = lemma_wrapping_add_shape(to, v);
    let e = lemma_wrapping_sub_shape(u, from);
    let f = lemma_wrapping_add_shape(x, s2);
    let lhs_int: int = lhs as int;
    let rhs_int: int = rhs as int;
    assert(-r < lhs_int - rhs_int < r);
    assert(lhs_int == rhs_int) by (nonlinear_arith)
        requires
            s1 == to - from + a * r,
            t1 == x + s1 + b * r,
            lhs_int == t1 + v + c * r,
            u == to + v + d * r,
            s2 == u - from + e * r,
            rhs_int == x + s2 + f * r,
            -r < lhs_int - rhs_int < r,
            r > 0,
    {
        let k = a + b + c - d - e - f;
        assert(lhs_int - rhs_int == k * r);
        if k >= 1 {
            assert(k * r >= r);
        } else if k <= -1 {
            assert(k * r <= -r);
        }
    }
}

/// A point that moves along with a frame ends up in the same place whether the frame is
/// moved at once or in two goes.
pub proof fn lemma_plus_twice(point: Position, from: Position, to: Position, vector: Vector)
    ensures
        point.plus(to.minus(from)).plus(vector) == point.plus(to.plus(vector).minus(from)),
{
    lemma_wrap_twice(point.x, from.x, to.x, vector.x);
    lemma_wrap_twice(point.y, from.y, to.y, vector.y);
}

/// Advancing and moving a point can be done in either order.
pub proof fn lemma_advanced_plus(point: Position, right: usize, down: usize, vector: Vector)
    ensures
        point.advanced(right, down).plus(vector) == point.plus(vector).advanced(right, down),
{
}

/// Striding and moving a point can be done in either order.
pub proof fn lemma_stride_plus(
    start: Position,
    right: usize,
    down: usize,
    steps: nat,
    vector: Vector,
)
    ensures
        stride_pos(start, right, down, steps).plus(vector) == stride_pos(
            start.plus(vector),
            right,
            down,
            steps,
        ),
    decreases steps,
{
    if steps > 0 {
        lemma_stride_plus(start, right, down, (steps - 1) as nat, vector);
        lemma_advanced_plus(
            stride_pos(start, right, down, (steps - 1) as nat),
            right,
            down,
            vector,
        );
    }
}


impl FrameTree {
    /// True when `later` is `self` with `frame` and everything below it moved by `vector`:
    /// the links, the sizes and the areas of all other frames are the same.
    pub open spec fn moved(&self, later: &FrameTree, frame: Frame, vector: Vector) -> bool {
        &&& later.same_links(self)
        &&& forall|other: Frame| #[trigger]
            self.has(other) ==> later.area_of(other) == if self.within(other, frame) {
                shifted(self.area_of(other), vector)
            } else {
                self.area_of(other)
            }
    }

    /// Moves `frame` and every frame below it by `vector`.
    pub fn move_with_contents(&mut self, frame: Frame, vector: Vector)
        requires
            old(self).wf(),
            old(self).has(frame),
        ensures
            final(self).wf(),
            old(self).moved(final(self), frame, vector),
        decreases old(self).height_left(frame),
    {
        let position = self.get_position(frame).moved_by(vector);
        self.set_plumbing_position(frame, position);
        let count = self.count_children(frame);
        let mut place: usize = 0;
        proof {
            self.lemma_same_links(old(self));
            old(self).lemma_within_self(frame);
            assert forall|j: int, other: Frame|
                0 <= j < count && old(self).has(other) && #[trigger] old(self).within(
                    other,
                    old(self).space_of(frame)[j],
                ) implies self.area_of(other) == old(self).area_of(other) by {
                old(self).lemma_outside_children(frame, j, frame);
            }
        }
        while place < count
            invariant
                old(self).wf(),
                old(self).has(frame),
                self.same_links(old(self)),
                count == old(self).space_of(frame).len(),
                place <= count,
                self.area_of(frame) == shifted(old(self).area_of(frame), vector),
                forall|other: Frame|
                    old(self).has(other) && !#[trigger] old(self).within(other, frame)
                        ==> self.area_of(other) == old(self).area_of(other),
                forall|j: int, other: Frame|
                    0 <= j < count && old(self).has(other) && #[trigger] old(self).within(
                        other,
                        old(self).space_of(frame)[j],
                    ) ==> self.area_of(other) == if j < place {
                        shifted(old(self).area_of(other), vector)
                    } else {
                        old(self).area_of(other)
                    },
            decreases count - place,
        {
            proof {
                self.lemma_same_links(old(self));
            }
            let child = self.space_child(frame, place);
            let ghost before = *self;
            proof {
                assert(old(self).space_of(frame).contains(old(self).space_of(frame)[place as int]));
                old(self).lemma_child(frame, child);
            }
            self.move_with_contents(child, vector);
            proof {
                self.lemma_same_links(&before);
                before.lemma_same_links(old(self));
                assert forall|other: Frame|
                    old(self).has(other) && !#[trigger] old(self).within(
                        other,
                        frame,
                    ) implies self.area_of(other) == old(self).area_of(other) by {
                    old(self).lemma_outside_children(frame, place as int, other);
                    assert(before.has(other));
                }
                assert(self.area_of(frame) == before.area_of(frame)) by {
                    old(self).lemma_outside_children(frame, place as int, frame);
                    assert(before.has(frame));
                }
                assert forall|j: int, other: Frame|
                    0 <= j < count && old(self).has(other) && #[trigger] old(self).within(
                        other,
                        old(self).space_of(frame)[j],
                    ) implies self.area_of(other) == if j < place + 1 {
                    shifted(old(self).area_of(other), vector)
                } else {
                    old(self).area_of(other)
                } by {
                    assert(before.has(other));
                    if j != place {
                        old(self).lemma_children_apart(frame, j, place as int, other);
                    }
                }
            }
            place = place + 1;
        }
        proof {
            self.lemma_same_links(old(self));
            assert forall|other: Frame| #[trigger] old(self).has(other) implies self.area_of(
                other,
            ) == if old(self).within(other, frame) {
                shifted(old(self).area_of(other), vector)
            } else {
                old(self).area_of(other)
            } by {
                if old(self).within(other, frame) && other != frame {
                    let j = old(self).lemma_within_some_child(other, frame);
                    assert(old(self).within(other, old(self).space_of(frame)[j]));
                }
            }
        }
    }

    /// Puts `frame` at `position` and moves every frame below it along.
    pub fn set_position(&mut self, frame: Frame, position: Position)
        requires
            old(self).wf(),
            old(self).has(frame),
        ensures
            final(self).wf(),
            final(self).area_of(frame).pos == position,
            old(self).moved(final(self), frame, position.minus(old(self).area_of(frame).pos)),
    {
        let vector = position.vector_from(self.get_position(frame));
        self.move_with_contents(frame, vector);
        proof {
            lemma_plus_minus(old(self).area_of(frame).pos, position);
            old(self).lemma_within_self(frame);
        }
    }
}


/// What is done to the frame at the top of a layout: it is given a size, or it is divided
/// among its children.
pub enum Change {
    Resize(Size),
    Tile,
}

/// The area of child number `place`, of `count` children, of a frame that covers `area`
/// and is divided among them. Stacked children all get the whole area. The children of a
/// vertical frame get the whole width and an equal share of the height each, rounded down,
/// one below the other; those of a horizontal frame the whole height and an equal share of
/// the width, one beside the other.
pub open spec fn tile(geometry: Geometry, area: Area, count: nat, place: nat) -> Area {
    match geometry {
        Geometry::Vertical => {
            let share = (area.size.height as nat / count) as usize;
            Area {
                pos: stride_pos(area.pos, 0, share, place),
                size: Size { width: area.size.width, height: share },
            }
        },
        Geometry::Horizontal => {
            let share = (area.size.width as nat / count) as usize;
            Area {
                pos: stride_pos(area.pos, share, 0, place),
                size: Size { width: share, height: area.size.height },
            }
        },
        _ => area,
    }
}

impl FrameTree {
    /// The place of `frame` among its parent's children, in the order of the layout.
    pub open spec fn place_of(&self, frame: Frame) -> nat {
        match self.parent_of(frame) {
            Some(parent) => self.space_of(parent).index_of(frame) as nat,
            None => 0,
        }
    }

    /// True when a frame that had the size `before` and is given the size `after` divides
    /// itself anew among its children: a horizontal frame whose width changes, a vertical
    /// frame whose height changes, and a stacked frame in any case. A floating frame never
    /// divides itself.
    pub open spec fn retiles(geometry: Geometry, before: Size, after: Size) -> bool {
        match geometry {
            Geometry::Horizontal => before.width != after.width,
            Geometry::Vertical => before.height != after.height,
            Geometry::Stacked => true,
            Geometry::Floating => false,
        }
    }

    /// True when a frame that had the size `before` and is given the size `after` hands
    /// the change down to its children: a horizontal frame that keeps its width, and a
    /// vertical frame that keeps its height.
    pub open spec fn hands_down(geometry: Geometry, before: Size, after: Size) -> bool {
        match geometry {
            Geometry::Horizontal => before.width == after.width,
            Geometry::Vertical => before.height == after.height,
            _ => false,
        }
    }

    /// True when a change of `top` reaches `frame`: no floating frame stands between them,
    /// `top` counted in. A floating frame leaves its children as they are, so that a change
    /// does not get past it.
    pub open spec fn reached(&self, top: Frame, frame: Frame) -> bool
        decreases self.level_of(frame),
    {
        frame == top || match self.parent_of(frame) {
            Some(parent) => self.level_of(parent) < self.level_of(frame) && self.geometry_of(
                parent,
            ) != Geometry::Floating && self.reached(top, parent),
            None => false,
        }
    }

    /// The area of `child` when it only moves along with its parent `parent`, which went
    /// from the area it has to the area `above`.
    pub open spec fn carried(&self, parent: Frame, above: Area, child: Frame) -> Area {
        shifted(self.area_of(child), above.pos.minus(self.area_of(parent).pos))
    }

    /// The area of `child` after its parent `parent`, which is not floating, went from the
    /// area it has to the area `above`. Where the parent divides itself anew, the child gets
    /// its tile. Otherwise the child moves along with the parent, and takes the parent's
    /// height in a horizontal parent and the parent's width in a vertical one.
    pub open spec fn child_area_in(&self, parent: Frame, above: Area, child: Frame) -> Area {
        let before = self.area_of(parent);
        let own = self.area_of(child);
        let moved = self.carried(parent, above, child).pos;
        let geometry = self.geometry_of(parent);
        if Self::retiles(geometry, before.size, above.size) {
            tile(geometry, above, self.space_of(parent).len(), self.place_of(child))
        } else {
            match geometry {
                Geometry::Horizontal => Area {
                    pos: moved,
                    size: Size { width: own.size.width, height: above.size.height },
                },
                Geometry::Vertical => Area {
                    pos: moved,
                    size: Size { width: above.size.width, height: own.size.height },
                },
                _ => Area { pos: moved, size: own.size },
            }
        }
    }

    /// The area of `frame`, which lies within `top`, after `change` was done to `top`. A
    /// frame that the change does not reach only moves along with its parent.
    pub open spec fn area_after(&self, top: Frame, change: Change, frame: Frame) -> Area
        decreases self.level_of(frame),
    {
        if frame == top {
            match change {
                Change::Resize(size) => Area { pos: self.area_of(top).pos, size },
                Change::Tile => self.area_of(top),
            }
        } else {
            match self.parent_of(frame) {
                Some(parent) => if self.level_of(parent) < self.level_of(frame) {
                    let above = self.area_after(top, change, parent);
                    if !self.reached(top, frame) {
                        self.carried(parent, above, frame)
                    } else if parent == top && change is Tile {
                        tile(
                            self.geometry_of(top),
                            above,
                            self.space_of(top).len(),
                            self.place_of(frame),
                        )
                    } else {
                        self.child_area_in(parent, above, frame)
                    }
                } else {
                    self.area_of(frame)
                },
                None => self.area_of(frame),
            }
        }
    }

    /// True when `frame` can be divided among its children: it has children and lays them
    /// out in some direction or on top of each other.
    pub open spec fn tiles(&self, frame: Frame) -> bool {
        self.space_of(frame).len() > 0 && self.geometry_of(frame) != Geometry::Floating
    }

    /// True when `later` is `self` after `frame` was given the size `size`: the frames
    /// within `frame` have the areas that follow from that, and nothing else differs.
    pub open spec fn resized(&self, later: &FrameTree, frame: Frame, size: Size) -> bool {
        &&& later.same_links(self)
        &&& forall|other: Frame| #[trigger]
            self.has(other) ==> later.area_of(other) == if self.within(other, frame) {
                self.area_after(frame, Change::Resize(size), other)
            } else {
                self.area_of(other)
            }
    }

    /// True when `later` is `self` after `frame` was divided among its children: the
    /// frames within `frame` have the areas that follow from that, and nothing else differs.
    /// A frame that cannot be divided is left as it is.
    pub open spec fn divided(&self, later: &FrameTree, frame: Frame) -> bool {
        &&& later.same_links(self)
        &&& forall|other: Frame| #[trigger]
            self.has(other) ==> later.area_of(other) == if self.tiles(frame) && self.within(
                other,
                frame,
            ) {
                self.area_after(frame, Change::Tile, other)
            } else {
                self.area_of(other)
            }
    }

    /// The area of a frame after a change depends on the areas of the frames within the
    /// changed frame only.
    pub proof fn lemma_area_after_agrees(
        &self,
        other: &FrameTree,
        top: Frame,
        change: Change,
        frame: Frame,
    )
        requires
            self.wf(),
            other.same_links(self),
            self.has(frame),
            self.within(frame, top),
            forall|inner: Frame|
                self.has(inner) && #[trigger] self.within(inner, top) ==> other.area_of(inner)
                    == self.area_of(inner),
        ensures
            other.area_after(top, change, frame) == self.area_after(top, change, frame),
            other.reached(top, frame) == self.reached(top, frame),
        decreases self.level_of(frame),
    {
        assert(self.frame_wf(frame));
        self.lemma_within_level(frame, top);
        self.lemma_within_self(top);
        assert(other.area_of(top) == self.area_of(top));
        assert(other.area_of(frame) == self.area_of(frame));
        if frame != top {
            match self.parent_of(frame) {
                Some(parent) => {
                    assert(self.within(parent, top));
                    assert(other.area_of(parent) == self.area_of(parent));
                    self.lemma_area_after_agrees(other, top, change, parent);
                },
                None => {},
            }
        }
    }

    /// Moving the parent's new area moves the child's new area by as much.
    pub proof fn lemma_child_area_shifted(
        &self,
        parent: Frame,
        above: Area,
        child: Frame,
        vector: Vector,
    )
        ensures
            self.child_area_in(parent, shifted(above, vector), child) == shifted(
                self.child_area_in(parent, above, child),
                vector,
            ),
            self.carried(parent, shifted(above, vector), child) == shifted(
                self.carried(parent, above, child),
                vector,
            ),
    {
        let before = self.area_of(parent);
        let own = self.area_of(child);
        lemma_plus_twice(own.pos, before.pos, above.pos, vector);
        let count = self.space_of(parent).len();
        let place = self.place_of(child);
        let high = (above.size.height as nat / count) as usize;
        let wide = (above.size.width as nat / count) as usize;
        lemma_stride_plus(above.pos, 0, high, place, vector);
        lemma_stride_plus(above.pos, wide, 0, place, vector);
    }

    /// Giving a frame a size without dividing it anew does to each child what giving that
    /// child its new size does.
    pub proof fn lemma_resize_descends(&self, top: Frame, size: Size, place: int, frame: Frame)
        requires
            self.wf(),
            self.has(top),
            self.has(frame),
            0 <= place < self.space_of(top).len(),
            self.within(frame, self.space_of(top)[place]),
            Self::hands_down(self.geometry_of(top), self.area_of(top).size, size),
        ensures
            self.area_after(top, Change::Resize(size), frame) == self.area_after(
                self.space_of(top)[place],
                Change::Resize(
                    self.area_after(top, Change::Resize(size), self.space_of(top)[place]).size,
                ),
                frame,
            ),
            self.area_after(top, Change::Resize(size), self.space_of(top)[place]).pos
                == self.area_of(self.space_of(top)[place]).pos,
            self.reached(top, frame) == self.reached(self.space_of(top)[place], frame),
        decreases self.level_of(frame),
    {
        let child = self.space_of(top)[place];
        assert(self.space_of(top).contains(child));
        self.lemma_child(top, child);
        self.lemma_within_level(frame, child);
        assert(self.frame_wf(frame));
        assert(self.reached(top, top));
        assert(self.reached(top, child));
        lemma_plus_nothing(self.area_of(child).pos, self.area_of(top).pos);
        assert(self.area_after(top, Change::Resize(size), top) == (Area {
            pos: self.area_of(top).pos,
            size,
        }));
        if frame != child {
            match self.parent_of(frame) {
                Some(parent) => {
                    self.lemma_resize_descends(top, size, place, parent);
                    self.lemma_within_level(parent, child);
                },
                None => {},
            }
        }
    }

    /// Dividing a frame does to each child what giving the child the size of its tile and
    /// then moving it to the place of its tile does.
    pub proof fn lemma_tile_descends(&self, top: Frame, place: int, frame: Frame)
        requires
            self.wf(),
            self.has(top),
            self.has(frame),
            0 <= place < self.space_of(top).len(),
            self.within(frame, self.space_of(top)[place]),
            self.geometry_of(top) != Geometry::Floating,
        ensures
            ({
                let child = self.space_of(top)[place];
                let target = tile(
                    self.geometry_of(top),
                    self.area_of(top),
                    self.space_of(top).len(),
                    place as nat,
                );
                self.area_after(top, Change::Tile, frame) == shifted(
                    self.area_after(child, Change::Resize(target.size), frame),
                    target.pos.minus(self.area_of(child).pos),
                )
            }),
            self.reached(top, frame) == self.reached(self.space_of(top)[place], frame),
        decreases self.level_of(frame),
    {
        let child = self.space_of(top)[place];
        let target = tile(
            self.geometry_of(top),
            self.area_of(top),
            self.space_of(top).len(),
            place as nat,
        );
        let vector = target.pos.minus(self.area_of(child).pos);
        assert(self.space_of(top).contains(child));
        self.lemma_child(top, child);
        self.lemma_within_level(frame, child);
        assert(self.frame_wf(frame));
        assert(self.frame_wf(top));
        crate::seqs::lemma_index_of_unique(self.space_of(top), place);
        assert(self.reached(top, top));
        assert(self.reached(top, child));
        if frame == child {
            lemma_plus_minus(self.area_of(child).pos, target.pos);
            assert(self.area_after(top, Change::Tile, top) == self.area_of(top));
            assert(self.place_of(child) == place);
            assert(self.area_after(top, Change::Tile, child) == target);
            assert(self.area_after(child, Change::Resize(target.size), child) == (Area {
                pos: self.area_of(child).pos,
                size: target.size,
            }));
        } else {
            match self.parent_of(frame) {
                Some(parent) => {
                    assert(self.within(parent, child));
                    self.lemma_tile_descends(top, place, parent);
                    self.lemma_within_level(parent, child);
                    assert(parent != top);
                    let above = self.area_after(child, Change::Resize(target.size), parent);
                    self.lemma_child_area_shifted(parent, above, frame, vector);
                    assert(self.area_after(top, Change::Tile, parent) == shifted(above, vector));
                    assert(self.reached(top, frame) == self.reached(child, frame));
                    if self.reached(top, frame) {
                        assert(self.area_after(top, Change::Tile, frame) == self.child_area_in(
                            parent,
                            shifted(above, vector),
                            frame,
                        ));
                        assert(self.area_after(child, Change::Resize(target.size), frame)
                            == self.child_area_in(parent, above, frame));
                    } else {
                        assert(self.area_after(top, Change::Tile, frame) == self.carried(
                            parent,
                            shifted(above, vector),
                            frame,
                        ));
                        assert(self.area_after(child, Change::Resize(target.size), frame)
                            == self.carried(parent, above, frame));
                    }
                },
                None => {},
            }
        }
    }

    /// Dividing a frame that was just given a size which makes it divide itself anew does
    /// what giving it that size does.
    pub proof fn lemma_tile_after_resize(
        &self,
        sized: &FrameTree,
        top: Frame,
        size: Size,
        frame: Frame,
    )
        requires
            self.wf(),
            self.has(top),
            self.has(frame),
            self.within(frame, top),
            sized.same_links(self),
            sized.areas@ == self.areas@.update(
                top.index as int,
                (Area { pos: self.area_of(top).pos, size }),
            ),
            Self::retiles(self.geometry_of(top), self.area_of(top).size, size),
        ensures
            sized.area_after(top, Change::Tile, frame) == self.area_after(
                top,
                Change::Resize(size),
                frame,
            ),
            sized.reached(top, frame) == self.reached(top, frame),
        decreases self.level_of(frame),
    {
        assert(self.frame_wf(frame));
        self.lemma_within_level(frame, top);
        if frame != top {
            match self.parent_of(frame) {
                Some(parent) => {
                    self.lemma_tile_after_resize(sized, top, size, parent);
                    if parent != top {
                        self.lemma_within_level(parent, top);
                    }
                },
                None => {},
            }
        }
    }

    /// Arenas with the same links are reached by a change alike.
    pub proof fn lemma_reached_same(&self, other: &FrameTree, top: Frame, frame: Frame)
        requires
            other.same_links(self),
        ensures
            other.reached(top, frame) == self.reached(top, frame),
        decreases self.level_of(frame),
    {
        if frame != top {
            match self.parent_of(frame) {
                Some(parent) => {
                    if self.level_of(parent) < self.level_of(frame) {
                        self.lemma_reached_same(other, top, parent);
                    }
                },
                None => {},
            }
        }
    }

    /// Giving a floating frame a size leaves every frame below it as it is.
    pub proof fn lemma_floating_untouched(&self, top: Frame, size: Size, frame: Frame)
        requires
            self.wf(),
            self.has(top),
            self.has(frame),
            self.within(frame, top),
            self.geometry_of(top) == Geometry::Floating,
        ensures
            self.area_after(top, Change::Resize(size), frame).pos == self.area_of(frame).pos,
            frame != top ==> self.area_after(top, Change::Resize(size), frame) == self.area_of(
                frame,
            ) && !self.reached(top, frame),
        decreases self.level_of(frame),
    {
        assert(self.frame_wf(frame));
        self.lemma_within_level(frame, top);
        if frame != top {
            match self.parent_of(frame) {
                Some(parent) => {
                    self.lemma_floating_untouched(top, size, parent);
                    lemma_plus_nothing(self.area_of(frame).pos, self.area_of(parent).pos);
                },
                None => {},
            }
        }
    }
}


impl FrameTree {
    /// The size that child `child` of `frame` is given when `frame`, which hands the
    /// change down, is given the size `size`.
    pub open spec fn handed_down(&self, frame: Frame, size: Size, child: Frame) -> Size {
        match self.geometry_of(frame) {
            Geometry::Horizontal => Size {
                width: self.area_of(child).size.width,
                height: size.height,
            },
            Geometry::Vertical => Size {
                width: size.width,
                height: self.area_of(child).size.height,
            },
            _ => self.area_of(child).size,
        }
    }

    /// True when `now` is `self` on the way to giving `frame` the size `size`: the frame
    /// has its size, its first `upto` children and what lies below them have their new
    /// areas, and nothing else differs from `self`.
    pub open spec fn resized_partly(
        &self,
        now: &FrameTree,
        frame: Frame,
        size: Size,
        upto: int,
    ) -> bool {
        &&& now.same_links(self)
        &&& now.area_of(frame) == (Area { pos: self.area_of(frame).pos, size })
        &&& forall|other: Frame|
            self.has(other) && !#[trigger] self.within(other, frame) ==> now.area_of(other)
                == self.area_of(other)
        &&& forall|j: int, other: Frame|
            0 <= j < self.space_of(frame).len() && self.has(other) && #[trigger] self.within(
                other,
                self.space_of(frame)[j],
            ) ==> now.area_of(other) == if j < upto {
                self.area_after(frame, Change::Resize(size), other)
            } else {
                self.area_of(other)
            }
    }

    /// True when `now` is `self` on the way to dividing `frame` among its children: the
    /// first `upto` children and what lies below them have their new areas, and nothing else
    /// differs from `self`.
    pub open spec fn divided_partly(&self, now: &FrameTree, frame: Frame, upto: int) -> bool {
        &&& now.same_links(self)
        &&& now.area_of(frame) == self.area_of(frame)
        &&& forall|other: Frame|
            self.has(other) && !#[trigger] self.within(other, frame) ==> now.area_of(other)
                == self.area_of(other)
        &&& forall|j: int, other: Frame|
            0 <= j < self.space_of(frame).len() && self.has(other) && #[trigger] self.within(
                other,
                self.space_of(frame)[j],
            ) ==> now.area_of(other) == if j < upto {
                self.area_after(frame, Change::Tile, other)
            } else {
                self.area_of(other)
            }
    }

    /// Giving the frame its size is the start of giving it its size.
    proof fn lemma_resize_start(&self, now: &FrameTree, frame: Frame, size: Size)
        requires
            self.wf(),
            self.has(frame),
            now.same_links(self),
            now.areas@ == self.areas@.update(
                frame.index as int,
                (Area { pos: self.area_of(frame).pos, size }),
            ),
        ensures
            self.resized_partly(now, frame, size, 0),
    {
        self.lemma_within_self(frame);
        assert forall|j: int, other: Frame|
            0 <= j < self.space_of(frame).len() && self.has(other) && #[trigger] self.within(
                other,
                self.space_of(frame)[j],
            ) implies now.area_of(other) == self.area_of(other) by {
            self.lemma_outside_children(frame, j, frame);
        }
    }

    /// Giving the next child its size is one step further in giving the frame its size.
    proof fn lemma_resize_step(
        &self,
        before: &FrameTree,
        after: &FrameTree,
        frame: Frame,
        size: Size,
        place: int,
    )
        requires
            self.wf(),
            self.has(frame),
            0 <= place < self.space_of(frame).len(),
            Self::hands_down(self.geometry_of(frame), self.area_of(frame).size, size),
            self.resized_partly(before, frame, size, place),
            before.resized(
                after,
                self.space_of(frame)[place],
                self.handed_down(frame, size, self.space_of(frame)[place]),
            ),
        ensures
            self.resized_partly(after, frame, size, place + 1),
    {
        let child = self.space_of(frame)[place];
        let child_size = self.handed_down(frame, size, child);
        assert(self.space_of(frame).contains(child));
        self.lemma_child(frame, child);
        before.lemma_same_links(self);
        after.lemma_same_links(before);
        self.lemma_within_self(child);
        self.lemma_resize_descends(frame, size, place, child);
        assert(self.frame_wf(frame));
        crate::seqs::lemma_index_of_unique(self.space_of(frame), place);
        assert(self.area_after(frame, Change::Resize(size), frame) == (Area {
            pos: self.area_of(frame).pos,
            size,
        }));
        assert(self.area_after(frame, Change::Resize(size), child).size == child_size);
        assert(before.has(frame));
        self.lemma_outside_children(frame, place, frame);
        assert forall|other: Frame|
            self.has(other) && !#[trigger] self.within(other, frame) implies after.area_of(other)
            == self.area_of(other) by {
            self.lemma_outside_children(frame, place, other);
            assert(before.has(other));
        }
        assert forall|j: int, other: Frame|
            0 <= j < self.space_of(frame).len() && self.has(other) && #[trigger] self.within(
                other,
                self.space_of(frame)[j],
            ) implies after.area_of(other) == if j < place + 1 {
            self.area_after(frame, Change::Resize(size), other)
        } else {
            self.area_of(other)
        } by {
            assert(before.has(other));
            if j == place {
                assert forall|inner: Frame|
                    self.has(inner) && #[trigger] self.within(
                        inner,
                        child,
                    ) implies before.area_of(inner) == self.area_of(inner) by {
                    assert(self.within(inner, self.space_of(frame)[place]));
                }
                self.lemma_area_after_agrees(before, child, Change::Resize(child_size), other);
                self.lemma_resize_descends(frame, size, place, other);
            } else {
                self.lemma_children_apart(frame, j, place, other);
            }
        }
    }

    /// When every child has its size, the frame has been given its size.
    proof fn lemma_resize_done(&self, now: &FrameTree, frame: Frame, size: Size)
        requires
            self.wf(),
            self.has(frame),
            self.resized_partly(now, frame, size, self.space_of(frame).len() as int),
        ensures
            self.resized(now, frame, size),
    {
        assert forall|other: Frame| #[trigger] self.has(other) implies now.area_of(other)
            == if self.within(other, frame) {
            self.area_after(frame, Change::Resize(size), other)
        } else {
            self.area_of(other)
        } by {
            if self.within(other, frame) && other != frame {
                let j = self.lemma_within_some_child(other, frame);
                assert(self.within(other, self.space_of(frame)[j]));
            }
        }
    }

    /// The start of dividing a frame.
    proof fn lemma_divide_start(&self, frame: Frame)
        requires
            self.wf(),
            self.has(frame),
        ensures
            self.divided_partly(self, frame, 0),
    {
    }

    /// Giving the next child the size of its tile and moving it to the place of its tile
    /// is one step further in dividing the frame.
    proof fn lemma_divide_step(
        &self,
        before: &FrameTree,
        sized: &FrameTree,
        after: &FrameTree,
        frame: Frame,
        place: int,
    )
        requires
            self.wf(),
            self.has(frame),
            0 <= place < self.space_of(frame).len(),
            self.geometry_of(frame) != Geometry::Floating,
            self.divided_partly(before, frame, place),
            before.resized(
                sized,
                self.space_of(frame)[place],
                tile(
                    self.geometry_of(frame),
                    self.area_of(frame),
                    self.space_of(frame).len(),
                    place as nat,
                ).size,
            ),
            sized.moved(
                after,
                self.space_of(frame)[place],
                tile(
                    self.geometry_of(frame),
                    self.area_of(frame),
                    self.space_of(frame).len(),
                    place as nat,
                ).pos.minus(sized.area_of(self.space_of(frame)[place]).pos),
            ),
        ensures
            self.divided_partly(after, frame, place + 1),
    {
        let child = self.space_of(frame)[place];
        let target = tile(
            self.geometry_of(frame),
            self.area_of(frame),
            self.space_of(frame).len(),
            place as nat,
        );
        assert(self.space_of(frame).contains(child));
        self.lemma_child(frame, child);
        before.lemma_same_links(self);
        sized.lemma_same_links(before);
        after.lemma_same_links(sized);
        self.lemma_within_self(child);
        assert forall|inner: Frame|
            self.has(inner) && #[trigger] self.within(inner, child) implies before.area_of(inner)
            == self.area_of(inner) by {
            assert(self.within(inner, self.space_of(frame)[place]));
        }
        assert(before.has(child));
        assert(sized.has(child));
        self.lemma_area_after_agrees(before, child, Change::Resize(target.size), child);
        assert(sized.area_of(child).pos == self.area_of(child).pos);
        let vector = target.pos.minus(self.area_of(child).pos);
        assert(before.has(frame));
        assert(sized.has(frame));
        self.lemma_outside_children(frame, place, frame);
        assert forall|other: Frame|
            self.has(other) && !#[trigger] self.within(other, frame) implies after.area_of(other)
            == self.area_of(other) by {
            self.lemma_outside_children(frame, place, other);
            assert(before.has(other));
            assert(sized.has(other));
        }
        assert forall|j: int, other: Frame|
            0 <= j < self.space_of(frame).len() && self.has(other) && #[trigger] self.within(
                other,
                self.space_of(frame)[j],
            ) implies after.area_of(other) == if j < place + 1 {
            self.area_after(frame, Change::Tile, other)
        } else {
            self.area_of(other)
        } by {
            assert(before.has(other));
            assert(sized.has(other));
            if j == place {
                self.lemma_area_after_agrees(before, child, Change::Resize(target.size), other);
                self.lemma_tile_descends(frame, place, other);
            } else {
                self.lemma_children_apart(frame, j, place, other);
            }
        }
    }

    /// When every child has its tile, the frame has been divided.
    proof fn lemma_divide_done(&self, now: &FrameTree, frame: Frame)
        requires
            self.wf(),
            self.has(frame),
            self.tiles(frame),
            self.divided_partly(now, frame, self.space_of(frame).len() as int),
        ensures
            self.divided(now, frame),
    {
        assert forall|other: Frame| #[trigger] self.has(other) implies now.area_of(other)
            == if self.tiles(frame) && self.within(other, frame) {
            self.area_after(frame, Change::Tile, other)
        } else {
            self.area_of(other)
        } by {
            if self.within(other, frame) && other != frame {
                let j = self.lemma_within_some_child(other, frame);
                assert(self.within(other, self.space_of(frame)[j]));
            }
        }
    }
}


impl FrameTree {
    /// The requests made so far stay the same, and those for the next child come after
    /// them, when the sizes change within that child only.
    proof fn lemma_requests_step(
        &self,
        before: &FrameTree,
        after: &FrameTree,
        frame: Frame,
        place: int,
        lead: Seq<Frame>,
        told: CoordinatorModel,
        told_before: CoordinatorModel,
        told_after: CoordinatorModel,
    )
        requires
            self.wf(),
            self.has(frame),
            0 <= place < self.space_of(frame).len(),
            before.same_links(self),
            after.same_links(self),
            lead =~= Seq::<Frame>::empty() || lead =~= seq![frame],
            told_before == told.told(
                before.requests(lead + self.visits_among(frame, place as nat)),
            ),
            told_after == told_before.told(
                after.requests(self.visits(self.space_of(frame)[place])),
            ),
            forall|other: Frame|
                self.has(other) && !#[trigger] self.within(other, self.space_of(frame)[place])
                    ==> after.area_of(other).size == before.area_of(other).size,
        ensures
            told_after == told.told(
                after.requests(lead + self.visits_among(frame, (place + 1) as nat)),
            ),
    {
        let child = self.space_of(frame)[place];
        let earlier = lead + self.visits_among(frame, place as nat);
        assert(self.space_of(frame).contains(child));
        self.lemma_child(frame, child);
        assert(lead + self.visits_among(frame, (place + 1) as nat) =~= earlier + self.visits(
            child,
        ));
        self.lemma_outside_children(frame, place, frame);
        assert forall|i: int| 0 <= i < earlier.len() implies after.area_of(
            #[trigger] earlier[i],
        ).size == before.area_of(earlier[i]).size by {
            if i < lead.len() {
                assert(earlier[i] == frame);
            } else {
                self.lemma_visits_among_within(frame, place as nat, i - lead.len());
                let visited = self.visits_among(frame, place as nat)[i - lead.len()];
                assert(earlier[i] == visited);
                assert(!self.within(visited, self.space_of(frame)[place]));
            }
        }
        before.lemma_requests_agree(after, earlier);
        after.lemma_requests_add(earlier, self.visits(child));
        told.lemma_told_twice(after.requests(earlier), after.requests(self.visits(child)));
    }

    /// Gives `frame` the size `size` and resizes what lies below it accordingly. The
    /// surface of every frame that is given a size is asked to take it.
    ///
    /// A horizontal frame that keeps its width hands its height down to its children, and
    /// a vertical frame that keeps its height hands down its width. Every other frame
    /// settles anew: a horizontal, vertical or stacked frame is divided among its children,
    /// and a floating frame leaves its children as they are.
    pub fn set_size(&mut self, frame: Frame, size: Size, sa: &mut InnerCoordinator)
        requires
            old(self).wf(),
            old(self).has(frame),
            old(sa).wf(),
        ensures
            final(self).wf(),
            final(sa).wf(),
            old(self).resized(final(self), frame, size),
            final(self).area_of(frame).size == size,
            final(sa)@ == old(sa)@.told(final(self).requests(old(self).visits(frame))),
        decreases old(self).height_left(frame), 2nat,
    {
        let before_size = self.get_size(frame);
        self.set_plumbing_size(frame, size);
        let sid = self.get_sid(frame);
        sa.reconfigure(sid, size, MAXIMIZED);
        let geometry = self.get_geometry(frame);
        let hand_down = match geometry {
            Geometry::Horizontal => before_size.width == size.width,
            Geometry::Vertical => before_size.height == size.height,
            _ => false,
        };
        let count = self.count_children(frame);
        proof {
            self.lemma_same_links(old(self));
            old(self).lemma_within_self(frame);
            old(sa)@.lemma_told_once(sid, size);
            assert(self.requests(seq![frame]) =~= seq![(sid, size)]);
            assert(seq![frame] + old(self).visits_among(frame, 0) =~= seq![frame]);
        }
        if !hand_down {
            let ghost sized = *self;
            self.relax(frame, sa);
            proof {
                self.lemma_same_links(&sized);
                let full = old(self).visits_among(frame, count as nat);
                sized.lemma_visits_among_same(old(self), frame, count as nat);
                assert(sized.has(frame));
                sized.lemma_within_self(frame);
                if geometry == Geometry::Floating {
                    assert(self.area_of(frame) == sized.area_of(frame));
                } else {
                    assert(self.area_of(frame) == sized.area_of(frame)) by {
                        old(self).lemma_tile_after_resize(&sized, frame, size, frame);
                    }
                }
                assert forall|other: Frame| #[trigger] old(self).has(other) implies self.area_of(
                    other,
                ) == if old(self).within(other, frame) {
                    old(self).area_after(frame, Change::Resize(size), other)
                } else {
                    old(self).area_of(other)
                } by {
                    assert(sized.has(other));
                    if old(self).within(other, frame) {
                        if geometry == Geometry::Floating {
                            old(self).lemma_floating_untouched(frame, size, other);
                        } else {
                            old(self).lemma_tile_after_resize(&sized, frame, size, other);
                            if !sized.tiles(frame) && other != frame {
                                let j = old(self).lemma_within_some_child(other, frame);
                            }
                        }
                    }
                }
                assert(self.requests(seq![frame]) =~= seq![(sid, size)]);
                if sized.tiles(frame) {
                    assert(old(self).visits(frame) =~= seq![frame] + full);
                    self.lemma_requests_add(seq![frame], full);
                    old(sa)@.lemma_told_twice(seq![(sid, size)], self.requests(full));
                } else {
                    assert(old(self).visits(frame) =~= seq![frame]);
                }
            }
        } else {
            proof {
                old(self).lemma_resize_start(self, frame, size);
            }
            let mut place: usize = 0;
            while place < count
                invariant
                    old(self).wf(),
                    old(self).has(frame),
                    sa.wf(),
                    count == old(self).space_of(frame).len(),
                    place <= count,
                    geometry == old(self).geometry_of(frame),
                    Self::hands_down(
                        old(self).geometry_of(frame),
                        old(self).area_of(frame).size,
                        size,
                    ),
                    old(self).resized_partly(self, frame, size, place as int),
                    sa@ == old(sa)@.told(
                        self.requests(seq![frame] + old(self).visits_among(frame, place as nat)),
                    ),
                decreases count - place,
            {
                proof {
                    self.lemma_same_links(old(self));
                    assert(old(self).space_of(frame).contains(
                        old(self).space_of(frame)[place as int],
                    ));
                    old(self).lemma_child(frame, old(self).space_of(frame)[place as int]);
                    old(self).lemma_within_self(old(self).space_of(frame)[place as int]);
                }
                let child = self.space_child(frame, place);
                let own = self.get_size(child);
                let child_size = match geometry {
                    Geometry::Horizontal => Size { width: own.width, height: size.height },
                    Geometry::Vertical => Size { width: size.width, height: own.height },
                    _ => own,
                };
                let ghost before = *self;
                let ghost told_before = sa@;
                self.set_size(child, child_size, sa);
                proof {
                    self.lemma_same_links(&before);
                    before.lemma_visits_same(old(self), child);
                    old(self).lemma_resize_step(&before, self, frame, size, place as int);
                    assert forall|other: Frame|
                        old(self).has(other) && !#[trigger] old(self).within(
                            other,
                            child,
                        ) implies self.area_of(other).size == before.area_of(other).size by {
                        assert(before.has(other));
                    }
                    old(self).lemma_requests_step(
                        &before,
                        self,
                        frame,
                        place as int,
                        seq![frame],
                        old(sa)@,
                        told_before,
                        sa@,
                    );
                }
                place = place + 1;
            }
            proof {
                self.lemma_same_links(old(self));
                old(self).lemma_resize_done(self, frame, size);
                assert(old(self).visits(frame) =~= seq![frame] + old(self).visits_among(
                    frame,
                    count as nat,
                ));
            }
        }
    }

    /// Lets `frame` settle after a change among its children, by dividing it among them.
    pub fn relax(&mut self, frame: Frame, sa: &mut InnerCoordinator)
        requires
            old(self).wf(),
            old(self).has(frame),
            old(sa).wf(),
        ensures
            final(self).wf(),
            final(sa).wf(),
            old(self).divided(final(self), frame),
            final(sa)@ == old(sa)@.told(
                if old(self).tiles(frame) {
                    final(self).requests(
                        old(self).visits_among(frame, old(self).space_of(frame).len()),
                    )
                } else {
                    Seq::empty()
                },
            ),
        decreases old(self).height_left(frame), 1nat,
    {
        self.homogenize(frame, sa);
    }

    /// Divides `frame` among its children, and resizes what lies below them accordingly.
    /// Stacked children all get the area of `frame`. The children of a vertical frame get
    /// its width and an equal share of its height each, one below the other from the
    /// position of `frame`; those of a horizontal frame its height and an equal share of its
    /// width, one beside the other. The surface of every frame below `frame` is asked to take
    /// the size of its frame. A frame without children and a floating frame are left as they
    /// are, and nothing is asked of any surface.
    pub fn homogenize(&mut self, frame: Frame, sa: &mut InnerCoordinator)
        requires
            old(self).wf(),
            old(self).has(frame),
            old(sa).wf(),
        ensures
            final(self).wf(),
            final(sa).wf(),
            old(self).divided(final(self), frame),
            !old(self).tiles(frame) ==> final(self).areas@ == old(self).areas@ && final(sa)@
                == old(sa)@,
            final(sa)@ == old(sa)@.told(
                if old(self).tiles(frame) {
                    final(self).requests(
                        old(self).visits_among(frame, old(self).space_of(frame).len()),
                    )
                } else {
                    Seq::empty()
                },
            ),
        decreases old(self).height_left(frame), 0nat,
    {
        let count = self.count_children(frame);
        if count < 1 {
            return ;
        }
        let geometry = self.get_geometry(frame);
        let area = self.get_area(frame);
        let mut tile_size = area.size;
        let mut right: usize = 0;
        let mut down: usize = 0;
        match geometry {
            Geometry::Stacked => {},
            Geometry::Vertical => {
                let share = area.size.height / count;
                tile_size = Size { width: area.size.width, height: share };
                down = share;
            },
            Geometry::Horizontal => {
                let share = area.size.width / count;
                tile_size = Size { width: share, height: area.size.height };
                right = share;
            },
            Geometry::Floating => {
                return ;
            },
        }
        let mut position = area.pos;
        let mut place: usize = 0;
        proof {
            old(self).lemma_divide_start(frame);
            assert(self.requests(old(self).visits_among(frame, 0)) =~= Seq::<
                (SurfaceId, Size),
            >::empty());
        }
        while place < count
            invariant
                old(self).wf(),
                old(self).has(frame),
                sa.wf(),
                count == old(self).space_of(frame).len(),
                place <= count,
                geometry == old(self).geometry_of(frame),
                geometry != Geometry::Floating,
                area == old(self).area_of(frame),
                forall|k: nat| #[trigger]
                    tile(geometry, area, count as nat, k).size == tile_size,
                forall|k: nat|
                    tile(geometry, area, count as nat, k + 1).pos == (#[trigger] tile(
                        geometry,
                        area,
                        count as nat,
                        k,
                    )).pos.advanced(right, down),
                position == tile(geometry, area, count as nat, place as nat).pos,
                old(self).divided_partly(self, frame, place as int),
                sa@ == old(sa)@.told(
                    self.requests(old(self).visits_among(frame, place as nat)),
                ),
            decreases count - place,
        {
            proof {
                self.lemma_same_links(old(self));
                assert(old(self).space_of(frame).contains(
                    old(self).space_of(frame)[place as int],
                ));
                old(self).lemma_child(frame, old(self).space_of(frame)[place as int]);
            }
            let child = self.space_child(frame, place);
            let ghost before = *self;
            let ghost told_before = sa@;
            self.set_size(child, tile_size, sa);
            let ghost sized = *self;
            proof {
                self.lemma_same_links(&before);
            }
            self.set_position(child, position);
            proof {
                self.lemma_same_links(&sized);
                before.lemma_visits_same(old(self), child);
                assert(tile(geometry, area, count as nat, place as nat).size == tile_size);
                old(self).lemma_divide_step(&before, &sized, self, frame, place as int);
                assert forall|other: Frame| #[trigger] old(self).has(other) implies self.area_of(
                    other,
                ).size == sized.area_of(other).size by {
                    assert(sized.has(other));
                }
                assert forall|i: int| 0 <= i < old(self).visits(child).len() implies self.area_of(
                    #[trigger] old(self).visits(child)[i],
                ).size == sized.area_of(old(self).visits(child)[i]).size by {
                    old(self).lemma_visits_within(child, i);
                }
                sized.lemma_requests_agree(self, old(self).visits(child));
                assert forall|other: Frame|
                    old(self).has(other) && !#[trigger] old(self).within(
                        other,
                        child,
                    ) implies self.area_of(other).size == before.area_of(other).size by {
                    assert(before.has(other));
                    assert(sized.has(other));
                }
                old(self).lemma_requests_step(
                    &before,
                    self,
                    frame,
                    place as int,
                    Seq::empty(),
                    old(sa)@,
                    told_before,
                    sa@,
                );
                assert(Seq::<Frame>::empty() + old(self).visits_among(
                    frame,
                    (place + 1) as nat,
                ) =~= old(self).visits_among(frame, (place + 1) as nat));
                assert(tile(geometry, area, count as nat, (place + 1) as nat).pos == tile(
                    geometry,
                    area,
                    count as nat,
                    place as nat,
                ).pos.advanced(right, down));
            }
            position = position.advanced_by(right, down);
            place = place + 1;
        }
        proof {
            self.lemma_same_links(old(self));
            old(self).lemma_divide_done(self, frame);
        }
    }
}


impl FrameTree {
    /// True when `later` and `told_after` are what `self` and `told` become when `frame`
    /// is let settle: `frame` is divided among its children, and the surfaces below it are
    /// asked to take the sizes of their frames.
    pub open spec fn relaxed(
        &self,
        later: &FrameTree,
        frame: Frame,
        told: CoordinatorModel,
        told_after: CoordinatorModel,
    ) -> bool {
        &&& self.divided(later, frame)
        &&& told_after == told.told(
            if self.tiles(frame) {
                later.requests(self.visits_among(frame, self.space_of(frame).len()))
            } else {
                Seq::empty()
            },
        )
    }

    /// Takes `frame` out of the children of its parent and lets the parent settle, so that
    /// the children that stay share the parent's area. A frame without a parent is left as it
    /// is.
    pub fn remove_self(&mut self, frame: Frame, sa: &mut InnerCoordinator)
        requires
            old(self).wf(),
            old(self).has(frame),
            old(sa).wf(),
        ensures
            final(self).wf(),
            final(sa).wf(),
            final(self).parent_of(frame).is_none(),
            match old(self).parent_of(frame) {
                Some(parent) => exists|removed: FrameTree|
                    {
                        &&& #[trigger] old(self).detached(&removed, parent, frame)
                        &&& removed.relaxed(final(self), parent, old(sa)@, final(sa)@)
                    },
                None => {
                    &&& final(self).same_links(old(self))
                    &&& final(self).areas@ == old(self).areas@
                    &&& final(sa)@ == old(sa)@
                },
            },
    {
        proof {
            assert(old(self).frame_wf(frame));
        }
        match self.get_parent(frame) {
            Some(parent) => {
                self.remove(frame);
                let ghost removed = *self;
                self.relax(parent, sa);
                proof {
                    assert(old(self).detached(&removed, parent, frame));
                    assert(removed.relaxed(self, parent, old(sa)@, sa@));
                }
            },
            None => {},
        }
    }
}

} // verus!
