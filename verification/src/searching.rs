//! Finding frames in the tree: the frame to build on, the frame that shows a surface, the
//! frame under a point, and the neighbours of a frame.

use vstd::prelude::*;
use crate::defs::{Direction, Position, SurfaceId};
use crate::frame::{Frame, FrameTree, Geometry, Mode};
use crate::linking::place_in;

verus! {

impl FrameTree {
    /// The frame on which a new frame is built from `frame`: the parent of a frame that
    /// shows a surface, the frame itself otherwise.
    pub open spec fn buildable_of(&self, frame: Frame) -> Option<Frame> {
        if self.sid_of(frame).valid() {
            self.parent_of(frame)
        } else {
            Some(frame)
        }
    }

    /// The nearest display or workspace among `frame` and the frames above it.
    pub open spec fn top_of(&self, frame: Frame) -> Option<Frame>
        decreases self.level_of(frame),
    {
        if self.mode_of(frame).top() {
            Some(frame)
        } else {
            match self.parent_of(frame) {
                Some(parent) => if self.level_of(parent) < self.level_of(frame) {
                    self.top_of(parent)
                } else {
                    None
                },
                None => None,
            }
        }
    }

    /// The first frame that shows `sid` among `frame` and the frames below it, where a
    /// frame comes before its children and the children come most recently used first.
    pub open spec fn sid_below(&self, frame: Frame, sid: SurfaceId) -> Option<Frame>
        decreases self.height_left(frame), self.time_of(frame).len() + 1,
    {
        if self.sid_of(frame) == sid {
            Some(frame)
        } else {
            self.sid_among(frame, 0, sid)
        }
    }

    /// The first frame that shows `sid` below `frame`, leaving out the first `from`
    /// children in the order of use and what lies below them.
    pub open spec fn sid_among(&self, frame: Frame, from: nat, sid: SurfaceId) -> Option<Frame>
        decreases self.height_left(frame), self.time_of(frame).len() - from,
    {
        if from >= self.time_of(frame).len() {
            None
        } else {
            let child = self.time_of(frame)[from as int];
            let found = if self.height_left(child) < self.height_left(frame) {
                self.sid_below(child, sid)
            } else {
                None
            };
            if found.is_some() {
                found
            } else {
                self.sid_among(frame, from + 1, sid)
            }
        }
    }

    /// The frame under `point`, looked for from `frame` downwards. The point is first
    /// brought into the area of `frame`. The first child in the order of use that holds the
    /// point is entered; a child of a leaf is the answer itself. Where no child holds the
    /// point, `frame` is the answer.
    pub open spec fn pointed_at(&self, frame: Frame, point: Position) -> Frame
        decreases self.height_left(frame), self.time_of(frame).len() + 1,
    {
        self.pointed_among(frame, 0, self.area_of(frame).nearest(point))
    }

    /// The frame under `point` below `frame`, leaving out the first `from` children in the
    /// order of use.
    pub open spec fn pointed_among(&self, frame: Frame, from: nat, point: Position) -> Frame
        decreases self.height_left(frame), self.time_of(frame).len() - from,
    {
        if from >= self.time_of(frame).len() {
            frame
        } else {
            let child = self.time_of(frame)[from as int];
            if self.area_of(child).holds(point) {
                if self.mode_of(frame) != Mode::Leaf && self.height_left(child)
                    < self.height_left(frame) {
                    self.pointed_at(child, point)
                } else {
                    child
                }
            } else {
                self.pointed_among(frame, from + 1, point)
            }
        }
    }

    /// The child that stands before `frame` among its parent's children, in the order of
    /// the layout.
    pub open spec fn prev_space_of(&self, frame: Frame) -> Option<Frame> {
        match self.parent_of(frame) {
            Some(parent) => {
                let place = self.space_of(parent).index_of(frame);
                if place > 0 {
                    Some(self.space_of(parent)[place - 1])
                } else {
                    None
                }
            },
            None => None,
        }
    }

    /// The child that stands after `frame` among its parent's children, in the order of
    /// the layout.
    pub open spec fn next_space_of(&self, frame: Frame) -> Option<Frame> {
        match self.parent_of(frame) {
            Some(parent) => {
                let place = self.space_of(parent).index_of(frame);
                if place + 1 < self.space_of(parent).len() {
                    Some(self.space_of(parent)[place + 1])
                } else {
                    None
                }
            },
            None => None,
        }
    }

    /// The sibling of `frame` that lies in `direction`, if the parent lays out its
    /// children along that direction: north and south under a vertical parent, west and
    /// east under a horizontal one.
    pub open spec fn sibling_toward(&self, frame: Frame, direction: Direction) -> Option<Frame> {
        match self.parent_of(frame) {
            Some(parent) => {
                let geometry = self.geometry_of(parent);
                if geometry == Geometry::Vertical && direction == Direction::North {
                    self.prev_space_of(frame)
                } else if geometry == Geometry::Vertical && direction == Direction::South {
                    self.next_space_of(frame)
                } else if geometry == Geometry::Horizontal && direction == Direction::West {
                    self.prev_space_of(frame)
                } else if geometry == Geometry::Horizontal && direction == Direction::East {
                    self.next_space_of(frame)
                } else {
                    None
                }
            },
            None => None,
        }
    }

    /// The frame reached from `frame` by `distance` steps in `direction`. A step goes to
    /// the sibling in that direction; where there is none the walk climbs to the parent,
    /// which counts as a step only when the direction is up. A frame without a parent has
    /// no neighbour, and the walk stops without a result at a display or workspace.
    pub open spec fn contiguous(&self, frame: Frame, direction: Direction, distance: nat) -> Option<
        Frame,
    >
        decreases distance, self.level_of(frame),
    {
        if distance == 0 {
            Some(frame)
        } else {
            match self.parent_of(frame) {
                Some(parent) => {
                    let side = self.sibling_toward(frame, direction);
                    let next = match side {
                        Some(sibling) => sibling,
                        None => parent,
                    };
                    let left = if side.is_some() || direction == Direction::Up {
                        (distance - 1) as nat
                    } else {
                        distance
                    };
                    if self.mode_of(next).top() {
                        None
                    } else if left < distance || self.level_of(next) < self.level_of(frame) {
                        self.contiguous(next, direction, left)
                    } else {
                        None
                    }
                },
                None => None,
            }
        }
    }

    /// The frame reached from `current` by `steps` rounds, each of which takes one step
    /// in `direction` and then descends to the frame under `point`.
    pub open spec fn slid(
        &self,
        current: Frame,
        point: Position,
        direction: Direction,
        steps: nat,
    ) -> Option<Frame>
        decreases steps,
    {
        if steps == 0 {
            Some(current)
        } else {
            match self.contiguous(current, direction, 1) {
                Some(next) => self.slid(
                    self.pointed_at(next, point),
                    point,
                    direction,
                    (steps - 1) as nat,
                ),
                None => None,
            }
        }
    }

    /// The frame that borders on `frame` in `direction`, `distance` frames away: after each
    /// step the walk descends to the frame under the centre of `frame`.
    pub open spec fn adjacent(&self, frame: Frame, direction: Direction, distance: nat) -> Option<
        Frame,
    > {
        self.slid(frame, self.area_of(frame).center(), direction, distance)
    }

    /// Finds the frame on which a new frame is built from `frame`: its parent when it shows
    /// a surface, that is when it is a leaf, and the frame itself otherwise.
    pub fn find_buildable(&self, frame: Frame) -> (found: Option<Frame>)
        requires
            self.wf(),
            self.has(frame),
        ensures
            found == self.buildable_of(frame),
            found == if self.mode_of(frame) == Mode::Leaf {
                self.parent_of(frame)
            } else {
                Some(frame)
            },
            found matches Some(target) ==> self.has(target),
    {
        proof {
            assert(self.frame_wf(frame));
        }
        if self.get_sid(frame).is_valid() {
            self.get_parent(frame)
        } else {
            Some(frame)
        }
    }

    /// Finds the nearest display or workspace among `frame` and the frames above it.
    pub fn find_top(&self, frame: Frame) -> (found: Option<Frame>)
        requires
            self.wf(),
            self.has(frame),
        ensures
            found == self.top_of(frame),
            found matches Some(top) ==> self.has(top) && self.mode_of(top).top() && self.within(
                frame,
                top,
            ),
            self.parent_of(frame).is_none() ==> found == if self.mode_of(frame).top() {
                Some(frame)
            } else {
                None
            },
    {
        let mut current = frame;
        loop
            invariant
                self.wf(),
                self.has(current),
                self.top_of(current) == self.top_of(frame),
                forall|top: Frame| self.within(current, top) ==> self.within(frame, top),
            decreases self.level_of(current),
        {
            proof {
                assert(self.frame_wf(current));
            }
            if self.get_mode(current).is_top() {
                return Some(current);
            }
            match self.get_parent(current) {
                Some(parent) => {
                    proof {
                        assert forall|top: Frame| self.within(parent, top) implies self.within(
                            frame,
                            top,
                        ) by {
                            assert(self.within(current, top));
                        }
                    }
                    current = parent;
                },
                None => {
                    return None;
                },
            }
        }
    }

    /// Finds the first frame that shows `sid` among `frame` and the frames below it.
    pub fn find_with_sid(&self, frame: Frame, sid: SurfaceId) -> (found: Option<Frame>)
        requires
            self.wf(),
            self.has(frame),
        ensures
            found == self.sid_below(frame, sid),
            found matches Some(shown) ==> self.has(shown) && self.sid_of(shown) == sid,
        decreases self.height_left(frame),
    {
        proof {
            assert(self.frame_wf(frame));
        }
        if self.get_sid(frame) == sid {
            return Some(frame);
        }
        let count = self.nodes[frame.index].time.len();
        let mut place: usize = 0;
        while place < count
            invariant
                self.wf(),
                self.has(frame),
                count == self.time_of(frame).len(),
                place <= count,
                self.sid_of(frame) != sid,
                self.sid_among(frame, place as nat, sid) == self.sid_among(frame, 0, sid),
            decreases count - place,
        {
            let child = self.time_child(frame, place);
            proof {
                assert(self.frame_wf(frame));
                assert(self.space_of(frame).contains(self.time_of(frame)[place as int]));
                let at = choose|at: int|
                    0 <= at < self.space_of(frame).len() && self.space_of(frame)[at] == child;
                assert(self.has(self.space_of(frame)[at]));
                assert(self.frame_wf(child));
                assert(self.height_left(child) < self.height_left(frame));
            }
            let found = self.find_with_sid(child, sid);
            proof {
                assert(self.sid_among(frame, place as nat, sid) == if found.is_some() {
                    found
                } else {
                    self.sid_among(frame, (place + 1) as nat, sid)
                });
            }
            if found.is_some() {
                return found;
            }
            place = place + 1;
        }
        None
    }
}


impl FrameTree {
    /// A child of a frame of a well-formed arena is a frame of the arena, one level further
    /// from the root, whichever of the two orders it is taken from.
    pub proof fn lemma_child(&self, frame: Frame, child: Frame)
        requires
            self.wf(),
            self.has(frame),
            self.space_of(frame).contains(child) || self.time_of(frame).contains(child),
        ensures
            self.has(child),
            self.parent_of(child) == Some(frame),
            self.space_of(frame).contains(child),
            self.time_of(frame).contains(child),
            self.height_left(child) < self.height_left(frame),
            self.level_of(frame) < self.level_of(child),
    {
        assert(self.frame_wf(frame));
        if !self.space_of(frame).contains(child) {
            let at = choose|at: int|
                0 <= at < self.time_of(frame).len() && self.time_of(frame)[at] == child;
            assert(self.space_of(frame).contains(self.time_of(frame)[at]));
        }
        let at = choose|at: int|
            0 <= at < self.space_of(frame).len() && self.space_of(frame)[at] == child;
        assert(self.has(self.space_of(frame)[at]));
        assert(self.time_of(frame).contains(self.space_of(frame)[at]));
        assert(self.frame_wf(child));
    }

    /// Finds the frame under `point`, from `frame` downwards. A point outside `frame` is
    /// taken for the nearest point inside.
    pub fn find_pointed(&self, frame: Frame, point: Position) -> (found: Frame)
        requires
            self.wf(),
            self.has(frame),
        ensures
            found == self.pointed_at(frame, point),
            self.has(found),
            self.within(found, frame),
        decreases self.height_left(frame),
    {
        let area = self.get_area(frame);
        let inside = point.casted(&area);
        let leaf = self.get_mode(frame) == Mode::Leaf;
        let count = self.nodes[frame.index].time.len();
        let mut place: usize = 0;
        while place < count
            invariant
                self.wf(),
                self.has(frame),
                count == self.time_of(frame).len(),
                place <= count,
                leaf == (self.mode_of(frame) == Mode::Leaf),
                inside == self.area_of(frame).nearest(point),
                self.pointed_among(frame, place as nat, inside) == self.pointed_among(
                    frame,
                    0,
                    inside,
                ),
            decreases count - place,
        {
            let child = self.time_child(frame, place);
            proof {
                assert(self.time_of(frame).contains(self.time_of(frame)[place as int]));
                self.lemma_child(frame, child);
            }
            if self.get_area(child).contains(&inside) {
                if leaf {
                    proof {
                        self.lemma_within_self(child);
                        self.lemma_within_below(child, child, frame);
                        assert(self.pointed_among(frame, place as nat, inside) == child);
                    }
                    return child;
                } else {
                    let found = self.find_pointed(child, inside);
                    proof {
                        self.lemma_within_below(found, child, frame);
                        assert(self.pointed_among(frame, place as nat, inside) == found);
                    }
                    return found;
                }
            }
            proof {
                assert(self.pointed_among(frame, place as nat, inside) == self.pointed_among(
                    frame,
                    (place + 1) as nat,
                    inside,
                ));
            }
            place = place + 1;
        }
        proof {
            self.lemma_within_self(frame);
        }
        frame
    }

    /// A frame that lies within a child of `frame` lies within `frame`.
    pub proof fn lemma_within_below(&self, frame: Frame, child: Frame, top: Frame)
        requires
            self.wf(),
            self.has(frame),
            self.has(child),
            self.within(frame, child),
            self.parent_of(child) == Some(top),
        ensures
            self.within(frame, top),
        decreases self.level_of(frame),
    {
        assert(self.frame_wf(frame));
        assert(self.frame_wf(child));
        if frame == child {
            assert(self.within(top, top));
        } else {
            match self.parent_of(frame) {
                Some(parent) => {
                    self.lemma_within_below(parent, child, top);
                },
                None => {},
            }
        }
    }

    /// The child that stands before `frame` among its parent's children.
    pub fn get_prev_space(&self, frame: Frame) -> (found: Option<Frame>)
        requires
            self.wf(),
            self.has(frame),
        ensures
            found == self.prev_space_of(frame),
            found matches Some(sibling) ==> self.has(sibling) && self.parent_of(sibling)
                == self.parent_of(frame),
    {
        proof {
            assert(self.frame_wf(frame));
        }
        match self.get_parent(frame) {
            Some(parent) => {
                proof {
                    assert(self.frame_wf(parent));
                }
                let place = place_in(&self.nodes[parent.index].space, frame);
                proof {
                    crate::seqs::lemma_index_of_unique(self.space_of(parent), place as int);
                }
                if place > 0 {
                    let sibling = self.nodes[parent.index].space[place - 1];
                    proof {
                        assert(self.has(self.space_of(parent)[place - 1]));
                    }
                    Some(sibling)
                } else {
                    None
                }
            },
            None => None,
        }
    }

    /// The child that stands after `frame` among its parent's children.
    pub fn get_next_space(&self, frame: Frame) -> (found: Option<Frame>)
        requires
            self.wf(),
            self.has(frame),
        ensures
            found == self.next_space_of(frame),
            found matches Some(sibling) ==> self.has(sibling) && self.parent_of(sibling)
                == self.parent_of(frame),
    {
        proof {
            assert(self.frame_wf(frame));
        }
        match self.get_parent(frame) {
            Some(parent) => {
                proof {
                    assert(self.frame_wf(parent));
                }
                let place = place_in(&self.nodes[parent.index].space, frame);
                proof {
                    crate::seqs::lemma_index_of_unique(self.space_of(parent), place as int);
                }
                let count = self.nodes[parent.index].space.len();
                if place + 1 < count {
                    let sibling = self.nodes[parent.index].space[place + 1];
                    proof {
                        assert(self.has(self.space_of(parent)[place + 1]));
                    }
                    Some(sibling)
                } else {
                    None
                }
            },
            None => None,
        }
    }

    /// The sibling of `frame` in `direction`, where the parent lays out its children along
    /// that direction.
    fn get_sibling_toward(&self, frame: Frame, parent: Frame, direction: Direction) -> (found:
        Option<Frame>)
        requires
            self.wf(),
            self.has(frame),
            self.parent_of(frame) == Some(parent),
        ensures
            found == self.sibling_toward(frame, direction),
            found matches Some(sibling) ==> self.has(sibling),
    {
        proof {
            assert(self.frame_wf(frame));
        }
        let geometry = self.get_geometry(parent);
        if geometry == Geometry::Vertical {
            if direction == Direction::North {
                self.get_prev_space(frame)
            } else if direction == Direction::South {
                self.get_next_space(frame)
            } else {
                None
            }
        } else if geometry == Geometry::Horizontal {
            if direction == Direction::West {
                self.get_prev_space(frame)
            } else if direction == Direction::East {
                self.get_next_space(frame)
            } else {
                None
            }
        } else {
            None
        }
    }

    /// Finds the frame reached from `frame` by `distance` steps in `direction`. With no
    /// step to take the answer is `frame` itself.
    pub fn find_contiguous(&self, frame: Frame, direction: Direction, distance: u32) -> (found:
        Option<Frame>)
        requires
            self.wf(),
            self.has(frame),
        ensures
            found == self.contiguous(frame, direction, distance as nat),
            found matches Some(neighbour) ==> self.has(neighbour),
            distance == 0 ==> found == Some(frame),
        decreases distance, self.level_of(frame),
    {
        if distance == 0 {
            return Some(frame);
        }
        proof {
            assert(self.frame_wf(frame));
        }
        match self.get_parent(frame) {
            Some(parent) => {
                let side = self.get_sibling_toward(frame, parent, direction);
                let left = if side.is_some() || direction == Direction::Up {
                    distance - 1
                } else {
                    distance
                };
                let next = match side {
                    Some(sibling) => sibling,
                    None => parent,
                };
                if self.get_mode(next).is_top() {
                    None
                } else {
                    self.find_contiguous(next, direction, left)
                }
            },
            None => None,
        }
    }

    /// Finds the frame that borders on `frame` in `direction`, `distance` frames away.
    pub fn find_adjacent(&self, frame: Frame, direction: Direction, distance: u32) -> (found:
        Option<Frame>)
        requires
            self.wf(),
            self.has(frame),
        ensures
            found == self.adjacent(frame, direction, distance as nat),
            found matches Some(neighbour) ==> self.has(neighbour),
    {
        let point = self.get_area(frame).calculate_center();
        let mut current = frame;
        let mut done: u32 = 0;
        while done < distance
            invariant
                self.wf(),
                self.has(current),
                done <= distance,
                point == self.area_of(frame).center(),
                self.slid(current, point, direction, (distance - done) as nat) == self.slid(
                    frame,
                    point,
                    direction,
                    distance as nat,
                ),
            decreases distance - done,
        {
            let ghost before = current;
            match self.find_contiguous(current, direction, 1) {
                Some(next) => {
                    current = self.find_pointed(next, point);
                },
                None => {
                    proof {
                        assert(self.slid(before, point, direction, (distance - done) as nat)
                            == None::<Frame>);
                    }
                    return None;
                },
            }
            proof {
                assert(self.slid(before, point, direction, (distance - done) as nat)
                    == self.slid(current, point, direction, (distance - done - 1) as nat));
            }
            done = done + 1;
        }
        Some(current)
    }
}


impl FrameTree {
    /// What the search for a surface finds shows the surface and lies within the frame
    /// from which the search went out.
    pub proof fn lemma_sid_below_sound(&self, frame: Frame, sid: SurfaceId)
        requires
            self.wf(),
            self.has(frame),
            self.sid_below(frame, sid).is_some(),
        ensures
            self.has(self.sid_below(frame, sid).unwrap()),
            self.within(self.sid_below(frame, sid).unwrap(), frame),
            self.sid_of(self.sid_below(frame, sid).unwrap()) == sid,
        decreases self.height_left(frame), self.time_of(frame).len() + 1,
    {
        if self.sid_of(frame) == sid {
            self.lemma_within_self(frame);
        } else {
            self.lemma_sid_among_sound(frame, 0, sid);
        }
    }

    /// The same of the search among the children of a frame.
    pub proof fn lemma_sid_among_sound(&self, frame: Frame, from: nat, sid: SurfaceId)
        requires
            self.wf(),
            self.has(frame),
            self.sid_among(frame, from, sid).is_some(),
        ensures
            self.has(self.sid_among(frame, from, sid).unwrap()),
            self.within(self.sid_among(frame, from, sid).unwrap(), frame),
            self.sid_of(self.sid_among(frame, from, sid).unwrap()) == sid,
        decreases self.height_left(frame), self.time_of(frame).len() - from,
    {
        if from < self.time_of(frame).len() {
            let child = self.time_of(frame)[from as int];
            assert(self.time_of(frame).contains(child));
            self.lemma_child(frame, child);
            let found = self.sid_below(child, sid);
            if found.is_some() {
                self.lemma_sid_below_sound(child, sid);
                self.lemma_within_below(found.unwrap(), child, frame);
            } else {
                self.lemma_sid_among_sound(frame, from + 1, sid);
            }
        }
    }

    /// The search among the children of a frame finds something when the search below one
    /// of the children that it looks at does.
    proof fn lemma_sid_among_finds(&self, frame: Frame, from: nat, at: nat, sid: SurfaceId)
        requires
            self.wf(),
            self.has(frame),
            from <= at < self.time_of(frame).len(),
            self.sid_below(self.time_of(frame)[at as int], sid).is_some(),
        ensures
            self.sid_among(frame, from, sid).is_some(),
        decreases at - from,
    {
        let child = self.time_of(frame)[from as int];
        assert(self.time_of(frame).contains(child));
        self.lemma_child(frame, child);
        if from < at {
            self.lemma_sid_among_finds(frame, from + 1, at, sid);
        }
    }

    /// The search for a surface finds something when a frame within the frame from which
    /// it goes out shows the surface.
    pub proof fn lemma_sid_below_complete(&self, frame: Frame, sid: SurfaceId, shown: Frame)
        requires
            self.wf(),
            self.has(frame),
            self.has(shown),
            self.within(shown, frame),
            self.sid_of(shown) == sid,
        ensures
            self.sid_below(frame, sid).is_some(),
        decreases self.height_left(frame),
    {
        if self.sid_of(frame) != sid {
            let place = self.lemma_within_some_child(shown, frame);
            let child = self.space_of(frame)[place];
            assert(self.space_of(frame).contains(child));
            self.lemma_child(frame, child);
            self.lemma_sid_below_complete(child, sid, shown);
            let at = choose|at: int|
                0 <= at < self.time_of(frame).len() && self.time_of(frame)[at] == child;
            self.lemma_sid_among_finds(frame, 0, at as nat, sid);
        }
    }

    /// The search for the surface `sid` from `frame` finds a frame exactly when some frame
    /// within `frame` shows `sid`; for a surface that there can be, such a frame is a leaf.
    pub proof fn lemma_find_with_sid(&self, frame: Frame, sid: SurfaceId)
        requires
            self.wf(),
            self.has(frame),
        ensures
            self.sid_below(frame, sid).is_some() <==> exists|shown: Frame|
                self.has(shown) && #[trigger] self.within(shown, frame) && self.sid_of(shown)
                    == sid,
            sid.valid() ==> (self.sid_below(frame, sid).is_some() <==> exists|shown: Frame|
                self.has(shown) && #[trigger] self.within(shown, frame) && self.mode_of(shown)
                    == Mode::Leaf && self.sid_of(shown) == sid),
    {
        if self.sid_below(frame, sid).is_some() {
            self.lemma_sid_below_sound(frame, sid);
            let found = self.sid_below(frame, sid).unwrap();
            assert(self.frame_wf(found));
            assert(self.has(found) && self.within(found, frame) && self.sid_of(found) == sid);
        }
        if exists|shown: Frame|
            self.has(shown) && #[trigger] self.within(shown, frame) && self.sid_of(shown) == sid {
            let shown = choose|shown: Frame|
                self.has(shown) && #[trigger] self.within(shown, frame) && self.sid_of(shown)
                    == sid;
            self.lemma_sid_below_complete(frame, sid, shown);
        }
    }

    /// The frame on which to build from a leaf is its parent; from any other frame it is
    /// the frame itself.
    pub proof fn lemma_find_buildable(&self, frame: Frame)
        requires
            self.wf(),
            self.has(frame),
        ensures
            self.mode_of(frame) == Mode::Leaf ==> self.buildable_of(frame) == self.parent_of(
                frame,
            ),
            self.mode_of(frame) != Mode::Leaf ==> self.buildable_of(frame) == Some(frame),
    {
        assert(self.frame_wf(frame));
    }

    /// From the root, which is neither a display nor a workspace, no display or workspace
    /// is found above. From any frame without a parent the search finds the frame itself or
    /// nothing.
    pub proof fn lemma_find_top_of_root(&self, frame: Frame)
        requires
            self.wf(),
            self.has(frame),
            self.parent_of(frame).is_none(),
        ensures
            self.top_of(frame) == if self.mode_of(frame).top() {
                Some(frame)
            } else {
                None
            },
            self.top_of(Self::root_frame()).is_none(),
    {
        assert(self.has(Self::root_frame()));
        assert(self.frame_wf(Self::root_frame()));
    }

    /// A search for a neighbour at no distance finds the frame itself.
    pub proof fn lemma_contiguous_nowhere(&self, frame: Frame, direction: Direction)
        ensures
            self.contiguous(frame, direction, 0) == Some(frame),
    {
    }
}

} // verus!
