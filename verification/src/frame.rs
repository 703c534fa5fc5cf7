//! The frame tree: an arena of frames, each with its place in the layout, its role, the
//! surface it shows and its links to parent and children.
//!
//! A frame keeps its children in two orders: in space (the order of the layout) and in time
//! (most recently used first). Both orders hold the same frames.

use vstd::prelude::*;
use crate::defs::{Area, Position, Size, SurfaceId};

verus! {

/// How a frame lays out its children.
#[derive(Clone, Copy, Debug, PartialEq, Eq, Structural)]
pub enum Geometry {
    Horizontal,
    Vertical,
    Stacked,
    Floating,
}

/// The role of a frame in the tree.
#[derive(Clone, Copy, Debug, PartialEq, Eq, Structural)]
pub enum Mode {
    Root,
    Display,
    Workspace,
    Container,
    Leaf,
}

impl Mode {
    /// True for the roles at which a search for neighbours stops: displays and workspaces.
    pub open spec fn top(self) -> bool {
        self == Mode::Display || self == Mode::Workspace
    }

    /// Tells whether the role is one at which a search for neighbours stops.
    pub fn is_top(&self) -> (top: bool)
        ensures
            top == self.top(),
    {
        match self {
            Mode::Display => true,
            Mode::Workspace => true,
            _ => false,
        }
    }
}

/// Handle of a frame: its place in the arena of a `FrameTree`.
#[derive(Clone, Copy, Debug, PartialEq, Eq, Structural)]
pub struct Frame {
    pub index: usize,
}

/// Role, surface and links of one frame.
pub struct Node {
    pub mode: Mode,
    pub geometry: Geometry,
    pub sid: SurfaceId,
    pub parent: Option<Frame>,
    /// The children in the order of the layout.
    pub space: Vec<Frame>,
    /// The children, most recently used first.
    pub time: Vec<Frame>,
}

/// An arena of frames. The frame at index zero is the root; every other frame is either
/// the child of one frame of the arena or detached.
pub struct FrameTree {
    pub nodes: Vec<Node>,
    pub areas: Vec<Area>,
    /// A number for each frame that is greater than its parent's.
    pub level: Ghost<Seq<nat>>,
    /// A number greater than every frame's level.
    pub limit: Ghost<nat>,
}

impl FrameTree {
    /// True when `frame` names a frame of this arena.
    pub open spec fn has(&self, frame: Frame) -> bool {
        frame.index < self.nodes@.len()
    }

    pub open spec fn mode_of(&self, frame: Frame) -> Mode {
        self.nodes@[frame.index as int].mode
    }

    pub open spec fn geometry_of(&self, frame: Frame) -> Geometry {
        self.nodes@[frame.index as int].geometry
    }

    pub open spec fn sid_of(&self, frame: Frame) -> SurfaceId {
        self.nodes@[frame.index as int].sid
    }

    pub open spec fn parent_of(&self, frame: Frame) -> Option<Frame> {
        self.nodes@[frame.index as int].parent
    }

    /// The children of `frame` in the order of the layout.
    pub open spec fn space_of(&self, frame: Frame) -> Seq<Frame> {
        self.nodes@[frame.index as int].space@
    }

    /// The children of `frame`, most recently used first.
    pub open spec fn time_of(&self, frame: Frame) -> Seq<Frame> {
        self.nodes@[frame.index as int].time@
    }

    pub open spec fn area_of(&self, frame: Frame) -> Area {
        self.areas@[frame.index as int]
    }

    pub open spec fn level_of(&self, frame: Frame) -> nat {
        self.level@[frame.index as int]
    }

    /// The handle of the root.
    pub open spec fn root_frame() -> Frame {
        Frame { index: 0 }
    }

    /// What holds of one frame of a well-formed arena.
    pub open spec fn frame_wf(&self, frame: Frame) -> bool {
        let space = self.space_of(frame);
        let time = self.time_of(frame);
        &&& self.level_of(frame) < self.limit@
        &&& (self.mode_of(frame) == Mode::Leaf <==> self.sid_of(frame).valid())
        &&& (self.mode_of(frame) == Mode::Root ==> self.parent_of(frame).is_none()
            && self.geometry_of(frame) == Geometry::Floating)
        &&& match self.parent_of(frame) {
            Some(parent) => {
                &&& self.has(parent)
                &&& self.level_of(parent) < self.level_of(frame)
                &&& self.space_of(parent).contains(frame)
                &&& (self.mode_of(parent) == Mode::Root ==> self.mode_of(frame) == Mode::Display)
            },
            None => true,
        }
        &&& space.no_duplicates()
        &&& time.no_duplicates()
        &&& space.len() == time.len()
        &&& forall|k: int|
            0 <= k < space.len() ==> self.has(#[trigger] space[k]) && self.parent_of(space[k])
                == Some(frame)
        &&& forall|k: int| 0 <= k < space.len() ==> time.contains(#[trigger] space[k])
        &&& forall|k: int| 0 <= k < time.len() ==> space.contains(#[trigger] time[k])
    }

    /// The arena is well formed: it has a root, the links between parents and children agree,
    /// no frame is its own ancestor, a frame is a leaf exactly when it shows a surface, and the
    /// two orders of a frame's children hold the same frames.
    pub open spec fn wf(&self) -> bool {
        &&& self.nodes@.len() > 0
        &&& self.areas@.len() == self.nodes@.len()
        &&& self.level@.len() == self.nodes@.len()
        &&& self.mode_of(Self::root_frame()) == Mode::Root
        &&& forall|frame: Frame| self.has(frame) ==> #[trigger] self.frame_wf(frame)
    }

    /// True when `frame` is `top` or lies below it.
    pub open spec fn within(&self, frame: Frame, top: Frame) -> bool
        decreases self.level_of(frame),
    {
        frame == top || match self.parent_of(frame) {
            Some(parent) => self.level_of(parent) < self.level_of(frame) && self.within(
                parent,
                top,
            ),
            None => false,
        }
    }

    /// The number of frames between `frame` and the deepest frame there could be: what
    /// bounds a walk from `frame` down to its descendants.
    pub open spec fn height_left(&self, frame: Frame) -> nat {
        (self.limit@ - self.level_of(frame)) as nat
    }
}


impl FrameTree {
    /// An arena that holds the root alone: floating, at the origin, without extent.
    pub fn new_root() -> (tree: FrameTree)
        ensures
            tree.wf(),
            tree.nodes@.len() == 1,
            tree.geometry_of(Self::root_frame()) == Geometry::Floating,
            tree.space_of(Self::root_frame()).len() == 0,
            tree.area_of(Self::root_frame()) == (Area {
                pos: Position { x: 0, y: 0 },
                size: Size { width: 0, height: 0 },
            }),
    {
        let node = Node {
            mode: Mode::Root,
            geometry: Geometry::Floating,
            sid: SurfaceId::invalid(),
            parent: None,
            space: Vec::new(),
            time: Vec::new(),
        };
        let mut nodes: Vec<Node> = Vec::new();
        nodes.push(node);
        let mut areas: Vec<Area> = Vec::new();
        areas.push(Area::new(Position::origin(), Size::new(0, 0)));
        let tree = FrameTree { nodes, areas, level: Ghost(Seq::<nat>::empty().push(0)), limit: Ghost(1) };
        assert(forall|frame: Frame| tree.has(frame) ==> #[trigger] tree.frame_wf(frame));
        tree
    }

    /// The handle of the root.
    pub fn root(&self) -> (frame: Frame)
        ensures
            frame == Self::root_frame(),
    {
        Frame { index: 0 }
    }

    /// True when `later` holds the frames of `self` unchanged, and one more frame after
    /// them: detached, without children, with the given role, layout, surface and area.
    pub open spec fn grown_by(
        &self,
        later: &FrameTree,
        mode: Mode,
        geometry: Geometry,
        sid: SurfaceId,
        area: Area,
    ) -> bool {
        let frame = Frame { index: self.nodes@.len() as usize };
        &&& later.nodes@.len() == self.nodes@.len() + 1
        &&& later.areas@ == self.areas@.push(area)
        &&& later.level@ == self.level@.push(0)
        &&& later.limit@ == self.limit@
        &&& forall|i: int| 0 <= i < self.nodes@.len() ==> later.nodes@[i] == self.nodes@[i]
        &&& later.mode_of(frame) == mode
        &&& later.geometry_of(frame) == geometry
        &&& later.sid_of(frame) == sid
        &&& later.parent_of(frame).is_none()
        &&& later.space_of(frame).len() == 0
        &&& later.time_of(frame).len() == 0
    }

    /// Adds a detached frame without children to the arena.
    fn new_frame(&mut self, mode: Mode, geometry: Geometry, sid: SurfaceId, area: Area) -> (frame:
        Frame)
        requires
            old(self).wf(),
            mode != Mode::Root,
            mode == Mode::Leaf <==> sid.valid(),
        ensures
            final(self).wf(),
            frame.index == old(self).nodes@.len(),
            old(self).grown_by(final(self), mode, geometry, sid, area),
    {
        let frame = Frame { index: self.nodes.len() };
        let node = Node { mode, geometry, sid, parent: None, space: Vec::new(), time: Vec::new() };
        self.nodes.push(node);
        self.areas.push(area);
        proof {
            self.level@ = self.level@.push(0);
            assert forall|other: Frame| self.has(other) implies #[trigger] self.frame_wf(
                other,
            ) by {
                if other.index < old(self).nodes@.len() {
                    assert(old(self).has(other));
                    assert(old(self).frame_wf(other));
                    assert(self.nodes@[other.index as int] == old(self).nodes@[other.index as int]);
                    match old(self).parent_of(other) {
                        Some(parent) => {
                            assert(self.nodes@[parent.index as int] == old(self).nodes@[parent.index as int]);
                        },
                        None => {},
                    }
                    let space = self.space_of(other);
                    assert forall|k: int| 0 <= k < space.len() implies self.has(
                        #[trigger] space[k],
                    ) && self.parent_of(space[k]) == Some(other) by {
                        assert(old(self).has(space[k]));
                        assert(self.nodes@[space[k].index as int] == old(self).nodes@[space[k].index as int]);
                    }
                } else {
                    assert(other == frame);
                    assert(old(self).has(Self::root_frame()));
                    assert(old(self).frame_wf(Self::root_frame()));
                }
            }
        }
        frame
    }

    /// Adds a display that covers `area`. Its children are stacked.
    pub fn new_display(&mut self, area: Area) -> (frame: Frame)
        requires
            old(self).wf(),
        ensures
            final(self).wf(),
            frame.index == old(self).nodes@.len(),
            old(self).grown_by(
                final(self),
                Mode::Display,
                Geometry::Stacked,
                SurfaceId { value: 0 },
                area,
            ),
    {
        self.new_frame(Mode::Display, Geometry::Stacked, SurfaceId::invalid(), area)
    }

    /// Adds a workspace that lays out its children as `geometry` says.
    pub fn new_workspace(&mut self, geometry: Geometry) -> (frame: Frame)
        requires
            old(self).wf(),
        ensures
            final(self).wf(),
            frame.index == old(self).nodes@.len(),
            old(self).grown_by(
                final(self),
                Mode::Workspace,
                geometry,
                SurfaceId { value: 0 },
                Self::no_area(),
            ),
    {
        self.new_frame(Mode::Workspace, geometry, SurfaceId::invalid(), Self::empty_area())
    }

    /// Adds a container that lays out its children as `geometry` says.
    pub fn new_container(&mut self, geometry: Geometry) -> (frame: Frame)
        requires
            old(self).wf(),
        ensures
            final(self).wf(),
            frame.index == old(self).nodes@.len(),
            old(self).grown_by(
                final(self),
                Mode::Container,
                geometry,
                SurfaceId { value: 0 },
                Self::no_area(),
            ),
    {
        self.new_frame(Mode::Container, geometry, SurfaceId::invalid(), Self::empty_area())
    }

    /// Adds a leaf that shows the surface `sid`.
    pub fn new_leaf(&mut self, sid: SurfaceId, geometry: Geometry) -> (frame: Frame)
        requires
            old(self).wf(),
            sid.valid(),
        ensures
            final(self).wf(),
            frame.index == old(self).nodes@.len(),
            old(self).grown_by(final(self), Mode::Leaf, geometry, sid, Self::no_area()),
    {
        self.new_frame(Mode::Leaf, geometry, sid, Self::empty_area())
    }

    /// The area of a frame that has not been laid out yet.
    pub open spec fn no_area() -> Area {
        Area { pos: Position { x: 0, y: 0 }, size: Size { width: 0, height: 0 } }
    }

    fn empty_area() -> (area: Area)
        ensures
            area == Self::no_area(),
    {
        Area::new(Position::origin(), Size::new(0, 0))
    }

    /// Tells whether `frame` names a frame of this arena.
    pub fn contains(&self, frame: Frame) -> (known: bool)
        ensures
            known == self.has(frame),
    {
        frame.index < self.nodes.len()
    }

    pub fn get_sid(&self, frame: Frame) -> (sid: SurfaceId)
        requires
            self.has(frame),
        ensures
            sid == self.sid_of(frame),
    {
        self.nodes[frame.index].sid
    }

    pub fn get_mode(&self, frame: Frame) -> (mode: Mode)
        requires
            self.has(frame),
        ensures
            mode == self.mode_of(frame),
    {
        self.nodes[frame.index].mode
    }

    pub fn get_geometry(&self, frame: Frame) -> (geometry: Geometry)
        requires
            self.has(frame),
        ensures
            geometry == self.geometry_of(frame),
    {
        self.nodes[frame.index].geometry
    }

    pub fn get_parent(&self, frame: Frame) -> (parent: Option<Frame>)
        requires
            self.has(frame),
        ensures
            parent == self.parent_of(frame),
    {
        self.nodes[frame.index].parent
    }

    pub fn get_area(&self, frame: Frame) -> (area: Area)
        requires
            self.wf(),
            self.has(frame),
        ensures
            area == self.area_of(frame),
    {
        self.areas[frame.index]
    }

    pub fn get_position(&self, frame: Frame) -> (position: Position)
        requires
            self.wf(),
            self.has(frame),
        ensures
            position == self.area_of(frame).pos,
    {
        self.areas[frame.index].pos
    }

    pub fn get_size(&self, frame: Frame) -> (size: Size)
        requires
            self.wf(),
            self.has(frame),
        ensures
            size == self.area_of(frame).size,
    {
        self.areas[frame.index].size
    }

    /// The number of children of `frame`.
    pub fn count_children(&self, frame: Frame) -> (count: usize)
        requires
            self.has(frame),
        ensures
            count == self.space_of(frame).len(),
    {
        self.nodes[frame.index].space.len()
    }

    /// The child of `frame` at place `place` in the order of the layout.
    pub fn space_child(&self, frame: Frame, place: usize) -> (child: Frame)
        requires
            self.has(frame),
            place < self.space_of(frame).len(),
        ensures
            child == self.space_of(frame)[place as int],
    {
        self.nodes[frame.index].space[place]
    }

    /// The child of `frame` at place `place` in the order of use, most recent first.
    pub fn time_child(&self, frame: Frame, place: usize) -> (child: Frame)
        requires
            self.has(frame),
            place < self.time_of(frame).len(),
        ensures
            child == self.time_of(frame)[place as int],
    {
        self.nodes[frame.index].time[place]
    }

    /// The children of `frame` in the order of the layout.
    pub fn space_iter(&self, frame: Frame) -> (children: Vec<Frame>)
        requires
            self.has(frame),
        ensures
            children@ == self.space_of(frame),
    {
        let mut children: Vec<Frame> = Vec::new();
        let count = self.nodes[frame.index].space.len();
        let mut place: usize = 0;
        while place < count
            invariant
                self.has(frame),
                count == self.space_of(frame).len(),
                place <= count,
                children@ == self.space_of(frame).take(place as int),
            decreases count - place,
        {
            children.push(self.nodes[frame.index].space[place]);
            proof {
                assert(self.space_of(frame).take(place + 1) =~= self.space_of(frame).take(
                    place as int,
                ).push(self.space_of(frame)[place as int]));
            }
            place = place + 1;
        }
        proof {
            assert(self.space_of(frame).take(count as int) =~= self.space_of(frame));
        }
        children
    }

    /// The children of `frame` in the order of use, most recent first.
    pub fn time_iter(&self, frame: Frame) -> (children: Vec<Frame>)
        requires
            self.has(frame),
        ensures
            children@ == self.time_of(frame),
    {
        let mut children: Vec<Frame> = Vec::new();
        let count = self.nodes[frame.index].time.len();
        let mut place: usize = 0;
        while place < count
            invariant
                self.has(frame),
                count == self.time_of(frame).len(),
                place <= count,
                children@ == self.time_of(frame).take(place as int),
            decreases count - place,
        {
            children.push(self.nodes[frame.index].time[place]);
            proof {
                assert(self.time_of(frame).take(place + 1) =~= self.time_of(frame).take(
                    place as int,
                ).push(self.time_of(frame)[place as int]));
            }
            place = place + 1;
        }
        proof {
            assert(self.time_of(frame).take(count as int) =~= self.time_of(frame));
        }
        children
    }

    /// Sets the position of `frame` and of no other frame.
    pub fn set_plumbing_position(&mut self, frame: Frame, position: Position)
        requires
            old(self).wf(),
            old(self).has(frame),
        ensures
            final(self).wf(),
            final(self).same_links(old(self)),
            final(self).areas@ == old(self).areas@.update(
                frame.index as int,
                (Area { pos: position, size: old(self).area_of(frame).size }),
            ),
    {
        let size = self.areas[frame.index].size;
        self.areas.set(frame.index, Area { pos: position, size });
        proof {
            self.lemma_same_links(old(self));
        }
    }

    /// Sets the size of `frame` and of no other frame.
    pub fn set_plumbing_size(&mut self, frame: Frame, size: Size)
        requires
            old(self).wf(),
            old(self).has(frame),
        ensures
            final(self).wf(),
            final(self).same_links(old(self)),
            final(self).areas@ == old(self).areas@.update(
                frame.index as int,
                (Area { pos: old(self).area_of(frame).pos, size }),
            ),
    {
        let pos = self.areas[frame.index].pos;
        self.areas.set(frame.index, Area { pos, size });
        proof {
            self.lemma_same_links(old(self));
        }
    }

    /// True when the two arenas hold the same frames with the same roles, surfaces and
    /// links: they can differ in the frames' areas only.
    pub open spec fn same_links(&self, other: &FrameTree) -> bool {
        &&& self.nodes@ == other.nodes@
        &&& self.level@ == other.level@
        &&& self.limit@ == other.limit@
        &&& self.areas@.len() == other.areas@.len()
    }

    /// Two arenas with the same links are well formed together, and the same frames lie
    /// below a frame in both.
    pub proof fn lemma_same_links(&self, other: &FrameTree)
        requires
            self.same_links(other),
        ensures
            self.wf() == other.wf(),
            forall|frame: Frame, top: Frame|
                #[trigger] self.within(frame, top) == other.within(frame, top),
    {
        assert forall|frame: Frame| self.frame_wf(frame) == other.frame_wf(frame) by {}
        assert forall|frame: Frame, top: Frame| #[trigger]
            self.within(frame, top) == other.within(frame, top) by {
            self.lemma_same_within(other, frame, top);
        }
    }

    proof fn lemma_same_within(&self, other: &FrameTree, frame: Frame, top: Frame)
        requires
            self.same_links(other),
        ensures
            self.within(frame, top) == other.within(frame, top),
        decreases self.level_of(frame),
    {
        if frame != top {
            match self.parent_of(frame) {
                Some(parent) => {
                    if self.level_of(parent) < self.level_of(frame) {
                        self.lemma_same_within(other, parent, top);
                    }
                },
                None => {},
            }
        }
    }
}


impl FrameTree {
    /// In an arena that got one more frame, the old frames lie below each other as they
    /// did, and none of them lies within the new frame.
    pub proof fn lemma_grown_within(
        &self,
        later: &FrameTree,
        mode: Mode,
        geometry: Geometry,
        sid: SurfaceId,
        area: Area,
        frame: Frame,
        top: Frame,
    )
        requires
            self.wf(),
            self.grown_by(later, mode, geometry, sid, area),
            self.has(frame),
        ensures
            self.has(top) ==> later.within(frame, top) == self.within(frame, top),
            !self.has(top) ==> !later.within(frame, top),
        decreases self.level_of(frame),
    {
        assert(self.frame_wf(frame));
        assert(later.nodes@[frame.index as int] == self.nodes@[frame.index as int]);
        match self.parent_of(frame) {
            Some(parent) => {
                self.lemma_grown_within(later, mode, geometry, sid, area, parent, top);
            },
            None => {},
        }
    }
}

} // verus!
