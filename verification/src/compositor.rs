//! The compositor places the surfaces that become ready in the frame tree, and takes them
//! out again when they are destroyed.

use vstd::prelude::*;
use crate::coordinator::{CoordinatorModel, InnerCoordinator};
use crate::defs::SurfaceId;
use crate::frame::{Frame, FrameTree, Geometry, Mode};
use crate::perceptron::Perceptron;
use crate::surface::{without, SurfaceInfo};
use crate::surface_history::SurfaceHistory;

verus! {

/// How a new surface is placed.
pub struct ManageDecision {
    /// The frame in which the surface's frame settles.
    pub target: Frame,
    /// The layout of the surface's frame.
    pub geometry: Geometry,
    /// Whether the surface's frame becomes the selection.
    pub selection: bool,
}

/// The compositor: the frames, the frame that is selected and the order in which the
/// surfaces were used.
pub struct Compositor {
    pub history: SurfaceHistory,
    pub tree: FrameTree,
    pub selection: Option<Frame>,
}

impl Compositor {
    /// The frames and the history are well formed, and the selection is a frame of the
    /// tree.
    pub open spec fn wf(&self) -> bool {
        &&& self.tree.wf()
        &&& self.history.wf()
        &&& (self.selection matches Some(frame) ==> self.tree.has(frame))
    }

    /// The layout of the frame of a new surface: stacked for a surface with a parent,
    /// vertical for any other.
    pub open spec fn geometry_for(parented: bool) -> Geometry {
        if parented {
            Geometry::Stacked
        } else {
            Geometry::Vertical
        }
    }

    /// The frame in which the frame of a new surface settles: for a surface with a parent
    /// the frame to build on from the selection, for any other the display or workspace of
    /// the selection.
    pub open spec fn target_for(&self, parented: bool) -> Option<Frame> {
        match self.selection {
            Some(selected) => if parented {
                self.tree.buildable_of(selected)
            } else {
                self.tree.top_of(selected)
            },
            None => None,
        }
    }

    /// True when a new surface can be placed: a frame is selected, there is a frame for the
    /// surface to settle in, and that frame is not the root, in which only displays settle.
    pub open spec fn can_place(&self, parented: bool) -> bool {
        self.target_for(parented) matches Some(target) && self.tree.mode_of(target)
            != Mode::Root
    }

    /// True when the surface `sid` of the registry `registry` is taken up: it is known, and
    /// it can be placed.
    pub open spec fn takes_up(&self, registry: CoordinatorModel, sid: SurfaceId) -> bool {
        registry.has_surface(sid) && self.can_place(registry.surface(sid).parent_sid.valid())
    }

    /// True when `later` and `told_after` are what `self` and `told` become when the
    /// surface `sid` is placed: a new leaf shows the surface and has settled in the target,
    /// which has divided its area anew; the leaf is selected; the surface is the one used
    /// last; and a redraw was asked for after everything else.
    pub open spec fn placed(
        &self,
        later: &Compositor,
        sid: SurfaceId,
        parented: bool,
        told: CoordinatorModel,
        told_after: CoordinatorModel,
    ) -> bool {
        let leaf = Frame { index: self.tree.nodes@.len() as usize };
        let target = self.target_for(parented).unwrap();
        &&& later.selection == Some(leaf)
        &&& later.history@ == seq![sid] + without(self.history@, sid)
        &&& exists|grown: FrameTree, joined: FrameTree|
            {
                &&& self.tree.grown_by(
                    &grown,
                    Mode::Leaf,
                    Self::geometry_for(parented),
                    sid,
                    FrameTree::no_area(),
                )
                &&& #[trigger] grown.attached(&joined, target, leaf, grown.settling_place(target))
                &&& joined.divided(&later.tree, target)
                &&& told_after == told.told(
                    if joined.tiles(target) {
                        later.tree.requests(
                            joined.visits_among(target, joined.space_of(target).len()),
                        )
                    } else {
                        Seq::empty()
                    },
                ).with_emitted(Perceptron::Notify)
            }
    }

    /// True when `later` and `told_after` are what `self` and `told` become when the
    /// surface `sid` is let go: the history forgets the surface; the first frame that shows
    /// it, if there is one, is taken out of the tree, and the parent it had has divided its
    /// area among the children that stay; where that frame was selected, its parent is
    /// selected instead.
    pub open spec fn unplaced(
        &self,
        later: &Compositor,
        sid: SurfaceId,
        told: CoordinatorModel,
        told_after: CoordinatorModel,
    ) -> bool {
        &&& later.history@ == without(self.history@, sid)
        &&& match self.tree.sid_below(FrameTree::root_frame(), sid) {
            Some(shown) => {
                &&& later.tree.parent_of(shown).is_none()
                &&& later.selection == if self.selection == Some(shown) {
                    self.tree.parent_of(shown)
                } else {
                    self.selection
                }
                &&& match self.tree.parent_of(shown) {
                    Some(parent) => exists|removed: FrameTree|
                        {
                            &&& #[trigger] self.tree.detached(&removed, parent, shown)
                            &&& removed.relaxed(&later.tree, parent, told, told_after)
                        },
                    None => {
                        &&& later.tree.same_links(&self.tree)
                        &&& later.tree.areas@ == self.tree.areas@
                        &&& told_after == told
                    },
                }
            },
            None => {
                &&& told_after == told
                &&& later.selection == self.selection
                &&& later.tree.same_links(&self.tree)
                &&& later.tree.areas@ == self.tree.areas@
            },
        }
    }

    /// True when `later` is `self` with nothing changed.
    pub open spec fn untouched(&self, later: &Compositor) -> bool {
        &&& later.selection == self.selection
        &&& later.history@ == self.history@
        &&& later.tree.same_links(&self.tree)
        &&& later.tree.areas@ == self.tree.areas@
    }

    /// A compositor with the root alone, no selection and no history.
    pub fn new() -> (compositor: Compositor)
        ensures
            compositor.wf(),
            compositor.selection.is_none(),
            compositor.history@.len() == 0,
            compositor.tree.nodes@.len() == 1,
    {
        Compositor { history: SurfaceHistory::new(), tree: FrameTree::new_root(), selection: None }
    }

    /// Makes `frame` the selection, or leaves nothing selected.
    pub fn select(&mut self, frame: Option<Frame>)
        ensures
            final(self).selection == frame,
            final(self).tree == old(self).tree,
            final(self).history == old(self).history,
    {
        self.selection = frame;
    }

    /// The frame that is selected, if one is.
    pub fn get_selection(&self) -> (frame: Option<Frame>)
        ensures
            frame == self.selection,
    {
        self.selection
    }

    /// Decides where the frame of a new surface settles, which layout it has and whether
    /// it becomes the selection. There is no decision where the surface cannot be placed.
    pub fn choose_target(&self, surface: &SurfaceInfo) -> (decision: Option<ManageDecision>)
        requires
            self.wf(),
        ensures
            decision.is_some() == self.can_place(surface.parent_sid.valid()),
            decision matches Some(chosen) ==> {
                &&& Some(chosen.target) == self.target_for(surface.parent_sid.valid())
                &&& chosen.geometry == Self::geometry_for(surface.parent_sid.valid())
                &&& chosen.selection
                &&& self.tree.has(chosen.target)
            },
    {
        let selected = match self.get_selection() {
            Some(selected) => selected,
            None => {
                return None;
            },
        };
        let parented = surface.parent_sid.is_valid();
        let found = if parented {
            self.tree.find_buildable(selected)
        } else {
            self.tree.find_top(selected)
        };
        let target = match found {
            Some(target) => target,
            None => {
                return None;
            },
        };
        if self.tree.get_mode(target) == Mode::Root {
            return None;
        }
        let geometry = if parented {
            Geometry::Stacked
        } else {
            Geometry::Vertical
        };
        Some(ManageDecision { target, geometry, selection: true })
    }

    /// Takes up the surface `sid`: a new leaf for it settles in the frame tree and is
    /// selected, the surface becomes the one used last, and a redraw is asked for. Nothing
    /// changes where the surface is unknown, and where it cannot be placed: where no frame
    /// is selected, or the selection has no frame for the surface to settle in.
    pub fn manage_surface(&mut self, sid: SurfaceId, coordinator: &mut InnerCoordinator)
        requires
            old(self).wf(),
            old(coordinator).wf(),
        ensures
            final(self).wf(),
            final(coordinator).wf(),
            if old(self).takes_up(old(coordinator)@, sid) {
                old(self).placed(
                    final(self),
                    sid,
                    old(coordinator)@.surface(sid).parent_sid.valid(),
                    old(coordinator)@,
                    final(coordinator)@,
                )
            } else {
                &&& final(coordinator)@ == old(coordinator)@
                &&& old(self).untouched(final(self))
            },
    {
        let surface = match coordinator.get_surface(sid) {
            Some(surface) => surface,
            None => {
                return ;
            },
        };
        let decision = match self.choose_target(&surface) {
            Some(decision) => decision,
            None => {
                return ;
            },
        };
        proof {
            // A registered surface has an identifier that can be shown.
            assert(old(coordinator)@.surfaces.contains_key(sid.value));
            assert(sid.valid());
        }
        let frame = self.tree.new_leaf(sid, decision.geometry);
        let ghost grown = self.tree;
        proof {
            old(self).tree.lemma_grown_within(
                &grown,
                Mode::Leaf,
                decision.geometry,
                sid,
                FrameTree::no_area(),
                decision.target,
                frame,
            );
            assert(grown.nodes@[decision.target.index as int] == old(self).tree.nodes@[decision.target.index as int]);
        }
        let ghost place = grown.settling_place(decision.target);
        self.tree.settle(frame, decision.target, coordinator);
        let ghost told_settled = coordinator@;
        if decision.selection {
            self.select(Some(frame));
        }
        self.history.add(sid);
        coordinator.notify();
        proof {
            let joined = choose|joined: FrameTree| #[trigger]
                grown.attached(&joined, decision.target, frame, place) && joined.relaxed(
                    &self.tree,
                    decision.target,
                    old(coordinator)@,
                    told_settled,
                );
            assert(grown.attached(&joined, decision.target, frame, place));
            coordinator@.lemma_notified_wf(told_settled);
        }
    }

    /// Lets go of the surface `sid`: the frame that shows it is taken out of the frame
    /// tree, its parent divides its area among the children that stay, and the history
    /// forgets the surface. Where the frame was the selection, its parent is selected
    /// instead. Without a frame that shows the surface only the history changes.
    pub fn unmanage_surface(&mut self, sid: SurfaceId, coordinator: &mut InnerCoordinator)
        requires
            old(self).wf(),
            old(coordinator).wf(),
        ensures
            final(self).wf(),
            final(coordinator).wf(),
            old(self).unplaced(final(self), sid, old(coordinator)@, final(coordinator)@),
    {
        let root = self.tree.root();
        match self.tree.find_with_sid(root, sid) {
            Some(shown) => {
                let parent = self.tree.get_parent(shown);
                proof {
                    assert(self.tree.frame_wf(shown));
                }
                self.tree.remove_self(shown, coordinator);
                if self.selection == Some(shown) {
                    self.selection = parent;
                }
            },
            None => {},
        }
        self.history.remove(sid);
    }
}

} // verus!
