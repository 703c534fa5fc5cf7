//! Putting a frame into the tree.

use vstd::prelude::*;
use crate::coordinator::InnerCoordinator;
use crate::frame::{Frame, FrameTree, Geometry};

verus! {

impl FrameTree {
    /// The place in the order of the layout at which a frame that settles in `target` is
    /// put: on top of the children of a stacked frame, behind the children of any other.
    pub open spec fn settling_place(&self, target: Frame) -> int {
        if self.geometry_of(target) == Geometry::Stacked {
            0
        } else {
            self.space_of(target).len() as int
        }
    }

    /// Makes the detached frame `frame` a child of `target` and lets `target` settle. The
    /// frame becomes the first child of a stacked target and the last child of any other, and
    /// in either case the most recently used. The target then divides its area among its
    /// children, and the surfaces below it are asked to take the sizes of their frames.
    pub fn settle(&mut self, frame: Frame, target: Frame, sa: &mut InnerCoordinator)
        requires
            old(self).wf(),
            old(self).can_attach(target, frame),
            old(sa).wf(),
        ensures
            final(self).wf(),
            final(sa).wf(),
            final(self).parent_of(frame) == Some(target),
            exists|joined: FrameTree|
                {
                    &&& #[trigger] old(self).attached(
                        &joined,
                        target,
                        frame,
                        old(self).settling_place(target),
                    )
                    &&& joined.relaxed(final(self), target, old(sa)@, final(sa)@)
                },
    {
        if self.get_geometry(target) == Geometry::Stacked {
            self.prepend(target, frame);
        } else {
            self.append(target, frame);
        }
        let ghost joined = *self;
        self.relax(target, sa);
        proof {
            assert(old(self).attached(&joined, target, frame, old(self).settling_place(target)));
            assert(joined.relaxed(self, target, old(sa)@, sa@));
        }
    }
}

} // verus!
