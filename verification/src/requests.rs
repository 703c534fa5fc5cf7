//! What a layout asks of the surfaces: the frames it visits, in order, and what the
//! registry is told for each.

use vstd::prelude::*;
use crate::coordinator::CoordinatorModel;
use crate::defs::{Size, SurfaceId};
use crate::frame::{Frame, FrameTree, Geometry};
use crate::surface_state::MAXIMIZED;

verus! {

impl CoordinatorModel {
    /// The registry after each surface of `requests` was asked, in order, to take the size
    /// that stands with it, maximized.
    pub open spec fn told(self, requests: Seq<(SurfaceId, Size)>) -> CoordinatorModel
        decreases requests.len(),
    {
        if requests.len() == 0 {
            self
        } else {
            self.told(requests.drop_last()).reconfigured(
                requests.last().0,
                requests.last().1,
                MAXIMIZED,
            )
        }
    }

    /// Asking a surface to take a size keeps the registry well formed.
    pub proof fn lemma_reconfigured_wf(self, sid: SurfaceId, size: Size, flags: u32)
        requires
            self.wf(),
        ensures
            self.reconfigured(sid, size, flags).wf(),
            self.reconfigured(sid, size, flags).surfaces.dom() =~= self.surfaces.dom(),
    {
        if self.has_surface(sid) {
            self.lemma_with_surface(
                sid,
                crate::surface::SurfaceModel {
                    desired_size: size,
                    state_flags: flags,
                    ..self.surface(sid)
                },
            );
        }
    }

    /// Requests keep the registry well formed.
    pub proof fn lemma_told_wf(self, requests: Seq<(SurfaceId, Size)>)
        requires
            self.wf(),
        ensures
            self.told(requests).wf(),
            self.told(requests).surfaces.dom() =~= self.surfaces.dom(),
        decreases requests.len(),
    {
        if requests.len() > 0 {
            self.lemma_told_wf(requests.drop_last());
            self.told(requests.drop_last()).lemma_reconfigured_wf(
                requests.last().0,
                requests.last().1,
                MAXIMIZED,
            );
        }
    }

    /// Requests made one after the other are made in one go.
    pub proof fn lemma_told_twice(
        self,
        first: Seq<(SurfaceId, Size)>,
        second: Seq<(SurfaceId, Size)>,
    )
        ensures
            self.told(first).told(second) == self.told(first + second),
        decreases second.len(),
    {
        if second.len() == 0 {
            assert(first + second =~= first);
        } else {
            self.lemma_told_twice(first, second.drop_last());
            assert((first + second).drop_last() =~= first + second.drop_last());
            assert((first + second).last() == second.last());
        }
    }

    /// One request is what one reconfiguration does.
    pub proof fn lemma_told_once(self, sid: SurfaceId, size: Size)
        ensures
            self.told(seq![(sid, size)]) == self.reconfigured(sid, size, MAXIMIZED),
    {
        let one = seq![(sid, size)];
        assert(one.drop_last() =~= Seq::<(SurfaceId, Size)>::empty());
        assert(self.told(one.drop_last()) == self);
    }
}

impl FrameTree {
    /// The frames within `frame` in the order in which a layout visits them: a frame
    /// before its children, the children in the order of the layout. The children of a
    /// floating frame are not visited.
    pub open spec fn visits(&self, frame: Frame) -> Seq<Frame>
        decreases self.height_left(frame), self.space_of(frame).len() + 1,
    {
        if self.geometry_of(frame) == Geometry::Floating {
            seq![frame]
        } else {
            seq![frame] + self.visits_among(frame, self.space_of(frame).len())
        }
    }

    /// The frames within the first `upto` children of `frame`, in the order in which a
    /// layout visits them.
    pub open spec fn visits_among(&self, frame: Frame, upto: nat) -> Seq<Frame>
        decreases self.height_left(frame), upto,
    {
        if upto == 0 || upto > self.space_of(frame).len() {
            Seq::empty()
        } else {
            let child = self.space_of(frame)[upto - 1];
            let below = if self.height_left(child) < self.height_left(frame) {
                self.visits(child)
            } else {
                Seq::empty()
            };
            self.visits_among(frame, (upto - 1) as nat) + below
        }
    }

    /// What a layout asks of the surfaces of `frames`: each is to take the size of its
    /// frame.
    pub open spec fn requests(&self, frames: Seq<Frame>) -> Seq<(SurfaceId, Size)> {
        Seq::new(
            frames.len(),
            |i: int| (self.sid_of(frames[i]), self.area_of(frames[i]).size),
        )
    }

    /// The requests for two runs of frames, one after the other.
    pub proof fn lemma_requests_add(&self, first: Seq<Frame>, second: Seq<Frame>)
        ensures
            self.requests(first + second) =~= self.requests(first) + self.requests(second),
    {
    }

    /// Arenas with the same links that agree on the sizes of `frames` ask the same of
    /// them.
    pub proof fn lemma_requests_agree(&self, other: &FrameTree, frames: Seq<Frame>)
        requires
            other.same_links(self),
            forall|i: int|
                0 <= i < frames.len() ==> other.area_of(#[trigger] frames[i]).size
                    == self.area_of(frames[i]).size,
        ensures
            other.requests(frames) =~= self.requests(frames),
    {
    }

    /// Arenas with the same links visit the same frames.
    pub proof fn lemma_visits_same(&self, other: &FrameTree, frame: Frame)
        requires
            other.same_links(self),
        ensures
            other.visits(frame) == self.visits(frame),
        decreases self.height_left(frame), self.space_of(frame).len() + 1,
    {
        self.lemma_visits_among_same(other, frame, self.space_of(frame).len());
    }

    pub proof fn lemma_visits_among_same(&self, other: &FrameTree, frame: Frame, upto: nat)
        requires
            other.same_links(self),
        ensures
            other.visits_among(frame, upto) == self.visits_among(frame, upto),
        decreases self.height_left(frame), upto,
    {
        if !(upto == 0 || upto > self.space_of(frame).len()) {
            let child = self.space_of(frame)[upto - 1];
            self.lemma_visits_among_same(other, frame, (upto - 1) as nat);
            if self.height_left(child) < self.height_left(frame) {
                self.lemma_visits_same(other, child);
            }
        }
    }

    /// A layout of `frame` visits frames within `frame` only.
    pub proof fn lemma_visits_within(&self, frame: Frame, i: int)
        requires
            self.wf(),
            self.has(frame),
            0 <= i < self.visits(frame).len(),
        ensures
            self.has(self.visits(frame)[i]),
            self.within(self.visits(frame)[i], frame),
        decreases self.height_left(frame), self.space_of(frame).len() + 1,
    {
        if i == 0 {
            self.lemma_within_self(frame);
        } else {
            self.lemma_visits_among_within(frame, self.space_of(frame).len(), i - 1);
        }
    }

    /// A layout of the first `upto` children of `frame` visits frames below `frame` only,
    /// none of which lies within a later child.
    pub proof fn lemma_visits_among_within(&self, frame: Frame, upto: nat, i: int)
        requires
            self.wf(),
            self.has(frame),
            upto <= self.space_of(frame).len(),
            0 <= i < self.visits_among(frame, upto).len(),
        ensures
            self.has(self.visits_among(frame, upto)[i]),
            self.within(self.visits_among(frame, upto)[i], frame),
            self.visits_among(frame, upto)[i] != frame,
            forall|later: int|
                upto <= later < self.space_of(frame).len() ==> !self.within(
                    self.visits_among(frame, upto)[i],
                    #[trigger] self.space_of(frame)[later],
                ),
        decreases self.height_left(frame), upto,
    {
        let child = self.space_of(frame)[upto - 1];
        let before = self.visits_among(frame, (upto - 1) as nat);
        assert(self.space_of(frame).contains(child));
        self.lemma_child(frame, child);
        let visited = self.visits_among(frame, upto)[i];
        if i < before.len() {
            self.lemma_visits_among_within(frame, (upto - 1) as nat, i);
            assert(visited == before[i]);
        } else {
            self.lemma_visits_within(child, i - before.len());
            assert(visited == self.visits(child)[i - before.len()]);
            assert forall|later: int|
                upto <= later < self.space_of(frame).len() implies !self.within(
                visited,
                #[trigger] self.space_of(frame)[later],
            ) by {
                self.lemma_children_apart(frame, upto - 1, later, visited);
            }
            self.lemma_within_below(visited, child, frame);
            self.lemma_within_level(visited, child);
        }
    }
}

} // verus!
