//! Facts about the frames that lie below a frame.

use vstd::prelude::*;
use crate::frame::{Frame, FrameTree};

verus! {

impl FrameTree {
    /// A frame lies deeper than every other frame that it lies within.
    pub proof fn lemma_within_level(&self, frame: Frame, top: Frame)
        requires
            self.wf(),
            self.has(frame),
            self.within(frame, top),
        ensures
            self.level_of(top) <= self.level_of(frame),
            frame != top ==> self.level_of(top) < self.level_of(frame),
            self.has(top),
        decreases self.level_of(frame),
    {
        assert(self.frame_wf(frame));
        if frame != top {
            match self.parent_of(frame) {
                Some(parent) => {
                    self.lemma_within_level(parent, top);
                },
                None => {},
            }
        }
    }

    /// What lies within a frame lies within every frame that this frame lies within.
    pub proof fn lemma_within_trans(&self, frame: Frame, mid: Frame, top: Frame)
        requires
            self.wf(),
            self.has(frame),
            self.within(frame, mid),
            self.within(mid, top),
        ensures
            self.within(frame, top),
        decreases self.level_of(frame),
    {
        assert(self.frame_wf(frame));
        if frame != mid {
            match self.parent_of(frame) {
                Some(parent) => {
                    self.lemma_within_trans(parent, mid, top);
                },
                None => {},
            }
        }
    }

    /// A frame that lies below `top` lies within one of the children of `top`. The result
    /// is the place of that child in the order of the layout.
    pub proof fn lemma_within_some_child(&self, frame: Frame, top: Frame) -> (place: int)
        requires
            self.wf(),
            self.has(frame),
            self.within(frame, top),
            frame != top,
        ensures
            0 <= place < self.space_of(top).len(),
            self.within(frame, self.space_of(top)[place]),
        decreases self.level_of(frame),
    {
        assert(self.frame_wf(frame));
        match self.parent_of(frame) {
            Some(parent) => {
                if parent == top {
                    let place = choose|place: int|
                        0 <= place < self.space_of(top).len() && self.space_of(top)[place]
                            == frame;
                    place
                } else {
                    let place = self.lemma_within_some_child(parent, top);
                    place
                }
            },
            None => 0,
        }
    }

    /// No frame lies within two children of one frame, and a frame lies within none of its
    /// children.
    pub proof fn lemma_children_apart(&self, top: Frame, one: int, other: int, frame: Frame)
        requires
            self.wf(),
            self.has(top),
            self.has(frame),
            0 <= one < self.space_of(top).len(),
            0 <= other < self.space_of(top).len(),
            one != other,
            self.within(frame, self.space_of(top)[one]),
        ensures
            !self.within(frame, self.space_of(top)[other]),
            frame != top,
            self.within(frame, top),
        decreases self.level_of(frame),
    {
        let here = self.space_of(top)[one];
        let there = self.space_of(top)[other];
        assert(self.frame_wf(top));
        assert(self.frame_wf(frame));
        assert(self.has(here) && self.parent_of(here) == Some(top));
        assert(self.has(there) && self.parent_of(there) == Some(top));
        assert(self.frame_wf(here));
        assert(self.frame_wf(there));
        assert(here != there);
        self.lemma_within_level(frame, here);
        self.lemma_within_self(top);
        assert(self.within(here, top));
        self.lemma_within_trans(frame, here, top);
        if self.within(frame, there) {
            if frame == here {
                // Then the parent of `here` lies within `there`, which is its own child.
                assert(self.within(top, there));
                self.lemma_within_level(top, there);
            } else if frame == there {
                assert(self.within(top, here));
                self.lemma_within_level(top, here);
            } else {
                match self.parent_of(frame) {
                    Some(parent) => {
                        self.lemma_children_apart(top, one, other, parent);
                    },
                    None => {},
                }
            }
        }
    }

    /// A frame that does not lie within `top` lies within none of its children; neither
    /// does `top` itself.
    pub proof fn lemma_outside_children(&self, top: Frame, place: int, frame: Frame)
        requires
            self.wf(),
            self.has(top),
            self.has(frame),
            0 <= place < self.space_of(top).len(),
            !self.within(frame, top) || frame == top,
        ensures
            !self.within(frame, self.space_of(top)[place]),
    {
        let child = self.space_of(top)[place];
        assert(self.frame_wf(top));
        assert(self.has(child) && self.parent_of(child) == Some(top));
        if self.within(frame, child) {
            self.lemma_within_below(frame, child, top);
            self.lemma_within_level(top, child);
            assert(self.frame_wf(child));
        }
    }
}

} // verus!
