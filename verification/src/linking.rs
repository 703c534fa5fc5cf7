//! Changing the links of the frame tree: making a frame the child of another, and
//! detaching it again.

use vstd::prelude::*;
use crate::frame::{Frame, FrameTree, Mode};
use crate::seqs::{lemma_insert_contains, lemma_insert_no_duplicates, lemma_remove_no_duplicates};

verus! {

impl FrameTree {
    /// True when `frame` can be made a child of `parent`: both are frames of the arena,
    /// `frame` is detached and is not the root, `parent` does not lie below `frame`, and
    /// under the root only a display is put.
    pub open spec fn can_attach(&self, parent: Frame, frame: Frame) -> bool {
        &&& self.has(parent)
        &&& self.has(frame)
        &&& self.parent_of(frame).is_none()
        &&& self.mode_of(frame) != Mode::Root
        &&& !self.within(parent, frame)
        &&& (self.mode_of(parent) == Mode::Root ==> self.mode_of(frame) == Mode::Display)
    }

    /// True when `later` is `self` with `frame` made a child of `parent`: at place `place`
    /// in the order of the layout and first in the order of use. Nothing else differs.
    pub open spec fn attached(
        &self,
        later: &FrameTree,
        parent: Frame,
        frame: Frame,
        place: int,
    ) -> bool {
        &&& later.nodes@.len() == self.nodes@.len()
        &&& later.areas@ == self.areas@
        &&& later.parent_of(frame) == Some(parent)
        &&& later.space_of(parent) == self.space_of(parent).insert(place, frame)
        &&& later.time_of(parent) == self.time_of(parent).insert(0, frame)
        &&& forall|other: Frame| #[trigger]
            self.has(other) ==> {
                &&& later.mode_of(other) == self.mode_of(other)
                &&& later.geometry_of(other) == self.geometry_of(other)
                &&& later.sid_of(other) == self.sid_of(other)
                &&& (other != frame ==> later.parent_of(other) == self.parent_of(other))
                &&& (other != parent ==> later.space_of(other) == self.space_of(other)
                    && later.time_of(other) == self.time_of(other))
            }
    }

    /// Makes `frame` a child of `parent`: first in the order of the layout when `front` is
    /// set, last otherwise, and first in the order of use.
    fn attach(&mut self, parent: Frame, frame: Frame, front: bool)
        requires
            old(self).wf(),
            old(self).can_attach(parent, frame),
        ensures
            final(self).wf(),
            old(self).attached(
                final(self),
                parent,
                frame,
                if front {
                    0
                } else {
                    old(self).space_of(parent).len() as int
                },
            ),
    {
        proof {
            old(self).lemma_within_self(frame);
            assert(old(self).frame_wf(parent));
            assert(old(self).frame_wf(frame));
        }
        let ghost place: int = if front {
            0
        } else {
            old(self).space_of(parent).len() as int
        };
        self.nodes[frame.index].parent = Some(parent);
        if front {
            self.nodes[parent.index].space.insert(0, frame);
        } else {
            self.nodes[parent.index].space.push(frame);
        }
        self.nodes[parent.index].time.insert(0, frame);
        proof {
            let before = old(self);
            let lift: nat = before.level_of(parent) + 1;
            let count = before.nodes@.len();
            self.level@ = Seq::new(
                count,
                |i: int|
                    if before.within(Frame { index: i as usize }, frame) {
                        before.level@[i] + lift
                    } else {
                        before.level@[i]
                    },
            );
            self.limit@ = before.limit@ + lift;
            assert(before.space_of(parent).push(frame) =~= before.space_of(parent).insert(
                before.space_of(parent).len() as int,
                frame,
            ));
            assert(self.space_of(parent) == before.space_of(parent).insert(place, frame));
            assert(self.time_of(parent) == before.time_of(parent).insert(0, frame));
            // The frame was no child of the parent before.
            assert(!before.space_of(parent).contains(frame)) by {
                if before.space_of(parent).contains(frame) {
                    let k = choose|k: int|
                        0 <= k < before.space_of(parent).len() && before.space_of(parent)[k]
                            == frame;
                    assert(before.parent_of(before.space_of(parent)[k]) == Some(parent));
                }
            }
            assert(!before.time_of(parent).contains(frame)) by {
                if before.time_of(parent).contains(frame) {
                    let k = choose|k: int|
                        0 <= k < before.time_of(parent).len() && before.time_of(parent)[k]
                            == frame;
                    assert(before.space_of(parent).contains(before.time_of(parent)[k]));
                }
            }
            lemma_insert_no_duplicates(before.space_of(parent), place, frame);
            lemma_insert_no_duplicates(before.time_of(parent), 0, frame);
            assert forall|other: Frame| self.has(other) implies #[trigger] self.frame_wf(
                other,
            ) by {
                before.lemma_attach_keeps_frame(self, parent, frame, place, other);
            }
        }
    }

    /// A frame lies within itself.
    pub proof fn lemma_within_self(&self, frame: Frame)
        ensures
            self.within(frame, frame),
    {
    }

    /// One frame of the arena is still well formed after `frame` was made a child of
    /// `parent` and the levels below `frame` were raised above the parent's.
    proof fn lemma_attach_keeps_frame(
        &self,
        later: &FrameTree,
        parent: Frame,
        frame: Frame,
        place: int,
        other: Frame,
    )
        requires
            self.wf(),
            self.can_attach(parent, frame),
            self.has(other),
            0 <= place <= self.space_of(parent).len(),
            self.attached(later, parent, frame, place),
            later.space_of(parent).no_duplicates(),
            later.time_of(parent).no_duplicates(),
            later.limit@ == self.limit@ + self.level_of(parent) + 1,
            later.level@.len() == self.level@.len(),
            forall|i: int|
                0 <= i < self.level@.len() ==> later.level@[i] == if self.within(
                    Frame { index: i as usize },
                    frame,
                ) {
                    self.level@[i] + self.level_of(parent) + 1
                } else {
                    self.level@[i]
                },
        ensures
            later.frame_wf(other),
    {
        assert(self.frame_wf(other));
        assert(self.frame_wf(parent));
        assert(self.frame_wf(frame));
        assert(Frame { index: other.index as int as usize } == other);
        assert(Frame { index: parent.index as int as usize } == parent);
        assert(Frame { index: frame.index as int as usize } == frame);
        let old_space = self.space_of(parent);
        let old_time = self.time_of(parent);
        // The link to the parent.
        if other == frame {
            lemma_insert_contains(old_space, place, frame, frame);
        } else {
            match self.parent_of(other) {
                Some(above) => {
                    assert(Frame { index: above.index as int as usize } == above);
                    assert(self.within(other, frame) == self.within(above, frame));
                    if above == parent {
                        lemma_insert_contains(old_space, place, frame, other);
                    }
                },
                None => {},
            }
        }
        // The links to the children.
        let space = later.space_of(other);
        let time = later.time_of(other);
        if other == parent {
            assert forall|k: int| 0 <= k < space.len() implies later.has(#[trigger] space[k])
                && later.parent_of(space[k]) == Some(other) by {
                if k < place {
                    assert(space[k] == old_space[k]);
                    assert(self.has(old_space[k]));
                } else if k > place {
                    assert(space[k] == old_space[k - 1]);
                    assert(self.has(old_space[k - 1]));
                }
            }
            assert forall|k: int| 0 <= k < space.len() implies time.contains(
                #[trigger] space[k],
            ) by {
                lemma_insert_contains(old_time, 0, frame, space[k]);
                if k < place {
                    assert(space[k] == old_space[k]);
                    assert(old_time.contains(old_space[k]));
                } else if k > place {
                    assert(space[k] == old_space[k - 1]);
                    assert(old_time.contains(old_space[k - 1]));
                }
            }
            assert forall|k: int| 0 <= k < time.len() implies space.contains(
                #[trigger] time[k],
            ) by {
                lemma_insert_contains(old_space, place, frame, time[k]);
                if k > 0 {
                    assert(time[k] == old_time[k - 1]);
                    assert(old_space.contains(old_time[k - 1]));
                }
            }
        } else {
            assert forall|k: int| 0 <= k < space.len() implies later.has(#[trigger] space[k])
                && later.parent_of(space[k]) == Some(other) by {
                assert(self.has(space[k]));
                assert(self.parent_of(space[k]) == Some(other));
            }
        }
    }
}


/// The place at which `frame` stands in `list`.
pub fn place_in(list: &Vec<Frame>, frame: Frame) -> (place: usize)
    requires
        list@.contains(frame),
    ensures
        place < list@.len(),
        list@[place as int] == frame,
        forall|k: int| 0 <= k < place ==> list@[k] != frame,
{
    let count = list.len();
    let mut place: usize = 0;
    while list[place] != frame
        invariant
            count == list@.len(),
            place < list@.len(),
            list@.contains(frame),
            forall|k: int| 0 <= k < place ==> list@[k] != frame,
        decreases list@.len() - place,
    {
        proof {
            let at = choose|at: int| 0 <= at < list@.len() && list@[at] == frame;
            assert(at > place);
        }
        place = place + 1;
    }
    place
}

impl FrameTree {
    /// Makes the detached frame `frame` the last child of `parent` in the order of the
    /// layout, and the first in the order of use.
    pub fn append(&mut self, parent: Frame, frame: Frame)
        requires
            old(self).wf(),
            old(self).can_attach(parent, frame),
        ensures
            final(self).wf(),
            old(self).attached(final(self), parent, frame, old(self).space_of(parent).len() as int),
    {
        self.attach(parent, frame, false);
    }

    /// Makes the detached frame `frame` the first child of `parent`, both in the order of
    /// the layout and in the order of use.
    pub fn prepend(&mut self, parent: Frame, frame: Frame)
        requires
            old(self).wf(),
            old(self).can_attach(parent, frame),
        ensures
            final(self).wf(),
            old(self).attached(final(self), parent, frame, 0),
    {
        self.attach(parent, frame, true);
    }

    /// True when `later` is `self` with `frame` taken out of the children of `parent`,
    /// and without a parent. Nothing else differs; the frames below `frame` stay below it.
    pub open spec fn detached(&self, later: &FrameTree, parent: Frame, frame: Frame) -> bool {
        let space = self.space_of(parent);
        let time = self.time_of(parent);
        &&& later.nodes@.len() == self.nodes@.len()
        &&& later.areas@ == self.areas@
        &&& later.level@ == self.level@
        &&& later.limit@ == self.limit@
        &&& later.parent_of(frame).is_none()
        &&& later.space_of(parent) == space.remove(space.index_of(frame))
        &&& later.time_of(parent) == time.remove(time.index_of(frame))
        &&& forall|other: Frame| #[trigger]
            self.has(other) ==> {
                &&& later.mode_of(other) == self.mode_of(other)
                &&& later.geometry_of(other) == self.geometry_of(other)
                &&& later.sid_of(other) == self.sid_of(other)
                &&& (other != frame ==> later.parent_of(other) == self.parent_of(other))
                &&& (other != parent ==> later.space_of(other) == self.space_of(other)
                    && later.time_of(other) == self.time_of(other))
            }
    }

    /// Takes `frame` out of the children of its parent, in both orders, and leaves it
    /// detached. The parent's other children keep their areas. A frame without a parent is
    /// left as it is.
    pub fn remove(&mut self, frame: Frame)
        requires
            old(self).wf(),
            old(self).has(frame),
        ensures
            final(self).wf(),
            match old(self).parent_of(frame) {
                Some(parent) => old(self).detached(final(self), parent, frame),
                None => {
                    &&& final(self).same_links(old(self))
                    &&& final(self).areas@ == old(self).areas@
                },
            },
    {
        proof {
            assert(old(self).frame_wf(frame));
        }
        match self.nodes[frame.index].parent {
            Some(parent) => {
                proof {
                    assert(old(self).frame_wf(parent));
                    let k = choose|k: int|
                        0 <= k < old(self).space_of(parent).len() && old(self).space_of(
                            parent,
                        )[k] == frame;
                    assert(old(self).time_of(parent).contains(old(self).space_of(parent)[k]));
                }
                let in_space = place_in(&self.nodes[parent.index].space, frame);
                let in_time = place_in(&self.nodes[parent.index].time, frame);
                self.nodes[parent.index].space.remove(in_space);
                self.nodes[parent.index].time.remove(in_time);
                self.nodes[frame.index].parent = None;
                proof {
                    let before = old(self);
                    let space = before.space_of(parent);
                    let time = before.time_of(parent);
                    crate::seqs::lemma_index_of_unique(space, in_space as int);
                    crate::seqs::lemma_index_of_unique(time, in_time as int);
                    lemma_remove_no_duplicates(space, in_space as int);
                    lemma_remove_no_duplicates(time, in_time as int);
                    assert(parent != frame);
                    assert(self.space_of(parent) == space.remove(in_space as int));
                    assert(self.time_of(parent) == time.remove(in_time as int));
                    assert forall|other: Frame| self.has(other) implies #[trigger] self.frame_wf(
                        other,
                    ) by {
                        before.lemma_remove_keeps_frame(self, parent, frame, other);
                    }
                }
            },
            None => {},
        }
    }

    /// One frame of the arena is still well formed after `frame` was taken from the
    /// children of `parent`.
    proof fn lemma_remove_keeps_frame(
        &self,
        later: &FrameTree,
        parent: Frame,
        frame: Frame,
        other: Frame,
    )
        requires
            self.wf(),
            self.has(frame),
            self.has(other),
            self.parent_of(frame) == Some(parent),
            self.detached(later, parent, frame),
        ensures
            later.frame_wf(other),
    {
        assert(self.frame_wf(other));
        assert(self.frame_wf(frame));
        assert(self.frame_wf(parent));
        let old_space = self.space_of(parent);
        let old_time = self.time_of(parent);
        let k = choose|k: int| 0 <= k < old_space.len() && old_space[k] == frame;
        assert(old_time.contains(old_space[k]));
        let in_space = old_space.index_of(frame);
        let in_time = old_time.index_of(frame);
        lemma_remove_no_duplicates(old_space, in_space);
        lemma_remove_no_duplicates(old_time, in_time);
        let space = later.space_of(other);
        let time = later.time_of(other);
        if other != frame {
            match self.parent_of(other) {
                Some(above) => {
                    if above == parent {
                        assert(later.space_of(parent).contains(other));
                    }
                },
                None => {},
            }
        }
        if other == parent {
            assert forall|k: int| 0 <= k < space.len() implies later.has(#[trigger] space[k])
                && later.parent_of(space[k]) == Some(other) by {
                assert(space.contains(space[k]));
                assert(old_space.contains(space[k]));
                let at = choose|at: int| 0 <= at < old_space.len() && old_space[at] == space[k];
                assert(self.has(old_space[at]));
            }
            assert forall|k: int| 0 <= k < space.len() implies time.contains(
                #[trigger] space[k],
            ) by {
                assert(space.contains(space[k]));
                assert(old_space.contains(space[k]));
                let at = choose|at: int| 0 <= at < old_space.len() && old_space[at] == space[k];
                assert(old_time.contains(old_space[at]));
            }
            assert forall|k: int| 0 <= k < time.len() implies space.contains(
                #[trigger] time[k],
            ) by {
                assert(time.contains(time[k]));
                assert(old_time.contains(time[k]));
                let at = choose|at: int| 0 <= at < old_time.len() && old_time[at] == time[k];
                assert(old_space.contains(old_time[at]));
            }
        } else {
            assert forall|k: int| 0 <= k < space.len() implies later.has(#[trigger] space[k])
                && later.parent_of(space[k]) == Some(other) by {
                assert(self.has(space[k]));
                assert(self.parent_of(space[k]) == Some(other));
            }
        }
    }
}

} // verus!
