//! The surfaces in the order of their last use.

use vstd::prelude::*;
use crate::defs::SurfaceId;
use crate::surface::without;

verus! {

/// The surfaces that were used, most recently used first. No surface stands in it twice.
pub struct SurfaceHistory {
    pub history: Vec<SurfaceId>,
}

/// A sequence from which `sid` was taken does not hold `sid`, holds nothing that the
/// sequence did not hold, and holds nothing twice that the sequence held once.
pub proof fn lemma_without(list: Seq<SurfaceId>, sid: SurfaceId)
    ensures
        !without(list, sid).contains(sid),
        forall|other: SurfaceId|
            other != sid ==> (#[trigger] without(list, sid).contains(other) <==> list.contains(
                other,
            )),
        list.no_duplicates() ==> without(list, sid).no_duplicates(),
        !list.contains(sid) ==> without(list, sid) == list,
    decreases list.len(),
{
    if list.len() > 0 {
        let front = list.drop_last();
        let kept = without(front, sid);
        lemma_without(front, sid);
        assert(list =~= front.push(list.last()));
        assert forall|other: SurfaceId| other != sid implies (#[trigger] without(
            list,
            sid,
        ).contains(other) <==> list.contains(other)) by {
            if list.contains(other) {
                let i = choose|i: int| 0 <= i < list.len() && list[i] == other;
                if i < front.len() {
                    assert(front[i] == other);
                    assert(front.contains(other));
                    assert(kept.contains(other));
                    let j = choose|j: int| 0 <= j < kept.len() && kept[j] == other;
                    if list.last() != sid {
                        assert(kept.push(list.last())[j] == other);
                    }
                } else {
                    assert(list.last() == other);
                    assert(kept.push(other)[kept.len() as int] == other);
                }
            }
            if without(list, sid).contains(other) {
                let all = without(list, sid);
                let j = choose|j: int| 0 <= j < all.len() && all[j] == other;
                if list.last() != sid && j == kept.len() {
                    assert(list[list.len() - 1] == other);
                } else {
                    assert(kept[j] == other);
                    assert(kept.contains(other));
                    assert(front.contains(other));
                    let i = choose|i: int| 0 <= i < front.len() && front[i] == other;
                    assert(list[i] == other);
                }
            }
        }
        if without(list, sid).contains(sid) {
            let all = without(list, sid);
            let j = choose|j: int| 0 <= j < all.len() && all[j] == sid;
            assert(kept[j] == sid);
            assert(kept.contains(sid));
        }
        if list.no_duplicates() {
            assert forall|i: int, j: int| 0 <= i < front.len() && 0 <= j < front.len() && i
                != j implies front[i] != front[j] by {
                assert(list[i] != list[j]);
            }
            if list.last() != sid {
                let all = kept.push(list.last());
                assert(!front.contains(list.last())) by {
                    if front.contains(list.last()) {
                        let i = choose|i: int| 0 <= i < front.len() && front[i] == list.last();
                        assert(list[i] == list[list.len() - 1]);
                    }
                }
                assert(!kept.contains(list.last()));
                assert forall|i: int, j: int| 0 <= i < all.len() && 0 <= j < all.len() && i
                    != j implies all[i] != all[j] by {
                    if i < kept.len() {
                        assert(kept.contains(kept[i]));
                    }
                    if j < kept.len() {
                        assert(kept.contains(kept[j]));
                    }
                }
            }
        }
        if !list.contains(sid) {
            assert(!front.contains(sid)) by {
                if front.contains(sid) {
                    let i = choose|i: int| 0 <= i < front.len() && front[i] == sid;
                    assert(list[i] == sid);
                }
            }
            assert(list[list.len() - 1] != sid);
        }
    }
}

impl View for SurfaceHistory {
    type V = Seq<SurfaceId>;

    open spec fn view(&self) -> Seq<SurfaceId> {
        self.history@
    }
}

impl SurfaceHistory {
    /// No surface stands in the history twice.
    pub open spec fn wf(&self) -> bool {
        self@.no_duplicates()
    }

    /// The history in which no surface was used yet.
    pub fn new() -> (history: SurfaceHistory)
        ensures
            history.wf(),
            history@.len() == 0,
    {
        SurfaceHistory { history: Vec::new() }
    }

    /// The list `list` without any occurrence of `sid`.
    fn copy_without(list: &Vec<SurfaceId>, sid: SurfaceId, front: Vec<SurfaceId>) -> (kept: Vec<
        SurfaceId,
    >)
        ensures
            kept@ == front@ + without(list@, sid),
    {
        let mut kept = front;
        let count = list.len();
        let mut place: usize = 0;
        proof {
            assert(front@ + without(list@.take(0), sid) =~= front@);
        }
        while place < count
            invariant
                count == list@.len(),
                place <= count,
                kept@ == front@ + without(list@.take(place as int), sid),
            decreases count - place,
        {
            let other = list[place];
            proof {
                assert(list@.take(place + 1).drop_last() =~= list@.take(place as int));
                assert(list@.take(place + 1).last() == other);
                if other != sid {
                    assert(front@ + without(list@.take(place + 1), sid) =~= (front@ + without(
                        list@.take(place as int),
                        sid,
                    )).push(other));
                }
            }
            if other != sid {
                kept.push(other);
            }
            place = place + 1;
        }
        proof {
            assert(list@.take(count as int) =~= list@);
        }
        kept
    }

    /// Records that the surface `sid` was used: it comes first, and the other surfaces
    /// keep their order behind it.
    pub fn add(&mut self, sid: SurfaceId)
        requires
            old(self).wf(),
        ensures
            final(self).wf(),
            final(self)@ == seq![sid] + without(old(self)@, sid),
            final(self)@[0] == sid,
    {
        let mut front: Vec<SurfaceId> = Vec::new();
        front.push(sid);
        let kept = Self::copy_without(&self.history, sid, front);
        proof {
            lemma_without(old(self)@, sid);
            let rest = without(old(self)@, sid);
            assert(front@ =~= seq![sid]);
            assert forall|i: int, j: int| 0 <= i < kept@.len() && 0 <= j < kept@.len() && i
                != j implies kept@[i] != kept@[j] by {
                if i > 0 {
                    assert(rest.contains(rest[i - 1]));
                }
                if j > 0 {
                    assert(rest.contains(rest[j - 1]));
                }
            }
        }
        self.history = kept;
    }

    /// Forgets the surface `sid`. The other surfaces keep their order.
    pub fn remove(&mut self, sid: SurfaceId)
        requires
            old(self).wf(),
        ensures
            final(self).wf(),
            final(self)@ == without(old(self)@, sid),
            !final(self)@.contains(sid),
    {
        let kept = Self::copy_without(&self.history, sid, Vec::new());
        proof {
            lemma_without(old(self)@, sid);
            assert(kept@ =~= without(old(self)@, sid));
        }
        self.history = kept;
    }

    /// The number of surfaces in the history.
    pub fn len(&self) -> (count: usize)
        ensures
            count == self@.len(),
    {
        self.history.len()
    }

    /// The surface that was used `place` surfaces ago; the one used last for zero.
    pub fn get_nth(&self, place: usize) -> (sid: Option<SurfaceId>)
        ensures
            sid == if place < self@.len() {
                Some(self@[place as int])
            } else {
                None
            },
    {
        if place < self.history.len() {
            Some(self.history[place])
        } else {
            None
        }
    }
}

} // verus!
