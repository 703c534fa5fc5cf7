//! What holds of the layouts that the frame tree makes.

use vstd::prelude::*;
use crate::coordinator::CoordinatorModel;
use crate::defs::{Area, Position, Size, SurfaceId};
use crate::frame::{Frame, FrameTree, Geometry, Mode};
use crate::packing::{lemma_plus_nothing, stride_pos, tile, Change};
use crate::surface_state::MAXIMIZED;

verus! {

/// True when `value` lies in share number `k` of equal shares of length `share` that are
/// laid end to end from `start`.
pub open spec fn in_share(start: int, share: int, k: int, value: int) -> bool {
    start + k * share <= value < start + (k + 1) * share
}

/// Equal shares laid end to end cover a stretch exactly: a number lies in the stretch
/// exactly when it lies in one of the shares, and it lies in one share at most.
pub proof fn lemma_shares_cover(start: int, share: int, count: int, value: int)
    requires
        share >= 0,
        count > 0,
    ensures
        (start <= value < start + count * share) <==> exists|k: int|
            0 <= k < count && #[trigger] in_share(start, share, k, value),
        forall|j: int, k: int|
            0 <= j < count && 0 <= k < count && #[trigger] in_share(start, share, j, value)
                && #[trigger] in_share(start, share, k, value) ==> j == k,
{
    if start <= value < start + count * share {
        assert(share > 0) by (nonlinear_arith)
            requires
                start <= value < start + count * share,
                share >= 0,
        ;
        let k = (value - start) / share;
        assert(0 <= k && k * share <= value - start < (k + 1) * share) by (nonlinear_arith)
            requires
                k == (value - start) / share,
                share > 0,
                value - start >= 0,
        ;
        assert(k < count) by (nonlinear_arith)
            requires
                k * share <= value - start,
                value - start < count * share,
                share > 0,
        ;
        assert(0 <= k < count && in_share(start, share, k, value));
    }
    if exists|k: int| 0 <= k < count && #[trigger] in_share(start, share, k, value) {
        let k = choose|k: int| 0 <= k < count && #[trigger] in_share(start, share, k, value);
        assert(k * share >= 0 && (k + 1) * share <= count * share) by (nonlinear_arith)
            requires
                0 <= k < count,
                share >= 0,
        ;
    }
    assert forall|j: int, k: int|
        0 <= j < count && 0 <= k < count && #[trigger] in_share(start, share, j, value)
            && #[trigger] in_share(start, share, k, value) implies j == k by {
        if j < k {
            assert((j + 1) * share <= k * share) by (nonlinear_arith)
                requires
                    j < k,
                    share >= 0,
            ;
        } else if k < j {
            assert((k + 1) * share <= j * share) by (nonlinear_arith)
                requires
                    k < j,
                    share >= 0,
            ;
        }
    }
}

/// Strides that stay within the range of the coordinates add up as numbers do.
pub proof fn lemma_stride_exact(start: Position, right: usize, down: usize, steps: nat)
    requires
        start.x + steps * right <= isize::MAX,
        start.y + steps * down <= isize::MAX,
    ensures
        stride_pos(start, right, down, steps).x == start.x + steps * right,
        stride_pos(start, right, down, steps).y == start.y + steps * down,
    decreases steps,
{
    if steps > 0 {
        let fewer = (steps - 1) as nat;
        assert(fewer * right <= steps * right && fewer * down <= steps * down && steps * right
            == fewer * right + right && steps * down == fewer * down + down && fewer * right
            >= 0 && fewer * down >= 0) by (nonlinear_arith)
            requires
                steps > 0,
                fewer == steps - 1,
                right >= 0,
                down >= 0,
        ;
        lemma_stride_exact(start, right, down, fewer);
        let before = stride_pos(start, right, down, fewer);
        assert(stride_pos(start, right, down, steps) == before.advanced(right, down));
        assert(before.x + right <= isize::MAX);
        assert(before.y + down <= isize::MAX);
    } else {
        assert(steps * right == 0 && steps * down == 0) by (nonlinear_arith)
            requires
                steps == 0,
        ;
    }
}

/// Where the tiles of a vertical frame lie: one below the other from the frame's
/// position, in steps of an equal share of its height.
pub proof fn lemma_tile_vertical(area: Area, count: nat, k: nat, point: Position)
    requires
        count > 0,
        k < count,
        area.in_range(),
        area.size.height as nat % count == 0,
    ensures
        tile(Geometry::Vertical, area, count, k).holds(point) <==> (area.holds(point)
            && in_share(
            area.pos.y as int,
            area.size.height as int / count as int,
            k as int,
            point.y as int,
        )),
{
    let extent = area.size.height as int;
    let share = extent / (count as int);
    assert(0 <= share && extent == count * share) by (nonlinear_arith)
        requires
            share == extent / (count as int),
            extent % (count as int) == 0,
            count > 0,
            extent >= 0,
    ;
    assert(k * share <= count * share && (k + 1) * share <= count * share && (k + 1) * share
        == k * share + share && 0 <= k * share) by (nonlinear_arith)
        requires
            k < count,
            share >= 0,
    ;
    assert(k * 0 == 0) by (nonlinear_arith);
    assert(share as usize == share);
    lemma_stride_exact(area.pos, 0, share as usize, k);
    let tiled = tile(Geometry::Vertical, area, count, k);
    assert(tiled.pos.x == area.pos.x);
    assert(tiled.pos.y == area.pos.y + k * share);
    assert(tiled.size.width == area.size.width);
    assert(tiled.size.height == share);
}

/// Where the tiles of a horizontal frame lie: one beside the other from the frame's
/// position, in steps of an equal share of its width.
pub proof fn lemma_tile_horizontal(area: Area, count: nat, k: nat, point: Position)
    requires
        count > 0,
        k < count,
        area.in_range(),
        area.size.width as nat % count == 0,
    ensures
        tile(Geometry::Horizontal, area, count, k).holds(point) <==> (area.holds(point)
            && in_share(
            area.pos.x as int,
            area.size.width as int / count as int,
            k as int,
            point.x as int,
        )),
{
    let extent = area.size.width as int;
    let share = extent / (count as int);
    assert(0 <= share && extent == count * share) by (nonlinear_arith)
        requires
            share == extent / (count as int),
            extent % (count as int) == 0,
            count > 0,
            extent >= 0,
    ;
    assert(k * share <= count * share && (k + 1) * share <= count * share && (k + 1) * share
        == k * share + share && 0 <= k * share) by (nonlinear_arith)
        requires
            k < count,
            share >= 0,
    ;
    assert(k * 0 == 0) by (nonlinear_arith);
    assert(share as usize == share);
    lemma_stride_exact(area.pos, share as usize, 0, k);
    let tiled = tile(Geometry::Horizontal, area, count, k);
    assert(tiled.pos.y == area.pos.y);
    assert(tiled.pos.x == area.pos.x + k * share);
    assert(tiled.size.height == area.size.height);
    assert(tiled.size.width == share);
}

/// The tiles of a frame that lays out its children in a direction divide the frame's
/// area: a point lies in the area exactly when it lies in one of the tiles, and it lies in
/// one tile at most. This holds where the area stays within the range of the coordinates
/// and its extent in that direction is a multiple of the number of children; what is left
/// over from a division that does not come out even belongs to no tile.
pub proof fn lemma_tiles_partition(geometry: Geometry, area: Area, count: nat, point: Position)
    requires
        count > 0,
        area.in_range(),
        geometry == Geometry::Vertical || geometry == Geometry::Horizontal,
        geometry == Geometry::Vertical ==> area.size.height as nat % count == 0,
        geometry == Geometry::Horizontal ==> area.size.width as nat % count == 0,
    ensures
        area.holds(point) <==> exists|k: nat|
            k < count && (#[trigger] tile(geometry, area, count, k)).holds(point),
        forall|j: nat, k: nat|
            j < count && k < count && (#[trigger] tile(geometry, area, count, j)).holds(point)
                && (#[trigger] tile(geometry, area, count, k)).holds(point) ==> j == k,
{
    let extent: int = if geometry == Geometry::Vertical {
        area.size.height as int
    } else {
        area.size.width as int
    };
    let share: int = extent / (count as int);
    let start: int = if geometry == Geometry::Vertical {
        area.pos.y as int
    } else {
        area.pos.x as int
    };
    let value: int = if geometry == Geometry::Vertical {
        point.y as int
    } else {
        point.x as int
    };
    assert(0 <= share && extent == count * share) by (nonlinear_arith)
        requires
            share == extent / (count as int),
            extent % (count as int) == 0,
            count > 0,
            extent >= 0,
    ;
    lemma_shares_cover(start, share, count as int, value);
    assert forall|k: nat| k < count implies ((#[trigger] tile(geometry, area, count, k)).holds(
        point,
    ) <==> (area.holds(point) && in_share(start, share, k as int, value))) by {
        if geometry == Geometry::Vertical {
            lemma_tile_vertical(area, count, k, point);
        } else {
            lemma_tile_horizontal(area, count, k, point);
        }
    }
    if area.holds(point) {
        assert(start <= value < start + count * share);
        let k = choose|k: int| 0 <= k < count && #[trigger] in_share(start, share, k, value);
        assert(tile(geometry, area, count, k as nat).holds(point));
    }
    assert forall|j: nat, k: nat|
        j < count && k < count && (#[trigger] tile(geometry, area, count, j)).holds(point) && (
        #[trigger] tile(geometry, area, count, k)).holds(point) implies j == k by {
        assert(in_share(start, share, j as int, value));
        assert(in_share(start, share, k as int, value));
    }
}

impl FrameTree {
    /// After a frame was divided among its children, each child has its tile.
    pub proof fn lemma_divided_children(&self, later: &FrameTree, frame: Frame, place: int)
        requires
            self.wf(),
            self.has(frame),
            self.tiles(frame),
            self.divided(later, frame),
            0 <= place < self.space_of(frame).len(),
        ensures
            later.area_of(self.space_of(frame)[place]) == tile(
                self.geometry_of(frame),
                self.area_of(frame),
                self.space_of(frame).len(),
                place as nat,
            ),
            later.area_of(frame) == self.area_of(frame),
    {
        let child = self.space_of(frame)[place];
        assert(self.space_of(frame).contains(child));
        self.lemma_child(frame, child);
        self.lemma_within_self(child);
        self.lemma_within_self(frame);
        self.lemma_within_below(child, child, frame);
        assert(self.frame_wf(frame));
        crate::seqs::lemma_index_of_unique(self.space_of(frame), place);
        assert(self.area_after(frame, Change::Tile, frame) == self.area_of(frame));
        assert(self.reached(frame, frame));
        assert(self.reached(frame, child));
    }

    /// After a frame that lays out its children in a direction was divided among them,
    /// the areas of the children divide the area of the frame: a point lies in the frame
    /// exactly when it lies in one of the children, and it lies in one child at most. This
    /// holds where the frame's area stays within the range of the coordinates and its extent
    /// in the direction of the layout is a multiple of the number of children.
    pub proof fn lemma_homogenize_partitions(
        &self,
        later: &FrameTree,
        frame: Frame,
        point: Position,
    )
        requires
            self.wf(),
            self.has(frame),
            self.divided(later, frame),
            self.space_of(frame).len() > 0,
            self.area_of(frame).in_range(),
            self.geometry_of(frame) == Geometry::Vertical || self.geometry_of(frame)
                == Geometry::Horizontal,
            self.geometry_of(frame) == Geometry::Vertical ==> self.area_of(
                frame,
            ).size.height as nat % self.space_of(frame).len() == 0,
            self.geometry_of(frame) == Geometry::Horizontal ==> self.area_of(
                frame,
            ).size.width as nat % self.space_of(frame).len() == 0,
        ensures
            later.area_of(frame).holds(point) <==> exists|k: int|
                0 <= k < self.space_of(frame).len() && later.area_of(
                    #[trigger] self.space_of(frame)[k],
                ).holds(point),
            forall|j: int, k: int|
                0 <= j < self.space_of(frame).len() && 0 <= k < self.space_of(frame).len()
                    && later.area_of(#[trigger] self.space_of(frame)[j]).holds(point)
                    && later.area_of(#[trigger] self.space_of(frame)[k]).holds(point) ==> j
                    == k,
    {
        let geometry = self.geometry_of(frame);
        let area = self.area_of(frame);
        let count = self.space_of(frame).len();
        lemma_tiles_partition(geometry, area, count, point);
        assert forall|k: int| 0 <= k < count implies later.area_of(
            #[trigger] self.space_of(frame)[k],
        ) == tile(geometry, area, count, k as nat) by {
            self.lemma_divided_children(later, frame, k);
        }
        self.lemma_divided_children(later, frame, 0);
        if later.area_of(frame).holds(point) {
            let k = choose|k: nat|
                k < count && (#[trigger] tile(geometry, area, count, k)).holds(point);
            assert(later.area_of(self.space_of(frame)[k as int]).holds(point));
        }
        if exists|k: int|
            0 <= k < count && later.area_of(#[trigger] self.space_of(frame)[k]).holds(point) {
            let k = choose|k: int|
                0 <= k < count && later.area_of(#[trigger] self.space_of(frame)[k]).holds(
                    point,
                );
            assert(tile(geometry, area, count, k as nat).holds(point));
        }
        assert forall|j: int, k: int|
            0 <= j < count && 0 <= k < count && later.area_of(
                #[trigger] self.space_of(frame)[j],
            ).holds(point) && later.area_of(#[trigger] self.space_of(frame)[k]).holds(
                point,
            ) implies j == k by {
            assert(tile(geometry, area, count, j as nat).holds(point));
            assert(tile(geometry, area, count, k as nat).holds(point));
        }
    }

    /// A frame shows a surface exactly when it is a leaf.
    pub proof fn lemma_leaf_shows_surface(&self, frame: Frame)
        requires
            self.wf(),
            self.has(frame),
        ensures
            self.mode_of(frame) == Mode::Leaf <==> self.sid_of(frame).valid(),
    {
        assert(self.frame_wf(frame));
    }

    /// The children of a frame in the order of the layout and its children in the order
    /// of use are the same frames, none of them twice.
    pub proof fn lemma_orders_agree(&self, frame: Frame, child: Frame)
        requires
            self.wf(),
            self.has(frame),
        ensures
            self.space_of(frame).contains(child) <==> self.time_of(frame).contains(child),
            self.space_of(frame).no_duplicates(),
            self.time_of(frame).no_duplicates(),
            self.space_of(frame).len() == self.time_of(frame).len(),
    {
        assert(self.frame_wf(frame));
        if self.space_of(frame).contains(child) {
            let k = choose|k: int|
                0 <= k < self.space_of(frame).len() && self.space_of(frame)[k] == child;
            assert(self.time_of(frame).contains(self.space_of(frame)[k]));
        }
        if self.time_of(frame).contains(child) {
            let k = choose|k: int|
                0 <= k < self.time_of(frame).len() && self.time_of(frame)[k] == child;
            assert(self.space_of(frame).contains(self.time_of(frame)[k]));
        }
    }

    /// Giving a frame the size that it was just given changes no area.
    pub proof fn lemma_resize_again(&self, once: &FrameTree, frame: Frame, size: Size, other: Frame)
        requires
            self.wf(),
            self.has(frame),
            self.has(other),
            self.resized(once, frame, size),
            self.within(other, frame),
        ensures
            once.area_after(frame, Change::Resize(size), other) == once.area_of(other),
        decreases self.level_of(other),
    {
        assert(self.frame_wf(other));
        self.lemma_within_self(frame);
        self.lemma_within_level(other, frame);
        once.lemma_same_links(self);
        self.lemma_reached_same(once, frame, other);
        assert(once.area_of(frame) == self.area_after(frame, Change::Resize(size), frame));
        if other != frame {
            match self.parent_of(other) {
                Some(parent) => {
                    self.lemma_resize_again(once, frame, size, parent);
                    self.lemma_reached_same(once, frame, parent);
                    assert(self.within(parent, frame));
                    assert(once.area_of(parent) == self.area_after(
                        frame,
                        Change::Resize(size),
                        parent,
                    ));
                    assert(once.area_of(other) == self.area_after(
                        frame,
                        Change::Resize(size),
                        other,
                    ));
                    lemma_plus_nothing(once.area_of(other).pos, once.area_of(parent).pos);
                },
                None => {},
            }
        }
    }
}

impl CoordinatorModel {
    /// After requests in which no registered surface is named twice, each registered
    /// surface among them has the size that was asked of it, maximized.
    pub proof fn lemma_told_holds(self, requests: Seq<(SurfaceId, Size)>, i: int)
        requires
            self.wf(),
            0 <= i < requests.len(),
            self.has_surface(requests[i].0),
            forall|a: int, b: int|
                0 <= a < b < requests.len() && self.has_surface(requests[a].0) ==> requests[a].0
                    != requests[b].0,
        ensures
            self.told(requests).has_surface(requests[i].0),
            self.told(requests).surface(requests[i].0).desired_size == requests[i].1,
            self.told(requests).surface(requests[i].0).state_flags == MAXIMIZED,
        decreases requests.len(),
    {
        let front = requests.drop_last();
        self.lemma_told_wf(front);
        self.lemma_told_wf(requests);
        let before = self.told(front);
        assert(before.surfaces.dom().contains(requests[i].0.value));
        if i < requests.len() - 1 {
            assert(front[i] == requests[i]);
            self.lemma_told_holds(front, i);
            assert(requests[i].0 != requests[requests.len() - 1].0);
        }
    }

    /// Requests in which no registered surface is named twice change nothing when they
    /// are made a second time: no record changes, and nothing more is notified.
    pub proof fn lemma_told_again(self, requests: Seq<(SurfaceId, Size)>, upto: int)
        requires
            self.wf(),
            0 <= upto <= requests.len(),
            forall|a: int, b: int|
                0 <= a < b < requests.len() && self.has_surface(requests[a].0) ==> requests[a].0
                    != requests[b].0,
        ensures
            self.told(requests).told(requests.take(upto)) == self.told(requests),
        decreases upto,
    {
        let once = self.told(requests);
        if upto > 0 {
            self.lemma_told_again(requests, upto - 1);
            assert(requests.take(upto).drop_last() =~= requests.take(upto - 1));
            assert(requests.take(upto).last() == requests[upto - 1]);
            self.lemma_told_wf(requests);
            assert(once.surfaces.dom().contains(requests[upto - 1].0.value)
                == self.surfaces.dom().contains(requests[upto - 1].0.value));
            if self.has_surface(requests[upto - 1].0) {
                self.lemma_told_holds(requests, upto - 1);
            }
        }
    }
}

impl FrameTree {
    /// Giving a frame the same size twice is the same as giving it that size once: the
    /// second time no area changes, and where no two leaves within the frame show the same
    /// surface, no surface is reconfigured and nothing is notified.
    pub proof fn lemma_set_size_twice(
        &self,
        once: &FrameTree,
        twice: &FrameTree,
        frame: Frame,
        size: Size,
        told: CoordinatorModel,
    )
        requires
            self.wf(),
            self.has(frame),
            told.wf(),
            self.resized(once, frame, size),
            once.resized(twice, frame, size),
            forall|a: int, b: int|
                0 <= a < b < self.visits(frame).len() && self.sid_of(
                    self.visits(frame)[a],
                ).valid() ==> self.sid_of(self.visits(frame)[a]) != self.sid_of(
                    self.visits(frame)[b],
                ),
        ensures
            forall|other: Frame| #[trigger] self.has(other) ==> twice.area_of(other) == once.area_of(other),
            told.told(once.requests(self.visits(frame))).told(
                twice.requests(once.visits(frame)),
            ) == told.told(once.requests(self.visits(frame))),
    {
        once.lemma_same_links(self);
        twice.lemma_same_links(once);
        assert forall|other: Frame| #[trigger] self.has(other) implies twice.area_of(other)
            == once.area_of(other) by {
            assert(once.has(other));
            if self.within(other, frame) {
                self.lemma_resize_again(once, frame, size, other);
            }
        }
        let visited = self.visits(frame);
        self.lemma_visits_same(once, frame);
        let requests = once.requests(visited);
        assert forall|a: int, b: int|
            0 <= a < b < requests.len() && told.has_surface(requests[a].0) implies requests[a].0
            != requests[b].0 by {
            assert(told.surfaces.contains_key(requests[a].0.value));
            assert(self.sid_of(visited[a]).valid());
        }
        assert forall|i: int| 0 <= i < visited.len() implies twice.area_of(
            #[trigger] visited[i],
        ).size == once.area_of(visited[i]).size by {
            self.lemma_visits_within(frame, i);
        }
        once.lemma_requests_agree(twice, visited);
        assert(twice.requests(visited) == requests);
        told.lemma_told_again(requests, requests.len() as int);
        assert(requests.take(requests.len() as int) =~= requests);
    }
}

} // verus!
