//! The record that is kept of each surface.

use vstd::prelude::*;
use crate::defs::{Position, Size, SurfaceId, Vector};
use crate::memory::MemoryView;
use crate::show_reason::ShowReason;
use crate::surface_state::SurfaceState;

verus! {

/// What a renderer needs to draw one surface: which surface, and where.
#[derive(Clone, Copy, Debug, PartialEq, Eq, Structural)]
pub struct SurfaceContext {
    pub id: SurfaceId,
    pub pos: Position,
}

impl SurfaceContext {
    pub fn new(id: SurfaceId, pos: Position) -> (context: SurfaceContext)
        ensures
            context.id == id,
            context.pos == pos,
    {
        SurfaceContext { id, pos }
    }
}

/// What other parts of the compositor are told of a surface.
#[derive(Clone, Copy, Debug, PartialEq, Eq, Structural)]
pub struct SurfaceInfo {
    pub id: SurfaceId,
    pub offset: Vector,
    pub parent_sid: SurfaceId,
    pub desired_size: Size,
    pub requested_size: Size,
    pub state_flags: SurfaceState,
    pub buffer: Option<MemoryView>,
}

/// The record of one surface.
pub struct Surface {
    pub id: SurfaceId,
    pub offset: Vector,
    pub desired_size: Size,
    pub requested_size: Size,
    pub relative_position: Position,
    pub parent_sid: SurfaceId,
    /// The surfaces drawn with this one, in drawing order. The surface itself is one of them.
    pub satellites: Vec<SurfaceId>,
    pub pending_buffer: Option<MemoryView>,
    pub buffer: Option<MemoryView>,
    pub show_reasons: ShowReason,
    pub state_flags: SurfaceState,
}

/// The record of one surface as a value of mathematics.
pub struct SurfaceModel {
    pub id: SurfaceId,
    pub offset: Vector,
    pub desired_size: Size,
    pub requested_size: Size,
    pub relative_position: Position,
    pub parent_sid: SurfaceId,
    pub satellites: Seq<SurfaceId>,
    pub pending_buffer: Option<MemoryView>,
    pub buffer: Option<MemoryView>,
    pub show_reasons: ShowReason,
    pub state_flags: SurfaceState,
}

impl SurfaceModel {
    /// The record of a surface that was just created: nothing is set, and the surface is
    /// its own and only satellite.
    pub open spec fn blank(id: SurfaceId) -> SurfaceModel {
        SurfaceModel {
            id,
            offset: Position { x: 0, y: 0 },
            desired_size: Size { width: 0, height: 0 },
            requested_size: Size { width: 0, height: 0 },
            relative_position: Position { x: 0, y: 0 },
            parent_sid: SurfaceId { value: 0 },
            satellites: seq![id],
            pending_buffer: None,
            buffer: None,
            show_reasons: 0,
            state_flags: 0,
        }
    }

    /// What is told of the surface.
    pub open spec fn info(self) -> SurfaceInfo {
        SurfaceInfo {
            id: self.id,
            offset: self.offset,
            parent_sid: self.parent_sid,
            desired_size: self.desired_size,
            requested_size: self.requested_size,
            state_flags: self.state_flags,
            buffer: self.buffer,
        }
    }

    /// What a renderer needs to draw the surface.
    pub open spec fn context(self) -> SurfaceContext {
        SurfaceContext { id: self.id, pos: self.relative_position }
    }

    /// The record after a commit: the pending buffer, if there is one, becomes the
    /// buffer that is drawn.
    pub open spec fn committed(self) -> SurfaceModel {
        match self.pending_buffer {
            Some(view) => SurfaceModel { buffer: Some(view), ..self },
            None => self,
        }
    }

    /// True when a commit gives the surface its first buffer.
    pub open spec fn commit_is_first(self) -> bool {
        self.pending_buffer.is_some() && self.buffer.is_none()
    }
}

impl View for Surface {
    type V = SurfaceModel;

    open spec fn view(&self) -> SurfaceModel {
        SurfaceModel {
            id: self.id,
            offset: self.offset,
            desired_size: self.desired_size,
            requested_size: self.requested_size,
            relative_position: self.relative_position,
            parent_sid: self.parent_sid,
            satellites: self.satellites@,
            pending_buffer: self.pending_buffer,
            buffer: self.buffer,
            show_reasons: self.show_reasons,
            state_flags: self.state_flags,
        }
    }
}

/// The sequence without any occurrence of `sid`.
pub open spec fn without(list: Seq<SurfaceId>, sid: SurfaceId) -> Seq<SurfaceId>
    decreases list.len(),
{
    if list.len() == 0 {
        list
    } else if list.last() == sid {
        without(list.drop_last(), sid)
    } else {
        without(list.drop_last(), sid).push(list.last())
    }
}

impl Surface {
    /// The record of a new surface.
    pub fn new(id: &SurfaceId) -> (surface: Surface)
        ensures
            surface@ == SurfaceModel::blank(*id),
    {
        let mut satellites: Vec<SurfaceId> = Vec::new();
        satellites.push(*id);
        let surface = Surface {
            id: *id,
            offset: Position::origin(),
            desired_size: Size::new(0, 0),
            requested_size: Size::new(0, 0),
            relative_position: Position::origin(),
            parent_sid: SurfaceId::invalid(),
            satellites,
            pending_buffer: None,
            buffer: None,
            show_reasons: 0,
            state_flags: 0,
        };
        assert(surface@.satellites =~= seq![*id]);
        surface
    }

    pub fn get_info(&self) -> (info: SurfaceInfo)
        ensures
            info == self@.info(),
    {
        SurfaceInfo {
            id: self.id,
            offset: self.offset,
            parent_sid: self.parent_sid,
            desired_size: self.desired_size,
            requested_size: self.requested_size,
            state_flags: self.state_flags,
            buffer: self.buffer,
        }
    }

    pub fn get_buffer(&self) -> (buffer: Option<MemoryView>)
        ensures
            buffer == self@.buffer,
    {
        self.buffer
    }

    pub fn get_renderer_context(&self) -> (context: SurfaceContext)
        ensures
            context == self@.context(),
    {
        SurfaceContext::new(self.id, self.relative_position)
    }

    pub fn get_show_reason(&self) -> (reasons: ShowReason)
        ensures
            reasons == self@.show_reasons,
    {
        self.show_reasons
    }

    pub fn get_parent_sid(&self) -> (sid: SurfaceId)
        ensures
            sid == self@.parent_sid,
    {
        self.parent_sid
    }

    pub fn get_desired_size(&self) -> (size: Size)
        ensures
            size == self@.desired_size,
    {
        self.desired_size
    }

    pub fn get_state_flags(&self) -> (flags: SurfaceState)
        ensures
            flags == self@.state_flags,
    {
        self.state_flags
    }

    /// Sets the buffer that the next commit will show.
    pub fn attach(&mut self, view: MemoryView)
        ensures
            final(self)@ == (SurfaceModel { pending_buffer: Some(view), ..old(self)@ }),
    {
        self.pending_buffer = Some(view);
    }

    /// Makes the pending buffer the one that is drawn. Without a pending buffer nothing
    /// changes. Tells whether the surface got its first buffer.
    pub fn commit(&mut self) -> (first: bool)
        ensures
            final(self)@ == old(self)@.committed(),
            first == old(self)@.commit_is_first(),
    {
        match self.pending_buffer {
            Some(view) => {
                let first = self.buffer.is_none();
                self.buffer = Some(view);
                first
            },
            None => false,
        }
    }

    /// Adds the reasons in `reason`, and returns the reasons that hold now.
    pub fn show(&mut self, reason: ShowReason) -> (reasons: ShowReason)
        ensures
            final(self)@ == (SurfaceModel {
                show_reasons: old(self)@.show_reasons | reason,
                ..old(self)@
            }),
            reasons == old(self)@.show_reasons | reason,
    {
        self.show_reasons = self.show_reasons | reason;
        self.show_reasons
    }

    /// Takes the reasons in `reason` away, and returns the reasons that hold now.
    pub fn conceal(&mut self, reason: ShowReason) -> (reasons: ShowReason)
        ensures
            final(self)@ == (SurfaceModel {
                show_reasons: old(self)@.show_reasons & !reason,
                ..old(self)@
            }),
            reasons == old(self)@.show_reasons & !reason,
    {
        self.show_reasons = self.show_reasons & !reason;
        self.show_reasons
    }

    pub fn set_offset(&mut self, offset: Vector)
        ensures
            final(self)@ == (SurfaceModel { offset, ..old(self)@ }),
    {
        self.offset = offset;
    }

    pub fn set_requested_size(&mut self, size: Size)
        ensures
            final(self)@ == (SurfaceModel { requested_size: size, ..old(self)@ }),
    {
        self.requested_size = size;
    }

    pub fn set_desired_size(&mut self, size: Size)
        ensures
            final(self)@ == (SurfaceModel { desired_size: size, ..old(self)@ }),
    {
        self.desired_size = size;
    }

    pub fn set_state_flags(&mut self, flags: SurfaceState)
        ensures
            final(self)@ == (SurfaceModel { state_flags: flags, ..old(self)@ }),
    {
        self.state_flags = flags;
    }

    pub fn set_relative_position(&mut self, position: Position)
        ensures
            final(self)@ == (SurfaceModel { relative_position: position, ..old(self)@ }),
    {
        self.relative_position = position;
    }

    pub fn set_parent_sid(&mut self, sid: SurfaceId)
        ensures
            final(self)@ == (SurfaceModel { parent_sid: sid, ..old(self)@ }),
    {
        self.parent_sid = sid;
    }

    /// Adds `sid` after the satellites there are.
    pub fn add_satellite(&mut self, sid: SurfaceId)
        ensures
            final(self)@ == (SurfaceModel {
                satellites: old(self)@.satellites.push(sid),
                ..old(self)@
            }),
    {
        self.satellites.push(sid);
    }

    /// Takes every occurrence of `sid` out of the satellites. The others keep their order.
    pub fn remove_satellite(&mut self, sid: SurfaceId)
        ensures
            final(self)@ == (SurfaceModel {
                satellites: without(old(self)@.satellites, sid),
                ..old(self)@
            }),
    {
        let mut kept: Vec<SurfaceId> = Vec::new();
        let count = self.satellites.len();
        let mut place: usize = 0;
        while place < count
            invariant
                count == self.satellites@.len(),
                place <= count,
                kept@ == without(self.satellites@.take(place as int), sid),
            decreases count - place,
        {
            let other = self.satellites[place];
            proof {
                let list = self.satellites@;
                assert(list.take(place + 1).drop_last() =~= list.take(place as int));
                assert(list.take(place + 1).last() == list[place as int]);
            }
            if other != sid {
                kept.push(other);
            }
            place = place + 1;
        }
        proof {
            assert(self.satellites@.take(count as int) =~= self.satellites@);
        }
        self.satellites = kept;
    }
}

} // verus!
