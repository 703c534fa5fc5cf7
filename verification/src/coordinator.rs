//! The registry of surfaces, memory pools, memory views and focus. Every change of the
//! shared state goes through one of its operations, which changes the state and records the
//! notifications that the change calls for, in the order in which they are to be sent.

use vstd::prelude::*;
use std::collections::HashMap;
use crate::defs::{MemoryPoolId, MemoryViewId, Position, Size, SurfaceId, Vector};
use crate::memory::{MemoryPool, MemoryView, StorageId, StorageKind};
use crate::perceptron::Perceptron;
use crate::show_reason::{ShowReason, DRAWABLE, IN_SHELL, READY};
use crate::surface::{without, Surface, SurfaceContext, SurfaceInfo, SurfaceModel};
use crate::surface_state::SurfaceState;

verus! {

broadcast use vstd::std_specs::hash::group_hash_axioms;

/// The registry.
pub struct InnerCoordinator {
    pub surfaces: HashMap<u64, Surface>,
    pub memory_views: HashMap<u64, MemoryView>,
    pub memory_pools: HashMap<u64, MemoryPool>,
    pub last_surface_id: SurfaceId,
    pub last_memory_view_id: MemoryViewId,
    pub last_memory_pool_id: MemoryPoolId,
    pub last_storage_id: StorageId,
    /// The surface that has the keyboard.
    pub kfsid: SurfaceId,
    /// The surface under the pointer.
    pub pfsid: SurfaceId,
    /// The notifications that are still to be sent, oldest first.
    pub emitted: Vec<Perceptron>,
}

/// The registry as a value of mathematics.
pub struct CoordinatorModel {
    pub surfaces: Map<u64, SurfaceModel>,
    pub memory_views: Map<u64, MemoryView>,
    pub memory_pools: Map<u64, MemoryPool>,
    pub last_surface_id: SurfaceId,
    pub last_memory_view_id: MemoryViewId,
    pub last_memory_pool_id: MemoryPoolId,
    pub last_storage_id: StorageId,
    pub kfsid: SurfaceId,
    pub pfsid: SurfaceId,
    pub emitted: Seq<Perceptron>,
}

/// The records of a table of surfaces as values of mathematics.
pub open spec fn models(surfaces: Map<u64, Surface>) -> Map<u64, SurfaceModel> {
    Map::new(|key: u64| surfaces.contains_key(key), |key: u64| surfaces[key]@)
}

impl View for InnerCoordinator {
    type V = CoordinatorModel;

    open spec fn view(&self) -> CoordinatorModel {
        CoordinatorModel {
            surfaces: models(self.surfaces@),
            memory_views: self.memory_views@,
            memory_pools: self.memory_pools@,
            last_surface_id: self.last_surface_id,
            last_memory_view_id: self.last_memory_view_id,
            last_memory_pool_id: self.last_memory_pool_id,
            last_storage_id: self.last_storage_id,
            kfsid: self.kfsid,
            pfsid: self.pfsid,
            emitted: self.emitted@,
        }
    }
}

impl CoordinatorModel {
    /// The registry is well formed: every record is filed under its own identifier, and no
    /// identifier in use is beyond the last one that was handed out. The reserved identifier
    /// of surfaces names no record.
    pub open spec fn wf(self) -> bool {
        &&& forall|key: u64| #[trigger]
            self.surfaces.contains_key(key) ==> self.surfaces[key].id.value == key && 0 < key
                <= self.last_surface_id.value
        &&& forall|key: u64| #[trigger]
            self.memory_views.contains_key(key) ==> 0 < key <= self.last_memory_view_id.value
        &&& forall|key: u64| #[trigger]
            self.memory_pools.contains_key(key) ==> 0 < key <= self.last_memory_pool_id.value
                && self.memory_pools[key].storage.value <= self.last_storage_id.value
    }

    /// True when a surface is registered under `sid`.
    pub open spec fn has_surface(self, sid: SurfaceId) -> bool {
        self.surfaces.contains_key(sid.value)
    }

    /// The record of the surface `sid`.
    pub open spec fn surface(self, sid: SurfaceId) -> SurfaceModel {
        self.surfaces[sid.value]
    }

    /// The registry with `record` filed under `sid`.
    pub open spec fn with_surface(self, sid: SurfaceId, record: SurfaceModel) -> CoordinatorModel {
        CoordinatorModel { surfaces: self.surfaces.insert(sid.value, record), ..self }
    }

    /// Replacing the record of a registered surface by one with the same identifier keeps
    /// the registry well formed.
    pub proof fn lemma_with_surface(self, sid: SurfaceId, record: SurfaceModel)
        requires
            self.wf(),
            self.has_surface(sid),
            record.id == sid,
        ensures
            self.with_surface(sid, record).wf(),
            self.with_surface(sid, record).surfaces.dom() =~= self.surfaces.dom(),
    {
        let next = self.with_surface(sid, record);
        assert forall|key: u64| #[trigger] next.surfaces.contains_key(key) implies next.surfaces[key].id.value
            == key && 0 < key <= next.last_surface_id.value by {
            if key != sid.value {
                assert(self.surfaces.contains_key(key));
            }
        }
    }

    /// A registry that differs from a well-formed one in what is to be sent only is well
    /// formed.
    pub proof fn lemma_notified_wf(self, before: CoordinatorModel)
        requires
            before.wf(),
            self == before.with_emitted(Perceptron::Notify),
        ensures
            self.wf(),
    {
    }

    /// The registry with one more notification to send.
    pub open spec fn with_emitted(self, notification: Perceptron) -> CoordinatorModel {
        CoordinatorModel { emitted: self.emitted.push(notification), ..self }
    }

    /// The registry after the surface `sid` was asked to take the size `size` and the states
    /// `flags`. Where either differs from what the record holds, the record takes both and
    /// the change is notified. An unknown surface changes nothing.
    pub open spec fn reconfigured(
        self,
        sid: SurfaceId,
        size: Size,
        flags: SurfaceState,
    ) -> CoordinatorModel {
        if self.has_surface(sid) && (self.surface(sid).desired_size != size || self.surface(
            sid,
        ).state_flags != flags) {
            self.with_surface(
                sid,
                SurfaceModel { desired_size: size, state_flags: flags, ..self.surface(sid) },
            ).with_emitted(Perceptron::SurfaceReconfigured(sid))
        } else {
            self
        }
    }

    /// The registry after the reasons `reason` were added to those of the surface `sid`. The
    /// surface is notified as ready when the reasons become complete by this.
    pub open spec fn shown(self, sid: SurfaceId, reason: ShowReason) -> CoordinatorModel {
        if self.has_surface(sid) {
            let before = self.surface(sid).show_reasons;
            let after = before | reason;
            let next = self.with_surface(
                sid,
                SurfaceModel { show_reasons: after, ..self.surface(sid) },
            );
            if after == READY && before != READY {
                next.with_emitted(Perceptron::SurfaceReady(sid))
            } else {
                next
            }
        } else {
            self
        }
    }

    /// The registry after the reasons `reason` were taken from those of the surface `sid`.
    /// The surface is notified as destroyed when the reasons stop being complete by this.
    pub open spec fn hidden(self, sid: SurfaceId, reason: ShowReason) -> CoordinatorModel {
        if self.has_surface(sid) {
            let before = self.surface(sid).show_reasons;
            let after = before & !reason;
            let next = self.with_surface(
                sid,
                SurfaceModel { show_reasons: after, ..self.surface(sid) },
            );
            if after != READY && before == READY {
                next.with_emitted(Perceptron::SurfaceDestroyed(sid))
            } else {
                next
            }
        } else {
            self
        }
    }
}

impl CoordinatorModel {
    /// The registry with a new pool of kind `kind` under `mpid`, which is the next pool
    /// identifier, over storage named by the next storage number.
    pub open spec fn with_pool(self, mpid: MemoryPoolId, kind: StorageKind) -> CoordinatorModel {
        let storage = StorageId { value: (self.last_storage_id.value + 1) as u64 };
        CoordinatorModel {
            memory_pools: self.memory_pools.insert(mpid.value, MemoryPool { storage, kind }),
            last_memory_pool_id: mpid,
            last_storage_id: storage,
            ..self
        }
    }

    /// The registry after the pool `mpid` got new storage, over shared memory, named by
    /// the next storage number. An unknown pool changes nothing.
    pub open spec fn with_replaced_pool(self, mpid: MemoryPoolId) -> CoordinatorModel {
        if self.memory_pools.contains_key(mpid.value) {
            let storage = StorageId { value: (self.last_storage_id.value + 1) as u64 };
            CoordinatorModel {
                memory_pools: self.memory_pools.insert(
                    mpid.value,
                    MemoryPool { storage, kind: StorageKind::Mapped },
                ),
                last_storage_id: storage,
                ..self
            }
        } else {
            self
        }
    }

    /// The registry after a view of the pool `mpid` was asked for: the next view
    /// identifier is used up, and names the view where the pool is known.
    pub open spec fn with_view(
        self,
        mpid: MemoryPoolId,
        offset: usize,
        width: usize,
        height: usize,
        stride: usize,
    ) -> CoordinatorModel {
        let mvid = MemoryViewId { value: (self.last_memory_view_id.value + 1) as u64 };
        if self.memory_pools.contains_key(mpid.value) {
            CoordinatorModel {
                memory_views: self.memory_views.insert(
                    mvid.value,
                    MemoryView {
                        storage: self.memory_pools[mpid.value].storage,
                        offset,
                        width,
                        height,
                        stride,
                    },
                ),
                last_memory_view_id: mvid,
                ..self
            }
        } else {
            CoordinatorModel { last_memory_view_id: mvid, ..self }
        }
    }

    /// The identifier that the next surface gets.
    pub open spec fn next_surface_id(self) -> SurfaceId {
        SurfaceId { value: (self.last_surface_id.value + 1) as u64 }
    }

    /// The registry after a surface was created.
    pub open spec fn created(self) -> CoordinatorModel {
        CoordinatorModel {
            last_surface_id: self.next_surface_id(),
            ..self.with_surface(
                self.next_surface_id(),
                SurfaceModel::blank(self.next_surface_id()),
            )
        }
    }

    /// The registry after the surface `sid` was destroyed: its end is notified, and its
    /// record is gone.
    pub open spec fn destroyed(self, sid: SurfaceId) -> CoordinatorModel {
        CoordinatorModel {
            surfaces: self.surfaces.remove(sid.value),
            ..self.with_emitted(Perceptron::SurfaceDestroyed(sid))
        }
    }

    /// The registry after the view `mvid` was attached to the surface `sid`: the view
    /// waits for the next commit. Nothing changes where either is unknown.
    pub open spec fn attached(self, mvid: MemoryViewId, sid: SurfaceId) -> CoordinatorModel {
        if self.has_surface(sid) && self.memory_views.contains_key(mvid.value) {
            self.with_surface(
                sid,
                SurfaceModel {
                    pending_buffer: Some(self.memory_views[mvid.value]),
                    ..self.surface(sid)
                },
            )
        } else {
            self
        }
    }

    /// The registry after a commit of the surface `sid`: the buffer that waited is the
    /// one that is drawn, and a surface that got its first buffer by this has the reason
    /// to be shown that it is drawable.
    pub open spec fn committed(self, sid: SurfaceId) -> CoordinatorModel {
        if self.has_surface(sid) {
            let next = self.with_surface(sid, self.surface(sid).committed());
            if self.surface(sid).commit_is_first() {
                next.shown(sid, DRAWABLE)
            } else {
                next
            }
        } else {
            self
        }
    }

    /// The registry after the surface `sid` was made a satellite of `parent_sid`: it has
    /// that parent and stands at the parent's own position; it loses its role in the shell,
    /// as `hidden` says, so that a surface that was ready is notified as destroyed; and the
    /// parent, if it is known, has it as its last satellite.
    pub open spec fn related(self, sid: SurfaceId, parent_sid: SurfaceId) -> CoordinatorModel {
        if self.has_surface(sid) {
            let first = self.with_surface(
                sid,
                SurfaceModel {
                    parent_sid,
                    relative_position: Position { x: 0, y: 0 },
                    ..self.surface(sid)
                },
            ).hidden(sid, IN_SHELL);
            if first.has_surface(parent_sid) {
                first.with_surface(
                    parent_sid,
                    SurfaceModel {
                        satellites: first.surface(parent_sid).satellites.push(sid),
                        ..first.surface(parent_sid)
                    },
                )
            } else {
                first
            }
        } else {
            self
        }
    }

    /// The registry after the surface `sid` was taken from its parent: it has no parent,
    /// and the parent it had, if it is known, does not have it as a satellite.
    pub open spec fn unrelated(self, sid: SurfaceId) -> CoordinatorModel {
        if self.has_surface(sid) {
            let parent_sid = self.surface(sid).parent_sid;
            let first = self.with_surface(
                sid,
                SurfaceModel { parent_sid: SurfaceId { value: 0 }, ..self.surface(sid) },
            );
            if first.has_surface(parent_sid) {
                first.with_surface(
                    parent_sid,
                    SurfaceModel {
                        satellites: without(first.surface(parent_sid).satellites, sid),
                        ..first.surface(parent_sid)
                    },
                )
            } else {
                first
            }
        } else {
            self
        }
    }

    /// What is drawn for the surface `sid`: what is drawn for each of its satellites, in
    /// their order. For the surface itself that is its own context, for another satellite
    /// what is drawn for that surface; an unknown satellite adds nothing. Satellites are
    /// followed `depth` surfaces deep.
    pub open spec fn contexts(self, sid: SurfaceId, depth: nat) -> Option<Seq<SurfaceContext>>
        decreases depth, (if self.has_surface(sid) {
            self.surface(sid).satellites.len() + 1
        } else {
            0
        }),
    {
        if self.has_surface(sid) {
            Some(self.contexts_among(sid, self.surface(sid).satellites, depth))
        } else {
            None
        }
    }

    /// What is drawn for the satellites `list` of the surface `sid`.
    pub open spec fn contexts_among(
        self,
        sid: SurfaceId,
        list: Seq<SurfaceId>,
        depth: nat,
    ) -> Seq<SurfaceContext>
        decreases depth, list.len(),
    {
        if list.len() == 0 {
            Seq::empty()
        } else {
            let rest = self.contexts_among(sid, list.drop_last(), depth);
            if list.last() == sid {
                rest.push(self.surface(sid).context())
            } else if depth > 0 {
                match self.contexts(list.last(), (depth - 1) as nat) {
                    Some(more) => rest + more,
                    None => rest,
                }
            } else {
                rest
            }
        }
    }

    /// What is drawn for the surface `sid`, with satellites followed as deep as there are
    /// surfaces: deep enough for every chain of satellites that does not run in a circle.
    pub open spec fn renderer_context(self, sid: SurfaceId) -> Option<Seq<SurfaceContext>> {
        self.contexts(sid, self.surfaces.len())
    }

    /// Every surface that is drawn is registered.
    pub proof fn lemma_contexts_registered(self, sid: SurfaceId, depth: nat)
        requires
            self.wf(),
            self.has_surface(sid),
        ensures
            forall|i: int|
                0 <= i < self.contexts(sid, depth).unwrap().len() ==> self.has_surface(
                    (#[trigger] self.contexts(sid, depth).unwrap()[i]).id,
                ),
        decreases depth, self.surface(sid).satellites.len() + 1,
    {
        self.lemma_contexts_among_registered(sid, self.surface(sid).satellites, depth);
        assert(self.contexts(sid, depth).unwrap() == self.contexts_among(
            sid,
            self.surface(sid).satellites,
            depth,
        ));
    }

    /// Every surface that is drawn for some satellites is registered.
    pub proof fn lemma_contexts_among_registered(
        self,
        sid: SurfaceId,
        list: Seq<SurfaceId>,
        depth: nat,
    )
        requires
            self.wf(),
            self.has_surface(sid),
        ensures
            forall|i: int|
                0 <= i < self.contexts_among(sid, list, depth).len() ==> self.has_surface(
                    (#[trigger] self.contexts_among(sid, list, depth)[i]).id,
                ),
        decreases depth, list.len(),
    {
        if list.len() > 0 {
            self.lemma_contexts_among_registered(sid, list.drop_last(), depth);
            let rest = self.contexts_among(sid, list.drop_last(), depth);
            let all = self.contexts_among(sid, list, depth);
            if list.last() == sid {
                assert(self.surface(sid).context().id == sid);
                assert forall|i: int| 0 <= i < all.len() implies self.has_surface(
                    (#[trigger] all[i]).id,
                ) by {
                    if i < rest.len() {
                        assert(all[i] == rest[i]);
                    }
                }
            } else if depth > 0 && self.has_surface(list.last()) {
                self.lemma_contexts_registered(list.last(), (depth - 1) as nat);
                let more = self.contexts(list.last(), (depth - 1) as nat).unwrap();
                assert forall|i: int| 0 <= i < all.len() implies self.has_surface(
                    (#[trigger] all[i]).id,
                ) by {
                    if i < rest.len() {
                        assert(all[i] == rest[i]);
                    } else {
                        assert(all[i] == more[i - rest.len()]);
                    }
                }
            }
        }
    }

    /// Putting a record back under the identifier from which one was taken gives the
    /// registry with that record in place of the one taken.
    pub proof fn lemma_put_back(self, taken: CoordinatorModel, sid: SurfaceId, record: SurfaceModel)
        requires
            taken == (CoordinatorModel { surfaces: self.surfaces.remove(sid.value), ..self }),
        ensures
            taken.with_surface(sid, record) == self.with_surface(sid, record),
    {
        assert(taken.surfaces.insert(sid.value, record) =~= self.surfaces.insert(
            sid.value,
            record,
        ));
    }
}

impl InnerCoordinator {
    /// The registry is well formed.
    pub open spec fn wf(&self) -> bool {
        self@.wf()
    }

    /// An empty registry: nothing is registered, nothing has focus and nothing is to be
    /// sent.
    pub fn new() -> (coordinator: InnerCoordinator)
        ensures
            coordinator.wf(),
            coordinator@ == (CoordinatorModel {
                surfaces: Map::empty(),
                memory_views: Map::empty(),
                memory_pools: Map::empty(),
                last_surface_id: SurfaceId { value: 0 },
                last_memory_view_id: MemoryViewId { value: 0 },
                last_memory_pool_id: MemoryPoolId { value: 0 },
                last_storage_id: StorageId { value: 0 },
                kfsid: SurfaceId { value: 0 },
                pfsid: SurfaceId { value: 0 },
                emitted: Seq::empty(),
            }),
    {
        let coordinator = InnerCoordinator {
            surfaces: HashMap::new(),
            memory_views: HashMap::new(),
            memory_pools: HashMap::new(),
            last_surface_id: SurfaceId::invalid(),
            last_memory_view_id: MemoryViewId::initial(),
            last_memory_pool_id: MemoryPoolId::initial(),
            last_storage_id: StorageId { value: 0 },
            kfsid: SurfaceId::invalid(),
            pfsid: SurfaceId::invalid(),
            emitted: Vec::new(),
        };
        assert(coordinator@.surfaces =~= Map::empty());
        coordinator
    }

    /// Hands over the notifications that are to be sent, oldest first, and keeps none.
    pub fn take_emitted(&mut self) -> (notifications: Vec<Perceptron>)
        ensures
            notifications@ == old(self)@.emitted,
            final(self)@ == (CoordinatorModel { emitted: Seq::empty(), ..old(self)@ }),
    {
        let mut notifications: Vec<Perceptron> = Vec::new();
        std::mem::swap(&mut notifications, &mut self.emitted);
        notifications
    }

    /// Records `notification` as the next to send.
    fn emit(&mut self, notification: Perceptron)
        ensures
            final(self)@ == old(self)@.with_emitted(notification),
    {
        self.emitted.push(notification);
    }

    /// Files `surface` under its identifier in place of the record that was there.
    fn put_surface(&mut self, surface: Surface)
        ensures
            final(self)@ == old(self)@.with_surface(surface.id, surface@),
    {
        let ghost record = surface@;
        let ghost key = surface.id.value;
        self.surfaces.insert(surface.id.value, surface);
        assert(self@.surfaces =~= old(self)@.surfaces.insert(key, record));
    }

    /// Asks for the screen to be drawn again.
    pub fn notify(&mut self)
        ensures
            final(self)@ == old(self)@.with_emitted(Perceptron::Notify),
    {
        self.emit(Perceptron::Notify);
    }

    /// What is told of the surface `sid`; nothing of an unknown surface.
    pub fn get_surface(&self, sid: SurfaceId) -> (info: Option<SurfaceInfo>)
        ensures
            info == if self@.has_surface(sid) {
                Some(self@.surface(sid).info())
            } else {
                None
            },
    {
        match self.surfaces.get(&sid.value) {
            Some(surface) => Some(surface.get_info()),
            None => None,
        }
    }

    /// The buffer that is drawn for the surface `sid`.
    pub fn get_buffer(&self, sid: SurfaceId) -> (buffer: Option<MemoryView>)
        ensures
            buffer == if self@.has_surface(sid) {
                self@.surface(sid).buffer
            } else {
                None
            },
    {
        match self.surfaces.get(&sid.value) {
            Some(surface) => surface.get_buffer(),
            None => None,
        }
    }

    /// The surface that has the keyboard.
    pub fn get_keyboard_focused_sid(&self) -> (sid: SurfaceId)
        ensures
            sid == self@.kfsid,
    {
        self.kfsid
    }

    /// Gives the keyboard to the surface `sid`. A change is notified with the surface that
    /// had the keyboard and the one that has it now; giving it to the surface that has it
    /// changes nothing.
    pub fn set_keyboard_focus(&mut self, sid: SurfaceId)
        ensures
            final(self)@ == if old(self)@.kfsid != sid {
                (CoordinatorModel { kfsid: sid, ..old(self)@ }).with_emitted(
                    Perceptron::KeyboardFocusChanged(old(self)@.kfsid, sid),
                )
            } else {
                old(self)@
            },
    {
        if self.kfsid != sid {
            self.emit(Perceptron::KeyboardFocusChanged(self.kfsid, sid));
            self.kfsid = sid;
        }
    }

    /// The surface under the pointer.
    pub fn get_pointer_focused_sid(&self) -> (sid: SurfaceId)
        ensures
            sid == self@.pfsid,
    {
        self.pfsid
    }

    /// Puts the pointer over the surface `sid`, at `position`. A change of surface is
    /// notified; the same surface again changes nothing.
    pub fn set_pointer_focus(&mut self, sid: SurfaceId, position: Position)
        ensures
            final(self)@ == if old(self)@.pfsid != sid {
                (CoordinatorModel { pfsid: sid, ..old(self)@ }).with_emitted(
                    Perceptron::PointerFocusChanged(old(self)@.pfsid, sid, position),
                )
            } else {
                old(self)@
            },
    {
        if self.pfsid != sid {
            self.emit(Perceptron::PointerFocusChanged(self.pfsid, sid, position));
            self.pfsid = sid;
        }
    }

    /// Registers a new surface under the next identifier, which is greater than every
    /// identifier handed out before, and returns the identifier.
    pub fn create_surface(&mut self) -> (sid: SurfaceId)
        requires
            old(self).wf(),
            old(self)@.last_surface_id.value < u64::MAX,
        ensures
            final(self).wf(),
            sid.value == old(self)@.last_surface_id.value + 1,
            !old(self)@.has_surface(sid),
            sid == old(self)@.next_surface_id(),
            final(self)@ == old(self)@.created(),
    {
        let id = self.generate_next_surface_id();
        let surface = Surface::new(&id);
        self.put_surface(surface);
        id
    }

    fn generate_next_surface_id(&mut self) -> (sid: SurfaceId)
        requires
            old(self)@.last_surface_id.value < u64::MAX,
        ensures
            sid.value == old(self)@.last_surface_id.value + 1,
            final(self)@ == (CoordinatorModel { last_surface_id: sid, ..old(self)@ }),
    {
        self.last_surface_id = SurfaceId::new(self.last_surface_id.as_number() + 1);
        self.last_surface_id
    }

    /// Asks the surface `sid` to take the size `size` and the states `flags`. Where either
    /// differs from what the record holds, the record takes both and the change is notified.
    pub fn reconfigure(&mut self, sid: SurfaceId, size: Size, flags: SurfaceState)
        requires
            old(self).wf(),
        ensures
            final(self).wf(),
            final(self)@ == old(self)@.reconfigured(sid, size, flags),
    {
        match self.surfaces.remove(&sid.value) {
            Some(surface) => {
                let mut surface = surface;
                proof {
                    assert(old(self)@.surfaces.contains_key(sid.value));
                    assert(surface.id == sid);
                }
                proof {
                    old(self)@.lemma_with_surface(
                        sid,
                        (SurfaceModel {
                            desired_size: size,
                            state_flags: flags,
                            ..old(self)@.surface(sid)
                        }),
                    );
                }
                if surface.get_desired_size() != size || surface.get_state_flags() != flags {
                    surface.set_desired_size(size);
                    surface.set_state_flags(flags);
                    self.put_surface(surface);
                    self.emit(Perceptron::SurfaceReconfigured(sid));
                    proof {
                        assert(self@.surfaces =~= old(self)@.surfaces.insert(
                            sid.value,
                            (SurfaceModel {
                                desired_size: size,
                                state_flags: flags,
                                ..old(self)@.surface(sid)
                            }),
                        ));
                    }
                } else {
                    self.put_surface(surface);
                    proof {
                        assert(self@.surfaces =~= old(self)@.surfaces);
                    }
                }
            },
            None => {
                proof {
                    assert(self@.surfaces =~= old(self)@.surfaces);
                }
            },
        }
    }
}


impl InnerCoordinator {
    /// Takes the record of the surface `sid` out of the registry, if there is one.
    fn take_surface(&mut self, sid: SurfaceId) -> (taken: Option<Surface>)
        requires
            old(self).wf(),
        ensures
            final(self)@ == (CoordinatorModel {
                surfaces: old(self)@.surfaces.remove(sid.value),
                ..old(self)@
            }),
            match taken {
                Some(surface) => old(self)@.has_surface(sid) && surface@ == old(self)@.surface(
                    sid,
                ) && surface.id == sid,
                None => !old(self)@.has_surface(sid),
            },
    {
        let taken = self.surfaces.remove(&sid.value);
        proof {
            assert(self@.surfaces =~= old(self)@.surfaces.remove(sid.value));
            if old(self)@.has_surface(sid) {
                assert(old(self)@.surfaces.contains_key(sid.value));
            }
        }
        taken
    }

    /// What is drawn for the surface `sid`, every surface of which is registered; nothing
    /// for an unknown surface.
    pub fn get_renderer_context(&self, sid: SurfaceId) -> (list: Option<Vec<SurfaceContext>>)
        requires
            self.wf(),
        ensures
            list.is_some() == self@.has_surface(sid),
            list matches Some(contexts) ==> Some(contexts@) == self@.renderer_context(sid)
                && forall|i: int|
                0 <= i < contexts@.len() ==> self@.has_surface((#[trigger] contexts@[i]).id),
    {
        let depth = self.surfaces.len();
        proof {
            assert(self@.surfaces.dom() =~= self.surfaces@.dom());
        }
        self.contexts_within(sid, depth)
    }

    /// What is drawn for the surface `sid`, with satellites followed `depth` surfaces deep.
    fn contexts_within(&self, sid: SurfaceId, depth: usize) -> (list: Option<
        Vec<SurfaceContext>,
    >)
        requires
            self.wf(),
        ensures
            list.is_some() == self@.has_surface(sid),
            list matches Some(contexts) ==> Some(contexts@) == self@.contexts(sid, depth as nat)
                && forall|i: int|
                0 <= i < contexts@.len() ==> self@.has_surface((#[trigger] contexts@[i]).id),
        decreases depth,
    {
        match self.surfaces.get(&sid.value) {
            Some(surface) => {
                proof {
                    assert(self@.surfaces.contains_key(sid.value));
                    assert(surface@ == self@.surface(sid));
                }
                let mut result: Vec<SurfaceContext> = Vec::new();
                let count = surface.satellites.len();
                let mut place: usize = 0;
                while place < count
                    invariant
                        self.wf(),
                        self@.has_surface(sid),
                        surface@ == self@.surface(sid),
                        count == surface.satellites@.len(),
                        place <= count,
                        result@ == self@.contexts_among(
                            sid,
                            surface.satellites@.take(place as int),
                            depth as nat,
                        ),
                    decreases count - place,
                {
                    let child_sid = surface.satellites[place];
                    proof {
                        let list = surface.satellites@;
                        assert(list.take(place + 1).drop_last() =~= list.take(place as int));
                        assert(list.take(place + 1).last() == child_sid);
                    }
                    if child_sid == sid {
                        result.push(surface.get_renderer_context());
                    } else if depth > 0 {
                        match self.contexts_within(child_sid, depth - 1) {
                            Some(more) => {
                                let mut more = more;
                                result.append(&mut more);
                            },
                            None => {},
                        }
                    }
                    place = place + 1;
                }
                proof {
                    assert(surface.satellites@.take(count as int) =~= surface.satellites@);
                    self@.lemma_contexts_registered(sid, depth as nat);
                    let all = self@.contexts(sid, depth as nat).unwrap();
                    assert(result@ == all);
                    assert forall|i: int| 0 <= i < result@.len() implies self@.has_surface(
                        (#[trigger] result@[i]).id,
                    ) by {
                        assert(self@.has_surface(all[i].id));
                    }
                }
                Some(result)
            },
            None => None,
        }
    }

    /// Registers a pool over shared memory under the next pool identifier, and names its
    /// storage by the next storage number.
    pub fn create_pool_from_memory(&mut self) -> (mpid: MemoryPoolId)
        requires
            old(self).wf(),
            old(self)@.last_memory_pool_id.value < u64::MAX,
            old(self)@.last_storage_id.value < u64::MAX,
        ensures
            final(self).wf(),
            mpid.value == old(self)@.last_memory_pool_id.value + 1,
            final(self)@ == old(self)@.with_pool(mpid, StorageKind::Mapped),
    {
        self.create_pool(StorageKind::Mapped)
    }

    /// Registers a pool over a buffer of the compositor under the next pool identifier,
    /// and names its storage by the next storage number.
    pub fn create_pool_from_buffer(&mut self) -> (mpid: MemoryPoolId)
        requires
            old(self).wf(),
            old(self)@.last_memory_pool_id.value < u64::MAX,
            old(self)@.last_storage_id.value < u64::MAX,
        ensures
            final(self).wf(),
            mpid.value == old(self)@.last_memory_pool_id.value + 1,
            final(self)@ == old(self)@.with_pool(mpid, StorageKind::Buffer),
    {
        self.create_pool(StorageKind::Buffer)
    }

    fn create_pool(&mut self, kind: StorageKind) -> (mpid: MemoryPoolId)
        requires
            old(self).wf(),
            old(self)@.last_memory_pool_id.value < u64::MAX,
            old(self)@.last_storage_id.value < u64::MAX,
        ensures
            final(self).wf(),
            mpid.value == old(self)@.last_memory_pool_id.value + 1,
            final(self)@ == old(self)@.with_pool(mpid, kind),
    {
        let mpid = self.generate_next_memory_pool_id();
        let storage = self.generate_next_storage_id();
        let pool = match kind {
            StorageKind::Mapped => MemoryPool::new_from_mapped_memory(storage),
            StorageKind::Buffer => MemoryPool::new_from_buffer(storage),
        };
        self.memory_pools.insert(mpid.value, pool);
        proof {
            assert(self@.surfaces =~= old(self)@.surfaces);
            assert forall|key: u64| #[trigger]
                self@.memory_pools.contains_key(key) implies 0 < key
                <= self@.last_memory_pool_id.value && self@.memory_pools[key].storage.value
                <= self@.last_storage_id.value by {
                if key != mpid.value {
                    assert(old(self)@.memory_pools.contains_key(key));
                }
            }
        }
        mpid
    }

    fn generate_next_memory_pool_id(&mut self) -> (mpid: MemoryPoolId)
        requires
            old(self)@.last_memory_pool_id.value < u64::MAX,
        ensures
            mpid.value == old(self)@.last_memory_pool_id.value + 1,
            final(self)@ == (CoordinatorModel { last_memory_pool_id: mpid, ..old(self)@ }),
    {
        self.last_memory_pool_id.increment()
    }

    fn generate_next_memory_view_id(&mut self) -> (mvid: MemoryViewId)
        requires
            old(self)@.last_memory_view_id.value < u64::MAX,
        ensures
            mvid.value == old(self)@.last_memory_view_id.value + 1,
            final(self)@ == (CoordinatorModel { last_memory_view_id: mvid, ..old(self)@ }),
    {
        self.last_memory_view_id.increment()
    }

    fn generate_next_storage_id(&mut self) -> (storage: StorageId)
        requires
            old(self)@.last_storage_id.value < u64::MAX,
        ensures
            storage.value == old(self)@.last_storage_id.value + 1,
            final(self)@ == (CoordinatorModel { last_storage_id: storage, ..old(self)@ }),
    {
        self.last_storage_id = StorageId { value: self.last_storage_id.value + 1 };
        self.last_storage_id
    }

    /// The pool registered under `mpid`.
    pub fn get_memory_pool(&self, mpid: MemoryPoolId) -> (pool: Option<MemoryPool>)
        ensures
            pool == if self@.memory_pools.contains_key(mpid.value) {
                Some(self@.memory_pools[mpid.value])
            } else {
                None
            },
    {
        match self.memory_pools.get(&mpid.value) {
            Some(pool) => Some(*pool),
            None => None,
        }
    }

    /// The view registered under `mvid`.
    pub fn get_memory_view(&self, mvid: MemoryViewId) -> (view: Option<MemoryView>)
        ensures
            view == if self@.memory_views.contains_key(mvid.value) {
                Some(self@.memory_views[mvid.value])
            } else {
                None
            },
    {
        match self.memory_views.get(&mvid.value) {
            Some(view) => Some(*view),
            None => None,
        }
    }

    /// Takes the pool `mpid` out of the registry. The views that were made of it stay,
    /// and so its storage stays in use as long as one of them does.
    pub fn destroy_memory_pool(&mut self, mpid: MemoryPoolId)
        requires
            old(self).wf(),
        ensures
            final(self).wf(),
            final(self)@ == (CoordinatorModel {
                memory_pools: old(self)@.memory_pools.remove(mpid.value),
                ..old(self)@
            }),
    {
        self.memory_pools.remove(&mpid.value);
        proof {
            assert(self@.surfaces =~= old(self)@.surfaces);
        }
    }

    /// Gives the pool `mpid` new storage, over shared memory, under the identifier it
    /// has. The views made of it before keep the storage they were made of. An unknown pool
    /// changes nothing.
    pub fn replace_memory_pool(&mut self, mpid: MemoryPoolId)
        requires
            old(self).wf(),
            old(self)@.last_storage_id.value < u64::MAX,
        ensures
            final(self).wf(),
            final(self)@ == old(self)@.with_replaced_pool(mpid),
    {
        if self.memory_pools.contains_key(&mpid.value) {
            proof {
                assert(old(self)@.memory_pools.contains_key(mpid.value));
            }
            self.memory_pools.remove(&mpid.value);
            let storage = self.generate_next_storage_id();
            self.memory_pools.insert(mpid.value, MemoryPool::new_from_mapped_memory(storage));
            proof {
                assert(self@.surfaces =~= old(self)@.surfaces);
                assert(self@.memory_pools =~= old(self)@.memory_pools.insert(
                    mpid.value,
                    (MemoryPool { storage, kind: StorageKind::Mapped }),
                ));
                assert forall|key: u64| #[trigger]
                    self@.memory_pools.contains_key(key) implies 0 < key
                    <= self@.last_memory_pool_id.value && self@.memory_pools[key].storage.value
                    <= self@.last_storage_id.value by {
                    assert(old(self)@.memory_pools.contains_key(key));
                }
                assert forall|key: u64| #[trigger]
                    self@.memory_views.contains_key(key) implies 0 < key
                    <= self@.last_memory_view_id.value by {
                    assert(old(self)@.memory_views.contains_key(key));
                }
            }
        }
    }

    /// Registers a view of the pool `mpid` with the given place and shape under the next
    /// view identifier. Without such a pool no view is registered, but the identifier is
    /// used up all the same.
    pub fn create_memory_view(
        &mut self,
        mpid: MemoryPoolId,
        offset: usize,
        width: usize,
        height: usize,
        stride: usize,
    ) -> (mvid: Option<MemoryViewId>)
        requires
            old(self).wf(),
            old(self)@.last_memory_view_id.value < u64::MAX,
        ensures
            final(self).wf(),
            mvid.is_some() == old(self)@.memory_pools.contains_key(mpid.value),
            mvid matches Some(id) ==> id.value == old(self)@.last_memory_view_id.value + 1,
            final(self)@ == old(self)@.with_view(mpid, offset, width, height, stride),
    {
        let id = self.generate_next_memory_view_id();
        let view = match self.memory_pools.get(&mpid.value) {
            Some(pool) => Some(pool.get_memory_view(offset, width, height, stride)),
            None => None,
        };
        match view {
            Some(view) => {
                self.memory_views.insert(id.value, view);
                proof {
                    assert(self@.surfaces =~= old(self)@.surfaces);
                    assert forall|key: u64| #[trigger]
                        self@.memory_views.contains_key(key) implies 0 < key
                        <= self@.last_memory_view_id.value by {
                        if key != id.value {
                            assert(old(self)@.memory_views.contains_key(key));
                        }
                    }
                }
                Some(id)
            },
            None => {
                proof {
                    assert(self@.surfaces =~= old(self)@.surfaces);
                    assert forall|key: u64| #[trigger]
                        self@.memory_views.contains_key(key) implies 0 < key
                        <= self@.last_memory_view_id.value by {
                        assert(old(self)@.memory_views.contains_key(key));
                    }
                }
                None
            },
        }
    }

    /// Takes the view `mvid` out of the registry. A surface to which it was attached keeps
    /// what it was given.
    pub fn destroy_memory_view(&mut self, mvid: MemoryViewId)
        requires
            old(self).wf(),
        ensures
            final(self).wf(),
            final(self)@ == (CoordinatorModel {
                memory_views: old(self)@.memory_views.remove(mvid.value),
                ..old(self)@
            }),
    {
        self.memory_views.remove(&mvid.value);
        proof {
            assert(self@.surfaces =~= old(self)@.surfaces);
        }
    }

    /// Tells the other parts of the compositor that the surface `sid` is not to be seen
    /// any more.
    pub fn detach_surface(&mut self, sid: SurfaceId)
        ensures
            final(self)@ == old(self)@.with_emitted(Perceptron::SurfaceDestroyed(sid)),
    {
        self.emit(Perceptron::SurfaceDestroyed(sid));
    }

    /// Notifies the end of the surface `sid`, then forgets the surface.
    pub fn destroy_surface(&mut self, sid: SurfaceId)
        requires
            old(self).wf(),
        ensures
            final(self).wf(),
            final(self)@ == old(self)@.destroyed(sid),
            !final(self)@.has_surface(sid),
    {
        self.detach_surface(sid);
        self.surfaces.remove(&sid.value);
        proof {
            assert(self@.surfaces =~= old(self)@.surfaces.remove(sid.value));
            assert forall|key: u64| #[trigger] self@.surfaces.contains_key(key) implies self@.surfaces[key].id.value
                == key && 0 < key <= self@.last_surface_id.value by {
                assert(old(self)@.surfaces.contains_key(key));
            }
        }
    }

    /// Makes the view `mvid` the buffer that the next commit of the surface `sid` shows.
    /// Nothing changes where the surface or the view is unknown.
    pub fn attach(&mut self, mvid: MemoryViewId, sid: SurfaceId)
        requires
            old(self).wf(),
        ensures
            final(self).wf(),
            final(self)@ == old(self)@.attached(mvid, sid),
    {
        let view = self.get_memory_view(mvid);
        match self.take_surface(sid) {
            Some(surface) => {
                let mut surface = surface;
                let ghost taken = self@;
                match view {
                    Some(view) => {
                        surface.attach(view);
                    },
                    None => {},
                }
                proof {
                    old(self)@.lemma_put_back(taken, sid, surface@);
                    old(self)@.lemma_with_surface(sid, surface@);
                }
                self.put_surface(surface);
                proof {
                    if view.is_none() {
                        assert(self@.surfaces =~= old(self)@.surfaces);
                    }
                }
            },
            None => {
                proof {
                    assert(self@.surfaces =~= old(self)@.surfaces);
                }
            },
        }
    }

    /// Makes the buffer that waits for the surface `sid` the one that is drawn. A surface
    /// that gets its first buffer by this gets the reason to be shown that it is drawable.
    /// Without a buffer that waits, and for an unknown surface, nothing changes.
    pub fn commit_surface(&mut self, sid: SurfaceId)
        requires
            old(self).wf(),
        ensures
            final(self).wf(),
            final(self)@ == old(self)@.committed(sid),
    {
        match self.take_surface(sid) {
            Some(surface) => {
                let mut surface = surface;
                let ghost taken = self@;
                let first = surface.commit();
                proof {
                    old(self)@.lemma_put_back(taken, sid, surface@);
                    old(self)@.lemma_with_surface(sid, surface@);
                }
                self.put_surface(surface);
                if first {
                    self.show_surface(sid, DRAWABLE);
                }
            },
            None => {
                proof {
                    assert(self@.surfaces =~= old(self)@.surfaces);
                }
            },
        }
    }

    /// Commits the surface `sid` and then asks for the screen to be drawn again, whatever
    /// came of the commit.
    pub fn commit_surface_and_notify(&mut self, sid: SurfaceId)
        requires
            old(self).wf(),
        ensures
            final(self).wf(),
            final(self)@ == old(self)@.committed(sid).with_emitted(Perceptron::Notify),
    {
        self.commit_surface(sid);
        let ghost committed = self@;
        self.notify();
        proof {
            self@.lemma_notified_wf(committed);
        }
    }

    /// Adds the reasons `reason` to those for which the surface `sid` is shown. The
    /// surface is notified as ready exactly when its reasons become complete by this.
    pub fn show_surface(&mut self, sid: SurfaceId, reason: ShowReason)
        requires
            old(self).wf(),
        ensures
            final(self).wf(),
            final(self)@ == old(self)@.shown(sid, reason),
    {
        match self.take_surface(sid) {
            Some(surface) => {
                let mut surface = surface;
                let ghost taken = self@;
                let before = surface.get_show_reason();
                let after = surface.show(reason);
                proof {
                    old(self)@.lemma_put_back(taken, sid, surface@);
                    old(self)@.lemma_with_surface(sid, surface@);
                }
                self.put_surface(surface);
                if after == READY && before != READY {
                    self.emit(Perceptron::SurfaceReady(sid));
                }
            },
            None => {
                proof {
                    assert(self@.surfaces =~= old(self)@.surfaces);
                }
            },
        }
    }

    /// Takes the reasons `reason` from those for which the surface `sid` is shown. The
    /// surface is notified as destroyed exactly when its reasons stop being complete by this.
    pub fn hide_surface(&mut self, sid: SurfaceId, reason: ShowReason)
        requires
            old(self).wf(),
        ensures
            final(self).wf(),
            final(self)@ == old(self)@.hidden(sid, reason),
    {
        match self.take_surface(sid) {
            Some(surface) => {
                let mut surface = surface;
                let ghost taken = self@;
                let before = surface.get_show_reason();
                let after = surface.conceal(reason);
                proof {
                    old(self)@.lemma_put_back(taken, sid, surface@);
                    old(self)@.lemma_with_surface(sid, surface@);
                }
                self.put_surface(surface);
                if after != READY && before == READY {
                    self.emit(Perceptron::SurfaceDestroyed(sid));
                }
            },
            None => {
                proof {
                    assert(self@.surfaces =~= old(self)@.surfaces);
                }
            },
        }
    }

    /// Sets the offset of the surface `sid`.
    pub fn set_surface_offset(&mut self, sid: SurfaceId, offset: Vector)
        requires
            old(self).wf(),
        ensures
            final(self).wf(),
            final(self)@ == if old(self)@.has_surface(sid) {
                old(self)@.with_surface(
                    sid,
                    (SurfaceModel { offset, ..old(self)@.surface(sid) }),
                )
            } else {
                old(self)@
            },
    {
        match self.take_surface(sid) {
            Some(surface) => {
                let mut surface = surface;
                let ghost taken = self@;
                surface.set_offset(offset);
                proof {
                    old(self)@.lemma_put_back(taken, sid, surface@);
                    old(self)@.lemma_with_surface(sid, surface@);
                }
                self.put_surface(surface);
            },
            None => {
                proof {
                    assert(self@.surfaces =~= old(self)@.surfaces);
                }
            },
        }
    }

    /// Sets the size that the client asked for the surface `sid`.
    pub fn set_surface_requested_size(&mut self, sid: SurfaceId, size: Size)
        requires
            old(self).wf(),
        ensures
            final(self).wf(),
            final(self)@ == if old(self)@.has_surface(sid) {
                old(self)@.with_surface(
                    sid,
                    (SurfaceModel { requested_size: size, ..old(self)@.surface(sid) }),
                )
            } else {
                old(self)@
            },
    {
        match self.take_surface(sid) {
            Some(surface) => {
                let mut surface = surface;
                let ghost taken = self@;
                surface.set_requested_size(size);
                proof {
                    old(self)@.lemma_put_back(taken, sid, surface@);
                    old(self)@.lemma_with_surface(sid, surface@);
                }
                self.put_surface(surface);
            },
            None => {
                proof {
                    assert(self@.surfaces =~= old(self)@.surfaces);
                }
            },
        }
    }

    /// Sets the position of the surface `sid` relative to its parent.
    pub fn set_surface_relative_position(&mut self, sid: SurfaceId, position: Position)
        requires
            old(self).wf(),
        ensures
            final(self).wf(),
            final(self)@ == if old(self)@.has_surface(sid) {
                old(self)@.with_surface(
                    sid,
                    (SurfaceModel { relative_position: position, ..old(self)@.surface(sid) }),
                )
            } else {
                old(self)@
            },
    {
        match self.take_surface(sid) {
            Some(surface) => {
                let mut surface = surface;
                let ghost taken = self@;
                surface.set_relative_position(position);
                proof {
                    old(self)@.lemma_put_back(taken, sid, surface@);
                    old(self)@.lemma_with_surface(sid, surface@);
                }
                self.put_surface(surface);
            },
            None => {
                proof {
                    assert(self@.surfaces =~= old(self)@.surfaces);
                }
            },
        }
    }

    /// Makes the surface `sid` a satellite of the surface `parent_sid`. The surface loses
    /// its role in the shell: from now on it is drawn with its parent. A surface that was
    /// ready is notified as destroyed by this. Where the surface is unknown nothing changes;
    /// where only the parent is unknown, the surface changes and no satellite is added.
    pub fn relate_surfaces(&mut self, sid: SurfaceId, parent_sid: SurfaceId)
        requires
            old(self).wf(),
        ensures
            final(self).wf(),
            final(self)@ == old(self)@.related(sid, parent_sid),
    {
        match self.take_surface(sid) {
            Some(surface) => {
                let mut surface = surface;
                let ghost taken = self@;
                surface.set_parent_sid(parent_sid);
                surface.set_relative_position(Position::origin());
                let ghost placed = surface@;
                let before = surface.get_show_reason();
                let after = surface.conceal(IN_SHELL);
                proof {
                    old(self)@.lemma_put_back(taken, sid, surface@);
                    old(self)@.lemma_with_surface(sid, placed);
                    old(self)@.lemma_with_surface(sid, surface@);
                    assert(old(self)@.with_surface(sid, placed).with_surface(sid, surface@)
                        == old(self)@.with_surface(sid, surface@)) by {
                        assert(old(self)@.surfaces.insert(sid.value, placed).insert(
                            sid.value,
                            surface@,
                        ) =~= old(self)@.surfaces.insert(sid.value, surface@));
                    }
                }
                self.put_surface(surface);
                if after != READY && before == READY {
                    self.emit(Perceptron::SurfaceDestroyed(sid));
                }
            },
            None => {
                proof {
                    assert(self@.surfaces =~= old(self)@.surfaces);
                }
                return ;
            },
        }
        let ghost first = self@;
        match self.take_surface(parent_sid) {
            Some(parent) => {
                let mut parent = parent;
                let ghost taken = self@;
                parent.add_satellite(sid);
                proof {
                    first.lemma_put_back(taken, parent_sid, parent@);
                    first.lemma_with_surface(parent_sid, parent@);
                }
                self.put_surface(parent);
            },
            None => {
                proof {
                    assert(self@.surfaces =~= first.surfaces);
                }
            },
        }
    }

    /// Takes the surface `sid` from its parent. Where the surface is unknown nothing
    /// changes; where only the parent is unknown, the surface just loses its parent.
    pub fn unrelate_surface(&mut self, sid: SurfaceId)
        requires
            old(self).wf(),
        ensures
            final(self).wf(),
            final(self)@ == old(self)@.unrelated(sid),
    {
        let parent_sid;
        match self.take_surface(sid) {
            Some(surface) => {
                let mut surface = surface;
                let ghost taken = self@;
                parent_sid = surface.get_parent_sid();
                surface.set_parent_sid(SurfaceId::invalid());
                proof {
                    old(self)@.lemma_put_back(taken, sid, surface@);
                    old(self)@.lemma_with_surface(sid, surface@);
                }
                self.put_surface(surface);
            },
            None => {
                proof {
                    assert(self@.surfaces =~= old(self)@.surfaces);
                }
                return ;
            },
        }
        let ghost first = self@;
        match self.take_surface(parent_sid) {
            Some(parent) => {
                let mut parent = parent;
                let ghost taken = self@;
                parent.remove_satellite(sid);
                proof {
                    first.lemma_put_back(taken, parent_sid, parent@);
                    first.lemma_with_surface(parent_sid, parent@);
                }
                self.put_surface(parent);
            },
            None => {
                proof {
                    assert(self@.surfaces =~= first.surfaces);
                }
            },
        }
    }

    /// Tells the other parts of the compositor that the client wants the surface `sid` to
    /// be the cursor.
    pub fn set_surface_as_cursor(&mut self, sid: SurfaceId)
        ensures
            final(self)@ == old(self)@.with_emitted(Perceptron::CursorSurfaceChange(sid)),
    {
        self.emit(Perceptron::CursorSurfaceChange(sid));
    }
}

} // verus!
