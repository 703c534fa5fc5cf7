//! What holds of the registry whatever is done to it.

use vstd::prelude::*;
use crate::coordinator::{CoordinatorModel, InnerCoordinator};
use crate::defs::{MemoryPoolId, MemoryViewId, Position, Size, SurfaceId, Vector};
use crate::memory::{StorageId, StorageKind};
use crate::perceptron::Perceptron;
use crate::show_reason::{ShowReason, IN_SHELL, READY};
use crate::surface::SurfaceModel;
use crate::surface_state::SurfaceState;

verus! {

broadcast use vstd::std_specs::hash::group_hash_axioms;

/// One change of the registry.
pub enum Step {
    CreateSurface,
    DestroySurface(SurfaceId),
    Attach(MemoryViewId, SurfaceId),
    Commit(SurfaceId),
    Show(SurfaceId, ShowReason),
    Hide(SurfaceId, ShowReason),
    Relate(SurfaceId, SurfaceId),
    Unrelate(SurfaceId),
    Reconfigure(SurfaceId, Size, SurfaceState),
    CreatePool(StorageKind),
    DestroyPool(MemoryPoolId),
    ReplacePool(MemoryPoolId),
    CreateView(MemoryPoolId, usize, usize, usize, usize),
    DestroyView(MemoryViewId),
    SetOffset(SurfaceId, Vector),
    SetRequestedSize(SurfaceId, Size),
    SetRelativePosition(SurfaceId, Position),
    KeyboardFocus(SurfaceId),
    PointerFocus(SurfaceId, Position),
    Emit(Perceptron),
}

/// True when the record `record` holds a buffer in the storage `storage`.
pub open spec fn shows_storage(record: SurfaceModel, storage: StorageId) -> bool {
    ||| (record.pending_buffer matches Some(view) && view.storage == storage)
    ||| (record.buffer matches Some(view) && view.storage == storage)
}

impl CoordinatorModel {
    /// The registry after the change `step`.
    pub open spec fn after(self, step: Step) -> CoordinatorModel {
        match step {
            Step::CreateSurface => self.created(),
            Step::DestroySurface(sid) => self.destroyed(sid),
            Step::Attach(mvid, sid) => self.attached(mvid, sid),
            Step::Commit(sid) => self.committed(sid),
            Step::Show(sid, reason) => self.shown(sid, reason),
            Step::Hide(sid, reason) => self.hidden(sid, reason),
            Step::Relate(sid, parent_sid) => self.related(sid, parent_sid),
            Step::Unrelate(sid) => self.unrelated(sid),
            Step::Reconfigure(sid, size, flags) => self.reconfigured(sid, size, flags),
            Step::CreatePool(kind) => self.with_pool(
                MemoryPoolId { value: (self.last_memory_pool_id.value + 1) as u64 },
                kind,
            ),
            Step::DestroyPool(mpid) => CoordinatorModel {
                memory_pools: self.memory_pools.remove(mpid.value),
                ..self
            },
            Step::ReplacePool(mpid) => self.with_replaced_pool(mpid),
            Step::CreateView(mpid, offset, width, height, stride) => self.with_view(
                mpid,
                offset,
                width,
                height,
                stride,
            ),
            Step::DestroyView(mvid) => CoordinatorModel {
                memory_views: self.memory_views.remove(mvid.value),
                ..self
            },
            Step::SetOffset(sid, offset) => if self.has_surface(sid) {
                self.with_surface(sid, SurfaceModel { offset, ..self.surface(sid) })
            } else {
                self
            },
            Step::SetRequestedSize(sid, size) => if self.has_surface(sid) {
                self.with_surface(sid, SurfaceModel { requested_size: size, ..self.surface(sid) })
            } else {
                self
            },
            Step::SetRelativePosition(sid, position) => if self.has_surface(sid) {
                self.with_surface(
                    sid,
                    SurfaceModel { relative_position: position, ..self.surface(sid) },
                )
            } else {
                self
            },
            Step::PointerFocus(sid, position) => if self.pfsid != sid {
                (CoordinatorModel { pfsid: sid, ..self }).with_emitted(
                    Perceptron::PointerFocusChanged(self.pfsid, sid, position),
                )
            } else {
                self
            },
            Step::KeyboardFocus(sid) => if self.kfsid != sid {
                (CoordinatorModel { kfsid: sid, ..self }).with_emitted(
                    Perceptron::KeyboardFocusChanged(self.kfsid, sid),
                )
            } else {
                self
            },
            Step::Emit(notification) => self.with_emitted(notification),
        }
    }

    /// True when the change `step` can be made: the identifiers that it uses up are not
    /// the last that there are.
    pub open spec fn admits(self, step: Step) -> bool {
        match step {
            Step::CreateSurface => self.last_surface_id.value < u64::MAX,
            Step::CreatePool(_) => self.last_memory_pool_id.value < u64::MAX
                && self.last_storage_id.value < u64::MAX,
            Step::ReplacePool(_) => self.last_storage_id.value < u64::MAX,
            Step::CreateView(_, _, _, _, _) => self.last_memory_view_id.value < u64::MAX,
            _ => true,
        }
    }

    /// True when a pool, a view or the buffer of a surface lies in the storage `storage`,
    /// so that the storage has to be kept.
    pub open spec fn storage_in_use(self, storage: StorageId) -> bool {
        ||| exists|key: u64| #[trigger]
            self.memory_pools.contains_key(key) && self.memory_pools[key].storage == storage
        ||| exists|key: u64| #[trigger]
            self.memory_views.contains_key(key) && self.memory_views[key].storage == storage
        ||| exists|key: u64| #[trigger]
            self.surfaces.contains_key(key) && shows_storage(self.surfaces[key], storage)
    }

    /// A surface is notified as ready exactly when the reasons to show it become complete,
    /// and as destroyed exactly when they stop being complete; in both cases once, after
    /// what was to be sent before. This holds of showing and hiding a surface and of making
    /// it the satellite of another, which are the changes of the reasons.
    pub proof fn lemma_ready_notified(self, sid: SurfaceId, reason: ShowReason)
        requires
            self.has_surface(sid),
        ensures
            self.shown(sid, reason).emitted == if self.surface(sid).show_reasons != READY
                && self.shown(sid, reason).surface(sid).show_reasons == READY {
                self.emitted.push(Perceptron::SurfaceReady(sid))
            } else {
                self.emitted
            },
            self.hidden(sid, reason).emitted == if self.surface(sid).show_reasons == READY
                && self.hidden(sid, reason).surface(sid).show_reasons != READY {
                self.emitted.push(Perceptron::SurfaceDestroyed(sid))
            } else {
                self.emitted
            },
            self.shown(sid, reason).surface(sid).show_reasons == self.surface(sid).show_reasons
                | reason,
            self.hidden(sid, reason).surface(sid).show_reasons == self.surface(
                sid,
            ).show_reasons & !reason,
            forall|parent_sid: SurfaceId|
                (#[trigger] self.related(sid, parent_sid)).emitted == if self.surface(
                    sid,
                ).show_reasons == READY && self.related(sid, parent_sid).surface(
                    sid,
                ).show_reasons != READY {
                    self.emitted.push(Perceptron::SurfaceDestroyed(sid))
                } else {
                    self.emitted
                },
    {
        assert forall|parent_sid: SurfaceId|
            (#[trigger] self.related(sid, parent_sid)).emitted == if self.surface(
                sid,
            ).show_reasons == READY && self.related(sid, parent_sid).surface(sid).show_reasons
                != READY {
                self.emitted.push(Perceptron::SurfaceDestroyed(sid))
            } else {
                self.emitted
            } by {
            self.lemma_related_notified(sid, parent_sid);
        }
    }

    /// A surface that is made the satellite of another has no role in the shell any more,
    /// so that it is not ready any more. It is notified as destroyed exactly when it was
    /// ready before; once, after what was to be sent before.
    pub proof fn lemma_related_notified(self, sid: SurfaceId, parent_sid: SurfaceId)
        requires
            self.has_surface(sid),
        ensures
            self.related(sid, parent_sid).has_surface(sid),
            self.related(sid, parent_sid).surface(sid).show_reasons == self.surface(
                sid,
            ).show_reasons & !IN_SHELL,
            self.related(sid, parent_sid).surface(sid).show_reasons != READY,
            self.related(sid, parent_sid).emitted == if self.surface(sid).show_reasons == READY {
                self.emitted.push(Perceptron::SurfaceDestroyed(sid))
            } else {
                self.emitted
            },
    {
        let reasons = self.surface(sid).show_reasons;
        assert(reasons & !IN_SHELL != READY) by (bit_vector)
            requires
                IN_SHELL == 2u32,
                READY == 3u32,
        ;
    }

    /// A new surface gets an identifier that no surface has and that is greater than every
    /// identifier that a surface ever got.
    pub proof fn lemma_created_fresh(self)
        requires
            self.wf(),
            self.last_surface_id.value < u64::MAX,
        ensures
            self.created().wf(),
            !self.has_surface(self.next_surface_id()),
            self.created().has_surface(self.next_surface_id()),
            self.next_surface_id().value > self.last_surface_id.value,
            forall|key: u64| #[trigger]
                self.surfaces.contains_key(key) ==> key < self.next_surface_id().value,
            self.created().last_surface_id == self.next_surface_id(),
    {
        let next = self.next_surface_id();
        let later = self.created();
        if self.surfaces.contains_key(next.value) {
            assert(next.value <= self.last_surface_id.value);
        }
        assert forall|key: u64| #[trigger] later.surfaces.contains_key(key) implies later.surfaces[key].id.value
            == key && 0 < key <= later.last_surface_id.value by {
            if key != next.value {
                assert(self.surfaces.contains_key(key));
            }
        }
    }

    /// No change of the registry takes back an identifier: the last identifier that a
    /// surface got never decreases, and a surface that is registered after a change was
    /// registered before it or has an identifier greater than every earlier one.
    pub proof fn lemma_ids_not_reused(self, step: Step)
        requires
            self.wf(),
            self.admits(step),
        ensures
            self.after(step).wf(),
            self.after(step).last_surface_id.value >= self.last_surface_id.value,
            forall|key: u64| #[trigger]
                self.after(step).surfaces.contains_key(key) ==> self.surfaces.contains_key(key)
                    || key > self.last_surface_id.value,
    {
        self.lemma_step_wf(step);
        let later = self.after(step);
        assert forall|key: u64| #[trigger] later.surfaces.contains_key(key) implies self.surfaces.contains_key(
            key,
        ) || key > self.last_surface_id.value by {
            self.lemma_step_surfaces(step, key);
        }
    }

    /// After a change the registry is well formed.
    pub proof fn lemma_step_wf(self, step: Step)
        requires
            self.wf(),
            self.admits(step),
        ensures
            self.after(step).wf(),
            self.after(step).last_surface_id.value >= self.last_surface_id.value,
    {
        let later = self.after(step);
        assert forall|key: u64| #[trigger] later.surfaces.contains_key(key) implies later.surfaces[key].id.value
            == key && 0 < key <= later.last_surface_id.value by {
            self.lemma_step_surfaces(step, key);
        }
        assert forall|key: u64| #[trigger] later.memory_views.contains_key(key) implies 0 < key
            <= later.last_memory_view_id.value by {
            if self.memory_views.contains_key(key) {
            }
        }
        assert forall|key: u64| #[trigger] later.memory_pools.contains_key(key) implies 0 < key
            <= later.last_memory_pool_id.value && later.memory_pools[key].storage.value
            <= later.last_storage_id.value by {
            if self.memory_pools.contains_key(key) {
            }
        }
    }

    /// What a change leaves of a record: a surface that is registered after the change
    /// was registered before it, or is the one that the change created; it is filed under
    /// its own identifier; and a buffer that it holds was held by it before, or is what a
    /// registered view describes.
    pub proof fn lemma_step_surfaces(self, step: Step, key: u64)
        requires
            self.wf(),
            self.admits(step),
            self.after(step).surfaces.contains_key(key),
        ensures
            self.surfaces.contains_key(key) || key == self.last_surface_id.value + 1,
            self.after(step).surfaces[key].id.value == key,
            0 < key <= self.after(step).last_surface_id.value,
            self.after(step).last_surface_id.value >= self.last_surface_id.value,
            forall|storage: StorageId|
                #![trigger shows_storage(self.after(step).surfaces[key], storage)]
                shows_storage(self.after(step).surfaces[key], storage) ==> (
                self.surfaces.contains_key(key) && shows_storage(self.surfaces[key], storage))
                    || exists|view: u64| #[trigger]
                    self.memory_views.contains_key(view) && self.memory_views[view].storage
                        == storage,
    {
        let later = self.after(step);
        if self.surfaces.contains_key(key) {
        }
        match step {
            Step::Attach(mvid, sid) => {
                if self.has_surface(sid) && self.memory_views.contains_key(mvid.value) {
                    assert(self.memory_views.contains_key(mvid.value));
                }
            },
            Step::Relate(sid, parent_sid) => {
                if self.has_surface(sid) {
                    let record = SurfaceModel {
                        parent_sid,
                        relative_position: Position { x: 0, y: 0 },
                        ..self.surface(sid)
                    };
                    let first = self.with_surface(sid, record).hidden(sid, IN_SHELL);
                    if first.has_surface(parent_sid) {
                        assert(self.surfaces.contains_key(parent_sid.value));
                    }
                }
            },
            Step::Unrelate(sid) => {
                if self.has_surface(sid) {
                    let parent_sid = self.surface(sid).parent_sid;
                    let first = self.with_surface(
                        sid,
                        SurfaceModel { parent_sid: SurfaceId { value: 0 }, ..self.surface(sid) },
                    );
                    if first.has_surface(parent_sid) {
                        assert(self.surfaces.contains_key(parent_sid.value));
                    }
                }
            },
            _ => {},
        }
    }

    /// Storage that is not in use is never in use again: a new pool gets storage with a
    /// new name, and every other buffer comes from a pool, a view or a surface that there is.
    pub proof fn lemma_released_for_good(self, step: Step, storage: StorageId)
        requires
            self.wf(),
            self.admits(step),
            storage.value <= self.last_storage_id.value,
            !self.storage_in_use(storage),
        ensures
            !self.after(step).storage_in_use(storage),
            storage.value <= self.after(step).last_storage_id.value,
    {
        let later = self.after(step);
        assert forall|key: u64| #[trigger] later.memory_pools.contains_key(key) implies later.memory_pools[key].storage
            != storage by {
            if self.memory_pools.contains_key(key) {
            }
        }
        assert forall|key: u64| #[trigger] later.memory_views.contains_key(key) implies later.memory_views[key].storage
            != storage by {
            if self.memory_views.contains_key(key) {
            }
            match step {
                Step::CreateView(mpid, _, _, _, _) => {
                    if self.memory_pools.contains_key(mpid.value) {
                    }
                },
                _ => {},
            }
        }
        assert forall|key: u64| #[trigger] later.surfaces.contains_key(key) implies !shows_storage(
            later.surfaces[key],
            storage,
        ) by {
            self.lemma_step_surfaces(step, key);
            if shows_storage(later.surfaces[key], storage) {
                if self.surfaces.contains_key(key) && shows_storage(self.surfaces[key], storage) {
                }
            }
        }
    }

    /// A view keeps the storage of its pool in use after the pool is gone; once neither a
    /// pool nor a view nor a surface names the storage, it is not in use.
    pub proof fn lemma_view_outlives_pool(self, mpid: MemoryPoolId, mvid: MemoryViewId)
        requires
            self.wf(),
            self.memory_pools.contains_key(mpid.value),
            self.memory_views.contains_key(mvid.value),
            self.memory_views[mvid.value].storage == self.memory_pools[mpid.value].storage,
        ensures
            self.after(Step::DestroyPool(mpid)).storage_in_use(
                self.memory_pools[mpid.value].storage,
            ),
            ({
                let storage = self.memory_pools[mpid.value].storage;
                let last = self.after(Step::DestroyPool(mpid)).after(Step::DestroyView(mvid));
                let alone = {
                    &&& forall|key: u64| #[trigger]
                        self.memory_pools.contains_key(key) && key != mpid.value
                            ==> self.memory_pools[key].storage != storage
                    &&& forall|key: u64| #[trigger]
                        self.memory_views.contains_key(key) && key != mvid.value
                            ==> self.memory_views[key].storage != storage
                    &&& forall|key: u64| #[trigger]
                        self.surfaces.contains_key(key) ==> !shows_storage(
                            self.surfaces[key],
                            storage,
                        )
                };
                alone ==> !last.storage_in_use(storage)
            }),
    {
        let storage = self.memory_pools[mpid.value].storage;
        let kept = self.after(Step::DestroyPool(mpid));
        assert(kept.memory_views.contains_key(mvid.value) && kept.memory_views[mvid.value].storage
            == storage);
    }
}


impl InnerCoordinator {
    /// Tells whether a pool, a view or the buffer of a surface lies in the storage
    /// `storage`. Storage that is not in use can be given up, and is never in use again.
    pub fn is_storage_in_use(&self, storage: StorageId) -> (used: bool)
        requires
            self.wf(),
        ensures
            used == self@.storage_in_use(storage),
    {
        let pools = self.last_memory_pool_id.value;
        let mut done: u64 = 0;
        while done < pools
            invariant
                self.wf(),
                pools == self@.last_memory_pool_id.value,
                done <= pools,
                forall|key: u64|
                    0 < key <= done && #[trigger] self@.memory_pools.contains_key(key)
                        ==> self@.memory_pools[key].storage != storage,
            decreases pools - done,
        {
            let key = done + 1;
            match self.memory_pools.get(&key) {
                Some(pool) => {
                    if pool.storage == storage {
                        proof {
                            assert(self@.memory_pools.contains_key(key));
                        }
                        return true;
                    }
                },
                None => {},
            }
            done = done + 1;
        }
        let views = self.last_memory_view_id.value;
        let mut done: u64 = 0;
        while done < views
            invariant
                self.wf(),
                views == self@.last_memory_view_id.value,
                done <= views,
                forall|key: u64| #[trigger]
                    self@.memory_pools.contains_key(key) ==> self@.memory_pools[key].storage
                        != storage,
                forall|key: u64|
                    0 < key <= done && #[trigger] self@.memory_views.contains_key(key)
                        ==> self@.memory_views[key].storage != storage,
            decreases views - done,
        {
            let key = done + 1;
            match self.memory_views.get(&key) {
                Some(view) => {
                    if view.storage == storage {
                        proof {
                            assert(self@.memory_views.contains_key(key));
                        }
                        return true;
                    }
                },
                None => {},
            }
            done = done + 1;
        }
        let surfaces = self.last_surface_id.value;
        let mut done: u64 = 0;
        while done < surfaces
            invariant
                self.wf(),
                surfaces == self@.last_surface_id.value,
                done <= surfaces,
                forall|key: u64| #[trigger]
                    self@.memory_pools.contains_key(key) ==> self@.memory_pools[key].storage
                        != storage,
                forall|key: u64| #[trigger]
                    self@.memory_views.contains_key(key) ==> self@.memory_views[key].storage
                        != storage,
                forall|key: u64|
                    0 < key <= done && #[trigger] self@.surfaces.contains_key(key)
                        ==> !shows_storage(self@.surfaces[key], storage),
            decreases surfaces - done,
        {
            let key = done + 1;
            match self.surfaces.get(&key) {
                Some(surface) => {
                    proof {
                        assert(self@.surfaces.contains_key(key));
                        assert(self@.surfaces[key] == surface@);
                    }
                    let pending = match surface.pending_buffer {
                        Some(view) => view.storage == storage,
                        None => false,
                    };
                    let drawn = match surface.buffer {
                        Some(view) => view.storage == storage,
                        None => false,
                    };
                    if pending || drawn {
                        return true;
                    }
                },
                None => {
                    proof {
                        assert(!self@.surfaces.contains_key(key));
                    }
                },
            }
            done = done + 1;
        }
        false
    }
}

} // verus!
