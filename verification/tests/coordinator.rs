use perceptia::coordinator::InnerCoordinator;
use perceptia::defs::{MemoryPoolId, MemoryViewId, Position, Size, SurfaceId};
use perceptia::memory::{MemoryView, StorageKind};
use perceptia::perceptron::Perceptron;
use perceptia::show_reason::{DRAWABLE, IN_SHELL, READY};
use perceptia::surface::SurfaceContext;
use perceptia::surface_state::{FULLSCREEN, MAXIMIZED};

fn ready_count(emitted: &Vec<Perceptron>, sid: SurfaceId) -> usize {
    emitted.iter().filter(|p| **p == Perceptron::SurfaceReady(sid)).count()
}

#[test]
fn new_registry_is_empty() {
    let mut coordinator = InnerCoordinator::new();
    assert_eq!(coordinator.get_keyboard_focused_sid(), SurfaceId::invalid());
    assert_eq!(coordinator.get_pointer_focused_sid(), SurfaceId::invalid());
    assert_eq!(coordinator.get_surface(SurfaceId::new(1)), None);
    assert_eq!(coordinator.get_buffer(SurfaceId::new(1)), None);
    assert_eq!(coordinator.get_renderer_context(SurfaceId::new(1)), None);
    assert!(coordinator.take_emitted().is_empty());
}

#[test]
fn surface_ids_increase_and_are_not_reused() {
    let mut coordinator = InnerCoordinator::new();
    let a = coordinator.create_surface();
    let b = coordinator.create_surface();
    assert_eq!(a.as_number(), 1);
    assert_eq!(b.as_number(), 2);
    assert!(a.is_valid() && b.is_valid());
    coordinator.destroy_surface(b);
    coordinator.destroy_surface(a);
    let c = coordinator.create_surface();
    assert_eq!(c.as_number(), 3);
    assert_eq!(coordinator.get_surface(a), None);
    assert_eq!(coordinator.get_surface(b), None);
    assert!(coordinator.get_surface(c).is_some());
}

#[test]
fn new_surface_is_blank() {
    let mut coordinator = InnerCoordinator::new();
    let sid = coordinator.create_surface();
    let info = coordinator.get_surface(sid).unwrap();
    assert_eq!(info.id, sid);
    assert_eq!(info.parent_sid, SurfaceId::invalid());
    assert_eq!(info.offset, Position::new(0, 0));
    assert_eq!(info.desired_size, Size::new(0, 0));
    assert_eq!(info.requested_size, Size::new(0, 0));
    assert_eq!(info.state_flags, 0);
    assert_eq!(info.buffer, None);
    assert!(coordinator.take_emitted().is_empty());
}

#[test]
fn show_reason_gating() {
    let mut coordinator = InnerCoordinator::new();
    let pool = coordinator.create_pool_from_memory();
    let view = coordinator.create_memory_view(pool, 0, 4, 4, 16).unwrap();
    let s = coordinator.create_surface();
    coordinator.show_surface(s, IN_SHELL);

    // A buffer that only waits does not make the surface ready.
    coordinator.attach(view, s);
    assert_eq!(coordinator.get_buffer(s), None);
    assert!(coordinator.take_emitted().is_empty());

    coordinator.commit_surface(s);
    let emitted = coordinator.take_emitted();
    assert_eq!(emitted, vec![Perceptron::SurfaceReady(s)]);
    assert_eq!(ready_count(&emitted, s), 1);
    assert_eq!(coordinator.get_buffer(s), coordinator.get_memory_view(view));

    coordinator.commit_surface(s);
    assert!(coordinator.take_emitted().is_empty());
}

#[test]
fn commit_and_notify_asks_for_a_redraw() {
    let mut coordinator = InnerCoordinator::new();
    let pool = coordinator.create_pool_from_memory();
    let view = coordinator.create_memory_view(pool, 0, 4, 4, 16).unwrap();
    let s = coordinator.create_surface();
    coordinator.show_surface(s, IN_SHELL);
    coordinator.attach(view, s);
    coordinator.commit_surface_and_notify(s);
    assert_eq!(coordinator.take_emitted(), vec![Perceptron::SurfaceReady(s), Perceptron::Notify]);
    coordinator.commit_surface_and_notify(s);
    assert_eq!(coordinator.take_emitted(), vec![Perceptron::Notify]);
    coordinator.commit_surface_and_notify(SurfaceId::new(30));
    assert_eq!(coordinator.take_emitted(), vec![Perceptron::Notify]);
}

#[test]
fn commit_without_shell_role_is_not_ready() {
    let mut coordinator = InnerCoordinator::new();
    let pool = coordinator.create_pool_from_buffer();
    let view = coordinator.create_memory_view(pool, 0, 4, 4, 16).unwrap();
    let s = coordinator.create_surface();
    coordinator.attach(view, s);
    coordinator.commit_surface(s);
    assert!(coordinator.take_emitted().is_empty());
    assert_eq!(coordinator.surfaces[&s.as_number()].show_reasons, DRAWABLE);
    // The role in the shell completes the reasons.
    coordinator.show_surface(s, IN_SHELL);
    assert_eq!(coordinator.take_emitted(), vec![Perceptron::SurfaceReady(s)]);
    assert_eq!(coordinator.surfaces[&s.as_number()].show_reasons, READY);
}

#[test]
fn commit_without_pending_buffer_changes_nothing() {
    let mut coordinator = InnerCoordinator::new();
    let s = coordinator.create_surface();
    coordinator.show_surface(s, IN_SHELL);
    coordinator.commit_surface(s);
    assert_eq!(coordinator.get_buffer(s), None);
    assert_eq!(coordinator.surfaces[&s.as_number()].show_reasons, IN_SHELL);
    assert!(coordinator.take_emitted().is_empty());
    // An unknown surface is passed over.
    coordinator.commit_surface(SurfaceId::new(40));
    assert!(coordinator.take_emitted().is_empty());
}

#[test]
fn ready_and_destroyed_follow_the_reasons() {
    let mut coordinator = InnerCoordinator::new();
    let s = coordinator.create_surface();
    coordinator.show_surface(s, DRAWABLE);
    assert!(coordinator.take_emitted().is_empty());
    coordinator.show_surface(s, IN_SHELL);
    assert_eq!(coordinator.take_emitted(), vec![Perceptron::SurfaceReady(s)]);
    // Showing a reason that holds already changes nothing.
    coordinator.show_surface(s, IN_SHELL);
    coordinator.show_surface(s, READY);
    assert!(coordinator.take_emitted().is_empty());
    coordinator.hide_surface(s, DRAWABLE);
    assert_eq!(coordinator.take_emitted(), vec![Perceptron::SurfaceDestroyed(s)]);
    coordinator.hide_surface(s, DRAWABLE);
    coordinator.hide_surface(s, IN_SHELL);
    assert!(coordinator.take_emitted().is_empty());
    assert_eq!(coordinator.surfaces[&s.as_number()].show_reasons, 0);
    // Both reasons at once.
    coordinator.show_surface(s, READY);
    assert_eq!(coordinator.take_emitted(), vec![Perceptron::SurfaceReady(s)]);
    coordinator.show_surface(SurfaceId::new(9), READY);
    coordinator.hide_surface(SurfaceId::new(9), READY);
    assert!(coordinator.take_emitted().is_empty());
}

#[test]
fn focus_change() {
    let mut coordinator = InnerCoordinator::new();
    let a = coordinator.create_surface();
    coordinator.set_keyboard_focus(a);
    coordinator.set_keyboard_focus(a);
    assert_eq!(
        coordinator.take_emitted(),
        vec![Perceptron::KeyboardFocusChanged(SurfaceId::invalid(), a)]
    );
    assert_eq!(coordinator.get_keyboard_focused_sid(), a);
    let b = coordinator.create_surface();
    coordinator.set_keyboard_focus(b);
    assert_eq!(coordinator.take_emitted(), vec![Perceptron::KeyboardFocusChanged(a, b)]);
    assert_eq!(coordinator.get_keyboard_focused_sid(), b);
}

#[test]
fn pointer_focus_change() {
    let mut coordinator = InnerCoordinator::new();
    let a = coordinator.create_surface();
    coordinator.set_pointer_focus(a, Position::new(5, 6));
    coordinator.set_pointer_focus(a, Position::new(7, 8));
    assert_eq!(
        coordinator.take_emitted(),
        vec![Perceptron::PointerFocusChanged(SurfaceId::invalid(), a, Position::new(5, 6))]
    );
    assert_eq!(coordinator.get_pointer_focused_sid(), a);
}

#[test]
fn memory_pool_lifetime() {
    let mut coordinator = InnerCoordinator::new();
    let p = coordinator.create_pool_from_memory();
    assert_eq!(p, MemoryPoolId { value: 1 });
    let storage = coordinator.get_memory_pool(p).unwrap().storage;
    assert_eq!(coordinator.get_memory_pool(p).unwrap().kind, StorageKind::Mapped);
    let v = coordinator.create_memory_view(p, 8, 4, 2, 16).unwrap();
    assert_eq!(v, MemoryViewId { value: 1 });
    assert!(coordinator.is_storage_in_use(storage));
    coordinator.destroy_memory_pool(p);
    assert_eq!(coordinator.get_memory_pool(p), None);
    // The view still describes the storage of the pool that is gone, and keeps it in use.
    assert!(coordinator.is_storage_in_use(storage));
    assert_eq!(
        coordinator.get_memory_view(v),
        Some(MemoryView { storage, offset: 8, width: 4, height: 2, stride: 16 })
    );
    assert_eq!(coordinator.get_memory_view(v).unwrap().get_width(), 4);
    assert_eq!(coordinator.get_memory_view(v).unwrap().get_height(), 2);
    assert_eq!(coordinator.get_memory_view(v).unwrap().get_stride(), 16);
    coordinator.destroy_memory_view(v);
    assert_eq!(coordinator.get_memory_view(v), None);
    // With the last view gone the storage is given up, and it stays so.
    assert!(!coordinator.is_storage_in_use(storage));
    // A new pool gets storage of its own.
    let q = coordinator.create_pool_from_buffer();
    assert_eq!(q, MemoryPoolId { value: 2 });
    assert_eq!(coordinator.get_memory_pool(q).unwrap().kind, StorageKind::Buffer);
    assert!(coordinator.get_memory_pool(q).unwrap().storage != storage);
    assert!(!coordinator.is_storage_in_use(storage));
    assert!(coordinator.is_storage_in_use(coordinator.get_memory_pool(q).unwrap().storage));
}

#[test]
fn buffer_of_a_surface_keeps_storage_in_use() {
    let mut coordinator = InnerCoordinator::new();
    let p = coordinator.create_pool_from_memory();
    let storage = coordinator.get_memory_pool(p).unwrap().storage;
    let v = coordinator.create_memory_view(p, 0, 4, 4, 16).unwrap();
    let s = coordinator.create_surface();
    coordinator.attach(v, s);
    coordinator.destroy_memory_pool(p);
    coordinator.destroy_memory_view(v);
    assert!(coordinator.is_storage_in_use(storage));
    coordinator.commit_surface(s);
    assert!(coordinator.is_storage_in_use(storage));
    coordinator.destroy_surface(s);
    assert!(!coordinator.is_storage_in_use(storage));
}

#[test]
fn view_of_unknown_pool_uses_up_an_identifier() {
    let mut coordinator = InnerCoordinator::new();
    assert_eq!(coordinator.create_memory_view(MemoryPoolId { value: 5 }, 0, 1, 1, 4), None);
    let p = coordinator.create_pool_from_memory();
    assert_eq!(coordinator.create_memory_view(p, 0, 1, 1, 4), Some(MemoryViewId { value: 2 }));
}

#[test]
fn replaced_pool_keeps_its_identifier() {
    let mut coordinator = InnerCoordinator::new();
    let p = coordinator.create_pool_from_buffer();
    let before = coordinator.get_memory_pool(p).unwrap();
    let old_view = coordinator.create_memory_view(p, 0, 2, 2, 8).unwrap();
    coordinator.replace_memory_pool(p);
    let after = coordinator.get_memory_pool(p).unwrap();
    assert!(after.storage != before.storage);
    assert_eq!(after.kind, StorageKind::Mapped);
    let new_view = coordinator.create_memory_view(p, 0, 2, 2, 8).unwrap();
    assert_eq!(coordinator.get_memory_view(old_view).unwrap().storage, before.storage);
    assert_eq!(coordinator.get_memory_view(new_view).unwrap().storage, after.storage);
    // An unknown pool is not made by replacing it.
    coordinator.replace_memory_pool(MemoryPoolId { value: 77 });
    assert_eq!(coordinator.get_memory_pool(MemoryPoolId { value: 77 }), None);
}

#[test]
fn attach_needs_surface_and_view() {
    let mut coordinator = InnerCoordinator::new();
    let p = coordinator.create_pool_from_memory();
    let v = coordinator.create_memory_view(p, 0, 2, 2, 8).unwrap();
    let s = coordinator.create_surface();
    coordinator.attach(MemoryViewId { value: 9 }, s);
    assert_eq!(coordinator.surfaces[&s.as_number()].pending_buffer, None);
    coordinator.attach(v, SurfaceId::new(9));
    coordinator.attach(v, s);
    assert_eq!(coordinator.surfaces[&s.as_number()].pending_buffer, coordinator.get_memory_view(v));
    // A surface keeps the buffer that it was given when the view is destroyed.
    coordinator.destroy_memory_view(v);
    coordinator.commit_surface(s);
    assert!(coordinator.get_buffer(s).is_some());
    assert!(coordinator.take_emitted().is_empty());
}

#[test]
fn plain_updates_notify_nothing() {
    let mut coordinator = InnerCoordinator::new();
    let s = coordinator.create_surface();
    coordinator.set_surface_offset(s, Position::new(3, 4));
    coordinator.set_surface_requested_size(s, Size::new(30, 40));
    coordinator.set_surface_relative_position(s, Position::new(-5, 6));
    coordinator.set_surface_offset(SurfaceId::new(8), Position::new(1, 1));
    coordinator.set_surface_requested_size(SurfaceId::new(8), Size::new(1, 1));
    coordinator.set_surface_relative_position(SurfaceId::new(8), Position::new(1, 1));
    let info = coordinator.get_surface(s).unwrap();
    assert_eq!(info.offset, Position::new(3, 4));
    assert_eq!(info.requested_size, Size::new(30, 40));
    assert_eq!(
        coordinator.get_renderer_context(s),
        Some(vec![SurfaceContext::new(s, Position::new(-5, 6))])
    );
    assert!(coordinator.take_emitted().is_empty());
}

#[test]
fn relate_and_unrelate() {
    let mut coordinator = InnerCoordinator::new();
    let parent = coordinator.create_surface();
    let child = coordinator.create_surface();
    coordinator.show_surface(child, READY);
    coordinator.take_emitted();
    coordinator.set_surface_relative_position(child, Position::new(9, 9));

    coordinator.relate_surfaces(child, parent);
    assert_eq!(coordinator.get_surface(child).unwrap().parent_sid, parent);
    assert_eq!(coordinator.surfaces[&child.as_number()].relative_position, Position::new(0, 0));
    assert_eq!(coordinator.surfaces[&child.as_number()].show_reasons, DRAWABLE);
    assert_eq!(coordinator.surfaces[&parent.as_number()].satellites, vec![parent, child]);
    // The surface was ready and is not any more: that is notified, once.
    assert_eq!(coordinator.take_emitted(), vec![Perceptron::SurfaceDestroyed(child)]);
    coordinator.relate_surfaces(child, parent);
    assert!(coordinator.take_emitted().is_empty());
    coordinator.unrelate_surface(child);
    assert_eq!(coordinator.surfaces[&parent.as_number()].satellites, vec![parent]);
    coordinator.relate_surfaces(child, parent);

    coordinator.unrelate_surface(child);
    assert_eq!(coordinator.get_surface(child).unwrap().parent_sid, SurfaceId::invalid());
    assert_eq!(coordinator.surfaces[&parent.as_number()].satellites, vec![parent]);

    // With an unknown parent the surface changes and no satellite is added.
    coordinator.relate_surfaces(child, SurfaceId::new(50));
    assert_eq!(coordinator.get_surface(child).unwrap().parent_sid, SurfaceId::new(50));
    coordinator.unrelate_surface(child);
    assert_eq!(coordinator.get_surface(child).unwrap().parent_sid, SurfaceId::invalid());
    // Unknown surfaces are passed over.
    coordinator.relate_surfaces(SurfaceId::new(50), parent);
    coordinator.unrelate_surface(SurfaceId::new(50));
    assert_eq!(coordinator.surfaces[&parent.as_number()].satellites, vec![parent]);
    assert!(coordinator.take_emitted().is_empty());
}

#[test]
fn renderer_context_follows_the_satellites() {
    let mut coordinator = InnerCoordinator::new();
    let a = coordinator.create_surface();
    let b = coordinator.create_surface();
    let c = coordinator.create_surface();
    let d = coordinator.create_surface();
    coordinator.relate_surfaces(b, a);
    coordinator.relate_surfaces(c, b);
    coordinator.relate_surfaces(d, a);
    coordinator.set_surface_relative_position(b, Position::new(1, 1));
    coordinator.set_surface_relative_position(c, Position::new(2, 2));
    coordinator.set_surface_relative_position(d, Position::new(3, 3));
    let contexts = coordinator.get_renderer_context(a).unwrap();
    assert_eq!(
        contexts,
        vec![
            SurfaceContext::new(a, Position::new(0, 0)),
            SurfaceContext::new(b, Position::new(1, 1)),
            SurfaceContext::new(c, Position::new(2, 2)),
            SurfaceContext::new(d, Position::new(3, 3)),
        ]
    );
    for context in contexts.iter() {
        assert!(coordinator.get_surface(context.id).is_some());
    }
    // A satellite that was destroyed is drawn no more.
    coordinator.destroy_surface(b);
    let contexts = coordinator.get_renderer_context(a).unwrap();
    assert_eq!(
        contexts,
        vec![
            SurfaceContext::new(a, Position::new(0, 0)),
            SurfaceContext::new(d, Position::new(3, 3)),
        ]
    );
    for context in contexts.iter() {
        assert!(coordinator.get_surface(context.id).is_some());
    }
    assert_eq!(coordinator.get_renderer_context(b), None);
}

#[test]
fn renderer_context_ends_on_a_circle_of_satellites() {
    let mut coordinator = InnerCoordinator::new();
    let a = coordinator.create_surface();
    let b = coordinator.create_surface();
    coordinator.relate_surfaces(b, a);
    coordinator.relate_surfaces(a, b);
    let contexts = coordinator.get_renderer_context(a).unwrap();
    assert!(!contexts.is_empty());
    for context in contexts.iter() {
        assert!(coordinator.get_surface(context.id).is_some());
    }
}

#[test]
fn destroy_notifies_then_forgets() {
    let mut coordinator = InnerCoordinator::new();
    let s = coordinator.create_surface();
    coordinator.destroy_surface(s);
    assert_eq!(coordinator.take_emitted(), vec![Perceptron::SurfaceDestroyed(s)]);
    assert_eq!(coordinator.get_surface(s), None);
    coordinator.detach_surface(s);
    coordinator.set_surface_as_cursor(s);
    coordinator.notify();
    assert_eq!(
        coordinator.take_emitted(),
        vec![
            Perceptron::SurfaceDestroyed(s),
            Perceptron::CursorSurfaceChange(s),
            Perceptron::Notify
        ]
    );
}

#[test]
fn reconfigure_notifies_changes_only() {
    let mut coordinator = InnerCoordinator::new();
    let s = coordinator.create_surface();
    coordinator.reconfigure(s, Size::new(10, 20), MAXIMIZED);
    assert_eq!(coordinator.take_emitted(), vec![Perceptron::SurfaceReconfigured(s)]);
    coordinator.reconfigure(s, Size::new(10, 20), MAXIMIZED);
    assert!(coordinator.take_emitted().is_empty());
    coordinator.reconfigure(s, Size::new(10, 20), FULLSCREEN);
    assert_eq!(coordinator.take_emitted(), vec![Perceptron::SurfaceReconfigured(s)]);
    let info = coordinator.get_surface(s).unwrap();
    assert_eq!(info.desired_size, Size::new(10, 20));
    assert_eq!(info.state_flags, FULLSCREEN);
    coordinator.reconfigure(SurfaceId::new(3), Size::new(1, 1), MAXIMIZED);
    assert!(coordinator.take_emitted().is_empty());
}

#[test]
fn signal_numbers_of_notifications() {
    assert_eq!(Perceptron::Notify.signal_id(), perceptia::perceptron::NOTIFY);
    assert_eq!(
        Perceptron::SurfaceReady(SurfaceId::new(1)).signal_id(),
        perceptia::perceptron::SURFACE_READY
    );
    assert_eq!(
        Perceptron::SurfaceDestroyed(SurfaceId::new(1)).signal_id(),
        perceptia::perceptron::SURFACE_DESTROYED
    );
    assert_eq!(
        Perceptron::SurfaceReconfigured(SurfaceId::new(1)).signal_id(),
        perceptia::perceptron::SURFACE_RECONFIGURED
    );
    assert_eq!(
        Perceptron::KeyboardFocusChanged(SurfaceId::new(1), SurfaceId::new(2)).signal_id(),
        perceptia::perceptron::KEYBOARD_FOCUS_CHANGED
    );
    assert_eq!(
        Perceptron::PointerFocusChanged(SurfaceId::new(1), SurfaceId::new(2), Position::new(0, 0))
            .signal_id(),
        perceptia::perceptron::POINTER_FOCUS_CHANGED
    );
    assert_eq!(Perceptron::PageFlip(1).signal_id(), perceptia::perceptron::PAGE_FLIP);
    assert_eq!(
        Perceptron::InputPointerPositionReset.signal_id(),
        perceptia::perceptron::INPUT_POINTER_POSITION_RESET
    );
    assert_eq!(
        Perceptron::CursorSurfaceChange(SurfaceId::new(1)).signal_id(),
        perceptia::perceptron::CURSOR_SURFACE_CHANGE
    );
}
