use perceptia::defs::{
    clamp_into, in_span, Area, MemoryPoolId, MemoryViewId, Position, Size, SurfaceId,
};
use perceptia::env::{
    decimal_string, join, padded_string, Directory, Env, MkdirStep, Moment, PathKind,
};
use perceptia::errors::Illusion;
use perceptia::memory::{MemoryPool, StorageId, StorageKind};
use perceptia::signaler::{Event, ReceiverId, Signaler};
use perceptia::surface::{Surface, SurfaceContext};
use perceptia::surface_history::SurfaceHistory;

fn area(x: isize, y: isize, width: usize, height: usize) -> Area {
    Area::new(Position::new(x, y), Size::new(width, height))
}

#[test]
fn surface_identifiers() {
    assert!(!SurfaceId::invalid().is_valid());
    assert_eq!(SurfaceId::invalid().as_number(), 0);
    assert!(SurfaceId::new(1).is_valid());
    assert_eq!(SurfaceId::new(17).as_number(), 17);
    assert_eq!(SurfaceId::new(0), SurfaceId::invalid());
}

#[test]
fn memory_identifiers_count_upwards() {
    let mut pool = MemoryPoolId::initial();
    assert_eq!(pool.increment(), MemoryPoolId { value: 1 });
    assert_eq!(pool.increment(), MemoryPoolId { value: 2 });
    assert_eq!(pool, MemoryPoolId { value: 2 });
    let mut view = MemoryViewId::initial();
    assert_eq!(view.increment(), MemoryViewId { value: 1 });
    assert_eq!(view, MemoryViewId { value: 1 });
}

#[test]
fn positions_move_and_wrap() {
    let point = Position::new(10, -20);
    assert_eq!(point.moved_by(Position::new(-3, 5)), Position::new(7, -15));
    assert_eq!(Position::new(7, -15).vector_from(point), Position::new(-3, 5));
    assert_eq!(point.advanced_by(4, 6), Position::new(14, -14));
    assert_eq!(Position::origin(), Position::new(0, 0));
    let far = Position::new(isize::MAX, isize::MIN);
    assert_eq!(far.moved_by(Position::new(1, -1)), Position::new(isize::MIN, isize::MAX));
    assert_eq!(far.moved_by(Position::new(1, -1)).vector_from(far), Position::new(1, -1));
    assert_eq!(far.advanced_by(1, usize::MAX), Position::new(isize::MIN, isize::MAX));
    assert_eq!(Position::new(0, 0).advanced_by(usize::MAX, 0), Position::new(-1, 0));
}

#[test]
fn areas_hold_their_points() {
    let a = area(10, 20, 30, 40);
    assert!(a.contains(&Position::new(10, 20)));
    assert!(a.contains(&Position::new(39, 59)));
    assert!(!a.contains(&Position::new(40, 20)));
    assert!(!a.contains(&Position::new(10, 60)));
    assert!(!a.contains(&Position::new(9, 20)));
    assert!(!a.contains(&Position::new(10, 19)));
    assert!(!area(0, 0, 0, 5).contains(&Position::new(0, 0)));
    assert_eq!(a.calculate_center(), Position::new(25, 40));
    assert_eq!(area(0, 0, 5, 7).calculate_center(), Position::new(2, 3));
    // An area that reaches the end of the range of the coordinates.
    let edge = area(isize::MAX - 1, 0, 10, 1);
    assert!(edge.contains(&Position::new(isize::MAX, 0)));
    assert!(!edge.contains(&Position::new(isize::MIN, 0)));
}

#[test]
fn points_are_cast_into_areas() {
    let a = area(10, 20, 30, 40);
    assert_eq!(Position::new(15, 25).casted(&a), Position::new(15, 25));
    assert_eq!(Position::new(0, 0).casted(&a), Position::new(10, 20));
    assert_eq!(Position::new(100, 100).casted(&a), Position::new(39, 59));
    assert_eq!(Position::new(40, 19).casted(&a), Position::new(39, 20));
    assert_eq!(Position::new(5, 5).casted(&area(1, 2, 0, 0)), Position::new(1, 2));
    assert_eq!(clamp_into(7, 0, 5), 4);
    assert_eq!(clamp_into(-7, 0, 5), 0);
    assert_eq!(clamp_into(3, 0, 5), 3);
    assert_eq!(clamp_into(3, 9, 0), 9);
    assert_eq!(clamp_into(isize::MAX, isize::MAX - 2, usize::MAX), isize::MAX);
    assert!(in_span(3, 0, 5));
    assert!(!in_span(5, 0, 5));
    assert!(!in_span(-1, 0, 5));
    assert!(in_span(isize::MAX - 1, isize::MIN, usize::MAX));
    assert!(!in_span(isize::MAX, isize::MIN, usize::MAX));
}

#[test]
fn surface_record() {
    let id = SurfaceId::new(4);
    let mut surface = Surface::new(&id);
    assert_eq!(surface.satellites, vec![id]);
    assert_eq!(surface.get_show_reason(), 0);
    assert_eq!(surface.show(1), 1);
    assert_eq!(surface.show(2), 3);
    assert_eq!(surface.conceal(1), 2);
    assert_eq!(surface.conceal(1), 2);
    assert!(!surface.commit());
    assert_eq!(surface.get_buffer(), None);
    let pool = MemoryPool::new_from_mapped_memory(StorageId { value: 3 });
    assert_eq!(pool.kind, StorageKind::Mapped);
    assert_eq!(MemoryPool::new_from_buffer(StorageId { value: 3 }).kind, StorageKind::Buffer);
    let view = pool.get_memory_view(1, 2, 3, 4);
    surface.attach(view);
    assert!(surface.commit());
    assert!(!surface.commit());
    assert_eq!(surface.get_buffer(), Some(view));
    surface.add_satellite(SurfaceId::new(5));
    surface.add_satellite(SurfaceId::new(6));
    surface.add_satellite(SurfaceId::new(5));
    surface.remove_satellite(SurfaceId::new(5));
    assert_eq!(surface.satellites, vec![id, SurfaceId::new(6)]);
    surface.remove_satellite(SurfaceId::new(9));
    assert_eq!(surface.satellites, vec![id, SurfaceId::new(6)]);
    surface.set_relative_position(Position::new(1, 2));
    assert_eq!(surface.get_renderer_context(), SurfaceContext::new(id, Position::new(1, 2)));
    surface.set_parent_sid(SurfaceId::new(8));
    assert_eq!(surface.get_parent_sid(), SurfaceId::new(8));
    surface.set_desired_size(Size::new(3, 4));
    surface.set_state_flags(2);
    surface.set_requested_size(Size::new(5, 6));
    surface.set_offset(Position::new(7, 8));
    let info = surface.get_info();
    assert_eq!(info.desired_size, Size::new(3, 4));
    assert_eq!(info.requested_size, Size::new(5, 6));
    assert_eq!(info.offset, Position::new(7, 8));
    assert_eq!(info.state_flags, 2);
    assert_eq!(info.parent_sid, SurfaceId::new(8));
    assert_eq!(info.buffer, Some(view));
    assert_eq!(surface.get_desired_size(), Size::new(3, 4));
    assert_eq!(surface.get_state_flags(), 2);
}

#[test]
fn history_moves_a_surface_to_the_front() {
    let mut history = SurfaceHistory::new();
    assert_eq!(history.len(), 0);
    assert_eq!(history.get_nth(0), None);
    history.add(SurfaceId::new(1));
    history.add(SurfaceId::new(2));
    history.add(SurfaceId::new(3));
    history.add(SurfaceId::new(1));
    assert_eq!(history.history, vec![SurfaceId::new(1), SurfaceId::new(3), SurfaceId::new(2)]);
    history.add(SurfaceId::new(1));
    assert_eq!(history.len(), 3);
    assert_eq!(history.get_nth(0), Some(SurfaceId::new(1)));
    assert_eq!(history.get_nth(2), Some(SurfaceId::new(2)));
    assert_eq!(history.get_nth(3), None);
    history.remove(SurfaceId::new(3));
    assert_eq!(history.history, vec![SurfaceId::new(1), SurfaceId::new(2)]);
    history.remove(SurfaceId::new(3));
    assert_eq!(history.len(), 2);
}

#[test]
fn signaler_routes_by_signal() {
    let mut signaler = Signaler::new();
    let first = ReceiverId { value: 1 };
    let second = ReceiverId { value: 2 };
    let third = ReceiverId { value: 3 };
    // Nobody asked for anything yet.
    let dispatch = signaler.emit(4, 'a');
    assert!(dispatch.receivers.is_empty());
    assert_eq!(dispatch.event, Event::Package { id: 4, package: 'a' });

    signaler.subscribe(4, first);
    signaler.subscribe(5, second);
    signaler.subscribe(4, third);
    signaler.subscribe(4, first);
    let dispatch = signaler.emit(4, 'b');
    assert_eq!(dispatch.receivers, vec![first, third, first]);
    assert_eq!(dispatch.event, Event::Package { id: 4, package: 'b' });
    assert_eq!(signaler.emit(5, 'c').receivers, vec![second]);
    assert!(signaler.emit(6, 'd').receivers.is_empty());
}

#[test]
fn signaler_terminates_the_registered() {
    let mut signaler = Signaler::new();
    assert!(signaler.terminate::<u8>().receivers.is_empty());
    signaler.subscribe(1, ReceiverId { value: 9 });
    signaler.register(ReceiverId { value: 7 });
    signaler.register(ReceiverId { value: 8 });
    let dispatch = signaler.terminate::<u8>();
    assert_eq!(dispatch.event, Event::Terminate);
    assert_eq!(dispatch.receivers, vec![ReceiverId { value: 7 }, ReceiverId { value: 8 }]);
    // Being registered is no subscription.
    assert_eq!(signaler.emit(1, 0u8).receivers, vec![ReceiverId { value: 9 }]);
}

#[test]
fn time_representation_is_padded() {
    assert_eq!(Env::get_time_representation(7, 3, 9, 5), "007-03-09-05");
    assert_eq!(Env::get_time_representation(365, 23, 59, 59), "365-23-59-59");
    assert_eq!(Env::get_time_representation(0, 0, 0, 0), "000-00-00-00");
    assert_eq!(Env::get_time_representation(1234, 100, 7, 60), "1234-100-07-60");
    assert_eq!(decimal_string(0), "0");
    assert_eq!(decimal_string(9), "9");
    assert_eq!(decimal_string(10), "10");
    assert_eq!(decimal_string(4294967295), "4294967295");
    assert_eq!(padded_string(5, 0), "5");
    assert_eq!(padded_string(5, 1), "5");
    assert_eq!(padded_string(5, 4), "0005");
    assert_eq!(padded_string(12345, 3), "12345");
}

#[test]
fn directories_of_the_environment() {
    assert_eq!(Env::read_path(Some("/home/me/.local".to_string()), "/tmp/perceptia"), "/home/me/.local");
    assert_eq!(Env::read_path(None, "/tmp/perceptia"), "/tmp/perceptia");
    assert_eq!(Env::mkdir(PathKind::Directory), Ok(MkdirStep::Ready));
    assert_eq!(Env::mkdir(PathKind::Missing), Ok(MkdirStep::Create));
    assert!(matches!(Env::mkdir(PathKind::Other), Err(Illusion::InvalidArgument(_))));

    let moment = Moment { yday: 7, hour: 3, min: 9, sec: 5 };
    assert_eq!(moment.representation(), "007-03-09-05");
    assert_eq!(Env::data_dir_path(None), "/tmp/perceptia");
    assert_eq!(Env::data_dir_path(Some("/home/me/.local/share".to_string())), "/home/me/.local/share");
    assert_eq!(Env::runtime_dir_path(None, moment), "/tmp/perceptia-007-03-09-05");
    assert_eq!(
        Env::runtime_dir_path(Some("/run/user/1000".to_string()), moment),
        "/run/user/1000/perceptia-007-03-09-05"
    );
    assert_eq!(
        Env::runtime_dir_path(Some("/run/user/1000/".to_string()), moment),
        "/run/user/1000/perceptia-007-03-09-05"
    );
    assert_eq!(Env::runtime_dir_path(Some("".to_string()), moment), "perceptia-007-03-09-05");
    assert_eq!(Env::log_path("/data".to_string(), moment), "/data/log-007-03-09-05");
    assert_eq!(join("/".to_string(), "x"), "/x");
    assert_eq!(join("a".to_string(), "b"), "a/b");

    let env = Env::create(Some("/data".to_string()), true, Some("/run".to_string()), moment, false);
    assert_eq!(env.data_dir, Some("/data".to_string()));
    assert_eq!(env.runtime_dir, None);
    assert!(env.keeps_log());
    assert_eq!(env.directory(Directory::Data), Ok("/data".to_string()));
    assert!(matches!(env.directory(Directory::Runtime), Err(Illusion::General(_))));
    assert_eq!(
        env.directory(Directory::Runtime),
        Err(Illusion::General("Requested directory is not available".to_string()))
    );

    let mut env = Env::create(None, false, None, moment, true);
    assert_eq!(env.data_dir, None);
    assert_eq!(env.runtime_dir, Some("/tmp/perceptia-007-03-09-05".to_string()));
    assert!(!env.keeps_log());
    assert!(!env.create_data_dir(Some("/other".to_string()), false));
    assert_eq!(env.data_dir, None);
    assert!(env.create_data_dir(Some("/other".to_string()), true));
    assert_eq!(env.data_dir, Some("/other".to_string()));
    assert!(env.create_data_dir(None, true));
    assert_eq!(env.data_dir, Some("/tmp/perceptia".to_string()));
    assert!(!env.create_runtime_dir(Some("/gone".to_string()), moment, false));
    assert_eq!(env.runtime_dir, Some("/tmp/perceptia-007-03-09-05".to_string()));
    assert!(env.create_runtime_dir(Some("/run/q".to_string()), moment, true));
    assert_eq!(env.directory(Directory::Runtime), Ok("/run/q/perceptia-007-03-09-05".to_string()));
}
