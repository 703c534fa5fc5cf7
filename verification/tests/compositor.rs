use perceptia::compositor::Compositor;
use perceptia::coordinator::InnerCoordinator;
use perceptia::defs::{Area, Position, Size, SurfaceId};
use perceptia::exhibitor_module::{ExhibitorModule, ExhibitorModuleConstructor, Handling};
use perceptia::frame::{Frame, Geometry, Mode};
use perceptia::perceptron::{
    Button, Command, OutputBundle, Perceptron, COMMAND, CURSOR_SURFACE_CHANGE,
    INPUT_POINTER_BUTTON, INPUT_POINTER_MOTION, INPUT_POINTER_POSITION,
    INPUT_POINTER_POSITION_RESET, KEYBOARD_FOCUS_CHANGED, NOTIFY, OUTPUT_FOUND, PAGE_FLIP,
    SURFACE_DESTROYED, SURFACE_READY,
};
use perceptia::surface_state::MAXIMIZED;

fn area(x: isize, y: isize, width: usize, height: usize) -> Area {
    Area::new(Position::new(x, y), Size::new(width, height))
}

/// A compositor with one display of 800 by 600 under the root and one workspace in it,
/// which is selected.
fn compositor_with_workspace(
    geometry: Geometry,
    coordinator: &mut InnerCoordinator,
) -> (Compositor, Frame) {
    let mut compositor = Compositor::new();
    let root = compositor.tree.root();
    let display = compositor.tree.new_display(area(0, 0, 800, 600));
    compositor.tree.settle(display, root, coordinator);
    let workspace = compositor.tree.new_workspace(geometry);
    compositor.tree.settle(workspace, display, coordinator);
    compositor.select(Some(workspace));
    (compositor, workspace)
}

fn history_of(compositor: &Compositor) -> Vec<u64> {
    let mut list = Vec::new();
    let mut place = 0;
    while let Some(sid) = compositor.history.get_nth(place) {
        list.push(sid.as_number());
        place += 1;
    }
    list
}

#[test]
fn settle_single_top_level() {
    let mut coordinator = InnerCoordinator::new();
    let (mut compositor, workspace) =
        compositor_with_workspace(Geometry::Vertical, &mut coordinator);
    assert_eq!(compositor.tree.get_area(workspace), area(0, 0, 800, 600));

    let sid = coordinator.create_surface();
    assert_eq!(sid, SurfaceId::new(1));
    compositor.manage_surface(sid, &mut coordinator);

    assert_eq!(compositor.tree.count_children(workspace), 1);
    let leaf = compositor.tree.space_child(workspace, 0);
    assert_eq!(compositor.tree.get_sid(leaf), sid);
    assert_eq!(compositor.tree.get_mode(leaf), Mode::Leaf);
    assert_eq!(compositor.tree.get_geometry(leaf), Geometry::Vertical);
    assert_eq!(compositor.tree.get_parent(leaf), Some(workspace));
    assert_eq!(compositor.tree.get_area(leaf), area(0, 0, 800, 600));
    assert_eq!(compositor.selection, Some(leaf));
    assert_eq!(history_of(&compositor), vec![1]);

    let info = coordinator.get_surface(sid).unwrap();
    assert_eq!(info.desired_size, Size::new(800, 600));
    assert_eq!(info.state_flags, MAXIMIZED);
    let emitted = coordinator.take_emitted();
    assert_eq!(emitted, vec![Perceptron::SurfaceReconfigured(sid), Perceptron::Notify]);
}

#[test]
fn settle_two_siblings() {
    let mut coordinator = InnerCoordinator::new();
    let (mut compositor, workspace) =
        compositor_with_workspace(Geometry::Vertical, &mut coordinator);
    let first = coordinator.create_surface();
    compositor.manage_surface(first, &mut coordinator);
    let second = coordinator.create_surface();
    assert_eq!(second, SurfaceId::new(2));
    compositor.manage_surface(second, &mut coordinator);

    assert_eq!(compositor.tree.count_children(workspace), 2);
    let upper = compositor.tree.space_child(workspace, 0);
    let lower = compositor.tree.space_child(workspace, 1);
    assert_eq!(compositor.tree.get_sid(upper), first);
    assert_eq!(compositor.tree.get_sid(lower), second);
    assert_eq!(compositor.tree.get_area(upper), area(0, 0, 800, 300));
    assert_eq!(compositor.tree.get_area(lower), area(0, 300, 800, 300));
    assert_eq!(compositor.tree.get_area(workspace), area(0, 0, 800, 600));
    assert_eq!(compositor.selection, Some(lower));
    assert_eq!(history_of(&compositor), vec![2, 1]);
    // The leaf that was used last comes first in the order of use.
    assert_eq!(compositor.tree.time_child(workspace, 0), lower);
    assert_eq!(compositor.tree.time_child(workspace, 1), upper);
    assert_eq!(coordinator.get_surface(first).unwrap().desired_size, Size::new(800, 300));
    assert_eq!(coordinator.get_surface(second).unwrap().desired_size, Size::new(800, 300));
}

#[test]
fn settle_subordinate() {
    let mut coordinator = InnerCoordinator::new();
    let (mut compositor, workspace) =
        compositor_with_workspace(Geometry::Stacked, &mut coordinator);
    let first = coordinator.create_surface();
    compositor.manage_surface(first, &mut coordinator);
    let leaf_one = compositor.tree.space_child(workspace, 0);
    assert_eq!(compositor.selection, Some(leaf_one));
    let area_one = compositor.tree.get_area(leaf_one);
    assert_eq!(area_one, area(0, 0, 800, 600));

    let second = coordinator.create_surface();
    coordinator.relate_surfaces(second, first);
    compositor.manage_surface(second, &mut coordinator);

    // The stacked frame that held the first leaf holds both.
    assert_eq!(compositor.tree.count_children(workspace), 2);
    let leaf_two = compositor.tree.find_with_sid(compositor.tree.root(), second).unwrap();
    assert_eq!(compositor.tree.get_parent(leaf_two), Some(workspace));
    assert_eq!(compositor.tree.get_parent(leaf_one), Some(workspace));
    assert_eq!(compositor.tree.get_geometry(leaf_two), Geometry::Stacked);
    // The second leaf lies over the first, and both fill the area of the first.
    assert_eq!(compositor.tree.space_child(workspace, 0), leaf_two);
    assert_eq!(compositor.tree.time_child(workspace, 0), leaf_two);
    assert_eq!(compositor.tree.get_area(leaf_one), area_one);
    assert_eq!(compositor.tree.get_area(leaf_two), area_one);
    assert_eq!(compositor.selection, Some(leaf_two));
    assert_eq!(history_of(&compositor), vec![2, 1]);
}

#[test]
fn subordinate_under_a_vertical_workspace_shares_its_height() {
    let mut coordinator = InnerCoordinator::new();
    let (mut compositor, workspace) =
        compositor_with_workspace(Geometry::Vertical, &mut coordinator);
    let first = coordinator.create_surface();
    compositor.manage_surface(first, &mut coordinator);
    let second = coordinator.create_surface();
    coordinator.relate_surfaces(second, first);
    compositor.manage_surface(second, &mut coordinator);
    let leaf_one = compositor.tree.space_child(workspace, 0);
    let leaf_two = compositor.tree.space_child(workspace, 1);
    assert_eq!(compositor.tree.get_sid(leaf_two), second);
    assert_eq!(compositor.tree.get_area(leaf_one), area(0, 0, 800, 300));
    assert_eq!(compositor.tree.get_area(leaf_two), area(0, 300, 800, 300));
}

#[test]
fn unknown_surface_is_not_managed() {
    let mut coordinator = InnerCoordinator::new();
    let (mut compositor, workspace) =
        compositor_with_workspace(Geometry::Vertical, &mut coordinator);
    coordinator.take_emitted();
    compositor.manage_surface(SurfaceId::new(7), &mut coordinator);
    assert_eq!(compositor.tree.count_children(workspace), 0);
    assert_eq!(compositor.selection, Some(workspace));
    assert_eq!(history_of(&compositor), Vec::<u64>::new());
    assert!(coordinator.take_emitted().is_empty());
}

#[test]
fn destroyed_surface_leaves_the_tree() {
    let mut coordinator = InnerCoordinator::new();
    let (mut compositor, workspace) =
        compositor_with_workspace(Geometry::Vertical, &mut coordinator);
    let first = coordinator.create_surface();
    compositor.manage_surface(first, &mut coordinator);
    let second = coordinator.create_surface();
    compositor.manage_surface(second, &mut coordinator);
    let leaf_two = compositor.tree.space_child(workspace, 1);

    compositor.unmanage_surface(second, &mut coordinator);

    assert_eq!(compositor.tree.count_children(workspace), 1);
    let leaf_one = compositor.tree.space_child(workspace, 0);
    assert_eq!(compositor.tree.get_sid(leaf_one), first);
    assert_eq!(compositor.tree.get_area(leaf_one), area(0, 0, 800, 600));
    assert_eq!(compositor.tree.get_parent(leaf_two), None);
    assert_eq!(compositor.tree.find_with_sid(compositor.tree.root(), second), None);
    assert_eq!(compositor.selection, Some(workspace));
    assert_eq!(history_of(&compositor), vec![1]);

    // A surface that no frame shows only leaves the history.
    compositor.unmanage_surface(SurfaceId::new(9), &mut coordinator);
    assert_eq!(compositor.tree.count_children(workspace), 1);
    assert_eq!(history_of(&compositor), vec![1]);
}

#[test]
fn choose_target_follows_the_parent_of_the_surface() {
    let mut coordinator = InnerCoordinator::new();
    let (mut compositor, workspace) =
        compositor_with_workspace(Geometry::Vertical, &mut coordinator);
    let first = coordinator.create_surface();
    compositor.manage_surface(first, &mut coordinator);
    let leaf = compositor.get_selection().unwrap();

    let top_level = coordinator.get_surface(first).unwrap();
    let decision = compositor.choose_target(&top_level).unwrap();
    assert_eq!(decision.target, workspace);
    assert_eq!(decision.geometry, Geometry::Vertical);
    assert!(decision.selection);

    let second = coordinator.create_surface();
    coordinator.relate_surfaces(second, first);
    let parented = coordinator.get_surface(second).unwrap();
    let decision = compositor.choose_target(&parented).unwrap();
    assert_eq!(decision.target, compositor.tree.get_parent(leaf).unwrap());
    assert_eq!(decision.geometry, Geometry::Stacked);
    assert!(decision.selection);
}

#[test]
fn surface_without_a_place_is_not_managed() {
    // Nothing is selected.
    let mut coordinator = InnerCoordinator::new();
    let mut compositor = Compositor::new();
    let sid = coordinator.create_surface();
    assert_eq!(compositor.get_selection(), None);
    assert!(compositor.choose_target(&coordinator.get_surface(sid).unwrap()).is_none());
    compositor.manage_surface(sid, &mut coordinator);
    assert_eq!(compositor.tree.nodes.len(), 1);
    assert_eq!(compositor.selection, None);
    assert_eq!(history_of(&compositor), Vec::<u64>::new());
    assert!(coordinator.take_emitted().is_empty());

    // The root is selected: there is no display or workspace above it, and a surface with a
    // parent would settle in the root itself.
    let root = compositor.tree.root();
    compositor.select(Some(root));
    compositor.manage_surface(sid, &mut coordinator);
    let child = coordinator.create_surface();
    coordinator.relate_surfaces(child, sid);
    assert!(compositor.choose_target(&coordinator.get_surface(child).unwrap()).is_none());
    compositor.manage_surface(child, &mut coordinator);
    assert_eq!(compositor.tree.nodes.len(), 1);
    assert_eq!(compositor.tree.count_children(root), 0);
    assert_eq!(compositor.selection, Some(root));
    assert_eq!(history_of(&compositor), Vec::<u64>::new());
    assert!(coordinator.take_emitted().is_empty());

    // A leaf that is detached has no parent to build on.
    let loose = compositor.tree.new_leaf(sid, Geometry::Vertical);
    compositor.select(Some(loose));
    compositor.manage_surface(child, &mut coordinator);
    compositor.manage_surface(sid, &mut coordinator);
    assert_eq!(compositor.tree.nodes.len(), 2);
    assert_eq!(compositor.selection, Some(loose));
}

#[test]
fn module_passes_over_a_surface_without_a_place() {
    let mut coordinator = InnerCoordinator::new();
    let mut module = ExhibitorModule::new();
    module.initialize();
    let sid = coordinator.create_surface();
    assert_eq!(module.execute(&Perceptron::SurfaceReady(sid), &mut coordinator), Handling::Done);
    let compositor = module.exhibitor.as_ref().unwrap();
    assert_eq!(compositor.tree.nodes.len(), 1);
    assert_eq!(compositor.selection, None);
    assert!(coordinator.take_emitted().is_empty());
}

#[test]
fn module_asks_for_its_signals() {
    let constructor = ExhibitorModuleConstructor::new();
    let mut module = constructor.construct();
    assert!(module.exhibitor.is_none());
    let signals = module.initialize();
    assert_eq!(
        signals,
        vec![
            NOTIFY,
            PAGE_FLIP,
            OUTPUT_FOUND,
            COMMAND,
            INPUT_POINTER_MOTION,
            INPUT_POINTER_POSITION,
            INPUT_POINTER_BUTTON,
            INPUT_POINTER_POSITION_RESET,
            CURSOR_SURFACE_CHANGE,
            SURFACE_READY,
            SURFACE_DESTROYED,
            KEYBOARD_FOCUS_CHANGED
        ]
    );
    assert!(module.exhibitor.is_some());
    module.finalize();
    assert!(module.exhibitor.is_some());
}

#[test]
fn module_hands_notifications_to_their_handlers() {
    let mut coordinator = InnerCoordinator::new();
    let mut module = ExhibitorModule::new();
    // Before it is initialized the module passes over everything.
    assert_eq!(module.execute(&Perceptron::Notify, &mut coordinator), Handling::Done);
    module.initialize();

    let bundle = OutputBundle { fd: 3, crtc_id: 4, connector_id: 5 };
    let command = Command { action: 1, direction: 2, magnitude: -3 };
    let button = Button { code: 272, value: 1 };
    let a = SurfaceId::new(1);
    let b = SurfaceId::new(2);
    let cases = vec![
        (Perceptron::Notify, Handling::Notify),
        (Perceptron::OutputFound(bundle), Handling::OutputFound(bundle)),
        (Perceptron::PageFlip(7), Handling::PageFlip(7)),
        (Perceptron::Command(command), Handling::Command(command)),
        (Perceptron::InputPointerMotion(Position::new(1, 2)), Handling::Motion(Position::new(1, 2))),
        (
            Perceptron::InputPointerPosition(Position::new(3, 4)),
            Handling::Position(Position::new(3, 4)),
        ),
        (Perceptron::InputPointerButton(button), Handling::Button(button)),
        (Perceptron::InputPointerPositionReset, Handling::PositionReset),
        (Perceptron::CursorSurfaceChange(a), Handling::CursorSurfaceChange(a)),
        (Perceptron::KeyboardFocusChanged(a, b), Handling::KeyboardFocusChanged(b)),
        (Perceptron::SurfaceReconfigured(a), Handling::Done),
        (Perceptron::PointerFocusChanged(a, b, Position::new(0, 0)), Handling::Done),
    ];
    for (package, expected) in cases {
        assert_eq!(module.execute(&package, &mut coordinator), expected);
    }
    assert!(coordinator.take_emitted().is_empty());
}

#[test]
fn module_manages_ready_and_destroyed_surfaces() {
    let mut coordinator = InnerCoordinator::new();
    let mut module = ExhibitorModule::new();
    module.initialize();
    let workspace = {
        let compositor = module.exhibitor.as_mut().unwrap();
        let root = compositor.tree.root();
        let display = compositor.tree.new_display(area(10, 20, 640, 480));
        compositor.tree.settle(display, root, &mut coordinator);
        let workspace = compositor.tree.new_workspace(Geometry::Horizontal);
        compositor.tree.settle(workspace, display, &mut coordinator);
        compositor.select(Some(workspace));
        workspace
    };
    let first = coordinator.create_surface();
    let second = coordinator.create_surface();
    assert_eq!(
        module.execute(&Perceptron::SurfaceReady(first), &mut coordinator),
        Handling::Done
    );
    assert_eq!(
        module.execute(&Perceptron::SurfaceReady(second), &mut coordinator),
        Handling::Done
    );
    {
        let compositor = module.exhibitor.as_ref().unwrap();
        assert_eq!(compositor.tree.count_children(workspace), 2);
        let left = compositor.tree.space_child(workspace, 0);
        let right = compositor.tree.space_child(workspace, 1);
        assert_eq!(compositor.tree.get_area(left), area(10, 20, 320, 480));
        assert_eq!(compositor.tree.get_area(right), area(330, 20, 320, 480));
    }
    assert_eq!(
        module.execute(&Perceptron::SurfaceDestroyed(first), &mut coordinator),
        Handling::Done
    );
    let compositor = module.exhibitor.as_ref().unwrap();
    assert_eq!(compositor.tree.count_children(workspace), 1);
    let only = compositor.tree.space_child(workspace, 0);
    assert_eq!(compositor.tree.get_sid(only), second);
    assert_eq!(compositor.tree.get_area(only), area(10, 20, 640, 480));
    assert_eq!(history_of(compositor), vec![2]);
}
