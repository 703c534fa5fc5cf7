use perceptia::coordinator::InnerCoordinator;
use perceptia::defs::{Area, Direction, Position, Size, SurfaceId};
use perceptia::frame::{Frame, FrameTree, Geometry, Mode};
use perceptia::perceptron::Perceptron;
use perceptia::surface_state::MAXIMIZED;

fn area(x: isize, y: isize, width: usize, height: usize) -> Area {
    Area::new(Position::new(x, y), Size::new(width, height))
}

fn children(tree: &FrameTree, frame: Frame) -> Vec<Frame> {
    let list = tree.space_iter(frame);
    assert_eq!(list.len(), tree.count_children(frame));
    for (place, child) in list.iter().enumerate() {
        assert_eq!(tree.space_child(frame, place), *child);
    }
    list
}

fn children_by_use(tree: &FrameTree, frame: Frame) -> Vec<Frame> {
    let list = tree.time_iter(frame);
    assert_eq!(list.len(), tree.count_children(frame));
    for (place, child) in list.iter().enumerate() {
        assert_eq!(tree.time_child(frame, place), *child);
    }
    list
}

/// A tree with a display of 900 by 600 at (100, 50) and a workspace with the given layout.
fn tree_with_workspace(geometry: Geometry) -> (FrameTree, InnerCoordinator, Frame, Frame) {
    let mut coordinator = InnerCoordinator::new();
    let mut tree = FrameTree::new_root();
    let root = tree.root();
    let display = tree.new_display(area(100, 50, 900, 600));
    tree.settle(display, root, &mut coordinator);
    let workspace = tree.new_workspace(geometry);
    tree.settle(workspace, display, &mut coordinator);
    (tree, coordinator, display, workspace)
}

fn add_leaves(
    tree: &mut FrameTree,
    coordinator: &mut InnerCoordinator,
    parent: Frame,
    count: usize,
) -> Vec<Frame> {
    let mut leaves = Vec::new();
    for _ in 0..count {
        let sid = coordinator.create_surface();
        let leaf = tree.new_leaf(sid, Geometry::Stacked);
        tree.settle(leaf, parent, coordinator);
        leaves.push(leaf);
    }
    leaves
}

#[test]
fn new_tree_has_a_floating_root() {
    let tree = FrameTree::new_root();
    let root = tree.root();
    assert_eq!(root, Frame { index: 0 });
    assert!(tree.contains(root));
    assert!(!tree.contains(Frame { index: 1 }));
    assert_eq!(tree.get_mode(root), Mode::Root);
    assert_eq!(tree.get_geometry(root), Geometry::Floating);
    assert_eq!(tree.get_parent(root), None);
    assert_eq!(tree.get_sid(root), SurfaceId::invalid());
    assert_eq!(tree.count_children(root), 0);
    assert_eq!(tree.get_area(root), area(0, 0, 0, 0));
}

#[test]
fn a_frame_is_a_leaf_exactly_when_it_shows_a_surface() {
    let (mut tree, mut coordinator, _display, workspace) = tree_with_workspace(Geometry::Vertical);
    let container = tree.new_container(Geometry::Horizontal);
    tree.settle(container, workspace, &mut coordinator);
    add_leaves(&mut tree, &mut coordinator, container, 2);
    for index in 0..tree.nodes.len() {
        let frame = Frame { index };
        assert_eq!(tree.get_mode(frame) == Mode::Leaf, tree.get_sid(frame).is_valid());
    }
    assert_eq!(tree.get_mode(container), Mode::Container);
    assert_eq!(tree.get_mode(workspace), Mode::Workspace);
    assert!(Mode::Workspace.is_top());
    assert!(Mode::Display.is_top());
    assert!(!Mode::Root.is_top());
    assert!(!Mode::Container.is_top());
    assert!(!Mode::Leaf.is_top());
}

#[test]
fn both_orders_hold_the_same_children() {
    let (mut tree, mut coordinator, _display, workspace) = tree_with_workspace(Geometry::Vertical);
    let leaves = add_leaves(&mut tree, &mut coordinator, workspace, 4);
    tree.remove_self(leaves[1], &mut coordinator);
    let in_space = children(&tree, workspace);
    let in_time = children_by_use(&tree, workspace);
    assert_eq!(in_space, vec![leaves[0], leaves[2], leaves[3]]);
    assert_eq!(in_time, vec![leaves[3], leaves[2], leaves[0]]);
    let mut sorted_space: Vec<usize> = in_space.iter().map(|frame| frame.index).collect();
    let mut sorted_time: Vec<usize> = in_time.iter().map(|frame| frame.index).collect();
    sorted_space.sort();
    sorted_time.sort();
    assert_eq!(sorted_space, sorted_time);
}

#[test]
fn append_and_prepend_place_the_child() {
    let mut tree = FrameTree::new_root();
    let container = tree.new_container(Geometry::Horizontal);
    let a = tree.new_container(Geometry::Vertical);
    let b = tree.new_container(Geometry::Vertical);
    let c = tree.new_container(Geometry::Vertical);
    tree.append(container, a);
    tree.append(container, b);
    tree.prepend(container, c);
    assert_eq!(children(&tree, container), vec![c, a, b]);
    assert_eq!(children_by_use(&tree, container), vec![c, b, a]);
    assert_eq!(tree.get_parent(a), Some(container));
    assert_eq!(tree.get_prev_space(a), Some(c));
    assert_eq!(tree.get_next_space(a), Some(b));
    assert_eq!(tree.get_prev_space(c), None);
    assert_eq!(tree.get_next_space(b), None);
    assert_eq!(tree.get_prev_space(container), None);
    assert_eq!(tree.get_next_space(container), None);
    tree.remove(a);
    assert_eq!(children(&tree, container), vec![c, b]);
    assert_eq!(children_by_use(&tree, container), vec![c, b]);
    assert_eq!(tree.get_parent(a), None);
    // A frame without a parent stays as it is.
    tree.remove(a);
    assert_eq!(tree.get_parent(a), None);
    assert_eq!(children(&tree, container), vec![c, b]);
}

#[test]
fn settle_puts_a_frame_on_top_of_a_stack_and_behind_a_row() {
    let (mut tree, mut coordinator, _display, stack) = tree_with_workspace(Geometry::Stacked);
    let leaves = add_leaves(&mut tree, &mut coordinator, stack, 3);
    assert_eq!(children(&tree, stack), vec![leaves[2], leaves[1], leaves[0]]);
    assert_eq!(children_by_use(&tree, stack), vec![leaves[2], leaves[1], leaves[0]]);
    for leaf in leaves.iter() {
        assert_eq!(tree.get_area(*leaf), area(100, 50, 900, 600));
    }
    let (mut tree, mut coordinator, _display, row) = tree_with_workspace(Geometry::Horizontal);
    let leaves = add_leaves(&mut tree, &mut coordinator, row, 3);
    assert_eq!(children(&tree, row), leaves);
    assert_eq!(children_by_use(&tree, row), vec![leaves[2], leaves[1], leaves[0]]);
}

#[test]
fn homogenize_divides_a_vertical_frame() {
    let (mut tree, mut coordinator, _display, workspace) = tree_with_workspace(Geometry::Vertical);
    let leaves = add_leaves(&mut tree, &mut coordinator, workspace, 3);
    tree.homogenize(workspace, &mut coordinator);
    assert_eq!(tree.get_area(leaves[0]), area(100, 50, 900, 200));
    assert_eq!(tree.get_area(leaves[1]), area(100, 250, 900, 200));
    assert_eq!(tree.get_area(leaves[2]), area(100, 450, 900, 200));
    assert_eq!(tree.get_area(workspace), area(100, 50, 900, 600));
    // The children divide the area: every point of the frame lies in one child.
    let points = [(100, 50), (999, 249), (100, 250), (500, 449), (999, 649)];
    for (x, y) in points {
        let point = Position::new(x, y);
        assert!(tree.get_area(workspace).contains(&point));
        let holding = leaves.iter().filter(|leaf| tree.get_area(**leaf).contains(&point)).count();
        assert_eq!(holding, 1);
    }
    for (x, y) in [(99, 50), (1000, 50), (100, 49), (100, 650)] {
        let point = Position::new(x, y);
        assert!(!tree.get_area(workspace).contains(&point));
        assert!(leaves.iter().all(|leaf| !tree.get_area(*leaf).contains(&point)));
    }
}

#[test]
fn homogenize_divides_a_horizontal_frame() {
    let (mut tree, mut coordinator, _display, workspace) =
        tree_with_workspace(Geometry::Horizontal);
    let leaves = add_leaves(&mut tree, &mut coordinator, workspace, 2);
    assert_eq!(tree.get_area(leaves[0]), area(100, 50, 450, 600));
    assert_eq!(tree.get_area(leaves[1]), area(550, 50, 450, 600));
}

#[test]
fn homogenize_leaves_the_rest_of_an_uneven_division() {
    let mut coordinator = InnerCoordinator::new();
    let mut tree = FrameTree::new_root();
    let root = tree.root();
    let display = tree.new_display(area(0, 0, 10, 5));
    tree.settle(display, root, &mut coordinator);
    let workspace = tree.new_workspace(Geometry::Vertical);
    tree.settle(workspace, display, &mut coordinator);
    let leaves = add_leaves(&mut tree, &mut coordinator, workspace, 2);
    assert_eq!(tree.get_area(leaves[0]), area(0, 0, 10, 2));
    assert_eq!(tree.get_area(leaves[1]), area(0, 2, 10, 2));
    // The last row of the frame belongs to no child.
    let point = Position::new(0, 4);
    assert!(tree.get_area(workspace).contains(&point));
    assert!(leaves.iter().all(|leaf| !tree.get_area(*leaf).contains(&point)));
}

#[test]
fn homogenize_of_an_empty_frame_changes_nothing() {
    let (mut tree, mut coordinator, display, workspace) = tree_with_workspace(Geometry::Vertical);
    coordinator.take_emitted();
    let before: Vec<Area> = tree.areas.clone();
    tree.homogenize(workspace, &mut coordinator);
    tree.relax(workspace, &mut coordinator);
    assert_eq!(tree.areas, before);
    assert!(coordinator.take_emitted().is_empty());
    assert_eq!(tree.count_children(workspace), 0);
    assert_eq!(tree.get_parent(workspace), Some(display));
}

#[test]
fn homogenize_of_a_floating_frame_changes_nothing() {
    let mut coordinator = InnerCoordinator::new();
    let mut tree = FrameTree::new_root();
    let root = tree.root();
    let first = tree.new_display(area(0, 0, 800, 600));
    let second = tree.new_display(area(800, 0, 1024, 768));
    tree.settle(first, root, &mut coordinator);
    tree.settle(second, root, &mut coordinator);
    tree.homogenize(root, &mut coordinator);
    assert_eq!(tree.get_area(first), area(0, 0, 800, 600));
    assert_eq!(tree.get_area(second), area(800, 0, 1024, 768));
    assert_eq!(tree.get_area(root), area(0, 0, 0, 0));
    assert!(coordinator.take_emitted().is_empty());
}

#[test]
fn set_position_moves_the_contents_rigidly() {
    let (mut tree, mut coordinator, _display, workspace) = tree_with_workspace(Geometry::Vertical);
    let leaves = add_leaves(&mut tree, &mut coordinator, workspace, 2);
    let before: Vec<Area> = tree.areas.clone();
    let target = Position::new(-20, 1000);
    tree.set_position(workspace, target);
    assert_eq!(tree.get_position(workspace), target);
    tree.set_plumbing_position(tree.root(), Position::new(3, 4));
    tree.set_plumbing_size(tree.root(), Size::new(5, 6));
    assert_eq!(tree.get_area(tree.root()), area(3, 4, 5, 6));
    tree.set_plumbing_position(tree.root(), Position::new(0, 0));
    tree.set_plumbing_size(tree.root(), Size::new(0, 0));
    for frame in [workspace, leaves[0], leaves[1]] {
        let old = before[frame.index];
        assert_eq!(tree.get_size(frame), old.size);
        assert_eq!(tree.get_position(frame), Position::new(old.pos.x - 120, old.pos.y + 950));
    }
    // What lies outside the frame stays where it was.
    assert_eq!(tree.get_area(tree.root()), before[0]);
    assert_eq!(tree.get_area(Frame { index: 1 }), before[1]);
}

#[test]
fn move_with_contents_adds_the_vector() {
    let (mut tree, mut coordinator, display, workspace) = tree_with_workspace(Geometry::Vertical);
    let leaves = add_leaves(&mut tree, &mut coordinator, workspace, 1);
    tree.move_with_contents(display, Position::new(5, -7));
    assert_eq!(tree.get_area(display), area(105, 43, 900, 600));
    assert_eq!(tree.get_area(workspace), area(105, 43, 900, 600));
    assert_eq!(tree.get_area(leaves[0]), area(105, 43, 900, 600));
    assert_eq!(tree.get_area(tree.root()), area(0, 0, 0, 0));
    // Moving there and back leaves everything where it was, also across the end of the
    // range of the coordinates.
    tree.move_with_contents(display, Position::new(isize::MAX, isize::MAX));
    tree.move_with_contents(display, Position::new(isize::MIN, isize::MIN));
    tree.move_with_contents(display, Position::new(1, 1));
    assert_eq!(tree.get_area(leaves[0]), area(105, 43, 900, 600));
}

#[test]
fn set_size_resizes_the_children() {
    let (mut tree, mut coordinator, _display, workspace) = tree_with_workspace(Geometry::Vertical);
    let leaves = add_leaves(&mut tree, &mut coordinator, workspace, 2);
    coordinator.take_emitted();

    // Only the width changes: the children keep their heights and places.
    tree.set_size(workspace, Size::new(500, 600), &mut coordinator);
    assert_eq!(tree.get_size(workspace), Size::new(500, 600));
    assert_eq!(tree.get_area(leaves[0]), area(100, 50, 500, 300));
    assert_eq!(tree.get_area(leaves[1]), area(100, 350, 500, 300));
    let first = tree.get_sid(leaves[0]);
    let second = tree.get_sid(leaves[1]);
    assert_eq!(
        coordinator.take_emitted(),
        vec![Perceptron::SurfaceReconfigured(first), Perceptron::SurfaceReconfigured(second)]
    );
    assert_eq!(coordinator.get_surface(first).unwrap().desired_size, Size::new(500, 300));
    assert_eq!(coordinator.get_surface(first).unwrap().state_flags, MAXIMIZED);

    // The height changes: the frame is divided anew.
    tree.set_size(workspace, Size::new(500, 400), &mut coordinator);
    assert_eq!(tree.get_area(workspace), area(100, 50, 500, 400));
    assert_eq!(tree.get_area(leaves[0]), area(100, 50, 500, 200));
    assert_eq!(tree.get_area(leaves[1]), area(100, 250, 500, 200));
    assert_eq!(coordinator.get_surface(second).unwrap().desired_size, Size::new(500, 200));
}

#[test]
fn set_size_twice_asks_nothing_more() {
    let (mut tree, mut coordinator, _display, workspace) = tree_with_workspace(Geometry::Vertical);
    let container = tree.new_container(Geometry::Horizontal);
    tree.settle(container, workspace, &mut coordinator);
    add_leaves(&mut tree, &mut coordinator, container, 3);
    add_leaves(&mut tree, &mut coordinator, workspace, 1);
    tree.set_size(workspace, Size::new(640, 480), &mut coordinator);
    assert_eq!(tree.get_size(workspace), Size::new(640, 480));
    let once: Vec<Area> = tree.areas.clone();
    assert!(!coordinator.take_emitted().is_empty());
    tree.set_size(workspace, Size::new(640, 480), &mut coordinator);
    assert_eq!(tree.areas, once);
    assert!(coordinator.take_emitted().is_empty());
}

#[test]
fn set_size_reaches_nested_frames() {
    let (mut tree, mut coordinator, _display, workspace) =
        tree_with_workspace(Geometry::Horizontal);
    let column = tree.new_container(Geometry::Vertical);
    tree.settle(column, workspace, &mut coordinator);
    let inner = add_leaves(&mut tree, &mut coordinator, column, 2);
    let outer = add_leaves(&mut tree, &mut coordinator, workspace, 1);
    assert_eq!(tree.get_area(column), area(100, 50, 450, 600));
    assert_eq!(tree.get_area(inner[0]), area(100, 50, 450, 300));
    assert_eq!(tree.get_area(inner[1]), area(100, 350, 450, 300));
    assert_eq!(tree.get_area(outer[0]), area(550, 50, 450, 600));
    tree.set_size(workspace, Size::new(600, 200), &mut coordinator);
    assert_eq!(tree.get_area(column), area(100, 50, 300, 200));
    assert_eq!(tree.get_area(inner[0]), area(100, 50, 300, 100));
    assert_eq!(tree.get_area(inner[1]), area(100, 150, 300, 100));
    assert_eq!(tree.get_area(outer[0]), area(400, 50, 300, 200));
}

#[test]
fn remove_self_lets_the_siblings_take_the_space() {
    let (mut tree, mut coordinator, _display, workspace) = tree_with_workspace(Geometry::Vertical);
    let leaves = add_leaves(&mut tree, &mut coordinator, workspace, 3);
    tree.remove_self(leaves[0], &mut coordinator);
    assert_eq!(children(&tree, workspace), vec![leaves[1], leaves[2]]);
    assert_eq!(tree.get_area(leaves[1]), area(100, 50, 900, 300));
    assert_eq!(tree.get_area(leaves[2]), area(100, 350, 900, 300));
    assert_eq!(tree.get_parent(leaves[0]), None);
    // A frame without a parent is left as it is.
    let before: Vec<Area> = tree.areas.clone();
    coordinator.take_emitted();
    tree.remove_self(leaves[0], &mut coordinator);
    assert_eq!(tree.areas, before);
    assert!(coordinator.take_emitted().is_empty());
}

#[test]
fn find_buildable_on_a_leaf_and_on_other_frames() {
    let (mut tree, mut coordinator, display, workspace) = tree_with_workspace(Geometry::Vertical);
    let leaves = add_leaves(&mut tree, &mut coordinator, workspace, 1);
    assert_eq!(tree.find_buildable(leaves[0]), Some(workspace));
    assert_eq!(tree.find_buildable(workspace), Some(workspace));
    assert_eq!(tree.find_buildable(display), Some(display));
    assert_eq!(tree.find_buildable(tree.root()), Some(tree.root()));
    let sid = coordinator.create_surface();
    let loose = tree.new_leaf(sid, Geometry::Vertical);
    assert_eq!(tree.find_buildable(loose), None);
}

#[test]
fn find_top_stops_at_the_nearest_display_or_workspace() {
    let (mut tree, mut coordinator, display, workspace) = tree_with_workspace(Geometry::Vertical);
    let container = tree.new_container(Geometry::Horizontal);
    tree.settle(container, workspace, &mut coordinator);
    let leaves = add_leaves(&mut tree, &mut coordinator, container, 1);
    assert_eq!(tree.find_top(leaves[0]), Some(workspace));
    assert_eq!(tree.find_top(container), Some(workspace));
    assert_eq!(tree.find_top(workspace), Some(workspace));
    assert_eq!(tree.find_top(display), Some(display));
    assert_eq!(tree.find_top(tree.root()), None);
    let loose = tree.new_container(Geometry::Vertical);
    assert_eq!(tree.find_top(loose), None);
    let loose_workspace = tree.new_workspace(Geometry::Vertical);
    assert_eq!(tree.find_top(loose_workspace), Some(loose_workspace));
}

#[test]
fn find_with_sid_finds_exactly_the_surfaces_shown() {
    let (mut tree, mut coordinator, _display, workspace) = tree_with_workspace(Geometry::Vertical);
    let container = tree.new_container(Geometry::Horizontal);
    tree.settle(container, workspace, &mut coordinator);
    let inner = add_leaves(&mut tree, &mut coordinator, container, 2);
    let outer = add_leaves(&mut tree, &mut coordinator, workspace, 1);
    let root = tree.root();
    for leaf in inner.iter().chain(outer.iter()) {
        let sid = tree.get_sid(*leaf);
        assert_eq!(tree.find_with_sid(root, sid), Some(*leaf));
    }
    assert_eq!(tree.find_with_sid(root, SurfaceId::new(99)), None);
    // The search stays below the frame from which it goes out.
    assert_eq!(tree.find_with_sid(container, tree.get_sid(outer[0])), None);
    assert_eq!(tree.find_with_sid(container, tree.get_sid(inner[1])), Some(inner[1]));
    assert_eq!(tree.find_with_sid(inner[0], tree.get_sid(inner[0])), Some(inner[0]));
    // No surface is shown by the first frame that shows none.
    assert_eq!(tree.find_with_sid(root, SurfaceId::invalid()), Some(root));
    // A leaf that was taken out is not found from the root.
    let gone = tree.get_sid(inner[0]);
    tree.remove_self(inner[0], &mut coordinator);
    assert_eq!(tree.find_with_sid(root, gone), None);
}

#[test]
fn find_pointed_descends_to_the_frame_under_the_point() {
    let (mut tree, mut coordinator, display, workspace) = tree_with_workspace(Geometry::Vertical);
    let leaves = add_leaves(&mut tree, &mut coordinator, workspace, 2);
    assert_eq!(tree.find_pointed(display, Position::new(150, 100)), leaves[0]);
    assert_eq!(tree.find_pointed(display, Position::new(150, 350)), leaves[1]);
    assert_eq!(tree.find_pointed(workspace, Position::new(999, 649)), leaves[1]);
    // A point outside is taken for the nearest point inside.
    assert_eq!(tree.find_pointed(display, Position::new(-5, -5)), leaves[0]);
    assert_eq!(tree.find_pointed(display, Position::new(5000, 5000)), leaves[1]);
    assert_eq!(tree.find_pointed(leaves[0], Position::new(150, 100)), leaves[0]);
    // A frame without children is its own answer.
    let (tree, _coordinator, display, workspace) = tree_with_workspace(Geometry::Vertical);
    assert_eq!(tree.find_pointed(display, Position::new(150, 100)), workspace);
    assert_eq!(tree.find_pointed(workspace, Position::new(150, 100)), workspace);
}

#[test]
fn find_pointed_stops_at_the_child_of_a_leaf() {
    let (mut tree, mut coordinator, _display, workspace) = tree_with_workspace(Geometry::Stacked);
    let leaves = add_leaves(&mut tree, &mut coordinator, workspace, 1);
    let sid = coordinator.create_surface();
    let satellite = tree.new_leaf(sid, Geometry::Stacked);
    tree.settle(satellite, leaves[0], &mut coordinator);
    let sid = coordinator.create_surface();
    let deeper = tree.new_leaf(sid, Geometry::Stacked);
    tree.settle(deeper, satellite, &mut coordinator);
    assert_eq!(tree.find_pointed(leaves[0], Position::new(150, 100)), satellite);
    assert_eq!(tree.find_pointed(workspace, Position::new(150, 100)), satellite);
}

#[test]
fn find_contiguous_walks_along_the_layout() {
    let (mut tree, mut coordinator, _display, workspace) = tree_with_workspace(Geometry::Vertical);
    let row = tree.new_container(Geometry::Horizontal);
    tree.settle(row, workspace, &mut coordinator);
    let inner = add_leaves(&mut tree, &mut coordinator, row, 3);
    let below = add_leaves(&mut tree, &mut coordinator, workspace, 1);
    for direction in
        [Direction::North, Direction::East, Direction::South, Direction::West, Direction::Up]
    {
        assert_eq!(tree.find_contiguous(inner[1], direction, 0), Some(inner[1]));
        assert_eq!(tree.find_contiguous(workspace, direction, 0), Some(workspace));
    }
    assert_eq!(tree.find_contiguous(inner[1], Direction::East, 1), Some(inner[2]));
    assert_eq!(tree.find_contiguous(inner[1], Direction::West, 1), Some(inner[0]));
    assert_eq!(tree.find_contiguous(inner[0], Direction::East, 2), Some(inner[2]));
    // Where the row has no neighbour the walk climbs and goes on there.
    assert_eq!(tree.find_contiguous(inner[1], Direction::South, 1), Some(below[0]));
    assert_eq!(tree.find_contiguous(below[0], Direction::North, 1), Some(row));
    // At the workspace the walk ends without a result.
    assert_eq!(tree.find_contiguous(inner[2], Direction::East, 1), None);
    assert_eq!(tree.find_contiguous(inner[1], Direction::North, 1), None);
    assert_eq!(tree.find_contiguous(below[0], Direction::South, 1), None);
    assert_eq!(tree.find_contiguous(inner[0], Direction::East, 3), None);
    // Upwards every climb is a step.
    assert_eq!(tree.find_contiguous(inner[1], Direction::Up, 1), Some(row));
    assert_eq!(tree.find_contiguous(inner[1], Direction::Up, 2), None);
    // A frame without a parent has no neighbour.
    assert_eq!(tree.find_contiguous(tree.root(), Direction::Up, 1), None);
}

#[test]
fn find_adjacent_slides_to_the_nearest_frame() {
    let (mut tree, mut coordinator, _display, workspace) = tree_with_workspace(Geometry::Vertical);
    let upper = tree.new_container(Geometry::Horizontal);
    tree.settle(upper, workspace, &mut coordinator);
    let lower = tree.new_container(Geometry::Horizontal);
    tree.settle(lower, workspace, &mut coordinator);
    let top = add_leaves(&mut tree, &mut coordinator, upper, 3);
    let bottom = add_leaves(&mut tree, &mut coordinator, lower, 3);
    assert_eq!(tree.get_area(top[2]), area(700, 50, 300, 300));
    assert_eq!(tree.get_area(bottom[2]), area(700, 350, 300, 300));
    assert_eq!(tree.find_adjacent(top[2], Direction::South, 0), Some(top[2]));
    // One step down from the last frame of the upper row leads to the frame below it.
    assert_eq!(tree.find_adjacent(top[2], Direction::South, 1), Some(bottom[2]));
    assert_eq!(tree.find_adjacent(top[0], Direction::South, 1), Some(bottom[0]));
    assert_eq!(tree.find_adjacent(bottom[1], Direction::North, 1), Some(top[1]));
    assert_eq!(tree.find_adjacent(top[0], Direction::East, 2), Some(top[2]));
    assert_eq!(tree.find_adjacent(top[0], Direction::West, 1), None);
    assert_eq!(tree.find_adjacent(top[0], Direction::South, 2), None);
}

#[test]
fn set_size_leaves_the_children_of_a_floating_frame() {
    let mut coordinator = InnerCoordinator::new();
    let mut tree = FrameTree::new_root();
    let root = tree.root();
    let first = tree.new_display(area(0, 0, 800, 600));
    let second = tree.new_display(area(800, 0, 1024, 768));
    tree.settle(first, root, &mut coordinator);
    tree.settle(second, root, &mut coordinator);
    let workspace = tree.new_workspace(Geometry::Vertical);
    tree.settle(workspace, first, &mut coordinator);
    let leaves = add_leaves(&mut tree, &mut coordinator, workspace, 2);
    coordinator.take_emitted();
    let before: Vec<Area> = tree.areas.clone();

    tree.set_size(root, Size::new(3000, 2000), &mut coordinator);

    assert_eq!(tree.get_size(root), Size::new(3000, 2000));
    assert_eq!(tree.get_position(root), Position::new(0, 0));
    for frame in [first, second, workspace, leaves[0], leaves[1]] {
        assert_eq!(tree.get_area(frame), before[frame.index]);
    }
    // Nothing is asked of the surfaces below.
    assert!(coordinator.take_emitted().is_empty());
}

#[test]
fn set_size_gives_the_children_of_a_stacked_frame_its_area() {
    let (mut tree, mut coordinator, display, workspace) = tree_with_workspace(Geometry::Vertical);
    let leaves = add_leaves(&mut tree, &mut coordinator, workspace, 2);
    // The workspace is put elsewhere by hand, and comes back with the next resize.
    tree.set_position(workspace, Position::new(7, 7));
    assert_eq!(tree.get_area(leaves[1]), area(7, 307, 900, 300));
    // The size of the display stays the same: a stacked frame settles anew all the same.
    tree.set_size(display, Size::new(900, 600), &mut coordinator);
    assert_eq!(tree.get_area(display), area(100, 50, 900, 600));
    assert_eq!(tree.get_area(workspace), area(100, 50, 900, 600));
    assert_eq!(tree.get_area(leaves[0]), area(100, 50, 900, 300));
    assert_eq!(tree.get_area(leaves[1]), area(100, 350, 900, 300));
    tree.set_size(display, Size::new(400, 200), &mut coordinator);
    assert_eq!(tree.get_area(display), area(100, 50, 400, 200));
    assert_eq!(tree.get_area(workspace), area(100, 50, 400, 200));
    assert_eq!(tree.get_area(leaves[0]), area(100, 50, 400, 100));
    assert_eq!(tree.get_area(leaves[1]), area(100, 150, 400, 100));
}

#[test]
fn a_floating_frame_below_keeps_its_children_and_moves_with_them() {
    let (mut tree, mut coordinator, _display, workspace) =
        tree_with_workspace(Geometry::Horizontal);
    let floating = tree.new_container(Geometry::Floating);
    tree.settle(floating, workspace, &mut coordinator);
    let inner = tree.new_container(Geometry::Vertical);
    tree.append(floating, inner);
    tree.set_plumbing_position(inner, Position::new(120, 60));
    tree.set_plumbing_size(inner, Size::new(50, 40));
    add_leaves(&mut tree, &mut coordinator, workspace, 1);
    // The floating frame got the left half; what it holds kept its size and moved along.
    assert_eq!(tree.get_area(floating), area(100, 50, 450, 600));
    assert_eq!(tree.get_area(inner), area(120, 60, 50, 40));
    tree.set_position(workspace, Position::new(200, 50));
    assert_eq!(tree.get_area(floating), area(200, 50, 450, 600));
    assert_eq!(tree.get_area(inner), area(220, 60, 50, 40));
    tree.set_size(workspace, Size::new(600, 600), &mut coordinator);
    assert_eq!(tree.get_area(floating), area(200, 50, 300, 600));
    assert_eq!(tree.get_area(inner), area(220, 60, 50, 40));
}
