use kinematic::canvas::{canvas_2d, canvas_3d, CanvasDimension, CanvasSettings};
use kinematic::container::{
    check_child_type, get_child_entity, ChildError, LayoutDirection2D, LayoutDirection3D,
};
use kinematic::layering::children_by_z_index;
use kinematic::scene_tree::{AttachError, GroupError, SceneTree};

fn object_2d(tree: &mut SceneTree) -> usize {
    tree.spawn(false, None, false)
}

#[test]
fn containers_reject_cycles_and_multiple_parents() {
    let mut tree = SceneTree::new();
    let first = object_2d(&mut tree);
    let second = object_2d(&mut tree);
    let child = object_2d(&mut tree);

    assert_eq!(tree.attach_child(first, second), Ok(true));
    assert_eq!(tree.attach_child(second, child), Ok(true));

    let cycle = tree.attach_child(second, first);
    assert_eq!(cycle, Err(AttachError::Cycle));

    let duplicate = tree.attach_child(first, child);
    assert_eq!(duplicate, Err(AttachError::SecondContainer));
}

#[test]
fn derived_container_initializes_children_on_first_add() {
    let mut tree = SceneTree::new();
    let container = object_2d(&mut tree);
    let child = object_2d(&mut tree);

    assert!(tree.children(container).is_empty());
    assert_eq!(tree.attach_child(container, child), Ok(true));
    assert_eq!(tree.children(container), vec![child]);
    assert!(tree.is_attached(child));
    assert!(!tree.is_attached(container));
}

#[test]
fn objects_reject_multiple_parents() {
    let mut tree = SceneTree::new();
    let circle = object_2d(&mut tree);
    let first = object_2d(&mut tree);
    let second = object_2d(&mut tree);
    assert_eq!(tree.add_to_group(first, circle), Ok(true));
    let refused = tree.add_to_group(second, circle).unwrap_err();
    assert_eq!(refused, GroupError::SecondGroup);
    assert_eq!(
        refused.message(),
        "An object must not belong to more than one group."
    );
}

#[test]
fn groups_reject_cycles() {
    let mut tree = SceneTree::new();
    let parent = object_2d(&mut tree);
    let child = object_2d(&mut tree);
    assert_eq!(tree.add_to_group(parent, child), Ok(true));
    let refused = tree.add_to_group(child, parent).unwrap_err();
    assert_eq!(refused, GroupError::Cycle);
    assert_eq!(
        refused.message(),
        "Adding this object would create a group cycle."
    );
}

#[test]
fn objects_reject_multiple_containers() {
    let mut tree = SceneTree::new();
    let circle = object_2d(&mut tree);
    let first = object_2d(&mut tree);
    let second = object_2d(&mut tree);
    assert_eq!(tree.attach_child(first, circle), Ok(true));
    let refused = tree.attach_child(second, circle).unwrap_err();
    assert_eq!(
        refused.message(),
        "An object must not belong to more than one container."
    );
}

#[test]
fn groups_take_any_object_once_and_refuse_the_root_and_themselves() {
    let mut tree = SceneTree::new();
    let root = tree.spawn(true, None, false);
    let canvas = tree.spawn(false, Some(CanvasDimension::Three), false);
    let group = object_2d(&mut tree);
    let solid = tree.spawn(false, None, true);
    assert_eq!(tree.add_to_group(group, canvas), Ok(true));
    assert_eq!(tree.add_to_group(group, solid), Ok(true));
    assert_eq!(tree.add_to_group(group, solid), Ok(false));
    assert_eq!(tree.children(group), vec![canvas, solid]);
    assert_eq!(
        tree.add_to_group(group, group).unwrap_err().message(),
        "A group must not be added as its own child."
    );
    assert_eq!(tree.add_to_group(group, root), Err(GroupError::RootAsChild));
    assert_eq!(
        tree.add_to_group(group, 99).unwrap_err().message(),
        "Added object must belong to this scene."
    );
}

#[test]
fn root_holds_only_canvases_and_spaces_do_not_mix() {
    let mut tree = SceneTree::new();
    let root = tree.spawn(true, None, false);
    let world_2d = tree.spawn(false, Some(CanvasDimension::Two), false);
    let world_3d = tree.spawn(false, Some(CanvasDimension::Three), false);
    let flat = object_2d(&mut tree);
    let solid = tree.spawn(false, None, true);

    assert_eq!(tree.attach_child(root, flat), Err(AttachError::ObjectAtRoot));
    assert_eq!(tree.attach_child(root, world_2d), Ok(true));
    assert_eq!(tree.attach_child(root, world_2d), Ok(false));
    assert_eq!(tree.attach_child(world_2d, world_3d), Err(AttachError::CanvasInContainer));
    assert_eq!(tree.attach_child(world_2d, solid), Err(AttachError::MixedDimensions));
    assert_eq!(tree.attach_child(world_3d, solid), Ok(true));
    assert_eq!(tree.attach_child(world_2d, flat), Ok(true));
    assert_eq!(tree.attach_child(flat, root), Err(AttachError::RootAsChild));
    assert_eq!(tree.attach_child(flat, flat), Err(AttachError::ItsOwnChild));
    assert_eq!(tree.attach_child(flat, 99), Err(AttachError::Foreign));
    assert_eq!(tree.subtree(world_2d), vec![world_2d, flat]);
    assert_eq!(tree.subtree(root), vec![root, world_2d, flat]);
    assert!(tree.contains_entity(root, flat));
    assert!(!tree.contains_entity(world_3d, flat));
}

#[test]
fn children_are_returned_by_index() {
    let children = vec![7_u64, 9, 11];
    assert_eq!(get_child_entity(&children, 1), Ok(9));
    assert_eq!(
        get_child_entity(&children, 3),
        Err(ChildError::NotFound { index: 3, len: 3 })
    );
    assert_eq!(
        check_child_type(2, "Rect", "Circle", false),
        Err(ChildError::TypeMismatch {
            index: 2,
            expected: "Rect",
            actual: "Circle"
        })
    );
    assert!(check_child_type(2, "Rect", "Rect", true).is_ok());
}

#[test]
fn layout_directions_default_to_horizontal() {
    assert_eq!(LayoutDirection2D::default(), LayoutDirection2D::Horizontal);
    assert_eq!(LayoutDirection3D::default(), LayoutDirection3D::Horizontal);
}

#[test]
fn higher_z_index_draws_later_and_ties_keep_insertion_order() {
    assert_eq!(children_by_z_index(&vec![0, 0, 0]), vec![0, 1, 2]);
    assert_eq!(children_by_z_index(&vec![2, -1, 2, 0]), vec![1, 3, 0, 2]);
    assert!(children_by_z_index(&vec![]).is_empty());
}

#[test]
fn canvases_require_explicit_resolution() {
    let unset = canvas_2d();
    assert!(unset.object.settings.validate().is_err());
    let canvas = canvas_2d().resolution((1920, 1080));
    assert!(canvas.object.settings.validate().is_ok());
    assert_eq!(canvas.object.settings.resolution(), (1920, 1080));
    let too_wide = canvas_3d().resolution((u32::MAX, 20));
    assert_eq!(
        too_wide.object.settings.validate().unwrap_err(),
        "Canvas resolution must be explicitly set to positive i32 dimensions."
    );
    assert_eq!(too_wide.object.settings.dimension, CanvasDimension::Three);
    let settings = CanvasSettings::new(CanvasDimension::Two);
    assert_eq!(settings.resolution(), (0, 0));
}
