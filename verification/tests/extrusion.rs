use kinematic::extrusion::{boundary_edges, extrusion_face_indices, side_vertex_numbers, side_wall_indices};

#[test]
fn square_outline_extrudes_front_and_reversed_back_faces() {
    let triangles = vec![(0, 1, 2), (0, 2, 3)];
    assert_eq!(
        extrusion_face_indices(&triangles, 4),
        vec![0, 1, 2, 4, 6, 5, 0, 2, 3, 4, 7, 6]
    );
}

#[test]
fn shared_diagonal_is_not_a_boundary_edge() {
    let triangles = vec![(0, 1, 2), (0, 2, 3)];
    assert_eq!(boundary_edges(&triangles), vec![(0, 1), (1, 2), (2, 3), (3, 0)]);
}

#[test]
fn lone_triangle_has_three_boundary_edges_and_six_side_indices_each() {
    let triangles = vec![(0, 1, 2)];
    let boundary = boundary_edges(&triangles);
    assert_eq!(boundary, vec![(0, 1), (1, 2), (2, 0)]);
    let walls = side_wall_indices(&boundary, &vec![6, 8, 10]);
    assert_eq!(
        walls,
        vec![6, 7, 9, 6, 9, 8, 8, 9, 11, 8, 11, 10, 10, 11, 7, 10, 7, 6]
    );
}

#[test]
fn empty_outline_has_no_indices() {
    let triangles: Vec<(u32, u32, u32)> = vec![];
    assert!(extrusion_face_indices(&triangles, 0).is_empty());
    assert!(boundary_edges(&triangles).is_empty());
}

#[test]
fn side_vertices_follow_the_faces_in_boundary_order() {
    let triangles = vec![(0, 1, 4), (1, 2, 4), (2, 3, 4), (3, 0, 4)];
    let boundary = boundary_edges(&triangles);
    assert_eq!(boundary, vec![(0, 1), (1, 2), (2, 3), (3, 0)]);
    let (order, front) = side_vertex_numbers(&boundary, 5);
    assert_eq!(order, vec![0, 1, 2, 3]);
    assert_eq!(front, vec![10, 12, 14, 16, 0]);
    let walls = side_wall_indices(&boundary, &front);
    assert_eq!(&walls[..6], &[10, 11, 13, 10, 13, 12]);
    assert_eq!(walls.len(), 24);
}
