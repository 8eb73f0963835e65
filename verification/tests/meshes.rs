use kinematic::line::{
    closed_cone_triangles, closed_cylinder_triangles, validate_line_sides, ConeCorner,
    CylinderCorner,
};
use kinematic::prism::{self, cube, cylinder, prism_triangles, tetrahedron, PrismCorner, PrismShape};
use kinematic::pyramid::{self, cone, pyramid_triangles, PyramidCorner, PyramidShape};
use kinematic::regular_polygon::{
    self, circle_3d, polygon_triangles, regular_polygon_angles, square, square_3d, triangle,
    triangle_3d, RegularPolygon3DShape,
};
use kinematic::torus::{torus_indices, validate_segments};

fn regular_polygon_vertices(sides: u32) -> Option<Vec<(f32, f32)>> {
    let numerators = regular_polygon_angles(sides)?;
    let angles: Vec<f32> = numerators
        .iter()
        .map(|numerator| std::f32::consts::PI * *numerator as f32 / sides as f32)
        .collect();
    let maximum_coordinate = angles
        .iter()
        .map(|angle| angle.cos().abs().max(angle.sin().abs()))
        .fold(0.0, f32::max);
    let radius = 0.5 / maximum_coordinate;
    Some(
        angles
            .into_iter()
            .map(|angle| (radius * angle.cos(), radius * angle.sin()))
            .collect(),
    )
}

#[test]
fn regular_polygon_vertices_validate_sides_and_fill_the_default_bounds() {
    assert!(regular_polygon_vertices(2).is_none());
    assert_eq!(regular_polygon_vertices(3).unwrap().len(), 3);

    let square = regular_polygon_vertices(4).unwrap();
    for vertex in square {
        assert!((vertex.0.abs() - 0.5).abs() <= f32::EPSILON);
        assert!((vertex.1.abs() - 0.5).abs() <= f32::EPSILON);
    }
}

#[test]
fn prism_defaults_to_four_sides_and_rejects_less_than_three() {
    assert_eq!(PrismShape::default().sides, 4);
    assert_eq!(prism_triangles(4, true, true).len(), 12);
    assert_eq!(prism_triangles(4, false, false).len(), 8);
    assert!(prism::validate_sides(2).is_err());
    assert!(prism::validate_sides(3).is_ok());
}

#[test]
fn pyramid_defaults_to_four_sides_and_rejects_less_than_three() {
    assert_eq!(PyramidShape::default().sides, 4);
    assert_eq!(pyramid_triangles(4, false).len(), 4);
    assert!(pyramid::validate_sides(2).is_err());
    assert!(pyramid::validate_sides(3).is_ok());
}

#[test]
fn regular_polygon_3d_defaults_to_four_sides_and_rejects_less_than_three() {
    assert_eq!(RegularPolygon3DShape::default().sides, 4);
    assert_eq!(polygon_triangles(4).len(), 2);
    assert!(regular_polygon::validate_sides(2).is_err());
    assert!(regular_polygon::validate_sides(3).is_ok());
}

#[test]
fn line_meshes_include_end_caps() {
    assert_eq!(closed_cylinder_triangles(32).len(), 128);
    assert_eq!(closed_cone_triangles(32).len(), 64);
}

#[test]
fn prism_presets_set_cube_and_cylinder_sides() {
    assert_eq!(cube().object.shape.sides, 4);
    assert_eq!(cylinder().object.shape.sides, 32);
    assert_eq!(tetrahedron().object.shape.sides, 3);
    assert_eq!(prism_triangles(3, true, true).len(), 8);
}

#[test]
fn cone_preset_uses_32_sides() {
    assert_eq!(cone().object.shape.sides, 32);
    assert_eq!(pyramid_triangles(3, true).len(), 4);
}

#[test]
fn polygon_3d_presets_set_triangle_and_square_sides() {
    assert_eq!(triangle_3d().object.shape.sides, 3);
    assert_eq!(square_3d().object.shape.sides, 4);
    assert_eq!(circle_3d().object.shape.sides, 32);
    assert_eq!(polygon_triangles(3).len(), 1);
}

#[test]
fn polygon_presets_set_triangle_and_square_sides() {
    assert_eq!(triangle().object.shape.sides, 3);
    assert_eq!(square().object.shape.sides, 4);
}

#[test]
fn torus_mesh_has_two_triangles_per_segment_quad() {
    let indices = torus_indices(12, 8);
    assert_eq!(indices.len() / 3, 12 * 8 * 2);
    assert_eq!(*indices.iter().max().unwrap() as usize + 1, 12 * 8);
    assert!(validate_segments(2, 8).is_err());
    assert!(validate_segments(8, 2).is_err());
}

#[test]
fn prism_triangles_list_caps_before_walls() {
    let triangles = prism_triangles(3, true, true);
    assert_eq!(
        triangles[0],
        (PrismCorner::Bottom(0), PrismCorner::Bottom(1), PrismCorner::Bottom(2))
    );
    assert_eq!(
        triangles[1],
        (PrismCorner::Top(0), PrismCorner::Top(2), PrismCorner::Top(1))
    );
    assert_eq!(
        triangles[7],
        (PrismCorner::Top(2), PrismCorner::Top(0), PrismCorner::Bottom(0))
    );
    let top_only = prism_triangles(4, true, false);
    assert_eq!(top_only.len(), 10);
    assert_eq!(
        top_only[0],
        (PrismCorner::Top(0), PrismCorner::Top(2), PrismCorner::Top(1))
    );
}

#[test]
fn pyramid_sides_meet_at_the_apex() {
    let triangles = pyramid_triangles(4, true);
    assert_eq!(triangles.len(), 6);
    assert_eq!(
        triangles[5],
        (PyramidCorner::Base(3), PyramidCorner::Apex, PyramidCorner::Base(0))
    );
}

#[test]
fn cylinder_and_cone_segments_close_their_rings() {
    let cylinder = closed_cylinder_triangles(3);
    assert_eq!(
        cylinder[8],
        (CylinderCorner::Start(2), CylinderCorner::Start(3), CylinderCorner::End(3))
    );
    assert_eq!(
        cylinder[11],
        (CylinderCorner::EndCenter, CylinderCorner::End(2), CylinderCorner::End(3))
    );
    let cone = closed_cone_triangles(3);
    assert_eq!(
        cone[1],
        (ConeCorner::BaseCenter, ConeCorner::Base(1), ConeCorner::Base(0))
    );
}

#[test]
fn torus_quads_wrap_around_both_rings() {
    let indices = torus_indices(3, 4);
    assert_eq!(&indices[0..6], &[0, 1, 5, 0, 5, 4]);
    let last = &indices[indices.len() - 6..];
    assert_eq!(last, &[11, 8, 0, 11, 0, 3]);
}

#[test]
fn geometry_variants_pack_sides_and_flags() {
    assert_eq!(prism::geometry_variant(5, true, false), 5 | 1 << 32);
    assert_eq!(prism::geometry_variant(5, false, true), 5 | 1 << 33);
    assert_eq!(pyramid::geometry_variant(7, true), 7 | 1 << 32);
    assert_eq!(kinematic::line::geometry_variant(9, false), 9);
}

#[test]
fn side_validation_reports_the_offending_part() {
    assert_eq!(
        validate_line_sides(2, 2).unwrap_err(),
        "Line sides must be between 3 and 256."
    );
    assert_eq!(
        validate_line_sides(32, 257).unwrap_err(),
        "Arrow sides must be between 3 and 256."
    );
    assert!(validate_line_sides(3, 256).is_ok());
    assert_eq!(
        validate_segments(8, 300).unwrap_err(),
        "Torus minor segments must be between 3 and 256."
    );
    assert_eq!(
        regular_polygon::validate_sides(257).unwrap_err(),
        "Regular polygon sides must be between 3 and 256."
    );
}

#[test]
fn polygon_angles_start_half_a_step_after_pi() {
    assert_eq!(regular_polygon_angles(4).unwrap(), vec![-3, -1, 1, 3]);
    assert_eq!(regular_polygon_angles(3).unwrap(), vec![-2, 0, 2]);
    assert!(regular_polygon_angles(257).is_none());
}
