use tree_growth::branch::Branch;
use tree_growth::mesh::{base_scale, base_vertices, create_mesh, triangle_indices, SEGMENTS};
use tree_growth::trig::unit_circle_point;
use tree_growth::units::TAU;

#[test]
fn circle_point_at_the_quarter_turns() {
    assert_eq!(unit_circle_point(0), (1_000_000, 0));
    assert_eq!(unit_circle_point(1_570_796), (0, 1_000_000));
    assert_eq!(unit_circle_point(3_141_592), (-1_000_000, 0));
    assert_eq!(unit_circle_point(4_712_388), (0, -1_000_000));
    assert_eq!(unit_circle_point(TAU - 1), (1_000_000, 0));
}

#[test]
fn circle_point_exact_values() {
    assert_eq!(unit_circle_point(785_398), (707_107, 707_107));
    assert_eq!(unit_circle_point(1_000_000), (540_302, 841_472));
    assert_eq!(unit_circle_point(1_256_637), (309_016, 951_058));
}

#[test]
fn circle_point_is_close_to_the_real_one() {
    let mut angle: i64 = 0;
    while angle < TAU {
        let (cos, sin) = unit_circle_point(angle);
        let a = angle as f64 / 1e6;
        assert!((cos as f64 - a.cos() * 1e6).abs() < 4.0, "angle {}", angle);
        assert!((sin as f64 - a.sin() * 1e6).abs() < 4.0, "angle {}", angle);
        angle += 997;
    }
}

#[test]
fn base_scale_has_a_floor() {
    assert_eq!(base_scale(0), 50_000);
    assert_eq!(base_scale(-3_000_000), 50_000);
    assert_eq!(base_scale(450_000), 50_000);
    assert_eq!(base_scale(1_000_000), 50_000);
    assert_eq!(base_scale(1_648_722), 50_000);
}

#[test]
fn base_scale_follows_the_logarithm() {
    assert_eq!(base_scale(2_002_500), 69_439);
    assert_eq!(base_scale(3_453_876), 123_949);
    assert_eq!(base_scale(10_000_000), 230_258);
    assert_eq!(base_scale(200_000_000), 529_831);
}

#[test]
fn ring_of_five() {
    let ring = base_vertices(5, 50_000);
    assert_eq!(
        ring,
        vec![
            [50_000, 0, 0],
            [15_450, 0, 47_552],
            [-40_450, 0, 29_389],
            [-40_450, 0, -29_389],
            [15_450, 0, -47_552],
        ]
    );
}

#[test]
fn ring_of_none_and_of_one() {
    assert_eq!(base_vertices(0, 50_000), Vec::<[i64; 3]>::new());
    assert_eq!(base_vertices(1, 50_000), vec![[50_000, 0, 0]]);
}

#[test]
fn ring_of_radius_nil() {
    assert_eq!(base_vertices(3, 0), vec![[0, 0, 0], [0, 0, 0], [0, 0, 0]]);
}

#[test]
fn ring_lies_on_its_circle() {
    let scale: i64 = 124_000;
    for vertex in base_vertices(16, scale) {
        assert_eq!(vertex[1], 0);
        let radius = ((vertex[0] * vertex[0] + vertex[2] * vertex[2]) as f64).sqrt();
        assert!((radius - scale as f64).abs() < 3.0);
    }
}

#[test]
fn fan_of_five() {
    assert_eq!(triangle_indices(5), vec![5, 1, 0, 5, 2, 1, 5, 3, 2, 5, 4, 3, 5, 0, 4]);
}

#[test]
fn fan_of_one_and_of_three() {
    assert_eq!(triangle_indices(1), vec![1, 0, 0]);
    assert_eq!(triangle_indices(3), vec![3, 1, 0, 3, 2, 1, 3, 0, 2]);
}

#[test]
fn mesh_of_a_short_branch() {
    let mesh = create_mesh(450_000);
    assert_eq!(mesh.vertices.len(), SEGMENTS + 1);
    assert_eq!(
        mesh.vertices,
        vec![
            [50_000, 0, 0],
            [15_450, 0, 47_552],
            [-40_450, 0, 29_389],
            [-40_450, 0, -29_389],
            [15_450, 0, -47_552],
            [0, 450_000, 0],
        ]
    );
    assert_eq!(mesh.normals, mesh.vertices);
    assert_eq!(mesh.indices, vec![5, 1, 0, 5, 2, 1, 5, 3, 2, 5, 4, 3, 5, 0, 4]);
}

#[test]
fn mesh_of_a_long_branch() {
    let mesh = create_mesh(3_453_876);
    assert_eq!(mesh.vertices[0], [123_949, 0, 0]);
    assert_eq!(mesh.vertices[5], [0, 3_453_876, 0]);
    assert_eq!(mesh.normals, mesh.vertices);
}

#[test]
fn mesh_of_a_branch_follows_its_length() {
    let branch = Branch::new(0, 1_000_000);
    let mesh = branch.get_mesh(10_000_000);
    assert_eq!(mesh.vertices[5], [0, 3_453_876, 0]);
    assert_eq!(mesh.vertices[0], [123_949, 0, 0]);
    let newborn = branch.get_mesh(0);
    assert_eq!(newborn.vertices[5], [0, 0, 0]);
    assert_eq!(newborn.vertices[0], [50_000, 0, 0]);
}

#[test]
fn every_branch_is_redrawn() {
    let branches = vec![Branch::new(0, 1_000_000), Branch::new(9_000_000, 380_000)];
    let meshes = tree_growth::branch::update(10_000_000, &branches);
    assert_eq!(meshes.len(), 2);
    assert_eq!(meshes[0].vertices[5], [0, 3_453_876, 0]);
    assert_eq!(meshes[0].vertices[0], [123_949, 0, 0]);
    assert_eq!(meshes[1].vertices[5], [0, 171_000, 0]);
    assert_eq!(meshes[1].vertices[0], [50_000, 0, 0]);
    assert!(tree_growth::branch::update(10_000_000, &Vec::new()).is_empty());
}
