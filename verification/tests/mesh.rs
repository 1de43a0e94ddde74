use wireframe::mesh::{create_cube, create_octahedron, create_pyramid, Mesh, Vertex};

fn coordinates(mesh: &Mesh) -> Vec<(i32, i32, i32)> {
    mesh.vertices().iter().map(|v| (v.x, v.y, v.z)).collect()
}

fn distance_squared(a: Vertex, b: Vertex) -> i32 {
    (a.x - b.x) * (a.x - b.x) + (a.y - b.y) * (a.y - b.y) + (a.z - b.z) * (a.z - b.z)
}

#[test]
fn cube_has_eight_corners_at_unit_offsets() {
    let cube = create_cube();
    assert_eq!(cube.vertex_count(), 8);
    assert_eq!(
        coordinates(&cube),
        vec![
            (-1, -1, -1),
            (1, -1, -1),
            (1, 1, -1),
            (-1, 1, -1),
            (-1, -1, 1),
            (1, -1, 1),
            (1, 1, 1),
            (-1, 1, 1),
        ]
    );
}

#[test]
fn cube_has_twelve_edges() {
    let cube = create_cube();
    assert_eq!(cube.edge_count(), 12);
    assert_eq!(
        cube.edges().to_vec(),
        vec![
            (0, 1),
            (1, 2),
            (2, 3),
            (3, 0),
            (4, 5),
            (5, 6),
            (6, 7),
            (7, 4),
            (0, 4),
            (1, 5),
            (2, 6),
            (3, 7),
        ]
    );
}

#[test]
fn cube_edges_have_length_two() {
    let cube = create_cube();
    for i in 0..cube.edge_count() {
        let (from, to) = cube.edge(i);
        let d2 = distance_squared(cube.vertex(from), cube.vertex(to));
        assert_eq!(d2, 4);
        assert_eq!((d2 as f64).sqrt(), 2.0);
    }
}

#[test]
fn pyramid_has_an_apex_over_a_square_base() {
    let pyramid = create_pyramid();
    assert_eq!(pyramid.vertex_count(), 5);
    assert_eq!(pyramid.edge_count(), 8);
    assert_eq!(
        coordinates(&pyramid),
        vec![(0, 1, 0), (-1, -1, -1), (1, -1, -1), (1, -1, 1), (-1, -1, 1)]
    );
    assert_eq!(
        pyramid.edges().to_vec(),
        vec![(1, 2), (2, 3), (3, 4), (4, 1), (0, 1), (0, 2), (0, 3), (0, 4)]
    );
}

#[test]
fn octahedron_has_two_poles_and_four_equatorial_points() {
    let octahedron = create_octahedron();
    assert_eq!(octahedron.vertex_count(), 6);
    assert_eq!(octahedron.edge_count(), 12);
    assert_eq!(
        coordinates(&octahedron),
        vec![(0, 1, 0), (0, -1, 0), (-1, 0, 0), (1, 0, 0), (0, 0, -1), (0, 0, 1)]
    );
    assert_eq!(
        octahedron.edges().to_vec(),
        vec![
            (0, 2),
            (0, 3),
            (0, 4),
            (0, 5),
            (1, 2),
            (1, 3),
            (1, 4),
            (1, 5),
            (2, 4),
            (4, 3),
            (3, 5),
            (5, 2),
        ]
    );
}

#[test]
fn every_edge_joins_two_vertices_of_its_mesh() {
    for mesh in [create_cube(), create_pyramid(), create_octahedron()] {
        for &(from, to) in mesh.edges() {
            assert!(from < mesh.vertex_count());
            assert!(to < mesh.vertex_count());
            assert_ne!(from, to);
        }
    }
}

#[test]
fn accessors_agree_with_the_lists() {
    let mesh = create_octahedron();
    for i in 0..mesh.vertex_count() {
        assert_eq!(mesh.vertex(i), mesh.vertices()[i]);
    }
    for i in 0..mesh.edge_count() {
        assert_eq!(mesh.edge(i), mesh.edges()[i]);
    }
    assert_eq!(Vertex::new(1, -2, 3), Vertex { x: 1, y: -2, z: 3 });
}
