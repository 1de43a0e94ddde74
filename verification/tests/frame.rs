use wireframe::frame::{
    draw_mesh, render_frame, ScreenPoint, BACKGROUND, FOREGROUND, HEIGHT, WIDTH,
};
use wireframe::mesh::{create_cube, create_octahedron, create_pyramid, Mesh};
use wireframe::raster::{clear, draw_line};
use wireframe::selection::MeshKind;

/// A screen position for each vertex: a flat oblique view that fits an
/// 80 x 60 picture.
fn oblique(mesh: &Mesh) -> Vec<ScreenPoint> {
    mesh.vertices()
        .iter()
        .map(|v| ScreenPoint::new(40 + 15 * v.x + 6 * v.z, 30 - 15 * v.y - 4 * v.z))
        .collect()
}

fn edge_by_edge(mesh: &Mesh, points: &[ScreenPoint], width: usize, height: usize) -> Vec<u32> {
    let mut buffer = vec![BACKGROUND; width * height];
    for &(from, to) in mesh.edges() {
        draw_line(
            &mut buffer,
            width,
            height,
            points[from].x,
            points[from].y,
            points[to].x,
            points[to].y,
            FOREGROUND,
        );
    }
    buffer
}

#[test]
fn canvas_constants() {
    assert_eq!(WIDTH, 800);
    assert_eq!(HEIGHT, 600);
    assert_eq!(BACKGROUND, 0x000000);
    assert_eq!(FOREGROUND, 0xffffff);
}

#[test]
fn frame_is_every_edge_on_a_cleared_picture() {
    for mesh in [create_cube(), create_pyramid(), create_octahedron()] {
        let points = oblique(&mesh);
        let mut buffer = vec![0x00ff00u32; 80 * 60];
        render_frame(&mut buffer, 80, 60, &mesh, &points);
        assert_eq!(buffer, edge_by_edge(&mesh, &points, 80, 60));
        assert!(buffer.iter().all(|&p| p == BACKGROUND || p == FOREGROUND));
        assert!(buffer.iter().any(|&p| p == FOREGROUND));
    }
}

#[test]
fn switching_mesh_leaves_no_residue() {
    let cube = MeshKind::Cube.build();
    let pyramid = MeshKind::Cube.select(Some(1)).build();
    let cube_points = oblique(&cube);
    let pyramid_points = oblique(&pyramid);

    let mut buffer = vec![0u32; 80 * 60];
    render_frame(&mut buffer, 80, 60, &cube, &cube_points);
    let cube_frame = buffer.clone();
    render_frame(&mut buffer, 80, 60, &pyramid, &pyramid_points);

    let mut fresh = vec![0u32; 80 * 60];
    render_frame(&mut fresh, 80, 60, &pyramid, &pyramid_points);
    assert_eq!(buffer, fresh);
    assert_ne!(buffer, cube_frame);
    // The cube's top-right front corner is no vertex or edge point of the pyramid.
    let corner = (30 - 15 - 4) * 80 + (40 + 15 + 6);
    assert_eq!(cube_frame[corner], FOREGROUND);
    assert_eq!(buffer[corner], BACKGROUND);
}

#[test]
fn frame_lights_both_ends_of_each_edge() {
    let mesh = create_octahedron();
    let points = oblique(&mesh);
    let mut buffer = vec![0u32; 80 * 60];
    render_frame(&mut buffer, 80, 60, &mesh, &points);
    for p in &points {
        assert_eq!(buffer[p.y as usize * 80 + p.x as usize], FOREGROUND);
    }
}

#[test]
fn frame_with_every_vertex_off_screen_is_blank() {
    let mesh = create_cube();
    let points = vec![ScreenPoint::new(-50, -50); mesh.vertex_count()];
    let mut buffer = vec![0x123456u32; 80 * 60];
    render_frame(&mut buffer, 80, 60, &mesh, &points);
    assert_eq!(buffer, vec![BACKGROUND; 80 * 60]);
}

#[test]
fn frame_clips_edges_that_leave_the_picture() {
    let mesh = create_pyramid();
    let points: Vec<ScreenPoint> = mesh
        .vertices()
        .iter()
        .map(|v| ScreenPoint::new(10 + 15 * v.x, 10 - 15 * v.y))
        .collect();
    let mut buffer = vec![0u32; 20 * 20];
    render_frame(&mut buffer, 20, 20, &mesh, &points);
    assert_eq!(buffer.len(), 400);
    assert_eq!(buffer, edge_by_edge(&mesh, &points, 20, 20));
    // Every vertex is off screen. The slanted edges from the apex at (10, -5)
    // to (-5, 25) and to (25, 25) cross the picture in 16 and 14 rows.
    assert_eq!(buffer.iter().filter(|&&p| p == FOREGROUND).count(), 30);
    assert_eq!(buffer[7], FOREGROUND);
    assert_eq!(buffer[13], FOREGROUND);
    assert_eq!(buffer[15 * 20], FOREGROUND);
    assert_eq!(buffer[13 * 20 + 19], FOREGROUND);
}

#[test]
fn draw_mesh_keeps_what_no_edge_touches() {
    let mesh = create_cube();
    let points = oblique(&mesh);
    let mut buffer = vec![0x0000ffu32; 80 * 60];
    draw_mesh(&mut buffer, 80, 60, &mesh, &points, 0xff0000);
    let mut expected = edge_by_edge(&mesh, &points, 80, 60);
    for pixel in expected.iter_mut() {
        *pixel = if *pixel == FOREGROUND { 0xff0000 } else { 0x0000ff };
    }
    assert_eq!(buffer, expected);
}

#[test]
fn frame_at_full_canvas_size() {
    let mesh = create_cube();
    let points: Vec<ScreenPoint> = mesh
        .vertices()
        .iter()
        .map(|v| ScreenPoint::new(400 + 150 * v.x + 60 * v.z, 300 - 150 * v.y - 40 * v.z))
        .collect();
    let mut buffer = vec![0u32; WIDTH * HEIGHT];
    render_frame(&mut buffer, WIDTH, HEIGHT, &mesh, &points);
    assert_eq!(buffer, edge_by_edge(&mesh, &points, WIDTH, HEIGHT));
    let mut cleared = buffer.clone();
    clear(&mut cleared, BACKGROUND);
    assert_ne!(buffer, cleared);
}
