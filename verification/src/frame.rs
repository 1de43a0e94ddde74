//! Drawing one frame: a cleared picture with every edge of a mesh on it.
//!
//! The caller projects each vertex of the mesh to a screen position; this
//! module joins the positions edge by edge.

use vstd::prelude::*;
use crate::line::on_line;
use crate::mesh::{Mesh, MeshData};
use crate::raster::{blank, clear, column_of, draw_line, lemma_pixel_index, row_of, stroke};

verus! {

/// Width of the canvas in pixels.
pub const WIDTH: usize = 800;

/// Height of the canvas in pixels.
pub const HEIGHT: usize = 600;

/// Color that every frame is cleared to: black.
pub const BACKGROUND: u32 = 0x000000;

/// Color that edges are drawn in: white.
pub const FOREGROUND: u32 = 0xffffff;

/// A position on the screen, in pixels from the top-left corner. It may lie
/// outside the picture.
#[derive(Clone, Copy, Debug, PartialEq, Eq, Structural)]
pub struct ScreenPoint {
    pub x: i32,
    pub y: i32,
}

impl ScreenPoint {
    pub fn new(x: i32, y: i32) -> (p: ScreenPoint)
        ensures
            p == (ScreenPoint { x, y }),
    {
        ScreenPoint { x, y }
    }
}

/// Whether the line that joins the screen positions of the two ends of
/// `edge` passes through `(x, y)`.
pub open spec fn edge_covers(points: Seq<ScreenPoint>, edge: (usize, usize), x: int, y: int) -> bool {
    on_line(
        points[edge.0 as int].x as int,
        points[edge.0 as int].y as int,
        points[edge.1 as int].x as int,
        points[edge.1 as int].y as int,
        x,
        y,
    )
}

/// Whether one of the first `n` edges passes through `(x, y)`.
pub open spec fn covered(
    points: Seq<ScreenPoint>,
    edges: Seq<(usize, usize)>,
    n: int,
    x: int,
    y: int,
) -> bool {
    exists|e: int| 0 <= e < n && #[trigger] edge_covers(points, edges[e], x, y)
}

/// The picture `canvas` with the first `n` edges drawn on it in `color`: a
/// pixel that one of those edges passes through takes the color, every other
/// pixel keeps its own.
pub open spec fn partial_wireframe(
    canvas: Seq<u32>,
    width: int,
    points: Seq<ScreenPoint>,
    edges: Seq<(usize, usize)>,
    n: int,
    color: u32,
) -> Seq<u32> {
    Seq::new(
        canvas.len(),
        |i: int|
            if covered(points, edges, n, column_of(i, width), row_of(i, width)) {
                color
            } else {
                canvas[i]
            },
    )
}

/// The picture `canvas` with all of `edges` drawn on it in `color`.
pub open spec fn wireframe(
    canvas: Seq<u32>,
    width: int,
    points: Seq<ScreenPoint>,
    edges: Seq<(usize, usize)>,
    color: u32,
) -> Seq<u32> {
    partial_wireframe(canvas, width, points, edges, edges.len() as int, color)
}

/// A finished frame: the edges of `mesh` in the foreground color on a
/// background-colored picture of `width * height` pixels.
pub open spec fn frame_image(
    width: int,
    height: int,
    mesh: MeshData,
    points: Seq<ScreenPoint>,
) -> Seq<u32> {
    wireframe(blank((width * height) as nat, BACKGROUND), width, points, mesh.edges, FOREGROUND)
}

/// In a finished frame the pixel in column `x` of row `y` has the foreground
/// color if an edge of the mesh passes through it, and the background color
/// if none does.
pub proof fn lemma_frame_pixel(
    width: int,
    height: int,
    mesh: MeshData,
    points: Seq<ScreenPoint>,
    x: int,
    y: int,
)
    requires
        0 <= x < width,
        0 <= y < height,
    ensures
        frame_image(width, height, mesh, points).len() == width * height,
        frame_image(width, height, mesh, points)[y * width + x] == if covered(
            points,
            mesh.edges,
            mesh.edges.len() as int,
            x,
            y,
        ) {
            FOREGROUND
        } else {
            BACKGROUND
        },
{
    lemma_pixel_index(width, height, x, y);
}

/// Drawing one more edge on a picture that holds the first `n`.
proof fn lemma_wireframe_grows(
    canvas: Seq<u32>,
    width: int,
    points: Seq<ScreenPoint>,
    edges: Seq<(usize, usize)>,
    n: int,
    color: u32,
)
    requires
        0 <= n < edges.len(),
    ensures
        stroke(
            partial_wireframe(canvas, width, points, edges, n, color),
            width,
            points[edges[n].0 as int].x as int,
            points[edges[n].0 as int].y as int,
            points[edges[n].1 as int].x as int,
            points[edges[n].1 as int].y as int,
            color,
        ) == partial_wireframe(canvas, width, points, edges, n + 1, color),
{
    let drawn = partial_wireframe(canvas, width, points, edges, n, color);
    let next = stroke(
        drawn,
        width,
        points[edges[n].0 as int].x as int,
        points[edges[n].0 as int].y as int,
        points[edges[n].1 as int].x as int,
        points[edges[n].1 as int].y as int,
        color,
    );
    let goal = partial_wireframe(canvas, width, points, edges, n + 1, color);
    assert forall|i: int| 0 <= i < canvas.len() implies next[i] == goal[i] by {
        let x = column_of(i, width);
        let y = row_of(i, width);
        if edge_covers(points, edges[n], x, y) {
            assert(covered(points, edges, n + 1, x, y));
        } else if covered(points, edges, n, x, y) {
            let e = choose|e: int| 0 <= e < n && #[trigger] edge_covers(points, edges[e], x, y);
            assert(0 <= e < n + 1 && edge_covers(points, edges[e], x, y));
        } else if covered(points, edges, n + 1, x, y) {
            let e = choose|e: int|
                0 <= e < n + 1 && #[trigger] edge_covers(points, edges[e], x, y);
            assert(e < n);
        }
    }
    assert(next =~= goal);
}

/// Draws every edge of `mesh` into `buffer` in `color`, where `points` gives
/// the screen position of each vertex. Pixels that no edge passes through
/// are left as they were.
pub fn draw_mesh(
    buffer: &mut [u32],
    width: usize,
    height: usize,
    mesh: &Mesh,
    points: &[ScreenPoint],
    color: u32,
)
    requires
        old(buffer)@.len() == width * height,
        points@.len() == mesh@.vertices.len(),
    ensures
        final(buffer)@ == wireframe(old(buffer)@, width as int, points@, mesh@.edges, color),
{
    let ghost before = buffer@;
    let count: usize = mesh.edge_count();
    let mut n: usize = 0;
    assert(buffer@ =~= partial_wireframe(before, width as int, points@, mesh@.edges, 0, color));
    while n < count
        invariant
            n <= count,
            count == mesh@.edges.len(),
            points@.len() == mesh@.vertices.len(),
            before.len() == width * height,
            buffer@ == partial_wireframe(
                before,
                width as int,
                points@,
                mesh@.edges,
                n as int,
                color,
            ),
        decreases count - n,
    {
        let (from, to) = mesh.edge(n);
        let p0 = points[from];
        let p1 = points[to];
        draw_line(buffer, width, height, p0.x, p0.y, p1.x, p1.y, color);
        proof {
            lemma_wireframe_grows(before, width as int, points@, mesh@.edges, n as int, color);
        }
        n += 1;
    }
}

/// Draws one frame: clears `buffer` to the background color, then draws every
/// edge of `mesh` in the foreground color. Nothing of what `buffer` held
/// before remains.
pub fn render_frame(
    buffer: &mut [u32],
    width: usize,
    height: usize,
    mesh: &Mesh,
    points: &[ScreenPoint],
)
    requires
        old(buffer)@.len() == width * height,
        points@.len() == mesh@.vertices.len(),
    ensures
        final(buffer)@ == frame_image(width as int, height as int, mesh@, points@),
{
    clear(buffer, BACKGROUND);
    draw_mesh(buffer, width, height, mesh, points, FOREGROUND);
}

} // verus!
